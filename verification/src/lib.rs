//! The core of a terminal browser for tabular data: the record page, the
//! expression engine of computed columns, their store, and the navigation
//! controller.

pub mod compute;
pub mod config;
pub mod data_source;
pub mod database;
pub mod error;
pub mod evaluate;
pub mod expression;
pub mod file_reader;
pub mod number;
pub mod numeric;
pub mod persistence;
pub mod presentation;
pub mod text;
pub mod ui;
