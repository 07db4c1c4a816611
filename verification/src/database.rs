//! The record page: one window of rows of a table or of a query's result.

use vstd::prelude::*;
use crate::text::clone_texts;

verus! {

/// Name, columns and size of a table.
#[derive(Debug, Clone)]
pub struct TableInfo {
    pub name: String,
    pub columns: Vec<String>,
    pub total_rows: usize,
}

/// A page of rows. `total_rows` counts the rows of the whole set that the
/// page is a window of.
#[derive(Debug, Clone)]
pub struct QueryResult {
    pub columns: Vec<String>,
    pub rows: Vec<Vec<String>>,
    pub total_rows: usize,
}

pub struct PageView {
    pub columns: Seq<Seq<char>>,
    pub rows: Seq<Seq<Seq<char>>>,
    pub total_rows: nat,
}

impl View for QueryResult {
    type V = PageView;

    open spec fn view(&self) -> PageView {
        PageView {
            columns: self.columns.deep_view(),
            rows: self.rows.deep_view(),
            total_rows: self.total_rows as nat,
        }
    }
}

impl DeepView for QueryResult {
    type V = PageView;

    open spec fn deep_view(&self) -> PageView {
        self@
    }
}

impl PageView {
    /// Every row has one cell per column.
    pub open spec fn well_formed(self) -> bool {
        forall|r: int| 0 <= r < self.rows.len() ==> #[trigger] self.rows[r].len()
            == self.columns.len()
    }

    /// Index of the first column that the user can move to and edit: the one
    /// after `rowid`, where the page starts with that column.
    pub open spec fn first_editable(self) -> int {
        if self.columns.len() > 0 && self.columns[0] == "rowid"@ {
            1
        } else {
            0
        }
    }

    /// Index of the first column named `name`, if there is one.
    pub open spec fn column_index(self, name: Seq<char>) -> Option<int> {
        index_of_text(self.columns, name)
    }
}

/// Index of the first of `texts` that equals `t`.
pub open spec fn index_of_text(texts: Seq<Seq<char>>, t: Seq<char>) -> Option<int>
    decreases texts.len(),
{
    if texts.len() == 0 {
        None
    } else {
        match index_of_text(texts.drop_last(), t) {
            Some(i) => Some(i),
            None => if texts.last() == t {
                Some(texts.len() - 1)
            } else {
                None
            },
        }
    }
}

pub proof fn lemma_index_of_text(texts: Seq<Seq<char>>, t: Seq<char>)
    ensures
        match index_of_text(texts, t) {
            Some(i) => 0 <= i < texts.len() && texts[i] == t && forall|j: int|
                0 <= j < i ==> texts[j] != t,
            None => forall|j: int| 0 <= j < texts.len() ==> texts[j] != t,
        },
        index_of_text(texts, t) is Some <==> texts.contains(t),
    decreases texts.len(),
{
    if texts.len() > 0 {
        let head = texts.drop_last();
        lemma_index_of_text(head, t);
        match index_of_text(head, t) {
            Some(i) => {
                assert(texts[i] == head[i]);
                assert forall|j: int| 0 <= j < i implies texts[j] != t by {
                    assert(texts[j] == head[j]);
                }
            },
            None => {
                assert forall|j: int| 0 <= j < texts.len() - 1 implies texts[j] != t by {
                    assert(texts[j] == head[j]);
                }
            },
        }
    }
}

/// Index of the first of `texts` that equals `t`.
pub fn position_of(texts: &Vec<String>, t: &str) -> (r: Option<usize>)
    ensures
        match r {
            Some(i) => index_of_text(texts.deep_view(), t@) == Some(i as int),
            None => index_of_text(texts.deep_view(), t@) is None,
        },
{
    let wanted = t.to_owned();
    let mut i: usize = 0;
    proof {
        lemma_index_of_text(texts.deep_view(), t@);
    }
    while i < texts.len()
        invariant
            i <= texts.len(),
            wanted@ == t@,
            forall|j: int| 0 <= j < i ==> texts.deep_view()[j] != t@,
        decreases texts.len() - i,
    {
        proof {
            assert(texts.deep_view()[i as int] == texts[i as int]@);
        }
        if texts[i] == wanted {
            proof {
                let all = texts.deep_view();
                lemma_index_of_text(all, t@);
                match index_of_text(all, t@) {
                    Some(k) => {
                        if k < i {
                            assert(all[k] != t@);
                        }
                        if k > i {
                            assert(all[i as int] != t@);
                        }
                    },
                    None => {
                        assert(all[i as int] != t@);
                    },
                }
            }
            return Some(i);
        }
        i += 1;
    }
    None
}

/// A copy of a list of rows.
pub fn clone_rows(rows: &Vec<Vec<String>>) -> (r: Vec<Vec<String>>)
    ensures
        r.deep_view() == rows.deep_view(),
        r.len() == rows.len(),
{
    let mut r: Vec<Vec<String>> = Vec::new();
    let mut i: usize = 0;
    while i < rows.len()
        invariant
            i <= rows.len(),
            r.len() == i,
            forall|k: int| 0 <= k < i ==> r[k].deep_view() == rows[k].deep_view(),
        decreases rows.len() - i,
    {
        r.push(clone_texts(&rows[i]));
        i += 1;
    }
    proof {
        assert(r.deep_view() =~= rows.deep_view());
    }
    r
}

impl QueryResult {
    /// Every row has one cell per column.
    pub open spec fn well_formed(&self) -> bool {
        self@.well_formed()
    }

    /// A copy of this page.
    pub fn duplicate(&self) -> (r: QueryResult)
        ensures
            r@ == self@,
    {
        QueryResult {
            columns: clone_texts(&self.columns),
            rows: clone_rows(&self.rows),
            total_rows: self.total_rows,
        }
    }

    /// Whether the page starts with the column `rowid`.
    pub fn has_rowid(&self) -> (r: bool)
        ensures
            r == (self@.first_editable() == 1),
    {
        if self.columns.len() == 0 {
            return false;
        }
        let name = "rowid".to_owned();
        proof {
            assert(self.columns.deep_view()[0] == self.columns[0]@);
        }
        self.columns[0] == name
    }

    /// Index of the first column that the user can move to and edit.
    pub fn min_col(&self) -> (r: usize)
        ensures
            r == self@.first_editable(),
    {
        if self.has_rowid() {
            1
        } else {
            0
        }
    }

    /// Whether every row has one cell per column.
    pub fn is_well_formed(&self) -> (r: bool)
        ensures
            r == self.well_formed(),
    {
        let mut i: usize = 0;
        while i < self.rows.len()
            invariant
                i <= self.rows.len(),
                forall|r: int| 0 <= r < i ==> #[trigger] self@.rows[r].len() == self@.columns.len(),
            decreases self.rows.len() - i,
        {
            proof {
                assert(self@.rows[i as int] == self.rows[i as int].deep_view());
            }
            if self.rows[i].len() != self.columns.len() {
                return false;
            }
            i += 1;
        }
        true
    }
}

} // verus!
