//! The colours of the display, as texts of hexadecimal digits.

use vstd::prelude::*;
use crate::text::chars_of;

verus! {

#[derive(Debug, Clone)]
pub struct ColorConfig {
    pub border: String,
    pub text: String,
    pub number: String,
    pub selected_border: String,
    pub selected_text: String,
    pub selected_bg: String,
    pub edit_border: String,
    pub edit_text: String,
    pub edit_bg: String,
    pub header: String,
    pub status: String,
    pub error: String,
    pub help: String,
    pub help_bg: String,
    pub help_title: String,
    pub help_section_header: String,
    pub help_key: String,
    pub help_description: String,
    pub column_header: String,
    pub query_bg: String,
    pub query_text: String,
    pub query_border: String,
    pub edit_area_bg: String,
    pub detailed_view_bg: String,
    pub detailed_view_border: String,
    pub detailed_view_title: String,
    pub detailed_view_field: String,
    pub detailed_view_value: String,
}

#[derive(Debug, Clone)]
pub struct Config {
    pub colors: ColorConfig,
}

/// A colour by its red, green and blue parts.
#[derive(Debug, Clone, Copy, PartialEq, Eq, Structural)]
pub struct Rgb {
    pub r: u8,
    pub g: u8,
    pub b: u8,
}

#[derive(Debug, Clone, Copy, PartialEq, Eq, Structural)]
pub enum ColorError {
    /// The text has neither six nor eight characters behind its `#`.
    InvalidFormat,
    /// A pair of characters is no hexadecimal number.
    InvalidDigit,
}

impl Default for ColorConfig {
    fn default() -> (r: ColorConfig)
        ensures
            r.border@ == "#464b57ff"@,
            r.text@ == "#dce0e5ff"@,
            r.number@ == "#83c9d4ff"@,
            r.selected_border@ == "#f1c40fff"@,
            r.selected_text@ == "#000000ff"@,
            r.selected_bg@ == "#00bcd4ff"@,
            r.edit_border@ == "#e74c3cff"@,
            r.edit_text@ == "#000000ff"@,
            r.edit_bg@ == "#f1c40fff"@,
            r.header@ == "#27ae60ff"@,
            r.status@ == "#27ae60ff"@,
            r.error@ == "#e74c3cff"@,
            r.help@ == "#9b59b6ff"@,
            r.help_bg@ == "#000000ff"@,
            r.help_title@ == "#f39c12ff"@,
            r.help_section_header@ == "#27ae60ff"@,
            r.help_key@ == "#3498dbff"@,
            r.help_description@ == "#ecf0f1ff"@,
            r.column_header@ == "#9b59b6ff"@,
            r.query_bg@ == "#2c3e50ff"@,
            r.query_text@ == "#ecf0f1ff"@,
            r.query_border@ == "#3498dbff"@,
            r.edit_area_bg@ == "#ffffffff"@,
            r.detailed_view_bg@ == "#000000ff"@,
            r.detailed_view_border@ == "#f1c40fff"@,
            r.detailed_view_title@ == "#f1c40fff"@,
            r.detailed_view_field@ == "#3498dbff"@,
            r.detailed_view_value@ == "#ecf0f1ff"@,
    {
        ColorConfig {
            border: "#464b57ff".to_owned(),
            text: "#dce0e5ff".to_owned(),
            number: "#83c9d4ff".to_owned(),
            selected_border: "#f1c40fff".to_owned(),
            selected_text: "#000000ff".to_owned(),
            selected_bg: "#00bcd4ff".to_owned(),
            edit_border: "#e74c3cff".to_owned(),
            edit_text: "#000000ff".to_owned(),
            edit_bg: "#f1c40fff".to_owned(),
            header: "#27ae60ff".to_owned(),
            status: "#27ae60ff".to_owned(),
            error: "#e74c3cff".to_owned(),
            help: "#9b59b6ff".to_owned(),
            help_bg: "#000000ff".to_owned(),
            help_title: "#f39c12ff".to_owned(),
            help_section_header: "#27ae60ff".to_owned(),
            help_key: "#3498dbff".to_owned(),
            help_description: "#ecf0f1ff".to_owned(),
            column_header: "#9b59b6ff".to_owned(),
            query_bg: "#2c3e50ff".to_owned(),
            query_text: "#ecf0f1ff".to_owned(),
            query_border: "#3498dbff".to_owned(),
            edit_area_bg: "#ffffffff".to_owned(),
            detailed_view_bg: "#000000ff".to_owned(),
            detailed_view_border: "#f1c40fff".to_owned(),
            detailed_view_title: "#f1c40fff".to_owned(),
            detailed_view_field: "#3498dbff".to_owned(),
            detailed_view_value: "#ecf0f1ff".to_owned(),
        }
    }
}

impl Default for Config {
    fn default() -> (r: Config)
        ensures
            r.colors.border@ == "#464b57ff"@,
            r.colors.text@ == "#dce0e5ff"@,
    {
        Config { colors: ColorConfig::default() }
    }
}

/// The value of a hexadecimal digit.
pub open spec fn hex_value(c: char) -> Option<int> {
    if '0' <= c <= '9' {
        Some(c as int - '0' as int)
    } else if 'a' <= c <= 'f' {
        Some(c as int - 'a' as int + 10)
    } else if 'A' <= c <= 'F' {
        Some(c as int - 'A' as int + 10)
    } else {
        None
    }
}

/// The number that two characters stand for: two hexadecimal digits, or `+`
/// and one.
pub open spec fn pair_value(hi: char, lo: char) -> Option<int> {
    match hex_value(lo) {
        Some(l) => match hex_value(hi) {
            Some(h) => Some(16 * h + l),
            None => if hi == '+' {
                Some(l)
            } else {
                None
            },
        },
        None => None,
    }
}

/// `s` without its leading `#` characters.
pub open spec fn without_hashes(s: Seq<char>) -> Seq<char>
    decreases s.len(),
{
    if s.len() > 0 && s[0] == '#' {
        without_hashes(s.drop_first())
    } else {
        s
    }
}

/// The colour that a text stands for: behind any `#`, six characters, or
/// eight of which the last two do not count, that pair by pair give red,
/// green and blue.
pub open spec fn color_of(hex: Seq<char>) -> Result<Rgb, ColorError> {
    let h = without_hashes(hex);
    if h.len() != 6 && h.len() != 8 {
        Err(ColorError::InvalidFormat)
    } else {
        match (pair_value(h[0], h[1]), pair_value(h[2], h[3]), pair_value(h[4], h[5])) {
            (Some(r), Some(g), Some(b)) => Ok(Rgb { r: r as u8, g: g as u8, b: b as u8 }),
            _ => Err(ColorError::InvalidDigit),
        }
    }
}

fn hex_digit(c: char) -> (r: Option<u8>)
    ensures
        match r {
            Some(v) => hex_value(c) == Some(v as int) && v < 16,
            None => hex_value(c) is None,
        },
{
    if '0' <= c && c <= '9' {
        Some((c as u32 - '0' as u32) as u8)
    } else if 'a' <= c && c <= 'f' {
        Some((c as u32 - 'a' as u32 + 10) as u8)
    } else if 'A' <= c && c <= 'F' {
        Some((c as u32 - 'A' as u32 + 10) as u8)
    } else {
        None
    }
}

fn hex_pair(hi: char, lo: char) -> (r: Option<u8>)
    ensures
        match r {
            Some(v) => pair_value(hi, lo) == Some(v as int),
            None => pair_value(hi, lo) is None,
        },
{
    match hex_digit(lo) {
        Some(l) => match hex_digit(hi) {
            Some(h) => Some(16 * h + l),
            None => if hi == '+' {
                Some(l)
            } else {
                None
            },
        },
        None => None,
    }
}

/// The colour that `hex` stands for.
pub fn parse_color(hex: &str) -> (r: Result<Rgb, ColorError>)
    ensures
        r == color_of(hex@),
{
    let v = chars_of(hex);
    let n = v.len();
    let mut i: usize = 0;
    proof {
        assert(v@.subrange(0, n as int) =~= v@);
    }
    while i < n && v[i] == '#'
        invariant
            i <= n,
            n == v.len(),
            without_hashes(v@) == without_hashes(v@.subrange(i as int, n as int)),
        decreases n - i,
    {
        proof {
            assert(v@.subrange(i as int, n as int).drop_first() =~= v@.subrange(i + 1, n as int));
        }
        i += 1;
    }
    let ghost h = v@.subrange(i as int, n as int);
    proof {
        assert(without_hashes(h) == h);
    }
    if n - i != 6 && n - i != 8 {
        return Err(ColorError::InvalidFormat);
    }
    proof {
        assert(forall|k: int| 0 <= k < 6 ==> h[k] == v@[i + k]);
    }
    match (hex_pair(v[i], v[i + 1]), hex_pair(v[i + 2], v[i + 3]), hex_pair(v[i + 4], v[i + 5])) {
        (Some(r), Some(g), Some(b)) => Ok(Rgb { r, g, b }),
        _ => Err(ColorError::InvalidDigit),
    }
}

} // verus!
