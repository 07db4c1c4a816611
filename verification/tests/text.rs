use sqbrowser::number::is_number_text;
use sqbrowser::text::{
    chars_of, contains_text, decimal_chars, find_from, find_last, is_space_char, join_words,
    order_of, remove_char, replace_all, split_words, text_of, trim_chars, Rank,
};

fn chars(s: &str) -> Vec<char> {
    s.chars().collect()
}

fn text(v: &Vec<char>) -> String {
    v.iter().collect()
}

#[test]
fn chars_and_text_round_trip() {
    for s in ["", "a", "héllo wörld", "日本語", " x "] {
        assert_eq!(chars_of(s), chars(s));
        assert_eq!(text_of(&chars(s)), s);
    }
}

#[test]
fn white_space_is_what_char_says() {
    for n in 0..=0x10FFFFu32 {
        if let Some(c) = char::from_u32(n) {
            assert_eq!(is_space_char(c), c.is_whitespace(), "U+{:04X}", n);
        }
    }
}

#[test]
fn trim_is_what_str_says() {
    for s in ["", " ", "  a  ", "\t\na b\r\n", "a", "\u{3000}x\u{a0}", " \u{2003} ", "x y  "] {
        assert_eq!(text(&trim_chars(&chars(s))), s.trim(), "{:?}", s);
    }
}

#[test]
fn remove_char_removes_all() {
    assert_eq!(text(&remove_char(&chars(" 1 + 2 "), ' ')), "1+2");
    assert_eq!(text(&remove_char(&chars("   "), ' ')), "");
    assert_eq!(text(&remove_char(&chars("abc"), ' ')), "abc");
}

#[test]
fn find_first_and_last() {
    let v = chars("a(b)(c)d");
    assert_eq!(find_from(&v, '(', 0), Some(1));
    assert_eq!(find_from(&v, '(', 2), Some(4));
    assert_eq!(find_from(&v, '(', 5), None);
    assert_eq!(find_from(&v, '(', 100), None);
    assert_eq!(find_last(&v, '('), Some(4));
    assert_eq!(find_last(&v, ')'), Some(6));
    assert_eq!(find_last(&v, 'x'), None);
    assert_eq!(find_last(&chars(""), 'x'), None);
}

#[test]
fn replace_is_what_str_says() {
    let cases = [
        ("Age - mean(Age)", "Age", "10"),
        ("aaaa", "aa", "b"),
        ("aaa", "aa", "b"),
        ("abc", "x", "y"),
        ("abc", "abc", ""),
        ("abcabc", "bc", "bcbc"),
        ("", "a", "b"),
        ("ab", "abc", "x"),
        ("xaxax", "a", "aa"),
    ];
    for (s, from, to) in cases {
        assert_eq!(
            text(&replace_all(&chars(s), &chars(from), &chars(to))),
            s.replace(from, to),
            "{:?} {:?} {:?}",
            s,
            from,
            to
        );
    }
}

#[test]
fn replace_of_nothing_changes_nothing() {
    assert_eq!(text(&replace_all(&chars("abc"), &chars(""), &chars("x"))), "abc");
}

#[test]
fn contains_is_what_str_says() {
    let cases = [("SELECT * FROM X", "FROM"), ("select", "SELECT"), ("", ""), ("abc", ""), ("ab", "abc"), ("xxabc", "abc")];
    for (s, pat) in cases {
        assert_eq!(contains_text(&chars(s), &chars(pat)), s.contains(pat), "{:?} {:?}", s, pat);
    }
}

#[test]
fn order_is_that_of_strings() {
    let samples = ["", "a", "ab", "b", "B", "é", "z", "aa", "Age", "age", "日本", "a b"];
    for a in samples {
        for b in samples {
            let expected = if a < b {
                Rank::Before
            } else if a == b {
                Rank::Same
            } else {
                Rank::After
            };
            assert_eq!(order_of(&chars(a), &chars(b)), expected, "{:?} {:?}", a, b);
        }
    }
}

#[test]
fn decimal_is_what_to_string_says() {
    for n in [0u64, 1, 9, 10, 11, 99, 100, 12345, 1_000_000, u64::MAX] {
        assert_eq!(text(&decimal_chars(n)), n.to_string());
    }
}

#[test]
fn words_are_what_split_whitespace_says() {
    for s in ["", "  ", "SELECT * FROM x", "  a\tb\n c  ", "one", "x.name,\u{a0}y"] {
        let expected: Vec<String> = s.split_whitespace().map(|w| w.to_string()).collect();
        let got: Vec<String> = split_words(&chars(s)).iter().map(text).collect();
        assert_eq!(got, expected, "{:?}", s);
        assert_eq!(text(&join_words(&split_words(&chars(s)))), expected.join(" "));
    }
}

#[test]
fn numbers_are_what_parse_accepts() {
    let samples = [
        "", " ", "0", "1", "-1", "+1", "007", "1.5", "1.", ".5", ".", "+.", "-.5", "+5.",
        "1e5", "1E5", "1e+5", "1e-5", "1e", "1e+", "e5", ".e5", "1.e5", ".5e5", "1.5e10",
        "1e5.5", "1e5e5", "inf", "-inf", "+inf", "Inf", "INF", "iNf", "infinity", "Infinity",
        "-INFINITY", "infinit", "infinityy", "nan", "NaN", "-nan", "+NAN", "na", "nann",
        "0x10", "1_000", "1,5", " 1", "1 ", "--1", "+-1", "1-", "abc", "Age", "1a", "a1",
        "１", "1.2.3", "..", "1..2", "+", "-", "１e5", "inf ", "1f", "1d", "1e5f",
        "99999999999999999999999999999", "0.000000000000000000000001", "1e400", "1e-400",
    ];
    for s in samples {
        assert_eq!(is_number_text(s), s.parse::<f64>().is_ok(), "{:?}", s);
    }
}

#[test]
fn numbers_of_three_characters_are_what_parse_accepts() {
    let alphabet = "0159+-.eEiInNfFaAxX ";
    for a in alphabet.chars() {
        for b in alphabet.chars() {
            for c in alphabet.chars() {
                let s: String = vec![a, b, c].into_iter().collect();
                assert_eq!(is_number_text(&s), s.parse::<f64>().is_ok(), "{:?}", s);
            }
        }
    }
}
