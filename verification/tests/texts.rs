//! Text, numbers, order and fields, held against the standard library.
use miracast::fields::FieldMap;
use miracast::number::{parse_number, parse_u16, parse_u32, parse_usize, push_hex, to_decimal};
use miracast::order::{relate, Relation};
use miracast::text::{
    chars_of, count_words, find, is_whitespace, join, same_text, split_lines, split_once,
    starts_with, string_of, take_line, take_word, to_ascii_lowercase, trim, trim_end, trim_start,
};
use std::cmp::Ordering;
use std::collections::BTreeMap;

const SAMPLES: [&str; 14] = [
    "",
    " ",
    "a",
    "  two words ",
    "one\ntwo\r\nthree\r\n\r\nfour\r",
    "\r\n",
    "\n\n",
    "a\rb",
    "tab\tand\u{a0}wide\u{3000}space",
    "name: value: more",
    ":",
    "Größe=ÄÖ",
    "\u{feff}mark",
    "UPPER lower 123",
];

fn text(s: &[char]) -> String {
    string_of(s)
}

#[test]
fn white_space_is_that_of_unicode() {
    for c in '\0'..=char::MAX {
        assert_eq!(is_whitespace(c), c.is_whitespace(), "{c:?}");
    }
}

#[test]
fn trimming_agrees_with_the_standard_library() {
    for s in SAMPLES {
        let chars = chars_of(s);
        assert_eq!(text(trim(&chars)), s.trim());
        assert_eq!(text(trim_start(&chars)), s.trim_start());
        assert_eq!(text(trim_end(&chars)), s.trim_end());
        assert_eq!(to_ascii_lowercase(&chars), s.to_ascii_lowercase());
    }
}

#[test]
fn lines_and_words_agree_with_the_standard_library() {
    for s in SAMPLES {
        let lines: Vec<&str> = s.lines().map(str::trim).collect();
        assert_eq!(split_lines(s), lines);
        let chars = chars_of(s);
        assert_eq!(count_words(&chars), s.split_whitespace().count());
        let mut rest = &chars[..];
        for word in s.split_whitespace() {
            let (first, tail) = take_word(rest).unwrap();
            assert_eq!(text(first), word);
            rest = tail;
        }
        assert!(take_word(rest).is_none());
        if let Some(first) = s.lines().next() {
            assert_eq!(text(take_line(&chars).0), first);
        }
    }
}

#[test]
fn splitting_and_finding_agree_with_the_standard_library() {
    for s in SAMPLES {
        let chars = chars_of(s);
        let parts = split_once(&chars, ':').map(|(a, b)| (text(a), text(b)));
        let expected = s
            .split_once(':')
            .map(|(a, b)| (a.to_owned(), b.to_owned()));
        assert_eq!(parts, expected);
        let position = s.chars().position(|c| c == 'o').unwrap_or(chars.len());
        assert_eq!(find(&chars, 'o'), position);
        for prefix in ["", "a", "name", "one\n", "Größe"] {
            assert_eq!(starts_with(&chars, prefix), s.starts_with(prefix));
        }
        for other in SAMPLES {
            assert_eq!(same_text(&chars, other), s == other);
        }
    }
}

#[test]
fn joining_agrees_with_the_standard_library() {
    let mut list = Vec::new();
    for s in ["a", "", "bc"] {
        assert_eq!(join(&list, ", "), list.join(", "));
        list.push(s.to_owned());
    }
    assert_eq!(join(&list, ", "), "a, , bc");
}

#[test]
fn numbers_are_read_as_by_the_standard_library() {
    let samples = [
        "", "+", "-", "0", "+7", "-0", "007", "65535", "65536", "4294967295", "4294967296",
        "18446744073709551615", "18446744073709551616", " 1", "1 ", "0x10", "++1", "1_000", "٣",
    ];
    for s in samples {
        let chars = chars_of(s);
        assert_eq!(parse_u16(&chars), s.parse().ok(), "{s}");
        assert_eq!(parse_u32(&chars), s.parse().ok(), "{s}");
        assert_eq!(parse_usize(&chars), s.parse().ok(), "{s}");
        assert_eq!(parse_number(&chars, u64::MAX), s.parse().ok(), "{s}");
    }
}

#[test]
fn numbers_are_written_as_by_the_standard_library() {
    for n in [0, 7, 10, 19000, 65535, 4294967296, u64::MAX] {
        assert_eq!(to_decimal(n), n.to_string());
        assert_eq!(parse_number(&chars_of(&to_decimal(n)), u64::MAX), Some(n));
    }
    for n in [0u32, 9, 10, 255, 0xdeadbeef, u32::MAX] {
        let mut s = String::from("niri");
        push_hex(&mut s, n as u64, 8);
        assert_eq!(s, format!("niri{n:08x}"));
    }
}

#[test]
fn texts_are_ordered_as_by_the_standard_library() {
    for a in SAMPLES {
        for b in SAMPLES {
            let expected = match a.cmp(b) {
                Ordering::Less => Relation::Before,
                Ordering::Equal => Relation::Same,
                Ordering::Greater => Relation::After,
            };
            assert_eq!(relate(a, b), expected, "{a:?} {b:?}");
        }
    }
    assert_eq!(relate("\u{ffff}", "\u{10000}"), Relation::Before);
}

#[test]
fn fields_behave_like_an_ordered_map() {
    let mut fields = FieldMap::new();
    let mut expected = BTreeMap::new();
    for (name, value) in [("b", "1"), ("a", "2"), ("", "3"), ("b", "4"), ("Z", "5"), ("ä", "6")] {
        fields.insert(name.to_owned(), value.to_owned());
        expected.insert(name.to_owned(), value.to_owned());
        let keys: Vec<String> = expected.keys().cloned().collect();
        assert_eq!(fields.keys(), keys);
        for name in ["", "a", "b", "c", "Z", "ä"] {
            assert_eq!(fields.get(name), expected.get(name));
        }
    }
    assert_eq!(fields.clone(), fields);
}
