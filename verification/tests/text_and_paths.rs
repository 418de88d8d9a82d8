//! Text, numerals and paths, held against the standard library on many inputs.

use std::path::{Component, Path};

use portside::numeral::{parse_u16, parse_u32, parse_u64, parse_up_to, to_decimal, to_padded, to_signed_decimal};
use portside::path::{
    ancestor_at, file_name, find_spans, is_path_before, is_same_path, join, split_components, split_parts,
    text_between,
};
use portside::text::{
    find, is_before, lines, replace, rsplit_once_char, same, space, split_char, split_once_char, split_once_space,
    split_tag, starts_with, strip_suffix, to_chars, to_lower, trim, trim_start,
};

const SAMPLES: [&str; 24] = [
    "",
    " ",
    "a",
    "abc",
    "a b  c",
    "  lead",
    "trail \t",
    "\u{a0}nbsp\u{2003}",
    "x:y",
    ":",
    "::",
    "a:b:c",
    "[::1]:80",
    "line\nline\r\nlast",
    "\n",
    "\r\n",
    "end\r",
    "a\r\rb\n",
    "Zoë — Ünïcode",
    "&amp;&amp;",
    "aaaa",
    "TITLE",
    "p123",
    "é1",
];

#[test]
fn every_character_is_a_space_where_the_standard_library_says_so() {
    for n in 0..=0x10FFFFu32 {
        if let Some(c) = char::from_u32(n) {
            assert_eq!(space(c), c.is_whitespace(), "{n:x}");
        }
    }
}

#[test]
fn trimming_and_splitting_agree() {
    for s in SAMPLES {
        assert_eq!(trim(s), s.trim(), "{s:?}");
        assert_eq!(trim_start(s), s.trim_start(), "{s:?}");
        let pair = |p: Option<(&str, &str)>| p.map(|(a, b)| (a.to_string(), b.to_string()));
        assert_eq!(split_once_space(s), pair(s.split_once(char::is_whitespace)), "{s:?}");
        assert_eq!(split_once_char(s, ':'), pair(s.split_once(':')), "{s:?}");
        assert_eq!(rsplit_once_char(s, ':'), pair(s.rsplit_once(':')), "{s:?}");
        assert_eq!(split_char(s, ':'), s.split(':').map(|x| x.to_string()).collect::<Vec<String>>(), "{s:?}");
        assert_eq!(lines(s), s.lines().map(|x| x.to_string()).collect::<Vec<String>>(), "{s:?}");
        assert_eq!(to_chars(s), s.chars().collect::<Vec<char>>(), "{s:?}");
        let lower: String = to_lower(&to_chars(s)).into_iter().collect();
        assert_eq!(lower, s.to_ascii_lowercase(), "{s:?}");
    }
}

#[test]
fn searching_and_replacing_agree() {
    for s in SAMPLES {
        for p in ["a", "aa", "&amp;", "::", "é", "line"] {
            let byte = s.find(p);
            let index = byte.map(|b| s[..b].chars().count());
            assert_eq!(find(&to_chars(s), &to_chars(p), 0), index, "{s:?} {p:?}");
            assert_eq!(replace(s, p, "&"), s.replace(p, "&"), "{s:?} {p:?}");
            assert_eq!(starts_with(s, p), s.starts_with(p), "{s:?} {p:?}");
            assert_eq!(strip_suffix(s, p), s.strip_suffix(p).map(|x| x.to_string()), "{s:?} {p:?}");
        }
        for t in SAMPLES {
            assert_eq!(same(s, t), s == t);
            assert_eq!(is_before(s, t), s < t, "{s:?} {t:?}");
        }
    }
}

/// A field's tag is its first byte; a line that starts with a wider character has none.
#[test]
fn a_tag_is_one_byte() {
    for s in SAMPLES {
        let expected = s.split_at_checked(1).map(|(t, v)| (t.chars().next(), v.to_string()));
        let found = split_tag(s).map(|(t, v)| (Some(t), v));
        assert_eq!(found, expected, "{s:?}");
    }
}

#[test]
fn numbers_are_read_as_the_standard_library_reads_them() {
    let samples = [
        "", "0", "7", "007", "+7", "-7", "--7", "+", "-", " 7", "7 ", "65535", "65536", "4294967295", "4294967296",
        "18446744073709551615", "18446744073709551616", "99999999999999999999999", "1_000", "0x10", "٣", "1a",
        "+18446744073709551615", "00000000000000000000000001",
    ];
    for s in samples {
        assert_eq!(parse_u16(s), s.parse::<u16>().ok(), "{s:?}");
        assert_eq!(parse_u32(s), s.parse::<u32>().ok(), "{s:?}");
        assert_eq!(parse_u64(s), s.parse::<u64>().ok(), "{s:?}");
    }
    assert_eq!(parse_up_to("12", 11), None);
    assert_eq!(parse_up_to("11", 11), Some(11));
}

#[test]
fn numbers_are_written_as_the_standard_library_writes_them() {
    for n in [0u128, 9, 10, 99, 100, 65535, u64::MAX as u128, u128::MAX] {
        assert_eq!(to_decimal(n), n.to_string());
    }
    for n in [0, 1, -1, 10, -10, i32::MAX, i32::MIN] {
        assert_eq!(to_signed_decimal(n), n.to_string());
    }
    for n in [0u64, 5, 42, 2026, 123456] {
        assert_eq!(to_padded(n, 4), format!("{n:04}"));
        assert_eq!(to_padded(n, 0), n.to_string());
    }
}

const PATHS: [&str; 26] = [
    "",
    "/",
    "//",
    ".",
    "..",
    "/.",
    "./",
    "./a",
    "a",
    "a/",
    "a//b",
    "a/./b",
    "a/../b",
    "/a",
    "/a/",
    "/a/b",
    "/a/b/.",
    "//a///b//",
    "/a/..",
    "../a",
    "/Users/dev/my project/.git",
    "a-b",
    "/a-b",
    "/a.b",
    "/.hidden",
    "/é/ü",
];

fn parts(p: &str) -> Vec<String> {
    Path::new(p)
        .components()
        .filter(|c| !matches!(c, Component::RootDir))
        .map(|c| c.as_os_str().to_str().unwrap().to_string())
        .collect()
}

#[test]
fn components_agree_with_the_standard_library() {
    for p in PATHS {
        assert_eq!(split_components(p), parts(p), "{p:?}");
        let all: Vec<String> =
            Path::new(p).components().map(|c| c.as_os_str().to_str().unwrap().to_string()).collect();
        assert_eq!(split_parts(p), all, "{p:?}");
        assert_eq!(
            file_name(p),
            Path::new(p).file_name().map(|n| n.to_str().unwrap().to_string()),
            "{p:?}"
        );
        for name in [".git", "a.b"] {
            assert_eq!(join(p, name), Path::new(p).join(name).to_str().unwrap(), "{p:?}");
        }
    }
}

/// The directories that are walked are those that the standard library walks, from the
/// path itself up.
#[test]
fn ancestors_agree_with_the_standard_library() {
    for p in PATHS {
        let chars = to_chars(p);
        let found = find_spans(&chars);
        let walked: Vec<String> = Path::new(p).ancestors().map(|a| a.to_str().unwrap().to_string()).collect();
        let mut ours: Vec<String> = Vec::new();
        for k in (0..=found.len()).rev() {
            ours.push(ancestor_at(&chars, &found, k));
        }
        assert_eq!(ours.len(), walked.len(), "{p:?}");
        for (a, b) in ours.iter().zip(walked.iter()) {
            assert_eq!(Path::new(a), Path::new(b), "{p:?}");
        }
        for i in 0..=found.len() {
            for j in i + 1..=found.len() {
                let above = ancestor_at(&chars, &found, i);
                let below = ancestor_at(&chars, &found, j);
                let rest = Path::new(&below).strip_prefix(Path::new(&above)).unwrap();
                assert_eq!(Path::new(&text_between(&chars, &found, i, j)), rest, "{p:?} {i} {j}");
            }
        }
    }
}

#[test]
fn paths_are_ordered_as_the_standard_library_orders_them() {
    for a in PATHS {
        for b in PATHS {
            assert_eq!(is_same_path(a, b), Path::new(a) == Path::new(b), "{a:?} {b:?}");
            assert_eq!(is_path_before(a, b), Path::new(a) < Path::new(b), "{a:?} {b:?}");
        }
    }
}
