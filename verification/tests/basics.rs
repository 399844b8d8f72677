use stryvo::number;
use stryvo::path;
use stryvo::text;
use stryvo::text_map::TextMap;

const SAMPLES: [&str; 14] = [
    "",
    " ",
    "a",
    " a b ",
    "\ta\u{a0}b\u{3000}",
    "a;;",
    "\"a\"",
    "one\ntwo\r\n\nthree",
    "ends\n",
    "\r\n",
    "äöü ß\u{85}x",
    "zone=ip,zone",
    "x#y#z",
    "UPPER Ärger",
];

#[test]
fn white_space_is_that_of_characters() {
    for u in 0..0x11_0000u32 {
        if let Some(c) = char::from_u32(u) {
            assert_eq!(text::is_white_space(c), c.is_whitespace(), "{:x}", u);
        }
    }
}

#[test]
fn trimming_and_splitting() {
    for s in SAMPLES {
        assert_eq!(text::trim(s), s.trim());
        assert_eq!(text::trim_end_char(s, ';'), s.trim_end_matches(';'));
        assert_eq!(text::trim_char(s, '"'), s.trim_matches('"'));
        assert_eq!(text::split_words(s), s.split_whitespace().collect::<Vec<&str>>());
        assert_eq!(text::split_lines(s), s.lines().collect::<Vec<&str>>());
        assert_eq!(text::split_char(s, ','), s.split(',').collect::<Vec<&str>>());
        assert_eq!(text::up_to_char(s, '#'), s.split('#').next().unwrap());
        assert_eq!(text::str_byte_len(s), s.len());
        assert_eq!(text::chars_of(s), s.chars().collect::<Vec<char>>());
        assert_eq!(text::to_lower(s), s.to_ascii_lowercase());
    }
}

#[test]
fn parts_of_texts() {
    for s in SAMPLES {
        for p in ["", "a", "zone=", "\n", " ", "zzzzzzzzzzzzzzzzzzzz", "ß"] {
            assert_eq!(text::starts_with(s, p), s.starts_with(p));
            assert_eq!(text::ends_with(s, p), s.ends_with(p));
            assert_eq!(text::contains(s, p), s.contains(p));
            assert_eq!(text::str_eq(s, p), s == p);
        }
    }
    assert_eq!(text::trim_prefixes("ababc", "ab"), "c");
    assert_eq!(text::trim_prefixes("abac", "ab"), "ac");
    assert_eq!(text::trim_suffixes("5r/sr/s", "r/s"), "5");
    assert!(text::lowered_eq("ETag", "etag"));
    assert!(!text::lowered_eq("ETags", "etag"));
    assert_eq!(text::find_char("abc", 'c'), 2);
    assert_eq!(text::find_char("abc", 'd'), 3);
}

#[test]
fn numerals() {
    for n in [0u128, 7, 10, 99, 100, 65535, u64::MAX as u128, u128::MAX] {
        assert_eq!(number::decimal_text(n), n.to_string());
    }
    for n in [0usize, 7, 10, 99, 100, 12345] {
        assert_eq!(number::decimal_two_text(n), format!("{:02}", n));
    }
    for n in [0u32, 9, 10, 15, 16, 255, 0xdead_beef, u32::MAX] {
        assert_eq!(number::hexadecimal_text(n), format!("{:x}", n));
    }
}

#[test]
fn reading_numerals() {
    for s in [
        "", "+", "-", "0", "+0", "-0", "007", "42", "+42", "-42", " 1", "1 ", "1_0", "9x",
        "18446744073709551615", "18446744073709551616", "9223372036854775807",
        "9223372036854775808", "-9223372036854775808", "-9223372036854775809", "++1", "+-1", "٣",
        "99999999999999999999999999999999999999999999",
    ] {
        assert_eq!(number::parse_usize(s), s.parse::<usize>().ok(), "{:?}", s);
        assert_eq!(number::parse_i64(s), s.parse::<i64>().ok(), "{:?}", s);
    }
    for s in ["true", "false", "True", "1", "", "true "] {
        assert_eq!(number::parse_bool(s), s.parse::<bool>().ok(), "{:?}", s);
    }
}

const PATHS: [&str; 22] = [
    "", "/", "a", "/a", "a/", "a/b", "a//b", "a/./b", "./a", "a/.", "a/..", "..", ".", "/a/b.tmp",
    "a.", ".tmp", "x.tar.tmp", "a/b.tmp/", "a/b.tmp/.", "../a", "/..", "//a",
];

#[test]
fn paths_are_joined_and_told_apart() {
    for a in PATHS {
        for b in PATHS {
            let joined = std::path::Path::new(a).join(b);
            assert_eq!(path::join(a, b), joined.to_str().unwrap(), "{:?} {:?}", a, b);
            let same = std::path::Path::new(a) == std::path::Path::new(b);
            assert_eq!(path::path_eq(a, b), same, "{:?} {:?}", a, b);
        }
    }
}

#[test]
fn names_and_extensions_of_files() {
    for a in PATHS {
        let p = std::path::Path::new(a);
        assert_eq!(path::path_file_name(a), p.file_name().and_then(|n| n.to_str()), "{:?}", a);
        for e in ["tmp", "", "tar", "b"] {
            let expected = p.extension().map_or(false, |x| x == e);
            assert_eq!(path::has_extension(a, e), expected, "{:?} {:?}", a, e);
        }
    }
}

#[test]
fn text_map_keeps_one_value_for_a_key() {
    let mut m: TextMap<u32> = TextMap::new();
    assert!(m.is_empty());
    m.insert("a".to_string(), 1);
    m.insert("b".to_string(), 2);
    m.insert("a".to_string(), 3);
    assert_eq!(m.len(), 2);
    assert_eq!(m.get("a"), Some(&3));
    assert_eq!(m.get("c"), None);
    assert!(m.contains_key("b"));
    let mut total: u32 = 0;
    for i in 0..m.len() {
        let (key, value) = m.entry_at(i);
        assert_eq!(m.get(key), Some(value));
        total += *value;
    }
    assert_eq!(total, 5);
    assert_eq!(m.remove("a"), Some(3));
    assert_eq!(m.remove("a"), None);
    assert_eq!(m.len(), 1);
    assert!(!m.is_empty());
}
