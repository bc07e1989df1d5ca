use shvcall::text::{
    contains, find, is_white_space, push_i32, push_u64, replace, same_text, split, split_marked,
    to_chars, trim,
};

const SAMPLES: [&str; 12] = [
    "",
    " ",
    "a",
    ":",
    "::",
    "a:b",
    "  shv/path:method  param \n",
    "\u{a0}\u{2003}x y\u{3000}\t",
    "příliš žluťoučký:kůň",
    "aaaa",
    "{PATH}{PATH}",
    "\\n\\t\\",
];

#[test]
fn white_space_is_that_of_unicode() {
    for n in 0..=0x10ffffu32 {
        if let Some(c) = char::from_u32(n) {
            assert_eq!(is_white_space(c), c.is_whitespace(), "{n:x}");
        }
    }
}

#[test]
fn trims_both_ends() {
    assert_eq!(trim("  a b \n"), "a b");
    assert_eq!(trim("\u{2028}\u{85}"), "");
    for s in SAMPLES {
        assert_eq!(trim(s), s.trim());
        assert_eq!(trim(trim(s)), trim(s));
    }
}

#[test]
fn splits_at_each_separator() {
    assert_eq!(split("5,2,9", ','), vec!["5", "2", "9"]);
    assert_eq!(split("", ','), vec![""]);
    for s in SAMPLES {
        for c in [':', 'a', 'ů', ','] {
            let expected: Vec<&str> = s.split(c).collect();
            assert_eq!(split(s, c), expected);
            assert_eq!(split(s, c).join(&c.to_string()), s);
        }
    }
}

#[test]
fn splits_at_marked_places() {
    assert_eq!(split_marked("abc", &vec![false, true, false]), vec!["a", "c"]);
    assert_eq!(split_marked("ůů", &vec![true, true]), vec!["", "", ""]);
}

#[test]
fn replaces_without_overlap() {
    assert_eq!(replace("aaaa", "aa", "b"), "bb");
    assert_eq!(replace("aaaaa", "aa", "b"), "bba");
    assert_eq!(replace("x{PATH}y", "{PATH}", "{PATH}"), "x{PATH}y");
    for s in SAMPLES {
        for (from, to) in [("a", ""), ("{PATH}", "p"), ("\\n", "\n"), ("ů", "uu"), ("aa", "a")] {
            assert_eq!(replace(s, from, to), s.replace(from, to));
        }
    }
}

#[test]
fn finds_parts_and_characters() {
    assert!(contains("abc", "bc"));
    assert!(contains("abc", ""));
    assert!(!contains("abc", "cb"));
    assert!(!contains("", "a"));
    assert_eq!(find("ůů:x", ':'), Some(2));
    assert_eq!(find("abc", ':'), None);
    assert!(same_text("tcp", "tcp"));
    assert!(!same_text("tcp", "tcpx"));
    assert!(!same_text("tcp", "udp"));
    assert_eq!(to_chars("aů"), vec!['a', 'ů']);
}

#[test]
fn writes_decimal_numbers() {
    for n in [0u64, 9, 10, 99, 100, 3755, u64::MAX] {
        let mut s = "n=".to_string();
        push_u64(&mut s, n);
        assert_eq!(s, format!("n={n}"));
    }
    for n in [0i32, -1, 10, -2222, i32::MAX, i32::MIN] {
        let mut s = String::new();
        push_i32(&mut s, n);
        assert_eq!(s, n.to_string());
    }
}
