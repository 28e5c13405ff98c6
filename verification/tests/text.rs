use std::path::Path;

use solstone_tmux::order::{sorted_names, text_less};
use solstone_tmux::paths::{joined_path, path_file_name};
use solstone_tmux::text::{
    all_pieces, any_control, byte_length, char_is_control, char_is_space, decimal_text, hex_string, joined,
    parse_signed, parse_unsigned, pieces, same_text, signed_text, text_lines, trimmed, trimmed_end,
};

#[test]
fn character_classes_are_those_of_unicode() {
    for code in 0..=0x10ffffu32 {
        if let Some(c) = char::from_u32(code) {
            assert_eq!(char_is_control(c), c.is_control(), "{code:x}");
            assert_eq!(char_is_space(c), c.is_whitespace(), "{code:x}");
        }
    }
}

#[test]
fn trimming_matches_std() {
    for s in ["", " ", "a", " a ", "\u{3000}a\u{2003}\t", "a b", "\n\na\r\n"] {
        assert_eq!(trimmed(s), s.trim());
        assert_eq!(trimmed_end(s), s.trim_end());
    }
}

#[test]
fn splitting_matches_std() {
    for s in ["", "a", "a b", " a", "a ", "a  b c d e", "é ü"] {
        let all: Vec<String> = s.split(' ').map(str::to_owned).collect();
        assert_eq!(all_pieces(s, ' '), all);
        for n in 1..6usize {
            let limited: Vec<String> = s.splitn(n, ' ').map(str::to_owned).collect();
            assert_eq!(pieces(s, ' ', n), limited);
        }
    }
    for s in ["", "a", "a\n", "a\r\nb", "\n", "a\n\nb\r", "\r\n\r\n", "a\rb\n"] {
        let lines: Vec<String> = s.lines().map(str::to_owned).collect();
        assert_eq!(text_lines(s), lines);
    }
    assert_eq!(joined(&vec!["a".to_owned(), "b".to_owned(), "c".to_owned()], "; "), "a; b; c");
    assert_eq!(joined(&Vec::new(), "; "), "");
}

#[test]
fn numbers_match_std() {
    for s in ["", "0", "7", "+7", "-7", "007", "4294967295", "4294967296", "99999999999999999999", "1a", "+", "-", " 1"] {
        assert_eq!(parse_unsigned(s, u32::MAX as u64), s.parse::<u32>().ok().map(u64::from));
        assert_eq!(parse_unsigned(s, u64::MAX), s.parse::<u64>().ok());
        assert_eq!(parse_signed(s), s.parse::<i64>().ok());
    }
    assert_eq!(parse_signed("-9223372036854775808"), Some(i64::MIN));
    assert_eq!(parse_signed("-9223372036854775809"), None);
    assert_eq!(parse_signed("9223372036854775808"), None);
    assert_eq!(parse_unsigned("18446744073709551615", u64::MAX), Some(u64::MAX));
    assert_eq!(parse_unsigned("18446744073709551616", u64::MAX), None);
    for n in [0u64, 9, 10, 200, u64::MAX] {
        assert_eq!(decimal_text(n), n.to_string());
    }
    for n in [0i32, -1, 127, i32::MIN, i32::MAX] {
        assert_eq!(signed_text(n), n.to_string());
    }
    assert_eq!(hex_string(&[0x00, 0x0f, 0xa5, 0xff]), "000fa5ff");
}

#[test]
fn texts_compare_by_their_bytes() {
    assert!(same_text("é", "é"));
    assert!(!same_text("e", "é"));
    assert!(any_control("a\u{85}b"));
    assert_eq!(byte_length("é"), 2);
    for (a, b) in [("", "a"), ("a", "b"), ("a", "aa"), ("Z", "a"), ("z", "é"), ("a", "a")] {
        assert_eq!(text_less(a, b), a < b);
        assert_eq!(text_less(b, a), b < a);
    }
    let names = vec!["b".to_owned(), "a".to_owned(), "ab".to_owned(), "a".to_owned()];
    let mut expected = names.clone();
    expected.sort();
    assert_eq!(sorted_names(names), expected);
}

#[test]
fn paths_join_and_end_as_in_std() {
    for parent in ["", "/", "a", "a/", "/a/b", "a//"] {
        for name in ["x", "x/y", "/x"] {
            let std_path = Path::new(parent).join(name);
            assert_eq!(
                joined_path(parent.as_bytes(), name.as_bytes()),
                std_path.to_str().expect("text").as_bytes()
            );
        }
    }
    for path in ["", "/", "a", "a/", "a/.", "a/..", "..", ".", "./.", "/a/b//", "a/./b/.", "a/b/../c"] {
        assert_eq!(
            path_file_name(path.as_bytes()),
            Path::new(path)
                .file_name()
                .and_then(|name| name.to_str())
                .map(|name| name.as_bytes().to_vec()),
            "{path}"
        );
    }
}
