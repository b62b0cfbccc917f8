use uri_parts::chars::{is_ascii_digit, is_letter_char, is_scheme};
use uri_parts::text::{
    find_char, is_all_digits, is_all_scheme, rfind_char, rsplit_once, same_part, same_text,
    split_once, starts_with_letter, trim_leading_slashes,
};
use uri_parts::uri::strip_marker;

#[test]
fn scheme_characters() {
    for c in ['a', 'z', 'A', 'Z', 'm', '0', '9', '5', '+', '-', '.'] {
        assert!(is_scheme(c));
    }
    for c in [':', '/', '?', '#', '@', '_', ' ', '~', '[', '`', '{', '*', ',', '\u{0}', '\u{7f}'] {
        assert!(!is_scheme(c));
    }
    assert!(is_scheme('\u{e9}'));
    assert!(is_scheme('\u{4eac}'));
    assert!(!is_scheme('\u{1f49d}'));
    assert!(!is_scheme('\u{660}'));
}

#[test]
fn ascii_digits() {
    for c in ['0', '1', '5', '9'] {
        assert!(is_ascii_digit(c));
    }
    for c in ['/', ':', 'a', ' ', '\u{660}', '\u{ff11}'] {
        assert!(!is_ascii_digit(c));
    }
}

#[test]
fn find_counts_characters() {
    assert_eq!(find_char("abcabc", 'b'), Some(1));
    assert_eq!(rfind_char("abcabc", 'b'), Some(4));
    assert_eq!(find_char("abc", 'x'), None);
    assert_eq!(rfind_char("abc", 'x'), None);
    assert_eq!(find_char("", 'x'), None);
    assert_eq!(find_char("\u{e9}\u{4eac}:x", ':'), Some(2));
    assert_eq!(rfind_char("\u{e9}:\u{4eac}:x", ':'), Some(3));
    assert_eq!(find_char("x", 'x'), Some(0));
    assert_eq!(rfind_char("x", 'x'), Some(0));
}

#[test]
fn split_at_first_and_last() {
    assert_eq!(split_once("a:b:c", ':'), Some(("a", "b:c")));
    assert_eq!(rsplit_once("a:b:c", ':'), Some(("a:b", "c")));
    assert_eq!(split_once(":", ':'), Some(("", "")));
    assert_eq!(rsplit_once(":", ':'), Some(("", "")));
    assert_eq!(split_once("abc", ':'), None);
    assert_eq!(rsplit_once("abc", ':'), None);
    assert_eq!(split_once("", ':'), None);
    assert_eq!(split_once("\u{e9}\u{1f49d}#\u{4eac}", '#'), Some(("\u{e9}\u{1f49d}", "\u{4eac}")));
    assert_eq!(rsplit_once("\u{e9}#\u{1f49d}#\u{4eac}", '#'), Some(("\u{e9}#\u{1f49d}", "\u{4eac}")));
}

#[test]
fn all_of_a_kind() {
    assert!(is_all_digits(""));
    assert!(is_all_digits("0123456789"));
    assert!(!is_all_digits("12a"));
    assert!(!is_all_digits("7]"));
    assert!(is_all_scheme(""));
    assert!(is_all_scheme("svn+ssh"));
    assert!(is_all_scheme("a.b-c"));
    assert!(!is_all_scheme("a b"));
    assert!(!is_all_scheme("a/b"));
}

#[test]
fn first_character_is_a_letter() {
    assert!(starts_with_letter("a1"));
    assert!(starts_with_letter("Z"));
    assert!(starts_with_letter("\u{e9}"));
    assert!(!starts_with_letter(""));
    assert!(!starts_with_letter("1a"));
    assert!(!starts_with_letter("+a"));
    assert!(!starts_with_letter("/a"));
}

#[test]
fn leading_slashes_are_trimmed() {
    assert_eq!(trim_leading_slashes("///a/b/"), "a/b/");
    assert_eq!(trim_leading_slashes("a/b"), "a/b");
    assert_eq!(trim_leading_slashes("///"), "");
    assert_eq!(trim_leading_slashes(""), "");
    assert_eq!(trim_leading_slashes("/\u{e9}/"), "\u{e9}/");
}

#[test]
fn authority_marker() {
    assert_eq!(strip_marker("//host/p"), Some("host/p"));
    assert_eq!(strip_marker("//"), Some(""));
    assert_eq!(strip_marker("///"), Some("/"));
    assert_eq!(strip_marker("/host"), None);
    assert_eq!(strip_marker("/"), None);
    assert_eq!(strip_marker(""), None);
    assert_eq!(strip_marker("a//"), None);
}

#[test]
fn scheme_characters_over_all_of_ascii() {
    for code in 0u8..128 {
        let c = char::from(code);
        let expected = c.is_ascii_lowercase()
            || c.is_ascii_uppercase()
            || (b'0'..=b'9').contains(&code)
            || code == b'+'
            || code == b'-'
            || code == b'.';
        assert_eq!(is_scheme(c), expected);
        assert_eq!(is_letter_char(c), c.is_alphabetic());
        assert_eq!(starts_with_letter(&String::from(c)), code.is_ascii_alphabetic());
    }
}

#[test]
fn same_text_compares_characters() {
    assert!(same_text("", ""));
    assert!(same_text("abc", "abc"));
    assert!(same_text("\u{e9}\u{4eac}", "\u{e9}\u{4eac}"));
    assert!(!same_text("abc", "abd"));
    assert!(!same_text("abc", "ab"));
    assert!(!same_text("ab", "abc"));
    assert!(!same_text("", "a"));
    assert!(!same_text("e", "\u{e9}"));
    assert!(same_part(None, None));
    assert!(same_part(Some("a"), Some("a")));
    assert!(!same_part(Some(""), None));
    assert!(!same_part(None, Some("")));
    assert!(!same_part(Some("a"), Some("b")));
}

#[test]
fn letters_beyond_ascii_follow_unicode() {
    for c in ['\u{e9}', '\u{4eac}', '\u{3b1}', '\u{aa}', '\u{b5}', '\u{ff21}'] {
        assert!(is_letter_char(c));
    }
    for c in ['\u{1f49d}', '\u{660}', '\u{a0}', '\u{d7}', '\u{2028}', '\u{80}'] {
        assert!(!is_letter_char(c));
    }
}
