use uri_parts::percent::hex_digit;
use uri_parts::percent_decode;

#[test]
fn percent() {
    assert_eq!(
        percent_decode("%21%40%23%24%25%2A%28%29With Some Text in the middle%7E%7B%7D%3A%3C%3E%3F_%2B").unwrap(),
        "!@#$%*()With Some Text in the middle~{}:<>?_+");
}

#[test]
fn truncated_escape_fails() {
    assert_eq!(percent_decode("%2"), None);
    assert_eq!(percent_decode("%"), None);
    assert_eq!(percent_decode("abc%4"), None);
    assert_eq!(percent_decode("abc%"), None);
}

#[test]
fn escape_without_hex_digits_fails() {
    assert_eq!(percent_decode("%GZ"), None);
    assert_eq!(percent_decode("%4G"), None);
    assert_eq!(percent_decode("%G4"), None);
    assert_eq!(percent_decode("%+1"), None);
    assert_eq!(percent_decode("%%41"), None);
    assert_eq!(percent_decode("ok%41%zz"), None);
}

#[test]
fn text_without_escapes_is_kept() {
    assert_eq!(percent_decode("").unwrap(), "");
    assert_eq!(percent_decode("plain text").unwrap(), "plain text");
    assert_eq!(percent_decode("\u{4eac}\u{e9}").unwrap(), "\u{4eac}\u{e9}");
}

#[test]
fn hex_digits_in_either_case() {
    assert_eq!(percent_decode("%2a%2A%7e%7E").unwrap(), "**~~");
    assert_eq!(percent_decode("%00").unwrap(), "\u{0}");
    assert_eq!(percent_decode("%0A%0d").unwrap(), "\n\r");
}

#[test]
fn high_digit_comes_first() {
    assert_eq!(percent_decode("%12").unwrap(), "\u{12}");
    assert_eq!(percent_decode("%21").unwrap(), "!");
}

#[test]
fn byte_above_ascii_is_a_code_point() {
    assert_eq!(percent_decode("%E9").unwrap(), "\u{e9}");
    assert_eq!(percent_decode("%FF").unwrap(), "\u{ff}");
    assert_eq!(percent_decode("%C3%A9").unwrap(), "\u{c3}\u{a9}");
}

#[test]
fn escapes_among_other_text() {
    assert_eq!(percent_decode("a%20b%20c").unwrap(), "a b c");
    assert_eq!(percent_decode("\u{e9}%41\u{4eac}%42").unwrap(), "\u{e9}A\u{4eac}B");
    assert_eq!(percent_decode("%4142").unwrap(), "A42");
}

#[test]
fn hex_digit_values() {
    assert_eq!(hex_digit('0'), Some(0));
    assert_eq!(hex_digit('9'), Some(9));
    assert_eq!(hex_digit('a'), Some(10));
    assert_eq!(hex_digit('f'), Some(15));
    assert_eq!(hex_digit('A'), Some(10));
    assert_eq!(hex_digit('F'), Some(15));
    assert_eq!(hex_digit('g'), None);
    assert_eq!(hex_digit('G'), None);
    assert_eq!(hex_digit('/'), None);
    assert_eq!(hex_digit(':'), None);
    assert_eq!(hex_digit('@'), None);
    assert_eq!(hex_digit('`'), None);
    assert_eq!(hex_digit('+'), None);
    assert_eq!(hex_digit('\u{ff10}'), None);
}

#[test]
fn decoding_goes_piece_by_piece() {
    let heads = ["", "a", "%41", "x%20y", "\u{e9}%7E"];
    let tails = ["", "b", "%42", "%4", "%zz", "z%21"];
    for head in heads {
        for tail in tails {
            let whole = format!("{}{}", head, tail);
            let expected = match (percent_decode(head), percent_decode(tail)) {
                (Some(a), Some(b)) => Some(format!("{}{}", a, b)),
                _ => None,
            };
            assert_eq!(percent_decode(&whole), expected);
        }
    }
}
