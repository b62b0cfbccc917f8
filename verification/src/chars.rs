//! The classes of characters that the URI grammar distinguishes.

use vstd::prelude::*;

verus! {

/// What `char::is_alphabetic` answers for `c`: whether Unicode counts it as
/// alphabetic.
pub uninterp spec fn unicode_alphabetic(c: char) -> bool;

/// `c` lies in the ASCII range.
pub open spec fn is_ascii_char(c: char) -> bool {
    c <= '\x7f'
}

/// `c` is one of `A`..`Z` or `a`..`z`.
pub open spec fn is_ascii_letter(c: char) -> bool {
    ('a' <= c && c <= 'z') || ('A' <= c && c <= 'Z')
}

/// `c` is one of `0`..`9`.
pub open spec fn is_digit(c: char) -> bool {
    '0' <= c && c <= '9'
}

/// `c` is a letter: within ASCII one of `A`..`Z` and `a`..`z`, beyond ASCII
/// whatever Unicode calls alphabetic.
pub open spec fn is_letter(c: char) -> bool {
    if is_ascii_char(c) {
        is_ascii_letter(c)
    } else {
        unicode_alphabetic(c)
    }
}

/// `c` may stand in a scheme: a letter, a digit, `+`, `-` or `.`.
pub open spec fn is_scheme_char(c: char) -> bool {
    is_letter(c) || is_digit(c) || c == '+' || c == '-' || c == '.'
}

/// `c` ends an authority or a path: it is `/`, `?` or `#`.
pub open spec fn is_mark(c: char) -> bool {
    c == '/' || c == '?' || c == '#'
}

/// A character that may stand in a scheme is none of `:`, `/`, `?`, `#`.
pub proof fn lemma_scheme_char_is_plain(c: char)
    requires
        is_scheme_char(c),
    ensures
        c != ':',
        !is_mark(c),
{
}

/// `char::is_alphabetic` of std: the answer is the one that the Unicode
/// tables of std give for the character, and nothing more is claimed of it.
pub assume_specification[ char::is_alphabetic ](c: char) -> (b: bool)
    ensures
        b == unicode_alphabetic(c),
;

/// Whether `c` is a letter. The Unicode tables are asked only beyond ASCII.
pub fn is_letter_char(c: char) -> (b: bool)
    ensures
        b == is_letter(c),
{
    if c <= '\x7f' {
        ('a' <= c && c <= 'z') || ('A' <= c && c <= 'Z')
    } else {
        c.is_alphabetic()
    }
}

/// Whether `c` is an ASCII decimal digit.
pub fn is_ascii_digit(c: char) -> (b: bool)
    ensures
        b == is_digit(c),
{
    '0' <= c && c <= '9'
}

/// Whether `c` may stand in a scheme.
pub fn is_scheme(c: char) -> (b: bool)
    ensures
        b == is_scheme_char(c),
{
    is_letter_char(c) || is_ascii_digit(c) || c == '+' || c == '-' || c == '.'
}

} // verus!
