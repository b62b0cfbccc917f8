//! Decoding of percent escapes.

use vstd::prelude::*;
use vstd::std_specs::iter::IteratorSpec;
use vstd::string::*;

verus! {

/// The value of the hexadecimal digit `c`, in either case; `None` where `c`
/// is no such digit.
pub open spec fn hex_value(c: char) -> Option<int> {
    if '0' <= c && c <= '9' {
        Some(c as int - '0' as int)
    } else if 'a' <= c && c <= 'f' {
        Some(c as int - 'a' as int + 10)
    } else if 'A' <= c && c <= 'F' {
        Some(c as int - 'A' as int + 10)
    } else {
        None
    }
}

/// `s` begins with an escape: a `%` and two hexadecimal digits.
pub open spec fn starts_with_escape(s: Seq<char>) -> bool {
    s.len() >= 3 && s[0] == '%' && hex_value(s[1]) is Some && hex_value(s[2]) is Some
}

/// The character that the escape at the start of `s` stands for: the one
/// whose code point is the value of the two digits, the first digit being
/// the high one. A value above 127 is a code point like any other: escapes
/// that spell the bytes of one character in UTF-8 give one character each,
/// not that character.
pub open spec fn escaped_char(s: Seq<char>) -> char
    recommends
        starts_with_escape(s),
{
    ((hex_value(s[1])->0 * 16 + hex_value(s[2])->0) as u8) as char
}

/// `c` put before the text `rest`, where there is one.
pub open spec fn put_before(c: char, rest: Option<Seq<char>>) -> Option<Seq<char>> {
    match rest {
        Some(t) => Some(seq![c] + t),
        None => None,
    }
}

/// `s` with every escape replaced by the character that it stands for, and
/// every other character kept. There is no result where a `%` is followed by
/// anything but two hexadecimal digits, the end of the text included.
pub open spec fn decode(s: Seq<char>) -> Option<Seq<char>>
    decreases s.len(),
{
    if s.len() == 0 {
        Some(Seq::empty())
    } else if s[0] != '%' {
        put_before(s[0], decode(s.skip(1)))
    } else if starts_with_escape(s) {
        put_before(escaped_char(s), decode(s.skip(3)))
    } else {
        None
    }
}

/// `head` put before the text `rest`, where there is one.
pub open spec fn joined(head: Seq<char>, rest: Option<Seq<char>>) -> Option<Seq<char>> {
    match rest {
        Some(t) => Some(head + t),
        None => None,
    }
}

/// A text without `%` is decoded to itself.
pub proof fn lemma_decode_plain(s: Seq<char>)
    requires
        !s.contains('%'),
    ensures
        decode(s) == Some(s),
    decreases s.len(),
{
    if s.len() > 0 {
        assert(s[0] != '%');
        assert forall|i: int| 0 <= i < s.skip(1).len() implies s.skip(1)[i] != '%' by {
            assert(s.skip(1)[i] == s[i + 1]);
        }
        lemma_decode_plain(s.skip(1));
        assert(seq![s[0]] + s.skip(1) =~= s);
    } else {
        assert(s =~= Seq::<char>::empty());
    }
}

/// Decoding goes through a text piece by piece: where `a` is decoded to
/// `head`, the text `a + b` is decoded to `head` and what `b` is decoded to,
/// and to nothing where `b` is not decoded.
pub proof fn lemma_decode_join(a: Seq<char>, b: Seq<char>)
    requires
        decode(a) is Some,
    ensures
        decode(a + b) == joined(decode(a)->0, decode(b)),
    decreases a.len(),
{
    if a.len() == 0 {
        assert(a + b =~= b);
        assert(decode(b) matches Some(t) ==> Seq::<char>::empty() + t =~= t);
    } else if a[0] != '%' {
        assert((a + b).skip(1) =~= a.skip(1) + b);
        lemma_decode_join(a.skip(1), b);
        let head = decode(a.skip(1))->0;
        assert(decode(b) matches Some(t) ==> seq![a[0]] + (head + t) =~= (seq![a[0]] + head) + t);
    } else {
        assert((a + b).skip(3) =~= a.skip(3) + b);
        assert(starts_with_escape(a + b));
        assert(escaped_char(a + b) == escaped_char(a));
        lemma_decode_join(a.skip(3), b);
        let head = decode(a.skip(3))->0;
        let c = escaped_char(a);
        assert(decode(b) matches Some(t) ==> seq![c] + (head + t) =~= (seq![c] + head) + t);
    }
}

/// `String::push` of std appends the one character to the string.
pub assume_specification[ String::push ](s: &mut String, c: char)
    ensures
        final(s)@ == old(s)@.push(c),
;

/// The value of the hexadecimal digit `c`, if it is one.
pub fn hex_digit(c: char) -> (r: Option<u8>)
    ensures
        match r {
            Some(v) => hex_value(c) == Some(v as int),
            None => hex_value(c) is None,
        },
{
    if '0' <= c && c <= '9' {
        Some((c as u32 - '0' as u32) as u8)
    } else if 'a' <= c && c <= 'f' {
        Some((c as u32 - 'a' as u32 + 10) as u8)
    } else if 'A' <= c && c <= 'F' {
        Some((c as u32 - 'A' as u32 + 10) as u8)
    } else {
        None
    }
}

/// Decodes the percent escapes of `s`: the result is `decode` of its text,
/// and there is none where an escape is cut short or holds anything but
/// hexadecimal digits.
pub fn percent_decode(s: &str) -> (r: Option<String>)
    ensures
        match r {
            Some(out) => decode(s@) == Some(out@),
            None => decode(s@) is None,
        },
{
    let mut out = String::new();
    let mut it = s.chars();
    assert(joined(out@, decode(s@)) == decode(s@)) by {
        assert(decode(s@) matches Some(t) ==> out@ + t =~= t);
    }
    loop
        invariant
            it.obeys_prophetic_iter_laws(),
            it.decrease() is Some,
            decode(s@) == joined(out@, decode(it.remaining())),
        decreases it.decrease()->0,
    {
        let ghost rest = it.remaining();
        let ghost done = out@;
        match it.next() {
            None => {
                assert(out@ + Seq::<char>::empty() =~= out@);
                return Some(out);
            },
            Some(ch) => {
                if ch != '%' {
                    out.push(ch);
                    assert(rest.skip(1) == rest.drop_first());
                    assert(decode(rest.skip(1)) matches Some(t) ==> done + (seq![ch] + t)
                        =~= done.push(ch) + t);
                } else {
                    let high = match it.next() {
                        Some(h) => hex_digit(h),
                        None => None,
                    };
                    let low = match it.next() {
                        Some(l) => hex_digit(l),
                        None => None,
                    };
                    match (high, low) {
                        (Some(h), Some(l)) => {
                            let c: char = (h * 16 + l) as char;
                            out.push(c);
                            assert(it.remaining() =~= rest.skip(3));
                            assert(decode(rest.skip(3)) matches Some(t) ==> done + (seq![c] + t)
                                =~= done.push(c) + t);
                        },
                        _ => {
                            return None;
                        },
                    }
                }
            },
        }
    }
}

} // verus!
