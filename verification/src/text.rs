//! Searching and cutting of string slices, stated over their characters.

use vstd::prelude::*;
use vstd::std_specs::iter::IteratorSpec;
use vstd::string::*;
use crate::chars::{
    is_ascii_digit, is_digit, is_letter, is_letter_char, is_mark, is_scheme, is_scheme_char,
    lemma_scheme_char_is_plain,
};

verus! {

/// The characters of an optional slice.
pub open spec fn part_text(s: Option<&str>) -> Option<Seq<char>> {
    match s {
        Some(t) => Some(t@),
        None => None,
    }
}

/// `s` cut at its first `c`: what stands before it and what follows it.
pub open spec fn split_first(s: Seq<char>, c: char) -> Option<(Seq<char>, Seq<char>)> {
    match s.index_of_first(c) {
        Some(i) => Some((s.take(i), s.skip(i + 1))),
        None => None,
    }
}

/// `s` cut at its last `c`: what stands before it and what follows it.
pub open spec fn split_last(s: Seq<char>, c: char) -> Option<(Seq<char>, Seq<char>)> {
    match s.index_of_last(c) {
        Some(i) => Some((s.take(i), s.skip(i + 1))),
        None => None,
    }
}

/// Every character of `s` is an ASCII digit.
pub open spec fn all_digits(s: Seq<char>) -> bool {
    forall|i: int| 0 <= i < s.len() ==> is_digit(#[trigger] s[i])
}

/// Every character of `s` may stand in a scheme.
pub open spec fn all_scheme_chars(s: Seq<char>) -> bool {
    forall|i: int| 0 <= i < s.len() ==> is_scheme_char(#[trigger] s[i])
}

/// `s` can be a scheme: it begins with a letter and holds nothing but
/// letters, digits, `+`, `-` and `.`.
pub open spec fn is_scheme_text(s: Seq<char>) -> bool {
    s.len() > 0 && is_letter(s[0]) && all_scheme_chars(s)
}

/// `s` holds none of `/`, `?`, `#`.
pub open spec fn is_plain(s: Seq<char>) -> bool {
    forall|i: int| 0 <= i < s.len() ==> !is_mark(#[trigger] s[i])
}

/// The number of `/` that `s` begins with.
pub open spec fn leading_slashes(s: Seq<char>) -> nat
    decreases s.len(),
{
    if s.len() > 0 && s[0] == '/' {
        1 + leading_slashes(s.drop_first())
    } else {
        0
    }
}

/// `s` without the `/` that it begins with.
pub open spec fn trim_slashes(s: Seq<char>) -> Seq<char> {
    s.skip(leading_slashes(s) as int)
}

/// `k` is the number of `/` that `s` begins with, if the first `k`
/// characters are `/` and the next one, where there is one, is not.
pub proof fn lemma_leading_slashes(s: Seq<char>, k: int)
    requires
        0 <= k <= s.len(),
        forall|j: int| 0 <= j < k ==> s[j] == '/',
        k < s.len() ==> s[k] != '/',
    ensures
        leading_slashes(s) == k,
    decreases k,
{
    if k > 0 {
        lemma_leading_slashes(s.drop_first(), k - 1);
    }
}

/// What `split_first` gives: the halves and the `c` between them make up
/// `s`, and the first half holds no `c`; there are no halves only where `s`
/// holds no `c`.
pub proof fn lemma_split_first(s: Seq<char>, c: char)
    ensures
        match split_first(s, c) {
            Some((head, tail)) => s == head + seq![c] + tail && !head.contains(c),
            None => !s.contains(c),
        },
{
    s.index_of_first_ensures(c);
    if let Some((head, tail)) = split_first(s, c) {
        assert(s =~= head + seq![c] + tail);
    }
}

/// What `split_last` gives: the halves and the `c` between them make up `s`,
/// and the second half holds no `c`; there are no halves only where `s` holds
/// no `c`.
pub proof fn lemma_split_last(s: Seq<char>, c: char)
    ensures
        match split_last(s, c) {
            Some((head, tail)) => s == head + seq![c] + tail && !tail.contains(c),
            None => !s.contains(c),
        },
{
    s.index_of_last_ensures(c);
    if let Some((head, tail)) = split_last(s, c) {
        assert(s =~= head + seq![c] + tail);
        let i = s.index_of_last(c)->0;
        assert forall|j: int| 0 <= j < tail.len() implies tail[j] != c by {
            assert(tail[j] == s[i + 1 + j]);
        }
    }
}

/// A text that is put together from `head`, `c` and `tail` is cut by
/// `split_first` into these again, if `head` holds no `c`.
pub proof fn lemma_split_first_of_join(head: Seq<char>, c: char, tail: Seq<char>)
    requires
        !head.contains(c),
    ensures
        split_first(head + seq![c] + tail, c) == Some((head, tail)),
{
    let s = head + seq![c] + tail;
    s.index_of_first_ensures(c);
    assert(s[head.len() as int] == c);
    let i = s.index_of_first(c)->0;
    if i < head.len() {
        assert(head[i] == c);
    }
    assert(s.take(i) =~= head);
    assert(s.skip(i + 1) =~= tail);
}

/// A text that is put together from `head`, `c` and `tail` is cut by
/// `split_last` into these again, if `tail` holds no `c`.
pub proof fn lemma_split_last_of_join(head: Seq<char>, c: char, tail: Seq<char>)
    requires
        !tail.contains(c),
    ensures
        split_last(head + seq![c] + tail, c) == Some((head, tail)),
{
    let s = head + seq![c] + tail;
    s.index_of_last_ensures(c);
    assert(s[head.len() as int] == c);
    let i = s.index_of_last(c)->0;
    if i > head.len() {
        assert(tail[i - head.len() - 1] == c);
    }
    assert(s.take(i) =~= head);
    assert(s.skip(i + 1) =~= tail);
}

/// A text without `c` is cut at neither end.
pub proof fn lemma_split_without(s: Seq<char>, c: char)
    requires
        !s.contains(c),
    ensures
        split_first(s, c) is None,
        split_last(s, c) is None,
{
    s.index_of_first_ensures(c);
    s.index_of_last_ensures(c);
}

/// A text that does not begin with `/` loses nothing to `trim_slashes`.
pub proof fn lemma_trim_without_slash(s: Seq<char>)
    requires
        s.len() > 0 ==> s[0] != '/',
    ensures
        leading_slashes(s) == 0,
        trim_slashes(s) == s,
{
    assert(s.skip(0) =~= s);
}

/// A text that is joined from two texts without `c` holds no `c`.
pub proof fn lemma_join_without(a: Seq<char>, b: Seq<char>, c: char)
    requires
        !a.contains(c),
        !b.contains(c),
    ensures
        !(a + b).contains(c),
{
    if (a + b).contains(c) {
        let i = choose|i: int| 0 <= i < (a + b).len() && (a + b)[i] == c;
        if i < a.len() {
            assert(a[i] == c);
        } else {
            assert(b[i - a.len()] == c);
        }
    }
}

/// A plain text holds none of `/`, `?`, `#`.
pub proof fn lemma_plain_without(s: Seq<char>)
    requires
        is_plain(s),
    ensures
        !s.contains('/'),
        !s.contains('?'),
        !s.contains('#'),
{
    assert forall|c: char| is_mark(c) implies !s.contains(c) by {
        if s.contains(c) {
            let i = choose|i: int| 0 <= i < s.len() && s[i] == c;
            assert(is_mark(s[i]));
        }
    }
    assert(is_mark('/') && is_mark('?') && is_mark('#'));
}

/// A scheme holds none of `:`, `/`, `?`, `#`.
pub proof fn lemma_scheme_without(s: Seq<char>)
    requires
        all_scheme_chars(s),
    ensures
        !s.contains(':'),
        is_plain(s),
{
    assert forall|i: int| 0 <= i < s.len() implies !is_mark(#[trigger] s[i]) && s[i] != ':' by {
        lemma_scheme_char_is_plain(s[i]);
    }
}

/// The position of the first `c` in `s`, if there is one.
pub fn find_char(s: &str, c: char) -> (r: Option<usize>)
    ensures
        match r {
            Some(i) => s@.index_of_first(c) == Some(i as int),
            None => s@.index_of_first(c) is None,
        },
{
    let n: usize = s.unicode_len();
    let mut i: usize = 0;
    for ch in it: s.chars()
        invariant
            it.seq() == s@,
            i == it.index(),
            n == s@.len(),
            forall|j: int| 0 <= j < i ==> s@[j] != c,
    {
        if ch == c {
            proof {
                s@.index_of_first_ensures(c);
            }
            return Some(i);
        }
        i += 1;
    }
    proof {
        s@.index_of_first_ensures(c);
    }
    None
}

/// The position of the last `c` in `s`, if there is one.
pub fn rfind_char(s: &str, c: char) -> (r: Option<usize>)
    ensures
        match r {
            Some(i) => s@.index_of_last(c) == Some(i as int),
            None => s@.index_of_last(c) is None,
        },
{
    let n: usize = s.unicode_len();
    let mut i: usize = 0;
    let mut last: Option<usize> = None;
    for ch in it: s.chars()
        invariant
            it.seq() == s@,
            i == it.index(),
            n == s@.len(),
            match last {
                Some(k) => k < i && s@[k as int] == c && forall|j: int| k < j < i ==> s@[j] != c,
                None => forall|j: int| 0 <= j < i ==> s@[j] != c,
            },
    {
        if ch == c {
            last = Some(i);
        }
        i += 1;
    }
    proof {
        s@.index_of_last_ensures(c);
    }
    last
}

/// Cuts `s` at its first `c`. Both halves borrow from `s`; the `c` itself
/// belongs to neither.
pub fn split_once<'a>(s: &'a str, c: char) -> (r: Option<(&'a str, &'a str)>)
    ensures
        match r {
            Some((head, tail)) => split_first(s@, c) == Some((head@, tail@)),
            None => split_first(s@, c) is None,
        },
{
    match find_char(s, c) {
        Some(i) => {
            proof {
                s@.index_of_first_ensures(c);
            }
            let n: usize = s.unicode_len();
            Some((s.substring_char(0, i), s.substring_char(i + 1, n)))
        },
        None => None,
    }
}

/// Cuts `s` at its last `c`. Both halves borrow from `s`; the `c` itself
/// belongs to neither.
pub fn rsplit_once<'a>(s: &'a str, c: char) -> (r: Option<(&'a str, &'a str)>)
    ensures
        match r {
            Some((head, tail)) => split_last(s@, c) == Some((head@, tail@)),
            None => split_last(s@, c) is None,
        },
{
    match rfind_char(s, c) {
        Some(i) => {
            proof {
                s@.index_of_last_ensures(c);
            }
            let n: usize = s.unicode_len();
            Some((s.substring_char(0, i), s.substring_char(i + 1, n)))
        },
        None => None,
    }
}

/// Whether `s` holds nothing but ASCII digits. The empty string does.
pub fn is_all_digits(s: &str) -> (b: bool)
    ensures
        b == all_digits(s@),
{
    for ch in it: s.chars()
        invariant
            it.seq() == s@,
            forall|j: int| 0 <= j < it.index() ==> is_digit(#[trigger] s@[j]),
    {
        if !is_ascii_digit(ch) {
            return false;
        }
    }
    true
}

/// Whether every character of `s` may stand in a scheme. The empty string
/// passes.
pub fn is_all_scheme(s: &str) -> (b: bool)
    ensures
        b == all_scheme_chars(s@),
{
    for ch in it: s.chars()
        invariant
            it.seq() == s@,
            forall|j: int| 0 <= j < it.index() ==> is_scheme_char(#[trigger] s@[j]),
    {
        if !is_scheme(ch) {
            return false;
        }
    }
    true
}

/// Whether `s` begins with a letter.
pub fn starts_with_letter(s: &str) -> (b: bool)
    ensures
        b == (s@.len() > 0 && is_letter(s@[0])),
{
    let mut it = s.chars();
    match it.next() {
        Some(ch) => is_letter_char(ch),
        None => false,
    }
}

/// `s` without the `/` that it begins with, however many they are.
pub fn trim_leading_slashes<'a>(s: &'a str) -> (r: &'a str)
    ensures
        r@ == trim_slashes(s@),
{
    let n: usize = s.unicode_len();
    let mut k: usize = 0;
    for ch in it: s.chars()
        invariant
            it.seq() == s@,
            k == it.index(),
            n == s@.len(),
            forall|j: int| 0 <= j < k ==> s@[j] == '/',
    {
        if ch != '/' {
            proof {
                lemma_leading_slashes(s@, k as int);
            }
            return s.substring_char(k, n);
        }
        k += 1;
    }
    proof {
        lemma_leading_slashes(s@, k as int);
    }
    s.substring_char(n, n)
}

/// Whether `a` and `b` hold the same characters.
pub fn same_text(a: &str, b: &str) -> (r: bool)
    ensures
        r == (a@ == b@),
{
    let mut x = a.chars();
    let mut y = b.chars();
    let ghost mut k: int = 0;
    loop
        invariant
            x.obeys_prophetic_iter_laws(),
            y.obeys_prophetic_iter_laws(),
            x.decrease() is Some,
            0 <= k <= a@.len(),
            k <= b@.len(),
            x.remaining() == a@.skip(k),
            y.remaining() == b@.skip(k),
            a@.take(k) == b@.take(k),
        decreases x.decrease()->0,
    {
        match (x.next(), y.next()) {
            (Some(c), Some(d)) => {
                if c != d {
                    assert(a@[k] != b@[k]);
                    return false;
                }
                proof {
                    assert(a@.skip(k).drop_first() =~= a@.skip(k + 1));
                    assert(b@.skip(k).drop_first() =~= b@.skip(k + 1));
                    assert(a@.take(k + 1) =~= a@.take(k).push(c));
                    assert(b@.take(k + 1) =~= b@.take(k).push(d));
                    k = k + 1;
                }
            },
            (None, None) => {
                assert(a@ =~= a@.take(k));
                assert(b@ =~= b@.take(k));
                return true;
            },
            _ => {
                return false;
            },
        }
    }
}

/// Whether `a` and `b` are both absent, or both present with the same
/// characters.
pub fn same_part(a: Option<&str>, b: Option<&str>) -> (r: bool)
    ensures
        r == (part_text(a) == part_text(b)),
{
    match (a, b) {
        (Some(x), Some(y)) => same_text(x, y),
        (None, None) => true,
        _ => false,
    }
}

} // verus!
