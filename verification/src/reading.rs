//! What holds of the parts that are read from a text.

use vstd::prelude::*;
use crate::chars::{is_digit, is_letter, is_mark};
use crate::text::{
    all_digits, is_plain, is_scheme_text, lemma_join_without, lemma_plain_without,
    lemma_scheme_without, lemma_split_first, lemma_split_first_of_join, lemma_split_last,
    lemma_split_last_of_join, lemma_split_without, split_first, split_last,
};
use crate::uri::{
    after_first, after_scheme, authority_text, before_first, before_port, compose, ended_by,
    has_authority, led_by, parse, port_of, scheme_of, split_scheme, stem, Parts,
};

verus! {

/// `c` is `#` or `?`.
pub open spec fn is_tail_mark(c: char) -> bool {
    c == '#' || c == '?'
}

/// `m` is where the first `#` or `?` of `s` stands, or the length of `s`
/// where it holds neither.
pub open spec fn is_stem_end(s: Seq<char>, m: int) -> bool {
    &&& 0 <= m <= s.len()
    &&& forall|j: int| 0 <= j < m ==> !is_tail_mark(#[trigger] s[j])
    &&& m < s.len() ==> is_tail_mark(s[m])
}

/// The stem of `s` ends where the first `#` or `?` stands.
pub proof fn lemma_stem_end(s: Seq<char>)
    ensures
        is_stem_end(s, stem(s).len() as int),
        stem(s) == s.take(stem(s).len() as int),
{
    let s1 = before_first(s, '#');
    lemma_split_first(s, '#');
    lemma_split_first(s1, '?');
    let m = stem(s).len() as int;
    assert(s1 =~= s.take(s1.len() as int));
    assert(stem(s) =~= s1.take(m));
    assert(stem(s) =~= s.take(m));
    assert forall|j: int| 0 <= j < m implies !is_tail_mark(#[trigger] s[j]) by {
        assert(s[j] == stem(s)[j]);
        assert(s[j] == s1[j]);
        if s[j] == '?' {
            assert(stem(s).contains('?'));
        }
        if s[j] == '#' {
            assert(s1.contains('#'));
        }
    }
    if m < s.len() {
        if m < s1.len() {
            assert(s1[m] == '?');
            assert(s[m] == s1[m]);
        } else {
            assert(s[m] == '#');
        }
    }
}

/// Where the first `#` or `?` of `s` stands at `m`, the stem of `s` is what
/// stands before `m`.
pub proof fn lemma_stem_is(s: Seq<char>, m: int)
    requires
        is_stem_end(s, m),
    ensures
        stem(s) == s.take(m),
{
    lemma_stem_end(s);
    let n = stem(s).len() as int;
    if n < m {
        assert(is_tail_mark(s[n]));
    }
    if m < n {
        assert(is_tail_mark(s[m]));
    }
}

/// A scheme is read only from a text that begins with a letter.
pub proof fn lemma_scheme_needs_letter(s: Seq<char>)
    ensures
        parse(s).scheme is Some ==> s.len() > 0 && is_letter(s[0]),
{
    lemma_stem_end(s);
}

/// No scheme is read from a text that begins with a digit, whatever follows
/// the digit.
pub proof fn lemma_leading_digit_has_no_scheme(s: Seq<char>)
    requires
        s.len() > 0,
        is_digit(s[0]),
    ensures
        parse(s).scheme is None,
{
    lemma_scheme_needs_letter(s);
}

/// The shape of what is read: a scheme can stand as one, a port holds
/// nothing but digits, a userinfo or a port comes with a host only, and
/// where there is no host there is a path. There is a host exactly where
/// `//` follows the scheme, or begins the text that has no scheme.
pub proof fn lemma_parse_shape(s: Seq<char>)
    ensures
        ({
            let p = parse(s);
            &&& p.scheme matches Some(scheme) ==> is_scheme_text(scheme)
            &&& p.port matches Some(port) ==> all_digits(port)
            &&& p.userinfo is Some ==> p.host is Some
            &&& p.port is Some ==> p.host is Some
            &&& p.host is None ==> p.path is Some
            &&& p.host is Some <==> has_authority(after_scheme(stem(s)))
        }),
{
    let s2 = stem(s);
    lemma_split_first(s2, ':');
    if let Some((head, tail)) = split_scheme(s2) {
        assert(head.len() > 0) by {
            if head.len() == 0 {
                assert(s2[0] == ':');
            }
        }
        assert(head[0] == s2[0]);
    }
}

/// `t` stands in `s` as it is, from the place `i` on.
pub open spec fn stands_at(t: Seq<char>, s: Seq<char>, i: int) -> bool {
    &&& 0 <= i
    &&& i + t.len() <= s.len()
    &&& t == s.subrange(i, i + t.len())
}

/// `t` stands in `s` as it is, at some place.
pub open spec fn is_slice_of(t: Seq<char>, s: Seq<char>) -> bool {
    exists|i: int| stands_at(t, s, i)
}

/// `t` is an optional part that, where present, stands in `s` as it is.
pub open spec fn is_part_of(t: Option<Seq<char>>, s: Seq<char>) -> bool {
    t matches Some(text) ==> is_slice_of(text, s)
}

/// What stands in a slice of `s` stands in `s`.
proof fn lemma_slice_of_slice(t: Seq<char>, u: Seq<char>, s: Seq<char>)
    requires
        is_slice_of(t, u),
        is_slice_of(u, s),
    ensures
        is_slice_of(t, s),
{
    let i = choose|i: int| stands_at(t, u, i);
    let j = choose|j: int| stands_at(u, s, j);
    assert(t =~= s.subrange(i + j, i + j + t.len()));
    assert(stands_at(t, s, i + j));
}

/// Every text stands in itself.
proof fn lemma_slice_of_itself(s: Seq<char>)
    ensures
        is_slice_of(s, s),
{
    assert(s =~= s.subrange(0, 0 + s.len() as int));
    assert(stands_at(s, s, 0));
}

/// What stands before and behind a place in `s` stands in `s`.
proof fn lemma_ends_are_slices(s: Seq<char>, i: int)
    requires
        0 <= i < s.len(),
    ensures
        is_slice_of(s.take(i), s),
        is_slice_of(s.skip(i + 1), s),
{
    let head = s.take(i);
    let tail = s.skip(i + 1);
    assert(head =~= s.subrange(0, 0 + head.len() as int));
    assert(stands_at(head, s, 0));
    assert(tail =~= s.subrange(i + 1, i + 1 + tail.len()));
    assert(stands_at(tail, s, i + 1));
}

/// The halves that a text is cut into at its first `c` stand in it.
proof fn lemma_first_halves_are_slices(s: Seq<char>, c: char)
    ensures
        is_slice_of(before_first(s, c), s),
        split_first(s, c) matches Some((head, tail)) ==> is_slice_of(head, s) && is_slice_of(
            tail,
            s,
        ),
{
    s.index_of_first_ensures(c);
    match s.index_of_first(c) {
        Some(i) => {
            lemma_ends_are_slices(s, i);
        },
        None => {
            lemma_slice_of_itself(s);
        },
    }
}

/// The halves that a text is cut into at its last `c` stand in it.
proof fn lemma_last_halves_are_slices(s: Seq<char>, c: char)
    ensures
        split_last(s, c) matches Some((head, tail)) ==> is_slice_of(head, s) && is_slice_of(
            tail,
            s,
        ),
{
    s.index_of_last_ensures(c);
    if let Some(i) = s.index_of_last(c) {
        lemma_ends_are_slices(s, i);
    }
}

/// A slice of a text without `c` holds no `c`.
pub proof fn lemma_slice_without(t: Seq<char>, s: Seq<char>, c: char)
    requires
        is_slice_of(t, s),
        !s.contains(c),
    ensures
        !t.contains(c),
{
    let i = choose|i: int| stands_at(t, s, i);
    if t.contains(c) {
        let k = choose|k: int| 0 <= k < t.len() && t[k] == c;
        assert(s[i + k] == c);
    }
}

/// The stem of a text holds neither `?` nor `#`, and its query no `#`.
pub proof fn lemma_stem_without(s: Seq<char>)
    ensures
        !stem(s).contains('?'),
        !stem(s).contains('#'),
        after_first(before_first(s, '#'), '?') matches Some(query) ==> !query.contains('#'),
{
    let s1 = before_first(s, '#');
    lemma_split_first(s, '#');
    lemma_split_first(s1, '?');
    lemma_first_halves_are_slices(s1, '?');
    lemma_slice_without(stem(s), s1, '#');
    if let Some(query) = after_first(s1, '?') {
        lemma_slice_without(query, s1, '#');
    }
}

/// The fragment, the query and the stem of `s` stand in `s`.
proof fn lemma_tails_are_slices(s: Seq<char>)
    ensures
        is_part_of(after_first(s, '#'), s),
        is_part_of(after_first(before_first(s, '#'), '?'), s),
        is_slice_of(stem(s), s),
{
    let s1 = before_first(s, '#');
    lemma_first_halves_are_slices(s, '#');
    lemma_first_halves_are_slices(s1, '?');
    lemma_slice_of_slice(stem(s), s1, s);
    if let Some(query) = after_first(s1, '?') {
        lemma_slice_of_slice(query, s1, s);
    }
}

/// The scheme of `s` and what follows it stand in `s`.
proof fn lemma_scheme_is_slice(s: Seq<char>)
    ensures
        is_part_of(scheme_of(s), s),
        is_slice_of(after_scheme(s), s),
{
    lemma_first_halves_are_slices(s, ':');
    lemma_slice_of_itself(s);
}

/// The userinfo, the host, the port and the path that are read behind the
/// marker `//` stand in what follows the marker.
proof fn lemma_authority_parts_are_slices(s: Seq<char>)
    ensures
        ({
            let authority = before_first(s, '/');
            let named = before_port(authority);
            &&& is_part_of(after_first(s, '/'), s)
            &&& is_part_of(port_of(authority), s)
            &&& is_slice_of(named, s)
            &&& split_first(named, '@') matches Some((head, tail)) ==> is_slice_of(head, s)
                && is_slice_of(tail, s)
        }),
{
    let authority = before_first(s, '/');
    let named = before_port(authority);
    lemma_first_halves_are_slices(s, '/');
    lemma_slice_of_itself(authority);
    lemma_last_halves_are_slices(authority, ':');
    lemma_slice_of_slice(named, authority, s);
    if let Some(port) = port_of(authority) {
        lemma_slice_of_slice(port, authority, s);
    }
    lemma_first_halves_are_slices(named, '@');
    if let Some((head, tail)) = split_first(named, '@') {
        lemma_slice_of_slice(head, named, s);
        lemma_slice_of_slice(tail, named, s);
    }
}

/// The userinfo, the host, the port and the path that are read from `s`
/// stand in what follows the scheme of its stem.
proof fn lemma_hierarchy_parts_are_slices(s: Seq<char>)
    ensures
        ({
            let p = parse(s);
            let rest = after_scheme(stem(s));
            &&& is_part_of(p.userinfo, rest)
            &&& is_part_of(p.host, rest)
            &&& is_part_of(p.port, rest)
            &&& is_part_of(p.path, rest)
        }),
{
    let p = parse(s);
    let rest = after_scheme(stem(s));
    if has_authority(rest) {
        let behind = rest.skip(2);
        assert(behind =~= rest.subrange(2, 2 + behind.len() as int));
        assert(stands_at(behind, rest, 2));
        lemma_authority_parts_are_slices(behind);
        lemma_slice_of_slice(p.host->0, behind, rest);
        if let Some(userinfo) = p.userinfo {
            lemma_slice_of_slice(userinfo, behind, rest);
        }
        if let Some(port) = p.port {
            lemma_slice_of_slice(port, behind, rest);
        }
        if let Some(path) = p.path {
            lemma_slice_of_slice(path, behind, rest);
        }
    } else {
        lemma_slice_of_itself(rest);
    }
}

/// Every part that is read from a text stands in that text as it is: reading
/// neither decodes nor rewrites anything.
pub proof fn lemma_parts_are_slices(s: Seq<char>)
    ensures
        ({
            let p = parse(s);
            &&& is_part_of(p.scheme, s)
            &&& is_part_of(p.userinfo, s)
            &&& is_part_of(p.host, s)
            &&& is_part_of(p.port, s)
            &&& is_part_of(p.path, s)
            &&& is_part_of(p.query, s)
            &&& is_part_of(p.fragment, s)
        }),
{
    let p = parse(s);
    let s2 = stem(s);
    let rest = after_scheme(s2);
    lemma_tails_are_slices(s);
    lemma_scheme_is_slice(s2);
    lemma_slice_of_slice(rest, s2, s);
    lemma_hierarchy_parts_are_slices(s);
    if let Some(scheme) = p.scheme {
        lemma_slice_of_slice(scheme, s2, s);
    }
    if let Some(userinfo) = p.userinfo {
        lemma_slice_of_slice(userinfo, rest, s);
    }
    if let Some(host) = p.host {
        lemma_slice_of_slice(host, rest, s);
    }
    if let Some(port) = p.port {
        lemma_slice_of_slice(port, rest, s);
    }
    if let Some(path) = p.path {
        lemma_slice_of_slice(path, rest, s);
    }
}

/// A text of digits holds no character that is no digit.
proof fn lemma_digits_without(s: Seq<char>, c: char)
    requires
        all_digits(s),
        !is_digit(c),
    ensures
        !s.contains(c),
{
}

/// The authority that is written from a userinfo without `@`, a host and a
/// port of digits is cut into these again.
proof fn lemma_authority_read_back(
    userinfo: Option<Seq<char>>,
    host: Seq<char>,
    port: Option<Seq<char>>,
)
    requires
        userinfo matches Some(u) ==> !u.contains('@'),
        userinfo is None ==> !host.contains('@'),
        port matches Some(digits) ==> all_digits(digits),
        port is None ==> port_of(host) is None,
    ensures
        ({
            let a = authority_text(userinfo, host, port);
            &&& port_of(a) == port
            &&& split_first(before_port(a), '@') == match userinfo {
                Some(u) => Some((u, host)),
                None => None,
            }
            &&& userinfo is None ==> before_port(a) == host
        }),
{
    let a = authority_text(userinfo, host, port);
    let named = ended_by(userinfo, seq!['@']) + host;
    match port {
        Some(digits) => {
            lemma_digits_without(digits, ':');
            lemma_split_last_of_join(named, ':', digits);
            assert(a =~= named + seq![':'] + digits);
        },
        None => {
            assert(a =~= named);
            lemma_split_last(host, ':');
            lemma_split_last(named, ':');
            match userinfo {
                Some(u) => {
                    match split_last(host, ':') {
                        Some((head, tail)) => {
                            assert(named =~= (u + seq!['@'] + head) + seq![':'] + tail);
                            lemma_split_last_of_join(u + seq!['@'] + head, ':', tail);
                        },
                        None => {
                            if let Some((head, tail)) = split_last(named, ':') {
                                let i = head.len() as int;
                                assert(named[i] == ':');
                                if i > u.len() {
                                    assert(host[i - u.len() - 1] == ':');
                                }
                                assert(named[u.len() as int] == '@');
                                assert(tail[u.len() - i - 1] == '@');
                            }
                        },
                    }
                },
                None => {
                    assert(named =~= host);
                },
            }
        },
    }
    assert(before_port(a) == named);
    match userinfo {
        Some(u) => {
            lemma_split_first_of_join(u, '@', host);
            assert(named =~= u + seq!['@'] + host);
        },
        None => {
            assert(named =~= host);
            lemma_split_without(host, '@');
        },
    }
}

/// The authority that is written from a plain userinfo, a plain host and a
/// port of digits is plain.
proof fn lemma_authority_plain(
    userinfo: Option<Seq<char>>,
    host: Seq<char>,
    port: Option<Seq<char>>,
)
    requires
        userinfo matches Some(u) ==> is_plain(u),
        is_plain(host),
        port matches Some(digits) ==> all_digits(digits),
    ensures
        is_plain(authority_text(userinfo, host, port)),
{
    let a = authority_text(userinfo, host, port);
    let named = ended_by(userinfo, seq!['@']) + host;
    assert forall|i: int| 0 <= i < named.len() implies !is_mark(#[trigger] named[i]) by {
        match userinfo {
            Some(u) => {
                if i < u.len() {
                    assert(named[i] == u[i]);
                } else if i > u.len() {
                    assert(named[i] == host[i - u.len() - 1]);
                }
            },
            None => {
                assert(named[i] == host[i]);
            },
        }
    }
    assert forall|i: int| 0 <= i < a.len() implies !is_mark(#[trigger] a[i]) by {
        if i < named.len() {
            assert(a[i] == named[i]);
        } else if i > named.len() {
            let digits = port->0;
            assert(a[i] == digits[i - named.len() - 1]);
            assert(is_digit(digits[i - named.len() - 1]));
        }
    }
}

/// A query and a fragment that are written behind a text without `?` and
/// `#` are cut off it again.
pub proof fn lemma_tails_read_back(
    z: Seq<char>,
    query: Option<Seq<char>>,
    fragment: Option<Seq<char>>,
)
    requires
        !z.contains('?'),
        !z.contains('#'),
        query matches Some(q) ==> !q.contains('#'),
    ensures
        ({
            let x = z + led_by(seq!['?'], query) + led_by(seq!['#'], fragment);
            &&& after_first(x, '#') == fragment
            &&& after_first(before_first(x, '#'), '?') == query
            &&& stem(x) == z
        }),
{
    let tq = led_by(seq!['?'], query);
    let x = z + tq + led_by(seq!['#'], fragment);
    let s1 = z + tq;
    assert(!s1.contains('#')) by {
        if let Some(q) = query {
            lemma_join_without(seq!['?'], q, '#');
        }
        lemma_join_without(z, tq, '#');
    }
    match fragment {
        Some(f) => {
            lemma_split_first_of_join(s1, '#', f);
            assert(x =~= s1 + seq!['#'] + f);
        },
        None => {
            lemma_split_without(s1, '#');
            assert(x =~= s1);
        },
    }
    match query {
        Some(q) => {
            lemma_split_first_of_join(z, '?', q);
            assert(s1 =~= z + seq!['?'] + q);
        },
        None => {
            lemma_split_without(z, '?');
            assert(s1 =~= z);
        },
    }
}

/// A scheme, `://`, a plain authority, `/` and a path are cut into the
/// scheme, the authority and the path again.
proof fn lemma_head_read_back(scheme: Seq<char>, authority: Seq<char>, path: Seq<char>)
    requires
        is_scheme_text(scheme),
        is_plain(authority),
    ensures
        ({
            let z = scheme + seq![':', '/', '/'] + authority + seq!['/'] + path;
            &&& split_scheme(z) == Some((scheme, seq!['/', '/'] + authority + seq!['/'] + path))
            &&& has_authority(after_scheme(z))
            &&& split_first(after_scheme(z).skip(2), '/') == Some((authority, path))
        }),
{
    let z = scheme + seq![':', '/', '/'] + authority + seq!['/'] + path;
    let rest = seq!['/', '/'] + authority + seq!['/'] + path;
    lemma_scheme_without(scheme);
    lemma_plain_without(authority);
    lemma_split_first_of_join(scheme, ':', rest);
    assert(z =~= scheme + seq![':'] + rest);
    assert(z[0] == scheme[0]);
    assert(rest.skip(2) =~= authority + seq!['/'] + path);
    lemma_split_first_of_join(authority, '/', path);
}

/// A scheme, `://`, a plain authority, `/` and a path without `c`, which is
/// `?` or `#`, hold no `c`.
proof fn lemma_head_without(scheme: Seq<char>, authority: Seq<char>, path: Seq<char>, c: char)
    requires
        is_scheme_text(scheme),
        is_plain(authority),
        !path.contains(c),
        c == '?' || c == '#',
    ensures
        !(scheme + seq![':', '/', '/'] + authority + seq!['/'] + path).contains(c),
{
    lemma_scheme_without(scheme);
    lemma_plain_without(scheme);
    lemma_plain_without(authority);
    let lead = scheme + seq![':', '/', '/'];
    lemma_join_without(scheme, seq![':', '/', '/'], c);
    lemma_join_without(lead, authority, c);
    lemma_join_without(lead + authority, seq!['/'], c);
    lemma_join_without(lead + authority + seq!['/'], path, c);
}

/// Reading inverts writing: a URI that is written from parts that hold no
/// sign out of place is read as these parts again.
///
/// A sign is out of place where it would end its part early: `/`, `?` or `#`
/// in the userinfo or the host; `@` in the userinfo, or in the host where
/// there is no userinfo; `?` or `#` in the path; `#` in the query; and, where
/// no port is given, a host that itself ends in a `:` and digits.
pub proof fn lemma_parse_of_compose(
    scheme: Seq<char>,
    userinfo: Option<Seq<char>>,
    host: Seq<char>,
    port: Option<Seq<char>>,
    path: Seq<char>,
    query: Option<Seq<char>>,
    fragment: Option<Seq<char>>,
)
    requires
        is_scheme_text(scheme),
        userinfo matches Some(u) ==> is_plain(u) && !u.contains('@'),
        is_plain(host),
        userinfo is None ==> !host.contains('@'),
        port matches Some(digits) ==> all_digits(digits),
        port is None ==> port_of(host) is None,
        !path.contains('?'),
        !path.contains('#'),
        query matches Some(q) ==> !q.contains('#'),
    ensures
        parse(compose(scheme, userinfo, host, port, path, query, fragment)) == (Parts {
            scheme: Some(scheme),
            userinfo,
            host: Some(host),
            port,
            path: Some(path),
            query,
            fragment,
        }),
{
    let a = authority_text(userinfo, host, port);
    let z = scheme + seq![':', '/', '/'] + a + seq!['/'] + path;
    lemma_authority_plain(userinfo, host, port);
    lemma_head_without(scheme, a, path, '?');
    lemma_head_without(scheme, a, path, '#');
    lemma_tails_read_back(z, query, fragment);
    lemma_head_read_back(scheme, a, path);
    lemma_authority_read_back(userinfo, host, port);
}

} // verus!
