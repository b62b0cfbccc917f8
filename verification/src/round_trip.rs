//! What holds between reading a URI and rendering it.

use vstd::prelude::*;
use crate::chars::{is_mark, lemma_scheme_char_is_plain};
use crate::reading::{
    is_tail_mark, lemma_parse_shape, lemma_stem_end, lemma_stem_is, lemma_stem_without,
    lemma_tails_read_back,
};
use crate::text::{
    all_digits, all_scheme_chars, is_scheme_text, leading_slashes, lemma_join_without,
    lemma_scheme_without, lemma_split_first, lemma_split_first_of_join, lemma_split_last,
    lemma_split_without, lemma_trim_without_slash, split_first, trim_slashes,
};
use crate::uri::{
    after_first, after_scheme, authority_text, before_first, before_port, compose, ended_by,
    has_authority, led_by, parse, port_of, render, render_hierarchy, scheme_of, split_port,
    split_scheme, stem, Parts,
};

verus! {

/// Rendering keeps the path of `p` as it is: `p` has no host, or no path, or
/// a path that does not begin with `/`.
pub open spec fn keeps_path(p: Parts) -> bool {
    p.host is Some ==> match p.path {
        Some(path) => leading_slashes(path) == 0,
        None => true,
    }
}

/// What stands before the first `c` of `s`, the `c`, and what follows it make
/// up `s`.
proof fn lemma_cut_joins(s: Seq<char>, c: char)
    ensures
        s == before_first(s, c) + led_by(seq![c], after_first(s, c)),
{
    lemma_split_first(s, c);
    match split_first(s, c) {
        Some((head, tail)) => {
            assert(s =~= head + (seq![c] + tail));
        },
        None => {
            assert(s =~= s + Seq::<char>::empty());
        },
    }
}

/// The scheme of `s`, the `:` and what follows them make up `s`.
proof fn lemma_scheme_joins(s: Seq<char>)
    ensures
        s == ended_by(scheme_of(s), seq![':']) + after_scheme(s),
{
    lemma_split_first(s, ':');
    match split_scheme(s) {
        Some((head, tail)) => {
            assert(s =~= (head + seq![':']) + tail);
        },
        None => {
            assert(s =~= Seq::<char>::empty() + s);
        },
    }
}

/// What stands before the port of the authority `a`, the `:` and the port
/// make up `a`.
proof fn lemma_port_joins(a: Seq<char>)
    ensures
        a == before_port(a) + led_by(seq![':'], port_of(a)),
{
    lemma_split_last(a, ':');
    match split_port(a) {
        Some((head, tail)) => {
            assert(a =~= head + (seq![':'] + tail));
        },
        None => {
            assert(a =~= a + Seq::<char>::empty());
        },
    }
}

/// The hierarchy of `p` with its path as it is, leading `/` included.
spec fn spelled_hierarchy(p: Parts) -> Seq<char> {
    match p.host {
        Some(host) => seq!['/', '/'] + authority_text(p.userinfo, host, p.port) + led_by(
            seq!['/'],
            p.path,
        ),
        None => led_by(Seq::empty(), p.path),
    }
}

/// The authority that is read from `s` is made up of the userinfo, the host
/// and the port that are read from it, and holds no `/`.
proof fn lemma_authority_spelled(s: Seq<char>)
    requires
        has_authority(after_scheme(stem(s))),
    ensures
        ({
            let p = parse(s);
            let authority = before_first(after_scheme(stem(s)).skip(2), '/');
            &&& p.host is Some
            &&& authority_text(p.userinfo, p.host->0, p.port) == authority
            &&& !authority.contains('/')
        }),
{
    let p = parse(s);
    let behind = after_scheme(stem(s)).skip(2);
    let authority = before_first(behind, '/');
    let named = before_port(authority);
    lemma_split_first(behind, '/');
    lemma_port_joins(authority);
    lemma_split_first(named, '@');
    assert(named =~= ended_by(p.userinfo, seq!['@']) + p.host->0) by {
        match split_first(named, '@') {
            Some((head, tail)) => {},
            None => {
                assert(named =~= Seq::<char>::empty() + named);
            },
        }
    }
}

/// What stands between the scheme and the query of `s` is made up of the
/// parts that were read from it, the path taken as it is.
proof fn lemma_hierarchy_spelled(s: Seq<char>)
    ensures
        spelled_hierarchy(parse(s)) == after_scheme(stem(s)),
{
    let p = parse(s);
    let rest = after_scheme(stem(s));
    if has_authority(rest) {
        let behind = rest.skip(2);
        let authority = before_first(behind, '/');
        assert(rest =~= seq!['/', '/'] + behind);
        lemma_cut_joins(behind, '/');
        lemma_authority_spelled(s);
        assert(spelled_hierarchy(p) =~= seq!['/', '/'] + (authority + led_by(seq!['/'], p.path)));
    } else {
        assert(rest =~= Seq::<char>::empty() + rest);
    }
}

/// The number of `/` that `s` begins with is at most its length.
proof fn lemma_leading_slashes_bound(s: Seq<char>)
    ensures
        leading_slashes(s) <= s.len(),
    decreases s.len(),
{
    if s.len() > 0 && s[0] == '/' {
        lemma_leading_slashes_bound(s.drop_first());
    }
}

/// The hierarchy is rendered as it is spelled where rendering keeps the
/// path, and shorter where it does not.
proof fn lemma_hierarchy_rendered(p: Parts)
    ensures
        keeps_path(p) ==> render_hierarchy(p) == spelled_hierarchy(p),
        !keeps_path(p) ==> render_hierarchy(p).len() < spelled_hierarchy(p).len(),
{
    if let Some(path) = p.path {
        lemma_leading_slashes_bound(path);
        if leading_slashes(path) == 0 {
            lemma_trim_without_slash(path);
        }
    }
}

/// Reading a text and rendering what was read gives the text back exactly
/// when rendering keeps the path that was read. The one thing that rendering
/// changes is the run of `/` at the start of a path that follows an
/// authority: it drops them.
pub proof fn lemma_round_trip(s: Seq<char>)
    ensures
        render(parse(s)) == s <==> keeps_path(parse(s)),
{
    let p = parse(s);
    let s1 = before_first(s, '#');
    let s2 = before_first(s1, '?');
    lemma_cut_joins(s, '#');
    lemma_cut_joins(s1, '?');
    lemma_scheme_joins(s2);
    lemma_hierarchy_spelled(s);
    lemma_hierarchy_rendered(p);
    let spelled = (ended_by(p.scheme, seq![':']) + spelled_hierarchy(p)) + led_by(
        seq!['?'],
        p.query,
    ) + led_by(seq!['#'], p.fragment);
    assert(s =~= spelled);
    if keeps_path(p) {
        assert(render(p) =~= spelled);
    } else {
        assert(render(p).len() < spelled.len());
    }
}

/// Parts with a host are rendered with `//` right behind the scheme and its
/// `:`, or at the very start where there is no scheme.
pub proof fn lemma_host_renders_marker(p: Parts)
    requires
        p.host is Some,
    ensures
        has_authority(render(p).skip(ended_by(p.scheme, seq![':']).len() as int)),
{
    let lead = ended_by(p.scheme, seq![':']);
    let shown = render(p).skip(lead.len() as int);
    assert(shown[0] == render_hierarchy(p)[0]);
    assert(shown[1] == render_hierarchy(p)[1]);
}

/// The first `/`, `?` or `#` of `s` stands at `k`.
pub open spec fn is_first_mark(s: Seq<char>, k: int) -> bool {
    &&& 0 <= k < s.len()
    &&& is_mark(s[k])
    &&& forall|j: int| 0 <= j < k ==> !is_mark(#[trigger] s[j])
}

/// The authority text `a` sets the path apart: where the first `/`, `?` or
/// `#` in `a` is a `/`, a character follows it within `a`, and that is no
/// `/`.
pub open spec fn sets_path_apart(a: Seq<char>) -> bool {
    forall|k: int|
        #[trigger] is_first_mark(a, k) && a[k] == '/' ==> k + 1 < a.len() && a[k + 1] != '/'
}

/// The stem of a text that begins with a scheme and `://` is these and the
/// stem of what follows them, whatever query and fragment are written
/// behind.
proof fn lemma_composed_stem(
    scheme: Seq<char>,
    b: Seq<char>,
    query: Option<Seq<char>>,
    fragment: Option<Seq<char>>,
)
    requires
        all_scheme_chars(scheme),
    ensures
        stem(
            scheme + seq![':', '/', '/'] + b + led_by(seq!['?'], query) + led_by(
                seq!['#'],
                fragment,
            ),
        ) == scheme + seq![':', '/', '/'] + stem(b),
{
    let lead = scheme + seq![':', '/', '/'];
    let tail = led_by(seq!['?'], query) + led_by(seq!['#'], fragment);
    let x = lead + b + led_by(seq!['?'], query) + led_by(seq!['#'], fragment);
    assert(x =~= lead + b + tail);
    lemma_stem_end(b);
    let mb = stem(b).len() as int;
    let m = lead.len() + mb;
    assert forall|j: int| 0 <= j < m implies !is_tail_mark(#[trigger] x[j]) by {
        if j < scheme.len() {
            assert(x[j] == scheme[j]);
            lemma_scheme_char_is_plain(scheme[j]);
        } else if j >= lead.len() {
            assert(x[j] == b[j - lead.len()]);
        }
    }
    if m < x.len() {
        if mb < b.len() {
            assert(x[m] == b[mb]);
        } else {
            assert(x[m] == tail[0]);
        }
    }
    lemma_stem_is(x, m);
    assert(x.take(m) =~= lead + stem(b));
}

/// What is read from a composed URI: the scheme is the one it was written
/// with, there is a host, and the path is what follows the first `/` in the
/// stem of the authority, `/` and the path.
proof fn lemma_composed_parts(
    scheme: Seq<char>,
    authority: Seq<char>,
    path: Seq<char>,
    query: Option<Seq<char>>,
    fragment: Option<Seq<char>>,
)
    requires
        is_scheme_text(scheme),
    ensures
        ({
            let x = scheme + seq![':', '/', '/'] + authority + seq!['/'] + path + led_by(
                seq!['?'],
                query,
            ) + led_by(seq!['#'], fragment);
            let p = parse(x);
            &&& p.scheme == Some(scheme)
            &&& p.host is Some
            &&& p.path == after_first(stem(authority + seq!['/'] + path), '/')
        }),
{
    let b = authority + seq!['/'] + path;
    let x = scheme + seq![':', '/', '/'] + authority + seq!['/'] + path + led_by(seq!['?'], query)
        + led_by(seq!['#'], fragment);
    assert(x =~= scheme + seq![':', '/', '/'] + b + led_by(seq!['?'], query) + led_by(
        seq!['#'],
        fragment,
    ));
    lemma_composed_stem(scheme, b, query, fragment);
    let s2 = stem(x);
    let rest = seq!['/', '/'] + stem(b);
    assert(s2 =~= scheme + seq![':'] + rest);
    lemma_scheme_without(scheme);
    lemma_split_first_of_join(scheme, ':', rest);
    assert(s2[0] == scheme[0]);
    assert(rest.skip(2) =~= stem(b));
}

/// Whether rendering keeps the path that is read from a composed URI.
proof fn lemma_composed_keeps_path(authority: Seq<char>, path: Seq<char>)
    requires
        path.len() > 0 ==> path[0] != '/',
    ensures
        ({
            let read = after_first(stem(authority + seq!['/'] + path), '/');
            (read matches Some(t) ==> leading_slashes(t) == 0) <==> sets_path_apart(authority)
        }),
{
    let b = authority + seq!['/'] + path;
    let read = after_first(stem(b), '/');
    lemma_stem_end(b);
    let mb = stem(b).len() as int;
    lemma_split_first(stem(b), '/');
    if sets_path_apart(authority) {
        if let Some((head, t)) = split_first(stem(b), '/') {
            if t.len() > 0 && t[0] == '/' {
                let k = head.len() as int;
                assert(stem(b)[k] == '/');
                assert(stem(b)[k + 1] == t[0]);
                assert(b[k] == '/' && b[k + 1] == '/');
                assert forall|j: int| 0 <= j < k implies !is_mark(b[j]) by {
                    assert(!is_tail_mark(b[j]));
                    assert(stem(b)[j] == head[j]);
                    assert(b[j] == stem(b)[j]);
                    if b[j] == '/' {
                        assert(head.contains('/'));
                    }
                }
                if k < authority.len() {
                    assert(authority[k] == b[k]);
                    assert forall|j: int| 0 <= j < k implies !is_mark(#[trigger] authority[j]) by {
                        assert(authority[j] == b[j]);
                    }
                    assert(is_first_mark(authority, k));
                    assert(k + 1 < authority.len() && authority[k + 1] != '/');
                    assert(authority[k + 1] == b[k + 1]);
                } else if k == authority.len() {
                    assert(b[k + 1] == path[0]);
                } else {
                    assert(b[authority.len() as int] == '/');
                    assert(is_mark(b[authority.len() as int]));
                }
                assert(false);
            }
            lemma_trim_without_slash(t);
        }
    } else {
        let k = choose|k: int|
            #[trigger] is_first_mark(authority, k) && authority[k] == '/' && !(k + 1
                < authority.len() && authority[k + 1] != '/');
        assert(b[k] == authority[k]);
        assert(b[k + 1] == '/') by {
            if k + 1 < authority.len() {
                assert(b[k + 1] == authority[k + 1]);
            }
        }
        assert forall|j: int| 0 <= j < k implies !is_mark(b[j]) by {
            assert(b[j] == authority[j]);
        }
        if mb <= k + 1 {
            assert(is_tail_mark(b[mb]));
            if mb < k {
                assert(!is_mark(b[mb]));
            }
        }
        let head = b.take(k);
        let t = stem(b).skip(k + 1);
        assert(stem(b) =~= head + seq!['/'] + t);
        assert(!head.contains('/')) by {
            if head.contains('/') {
                let j = choose|j: int| 0 <= j < head.len() && head[j] == '/';
                assert(is_mark(b[j]));
            }
        }
        lemma_split_first_of_join(head, '/', t);
        assert(read == Some(t));
        assert(t[0] == b[k + 1]);
        assert(leading_slashes(t) > 0);
    }
}

/// What `compose` writes is what the same parts are rendered to, where the
/// path does not begin with `/`.
pub proof fn lemma_compose_is_render(
    scheme: Seq<char>,
    userinfo: Option<Seq<char>>,
    host: Seq<char>,
    port: Option<Seq<char>>,
    path: Seq<char>,
    query: Option<Seq<char>>,
    fragment: Option<Seq<char>>,
)
    requires
        path.len() > 0 ==> path[0] != '/',
    ensures
        compose(scheme, userinfo, host, port, path, query, fragment) == render(
            Parts {
                scheme: Some(scheme),
                userinfo,
                host: Some(host),
                port,
                path: Some(path),
                query,
                fragment,
            },
        ),
{
    let p = Parts {
        scheme: Some(scheme),
        userinfo,
        host: Some(host),
        port,
        path: Some(path),
        query,
        fragment,
    };
    lemma_trim_without_slash(path);
    assert(render_hierarchy(p) =~= seq!['/', '/'] + authority_text(userinfo, host, port) + seq![
        '/',
    ] + path);
    assert(compose(scheme, userinfo, host, port, path, query, fragment) =~= render(p));
}

/// A URI that is written from a scheme, an authority and a path that does
/// not begin with `/` is given back by reading and rendering it exactly
/// when its authority sets the path apart; so it is whenever the authority
/// holds no `/`. The one way in which it is not: the first `/` in the
/// authority ends it early, and a second `/` right behind it is dropped as
/// the start of the path.
pub proof fn lemma_composed_round_trip(
    scheme: Seq<char>,
    userinfo: Option<Seq<char>>,
    host: Seq<char>,
    port: Option<Seq<char>>,
    path: Seq<char>,
    query: Option<Seq<char>>,
    fragment: Option<Seq<char>>,
)
    requires
        is_scheme_text(scheme),
        port matches Some(digits) ==> all_digits(digits),
        path.len() > 0 ==> path[0] != '/',
    ensures
        ({
            let x = compose(scheme, userinfo, host, port, path, query, fragment);
            let authority = authority_text(userinfo, host, port);
            &&& render(parse(x)) == x <==> sets_path_apart(authority)
            &&& !authority.contains('/') ==> render(parse(x)) == x
        }),
{
    let x = compose(scheme, userinfo, host, port, path, query, fragment);
    let authority = authority_text(userinfo, host, port);
    lemma_composed_parts(scheme, authority, path, query, fragment);
    lemma_composed_keeps_path(authority, path);
    lemma_round_trip(x);
}

/// The parts `p` as rendering leaves them: behind a host the path is
/// without the slashes that it began with; all else is as it was.
pub open spec fn canonical(p: Parts) -> Parts {
    Parts {
        scheme: p.scheme,
        userinfo: p.userinfo,
        host: p.host,
        port: p.port,
        path: match (p.host, p.path) {
            (Some(_), Some(path)) => Some(trim_slashes(path)),
            _ => p.path,
        },
        query: p.query,
        fragment: p.fragment,
    }
}

/// What is left of a text when the slashes that it begins with are dropped
/// begins with no slash.
proof fn lemma_trimmed_has_no_slash(s: Seq<char>)
    ensures
        trim_slashes(s).len() > 0 ==> trim_slashes(s)[0] != '/',
    decreases s.len(),
{
    lemma_leading_slashes_bound(s);
    if s.len() > 0 && s[0] == '/' {
        lemma_trimmed_has_no_slash(s.drop_first());
        assert(trim_slashes(s) =~= trim_slashes(s.drop_first()));
    } else {
        assert(trim_slashes(s) =~= s);
    }
}

/// Neither of two texts holds `c` where the text that is joined from them
/// holds none.
proof fn lemma_halves_without(a: Seq<char>, b: Seq<char>, c: char)
    requires
        !(a + b).contains(c),
    ensures
        !a.contains(c),
        !b.contains(c),
{
    if a.contains(c) {
        let i = choose|i: int| 0 <= i < a.len() && a[i] == c;
        assert((a + b)[i] == c);
    }
    if b.contains(c) {
        let i = choose|i: int| 0 <= i < b.len() && b[i] == c;
        assert((a + b)[a.len() + i] == c);
    }
}

/// A hierarchy that is spelled without `c` is rendered without `c`.
proof fn lemma_hierarchy_without(p: Parts, c: char)
    requires
        !spelled_hierarchy(p).contains(c),
    ensures
        !render_hierarchy(p).contains(c),
{
    match (p.host, p.path) {
        (Some(host), Some(path)) => {
            let front = seq!['/', '/'] + authority_text(p.userinfo, host, p.port) + seq!['/'];
            lemma_leading_slashes_bound(path);
            assert(spelled_hierarchy(p) =~= front + path);
            assert(render_hierarchy(p) =~= front + trim_slashes(path));
            lemma_halves_without(front, path, c);
            if trim_slashes(path).contains(c) {
                let i = choose|i: int|
                    0 <= i < trim_slashes(path).len() && trim_slashes(path)[i] == c;
                assert(path[leading_slashes(path) + i] == c);
            }
            lemma_join_without(front, trim_slashes(path), c);
        },
        _ => {
            assert(render_hierarchy(p) =~= spelled_hierarchy(p));
        },
    }
}

/// The scheme and the hierarchy that are rendered from what was read hold
/// neither `?` nor `#`.
proof fn lemma_rendered_stem_without(s: Seq<char>, c: char)
    requires
        c == '?' || c == '#',
    ensures
        !(ended_by(parse(s).scheme, seq![':']) + render_hierarchy(parse(s))).contains(c),
{
    let p = parse(s);
    let lead = ended_by(p.scheme, seq![':']);
    lemma_stem_without(s);
    lemma_scheme_joins(stem(s));
    lemma_hierarchy_spelled(s);
    lemma_halves_without(lead, spelled_hierarchy(p), c);
    lemma_hierarchy_without(p, c);
    lemma_join_without(lead, render_hierarchy(p), c);
}

/// The scheme that was read, rendered before any text that was read as
/// hierarchy, is read again as it was.
proof fn lemma_rendered_scheme(s: Seq<char>)
    ensures
        ({
            let p = parse(s);
            let z = ended_by(p.scheme, seq![':']) + render_hierarchy(p);
            &&& scheme_of(z) == p.scheme
            &&& after_scheme(z) == render_hierarchy(p)
        }),
{
    let p = parse(s);
    let h = render_hierarchy(p);
    let z = ended_by(p.scheme, seq![':']) + h;
    match p.scheme {
        Some(scheme) => {
            lemma_parse_shape(s);
            lemma_scheme_without(scheme);
            lemma_split_first_of_join(scheme, ':', h);
            assert(z =~= scheme + seq![':'] + h);
            assert(z[0] == scheme[0]);
        },
        None => {
            assert(z =~= h);
            if p.host is Some {
                assert(h[0] == '/');
            } else {
                assert(h =~= stem(s)) by {
                    assert(Seq::<char>::empty() + stem(s) =~= stem(s));
                }
            }
        },
    }
}

/// The hierarchy that is rendered from what was read is read as the same
/// authority, and as the path without the slashes that it began with.
proof fn lemma_rendered_hierarchy(s: Seq<char>)
    requires
        parse(s).host is Some,
    ensures
        ({
            let p = parse(s);
            let h = render_hierarchy(p);
            let authority = before_first(after_scheme(stem(s)).skip(2), '/');
            &&& has_authority(h)
            &&& before_first(h.skip(2), '/') == authority
            &&& after_first(h.skip(2), '/') == canonical(p).path
        }),
{
    let p = parse(s);
    let h = render_hierarchy(p);
    let authority = before_first(after_scheme(stem(s)).skip(2), '/');
    lemma_authority_spelled(s);
    match p.path {
        Some(path) => {
            let trimmed = trim_slashes(path);
            lemma_split_first_of_join(authority, '/', trimmed);
            assert(h.skip(2) =~= authority + seq!['/'] + trimmed);
        },
        None => {
            lemma_split_without(authority, '/');
            assert(h.skip(2) =~= authority);
        },
    }
}

/// The text that is rendered from what was read is read as the same parts,
/// but for the slashes that rendering dropped; and it is rendered again as
/// it is. So rendering gives one text for all the texts that differ only in
/// the number of `/` between an authority and its path.
pub proof fn lemma_read_rendered(s: Seq<char>)
    ensures
        parse(render(parse(s))) == canonical(parse(s)),
        render(canonical(parse(s))) == render(parse(s)),
        render(parse(render(parse(s)))) == render(parse(s)),
{
    let p = parse(s);
    let t = render(p);
    let z = ended_by(p.scheme, seq![':']) + render_hierarchy(p);
    lemma_rendered_stem_without(s, '?');
    lemma_rendered_stem_without(s, '#');
    lemma_stem_without(s);
    lemma_tails_read_back(z, p.query, p.fragment);
    lemma_rendered_scheme(s);
    if p.host is Some {
        lemma_rendered_hierarchy(s);
    } else {
        assert(render_hierarchy(p) =~= after_scheme(stem(s))) by {
            assert(Seq::<char>::empty() + after_scheme(stem(s)) =~= after_scheme(stem(s)));
        }
    }
    assert(parse(t) == canonical(p));
    lemma_round_trip(t);
    if let (Some(_), Some(path)) = (p.host, p.path) {
        lemma_trimmed_has_no_slash(path);
        lemma_trim_without_slash(trim_slashes(path));
    }
}

} // verus!
