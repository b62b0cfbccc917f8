//! The borrowed view of a URI: the parts of a text, each a slice of it.

use vstd::prelude::*;
use vstd::std_specs::cmp::PartialEqSpecImpl;
use vstd::std_specs::convert::TryFromSpecImpl;
use vstd::string::*;
use crate::chars::is_letter;
use crate::error::Error;
use crate::text::{
    all_digits, all_scheme_chars, is_all_digits, is_all_scheme, part_text, rsplit_once,
    same_part, split_first, split_last, split_once, starts_with_letter, trim_leading_slashes,
    trim_slashes,
};

verus! {

/// The parts of a URI as plain text. A part that is absent is `None`; a part
/// that is present and empty is `Some` of the empty text.
pub struct Parts {
    pub scheme: Option<Seq<char>>,
    pub userinfo: Option<Seq<char>>,
    pub host: Option<Seq<char>>,
    pub port: Option<Seq<char>>,
    pub path: Option<Seq<char>>,
    pub query: Option<Seq<char>>,
    pub fragment: Option<Seq<char>>,
}

/// `s` up to its first `c`, or all of `s` where it holds no `c`.
pub open spec fn before_first(s: Seq<char>, c: char) -> Seq<char> {
    match split_first(s, c) {
        Some((head, _)) => head,
        None => s,
    }
}

/// What follows the first `c` of `s`, where it holds one.
pub open spec fn after_first(s: Seq<char>, c: char) -> Option<Seq<char>> {
    match split_first(s, c) {
        Some((_, tail)) => Some(tail),
        None => None,
    }
}

/// `s` up to the first `#` or `?` in it.
pub open spec fn stem(s: Seq<char>) -> Seq<char> {
    before_first(before_first(s, '#'), '?')
}

/// `s` cut behind its scheme: `s` starts with a letter, holds a `:`, and all
/// that stands before its first `:` may stand in a scheme. The halves are the
/// scheme and what follows that `:`.
pub open spec fn split_scheme(s: Seq<char>) -> Option<(Seq<char>, Seq<char>)> {
    if s.len() > 0 && is_letter(s[0]) {
        match split_first(s, ':') {
            Some((head, tail)) => if all_scheme_chars(head) {
                Some((head, tail))
            } else {
                None
            },
            None => None,
        }
    } else {
        None
    }
}

/// The scheme that `s` begins with, where it begins with one.
pub open spec fn scheme_of(s: Seq<char>) -> Option<Seq<char>> {
    match split_scheme(s) {
        Some((head, _)) => Some(head),
        None => None,
    }
}

/// `s` without its scheme and the `:` that ends it; all of `s` where it has
/// no scheme.
pub open spec fn after_scheme(s: Seq<char>) -> Seq<char> {
    match split_scheme(s) {
        Some((_, tail)) => tail,
        None => s,
    }
}

/// `s` begins with the marker `//` of an authority.
pub open spec fn has_authority(s: Seq<char>) -> bool {
    s.len() >= 2 && s[0] == '/' && s[1] == '/'
}

/// The authority `a` cut before its port: the halves are what stands before
/// its last `:` and what follows it, where that is nothing but digits.
pub open spec fn split_port(a: Seq<char>) -> Option<(Seq<char>, Seq<char>)> {
    match split_last(a, ':') {
        Some((head, tail)) => if all_digits(tail) {
            Some((head, tail))
        } else {
            None
        },
        None => None,
    }
}

/// The port that the authority `a` ends with, where it ends with one.
pub open spec fn port_of(a: Seq<char>) -> Option<Seq<char>> {
    match split_port(a) {
        Some((_, tail)) => Some(tail),
        None => None,
    }
}

/// The authority `a` without its port and the `:` before it; all of `a`
/// where it has no port.
pub open spec fn before_port(a: Seq<char>) -> Seq<char> {
    match split_port(a) {
        Some((head, _)) => head,
        None => a,
    }
}

/// The parts of the text `s`.
///
/// The fragment is what follows the first `#`, the query what follows the
/// first `?` before that. What is left may begin with a scheme. If the rest
/// begins with `//`, an authority follows, up to the next `/`, and the path
/// is what follows that `/`; the authority ends with a port where digits
/// follow its last `:`, and begins with the userinfo where it holds an `@`.
/// If the rest does not begin with `//`, all of it is the path.
///
/// The last `:` of the authority is taken as it stands: an address in
/// brackets that ends in digits loses them to the port.
pub open spec fn parse(s: Seq<char>) -> Parts {
    let fragment = after_first(s, '#');
    let query = after_first(before_first(s, '#'), '?');
    let scheme = scheme_of(stem(s));
    let rest = after_scheme(stem(s));
    if has_authority(rest) {
        let behind = rest.skip(2);
        let authority = before_first(behind, '/');
        let named = before_port(authority);
        Parts {
            scheme,
            userinfo: match split_first(named, '@') {
                Some((head, _)) => Some(head),
                None => None,
            },
            host: Some(
                match split_first(named, '@') {
                    Some((_, tail)) => tail,
                    None => named,
                },
            ),
            port: port_of(authority),
            path: after_first(behind, '/'),
            query,
            fragment,
        }
    } else {
        Parts {
            scheme,
            userinfo: None,
            host: None,
            port: None,
            path: Some(rest),
            query,
            fragment,
        }
    }
}

/// `prefix` and then `part`, where the part is present; nothing where it is
/// absent.
pub open spec fn led_by(prefix: Seq<char>, part: Option<Seq<char>>) -> Seq<char> {
    match part {
        Some(t) => prefix + t,
        None => Seq::empty(),
    }
}

/// `part` and then `suffix`, where the part is present; nothing where it is
/// absent.
pub open spec fn ended_by(part: Option<Seq<char>>, suffix: Seq<char>) -> Seq<char> {
    match part {
        Some(t) => t + suffix,
        None => Seq::empty(),
    }
}

/// The text of an authority: the userinfo and `@` where there is a userinfo,
/// the host, and `:` and the port where there is a port.
pub open spec fn authority_text(
    userinfo: Option<Seq<char>>,
    host: Seq<char>,
    port: Option<Seq<char>>,
) -> Seq<char> {
    ended_by(userinfo, seq!['@']) + host + led_by(seq![':'], port)
}

/// What stands between the scheme and the query: with a host, `//`, the
/// authority, and `/` and the path without the slashes that it begins with;
/// without a host, the path as it is.
pub open spec fn render_hierarchy(p: Parts) -> Seq<char> {
    match p.host {
        Some(host) => seq!['/', '/'] + authority_text(p.userinfo, host, p.port) + led_by(
            seq!['/'],
            match p.path {
                Some(path) => Some(trim_slashes(path)),
                None => None,
            },
        ),
        None => led_by(Seq::empty(), p.path),
    }
}

/// The text that stands for the parts `p`: the scheme and `:`, the
/// hierarchy, `?` and the query, `#` and the fragment, each only where the
/// part is present.
pub open spec fn render(p: Parts) -> Seq<char> {
    ended_by(p.scheme, seq![':']) + render_hierarchy(p) + led_by(seq!['?'], p.query) + led_by(
        seq!['#'],
        p.fragment,
    )
}

/// The URI that is written from a scheme, an authority and a path: the
/// scheme, `://`, the authority, `/`, the path, and the query and the
/// fragment where there are any.
pub open spec fn compose(
    scheme: Seq<char>,
    userinfo: Option<Seq<char>>,
    host: Seq<char>,
    port: Option<Seq<char>>,
    path: Seq<char>,
    query: Option<Seq<char>>,
    fragment: Option<Seq<char>>,
) -> Seq<char> {
    scheme + seq![':', '/', '/'] + authority_text(userinfo, host, port) + seq!['/'] + path
        + led_by(seq!['?'], query) + led_by(seq!['#'], fragment)
}

/// `s` without the `//` that it begins with, or `None` where it does not
/// begin so.
pub fn strip_marker<'a>(s: &'a str) -> (r: Option<&'a str>)
    ensures
        match r {
            Some(rest) => has_authority(s@) && rest@ == s@.skip(2),
            None => !has_authority(s@),
        },
{
    let n: usize = s.unicode_len();
    if n >= 2 && s.get_char(0) == '/' && s.get_char(1) == '/' {
        Some(s.substring_char(2, n))
    } else {
        None
    }
}

/// A URI whose parts are slices of the text that it was read from.
#[derive(Debug, Clone, Copy, Eq, Hash)]
pub struct Uri<'a> {
    pub scheme: Option<&'a str>,
    pub userinfo: Option<&'a str>,
    pub host: Option<&'a str>,
    pub port: Option<&'a str>,
    pub path: Option<&'a str>,
    pub query: Option<&'a str>,
    pub fragment: Option<&'a str>,
}

impl<'a> View for Uri<'a> {
    type V = Parts;

    open spec fn view(&self) -> Parts {
        Parts {
            scheme: part_text(self.scheme),
            userinfo: part_text(self.userinfo),
            host: part_text(self.host),
            port: part_text(self.port),
            path: part_text(self.path),
            query: part_text(self.query),
            fragment: part_text(self.fragment),
        }
    }
}

impl<'a> PartialEqSpecImpl for Uri<'a> {
    open spec fn obeys_eq_spec() -> bool {
        true
    }

    /// Two views are equal where each of the seven parts is absent in both
    /// or holds the same text in both.
    open spec fn eq_spec(&self, other: &Uri<'a>) -> bool {
        self@ == other@
    }
}

impl<'a> PartialEq for Uri<'a> {
    /// Whether all seven parts agree, as `eq_spec` says.
    fn eq(&self, other: &Uri<'a>) -> (r: bool) {
        same_part(self.scheme, other.scheme) && same_part(self.userinfo, other.userinfo)
            && same_part(self.host, other.host) && same_part(self.port, other.port) && same_part(
            self.path,
            other.path,
        ) && same_part(self.query, other.query) && same_part(self.fragment, other.fragment)
    }
}

impl<'a> Uri<'a> {
    /// Reads `src` as a URI. Every text is accepted, and the parts are those
    /// that `parse` gives.
    pub fn new(src: &'a str) -> (r: Result<Uri<'a>, Error>)
        ensures
            r is Ok,
            r->Ok_0@ == parse(src@),
    {
        let mut src: &'a str = src;
        let mut uri = Uri {
            scheme: None,
            userinfo: None,
            host: None,
            port: None,
            path: None,
            query: None,
            fragment: None,
        };

        if let Some((rest, frag)) = split_once(src, '#') {
            src = rest;
            uri.fragment = Some(frag);
        }
        if let Some((rest, query)) = split_once(src, '?') {
            src = rest;
            uri.query = Some(query);
        }

        if starts_with_letter(src) {
            if let Some((scheme, rest)) = split_once(src, ':') {
                if is_all_scheme(scheme) {
                    uri.scheme = Some(scheme);
                    src = rest;
                }
            }
        }

        if let Some(rest) = strip_marker(src) {
            src = rest;
            if let Some((rest, path)) = split_once(rest, '/') {
                uri.path = Some(path);
                src = rest;
            }

            if let Some((rest, port)) = rsplit_once(src, ':') {
                if is_all_digits(port) {
                    uri.port = Some(port);
                    src = rest;
                }
            }
            if let Some((userinfo, host)) = split_once(src, '@') {
                uri.userinfo = Some(userinfo);
                uri.host = Some(host);
            } else {
                uri.host = Some(src);
            }
        } else {
            uri.path = Some(src);
        }

        Ok(uri)
    }

    /// The text that stands for this URI: `render` of its parts.
    pub fn to_string(&self) -> (out: String)
        ensures
            out@ == render(self@),
    {
        proof {
            reveal_strlit(":");
            reveal_strlit("?");
            reveal_strlit("#");
        }
        let mut out = String::new();
        append_ended(&mut out, self.scheme, ":");
        self.append_hierarchy(&mut out);
        append_led(&mut out, "?", self.query);
        append_led(&mut out, "#", self.fragment);
        assert(out@ =~= render(self@));
        out
    }

    /// Appends to `out` what stands between the scheme and the query.
    fn append_hierarchy(&self, out: &mut String)
        ensures
            final(out)@ == old(out)@ + render_hierarchy(self@),
    {
        proof {
            reveal_strlit("//");
            reveal_strlit("/");
            reveal_strlit("");
        }
        if let Some(host) = self.host {
            out.append("//");
            append_authority(out, self.userinfo, host, self.port);
            let path: Option<&str> = match self.path {
                Some(path) => Some(trim_leading_slashes(path)),
                None => None,
            };
            append_led(out, "/", path);
            assert(out@ =~= old(out)@ + render_hierarchy(self@));
        } else {
            append_led(out, "", self.path);
        }
    }
}

/// Appends the text of an authority to `out`.
fn append_authority(out: &mut String, userinfo: Option<&str>, host: &str, port: Option<&str>)
    ensures
        final(out)@ == old(out)@ + authority_text(part_text(userinfo), host@, part_text(port)),
{
    proof {
        reveal_strlit("@");
        reveal_strlit(":");
    }
    append_ended(out, userinfo, "@");
    out.append(host);
    append_led(out, ":", port);
    assert(out@ =~= old(out)@ + authority_text(part_text(userinfo), host@, part_text(port)));
}

/// Appends `prefix` and `part` to `out` where the part is present, and
/// nothing where it is absent.
fn append_led(out: &mut String, prefix: &str, part: Option<&str>)
    ensures
        final(out)@ == old(out)@ + led_by(prefix@, part_text(part)),
{
    if let Some(t) = part {
        out.append(prefix);
        out.append(t);
        assert(out@ =~= old(out)@ + (prefix@ + t@));
    } else {
        assert(out@ =~= old(out)@ + Seq::<char>::empty());
    }
}

/// Appends `part` and `suffix` to `out` where the part is present, and
/// nothing where it is absent.
fn append_ended(out: &mut String, part: Option<&str>, suffix: &str)
    ensures
        final(out)@ == old(out)@ + ended_by(part_text(part), suffix@),
{
    if let Some(t) = part {
        out.append(t);
        out.append(suffix);
        assert(out@ =~= old(out)@ + (t@ + suffix@));
    } else {
        assert(out@ =~= old(out)@ + Seq::<char>::empty());
    }
}

impl<'a> TryFromSpecImpl<&'a str> for Uri<'a> {
    /// No spec function cuts a slice out of a `str`, so `try_from` is held to
    /// its own `ensures`, which speaks of the parts, and not to
    /// `try_from_spec`.
    open spec fn obeys_try_from_spec() -> bool {
        false
    }

    /// Some view with the parts of `s`.
    open spec fn try_from_spec(s: &'a str) -> Result<Uri<'a>, Error> {
        Ok(choose|v: Uri<'a>| v@ == parse(s@))
    }
}

impl<'a> TryFrom<&'a str> for Uri<'a> {
    type Error = Error;

    /// Reads `s` as a URI, as `Uri::new` does.
    fn try_from(s: &'a str) -> (r: Result<Uri<'a>, Error>)
        ensures
            r is Ok,
            r->Ok_0@ == parse(s@),
    {
        Uri::new(s)
    }
}

} // verus!
