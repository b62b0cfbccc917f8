//! The owned snapshot of a URI: the same parts, each with storage of its own.

use vstd::prelude::*;
use vstd::std_specs::cmp::PartialEqSpecImpl;
use vstd::std_specs::convert::FromSpecImpl;
use vstd::string::*;
use crate::text::part_text;
use crate::uri::{render, Parts, Uri};

verus! {

/// The characters of an optional string.
pub open spec fn owned_text_of(s: Option<String>) -> Option<Seq<char>> {
    match s {
        Some(t) => Some(t@),
        None => None,
    }
}

/// A URI that owns the text of each of its parts.
#[derive(Debug, Clone, Eq)]
pub struct UriOwned {
    pub scheme: Option<String>,
    pub userinfo: Option<String>,
    pub host: Option<String>,
    pub port: Option<String>,
    pub path: Option<String>,
    pub query: Option<String>,
    pub fragment: Option<String>,
}

impl View for UriOwned {
    type V = Parts;

    open spec fn view(&self) -> Parts {
        Parts {
            scheme: owned_text_of(self.scheme),
            userinfo: owned_text_of(self.userinfo),
            host: owned_text_of(self.host),
            port: owned_text_of(self.port),
            path: owned_text_of(self.path),
            query: owned_text_of(self.query),
            fragment: owned_text_of(self.fragment),
        }
    }
}

/// A copy of an optional slice in storage of its own.
fn copied(part: Option<&str>) -> (r: Option<String>)
    ensures
        owned_text_of(r) == part_text(part),
{
    match part {
        Some(t) => Some(String::from_str(t)),
        None => None,
    }
}

/// An optional string lent out as a slice.
fn lent<'a>(part: &'a Option<String>) -> (r: Option<&'a str>)
    ensures
        part_text(r) == owned_text_of(*part),
{
    match part {
        Some(t) => Some(t.as_str()),
        None => None,
    }
}

impl<'a> FromSpecImpl<Uri<'a>> for UriOwned {
    /// No spec function builds a `String`, so `from` is held to its own
    /// `ensures`, which speaks of the parts, and not to `from_spec`.
    open spec fn obeys_from_spec() -> bool {
        false
    }

    /// Some snapshot with the parts of `uri`.
    open spec fn from_spec(uri: Uri<'a>) -> UriOwned {
        choose|o: UriOwned| o@ == uri@
    }
}

impl<'a> From<Uri<'a>> for UriOwned {
    /// Copies every part that is present; the copy has the same parts.
    fn from(uri: Uri<'a>) -> (r: UriOwned)
        ensures
            r@ == uri@,
    {
        UriOwned {
            scheme: copied(uri.scheme),
            userinfo: copied(uri.userinfo),
            host: copied(uri.host),
            port: copied(uri.port),
            path: copied(uri.path),
            query: copied(uri.query),
            fragment: copied(uri.fragment),
        }
    }
}

impl<'a> FromSpecImpl<&'a UriOwned> for Uri<'a> {
    /// No spec function lends a slice of a `String`, so `from` is held to its
    /// own `ensures`, which speaks of the parts, and not to `from_spec`.
    open spec fn obeys_from_spec() -> bool {
        false
    }

    /// Some view with the parts of `uri`.
    open spec fn from_spec(uri: &'a UriOwned) -> Uri<'a> {
        choose|v: Uri<'a>| v@ == uri@
    }
}

impl<'a> From<&'a UriOwned> for Uri<'a> {
    /// Lends every part that is present; the view has the same parts.
    fn from(uri: &'a UriOwned) -> (r: Uri<'a>)
        ensures
            r@ == uri@,
    {
        Uri {
            scheme: lent(&uri.scheme),
            userinfo: lent(&uri.userinfo),
            host: lent(&uri.host),
            port: lent(&uri.port),
            path: lent(&uri.path),
            query: lent(&uri.query),
            fragment: lent(&uri.fragment),
        }
    }
}

impl PartialEqSpecImpl for UriOwned {
    open spec fn obeys_eq_spec() -> bool {
        true
    }

    /// Two snapshots are equal where each of the seven parts is absent in
    /// both or holds the same text in both.
    open spec fn eq_spec(&self, other: &UriOwned) -> bool {
        self@ == other@
    }
}

impl PartialEq for UriOwned {
    /// Whether all seven parts agree, as `eq_spec` says.
    fn eq(&self, other: &UriOwned) -> (r: bool) {
        self.as_ref() == other.as_ref()
    }
}

impl UriOwned {
    /// A view that borrows every part of this snapshot.
    pub fn as_ref(&self) -> (r: Uri<'_>)
        ensures
            r@ == self@,
    {
        Uri::from(self)
    }

    /// The text that stands for this URI: `render` of its parts.
    pub fn to_string(&self) -> (out: String)
        ensures
            out@ == render(self@),
    {
        self.as_ref().to_string()
    }
}

/// An owned snapshot that is made from a view renders to the text that the
/// view renders to.
pub proof fn lemma_owned_renders_as_view(view: Uri<'_>, owned: UriOwned, a: String, b: String)
    requires
        call_ensures(<UriOwned as From<Uri<'_>>>::from, (view,), owned),
        call_ensures(UriOwned::to_string, (&owned,), a),
        call_ensures(Uri::to_string, (&view,), b),
    ensures
        a@ == b@,
{
}

} // verus!
