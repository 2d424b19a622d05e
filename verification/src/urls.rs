//! The library's model of an absolute URL.
//!
//! An [`AbsoluteUrl`] holds, as plain strings, the two things the proxy logic
//! reads of a URL: its canonical serialization and its path component. Parsing
//! and joining are done by the `url` crate behind trusted wrappers; everything
//! the contracts say about them is phrased over the uninterpreted names below.

use vstd::prelude::*;

verus! {

/// Whether `url::Url::parse` accepts this string as an absolute URL.
pub uninterp spec fn is_abs_url(s: Seq<char>) -> bool;

/// The serialization (`Url::as_str`) of the URL parsed from `s`.
/// Meaningful only when `is_abs_url(s)` holds.
pub uninterp spec fn url_canon(s: Seq<char>) -> Seq<char>;

/// The path component (`Url::path`) of the URL parsed from `s`.
/// Meaningful only when `is_abs_url(s)` holds.
pub uninterp spec fn url_path(s: Seq<char>) -> Seq<char>;

/// Whether the URL parsed from `s` has a host (`Url::has_host`).
/// Meaningful only when `is_abs_url(s)` holds.
pub uninterp spec fn url_has_host(s: Seq<char>) -> bool;

/// Whether joining `rel` against the URL parsed from `base` succeeds
/// (`Url::join`). Meaningful only when `is_abs_url(base)` holds.
pub uninterp spec fn url_join_ok(base: Seq<char>, rel: Seq<char>) -> bool;

/// Whether the URL obtained by joining `rel` against the URL parsed from
/// `base` has a host (`Url::has_host` of the join result). Meaningful only
/// when `url_join_ok(base, rel)` holds.
pub uninterp spec fn url_join_host(base: Seq<char>, rel: Seq<char>) -> bool;

/// The serialization of the URL obtained by joining `rel` against the URL
/// parsed from `base`. Meaningful only when `url_join_ok(base, rel)` holds.
pub uninterp spec fn url_join(base: Seq<char>, rel: Seq<char>) -> Seq<char>;

/// The strings this library treats as absolute URLs: they parse as an
/// absolute URL and that URL names a host.
pub open spec fn accepts_url(s: Seq<char>) -> bool {
    is_abs_url(s) && url_has_host(s)
}

/// The mathematical content of an [`AbsoluteUrl`]: its canonical
/// serialization and its path component, as character sequences.
#[verifier::ext_equal]
pub struct UrlView {
    /// The canonical serialization of the URL.
    pub text: Seq<char>,
    /// The path component of the URL.
    pub path: Seq<char>,
}

/// A syntactically valid absolute URL: it has a scheme and a host.
/// Immutable once parsed. The stored serialization is canonical: parsing it
/// back yields the same serialization.
#[derive(Debug)]
pub struct AbsoluteUrl {
    text: String,
    path: String,
}

impl View for AbsoluteUrl {
    type V = UrlView;

    closed spec fn view(&self) -> UrlView {
        UrlView { text: self.text@, path: self.path@ }
    }
}

/// Relies on `url::Url::parse` (url 2.5): it parses exactly the absolute
/// URLs and its result depends on the input alone; an input must begin with
/// an ASCII-alphabetic scheme, so a string beginning with `/` never parses;
/// a parsed URL's serialization (`as_str`/`to_string`) re-parses to the same
/// URL, host included; `path()` of a URL that has a host is empty or begins
/// with `/` (a URL with a host is not cannot-be-a-base); serializations are
/// percent-encoded, raw newlines never survive in them.
#[verifier::external_body]
fn parse_url_parts(s: &str) -> (r: Option<(String, String, bool)>)
    ensures
        r is Some <==> is_abs_url(s@),
        s@.len() > 0 && s@[0] == '/' ==> r is None,
        r matches Some(p) ==> {
            &&& p.0@ == url_canon(s@)
            &&& p.0@.len() > 0
            &&& is_abs_url(p.0@)
            &&& url_canon(p.0@) == p.0@
            &&& p.1@ == url_path(p.0@)
            &&& p.2 == url_has_host(s@)
            &&& (p.2 ==> url_has_host(p.0@))
            &&& (p.2 ==> p.1@.len() == 0 || p.1@[0] == '/')
            &&& (forall|i: int| 0 <= i < p.1@.len() ==> p.1@[i] != '\n')
        },
{
    match url::Url::parse(s) {
        Ok(u) => {
            let path = u.path().to_string();
            let text = u.to_string();
            Some((text, path, u.has_host()))
        }
        Err(_) => None,
    }
}

/// Relies on `url::Url::join` (url 2.5): joining is a function of the base
/// URL's serialization and the input alone; a join result's serialization
/// re-parses to the same URL, host included; `path()` of a URL that has a
/// host is empty or begins with `/`; serializations are percent-encoded,
/// raw newlines never survive in them.
#[verifier::external_body]
fn join_url_parts(base: &str, input: &str) -> (r: Option<(String, String, bool)>)
    ensures
        is_abs_url(base@) ==> {
            &&& (r is Some <==> url_join_ok(base@, input@))
            &&& (r matches Some(p) ==> {
                &&& p.0@ == url_join(base@, input@)
                &&& p.0@.len() > 0
                &&& is_abs_url(p.0@)
                &&& url_canon(p.0@) == p.0@
                &&& p.1@ == url_path(p.0@)
                &&& p.2 == url_join_host(base@, input@)
                &&& (p.2 ==> url_has_host(p.0@))
                &&& (p.2 ==> p.1@.len() == 0 || p.1@[0] == '/')
                &&& (forall|i: int| 0 <= i < p.1@.len() ==> p.1@[i] != '\n')
            })
        },
{
    let b = match url::Url::parse(base) {
        Ok(b) => b,
        Err(_) => return None,
    };
    match b.join(input) {
        Ok(u) => {
            let path = u.path().to_string();
            let text = u.to_string();
            Some((text, path, u.has_host()))
        }
        Err(_) => None,
    }
}

impl AbsoluteUrl {
    /// Well-formedness: the stored serialization is a canonical absolute URL
    /// with a host, and the stored path is its path component.
    #[verifier::type_invariant]
    pub closed spec fn valid(self) -> bool {
        &&& is_abs_url(self.text@)
        &&& url_has_host(self.text@)
        &&& url_canon(self.text@) == self.text@
        &&& self.path@ == url_path(self.text@)
        &&& self.text@.len() > 0
        &&& (self.path@.len() == 0 || self.path@[0] == '/')
        &&& (forall|i: int| 0 <= i < self.path@.len() ==> self.path@[i] != '\n')
    }

    /// Parses a string as an absolute URL with a host.
    pub fn parse(s: &str) -> (r: Option<AbsoluteUrl>)
        ensures
            r is Some <==> accepts_url(s@),
            s@.len() > 0 && s@[0] == '/' ==> r is None,
            r matches Some(u) ==> {
                &&& u@.text == url_canon(s@)
                &&& u@.path == url_path(url_canon(s@))
                &&& u.valid()
            },
    {
        match parse_url_parts(s) {
            Some((text, path, has_host)) => {
                if has_host {
                    Some(AbsoluteUrl { text, path })
                } else {
                    None
                }
            }
            None => None,
        }
    }

    /// The canonical serialization of this URL.
    pub fn as_str(&self) -> (r: &str)
        ensures
            r@ == self@.text,
    {
        self.text.as_str()
    }

    /// The path component of this URL.
    pub fn path(&self) -> (r: &str)
        ensures
            r@ == self@.path,
    {
        self.path.as_str()
    }

    /// Resolves `input` as a reference relative to this URL, by standard
    /// relative-URL-join semantics. Returns `None` when the combination is
    /// not a legal URL or when the result has no host.
    pub fn join(&self, input: &str) -> (r: Option<AbsoluteUrl>)
        ensures
            r is Some <==> url_join_ok(self@.text, input@) && url_join_host(self@.text, input@),
            r matches Some(u) ==> {
                &&& u@.text == url_join(self@.text, input@)
                &&& u@.path == url_path(u@.text)
                &&& u.valid()
            },
    {
        proof {
            use_type_invariant(&*self);
        }
        match join_url_parts(self.text.as_str(), input) {
            Some((text, path, has_host)) => {
                if has_host {
                    Some(AbsoluteUrl { text, path })
                } else {
                    None
                }
            }
            None => None,
        }
    }
}

/// What a well-formed [`AbsoluteUrl`] guarantees, stated over its view.
/// Every `AbsoluteUrl` built by this library satisfies `valid()`.
pub proof fn lemma_valid_props(u: AbsoluteUrl)
    requires
        u.valid(),
    ensures
        is_abs_url(u@.text),
        url_has_host(u@.text),
        url_canon(u@.text) == u@.text,
        u@.path == url_path(u@.text),
        u@.text.len() > 0,
        u@.path.len() == 0 || u@.path[0] == '/',
        forall|i: int| 0 <= i < u@.path.len() ==> u@.path[i] != '\n',
{
}

} // verus!
