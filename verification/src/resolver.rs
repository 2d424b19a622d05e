//! Resolution of an inbound proxy request path to the real origin URL.
//!
//! A request path is, at the HTTP layer, indistinguishable between "fetch
//! this path on the base origin" and "fetch the absolute URL I previously
//! encoded": the fixed prefix segment is the sole disambiguator. The resolver
//! checks for it first and only then falls back to a relative join against
//! the configured base URL.

use vstd::prelude::*;

use crate::codec::{b64dec, b64enc, decode_payload, is_b64url_char, seg_ok, DecodeError};
use crate::url_rewriting::{encoded_ref, prefix_chars, url_rewriting_prefix};
use crate::urls::{accepts_url, url_canon, url_join, url_join_host, url_join_ok, AbsoluteUrl};

verus! {

/// Why a request path could not be resolved to a target URL.
#[derive(Debug, Clone, Copy, PartialEq, Eq, Structural)]
pub enum ResolveError {
    /// The path named the prefix segment but its payload does not represent
    /// a previously-encoded URL.
    Decode(DecodeError),
    /// The path, joined against the base URL, is not a legal URL with a host.
    Join,
}

/// The end of the path segment that starts at `from`: the index of the first
/// `/` at or after `from`, or the length of `s` if there is none.
pub open spec fn seg_end(s: Seq<char>, from: int) -> int
    decreases s.len() - from,
{
    if from < 0 || from >= s.len() {
        s.len() as int
    } else if s[from] == '/' {
        from
    } else {
        seg_end(s, from + 1)
    }
}

/// How a request path is routed: `Some(payload)` when its first segment
/// (after one leading empty segment produced by an initial `/`) equals the
/// fixed prefix segment and a following segment exists — that following
/// segment is the payload to decode, and anything after it is ignored.
/// `None` when the path is to be joined against the base URL instead.
pub open spec fn resolve_action(path: Seq<char>) -> Option<Seq<char>> {
    let start: int = if path.len() > 0 && path[0] == '/' {
        1
    } else {
        0
    };
    let e0 = seg_end(path, start);
    if path.subrange(start, e0) == prefix_chars() && e0 < path.len() {
        Some(path.subrange(e0 + 1, seg_end(path, e0 + 1)))
    } else {
        None
    }
}

proof fn lemma_seg_end_is(s: Seq<char>, from: int, e: int)
    requires
        0 <= from <= e <= s.len(),
        forall|k: int| from <= k < e ==> s[k] != '/',
        e == s.len() || s[e] == '/',
    ensures
        seg_end(s, from) == e,
    decreases e - from,
{
    if from < e {
        lemma_seg_end_is(s, from + 1, e);
    }
}

/// Routing inverts encoding: a request path built as an encoded reference is
/// routed to the prefix mode, and the payload it carries is exactly the
/// base64 encoding of the original URL's serialization. (The hypotheses hold
/// of every reference `rewrite_url` emits: the payload is non-empty and
/// slash-free, and a host-bearing URL's path is empty or begins with `/`.)
pub proof fn lemma_encoded_path_routes(text: Seq<char>)
    ensures
        seg_ok(b64enc(text)) && (crate::urls::url_path(text).len() == 0 || crate::urls::url_path(
            text,
        )[0] == '/') ==> resolve_action(encoded_ref(text)) == Some(b64enc(text)),
{
    let b = b64enc(text);
    let q = crate::urls::url_path(text);
    if seg_ok(b) && (q.len() == 0 || q[0] == '/') {
        let p = encoded_ref(text);
        let pre = prefix_chars();
        crate::url_rewriting::lemma_prefix_chars_plain();
        assert(pre.len() == 31);
        assert(p.len() == 33 + b.len() as int + q.len());
        assert(p[0] == '/');
        assert forall|k: int| 1 <= k < 32 implies p[k] != '/' by {
            assert(p[k] == pre[k - 1]);
        }
        assert(p[32] == '/');
        lemma_seg_end_is(p, 1, 32);
        assert(p.subrange(1, 32) =~= pre);
        assert(!is_b64url_char('/'));
        assert forall|k: int| 33 <= k < 33 + b.len() as int implies p[k] != '/' by {
            assert(p[k] == b[k - 33]);
        }
        if q.len() == 0 {
            lemma_seg_end_is(p, 33, p.len() as int);
        } else {
            assert(p[33 + b.len() as int] == q[0]);
            lemma_seg_end_is(p, 33, 33 + b.len() as int);
        }
        assert(p.subrange(33, 33 + b.len() as int) =~= b);
    }
}

/// Returns the final target URL, the one linking to the actual media.
///
/// If the first segment of `path` equals the fixed prefix segment and a
/// following segment exists, that segment is decoded as a previously-encoded
/// absolute URL — the outcome is a function of that payload alone, so later
/// segments and the base never matter; otherwise `path` is resolved against
/// `base` by standard relative-URL-join semantics.
///
/// The last `ensures` clause is the dual-mode law: a request path built as
/// an encoded reference of a URL resolves to exactly that URL, whatever the
/// base.
pub fn build_target_url(base: &AbsoluteUrl, path: &str) -> (r: Result<AbsoluteUrl, ResolveError>)
    ensures
        resolve_action(path@) matches Some(p) ==> {
            &&& (r is Ok <==> b64dec(p) is Some && accepts_url(b64dec(p)->Some_0))
            &&& (r matches Ok(u) ==> u@.text == url_canon(b64dec(p)->Some_0))
            &&& (forall|t: Seq<char>|
                p == #[trigger] b64enc(t) && accepts_url(t) ==> r is Ok && r->Ok_0@.text
                    == url_canon(t))
            &&& (forall|t: Seq<char>|
                p == #[trigger] b64enc(t) && !accepts_url(t) ==> r is Err && r->Err_0
                    == ResolveError::Decode(DecodeError::InvalidUrl))
            &&& ((exists|i: int| 0 <= i < p.len() && !is_b64url_char(#[trigger] p[i])) ==> r is Err
                && r->Err_0 == ResolveError::Decode(DecodeError::InvalidEncoding))
            &&& (p.len() % 4 == 1 ==> r is Err && r->Err_0 == ResolveError::Decode(
                DecodeError::InvalidEncoding,
            ))
            &&& (r is Err ==> r->Err_0 matches ResolveError::Decode(_))
        },
        resolve_action(path@) is None ==> {
            &&& (r is Ok <==> url_join_ok(base@.text, path@) && url_join_host(base@.text, path@))
            &&& (r matches Ok(u) ==> u@.text == url_join(base@.text, path@))
            &&& (r is Err ==> r->Err_0 == ResolveError::Join)
        },
        forall|u: AbsoluteUrl|
            u.valid() && path@ == encoded_ref(#[trigger] u@.text) && seg_ok(b64enc(u@.text))
                ==> r is Ok && r->Ok_0@ == u@,
        r matches Ok(u) ==> u.valid(),
{
    let ghost s = path@;
    let n = path.unicode_len();
    let mut start: usize = 0;
    if n > 0 && path.get_char(0) == '/' {
        start = 1;
    }
    let mut i: usize = start;
    while i < n && path.get_char(i) != '/'
        invariant
            start <= i <= n,
            n == s.len(),
            s == path@,
            forall|k: int| start <= k < i ==> s[k] != '/',
        decreases n - i,
    {
        i += 1;
    }
    proof {
        lemma_seg_end_is(s, start as int, i as int);
    }
    let seg0 = path.substring_char(start, i);
    let is_prefix_route = seg0.to_owned() == url_rewriting_prefix().to_owned() && i < n;
    if is_prefix_route {
        let mut j: usize = i + 1;
        while j < n && path.get_char(j) != '/'
            invariant
                i + 1 <= j <= n,
                n == s.len(),
                s == path@,
                forall|k: int| i + 1 <= k < j ==> s[k] != '/',
            decreases n - j,
        {
            j += 1;
        }
        proof {
            lemma_seg_end_is(s, i + 1, j as int);
        }
        let payload = path.substring_char(i + 1, j);
        let ghost p = s.subrange(i + 1, seg_end(s, i + 1));
        assert(resolve_action(s) == Some(p));
        assert(payload@ == p);
        let r: Result<AbsoluteUrl, ResolveError> = match decode_payload(payload) {
            Ok(u) => Ok(u),
            Err(e) => Err(ResolveError::Decode(e)),
        };
        proof {
            assert forall|u: AbsoluteUrl|
                u.valid() && s == encoded_ref(u@.text) && seg_ok(b64enc(u@.text)) implies r is Ok
                && r->Ok_0@ == u@ by {
                crate::urls::lemma_valid_props(u);
                lemma_encoded_path_routes(u@.text);
                assert(p == b64enc(u@.text));
            }
        }
        r
    } else {
        assert(resolve_action(s) is None);
        let r: Result<AbsoluteUrl, ResolveError> = match base.join(path) {
            Some(u) => Ok(u),
            None => Err(ResolveError::Join),
        };
        proof {
            assert forall|u: AbsoluteUrl|
                u.valid() && s == encoded_ref(u@.text) && seg_ok(b64enc(u@.text)) implies r is Ok
                && r->Ok_0@ == u@ by {
                crate::urls::lemma_valid_props(u);
                lemma_encoded_path_routes(u@.text);
            }
        }
        r
    }
}

} // verus!
