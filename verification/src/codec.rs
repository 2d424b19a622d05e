//! The reversible text encoding at the heart of the proxy: an absolute URL's
//! serialization is carried inside a request path as a URL-safe base64
//! payload. Encoding is lossless: decoding the payload of any encoded
//! reference reproduces the original URL exactly.

use vstd::prelude::*;

use crate::urls::{
    accepts_url, url_canon, url_path, AbsoluteUrl,
};

verus! {

/// The URL-safe base64 encoding (with padding) of the UTF-8 bytes of `s`,
/// as computed by `base64::encode_config` with `base64::URL_SAFE`.
pub uninterp spec fn b64enc(s: Seq<char>) -> Seq<char>;

/// What decoding a payload yields: the text recovered by
/// `base64::decode_config` with `base64::URL_SAFE` followed by
/// `String::from_utf8` — `Some` of the recovered text when both steps
/// succeed, `None` when either fails. A function of the payload alone, so
/// resolution of a payload never depends on what stands around it.
pub uninterp spec fn b64dec(s: Seq<char>) -> Option<Seq<char>>;

/// The characters that can appear in a URL-safe base64 payload:
/// `A`-`Z`, `a`-`z`, `0`-`9`, `-`, `_`, and the padding character `=`.
pub open spec fn is_b64url_char(c: char) -> bool {
    ||| ('A' <= c && c <= 'Z')
    ||| ('a' <= c && c <= 'z')
    ||| ('0' <= c && c <= '9')
    ||| c == '-'
    ||| c == '_'
    ||| c == '='
}

/// A payload whose characters all come from the URL-safe base64 alphabet,
/// and which is not empty. Every payload produced by encoding a non-empty
/// string is of this shape; in particular it contains no `/`, so it survives
/// path-segment splitting intact.
pub open spec fn seg_ok(b: Seq<char>) -> bool {
    b.len() > 0 && forall|i: int| 0 <= i < b.len() ==> is_b64url_char(#[trigger] b[i])
}

/// Why a payload does not represent a previously-encoded URL.
#[derive(Debug, Clone, Copy, PartialEq, Eq, Structural)]
pub enum DecodeError {
    /// The payload is not valid output of the base64 URL-safe alphabet.
    InvalidEncoding,
    /// The decoded bytes are not valid UTF-8.
    InvalidUtf8,
    /// The recovered text does not parse as an absolute URL with a host.
    InvalidUrl,
}

/// Relies on `base64::encode_config` with `base64::URL_SAFE` (base64 0.13):
/// the output is a function of the input bytes alone, uses only characters
/// of the URL-safe alphabet (plus `=` padding), and is empty exactly when
/// the input is empty.
#[verifier::external_body]
pub(crate) fn b64_encode(s: &str) -> (r: String)
    ensures
        r@ == b64enc(s@),
        forall|i: int| 0 <= i < r@.len() ==> is_b64url_char(#[trigger] r@[i]),
        r@.len() == 0 <==> s@.len() == 0,
{
    base64::encode_config(s.as_bytes(), base64::URL_SAFE)
}

/// Relies on `base64::decode_config` with `base64::URL_SAFE` (base64 0.13)
/// and `String::from_utf8`: the outcome (named `b64dec`) is a function of
/// the input alone; decoding the encoding of any string gives that string
/// back; any input byte outside the URL-safe alphabet is rejected (base64's
/// `InvalidByte` error); an input of length 1 modulo 4 is rejected (a
/// 6-bit remainder cannot decode, base64's `InvalidLength` error — and a
/// non-ASCII input of that character count is rejected byte-wise).
#[verifier::external_body]
pub(crate) fn b64_decode_text(s: &str) -> (r: Result<String, DecodeError>)
    ensures
        r is Ok <==> b64dec(s@) is Some,
        r matches Ok(v) ==> v@ == b64dec(s@)->Some_0,
        forall|t: Seq<char>| s@ == #[trigger] b64enc(t) ==> r is Ok && r->Ok_0@ == t,
        (exists|i: int| 0 <= i < s@.len() && !is_b64url_char(#[trigger] s@[i]))
            ==> r is Err && r->Err_0 == DecodeError::InvalidEncoding,
        s@.len() % 4 == 1 ==> r is Err && r->Err_0 == DecodeError::InvalidEncoding,
        r is Err ==> r->Err_0 == DecodeError::InvalidEncoding
            || r->Err_0 == DecodeError::InvalidUtf8,
{
    match base64::decode_config(s, base64::URL_SAFE) {
        Ok(bytes) => match String::from_utf8(bytes) {
            Ok(text) => Ok(text),
            Err(_) => Err(DecodeError::InvalidUtf8),
        },
        Err(_) => Err(DecodeError::InvalidEncoding),
    }
}

/// Decodes an encoded payload back into the absolute URL it was built from.
///
/// The last `ensures` clause is the round-trip law: for any payload built by
/// encoding a well-formed absolute URL's serialization, decoding returns
/// exactly that URL.
pub fn decode_payload(payload: &str) -> (r: Result<AbsoluteUrl, DecodeError>)
    ensures
        r is Ok <==> b64dec(payload@) is Some && accepts_url(b64dec(payload@)->Some_0),
        r matches Ok(u) ==> u@.text == url_canon(b64dec(payload@)->Some_0)
            && u@.path == url_path(u@.text),
        b64dec(payload@) is Some && !accepts_url(b64dec(payload@)->Some_0)
            ==> r is Err && r->Err_0 == DecodeError::InvalidUrl,
        b64dec(payload@) is None ==> r is Err && (r->Err_0 == DecodeError::InvalidEncoding
            || r->Err_0 == DecodeError::InvalidUtf8),
        forall|t: Seq<char>|
            payload@ == #[trigger] b64enc(t) && accepts_url(t) ==> r is Ok
                && r->Ok_0@.text == url_canon(t) && r->Ok_0@.path == url_path(url_canon(t)),
        forall|t: Seq<char>|
            payload@ == #[trigger] b64enc(t) && !accepts_url(t)
                ==> r is Err && r->Err_0 == DecodeError::InvalidUrl,
        (exists|i: int| 0 <= i < payload@.len() && !is_b64url_char(#[trigger] payload@[i]))
            ==> r is Err && r->Err_0 == DecodeError::InvalidEncoding,
        payload@.len() % 4 == 1 ==> r is Err && r->Err_0 == DecodeError::InvalidEncoding,
        r matches Ok(u) ==> u.valid(),
        forall|u: AbsoluteUrl|
            u.valid() && payload@ == b64enc(#[trigger] u@.text) ==> r is Ok && r->Ok_0@ == u@,
{
    let r = match b64_decode_text(payload) {
        Ok(text) => match AbsoluteUrl::parse(text.as_str()) {
            Some(u) => Ok(u),
            None => Err(DecodeError::InvalidUrl),
        },
        Err(e) => Err(e),
    };
    proof {
        assert forall|u: AbsoluteUrl|
            u.valid() && payload@ == b64enc(u@.text) implies r is Ok && r->Ok_0@ == u@ by {
            crate::urls::lemma_valid_props(u);
            assert(r is Ok && r->Ok_0@.text == url_canon(u@.text));
            assert(r->Ok_0@ =~= u@);
        }
    }
    r
}

} // verus!
