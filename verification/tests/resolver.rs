use hls_proxy::codec::{decode_payload, DecodeError};
use hls_proxy::resolver::{build_target_url, ResolveError};
use hls_proxy::url_rewriting::rewrite_url;
use hls_proxy::urls::AbsoluteUrl;

fn base() -> AbsoluteUrl {
    AbsoluteUrl::parse("http://base.example/dir/list.m3u8").unwrap()
}

#[test]
fn test_resolve_encoded_path_round_trip() {
    // A request path built by encoding resolves back to the original URL,
    // whatever the base.
    for url in [
        "http://test.test/test.ts",
        "https://other.example/a/b.m3u8?q=1#f",
    ] {
        let path = rewrite_url(url).unwrap();
        let resolved = build_target_url(&base(), &path).unwrap();
        assert_eq!(resolved.as_str(), url);

        let other_base = AbsoluteUrl::parse("https://elsewhere.example/").unwrap();
        let resolved = build_target_url(&other_base, &path).unwrap();
        assert_eq!(resolved.as_str(), url);
    }
}

#[test]
fn test_resolve_concrete_encoded_path() {
    let resolved = build_target_url(
        &base(),
        "/relative_to_absolute_proxy_path/aHR0cDovL3Rlc3QudGVzdC90ZXN0LnRz/test.ts",
    )
    .unwrap();
    assert_eq!(resolved.as_str(), "http://test.test/test.ts");
    // Whatever follows the payload segment is ignored.
    let resolved = build_target_url(
        &base(),
        "/relative_to_absolute_proxy_path/aHR0cDovL3Rlc3QudGVzdC90ZXN0LnRz/else/where.ts",
    )
    .unwrap();
    assert_eq!(resolved.as_str(), "http://test.test/test.ts");
}

#[test]
fn test_resolve_payload_outside_alphabet() {
    // Characters outside the encoding alphabet fail with InvalidEncoding.
    let r = build_target_url(&base(), "/relative_to_absolute_proxy_path/!!!");
    assert_eq!(r.unwrap_err(), ResolveError::Decode(DecodeError::InvalidEncoding));
}

#[test]
fn test_resolve_payload_not_a_url() {
    // "bm90IGEgdXJs" decodes to the UTF-8 text "not a url".
    let r = build_target_url(&base(), "/relative_to_absolute_proxy_path/bm90IGEgdXJs");
    assert_eq!(r.unwrap_err(), ResolveError::Decode(DecodeError::InvalidUrl));
    // An empty payload decodes to the empty string, which is no URL either.
    let r = build_target_url(&base(), "/relative_to_absolute_proxy_path/");
    assert_eq!(r.unwrap_err(), ResolveError::Decode(DecodeError::InvalidUrl));
}

#[test]
fn test_resolve_payload_corrupted_length() {
    // Five alphabet characters leave a 6-bit remainder: no valid encoding
    // has length 1 modulo 4.
    let r = build_target_url(&base(), "/relative_to_absolute_proxy_path/AAAAA");
    assert_eq!(r.unwrap_err(), ResolveError::Decode(DecodeError::InvalidEncoding));
    // The outcome is a function of the payload alone: suffix and base never
    // matter, for bad payloads too.
    let r2 = build_target_url(
        &AbsoluteUrl::parse("https://elsewhere.example/x").unwrap(),
        "/relative_to_absolute_proxy_path/AAAAA/readable/suffix.ts",
    );
    assert_eq!(r2.unwrap_err(), ResolveError::Decode(DecodeError::InvalidEncoding));
}

#[test]
fn test_resolve_payload_not_utf8() {
    // "_w==" decodes to the single byte 0xFF, which is not UTF-8.
    let r = build_target_url(&base(), "/relative_to_absolute_proxy_path/_w==");
    assert_eq!(r.unwrap_err(), ResolveError::Decode(DecodeError::InvalidUtf8));
}

#[test]
fn test_resolve_plain_path_joins_base() {
    let resolved = build_target_url(&base(), "/foo/bar.ts").unwrap();
    assert_eq!(resolved.as_str(), "http://base.example/foo/bar.ts");
    // A relative path without a leading slash joins against the base's
    // directory.
    let resolved = build_target_url(&base(), "seg1.ts").unwrap();
    assert_eq!(resolved.as_str(), "http://base.example/dir/seg1.ts");
    // The prefix segment must be first and followed by a payload segment.
    let resolved = build_target_url(&base(), "/relative_to_absolute_proxy_path").unwrap();
    assert_eq!(
        resolved.as_str(),
        "http://base.example/relative_to_absolute_proxy_path"
    );
}

#[test]
fn test_resolve_join_failure() {
    // The joined result parses but names no host, so it is no target.
    let r = build_target_url(&base(), "mailto:someone@example.com");
    assert_eq!(r.unwrap_err(), ResolveError::Join);
}

#[test]
fn test_decode_payload_directly() {
    let u = decode_payload("aHR0cDovL3Rlc3QudGVzdC90ZXN0LnRz").unwrap();
    assert_eq!(u.as_str(), "http://test.test/test.ts");
    assert_eq!(u.path(), "/test.ts");
    assert_eq!(decode_payload("***").unwrap_err(), DecodeError::InvalidEncoding);
}

#[test]
fn test_absolute_url_accessors() {
    let u = AbsoluteUrl::parse("HTTP://Test.test/a?b=c#d").unwrap();
    // The stored serialization is canonical: scheme and host lowercased.
    assert_eq!(u.as_str(), "http://test.test/a?b=c#d");
    assert_eq!(u.path(), "/a");
    assert!(AbsoluteUrl::parse("/relative").is_none());
    assert!(AbsoluteUrl::parse("mailto:nohost@example.com").is_none());
}
