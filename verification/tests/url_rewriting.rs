use hls_proxy::url_rewriting::{rewrite_manifest, rewrite_url, url_rewriting_prefix};

#[test]
fn test_rewrite_url() {
    assert!(rewrite_url("/test.m3u").is_err());
    assert_eq!(
        rewrite_url("http://test.test/test.ts").map_err(|_| ()),
        Ok(
            "/relative_to_absolute_proxy_path/aHR0cDovL3Rlc3QudGVzdC90ZXN0LnRz/test.ts"
                .to_string()
        )
    );
}

#[test]
fn test_rewrite_manifest() {
    let input_manifest = "
#EXINF TEST
/test.m3u
http://test.test/test.ts
        ";

    let expected_result = "#EXINF TEST
/test.m3u
/relative_to_absolute_proxy_path/aHR0cDovL3Rlc3QudGVzdC90ZXN0LnRz/test.ts\n";

    assert_eq!(rewrite_manifest(input_manifest), expected_result);
}

#[test]
fn test_rewrite_url_output_begins_with_prefix() {
    let wanted = format!("/{}/", url_rewriting_prefix());
    for url in [
        "http://test.test/test.ts",
        "https://another.example/a/b/c.m3u8?x=1#frag",
        "ftp://host.example/file",
    ] {
        let rewritten = rewrite_url(url).unwrap();
        assert!(rewritten.starts_with(&wanted));
    }
}

#[test]
fn test_rewrite_url_rejects_non_absolute() {
    assert!(rewrite_url("").is_err());
    assert!(rewrite_url("relative/path.ts").is_err());
    assert!(rewrite_url("//missing.scheme/seg.ts").is_err());
    assert!(rewrite_url("not a url").is_err());
    // An absolute URL without a host is left for pass-through as well.
    assert!(rewrite_url("mailto:someone@example.com").is_err());
}

#[test]
fn test_rewrite_manifest_blank_line_handling() {
    // Leading, trailing and internal blank lines vanish; the order of the
    // remaining lines is kept.
    let input = "\n\n#A\n\n\t \nrel/one.ts\n\n#B\n\n  ";
    assert_eq!(rewrite_manifest(input), "#A\nrel/one.ts\n#B\n");
    assert_eq!(rewrite_manifest(""), "");
    assert_eq!(rewrite_manifest("\n \n\t\n"), "");
}

#[test]
fn test_rewrite_manifest_directives_unchanged() {
    // Directive lines keep their original spacing, byte for byte.
    let input = "  #EXTM3U  \n#EXT-X-VERSION:3";
    assert_eq!(rewrite_manifest(input), "  #EXTM3U  \n#EXT-X-VERSION:3\n");
}

#[test]
fn test_rewrite_manifest_idempotent() {
    // A rewritten manifest passes through a second rewrite unchanged:
    // encoded references begin with `/` and so count as relative.
    let input = "\n#EXTM3U\n/already/relative.ts\nhttp://test.test/test.ts\n\n  ";
    let once = rewrite_manifest(input);
    assert_eq!(rewrite_manifest(&once), once);
    let empty = rewrite_manifest("");
    assert_eq!(rewrite_manifest(&empty), empty);
}

#[test]
fn test_rewrite_manifest_output_shape() {
    // Never a leading newline, never two newlines in a row, exactly one
    // trailing newline when non-empty.
    let out = rewrite_manifest("\n\na\n\n\nb\n\n");
    assert!(!out.starts_with('\n'));
    assert!(!out.contains("\n\n"));
    assert!(out.ends_with('\n'));
}

#[test]
fn test_rewrite_manifest_crlf_lines() {
    let input = "#EXTM3U\r\nhttp://test.test/test.ts\r\n";
    assert_eq!(
        rewrite_manifest(input),
        "#EXTM3U\n/relative_to_absolute_proxy_path/aHR0cDovL3Rlc3QudGVzdC90ZXN0LnRz/test.ts\n"
    );
}
