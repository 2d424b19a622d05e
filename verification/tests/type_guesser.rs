use hls_proxy::session::next_reading_state;
use hls_proxy::type_guesser::{guess_file_type, FileType};

#[test]
fn test_file_type_uppercase() {
    assert_eq!(FileType::Manifest.uppercase_string(), "MANIFEST");
    assert_eq!(FileType::Segment.uppercase_string(), "SEGMENT");
}

#[test]
fn test_guess_file_type() {
    assert_eq!(guess_file_type("test.m3u8"), Some(FileType::Manifest));
    assert_eq!(guess_file_type("test.m3u"), Some(FileType::Manifest));
    assert_eq!(guess_file_type("test.ts"), Some(FileType::Segment));
    assert_eq!(guess_file_type("test.pdf"), None);

    assert_eq!(guess_file_type("/test.m3u8"), Some(FileType::Manifest));
    assert_eq!(
        guess_file_type("https://test.io/test.m3u8"),
        Some(FileType::Manifest)
    );
}

#[test]
fn test_guess_file_type_edge_cases() {
    assert_eq!(guess_file_type(""), None);
    assert_eq!(guess_file_type("noextension"), None);
    assert_eq!(guess_file_type(".m3u8"), None);
    assert_eq!(guess_file_type("/dir/.m3u8"), None);
    assert_eq!(guess_file_type("dir.m3u8/file"), None);
    assert_eq!(guess_file_type("trailing.dot."), None);
    assert_eq!(guess_file_type("a.b.ts"), Some(FileType::Segment));
}

#[test]
fn test_guess_file_type_exact_extensions() {
    // Only the extensions m3u and m3u8 name a manifest; a longer extension
    // that merely begins with m3u does not.
    assert_eq!(guess_file_type("test.m3uz"), None);
    assert_eq!(guess_file_type("test.m3u88"), None);
    assert_eq!(guess_file_type("test.tsx"), None);
}

#[test]
fn test_guess_file_type_trailing_separators() {
    // Trailing path separators are ignored when picking out the file name.
    assert_eq!(guess_file_type("a/b.m3u8/"), Some(FileType::Manifest));
    assert_eq!(guess_file_type("foo.ts//"), Some(FileType::Segment));
    assert_eq!(guess_file_type("///"), None);
}

#[test]
fn test_next_reading_state() {
    assert_eq!(next_reading_state(Some(FileType::Manifest), true), (true, false));
    assert_eq!(next_reading_state(Some(FileType::Manifest), false), (false, false));
    assert_eq!(next_reading_state(Some(FileType::Segment), false), (false, true));
    assert_eq!(next_reading_state(Some(FileType::Segment), true), (false, true));
    assert_eq!(next_reading_state(None, true), (false, true));
    assert_eq!(next_reading_state(None, false), (false, false));
}
