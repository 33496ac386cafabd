use beam::content::{create_safe_content_disposition, get_content_type, is_dangerous_extension};

#[test]
fn helpers_dangerous_extensions_get_octet_stream() {
    for ext in [
        "html", "htm", "svg", "xhtml", "xht", "mhtml", "js", "mjs", "xml", "xsl", "pdf",
    ] {
        let filename = format!("test.{ext}");
        assert_eq!(
            get_content_type(&filename),
            "application/octet-stream",
            "extension {ext} should map to octet-stream"
        );
    }
}

#[test]
fn helpers_dangerous_extensions_case_insensitive() {
    for ext in ["HTML", "Svg", "XHTML", "JS"] {
        let filename = format!("test.{ext}");
        assert_eq!(get_content_type(&filename), "application/octet-stream");
    }
}

#[test]
fn helpers_safe_image_extensions_keep_their_types() {
    assert_eq!(get_content_type("photo.jpg"), "image/jpeg");
    assert_eq!(get_content_type("photo.png"), "image/png");
    assert_eq!(get_content_type("photo.gif"), "image/gif");
}

#[test]
fn helpers_unknown_extensions_default_to_octet_stream() {
    assert_eq!(get_content_type("file.qwxyz"), "application/octet-stream");
}

#[test]
fn helpers_content_disposition_is_always_attachment() {
    let d = create_safe_content_disposition("photo.png");
    assert!(d.starts_with("attachment;"), "got: {d}");
    assert!(d.contains("photo.png"), "got: {d}");
}

#[test]
fn helpers_content_disposition_handles_unicode_safely() {
    let d = create_safe_content_disposition("файл.txt");
    assert!(d.starts_with("attachment;"));
    assert!(d.contains("filename*=UTF-8''"), "got: {d}");
}

#[test]
fn helpers_content_disposition_sanitizes_quotes_and_backslashes() {
    let d = create_safe_content_disposition("evil\"name\\.txt");
    assert!(d.starts_with("attachment;"));
    assert!(!d.contains("evil\"name"), "raw quote in disposition: {d}");
}

#[test]
fn tests_dangerous_extensions_get_octet_stream() {
    for ext in [
        "html", "htm", "svg", "xhtml", "xht", "mhtml", "js", "mjs", "xml", "xsl", "pdf",
    ] {
        let filename = format!("test.{ext}");
        assert_eq!(
            get_content_type(&filename),
            "application/octet-stream",
            "extension {ext} should map to octet-stream"
        );
    }
}

#[test]
fn tests_dangerous_extensions_case_insensitive() {
    for ext in ["HTML", "Svg", "XHTML", "JS"] {
        let filename = format!("test.{ext}");
        assert_eq!(get_content_type(&filename), "application/octet-stream");
    }
}

#[test]
fn tests_safe_image_extensions_keep_their_types() {
    assert_eq!(get_content_type("photo.jpg"), "image/jpeg");
    assert_eq!(get_content_type("photo.png"), "image/png");
    assert_eq!(get_content_type("photo.gif"), "image/gif");
}

#[test]
fn tests_unknown_extensions_default_to_octet_stream() {
    assert_eq!(get_content_type("file.qwxyz"), "application/octet-stream");
}

#[test]
fn tests_content_disposition_is_always_attachment() {
    let d = create_safe_content_disposition("photo.png");
    assert!(d.starts_with("attachment;"), "got: {d}");
    assert!(d.contains("photo.png"), "got: {d}");
}

#[test]
fn tests_content_disposition_handles_unicode_safely() {
    let d = create_safe_content_disposition("файл.txt");
    assert!(d.starts_with("attachment;"));
    assert!(d.contains("filename*=UTF-8''"), "got: {d}");
}

#[test]
fn tests_content_disposition_sanitizes_quotes_and_backslashes() {
    let d = create_safe_content_disposition("evil\"name\\.txt");
    assert!(d.starts_with("attachment;"));
    assert!(!d.contains("evil\"name"), "raw quote in disposition: {d}");
}

#[test]
fn content_types_of_common_files() {
    assert_eq!(get_content_type("notes.TXT"), "text/plain; charset=utf-8");
    assert_eq!(get_content_type("dir/readme.md"), "text/markdown; charset=utf-8");
    assert_eq!(get_content_type("archive.tar.gz"), "application/gzip");
    assert_eq!(get_content_type("noext"), "application/octet-stream");
    assert_eq!(get_content_type(".hidden"), "application/octet-stream");
    assert_eq!(get_content_type("clip.webm"), "video/webm");
}

#[test]
fn dangerous_extension_list_ignores_ascii_case() {
    assert!(is_dangerous_extension("HtMl"));
    assert!(is_dangerous_extension("html5"));
    assert!(!is_dangerous_extension("png"));
    assert!(!is_dangerous_extension(""));
}

#[test]
fn content_disposition_exact_forms() {
    assert_eq!(create_safe_content_disposition("a/b/photo.png"), "attachment; filename=\"photo.png\"");
    assert_eq!(create_safe_content_disposition("evil\"name\\.txt"), "attachment; filename=\"evil_name_.txt\"");
    assert_eq!(
        create_safe_content_disposition("é.txt"),
        "attachment; filename=\"_.txt\"; filename*=UTF-8''%C3%A9%2Etxt"
    );
    assert_eq!(create_safe_content_disposition("tab\there"), "attachment; filename=\"tab_here\"");
}
