use beam::containment::{has_parent_component, path_starts_with, same_path, within_upload_dir, Resolution};
use beam::batch::is_valid_batch_id;
use beam::paths::normalize_path;
use beam::sanitize::{sanitize_filename_safe, sanitize_path_preserve_dirs_safe};
use beam::size::format_file_size;

#[test]
fn tests_test_normalize_path() {
    let norm = normalize_path("foo/bar/../baz");
    assert_eq!(norm, "foo/baz");
}

#[test]
fn mock_services_test_normalize_path() {
    let norm = normalize_path("foo/bar/../baz");
    assert_eq!(norm, "foo/baz");
}

fn sanitize_filename_cases() {
    let clean = sanitize_filename_safe("my file+name.txt");
    assert_eq!(clean, "my_file_name.txt");

    let clean_reserved = sanitize_filename_safe("CON.txt");
    assert_eq!(clean_reserved, "CON_file.txt");

    let clean_empty = sanitize_filename_safe("");
    assert_eq!(clean_empty, "unnamed_file.txt");
}

#[test]
fn tests_test_sanitize_filename_safe() {
    sanitize_filename_cases();
}

#[test]
fn mock_services_test_sanitize_filename_safe() {
    sanitize_filename_cases();
}

#[test]
fn tests_test_sanitize_path_preserve_dirs_safe() {
    let clean = sanitize_path_preserve_dirs_safe("folder/sub folder/my file.txt");
    assert_eq!(clean, "folder/sub_folder/my_file.txt");
}

#[test]
fn mock_services_test_sanitize_path_preserve_dirs_safe() {
    let clean = sanitize_path_preserve_dirs_safe("folder/sub folder/my file.txt");
    assert_eq!(clean, "folder/sub_folder/my_file.txt");
}

fn parent_traversal_cases() {
    let clean = sanitize_path_preserve_dirs_safe("foo/../etc/passwd");
    assert_eq!(
        clean, "unnamed_file.txt",
        "parent-traversal components must be rejected"
    );
    let clean2 = sanitize_path_preserve_dirs_safe("../etc/passwd");
    assert_eq!(clean2, "unnamed_file.txt");
    let clean3 = sanitize_path_preserve_dirs_safe("foo/..bar/baz");
    assert_eq!(
        clean3, "foo/file.bar/baz",
        "leading dots are stripped from each part"
    );
}

#[test]
fn tests_test_sanitize_path_preserve_dirs_safe_rejects_parent_traversal() {
    parent_traversal_cases();
}

#[test]
fn mock_services_test_sanitize_path_preserve_dirs_safe_rejects_parent_traversal() {
    parent_traversal_cases();
}

fn format_cases() {
    assert_eq!(format_file_size(500, None), "500.00B");
    assert_eq!(format_file_size(2048, None), "2.00KB");
    assert_eq!(format_file_size(2097152, Some("MB")), "2.00MB");
}

#[test]
fn tests_test_format_file_size() {
    format_cases();
}

#[test]
fn mock_services_test_format_file_size() {
    format_cases();
}

fn batch_id_cases() {
    assert!(is_valid_batch_id("1719000000-abcdef12"));
    assert!(!is_valid_batch_id("1719000000-abc"));
    assert!(!is_valid_batch_id("abc-abcdef12"));
}

#[test]
fn tests_test_is_valid_batch_id() {
    batch_id_cases();
}

#[test]
fn mock_services_test_is_valid_batch_id() {
    batch_id_cases();
}

#[test]
fn test_property_sanitize_path_never_panics() {
    let long_string = "a/".repeat(500);
    let inputs = vec![
        "",
        "   ",
        "\0",
        "\x00\x01\x02",
        "../../../../etc/passwd",
        "C:\\Windows\\System32\\cmd.exe",
        "CON.txt",
        "AUX",
        "   ..   ",
        "🔥🦀🎉",
        long_string.as_str(),
        "../../..//..//",
        "hello\0world",
    ];

    for input in inputs {
        let clean = sanitize_filename_safe(input);
        assert!(!clean.contains('\0'));
        let path_clean = sanitize_path_preserve_dirs_safe(input);
        assert!(!path_clean.contains('\0'));
    }
}

#[test]
fn test_property_format_file_size_never_panics() {
    let sizes = vec![0, 1, 1024, 1048576, u64::MAX];
    let units = vec![
        None,
        Some("B"),
        Some("KB"),
        Some("MB"),
        Some("GB"),
        Some("TB"),
        Some("INVALID"),
    ];

    for size in sizes {
        for unit in &units {
            let res = format_file_size(size, *unit);
            assert!(!res.is_empty());
        }
    }
}

#[test]
fn format_file_size_rounds_like_float_formatting() {
    assert_eq!(format_file_size(0, None), "0.00B");
    assert_eq!(format_file_size(1023, None), "1023.00B");
    assert_eq!(format_file_size(1536, None), "1.50KB");
    assert_eq!(format_file_size(1152, None), "1.12KB");
    assert_eq!(format_file_size(1168, None), "1.14KB");
    assert_eq!(format_file_size(1048576, Some("kb")), "1024.00KB");
    assert_eq!(format_file_size(5, Some("xx")), "5.00B");
    assert_eq!(format_file_size(u64::MAX, None), "16777216.00TB");
    assert_eq!(format_file_size(u64::MAX, Some("B")), "18446744073709551616.00B");
    assert_eq!(format_file_size(3 * 1024 * 1024 * 1024, None), "3.00GB");
}

#[test]
fn sanitize_filename_details() {
    assert_eq!(sanitize_filename_safe("..."), "file");
    assert_eq!(sanitize_filename_safe(".hidden"), "hidden");
    assert_eq!(sanitize_filename_safe("Report.PDF"), "Report.pdf");
    assert_eq!(sanitize_filename_safe("a__b  c.txt"), "a_b_c.txt");
    assert_eq!(sanitize_filename_safe("lpt1.log"), "lpt1_file.log");
    assert_eq!(sanitize_filename_safe("dir/inner.txt"), "inner.txt");
    let long = "x".repeat(300) + ".txt";
    assert_eq!(sanitize_filename_safe(&long), "x".repeat(200) + ".txt");
}

#[test]
fn sanitize_path_details() {
    assert_eq!(sanitize_path_preserve_dirs_safe("a\\b\\c.txt"), "a/b/c.txt");
    assert_eq!(sanitize_path_preserve_dirs_safe("./a//b/"), "a/b");
    assert_eq!(sanitize_path_preserve_dirs_safe("///"), "unnamed_file.txt");
    assert_eq!(sanitize_path_preserve_dirs_safe(""), "unnamed_file.txt");
}

#[test]
fn normalize_path_details() {
    assert_eq!(normalize_path("/a/./b/../c"), "/a/c");
    assert_eq!(normalize_path("../x"), "x");
    assert_eq!(normalize_path("a/b/../../.."), "");
    assert_eq!(normalize_path("a//b/"), "a/b");
}

#[test]
fn batch_id_edge_cases() {
    assert!(is_valid_batch_id("-abcdefgh1"));
    assert!(!is_valid_batch_id("12-abcdefghij"));
    assert!(!is_valid_batch_id("12-ABCDEFGH"));
    assert!(!is_valid_batch_id("1-2-abcdefgh"));
}

#[test]
fn long_multibyte_names_are_cut_at_a_character_boundary() {
    let name = format!("a{}.txt", "é".repeat(100));
    let clean = sanitize_filename_safe(&name);
    let base = clean.strip_suffix(".txt").unwrap();
    assert_eq!(base, format!("a{}", "é".repeat(99)));
    assert!(base.len() <= 200);
    let path = sanitize_path_preserve_dirs_safe(&format!("dir/{}", name));
    assert_eq!(path, format!("dir/a{}.txt", "é".repeat(99)));
}

#[test]
fn containment_verdicts_follow_path_components() {
    use_containment();
}

fn use_containment() {
    assert!(path_starts_with("/srv/up/a.txt", "/srv/up"));
    assert!(path_starts_with("/srv/up", "/srv/up/"));
    assert!(!path_starts_with("/srv/upload/a", "/srv/up"));
    assert!(!path_starts_with("srv/up/a", "/srv/up"));
    assert!(path_starts_with("/srv//up/./a", "/srv/up"));
    assert!(!path_starts_with("./a", "a"));
    assert!(same_path("/a/b/", "/a//b"));
    assert!(has_parent_component("a/../b"));
    assert!(!has_parent_component("a/..b"));
    let dir = Some("/srv/up");
    assert!(within_upload_dir(dir, "x", true, &Resolution::Existing(Some("/srv/up/x".to_string()))));
    assert!(!within_upload_dir(dir, "x", true, &Resolution::Existing(Some("/etc/x".to_string()))));
    assert!(!within_upload_dir(dir, "x", true, &Resolution::Existing(None)));
    assert!(!within_upload_dir(None, "x", true, &Resolution::Existing(Some("/srv/up/x".to_string()))));
    let walked = |abs: &str, existing: &str, suffix: &str, ce: Option<&str>| Resolution::Walked {
        absolute: abs.to_string(),
        existing: existing.to_string(),
        suffix: suffix.to_string(),
        canonical_existing: ce.map(|c| c.to_string()),
    };
    assert!(within_upload_dir(dir, "/srv/up/new/f", false, &walked("/srv/up/new/f", "/srv/up", "new/f", Some("/srv/up"))));
    assert!(!within_upload_dir(dir, "/srv/up/../f", false, &walked("/srv/up/../f", "/srv/up", "f", Some("/srv/up"))));
    assert!(!within_upload_dir(dir, "/srv/link/f", false, &walked("/srv/link/f", "/srv/link", "f", Some("/etc"))));
    assert!(!within_upload_dir(dir, "/srv/f", false, &walked("/srv/f", "/srv", "up/f", Some("/srv"))));
    assert!(within_upload_dir(dir, "/srv/up/f", false, &walked("/srv/up/./f", "", "srv/up/f", None)));
}
