use beam::client::{
    all_uploads_finished, chunk_end, display_name, get_saved_language, get_saved_theme, is_lockout_error,
    retry_delay_ms, save_language, save_theme, size_limit_text, split_by_size, toggled_theme, Language, PinPad, Theme,
    ToastList,
};
use beam::ids::{hash_pin, session_id_from_bytes, session_id_from_time};
use beam::uri::{encode_path, encode_uri_component, get_file_path};
use beam::ops::{request_target, old_basename, rename_target_name, RenameRejection};

#[test]
fn old_theme_names_are_migrated() {
    let t = get_saved_theme("dark");
    assert_eq!(t.theme, "crateria");
    let w = t.write.unwrap();
    assert_eq!((w.key.as_str(), w.value.as_str()), ("theme", "crateria"));
    let t = get_saved_theme("maridia");
    assert_eq!(t.theme, "maridia");
    assert!(t.write.is_none());
    let s = save_theme("norfair");
    assert_eq!((s.key.as_str(), s.value.as_str()), ("theme", "norfair"));
}

#[test]
fn theme_toggle_cycles() {
    assert_eq!(toggled_theme("brinstar"), Theme::Norfair);
    assert_eq!(toggled_theme("crateria"), Theme::Brinstar);
    assert_eq!(toggled_theme("unknown"), Theme::Brinstar);
    let mut t = Theme::Maridia;
    for _ in 0..6 {
        t = t.next();
    }
    assert_eq!(t, Theme::Maridia);
    assert_eq!(Theme::WreckedShip.name(), "wrecked_ship");
}

#[test]
fn languages_are_remembered() {
    assert_eq!(get_saved_language("de", Some("fr-FR")), Language::German);
    assert_eq!(get_saved_language("", Some("PT-br")), Language::Portuguese);
    assert_eq!(get_saved_language("", None), Language::English);
    assert_eq!(get_saved_language("xx", None), Language::English);
    let w = save_language(Language::Japanese);
    assert_eq!((w.key.as_str(), w.value.as_str()), ("lang", "ja"));
    assert_eq!(Language::from_code(Language::Russian.code()), Language::Russian);
}

#[test]
fn toasts_get_fresh_ids() {
    let mut l = ToastList::new();
    let a = l.add("one".to_string(), "info".to_string());
    let b = l.add("two".to_string(), "error".to_string());
    assert_eq!((a, b), (0, 1));
    l.remove(a);
    let c = l.add("three".to_string(), "success".to_string());
    assert_eq!(c, 2);
}

#[test]
fn pin_pad_fills_and_submits() {
    let mut p = PinPad::new(4);
    let u = p.input(0, "a7");
    assert!(u.redraw && u.focus == Some(1) && !u.submit);
    let u = p.paste("1-2-3-4");
    assert!(u.submit);
    assert_eq!(p.pin(), "1234");
    p.reset();
    let u = p.paste("98");
    assert!(!u.submit);
    assert_eq!(u.focus, Some(2));
    let u = p.backspace(2);
    assert_eq!(u.focus, Some(1));
    assert_eq!(p.pin(), "9");
    p.lock();
    assert!(!p.input(0, "5").redraw);
    assert!(!p.is_complete());
}

#[test]
fn lockout_errors_are_recognized() {
    assert!(is_lockout_error("Too many PIN verification attempts."));
    assert!(is_lockout_error("Account locked for 15 minutes."));
    assert!(!is_lockout_error("Invalid PIN. 3 attempts remaining."));
}

#[test]
fn files_over_the_limit_are_set_aside() {
    let (ok, big) = split_by_size(&vec![5, 50, 10, 11], 10);
    assert_eq!(ok, vec![0, 2]);
    assert_eq!(big, vec![1, 3]);
    assert_eq!(size_limit_text(20 * 1024 * 1024 * 1024), "20 GB");
    assert_eq!(size_limit_text(512 * 1024 * 1024), "512 MB");
    assert!(all_uploads_finished(&vec!["complete".to_string(), "Error: x".to_string()]));
    assert!(!all_uploads_finished(&vec!["complete".to_string(), "uploading...".to_string()]));
    assert_eq!(display_name("a/b/c.txt"), "c.txt");
    assert_eq!(display_name("c.txt"), "c.txt");
}

#[test]
fn chunks_and_retries_are_paced() {
    assert_eq!(chunk_end(0, 3_000_000), 1_048_576);
    assert_eq!(chunk_end(2_097_152, 3_000_000), 3_000_000);
    assert_eq!(retry_delay_ms(1), 1000);
    assert_eq!(retry_delay_ms(3), 4000);
    assert_eq!(retry_delay_ms(6), 30000);
    assert_eq!(retry_delay_ms(55), 30000);
}

#[test]
fn pin_hashes_and_session_ids_are_hex() {
    assert_eq!(hash_pin("1234"), "03ac674216f3e15c761ee1a5e255f067953623c8b388b4459e13f978d7c846f4");
    assert_eq!(session_id_from_bytes(&[0, 15, 255]), "000fff");
    assert_eq!(session_id_from_time(7).len(), 64);
}

#[test]
fn renames_are_checked() {
    assert_eq!(rename_target_name("  my doc.TXT "), Ok("my_doc.txt".to_string()));
    assert_eq!(rename_target_name("   "), Err(RenameRejection::NameRequired));
    assert_eq!(rename_target_name(""), Err(RenameRejection::NameRequired));
    assert_eq!(rename_target_name("+++"), Ok("file".to_string()));
    assert_eq!(RenameRejection::NameRequired.message(), "New name is required");
    let t = request_target("uploads", "a%20b/c%2Fd");
    assert_eq!(t.relative, "a b/c/d");
    assert_eq!(t.full, "uploads/a b/c/d");
    let t = request_target("uploads/", "%2Fetc%FF");
    assert_eq!(t.relative, "/etc\u{fffd}");
    assert_eq!(t.full, "/etc\u{fffd}");
    assert_eq!(old_basename("x/y/z.txt"), "z.txt");
    assert_eq!(old_basename("/"), "/");
}

#[test]
fn encode_path_escapes_each_part_and_keeps_separators() {
    assert_eq!(encode_path("a b/c&d.txt"), "a%20b/c%26d.txt");
    assert_eq!(encode_path("it's (1)!~*-_.txt"), "it's%20(1)!~*-_.txt");
    assert_eq!(encode_path("\u{fc}ber/x"), "%C3%BCber/x");
    assert_eq!(encode_path(""), "");
    assert_eq!(encode_path("/a//b/"), "/a//b/");
    assert_eq!(encode_path("100%?#"), "100%25%3F%23");
}

#[test]
fn encode_uri_component_escapes_slash() {
    let out: String = encode_uri_component("a/b c").into_iter().collect();
    assert_eq!(out, "a%2Fb%20c");
}

#[test]
fn file_path_prefers_relative_path() {
    assert_eq!(get_file_path("", "f.txt"), "f.txt");
    assert_eq!(get_file_path("dir/f.txt", "f.txt"), "dir/f.txt");
}

#[test]
fn white_space_follows_the_unicode_property() {
    use_white_space();
}

fn use_white_space() {
    for c in [' ', '\t', '\n', '\u{b}', '\u{c}', '\r', '\u{85}', '\u{a0}', '\u{1680}', '\u{2000}', '\u{200a}', '\u{2028}', '\u{2029}', '\u{202f}', '\u{205f}', '\u{3000}'] {
        assert!(beam::text::is_whitespace(c));
        assert_eq!(beam::text::is_whitespace(c), c.is_whitespace());
    }
    for c in ['a', '\u{200b}', '\u{feff}', '\u{180e}', '_', '\u{1f}'] {
        assert!(!beam::text::is_whitespace(c));
        assert_eq!(beam::text::is_whitespace(c), c.is_whitespace());
    }
}
