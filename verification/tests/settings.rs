use beam::config::trusted_network;
use beam::netaddr::IpNetwork;
use beam::config::{frontend_config, parse_i64, parse_unsigned, pin_requirement, AppConfig};
use beam::render::{notification_message, render_page, replace_str};
use beam::table::StrMap;

fn env(vars: &[(&str, &str)]) -> StrMap<String> {
    let mut m = StrMap::new();
    for (k, v) in vars {
        m.insert(k.to_string(), v.to_string());
    }
    m
}

#[test]
fn defaults_apply_without_environment() {
    let c = AppConfig::from_env(&env(&[]));
    assert_eq!(c.port, 4401);
    assert_eq!(c.site_title, "Beam");
    assert_eq!(c.base_url, "http://localhost:4401");
    assert!(c.pin.is_none());
    assert!(c.enable_themes && c.enable_print && c.show_version && c.show_github);
    assert!(!c.enable_translation && !c.trust_proxy && !c.auto_upload);
    assert_eq!(c.max_attempts, 5);
    assert_eq!(c.lockout_time_minutes, 15);
    assert_eq!(c.cookie_max_age_hours, 24);
    assert_eq!(c.max_file_size, 10 * 1024 * 1024 * 1024);
    assert_eq!(c.upload_dir, "/config");
    assert_eq!(c.allowed_origins, "*");
    assert_eq!(c.client_max_retries, 3);
    assert_eq!(c.node_env, "production");
    assert!(c.trusted_proxy_ips.is_none());
    assert_eq!(c.lockout_duration(), 900);
    assert!(!c.pin_enabled());
}

#[test]
fn settings_are_read_from_environment() {
    let c = AppConfig::from_env(&env(&[
        ("PORT", "8080"),
        ("Beam_TITLE", "Drop"),
        ("PIN", "123456"),
        ("TRUST_PROXY", "on"),
        ("ENABLE_THEMES", "off"),
        ("MAX_ATTEMPTS", "x"),
        ("COOKIE_MAX_AGE_HOURS", "-3"),
        ("TRUSTED_PROXY_IPS", "10.0.0.0/8, bogus, ,127.0.0.1/32"),
        ("ALLOWED_EXTENSIONS", ".txt, .png"),
        ("MAX_STORAGE_LIMIT", "1000"),
        ("LOCAL_UPLOAD_DIR", "/tmp/u"),
    ]));
    assert_eq!(c.port, 8080);
    assert_eq!(c.site_title, "Drop");
    assert_eq!(c.base_url, "http://localhost:8080");
    assert_eq!(c.pin.as_deref(), Some("123456"));
    assert!(c.trust_proxy);
    assert!(!c.enable_themes);
    assert_eq!(c.max_attempts, 5);
    assert_eq!(c.cookie_max_age_hours, -3);
    assert_eq!(c.trusted_proxies.len(), 2);
    assert_eq!(c.trusted_proxy_ips.clone().unwrap(), vec!["10.0.0.0/8", "bogus", "", "127.0.0.1/32"]);
    assert_eq!(c.allowed_extensions.clone().unwrap(), vec![".txt", ".png"]);
    assert_eq!(c.max_storage_limit, Some(1000));
    assert_eq!(c.upload_dir, "/tmp/u");
    let f = frontend_config(&c);
    assert!(f.pin_required);
    assert_eq!(f.pin_length, 6);
    let p = pin_requirement(&c);
    assert!(p.required && p.length == 6);
}

#[test]
fn pins_outside_four_to_sixty_four_characters_are_ignored() {
    assert!(AppConfig::from_env(&env(&[("PIN", "123")])).pin.is_none());
    assert_eq!(AppConfig::from_env(&env(&[("Beam_PIN", ""), ("PIN", "9999")])).pin.as_deref(), Some("9999"));
}

#[test]
fn number_parsing_follows_std() {
    assert_eq!(parse_unsigned("+42", 100), Some(42));
    assert_eq!(parse_unsigned("101", 100), None);
    assert_eq!(parse_unsigned("", 100), None);
    assert_eq!(parse_unsigned("+", 100), None);
    assert_eq!(parse_unsigned("-1", 100), None);
    assert_eq!(parse_unsigned("18446744073709551615", u64::MAX), Some(u64::MAX));
    assert_eq!(parse_unsigned("18446744073709551616", u64::MAX), None);
    assert_eq!(parse_i64("-9223372036854775808"), Some(i64::MIN));
    assert_eq!(parse_i64("9223372036854775808"), None);
    assert_eq!(parse_i64("-+1"), None);
    assert_eq!(parse_i64("+7"), Some(7));
}

#[test]
fn pages_are_filled_in() {
    let t = "<title>{{SITE_TITLE}}</title><base href=\"{{BASE_URL}}\">{{AUTO_UPLOAD}}/{{MAX_RETRIES}}/{{SHOW_FILE_LIST}}";
    let p = render_page(t, "Beam", "http://x", true, 3, false, "index.html");
    assert_eq!(p.html, "<title>Beam</title><base href=\"http://x/\">true/3/false");
    assert!(!p.no_store);
    let q = render_page(t, "B", "http://x/", true, 3, false, "login.html");
    assert_eq!(q.html, "<title>B</title><base href=\"http://x/\">{{AUTO_UPLOAD}}/{{MAX_RETRIES}}/{{SHOW_FILE_LIST}}");
    assert!(q.no_store);
}

#[test]
fn replace_matches_std() {
    for (s, p, r) in [("aaa", "aa", "b"), ("abcabc", "bc", "X"), ("", "x", "y"), ("xyz", "q", "w")] {
        assert_eq!(replace_str(s, p, r), s.replace(p, r));
    }
    assert_eq!(
        notification_message("{filename} ({size}) - {storage}", "a.txt", "1.00KB", "Unrestricted"),
        "a.txt (1.00KB) - Unrestricted"
    );
}

#[test]
fn readme_variables_are_honoured() {
    let c = AppConfig::from_env(&env(&[
        ("BEAM_PIN", "4321"),
        ("PIN", "9999"),
        ("BEAM_ALLOWED_ORIGINS", "https://a.example"),
        ("ALLOWED_ORIGINS", "https://b.example"),
        ("UPLOAD_DIR", "/srv/beam"),
    ]));
    assert_eq!(c.pin.as_deref(), Some("4321"));
    assert!(c.pin_enabled());
    assert_eq!(c.allowed_origins, "https://a.example");
    assert_eq!(c.upload_dir, "/srv/beam");
    let c = AppConfig::from_env(&env(&[("ALLOWED_ORIGINS", "https://b.example")]));
    assert_eq!(c.allowed_origins, "https://b.example");
}

#[test]
fn trusted_entries_are_networks_or_single_addresses() {
    assert_eq!(trusted_network(" 10.0.0.0/8 "), Some(IpNetwork::V4(0x0a00_0000, 8)));
    assert_eq!(trusted_network("127.0.0.1"), Some(IpNetwork::V4(0x7f00_0001, 32)));
    assert_eq!(trusted_network("::1"), Some(IpNetwork::V6(1, 128)));
    assert_eq!(trusted_network("2001:db8::1"), Some(IpNetwork::V6(0x2001_0db8_0000_0000_0000_0000_0000_0001, 128)));
    assert_eq!(trusted_network("::ffff:1.2.3.4"), Some(IpNetwork::V6(0xffff_0102_0304, 128)));
    assert_eq!(trusted_network("::ffff:01.2.3.4"), None);
    assert_eq!(trusted_network("010.0.0.1"), None);
    assert_eq!(trusted_network("010.0.0.0/8"), Some(IpNetwork::V4(0x0a00_0000, 8)));
    assert_eq!(trusted_network("255.255.255.255"), Some(IpNetwork::V4(0xffff_ffff, 32)));
    assert_eq!(trusted_network("256.0.0.1"), None);
    assert_eq!(trusted_network("1.2.3"), None);
    assert_eq!(trusted_network("bogus"), None);
    assert_eq!(trusted_network("10.0.0.0/40"), None);
}
