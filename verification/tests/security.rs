use beam::auth::{
    cookie_is_secure, require_pin, safe_compare, verdict_response, verify_pin, PinVerdict, SessionSet,
};
use beam::config::AppConfig;
use beam::table::StrMap;
use beam::lockout::{get_max_attempts, LockoutTable};
use beam::netaddr::{first_forwarded_entry, normalize_ip, resolve_client_ip, IpAddress, IpNetwork};
use beam::ratelimit::RateLimiter;

fn trusted(list: &str) -> Vec<Option<IpNetwork>> {
    let mut env = StrMap::new();
    env.insert("TRUSTED_PROXY_IPS".to_string(), list.to_string());
    AppConfig::from_env(&env).trusted_proxies.iter().map(|n| Some(*n)).collect()
}

#[test]
fn security_test_safe_compare() {
    assert!(safe_compare("1234", "1234"));
    assert!(!safe_compare("1234", "5678"));
    assert!(!safe_compare("1234", "12345"));
}

#[test]
fn tests_test_safe_compare() {
    assert!(safe_compare("1234", "1234"));
    assert!(!safe_compare("1234", "5678"));
    assert!(!safe_compare("1234", "12345"));
}

fn lockout_scenario() {
    let mut attempts = LockoutTable::new();
    let ip = "127.0.0.1";
    let now = 5_000_000;
    attempts.reset_attempts(ip);
    assert!(!attempts.is_locked_out(ip, now, 5));

    for _ in 0..5 {
        let _ = attempts.record_attempt(ip, now);
    }
    assert!(attempts.is_locked_out(ip, now, 5));

    attempts.reset_attempts(ip);
    assert!(!attempts.is_locked_out(ip, now, 5));
}

#[test]
fn security_test_lockout_attempts() {
    lockout_scenario();
}

#[test]
fn tests_test_lockout_attempts() {
    lockout_scenario();
}

#[test]
fn lockout_ends_after_fifteen_minutes() {
    let mut t = LockoutTable::new();
    for _ in 0..5 {
        t.record_attempt("10.0.0.9", 1_000);
    }
    assert_eq!(get_max_attempts(&StrMap::new()), 5);
    assert!(t.is_locked_out("10.0.0.9", 1_000 + 899_999, 5));
    assert_eq!(t.get_lockout_time_remaining("10.0.0.9", 1_000 + 60_000, 5), 840);
    assert!(!t.is_locked_out("10.0.0.9", 1_000 + 900_000, 5));
    // The expired record was forgotten: one failure starts a fresh count.
    assert_eq!(t.record_attempt("10.0.0.9", 2_000_000).count, 1);
    assert!(!t.is_locked_out("other", 1_000, 5));
}

#[test]
fn remaining_time_only_while_locked_out() {
    let mut t = LockoutTable::new();
    t.record_attempt("c", 0);
    assert_eq!(t.get_lockout_time_remaining("c", 1_000, 5), 0);
    for _ in 0..4 {
        t.record_attempt("c", 0);
    }
    assert_eq!(t.get_lockout_time_remaining("c", 1_000, 5), 899);
    assert_eq!(t.get_lockout_time_remaining("c", 900_000, 5), 0);
    assert_eq!(t.get_lockout_time_remaining("c", 1_000, 6), 0);
}

#[test]
fn max_attempts_comes_from_the_environment() {
    let mut env = StrMap::new();
    env.insert("MAX_ATTEMPTS".to_string(), "3".to_string());
    assert_eq!(get_max_attempts(&env), 3);
    env.insert("MAX_ATTEMPTS".to_string(), "three".to_string());
    assert_eq!(get_max_attempts(&env), 5);
    let mut t = LockoutTable::new();
    for _ in 0..3 {
        t.record_attempt("d", 0);
    }
    assert!(t.is_locked_out("d", 10, 3));
    assert!(!t.is_locked_out("d", 10, 4));
    let mut t = LockoutTable::new();
    assert_eq!(verify_pin(Some("1234"), Some("0"), "e", 0, 2, &mut t), PinVerdict::Rejected { attempts_left: 1 });
    assert_eq!(verify_pin(Some("1234"), Some("0"), "e", 0, 2, &mut t), PinVerdict::Rejected { attempts_left: 0 });
    assert_eq!(verify_pin(Some("1234"), Some("1234"), "e", 0, 2, &mut t), PinVerdict::LockedOut { minutes_left: 15 });
}

#[test]
fn record_attempt_counts_per_client() {
    let mut t = LockoutTable::new();
    assert_eq!(t.record_attempt("a", 1).count, 1);
    assert_eq!(t.record_attempt("a", 2).count, 2);
    let b = t.record_attempt("b", 3);
    assert_eq!(b.count, 1);
    assert_eq!(b.last_attempt, 3);
    assert_eq!(t.get_lockout_time_remaining("nobody", 3, 5), 0);
}

#[test]
fn verify_pin_walks_through_every_verdict() {
    let mut t = LockoutTable::new();
    assert_eq!(verify_pin(None, Some("1"), "ip", 0, 5, &mut t), PinVerdict::NoPinConfigured);
    assert_eq!(verify_pin(Some("1234"), Some("   "), "ip", 0, 5, &mut t), PinVerdict::PinMissing);
    assert_eq!(verify_pin(Some("1234"), None, "ip", 0, 5, &mut t), PinVerdict::PinMissing);
    assert_eq!(verify_pin(Some("1234"), Some("0000"), "ip", 0, 5, &mut t), PinVerdict::Rejected { attempts_left: 4 });
    assert_eq!(verify_pin(Some("1234"), Some(" 1234 "), "ip", 0, 5, &mut t), PinVerdict::Accepted);
    for left in [4, 3, 2, 1, 0] {
        assert_eq!(verify_pin(Some("1234"), Some("9"), "ip", 10, 5, &mut t), PinVerdict::Rejected { attempts_left: left });
    }
    // Locked out: even the right PIN is refused.
    assert_eq!(verify_pin(Some("1234"), Some("1234"), "ip", 70_010, 5, &mut t), PinVerdict::LockedOut { minutes_left: 15 });
}

#[test]
fn verdict_responses_carry_the_messages() {
    let (s, r) = verdict_response(PinVerdict::NoPinConfigured);
    assert_eq!(s, 200);
    assert!(r.success);
    assert_eq!(r.path.as_deref(), Some("/"));
    let (s, r) = verdict_response(PinVerdict::PinMissing);
    assert_eq!(s, 400);
    assert_eq!(r.error.as_deref(), Some("PIN is required."));
    let (s, r) = verdict_response(PinVerdict::LockedOut { minutes_left: 14 });
    assert_eq!(s, 429);
    assert_eq!(r.error.as_deref(), Some("Too many PIN verification attempts. Please try again in 14 minutes."));
    let (s, r) = verdict_response(PinVerdict::Rejected { attempts_left: 3 });
    assert_eq!(s, 401);
    assert_eq!(r.error.as_deref(), Some("Invalid PIN. 3 attempts remaining."));
    let (_, r) = verdict_response(PinVerdict::Rejected { attempts_left: 0 });
    assert_eq!(r.error.as_deref(), Some("Too many PIN verification attempts. Account locked for 15 minutes."));
    let (s, r) = verdict_response(PinVerdict::Accepted);
    assert_eq!(s, 200);
    assert!(r.success && r.error.is_none() && r.path.is_none());
}

#[test]
fn protected_routes_need_a_session_or_the_pin() {
    let mut sessions = SessionSet::new();
    sessions.insert("abc".to_string());
    assert!(require_pin(None, None, None, &sessions).is_ok());
    assert!(require_pin(Some("1234"), Some("abc"), None, &sessions).is_ok());
    assert!(require_pin(Some("1234"), Some("zzz"), Some("1234"), &sessions).is_err());
    assert!(require_pin(Some("1234"), None, Some("1234"), &sessions).is_ok());
    match require_pin(Some("1234"), None, None, &sessions) {
        Err(e) => assert_eq!(e, "Unauthorized: Invalid or missing PIN"),
        Ok(_) => panic!("admitted without credentials"),
    }
    sessions.remove("abc");
    assert!(!sessions.contains("abc"));
}

#[test]
fn secure_cookie_follows_forwarded_proto_then_base_url() {
    assert!(cookie_is_secure(Some("HTTPS"), "http://x"));
    assert!(!cookie_is_secure(Some("http"), "https://x"));
    assert!(cookie_is_secure(None, "https://x"));
    assert!(!cookie_is_secure(None, "http://x"));
}

fn v4(a: u32, b: u32, c: u32, d: u32) -> IpAddress {
    IpAddress::V4((a << 24) | (b << 16) | (c << 8) | d)
}

fn forwarded(h: &str) -> Option<Option<IpAddress>> {
    let first = first_forwarded_entry(h);
    let parts: Vec<u32> = first.split('.').filter_map(|p| p.parse().ok()).collect();
    if parts.len() == 4 {
        Some(Some(v4(parts[0], parts[1], parts[2], parts[3])))
    } else {
        Some(None)
    }
}

#[test]
fn client_ip_ignores_xff_without_trusted_list() {
    let ip = resolve_client_ip(v4(10, 0, 0, 1), true, forwarded("203.0.113.5"), None);
    assert_eq!(ip, v4(10, 0, 0, 1));
}

#[test]
fn client_ip_honors_xff_when_trusted_list_matches() {
    let nets = trusted("10.0.0.0/8");
    assert_eq!(nets[0], Some(IpNetwork::V4(0x0a00_0000, 8)));
    let ip = resolve_client_ip(v4(10, 0, 0, 1), true, forwarded("203.0.113.5, 10.0.0.2"), Some(&nets));
    assert_eq!(ip, v4(203, 0, 113, 5));
}

#[test]
fn client_ip_ignores_xff_when_socket_not_in_trusted_list() {
    let nets = trusted("10.0.0.0/8");
    let ip = resolve_client_ip(v4(192, 168, 1, 1), true, forwarded("203.0.113.5"), Some(&nets));
    assert_eq!(ip, v4(192, 168, 1, 1));
}

#[test]
fn client_ip_ignores_xff_when_trust_proxy_false() {
    let ip = resolve_client_ip(v4(10, 0, 0, 1), false, forwarded("203.0.113.5"), None);
    assert_eq!(ip, v4(10, 0, 0, 1));
}

#[test]
fn ipv4_mapped_addresses_are_normalized() {
    assert_eq!(normalize_ip(IpAddress::V6(0xffff_0a00_0001)), v4(10, 0, 0, 1));
    assert_eq!(normalize_ip(IpAddress::V6(1)), IpAddress::V6(1));
    assert_eq!(first_forwarded_entry("  1.2.3.4 , 5.6.7.8"), "1.2.3.4");
}

#[test]
fn rate_limit_allows_one_hundred_per_minute() {
    let mut rl = RateLimiter::new();
    for _ in 0..100 {
        assert!(rl.check_rate_limit("1.2.3.4", 1_000));
    }
    assert!(!rl.check_rate_limit("1.2.3.4", 1_000));
    assert!(rl.check_rate_limit("5.6.7.8", 1_000));
    assert!(!rl.check_rate_limit("1.2.3.4", 60_999));
    assert!(rl.check_rate_limit("1.2.3.4", 61_000));
    rl.clean_old_rate_limits(200_000);
    assert!(rl.check_rate_limit("1.2.3.4", 200_000));
}
