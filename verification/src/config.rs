//! The service configuration, read from a snapshot of the environment, and the
//! part of it that the web client sees.

use vstd::prelude::*;
use crate::table::StrMap;
use crate::netaddr::{IpNetwork, net_wf};
use crate::seqs::{split_on, split_chars, views};
use crate::text::{trim_ws, trim_whitespace, chars_of, string_from_chars, is_ascii_digit_spec, u64_to_decimal, decimal};
use crate::upload::string_views;

verus! {

/// The numeric value of a string of decimal digits.
pub open spec fn digits_value(s: Seq<char>) -> nat
    decreases s.len(),
{
    if s.len() == 0 { 0 } else { digits_value(s.drop_last()) * 10 + ((s.last() as u32) - 48) as nat }
}

/// Every character is a decimal digit.
pub open spec fn all_digits(s: Seq<char>) -> bool {
    forall|i: int| 0 <= i < s.len() ==> is_ascii_digit_spec(#[trigger] s[i])
}

/// The digits after an optional leading `+`.
pub open spec fn unsigned_body(s: Seq<char>) -> Seq<char> {
    if s.len() > 0 && s[0] == '+' { s.drop_first() } else { s }
}

/// `str::parse` for an unsigned integer type whose largest value is `max`: an
/// optional `+`, then one or more decimal digits, and a value that fits.
pub open spec fn parse_unsigned_spec(s: Seq<char>, max: nat) -> Option<nat> {
    let body = unsigned_body(s);
    if body.len() > 0 && all_digits(body) && digits_value(body) <= max { Some(digits_value(body)) } else { None }
}

/// Parses an unsigned decimal number no larger than `max`, as `str::parse`
/// does for the unsigned integer types.
pub fn parse_unsigned(s: &str, max: u64) -> (r: Option<u64>)
    ensures
        match r {
            Some(v) => parse_unsigned_spec(s@, max as nat) == Some(v as nat),
            None => parse_unsigned_spec(s@, max as nat) is None,
        },
{
    let v = chars_of(s);
    let start: usize = if v.len() > 0 && v[0] == '+' { 1 } else { 0 };
    let ghost body = unsigned_body(s@);
    assert(body =~= v@.skip(start as int));
    if start >= v.len() {
        assert(body.len() == 0);
        return None;
    }
    let mut acc: u64 = 0;
    let mut i: usize = start;
    while i < v.len()
        invariant
            v@ == s@,
            body == unsigned_body(s@),
            body == v@.skip(start as int),
            start <= i <= v@.len(),
            all_digits(v@.subrange(start as int, i as int)),
            acc == digits_value(v@.subrange(start as int, i as int)),
            acc <= max,
        decreases v@.len() - i,
    {
        let c = v[i];
        assert(v@.subrange(start as int, i + 1).drop_last() =~= v@.subrange(start as int, i as int));
        assert(body[i - start] == c);
        assert(body.subrange(0, i - start) =~= v@.subrange(start as int, i as int));
        if !('0' <= c && c <= '9') {
            assert(!is_ascii_digit_spec(body[i - start]));
            assert(!all_digits(body));
            return None;
        }
        let d = (c as u32 - 48) as u64;
        if d > max || acc > (max - d) / 10 {
            proof { lemma_prefix_value_bound(body, (i - start) as int, acc as nat, d as nat, max as nat); }
            return None;
        }
        acc = acc * 10 + d;
        i = i + 1;
    }
    assert(v@.subrange(start as int, v@.len() as int) =~= body);
    Some(acc)
}

proof fn lemma_digits_value_mono(s: Seq<char>, k: int)
    requires 0 <= k <= s.len(), all_digits(s),
    ensures digits_value(s.subrange(0, k)) <= digits_value(s),
    decreases s.len() - k,
{
    if k < s.len() {
        lemma_digits_value_mono(s, k + 1);
        assert(s.subrange(0, k + 1).drop_last() =~= s.subrange(0, k));
    } else {
        assert(s.subrange(0, k) =~= s);
    }
}

proof fn lemma_prefix_value_bound(body: Seq<char>, k: int, acc: nat, d: nat, max: nat)
    requires
        0 <= k < body.len(),
        acc == digits_value(body.subrange(0, k)),
        d == (body[k] as u32) - 48,
        d <= 9,
        d > max || acc > (max - d) / 10,
    ensures !(all_digits(body) && digits_value(body) <= max),
{
    if all_digits(body) {
        lemma_digits_value_mono(body, k + 1);
        assert(body.subrange(0, k + 1).drop_last() =~= body.subrange(0, k));
        assert(digits_value(body.subrange(0, k + 1)) == acc * 10 + d);
        if d <= max {
            assert(acc * 10 + d > max) by (nonlinear_arith)
                requires acc > (max - d) / 10, d <= max;
        }
    }
}

/// A flag that is on only when set to `true` or `on`.
pub open spec fn flag_on(v: Option<Seq<char>>) -> bool {
    match v {
        Some(s) => s == "true"@ || s == "on"@,
        None => false,
    }
}

/// A flag that is on unless set to `false` or `off`.
pub open spec fn flag_not_off(v: Option<Seq<char>>, default: bool) -> bool {
    match v {
        Some(s) => s != "false"@ && s != "off"@,
        None => default,
    }
}

/// How boolean settings read: an opt-in setting (such as `TRUST_PROXY`) is on
/// exactly when it is set to `true` or `on`, and off when unset or set to
/// anything else; an opt-out setting (such as `ENABLE_THEMES`) is off exactly
/// when it is set to `false` or `off`, and takes its default when unset.
pub proof fn law_boolean_settings(v: Option<Seq<char>>, default: bool)
    ensures
        flag_on(Some("true"@)),
        flag_on(Some("on"@)),
        !flag_on(None),
        (v matches Some(s) && s != "true"@ && s != "on"@) ==> !flag_on(v),
        !flag_not_off(Some("false"@), default),
        !flag_not_off(Some("off"@), default),
        flag_not_off(Some("true"@), default),
        flag_not_off(Some("on"@), default),
        flag_not_off(None, default) == default,
        (v matches Some(s) && s != "false"@ && s != "off"@) ==> flag_not_off(v, default),
{
    reveal_strlit("true");
    reveal_strlit("on");
    reveal_strlit("false");
    reveal_strlit("off");
    assert("true"@.len() != "false"@.len() && "true"@.len() != "off"@.len());
    assert("on"@.len() != "false"@.len() && "on"@.len() != "off"@.len());
}

/// The value of an environment variable, as text.
pub open spec fn env_var(env: Map<Seq<char>, String>, name: Seq<char>) -> Option<Seq<char>> {
    if env.contains_key(name) { Some(env[name]@) } else { None }
}

fn get_var(env: &StrMap<String>, name: &str) -> (r: Option<String>)
    ensures
        match r {
            Some(s) => env_var(env@, name@) == Some(s@),
            None => env_var(env@, name@) is None,
        },
{
    match env.get(name) {
        Some(s) => Some(s.clone()),
        None => None,
    }
}

/// The numeric setting `name`, or `default` when it is unset or not a number
/// that fits.
pub open spec fn numeric_setting(env: Map<Seq<char>, String>, name: Seq<char>, max: nat, default: nat) -> nat {
    match env_var(env, name) {
        Some(s) => match parse_unsigned_spec(s, max) {
            Some(v) => v,
            None => default,
        },
        None => default,
    }
}

pub(crate) fn numeric_var(env: &StrMap<String>, name: &str, max: u64, default: u64) -> (r: u64)
    requires default <= max,
    ensures r == numeric_setting(env@, name@, max as nat, default as nat), r <= max,
{
    match get_var(env, name) {
        Some(s) => match parse_unsigned(s.as_str(), max) {
            Some(v) => v,
            None => default,
        },
        None => default,
    }
}

/// The first of the given settings that is set and not empty.
pub open spec fn first_nonempty(env: Map<Seq<char>, String>, names: Seq<Seq<char>>) -> Option<Seq<char>>
    decreases names.len(),
{
    if names.len() == 0 {
        None
    } else {
        match env_var(env, names[0]) {
            Some(v) => if v.len() > 0 { Some(v) } else { first_nonempty(env, names.drop_first()) },
            None => first_nonempty(env, names.drop_first()),
        }
    }
}

fn first_nonempty_var(env: &StrMap<String>, names: &Vec<&str>) -> (r: Option<String>)
    ensures
        match r {
            Some(s) => first_nonempty(env@, names@.map_values(|n: &str| n@)) == Some(s@),
            None => first_nonempty(env@, names@.map_values(|n: &str| n@)) is None,
        },
{
    let ghost all = names@.map_values(|n: &str| n@);
    let mut i: usize = 0;
    assert(all.skip(0) =~= all);
    while i < names.len()
        invariant
            all == names@.map_values(|n: &str| n@),
            i <= names@.len(),
            first_nonempty(env@, all) == first_nonempty(env@, all.skip(i as int)),
        decreases names@.len() - i,
    {
        assert(all.skip(i as int).drop_first() =~= all.skip(i + 1));
        assert(all.skip(i as int)[0] == names@[i as int]@);
        match get_var(env, names[i]) {
            Some(v) => {
                if v.as_str().unicode_len() > 0 {
                    return Some(v);
                }
            },
            None => {},
        }
        i = i + 1;
    }
    None
}

/// A PIN is accepted when it has 4 to 64 characters.
pub open spec fn pin_setting(env: Map<Seq<char>, String>) -> Option<Seq<char>> {
    match first_nonempty(env, seq!["BEAM_PIN"@, "Beam_PIN"@, "PIN"@]) {
        Some(p) => if 4 <= p.len() <= 64 { Some(p) } else { None },
        None => None,
    }
}

/// The entries of a comma-separated list, trimmed.
pub open spec fn list_setting(env: Map<Seq<char>, String>, name: Seq<char>) -> Option<Seq<Seq<char>>> {
    match env_var(env, name) {
        Some(s) => Some(split_on(s, ',', ',').map_values(|p: Seq<char>| trim_ws(p))),
        None => None,
    }
}

fn split_list(s: &str) -> (r: Vec<String>)
    ensures string_views(r@) == split_on(s@, ',', ',').map_values(|p: Seq<char>| trim_ws(p)),
{
    let v = chars_of(s);
    let pieces = split_chars(&v, ',', ',');
    let ghost pv = views(pieces@);
    let mut out: Vec<String> = Vec::new();
    let mut i: usize = 0;
    while i < pieces.len()
        invariant
            pv == views(pieces@),
            pv == split_on(s@, ',', ','),
            i <= pieces@.len(),
            string_views(out@) == pv.take(i as int).map_values(|p: Seq<char>| trim_ws(p)),
        decreases pieces@.len() - i,
    {
        let piece = string_from_chars(&pieces[i]);
        let t = trim_whitespace(piece.as_str());
        let ghost before = string_views(out@);
        out.push(t);
        assert(string_views(out@) =~= before.push(t@));
        assert(pv.take(i + 1).map_values(|p: Seq<char>| trim_ws(p))
            =~= pv.take(i as int).map_values(|p: Seq<char>| trim_ws(p)).push(trim_ws(pv[i as int])));
        i = i + 1;
    }
    assert(pv.take(pieces@.len() as int) =~= pv);
    out
}

fn list_var(env: &StrMap<String>, name: &str) -> (r: Option<Vec<String>>)
    ensures
        match r {
            Some(l) => list_setting(env@, name@) == Some(string_views(l@)),
            None => list_setting(env@, name@) is None,
        },
{
    match get_var(env, name) {
        Some(s) => Some(split_list(s.as_str())),
        None => None,
    }
}

/// What `<ipnet::IpNet as FromStr>::from_str` gives for a text.
pub uninterp spec fn spec_parse_ip_net(s: Seq<char>) -> Option<IpNetwork>;

/// Parses a network in CIDR notation with `ipnet::IpNet::from_str`. The
/// contract names the result of ipnet's grammar and states what its parser
/// checks of the prefix: at most 32 bits for IPv4, 128 for IPv6.
#[verifier::external_body]
fn parse_ip_net(s: &str) -> (r: Option<IpNetwork>)
    ensures
        r == spec_parse_ip_net(s@),
        r matches Some(n) ==> net_wf(n),
{
    match s.parse::<ipnet::IpNet>() {
        Ok(ipnet::IpNet::V4(n)) => Some(IpNetwork::V4(u32::from(n.addr()), n.prefix_len())),
        Ok(ipnet::IpNet::V6(n)) => Some(IpNetwork::V6(u128::from(n.addr()), n.prefix_len())),
        Err(_) => None,
    }
}

/// One part of a dotted IPv4 address as std reads it: one to three decimal
/// digits, no leading zero, at most 255.
pub open spec fn strict_octet(p: Seq<char>) -> bool {
    &&& 1 <= p.len() <= 3
    &&& all_digits(p)
    &&& (p.len() == 1 || p[0] != '0')
    &&& digits_value(p) <= 255
}

/// An IPv4 address in the dotted form std accepts: four strict parts.
pub open spec fn strict_ipv4(t: Seq<char>) -> bool {
    let parts = split_on(t, '.', '.');
    parts.len() == 4 && forall|i: int| 0 <= i < 4 ==> strict_octet(#[trigger] parts[i])
}

/// The 32-bit value of a dotted IPv4 address.
pub open spec fn ipv4_value(t: Seq<char>) -> nat {
    let p = split_on(t, '.', '.');
    digits_value(p[0]) * 16777216 + digits_value(p[1]) * 65536 + digits_value(p[2]) * 256 + digits_value(p[3])
}

/// The host network of an entry that is a single address, as std reads
/// addresses: IPv4 in strict dotted form gives a /32; an IPv6 address, whose
/// hexadecimal groups ipnet's grammar reads as std's does and whose trailing
/// dotted IPv4 part, if any, must be strict, gives a /128. Anything else names
/// no network.
pub open spec fn single_address_network(t: Seq<char>) -> Option<IpNetwork> {
    let colon_parts = split_on(t, ':', ':');
    if colon_parts.len() == 1 {
        if strict_ipv4(t) { Some(IpNetwork::V4(ipv4_value(t) as u32, 32)) } else { None }
    } else if split_on(colon_parts.last(), '.', '.').len() > 1 && !strict_ipv4(colon_parts.last()) {
        None
    } else {
        match spec_parse_ip_net(t + "/128"@) {
            Some(IpNetwork::V6(a, _)) => Some(IpNetwork::V6(a, 128)),
            _ => None,
        }
    }
}

/// The network a trusted-proxy entry names, once trimmed: a CIDR network, or
/// else the host network of a single address.
pub open spec fn trusted_network_spec(entry: Seq<char>) -> Option<IpNetwork> {
    match spec_parse_ip_net(trim_ws(entry)) {
        Some(n) => Some(n),
        None => single_address_network(trim_ws(entry)),
    }
}

fn strict_octet_value(p: &Vec<char>) -> (r: Option<u32>)
    ensures
        match r {
            Some(v) => strict_octet(p@) && v == digits_value(p@),
            None => !strict_octet(p@),
        },
{
    let n = p.len();
    if n < 1 || n > 3 {
        return None;
    }
    if !('0' <= p[0] && p[0] <= '9') {
        assert(!is_ascii_digit_spec(p@[0]));
        return None;
    }
    if n > 1 && p[0] == '0' {
        return None;
    }
    let text = string_from_chars(p);
    assert(unsigned_body(p@) =~= p@);
    match parse_unsigned(text.as_str(), 255) {
        Some(v) => Some(v as u32),
        None => None,
    }
}

fn strict_ipv4_value(t: &Vec<char>) -> (r: Option<u32>)
    ensures
        match r {
            Some(v) => strict_ipv4(t@) && v == ipv4_value(t@),
            None => !strict_ipv4(t@),
        },
{
    let parts = split_chars(t, '.', '.');
    assert(views(parts@) == split_on(t@, '.', '.'));
    if parts.len() != 4 {
        return None;
    }
    let a = match strict_octet_value(&parts[0]) { Some(v) => v, None => { assert(views(parts@)[0] == parts@[0]@); return None; } };
    let b = match strict_octet_value(&parts[1]) { Some(v) => v, None => { assert(views(parts@)[1] == parts@[1]@); return None; } };
    let c = match strict_octet_value(&parts[2]) { Some(v) => v, None => { assert(views(parts@)[2] == parts@[2]@); return None; } };
    let d = match strict_octet_value(&parts[3]) { Some(v) => v, None => { assert(views(parts@)[3] == parts@[3]@); return None; } };
    proof {
        let ps = split_on(t@, '.', '.');
        assert(ps[0] == parts@[0]@ && ps[1] == parts@[1]@ && ps[2] == parts@[2]@ && ps[3] == parts@[3]@);
        assert forall|i: int| 0 <= i < 4 implies strict_octet(#[trigger] ps[i]) by {
            if i == 0 {} else if i == 1 {} else if i == 2 {} else {}
        }
    }
    Some(a * 16777216 + b * 65536 + c * 256 + d)
}

/// The network that one entry of `TRUSTED_PROXY_IPS` names: a CIDR, or a
/// single address as its host network.
pub fn trusted_network(entry: &str) -> (r: Option<IpNetwork>)
    ensures
        r == trusted_network_spec(entry@),
        r matches Some(n) ==> net_wf(n),
{
    let t = trim_whitespace(entry);
    match parse_ip_net(t.as_str()) {
        Some(n) => return Some(n),
        None => {},
    }
    let tv = chars_of(t.as_str());
    let colon_parts = split_chars(&tv, ':', ':');
    assert(views(colon_parts@) == split_on(t@, ':', ':'));
    proof { crate::seqs::lemma_split_on_nonempty(t@, ':', ':'); }
    if colon_parts.len() == 1 {
        return match strict_ipv4_value(&tv) {
            Some(v) => Some(IpNetwork::V4(v, 32)),
            None => None,
        };
    }
    let last = colon_parts.len() - 1;
    let tail = &colon_parts[last];
    assert(tail@ == split_on(t@, ':', ':').last());
    let dotted = split_chars(tail, '.', '.');
    assert(views(dotted@) == split_on(tail@, '.', '.'));
    if dotted.len() > 1 && strict_ipv4_value(tail).is_none() {
        return None;
    }
    let mut with_prefix = t.clone();
    with_prefix.append("/128");
    match parse_ip_net(with_prefix.as_str()) {
        Some(IpNetwork::V6(a, _)) => Some(IpNetwork::V6(a, 128)),
        _ => None,
    }
}

/// The networks of the non-empty entries of a comma-separated list that parse
/// as CIDR networks.
pub open spec fn proxy_networks(entries: Seq<Seq<char>>) -> Seq<IpNetwork>
    decreases entries.len(),
{
    if entries.len() == 0 {
        Seq::empty()
    } else {
        let prev = proxy_networks(entries.drop_last());
        let e = entries.last();
        if e.len() > 0 && spec_parse_ip_net(e) is Some { prev.push(spec_parse_ip_net(e)->0) } else { prev }
    }
}

/// The trusted networks that `TRUSTED_PROXY_IPS` names.
pub open spec fn trusted_proxies_setting(env: Map<Seq<char>, String>) -> Seq<IpNetwork> {
    match list_setting(env, "TRUSTED_PROXY_IPS"@) {
        Some(entries) => proxy_networks(entries),
        None => Seq::empty(),
    }
}

fn parse_networks(entries: &Vec<String>) -> (r: Vec<IpNetwork>)
    ensures
        r@ == proxy_networks(string_views(entries@)),
        forall|i: int| 0 <= i < r@.len() ==> net_wf(#[trigger] r@[i]),
{
    let ghost ev = string_views(entries@);
    let mut out: Vec<IpNetwork> = Vec::new();
    let mut i: usize = 0;
    while i < entries.len()
        invariant
            ev == string_views(entries@),
            i <= entries@.len(),
            out@ == proxy_networks(ev.take(i as int)),
            forall|k: int| 0 <= k < out@.len() ==> net_wf(#[trigger] out@[k]),
        decreases entries@.len() - i,
    {
        assert(ev.take(i + 1).drop_last() =~= ev.take(i as int));
        assert(ev.take(i + 1).last() == entries@[i as int]@);
        if entries[i].as_str().unicode_len() > 0 {
            match parse_ip_net(entries[i].as_str()) {
                Some(n) => out.push(n),
                None => {},
            }
        }
        i = i + 1;
    }
    assert(ev.take(entries@.len() as int) =~= ev);
    out
}

/// The service configuration.
pub struct AppConfig {
    pub port: u16,
    pub site_title: String,
    pub base_url: String,
    pub allowed_origins: String,
    pub pin: Option<String>,
    pub enable_translation: bool,
    pub enable_themes: bool,
    pub enable_print: bool,
    pub show_version: bool,
    pub show_github: bool,
    pub trust_proxy: bool,
    pub trusted_proxies: Vec<IpNetwork>,
    pub max_attempts: u32,
    pub lockout_time_minutes: u64,
    pub cookie_max_age_hours: i64,
    pub shutdown_drain_seconds: u64,
    pub upload_dir: String,
    pub max_file_size: u64,
    pub auto_upload: bool,
    pub show_file_list: bool,
    pub trust_proxy_local: bool,
    pub trusted_proxy_ips: Option<Vec<String>>,
    pub allowed_extensions: Option<Vec<String>>,
    pub client_max_retries: u32,
    pub max_storage_limit: Option<u64>,
    pub retention_period_days: Option<u64>,
    pub node_env: String,
}

/// The signed decimal value of a text, as `str::parse::<i64>` reads it.
pub open spec fn parse_i64_spec(s: Seq<char>) -> Option<int> {
    if s.len() > 0 && s[0] == '-' {
        let body = s.drop_first();
        if body.len() > 0 && all_digits(body) && digits_value(body) <= 0x8000_0000_0000_0000 {
            Some(-(digits_value(body) as int))
        } else {
            None
        }
    } else {
        match parse_unsigned_spec(s, 0x7fff_ffff_ffff_ffff) {
            Some(v) => Some(v as int),
            None => None,
        }
    }
}

/// Parses a signed decimal number that fits an `i64`.
pub fn parse_i64(s: &str) -> (r: Option<i64>)
    ensures
        match r {
            Some(v) => parse_i64_spec(s@) == Some(v as int),
            None => parse_i64_spec(s@) is None,
        },
{
    if s.unicode_len() > 0 && s.get_char(0) == '-' {
        let v = chars_of(s);
        let body = string_from_chars(&crate::seqs::slice_chars(&v, 1, v.len()));
        assert(body@ =~= s@.drop_first());
        if body.as_str().unicode_len() > 0 && body.as_str().get_char(0) == '+' {
            return None;
        }
        match parse_unsigned(body.as_str(), 0x8000_0000_0000_0000) {
            Some(m) => {
                assert(unsigned_body(body@) =~= body@);
                if m == 0x8000_0000_0000_0000 { Some(i64::MIN) } else { Some(-(m as i64)) }
            },
            None => {
                assert(unsigned_body(body@) =~= body@);
                None
            },
        }
    } else {
        match parse_unsigned(s, 0x7fff_ffff_ffff_ffff) {
            Some(m) => Some(m as i64),
            None => None,
        }
    }
}

/// `COOKIE_MAX_AGE_HOURS`, or 24.
pub open spec fn cookie_hours_setting(env: Map<Seq<char>, String>) -> int {
    match env_var(env, "COOKIE_MAX_AGE_HOURS"@) {
        Some(s) => match parse_i64_spec(s) {
            Some(v) => v,
            None => 24,
        },
        None => 24,
    }
}

/// The optional numeric setting `name`: none when unset or not a number.
pub open spec fn optional_numeric(env: Map<Seq<char>, String>, name: Seq<char>) -> Option<nat> {
    match env_var(env, name) {
        Some(s) => parse_unsigned_spec(s, u64::MAX as nat),
        None => None,
    }
}

fn optional_numeric_var(env: &StrMap<String>, name: &str) -> (r: Option<u64>)
    ensures
        match r {
            Some(v) => optional_numeric(env@, name@) == Some(v as nat),
            None => optional_numeric(env@, name@) is None,
        },
{
    match get_var(env, name) {
        Some(s) => parse_unsigned(s.as_str(), u64::MAX),
        None => None,
    }
}

/// The view of an optional string.
pub open spec fn opt_str(o: Option<String>) -> Option<Seq<char>> {
    match o {
        Some(s) => Some(s@),
        None => None,
    }
}

/// The view of an optional list of strings.
pub open spec fn opt_list(o: Option<Vec<String>>) -> Option<Seq<Seq<char>>> {
    match o {
        Some(l) => Some(string_views(l@)),
        None => None,
    }
}

impl AppConfig {
    /// The name used as site title when none is configured.
    pub const APP_BRAND: &'static str = "Beam";

    /// The configuration that a snapshot of the environment describes: each
    /// setting is read from its variable, and an unset or unreadable value
    /// gives the default.
    pub fn from_env(env: &StrMap<String>) -> (r: Self)
        ensures
            r.port as nat == numeric_setting(env@, "PORT"@, 65535, 4401),
            r.site_title@ == (match first_nonempty(env@, seq!["Beam_SITE_TITLE"@, "Beam_TITLE"@, "SITE_TITLE"@]) {
                Some(t) => t,
                None => "Beam"@,
            }),
            r.base_url@ == (match env_var(env@, "BASE_URL"@) {
                Some(u) => u,
                None => "http://localhost:"@ + decimal(r.port as nat),
            }),
            r.allowed_origins@ == (match env_var(env@, "BEAM_ALLOWED_ORIGINS"@) {
                Some(o) => o,
                None => match env_var(env@, "ALLOWED_ORIGINS"@) { Some(o) => o, None => "*"@ },
            }),
            opt_str(r.pin) == pin_setting(env@),
            r.enable_translation == flag_on(env_var(env@, "ENABLE_TRANSLATION"@)),
            r.enable_themes == flag_not_off(env_var(env@, "ENABLE_THEMES"@), true),
            r.enable_print == flag_not_off(env_var(env@, "ENABLE_PRINT"@), true),
            r.show_version == flag_not_off(env_var(env@, "SHOW_VERSION"@), true),
            r.show_github == flag_not_off(env_var(env@, "SHOW_GITHUB"@), true),
            r.trust_proxy == flag_on(env_var(env@, "TRUST_PROXY"@)),
            r.trusted_proxies@ == trusted_proxies_setting(env@),
            r.max_attempts as nat == numeric_setting(env@, "MAX_ATTEMPTS"@, u32::MAX as nat, 5),
            r.lockout_time_minutes as nat == numeric_setting(env@, "LOCKOUT_TIME_MINUTES"@, u64::MAX as nat, 15),
            r.cookie_max_age_hours as int == cookie_hours_setting(env@),
            r.shutdown_drain_seconds as nat == numeric_setting(env@, "SHUTDOWN_DRAIN_SECONDS"@, u64::MAX as nat, 5),
            r.upload_dir@ == (match env_var(env@, "UPLOAD_DIR"@) {
                Some(d) => d,
                None => match env_var(env@, "LOCAL_UPLOAD_DIR"@) {
                    Some(d) => d,
                    None => "/config"@,
                },
            }),
            r.max_file_size as nat == numeric_setting(env@, "MAX_FILE_SIZE"@, u64::MAX as nat, 10737418240),
            r.auto_upload == flag_not_off(env_var(env@, "AUTO_UPLOAD"@), false),
            r.show_file_list == flag_not_off(env_var(env@, "SHOW_FILE_LIST"@), true),
            r.trust_proxy_local == flag_on(env_var(env@, "TRUST_PROXY_LOCAL"@)),
            opt_list(r.trusted_proxy_ips) == list_setting(env@, "TRUSTED_PROXY_IPS"@),
            opt_list(r.allowed_extensions) == list_setting(env@, "ALLOWED_EXTENSIONS"@),
            r.client_max_retries as nat == numeric_setting(env@, "CLIENT_MAX_RETRIES"@, u32::MAX as nat, 3),
            (match r.max_storage_limit { Some(v) => Some(v as nat), None => None }) == optional_numeric(env@, "MAX_STORAGE_LIMIT"@),
            (match r.retention_period_days { Some(v) => Some(v as nat), None => None }) == optional_numeric(env@, "RETENTION_PERIOD_DAYS"@),
            r.node_env@ == (match env_var(env@, "NODE_ENV"@) { Some(e) => e, None => "production"@ }),
    {
        let port = numeric_var(env, "PORT", 65535, 4401) as u16;
        let mut title_names: Vec<&str> = Vec::new();
        title_names.push("Beam_SITE_TITLE");
        title_names.push("Beam_TITLE");
        title_names.push("SITE_TITLE");
        assert(title_names@.map_values(|n: &str| n@) =~= seq!["Beam_SITE_TITLE"@, "Beam_TITLE"@, "SITE_TITLE"@]);
        let site_title = match first_nonempty_var(env, &title_names) {
            Some(t) => t,
            None => String::from_str(Self::APP_BRAND),
        };
        let base_url = match get_var(env, "BASE_URL") {
            Some(u) => u,
            None => {
                let mut u = String::from_str("http://localhost:");
                let p = u64_to_decimal(port as u64);
                u.append(p.as_str());
                u
            },
        };
        let allowed_origins = match get_var(env, "BEAM_ALLOWED_ORIGINS") {
            Some(o) => o,
            None => match get_var(env, "ALLOWED_ORIGINS") {
                Some(o) => o,
                None => String::from_str("*"),
            },
        };
        let mut pin_names: Vec<&str> = Vec::new();
        pin_names.push("BEAM_PIN");
        pin_names.push("Beam_PIN");
        pin_names.push("PIN");
        assert(pin_names@.map_values(|n: &str| n@) =~= seq!["BEAM_PIN"@, "Beam_PIN"@, "PIN"@]);
        let pin = match first_nonempty_var(env, &pin_names) {
            Some(p) => {
                let n = p.as_str().unicode_len();
                if 4 <= n && n <= 64 { Some(p) } else { None }
            },
            None => None,
        };
        let trusted_proxy_ips = list_var(env, "TRUSTED_PROXY_IPS");
        let trusted_proxies = match &trusted_proxy_ips {
            Some(l) => parse_networks(l),
            None => Vec::new(),
        };
        let cookie_max_age_hours = match get_var(env, "COOKIE_MAX_AGE_HOURS") {
            Some(s) => match parse_i64(s.as_str()) {
                Some(v) => v,
                None => 24,
            },
            None => 24,
        };
        let upload_dir = match get_var(env, "UPLOAD_DIR") {
            Some(d) => d,
            None => match get_var(env, "LOCAL_UPLOAD_DIR") {
                Some(d) => d,
                None => String::from_str("/config"),
            },
        };
        let node_env = match get_var(env, "NODE_ENV") {
            Some(e) => e,
            None => String::from_str("production"),
        };
        AppConfig {
            port,
            site_title,
            base_url,
            allowed_origins,
            pin,
            enable_translation: flag_var(env, "ENABLE_TRANSLATION"),
            enable_themes: optout_var(env, "ENABLE_THEMES", true),
            enable_print: optout_var(env, "ENABLE_PRINT", true),
            show_version: optout_var(env, "SHOW_VERSION", true),
            show_github: optout_var(env, "SHOW_GITHUB", true),
            trust_proxy: flag_var(env, "TRUST_PROXY"),
            trusted_proxies,
            max_attempts: numeric_var(env, "MAX_ATTEMPTS", 0xffff_ffff, 5) as u32,
            lockout_time_minutes: numeric_var(env, "LOCKOUT_TIME_MINUTES", u64::MAX, 15),
            cookie_max_age_hours,
            shutdown_drain_seconds: numeric_var(env, "SHUTDOWN_DRAIN_SECONDS", u64::MAX, 5),
            upload_dir,
            max_file_size: numeric_var(env, "MAX_FILE_SIZE", u64::MAX, 10737418240),
            auto_upload: optout_var(env, "AUTO_UPLOAD", false),
            show_file_list: optout_var(env, "SHOW_FILE_LIST", true),
            trust_proxy_local: flag_var(env, "TRUST_PROXY_LOCAL"),
            trusted_proxy_ips,
            allowed_extensions: list_var(env, "ALLOWED_EXTENSIONS"),
            client_max_retries: numeric_var(env, "CLIENT_MAX_RETRIES", 0xffff_ffff, 3) as u32,
            max_storage_limit: optional_numeric_var(env, "MAX_STORAGE_LIMIT"),
            retention_period_days: optional_numeric_var(env, "RETENTION_PERIOD_DAYS"),
            node_env,
        }
    }

    /// PIN authentication is on.
    pub fn pin_enabled(&self) -> (r: bool)
        ensures r == self.pin is Some,
    {
        self.pin.is_some()
    }

    /// The lockout length in seconds.
    pub fn lockout_duration(&self) -> (r: u64)
        requires self.lockout_time_minutes * 60 <= u64::MAX,
        ensures r == self.lockout_time_minutes * 60,
    {
        self.lockout_time_minutes * 60
    }
}

fn flag_var(env: &StrMap<String>, name: &str) -> (r: bool)
    ensures r == flag_on(env_var(env@, name@)),
{
    match get_var(env, name) {
        Some(v) => {
            let c = chars_of(v.as_str());
            crate::seqs::chars_equal_str(&c, "true") || crate::seqs::chars_equal_str(&c, "on")
        },
        None => false,
    }
}

fn optout_var(env: &StrMap<String>, name: &str, default: bool) -> (r: bool)
    ensures r == flag_not_off(env_var(env@, name@), default),
{
    match get_var(env, name) {
        Some(v) => {
            let c = chars_of(v.as_str());
            !crate::seqs::chars_equal_str(&c, "false") && !crate::seqs::chars_equal_str(&c, "off")
        },
        None => default,
    }
}

/// The settings that the web client reads.
pub struct FrontendConfig {
    pub site_title: String,
    pub auto_upload: bool,
    pub show_file_list: bool,
    pub pin_required: bool,
    pub pin_length: usize,
    pub max_file_size: u64,
    pub client_max_retries: u32,
    pub enable_translation: bool,
    pub enable_themes: bool,
    pub enable_print: bool,
    pub show_version: bool,
    pub show_github: bool,
}

/// The length of the PIN in UTF-8 bytes, or 0 without one.
pub open spec fn pin_byte_len(pin: Option<String>) -> usize {
    match pin {
        Some(p) => vstd::utf8::encode_utf8(p@).len() as usize,
        None => 0,
    }
}

fn pin_len(pin: &Option<String>) -> (r: usize)
    ensures r == pin_byte_len(*pin),
{
    match pin {
        Some(p) => p.as_str().len(),
        None => 0,
    }
}

/// The client's view of the configuration.
pub fn frontend_config(c: &AppConfig) -> (r: FrontendConfig)
    ensures
        r.site_title@ == c.site_title@,
        r.auto_upload == c.auto_upload,
        r.show_file_list == c.show_file_list,
        r.pin_required == c.pin is Some,
        r.pin_length == pin_byte_len(c.pin),
        r.max_file_size == c.max_file_size,
        r.client_max_retries == c.client_max_retries,
        r.enable_translation == c.enable_translation,
        r.enable_themes == c.enable_themes,
        r.enable_print == c.enable_print,
        r.show_version == c.show_version,
        r.show_github == c.show_github,
{
    FrontendConfig {
        site_title: c.site_title.clone(),
        auto_upload: c.auto_upload,
        show_file_list: c.show_file_list,
        pin_required: c.pin.is_some(),
        pin_length: pin_len(&c.pin),
        max_file_size: c.max_file_size,
        client_max_retries: c.client_max_retries,
        enable_translation: c.enable_translation,
        enable_themes: c.enable_themes,
        enable_print: c.enable_print,
        show_version: c.show_version,
        show_github: c.show_github,
    }
}

/// What the `/pin-required` endpoint reports.
pub struct PinRequirement {
    pub required: bool,
    pub length: usize,
    pub enable_translation: bool,
    pub enable_themes: bool,
    pub enable_print: bool,
}

/// Whether a PIN is required, its length, and the display flags.
pub fn pin_requirement(c: &AppConfig) -> (r: PinRequirement)
    ensures
        r.required == c.pin is Some,
        r.length == pin_byte_len(c.pin),
        r.enable_translation == c.enable_translation,
        r.enable_themes == c.enable_themes,
        r.enable_print == c.enable_print,
{
    PinRequirement {
        required: c.pin.is_some(),
        length: pin_len(&c.pin),
        enable_translation: c.enable_translation,
        enable_themes: c.enable_themes,
        enable_print: c.enable_print,
    }
}

} // verus!
