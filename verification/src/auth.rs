//! PIN authentication: the constant-time comparison, the set of live
//! sessions, access checks on protected routes, and the verdict of a PIN
//! verification request.

use vstd::prelude::*;
use crate::lockout::{LockoutTable, Attempt, locked_in, after_lock_check, recorded, remaining_secs};
use crate::table::StrMap;
use crate::text::{trim_ws, trim_whitespace, decimal, u64_to_decimal, eq_ignore_ascii_case_spec, eq_ignore_ascii_case, starts_with_spec, starts_with};

verus! {

/// `constant_time_eq::constant_time_eq`: whether two byte slices are equal,
/// compared without early exit. Its source checks the lengths and then ORs the
/// XOR of every pair of bytes.
#[verifier::external_body]
fn bytes_equal_ct(a: &[u8], b: &[u8]) -> (r: bool)
    ensures r == (a@ == b@),
{
    constant_time_eq::constant_time_eq(a, b)
}

/// Compares two strings in time that does not depend on where they differ.
pub fn safe_compare(a: &str, b: &str) -> (r: bool)
    ensures r == (a@ == b@),
{
    let r = bytes_equal_ct(a.as_bytes(), b.as_bytes());
    proof {
        vstd::utf8::encode_utf8_decode_utf8(a@);
        vstd::utf8::encode_utf8_decode_utf8(b@);
    }
    r
}

/// The session ids handed out after a successful PIN verification.
pub struct SessionSet {
    ids: StrMap<()>,
}

impl View for SessionSet {
    type V = Set<Seq<char>>;

    closed spec fn view(&self) -> Set<Seq<char>> {
        self.ids@.dom()
    }
}

impl SessionSet {
    /// No sessions.
    pub fn new() -> (r: Self)
        ensures r@ == Set::<Seq<char>>::empty(),
    {
        let r = SessionSet { ids: StrMap::new() };
        assert(r@ =~= Set::<Seq<char>>::empty());
        r
    }

    /// Starts the session `id`.
    pub fn insert(&mut self, id: String)
        ensures final(self)@ == old(self)@.insert(id@),
    {
        self.ids.insert(id, ());
        assert(self@ =~= old(self)@.insert(id@));
    }

    /// Ends the session `id`.
    pub fn remove(&mut self, id: &str)
        ensures final(self)@ == old(self)@.remove(id@),
    {
        self.ids.remove(id);
        assert(self@ =~= old(self)@.remove(id@));
    }

    /// `id` is a live session.
    pub fn contains(&self, id: &str) -> (r: bool)
        ensures r == self@.contains(id@),
    {
        self.ids.contains_key(id)
    }
}

/// The view of an optional string.
pub open spec fn opt_view(o: Option<&str>) -> Option<Seq<char>> {
    match o {
        Some(s) => Some(s@),
        None => None,
    }
}

/// Proof that a request may use a PIN-protected route.
pub struct RequirePin;

/// A request may use a protected route: no PIN is configured; or it carries the
/// session cookie of a live session; or it carries no cookie and an `x-pin`
/// header equal to the PIN.
pub open spec fn pin_access(pin: Option<Seq<char>>, cookie: Option<Seq<char>>, header: Option<Seq<char>>, sessions: Set<Seq<char>>) -> bool {
    match pin {
        None => true,
        Some(p) => match cookie {
            Some(c) => sessions.contains(c),
            None => match header {
                Some(h) => h == p,
                None => false,
            },
        },
    }
}

/// The answer to a request refused for want of a valid PIN.
pub open spec fn unauthorized_message() -> Seq<char> {
    "Unauthorized: Invalid or missing PIN"@
}

/// Admits a request to a protected route, or refuses it with the error that
/// the 401 answer carries.
pub fn require_pin(pin: Option<&str>, cookie: Option<&str>, header: Option<&str>, sessions: &SessionSet) -> (r: Result<RequirePin, String>)
    ensures
        r is Ok <==> pin_access(opt_view(pin), opt_view(cookie), opt_view(header), sessions@),
        r matches Err(e) ==> e@ == unauthorized_message(),
{
    let authenticated = match pin {
        None => true,
        Some(p) => match cookie {
            Some(c) => sessions.contains(c),
            None => match header {
                Some(h) => safe_compare(h, p),
                None => false,
            },
        },
    };
    if authenticated {
        Ok(RequirePin)
    } else {
        Err(String::from_str("Unauthorized: Invalid or missing PIN"))
    }
}

/// The body of a PIN verification request.
pub struct VerifyPinPayload {
    pub pin: Option<String>,
}

/// The answer to a PIN verification request.
pub struct VerifyPinResponse {
    pub success: bool,
    pub error: Option<String>,
    pub path: Option<String>,
}

/// What a PIN verification request comes to.
#[derive(Clone, Copy, Debug, PartialEq, Eq, Structural)]
pub enum PinVerdict {
    /// No PIN is configured: the session cookie is cleared and the client
    /// is sent to `/`.
    NoPinConfigured,
    /// The request carried no PIN, or only white space.
    PinMissing,
    /// The client is locked out; the lockout ends in about this many minutes.
    LockedOut { minutes_left: u64 },
    /// The PIN is right: a new session starts.
    Accepted,
    /// The PIN is wrong; this many attempts are left before a lockout.
    Rejected { attempts_left: u32 },
}

/// The PIN a request submitted, trimmed; none counts as empty.
pub open spec fn submitted_pin(pin: Option<Seq<char>>) -> Seq<char> {
    match pin {
        Some(p) => trim_ws(p),
        None => Seq::empty(),
    }
}

/// Minutes, rounded up, in `secs` seconds.
pub open spec fn minutes_up(secs: u64) -> u64 {
    ((secs + 59) / 60) as u64
}

/// The verdict on a PIN verification by `ip` at `now`, with the lockout table
/// `m` before the request.
pub open spec fn pin_verdict(pin: Option<Seq<char>>, submitted: Option<Seq<char>>, m: Map<Seq<char>, Attempt>, ip: Seq<char>, now: u64, max: u32) -> PinVerdict {
    match pin {
        None => PinVerdict::NoPinConfigured,
        Some(p) => {
            let s = submitted_pin(submitted);
            if s.len() == 0 {
                PinVerdict::PinMissing
            } else if locked_in(m, ip, now, max) {
                let m1 = m.insert(ip, recorded(m, ip, now));
                PinVerdict::LockedOut { minutes_left: minutes_up(remaining_secs(m1, ip, now, max)) }
            } else if s == p {
                PinVerdict::Accepted
            } else {
                let m0 = after_lock_check(m, ip, now, max);
                let count = recorded(m0, ip, now).count;
                PinVerdict::Rejected {
                    attempts_left: (if count <= max { max - count } else { 0 }) as u32,
                }
            }
        },
    }
}

/// The lockout table after a PIN verification by `ip` at `now`: a locked-out
/// client and a wrong PIN each count one more failure, a right PIN clears the
/// client's record.
pub open spec fn table_after_verify(pin: Option<Seq<char>>, submitted: Option<Seq<char>>, m: Map<Seq<char>, Attempt>, ip: Seq<char>, now: u64, max: u32) -> Map<Seq<char>, Attempt> {
    match pin {
        None => m,
        Some(p) => {
            let s = submitted_pin(submitted);
            if s.len() == 0 {
                m
            } else if locked_in(m, ip, now, max) {
                m.insert(ip, recorded(m, ip, now))
            } else {
                let m0 = after_lock_check(m, ip, now, max);
                if s == p { m0.remove(ip) } else { m0.insert(ip, recorded(m0, ip, now)) }
            }
        },
    }
}

/// Decides a PIN verification request from `ip` at `now` and updates the
/// lockout table; `max_attempts` failures lock a client out.
pub fn verify_pin(pin: Option<&str>, submitted: Option<&str>, ip: &str, now: u64, max_attempts: u32, table: &mut LockoutTable) -> (r: PinVerdict)
    requires
        old(table)@.contains_key(ip@) ==> old(table)@[ip@].count < u32::MAX,
    ensures
        r == pin_verdict(opt_view(pin), opt_view(submitted), old(table)@, ip@, now, max_attempts),
        final(table)@ == table_after_verify(opt_view(pin), opt_view(submitted), old(table)@, ip@, now, max_attempts),
{
    let p = match pin {
        None => return PinVerdict::NoPinConfigured,
        Some(p) => p,
    };
    let s = match submitted {
        Some(x) => trim_whitespace(x),
        None => String::new(),
    };
    if s.as_str().unicode_len() == 0 {
        return PinVerdict::PinMissing;
    }
    if table.is_locked_out(ip, now, max_attempts) {
        let _ = table.record_attempt(ip, now);
        let left = table.get_lockout_time_remaining(ip, now, max_attempts);
        return PinVerdict::LockedOut { minutes_left: (left + 59) / 60 };
    }
    if safe_compare(s.as_str(), p) {
        table.reset_attempts(ip);
        PinVerdict::Accepted
    } else {
        let a = table.record_attempt(ip, now);
        let left = if a.count <= max_attempts { max_attempts - a.count } else { 0 };
        PinVerdict::Rejected { attempts_left: left }
    }
}

/// The HTTP status of a verdict's answer.
pub open spec fn verdict_status(v: PinVerdict) -> u16 {
    match v {
        PinVerdict::NoPinConfigured => 200,
        PinVerdict::PinMissing => 400,
        PinVerdict::LockedOut { .. } => 429,
        PinVerdict::Accepted => 200,
        PinVerdict::Rejected { .. } => 401,
    }
}

/// The error text of a verdict's answer.
pub open spec fn verdict_error(v: PinVerdict) -> Option<Seq<char>> {
    match v {
        PinVerdict::NoPinConfigured => None,
        PinVerdict::PinMissing => Some("PIN is required."@),
        PinVerdict::LockedOut { minutes_left } => Some(
            "Too many PIN verification attempts. Please try again in "@ + decimal(minutes_left as nat) + " minutes."@,
        ),
        PinVerdict::Accepted => None,
        PinVerdict::Rejected { attempts_left } => if attempts_left > 0 {
            Some("Invalid PIN. "@ + decimal(attempts_left as nat) + " attempts remaining."@)
        } else {
            Some("Too many PIN verification attempts. Account locked for 15 minutes."@)
        },
    }
}

/// The view of an optional owned string.
pub open spec fn opt_string_view(o: Option<String>) -> Option<Seq<char>> {
    match o {
        Some(s) => Some(s@),
        None => None,
    }
}

/// The HTTP status and body that answer a verdict.
pub fn verdict_response(v: PinVerdict) -> (r: (u16, VerifyPinResponse))
    ensures
        r.0 == verdict_status(v),
        r.1.success == (v == PinVerdict::NoPinConfigured || v == PinVerdict::Accepted),
        opt_string_view(r.1.error) == verdict_error(v),
        opt_string_view(r.1.path) == (if v == PinVerdict::NoPinConfigured { Some("/"@) } else { None::<Seq<char>> }),
{
    match v {
        PinVerdict::NoPinConfigured => (200, VerifyPinResponse { success: true, error: None, path: Some(String::from_str("/")) }),
        PinVerdict::PinMissing => (400, VerifyPinResponse { success: false, error: Some(String::from_str("PIN is required.")), path: None }),
        PinVerdict::LockedOut { minutes_left } => {
            let mut e = String::from_str("Too many PIN verification attempts. Please try again in ");
            let n = u64_to_decimal(minutes_left);
            e.append(n.as_str());
            e.append(" minutes.");
            (429, VerifyPinResponse { success: false, error: Some(e), path: None })
        },
        PinVerdict::Accepted => (200, VerifyPinResponse { success: true, error: None, path: None }),
        PinVerdict::Rejected { attempts_left } => {
            if attempts_left > 0 {
                let mut e = String::from_str("Invalid PIN. ");
                let n = u64_to_decimal(attempts_left as u64);
                e.append(n.as_str());
                e.append(" attempts remaining.");
                (401, VerifyPinResponse { success: false, error: Some(e), path: None })
            } else {
                (401, VerifyPinResponse {
                    success: false,
                    error: Some(String::from_str("Too many PIN verification attempts. Account locked for 15 minutes.")),
                    path: None,
                })
            }
        },
    }
}

/// The session cookie is marked secure: the `x-forwarded-proto` header, when
/// present, says `https` in any case; otherwise the base URL starts with
/// `https`.
pub open spec fn cookie_secure_spec(forwarded_proto: Option<Seq<char>>, base_url: Seq<char>) -> bool {
    match forwarded_proto {
        Some(v) => eq_ignore_ascii_case_spec(v, "https"@),
        None => starts_with_spec(base_url, "https"@),
    }
}

/// Whether the session cookie gets the `Secure` attribute.
pub fn cookie_is_secure(forwarded_proto: Option<&str>, base_url: &str) -> (r: bool)
    ensures r == cookie_secure_spec(opt_view(forwarded_proto), base_url@),
{
    match forwarded_proto {
        Some(v) => eq_ignore_ascii_case(v, "https"),
        None => starts_with(base_url, "https"),
    }
}

/// Without a configured PIN every request is admitted.
pub proof fn law_no_pin_admits_all(cookie: Option<Seq<char>>, header: Option<Seq<char>>, sessions: Set<Seq<char>>)
    ensures pin_access(None, cookie, header, sessions),
{
}

/// A client that is locked out is refused even the right PIN, and its lockout
/// is not lifted by trying.
pub proof fn law_locked_out_refused(p: Seq<char>, submitted: Seq<char>, m: Map<Seq<char>, Attempt>, ip: Seq<char>, now: u64, max: u32)
    requires
        locked_in(m, ip, now, max),
        m[ip].count < u32::MAX,
        trim_ws(submitted).len() > 0,
    ensures
        pin_verdict(Some(p), Some(submitted), m, ip, now, max) is LockedOut,
        locked_in(table_after_verify(Some(p), Some(submitted), m, ip, now, max), ip, now, max),
{
}

/// The right PIN from a client that is not locked out is accepted and clears
/// its failed attempts.
pub proof fn law_right_pin_accepted(p: Seq<char>, submitted: Seq<char>, m: Map<Seq<char>, Attempt>, ip: Seq<char>, now: u64, max: u32)
    requires
        !locked_in(m, ip, now, max),
        trim_ws(submitted) == p,
        p.len() > 0,
    ensures
        pin_verdict(Some(p), Some(submitted), m, ip, now, max) == PinVerdict::Accepted,
        !table_after_verify(Some(p), Some(submitted), m, ip, now, max).contains_key(ip),
{
}

/// A wrong PIN counts one more failure against the client, and the answer
/// says how many attempts are left.
pub proof fn law_wrong_pin_counted(p: Seq<char>, submitted: Seq<char>, m: Map<Seq<char>, Attempt>, ip: Seq<char>, now: u64, max: u32)
    requires
        !locked_in(m, ip, now, max),
        trim_ws(submitted).len() > 0,
        trim_ws(submitted) != p,
        m.contains_key(ip) ==> m[ip].count < u32::MAX,
    ensures
        ({
            let m2 = table_after_verify(Some(p), Some(submitted), m, ip, now, max);
            let before = if after_lock_check(m, ip, now, max).contains_key(ip) { after_lock_check(m, ip, now, max)[ip].count as int } else { 0 };
            &&& m2.contains_key(ip)
            &&& m2[ip].count == before + 1
            &&& pin_verdict(Some(p), Some(submitted), m, ip, now, max) == (PinVerdict::Rejected {
                attempts_left: (if m2[ip].count <= max { max - m2[ip].count } else { 0 }) as u32,
            })
        }),
{
}

} // verus!
