//! Character classes and conversions between `String` and character vectors.

use vstd::prelude::*;

verus! {

/// `c` is an ASCII decimal digit.
pub open spec fn is_ascii_digit_spec(c: char) -> bool {
    '0' <= c && c <= '9'
}

/// `c` is an ASCII lowercase letter.
pub open spec fn is_ascii_lower_spec(c: char) -> bool {
    'a' <= c && c <= 'z'
}

/// `c` is an ASCII uppercase letter.
pub open spec fn is_ascii_upper_spec(c: char) -> bool {
    'A' <= c && c <= 'Z'
}

pub fn is_ascii_digit(c: char) -> (r: bool)
    ensures r == is_ascii_digit_spec(c),
{
    '0' <= c && c <= '9'
}

pub fn is_ascii_lower(c: char) -> (r: bool)
    ensures r == is_ascii_lower_spec(c),
{
    'a' <= c && c <= 'z'
}

/// Builds a `String` whose characters are those of `v`, in order.
#[verifier::external_body]
pub(crate) fn string_from_chars(v: &Vec<char>) -> (s: String)
    ensures s@ == v@,
{
    v.iter().collect()
}

/// The characters of `s`, in order.
pub fn chars_of(s: &str) -> (v: Vec<char>)
    ensures v@ == s@,
{
    let mut v: Vec<char> = Vec::new();
    let n = s.unicode_len();
    let mut i: usize = 0;
    while i < n
        invariant
            n == s@.len(),
            i <= n,
            v@ == s@.subrange(0, i as int),
        decreases n - i,
    {
        let c = s.get_char(i);
        v.push(c);
        i = i + 1;
    }
    v
}

} // verus!

verus! {

/// What `char::is_alphanumeric` returns for a character outside ASCII.
pub uninterp spec fn spec_is_alphanumeric(c: char) -> bool;


/// What `str::to_lowercase` returns.
pub uninterp spec fn spec_to_lowercase(s: Seq<char>) -> Seq<char>;

/// What `str::to_uppercase` returns.
pub uninterp spec fn spec_to_uppercase(s: Seq<char>) -> Seq<char>;

/// `c` lies in the ASCII range.
pub open spec fn is_ascii_char(c: char) -> bool {
    (c as u32) < 128
}

/// `char::is_alphanumeric`: in ASCII exactly the letters and digits, beyond it
/// the Unicode Alphabetic and Numeric properties.
pub open spec fn is_alphanumeric_spec(c: char) -> bool {
    if is_ascii_char(c) {
        is_ascii_digit_spec(c) || is_ascii_lower_spec(c) || is_ascii_upper_spec(c)
    } else {
        spec_is_alphanumeric(c)
    }
}

/// `char::is_whitespace`: the Unicode White_Space property. In ASCII that is
/// space, tab, line feed, vertical tab, form feed and carriage return; beyond
/// it U+0085, U+00A0, U+1680, U+2000 to U+200A, U+2028, U+2029, U+202F, U+205F
/// and U+3000.
pub open spec fn is_whitespace_spec(c: char) -> bool {
    let u = c as u32;
    ||| c == ' ' || ('\t' <= c && c <= '\r')
    ||| u == 0x85 || u == 0xa0 || u == 0x1680
    ||| (0x2000 <= u && u <= 0x200a)
    ||| u == 0x2028 || u == 0x2029 || u == 0x202f || u == 0x205f || u == 0x3000
}

/// `char::is_alphanumeric` on a character outside ASCII. The result follows the
/// Unicode character tables, which this contract does not restate.
#[verifier::external_body]
fn non_ascii_is_alphanumeric(c: char) -> (r: bool)
    requires !is_ascii_char(c),
    ensures r == spec_is_alphanumeric(c),
{
    c.is_alphanumeric()
}

/// `c` with an ASCII lowercase letter turned into uppercase.
pub open spec fn ascii_upper(c: char) -> char {
    if is_ascii_lower_spec(c) { ((c as u32) - 32) as char } else { c }
}

/// Every character of `s` lies in the ASCII range.
pub open spec fn all_ascii(s: Seq<char>) -> bool {
    forall|i: int| 0 <= i < s.len() ==> is_ascii_char(#[trigger] s[i])
}

/// `str::to_lowercase`: the Unicode lowercase mapping, which this contract names
/// without restating it beyond ASCII. On ASCII text the Unicode mapping turns
/// `A`-`Z` into `a`-`z` and keeps every other character.
#[verifier::external_body]
pub(crate) fn to_lowercase(s: &str) -> (r: String)
    ensures
        r@ == spec_to_lowercase(s@),
        all_ascii(s@) ==> r@ == s@.map_values(|c: char| ascii_lower(c)),
{
    s.to_lowercase()
}

/// `str::to_uppercase`: the Unicode uppercase mapping, which this contract names
/// without restating it beyond ASCII. On ASCII text the Unicode mapping turns
/// `a`-`z` into `A`-`Z` and keeps every other character.
#[verifier::external_body]
pub(crate) fn to_uppercase(s: &str) -> (r: String)
    ensures
        r@ == spec_to_uppercase(s@),
        all_ascii(s@) ==> r@ == s@.map_values(|c: char| ascii_upper(c)),
{
    s.to_uppercase()
}

pub fn is_ascii_upper(c: char) -> (r: bool)
    ensures r == is_ascii_upper_spec(c),
{
    'A' <= c && c <= 'Z'
}

pub fn is_ascii(c: char) -> (r: bool)
    ensures r == is_ascii_char(c),
{
    (c as u32) < 128
}

/// Whether `c` is alphanumeric, as `char::is_alphanumeric` says.
pub fn is_alphanumeric(c: char) -> (r: bool)
    ensures r == is_alphanumeric_spec(c),
{
    if is_ascii(c) {
        is_ascii_digit(c) || is_ascii_lower(c) || is_ascii_upper(c)
    } else {
        non_ascii_is_alphanumeric(c)
    }
}

/// Whether `c` is white space, as `char::is_whitespace` says.
pub fn is_whitespace(c: char) -> (r: bool)
    ensures r == is_whitespace_spec(c),
{
    let u = c as u32;
    c == ' ' || ('\t' <= c && c <= '\r')
        || u == 0x85 || u == 0xa0 || u == 0x1680
        || (0x2000 <= u && u <= 0x200a)
        || u == 0x2028 || u == 0x2029 || u == 0x202f || u == 0x205f || u == 0x3000
}

} // verus!

verus! {

/// The predicate `char::is_whitespace`, as a closure.
pub open spec fn ws_pred() -> spec_fn(char) -> bool {
    |c: char| is_whitespace_spec(c)
}

/// `str::trim`: `s` without leading and trailing white space.
pub open spec fn trim_ws(s: Seq<char>) -> Seq<char> {
    crate::seqs::trim_by(s, ws_pred())
}

/// Removes leading and trailing white space, as `str::trim` does.
pub fn trim_whitespace(s: &str) -> (r: String)
    ensures r@ == trim_ws(s@),
{
    let v = chars_of(s);
    let n = v.len();
    let mut a: usize = 0;
    while a < n && is_whitespace(v[a])
        invariant
            n == v@.len(),
            a <= n,
            crate::seqs::lead_end(v@, ws_pred(), 0) == crate::seqs::lead_end(v@, ws_pred(), a as nat),
        decreases n - a,
    {
        a = a + 1;
    }
    let mut b: usize = n;
    while b > a && is_whitespace(v[b - 1])
        invariant
            n == v@.len(),
            a <= b <= n,
            crate::seqs::lead_end(v@, ws_pred(), 0) == a,
            crate::seqs::trail_start(v@, ws_pred(), a as nat, n as nat)
                == crate::seqs::trail_start(v@, ws_pred(), a as nat, b as nat),
        decreases b,
    {
        b = b - 1;
    }
    string_from_chars(&crate::seqs::slice_chars(&v, a, b))
}

/// `c` with an ASCII uppercase letter turned into lowercase.
pub open spec fn ascii_lower(c: char) -> char {
    if is_ascii_upper_spec(c) { ((c as u32) + 32) as char } else { c }
}

/// `a` and `b` are equal when ASCII letters are compared without case.
pub open spec fn eq_ignore_ascii_case_spec(a: Seq<char>, b: Seq<char>) -> bool {
    a.len() == b.len() && forall|i: int| 0 <= i < a.len() ==> ascii_lower(#[trigger] a[i]) == ascii_lower(b[i])
}

pub fn ascii_lower_char(c: char) -> (r: char)
    ensures r == ascii_lower(c),
{
    if 'A' <= c && c <= 'Z' {
        let u = (c as u8) + 32;
        u as char
    } else {
        c
    }
}

/// `str::eq_ignore_ascii_case`.
pub fn eq_ignore_ascii_case(a: &str, b: &str) -> (r: bool)
    ensures r == eq_ignore_ascii_case_spec(a@, b@),
{
    let n = a.unicode_len();
    if n != b.unicode_len() {
        return false;
    }
    let mut i: usize = 0;
    while i < n
        invariant
            n == a@.len(),
            n == b@.len(),
            i <= n,
            forall|k: int| 0 <= k < i ==> ascii_lower(#[trigger] a@[k]) == ascii_lower(b@[k]),
        decreases n - i,
    {
        if ascii_lower_char(a.get_char(i)) != ascii_lower_char(b.get_char(i)) {
            return false;
        }
        i = i + 1;
    }
    true
}

/// `s` begins with `p`.
pub open spec fn starts_with_spec(s: Seq<char>, p: Seq<char>) -> bool {
    p.len() <= s.len() && s.subrange(0, p.len() as int) == p
}

/// `str::starts_with` for a string pattern.
pub fn starts_with(s: &str, p: &str) -> (r: bool)
    ensures r == starts_with_spec(s@, p@),
{
    let n = p.unicode_len();
    if n > s.unicode_len() {
        return false;
    }
    let mut i: usize = 0;
    while i < n
        invariant
            n == p@.len(),
            n <= s@.len(),
            i <= n,
            forall|k: int| 0 <= k < i ==> s@[k] == p@[k],
        decreases n - i,
    {
        if s.get_char(i) != p.get_char(i) {
            return false;
        }
        i = i + 1;
    }
    assert(s@.subrange(0, n as int) =~= p@);
    true
}

/// The digit character for `d < 16`, with lowercase letters past 9.
pub open spec fn digit_char(d: nat) -> char {
    if d < 10 { ((d + 48) as u32) as char } else { ((d + 87) as u32) as char }
}

/// The decimal numeral of `n`, without leading zeros.
pub open spec fn decimal(n: nat) -> Seq<char>
    decreases n,
{
    if n < 10 { seq![digit_char(n)] } else { decimal(n / 10).push(digit_char(n % 10)) }
}

/// The lowercase hexadecimal numeral of `n`, without leading zeros.
pub open spec fn hex(n: nat) -> Seq<char>
    decreases n,
{
    if n < 16 { seq![digit_char(n)] } else { hex(n / 16).push(digit_char(n % 16)) }
}

fn digit(d: u32) -> (r: char)
    requires d < 16,
    ensures r == digit_char(d as nat),
{
    let u: u8 = if d < 10 { (d + 48) as u8 } else { (d + 87) as u8 };
    u as char
}

/// The decimal numeral of `n`, as `format!("{}", n)` writes it.
pub fn u64_to_decimal(n: u64) -> (r: String)
    ensures r@ == decimal(n as nat),
{
    let mut acc: Vec<char> = Vec::new();
    let mut cur = n;
    while cur >= 10
        invariant decimal(n as nat) == decimal(cur as nat) + acc@,
        decreases cur,
    {
        let d = digit((cur % 10) as u32);
        let ghost before = acc@;
        acc.insert(0, d);
        assert(decimal(cur as nat) == decimal((cur / 10) as nat).push(d));
        assert(decimal(cur as nat) + before =~= decimal((cur / 10) as nat) + acc@);
        cur = cur / 10;
    }
    let mut out: Vec<char> = Vec::new();
    out.push(digit(cur as u32));
    crate::seqs::push_chars(&mut out, &acc);
    assert(out@ =~= decimal(cur as nat) + acc@);
    string_from_chars(&out)
}

/// The lowercase hexadecimal numeral of `n`, as `format!("{:x}", n)` writes it.
pub fn u128_to_hex(n: u128) -> (r: String)
    ensures r@ == hex(n as nat),
{
    let mut acc: Vec<char> = Vec::new();
    let mut cur = n;
    while cur >= 16
        invariant hex(n as nat) == hex(cur as nat) + acc@,
        decreases cur,
    {
        let d = digit((cur % 16) as u32);
        let ghost before = acc@;
        acc.insert(0, d);
        assert(hex(cur as nat) == hex((cur / 16) as nat).push(d));
        assert(hex(cur as nat) + before =~= hex((cur / 16) as nat) + acc@);
        cur = cur / 16;
    }
    let mut out: Vec<char> = Vec::new();
    out.push(digit(cur as u32));
    crate::seqs::push_chars(&mut out, &acc);
    assert(out@ =~= hex(cur as nat) + acc@);
    string_from_chars(&out)
}

/// The two lowercase hexadecimal digits of a byte, as `format!("{:02x}", b)`
/// writes them.
pub open spec fn hex_byte(b: u8) -> Seq<char> {
    seq![digit_char((b / 16) as nat), digit_char((b % 16) as nat)]
}

/// Every byte of `bytes` as two lowercase hexadecimal digits.
pub open spec fn hex_bytes(bytes: Seq<u8>) -> Seq<char>
    decreases bytes.len(),
{
    if bytes.len() == 0 { Seq::empty() } else { hex_bytes(bytes.drop_last()) + hex_byte(bytes.last()) }
}

/// Writes every byte as two lowercase hexadecimal digits.
pub fn hex_encode(bytes: &[u8]) -> (r: String)
    ensures r@ == hex_bytes(bytes@),
{
    let mut out: Vec<char> = Vec::new();
    let n = bytes.len();
    let mut i: usize = 0;
    while i < n
        invariant
            n == bytes@.len(),
            i <= n,
            out@ == hex_bytes(bytes@.take(i as int)),
        decreases n - i,
    {
        let b = bytes[i];
        out.push(digit((b / 16) as u32));
        out.push(digit((b % 16) as u32));
        assert(bytes@.take(i + 1).drop_last() =~= bytes@.take(i as int));
        assert(out@ =~= hex_bytes(bytes@.take(i + 1)));
        i = i + 1;
    }
    assert(bytes@.take(n as int) =~= bytes@);
    string_from_chars(&out)
}

} // verus!
