//! Human-readable byte sizes: a byte count as the nearest double, scaled to
//! B, KB, MB, GB or TB by powers of 1024 and written with two decimals,
//! carried out exactly on integers.

use vstd::prelude::*;
use crate::text::{decimal, digit_char, spec_to_uppercase, to_uppercase, string_from_chars, chars_of};
use crate::seqs::{chars_equal_str, push_chars};

verus! {

/// Two to the power `e`.
pub open spec fn p2(e: nat) -> nat
    decreases e,
{
    if e == 0 { 1 } else { 2 * p2((e - 1) as nat) }
}

/// The number of binary digits of `b`.
pub open spec fn bit_len(b: nat) -> nat
    decreases b,
{
    if b == 0 { 0 } else { 1 + bit_len(b / 2) }
}

/// The double nearest to `b`, ties to an even significand: `b` itself below
/// 2^53, otherwise `b` rounded to its 53 leading binary digits.
pub open spec fn nearest_f64(b: nat) -> nat {
    if b < p2(53) {
        b
    } else {
        let s = (bit_len(b) - 53) as nat;
        let m = b / p2(s);
        let r = b % p2(s);
        let half = p2((s - 1) as nat);
        let m2 = if r > half || (r == half && m % 2 == 1) { m + 1 } else { m };
        m2 * p2(s)
    }
}

/// `num / den` rounded to the nearest integer, ties to even.
pub open spec fn div_round_even(num: nat, den: nat) -> nat {
    let q = num / den;
    let r = num % den;
    if 2 * r > den || (2 * r == den && q % 2 == 1) { q + 1 } else { q }
}

/// `n / den` written with two decimals, rounded to the nearest hundredth with
/// ties to even, as `{:.2}` writes an exact value.
pub open spec fn fixed2(n: nat, den: nat) -> Seq<char> {
    let q = div_round_even(n * 100, den);
    decimal(q / 100) + seq!['.', digit_char((q / 10) % 10), digit_char(q % 10)]
}

/// The unit names, by power of 1024.
pub open spec fn unit_name(i: nat) -> Seq<char> {
    if i == 0 { "B"@ } else if i == 1 { "KB"@ } else if i == 2 { "MB"@ } else if i == 3 { "GB"@ } else { "TB"@ }
}

/// The position of a unit name in `B, KB, MB, GB, TB`.
pub open spec fn unit_index(u: Seq<char>) -> Option<nat> {
    if u == "B"@ { Some(0) } else if u == "KB"@ { Some(1) } else if u == "MB"@ { Some(2) }
    else if u == "GB"@ { Some(3) } else if u == "TB"@ { Some(4) } else { None }
}

/// The largest unit, up to TB, of which the value holds at least one.
pub open spec fn auto_unit(n: nat) -> nat {
    if n >= p2(40) { 4 } else if n >= p2(30) { 3 } else if n >= p2(20) { 2 } else if n >= p2(10) { 1 } else { 0 }
}

/// The text of a size: in the requested unit when it names one (in any case),
/// otherwise in the largest unit of which the size holds at least one.
pub open spec fn format_size_spec(bytes: u64, unit: Option<Seq<char>>) -> Seq<char> {
    let n = nearest_f64(bytes as nat);
    let requested = match unit {
        Some(u) => unit_index(spec_to_uppercase(u)),
        None => None,
    };
    match requested {
        Some(i) => fixed2(n, p2(10 * i)) + unit_name(i),
        None => fixed2(n, p2(10 * auto_unit(n))) + unit_name(auto_unit(n)),
    }
}

proof fn lemma_p2_values()
    ensures
        p2(10) == 1024,
        p2(20) == 1048576,
        p2(30) == 1073741824,
        p2(40) == 1099511627776,
        p2(53) == 9007199254740992,
        p2(64) == 18446744073709551616,
{
    reveal_with_fuel(p2, 65);
}

proof fn lemma_p2_pos(e: nat)
    ensures p2(e) >= 1,
    decreases e,
{
    if e > 0 { lemma_p2_pos((e - 1) as nat); }
}

proof fn lemma_p2_add(a: nat, b: nat)
    ensures p2(a + b) == p2(a) * p2(b),
    decreases a,
{
    if a > 0 {
        lemma_p2_add((a - 1) as nat, b);
        let x = p2((a - 1) as nat);
        let y = p2(b);
        assert(p2(a + b) == 2 * p2((a - 1 + b) as nat));
        assert(p2((a - 1 + b) as nat) == x * y);
        assert(p2(a) == 2 * x);
        assert(2 * (x * y) == (2 * x) * y) by (nonlinear_arith);
        assert(p2(a) * p2(b) == (2 * x) * y);
        assert(p2(a + b) == 2 * (x * y));
    } else {
        assert(p2(a) == 1);
        assert(a + b == b);
    }
}

proof fn lemma_bit_len_bounds(b: nat)
    ensures
        b < p2(bit_len(b)),
        b > 0 ==> p2((bit_len(b) - 1) as nat) <= b,
    decreases b,
{
    if b > 0 {
        lemma_bit_len_bounds(b / 2);
    }
}

proof fn lemma_bit_len_mono(a: nat, b: nat)
    requires a <= b,
    ensures bit_len(a) <= bit_len(b),
    decreases b,
{
    if a > 0 {
        lemma_bit_len_mono(a / 2, b / 2);
    }
}

fn p2_exec(e: u32) -> (r: u128)
    requires e <= 64,
    ensures r == p2(e as nat),
{
    let mut r: u128 = 1;
    let mut i: u32 = 0;
    while i < e
        invariant
            i <= e <= 64,
            r == p2(i as nat),
        decreases e - i,
    {
        proof { lemma_p2_le(i as nat, 64); lemma_p2_values(); }
        r = r * 2;
        i = i + 1;
    }
    r
}

proof fn lemma_p2_le(a: nat, b: nat)
    requires a <= b,
    ensures p2(a) <= p2(b),
    decreases b,
{
    if b > a {
        lemma_p2_le(a, (b - 1) as nat);
    }
}

fn bit_len_exec(b: u64) -> (r: u32)
    ensures r == bit_len(b as nat), r <= 64,
{
    let mut x = b;
    let mut n: u32 = 0;
    proof { lemma_bit_len_bounds(b as nat); lemma_p2_values(); lemma_bit_len_le_64(b as nat); }
    while x > 0
        invariant
            bit_len(b as nat) == n + bit_len(x as nat),
            bit_len(b as nat) <= 64,
        decreases x,
    {
        x = x / 2;
        n = n + 1;
    }
    n
}

proof fn lemma_bit_len_le_64(b: nat)
    requires b < p2(64),
    ensures bit_len(b) <= 64,
{
    lemma_bit_len_bounds(b);
    if bit_len(b) > 64 {
        lemma_p2_le(64, (bit_len(b) - 1) as nat);
    }
}

/// The double nearest to `b`, as a whole number.
fn nearest_f64_exec(b: u64) -> (r: u128)
    ensures r == nearest_f64(b as nat), r <= p2(64),
{
    proof { lemma_p2_values(); }
    if (b as u128) < 9007199254740992u128 {
        return b as u128;
    }
    let bl = bit_len_exec(b);
    proof {
        lemma_bit_len_bounds(b as nat);
        if bl < 54 {
            lemma_p2_le(bl as nat, 53);
        }
    }
    let s = bl - 53;
    let p = p2_exec(s);
    let half = p2_exec(s - 1);
    proof {
        lemma_p2_pos(s as nat);
        assert(p2(s as nat) == 2 * p2((s - 1) as nat));
        lemma_p2_le(s as nat, 11);
        vstd::arithmetic::div_mod::lemma_fundamental_div_mod(b as int, p as int);
    }
    let m = (b as u128) / p;
    let r = (b as u128) % p;
    let m2 = if r > half || (r == half && m % 2 == 1) { m + 1 } else { m };
    proof {
        assert(m * p <= b) by (nonlinear_arith)
            requires b == p * m + r, r >= 0;
        assert(m2 * p <= m * p + p) by (nonlinear_arith)
            requires m2 <= m + 1, p >= 1;
        assert(p2(64) == 18446744073709551616);
        assert(p <= 2048);
        lemma_near_bound(b as nat, s as nat, m as nat, m2 as nat, p as nat);
    }
    m2 * p
}

proof fn lemma_near_bound(b: nat, s: nat, m: nat, m2: nat, p: nat)
    requires
        p == p2(s),
        s == bit_len(b) - 53,
        bit_len(b) >= 54,
        m == b / p,
        m2 <= m + 1,
        b < p2(64),
    ensures m2 * p <= p2(64),
{
    lemma_bit_len_bounds(b);
    lemma_p2_add(s, 53);
    lemma_p2_pos(s);
    assert(b < p * p2(53));
    assert(m < p2(53)) by {
        vstd::arithmetic::div_mod::lemma_multiply_divide_lt(b as int, p as int, p2(53) as int);
    }
    assert(m2 <= p2(53));
    assert(m2 * p <= p2(53) * p) by (nonlinear_arith)
        requires m2 <= p2(53), p >= 1;
    lemma_bit_len_le_64(b);
    lemma_p2_le(s + 53, 64);
    assert(p2(53) * p == p2(s + 53)) by (nonlinear_arith)
        requires p2(s + 53) == p2(s) * p2(53), p == p2(s);
}

pub(crate) fn u128_to_decimal(n: u128) -> (r: Vec<char>)
    ensures r@ == decimal(n as nat),
{
    let mut acc: Vec<char> = Vec::new();
    let mut cur = n;
    while cur >= 10
        invariant decimal(n as nat) == decimal(cur as nat) + acc@,
        decreases cur,
    {
        let d = digit_of((cur % 10) as u32);
        let ghost before = acc@;
        acc.insert(0, d);
        assert(decimal(cur as nat) == decimal((cur / 10) as nat).push(d));
        assert(decimal(cur as nat) + before =~= decimal((cur / 10) as nat) + acc@);
        cur = cur / 10;
    }
    let mut out: Vec<char> = Vec::new();
    out.push(digit_of(cur as u32));
    push_chars(&mut out, &acc);
    assert(out@ =~= decimal(cur as nat) + acc@);
    out
}

fn digit_of(d: u32) -> (r: char)
    requires d < 10,
    ensures r == digit_char(d as nat),
{
    let u: u8 = (d + 48) as u8;
    u as char
}

/// `n / den` with two decimals.
fn fixed2_exec(n: u128, den: u128) -> (r: Vec<char>)
    requires
        den >= 1,
        den <= 1099511627776,
        n <= p2(64),
    ensures r@ == fixed2(n as nat, den as nat),
{
    proof { lemma_p2_values(); }
    let num = n * 100;
    let q0 = num / den;
    let rem = num % den;
    proof {
        vstd::arithmetic::div_mod::lemma_div_is_ordered_by_denominator(num as int, 1, den as int);
    }
    let q = if 2 * rem > den || (2 * rem == den && q0 % 2 == 1) { q0 + 1 } else { q0 };
    let mut out = u128_to_decimal(q / 100);
    out.push('.');
    out.push(digit_of(((q / 10) % 10) as u32));
    out.push(digit_of((q % 10) as u32));
    assert(out@ =~= fixed2(n as nat, den as nat));
    out
}

fn unit_index_exec(u: &Vec<char>) -> (r: Option<u32>)
    ensures
        match r {
            Some(i) => unit_index(u@) == Some(i as nat),
            None => unit_index(u@) is None,
        },
{
    if chars_equal_str(u, "B") { Some(0) }
    else if chars_equal_str(u, "KB") { Some(1) }
    else if chars_equal_str(u, "MB") { Some(2) }
    else if chars_equal_str(u, "GB") { Some(3) }
    else if chars_equal_str(u, "TB") { Some(4) }
    else { None }
}

fn unit_name_exec(i: u32) -> (r: &'static str)
    requires i <= 4,
    ensures r@ == unit_name(i as nat),
{
    if i == 0 { "B" } else if i == 1 { "KB" } else if i == 2 { "MB" } else if i == 3 { "GB" } else { "TB" }
}

/// Writes a byte count with two decimals in the unit `unit` (B, KB, MB, GB or
/// TB, in any case), or, when it names none, in the largest unit of which the
/// count holds at least one.
pub fn format_file_size(bytes: u64, unit: Option<&str>) -> (r: String)
    ensures r@ == format_size_spec(bytes, crate::auth::opt_view(unit)),
{
    let n = nearest_f64_exec(bytes);
    proof { lemma_p2_values(); }
    let requested = match unit {
        Some(u) => {
            let up = to_uppercase(u);
            unit_index_exec(&chars_of(up.as_str()))
        },
        None => None,
    };
    let i: u32 = match requested {
        Some(i) => i,
        None => {
            if n >= 1099511627776 { 4 } else if n >= 1073741824 { 3 } else if n >= 1048576 { 2 } else if n >= 1024 { 1 } else { 0 }
        },
    };
    let den = p2_exec(10 * i);
    proof { lemma_p2_pos((10 * i) as nat); lemma_p2_le((10 * i) as nat, 40); }
    let mut out = fixed2_exec(n, den);
    let name = chars_of(unit_name_exec(i));
    push_chars(&mut out, &name);
    string_from_chars(&out)
}

} // verus!
