//! Paths as the web client writes them into request URLs, and the path it
//! uploads a picked file under.

use vstd::prelude::*;
use vstd::utf8::encode_utf8;
use crate::content::upper_hex_digit;
use crate::seqs::{join, split_chars, join_chars, split_on, views};
use crate::text::{chars_of, string_from_chars};

verus! {

/// A byte that `encodeURIComponent` writes as it is: an ASCII letter or digit,
/// or one of `-_.!~*'()`.
pub open spec fn is_uri_unreserved(b: u8) -> bool {
    ||| 48 <= b <= 57
    ||| 65 <= b <= 90
    ||| 97 <= b <= 122
    ||| b == 45 || b == 95 || b == 46 || b == 33 || b == 126
    ||| b == 42 || b == 39 || b == 40 || b == 41
}

/// One byte of UTF-8, as `encodeURIComponent` writes it: kept when unreserved,
/// else `%` and two uppercase hexadecimal digits.
pub open spec fn uri_byte(b: u8) -> Seq<char> {
    if is_uri_unreserved(b) {
        seq![(b as u32) as char]
    } else {
        seq!['%', upper_hex_digit((b / 16) as nat), upper_hex_digit((b % 16) as nat)]
    }
}

/// Every byte of `bytes`, written as `uri_byte` writes it.
pub open spec fn uri_bytes(bytes: Seq<u8>) -> Seq<char>
    decreases bytes.len(),
{
    if bytes.len() == 0 { Seq::empty() } else { uri_bytes(bytes.drop_last()) + uri_byte(bytes.last()) }
}

/// `encodeURIComponent(s)`: the UTF-8 bytes of `s`, each written by `uri_byte`.
pub open spec fn uri_component(s: Seq<char>) -> Seq<char> {
    uri_bytes(encode_utf8(s))
}

/// A path with each `/`-separated part encoded as a URI component and the
/// separators kept.
pub open spec fn encoded_path(path: Seq<char>) -> Seq<char> {
    join(split_on(path, '/', '/').map_values(|p: Seq<char>| uri_component(p)), seq!['/'])
}

fn upper_hex(d: u8) -> (r: char)
    requires d < 16,
    ensures r == upper_hex_digit(d as nat),
{
    let u: u8 = if d < 10 { d + 48 } else { d + 55 };
    u as char
}

fn unreserved(b: u8) -> (r: bool)
    ensures r == is_uri_unreserved(b),
{
    (48 <= b && b <= 57) || (65 <= b && b <= 90) || (97 <= b && b <= 122)
        || b == 45 || b == 95 || b == 46 || b == 33 || b == 126
        || b == 42 || b == 39 || b == 40 || b == 41
}

/// `encodeURIComponent` as the browser computes it for a Rust string.
pub fn encode_uri_component(s: &str) -> (r: Vec<char>)
    ensures r@ == uri_component(s@),
{
    let bytes = s.as_bytes();
    let n = bytes.len();
    let mut out: Vec<char> = Vec::new();
    let mut i: usize = 0;
    while i < n
        invariant
            n == bytes@.len(),
            bytes@ == encode_utf8(s@),
            i <= n,
            out@ == uri_bytes(bytes@.take(i as int)),
        decreases n - i,
    {
        let b = bytes[i];
        let ghost before = out@;
        if unreserved(b) {
            out.push(b as char);
        } else {
            out.push('%');
            out.push(upper_hex(b / 16));
            out.push(upper_hex(b % 16));
        }
        assert(bytes@.take(i + 1).drop_last() =~= bytes@.take(i as int));
        assert(bytes@.take(i + 1).last() == b);
        assert(out@ =~= before + uri_byte(b));
        i = i + 1;
    }
    assert(bytes@.take(n as int) =~= bytes@);
    out
}

/// The path with every `/`-separated part written as a URI component, so that
/// it can stand in a request URL.
pub fn encode_path(file_path: &str) -> (r: String)
    ensures r@ == encoded_path(file_path@),
{
    let v = chars_of(file_path);
    let parts = split_chars(&v, '/', '/');
    let mut encoded: Vec<Vec<char>> = Vec::new();
    let n = parts.len();
    let mut i: usize = 0;
    while i < n
        invariant
            n == parts@.len(),
            i <= n,
            encoded@.len() == i,
            forall|k: int| 0 <= k < i ==> #[trigger] encoded@[k]@ == uri_component(parts@[k]@),
        decreases n - i,
    {
        let part = string_from_chars(&parts[i]);
        let e = encode_uri_component(part.as_str());
        encoded.push(e);
        i = i + 1;
    }
    let joined = join_chars(&encoded, '/');
    let ghost pieces = split_on(file_path@, '/', '/');
    assert(views(encoded@) =~= pieces.map_values(|p: Seq<char>| uri_component(p)));
    string_from_chars(&joined)
}

/// The path a picked file is uploaded under: the path relative to the folder
/// that was picked, or the file's own name when it was picked alone.
pub fn get_file_path(relative_path: &str, name: &str) -> (r: String)
    ensures r@ == (if relative_path@.len() == 0 { name@ } else { relative_path@ }),
{
    if relative_path.unicode_len() == 0 {
        string_from_chars(&chars_of(name))
    } else {
        string_from_chars(&chars_of(relative_path))
    }
}

/// Only unreserved characters, `%`-escapes and the `/` separators are left in
/// an encoded path.
pub proof fn law_encoded_path_is_url_safe(path: Seq<char>, i: int)
    requires 0 <= i < encoded_path(path).len(),
    ensures is_url_safe_char(encoded_path(path)[i]),
{
    let pieces = split_on(path, '/', '/');
    let parts = pieces.map_values(|p: Seq<char>| uri_component(p));
    assert forall|j: int, k: int| 0 <= j < parts.len() && 0 <= k < parts[j].len()
        implies is_url_safe_char(#[trigger] parts[j][k]) by {
        lemma_uri_bytes_safe(encode_utf8(pieces[j]));
        assert(parts[j] == uri_bytes(encode_utf8(pieces[j])));
    }
    lemma_join_safe(parts, i);
}

/// A character that may stand in an encoded path.
pub open spec fn is_url_safe_char(c: char) -> bool {
    ||| c == '/'
    ||| c == '%'
    ||| ('0' <= c <= '9') || ('A' <= c <= 'Z') || ('a' <= c <= 'z')
    ||| c == '-' || c == '_' || c == '.' || c == '!' || c == '~'
    ||| c == '*' || c == '\'' || c == '(' || c == ')'
}

proof fn lemma_uri_bytes_safe(bytes: Seq<u8>)
    ensures forall|k: int| 0 <= k < uri_bytes(bytes).len() ==> is_url_safe_char(#[trigger] uri_bytes(bytes)[k]),
    decreases bytes.len(),
{
    if bytes.len() > 0 {
        lemma_uri_bytes_safe(bytes.drop_last());
        let prev = uri_bytes(bytes.drop_last());
        let last = uri_byte(bytes.last());
        let b = bytes.last();
        assert forall|k: int| 0 <= k < last.len() implies is_url_safe_char(#[trigger] last[k]) by {
            if is_uri_unreserved(b) {
                assert(last[k] == (b as u32) as char);
            } else {
                assert(b / 16 < 16 && b % 16 < 16);
            }
        }
        assert forall|k: int| 0 <= k < uri_bytes(bytes).len() implies is_url_safe_char(#[trigger] uri_bytes(bytes)[k]) by {
            assert(uri_bytes(bytes) == prev + last);
            if k < prev.len() {
                assert(uri_bytes(bytes)[k] == prev[k]);
            } else {
                assert(uri_bytes(bytes)[k] == last[k - prev.len()]);
            }
        }
    }
}

proof fn lemma_join_safe(parts: Seq<Seq<char>>, i: int)
    requires
        forall|j: int, k: int| 0 <= j < parts.len() && 0 <= k < parts[j].len() ==> is_url_safe_char(#[trigger] parts[j][k]),
        0 <= i < join(parts, seq!['/']).len(),
    ensures is_url_safe_char(join(parts, seq!['/'])[i]),
    decreases parts.len(),
{
    if parts.len() == 1 {
        assert(join(parts, seq!['/']) == parts[0]);
    } else if parts.len() > 1 {
        let prev = join(parts.drop_last(), seq!['/']);
        let whole = prev + seq!['/'] + parts.last();
        assert(join(parts, seq!['/']) == whole);
        if i < prev.len() {
            assert(whole[i] == prev[i]);
            lemma_join_safe(parts.drop_last(), i);
        } else if i == prev.len() {
            assert(whole[i] == '/');
        } else {
            assert(whole[i] == parts.last()[i - prev.len() - 1]);
            assert(parts.last() == parts[parts.len() - 1]);
        }
    }
}

} // verus!
