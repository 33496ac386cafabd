//! File and path name sanitization for uploads and renames.

use vstd::prelude::*;
use vstd::string::StringSliceAdditionalSpecFns;
use vstd::utf8::{encode_utf8, encode_scalar, char_is_scalar};
use crate::seqs::{
    views, split_on, join, trim_by, lead_end, trail_start, lemma_lead_end_bounds,
    lemma_trail_start_bounds, split_chars, join_chars, slice_chars, chars_equal_str, push_str,
    push_chars,
};
use crate::paths::{path_file_name, path_file_stem, path_extension, name_stem, name_extension,
    file_name, stem_and_extension};
use crate::text::{
    is_alphanumeric_spec, is_whitespace_spec, spec_to_lowercase, spec_to_uppercase,
    is_alphanumeric, is_whitespace, to_lowercase, to_uppercase, chars_of, string_from_chars,
};

verus! {

/// Longest base name, in bytes of UTF-8, that sanitization keeps.
pub const MAX_BASE_BYTES: usize = 200;

/// Characters kept in a sanitized base name.
pub open spec fn is_name_char(c: char) -> bool {
    is_alphanumeric_spec(c) || c == '-' || c == '_' || c == '.'
}

/// Characters kept in a sanitized extension.
pub open spec fn is_ext_char(c: char) -> bool {
    is_alphanumeric_spec(c) || c == '.'
}

/// Characters trimmed from both ends of a base name.
pub open spec fn is_name_punct(c: char) -> bool {
    c == '.' || c == '_' || c == '-'
}

pub open spec fn name_char_pred() -> spec_fn(char) -> bool {
    |c: char| is_name_char(c)
}

pub open spec fn ext_char_pred() -> spec_fn(char) -> bool {
    |c: char| is_ext_char(c)
}

pub open spec fn name_punct_pred() -> spec_fn(char) -> bool {
    |c: char| is_name_punct(c)
}

/// White space and `+` become `_`.
pub open spec fn underscore_spaces(s: Seq<char>) -> Seq<char> {
    s.map_values(|c: char| if is_whitespace_spec(c) || c == '+' { '_' } else { c })
}

/// Every run of `_` shrunk to a single `_`.
pub open spec fn collapse_underscores(s: Seq<char>) -> Seq<char>
    decreases s.len(),
{
    if s.len() == 0 {
        s
    } else {
        let t = collapse_underscores(s.drop_last());
        if s.last() == '_' && t.len() > 0 && t.last() == '_' {
            t
        } else {
            t.push(s.last())
        }
    }
}

/// A reserved Windows device name (compared in upper case).
pub open spec fn is_reserved_name(u: Seq<char>) -> bool {
    ||| u == "CON"@ ||| u == "PRN"@ ||| u == "AUX"@ ||| u == "NUL"@
    ||| u == "COM1"@ ||| u == "COM2"@ ||| u == "COM3"@ ||| u == "COM4"@ ||| u == "COM5"@
    ||| u == "COM6"@ ||| u == "COM7"@ ||| u == "COM8"@ ||| u == "COM9"@
    ||| u == "LPT1"@ ||| u == "LPT2"@ ||| u == "LPT3"@ ||| u == "LPT4"@ ||| u == "LPT5"@
    ||| u == "LPT6"@ ||| u == "LPT7"@ ||| u == "LPT8"@ ||| u == "LPT9"@
}

/// The cleaned base name before it is cut to `MAX_BASE_BYTES` bytes.
pub open spec fn base_before_cut(stem: Seq<char>) -> Seq<char> {
    let t = trim_by(
        collapse_underscores(underscore_spaces(stem).filter(name_char_pred())),
        name_punct_pred(),
    );
    let f = if t.len() == 0 { "file"@ } else { t };
    if is_reserved_name(spec_to_uppercase(f)) { f + "_file"@ } else { f }
}

/// How many leading characters of `b` fit, whole, in `budget` bytes of UTF-8.
pub open spec fn fit_count(b: Seq<char>, budget: int) -> nat
    decreases b.len(),
{
    if b.len() > 0 && encode_scalar(b[0] as u32).len() <= budget {
        1 + fit_count(b.drop_first(), budget - encode_scalar(b[0] as u32).len())
    } else {
        0
    }
}

/// `b` cut to its longest prefix of whole characters that fits in
/// `MAX_BASE_BYTES` bytes; a name that fits stays whole.
pub open spec fn cut_base(b: Seq<char>) -> Seq<char> {
    b.take(fit_count(b, MAX_BASE_BYTES as int) as int)
}

/// The stem that sanitization starts from.
pub open spec fn stem_or_default(f: Seq<char>) -> Seq<char> {
    match path_file_stem(f) {
        Some(s) => s,
        None => "unnamed_file"@,
    }
}

/// The extension, lower-cased, with only alphanumerics and dots kept.
pub open spec fn clean_extension(f: Seq<char>) -> Seq<char> {
    match path_extension(f) {
        Some(e) => spec_to_lowercase(e).filter(ext_char_pred()),
        None => Seq::empty(),
    }
}

/// The sanitized form of a file name.
pub open spec fn sanitize_filename_spec(f: Seq<char>) -> Seq<char> {
    if f.len() == 0 {
        "unnamed_file.txt"@
    } else {
        let base = cut_base(base_before_cut(stem_or_default(f)));
        let e = clean_extension(f);
        if e.len() == 0 {
            base
        } else if e[0] == '.' {
            base + e
        } else {
            base + seq!['.'] + e
        }
    }
}

fn underscore_spaces_exec(s: &Vec<char>) -> (r: Vec<char>)
    ensures r@ == underscore_spaces(s@),
{
    let mut r: Vec<char> = Vec::new();
    let n = s.len();
    let mut i: usize = 0;
    while i < n
        invariant
            n == s@.len(),
            i <= n,
            r@ == underscore_spaces(s@.take(i as int)),
        decreases n - i,
    {
        let c = s[i];
        if is_whitespace(c) || c == '+' {
            r.push('_');
        } else {
            r.push(c);
        }
        assert(underscore_spaces(s@.take(i + 1)) =~= underscore_spaces(s@.take(i as int)).push(r@.last()));
        i = i + 1;
    }
    assert(s@.take(n as int) =~= s@);
    r
}

fn keep_name_chars(s: &Vec<char>) -> (r: Vec<char>)
    ensures r@ == s@.filter(name_char_pred()),
{
    let mut r: Vec<char> = Vec::new();
    let n = s.len();
    let mut i: usize = 0;
    assert(s@.take(0) =~= Seq::<char>::empty());
    proof { reveal(Seq::filter); }
    while i < n
        invariant
            n == s@.len(),
            i <= n,
            r@ == s@.take(i as int).filter(name_char_pred()),
        decreases n - i,
    {
        let c = s[i];
        proof {
            assert(s@.take(i + 1) =~= s@.take(i as int).push(c));
            s@.take(i as int).lemma_filter_push(c, name_char_pred());
        }
        if is_alphanumeric(c) || c == '-' || c == '_' || c == '.' {
            r.push(c);
        }
        i = i + 1;
    }
    assert(s@.take(n as int) =~= s@);
    r
}

fn keep_ext_chars(s: &Vec<char>) -> (r: Vec<char>)
    ensures r@ == s@.filter(ext_char_pred()),
{
    let mut r: Vec<char> = Vec::new();
    let n = s.len();
    let mut i: usize = 0;
    assert(s@.take(0) =~= Seq::<char>::empty());
    proof { reveal(Seq::filter); }
    while i < n
        invariant
            n == s@.len(),
            i <= n,
            r@ == s@.take(i as int).filter(ext_char_pred()),
        decreases n - i,
    {
        let c = s[i];
        proof {
            assert(s@.take(i + 1) =~= s@.take(i as int).push(c));
            s@.take(i as int).lemma_filter_push(c, ext_char_pred());
        }
        if is_alphanumeric(c) || c == '.' {
            r.push(c);
        }
        i = i + 1;
    }
    assert(s@.take(n as int) =~= s@);
    r
}

fn collapse_underscores_exec(s: &Vec<char>) -> (r: Vec<char>)
    ensures r@ == collapse_underscores(s@),
{
    let mut r: Vec<char> = Vec::new();
    let n = s.len();
    let mut i: usize = 0;
    assert(s@.take(0) =~= Seq::<char>::empty());
    while i < n
        invariant
            n == s@.len(),
            i <= n,
            r@ == collapse_underscores(s@.take(i as int)),
        decreases n - i,
    {
        let c = s[i];
        assert(s@.take(i + 1).drop_last() =~= s@.take(i as int));
        assert(s@.take(i + 1).last() == c);
        if !(c == '_' && r.len() > 0 && r[r.len() - 1] == '_') {
            r.push(c);
        }
        i = i + 1;
    }
    assert(s@.take(n as int) =~= s@);
    r
}

fn trim_name_punct(s: &Vec<char>) -> (r: Vec<char>)
    ensures r@ == trim_by(s@, name_punct_pred()),
{
    let n = s.len();
    let mut a: usize = 0;
    while a < n && (s[a] == '.' || s[a] == '_' || s[a] == '-')
        invariant
            n == s@.len(),
            a <= n,
            lead_end(s@, name_punct_pred(), 0) == lead_end(s@, name_punct_pred(), a as nat),
        decreases n - a,
    {
        a = a + 1;
    }
    let mut b: usize = n;
    while b > a && (s[b - 1] == '.' || s[b - 1] == '_' || s[b - 1] == '-')
        invariant
            n == s@.len(),
            a <= b <= n,
            lead_end(s@, name_punct_pred(), 0) == a,
            trail_start(s@, name_punct_pred(), a as nat, n as nat)
                == trail_start(s@, name_punct_pred(), a as nat, b as nat),
        decreases b,
    {
        b = b - 1;
    }
    slice_chars(s, a, b)
}

/// Whether `v` is one of the reserved device names.
fn is_reserved_exec(v: &Vec<char>) -> (r: bool)
    ensures r == is_reserved_name(v@),
{
    chars_equal_str(v, "CON") || chars_equal_str(v, "PRN") || chars_equal_str(v, "AUX")
        || chars_equal_str(v, "NUL") || chars_equal_str(v, "COM1") || chars_equal_str(v, "COM2")
        || chars_equal_str(v, "COM3") || chars_equal_str(v, "COM4") || chars_equal_str(v, "COM5")
        || chars_equal_str(v, "COM6") || chars_equal_str(v, "COM7") || chars_equal_str(v, "COM8")
        || chars_equal_str(v, "COM9") || chars_equal_str(v, "LPT1") || chars_equal_str(v, "LPT2")
        || chars_equal_str(v, "LPT3") || chars_equal_str(v, "LPT4") || chars_equal_str(v, "LPT5")
        || chars_equal_str(v, "LPT6") || chars_equal_str(v, "LPT7") || chars_equal_str(v, "LPT8")
        || chars_equal_str(v, "LPT9")
}

/// The cleaned base name (before the length cut) and the cleaned extension.
fn sanitize_parts(filename: &str) -> (r: (Vec<char>, Vec<char>))
    requires filename@.len() > 0,
    ensures
        r.0@ == base_before_cut(stem_or_default(filename@)),
        r.1@ == clean_extension(filename@),
{
    let s = chars_of(filename);
    let name = file_name(&s);
    let (stem, ext) = match name {
        Some(n) => {
            let (st, ex) = stem_and_extension(&n);
            (st, ex)
        },
        None => {
            let mut d: Vec<char> = Vec::new();
            push_str(&mut d, "unnamed_file");
            (d, None)
        },
    };
    assert(stem@ == stem_or_default(filename@));
    let spaced = underscore_spaces_exec(&stem);
    let kept = keep_name_chars(&spaced);
    let collapsed = collapse_underscores_exec(&kept);
    let trimmed = trim_name_punct(&collapsed);
    let mut f: Vec<char> = if trimmed.len() == 0 {
        let mut d: Vec<char> = Vec::new();
        push_str(&mut d, "file");
        d
    } else {
        trimmed
    };
    let upper = to_uppercase(string_from_chars(&f).as_str());
    let upper_chars = chars_of(upper.as_str());
    if is_reserved_exec(&upper_chars) {
        push_str(&mut f, "_file");
    }
    let clean = match ext {
        Some(e) => {
            let lower = to_lowercase(string_from_chars(&e).as_str());
            keep_ext_chars(&chars_of(lower.as_str()))
        },
        None => Vec::new(),
    };
    (f, clean)
}

proof fn lemma_encode_utf8_push(a: Seq<char>, c: char)
    ensures encode_utf8(a.push(c)) == encode_utf8(a) + encode_scalar(c as u32),
    decreases a.len(),
{
    if a.len() == 0 {
        assert(a.push(c).drop_first() =~= Seq::<char>::empty());
        assert(a.push(c)[0] == c);
        assert(encode_utf8(a.push(c)) == encode_scalar(c as u32) + encode_utf8(Seq::<char>::empty()));
        assert(encode_utf8(a.push(c)) =~= encode_utf8(a) + encode_scalar(c as u32));
    } else {
        assert(a.push(c).drop_first() =~= a.drop_first().push(c));
        lemma_encode_utf8_push(a.drop_first(), c);
        assert(a.push(c)[0] == a[0]);
        let x = encode_scalar(a[0] as u32);
        let y = encode_utf8(a.drop_first());
        let z = encode_scalar(c as u32);
        assert(encode_utf8(a.push(c)) == x + (y + z));
        assert(encode_utf8(a) == x + y);
        assert(x + (y + z) =~= (x + y) + z);
    }
}

/// The number of bytes in the UTF-8 encoding of `c`.
fn utf8_width(c: char) -> (r: usize)
    ensures r == encode_scalar(c as u32).len(), r <= 4,
{
    proof { char_is_scalar(c); }
    let u = c as u32;
    if u <= 0x7f {
        1
    } else if u <= 0x7ff {
        2
    } else if u <= 0xffff {
        3
    } else {
        4
    }
}

/// Whether the UTF-8 encoding of `b` is longer than `limit` bytes.
fn encoded_longer_than(b: &Vec<char>, limit: usize) -> (r: bool)
    requires limit <= 1000,
    ensures r == (encode_utf8(b@).len() > limit),
{
    let n = b.len();
    let mut i: usize = 0;
    let mut acc: usize = 0;
    assert(b@.take(0) =~= Seq::<char>::empty());
    while i < n
        invariant
            n == b@.len(),
            i <= n,
            acc == encode_utf8(b@.take(i as int)).len(),
            acc <= limit,
            limit <= 1000,
        decreases n - i,
    {
        proof {
            assert(b@.take(i + 1) =~= b@.take(i as int).push(b@[i as int]));
            lemma_encode_utf8_push(b@.take(i as int), b@[i as int]);
        }
        acc = acc + utf8_width(b[i]);
        i = i + 1;
        if acc > limit {
            proof { lemma_encode_prefix_le(b@, i as int); }
            return true;
        }
    }
    assert(b@.take(n as int) =~= b@);
    false
}

proof fn lemma_encode_prefix_le(b: Seq<char>, i: int)
    requires 0 <= i <= b.len(),
    ensures encode_utf8(b.take(i)).len() <= encode_utf8(b).len(),
    decreases b.len() - i,
{
    if i < b.len() {
        lemma_encode_prefix_le(b, i + 1);
        assert(b.take(i + 1) =~= b.take(i).push(b[i]));
        lemma_encode_utf8_push(b.take(i), b[i]);
    } else {
        assert(b.take(i) =~= b);
    }
}

proof fn lemma_fit_count_len(b: Seq<char>, budget: int)
    ensures fit_count(b, budget) <= b.len(),
    decreases b.len(),
{
    if b.len() > 0 {
        lemma_fit_count_len(b.drop_first(), budget - encode_scalar(b[0] as u32).len());
    }
}

/// The base name cut to its longest prefix of whole characters within
/// `MAX_BASE_BYTES` bytes.
fn cut_base_exec(b: &Vec<char>) -> (r: Vec<char>)
    ensures r@ == cut_base(b@),
{
    let n = b.len();
    let mut i: usize = 0;
    let mut budget: usize = MAX_BASE_BYTES;
    assert(b@.skip(0) =~= b@);
    while i < n && utf8_width(b[i]) <= budget
        invariant
            n == b@.len(),
            i <= n,
            budget <= MAX_BASE_BYTES,
            fit_count(b@, MAX_BASE_BYTES as int) == i + fit_count(b@.skip(i as int), budget as int),
        decreases n - i,
    {
        let w = utf8_width(b[i]);
        proof {
            let rest = b@.skip(i as int);
            assert(rest[0] == b@[i as int]);
            assert(rest.drop_first() =~= b@.skip(i + 1));
        }
        budget = budget - w;
        i = i + 1;
    }
    proof {
        let rest = b@.skip(i as int);
        if i < n {
            assert(rest[0] == b@[i as int]);
        }
        assert(fit_count(rest, budget as int) == 0);
    }
    slice_chars(b, 0, i)
}

/// Assembles base and extension.
fn assemble(base: Vec<char>, e: &Vec<char>) -> (r: Vec<char>)
    ensures
        r@ == (if e@.len() == 0 { base@ } else if e@[0] == '.' { base@ + e@ } else { base@ + seq!['.'] + e@ }),
{
    let mut out = base;
    if e.len() > 0 {
        if e[0] != '.' {
            out.push('.');
        }
        push_chars(&mut out, e);
    }
    out
}

/// Sanitizes an uploaded file name: keeps only its final component, turns white
/// space and `+` into `_`, drops every character that is not alphanumeric, `-`,
/// `_` or `.`, collapses runs of `_`, trims `.`, `_` and `-` from both ends, falls
/// back to `file`, suffixes reserved device names with `_file`, cuts the base to
/// its longest prefix of whole characters within 200 bytes and re-attaches the lower-cased extension.
pub fn sanitize_filename_safe(filename: &str) -> (r: String)
    ensures r@ == sanitize_filename_spec(filename@),
{
    if filename.unicode_len() == 0 {
        return String::from_str("unnamed_file.txt");
    }
    let (base, e) = sanitize_parts(filename);
    let cut = cut_base_exec(&base);
    string_from_chars(&assemble(cut, &e))
}

} // verus!

verus! {

/// The pieces of a client path, cut at `/` and at `\`.
pub open spec fn path_pieces(s: Seq<char>) -> Seq<Seq<char>> {
    split_on(s, '/', '\\')
}

/// Pieces that name a directory level: not empty, not `.` and not `..`.
pub open spec fn is_kept_piece(p: Seq<char>) -> bool {
    p.len() > 0 && p != seq!['.'] && p != seq!['.', '.']
}

pub open spec fn kept_piece_pred() -> spec_fn(Seq<char>) -> bool {
    |p: Seq<char>| is_kept_piece(p)
}

/// The pieces of `s` that sanitization keeps.
pub open spec fn kept_pieces(s: Seq<char>) -> Seq<Seq<char>> {
    path_pieces(s).filter(kept_piece_pred())
}

/// `s` names a parent directory in one of its pieces.
pub open spec fn has_parent_piece(s: Seq<char>) -> bool {
    path_pieces(s).contains(seq!['.', '.'])
}

/// The sanitized form of a relative upload path.
pub open spec fn sanitize_path_spec(s: Seq<char>) -> Seq<char> {
    if s.len() == 0 || has_parent_piece(s) || kept_pieces(s).len() == 0 {
        "unnamed_file.txt"@
    } else {
        join(kept_pieces(s).map_values(|p: Seq<char>| sanitize_filename_spec(p)), seq!['/'])
    }
}

/// Sanitizes a relative upload path: cuts it at `/` and `\`, answers
/// `unnamed_file.txt` when a piece is `..`, drops empty and `.` pieces,
/// sanitizes each remaining piece as a file name and joins them with `/`.
pub fn sanitize_path_preserve_dirs_safe(file_path: &str) -> (r: String)
    ensures r@ == sanitize_path_spec(file_path@),
{
    if file_path.unicode_len() == 0 {
        return String::from_str("unnamed_file.txt");
    }
    let s = chars_of(file_path);
    let pieces = split_chars(&s, '/', '\\');
    assert(views(pieces@) == path_pieces(file_path@));
    let n = pieces.len();
    let mut i: usize = 0;
    while i < n
        invariant
            n == pieces@.len(),
            views(pieces@) == path_pieces(file_path@),
            i <= n,
            forall|k: int| 0 <= k < i ==> views(pieces@)[k] != seq!['.', '.'],
        decreases n - i,
    {
        if chars_equal_str(&pieces[i], "..") {
            proof {
                reveal_strlit("..");
                assert(views(pieces@)[i as int] =~= seq!['.', '.']);
                assert(path_pieces(file_path@)[i as int] == seq!['.', '.']);
                assert(path_pieces(file_path@).contains(seq!['.', '.']));
            }
            return String::from_str("unnamed_file.txt");
        }
        proof {
            reveal_strlit("..");
            if views(pieces@)[i as int] == seq!['.', '.'] {
                assert(pieces@[i as int]@ =~= ".."@);
            }
        }
        i = i + 1;
    }
    assert(!has_parent_piece(file_path@)) by {
        if path_pieces(file_path@).contains(seq!['.', '.']) {
            let k = choose|k: int| 0 <= k < path_pieces(file_path@).len() && path_pieces(file_path@)[k] == seq!['.', '.'];
            assert(views(pieces@)[k] == seq!['.', '.']);
        }
    }
    // Keep the pieces that name a level.
    let mut kept: Vec<Vec<char>> = Vec::new();
    let mut j: usize = 0;
    proof { reveal(Seq::filter); }
    assert(views(pieces@).take(0) =~= Seq::<Seq<char>>::empty());
    while j < n
        invariant
            n == pieces@.len(),
            views(pieces@) == path_pieces(file_path@),
            j <= n,
            views(kept@) == views(pieces@).take(j as int).filter(kept_piece_pred()),
        decreases n - j,
    {
        let p = &pieces[j];
        proof {
            assert(views(pieces@).take(j + 1) =~= views(pieces@).take(j as int).push(p@));
            views(pieces@).take(j as int).lemma_filter_push(p@, kept_piece_pred());
            reveal_strlit(".");
            reveal_strlit("..");
        }
        let dot = chars_equal_str(p, ".");
        let dotdot = chars_equal_str(p, "..");
        assert("."@ =~= seq!['.']);
        assert(".."@ =~= seq!['.', '.']);
        if p.len() > 0 && !dot && !dotdot {
            let ghost before = views(kept@);
            let copy = slice_chars(p, 0, p.len());
            assert(copy@ =~= p@);
            kept.push(copy);
            assert(views(kept@) =~= before.push(p@));
        }
        j = j + 1;
    }
    assert(views(pieces@).take(n as int) =~= views(pieces@));
    assert(views(kept@) == kept_pieces(file_path@));
    let m = kept.len();
    if m == 0 {
        return String::from_str("unnamed_file.txt");
    }
    // Sanitize each kept piece.
    let mut names: Vec<Vec<char>> = Vec::new();
    let mut k: usize = 0;
    while k < m
        invariant
            file_path@.len() > 0,
            !has_parent_piece(file_path@),
            m == kept@.len(),
            views(kept@) == kept_pieces(file_path@),
            k <= m,
            names@.len() == k,
            forall|q: int| 0 <= q < k ==> #[trigger] views(names@)[q] == sanitize_filename_spec(views(kept@)[q]),
        decreases m - k,
    {
        let piece = string_from_chars(&kept[k]);
        let c = sanitize_filename_safe(piece.as_str());
        let ghost before = views(names@);
        names.push(chars_of(c.as_str()));
        assert(views(names@) =~= before.push(c@));
        k = k + 1;
    }
    assert(views(names@) =~= kept_pieces(file_path@).map_values(|p: Seq<char>| sanitize_filename_spec(p)));
    let joined = join_chars(&names, '/');
    string_from_chars(&joined)
}

} // verus!

verus! {

/// Every character of `s` may stand in a sanitized name.
pub open spec fn all_name_chars(s: Seq<char>) -> bool {
    forall|i: int| 0 <= i < s.len() ==> is_name_char(#[trigger] s[i])
}

/// A name that is safe to store: not empty, made of letters, digits, `-`, `_`
/// and `.`, and not starting with `.`, `_` or `-` (so neither hidden nor `.`
/// nor `..`).
pub open spec fn safe_name(s: Seq<char>) -> bool {
    &&& s.len() > 0
    &&& all_name_chars(s)
    &&& !is_name_punct(s[0])
}

proof fn lemma_collapse_keeps(s: Seq<char>)
    requires all_name_chars(s),
    ensures all_name_chars(collapse_underscores(s)),
    decreases s.len(),
{
    if s.len() > 0 {
        let t = s.drop_last();
        assert forall|i: int| 0 <= i < t.len() implies is_name_char(#[trigger] t[i]) by {
            assert(t[i] == s[i]);
        }
        lemma_collapse_keeps(t);
        assert(is_name_char(s[s.len() - 1]));
    }
}

proof fn lemma_literal_name(lit: Seq<char>)
    requires forall|i: int| 0 <= i < lit.len() ==> ('a' <= #[trigger] lit[i] <= 'z' || lit[i] == '_' || lit[i] == '.'),
    ensures all_name_chars(lit),
{
    assert forall|i: int| 0 <= i < lit.len() implies is_name_char(#[trigger] lit[i]) by {
        assert((lit[i] as u32) < 128);
    }
}

/// The cleaned base name is a safe name.
proof fn lemma_base_safe(stem: Seq<char>)
    ensures safe_name(base_before_cut(stem)),
{
    broadcast use vstd::seq_lib::group_filter_ensures;
    let u = underscore_spaces(stem).filter(name_char_pred());
    assert(all_name_chars(u)) by {
        assert forall|i: int| 0 <= i < u.len() implies is_name_char(#[trigger] u[i]) by {
            assert(name_char_pred()(u[i]));
        }
    }
    let c = collapse_underscores(u);
    lemma_collapse_keeps(u);
    let t = trim_by(c, name_punct_pred());
    let a = lead_end(c, name_punct_pred(), 0);
    lemma_lead_end_bounds(c, name_punct_pred(), 0);
    lemma_trail_start_bounds(c, name_punct_pred(), a, c.len());
    assert(all_name_chars(t)) by {
        assert forall|i: int| 0 <= i < t.len() implies is_name_char(#[trigger] t[i]) by {
            assert(t[i] == c[a + i]);
        }
    }
    if t.len() > 0 {
        assert(t[0] == c[a as int]);
    }
    reveal_strlit("file");
    reveal_strlit("_file");
    let f = if t.len() == 0 { "file"@ } else { t };
    lemma_literal_name("file"@);
    lemma_literal_name("_file"@);
    assert(safe_name(f));
    if is_reserved_name(spec_to_uppercase(f)) {
        let g = f + "_file"@;
        assert(all_name_chars(g)) by {
            assert forall|i: int| 0 <= i < g.len() implies is_name_char(#[trigger] g[i]) by {
                if i < f.len() { assert(g[i] == f[i]); } else { assert(g[i] == "_file"@[i - f.len()]); }
            }
        }
        assert(g[0] == f[0]);
    }
}

/// Cutting a safe name to whole characters within 200 bytes keeps it safe:
/// its first character, at most four bytes, always stays.
proof fn lemma_cut_safe(b: Seq<char>)
    requires safe_name(b),
    ensures safe_name(cut_base(b)),
{
    lemma_fit_count_len(b, MAX_BASE_BYTES as int);
    char_is_scalar(b[0]);
    assert(encode_scalar(b[0] as u32).len() <= 4);
    let cut = cut_base(b);
    assert(cut.len() >= 1);
    assert forall|i: int| 0 <= i < cut.len() implies is_name_char(#[trigger] cut[i]) by {
        assert(cut[i] == b[i]);
    }
    assert(cut[0] == b[0]);
}

proof fn lemma_fit_count_fits(b: Seq<char>, budget: int)
    requires budget >= 0,
    ensures
        encode_utf8(b.take(fit_count(b, budget) as int)).len() <= budget,
        fit_count(b, budget) < b.len() ==> encode_utf8(b.take((fit_count(b, budget) + 1) as int)).len() > budget,
    decreases b.len(),
{
    lemma_fit_count_len(b, budget);
    let k = fit_count(b, budget);
    if b.len() == 0 {
        assert(b.take(0) =~= Seq::<char>::empty());
    } else {
        let w = encode_scalar(b[0] as u32).len();
        if w <= budget {
            let rest = b.drop_first();
            lemma_fit_count_fits(rest, budget - w);
            assert(b.take(k as int).drop_first() =~= rest.take(k - 1));
            assert(b.take(k as int)[0] == b[0]);
            if k < b.len() {
                assert(b.take((k + 1) as int).drop_first() =~= rest.take(k as int));
                assert(b.take((k + 1) as int)[0] == b[0]);
            }
        } else {
            assert(b.take(0) =~= Seq::<char>::empty());
            assert(b.take(1).drop_first() =~= Seq::<char>::empty());
            assert(b.take(1)[0] == b[0]);
        }
    }
}

/// The base of a sanitized name is the longest prefix of whole characters of
/// the cleaned base whose UTF-8 encoding holds at most 200 bytes.
pub proof fn law_cut_base_is_longest_fit(b: Seq<char>)
    ensures
        b.take(cut_base(b).len() as int) == cut_base(b),
        encode_utf8(cut_base(b)).len() <= MAX_BASE_BYTES,
        cut_base(b).len() < b.len() ==> encode_utf8(b.take((cut_base(b).len() + 1) as int)).len() > MAX_BASE_BYTES,
        encode_utf8(b).len() <= MAX_BASE_BYTES ==> cut_base(b) == b,
{
    lemma_fit_count_len(b, MAX_BASE_BYTES as int);
    lemma_fit_count_fits(b, MAX_BASE_BYTES as int);
    if encode_utf8(b).len() <= MAX_BASE_BYTES && cut_base(b).len() < b.len() {
        crate::sanitize::lemma_encode_prefix_le(b, (cut_base(b).len() + 1) as int);
    }
    if cut_base(b).len() == b.len() {
        assert(cut_base(b) =~= b);
    }
}

/// A sanitized file name is a safe name: it is never empty, holds only
/// letters, digits, `-`, `_` and `.`, and never starts with a dot, so it can
/// neither climb out of its directory nor hide.
pub proof fn law_sanitized_name_is_safe(f: Seq<char>)
    ensures safe_name(sanitize_filename_spec(f)),
{
    broadcast use vstd::seq_lib::group_filter_ensures;
    if f.len() == 0 {
        reveal_strlit("unnamed_file.txt");
        lemma_literal_name("unnamed_file.txt"@);
    } else {
        let b0 = base_before_cut(stem_or_default(f));
        lemma_base_safe(stem_or_default(f));
        lemma_cut_safe(b0);
        let base = cut_base(b0);
        let e = clean_extension(f);
        assert forall|i: int| 0 <= i < e.len() implies is_name_char(#[trigger] e[i]) by {
            match path_extension(f) {
                Some(x) => { assert(ext_char_pred()(e[i])); },
                None => {},
            }
        }
        let r = sanitize_filename_spec(f);
        if e.len() == 0 {
        } else if e[0] == '.' {
            assert forall|i: int| 0 <= i < r.len() implies is_name_char(#[trigger] r[i]) by {
                if i < base.len() { assert(r[i] == base[i]); } else { assert(r[i] == e[i - base.len()]); }
            }
            assert(r[0] == base[0]);
        } else {
            assert forall|i: int| 0 <= i < r.len() implies is_name_char(#[trigger] r[i]) by {
                if i < base.len() { assert(r[i] == base[i]); }
                else if i == base.len() { assert(r[i] == '.'); }
                else { assert(r[i] == e[i - base.len() - 1]); }
            }
            assert(r[0] == base[0]);
        }
    }
}

/// A sanitized name holds no separator and no NUL.
pub proof fn law_sanitized_name_has_no_separator(f: Seq<char>, i: int)
    requires
        0 <= i < sanitize_filename_spec(f).len(),
    ensures
        sanitize_filename_spec(f)[i] != '/',
        sanitize_filename_spec(f)[i] != '\\',
        sanitize_filename_spec(f)[i] != '\0',
{
    law_sanitized_name_is_safe(f);
    assert(is_name_char(sanitize_filename_spec(f)[i]));
}

/// Every `/`-separated part of a sanitized upload path is a safe name: no part
/// is empty, `.` or `..`, and none starts with a dot.
pub proof fn law_sanitized_path_parts_are_safe(s: Seq<char>)
    ensures
        forall|i: int| 0 <= i < split_on(sanitize_path_spec(s), '/', '/').len()
            ==> safe_name(#[trigger] split_on(sanitize_path_spec(s), '/', '/')[i]),
{
    let r = sanitize_path_spec(s);
    if s.len() == 0 || has_parent_piece(s) || kept_pieces(s).len() == 0 {
        reveal_strlit("unnamed_file.txt");
        lemma_literal_name("unnamed_file.txt"@);
        crate::seqs::lemma_split_on_no_sep(r, '/');
    } else {
        let kp = kept_pieces(s);
        let names = kp.map_values(|p: Seq<char>| sanitize_filename_spec(p));
        assert forall|i: int| 0 <= i < names.len() implies safe_name(#[trigger] names[i]) by {
            law_sanitized_name_is_safe(kp[i]);
        }
        assert forall|i: int, k: int| 0 <= i < names.len() && 0 <= k < names[i].len() implies names[i][k] != '/' by {
            law_sanitized_name_has_no_separator(kp[i], k);
        }
        crate::seqs::lemma_split_join(names, '/');
    }
}

/// A `..` anywhere in a client path sends the upload to `unnamed_file.txt`.
pub proof fn law_parent_reference_rejected(s: Seq<char>)
    requires has_parent_piece(s),
    ensures sanitize_path_spec(s) == "unnamed_file.txt"@,
{
}


/// A base name that sanitizing leaves as it is: letters, digits, `-`, `_` and
/// `.` only, no white space, no run of `_`, and no `.`, `_` or `-` at either
/// end.
pub open spec fn clean_base(s: Seq<char>) -> bool {
    &&& s.len() > 0
    &&& forall|i: int| 0 <= i < s.len() ==> is_name_char(#[trigger] s[i]) && !is_whitespace_spec(s[i]) && s[i] != '+'
    &&& forall|i: int| 0 <= i < s.len() - 1 ==> !(#[trigger] s[i] == '_' && s[i + 1] == '_')
    &&& !is_name_punct(s[0])
    &&& !is_name_punct(s[s.len() - 1])
}

proof fn lemma_filter_keeps_all(s: Seq<char>, p: spec_fn(char) -> bool)
    requires forall|i: int| 0 <= i < s.len() ==> p(#[trigger] s[i]),
    ensures s.filter(p) == s,
    decreases s.len(),
{
    if s.len() == 0 {
        assert(s.filter(p) =~= s) by { reveal(Seq::filter); }
    } else {
        let init = s.drop_last();
        assert forall|i: int| 0 <= i < init.len() implies p(#[trigger] init[i]) by {
            assert(init[i] == s[i]);
        }
        lemma_filter_keeps_all(init, p);
        assert(s == init.push(s.last()));
        init.lemma_filter_push(s.last(), p);
        assert(p(s[s.len() - 1]));
    }
}

proof fn lemma_collapse_keeps_single(s: Seq<char>)
    requires forall|i: int| 0 <= i < s.len() - 1 ==> !(#[trigger] s[i] == '_' && s[i + 1] == '_'),
    ensures collapse_underscores(s) == s,
    decreases s.len(),
{
    if s.len() > 0 {
        let init = s.drop_last();
        assert forall|i: int| 0 <= i < init.len() - 1 implies !(#[trigger] init[i] == '_' && init[i + 1] == '_') by {
            assert(init[i] == s[i] && init[i + 1] == s[i + 1]);
        }
        lemma_collapse_keeps_single(init);
        if s.last() == '_' && init.len() > 0 {
            assert(!(s[init.len() - 1] == '_' && s[init.len() as int] == '_'));
            assert(init.last() == s[init.len() - 1]);
        }
        assert(init.push(s.last()) =~= s);
    }
}

/// A clean base name passes through sanitizing unchanged: every character is
/// kept, no run is collapsed and nothing is trimmed, unless it names a
/// reserved device.
pub proof fn law_clean_base_is_kept(stem: Seq<char>)
    requires
        clean_base(stem),
        !is_reserved_name(spec_to_uppercase(stem)),
    ensures base_before_cut(stem) == stem,
{
    assert(underscore_spaces(stem) =~= stem);
    lemma_filter_keeps_all(stem, name_char_pred());
    lemma_collapse_keeps_single(stem);
    let p = name_punct_pred();
    assert(lead_end(stem, p, 0) == 0);
    assert(trail_start(stem, p, 0, stem.len()) == stem.len());
    assert(stem.subrange(0, stem.len() as int) =~= stem);
}
} // verus!
