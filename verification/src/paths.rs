//! Unix path arithmetic on character sequences, as `std::path::Path` does it:
//! final component, stem and extension, joining, and lexical normalization.

use vstd::prelude::*;
use crate::seqs::{views, split_on, join, last_index_of, lemma_last_index_of, split_chars, join_chars, last_index_in, slice_chars, chars_equal_str, push_chars};

verus! {

/// The final component of a path cut into its `/`-separated pieces: empty and
/// `.` pieces are skipped, and a final `..` has no file name.
pub open spec fn file_name_of_pieces(pieces: Seq<Seq<char>>) -> Option<Seq<char>>
    decreases pieces.len(),
{
    if pieces.len() == 0 {
        None
    } else {
        let p = pieces.last();
        if p.len() == 0 || p == seq!['.'] {
            file_name_of_pieces(pieces.drop_last())
        } else if p == seq!['.', '.'] {
            None
        } else {
            Some(p)
        }
    }
}

/// `Path::file_name`.
pub open spec fn path_file_name(s: Seq<char>) -> Option<Seq<char>> {
    file_name_of_pieces(split_on(s, '/', '/'))
}

/// The stem of a file name: everything before its last dot, unless that dot
/// is the first character or there is none.
pub open spec fn name_stem(name: Seq<char>) -> Seq<char> {
    let d = last_index_of(name, '.', name.len() as int);
    if d <= 0 { name } else { name.subrange(0, d) }
}

/// The extension of a file name: everything after its last dot, unless that
/// dot is the first character or there is none.
pub open spec fn name_extension(name: Seq<char>) -> Option<Seq<char>> {
    let d = last_index_of(name, '.', name.len() as int);
    if d <= 0 { None } else { Some(name.subrange(d + 1, name.len() as int)) }
}

/// `Path::file_stem`.
pub open spec fn path_file_stem(s: Seq<char>) -> Option<Seq<char>> {
    match path_file_name(s) {
        Some(n) => Some(name_stem(n)),
        None => None,
    }
}

/// `Path::extension`.
pub open spec fn path_extension(s: Seq<char>) -> Option<Seq<char>> {
    match path_file_name(s) {
        Some(n) => name_extension(n),
        None => None,
    }
}

/// `Path::join`: an absolute `p` replaces `base`; otherwise a separator is put
/// between them unless `base` is empty or already ends with one.
pub open spec fn path_join(base: Seq<char>, p: Seq<char>) -> Seq<char> {
    if p.len() > 0 && p[0] == '/' {
        p
    } else if base.len() == 0 {
        p
    } else if base.last() == '/' {
        base + p
    } else {
        base + seq!['/'] + p
    }
}

/// One step of lexical normalization: `.` and empty pieces vanish, `..`
/// removes the previous kept piece, any other piece is kept.
pub open spec fn norm_push(stack: Seq<Seq<char>>, p: Seq<char>) -> Seq<Seq<char>> {
    if p.len() == 0 || p == seq!['.'] {
        stack
    } else if p == seq!['.', '.'] {
        if stack.len() > 0 { stack.drop_last() } else { stack }
    } else {
        stack.push(p)
    }
}

/// The pieces kept by lexical normalization.
pub open spec fn norm_stack(pieces: Seq<Seq<char>>) -> Seq<Seq<char>>
    decreases pieces.len(),
{
    if pieces.len() == 0 {
        Seq::empty()
    } else {
        norm_push(norm_stack(pieces.drop_last()), pieces.last())
    }
}

/// Lexical normalization of a path: the root is kept, `.` components vanish and
/// each `..` cancels the component before it (or nothing, at the start).
pub open spec fn normalize_path_spec(s: Seq<char>) -> Seq<char> {
    let kept = norm_stack(split_on(s, '/', '/'));
    if s.len() > 0 && s[0] == '/' {
        seq!['/'] + join(kept, seq!['/'])
    } else {
        join(kept, seq!['/'])
    }
}

/// `Path::file_name` on the characters of a path.
pub fn file_name(s: &Vec<char>) -> (r: Option<Vec<char>>)
    ensures
        match r {
            Some(v) => path_file_name(s@) == Some(v@),
            None => path_file_name(s@) is None,
        },
{
    let pieces = split_chars(s, '/', '/');
    let mut k = pieces.len();
    assert(views(pieces@).take(k as int) =~= views(pieces@));
    while k > 0
        invariant
            k <= pieces@.len(),
            path_file_name(s@) == file_name_of_pieces(views(pieces@).take(k as int)),
        decreases k,
    {
        let ghost pre = views(pieces@).take(k as int);
        assert(pre.drop_last() =~= views(pieces@).take(k - 1));
        assert(pre.last() == pieces@[k - 1]@);
        let p = &pieces[k - 1];
        if p.len() == 0 || chars_equal_str(p, ".") {
            proof { reveal_strlit("."); }
            assert(p@.len() == 0 || p@ =~= seq!['.']);
            k = k - 1;
        } else if chars_equal_str(p, "..") {
            proof { reveal_strlit(".."); }
            assert(p@ =~= seq!['.', '.']);
            return None;
        } else {
            proof { reveal_strlit("."); reveal_strlit(".."); }
            assert(p@ != seq!['.']) by {
                if p@ == seq!['.'] { assert(p@ =~= "."@); }
            }
            assert(p@ != seq!['.', '.']) by {
                if p@ == seq!['.', '.'] { assert(p@ =~= ".."@); }
            }
            return Some(slice_chars(p, 0, p.len()));
        }
    }
    None
}

/// Splits a file name into its stem and extension.
pub fn stem_and_extension(name: &Vec<char>) -> (r: (Vec<char>, Option<Vec<char>>))
    ensures
        r.0@ == name_stem(name@),
        match r.1 {
            Some(e) => name_extension(name@) == Some(e@),
            None => name_extension(name@) is None,
        },
{
    let d = last_index_in(name, '.');
    match d {
        Some(d) => {
            if d == 0 {
                (slice_chars(name, 0, name.len()), None)
            } else {
                proof { lemma_last_index_of(name@, '.', name@.len() as int); }
                assert(d < name.len());
                (slice_chars(name, 0, d), Some(slice_chars(name, d + 1, name.len())))
            }
        },
        None => (slice_chars(name, 0, name.len()), None),
    }
}

/// `Path::join` on character sequences.
pub fn join_path(base: &Vec<char>, p: &Vec<char>) -> (r: Vec<char>)
    ensures r@ == path_join(base@, p@),
{
    if p.len() > 0 && p[0] == '/' {
        return slice_chars(p, 0, p.len());
    }
    let mut r = slice_chars(base, 0, base.len());
    if base.len() > 0 && base[base.len() - 1] != '/' {
        r.push('/');
    }
    push_chars(&mut r, p);
    r
}

/// Lexically normalizes a path: drops `.` components, resolves `..` against the
/// components before it, and keeps a leading root.
pub fn normalize_path(path: &str) -> (r: String)
    ensures r@ == normalize_path_spec(path@),
{
    let s = crate::text::chars_of(path);
    let pieces = split_chars(&s, '/', '/');
    let mut stack: Vec<Vec<char>> = Vec::new();
    let n = pieces.len();
    let mut i: usize = 0;
    while i < n
        invariant
            n == pieces@.len(),
            i <= n,
            views(stack@) == norm_stack(views(pieces@).take(i as int)),
        decreases n - i,
    {
        let ghost pre = views(pieces@).take(i + 1);
        assert(pre.drop_last() =~= views(pieces@).take(i as int));
        assert(pre.last() == pieces@[i as int]@);
        let p = &pieces[i];
        if p.len() == 0 || chars_equal_str(p, ".") {
            proof { reveal_strlit("."); }
            assert(p@.len() == 0 || p@ =~= seq!['.']);
        } else if chars_equal_str(p, "..") {
            proof { reveal_strlit(".."); }
            assert(p@ =~= seq!['.', '.']);
            if stack.len() > 0 {
                let ghost before = views(stack@);
                stack.pop();
                assert(views(stack@) =~= before.drop_last());
            }
        } else {
            proof { reveal_strlit("."); reveal_strlit(".."); }
            assert(p@ != seq!['.']) by {
                if p@ == seq!['.'] { assert(p@ =~= "."@); }
            }
            assert(p@ != seq!['.', '.']) by {
                if p@ == seq!['.', '.'] { assert(p@ =~= ".."@); }
            }
            let ghost before = views(stack@);
            let kept = slice_chars(p, 0, p.len());
            assert(kept@ =~= p@);
            stack.push(kept);
            assert(views(stack@) =~= before.push(p@));
        }
        i = i + 1;
    }
    assert(views(pieces@).take(n as int) =~= views(pieces@));
    let joined = join_chars(&stack, '/');
    let mut out: Vec<char> = Vec::new();
    if s.len() > 0 && s[0] == '/' {
        out.push('/');
    }
    push_chars(&mut out, &joined);
    assert(s@ == path@);
    proof {
        if s@.len() > 0 && s@[0] == '/' {
            assert(out@ =~= seq!['/'] + joined@);
        } else {
            assert(out@ =~= joined@);
        }
    }
    crate::text::string_from_chars(&out)
}

} // verus!

verus! {

/// The end of `s[0..j)` once trailing separators and `.` components are
/// dropped, keeping a root `/` and a leading `.`. When `j` is below the length,
/// `s[j]` is a separator.
pub open spec fn trim_back(s: Seq<char>, j: int) -> int
    decreases j,
{
    if j <= 0 {
        0
    } else if j == 1 && (s[0] == '/' || s[0] == '.') {
        1
    } else if s[j - 1] == '/' {
        trim_back(s, j - 1)
    } else if s[j - 1] == '.' && s[j - 2] == '/' {
        trim_back(s, j - 1)
    } else {
        j
    }
}

/// `Path::parent`: the path without its final component, or none when it ends
/// in the root or has no component.
pub open spec fn path_parent(s: Seq<char>) -> Option<Seq<char>> {
    let t = trim_back(s, s.len() as int);
    if t == 0 || (t == 1 && s[0] == '/') {
        None
    } else {
        let k = last_index_of(s, '/', t) + 1;
        Some(s.subrange(0, trim_back(s, k)))
    }
}

proof fn lemma_trim_back_bounds(s: Seq<char>, j: int)
    requires 0 <= j <= s.len(),
    ensures 0 <= trim_back(s, j) <= j,
    decreases j,
{
    if j > 1 && (s[j - 1] == '/' || (s[j - 1] == '.' && s[j - 2] == '/')) {
        lemma_trim_back_bounds(s, j - 1);
    }
}

fn trim_back_exec(s: &Vec<char>, j: usize) -> (r: usize)
    requires j <= s@.len(),
    ensures r == trim_back(s@, j as int),
{
    let mut k = j;
    while k > 0
        invariant
            k <= j <= s@.len(),
            trim_back(s@, j as int) == trim_back(s@, k as int),
        decreases k,
    {
        if k == 1 && (s[0] == '/' || s[0] == '.') {
            return 1;
        }
        if s[k - 1] == '/' {
            k = k - 1;
        } else if k >= 2 && s[k - 1] == '.' && s[k - 2] == '/' {
            k = k - 1;
        } else {
            return k;
        }
    }
    0
}

/// `Path::parent` on the characters of a path.
pub fn parent_of(s: &Vec<char>) -> (r: Option<Vec<char>>)
    ensures
        match r {
            Some(p) => path_parent(s@) == Some(p@),
            None => path_parent(s@) is None,
        },
{
    let t = trim_back_exec(s, s.len());
    proof { lemma_trim_back_bounds(s@, s@.len() as int); }
    if t == 0 || (t == 1 && s[0] == '/') {
        return None;
    }
    let prefix = slice_chars(s, 0, t);
    proof { lemma_last_index_of(prefix@, '/', t as int); }
    let k: usize = match last_index_in(&prefix, '/') {
        Some(i) => i + 1,
        None => 0,
    };
    proof { lemma_last_index_prefix_eq(prefix@, s@, '/', t as int); }
    assert(k as int == last_index_of(s@, '/', t as int) + 1);
    let e = trim_back_exec(s, k);
    proof { lemma_trim_back_bounds(s@, k as int); }
    Some(slice_chars(s, 0, e))
}

proof fn lemma_last_index_prefix_eq(a: Seq<char>, b: Seq<char>, c: char, e: int)
    requires
        0 <= e <= a.len(),
        e <= b.len(),
        forall|i: int| 0 <= i < e ==> a[i] == b[i],
    ensures last_index_of(a, c, e) == last_index_of(b, c, e),
    decreases e,
{
    if e > 0 {
        lemma_last_index_prefix_eq(a, b, c, e - 1);
    }
}

} // verus!

verus! {

/// A normalized component: not empty, not `.` and not `..`.
pub open spec fn plain_component(p: Seq<char>) -> bool {
    p.len() > 0 && p != seq!['.'] && p != seq!['.', '.']
}

proof fn lemma_split_pieces_have_no_sep(s: Seq<char>, c: char)
    ensures
        forall|i: int, k: int| 0 <= i < split_on(s, c, c).len() && 0 <= k < split_on(s, c, c)[i].len()
            ==> split_on(s, c, c)[i][k] != c,
    decreases s.len(),
{
    if s.len() > 0 {
        lemma_split_pieces_have_no_sep(s.drop_last(), c);
        crate::seqs::lemma_split_on_nonempty(s.drop_last(), c, c);
        let prev = split_on(s.drop_last(), c, c);
        let r = split_on(s, c, c);
        assert forall|i: int, k: int| 0 <= i < r.len() && 0 <= k < r[i].len() implies r[i][k] != c by {
            if s.last() == c {
                if i < prev.len() { assert(r[i] == prev[i]); } else { assert(r[i].len() == 0); }
            } else {
                if i < prev.len() - 1 {
                    assert(r[i] == prev[i]);
                } else {
                    assert(r[i] == prev.last().push(s.last()));
                    if k < prev.last().len() {
                        assert(r[i][k] == prev[prev.len() - 1][k]);
                    }
                }
            }
        }
    }
}

proof fn lemma_norm_stack_plain(pieces: Seq<Seq<char>>)
    requires forall|i: int, k: int| 0 <= i < pieces.len() && 0 <= k < pieces[i].len() ==> pieces[i][k] != '/',
    ensures
        forall|i: int| 0 <= i < norm_stack(pieces).len() ==> plain_component(#[trigger] norm_stack(pieces)[i]),
        forall|i: int, k: int| 0 <= i < norm_stack(pieces).len() && 0 <= k < norm_stack(pieces)[i].len()
            ==> norm_stack(pieces)[i][k] != '/',
    decreases pieces.len(),
{
    if pieces.len() > 0 {
        let init = pieces.drop_last();
        assert forall|i: int, k: int| 0 <= i < init.len() && 0 <= k < init[i].len() implies init[i][k] != '/' by {
            assert(init[i] == pieces[i]);
        }
        lemma_norm_stack_plain(init);
        let st = norm_stack(init);
        let p = pieces.last();
        assert(p == pieces[pieces.len() - 1]);
        let r = norm_stack(pieces);
        assert forall|i: int| 0 <= i < r.len() implies plain_component(#[trigger] r[i]) by {
            if p.len() == 0 || p == seq!['.'] {
            } else if p == seq!['.', '.'] {
                if st.len() > 0 { assert(r[i] == st[i]); }
            } else {
                if i < st.len() { assert(r[i] == st[i]); }
            }
        }
        assert forall|i: int, k: int| 0 <= i < r.len() && 0 <= k < r[i].len() implies r[i][k] != '/' by {
            if p.len() == 0 || p == seq!['.'] {
            } else if p == seq!['.', '.'] {
                if st.len() > 0 { assert(r[i] == st[i]); }
            } else {
                if i < st.len() { assert(r[i] == st[i]); } else { assert(r[i] == p); }
            }
        }
    }
}

/// Every component of a normalized relative path is a plain name: lexical
/// normalization leaves no empty, `.` or `..` component behind.
pub proof fn law_normalized_components_are_plain(s: Seq<char>)
    requires
        !(s.len() > 0 && s[0] == '/'),
        norm_stack(split_on(s, '/', '/')).len() > 0,
    ensures
        forall|i: int| 0 <= i < split_on(normalize_path_spec(s), '/', '/').len()
            ==> plain_component(#[trigger] split_on(normalize_path_spec(s), '/', '/')[i]),
{
    let pieces = split_on(s, '/', '/');
    lemma_split_pieces_have_no_sep(s, '/');
    lemma_norm_stack_plain(pieces);
    crate::seqs::lemma_split_join(norm_stack(pieces), '/');
}


proof fn lemma_norm_stack_of_plain(pieces: Seq<Seq<char>>)
    requires forall|i: int| 0 <= i < pieces.len() ==> plain_component(#[trigger] pieces[i]),
    ensures norm_stack(pieces) == pieces,
    decreases pieces.len(),
{
    if pieces.len() > 0 {
        let init = pieces.drop_last();
        assert forall|i: int| 0 <= i < init.len() implies plain_component(#[trigger] init[i]) by {
            assert(init[i] == pieces[i]);
        }
        lemma_norm_stack_of_plain(init);
        assert(plain_component(pieces[pieces.len() - 1]));
        assert(init.push(pieces.last()) =~= pieces);
    }
}

proof fn lemma_norm_stack_leading_empty(k: Seq<Seq<char>>)
    ensures norm_stack(seq![Seq::<char>::empty()] + k) == norm_stack(k),
    decreases k.len(),
{
    let e = Seq::<char>::empty();
    if k.len() == 0 {
        assert(seq![e] + k =~= seq![e]);
        assert(seq![e].drop_last() =~= Seq::<Seq<char>>::empty());
        assert(norm_stack(seq![e]) == norm_push(norm_stack(Seq::<Seq<char>>::empty()), e));
    } else {
        lemma_norm_stack_leading_empty(k.drop_last());
        let p = seq![e] + k;
        assert(p.drop_last() =~= seq![e] + k.drop_last());
        assert(p.last() == k.last());
        assert(norm_stack(p) == norm_push(norm_stack(p.drop_last()), p.last()));
        assert(norm_stack(k) == norm_push(norm_stack(k.drop_last()), k.last()));
    }
}

proof fn lemma_join_front(e: Seq<char>, k: Seq<Seq<char>>, sep: Seq<char>)
    requires k.len() > 0,
    ensures join(seq![e] + k, sep) == e + sep + join(k, sep),
    decreases k.len(),
{
    if k.len() == 1 {
        let p = seq![e] + k;
        assert(p.drop_last() =~= seq![e]);
        assert(p.last() == k[0]);
        assert(join(seq![e], sep) == e);
        assert(join(p, sep) == join(p.drop_last(), sep) + sep + p.last());
        assert(join(k, sep) == k[0]);
    } else {
        lemma_join_front(e, k.drop_last(), sep);
        let p = seq![e] + k;
        assert(p.drop_last() =~= seq![e] + k.drop_last());
        assert(p.last() == k.last());
        assert(e + sep + join(k.drop_last(), sep) + sep + k.last() =~= e + sep + (join(k.drop_last(), sep) + sep + k.last()));
    }
}

proof fn lemma_join_starts_with_first(k: Seq<Seq<char>>, sep: Seq<char>)
    requires k.len() > 0,
    ensures
        join(k, sep).len() >= k[0].len(),
        join(k, sep).subrange(0, k[0].len() as int) == k[0],
    decreases k.len(),
{
    if k.len() > 1 {
        lemma_join_starts_with_first(k.drop_last(), sep);
        let j = join(k.drop_last(), sep);
        assert(k.drop_last()[0] == k[0]);
        assert((j + sep + k.last()).subrange(0, k[0].len() as int) =~= j.subrange(0, k[0].len() as int));
    }
}

/// The normalized pieces of a path, and that they are plain and hold no `/`.
proof fn lemma_norm_pieces(s: Seq<char>)
    ensures
        forall|i: int| 0 <= i < norm_stack(split_on(s, '/', '/')).len()
            ==> plain_component(#[trigger] norm_stack(split_on(s, '/', '/'))[i]),
        forall|i: int, k: int| 0 <= i < norm_stack(split_on(s, '/', '/')).len() && 0 <= k < norm_stack(split_on(s, '/', '/'))[i].len()
            ==> norm_stack(split_on(s, '/', '/'))[i][k] != '/',
{
    lemma_split_pieces_have_no_sep(s, '/');
    lemma_norm_stack_plain(split_on(s, '/', '/'));
}

/// Lexical normalization keeps the root: the result starts with `/` exactly
/// when the path does.
pub proof fn law_normalize_keeps_root(s: Seq<char>)
    ensures
        (normalize_path_spec(s).len() > 0 && normalize_path_spec(s)[0] == '/') == (s.len() > 0 && s[0] == '/'),
{
    let kept = norm_stack(split_on(s, '/', '/'));
    lemma_norm_pieces(s);
    if !(s.len() > 0 && s[0] == '/') && kept.len() > 0 {
        lemma_join_starts_with_first(kept, seq!['/']);
        assert(plain_component(kept[0]));
        assert(kept[0][0] != '/');
        assert(join(kept, seq!['/'])[0] == join(kept, seq!['/']).subrange(0, kept[0].len() as int)[0]);
    }
}

/// Normalizing twice gives what normalizing once gives.
pub proof fn law_normalize_idempotent(s: Seq<char>)
    ensures normalize_path_spec(normalize_path_spec(s)) == normalize_path_spec(s),
{
    let kept = norm_stack(split_on(s, '/', '/'));
    let n = normalize_path_spec(s);
    lemma_norm_pieces(s);
    law_normalize_keeps_root(s);
    let e = Seq::<char>::empty();
    if kept.len() == 0 {
        if s.len() > 0 && s[0] == '/' {
            assert(n =~= seq!['/']);
            assert(n.drop_last() =~= e);
            assert(split_on(e, '/', '/') == seq![e]);
            assert(split_on(n, '/', '/') == seq![e].push(e));
            assert(seq![e].push(e).drop_last() =~= seq![e]);
            assert(seq![e].drop_last() =~= Seq::<Seq<char>>::empty());
            let two = seq![e].push(e);
            assert(norm_stack(seq![e]) == norm_push(norm_stack(Seq::<Seq<char>>::empty()), e));
            assert(norm_stack(two) == norm_push(norm_stack(seq![e]), e));
            assert(norm_stack(split_on(n, '/', '/')) =~= Seq::<Seq<char>>::empty());
        } else {
            assert(n =~= e);
            assert(split_on(n, '/', '/') == seq![e]);
            assert(seq![e].drop_last() =~= Seq::<Seq<char>>::empty());
            assert(norm_stack(seq![e]) == norm_push(norm_stack(Seq::<Seq<char>>::empty()), e));
            assert(norm_stack(split_on(n, '/', '/')) =~= Seq::<Seq<char>>::empty());
        }
    } else {
        lemma_norm_stack_of_plain(kept);
        if s.len() > 0 && s[0] == '/' {
            let parts = seq![e] + kept;
            lemma_join_front(e, kept, seq!['/']);
            assert(n =~= join(parts, seq!['/']));
            assert forall|i: int, k: int| 0 <= i < parts.len() && 0 <= k < parts[i].len() implies parts[i][k] != '/' by {
                assert(i > 0);
                assert(parts[i] == kept[i - 1]);
            }
            crate::seqs::lemma_split_join(parts, '/');
            lemma_norm_stack_leading_empty(kept);
        } else {
            crate::seqs::lemma_split_join(kept, '/');
        }
    }
}

/// The pieces of a normalized path, cut at `/`: those of its kept components,
/// after an empty piece for the root.
proof fn lemma_normalized_pieces(s: Seq<char>)
    ensures ({
        let kept = norm_stack(split_on(s, '/', '/'));
        let e = Seq::<char>::empty();
        split_on(normalize_path_spec(s), '/', '/') == if s.len() > 0 && s[0] == '/' {
            if kept.len() == 0 { seq![e, e] } else { seq![e] + kept }
        } else {
            if kept.len() == 0 { seq![e] } else { kept }
        }
    }),
{
    let kept = norm_stack(split_on(s, '/', '/'));
    let n = normalize_path_spec(s);
    lemma_norm_pieces(s);
    let e = Seq::<char>::empty();
    if kept.len() == 0 {
        if s.len() > 0 && s[0] == '/' {
            assert(n =~= seq!['/']);
            assert(n.drop_last() =~= e);
            assert(split_on(e, '/', '/') == seq![e]);
            assert(seq![e].push(e) =~= seq![e, e]);
        } else {
            assert(n =~= e);
        }
    } else if s.len() > 0 && s[0] == '/' {
        let parts = seq![e] + kept;
        lemma_join_front(e, kept, seq!['/']);
        assert(n =~= join(parts, seq!['/']));
        assert forall|i: int, k: int| 0 <= i < parts.len() && 0 <= k < parts[i].len() implies parts[i][k] != '/' by {
            assert(i > 0);
            assert(parts[i] == kept[i - 1]);
        }
        crate::seqs::lemma_split_join(parts, '/');
    } else {
        crate::seqs::lemma_split_join(kept, '/');
    }
}

/// A normalized path, relative or absolute, has no `.` or `..` component:
/// every `/`-separated piece is a plain name, save the empty piece before a
/// root and the empty piece of an empty result.
pub proof fn law_normalized_has_no_dot_components(s: Seq<char>)
    ensures
        forall|i: int| 0 <= i < split_on(normalize_path_spec(s), '/', '/').len() ==> {
            let p = #[trigger] split_on(normalize_path_spec(s), '/', '/')[i];
            p.len() == 0 || plain_component(p)
        },
{
    lemma_normalized_pieces(s);
    lemma_norm_pieces(s);
    let kept = norm_stack(split_on(s, '/', '/'));
    let e = Seq::<char>::empty();
    let pieces = split_on(normalize_path_spec(s), '/', '/');
    assert forall|i: int| 0 <= i < pieces.len() implies {
        let p = #[trigger] pieces[i];
        p.len() == 0 || plain_component(p)
    } by {
        if s.len() > 0 && s[0] == '/' && kept.len() > 0 && i > 0 {
            assert(pieces[i] == kept[i - 1]);
        }
    }
}
} // verus!
