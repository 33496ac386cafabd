//! Sequences of characters: splitting, joining, trimming and searching,
//! stated over `Seq<char>` and carried out on `Vec<char>`.

use vstd::prelude::*;

verus! {

/// The views of a vector of character vectors.
pub open spec fn views(v: Seq<Vec<char>>) -> Seq<Seq<char>> {
    v.map_values(|x: Vec<char>| x@)
}

/// `s` cut at every character equal to `a` or `b`, as `str::split` cuts:
/// `n` separators give `n + 1` pieces, some of which may be empty.
pub open spec fn split_on(s: Seq<char>, a: char, b: char) -> Seq<Seq<char>>
    decreases s.len(),
{
    if s.len() == 0 {
        seq![Seq::<char>::empty()]
    } else {
        let prev = split_on(s.drop_last(), a, b);
        let c = s.last();
        if c == a || c == b {
            prev.push(Seq::<char>::empty())
        } else {
            prev.update(prev.len() - 1, prev.last().push(c))
        }
    }
}

pub proof fn lemma_split_on_nonempty(s: Seq<char>, a: char, b: char)
    ensures split_on(s, a, b).len() >= 1,
    decreases s.len(),
{
    if s.len() > 0 {
        lemma_split_on_nonempty(s.drop_last(), a, b);
    }
}

/// Without separators there is one piece; with one there are at least two.
pub proof fn lemma_split_on_count(s: Seq<char>, a: char, b: char)
    ensures
        split_on(s, a, b).len() >= 1,
        (forall|k: int| 0 <= k < s.len() ==> s[k] != a && s[k] != b) ==> split_on(s, a, b).len() == 1,
        (exists|k: int| 0 <= k < s.len() && (s[k] == a || s[k] == b)) ==> split_on(s, a, b).len() >= 2,
    decreases s.len(),
{
    if s.len() > 0 {
        let t = s.drop_last();
        lemma_split_on_count(t, a, b);
        if forall|k: int| 0 <= k < s.len() ==> s[k] != a && s[k] != b {
            assert forall|k: int| 0 <= k < t.len() implies t[k] != a && t[k] != b by {
                assert(t[k] == s[k]);
            }
        }
        if exists|k: int| 0 <= k < s.len() && (s[k] == a || s[k] == b) {
            let k = choose|k: int| 0 <= k < s.len() && (s[k] == a || s[k] == b);
            if k < s.len() - 1 {
                assert(t[k] == s[k]);
            }
        }
    }
}

/// The first piece is everything before the first separator.
pub proof fn lemma_split_on_first(s: Seq<char>, a: char, b: char, i: int)
    requires
        0 <= i <= s.len(),
        forall|k: int| 0 <= k < i ==> s[k] != a && s[k] != b,
        i < s.len() ==> (s[i] == a || s[i] == b),
    ensures split_on(s, a, b)[0] == s.subrange(0, i),
    decreases s.len(),
{
    if s.len() == 0 {
        assert(s.subrange(0, 0) =~= Seq::<char>::empty());
    } else {
        let t = s.drop_last();
        let c = s.last();
        lemma_split_on_count(t, a, b);
        if i < s.len() {
            assert forall|k: int| 0 <= k < i implies t[k] != a && t[k] != b by {
                assert(t[k] == s[k]);
            }
            if i < t.len() {
                assert(t[i] == s[i]);
            }
            lemma_split_on_first(t, a, b, i);
            assert(t.subrange(0, i) =~= s.subrange(0, i));
            if !(c == a || c == b) {
                assert(i < s.len() - 1);
                assert(t[i] == a || t[i] == b);
            }
        } else {
            assert forall|k: int| 0 <= k < t.len() implies t[k] != a && t[k] != b by {
                assert(t[k] == s[k]);
            }
            lemma_split_on_first(t, a, b, t.len() as int);
            assert(t.subrange(0, t.len() as int) =~= t);
            assert(s =~= t.push(c));
        }
    }
}

/// A text without the separator is a single piece.
pub proof fn lemma_split_on_no_sep(y: Seq<char>, c: char)
    requires forall|k: int| 0 <= k < y.len() ==> y[k] != c,
    ensures split_on(y, c, c) == seq![y],
    decreases y.len(),
{
    if y.len() == 0 {
        assert(y =~= Seq::<char>::empty());
    } else {
        assert(y[y.len() - 1] != c);
        lemma_split_on_no_sep(y.drop_last(), c);
        assert(y.drop_last().push(y.last()) =~= y);
        assert(seq![y.drop_last()].update(0, y.drop_last().push(y.last())) =~= seq![y]);
    }
}

/// Cutting `x`, a separator and a separator-free `y` gives the pieces of `x`
/// and then `y`.
pub proof fn lemma_split_on_append(x: Seq<char>, y: Seq<char>, c: char)
    requires forall|k: int| 0 <= k < y.len() ==> y[k] != c,
    ensures split_on(x + seq![c] + y, c, c) == split_on(x, c, c).push(y),
    decreases y.len(),
{
    let s = x + seq![c] + y;
    if y.len() == 0 {
        assert(y =~= Seq::<char>::empty());
        assert(s.drop_last() =~= x);
        assert(s.last() == c);
    } else {
        assert(y[y.len() - 1] != c);
        let y0 = y.drop_last();
        lemma_split_on_append(x, y0, c);
        assert(s.drop_last() =~= x + seq![c] + y0);
        assert(s.last() == y.last());
        let prev = split_on(x, c, c).push(y0);
        assert(prev.update(prev.len() - 1, prev.last().push(y.last())) =~= split_on(x, c, c).push(y)) by {
            assert(y0.push(y.last()) =~= y);
        }
    }
}

/// Joining separator-free pieces and cutting at the separator gives the
/// pieces back.
pub proof fn lemma_split_join(parts: Seq<Seq<char>>, c: char)
    requires
        parts.len() >= 1,
        forall|i: int, k: int| 0 <= i < parts.len() && 0 <= k < parts[i].len() ==> parts[i][k] != c,
    ensures split_on(join(parts, seq![c]), c, c) == parts,
    decreases parts.len(),
{
    if parts.len() == 1 {
        lemma_split_on_no_sep(parts[0], c);
        assert(seq![parts[0]] =~= parts);
    } else {
        let init = parts.drop_last();
        assert forall|i: int, k: int| 0 <= i < init.len() && 0 <= k < init[i].len() implies init[i][k] != c by {
            assert(init[i] == parts[i]);
        }
        lemma_split_join(init, c);
        let last = parts.last();
        assert forall|k: int| 0 <= k < last.len() implies last[k] != c by {
            assert(last == parts[parts.len() - 1]);
        }
        lemma_split_on_append(join(init, seq![c]), last, c);
        assert(init.push(last) =~= parts);
    }
}

/// The pieces of `parts` with `sep` between each two neighbours.
pub open spec fn join(parts: Seq<Seq<char>>, sep: Seq<char>) -> Seq<char>
    decreases parts.len(),
{
    if parts.len() == 0 {
        Seq::<char>::empty()
    } else if parts.len() == 1 {
        parts[0]
    } else {
        join(parts.drop_last(), sep) + sep + parts.last()
    }
}

/// The index just past the run of characters satisfying `p` that starts at `i`.
pub open spec fn lead_end(s: Seq<char>, p: spec_fn(char) -> bool, i: nat) -> nat
    decreases s.len() - i,
{
    if i >= s.len() {
        s.len()
    } else if p(s[i as int]) {
        lead_end(s, p, i + 1)
    } else {
        i
    }
}

/// The start of the run of characters satisfying `p` that ends just before `j`,
/// not going below `lo`.
pub open spec fn trail_start(s: Seq<char>, p: spec_fn(char) -> bool, lo: nat, j: nat) -> nat
    decreases j,
{
    if j <= lo {
        lo
    } else if p(s[j - 1]) {
        trail_start(s, p, lo, (j - 1) as nat)
    } else {
        j
    }
}

/// `s` without its leading and trailing characters that satisfy `p`.
pub open spec fn trim_by(s: Seq<char>, p: spec_fn(char) -> bool) -> Seq<char> {
    let a = lead_end(s, p, 0);
    s.subrange(a as int, trail_start(s, p, a, s.len()) as int)
}

pub proof fn lemma_lead_end_bounds(s: Seq<char>, p: spec_fn(char) -> bool, i: nat)
    requires i <= s.len(),
    ensures
        i <= lead_end(s, p, i) <= s.len(),
        forall|k: int| i <= k < lead_end(s, p, i) ==> p(#[trigger] s[k]),
        lead_end(s, p, i) < s.len() ==> !p(s[lead_end(s, p, i) as int]),
    decreases s.len() - i,
{
    if i < s.len() && p(s[i as int]) {
        lemma_lead_end_bounds(s, p, i + 1);
    }
}

pub proof fn lemma_trail_start_bounds(s: Seq<char>, p: spec_fn(char) -> bool, lo: nat, j: nat)
    requires lo <= j <= s.len(),
    ensures
        lo <= trail_start(s, p, lo, j) <= j,
        forall|k: int| trail_start(s, p, lo, j) <= k < j ==> p(#[trigger] s[k]),
        trail_start(s, p, lo, j) > lo ==> !p(s[trail_start(s, p, lo, j) - 1]),
    decreases j,
{
    if j > lo && p(s[j - 1]) {
        lemma_trail_start_bounds(s, p, lo, (j - 1) as nat);
    }
}

/// The last index before `end` that holds `c`, or -1.
pub open spec fn last_index_of(s: Seq<char>, c: char, end: int) -> int
    decreases end,
{
    if end <= 0 {
        -1
    } else if s[end - 1] == c {
        end - 1
    } else {
        last_index_of(s, c, end - 1)
    }
}

pub proof fn lemma_last_index_of(s: Seq<char>, c: char, end: int)
    requires 0 <= end <= s.len(),
    ensures
        -1 <= last_index_of(s, c, end) < end,
        last_index_of(s, c, end) >= 0 ==> s[last_index_of(s, c, end)] == c,
        forall|k: int| last_index_of(s, c, end) < k < end ==> #[trigger] s[k] != c,
    decreases end,
{
    if end > 0 && s[end - 1] != c {
        lemma_last_index_of(s, c, end - 1);
    }
}

/// Splits `s` at every `a` or `b`.
pub fn split_chars(s: &Vec<char>, a: char, b: char) -> (pieces: Vec<Vec<char>>)
    ensures views(pieces@) == split_on(s@, a, b),
{
    let mut pieces: Vec<Vec<char>> = Vec::new();
    let mut cur: Vec<char> = Vec::new();
    let n = s.len();
    let mut i: usize = 0;
    assert(s@.take(0) =~= Seq::<char>::empty());
    assert(views(pieces@).push(cur@) =~= split_on(s@.take(0), a, b));
    while i < n
        invariant
            n == s@.len(),
            i <= n,
            views(pieces@).push(cur@) == split_on(s@.take(i as int), a, b),
        decreases n - i,
    {
        let c = s[i];
        let ghost before = s@.take(i as int);
        proof {
            assert(s@.take(i + 1).drop_last() =~= before);
            assert(s@.take(i + 1).last() == c);
            lemma_split_on_nonempty(before, a, b);
        }
        if c == a || c == b {
            let done = cur;
            pieces.push(done);
            cur = Vec::new();
            assert(views(pieces@).push(cur@) =~= split_on(before, a, b).push(Seq::<char>::empty()));
        } else {
            let ghost old_pieces = views(pieces@);
            cur.push(c);
            assert(views(pieces@).push(cur@) =~= old_pieces.push(cur@));
        }
        i = i + 1;
    }
    assert(s@.take(n as int) =~= s@);
    let ghost old_pieces = views(pieces@);
    pieces.push(cur);
    assert(views(pieces@) =~= old_pieces.push(cur@));
    pieces
}

/// The pieces of `parts` with `sep` between each two neighbours.
pub fn join_chars(parts: &Vec<Vec<char>>, sep: char) -> (r: Vec<char>)
    ensures r@ == join(views(parts@), seq![sep]),
{
    let mut r: Vec<char> = Vec::new();
    let n = parts.len();
    let mut i: usize = 0;
    while i < n
        invariant
            n == parts@.len(),
            i <= n,
            r@ == join(views(parts@).take(i as int), seq![sep]),
        decreases n - i,
    {
        let ghost prefix = views(parts@).take(i as int);
        assert(views(parts@).take(i + 1).drop_last() =~= prefix);
        assert(views(parts@).take(i + 1).last() == parts@[i as int]@);
        if i > 0 {
            r.push(sep);
        }
        let part = &parts[i];
        let m = part.len();
        let mut j: usize = 0;
        let ghost base = r@;
        while j < m
            invariant
                m == part@.len(),
                j <= m,
                r@ == base + part@.take(j as int),
            decreases m - j,
        {
            r.push(part[j]);
            assert(part@.take(j + 1) =~= part@.take(j as int).push(part@[j as int]));
            j = j + 1;
        }
        assert(part@.take(m as int) =~= part@);
        if i == 0 {
            assert(views(parts@).take(1) =~= seq![parts@[0]@]);
            assert(r@ =~= join(views(parts@).take(1), seq![sep]));
        } else {
            assert(r@ =~= join(prefix, seq![sep]) + seq![sep] + parts@[i as int]@);
        }
        i = i + 1;
    }
    assert(views(parts@).take(n as int) =~= views(parts@));
    r
}

/// The last index of `c` in `s`, if any.
pub fn last_index_in(s: &Vec<char>, c: char) -> (r: Option<usize>)
    ensures
        match r {
            Some(k) => last_index_of(s@, c, s@.len() as int) == k as int,
            None => last_index_of(s@, c, s@.len() as int) == -1,
        },
{
    let mut j = s.len();
    while j > 0
        invariant
            j <= s@.len(),
            last_index_of(s@, c, s@.len() as int) == last_index_of(s@, c, j as int),
        decreases j,
    {
        if s[j - 1] == c {
            return Some(j - 1);
        }
        j = j - 1;
    }
    None
}

/// The characters of `s` from `lo` up to `hi`.
pub fn slice_chars(s: &Vec<char>, lo: usize, hi: usize) -> (r: Vec<char>)
    requires lo <= hi <= s@.len(),
    ensures r@ == s@.subrange(lo as int, hi as int),
{
    let mut r: Vec<char> = Vec::new();
    let mut i = lo;
    while i < hi
        invariant
            lo <= i <= hi <= s@.len(),
            r@ == s@.subrange(lo as int, i as int),
        decreases hi - i,
    {
        r.push(s[i]);
        assert(s@.subrange(lo as int, i + 1) =~= s@.subrange(lo as int, i as int).push(s@[i as int]));
        i = i + 1;
    }
    r
}

/// `v` equals the characters of `lit`.
pub fn chars_equal_str(v: &Vec<char>, lit: &str) -> (r: bool)
    ensures r == (v@ == lit@),
{
    let n = lit.unicode_len();
    if v.len() != n {
        return false;
    }
    let mut i: usize = 0;
    while i < n
        invariant
            n == lit@.len(),
            n == v@.len(),
            i <= n,
            forall|k: int| 0 <= k < i ==> v@[k] == lit@[k],
        decreases n - i,
    {
        if v[i] != lit.get_char(i) {
            return false;
        }
        i = i + 1;
    }
    assert(v@ =~= lit@);
    true
}

/// Appends the characters of `lit` to `v`.
pub fn push_str(v: &mut Vec<char>, lit: &str)
    ensures final(v)@ == old(v)@ + lit@,
{
    let n = lit.unicode_len();
    let mut i: usize = 0;
    let ghost base = v@;
    while i < n
        invariant
            n == lit@.len(),
            i <= n,
            v@ == base + lit@.take(i as int),
        decreases n - i,
    {
        v.push(lit.get_char(i));
        assert(lit@.take(i + 1) =~= lit@.take(i as int).push(lit@[i as int]));
        i = i + 1;
    }
    assert(lit@.take(n as int) =~= lit@);
}

/// Appends the characters of `w` to `v`.
pub fn push_chars(v: &mut Vec<char>, w: &Vec<char>)
    ensures final(v)@ == old(v)@ + w@,
{
    let n = w.len();
    let mut i: usize = 0;
    let ghost base = v@;
    while i < n
        invariant
            n == w@.len(),
            i <= n,
            v@ == base + w@.take(i as int),
        decreases n - i,
    {
        v.push(w[i]);
        assert(w@.take(i + 1) =~= w@.take(i as int).push(w@[i as int]));
        i = i + 1;
    }
    assert(w@.take(n as int) =~= w@);
}

} // verus!
