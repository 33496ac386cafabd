//! Whether a path lies inside the upload folder: `Path::starts_with` on Unix
//! paths, and the verdict drawn from what the file system said about the path.

use vstd::prelude::*;
use crate::paths::{normalize_path, normalize_path_spec, path_join, join_path};
use crate::seqs::{split_chars, split_on, views};
use crate::text::chars_of;

verus! {

/// The path starts at the root.
pub open spec fn is_rooted(s: Seq<char>) -> bool {
    s.len() > 0 && s[0] == '/'
}

/// The path starts with a `.` component (`.` alone or `./...`), which
/// `Path::components` keeps.
pub open spec fn leads_with_cur_dir(s: Seq<char>) -> bool {
    s.len() > 0 && s[0] == '.' && (s.len() == 1 || s[1] == '/')
}

/// A piece that `Path::components` reports as a component: not empty, not `.`.
pub open spec fn is_named_piece(p: Seq<char>) -> bool {
    p.len() > 0 && p != seq!['.']
}

/// The components after the root or a leading `.`, as `Path::components`
/// gives them on Unix: repeated and trailing separators and inner `.` vanish.
pub open spec fn named_pieces(s: Seq<char>) -> Seq<Seq<char>> {
    split_on(s, '/', '/').filter(|p: Seq<char>| is_named_piece(p))
}

/// `Path::starts_with` on Unix: the components of `base` begin the
/// components of `path`.
pub open spec fn path_starts_with_spec(path: Seq<char>, base: Seq<char>) -> bool {
    &&& is_rooted(path) == is_rooted(base)
    &&& leads_with_cur_dir(path) == leads_with_cur_dir(base)
    &&& named_pieces(base).len() <= named_pieces(path).len()
    &&& named_pieces(path).take(named_pieces(base).len() as int) == named_pieces(base)
}

/// `Path` equality on Unix: the same components.
pub open spec fn same_path_spec(a: Seq<char>, b: Seq<char>) -> bool {
    &&& is_rooted(a) == is_rooted(b)
    &&& leads_with_cur_dir(a) == leads_with_cur_dir(b)
    &&& named_pieces(a) == named_pieces(b)
}

/// Some component of the path is `..`.
pub open spec fn has_parent_component_spec(s: Seq<char>) -> bool {
    split_on(s, '/', '/').contains(seq!['.', '.'])
}

fn rooted(v: &Vec<char>) -> (r: bool)
    ensures r == is_rooted(v@),
{
    v.len() > 0 && v[0] == '/'
}

fn cur_dir_lead(v: &Vec<char>) -> (r: bool)
    ensures r == leads_with_cur_dir(v@),
{
    v.len() > 0 && v[0] == '.' && (v.len() == 1 || v[1] == '/')
}

fn named(v: &Vec<char>) -> (r: Vec<Vec<char>>)
    ensures views(r@) == named_pieces(v@),
{
    let pieces = split_chars(v, '/', '/');
    let ghost all = views(pieces@);
    let mut out: Vec<Vec<char>> = Vec::new();
    let n = pieces.len();
    let mut i: usize = 0;
    proof { reveal(Seq::filter); }
    assert(all.take(0).filter(|p: Seq<char>| is_named_piece(p)) =~= Seq::<Seq<char>>::empty());
    while i < n
        invariant
            n == pieces@.len(),
            all == views(pieces@),
            all == split_on(v@, '/', '/'),
            i <= n,
            views(out@) == all.take(i as int).filter(|p: Seq<char>| is_named_piece(p)),
        decreases n - i,
    {
        let p = &pieces[i];
        proof {
            assert(all.take(i + 1) =~= all.take(i as int).push(p@));
            all.take(i as int).lemma_filter_push(p@, |p: Seq<char>| is_named_piece(p));
        }
        let dot = p.len() == 1 && p[0] == '.';
        assert(dot == (p@ == seq!['.'])) by {
            if p@ == seq!['.'] { assert(p@[0] == '.'); }
            if dot { assert(p@ =~= seq!['.']); }
        }
        if p.len() > 0 && !dot {
            let ghost before = views(out@);
            let copy = crate::seqs::slice_chars(p, 0, p.len());
            assert(copy@ =~= p@);
            out.push(copy);
            assert(views(out@) =~= before.push(p@));
        }
        i = i + 1;
    }
    assert(all.take(n as int) =~= all);
    out
}

fn same_chars(a: &Vec<char>, b: &Vec<char>) -> (r: bool)
    ensures r == (a@ == b@),
{
    if a.len() != b.len() {
        return false;
    }
    let mut i: usize = 0;
    while i < a.len()
        invariant
            a@.len() == b@.len(),
            i <= a@.len(),
            forall|k: int| 0 <= k < i ==> a@[k] == b@[k],
        decreases a@.len() - i,
    {
        if a[i] != b[i] {
            return false;
        }
        i = i + 1;
    }
    assert(a@ =~= b@);
    true
}

/// Whether the first `m` pieces of `a` and `b` agree.
fn same_prefix(a: &Vec<Vec<char>>, b: &Vec<Vec<char>>, m: usize) -> (r: bool)
    requires m <= a@.len(), m <= b@.len(),
    ensures r == (views(a@).take(m as int) == views(b@).take(m as int)),
{
    let mut i: usize = 0;
    while i < m
        invariant
            m <= a@.len(), m <= b@.len(),
            i <= m,
            forall|k: int| 0 <= k < i ==> views(a@)[k] == views(b@)[k],
        decreases m - i,
    {
        if !same_chars(&a[i], &b[i]) {
            assert(views(a@).take(m as int)[i as int] != views(b@).take(m as int)[i as int]);
            return false;
        }
        i = i + 1;
    }
    assert(views(a@).take(m as int) =~= views(b@).take(m as int));
    true
}

/// `Path::starts_with` on Unix paths.
pub fn path_starts_with(path: &str, base: &str) -> (r: bool)
    ensures r == path_starts_with_spec(path@, base@),
{
    let p = chars_of(path);
    let b = chars_of(base);
    if rooted(&p) != rooted(&b) || cur_dir_lead(&p) != cur_dir_lead(&b) {
        return false;
    }
    let pp = named(&p);
    let bp = named(&b);
    if bp.len() > pp.len() {
        return false;
    }
    let m = bp.len();
    assert(views(bp@).take(m as int) =~= views(bp@));
    same_prefix(&pp, &bp, m)
}

/// `Path` equality on Unix paths.
pub fn same_path(a: &str, b: &str) -> (r: bool)
    ensures r == same_path_spec(a@, b@),
{
    let x = chars_of(a);
    let y = chars_of(b);
    if rooted(&x) != rooted(&y) || cur_dir_lead(&x) != cur_dir_lead(&y) {
        return false;
    }
    let xp = named(&x);
    let yp = named(&y);
    if xp.len() != yp.len() {
        assert(views(xp@).len() != views(yp@).len());
        return false;
    }
    let m = xp.len();
    let r = same_prefix(&xp, &yp, m);
    assert(views(xp@).take(m as int) =~= views(xp@));
    assert(views(yp@).take(m as int) =~= views(yp@));
    r
}

/// Whether some component of the path is `..`.
pub fn has_parent_component(path: &str) -> (r: bool)
    ensures r == has_parent_component_spec(path@),
{
    let v = chars_of(path);
    let pieces = split_chars(&v, '/', '/');
    let n = pieces.len();
    let mut i: usize = 0;
    while i < n
        invariant
            n == pieces@.len(),
            views(pieces@) == split_on(path@, '/', '/'),
            i <= n,
            forall|k: int| 0 <= k < i ==> views(pieces@)[k] != seq!['.', '.'],
        decreases n - i,
    {
        let p = &pieces[i];
        if p.len() == 2 && p[0] == '.' && p[1] == '.' {
            assert(p@ =~= seq!['.', '.']);
            assert(views(pieces@)[i as int] == seq!['.', '.']);
            return true;
        }
        assert(views(pieces@)[i as int] != seq!['.', '.']) by {
            if p@ == seq!['.', '.'] { assert(p@[0] == '.' && p@[1] == '.'); }
        }
        i = i + 1;
    }
    false
}

/// What the file system said about a path whose place is checked.
pub enum Resolution {
    /// The canonical form of a path that must exist, or `None` when it does
    /// not exist or cannot be resolved.
    Existing(Option<String>),
    /// For a path that need not exist: the absolute path, its deepest part
    /// found on disk (`existing`) and the rest (`suffix`), and the canonical
    /// form of `existing`, or `None` when it cannot be resolved.
    Walked { absolute: String, existing: String, suffix: String, canonical_existing: Option<String> },
}

/// The verdict on whether a path lies inside the upload folder, whose
/// canonical form is `upload_dir` (`None` when it cannot be resolved).
/// A path that must exist lies inside when its canonical form starts with the
/// folder. One that need not exist is refused for a `..` component; when
/// nothing or everything of it was found on disk its normalized absolute form
/// is compared, otherwise both the canonical found part and that part joined
/// with the rest must start with the folder.
pub open spec fn within_upload_dir_spec(upload_dir: Option<Seq<char>>, file_path: Seq<char>, require_exists: bool, res: Resolution) -> bool {
    match upload_dir {
        None => false,
        Some(dir) => if require_exists {
            match res {
                Resolution::Existing(Some(c)) => path_starts_with_spec(c@, dir),
                _ => false,
            }
        } else if has_parent_component_spec(file_path) {
            false
        } else {
            match res {
                Resolution::Walked { absolute, existing, suffix, canonical_existing } =>
                    if same_path_spec(suffix@, existing@) || existing@.len() == 0 {
                        path_starts_with_spec(normalize_path_spec(absolute@), dir)
                    } else {
                        match canonical_existing {
                            Some(ce) => path_starts_with_spec(ce@, dir)
                                && path_starts_with_spec(path_join(ce@, suffix@), dir),
                            None => false,
                        }
                    },
                _ => false,
            }
        },
    }
}

/// Whether a path lies inside the upload folder, from what the file system
/// said about it.
pub fn within_upload_dir(upload_dir: Option<&str>, file_path: &str, require_exists: bool, res: &Resolution) -> (r: bool)
    ensures r == within_upload_dir_spec(
        match upload_dir { Some(d) => Some(d@), None => None },
        file_path@, require_exists, *res,
    ),
{
    let dir = match upload_dir {
        Some(d) => d,
        None => return false,
    };
    if require_exists {
        return match res {
            Resolution::Existing(Some(c)) => path_starts_with(c.as_str(), dir),
            _ => false,
        };
    }
    if has_parent_component(file_path) {
        return false;
    }
    match res {
        Resolution::Walked { absolute, existing, suffix, canonical_existing } => {
            if same_path(suffix.as_str(), existing.as_str()) || existing.as_str().unicode_len() == 0 {
                let normalized = normalize_path(absolute.as_str());
                path_starts_with(normalized.as_str(), dir)
            } else {
                match canonical_existing {
                    Some(ce) => {
                        if !path_starts_with(ce.as_str(), dir) {
                            return false;
                        }
                        let joined = join_path(&chars_of(ce.as_str()), &chars_of(suffix.as_str()));
                        let joined_s = crate::text::string_from_chars(&joined);
                        path_starts_with(joined_s.as_str(), dir)
                    },
                    None => false,
                }
            }
        },
        _ => false,
    }
}

/// A path that need not exist is refused whenever one of its components is
/// `..`, and one that must exist is let in only when its canonical form
/// starts with the upload folder.
pub proof fn law_containment_refuses_escapes(dir: Seq<char>, file_path: Seq<char>, res: Resolution)
    ensures
        has_parent_component_spec(file_path) ==> !within_upload_dir_spec(Some(dir), file_path, false, res),
        within_upload_dir_spec(Some(dir), file_path, true, res)
            ==> (res matches Resolution::Existing(Some(c)) && path_starts_with_spec(c@, dir)),
        !within_upload_dir_spec(None, file_path, true, res),
        !within_upload_dir_spec(None, file_path, false, res),
{
}

} // verus!
