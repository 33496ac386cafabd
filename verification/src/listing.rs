//! The file listing: entries of the upload directory, directories first and
//! then by name, with sizes and counts.

use vstd::prelude::*;
use crate::text::{chars_of, string_from_chars, spec_to_lowercase, to_lowercase, starts_with_spec};
use crate::paths::path_extension;
use crate::content::extension_of;
use crate::size::{format_file_size, format_size_spec};

verus! {

/// An entry of the listing. Dates are milliseconds since the Unix epoch.
pub enum FileItem {
    File {
        name: String,
        path: String,
        size: u64,
        formatted_size: String,
        upload_date: i64,
        extension: String,
    },
    Directory {
        name: String,
        path: String,
        size: u64,
        formatted_size: String,
        upload_date: i64,
        children: Vec<FileItem>,
    },
}

impl FileItem {
    pub open spec fn is_dir(&self) -> bool {
        self is Directory
    }

    pub open spec fn name_view(&self) -> Seq<char> {
        match self {
            FileItem::File { name, .. } => name@,
            FileItem::Directory { name, .. } => name@,
        }
    }

    pub open spec fn size_view(&self) -> u64 {
        match self {
            FileItem::File { size, .. } => *size,
            FileItem::Directory { size, .. } => *size,
        }
    }

    /// The name of the entry.
    pub fn name(&self) -> (r: &String)
        ensures r@ == self.name_view(),
    {
        match self {
            FileItem::File { name, .. } => name,
            FileItem::Directory { name, .. } => name,
        }
    }

    /// The size of the entry; for a directory, the total of its children.
    pub fn size(&self) -> (r: u64)
        ensures r == self.size_view(),
    {
        match self {
            FileItem::File { size, .. } => *size,
            FileItem::Directory { size, .. } => *size,
        }
    }

    /// Whether the entry is a directory.
    pub fn is_directory(&self) -> (r: bool)
        ensures r == self.is_dir(),
    {
        match self {
            FileItem::File { .. } => false,
            FileItem::Directory { .. } => true,
        }
    }
}

/// The total of the sizes of `items`.
pub open spec fn total_size(items: Seq<FileItem>) -> int
    decreases items.len(),
{
    if items.len() == 0 { 0 } else { total_size(items.drop_last()) + items.last().size_view() }
}

/// The total size of a list of entries (a directory's size already counts its
/// children).
pub fn calculate_total_size(items: &Vec<FileItem>) -> (r: u64)
    requires total_size(items@) <= u64::MAX,
    ensures r == total_size(items@),
{
    let mut sum: u64 = 0;
    let mut i: usize = 0;
    while i < items.len()
        invariant
            i <= items@.len(),
            total_size(items@) <= u64::MAX,
            sum == total_size(items@.take(i as int)),
        decreases items@.len() - i,
    {
        proof {
            assert(items@.take(i + 1).drop_last() =~= items@.take(i as int));
            lemma_total_size_prefix(items@, i + 1);
        }
        sum = sum + items[i].size();
        i = i + 1;
    }
    assert(items@.take(items@.len() as int) =~= items@);
    sum
}

/// The total size of a list of entries, or `None` when it does not fit in a
/// `u64`.
pub fn total_size_of(items: &Vec<FileItem>) -> (r: Option<u64>)
    ensures
        match r {
            Some(v) => v == total_size(items@),
            None => total_size(items@) > u64::MAX,
        },
{
    let mut sum: u64 = 0;
    let mut i: usize = 0;
    while i < items.len()
        invariant
            i <= items@.len(),
            sum == total_size(items@.take(i as int)),
        decreases items@.len() - i,
    {
        proof {
            assert(items@.take(i + 1).drop_last() =~= items@.take(i as int));
            lemma_total_size_prefix(items@, i + 1);
        }
        let s = items[i].size();
        if s > u64::MAX - sum {
            proof { lemma_total_size_prefix(items@, i + 1); }
            return None;
        }
        sum = sum + s;
        i = i + 1;
    }
    assert(items@.take(items@.len() as int) =~= items@);
    Some(sum)
}

proof fn lemma_total_size_prefix(items: Seq<FileItem>, k: int)
    requires 0 <= k <= items.len(),
    ensures total_size(items.take(k)) <= total_size(items),
    decreases items.len() - k,
{
    if k < items.len() {
        lemma_total_size_prefix(items, k + 1);
        assert(items.take(k + 1).drop_last() =~= items.take(k));
    } else {
        assert(items.take(k) =~= items);
    }
}

/// The number of files in a list of entries, counting inside directories.
pub open spec fn file_count(items: Seq<FileItem>) -> nat
    decreases items,
{
    if items.len() == 0 {
        0
    } else {
        let last = items.last();
        file_count(items.drop_last()) + match last {
            FileItem::File { .. } => 1nat,
            FileItem::Directory { children, .. } => {
                proof { assert(decreases_to!(items => items[items.len() - 1])); }
                file_count(children@)
            },
        }
    }
}

/// Counts the files in a list of entries, descending into directories.
pub fn count_files(items: &Vec<FileItem>) -> (r: u64)
    requires file_count(items@) <= u64::MAX,
    ensures r == file_count(items@),
    decreases items@,
{
    let mut n: u64 = 0;
    let mut i: usize = 0;
    while i < items.len()
        invariant
            i <= items@.len(),
            file_count(items@) <= u64::MAX,
            n == file_count(items@.take(i as int)),
        decreases items@.len() - i,
    {
        proof {
            assert(items@.take(i + 1).drop_last() =~= items@.take(i as int));
            lemma_file_count_prefix(items@, i + 1);
        }
        let c: u64 = match &items[i] {
            FileItem::File { .. } => 1,
            FileItem::Directory { children, .. } => {
                proof {
                    assert(decreases_to!(items@ => items@[i as int]));
                }
                count_files(children)
            },
        };
        n = n + c;
        i = i + 1;
    }
    assert(items@.take(items@.len() as int) =~= items@);
    n
}

/// The number of files in a list of entries, or `None` when it does not fit
/// in a `u64`.
pub fn count_files_checked(items: &Vec<FileItem>) -> (r: Option<u64>)
    ensures
        match r {
            Some(v) => v == file_count(items@),
            None => file_count(items@) > u64::MAX,
        },
    decreases items@,
{
    let mut n: u64 = 0;
    let mut i: usize = 0;
    while i < items.len()
        invariant
            i <= items@.len(),
            n == file_count(items@.take(i as int)),
        decreases items@.len() - i,
    {
        proof {
            assert(items@.take(i + 1).drop_last() =~= items@.take(i as int));
            lemma_file_count_prefix(items@, i + 1);
        }
        let c: u64 = match &items[i] {
            FileItem::File { .. } => 1,
            FileItem::Directory { children, .. } => {
                proof {
                    assert(decreases_to!(items@ => items@[i as int]));
                }
                match count_files_checked(children) {
                    Some(c) => c,
                    None => {
                        proof { lemma_file_count_prefix(items@, i + 1); }
                        return None;
                    },
                }
            },
        };
        if c > u64::MAX - n {
            proof { lemma_file_count_prefix(items@, i + 1); }
            return None;
        }
        n = n + c;
        i = i + 1;
    }
    assert(items@.take(items@.len() as int) =~= items@);
    Some(n)
}

proof fn lemma_file_count_prefix(items: Seq<FileItem>, k: int)
    requires 0 <= k <= items.len(),
    ensures file_count(items.take(k)) <= file_count(items),
    decreases items.len() - k,
{
    if k < items.len() {
        lemma_file_count_prefix(items, k + 1);
        assert(items.take(k + 1).drop_last() =~= items.take(k));
    } else {
        assert(items.take(k) =~= items);
    }
}

/// `a` comes before `b` in the order of code points.
pub open spec fn name_lt(a: Seq<char>, b: Seq<char>) -> bool
    decreases a.len(),
{
    if a.len() == 0 {
        b.len() > 0
    } else if b.len() == 0 {
        false
    } else if a[0] != b[0] {
        a[0] < b[0]
    } else {
        name_lt(a.drop_first(), b.drop_first())
    }
}

/// `x` belongs before `y` in the listing: directories first, then by name.
pub open spec fn item_before(x: FileItem, y: FileItem) -> bool {
    if x.is_dir() != y.is_dir() { x.is_dir() } else { name_lt(x.name_view(), y.name_view()) }
}

/// No entry of `s` belongs before an entry ahead of it.
pub open spec fn listing_sorted(s: Seq<FileItem>) -> bool {
    forall|i: int, j: int| 0 <= i < j < s.len() ==> !item_before(#[trigger] s[j], #[trigger] s[i])
}

fn name_less(a: &String, b: &String) -> (r: bool)
    ensures r == name_lt(a@, b@),
{
    let x = chars_of(a.as_str());
    let y = chars_of(b.as_str());
    let mut i: usize = 0;
    assert(x@.skip(0) =~= x@);
    assert(y@.skip(0) =~= y@);
    while i < x.len() && i < y.len() && x[i] == y[i]
        invariant
            i <= x@.len(),
            i <= y@.len(),
            name_lt(x@, y@) == name_lt(x@.skip(i as int), y@.skip(i as int)),
        decreases x@.len() - i,
    {
        assert(x@.skip(i as int).drop_first() =~= x@.skip(i + 1));
        assert(y@.skip(i as int).drop_first() =~= y@.skip(i + 1));
        i = i + 1;
    }
    if i == x.len() {
        i < y.len()
    } else if i == y.len() {
        false
    } else {
        x[i] < y[i]
    }
}

fn before(x: &FileItem, y: &FileItem) -> (r: bool)
    ensures r == item_before(*x, *y),
{
    let dx = x.is_directory();
    let dy = y.is_directory();
    if dx != dy { dx } else { name_less(x.name(), y.name()) }
}

proof fn lemma_name_lt_total(a: Seq<char>, b: Seq<char>)
    ensures
        name_lt(a, b) ==> !name_lt(b, a),
        !name_lt(a, b) && !name_lt(b, a) ==> a == b,
    decreases a.len(),
{
    if a.len() > 0 && b.len() > 0 && a[0] == b[0] {
        lemma_name_lt_total(a.drop_first(), b.drop_first());
        if !name_lt(a, b) && !name_lt(b, a) {
            assert(a =~= seq![a[0]] + a.drop_first());
            assert(b =~= seq![b[0]] + b.drop_first());
        }
    }
}

proof fn lemma_name_lt_trans(a: Seq<char>, b: Seq<char>, c: Seq<char>)
    requires name_lt(a, b), name_lt(b, c),
    ensures name_lt(a, c),
    decreases a.len(),
{
    if a.len() > 0 && b.len() > 0 && c.len() > 0 && a[0] == b[0] && b[0] == c[0] {
        lemma_name_lt_trans(a.drop_first(), b.drop_first(), c.drop_first());
    }
}

proof fn lemma_not_before_trans(x: FileItem, y: FileItem, z: FileItem)
    requires !item_before(y, x), !item_before(z, y),
    ensures !item_before(z, x),
{
    if x.is_dir() == y.is_dir() && y.is_dir() == z.is_dir() {
        lemma_name_lt_total(x.name_view(), y.name_view());
        lemma_name_lt_total(y.name_view(), z.name_view());
        lemma_name_lt_total(x.name_view(), z.name_view());
        if name_lt(z.name_view(), x.name_view()) {
            if name_lt(x.name_view(), y.name_view()) {
                lemma_name_lt_trans(z.name_view(), x.name_view(), y.name_view());
            } else if x.name_view() == y.name_view() {
            }
            if name_lt(y.name_view(), z.name_view()) {
            } else if y.name_view() == z.name_view() {
            } else {
            }
        }
    }
}

/// Sorts a listing: directories first, then by name, keeping the entries.
pub fn sort_items(items: Vec<FileItem>) -> (r: Vec<FileItem>)
    ensures
        r@.to_multiset() == items@.to_multiset(),
        listing_sorted(r@),
{
    let mut out: Vec<FileItem> = Vec::new();
    let ghost orig = items@;
    let mut rest = items;
    assert(out@.to_multiset() =~= vstd::multiset::Multiset::<FileItem>::empty()) by {
        broadcast use vstd::seq_lib::group_to_multiset_ensures;
    }
    assert(out@.to_multiset().add(rest@.to_multiset()) =~= orig.to_multiset()) by {
        broadcast use vstd::multiset::group_multiset_axioms;
    }
    while rest.len() > 0
        invariant
            out@.to_multiset().add(rest@.to_multiset()) == orig.to_multiset(),
            listing_sorted(out@),
        decreases rest@.len(),
    {
        let ghost rest0 = rest@;
        let x = rest.remove(0);
        proof {
            assert(rest@ == rest0.remove(0));
            vstd::seq_lib::to_multiset_remove(rest0, 0);
            vstd::seq_lib::to_multiset_contains(rest0, x);
        }
        // Find where `x` goes: after every entry that it does not belong before.
        let mut k: usize = out.len();
        while k > 0 && before(&x, &out[k - 1])
            invariant
                k <= out@.len(),
                listing_sorted(out@),
                forall|j: int| k <= j < out@.len() ==> item_before(x, #[trigger] out@[j]),
            decreases k,
        {
            k = k - 1;
        }
        let ghost out0 = out@;
        out.insert(k, x);
        proof {
            assert(out@ == out0.insert(k as int, x));
            vstd::seq_lib::to_multiset_insert(out0, k as int, x);
            assert(out@.to_multiset().add(rest@.to_multiset()) =~= orig.to_multiset()) by {
                broadcast use vstd::multiset::group_multiset_axioms;
            }
            assert forall|i: int, j: int| 0 <= i < j < out@.len() implies !item_before(#[trigger] out@[j], #[trigger] out@[i]) by {
                if j == k {
                    // `out@[i]` is an earlier entry, which `x` does not belong before.
                    if k > 0 {
                        assert(!item_before(x, out0[k - 1]));
                        if i < k - 1 {
                            assert(!item_before(out0[k - 1], out0[i]));
                            lemma_not_before_trans(out0[i], out0[k - 1], x);
                        }
                    }
                } else if i == k {
                    assert(item_before(x, out0[j - 1]));
                    lemma_before_asym(x, out0[j - 1]);
                } else {
                    let oi = if i < k { i } else { i - 1 };
                    let oj = if j < k { j } else { j - 1 };
                    assert(out@[i] == out0[oi]);
                    assert(out@[j] == out0[oj]);
                }
            }
        }
    }
    assert(rest@ =~= Seq::<FileItem>::empty());
    assert(out@.to_multiset() =~= items@.to_multiset()) by {
        broadcast use vstd::multiset::group_multiset_axioms;
        broadcast use vstd::seq_lib::group_to_multiset_ensures;
    }
    out
}

proof fn lemma_before_asym(x: FileItem, y: FileItem)
    requires item_before(x, y),
    ensures !item_before(y, x),
{
    if x.is_dir() == y.is_dir() {
        lemma_name_lt_total(x.name_view(), y.name_view());
    }
}

/// A name that the listing shows: it does not start with a dot.
pub open spec fn listed_name(name: Seq<char>) -> bool {
    !(name.len() > 0 && name[0] == '.')
}

/// Whether a directory entry is shown in the listing; hidden names, the
/// metadata folder among them, are not.
pub fn is_listed(name: &str) -> (r: bool)
    ensures r == listed_name(name@),
{
    !(name.unicode_len() > 0 && name.get_char(0) == '.')
}

/// The path of an entry relative to the upload directory.
pub open spec fn child_path(relative: Seq<char>, name: Seq<char>) -> Seq<char> {
    if relative.len() == 0 { name } else { relative + seq!['/'] + name }
}

/// The path of an entry relative to the upload directory.
pub fn item_relative_path(relative: &str, name: &str) -> (r: String)
    ensures r@ == child_path(relative@, name@),
{
    if relative.unicode_len() == 0 {
        String::from_str(name)
    } else {
        let mut s = String::from_str(relative);
        s.append("/");
        s.append(name);
        proof { reveal_strlit("/"); }
        assert(s@ =~= child_path(relative@, name@));
        s
    }
}

/// The extension shown for a file: a dot and the lowercased extension, or
/// empty.
pub open spec fn shown_extension(name: Seq<char>) -> Seq<char> {
    match path_extension(name) {
        Some(e) => seq!['.'] + spec_to_lowercase(e),
        None => Seq::empty(),
    }
}

/// A file entry of the listing.
pub fn file_entry(name: String, path: String, size: u64, upload_date: i64) -> (r: FileItem)
    ensures
        r matches FileItem::File { name: n, path: p, size: s, formatted_size: f, upload_date: d, extension: e }
            && n@ == name@ && p@ == path@ && s == size && d == upload_date
            && f@ == format_size_spec(size, None) && e@ == shown_extension(name@),
{
    let extension = match extension_of(name.as_str()) {
        Some(e) => {
            let low = to_lowercase(e.as_str());
            let mut d = String::from_str(".");
            d.append(low.as_str());
            proof { reveal_strlit("."); }
            assert(d@ =~= shown_extension(name@));
            d
        },
        None => {
            assert(shown_extension(name@) =~= Seq::<char>::empty());
            String::new()
        },
    };
    let formatted_size = format_file_size(size, None);
    FileItem::File { name, path, size, formatted_size, upload_date, extension }
}

/// A directory entry of the listing; its size is the total of its children,
/// which are sorted.
pub fn directory_entry(name: String, path: String, upload_date: i64, children: Vec<FileItem>) -> (r: FileItem)
    requires total_size(children@) <= u64::MAX,
    ensures
        r matches FileItem::Directory { name: n, path: p, size: s, formatted_size: f, upload_date: d, children: c }
            && n@ == name@ && p@ == path@ && s == total_size(children@) && d == upload_date
            && f@ == format_size_spec(s, None) && c@ == children@,
{
    let size = calculate_total_size(&children);
    let formatted_size = format_file_size(size, None);
    FileItem::Directory { name, path, size, formatted_size, upload_date, children }
}

/// Directories come before files in a sorted listing.
pub proof fn law_directories_first(s: Seq<FileItem>, i: int, j: int)
    requires
        listing_sorted(s),
        0 <= i < j < s.len(),
        s[j].is_dir(),
    ensures s[i].is_dir(),
{
    assert(!item_before(s[j], s[i]));
}

} // verus!
