//! Resumable chunked uploads: validation of a new upload, identifiers, where
//! files and their metadata go, unique names, folder remapping per batch,
//! and how each incoming chunk is applied.

use vstd::prelude::*;
use crate::paths::{path_join, path_parent, path_file_name, path_file_stem, path_extension, parent_of, file_name, stem_and_extension, join_path};
use crate::text::{chars_of, string_from_chars, decimal, hex, u64_to_decimal, u128_to_hex, spec_to_lowercase, to_lowercase, is_ascii_digit_spec, is_ascii_lower_spec, is_ascii_upper_spec, ascii_lower, ascii_lower_char};
use crate::seqs::{push_str, push_chars};
use crate::table::StrMap;
use crate::ratelimit::processed;
use crate::batch::{is_valid_batch_id_spec, batch_id_split_at};
use crate::content::extension_of;
use rand::distr::SampleString;

verus! {

/// The body of a request that starts an upload.
pub struct InitUploadPayload {
    pub filename: String,
    pub file_size: u64,
}

/// The answer to a request that starts an upload.
pub struct InitUploadResponse {
    pub upload_id: String,
}

/// What is known of an upload in progress.
pub struct UploadMetadata {
    pub upload_id: String,
    pub original_filename: String,
    pub file_path: String,
    pub partial_file_path: String,
    pub file_size: u64,
    pub bytes_received: u64,
    pub batch_id: String,
    pub created_at: u64,
    pub last_activity: u64,
}

/// Where the metadata of an upload is kept: `<upload dir>/.metadata/<id>.meta`.
pub open spec fn metadata_path_spec(upload_dir: Seq<char>, upload_id: Seq<char>) -> Seq<char> {
    path_join(path_join(upload_dir, ".metadata"@), upload_id + ".meta"@)
}

/// The file that holds the metadata of the upload `upload_id`.
pub fn get_metadata_path(upload_dir: &str, upload_id: &str) -> (r: String)
    ensures r@ == metadata_path_spec(upload_dir@, upload_id@),
{
    let dir = chars_of(upload_dir);
    let mut meta: Vec<char> = Vec::new();
    push_str(&mut meta, ".metadata");
    let inner = join_path(&dir, &meta);
    let mut name = chars_of(upload_id);
    push_str(&mut name, ".meta");
    string_from_chars(&join_path(&inner, &name))
}

/// Two dots stand at `i` and `i + 1`.
pub open spec fn dots_at(s: Seq<char>, i: int) -> bool {
    s[i] == '.' && s[i + 1] == '.'
}

/// `s` holds two dots in a row.
pub open spec fn has_dot_dot(s: Seq<char>) -> bool {
    exists|i: int| 0 <= i < s.len() - 1 && #[trigger] dots_at(s, i)
}

/// An upload id may name a metadata file: it holds no `..`.
pub fn upload_id_allowed(upload_id: &str) -> (r: bool)
    ensures r == !has_dot_dot(upload_id@),
{
    let v = chars_of(upload_id);
    let n = v.len();
    if n < 2 {
        return true;
    }
    let mut i: usize = 0;
    while i < n - 1
        invariant
            v@ == upload_id@,
            n == v@.len(),
            n >= 2,
            forall|k: int| 0 <= k < i && k < n - 1 ==> !#[trigger] dots_at(v@, k),
        decreases n - i,
    {
        if v[i] == '.' && v[i + 1] == '.' {
            assert(dots_at(upload_id@, i as int));
            return false;
        }
        i = i + 1;
    }
    true
}

/// Why an upload request is refused.
pub enum UploadRejection {
    MissingFilename,
    FileTooLarge { limit: u64 },
    StorageLimitExceeded,
    InvalidBatchId,
    ExtensionNotAllowed { received: String },
}

/// The HTTP status that answers a refusal.
pub open spec fn rejection_status(r: UploadRejection) -> u16 {
    match r {
        UploadRejection::MissingFilename => 400,
        UploadRejection::FileTooLarge { .. } => 413,
        UploadRejection::StorageLimitExceeded => 507,
        UploadRejection::InvalidBatchId => 400,
        UploadRejection::ExtensionNotAllowed { .. } => 400,
    }
}

/// The error text that answers a refusal.
pub open spec fn rejection_message(r: UploadRejection) -> Seq<char> {
    match r {
        UploadRejection::MissingFilename => "Missing filename"@,
        UploadRejection::FileTooLarge { .. } => "File too large"@,
        UploadRejection::StorageLimitExceeded => "Storage limit exceeded"@,
        UploadRejection::InvalidBatchId => "Invalid batch ID format"@,
        UploadRejection::ExtensionNotAllowed { .. } => "File type not allowed"@,
    }
}

impl UploadRejection {
    /// The HTTP status and error text of the answer.
    pub fn status_and_message(&self) -> (r: (u16, String))
        ensures
            r.0 == rejection_status(*self),
            r.1@ == rejection_message(*self),
    {
        match self {
            UploadRejection::MissingFilename => (400, String::from_str("Missing filename")),
            UploadRejection::FileTooLarge { .. } => (413, String::from_str("File too large")),
            UploadRejection::StorageLimitExceeded => (507, String::from_str("Storage limit exceeded")),
            UploadRejection::InvalidBatchId => (400, String::from_str("Invalid batch ID format")),
            UploadRejection::ExtensionNotAllowed { .. } => (400, String::from_str("File type not allowed")),
        }
    }
}

/// Checks a new upload: it has a name, is not larger than `max_file_size`, and,
/// when storage is limited, fits beside the `used_bytes` already stored.
pub fn validate_upload(filename: &str, file_size: u64, max_file_size: u64, max_storage_limit: Option<u64>, used_bytes: u64) -> (r: Result<(), UploadRejection>)
    requires
        max_storage_limit is Some ==> used_bytes + file_size <= u64::MAX,
    ensures
        r is Ok <==> (filename@.len() > 0 && file_size <= max_file_size
            && (max_storage_limit matches Some(limit) ==> used_bytes + file_size <= limit)),
        r matches Err(UploadRejection::MissingFilename) ==> filename@.len() == 0,
        r matches Err(UploadRejection::FileTooLarge { limit }) ==> filename@.len() > 0 && file_size > max_file_size && limit == max_file_size,
        r matches Err(UploadRejection::StorageLimitExceeded) ==> filename@.len() > 0 && file_size <= max_file_size
            && (max_storage_limit matches Some(limit) && used_bytes + file_size > limit),
        r matches Err(e) ==> (e is MissingFilename || e is FileTooLarge || e is StorageLimitExceeded),
{
    if filename.unicode_len() == 0 {
        return Err(UploadRejection::MissingFilename);
    }
    if file_size > max_file_size {
        return Err(UploadRejection::FileTooLarge { limit: max_file_size });
    }
    match max_storage_limit {
        Some(limit) => {
            if used_bytes + file_size > limit {
                return Err(UploadRejection::StorageLimitExceeded);
            }
        },
        None => {},
    }
    Ok(())
}

/// The extension of a file name as the allow-list spells it: a dot and the
/// lowercased extension, or empty.
pub open spec fn dotted_extension(f: Seq<char>) -> Seq<char> {
    match path_extension(f) {
        Some(e) => seq!['.'] + spec_to_lowercase(e),
        None => Seq::empty(),
    }
}

/// The views of a list of strings.
pub open spec fn string_views(v: Seq<String>) -> Seq<Seq<char>> {
    v.map_values(|s: String| s@)
}

/// A file may be stored: there is no allow-list, it has no extension, or its
/// extension is on the list.
pub open spec fn extension_allowed(allowed: Option<Seq<Seq<char>>>, f: Seq<char>) -> bool {
    match allowed {
        None => true,
        Some(list) => dotted_extension(f).len() == 0 || list.contains(dotted_extension(f)),
    }
}

/// Checks a file's extension against the configured allow-list.
pub fn validate_extension(allowed: Option<&Vec<String>>, safe_filename: &str) -> (r: Result<(), UploadRejection>)
    ensures
        r is Ok <==> extension_allowed(match allowed { Some(l) => Some(string_views(l@)), None => None }, safe_filename@),
        r matches Err(e) ==> (e matches UploadRejection::ExtensionNotAllowed { received } && received@ == dotted_extension(safe_filename@)),
{
    let list = match allowed {
        None => return Ok(()),
        Some(l) => l,
    };
    let ext = match extension_of(safe_filename) {
        Some(e) => {
            let low = to_lowercase(e.as_str());
            let mut d = String::from_str(".");
            d.append(low.as_str());
            proof { reveal_strlit("."); }
            assert(d@ =~= dotted_extension(safe_filename@));
            d
        },
        None => {
            assert(dotted_extension(safe_filename@) =~= Seq::<char>::empty());
            return Ok(());
        },
    };
    let ghost views = string_views(list@);
    let mut i: usize = 0;
    while i < list.len()
        invariant
            allowed == Some(list),
            views == string_views(list@),
            i <= list@.len(),
            ext@ == dotted_extension(safe_filename@),
            forall|k: int| 0 <= k < i ==> views[k] != ext@,
        decreases list@.len() - i,
    {
        if list[i] == ext {
            assert(views[i as int] == ext@);
            assert(views.contains(ext@));
            return Ok(());
        }
        i = i + 1;
    }
    assert(!views.contains(ext@));
    Err(UploadRejection::ExtensionNotAllowed { received: ext })
}

/// The current time in milliseconds since the Unix epoch, from
/// `chrono::Utc::now().timestamp_millis()`. `Utc::now` measures the time since
/// the epoch as an unsigned duration (and panics before it), so the value is
/// never negative; which value it is depends on the clock.
#[verifier::external_body]
fn now_millis() -> (r: i64)
    ensures r >= 0,
{
    chrono::Utc::now().timestamp_millis()
}

/// `n` random ASCII letters and digits, from
/// `rand::distr::Alphanumeric.sample_string(&mut rand::rng(), n)`. Its source
/// appends `n` characters drawn from `A-Z`, `a-z` and `0-9`.
#[verifier::external_body]
fn random_alphanumeric(n: usize) -> (r: String)
    ensures
        r@.len() == n,
        forall|i: int| 0 <= i < r@.len() ==> is_ascii_alnum(#[trigger] r@[i]),
{
    rand::distr::Alphanumeric.sample_string(&mut rand::rng(), n)
}

/// A random 128-bit number, from `rand::random::<u128>()`.
#[verifier::external_body]
fn random_u128() -> (r: u128) {
    rand::random::<u128>()
}

/// `c` is an ASCII letter or digit.
pub open spec fn is_ascii_alnum(c: char) -> bool {
    is_ascii_digit_spec(c) || is_ascii_lower_spec(c) || is_ascii_upper_spec(c)
}

/// The decimal numeral of a signed number.
pub open spec fn signed_decimal(n: int) -> Seq<char> {
    if n < 0 { seq!['-'] + decimal((-n) as nat) } else { decimal(n as nat) }
}

fn i64_to_decimal(n: i64) -> (r: String)
    ensures r@ == signed_decimal(n as int),
{
    if n < 0 {
        let m: u64 = if n == i64::MIN { 9223372036854775808u64 } else { (-n) as u64 };
        let d = u64_to_decimal(m);
        let mut s = String::from_str("-");
        s.append(d.as_str());
        proof { reveal_strlit("-"); }
        assert(s@ =~= signed_decimal(n as int));
        s
    } else {
        u64_to_decimal(n as u64)
    }
}

/// A batch id made of a timestamp and random letters and digits: the timestamp
/// in decimal, a hyphen, and the letters in lowercase.
pub open spec fn batch_id_spec(now: int, random: Seq<char>) -> Seq<char> {
    signed_decimal(now) + seq!['-'] + random.map_values(|c: char| ascii_lower(c))
}

/// Builds a batch id from a timestamp in milliseconds and random ASCII letters
/// and digits, which are lowercased.
pub fn batch_id_from(now: i64, random: &str) -> (r: String)
    requires forall|i: int| 0 <= i < random@.len() ==> is_ascii_alnum(#[trigger] random@[i]),
    ensures r@ == batch_id_spec(now as int, random@),
{
    let mut s = i64_to_decimal(now);
    s.append("-");
    let v = chars_of(random);
    let mut low: Vec<char> = Vec::new();
    let mut i: usize = 0;
    while i < v.len()
        invariant
            v@ == random@,
            i <= v@.len(),
            low@ == v@.take(i as int).map_values(|c: char| ascii_lower(c)),
        decreases v@.len() - i,
    {
        low.push(ascii_lower_char(v[i]));
        assert(v@.take(i + 1).map_values(|c: char| ascii_lower(c))
            =~= v@.take(i as int).map_values(|c: char| ascii_lower(c)).push(ascii_lower(v@[i as int])));
        i = i + 1;
    }
    assert(v@.take(v@.len() as int) =~= v@);
    let l = string_from_chars(&low);
    s.append(l.as_str());
    proof { reveal_strlit("-"); }
    assert(s@ =~= batch_id_spec(now as int, random@));
    s
}

/// A new batch id: the current time in milliseconds, a hyphen, and nine random
/// lowercase letters or digits. It is always a valid batch id.
pub fn generate_batch_id() -> (r: String)
    ensures
        is_valid_batch_id_spec(r@),
        exists|now: i64, random: Seq<char>| now >= 0 && random.len() == 9
            && (forall|i: int| 0 <= i < 9 ==> is_ascii_alnum(#[trigger] random[i]))
            && r@ == batch_id_spec(now as int, random),
{
    let now = now_millis();
    let random = random_alphanumeric(9);
    let r = batch_id_from(now, random.as_str());
    proof { law_generated_batch_id_valid(now as int, random@); }
    r
}

proof fn lemma_decimal_digits(n: nat)
    ensures
        decimal(n).len() >= 1,
        forall|i: int| 0 <= i < decimal(n).len() ==> is_ascii_digit_spec(#[trigger] decimal(n)[i]),
    decreases n,
{
    if n >= 10 {
        lemma_decimal_digits(n / 10);
    }
}

/// A batch id built from a timestamp at or after the epoch and nine random
/// letters or digits is well-formed.
pub proof fn law_generated_batch_id_valid(now: int, random: Seq<char>)
    requires
        now >= 0,
        random.len() == 9,
        forall|i: int| 0 <= i < 9 ==> is_ascii_alnum(#[trigger] random[i]),
    ensures is_valid_batch_id_spec(batch_id_spec(now, random)),
{
    let d = decimal(now as nat);
    lemma_decimal_digits(now as nat);
    let s = batch_id_spec(now, random);
    let k = d.len() as int;
    assert(s[k] == '-');
    assert forall|j: int| 0 <= j < k implies is_ascii_digit_spec(#[trigger] s[j]) by {
        assert(s[j] == d[j]);
    }
    assert forall|j: int| k < j < s.len() implies (is_ascii_lower_spec(#[trigger] s[j]) || is_ascii_digit_spec(s[j])) by {
        assert(s[j] == ascii_lower(random[j - k - 1]));
    }
    assert(batch_id_split_at(s, k));
}

/// A new upload id: a random 128-bit number in lowercase hexadecimal.
pub fn new_upload_id() -> (r: String)
    ensures exists|v: u128| r@ == hex(v as nat),
{
    let v = random_u128();
    u128_to_hex(v)
}

/// Whether a path names something on disk, from `std::path::Path::exists`.
/// The answer depends on the file system and is not stated.
#[verifier::external_body]
fn path_exists(p: &str) -> (r: bool) {
    std::path::Path::new(p).exists()
}

/// The file system was asked, through `path_exists`, whether the path `p`
/// exists, and answered `taken`.
pub closed spec fn reported(p: Seq<char>, taken: bool) -> bool {
    exists|s: &str| s@ == p && call_ensures(path_exists, (s,), taken)
}

/// Asks `exists` about `path`; the answer is what a call of it gave.
fn ask<F: Fn(&str) -> bool>(check: &F, path: &str) -> (r: bool)
    requires call_requires(*check, (path,)),
    ensures call_ensures(*check, (path,), r),
{
    check(path)
}

/// Whether `path` exists, as the file system reports it; the answer is
/// recorded in `reported`.
fn probe(path: &str) -> (r: bool)
    ensures reported(path@, r),
{
    let f = path_exists;
    let r = ask(&f, path);
    assert(call_ensures(path_exists, (path,), r));
    r
}

/// The `counter`-th alternative for a file path that is taken:
/// `<parent>/<stem> (<counter>)<.ext>`, where a path without a parent is put
/// in `upload_dir`.
pub open spec fn unique_file_candidate(base: Seq<char>, upload_dir: Seq<char>, counter: nat) -> Seq<char> {
    let parent = match path_parent(base) { Some(p) => p, None => upload_dir };
    let ext = match path_extension(base) { Some(e) => seq!['.'] + e, None => Seq::empty() };
    let stem = match path_file_stem(base) { Some(s) => s, None => Seq::empty() };
    path_join(parent, stem + " ("@ + decimal(counter) + ")"@ + ext)
}

/// The `counter`-th alternative for a file path that is taken.
pub fn unique_file_name_candidate(base: &str, upload_dir: &str, counter: u64) -> (r: String)
    ensures r@ == unique_file_candidate(base@, upload_dir@, counter as nat),
{
    let b = chars_of(base);
    let parent = match parent_of(&b) {
        Some(p) => p,
        None => chars_of(upload_dir),
    };
    let (stem, ext) = match file_name(&b) {
        Some(n) => stem_and_extension(&n),
        None => (Vec::new(), None),
    };
    let mut name = stem;
    push_str(&mut name, " (");
    let c = u64_to_decimal(counter);
    let cv = chars_of(c.as_str());
    push_chars(&mut name, &cv);
    push_str(&mut name, ")");
    match ext {
        Some(e) => {
            name.push('.');
            push_chars(&mut name, &e);
        },
        None => {},
    }
    let ghost st = match path_file_stem(base@) { Some(s) => s, None => Seq::<char>::empty() };
    let ghost ex = match path_extension(base@) { Some(e) => seq!['.'] + e, None => Seq::<char>::empty() };
    assert(name@ =~= st + " ("@ + decimal(counter as nat) + ")"@ + ex);
    string_from_chars(&join_path(&parent, &name))
}

/// The position of the first `false` in `taken`, if any.
pub open spec fn first_free(taken: Seq<bool>) -> Option<nat>
    decreases taken.len(),
{
    if taken.len() == 0 {
        None
    } else if !taken[0] {
        Some(0)
    } else {
        match first_free(taken.drop_first()) {
            Some(i) => Some(i + 1),
            None => None,
        }
    }
}

/// `first_free` is the free position that only taken ones precede.
pub proof fn lemma_first_free(taken: Seq<bool>)
    ensures
        match first_free(taken) {
            Some(i) => i < taken.len() && !taken[i as int] && forall|j: int| 0 <= j < i ==> #[trigger] taken[j],
            None => forall|j: int| 0 <= j < taken.len() ==> #[trigger] taken[j],
        },
    decreases taken.len(),
{
    if taken.len() > 0 && taken[0] {
        let rest = taken.drop_first();
        lemma_first_free(rest);
        assert forall|j: int| 0 < j < taken.len() implies taken[j] == rest[j - 1] by {}
        match first_free(rest) {
            Some(i) => {
                assert forall|j: int| 0 <= j < i + 1 implies #[trigger] taken[j] by {
                    if j > 0 { assert(rest[j - 1]); }
                }
            },
            None => {
                assert forall|j: int| 0 <= j < taken.len() implies #[trigger] taken[j] by {
                    if j > 0 { assert(rest[j - 1]); }
                }
            },
        }
    }
}

fn first_free_index(taken: &Vec<bool>) -> (r: Option<usize>)
    ensures
        match first_free(taken@) {
            Some(i) => r matches Some(j) && j == i,
            None => r is None,
        },
{
    let n = taken.len();
    let mut i: usize = 0;
    assert(taken@.skip(0) =~= taken@);
    while i < n
        invariant
            n == taken@.len(),
            i <= n,
            first_free(taken@) == (match first_free(taken@.skip(i as int)) {
                Some(k) => Some((k + i) as nat),
                None => None::<nat>,
            }),
        decreases n - i,
    {
        let ghost rest = taken@.skip(i as int);
        assert(rest.drop_first() =~= taken@.skip(i + 1));
        assert(rest[0] == taken@[i as int]);
        if !taken[i] {
            return Some(i);
        }
        i = i + 1;
    }
    assert(taken@.skip(n as int).len() == 0);
    None
}

/// Candidate `i` for a new file: `base` itself for 0, else the `i`-th
/// numbered alternative.
pub open spec fn unique_file_at(base: Seq<char>, upload_dir: Seq<char>, i: nat) -> Seq<char> {
    if i == 0 { base } else { unique_file_candidate(base, upload_dir, i) }
}

/// Picks the path for a new file from what the existence checks answered:
/// `taken[0]` for `base_path`, `taken[k]` for its `k`-th alternative. The base
/// is chosen only if it was found free, and alternative `k` only if the base
/// and alternatives 1..k-1 were taken and `k` was free; without a free answer
/// nothing is chosen.
pub fn pick_unique_filename(base_path: &str, upload_dir: &str, taken: &Vec<bool>) -> (r: Option<String>)
    ensures
        match first_free(taken@) {
            Some(i) => r matches Some(p) && p@ == unique_file_at(base_path@, upload_dir@, i),
            None => r is None,
        },
        r is Some <==> exists|i: int| 0 <= i < taken@.len() && !taken@[i],
        r matches Some(p) ==> exists|i: int| 0 <= i < taken@.len() && !taken@[i]
            && (forall|j: int| 0 <= j < i ==> #[trigger] taken@[j])
            && p@ == unique_file_at(base_path@, upload_dir@, i as nat),
{
    proof { lemma_first_free(taken@); }
    match first_free_index(taken) {
        Some(i) => {
            assert(first_free(taken@) == Some(i as nat));
            let p = if i == 0 {
                String::from_str(base_path)
            } else {
                unique_file_name_candidate(base_path, upload_dir, i as u64)
            };
            assert(p@ == unique_file_at(base_path@, upload_dir@, i as nat));
            assert(0 <= i < taken@.len() && !taken@[i as int]
                && (forall|j: int| 0 <= j < i ==> #[trigger] taken@[j]));
            Some(p)
        },
        None => None,
    }
}

/// A path for a new file that does not exist yet: `base_path` itself, or the
/// first of `<stem> (1)<.ext>`, `<stem> (2)<.ext>`, ... beside it that is free.
/// The file system is asked about each candidate in turn and the answers are
/// handed to `pick_unique_filename`: the result is the first candidate
/// reported free, and every candidate before it was reported taken. Should
/// every candidate up to `i32::MAX` be taken, the last one is returned.
pub fn get_unique_filename(base_path: &str, upload_dir: &str) -> (r: String)
    ensures
        exists|i: nat| i <= i32::MAX && r@ == unique_file_at(base_path@, upload_dir@, i)
            && (forall|j: nat| j < i ==> reported(#[trigger] unique_file_at(base_path@, upload_dir@, j), true))
            && (i < i32::MAX ==> reported(unique_file_at(base_path@, upload_dir@, i), false)),
{
    let mut answers: Vec<bool> = Vec::new();
    let mut counter: u64 = 0;
    let mut found = false;
    while !found && counter <= 0x7fff_ffff
        invariant
            counter <= 0x8000_0000,
            answers@.len() == counter,
            forall|j: int| 0 <= j < counter ==> reported(#[trigger] unique_file_at(base_path@, upload_dir@, j as nat), answers@[j]),
            !found ==> forall|j: int| 0 <= j < counter ==> #[trigger] answers@[j],
            found ==> counter >= 1 && !answers@[counter - 1] && forall|j: int| 0 <= j < counter - 1 ==> #[trigger] answers@[j],
        decreases 0x8000_0000 - counter,
    {
        let candidate = if counter == 0 {
            String::from_str(base_path)
        } else {
            unique_file_name_candidate(base_path, upload_dir, counter)
        };
        assert(candidate@ == unique_file_at(base_path@, upload_dir@, counter as nat));
        let taken = probe(candidate.as_str());
        answers.push(taken);
        found = !taken;
        counter = counter + 1;
    }
    proof { lemma_first_free(answers@); }
    match pick_unique_filename(base_path, upload_dir, &answers) {
        Some(p) => {
            let ghost i = (counter - 1) as nat;
            assert(first_free(answers@) == Some(i)) by {
                if !found {
                    assert(answers@[counter - 1]);
                }
                match first_free(answers@) {
                    Some(k) => {
                        if k < i { assert(answers@[k as int]); }
                        if k > i { assert(!answers@[i as int]); }
                    },
                    None => { assert(!answers@[i as int]); },
                }
            }
            assert forall|j: nat| j < i implies reported(#[trigger] unique_file_at(base_path@, upload_dir@, j), true) by {
                let k: int = j as int;
                assert(reported(unique_file_at(base_path@, upload_dir@, k as nat), answers@[k]));
                assert(answers@[k]);
            }
            assert(reported(unique_file_at(base_path@, upload_dir@, ((counter - 1) as int) as nat), answers@[counter - 1]));
            assert(reported(unique_file_at(base_path@, upload_dir@, i), false));
            p
        },
        None => {
            assert(counter == 0x8000_0000);
            let last = unique_file_name_candidate(base_path, upload_dir, 0x7fff_ffff);
            assert(last@ == unique_file_at(base_path@, upload_dir@, 0x7fff_ffff));
            assert forall|j: nat| j < 0x7fff_ffff implies reported(#[trigger] unique_file_at(base_path@, upload_dir@, j), true) by {
                let k: int = j as int;
                assert(reported(unique_file_at(base_path@, upload_dir@, k as nat), answers@[k]));
                assert(answers@[k]);
            }
            last
        },
    }
}

/// The `counter`-th alternative for a folder path that is taken:
/// `<parent>/<name> (<counter>)`.
pub open spec fn unique_folder_candidate(folder: Seq<char>, counter: nat) -> Seq<char> {
    let parent = match path_parent(folder) { Some(p) => p, None => Seq::empty() };
    let name = match path_file_name(folder) { Some(n) => n, None => Seq::empty() };
    path_join(parent, name + " ("@ + decimal(counter) + ")"@)
}

/// The `counter`-th alternative for a folder path that is taken.
pub fn unique_folder_name_candidate(folder: &str, counter: u64) -> (r: String)
    ensures r@ == unique_folder_candidate(folder@, counter as nat),
{
    let f = chars_of(folder);
    let parent = match parent_of(&f) {
        Some(p) => p,
        None => Vec::new(),
    };
    let mut name = match file_name(&f) {
        Some(n) => n,
        None => Vec::new(),
    };
    push_str(&mut name, " (");
    let c = u64_to_decimal(counter);
    let cv = chars_of(c.as_str());
    push_chars(&mut name, &cv);
    push_str(&mut name, ")");
    string_from_chars(&join_path(&parent, &name))
}

/// Candidate `i` for a new folder: `folder` itself for 0, else the `i`-th
/// numbered alternative.
pub open spec fn unique_folder_at(folder: Seq<char>, i: nat) -> Seq<char> {
    if i == 0 { folder } else { unique_folder_candidate(folder, i) }
}

/// Picks the path for a new folder from what the existence checks answered:
/// `taken[0]` for `folder_path`, `taken[k]` for its `k`-th alternative. The
/// folder itself is chosen only if it was found free, and alternative `k` only
/// if the folder and alternatives 1..k-1 were taken and `k` was free; without
/// a free answer nothing is chosen.
pub fn pick_unique_folder_path(folder_path: &str, taken: &Vec<bool>) -> (r: Option<String>)
    ensures
        match first_free(taken@) {
            Some(i) => r matches Some(p) && p@ == unique_folder_at(folder_path@, i),
            None => r is None,
        },
        r is Some <==> exists|i: int| 0 <= i < taken@.len() && !taken@[i],
        r matches Some(p) ==> exists|i: int| 0 <= i < taken@.len() && !taken@[i]
            && (forall|j: int| 0 <= j < i ==> #[trigger] taken@[j])
            && p@ == unique_folder_at(folder_path@, i as nat),
{
    proof { lemma_first_free(taken@); }
    match first_free_index(taken) {
        Some(i) => {
            assert(first_free(taken@) == Some(i as nat));
            let p = if i == 0 {
                String::from_str(folder_path)
            } else {
                unique_folder_name_candidate(folder_path, i as u64)
            };
            assert(p@ == unique_folder_at(folder_path@, i as nat));
            assert(0 <= i < taken@.len() && !taken@[i as int]
                && (forall|j: int| 0 <= j < i ==> #[trigger] taken@[j]));
            Some(p)
        },
        None => None,
    }
}

/// A path for a new folder that does not exist yet: `folder_path` itself, or
/// the first of `<name> (1)`, `<name> (2)`, ... beside it that is free. The
/// file system is asked about each candidate in turn and the answers are
/// handed to `pick_unique_folder_path`: the result is the first candidate
/// reported free, and every candidate before it was reported taken. Should
/// every candidate up to `i32::MAX` be taken, the last one is returned.
pub fn get_unique_folder_path(folder_path: &str) -> (r: String)
    ensures
        exists|i: nat| i <= i32::MAX && r@ == unique_folder_at(folder_path@, i)
            && (forall|j: nat| j < i ==> reported(#[trigger] unique_folder_at(folder_path@, j), true))
            && (i < i32::MAX ==> reported(unique_folder_at(folder_path@, i), false)),
{
    let mut answers: Vec<bool> = Vec::new();
    let mut counter: u64 = 0;
    let mut found = false;
    while !found && counter <= 0x7fff_ffff
        invariant
            counter <= 0x8000_0000,
            answers@.len() == counter,
            forall|j: int| 0 <= j < counter ==> reported(#[trigger] unique_folder_at(folder_path@, j as nat), answers@[j]),
            !found ==> forall|j: int| 0 <= j < counter ==> #[trigger] answers@[j],
            found ==> counter >= 1 && !answers@[counter - 1] && forall|j: int| 0 <= j < counter - 1 ==> #[trigger] answers@[j],
        decreases 0x8000_0000 - counter,
    {
        let candidate = if counter == 0 {
            String::from_str(folder_path)
        } else {
            unique_folder_name_candidate(folder_path, counter)
        };
        assert(candidate@ == unique_folder_at(folder_path@, counter as nat));
        let taken = probe(candidate.as_str());
        answers.push(taken);
        found = !taken;
        counter = counter + 1;
    }
    proof { lemma_first_free(answers@); }
    match pick_unique_folder_path(folder_path, &answers) {
        Some(p) => {
            let ghost i = (counter - 1) as nat;
            assert(first_free(answers@) == Some(i)) by {
                if !found {
                    assert(answers@[counter - 1]);
                }
                match first_free(answers@) {
                    Some(k) => {
                        if k < i { assert(answers@[k as int]); }
                        if k > i { assert(!answers@[i as int]); }
                    },
                    None => { assert(!answers@[i as int]); },
                }
            }
            assert forall|j: nat| j < i implies reported(#[trigger] unique_folder_at(folder_path@, j), true) by {
                let k: int = j as int;
                assert(reported(unique_folder_at(folder_path@, k as nat), answers@[k]));
                assert(answers@[k]);
            }
            assert(reported(unique_folder_at(folder_path@, ((counter - 1) as int) as nat), answers@[counter - 1]));
            p
        },
        None => {
            assert(counter == 0x8000_0000);
            let last = unique_folder_name_candidate(folder_path, 0x7fff_ffff);
            assert(last@ == unique_folder_at(folder_path@, 0x7fff_ffff));
            assert forall|j: nat| j < 0x7fff_ffff implies reported(#[trigger] unique_folder_at(folder_path@, j), true) by {
                let k: int = j as int;
                assert(reported(unique_folder_at(folder_path@, k as nat), answers@[k]));
                assert(answers@[k]);
            }
            last
        },
    }
}

/// The partial file that an upload is written to until it is complete.
pub open spec fn partial_path_spec(final_path: Seq<char>) -> Seq<char> {
    final_path + ".partial"@
}

/// The partial file that an upload is written to until it is complete.
pub fn partial_path(final_path: &str) -> (r: String)
    ensures r@ == partial_path_spec(final_path@),
{
    let mut s = String::from_str(final_path);
    s.append(".partial");
    s
}

/// What to do with an incoming chunk of `chunk_len` bytes for an upload that
/// has `bytes_received` of `file_size` bytes.
#[derive(Clone, Copy, Debug, PartialEq, Eq, Structural)]
pub enum ChunkPlan {
    /// The chunk is empty: refuse it.
    Empty,
    /// The upload already has all its bytes: finish it again and report it
    /// complete.
    AlreadyComplete,
    /// Write the first `write_size` bytes of the chunk; the upload then has
    /// `new_received` bytes, which completes it when `completes` holds.
    Write { write_size: u64, new_received: u64, completes: bool },
}

/// The plan for a chunk: a chunk that would run past the file size is cut to
/// the bytes that remain.
pub open spec fn chunk_plan_spec(chunk_len: u64, bytes_received: u64, file_size: u64) -> ChunkPlan {
    if chunk_len == 0 {
        ChunkPlan::Empty
    } else if bytes_received >= file_size {
        ChunkPlan::AlreadyComplete
    } else {
        let remaining = file_size - bytes_received;
        ChunkPlan::Write {
            write_size: (if chunk_len < remaining { chunk_len as int } else { remaining }) as u64,
            new_received: (if chunk_len < remaining { bytes_received + chunk_len } else { file_size as int }) as u64,
            completes: chunk_len >= remaining,
        }
    }
}

/// Decides what to do with an incoming chunk.
pub fn plan_chunk(chunk_len: u64, bytes_received: u64, file_size: u64) -> (r: ChunkPlan)
    requires bytes_received + chunk_len <= u64::MAX,
    ensures r == chunk_plan_spec(chunk_len, bytes_received, file_size),
{
    if chunk_len == 0 {
        return ChunkPlan::Empty;
    }
    if bytes_received >= file_size {
        return ChunkPlan::AlreadyComplete;
    }
    let write = if bytes_received + chunk_len <= file_size { chunk_len } else { file_size - bytes_received };
    ChunkPlan::Write { write_size: write, new_received: bytes_received + write, completes: bytes_received + write >= file_size }
}

/// Cuts a chunk to the bytes that still fit the file: returns the bytes to
/// write, how many they are, and the count of received bytes after writing
/// them.
pub fn truncate_chunk_if_oversized(chunk: Vec<u8>, bytes_received: u64, file_size: u64) -> (r: (Vec<u8>, u64, u64))
    requires bytes_received + chunk@.len() <= u64::MAX,
    ensures
        bytes_received + chunk@.len() <= file_size ==> r.0@ == chunk@ && r.1 == chunk@.len() && r.2 == bytes_received + chunk@.len(),
        bytes_received + chunk@.len() > file_size ==> ({
            let w: u64 = if file_size >= bytes_received { (file_size - bytes_received) as u64 } else { 0 };
            &&& r.1 == w
            &&& r.0@ == chunk@.subrange(0, w as int)
            &&& r.2 == (if w == 0 { file_size as int } else { bytes_received + w })
        }),
{
    let chunk_size = chunk.len() as u64;
    if bytes_received + chunk_size <= file_size {
        return (chunk, chunk_size, bytes_received + chunk_size);
    }
    let write_size = if file_size >= bytes_received { file_size - bytes_received } else { 0 };
    let mut truncated: Vec<u8> = Vec::new();
    let len = chunk.len();
    let w = write_size as usize;
    let mut i: usize = 0;
    while i < w
        invariant
            len == chunk@.len(),
            w == write_size,
            w <= len,
            i <= w,
            truncated@ == chunk@.subrange(0, i as int),
        decreases w - i,
    {
        truncated.push(chunk[i]);
        assert(chunk@.subrange(0, i + 1) =~= chunk@.subrange(0, i as int).push(chunk@[i as int]));
        i = i + 1;
    }
    let new_received = if write_size == 0 { file_size } else { bytes_received + write_size };
    (truncated, write_size, new_received)
}

/// Cutting a chunk never lets an upload hold more bytes than its size, and
/// what is written is a prefix of the chunk.
pub proof fn law_chunk_never_overfills(chunk_len: u64, bytes_received: u64, file_size: u64)
    requires
        bytes_received + chunk_len <= u64::MAX,
        bytes_received <= file_size,
    ensures
        chunk_plan_spec(chunk_len, bytes_received, file_size) matches ChunkPlan::Write { write_size, new_received, completes }
            ==> write_size <= chunk_len && new_received <= file_size && new_received == bytes_received + write_size
                && (completes <==> new_received == file_size),
{
}

/// The key under which a top-level folder of a batch is remapped.
pub open spec fn mapping_key(folder: Seq<char>, batch_id: Seq<char>) -> Seq<char> {
    folder + seq!['-'] + batch_id
}

/// `s` ends with `suffix`.
pub open spec fn ends_with_spec(s: Seq<char>, suffix: Seq<char>) -> bool {
    suffix.len() <= s.len() && s.subrange(s.len() - suffix.len(), s.len() as int) == suffix
}

fn ends_with(s: &str, suffix: &Vec<char>) -> (r: bool)
    ensures r == ends_with_spec(s@, suffix@),
{
    let v = chars_of(s);
    let n = v.len();
    let m = suffix.len();
    if m > n {
        return false;
    }
    let mut i: usize = 0;
    while i < m
        invariant
            v@ == s@,
            n == v@.len(),
            m == suffix@.len(),
            m <= n,
            i <= m,
            forall|k: int| 0 <= k < i ==> v@[n - m + k] == suffix@[k],
        decreases m - i,
    {
        if v[n - m + i] != suffix[i] {
            return false;
        }
        i = i + 1;
    }
    assert(s@.subrange(n - m, n as int) =~= suffix@);
    true
}

/// Whether the mapping key `key` belongs to the batch `batch_id`: it ends with
/// `-<batch id>`.
pub fn mapping_belongs_to_batch(key: &str, batch_id: &str) -> (r: bool)
    ensures r == ends_with_spec(key@, seq!['-'] + batch_id@),
{
    let mut suffix: Vec<char> = Vec::new();
    suffix.push('-');
    let b = chars_of(batch_id);
    push_chars(&mut suffix, &b);
    assert(suffix@ =~= seq!['-'] + batch_id@);
    ends_with(key, &suffix)
}

/// The folder mappings after a batch expires: every key that ends with
/// `-<batch id>` is gone.
pub open spec fn without_batch(m: Map<Seq<char>, String>, batch_id: Seq<char>) -> Map<Seq<char>, String> {
    m.restrict(m.dom().filter(|k: Seq<char>| !ends_with_spec(k, seq!['-'] + batch_id)))
}

/// Forgets the folder mappings of an expired batch.
pub fn remove_batch_mappings(mappings: &mut StrMap<String>, batch_id: &str)
    ensures final(mappings)@ == without_batch(old(mappings)@, batch_id@),
{
    let ghost m = mappings@;
    let keys = mappings.keys();
    let n = keys.len();
    let mut i: usize = 0;
    while i < n
        invariant
            n == keys@.len(),
            i <= n,
            forall|a: int| 0 <= a < n ==> m.contains_key(#[trigger] keys@[a]@),
            forall|k: Seq<char>| m.contains_key(k) ==> exists|a: int| 0 <= a < n && #[trigger] keys@[a]@ == k,
            mappings@ == m.restrict(m.dom().filter(|k: Seq<char>|
                !(ends_with_spec(k, seq!['-'] + batch_id@) && processed(keys@, i as int, k)))),
        decreases n - i,
    {
        let k = &keys[i];
        if mapping_belongs_to_batch(k.as_str(), batch_id) {
            mappings.remove(k.as_str());
        }
        assert forall|x: Seq<char>| #[trigger] processed(keys@, i + 1, x) == (processed(keys@, i as int, x) || x == k@) by {
            if processed(keys@, i + 1, x) {
                let a = choose|a: int| 0 <= a < i + 1 && keys@[a]@ == x;
                if a < i { assert(0 <= a < i && keys@[a]@ == x); }
            }
            if x == k@ { assert(keys@[i as int]@ == x); }
            if processed(keys@, i as int, x) {
                let a = choose|a: int| 0 <= a < i && keys@[a]@ == x;
                assert(0 <= a < i + 1 && keys@[a]@ == x);
            }
        }
        assert(mappings@ =~= m.restrict(m.dom().filter(|x: Seq<char>|
            !(ends_with_spec(x, seq!['-'] + batch_id@) && processed(keys@, i + 1, x)))));
        i = i + 1;
    }
    assert forall|x: Seq<char>| m.contains_key(x) implies processed(keys@, n as int, x) by {
        let a = choose|a: int| 0 <= a < n && #[trigger] keys@[a]@ == x;
    }
    assert(mappings@ =~= without_batch(m, batch_id@));
}

/// The batches whose last activity is at least `timeout_ms` before `now`; a
/// last activity after `now` counts as none elapsed.
pub fn expired_batches(activity: &StrMap<u64>, now: u64, timeout_ms: u64) -> (r: Vec<String>)
    ensures
        forall|i: int| 0 <= i < r@.len() ==> activity@.contains_key(#[trigger] r@[i]@)
            && (if now >= activity@[r@[i]@] { now - activity@[r@[i]@] } else { 0 }) >= timeout_ms,
        forall|k: Seq<char>| activity@.contains_key(k)
            && (if now >= activity@[k] { now - activity@[k] } else { 0 }) >= timeout_ms
            ==> exists|i: int| 0 <= i < r@.len() && #[trigger] r@[i]@ == k,
{
    let keys = activity.keys();
    let mut r: Vec<String> = Vec::new();
    let n = keys.len();
    let mut i: usize = 0;
    while i < n
        invariant
            n == keys@.len(),
            i <= n,
            forall|a: int| 0 <= a < n ==> activity@.contains_key(#[trigger] keys@[a]@),
            forall|k: Seq<char>| activity@.contains_key(k) ==> exists|a: int| 0 <= a < n && #[trigger] keys@[a]@ == k,
            forall|j: int| 0 <= j < r@.len() ==> activity@.contains_key(#[trigger] r@[j]@)
                && (if now >= activity@[r@[j]@] { now - activity@[r@[j]@] } else { 0 }) >= timeout_ms,
            forall|a: int| 0 <= a < i && (if now >= activity@[keys@[a]@] { now - activity@[keys@[a]@] } else { 0 }) >= timeout_ms
                ==> exists|j: int| 0 <= j < r@.len() && #[trigger] r@[j]@ == keys@[a]@,
        decreases n - i,
    {
        let k = &keys[i];
        match activity.get(k.as_str()) {
            Some(t) => {
                let age = if now >= *t { now - *t } else { 0 };
                if age >= timeout_ms {
                    let ghost before = r@;
                    r.push(k.clone());
                    assert(r@[before.len() as int]@ == k@);
                    assert forall|a: int| 0 <= a < i && (if now >= activity@[keys@[a]@] { now - activity@[keys@[a]@] } else { 0 }) >= timeout_ms
                        implies exists|j: int| 0 <= j < r@.len() && #[trigger] r@[j]@ == keys@[a]@ by {
                        let j = choose|j: int| 0 <= j < before.len() && #[trigger] before[j]@ == keys@[a]@;
                        assert(r@[j] == before[j]);
                    }
                }
            },
            None => {},
        }
        i = i + 1;
    }
    assert forall|k: Seq<char>| activity@.contains_key(k)
        && (if now >= activity@[k] { now - activity@[k] } else { 0 }) >= timeout_ms
        implies exists|i: int| 0 <= i < r@.len() && #[trigger] r@[i]@ == k by {
        let a = choose|a: int| 0 <= a < n && #[trigger] keys@[a]@ == k;
    }
    r
}

/// Whether an upload last active at `last_activity` (milliseconds since the
/// epoch) has been idle at least `timeout_ms` at `now`; an activity in the
/// future counts as not idle.
pub open spec fn upload_idle(last_activity: u64, now: u64, timeout_ms: u64) -> bool {
    now >= last_activity && now - last_activity >= timeout_ms
}

pub fn upload_expired(last_activity: u64, now: u64, timeout_ms: u64) -> (r: bool)
    ensures r == upload_idle(last_activity, now, timeout_ms),
{
    now >= last_activity && now - last_activity >= timeout_ms
}

} // verus!

verus! {

/// `s` with every `from` replaced by `to`.
pub open spec fn replace_char_spec(s: Seq<char>, from: char, to: char) -> Seq<char> {
    s.map_values(|c: char| if c == from { to } else { c })
}

fn replace_char(s: &str, from: char, to: char) -> (r: String)
    ensures r@ == replace_char_spec(s@, from, to),
{
    let v = chars_of(s);
    let mut out: Vec<char> = Vec::new();
    let mut i: usize = 0;
    while i < v.len()
        invariant
            v@ == s@,
            i <= v@.len(),
            out@ == v@.take(i as int).map_values(|c: char| if c == from { to } else { c }),
        decreases v@.len() - i,
    {
        let c = v[i];
        out.push(if c == from { to } else { c });
        assert(v@.take(i + 1).map_values(|c: char| if c == from { to } else { c })
            =~= v@.take(i as int).map_values(|c: char| if c == from { to } else { c }).push(if c == from { to } else { c }));
        i = i + 1;
    }
    assert(v@.take(v@.len() as int) =~= v@);
    string_from_chars(&out)
}

/// The relative path that an upload is stored under: the client's path
/// sanitized, normalized, with `/` as separator.
pub open spec fn upload_name_spec(filename: Seq<char>) -> Seq<char> {
    replace_char_spec(crate::paths::normalize_path_spec(crate::sanitize::sanitize_path_spec(filename)), '\\', '/')
}

/// The relative path that an upload is stored under.
pub fn plan_upload_name(filename: &str) -> (r: String)
    ensures r@ == upload_name_spec(filename@),
{
    let clean = crate::sanitize::sanitize_path_preserve_dirs_safe(filename);
    let norm = crate::paths::normalize_path(clean.as_str());
    replace_char(norm.as_str(), '\\', '/')
}

/// The non-empty `/`-separated parts of a path.
pub open spec fn path_parts_spec(s: Seq<char>) -> Seq<Seq<char>> {
    crate::seqs::split_on(s, '/', '/').filter(|p: Seq<char>| p.len() > 0)
}

/// The non-empty `/`-separated parts of a path.
pub fn upload_path_parts(s: &str) -> (r: Vec<String>)
    ensures string_views(r@) == path_parts_spec(s@),
{
    let v = chars_of(s);
    let pieces = crate::seqs::split_chars(&v, '/', '/');
    let ghost pv = crate::seqs::views(pieces@);
    let mut out: Vec<String> = Vec::new();
    let mut i: usize = 0;
    proof { reveal(Seq::filter); }
    assert(pv.take(0).filter(|p: Seq<char>| p.len() > 0) =~= Seq::<Seq<char>>::empty());
    assert(string_views(out@) =~= Seq::<Seq<char>>::empty());
    while i < pieces.len()
        invariant
            pv == crate::seqs::views(pieces@),
            pv == crate::seqs::split_on(s@, '/', '/'),
            i <= pieces@.len(),
            string_views(out@) == pv.take(i as int).filter(|p: Seq<char>| p.len() > 0),
        decreases pieces@.len() - i,
    {
        let p = &pieces[i];
        proof {
            assert(pv.take(i + 1) =~= pv.take(i as int).push(pv[i as int]));
            pv.take(i as int).lemma_filter_push(pv[i as int], |p: Seq<char>| p.len() > 0);
        }
        if p.len() > 0 {
            let ghost before = string_views(out@);
            out.push(string_from_chars(p));
            assert(string_views(out@) =~= before.push(p@));
        }
        i = i + 1;
    }
    assert(pv.take(pieces@.len() as int) =~= pv);
    out
}

/// The path that a list of parts makes when pushed one after another onto an
/// empty path, as `PathBuf::from_iter` does.
pub open spec fn push_all(parts: Seq<Seq<char>>) -> Seq<char>
    decreases parts.len(),
{
    if parts.len() == 0 { Seq::empty() } else { path_join(push_all(parts.drop_last()), parts.last()) }
}

fn push_all_exec(parts: &Vec<String>) -> (r: Vec<char>)
    ensures r@ == push_all(string_views(parts@)),
{
    let mut acc: Vec<char> = Vec::new();
    let mut i: usize = 0;
    while i < parts.len()
        invariant
            i <= parts@.len(),
            acc@ == push_all(string_views(parts@).take(i as int)),
        decreases parts@.len() - i,
    {
        let p = chars_of(parts[i].as_str());
        acc = join_path(&acc, &p);
        assert(string_views(parts@).take(i + 1).drop_last() =~= string_views(parts@).take(i as int));
        i = i + 1;
    }
    assert(string_views(parts@).take(parts@.len() as int) =~= string_views(parts@));
    acc
}

/// Where a file of a batch upload goes once its top-level folder is renamed
/// to `folder`.
pub open spec fn remapped_path(upload_dir: Seq<char>, parts: Seq<Seq<char>>, folder: Seq<char>) -> Seq<char> {
    path_join(upload_dir, push_all(parts.update(0, folder)))
}

/// The folder name that a batch's top-level folder `original` may be given:
/// itself, or the final component of its path in `upload_dir` or of a
/// ` (n)` variant of that path.
pub open spec fn fresh_folder_name(upload_dir: Seq<char>, original: Seq<char>, name: Seq<char>) -> bool {
    name == original
        || path_file_name(path_join(upload_dir, original)) == Some(name)
        || exists|k: nat| 1 <= k <= i32::MAX
            && path_file_name(unique_folder_candidate(path_join(upload_dir, original), k)) == Some(name)
}

/// Puts the files of one batch upload under one folder: the first file of a
/// batch picks a folder name that is free in `upload_dir` and records it; the
/// rest of the batch reuses it. Returns the file's path and, for a newly picked
/// folder, the folder to create.
pub fn get_remapped_folder_path(upload_dir: &str, mappings: &mut StrMap<String>, path_parts: &Vec<String>, batch_id: &str) -> (r: (String, Option<String>))
    requires path_parts@.len() >= 1,
    ensures
        ({
            let parts = string_views(path_parts@);
            let key = mapping_key(parts[0], batch_id@);
            if old(mappings)@.contains_key(key) {
                &&& final(mappings)@ == old(mappings)@
                &&& r.0@ == remapped_path(upload_dir@, parts, old(mappings)@[key]@)
                &&& r.1 is None
            } else {
                let name = final(mappings)@[key]@;
                &&& final(mappings)@ == old(mappings)@.insert(key, final(mappings)@[key])
                &&& fresh_folder_name(upload_dir@, parts[0], name)
                &&& r.0@ == remapped_path(upload_dir@, parts, name)
                &&& r.1 matches Some(d) && d@ == path_join(upload_dir@, name)
            }
        }),
{
    let original = &path_parts[0];
    let mut key = original.clone();
    key.append("-");
    key.append(batch_id);
    proof { reveal_strlit("-"); }
    assert(key@ =~= mapping_key(path_parts@[0]@, batch_id@));
    let dir = chars_of(upload_dir);
    let existing = match mappings.get(key.as_str()) {
        Some(m) => Some(m.clone()),
        None => None,
    };
    let (name, created) = match existing {
        Some(m) => (m, None),
        None => {
            let base = string_from_chars(&join_path(&dir, &chars_of(original.as_str())));
            let mapped = if path_exists(base.as_str()) {
                let unique = get_unique_folder_path(base.as_str());
                let u = chars_of(unique.as_str());
                match file_name(&u) {
                    Some(n) => string_from_chars(&n),
                    None => original.clone(),
                }
            } else {
                original.clone()
            };
            let folder = string_from_chars(&join_path(&dir, &chars_of(mapped.as_str())));
            mappings.insert(key.clone(), mapped.clone());
            (mapped, Some(folder))
        },
    };
    let mut parts: Vec<String> = Vec::new();
    let mut i: usize = 0;
    while i < path_parts.len()
        invariant
            i <= path_parts@.len(),
            path_parts@.len() >= 1,
            parts@.len() == i,
            forall|j: int| 0 <= j < i ==> #[trigger] parts@[j]@ == (if j == 0 { name@ } else { path_parts@[j]@ }),
        decreases path_parts@.len() - i,
    {
        if i == 0 {
            parts.push(name.clone());
        } else {
            parts.push(path_parts[i].clone());
        }
        i = i + 1;
    }
    assert(string_views(parts@) =~= string_views(path_parts@).update(0, name@));
    let rel = push_all_exec(&parts);
    (string_from_chars(&join_path(&dir, &rel)), created)
}

} // verus!

verus! {

/// The folder mappings without those of every batch in `ids`.
pub open spec fn without_batches(m: Map<Seq<char>, String>, ids: Seq<Seq<char>>) -> Map<Seq<char>, String>
    decreases ids.len(),
{
    if ids.len() == 0 { m } else { without_batch(without_batches(m, ids.drop_last()), ids.last()) }
}

/// Forgets every batch idle for at least `timeout_ms`: its activity record and
/// its folder mappings. Returns the batches forgotten.
pub fn expire_batches(activity: &mut StrMap<u64>, mappings: &mut StrMap<String>, now: u64, timeout_ms: u64) -> (r: Vec<String>)
    ensures
        forall|i: int| 0 <= i < r@.len() ==> old(activity)@.contains_key(#[trigger] r@[i]@)
            && (if now >= old(activity)@[r@[i]@] { now - old(activity)@[r@[i]@] } else { 0 }) >= timeout_ms,
        forall|k: Seq<char>| old(activity)@.contains_key(k)
            && (if now >= old(activity)@[k] { now - old(activity)@[k] } else { 0 }) >= timeout_ms
            ==> exists|i: int| 0 <= i < r@.len() && #[trigger] r@[i]@ == k,
        final(activity)@ == old(activity)@.remove_keys(string_views(r@).to_set()),
        final(mappings)@ == without_batches(old(mappings)@, string_views(r@)),
{
    let expired = expired_batches(activity, now, timeout_ms);
    let ghost a0 = activity@;
    let ghost m0 = mappings@;
    let ghost ids = string_views(expired@);
    let mut i: usize = 0;
    while i < expired.len()
        invariant
            ids == string_views(expired@),
            i <= expired@.len(),
            activity@ == a0.remove_keys(ids.take(i as int).to_set()),
            mappings@ == without_batches(m0, ids.take(i as int)),
        decreases expired@.len() - i,
    {
        let b = &expired[i];
        activity.remove(b.as_str());
        remove_batch_mappings(mappings, b.as_str());
        proof {
            assert(ids.take(i + 1).drop_last() =~= ids.take(i as int));
            assert(ids.take(i + 1).last() == b@);
            let t1 = ids.take(i + 1);
            let t0 = ids.take(i as int);
            assert(t1.to_set() =~= t0.to_set().insert(b@)) by {
                assert forall|x: Seq<char>| t1.to_set().contains(x) <==> t0.to_set().insert(b@).contains(x) by {
                    if t1.contains(x) {
                        let j = choose|j: int| 0 <= j < t1.len() && #[trigger] t1[j] == x;
                        if j < i { assert(t0[j] == x); }
                    }
                    if t0.contains(x) {
                        let j = choose|j: int| 0 <= j < t0.len() && #[trigger] t0[j] == x;
                        assert(t1[j] == x);
                    }
                    if x == b@ { assert(t1[i as int] == x); }
                }
            }
            assert(activity@ =~= a0.remove_keys(ids.take(i + 1).to_set()));
        }
        i = i + 1;
    }
    assert(ids.take(expired@.len() as int) =~= ids);
    expired
}

/// The uploads idle for at least `timeout_ms` at `now` (milliseconds since
/// the epoch).
pub fn expired_uploads(active: &StrMap<UploadMetadata>, now: u64, timeout_ms: u64) -> (r: Vec<String>)
    ensures
        forall|i: int| 0 <= i < r@.len() ==> active@.contains_key(#[trigger] r@[i]@)
            && upload_idle(active@[r@[i]@].last_activity, now, timeout_ms),
        forall|k: Seq<char>| active@.contains_key(k) && upload_idle(active@[k].last_activity, now, timeout_ms)
            ==> exists|i: int| 0 <= i < r@.len() && #[trigger] r@[i]@ == k,
{
    let keys = active.keys();
    let mut r: Vec<String> = Vec::new();
    let n = keys.len();
    let mut i: usize = 0;
    while i < n
        invariant
            n == keys@.len(),
            i <= n,
            forall|a: int| 0 <= a < n ==> active@.contains_key(#[trigger] keys@[a]@),
            forall|k: Seq<char>| active@.contains_key(k) ==> exists|a: int| 0 <= a < n && #[trigger] keys@[a]@ == k,
            forall|j: int| 0 <= j < r@.len() ==> active@.contains_key(#[trigger] r@[j]@)
                && upload_idle(active@[r@[j]@].last_activity, now, timeout_ms),
            forall|a: int| 0 <= a < i && upload_idle(active@[keys@[a]@].last_activity, now, timeout_ms)
                ==> exists|j: int| 0 <= j < r@.len() && #[trigger] r@[j]@ == keys@[a]@,
        decreases n - i,
    {
        let k = &keys[i];
        match active.get(k.as_str()) {
            Some(m) => {
                if upload_expired(m.last_activity, now, timeout_ms) {
                    let ghost before = r@;
                    r.push(k.clone());
                    assert(r@[before.len() as int]@ == k@);
                    assert forall|a: int| 0 <= a < i && upload_idle(active@[keys@[a]@].last_activity, now, timeout_ms)
                        implies exists|j: int| 0 <= j < r@.len() && #[trigger] r@[j]@ == keys@[a]@ by {
                        let j = choose|j: int| 0 <= j < before.len() && #[trigger] before[j]@ == keys@[a]@;
                        assert(r@[j] == before[j]);
                    }
                }
            },
            None => {},
        }
        i = i + 1;
    }
    assert forall|k: Seq<char>| active@.contains_key(k) && upload_idle(active@[k].last_activity, now, timeout_ms)
        implies exists|i: int| 0 <= i < r@.len() && #[trigger] r@[i]@ == k by {
        let a = choose|a: int| 0 <= a < n && #[trigger] keys@[a]@ == k;
    }
    r
}

} // verus!
