//! The upload panel of the web client: the files picked for upload, the
//! progress of each upload of a batch, and when the batch is over.

use vstd::prelude::*;
use crate::client::{size_limit_text, size_limit_text_spec, upload_finished};
use crate::seqs::{push_chars, push_str};
use crate::table::StrMap;
use crate::text::{chars_of, decimal, starts_with, string_from_chars, u64_to_decimal};

verus! {

/// A file picked for upload.
pub struct QueuedFile {
    /// The path it is uploaded under.
    pub path: String,
    /// Its own name.
    pub name: String,
    /// Its size in bytes.
    pub size: u64,
}

/// The progress of one upload, as the panel shows it.
pub struct UploadEntry {
    pub name: String,
    pub size: u64,
    pub uploaded: u64,
    pub status: String,
    pub error_color: Option<String>,
}

/// The largest file accepted when the server has not said: 20 GiB.
pub const DEFAULT_MAX_FILE_SIZE: u64 = 21474836480;

/// The size limit in force.
pub open spec fn size_limit(max: Option<u64>) -> u64 {
    match max {
        Some(m) => m,
        None => DEFAULT_MAX_FILE_SIZE,
    }
}

/// Every upload in `active` is complete or has failed.
pub open spec fn batch_finished(active: Map<Seq<char>, UploadEntry>) -> bool {
    forall|k: Seq<char>| active.contains_key(k) ==> upload_finished(#[trigger] active[k].status@)
}

/// The colour an upload that failed is drawn in.
pub open spec fn danger_color() -> Seq<char> {
    "var(--danger-color)"@
}

/// The picked files, their uploads and whether a batch is running.
pub struct UploadBoard {
    queue: Vec<QueuedFile>,
    active: StrMap<UploadEntry>,
    uploading: bool,
}

impl UploadBoard {
    /// The files waiting for upload, in the order they were picked.
    pub closed spec fn queue(&self) -> Seq<QueuedFile> {
        self.queue@
    }

    /// The uploads of the batch, by path.
    pub closed spec fn active(&self) -> Map<Seq<char>, UploadEntry> {
        self.active@
    }

    /// A batch is running.
    pub closed spec fn uploading(&self) -> bool {
        self.uploading
    }

    /// Nothing picked and nothing running.
    pub fn new() -> (r: Self)
        ensures
            r.queue().len() == 0,
            r.active() == Map::<Seq<char>, UploadEntry>::empty(),
            !r.uploading(),
    {
        UploadBoard { queue: Vec::new(), active: StrMap::new(), uploading: false }
    }

    /// Whether a batch is running.
    pub fn is_uploading(&self) -> (r: bool)
        ensures r == self.uploading(),
    {
        self.uploading
    }

    /// The files waiting for upload.
    pub fn queued(&self) -> (r: &Vec<QueuedFile>)
        ensures r@ == self.queue(),
    {
        &self.queue
    }

    /// Files were picked: those within the size limit (`max`, or 20 GiB when
    /// the server has not said) replace the queue, the progress of the last
    /// batch is dropped, and the names of the files that are too large are
    /// returned, in order. The batch starts at once when `auto_upload` is set.
    pub fn select(&mut self, files: Vec<QueuedFile>, max: Option<u64>, auto_upload: bool) -> (r: (bool, Vec<String>))
        ensures
            final(self).queue() == files@.filter(|f: QueuedFile| f.size <= size_limit(max)),
            final(self).active() == Map::<Seq<char>, UploadEntry>::empty(),
            final(self).uploading() == old(self).uploading(),
            r.0 == auto_upload,
            r.1@.map_values(|s: String| s@)
                == files@.filter(|f: QueuedFile| f.size > size_limit(max)).map_values(|f: QueuedFile| f.name@),
    {
        let limit = match max {
            Some(m) => m,
            None => DEFAULT_MAX_FILE_SIZE,
        };
        let ghost all = files@;
        let mut kept: Vec<QueuedFile> = Vec::new();
        let mut big: Vec<String> = Vec::new();
        let n = files.len();
        proof { reveal(Seq::filter); }
        assert(all.take(0).filter(|f: QueuedFile| f.size <= limit) =~= Seq::<QueuedFile>::empty());
        assert(all.take(0).filter(|f: QueuedFile| f.size > limit).map_values(|f: QueuedFile| f.name@)
            =~= Seq::<Seq<char>>::empty());
        assert(big@.map_values(|s: String| s@) =~= Seq::<Seq<char>>::empty());
        let mut i: usize = 0;
        while i < n
            invariant
                n == all.len(),
                all == files@,
                i <= n,
                kept@ == all.take(i as int).filter(|f: QueuedFile| f.size <= limit),
                big@.map_values(|s: String| s@)
                    == all.take(i as int).filter(|f: QueuedFile| f.size > limit).map_values(|f: QueuedFile| f.name@),
            decreases n - i,
        {
            let f = &files[i];
            proof {
                assert(all.take(i + 1) =~= all.take(i as int).push(all[i as int]));
                all.take(i as int).lemma_filter_push(all[i as int], |f: QueuedFile| f.size <= limit);
                all.take(i as int).lemma_filter_push(all[i as int], |f: QueuedFile| f.size > limit);
            }
            if f.size > limit {
                let ghost b = big@;
                big.push(f.name.clone());
                assert(big@.map_values(|s: String| s@) =~= b.map_values(|s: String| s@).push(f.name@));
            } else {
                let copy = QueuedFile { path: f.path.clone(), name: f.name.clone(), size: f.size };
                assert(copy == *f);
                kept.push(copy);
            }
            i = i + 1;
        }
        assert(all.take(n as int) =~= all);
        self.queue = kept;
        self.active = StrMap::new();
        (auto_upload, big)
    }

    /// Starts the batch: unless the queue is empty or a batch is running,
    /// every queued file gets an entry with nothing uploaded and status
    /// "queued", and the batch is running. Returns whether it started.
    pub fn start(&mut self) -> (r: bool)
        ensures
            r == (old(self).queue().len() > 0 && !old(self).uploading()),
            final(self).queue() == old(self).queue(),
            r ==> final(self).uploading(),
            !r ==> final(self).uploading() == old(self).uploading() && final(self).active() == old(self).active(),
            r ==> forall|i: int| 0 <= i < old(self).queue().len() ==> {
                let f = #[trigger] old(self).queue()[i];
                final(self).active().contains_key(f.path@)
            },
            r ==> forall|k: Seq<char>| #[trigger] final(self).active().contains_key(k) ==>
                old(self).active().contains_key(k) || exists|i: int| 0 <= i < old(self).queue().len() && old(self).queue()[i].path@ == k,
            r ==> forall|k: Seq<char>| #[trigger] final(self).active().contains_key(k)
                && (exists|i: int| 0 <= i < old(self).queue().len() && old(self).queue()[i].path@ == k) ==> {
                    let e = final(self).active()[k];
                    &&& e.uploaded == 0
                    &&& e.status@ == "queued"@
                    &&& e.error_color is None
                },
    {
        if self.queue.len() == 0 || self.uploading {
            return false;
        }
        self.uploading = true;
        let n = self.queue.len();
        let mut i: usize = 0;
        let ghost before = self.active@;
        while i < n
            invariant
                n == self.queue@.len(),
                i <= n,
                self.queue@ == old(self).queue@,
                self.uploading,
                forall|j: int| 0 <= j < i ==> #[trigger] self.active@.contains_key(self.queue@[j].path@),
                forall|k: Seq<char>| #[trigger] self.active@.contains_key(k) ==>
                    before.contains_key(k) || exists|j: int| 0 <= j < i && self.queue@[j].path@ == k,
                forall|k: Seq<char>| #[trigger] self.active@.contains_key(k)
                    && (exists|j: int| 0 <= j < n && self.queue@[j].path@ == k)
                    && (exists|j: int| 0 <= j < i && self.queue@[j].path@ == k) ==> {
                        let e = self.active@[k];
                        &&& e.uploaded == 0
                        &&& e.status@ == "queued"@
                        &&& e.error_color is None
                    },
                forall|k: Seq<char>| #[trigger] self.active@.contains_key(k)
                    && !(exists|j: int| 0 <= j < i && self.queue@[j].path@ == k) ==> self.active@[k] == before[k],
            decreases n - i,
        {
            let f = &self.queue[i];
            let entry = UploadEntry {
                name: f.name.clone(),
                size: f.size,
                uploaded: 0,
                status: String::from_str("queued"),
                error_color: None,
            };
            proof { reveal_strlit("queued"); }
            let path = f.path.clone();
            let ghost p = path@;
            assert(p == self.queue@[i as int].path@);
            let ghost mid = self.active@;
            self.active.insert(path, entry);
            assert forall|k: Seq<char>| #[trigger] self.active@.contains_key(k)
                && !(exists|j: int| 0 <= j < i + 1 && self.queue@[j].path@ == k) implies self.active@[k] == before[k] by {
                if k == p {
                    assert(self.queue@[i as int].path@ == k);
                }
                assert(!(exists|j: int| 0 <= j < i && self.queue@[j].path@ == k));
                assert(mid.contains_key(k));
            }
            assert forall|k: Seq<char>| #[trigger] self.active@.contains_key(k) implies
                before.contains_key(k) || exists|j: int| 0 <= j < i + 1 && self.queue@[j].path@ == k by {
                if k == p {
                    assert(self.queue@[i as int].path@ == k);
                } else {
                    assert(mid.contains_key(k));
                    if !before.contains_key(k) {
                        let j = choose|j: int| 0 <= j < i && self.queue@[j].path@ == k;
                        assert(0 <= j < i + 1 && self.queue@[j].path@ == k);
                    }
                }
            }
            i = i + 1;
        }
        assert forall|k: Seq<char>| #[trigger] self.active@.contains_key(k) implies
            old(self).active().contains_key(k) || exists|j: int| 0 <= j < old(self).queue().len() && old(self).queue()[j].path@ == k by {
            if !before.contains_key(k) {
                let j = choose|j: int| 0 <= j < i && self.queue@[j].path@ == k;
                assert(old(self).queue()[j] == self.queue@[j]);
                assert(0 <= j < old(self).queue().len() && old(self).queue()[j].path@ == k);
            }
        }
        true
    }

    /// The upload of `path` has opened on the server: its status becomes
    /// "initializing".
    pub fn initialized(&mut self, path: &str)
        ensures
            final(self).queue() == old(self).queue(),
            final(self).uploading() == old(self).uploading(),
            final(self).active().dom() == old(self).active().dom(),
            forall|k: Seq<char>| #[trigger] final(self).active().contains_key(k) && k != path@ ==>
                final(self).active()[k] == old(self).active()[k],
            old(self).active().contains_key(path@) ==> {
                let e = old(self).active()[path@];
                let f = final(self).active()[path@];
                &&& f.name == e.name && f.size == e.size && f.uploaded == e.uploaded
                &&& f.error_color == e.error_color
                &&& f.status@ == "initializing"@
            },
    {
        let updated = match self.active.get(path) {
            Some(e) => Some(UploadEntry {
                name: e.name.clone(),
                size: e.size,
                uploaded: e.uploaded,
                status: String::from_str("initializing"),
                error_color: clone_color(&e.error_color),
            }),
            None => None,
        };
        proof { reveal_strlit("initializing"); }
        if let Some(entry) = updated {
            self.active.insert(String::from_str(path), entry);
            assert(self.active@.dom() =~= old(self).active@.dom());
        }
    }

    /// A report from the upload of `path`: how much has arrived, the status
    /// text and the colour it is drawn in.
    pub fn progress(&mut self, path: &str, uploaded: u64, status: String, error_color: Option<String>)
        ensures
            final(self).queue() == old(self).queue(),
            final(self).uploading() == old(self).uploading(),
            final(self).active().dom() == old(self).active().dom(),
            forall|k: Seq<char>| #[trigger] final(self).active().contains_key(k) && k != path@ ==>
                final(self).active()[k] == old(self).active()[k],
            old(self).active().contains_key(path@) ==> {
                let e = old(self).active()[path@];
                let f = final(self).active()[path@];
                &&& f.name == e.name && f.size == e.size
                &&& f.uploaded == uploaded && f.status == status && f.error_color == error_color
            },
    {
        let updated = match self.active.get(path) {
            Some(e) => Some(UploadEntry { name: e.name.clone(), size: e.size, uploaded, status, error_color }),
            None => None,
        };
        if let Some(entry) = updated {
            self.active.insert(String::from_str(path), entry);
            assert(self.active@.dom() =~= old(self).active@.dom());
        }
    }

    /// The upload of `path` is complete: all of it has arrived and its status
    /// is "complete". When every upload of the batch has finished, the batch
    /// is over and the queue emptied; the result says so, and the file list is
    /// then fetched again.
    pub fn completed(&mut self, path: &str) -> (r: bool)
        ensures
            final(self).active().dom() == old(self).active().dom(),
            forall|k: Seq<char>| #[trigger] final(self).active().contains_key(k) && k != path@ ==>
                final(self).active()[k] == old(self).active()[k],
            old(self).active().contains_key(path@) ==> {
                let e = old(self).active()[path@];
                let f = final(self).active()[path@];
                &&& f.name == e.name && f.size == e.size && f.error_color == e.error_color
                &&& f.uploaded == e.size
                &&& f.status@ == "complete"@
            },
            r == batch_finished(final(self).active()),
            r ==> !final(self).uploading() && final(self).queue().len() == 0,
            !r ==> final(self).uploading() == old(self).uploading() && final(self).queue() == old(self).queue(),
    {
        let updated = match self.active.get(path) {
            Some(e) => Some(UploadEntry {
                name: e.name.clone(),
                size: e.size,
                uploaded: e.size,
                status: String::from_str("complete"),
                error_color: clone_color(&e.error_color),
            }),
            None => None,
        };
        proof { reveal_strlit("complete"); }
        if let Some(entry) = updated {
            self.active.insert(String::from_str(path), entry);
            assert(self.active@.dom() =~= old(self).active@.dom());
        }
        self.finish_if_done()
    }

    /// The upload of `path` failed with `error`: its status becomes
    /// "Error: " and the error, drawn in the danger colour. The batch ends as
    /// after a completed upload.
    pub fn failed(&mut self, path: &str, error: &str) -> (r: bool)
        ensures
            final(self).active().dom() == old(self).active().dom(),
            forall|k: Seq<char>| #[trigger] final(self).active().contains_key(k) && k != path@ ==>
                final(self).active()[k] == old(self).active()[k],
            old(self).active().contains_key(path@) ==> {
                let e = old(self).active()[path@];
                let f = final(self).active()[path@];
                &&& f.name == e.name && f.size == e.size && f.uploaded == e.uploaded
                &&& f.status@ == "Error: "@ + error@
                &&& f.error_color is Some && f.error_color.unwrap()@ == danger_color()
            },
            r == batch_finished(final(self).active()),
            r ==> !final(self).uploading() && final(self).queue().len() == 0,
            !r ==> final(self).uploading() == old(self).uploading() && final(self).queue() == old(self).queue(),
    {
        let updated = match self.active.get(path) {
            Some(e) => {
                let mut status: Vec<char> = Vec::new();
                push_str(&mut status, "Error: ");
                push_chars(&mut status, &chars_of(error));
                Some(UploadEntry {
                    name: e.name.clone(),
                    size: e.size,
                    uploaded: e.uploaded,
                    status: string_from_chars(&status),
                    error_color: Some(String::from_str("var(--danger-color)")),
                })
            },
            None => None,
        };
        if let Some(entry) = updated {
            self.active.insert(String::from_str(path), entry);
            assert(self.active@.dom() =~= old(self).active@.dom());
        }
        self.finish_if_done()
    }

    fn finish_if_done(&mut self) -> (r: bool)
        ensures
            final(self).active() == old(self).active(),
            r == batch_finished(old(self).active()),
            r ==> !final(self).uploading() && final(self).queue().len() == 0,
            !r ==> final(self).uploading() == old(self).uploading() && final(self).queue() == old(self).queue(),
    {
        let keys = self.active.keys();
        let n = keys.len();
        let mut i: usize = 0;
        while i < n
            invariant
                n == keys@.len(),
                i <= n,
                forall|j: int| 0 <= j < keys@.len() ==> self.active@.contains_key(#[trigger] keys@[j]@),
                forall|j: int| 0 <= j < i ==> upload_finished(#[trigger] self.active@[keys@[j]@].status@),
            decreases n - i,
        {
            let e = self.active.get(keys[i].as_str()).unwrap();
            let s = e.status.as_str();
            let c = chars_of(s);
            if !(crate::seqs::chars_equal_str(&c, "complete") || starts_with(s, "Error")) {
                assert(!upload_finished(self.active@[keys@[i as int]@].status@));
                return false;
            }
            i = i + 1;
        }
        assert forall|k: Seq<char>| self.active@.contains_key(k) implies upload_finished(#[trigger] self.active@[k].status@) by {
            let j = choose|j: int| 0 <= j < keys@.len() && #[trigger] keys@[j]@ == k;
            assert(upload_finished(self.active@[keys@[j]@].status@));
        }
        self.uploading = false;
        self.queue = Vec::new();
        true
    }
}

/// A completed upload and a failed one both count as finished, so a batch
/// whose last upload fails still ends.
pub proof fn law_complete_and_failed_are_finished(error: Seq<char>)
    ensures
        upload_finished("complete"@),
        upload_finished("Error: "@ + error),
{
    reveal_strlit("complete");
    reveal_strlit("Error: ");
    reveal_strlit("Error");
    assert(("Error: "@ + error).subrange(0, 5) =~= "Error"@);
}

fn clone_color(c: &Option<String>) -> (r: Option<String>)
    ensures r == *c,
{
    match c {
        Some(s) => Some(s.clone()),
        None => None,
    }
}

/// The notice for files refused for their size: the prefix, how many, the
/// limit, and their names separated by commas.
pub open spec fn too_large_notice_spec(prefix: Seq<char>, names: Seq<Seq<char>>, max: u64) -> Seq<char> {
    prefix + " "@ + decimal(names.len()) + " (max "@ + size_limit_text_spec(max) + "): "@
        + crate::seqs::join(names, ", "@)
}

/// The notice shown when picked files are larger than `max`.
pub fn too_large_notice(prefix: &str, names: &Vec<String>, max: u64) -> (r: String)
    ensures r@ == too_large_notice_spec(prefix@, names@.map_values(|s: String| s@), max),
{
    let mut out: Vec<char> = Vec::new();
    push_str(&mut out, prefix);
    push_str(&mut out, " ");
    let count = u64_count(names.len());
    push_chars(&mut out, &chars_of(count.as_str()));
    push_str(&mut out, " (max ");
    let limit = size_limit_text(max);
    push_chars(&mut out, &chars_of(limit.as_str()));
    push_str(&mut out, "): ");
    let ghost head = out@;
    let ghost views = names@.map_values(|s: String| s@);
    let n = names.len();
    let mut i: usize = 0;
    while i < n
        invariant
            n == names@.len(),
            views == names@.map_values(|s: String| s@),
            i <= n,
            out@ == head + crate::seqs::join(views.take(i as int), ", "@),
        decreases n - i,
    {
        let ghost prefix_views = views.take(i as int);
        assert(views.take(i + 1).drop_last() =~= prefix_views);
        assert(views.take(i + 1).last() == names@[i as int]@);
        if i > 0 {
            push_str(&mut out, ", ");
        }
        push_chars(&mut out, &chars_of(names[i].as_str()));
        if i == 0 {
            assert(views.take(1) =~= seq![names@[0]@]);
        }
        assert(out@ =~= head + crate::seqs::join(views.take(i + 1), ", "@));
        i = i + 1;
    }
    assert(views.take(n as int) =~= views);
    string_from_chars(&out)
}

fn u64_count(n: usize) -> (r: String)
    ensures r@ == decimal(n as nat),
{
    u64_to_decimal(n as u64)
}

} // verus!
