//! The upload of one file in chunks, as the web client drives it: which bytes
//! go next, when a failed chunk is sent again and after how long, and when the
//! upload is complete or has failed.

use vstd::prelude::*;
use crate::client::{CHUNK_SIZE, chunk_end, contains_spec, contains_str, retry_delay_ms, retry_delay_spec};
use crate::seqs::{push_chars, push_str};
use crate::text::{chars_of, string_from_chars};

verus! {

/// What the client does next for the upload.
pub enum TransferStep {
    /// Read bytes `start..end` of the file and send them.
    Send { start: u64, end: u64 },
    /// Show "Retrying attempt `attempt`/`max_retries`...", wait `delay_ms`
    /// milliseconds, then send bytes `start..end` again.
    Retry { attempt: u32, max_retries: u32, delay_ms: u64, start: u64, end: u64 },
    /// The whole file has arrived.
    Complete,
    /// The upload failed with `message`; `cancel` says whether the server is
    /// asked to drop what it received.
    Fail { message: String, cancel: bool },
}

/// Where the chunk that starts at `position` ends for a file of `size` bytes.
pub open spec fn chunk_end_spec(position: u64, size: u64) -> u64 {
    if position + CHUNK_SIZE < size { (position + CHUNK_SIZE) as u64 } else { size }
}

/// The upload of one file of known size.
pub struct ChunkUpload {
    size: u64,
    max_retries: u32,
    position: u64,
    attempt: u32,
    finished: bool,
}

impl ChunkUpload {
    /// The file's size in bytes.
    pub closed spec fn size(&self) -> u64 { self.size }

    /// How often a chunk is sent again after failing.
    pub closed spec fn max_retries(&self) -> u32 { self.max_retries }

    /// The bytes before this position have arrived.
    pub closed spec fn position(&self) -> u64 { self.position }

    /// How often the current chunk has been sent again.
    pub closed spec fn attempt(&self) -> u32 { self.attempt }

    /// The upload is complete or has failed.
    pub closed spec fn finished(&self) -> bool { self.finished }

    #[verifier::type_invariant]
    spec fn bounds(self) -> bool {
        &&& self.position <= self.size
        &&& self.size + CHUNK_SIZE <= u64::MAX
        &&& self.attempt <= self.max_retries
    }

    /// Nothing has arrived yet; failed chunks are sent again up to
    /// `max_retries` times.
    pub fn new(size: u64, max_retries: u32) -> (r: Self)
        requires
            size + CHUNK_SIZE <= u64::MAX,
        ensures
            r.size() == size,
            r.max_retries() == max_retries,
            r.position() == 0,
            r.attempt() == 0,
            !r.finished(),
    {
        ChunkUpload { size, max_retries, position: 0, attempt: 0, finished: false }
    }

    /// The bytes before this position have arrived.
    pub fn position_now(&self) -> (r: u64)
        ensures r == self.position(),
    {
        self.position
    }

    /// The server answered the request that opens the upload. A refusal ends
    /// it with the server's message; an empty file is then complete, and any
    /// other sends its first chunk.
    pub fn opened(&mut self, result: Result<(), String>) -> (r: TransferStep)
        requires
            !old(self).finished(),
            old(self).position() == 0,
        ensures
            final(self).size() == old(self).size(),
            final(self).max_retries() == old(self).max_retries(),
            final(self).position() == 0,
            final(self).attempt() == old(self).attempt(),
            match result {
                Err(e) => final(self).finished() && r == (TransferStep::Fail { message: e, cancel: false }),
                Ok(_) => if old(self).size() == 0 {
                    final(self).finished() && r == TransferStep::Complete
                } else {
                    !final(self).finished()
                        && r == (TransferStep::Send { start: 0, end: chunk_end_spec(0, old(self).size()) })
                },
            },
    {
        proof { use_type_invariant(&*self); }
        match result {
            Err(e) => {
                self.finished = true;
                TransferStep::Fail { message: e, cancel: false }
            },
            Ok(_) => {
                if self.size == 0 {
                    self.finished = true;
                    TransferStep::Complete
                } else {
                    TransferStep::Send { start: 0, end: chunk_end(0, self.size) }
                }
            },
        }
    }

    /// The bytes of the next chunk could not be read: the upload fails with
    /// `message` and the server is not told.
    pub fn read_failed(&mut self, message: String) -> (r: TransferStep)
        ensures
            final(self).finished(),
            final(self).position() == old(self).position(),
            final(self).size() == old(self).size(),
            r == (TransferStep::Fail { message, cancel: false }),
    {
        proof { use_type_invariant(&*self); }
        self.finished = true;
        TransferStep::Fail { message, cancel: false }
    }

    /// The server answered the chunk that starts at the current position.
    /// Accepted, the position moves to the chunk's end and the next chunk
    /// goes, or the upload is complete. Refused, the chunk is sent again after
    /// a wait while retries are left; a "404" on a retry means the server
    /// already holds the whole file; otherwise the upload fails and the server
    /// is asked to drop it.
    pub fn chunk_answered(&mut self, result: Result<(), String>) -> (r: TransferStep)
        requires
            !old(self).finished(),
            old(self).position() < old(self).size(),
        ensures
            final(self).size() == old(self).size(),
            final(self).max_retries() == old(self).max_retries(),
            old(self).position() <= final(self).position(),
            r is Complete ==> final(self).position() == final(self).size(),
            ({
                let pos = old(self).position();
                let size = old(self).size();
                let end = chunk_end_spec(pos, size);
                match result {
                    Ok(_) => {
                        &&& final(self).position() == end
                        &&& final(self).attempt() == 0
                        &&& if end < size {
                            !final(self).finished() && r == (TransferStep::Send { start: end, end: chunk_end_spec(end, size) })
                        } else {
                            final(self).finished() && r == TransferStep::Complete
                        }
                    },
                    Err(e) => if old(self).attempt() > 0 && contains_spec(e@, "404"@) {
                        final(self).position() == size && final(self).finished() && r == TransferStep::Complete
                    } else if old(self).attempt() < old(self).max_retries() {
                        let a = (old(self).attempt() + 1) as u32;
                        &&& final(self).position() == pos
                        &&& final(self).attempt() == a
                        &&& !final(self).finished()
                        &&& r matches TransferStep::Retry { attempt, max_retries, delay_ms, start, end: e2 }
                        &&& attempt == a
                        &&& max_retries == old(self).max_retries()
                        &&& delay_ms == retry_delay_spec(a)
                        &&& start == pos
                        &&& e2 == end
                    } else {
                        &&& final(self).position() == pos
                        &&& final(self).finished()
                        &&& r matches TransferStep::Fail { message, cancel }
                        &&& message@ == "Chunk upload failed: "@ + e@
                        &&& cancel
                    },
                }
            }),
    {
        proof { use_type_invariant(&*self); }
        let end = chunk_end(self.position, self.size);
        match result {
            Ok(_) => {
                self.position = end;
                self.attempt = 0;
                if end < self.size {
                    TransferStep::Send { start: end, end: chunk_end(end, self.size) }
                } else {
                    self.finished = true;
                    TransferStep::Complete
                }
            },
            Err(e) => {
                if self.attempt > 0 && contains_str(e.as_str(), "404") {
                    self.position = self.size;
                    self.finished = true;
                    TransferStep::Complete
                } else if self.attempt < self.max_retries {
                    self.attempt = self.attempt + 1;
                    let delay = retry_delay_ms(self.attempt);
                    TransferStep::Retry {
                        attempt: self.attempt,
                        max_retries: self.max_retries,
                        delay_ms: delay,
                        start: self.position,
                        end,
                    }
                } else {
                    let mut msg: Vec<char> = Vec::new();
                    push_str(&mut msg, "Chunk upload failed: ");
                    push_chars(&mut msg, &chars_of(e.as_str()));
                    self.finished = true;
                    TransferStep::Fail { message: string_from_chars(&msg), cancel: true }
                }
            },
        }
    }
}

/// Every chunk lies inside the file, is not empty and holds at most one
/// chunk's worth of bytes.
pub proof fn law_chunks_stay_inside_file(position: u64, size: u64)
    requires
        position < size,
        size + CHUNK_SIZE <= u64::MAX,
    ensures
        position < chunk_end_spec(position, size) <= size,
        chunk_end_spec(position, size) - position <= CHUNK_SIZE,
{
}

} // verus!
