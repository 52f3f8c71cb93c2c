//! Entry content sources and the archive stream's error type.
//!
//! A content source is a capability with two operations: a cheap declared
//! byte length, and sequential delivery of the content bytes themselves.
//! The archive plan snapshots the declared length once; the stream drains
//! the bytes exactly once, in entry order. Nothing is assumed about what a
//! source returns: the stream's contracts hold for every behaviour, and a
//! source that yields a different number of bytes than it declared makes
//! the stream fail with a length mismatch.

use vstd::prelude::*;

verus! {

/// A named, size-known content source for one archive entry.
///
/// `get_size` is the declared content length; it must be known without
/// reading the content. `read_some` yields the next at most `max` content
/// bytes; an empty result means the content is exhausted, an `Err` carries a
/// message from the underlying source and aborts the archive generation.
pub trait EntryData {
    /// Declared content length in bytes, available without any reading.
    fn get_size(&self) -> u64;

    /// The next at most `max` bytes of the content, in order; empty at the
    /// end of the content.
    fn read_some(&mut self, max: usize) -> Result<Vec<u8>, String>;
}

/// The empty content source.
impl EntryData for () {
    fn get_size(&self) -> u64 {
        0
    }

    fn read_some(&mut self, max: usize) -> Result<Vec<u8>, String> {
        Ok(Vec::new())
    }
}

/// An in-memory content source over a byte vector.
pub struct BytesEntry {
    data: Vec<u8>,
    pos: usize,
}

impl BytesEntry {
    /// Wraps `data` as a content source that yields exactly those bytes.
    pub fn new(data: Vec<u8>) -> (r: BytesEntry)
        ensures
            r.spec_data() == data@,
            r.spec_pos() == 0,
    {
        BytesEntry { data, pos: 0 }
    }

    /// The bytes this source was created over.
    pub closed spec fn spec_data(self) -> Seq<u8> {
        self.data@
    }

    /// How many bytes have been yielded so far.
    pub closed spec fn spec_pos(self) -> int {
        self.pos as int
    }
}

impl EntryData for BytesEntry {
    fn get_size(&self) -> u64 {
        self.data.len() as u64
    }

    fn read_some(&mut self, max: usize) -> Result<Vec<u8>, String> {
        let mut r: Vec<u8> = Vec::new();
        let mut i: usize = 0;
        while self.pos < self.data.len() && i < max
            invariant
                i <= max,
            decreases max - i,
        {
            r.push(self.data[self.pos]);
            self.pos = self.pos + 1;
            i = i + 1;
        }
        Ok(r)
    }
}

/// Why archive generation stopped.
///
/// A length mismatch means the entry's content source yielded a different
/// cumulative byte count than it declared; a source failure carries a
/// message from the underlying source. Both are fatal to the stream: bytes
/// already handed to the consumer cannot be taken back, so the only recovery
/// is a fresh archive generation.
#[derive(Debug)]
pub enum ZippityError {
    /// The named entry declared `expected_size` bytes but its source
    /// yielded `actual_size`.
    LengthMismatch { entry_name: Vec<u8>, expected_size: u64, actual_size: u64 },
    /// The named entry's content source reported a failure of its own.
    SourceFailure { entry_name: Vec<u8>, message: String },
}

/// Copies a byte vector; used to hand out stored error data repeatedly.
pub fn clone_bytes(v: &Vec<u8>) -> (r: Vec<u8>)
    ensures
        r@ == v@,
{
    let mut r: Vec<u8> = Vec::new();
    let mut i: usize = 0;
    while i < v.len()
        invariant
            i <= v.len(),
            r@ == v@.subrange(0, i as int),
        decreases v.len() - i,
    {
        r.push(v[i]);
        i = i + 1;
    }
    proof {
        assert(r@ =~= v@);
    }
    r
}

} // verus!
