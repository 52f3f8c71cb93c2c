//! The archive stream: a pull-based producer of the archive's bytes.
//!
//! A `Reader` owns the finalized entry table and a cursor over the archive's
//! structural chunks, in their fixed order: local header, content and data
//! descriptor of every entry, the central directory records, the
//! end-of-central-directory group. Each `read` call appends up to a
//! caller-chosen number of bytes; production can stop and resume at any byte
//! boundary. The whole history of produced bytes is tracked in ghost state
//! and proved, call by call, to be a prefix of the archive's specified byte
//! sequence; when the stream finishes, the history equals
//! `spec_archive_bytes` over the names and the content bytes the sources
//! yielded, and its length equals the total size the plan declared.

use vstd::prelude::*;
use vstd::std_specs::vec::vec_index_mut;
use crate::checksum::{crc32_of, Crc32};
use crate::lex::lex_less;
use crate::zip_entry::{clone_bytes, EntryData, ZippityError};
use crate::zip_format::{
    pack_cd_header, pack_data_descriptor, pack_eocd, pack_local_header, spec_archive_bytes,
    spec_cd_header, spec_data_descriptor, spec_entries, spec_eocd, spec_local_header,
    spec_plan_cd_total, spec_plan_offset, spec_plan_total, lemma_cd_header_len,
    lemma_data_descriptor_len, lemma_eocd_len, lemma_local_header_len, lemma_plan_matches_model,
    CD_HEADER_FIXED_BYTES, DATA_DESCRIPTOR_BYTES, EOCD_BYTES, LOCAL_HEADER_FIXED_BYTES,
    ZIP64_EXTRA_BYTES,
};

verus! {

/// One entry of the stream's table: the plan's immutable facts (name,
/// declared size, offset), the content source, the finished CRC once the
/// content has been drained, and a ghost record of the content bytes the
/// source has yielded so far.
pub(crate) struct ReaderEntry<D> {
    pub(crate) name: Vec<u8>,
    pub(crate) size: u64,
    pub(crate) offset: u64,
    pub(crate) crc32: Option<u32>,
    pub(crate) data: D,
    pub(crate) consumed: Ghost<Seq<u8>>,
}

/// The structural chunk the stream is currently producing. Strictly
/// ordered; never revisited backward. `Failed` is terminal: after a length
/// mismatch or a source failure no further bytes are produced.
#[derive(Clone, Copy)]
pub(crate) enum Cursor {
    LocalHeader { idx: usize },
    FileData { idx: usize },
    DataDescriptor { idx: usize },
    CdHeader { idx: usize },
    Eocd,
    Finished,
    Failed { idx: usize },
}

/// The archive stream. Created from a finalized plan, consumed by repeated
/// `read` calls until a call returns no bytes; not reusable afterward.
pub struct Reader<D> {
    pub(crate) entries: Vec<ReaderEntry<D>>,
    pub(crate) cd_offset: u64,
    pub(crate) cd_size: u64,
    pub(crate) total_size: u64,
    pub(crate) cursor: Cursor,
    /// Bytes of the current structural chunk already produced.
    pub(crate) within: usize,
    /// Content bytes of the current entry already produced.
    pub(crate) produced: u64,
    /// Running checksum of the current entry's content.
    pub(crate) hasher: Crc32,
    /// On a length mismatch, the cumulative byte count the source yielded.
    pub(crate) fail_actual: u64,
    /// On a source failure, the source's message.
    pub(crate) fail_message: Option<String>,
    /// Every byte handed to the caller so far, in order.
    pub(crate) history: Ghost<Seq<u8>>,
}

/// The local file header bytes of one entry.
pub(crate) open spec fn e_local_chunk<D>(e: ReaderEntry<D>) -> Seq<u8> {
    spec_local_header(e.name@, e.size, e.offset)
}

/// The data descriptor bytes of one entry, over the content its source
/// actually yielded.
pub(crate) open spec fn e_dd_chunk<D>(e: ReaderEntry<D>) -> Seq<u8> {
    spec_data_descriptor(crc32_of(e.consumed@), e.size)
}

/// The central directory record bytes of one entry.
pub(crate) open spec fn e_cd_chunk<D>(e: ReaderEntry<D>) -> Seq<u8> {
    spec_cd_header(e.name@, e.size, e.offset, crc32_of(e.consumed@))
}

/// The whole local part of one entry: header, content, descriptor.
pub(crate) open spec fn e_local_bytes<D>(e: ReaderEntry<D>) -> Seq<u8> {
    e_local_chunk(e) + e.consumed@ + e_dd_chunk(e)
}

/// Local parts of the first `k` entries, laid end to end.
pub(crate) open spec fn r_locals_upto<D>(es: Seq<ReaderEntry<D>>, k: int) -> Seq<u8>
    decreases k,
{
    if k <= 0 {
        Seq::<u8>::empty()
    } else {
        r_locals_upto(es, k - 1) + e_local_bytes(es[k - 1])
    }
}

/// Central directory records of the first `k` entries, laid end to end.
pub(crate) open spec fn r_cds_upto<D>(es: Seq<ReaderEntry<D>>, k: int) -> Seq<u8>
    decreases k,
{
    if k <= 0 {
        Seq::<u8>::empty()
    } else {
        r_cds_upto(es, k - 1) + e_cd_chunk(es[k - 1])
    }
}

/// An entry whose content has been fully drained and checksummed.
pub(crate) open spec fn done_entry<D>(e: ReaderEntry<D>) -> bool {
    &&& e.consumed@.len() == e.size
    &&& e.crc32 == Some(crc32_of(e.consumed@))
}

/// An entry whose source has not been touched yet.
pub(crate) open spec fn fresh_entry<D>(e: ReaderEntry<D>) -> bool {
    e.consumed@ == Seq::<u8>::empty()
}

pub(crate) open spec fn all_done_below<D>(es: Seq<ReaderEntry<D>>, k: int) -> bool {
    forall|j: int| 0 <= j < k ==> done_entry(#[trigger] es[j])
}

pub(crate) open spec fn all_fresh_from<D>(es: Seq<ReaderEntry<D>>, k: int) -> bool {
    forall|j: int| k <= j < es.len() ==> fresh_entry(#[trigger] es[j])
}

/// The names of a raw entry table, in order.
pub(crate) open spec fn names_of<D>(es: Seq<ReaderEntry<D>>) -> Seq<Seq<u8>> {
    Seq::new(es.len(), |i: int| es[i].name@)
}

/// The declared sizes of a raw entry table, in order.
pub(crate) open spec fn sizes_of<D>(es: Seq<ReaderEntry<D>>) -> Seq<u64> {
    Seq::new(es.len(), |i: int| es[i].size)
}

/// The content bytes yielded so far for each entry of a raw table.
pub(crate) open spec fn contents_of<D>(es: Seq<ReaderEntry<D>>) -> Seq<Seq<u8>> {
    Seq::new(es.len(), |i: int| es[i].consumed@)
}

impl<D> Reader<D> {
    /// The entry names, in emission order.
    pub closed spec fn names(self) -> Seq<Seq<u8>> {
        names_of(self.entries@)
    }

    /// The declared content sizes, in emission order.
    pub closed spec fn sizes(self) -> Seq<u64> {
        sizes_of(self.entries@)
    }

    /// The content bytes each entry's source has yielded so far.
    pub closed spec fn contents(self) -> Seq<Seq<u8>> {
        contents_of(self.entries@)
    }

    /// Every byte handed to the caller so far, in order.
    pub closed spec fn emitted(self) -> Seq<u8> {
        self.history@
    }

    /// The declared total archive size.
    pub closed spec fn total(self) -> u64 {
        self.total_size
    }

    /// The stream has produced the whole archive.
    pub closed spec fn is_finished(self) -> bool {
        self.cursor is Finished
    }

    /// The stream has failed and will produce nothing more.
    pub closed spec fn is_failed(self) -> bool {
        self.cursor is Failed
    }

    /// The stream stands at an entry's content, about to consult its source.
    pub closed spec fn at_file_data(self) -> bool {
        self.cursor is FileData
    }

    /// Which entry the stream failed on.
    pub closed spec fn failure_index(self) -> int {
        match self.cursor {
            Cursor::Failed { idx } => idx as int,
            _ => 0,
        }
    }

    /// The error a failed stream reports: a length mismatch carries the
    /// offending entry's name and the declared and actual byte counts, a
    /// source failure the entry's name and the source's message.
    pub closed spec fn matches_failure(self, e: ZippityError) -> bool {
        match self.cursor {
            Cursor::Failed { idx } => {
                match self.fail_message {
                    Option::None => e matches ZippityError::LengthMismatch {
                        entry_name, expected_size, actual_size }
                        && entry_name@ == self.entries@[idx as int].name@
                        && expected_size == self.entries@[idx as int].size
                        && actual_size == self.fail_actual
                        && actual_size != expected_size,
                    Option::Some(m) => e matches ZippityError::SourceFailure {
                        entry_name, message }
                        && entry_name@ == self.entries@[idx as int].name@
                        && message@ == m@,
                }
            },
            _ => false,
        }
    }

    /// The entry table as an abstract archive model.
    pub open spec fn model(self) -> Seq<crate::zip_format::EntryModel> {
        spec_entries(self.names(), self.contents())
    }

    /// Plan facts: names fit the format's 16-bit length field, offsets and
    /// directory accounting match the declared sizes, entries are strictly
    /// name-ordered.
    pub(crate) open spec fn entries_wf(self) -> bool {
        let es = self.entries@;
        let n = es.len() as int;
        &&& forall|i: int| 0 <= i < n ==> (#[trigger] es[i]).name@.len() <= 0xffff
        &&& forall|i: int| 0 <= i < n ==> (#[trigger] es[i]).size < u64::MAX
        &&& forall|i: int| 0 <= i < n ==> (#[trigger] es[i]).offset as int == spec_plan_offset(
            self.names(), self.sizes(), i)
        &&& forall|i: int, j: int| 0 <= i < j < n ==> lex_less(
            (#[trigger] es[i]).name@, (#[trigger] es[j]).name@)
        &&& self.cd_offset as int == spec_plan_offset(self.names(), self.sizes(), n)
        &&& self.cd_size as int == spec_plan_cd_total(self.names(), n)
        &&& self.total_size as int == self.cd_offset as int + self.cd_size as int + EOCD_BYTES
    }

    /// Cursor facts: the index is in range, the position is inside the
    /// current chunk, entries before the cursor are drained and
    /// checksummed, entries after it untouched, and while content is being
    /// produced the running checksum covers exactly the bytes yielded.
    pub(crate) open spec fn cursor_wf(self) -> bool {
        let es = self.entries@;
        let n = es.len() as int;
        match self.cursor {
            Cursor::LocalHeader { idx } => {
                &&& (idx as int) < n
                &&& (self.within as int) < LOCAL_HEADER_FIXED_BYTES + ZIP64_EXTRA_BYTES
                    + es[idx as int].name@.len()
                &&& all_done_below(es, idx as int)
                &&& all_fresh_from(es, idx as int)
            },
            Cursor::FileData { idx } => {
                &&& (idx as int) < n
                &&& all_done_below(es, idx as int)
                &&& all_fresh_from(es, idx as int + 1)
                &&& es[idx as int].consumed@.len() == self.produced
                &&& self.produced <= es[idx as int].size
                &&& self.hasher.bytes() == es[idx as int].consumed@
            },
            Cursor::DataDescriptor { idx } => {
                &&& (idx as int) < n
                &&& (self.within as int) < DATA_DESCRIPTOR_BYTES
                &&& all_done_below(es, idx as int + 1)
                &&& all_fresh_from(es, idx as int + 1)
            },
            Cursor::CdHeader { idx } => {
                &&& (idx as int) < n
                &&& (self.within as int) < CD_HEADER_FIXED_BYTES + ZIP64_EXTRA_BYTES
                    + es[idx as int].name@.len()
                &&& all_done_below(es, n)
            },
            Cursor::Eocd => {
                &&& (self.within as int) < EOCD_BYTES
                &&& all_done_below(es, n)
            },
            Cursor::Finished => all_done_below(es, n),
            Cursor::Failed { idx } => {
                &&& (idx as int) < n
                &&& (self.fail_message is None ==> self.fail_actual
                    != es[idx as int].size)
            },
        }
    }

    /// The bytes the stream must have produced so far, as a prefix of the
    /// archive's specified byte sequence, determined by the cursor.
    pub(crate) open spec fn stream_prefix(self) -> Seq<u8> {
        let es = self.entries@;
        let n = es.len() as int;
        match self.cursor {
            Cursor::LocalHeader { idx } => r_locals_upto(es, idx as int)
                + e_local_chunk(es[idx as int]).take(self.within as int),
            Cursor::FileData { idx } => r_locals_upto(es, idx as int)
                + e_local_chunk(es[idx as int]) + es[idx as int].consumed@,
            Cursor::DataDescriptor { idx } => r_locals_upto(es, idx as int)
                + e_local_chunk(es[idx as int]) + es[idx as int].consumed@
                + e_dd_chunk(es[idx as int]).take(self.within as int),
            Cursor::CdHeader { idx } => r_locals_upto(es, n) + r_cds_upto(es, idx as int)
                + e_cd_chunk(es[idx as int]).take(self.within as int),
            Cursor::Eocd => r_locals_upto(es, n) + r_cds_upto(es, n)
                + self.eocd_chunk().take(self.within as int),
            Cursor::Finished => r_locals_upto(es, n) + r_cds_upto(es, n) + self.eocd_chunk(),
            Cursor::Failed { .. } => self.history@,
        }
    }

    /// The end-of-central-directory bytes of this stream.
    pub(crate) open spec fn eocd_chunk(self) -> Seq<u8> {
        spec_eocd(self.entries@.len() as u64, self.cd_offset, self.cd_size)
    }

    /// The stream's invariant: plan facts, cursor facts, and the produced
    /// history being exactly the prefix the cursor determines.
    #[verifier::opaque]
    pub closed spec fn wf(self) -> bool {
        &&& self.entries_wf()
        &&& self.cursor_wf()
        &&& (!self.is_failed() ==> self.history@ == self.stream_prefix())
    }

    /// Loop measure: how many cursor steps remain.
    pub(crate) open spec fn cursor_rank(self) -> int {
        let n = self.entries@.len() as int;
        match self.cursor {
            Cursor::LocalHeader { idx } => 3 * (n - idx) + n + 3,
            Cursor::FileData { idx } => 3 * (n - idx) + n + 2,
            Cursor::DataDescriptor { idx } => 3 * (n - idx) + n + 1,
            Cursor::CdHeader { idx } => (n - idx) + 2,
            Cursor::Eocd => 2,
            Cursor::Finished => 1,
            Cursor::Failed { idx } => 0,
        }
    }
}

impl<D: EntryData> Reader<D> {
    /// The declared total archive size: exactly the number of bytes the
    /// stream produces when every content source honours its declared
    /// length.
    pub fn get_size(&self) -> (r: u64)
        ensures
            r == self.total(),
            self.wf() ==> r as int == spec_plan_total(self.names(), self.sizes()),
    {
        proof {
            reveal(Reader::wf);
        }
        self.total_size
    }
}

/// Concatenation of byte sequences is associative.
pub(crate) proof fn lemma_assoc(a: Seq<u8>, b: Seq<u8>, c: Seq<u8>)
    ensures
        a + b + c == a + (b + c),
{
    assert(a + b + c =~= a + (b + c));
}

/// Extending a chunk prefix by the chunk's next `k` bytes.
pub(crate) proof fn lemma_prefix_extend(base: Seq<u8>, chunk: Seq<u8>, w: int, k: int)
    requires
        0 <= w,
        0 <= k,
        w + k <= chunk.len(),
    ensures
        base + chunk.take(w) + chunk.subrange(w, w + k) == base + chunk.take(w + k),
{
    assert(base + chunk.take(w) + chunk.subrange(w, w + k) =~= base + chunk.take(w + k));
}

/// A chunk prefix of the chunk's whole length is the chunk.
pub(crate) proof fn lemma_take_all(s: Seq<u8>)
    ensures
        s.take(s.len() as int) == s,
{
    assert(s.take(s.len() as int) =~= s);
}

/// The local and directory concatenations depend only on each entry's
/// name, declared size, offset and yielded content, not on its source
/// handle or stored checksum field.
pub(crate) open spec fn entry_eqv<D>(a: ReaderEntry<D>, b: ReaderEntry<D>) -> bool {
    &&& a.name@ == b.name@
    &&& a.size == b.size
    &&& a.offset == b.offset
    &&& a.consumed@ == b.consumed@
}

pub(crate) proof fn lemma_locals_upto_frame<D>(a: Seq<ReaderEntry<D>>, b: Seq<ReaderEntry<D>>,
    k: int)
    requires
        forall|j: int| 0 <= j < k ==> entry_eqv(#[trigger] a[j], #[trigger] b[j]),
    ensures
        r_locals_upto(a, k) == r_locals_upto(b, k),
    decreases k,
{
    if k > 0 {
        lemma_locals_upto_frame(a, b, k - 1);
    }
}

/// Builds the stream over a finalized entry table whose offsets and totals
/// have been computed as the plan specifies. Positioned at the first
/// entry's local header, or directly at the end-of-central-directory group
/// when there are no entries.
pub(crate) fn reader_from_plan<D: EntryData>(entries: Vec<ReaderEntry<D>>, cd_offset: u64,
    cd_size: u64, total_size: u64) -> (r: Reader<D>)
    requires
        forall|i: int| 0 <= i < entries@.len() ==> (#[trigger] entries@[i]).name@.len() <= 0xffff,
        forall|i: int| 0 <= i < entries@.len() ==> (#[trigger] entries@[i]).size < u64::MAX,
        forall|i: int| 0 <= i < entries@.len() ==> (#[trigger] entries@[i]).offset as int
            == spec_plan_offset(names_of(entries@), sizes_of(entries@), i),
        forall|i: int, j: int| 0 <= i < j < entries@.len() ==> lex_less(
            (#[trigger] entries@[i]).name@, (#[trigger] entries@[j]).name@),
        forall|i: int| 0 <= i < entries@.len() ==> fresh_entry(#[trigger] entries@[i]),
        cd_offset as int == spec_plan_offset(names_of(entries@), sizes_of(entries@),
            entries@.len() as int),
        cd_size as int == spec_plan_cd_total(names_of(entries@), entries@.len() as int),
        total_size as int == cd_offset as int + cd_size as int + EOCD_BYTES,
    ensures
        r.wf(),
        r.names() == names_of(entries@),
        r.sizes() == sizes_of(entries@),
        r.contents() == Seq::new(entries@.len(), |i: int| Seq::<u8>::empty()),
        r.emitted() == Seq::<u8>::empty(),
        r.total() == total_size,
        !r.is_finished(),
        !r.is_failed(),
        !r.at_file_data(),
{
    let n = entries.len();
    let cursor = if n == 0 {
        Cursor::Eocd
    } else {
        Cursor::LocalHeader { idx: 0 }
    };
    let r = Reader {
        entries,
        cd_offset,
        cd_size,
        total_size,
        cursor,
        within: 0,
        produced: 0,
        hasher: Crc32::new(),
        fail_actual: 0,
        fail_message: Option::None,
        history: Ghost(Seq::<u8>::empty()),
    };
    proof {
        reveal(Reader::wf);
        assert(r.names() =~= names_of(r.entries@));
        assert(r.sizes() =~= sizes_of(r.entries@));
        assert(r.contents() =~= Seq::new(r.entries@.len(), |i: int| Seq::<u8>::empty()));
        assert(r.stream_prefix() =~= Seq::<u8>::empty());
    }
    r
}

impl<D: EntryData> Reader<D> {
    /// Appends up to `max` of the archive's next bytes to a fresh vector.
    ///
    /// A full vector means production can continue; a shorter one means the
    /// archive is complete, or the stream stands at an entry's content
    /// whose bytes are deferred to the next call. An empty result is the
    /// end-of-stream signal and occurs exactly on a finished stream. An
    /// error, once returned, is permanent, and no bytes are produced along
    /// with or after it.
    pub fn read(&mut self, max: usize) -> (r: Result<Vec<u8>, ZippityError>)
        requires
            old(self).wf(),
            1 <= max,
        ensures
            final(self).wf(),
            final(self).names() == old(self).names(),
            final(self).sizes() == old(self).sizes(),
            final(self).total() == old(self).total(),
            match r {
                Ok(v) => {
                    &&& !old(self).is_failed()
                    &&& !final(self).is_failed()
                    &&& final(self).emitted() == old(self).emitted() + v@
                    &&& v@.len() <= max
                    &&& (v@.len() < max ==> final(self).is_finished() || (
                        final(self).at_file_data() && v@.len() > 0))
                    &&& (v@.len() == 0 <==> old(self).is_finished())
                    &&& (old(self).is_finished() ==> final(self).is_finished())
                },
                Err(e) => {
                    &&& final(self).is_failed()
                    &&& final(self).emitted() == old(self).emitted()
                    &&& final(self).contents() == old(self).contents()
                    &&& final(self).matches_failure(e)
                    &&& 0 <= final(self).failure_index() < old(self).names().len()
                    &&& (!old(self).is_failed() ==> old(self).at_file_data())
                    &&& (old(self).is_failed() ==> *final(self) == *old(self))
                },
            },
    {
        proof {
            reveal(Reader::wf);
        }
        if let Cursor::Failed { idx } = self.cursor {
            let entry_name = clone_bytes(&self.entries[idx].name);
            let e = match &self.fail_message {
                Option::None => ZippityError::LengthMismatch {
                    entry_name,
                    expected_size: self.entries[idx].size,
                    actual_size: self.fail_actual,
                },
                Option::Some(m) => ZippityError::SourceFailure {
                    entry_name,
                    message: m.clone(),
                },
            };
            return Err(e);
        }
        let mut out: Vec<u8> = Vec::new();
        loop
            invariant
                self.wf(),
                !self.is_failed(),
                !old(self).is_failed(),
                0 <= self.cursor_rank(),
                1 <= max,
                self.names() == old(self).names(),
                self.sizes() == old(self).sizes(),
                self.total() == old(self).total(),
                out@.len() <= max,
                self.history@ == old(self).history@ + out@,
                out@.len() > 0 ==> !old(self).is_finished(),
                old(self).is_finished() ==> self.is_finished() && out@.len() == 0,
                self.is_finished() ==> out@.len() > 0 || old(self).is_finished(),
                out@.len() == 0 ==> self.contents() == old(self).contents(),
                out@.len() == 0 && self.at_file_data() ==> old(self).at_file_data(),
            decreases self.cursor_rank(), max - out@.len(),
        {
            if out.len() == max {
                return Ok(out);
            }
            let ghost pre = *self;
            let ghost out0 = out@;
            match self.cursor {
                Cursor::Finished => {
                    return Ok(out);
                },
                Cursor::Failed { .. } => {
                    proof {
                        assert(false);
                    }
                    return Ok(out);
                },
                Cursor::LocalHeader { .. } => {
                    let delta = self.step_local_header(&mut out, max);
                    proof {
                        lemma_assoc(old(self).history@, out0, delta@);
                    }
                },
                Cursor::DataDescriptor { .. } => {
                    let delta = self.step_data_descriptor(&mut out, max);
                    proof {
                        lemma_assoc(old(self).history@, out0, delta@);
                    }
                },
                Cursor::CdHeader { .. } => {
                    let delta = self.step_cd_header(&mut out, max);
                    proof {
                        lemma_assoc(old(self).history@, out0, delta@);
                    }
                },
                Cursor::Eocd => {
                    let delta = self.step_eocd(&mut out, max);
                    proof {
                        lemma_assoc(old(self).history@, out0, delta@);
                    }
                },
                Cursor::FileData { .. } => {
                    if out.len() > 0 {
                        return Ok(out);
                    }
                    let res = self.step_file_data(&mut out, max);
                    match res {
                        Result::Ok(delta) => {
                            proof {
                                lemma_assoc(old(self).history@, out0, delta@);
                                assert(old(self).history@ + out0 =~= old(self).history@);
                            }
                        },
                        Result::Err(e) => {
                            proof {
                                assert(old(self).history@ + out0 =~= old(self).history@);
                            }
                            return Err(e);
                        },
                    }
                },
            }
        }
    }

    /// Produces the next bytes of the current local file header; advances
    /// to the entry's content when the header is complete.
    #[verifier::rlimit(100)]
    #[verifier::spinoff_prover]
    fn step_local_header(&mut self, out: &mut Vec<u8>, max: usize) -> (delta: Ghost<Seq<u8>>)
        requires
            old(self).wf(),
            old(self).cursor is LocalHeader,
            old(out)@.len() < max,
        ensures
            final(self).wf(),
            !final(self).is_failed(),
            !final(self).is_finished(),
            final(self).names() == old(self).names(),
            final(self).sizes() == old(self).sizes(),
            final(self).contents() == old(self).contents(),
            final(self).total() == old(self).total(),
            final(out)@ == old(out)@ + delta@,
            delta@.len() >= 1,
            final(out)@.len() <= max,
            final(self).emitted() == old(self).emitted() + delta@,
            final(self).cursor_rank() <= old(self).cursor_rank(),
            0 <= final(self).cursor_rank(),
    {
        proof {
            reveal(Reader::wf);
        }
        let ghost pre = *self;
        let idx = match self.cursor {
            Cursor::LocalHeader { idx } => idx,
            _ => {
                proof {
                    assert(false);
                }
                0
            },
        };
        let chunk = pack_local_header(&self.entries[idx].name, self.entries[idx].size,
            self.entries[idx].offset);
        proof {
            lemma_local_header_len(pre.entries@[idx as int].name@, pre.entries@[idx as int].size,
                pre.entries@[idx as int].offset);
        }
        let w = self.within;
        let k = emit_slice(out, max, &chunk, w);
        let ghost delta = chunk@.subrange(w as int, w as int + k as int);
        self.history = Ghost(self.history@ + delta);
        proof {
            lemma_prefix_extend(r_locals_upto(pre.entries@, idx as int),
                e_local_chunk(pre.entries@[idx as int]), w as int, k as int);
        }
        if w + k == chunk.len() {
            self.cursor = Cursor::FileData { idx };
            self.within = 0;
            self.produced = 0;
            self.hasher = Crc32::new();
            proof {
                lemma_take_all(e_local_chunk(pre.entries@[idx as int]));
                assert(pre.entries@[idx as int].consumed@ == Seq::<u8>::empty());
                assert(self.stream_prefix() =~= r_locals_upto(pre.entries@, idx as int)
                    + e_local_chunk(pre.entries@[idx as int]).take(w + k));
                assert(self.history@ == self.stream_prefix());
            }
        } else {
            self.within = w + k;
            proof {
                assert(self.history@ == self.stream_prefix());
            }
        }
        Ghost(delta)
    }

    /// Produces the next bytes of the current data descriptor; advances to
    /// the next entry's local header, or to the central directory, when the
    /// descriptor is complete.
    #[verifier::rlimit(100)]
    #[verifier::spinoff_prover]
    fn step_data_descriptor(&mut self, out: &mut Vec<u8>, max: usize) -> (delta: Ghost<Seq<u8>>)
        requires
            old(self).wf(),
            old(self).cursor is DataDescriptor,
            old(out)@.len() < max,
        ensures
            final(self).wf(),
            !final(self).is_failed(),
            !final(self).is_finished(),
            final(self).names() == old(self).names(),
            final(self).sizes() == old(self).sizes(),
            final(self).contents() == old(self).contents(),
            final(self).total() == old(self).total(),
            final(out)@ == old(out)@ + delta@,
            delta@.len() >= 1,
            final(out)@.len() <= max,
            final(self).emitted() == old(self).emitted() + delta@,
            final(self).cursor_rank() <= old(self).cursor_rank(),
            0 <= final(self).cursor_rank(),
    {
        proof {
            reveal(Reader::wf);
        }
        let ghost pre = *self;
        let idx = match self.cursor {
            Cursor::DataDescriptor { idx } => idx,
            _ => {
                proof {
                    assert(false);
                }
                0
            },
        };
        let crc: u32 = match self.entries[idx].crc32 {
            Option::Some(c) => c,
            Option::None => {
                proof {
                    assert(done_entry(pre.entries@[idx as int]));
                    assert(false);
                }
                0
            },
        };
        let chunk = pack_data_descriptor(crc, self.entries[idx].size);
        proof {
            assert(chunk@ == e_dd_chunk(pre.entries@[idx as int]));
            lemma_data_descriptor_len(crc32_of(pre.entries@[idx as int].consumed@),
                pre.entries@[idx as int].size);
        }
        let w = self.within;
        let k = emit_slice(out, max, &chunk, w);
        let ghost delta = chunk@.subrange(w as int, w as int + k as int);
        self.history = Ghost(self.history@ + delta);
        proof {
            lemma_prefix_extend(r_locals_upto(pre.entries@, idx as int)
                + e_local_chunk(pre.entries@[idx as int]) + pre.entries@[idx as int].consumed@,
                e_dd_chunk(pre.entries@[idx as int]), w as int, k as int);
        }
        if w + k == chunk.len() {
            let n_now = self.entries.len();
            let next = idx + 1;
            self.within = 0;
            if next < n_now {
                self.cursor = Cursor::LocalHeader { idx: next };
            } else {
                self.cursor = Cursor::CdHeader { idx: 0 };
            }
            proof {
                lemma_take_all(e_dd_chunk(pre.entries@[idx as int]));
                assert(r_locals_upto(pre.entries@, idx as int + 1) =~= r_locals_upto(
                    pre.entries@, idx as int) + e_local_chunk(pre.entries@[idx as int])
                    + pre.entries@[idx as int].consumed@ + e_dd_chunk(pre.entries@[idx as int]));
                if next < pre.entries@.len() {
                    lemma_local_header_len(pre.entries@[next as int].name@,
                        pre.entries@[next as int].size, pre.entries@[next as int].offset);
                    assert(self.stream_prefix() =~= r_locals_upto(pre.entries@,
                        idx as int + 1));
                } else {
                    lemma_cd_header_len(pre.entries@[0].name@, pre.entries@[0].size,
                        pre.entries@[0].offset, crc32_of(pre.entries@[0].consumed@));
                    assert(self.stream_prefix() =~= r_locals_upto(pre.entries@,
                        idx as int + 1));
                }
                assert(self.history@ == self.stream_prefix());
            }
        } else {
            self.within = w + k;
            proof {
                assert(self.history@ == self.stream_prefix());
            }
        }
        Ghost(delta)
    }

    /// Produces the next bytes of the current central directory record;
    /// advances to the next record, or to the end-of-central-directory
    /// group, when the record is complete.
    #[verifier::rlimit(100)]
    #[verifier::spinoff_prover]
    fn step_cd_header(&mut self, out: &mut Vec<u8>, max: usize) -> (delta: Ghost<Seq<u8>>)
        requires
            old(self).wf(),
            old(self).cursor is CdHeader,
            old(out)@.len() < max,
        ensures
            final(self).wf(),
            !final(self).is_failed(),
            !final(self).is_finished(),
            final(self).names() == old(self).names(),
            final(self).sizes() == old(self).sizes(),
            final(self).contents() == old(self).contents(),
            final(self).total() == old(self).total(),
            final(out)@ == old(out)@ + delta@,
            delta@.len() >= 1,
            final(out)@.len() <= max,
            final(self).emitted() == old(self).emitted() + delta@,
            final(self).cursor_rank() <= old(self).cursor_rank(),
            0 <= final(self).cursor_rank(),
    {
        proof {
            reveal(Reader::wf);
        }
        let ghost pre = *self;
        let idx = match self.cursor {
            Cursor::CdHeader { idx } => idx,
            _ => {
                proof {
                    assert(false);
                }
                0
            },
        };
        let crc: u32 = match self.entries[idx].crc32 {
            Option::Some(c) => c,
            Option::None => {
                proof {
                    assert(done_entry(pre.entries@[idx as int]));
                    assert(false);
                }
                0
            },
        };
        let chunk = pack_cd_header(&self.entries[idx].name, self.entries[idx].size,
            self.entries[idx].offset, crc);
        proof {
            assert(chunk@ == e_cd_chunk(pre.entries@[idx as int]));
            lemma_cd_header_len(pre.entries@[idx as int].name@, pre.entries@[idx as int].size,
                pre.entries@[idx as int].offset, crc32_of(pre.entries@[idx as int].consumed@));
        }
        let w = self.within;
        let k = emit_slice(out, max, &chunk, w);
        let ghost delta = chunk@.subrange(w as int, w as int + k as int);
        self.history = Ghost(self.history@ + delta);
        proof {
            lemma_prefix_extend(r_locals_upto(pre.entries@, pre.entries@.len() as int)
                + r_cds_upto(pre.entries@, idx as int), e_cd_chunk(pre.entries@[idx as int]),
                w as int, k as int);
        }
        if w + k == chunk.len() {
            let n_now = self.entries.len();
            let next = idx + 1;
            self.within = 0;
            if next < n_now {
                self.cursor = Cursor::CdHeader { idx: next };
            } else {
                self.cursor = Cursor::Eocd;
            }
            proof {
                lemma_take_all(e_cd_chunk(pre.entries@[idx as int]));
                let n = pre.entries@.len() as int;
                assert(r_locals_upto(pre.entries@, n) + r_cds_upto(pre.entries@,
                    idx as int + 1) =~= r_locals_upto(pre.entries@, n) + r_cds_upto(
                    pre.entries@, idx as int) + e_cd_chunk(pre.entries@[idx as int]));
                if next < pre.entries@.len() {
                    lemma_cd_header_len(pre.entries@[next as int].name@,
                        pre.entries@[next as int].size, pre.entries@[next as int].offset,
                        crc32_of(pre.entries@[next as int].consumed@));
                    assert(self.stream_prefix() =~= r_locals_upto(pre.entries@, n)
                        + r_cds_upto(pre.entries@, idx as int + 1));
                } else {
                    lemma_eocd_len(pre.entries@.len() as u64, pre.cd_offset, pre.cd_size);
                    assert(self.stream_prefix() =~= r_locals_upto(pre.entries@, n)
                        + r_cds_upto(pre.entries@, idx as int + 1));
                }
                assert(self.history@ == self.stream_prefix());
            }
        } else {
            self.within = w + k;
            proof {
                assert(self.history@ == self.stream_prefix());
            }
        }
        Ghost(delta)
    }

    /// Produces the next bytes of the end-of-central-directory group; the
    /// stream is finished when the group is complete.
    #[verifier::rlimit(100)]
    #[verifier::spinoff_prover]
    fn step_eocd(&mut self, out: &mut Vec<u8>, max: usize) -> (delta: Ghost<Seq<u8>>)
        requires
            old(self).wf(),
            old(self).cursor is Eocd,
            old(out)@.len() < max,
        ensures
            final(self).wf(),
            !final(self).is_failed(),
            final(self).names() == old(self).names(),
            final(self).sizes() == old(self).sizes(),
            final(self).contents() == old(self).contents(),
            final(self).total() == old(self).total(),
            final(out)@ == old(out)@ + delta@,
            delta@.len() >= 1,
            final(out)@.len() <= max,
            final(self).emitted() == old(self).emitted() + delta@,
            final(self).cursor_rank() <= old(self).cursor_rank(),
            0 <= final(self).cursor_rank(),
    {
        proof {
            reveal(Reader::wf);
        }
        let ghost pre = *self;
        let count = self.entries.len() as u64;
        let chunk = pack_eocd(count, self.cd_offset, self.cd_size);
        proof {
            assert(chunk@ == pre.eocd_chunk());
            lemma_eocd_len(count, pre.cd_offset, pre.cd_size);
        }
        let w = self.within;
        let k = emit_slice(out, max, &chunk, w);
        let ghost delta = chunk@.subrange(w as int, w as int + k as int);
        self.history = Ghost(self.history@ + delta);
        proof {
            lemma_prefix_extend(r_locals_upto(pre.entries@, pre.entries@.len() as int)
                + r_cds_upto(pre.entries@, pre.entries@.len() as int), pre.eocd_chunk(),
                w as int, k as int);
        }
        if w + k == chunk.len() {
            self.cursor = Cursor::Finished;
            self.within = 0;
            proof {
                lemma_take_all(pre.eocd_chunk());
                assert(self.history@ == self.stream_prefix());
            }
        } else {
            self.within = w + k;
            proof {
                assert(self.history@ == self.stream_prefix());
            }
        }
        Ghost(delta)
    }

    /// One interaction with the current entry's content source: forwards
    /// at most `max` content bytes into `out` while folding them into the
    /// running checksum, or, at the declared length, checks that the
    /// source is exhausted, finishes the entry's checksum and advances to
    /// its data descriptor. A source that ends early, yields bytes beyond
    /// its declared length, or reports a failure of its own makes the
    /// stream fail permanently.
    #[verifier::rlimit(100)]
    #[verifier::spinoff_prover]
    fn step_file_data(&mut self, out: &mut Vec<u8>, max: usize)
        -> (r: Result<Ghost<Seq<u8>>, ZippityError>)
        requires
            old(self).wf(),
            old(self).cursor is FileData,
            old(out)@.len() == 0,
            1 <= max,
        ensures
            final(self).wf(),
            final(self).names() == old(self).names(),
            final(self).sizes() == old(self).sizes(),
            final(self).total() == old(self).total(),
            match r {
                Ok(delta) => {
                    &&& !final(self).is_failed()
                    &&& !final(self).is_finished()
                    &&& final(out)@ == old(out)@ + delta@
                    &&& final(out)@.len() <= max
                    &&& final(self).emitted() == old(self).emitted() + delta@
                    &&& final(self).cursor_rank() <= old(self).cursor_rank()
                    &&& 0 <= final(self).cursor_rank()
                    &&& (delta@.len() >= 1 || final(self).cursor_rank()
                        < old(self).cursor_rank())
                    &&& (delta@.len() == 0 ==> final(self).contents()
                        == old(self).contents())
                    &&& (final(self).at_file_data() ==> old(self).at_file_data())
                },
                Err(e) => {
                    &&& final(self).is_failed()
                    &&& final(self).emitted() == old(self).emitted()
                    &&& final(out)@ == old(out)@
                    &&& final(self).contents() == old(self).contents()
                    &&& final(self).matches_failure(e)
                    &&& 0 <= final(self).failure_index() < old(self).names().len()
                },
            },
    {
        proof {
            reveal(Reader::wf);
        }
        let ghost pre = *self;
        let idx = match self.cursor {
            Cursor::FileData { idx } => idx,
            _ => {
                proof {
                    assert(false);
                }
                0
            },
        };
        let size = self.entries[idx].size;
        if self.produced == size {
            let res = read_from_entry(&mut self.entries, idx, 1);
            proof {
                assert(self.names() =~= pre.names());
                assert(self.sizes() =~= pre.sizes());
                assert(self.contents() =~= pre.contents());
                lemma_locals_upto_frame(self.entries@, pre.entries@, idx as int);
            }
            match res {
                Result::Err(m) => {
                    let entry_name = clone_bytes(&self.entries[idx].name);
                    let message = m.clone();
                    self.cursor = Cursor::Failed { idx };
                    self.fail_message = Option::Some(m);
                    Err(ZippityError::SourceFailure { entry_name, message })
                },
                Result::Ok(extra) => {
                    if extra.len() == 0 {
                        let crc = self.hasher.digest();
                        set_entry_crc(&mut self.entries, idx, crc);
                        self.cursor = Cursor::DataDescriptor { idx };
                        self.within = 0;
                        proof {
                            let es2 = self.entries@;
                            assert(self.names() =~= pre.names());
                            assert(self.sizes() =~= pre.sizes());
                            assert(self.contents() =~= pre.contents());
                            lemma_locals_upto_frame(es2, pre.entries@, idx as int);
                            assert(done_entry(es2[idx as int]));
                            lemma_data_descriptor_len(crc32_of(es2[idx as int].consumed@),
                                es2[idx as int].size);
                            assert(self.stream_prefix() =~= pre.stream_prefix());
                            assert(self.history@ == self.stream_prefix());
                            assert(self.history@ =~= self.history@ + Seq::<u8>::empty());
                            assert(out@ =~= out@ + Seq::<u8>::empty());
                        }
                        Ok(Ghost(Seq::<u8>::empty()))
                    } else {
                        let extra_len = extra.len() as u64;
                        let actual: u64 = if extra_len <= u64::MAX - size {
                            size + extra_len
                        } else {
                            u64::MAX
                        };
                        let entry_name = clone_bytes(&self.entries[idx].name);
                        self.cursor = Cursor::Failed { idx };
                        self.fail_message = Option::None;
                        self.fail_actual = actual;
                        Err(ZippityError::LengthMismatch {
                            entry_name,
                            expected_size: size,
                            actual_size: actual,
                        })
                    }
                },
            }
        } else {
            let rem: u64 = size - self.produced;
            let req: usize = if (max as u64) <= rem {
                max
            } else {
                rem as usize
            };
            let res = read_from_entry(&mut self.entries, idx, req);
            proof {
                assert(self.names() =~= pre.names());
                assert(self.sizes() =~= pre.sizes());
                assert(self.contents() =~= pre.contents());
                lemma_locals_upto_frame(self.entries@, pre.entries@, idx as int);
            }
            match res {
                Result::Err(m) => {
                    let entry_name = clone_bytes(&self.entries[idx].name);
                    let message = m.clone();
                    self.cursor = Cursor::Failed { idx };
                    self.fail_message = Option::Some(m);
                    Err(ZippityError::SourceFailure { entry_name, message })
                },
                Result::Ok(mut bytes) => {
                    if bytes.len() > req {
                        bytes.truncate(req);
                    }
                    if bytes.len() == 0 {
                        let entry_name = clone_bytes(&self.entries[idx].name);
                        self.cursor = Cursor::Failed { idx };
                        self.fail_message = Option::None;
                        self.fail_actual = self.produced;
                        Err(ZippityError::LengthMismatch {
                            entry_name,
                            expected_size: size,
                            actual_size: self.produced,
                        })
                    } else {
                        let ghost mid = *self;
                        let ghost bs = bytes@;
                        self.hasher.update(bytes.as_slice());
                        note_entry_bytes(&mut self.entries, idx, Ghost(bs));
                        self.produced = self.produced + bytes.len() as u64;
                        out.append(&mut bytes);
                        self.history = Ghost(self.history@ + bs);
                        proof {
                            let es2 = self.entries@;
                            assert(self.names() =~= pre.names());
                            assert(self.sizes() =~= pre.sizes());
                            lemma_locals_upto_frame(es2, pre.entries@, idx as int);
                            assert(out@ =~= bs);
                            assert(self.history@ == self.stream_prefix()) by {
                                lemma_assoc(r_locals_upto(es2, idx as int)
                                    + e_local_chunk(es2[idx as int]),
                                    mid.entries@[idx as int].consumed@, bs);
                                assert(mid.history@ == r_locals_upto(es2, idx as int)
                                    + e_local_chunk(es2[idx as int])
                                    + mid.entries@[idx as int].consumed@);
                            }
                        }
                        Ok(Ghost(bs))
                    }
                },
            }
        }
    }
}

/// Copies into `out` as many bytes of `chunk`, starting at `from`, as the
/// remaining room up to `max` allows; reports how many were copied.
pub(crate) fn emit_slice(out: &mut Vec<u8>, max: usize, chunk: &Vec<u8>, from: usize) -> (k: usize)
    requires
        old(out)@.len() <= max,
        from <= chunk@.len(),
    ensures
        k as int == vstd::math::min(max - old(out)@.len(), chunk@.len() - from),
        final(out)@ == old(out)@ + chunk@.subrange(from as int, from as int + k),
{
    let room: usize = max - out.len();
    let avail: usize = chunk.len() - from;
    let k: usize = if room < avail {
        room
    } else {
        avail
    };
    let mut i: usize = 0;
    while i < k
        invariant
            i <= k,
            from + k <= chunk@.len(),
            from + k <= usize::MAX,
            out@ == old(out)@ + chunk@.subrange(from as int, from as int + i),
        decreases k - i,
    {
        let b: u8 = chunk[from + i];
        out.push(b);
        proof {
            assert(old(out)@ + chunk@.subrange(from as int, from as int + i) + seq![b]
                =~= old(out)@ + chunk@.subrange(from as int, from as int + i + 1));
        }
        i = i + 1;
    }
    proof {
        assert(out@ == old(out)@ + chunk@.subrange(from as int, from as int + k as int));
    }
    k
}

/// Hands the next at most `max` content bytes out of entry `idx`'s source;
/// everything about the entry but its source handle is untouched.
fn read_from_entry<D: EntryData>(entries: &mut Vec<ReaderEntry<D>>, idx: usize, max: usize)
    -> (r: Result<Vec<u8>, String>)
    requires
        idx < old(entries)@.len(),
    ensures
        final(entries)@.len() == old(entries)@.len(),
        forall|j: int| 0 <= j < old(entries)@.len() && j != idx ==> final(entries)@[j]
            == old(entries)@[j],
        entry_eqv(final(entries)@[idx as int], old(entries)@[idx as int]),
        final(entries)@[idx as int].crc32 == old(entries)@[idx as int].crc32,
{
    let e = vec_index_mut(entries, idx);
    e.data.read_some(max)
}

/// Stores entry `idx`'s finished checksum.
fn set_entry_crc<D>(entries: &mut Vec<ReaderEntry<D>>, idx: usize, crc: u32)
    requires
        idx < old(entries)@.len(),
    ensures
        final(entries)@.len() == old(entries)@.len(),
        forall|j: int| 0 <= j < old(entries)@.len() && j != idx ==> final(entries)@[j]
            == old(entries)@[j],
        entry_eqv(final(entries)@[idx as int], old(entries)@[idx as int]),
        final(entries)@[idx as int].crc32 == Some(crc),
{
    let e = vec_index_mut(entries, idx);
    e.crc32 = Some(crc);
}

/// Records in ghost state that entry `idx`'s source yielded `bytes`.
fn note_entry_bytes<D>(entries: &mut Vec<ReaderEntry<D>>, idx: usize, bytes: Ghost<Seq<u8>>)
    requires
        idx < old(entries)@.len(),
    ensures
        final(entries)@.len() == old(entries)@.len(),
        forall|j: int| 0 <= j < old(entries)@.len() && j != idx ==> final(entries)@[j]
            == old(entries)@[j],
        final(entries)@[idx as int].name@ == old(entries)@[idx as int].name@,
        final(entries)@[idx as int].size == old(entries)@[idx as int].size,
        final(entries)@[idx as int].offset == old(entries)@[idx as int].offset,
        final(entries)@[idx as int].crc32 == old(entries)@[idx as int].crc32,
        final(entries)@[idx as int].consumed@ == old(entries)@[idx as int].consumed@ + bytes@,
{
    let e = vec_index_mut(entries, idx);
    e.consumed = Ghost(e.consumed@ + bytes@);
}


/// At the end of the archive, the raw entry table and the abstract model
/// describe the same bytes: once every entry's content has exactly its
/// declared length and the offsets follow the plan, the concatenated local
/// parts and central directory records agree.
pub(crate) proof fn lemma_table_matches_model<D>(es: Seq<ReaderEntry<D>>, k: int)
    requires
        0 <= k <= es.len(),
        forall|i: int| 0 <= i < es.len() ==> (#[trigger] es[i]).consumed@.len() == es[i].size,
        forall|i: int| 0 <= i < es.len() ==> (#[trigger] es[i]).offset as int
            == spec_plan_offset(names_of(es), sizes_of(es), i),
    ensures
        r_locals_upto(es, k) == crate::zip_format::spec_locals_upto(spec_entries(names_of(es),
            contents_of(es)), k),
        r_cds_upto(es, k) == crate::zip_format::spec_cds_upto(spec_entries(names_of(es),
            contents_of(es)), k),
    decreases k,
{
    if k > 0 {
        lemma_table_matches_model(es, k - 1);
        lemma_plan_matches_model(names_of(es), sizes_of(es), contents_of(es), k - 1);
    }
}

/// A finished stream has produced exactly the archive over its names and
/// the contents its sources yielded; every entry's content has its declared
/// length, and the byte count equals the total the plan declared.
pub proof fn lemma_finished_stream<D>(r: Reader<D>)
    requires
        r.wf(),
        r.is_finished(),
    ensures
        r.emitted() == spec_archive_bytes(spec_entries(r.names(), r.contents())),
        r.emitted().len() == r.total(),
        forall|i: int| 0 <= i < r.sizes().len() ==> (#[trigger] r.contents()[i]).len()
            == r.sizes()[i],
{
    reveal(Reader::wf);
    let es = r.entries@;
    let n = es.len() as int;
    assert(forall|i: int| 0 <= i < n ==> (#[trigger] es[i]).consumed@.len() == es[i].size);
    lemma_table_matches_model(es, n);
    lemma_plan_matches_model(names_of(es), sizes_of(es), contents_of(es), n);
    let model = spec_entries(r.names(), r.contents());
    assert(r.eocd_chunk() == crate::zip_format::spec_eocd(model.len() as u64,
        crate::zip_format::spec_offset_at(model, model.len() as int) as u64,
        crate::zip_format::spec_cd_total(model, model.len() as int) as u64));
    crate::zip_format::lemma_archive_bytes_len(model);
}

/// The produced byte sequence depends only on the entry names and the
/// content bytes the sources yielded, never on how the caller sized its
/// read buffers: two finished streams over the same names and contents
/// have produced identical bytes.
pub proof fn lemma_output_chunking_independent<D1, D2>(a: Reader<D1>, b: Reader<D2>)
    requires
        a.wf(),
        b.wf(),
        a.is_finished(),
        b.is_finished(),
        a.names() == b.names(),
        a.contents() == b.contents(),
    ensures
        a.emitted() == b.emitted(),
{
    lemma_finished_stream(a);
    lemma_finished_stream(b);
}

/// Entries are emitted, and appear in the central directory, in strictly
/// increasing byte-wise lexicographic name order.
pub proof fn lemma_entries_name_ordered<D>(r: Reader<D>)
    requires
        r.wf(),
    ensures
        forall|i: int, j: int| 0 <= i < j < r.names().len() ==> lex_less(
            #[trigger] r.names()[i], #[trigger] r.names()[j]),
{
    reveal(Reader::wf);
}

} // verus!
