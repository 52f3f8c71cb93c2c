//! The archive plan: entries are accumulated under byte-string names, and
//! the whole archive layout is computed before a single byte is produced.
//!
//! The plan is an ordered table keyed by name in byte-wise lexicographic
//! order; adding an entry under an existing name replaces the earlier one,
//! so as a map from names to declared sizes the plan behaves exactly like
//! repeated map insertion, whatever the insertion order. `build` computes
//! every entry's offset, the central directory's offset and size, and the
//! exact total archive size, and hands a positioned stream back; it never
//! fails, and all later failures are deferred to streaming time.

use vstd::prelude::*;
use vstd::std_specs::vec::vec_index_mut;
use crate::lex::{bytes_equal, bytes_less, lemma_lex_transitive, lemma_lex_trichotomy, lex_less};
use crate::zip_entry::EntryData;
use crate::zip_format::{
    lemma_plan_cd_total_monotonic, lemma_plan_offset_monotonic, spec_cd_size, spec_local_size,
    spec_plan_cd_total, spec_plan_offset, spec_plan_total, CD_HEADER_FIXED_BYTES,
    DATA_DESCRIPTOR_BYTES, EOCD_BYTES, LOCAL_HEADER_FIXED_BYTES, ZIP64_EXTRA_BYTES,
};
use crate::zip_reader::{reader_from_plan, Reader, ReaderEntry};

verus! {

/// The plan's view: name and declared size of each entry, in table order.
pub type PlanEntry = (Seq<u8>, u64);

/// The names of a plan, in table order.
pub open spec fn plan_names(plan: Seq<PlanEntry>) -> Seq<Seq<u8>> {
    Seq::new(plan.len(), |i: int| plan[i].0)
}

/// The declared sizes of a plan, in table order.
pub open spec fn plan_sizes(plan: Seq<PlanEntry>) -> Seq<u64> {
    Seq::new(plan.len(), |i: int| plan[i].1)
}

/// A plan read as a map from entry names to declared sizes; later pairs
/// win, as repeated map insertion does.
pub open spec fn spec_plan_map(plan: Seq<PlanEntry>) -> Map<Seq<u8>, u64>
    decreases plan.len(),
{
    if plan.len() == 0 {
        Map::<Seq<u8>, u64>::empty()
    } else {
        spec_plan_map(plan.drop_last()).insert(plan.last().0, plan.last().1)
    }
}

/// One planned entry: the declared content size, snapshot once when the
/// entry is added, and the content source itself.
pub struct BuilderEntry<D> {
    pub(crate) size: u64,
    pub(crate) data: D,
}

impl<D> BuilderEntry<D> {
    /// The declared content size this entry was registered with.
    pub closed spec fn declared_size(self) -> u64 {
        self.size
    }

    /// Bytes this entry will occupy in the local part of the archive:
    /// local header with its ZIP64 extra field, the content itself, and
    /// the trailing data descriptor.
    pub fn get_local_size(&self, name: &Vec<u8>) -> (r: u64)
        requires
            spec_local_size(name@.len() as int, self.declared_size() as int) <= u64::MAX,
        ensures
            r as int == spec_local_size(name@.len() as int, self.declared_size() as int),
    {
        LOCAL_HEADER_FIXED_BYTES + ZIP64_EXTRA_BYTES + name.len() as u64 + self.size
            + DATA_DESCRIPTOR_BYTES
    }

    /// Bytes this entry will occupy in the central directory: the record
    /// with its ZIP64 extra field.
    pub fn get_cd_header_size(&self, name: &Vec<u8>) -> (r: u64)
        requires
            spec_cd_size(name@.len() as int) <= u64::MAX,
        ensures
            r as int == spec_cd_size(name@.len() as int),
    {
        CD_HEADER_FIXED_BYTES + ZIP64_EXTRA_BYTES + name.len() as u64
    }
}

/// The archive plan under construction.
pub struct Builder<D> {
    entries: Vec<(Vec<u8>, BuilderEntry<D>)>,
}

impl<D> Builder<D> {
    /// The plan's entries: names and declared sizes, in table order.
    pub closed spec fn plan(self) -> Seq<PlanEntry> {
        Seq::new(self.entries@.len(), |i: int| (self.entries@[i].0@, self.entries@[i].1.size))
    }

    /// The plan's invariant: names fit the format's 16-bit length field
    /// and the table is strictly sorted by name, so every name occurs
    /// once.
    pub closed spec fn wf(self) -> bool {
        &&& forall|i: int| 0 <= i < self.plan().len() ==> (#[trigger] self.plan()[i]).0.len()
            <= 0xffff
        &&& forall|i: int, j: int| 0 <= i < j < self.plan().len() ==> lex_less(
            (#[trigger] self.plan()[i]).0, (#[trigger] self.plan()[j]).0)
    }
}

/// Keys of a strictly sorted plan are pairwise distinct.
proof fn lemma_sorted_keys_distinct(plan: Seq<PlanEntry>)
    requires
        forall|i: int, j: int| 0 <= i < j < plan.len() ==> lex_less((#[trigger] plan[i]).0,
            (#[trigger] plan[j]).0),
    ensures
        forall|i: int, j: int| 0 <= i < plan.len() && 0 <= j < plan.len() && i != j ==> (
        #[trigger] plan[i]).0 != (#[trigger] plan[j]).0,
{
    assert forall|i: int, j: int| 0 <= i < plan.len() && 0 <= j < plan.len() && i != j implies (
    #[trigger] plan[i]).0 != (#[trigger] plan[j]).0 by {
        if i < j {
            lemma_lex_trichotomy(plan[i].0, plan[j].0);
        } else {
            lemma_lex_trichotomy(plan[j].0, plan[i].0);
        }
    }
}

/// Replacing the pair at a position whose key is unique acts on the plan's
/// map as inserting under that key.
proof fn lemma_plan_map_update(plan: Seq<PlanEntry>, i: int, v: u64)
    requires
        0 <= i < plan.len(),
        forall|j: int| 0 <= j < plan.len() && j != i ==> (#[trigger] plan[j]).0 != plan[i].0,
    ensures
        spec_plan_map(plan.update(i, (plan[i].0, v))) == spec_plan_map(plan).insert(plan[i].0,
            v),
    decreases plan.len(),
{
    let k = plan[i].0;
    let p2 = plan.update(i, (k, v));
    if i == plan.len() - 1 {
        assert(p2.drop_last() =~= plan.drop_last());
        assert(p2.last() == (k, v));
        assert(spec_plan_map(plan.drop_last()).insert(k, plan.last().1).insert(k, v)
            =~= spec_plan_map(plan.drop_last()).insert(k, v));
    } else {
        assert(p2.drop_last() =~= plan.drop_last().update(i, (k, v)));
        assert(plan.drop_last()[i] == plan[i]);
        lemma_plan_map_update(plan.drop_last(), i, v);
        assert(p2.last() == plan.last());
        assert(plan.last().0 != k);
        assert(spec_plan_map(plan.drop_last()).insert(k, v).insert(plan.last().0, plan.last().1)
            =~= spec_plan_map(plan.drop_last()).insert(plan.last().0, plan.last().1).insert(k,
            v));
    }
}

/// Inserting a pair with a fresh key at any position acts on the plan's
/// map as inserting under that key.
proof fn lemma_plan_map_insert(plan: Seq<PlanEntry>, i: int, kv: PlanEntry)
    requires
        0 <= i <= plan.len(),
        forall|j: int| 0 <= j < plan.len() ==> (#[trigger] plan[j]).0 != kv.0,
    ensures
        spec_plan_map(plan.insert(i, kv)) == spec_plan_map(plan).insert(kv.0, kv.1),
    decreases plan.len(),
{
    let p2 = plan.insert(i, kv);
    if i == plan.len() {
        assert(p2.drop_last() =~= plan);
        assert(p2.last() == kv);
    } else {
        assert(p2.last() == plan.last());
        assert(p2.drop_last() =~= plan.drop_last().insert(i, kv));
        lemma_plan_map_insert(plan.drop_last(), i, kv);
        assert(plan.last().0 != kv.0);
        assert(spec_plan_map(plan.drop_last()).insert(kv.0, kv.1).insert(plan.last().0,
            plan.last().1) =~= spec_plan_map(plan.drop_last()).insert(plan.last().0,
            plan.last().1).insert(kv.0, kv.1));
    }
}

/// Whatever order entries were added in, the plan holds them in strictly
/// increasing byte-wise lexicographic name order.
pub proof fn lemma_plan_name_ordered<D>(b: Builder<D>)
    requires
        b.wf(),
    ensures
        forall|i: int, j: int| 0 <= i < j < b.plan().len() ==> lex_less(
            #[trigger] plan_names(b.plan())[i], #[trigger] plan_names(b.plan())[j]),
{
}

impl<D: EntryData> Builder<D> {
    /// An empty plan.
    pub fn new() -> (r: Builder<D>)
        ensures
            r.wf(),
            r.plan() == Seq::<PlanEntry>::empty(),
            spec_plan_map(r.plan()) == Map::<Seq<u8>, u64>::empty(),
    {
        let r = Builder { entries: Vec::new() };
        proof {
            assert(r.plan() =~= Seq::<PlanEntry>::empty());
        }
        r
    }

    /// Registers `data` under `name` with an explicitly given declared
    /// size, replacing any entry already registered under that name. On
    /// the plan read as a map this is exactly one insertion.
    pub fn add_entry_with_size(&mut self, name: Vec<u8>, size: u64, data: D)
        requires
            old(self).wf(),
            name@.len() <= 0xffff,
        ensures
            final(self).wf(),
            spec_plan_map(final(self).plan()) == spec_plan_map(old(self).plan()).insert(name@,
                size),
            old(self).plan().len() <= final(self).plan().len() <= old(self).plan().len() + 1,
    {
        let ghost plan0 = self.plan();
        let mut i: usize = 0;
        while i < self.entries.len() && bytes_less(&self.entries[i].0, &name)
            invariant
                self.plan() == plan0,
                plan0 == old(self).plan(),
                self.entries@.len() == plan0.len(),
                i <= plan0.len(),
                forall|j: int| 0 <= j < i ==> lex_less((#[trigger] plan0[j]).0, name@),
            decreases plan0.len() - i,
        {
            i = i + 1;
        }
        proof {
            lemma_sorted_keys_distinct(plan0);
        }
        if i < self.entries.len() && bytes_equal(&self.entries[i].0, &name) {
            let e = vec_index_mut(&mut self.entries, i);
            e.1 = BuilderEntry { size, data };
            proof {
                assert(self.plan() =~= plan0.update(i as int, (plan0[i as int].0, size)));
                assert(plan0[i as int].0 == name@);
                lemma_plan_map_update(plan0, i as int, size);
                assert(spec_plan_map(self.plan()) == spec_plan_map(plan0).insert(name@, size));
                assert forall|a: int, b: int| 0 <= a < b < self.plan().len() implies lex_less(
                    (#[trigger] self.plan()[a]).0, (#[trigger] self.plan()[b]).0) by {
                    assert(self.plan()[a].0 == plan0[a].0);
                    assert(self.plan()[b].0 == plan0[b].0);
                }
            }
        } else {
            proof {
                if i < plan0.len() {
                    lemma_lex_trichotomy(plan0[i as int].0, name@);
                }
                assert forall|j: int| 0 <= j < plan0.len() implies (#[trigger] plan0[j]).0
                    != name@ by {
                    if j < i {
                        lemma_lex_trichotomy(plan0[j].0, name@);
                    } else if j == i {
                    } else {
                        lemma_lex_trichotomy(plan0[j].0, name@);
                        if i < plan0.len() {
                            lemma_lex_transitive(name@, plan0[i as int].0, plan0[j].0);
                        }
                    }
                }
            }
            let ghost kv = (name@, size);
            self.entries.insert(i, (name, BuilderEntry { size, data }));
            proof {
                assert(self.plan() =~= plan0.insert(i as int, kv));
                lemma_plan_map_insert(plan0, i as int, kv);
                assert forall|a: int, b: int| 0 <= a < b < self.plan().len() implies lex_less(
                    (#[trigger] self.plan()[a]).0, (#[trigger] self.plan()[b]).0) by {
                    let p2 = self.plan();
                    if b < i {
                        assert(p2[a] == plan0[a] && p2[b] == plan0[b]);
                    } else if a < i && b == i {
                        assert(p2[a] == plan0[a]);
                    } else if a < i && b > i {
                        assert(p2[a] == plan0[a] && p2[b] == plan0[b - 1]);
                        if b - 1 == i as int {
                        } else if a < b - 1 {
                        }
                    } else if a == i {
                        assert(p2[b] == plan0[b - 1]);
                        assert(lex_less(name@, plan0[b - 1].0)) by {
                            lemma_lex_trichotomy(plan0[i as int].0, name@);
                            if b - 1 > i {
                                lemma_lex_transitive(name@, plan0[i as int].0, plan0[b - 1].0);
                            }
                        }
                    } else {
                        assert(p2[a] == plan0[a - 1] && p2[b] == plan0[b - 1]);
                    }
                }
            }
        }
    }

    /// Registers `data` under `name`, replacing any entry already
    /// registered under that name. The declared size is whatever the
    /// content source reports at this moment; no content is read.
    pub fn add_entry(&mut self, name: Vec<u8>, data: D)
        requires
            old(self).wf(),
            name@.len() <= 0xffff,
        ensures
            final(self).wf(),
            exists|s: u64| spec_plan_map(final(self).plan()) == spec_plan_map(
                old(self).plan()).insert(name@, s),
            old(self).plan().len() <= final(self).plan().len() <= old(self).plan().len() + 1,
    {
        let size = data.get_size();
        self.add_entry_with_size(name, size, data);
        proof {
            assert(spec_plan_map(self.plan()) == spec_plan_map(old(self).plan()).insert(name@,
                size));
        }
    }

    /// Finalizes the plan: computes every entry's offset, the central
    /// directory's offset and size, and the exact total size, and returns
    /// the stream positioned at the first chunk. Never fails; the one
    /// machine limit is that the whole archive must fit in 64 bits.
    pub fn build(self) -> (r: Reader<D>)
        requires
            self.wf(),
            spec_plan_total(plan_names(self.plan()), plan_sizes(self.plan())) <= u64::MAX,
        ensures
            r.wf(),
            r.names() == plan_names(self.plan()),
            r.sizes() == plan_sizes(self.plan()),
            r.emitted() == Seq::<u8>::empty(),
            r.total() as int == spec_plan_total(plan_names(self.plan()),
                plan_sizes(self.plan())),
            !r.is_finished(),
            !r.is_failed(),
            !r.at_file_data(),
            forall|i: int| 0 <= i < r.contents().len() ==> (#[trigger] r.contents()[i])
                == Seq::<u8>::empty(),
    {
        let ghost plan0 = self.plan();
        let ghost names0 = plan_names(plan0);
        let ghost sizes0 = plan_sizes(plan0);
        let mut items = self.entries;
        let ghost n = items@.len() as int;
        let mut entries: Vec<ReaderEntry<D>> = Vec::new();
        let mut offset: u64 = 0;
        let mut cd_size: u64 = 0;
        proof {
            lemma_plan_offset_monotonic(names0, sizes0, 0, n);
            lemma_plan_cd_total_monotonic(names0, 0, n);
        }
        while items.len() > 0
            invariant
                entries@.len() + items@.len() == n,
                n == plan0.len(),
                names0 == plan_names(plan0),
                sizes0 == plan_sizes(plan0),
                spec_plan_total(names0, sizes0) <= u64::MAX,
                forall|j: int| 0 <= j < plan0.len() ==> (#[trigger] plan0[j]).0.len() <= 0xffff,
                forall|i: int, j: int| 0 <= i < j < plan0.len() ==> lex_less(
                    (#[trigger] plan0[i]).0, (#[trigger] plan0[j]).0),
                forall|j: int| 0 <= j < items@.len() ==> ((#[trigger] items@[j]).0@,
                    items@[j].1.size) == plan0[entries@.len() + j],
                forall|j: int| 0 <= j < entries@.len() ==> ((#[trigger] entries@[j]).name@,
                    entries@[j].size) == plan0[j],
                forall|j: int| 0 <= j < entries@.len() ==> (#[trigger] entries@[j]).offset
                    as int == spec_plan_offset(names0, sizes0, j),
                forall|j: int| 0 <= j < entries@.len() ==> (#[trigger] entries@[j]).consumed@
                    == Seq::<u8>::empty(),
                offset as int == spec_plan_offset(names0, sizes0, entries@.len() as int),
                cd_size as int == spec_plan_cd_total(names0, entries@.len() as int),
            decreases items@.len(),
        {
            let ghost k = entries@.len() as int;
            proof {
                lemma_plan_offset_monotonic(names0, sizes0, k + 1, n);
                lemma_plan_cd_total_monotonic(names0, k + 1, n);
                lemma_plan_offset_monotonic(names0, sizes0, 0, k);
                lemma_plan_cd_total_monotonic(names0, 0, k);
                lemma_plan_offset_monotonic(names0, sizes0, 0, n);
                lemma_plan_cd_total_monotonic(names0, 0, n);
            }
            let (name, be) = items.remove(0);
            let local = be.get_local_size(&name);
            let cd_rec = be.get_cd_header_size(&name);
            entries.push(ReaderEntry {
                name,
                size: be.size,
                offset,
                crc32: Option::None,
                data: be.data,
                consumed: Ghost(Seq::<u8>::empty()),
            });
            offset = offset + local;
            cd_size = cd_size + cd_rec;
        }
        let total = offset + cd_size + EOCD_BYTES;
        proof {
            assert(crate::zip_reader::names_of(entries@) =~= names0);
            assert(crate::zip_reader::sizes_of(entries@) =~= sizes0);
            assert forall|j: int| 0 <= j < entries@.len() implies (#[trigger] entries@[j]).size
                < u64::MAX by {
                lemma_plan_offset_monotonic(names0, sizes0, j + 1, n);
                lemma_plan_offset_monotonic(names0, sizes0, 0, j);
                lemma_plan_cd_total_monotonic(names0, 0, n);
            }
        }
        let r = reader_from_plan(entries, offset, cd_size, total);
        proof {
            assert(forall|i: int| 0 <= i < r.contents().len() ==> (#[trigger] r.contents()[i])
                == Seq::<u8>::empty());
        }
        r
    }
}

} // verus!
