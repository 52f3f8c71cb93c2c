//! The ZIP64 wire format, byte for byte.
//!
//! Every structure the archive stream emits is specified here as a sequence
//! of bytes (`spec_local_header`, `spec_data_descriptor`, `spec_cd_header`,
//! `spec_eocd`), together with verified packing functions that produce
//! exactly those bytes. On top of the single structures, `spec_archive_bytes`
//! gives the byte sequence of a whole archive over an entry table, and
//! `spec_total_size` its exact length; these are the reference against which
//! the plan's size accounting and the stream's output are proved.
//!
//! The format is uniform: every entry carries a ZIP64 extra field with
//! 64-bit sizes and offset, sizes and CRC travel in a trailing data
//! descriptor, data is always stored uncompressed, and the archive ends with
//! a ZIP64 end-of-central-directory record, its locator, and the classic
//! end-of-central-directory record whose narrow fields are all escape
//! sentinels.

use vstd::prelude::*;
use vstd::bytes::{
    spec_u16_to_le_bytes, spec_u32_to_le_bytes, spec_u64_to_le_bytes, u16_to_le_bytes,
    u32_to_le_bytes, u64_to_le_bytes,
};
use crate::checksum::crc32_of;

verus! {

/// Signature of a local file header.
pub const LOCAL_HEADER_SIGNATURE: u32 = 0x04034b50;

/// Signature of a data descriptor.
pub const DATA_DESCRIPTOR_SIGNATURE: u32 = 0x08074b50;

/// Signature of a central directory header.
pub const CD_HEADER_SIGNATURE: u32 = 0x02014b50;

/// Signature of the ZIP64 end-of-central-directory record.
pub const ZIP64_EOCD_SIGNATURE: u32 = 0x06064b50;

/// Signature of the ZIP64 end-of-central-directory locator.
pub const ZIP64_EOCD_LOCATOR_SIGNATURE: u32 = 0x07064b50;

/// Signature of the classic end-of-central-directory record.
pub const EOCD_SIGNATURE: u32 = 0x06054b50;

/// Minimum version needed to read the ZIP64 extensions used here.
pub const ZIP64_VERSION_TO_EXTRACT: u16 = 45;

/// Version-made-by field: UNIX (3) in the high byte, the ZIP64 baseline in
/// the low byte.
pub const VERSION_MADE_BY: u16 = (3 << 8) | 45;

/// General-purpose flag bit 3: sizes and CRC-32 follow in a data descriptor.
pub const FLAG_USE_DATA_DESCRIPTOR: u16 = 1 << 3;

/// Bytes in a local file header before the name and the extra field.
pub const LOCAL_HEADER_FIXED_BYTES: u64 = 30;

/// Bytes in the ZIP64 extra field, tag and size included.
pub const ZIP64_EXTRA_BYTES: u64 = 32;

/// Bytes in a ZIP64 data descriptor.
pub const DATA_DESCRIPTOR_BYTES: u64 = 24;

/// Bytes in a central directory header before the name and the extra field.
pub const CD_HEADER_FIXED_BYTES: u64 = 46;

/// Bytes in the whole end-of-central-directory group: the ZIP64 record (56),
/// its locator (20) and the classic record (22).
pub const EOCD_BYTES: u64 = 98;

/// The ZIP64 extra field: tag, payload size, uncompressed and compressed
/// size (equal, data is stored), local header offset, and disk number 0.
#[verifier::opaque]
pub open spec fn spec_zip64_extra(size: u64, offset: u64) -> Seq<u8> {
    spec_u16_to_le_bytes(1) + spec_u16_to_le_bytes((ZIP64_EXTRA_BYTES - 4) as u16)
        + spec_u64_to_le_bytes(size) + spec_u64_to_le_bytes(size) + spec_u64_to_le_bytes(offset)
        + spec_u32_to_le_bytes(0)
}

/// A local file header for an entry of the given name, declared content
/// size and starting offset. The 32-bit size fields are escape sentinels and
/// the CRC is zero: the real sizes stand in the ZIP64 extra field and the
/// CRC follows in the data descriptor.
#[verifier::opaque]
pub open spec fn spec_local_header(name: Seq<u8>, size: u64, offset: u64) -> Seq<u8>
    recommends
        name.len() <= 0xffff,
{
    spec_u32_to_le_bytes(LOCAL_HEADER_SIGNATURE) + spec_u16_to_le_bytes(ZIP64_VERSION_TO_EXTRACT)
        + spec_u16_to_le_bytes(FLAG_USE_DATA_DESCRIPTOR) + spec_u16_to_le_bytes(0)
        + spec_u16_to_le_bytes(0) + spec_u16_to_le_bytes(0) + spec_u32_to_le_bytes(0)
        + spec_u32_to_le_bytes(0xffffffff) + spec_u32_to_le_bytes(0xffffffff)
        + spec_u16_to_le_bytes(name.len() as u16) + spec_u16_to_le_bytes(ZIP64_EXTRA_BYTES as u16)
        + name + spec_zip64_extra(size, offset)
}

/// A ZIP64 data descriptor: signature, CRC-32, compressed and uncompressed
/// size (equal, data is stored).
#[verifier::opaque]
pub open spec fn spec_data_descriptor(crc: u32, size: u64) -> Seq<u8> {
    spec_u32_to_le_bytes(DATA_DESCRIPTOR_SIGNATURE) + spec_u32_to_le_bytes(crc)
        + spec_u64_to_le_bytes(size) + spec_u64_to_le_bytes(size)
}

/// A central directory header for one entry. As in the local header, the
/// narrow size, offset and disk fields are escape sentinels and the real
/// values stand in the ZIP64 extra field; the CRC is the entry's finished
/// digest.
#[verifier::opaque]
pub open spec fn spec_cd_header(name: Seq<u8>, size: u64, offset: u64, crc: u32) -> Seq<u8>
    recommends
        name.len() <= 0xffff,
{
    spec_u32_to_le_bytes(CD_HEADER_SIGNATURE) + spec_u16_to_le_bytes(VERSION_MADE_BY)
        + spec_u16_to_le_bytes(ZIP64_VERSION_TO_EXTRACT) + spec_u16_to_le_bytes(0)
        + spec_u16_to_le_bytes(0) + spec_u16_to_le_bytes(0) + spec_u16_to_le_bytes(0)
        + spec_u32_to_le_bytes(crc) + spec_u32_to_le_bytes(0xffffffff)
        + spec_u32_to_le_bytes(0xffffffff) + spec_u16_to_le_bytes(name.len() as u16)
        + spec_u16_to_le_bytes(ZIP64_EXTRA_BYTES as u16) + spec_u16_to_le_bytes(0)
        + spec_u16_to_le_bytes(0xffff) + spec_u16_to_le_bytes(0) + spec_u32_to_le_bytes(0)
        + spec_u32_to_le_bytes(0xffffffff) + name + spec_zip64_extra(size, offset)
}

/// The end-of-central-directory group: the ZIP64 end-of-central-directory
/// record with the real entry count, directory size and offset; the ZIP64
/// locator pointing at that record; and the classic record with every narrow
/// field at its escape sentinel.
#[verifier::opaque]
pub open spec fn spec_eocd(count: u64, cd_offset: u64, cd_size: u64) -> Seq<u8>
    recommends
        cd_offset + cd_size <= u64::MAX,
{
    spec_u32_to_le_bytes(ZIP64_EOCD_SIGNATURE) + spec_u64_to_le_bytes(44)
        + spec_u16_to_le_bytes(VERSION_MADE_BY) + spec_u16_to_le_bytes(ZIP64_VERSION_TO_EXTRACT)
        + spec_u32_to_le_bytes(0) + spec_u32_to_le_bytes(0) + spec_u64_to_le_bytes(count)
        + spec_u64_to_le_bytes(count) + spec_u64_to_le_bytes(cd_size)
        + spec_u64_to_le_bytes(cd_offset) + spec_u32_to_le_bytes(ZIP64_EOCD_LOCATOR_SIGNATURE)
        + spec_u32_to_le_bytes(0) + spec_u64_to_le_bytes((cd_offset + cd_size) as u64)
        + spec_u32_to_le_bytes(1) + spec_u32_to_le_bytes(EOCD_SIGNATURE)
        + spec_u16_to_le_bytes(0xffff) + spec_u16_to_le_bytes(0xffff)
        + spec_u16_to_le_bytes(0xffff) + spec_u16_to_le_bytes(0xffff)
        + spec_u32_to_le_bytes(0xffffffff) + spec_u32_to_le_bytes(0xffffffff)
        + spec_u16_to_le_bytes(0)
}

/// Lengths of the little-endian byte encodings, in one place.
pub proof fn lemma_le_bytes_len()
    ensures
        forall|x: u16| (#[trigger] spec_u16_to_le_bytes(x)).len() == 2,
        forall|x: u32| (#[trigger] spec_u32_to_le_bytes(x)).len() == 4,
        forall|x: u64| (#[trigger] spec_u64_to_le_bytes(x)).len() == 8,
{
    vstd::bytes::lemma_auto_spec_u16_to_from_le_bytes();
    vstd::bytes::lemma_auto_spec_u32_to_from_le_bytes();
    vstd::bytes::lemma_auto_spec_u64_to_from_le_bytes();
}

pub proof fn lemma_zip64_extra_len(size: u64, offset: u64)
    ensures
        spec_zip64_extra(size, offset).len() == ZIP64_EXTRA_BYTES,
{
    reveal(spec_zip64_extra);
    lemma_le_bytes_len();
}

pub proof fn lemma_local_header_len(name: Seq<u8>, size: u64, offset: u64)
    ensures
        spec_local_header(name, size, offset).len() == LOCAL_HEADER_FIXED_BYTES
            + ZIP64_EXTRA_BYTES + name.len(),
{
    reveal(spec_local_header);
    lemma_le_bytes_len();
    lemma_zip64_extra_len(size, offset);
}

pub proof fn lemma_data_descriptor_len(crc: u32, size: u64)
    ensures
        spec_data_descriptor(crc, size).len() == DATA_DESCRIPTOR_BYTES,
{
    reveal(spec_data_descriptor);
    lemma_le_bytes_len();
}

pub proof fn lemma_cd_header_len(name: Seq<u8>, size: u64, offset: u64, crc: u32)
    ensures
        spec_cd_header(name, size, offset, crc).len() == CD_HEADER_FIXED_BYTES
            + ZIP64_EXTRA_BYTES + name.len(),
{
    reveal(spec_cd_header);
    lemma_le_bytes_len();
    lemma_zip64_extra_len(size, offset);
}

pub proof fn lemma_eocd_len(count: u64, cd_offset: u64, cd_size: u64)
    ensures
        spec_eocd(count, cd_offset, cd_size).len() == EOCD_BYTES,
{
    reveal(spec_eocd);
    lemma_le_bytes_len();
}

/// Packs the ZIP64 extra field.
pub fn pack_zip64_extra(size: u64, offset: u64) -> (r: Vec<u8>)
    ensures
        r@ == spec_zip64_extra(size, offset),
{
    proof {
        reveal(spec_zip64_extra);
    }
    let mut r: Vec<u8> = Vec::new();
    let mut p: Vec<u8> = u16_to_le_bytes(1);
    r.append(&mut p);
    let mut p: Vec<u8> = u16_to_le_bytes((ZIP64_EXTRA_BYTES - 4) as u16);
    r.append(&mut p);
    let mut p: Vec<u8> = u64_to_le_bytes(size);
    r.append(&mut p);
    let mut p: Vec<u8> = u64_to_le_bytes(size);
    r.append(&mut p);
    let mut p: Vec<u8> = u64_to_le_bytes(offset);
    r.append(&mut p);
    let mut p: Vec<u8> = u32_to_le_bytes(0);
    r.append(&mut p);
    r
}

/// Packs a local file header.
pub fn pack_local_header(name: &Vec<u8>, size: u64, offset: u64) -> (r: Vec<u8>)
    requires
        name@.len() <= 0xffff,
    ensures
        r@ == spec_local_header(name@, size, offset),
{
    proof {
        reveal(spec_local_header);
    }
    let mut r: Vec<u8> = Vec::new();
    let mut p: Vec<u8> = u32_to_le_bytes(LOCAL_HEADER_SIGNATURE);
    r.append(&mut p);
    let mut p: Vec<u8> = u16_to_le_bytes(ZIP64_VERSION_TO_EXTRACT);
    r.append(&mut p);
    let mut p: Vec<u8> = u16_to_le_bytes(FLAG_USE_DATA_DESCRIPTOR);
    r.append(&mut p);
    let mut p: Vec<u8> = u16_to_le_bytes(0);
    r.append(&mut p);
    let mut p: Vec<u8> = u16_to_le_bytes(0);
    r.append(&mut p);
    let mut p: Vec<u8> = u16_to_le_bytes(0);
    r.append(&mut p);
    let mut p: Vec<u8> = u32_to_le_bytes(0);
    r.append(&mut p);
    let mut p: Vec<u8> = u32_to_le_bytes(0xffffffff);
    r.append(&mut p);
    let mut p: Vec<u8> = u32_to_le_bytes(0xffffffff);
    r.append(&mut p);
    let mut p: Vec<u8> = u16_to_le_bytes(name.len() as u16);
    r.append(&mut p);
    let mut p: Vec<u8> = u16_to_le_bytes(ZIP64_EXTRA_BYTES as u16);
    r.append(&mut p);
    r.extend_from_slice(name.as_slice());
    let mut p: Vec<u8> = pack_zip64_extra(size, offset);
    r.append(&mut p);
    r
}

/// Packs a ZIP64 data descriptor.
pub fn pack_data_descriptor(crc: u32, size: u64) -> (r: Vec<u8>)
    ensures
        r@ == spec_data_descriptor(crc, size),
{
    proof {
        reveal(spec_data_descriptor);
    }
    let mut r: Vec<u8> = Vec::new();
    let mut p: Vec<u8> = u32_to_le_bytes(DATA_DESCRIPTOR_SIGNATURE);
    r.append(&mut p);
    let mut p: Vec<u8> = u32_to_le_bytes(crc);
    r.append(&mut p);
    let mut p: Vec<u8> = u64_to_le_bytes(size);
    r.append(&mut p);
    let mut p: Vec<u8> = u64_to_le_bytes(size);
    r.append(&mut p);
    r
}

/// Packs a central directory header.
pub fn pack_cd_header(name: &Vec<u8>, size: u64, offset: u64, crc: u32) -> (r: Vec<u8>)
    requires
        name@.len() <= 0xffff,
    ensures
        r@ == spec_cd_header(name@, size, offset, crc),
{
    proof {
        reveal(spec_cd_header);
    }
    let mut r: Vec<u8> = Vec::new();
    let mut p: Vec<u8> = u32_to_le_bytes(CD_HEADER_SIGNATURE);
    r.append(&mut p);
    let mut p: Vec<u8> = u16_to_le_bytes(VERSION_MADE_BY);
    r.append(&mut p);
    let mut p: Vec<u8> = u16_to_le_bytes(ZIP64_VERSION_TO_EXTRACT);
    r.append(&mut p);
    let mut p: Vec<u8> = u16_to_le_bytes(0);
    r.append(&mut p);
    let mut p: Vec<u8> = u16_to_le_bytes(0);
    r.append(&mut p);
    let mut p: Vec<u8> = u16_to_le_bytes(0);
    r.append(&mut p);
    let mut p: Vec<u8> = u16_to_le_bytes(0);
    r.append(&mut p);
    let mut p: Vec<u8> = u32_to_le_bytes(crc);
    r.append(&mut p);
    let mut p: Vec<u8> = u32_to_le_bytes(0xffffffff);
    r.append(&mut p);
    let mut p: Vec<u8> = u32_to_le_bytes(0xffffffff);
    r.append(&mut p);
    let mut p: Vec<u8> = u16_to_le_bytes(name.len() as u16);
    r.append(&mut p);
    let mut p: Vec<u8> = u16_to_le_bytes(ZIP64_EXTRA_BYTES as u16);
    r.append(&mut p);
    let mut p: Vec<u8> = u16_to_le_bytes(0);
    r.append(&mut p);
    let mut p: Vec<u8> = u16_to_le_bytes(0xffff);
    r.append(&mut p);
    let mut p: Vec<u8> = u16_to_le_bytes(0);
    r.append(&mut p);
    let mut p: Vec<u8> = u32_to_le_bytes(0);
    r.append(&mut p);
    let mut p: Vec<u8> = u32_to_le_bytes(0xffffffff);
    r.append(&mut p);
    r.extend_from_slice(name.as_slice());
    let mut p: Vec<u8> = pack_zip64_extra(size, offset);
    r.append(&mut p);
    r
}

/// Packs the end-of-central-directory group.
pub fn pack_eocd(count: u64, cd_offset: u64, cd_size: u64) -> (r: Vec<u8>)
    requires
        cd_offset + cd_size <= u64::MAX,
    ensures
        r@ == spec_eocd(count, cd_offset, cd_size),
{
    proof {
        reveal(spec_eocd);
    }
    let mut r: Vec<u8> = Vec::new();
    let mut p: Vec<u8> = u32_to_le_bytes(ZIP64_EOCD_SIGNATURE);
    r.append(&mut p);
    let mut p: Vec<u8> = u64_to_le_bytes(44);
    r.append(&mut p);
    let mut p: Vec<u8> = u16_to_le_bytes(VERSION_MADE_BY);
    r.append(&mut p);
    let mut p: Vec<u8> = u16_to_le_bytes(ZIP64_VERSION_TO_EXTRACT);
    r.append(&mut p);
    let mut p: Vec<u8> = u32_to_le_bytes(0);
    r.append(&mut p);
    let mut p: Vec<u8> = u32_to_le_bytes(0);
    r.append(&mut p);
    let mut p: Vec<u8> = u64_to_le_bytes(count);
    r.append(&mut p);
    let mut p: Vec<u8> = u64_to_le_bytes(count);
    r.append(&mut p);
    let mut p: Vec<u8> = u64_to_le_bytes(cd_size);
    r.append(&mut p);
    let mut p: Vec<u8> = u64_to_le_bytes(cd_offset);
    r.append(&mut p);
    let mut p: Vec<u8> = u32_to_le_bytes(ZIP64_EOCD_LOCATOR_SIGNATURE);
    r.append(&mut p);
    let mut p: Vec<u8> = u32_to_le_bytes(0);
    r.append(&mut p);
    let mut p: Vec<u8> = u64_to_le_bytes(cd_offset + cd_size);
    r.append(&mut p);
    let mut p: Vec<u8> = u32_to_le_bytes(1);
    r.append(&mut p);
    let mut p: Vec<u8> = u32_to_le_bytes(EOCD_SIGNATURE);
    r.append(&mut p);
    let mut p: Vec<u8> = u16_to_le_bytes(0xffff);
    r.append(&mut p);
    let mut p: Vec<u8> = u16_to_le_bytes(0xffff);
    r.append(&mut p);
    let mut p: Vec<u8> = u16_to_le_bytes(0xffff);
    r.append(&mut p);
    let mut p: Vec<u8> = u16_to_le_bytes(0xffff);
    r.append(&mut p);
    let mut p: Vec<u8> = u32_to_le_bytes(0xffffffff);
    r.append(&mut p);
    let mut p: Vec<u8> = u32_to_le_bytes(0xffffffff);
    r.append(&mut p);
    let mut p: Vec<u8> = u16_to_le_bytes(0);
    r.append(&mut p);
    r
}

/// One entry of the abstract archive model: a name and the content bytes.
pub struct EntryModel {
    pub name: Seq<u8>,
    pub content: Seq<u8>,
}

/// Bytes an entry occupies in the local part of the archive: local header,
/// content, data descriptor.
pub open spec fn spec_local_size(name_len: int, content_len: int) -> int {
    LOCAL_HEADER_FIXED_BYTES + ZIP64_EXTRA_BYTES + name_len + content_len
        + DATA_DESCRIPTOR_BYTES
}

/// Bytes an entry occupies in the central directory.
pub open spec fn spec_cd_size(name_len: int) -> int {
    CD_HEADER_FIXED_BYTES + ZIP64_EXTRA_BYTES + name_len
}

/// Byte offset of entry `k` in the archive: the local parts of all earlier
/// entries laid end to end, starting at 0.
pub open spec fn spec_offset_at(es: Seq<EntryModel>, k: int) -> int
    decreases k,
{
    if k <= 0 {
        0
    } else {
        spec_offset_at(es, k - 1) + spec_local_size(es[k - 1].name.len() as int,
            es[k - 1].content.len() as int)
    }
}

/// Total central directory size of the first `k` entries.
pub open spec fn spec_cd_total(es: Seq<EntryModel>, k: int) -> int
    decreases k,
{
    if k <= 0 {
        0
    } else {
        spec_cd_total(es, k - 1) + spec_cd_size(es[k - 1].name.len() as int)
    }
}

/// Exact size in bytes of the archive over `es`.
pub open spec fn spec_total_size(es: Seq<EntryModel>) -> int {
    spec_offset_at(es, es.len() as int) + spec_cd_total(es, es.len() as int) + EOCD_BYTES
}

/// The local part of one entry: local header, content, data descriptor.
pub open spec fn spec_entry_local_bytes(e: EntryModel, offset: u64) -> Seq<u8> {
    spec_local_header(e.name, e.content.len() as u64, offset) + e.content
        + spec_data_descriptor(crc32_of(e.content), e.content.len() as u64)
}

/// The central directory record of one entry.
pub open spec fn spec_entry_cd_bytes(e: EntryModel, offset: u64) -> Seq<u8> {
    spec_cd_header(e.name, e.content.len() as u64, offset, crc32_of(e.content))
}

/// Local parts of the first `k` entries, laid end to end.
pub open spec fn spec_locals_upto(es: Seq<EntryModel>, k: int) -> Seq<u8>
    decreases k,
{
    if k <= 0 {
        Seq::<u8>::empty()
    } else {
        spec_locals_upto(es, k - 1) + spec_entry_local_bytes(es[k - 1],
            spec_offset_at(es, k - 1) as u64)
    }
}

/// Central directory records of the first `k` entries, laid end to end.
pub open spec fn spec_cds_upto(es: Seq<EntryModel>, k: int) -> Seq<u8>
    decreases k,
{
    if k <= 0 {
        Seq::<u8>::empty()
    } else {
        spec_cds_upto(es, k - 1) + spec_entry_cd_bytes(es[k - 1],
            spec_offset_at(es, k - 1) as u64)
    }
}

/// The byte sequence of the whole archive over the entry table `es`: all
/// local parts, the central directory, the end-of-central-directory group.
pub open spec fn spec_archive_bytes(es: Seq<EntryModel>) -> Seq<u8> {
    spec_locals_upto(es, es.len() as int) + spec_cds_upto(es, es.len() as int)
        + spec_eocd(es.len() as u64, spec_offset_at(es, es.len() as int) as u64,
        spec_cd_total(es, es.len() as int) as u64)
}

pub proof fn lemma_entry_local_bytes_len(e: EntryModel, offset: u64)
    ensures
        spec_entry_local_bytes(e, offset).len() == spec_local_size(e.name.len() as int,
            e.content.len() as int),
{
    lemma_local_header_len(e.name, e.content.len() as u64, offset);
    lemma_data_descriptor_len(crc32_of(e.content), e.content.len() as u64);
}

pub proof fn lemma_entry_cd_bytes_len(e: EntryModel, offset: u64)
    ensures
        spec_entry_cd_bytes(e, offset).len() == spec_cd_size(e.name.len() as int),
{
    lemma_cd_header_len(e.name, e.content.len() as u64, offset, crc32_of(e.content));
}

pub proof fn lemma_locals_upto_len(es: Seq<EntryModel>, k: int)
    requires
        0 <= k,
    ensures
        spec_locals_upto(es, k).len() == spec_offset_at(es, k),
    decreases k,
{
    if k > 0 {
        lemma_locals_upto_len(es, k - 1);
        lemma_entry_local_bytes_len(es[k - 1], spec_offset_at(es, k - 1) as u64);
    }
}

pub proof fn lemma_cds_upto_len(es: Seq<EntryModel>, k: int)
    requires
        0 <= k,
    ensures
        spec_cds_upto(es, k).len() == spec_cd_total(es, k),
    decreases k,
{
    if k > 0 {
        lemma_cds_upto_len(es, k - 1);
        lemma_entry_cd_bytes_len(es[k - 1], spec_offset_at(es, k - 1) as u64);
    }
}

/// The archive's byte sequence has exactly the pre-computed total length.
pub proof fn lemma_archive_bytes_len(es: Seq<EntryModel>)
    ensures
        spec_archive_bytes(es).len() == spec_total_size(es),
{
    lemma_locals_upto_len(es, es.len() as int);
    lemma_cds_upto_len(es, es.len() as int);
    lemma_eocd_len(es.len() as u64, spec_offset_at(es, es.len() as int) as u64,
        spec_cd_total(es, es.len() as int) as u64);
}

/// Byte offset of entry `k` as the plan computes it, from names and
/// declared sizes alone.
pub open spec fn spec_plan_offset(names: Seq<Seq<u8>>, sizes: Seq<u64>, k: int) -> int
    decreases k,
{
    if k <= 0 {
        0
    } else {
        spec_plan_offset(names, sizes, k - 1) + spec_local_size(names[k - 1].len() as int,
            sizes[k - 1] as int)
    }
}

/// Central directory size of the first `k` entries, from names alone.
pub open spec fn spec_plan_cd_total(names: Seq<Seq<u8>>, k: int) -> int
    decreases k,
{
    if k <= 0 {
        0
    } else {
        spec_plan_cd_total(names, k - 1) + spec_cd_size(names[k - 1].len() as int)
    }
}

/// Exact total archive size as the plan computes it, from names and
/// declared sizes alone.
pub open spec fn spec_plan_total(names: Seq<Seq<u8>>, sizes: Seq<u64>) -> int {
    spec_plan_offset(names, sizes, names.len() as int) + spec_plan_cd_total(names,
        names.len() as int) + EOCD_BYTES
}

/// The entry table over parallel sequences of names and contents.
pub open spec fn spec_entries(names: Seq<Seq<u8>>, contents: Seq<Seq<u8>>) -> Seq<EntryModel> {
    Seq::new(names.len(), |i: int| EntryModel { name: names[i], content: contents[i] })
}

/// Plan offsets grow with the entry index.
pub proof fn lemma_plan_offset_monotonic(names: Seq<Seq<u8>>, sizes: Seq<u64>, j: int, k: int)
    requires
        0 <= j <= k,
    ensures
        spec_plan_offset(names, sizes, j) <= spec_plan_offset(names, sizes, k),
    decreases k,
{
    if j < k {
        lemma_plan_offset_monotonic(names, sizes, j, k - 1);
    }
}

/// Central directory totals grow with the entry index.
pub proof fn lemma_plan_cd_total_monotonic(names: Seq<Seq<u8>>, k1: int, k2: int)
    requires
        0 <= k1 <= k2,
    ensures
        spec_plan_cd_total(names, k1) <= spec_plan_cd_total(names, k2),
    decreases k2,
{
    if k1 < k2 {
        lemma_plan_cd_total_monotonic(names, k1, k2 - 1);
    }
}

/// Once every entry's content has exactly its declared length, the plan's
/// offsets and directory sizes agree with the model built from the contents.
pub proof fn lemma_plan_matches_model(names: Seq<Seq<u8>>, sizes: Seq<u64>,
    contents: Seq<Seq<u8>>, k: int)
    requires
        names.len() == sizes.len(),
        names.len() == contents.len(),
        0 <= k <= names.len(),
        forall|i: int| 0 <= i < names.len() ==> (#[trigger] contents[i]).len() == sizes[i],
    ensures
        spec_offset_at(spec_entries(names, contents), k) == spec_plan_offset(names, sizes, k),
        spec_cd_total(spec_entries(names, contents), k) == spec_plan_cd_total(names, k),
    decreases k,
{
    if k > 0 {
        lemma_plan_matches_model(names, sizes, contents, k - 1);
    }
}

/// Over no entries, the archive is exactly the end-of-central-directory
/// group of an empty directory, 98 bytes in all.
pub proof fn lemma_empty_archive_bytes()
    ensures
        spec_archive_bytes(Seq::<EntryModel>::empty()) == spec_eocd(0, 0, 0),
        spec_archive_bytes(Seq::<EntryModel>::empty()).len() == EOCD_BYTES,
        spec_total_size(Seq::<EntryModel>::empty()) == EOCD_BYTES,
{
    let es = Seq::<EntryModel>::empty();
    lemma_archive_bytes_len(es);
    assert(spec_archive_bytes(es) =~= spec_eocd(0, 0, 0));
}

} // verus!
