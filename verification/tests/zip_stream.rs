use std::io::{Cursor, Read};

use filedl::zip_builder::Builder;
use filedl::zip_entry::{BytesEntry, EntryData, ZippityError};
use filedl::zip_reader::Reader;

/// Drains a stream with a fixed per-call buffer size.
fn read_to_vec<D: EntryData>(mut r: Reader<D>, read_size: usize) -> Result<Vec<u8>, ZippityError> {
    let mut buf: Vec<u8> = Vec::new();
    loop {
        let chunk = r.read(read_size)?;
        if chunk.is_empty() {
            return Ok(buf);
        }
        buf.extend_from_slice(&chunk);
    }
}

/// Deterministic filler bytes for content payloads.
fn pseudo_random_bytes(n: usize) -> Vec<u8> {
    let mut v = Vec::with_capacity(n);
    let mut state: u64 = 0x9e3779b97f4a7c15;
    for _ in 0..n {
        state = state
            .wrapping_mul(6364136223846793005)
            .wrapping_add(1442695040888963407);
        v.push((state >> 56) as u8);
    }
    v
}

/// A content source that declares 100 bytes but yields a single byte.
struct BadSize {
    sent: bool,
}

impl EntryData for BadSize {
    fn get_size(&self) -> u64 {
        100
    }

    fn read_some(&mut self, _max: usize) -> Result<Vec<u8>, String> {
        if self.sent {
            Ok(Vec::new())
        } else {
            self.sent = true;
            Ok(vec![5])
        }
    }
}

#[test]
fn bad_size() {
    let mut builder: Builder<BadSize> = Builder::new();
    builder.add_entry(b"xxx".to_vec(), BadSize { sent: false });

    let zippity = builder.build();
    let e = read_to_vec(zippity, 1024).unwrap_err();

    match e {
        ZippityError::LengthMismatch {
            entry_name,
            expected_size,
            actual_size,
        } => {
            assert_eq!(entry_name, b"xxx".to_vec());
            assert_eq!(expected_size, 100);
            assert_eq!(actual_size, 1);
        }
        _ => panic!("expected a length mismatch"),
    }
}

#[test]
fn empty_archive_is_minimal() {
    let builder: Builder<()> = Builder::new();
    let zippity = builder.build();
    let size = zippity.get_size();

    let buf = read_to_vec(zippity, 8192).unwrap();

    assert_eq!(size, buf.len() as u64);
    assert_eq!(buf.len(), 98);

    let unpacked = zip::ZipArchive::new(Cursor::new(buf)).expect("should be a valid zip");
    assert!(unpacked.is_empty());
}

#[test]
fn streams_through_small_buffers_and_decodes() {
    let payload = pseudo_random_bytes(900);

    let mut builder: Builder<BytesEntry> = Builder::new();
    builder.add_entry(b"b/c.bin".to_vec(), BytesEntry::new(payload.clone()));
    builder.add_entry(b"a.txt".to_vec(), BytesEntry::new(b"hi".to_vec()));

    let zippity = builder.build();
    let size = zippity.get_size();

    let buf = read_to_vec(zippity, 37).unwrap();
    assert_eq!(size, buf.len() as u64);

    let mut unpacked = zip::ZipArchive::new(Cursor::new(buf)).expect("should be a valid zip");
    assert_eq!(unpacked.len(), 2);

    {
        let mut f = unpacked.by_index(0).unwrap();
        assert_eq!(f.name_raw(), b"a.txt");
        let mut content = Vec::new();
        f.read_to_end(&mut content).unwrap();
        assert_eq!(content, b"hi".to_vec());
        assert_eq!(f.crc32(), crc32fast::hash(b"hi"));
    }
    {
        let mut f = unpacked.by_index(1).unwrap();
        assert_eq!(f.name_raw(), b"b/c.bin");
        let mut content = Vec::new();
        f.read_to_end(&mut content).unwrap();
        assert_eq!(content, payload);
    }
}

#[test]
fn output_independent_of_read_size() {
    let payload = pseudo_random_bytes(3000);

    let mut one = Vec::new();
    for read_size in [1usize, 7, 512, 8192] {
        let mut builder: Builder<BytesEntry> = Builder::new();
        builder.add_entry(b"data.bin".to_vec(), BytesEntry::new(payload.clone()));
        builder.add_entry(b"empty".to_vec(), BytesEntry::new(Vec::new()));
        let buf = read_to_vec(builder.build(), read_size).unwrap();
        if one.is_empty() {
            one = buf;
        } else {
            assert_eq!(one, buf);
        }
    }
}

#[test]
fn entries_are_ordered_by_name_bytes() {
    let mut builder: Builder<BytesEntry> = Builder::new();
    builder.add_entry(b"zz".to_vec(), BytesEntry::new(b"3".to_vec()));
    builder.add_entry(b"aa".to_vec(), BytesEntry::new(b"1".to_vec()));
    builder.add_entry(b"mm".to_vec(), BytesEntry::new(b"2".to_vec()));

    let buf = read_to_vec(builder.build(), 4096).unwrap();
    let mut unpacked = zip::ZipArchive::new(Cursor::new(buf)).unwrap();
    assert_eq!(unpacked.len(), 3);

    let expected: [&[u8]; 3] = [b"aa", b"mm", b"zz"];
    for (i, want) in expected.iter().enumerate() {
        let f = unpacked.by_index(i).unwrap();
        assert_eq!(f.name_raw(), *want);
    }
}

#[test]
fn later_entry_under_same_name_wins() {
    let mut builder: Builder<BytesEntry> = Builder::new();
    builder.add_entry(b"dup".to_vec(), BytesEntry::new(b"old".to_vec()));
    builder.add_entry(b"dup".to_vec(), BytesEntry::new(b"newer".to_vec()));

    let buf = read_to_vec(builder.build(), 256).unwrap();
    let mut unpacked = zip::ZipArchive::new(Cursor::new(buf)).unwrap();
    assert_eq!(unpacked.len(), 1);

    let mut f = unpacked.by_index(0).unwrap();
    assert_eq!(f.name_raw(), b"dup");
    let mut content = Vec::new();
    f.read_to_end(&mut content).unwrap();
    assert_eq!(content, b"newer".to_vec());
}

/// A content source whose backing store reports a failure.
struct FailingSource;

impl EntryData for FailingSource {
    fn get_size(&self) -> u64 {
        4
    }

    fn read_some(&mut self, _max: usize) -> Result<Vec<u8>, String> {
        Err("backing store went away".to_string())
    }
}

#[test]
fn source_failure_is_reported_and_permanent() {
    let mut builder: Builder<FailingSource> = Builder::new();
    builder.add_entry(b"f.bin".to_vec(), FailingSource);

    let mut zippity = builder.build();
    // The local header still streams out fine.
    let header = zippity.read(4096).unwrap();
    assert!(!header.is_empty());

    // The first touch of the content source fails...
    match zippity.read(4096) {
        Err(ZippityError::SourceFailure {
            entry_name,
            message,
        }) => {
            assert_eq!(entry_name, b"f.bin".to_vec());
            assert_eq!(message, "backing store went away".to_string());
        }
        _ => panic!("expected a source failure"),
    }

    // ...and the stream stays failed with the same report.
    match zippity.read(4096) {
        Err(ZippityError::SourceFailure {
            entry_name,
            message,
        }) => {
            assert_eq!(entry_name, b"f.bin".to_vec());
            assert_eq!(message, "backing store went away".to_string());
        }
        _ => panic!("expected the same source failure again"),
    }
}

/// Declares 2 bytes but happily yields up to `max` bytes forever.
struct Chatty;

impl EntryData for Chatty {
    fn get_size(&self) -> u64 {
        2
    }

    fn read_some(&mut self, max: usize) -> Result<Vec<u8>, String> {
        Ok(vec![7; max])
    }
}

#[test]
fn oversized_source_is_a_length_mismatch() {
    let mut builder: Builder<Chatty> = Builder::new();
    builder.add_entry(b"chatty".to_vec(), Chatty);

    let e = read_to_vec(builder.build(), 4096).unwrap_err();
    match e {
        ZippityError::LengthMismatch {
            entry_name,
            expected_size,
            actual_size,
        } => {
            assert_eq!(entry_name, b"chatty".to_vec());
            assert_eq!(expected_size, 2);
            assert!(actual_size > 2);
        }
        _ => panic!("expected a length mismatch"),
    }
}

#[test]
fn wire_layout_of_single_empty_entry() {
    let mut builder: Builder<BytesEntry> = Builder::new();
    builder.add_entry(b"a".to_vec(), BytesEntry::new(Vec::new()));

    let zippity = builder.build();
    assert_eq!(zippity.get_size(), 264);

    let buf = read_to_vec(zippity, 11).unwrap();
    assert_eq!(buf.len(), 264);

    // Local file header at 0, 62 + 1 name byte long.
    assert_eq!(&buf[0..4], &[0x50, 0x4b, 0x03, 0x04]);
    assert_eq!(buf[30], b'a');
    // Data descriptor at 63, with the CRC of the empty content.
    assert_eq!(&buf[63..67], &[0x50, 0x4b, 0x07, 0x08]);
    assert_eq!(&buf[67..71], &crc32fast::hash(b"").to_le_bytes());
    // Central directory record at 87.
    assert_eq!(&buf[87..91], &[0x50, 0x4b, 0x01, 0x02]);
    // ZIP64 end-of-central-directory record, locator, classic record.
    assert_eq!(&buf[166..170], &[0x50, 0x4b, 0x06, 0x06]);
    assert_eq!(&buf[222..226], &[0x50, 0x4b, 0x06, 0x07]);
    assert_eq!(&buf[242..246], &[0x50, 0x4b, 0x05, 0x06]);
}
