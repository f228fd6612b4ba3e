use std::io::Read;

use makecab::cabinet::make_cab;
use makecab::datetime::{CivilTime, DateTime};
use makecab::error::ErrorKind;
use makecab::mszip::{MSZipDecoder, MSZipEncoder};

const MAX_CHUNK: usize = 32 * 1024;

fn zeros(size: usize) -> Vec<u8> {
    vec![0; size]
}

/// `size` bytes that count up from zero and wrap at 256.
fn seq(size: usize) -> Vec<u8> {
    (0..size).map(|v| (v % 256) as u8).collect()
}

/// `size` bytes that look like a program: runs of text, tables and noise.
fn binary(size: usize) -> Vec<u8> {
    let mut state: u32 = 0x9e37_79b9;
    let mut out = Vec::with_capacity(size);
    while out.len() < size {
        state = state.wrapping_mul(1_664_525).wrapping_add(1_013_904_223);
        match (state >> 28) & 3 {
            0 => out.extend_from_slice(b"\x55\x48\x89\xe5\x48\x83\xec\x20"),
            1 => out.extend(std::iter::repeat((state >> 16) as u8).take(37)),
            2 => out.extend_from_slice(&state.to_le_bytes()),
            _ => out.extend_from_slice(b"GetProcAddress\0LoadLibraryA\0"),
        }
    }
    out.truncate(size);
    out
}

fn when() -> DateTime {
    DateTime::new(CivilTime { year: 2018, month: 1, day: 6, hour: 15, minute: 19, second: 42 })
        .unwrap()
}

fn u16_at(bytes: &[u8], at: usize) -> usize {
    u16::from_le_bytes([bytes[at], bytes[at + 1]]) as usize
}

fn u32_at(bytes: &[u8], at: usize) -> usize {
    u32::from_le_bytes([bytes[at], bytes[at + 1], bytes[at + 2], bytes[at + 3]]) as usize
}

/// One data record as a reader finds it.
struct Record {
    checksum: usize,
    uncompressed: usize,
    payload: Vec<u8>,
}

/// Walks the data records from the offset that the folder record gives.
fn records(cabinet: &[u8]) -> Vec<Record> {
    let mut at = u32_at(cabinet, 36);
    let mut found = Vec::new();
    for _ in 0..u16_at(cabinet, 40) {
        let compressed = u16_at(cabinet, at + 4);
        found.push(Record {
            checksum: u32_at(cabinet, at),
            uncompressed: u16_at(cabinet, at + 6),
            payload: cabinet[at + 8..at + 8 + compressed].to_vec(),
        });
        at += 8 + compressed;
    }
    assert_eq!(at, cabinet.len(), "the data records end where the file ends");
    found
}

/// What the data records decode to, taken in order.
fn decode(records: &[Record]) -> Vec<u8> {
    let mut decoder = MSZipDecoder::new(Vec::new());
    for record in records {
        decoder.write_block(&record.payload).unwrap();
    }
    decoder.finish().unwrap()
}

/// What an independent reader of cabinets extracts.
fn extract(cabinet: &[u8], name: &str) -> Vec<u8> {
    let mut reader = cab::Cabinet::new(std::io::Cursor::new(cabinet)).unwrap();
    let mut out = Vec::new();
    reader.read_file(name).unwrap().read_to_end(&mut out).unwrap();
    out
}

/// Checks every structural invariant of the cabinet of `data`, and returns its records.
fn check(name: &str, data: &[u8]) -> Vec<Record> {
    let cabinet = make_cab(name.as_bytes(), when(), data.to_vec()).unwrap();
    assert_eq!(&cabinet[..4], b"MSCF");
    assert_eq!(u32_at(&cabinet, 4), 0);
    assert_eq!(u32_at(&cabinet, 8), cabinet.len());
    assert_eq!(u32_at(&cabinet, 12), 0);
    assert_eq!(u32_at(&cabinet, 16), 44);
    assert_eq!(u32_at(&cabinet, 20), 0);
    assert_eq!((cabinet[24], cabinet[25]), (3, 1));
    assert_eq!(u16_at(&cabinet, 26), 1);
    assert_eq!(u16_at(&cabinet, 28), 1);
    assert_eq!(u16_at(&cabinet, 30), 0);
    assert_eq!(u16_at(&cabinet, 32), 0);
    assert_eq!(u16_at(&cabinet, 34), 0);
    // The folder record.
    assert_eq!(u32_at(&cabinet, 36), 61 + name.len());
    assert_eq!(u16_at(&cabinet, 40), (data.len() + MAX_CHUNK - 1) / MAX_CHUNK);
    assert_eq!(u16_at(&cabinet, 42), 1);
    // The file entry, where the header says it is.
    let entry = u32_at(&cabinet, 16);
    assert_eq!(u32_at(&cabinet, entry), data.len());
    assert_eq!(u32_at(&cabinet, entry + 4), 0);
    assert_eq!(u16_at(&cabinet, entry + 8), 0);
    assert_eq!(u16_at(&cabinet, entry + 10), 0x4c26);
    assert_eq!(u16_at(&cabinet, entry + 12), 0x7a75);
    assert_eq!(u16_at(&cabinet, entry + 14), 0x20);
    assert_eq!(&cabinet[entry + 16..entry + 16 + name.len()], name.as_bytes());
    assert_eq!(cabinet[entry + 16 + name.len()], 0);
    // The data records.
    let found = records(&cabinet);
    let mut total = 0;
    for record in &found {
        assert_eq!(record.checksum, 0);
        assert!(1 <= record.uncompressed && record.uncompressed <= MAX_CHUNK);
        assert!(record.payload.len() <= record.uncompressed + 12);
        assert_eq!(&record.payload[..2], b"CK");
        total += record.uncompressed;
    }
    assert_eq!(total, data.len());
    assert_eq!(decode(&found), data);
    assert_eq!(extract(&cabinet, name), data);
    found
}

fn sizes(records: &[Record]) -> Vec<usize> {
    records.iter().map(|r| r.uncompressed).collect()
}

#[test]
fn zeroes() {
    let found = check("original", &zeros(1000));
    assert_eq!(sizes(&found), [1000]);
    assert_eq!(decode(&found), zeros(1000));
}

#[test]
fn exactly_one_chunk() {
    assert_eq!(sizes(&check("original", &seq(MAX_CHUNK))), [MAX_CHUNK]);
}

#[test]
fn one_chunk_and_a_byte() {
    assert_eq!(sizes(&check("original", &seq(MAX_CHUNK + 1))), [MAX_CHUNK, 1]);
}

#[test]
fn nonzero_many_blocks() {
    let data = seq(MAX_CHUNK * 8);
    let found = check("original", &data);
    assert_eq!(sizes(&found), [MAX_CHUNK; 8]);
    // Each later block leans on the chunk before it.
    for k in 1..8 {
        let mut alone = MSZipDecoder::new(Vec::new());
        if alone.write_block(&found[k].payload).is_ok() {
            assert_ne!(alone.finish().unwrap(), &data[MAX_CHUNK * k..MAX_CHUNK * (k + 1)]);
        }
    }
}

#[test]
fn arbitrary_binary_file() {
    let data = binary(4 * 1024 * 1024 + 123);
    let found = check("firefox.exe", &data);
    assert_eq!(found.len(), 129);
}

#[test]
fn empty_input_has_no_data_records() {
    let found = check("empty", &[]);
    assert!(found.is_empty());
}

#[test]
fn lengths_around_a_chunk() {
    for size in [1, MAX_CHUNK - 1, MAX_CHUNK, MAX_CHUNK + 1, 2 * MAX_CHUNK - 1, 2 * MAX_CHUNK + 1] {
        check("original", &seq(size));
        check("original", &zeros(size));
    }
}

#[test]
fn incompressible_input_keeps_every_record_within_bounds() {
    let mut state: u32 = 1;
    let data: Vec<u8> = (0..MAX_CHUNK * 2 + 99)
        .map(|_| {
            state = state.wrapping_mul(1_664_525).wrapping_add(1_013_904_223);
            (state >> 24) as u8
        })
        .collect();
    assert_eq!(sizes(&check("noise.bin", &data)), [MAX_CHUNK, MAX_CHUNK, 99]);
}

#[test]
fn empty_cabinet_is_byte_exact() {
    let cabinet = make_cab(b"a", when(), Vec::new()).unwrap();
    let expected: [u8; 62] = [
        b'M', b'S', b'C', b'F', 0, 0, 0, 0, 62, 0, 0, 0, 0, 0, 0, 0, 44, 0, 0, 0, 0, 0, 0, 0, 3,
        1, 1, 0, 1, 0, 0, 0, 0, 0, 0, 0, // CFHEADER
        62, 0, 0, 0, 0, 0, 1, 0, // CFFOLDER
        0, 0, 0, 0, 0, 0, 0, 0, 0, 0, 0x26, 0x4c, 0x75, 0x7a, 0x20, 0, // CFFILE
        b'a', 0,
    ];
    assert_eq!(cabinet, expected);
}

#[test]
fn header_of_a_small_cabinet_is_byte_exact() {
    let cabinet = make_cab(b"hello.txt", when(), b"hello".to_vec()).unwrap();
    let size = cabinet.len() as u8;
    let expected: [u8; 44] = [
        b'M', b'S', b'C', b'F', 0, 0, 0, 0, size, 0, 0, 0, 0, 0, 0, 0, 44, 0, 0, 0, 0, 0, 0, 0,
        3, 1, 1, 0, 1, 0, 0, 0, 0, 0, 0, 0, // CFHEADER
        70, 0, 0, 0, 1, 0, 1, 0, // CFFOLDER
    ];
    assert_eq!(&cabinet[..44], expected);
    assert_eq!(&cabinet[60..70], b"hello.txt\0");
}

#[test]
fn data_records_are_the_blocks_of_the_encoder() {
    let data = seq(MAX_CHUNK * 2 + 500);
    let cabinet = make_cab(b"original", when(), data.clone()).unwrap();
    let mut encoder = MSZipEncoder::new(data, makecab::cabinet::DEFAULT_LEVEL);
    for record in records(&cabinet) {
        let block = encoder.read_block().unwrap();
        assert_eq!(block.original_size, record.uncompressed);
        assert_eq!(block.data, record.payload);
    }
    assert_eq!(encoder.read_block().unwrap().original_size, 0);
}

#[test]
fn making_a_cabinet_is_deterministic() {
    let data = binary(100_000);
    assert_eq!(
        make_cab(b"original", when(), data.clone()).unwrap(),
        make_cab(b"original", when(), data).unwrap()
    );
}

#[test]
fn reader_sees_name_size_and_time() {
    let cabinet = make_cab("r\u{e9}sum\u{e9}.txt".as_bytes(), when(), seq(70_000)).unwrap();
    let reader = cab::Cabinet::new(std::io::Cursor::new(&cabinet[..])).unwrap();
    let folders: Vec<_> = reader.folder_entries().collect();
    assert_eq!(folders.len(), 1);
    assert_eq!(folders[0].num_data_blocks(), 3);
    assert!(matches!(folders[0].compression_type(), cab::CompressionType::MsZip));
    let files: Vec<_> = folders[0].file_entries().collect();
    assert_eq!(files.len(), 1);
    assert_eq!(files[0].uncompressed_size(), 70_000);
    assert!(files[0].is_archive());
    let time = files[0].datetime().unwrap();
    assert_eq!((time.year(), time.month() as u8, time.day()), (2018, 1, 6));
    assert_eq!((time.hour(), time.minute(), time.second()), (15, 19, 42));
}

#[test]
fn empty_name_is_a_bad_filename() {
    assert_eq!(make_cab(b"", when(), vec![1, 2, 3]), Err(ErrorKind::BadFilename));
}

#[test]
fn name_that_is_not_text_is_a_bad_filename() {
    for name in [&b"\xff\xfe"[..], &b"caf\xe9"[..], &b"\xc3"[..], &b"\xed\xa0\x80"[..]] {
        assert_eq!(make_cab(name, when(), vec![1, 2, 3]), Err(ErrorKind::BadFilename));
    }
    assert!(make_cab("caf\u{e9}".as_bytes(), when(), vec![1, 2, 3]).is_ok());
}

#[test]
fn file_of_more_than_65535_chunks_is_too_large() {
    // Never touched: the length alone decides.
    let data = vec![0u8; 65535 * MAX_CHUNK + 1];
    assert_eq!(make_cab(b"huge", when(), data), Err(ErrorKind::FileTooLarge));
}

#[test]
fn bad_filename_is_reported_before_the_size() {
    let data = vec![0u8; 65535 * MAX_CHUNK + 1];
    assert_eq!(make_cab(b"", when(), data), Err(ErrorKind::BadFilename));
}
