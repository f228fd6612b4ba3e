//! The cabinet writer: one file, in one folder, compressed with MS-ZIP.
//!
//! A cabinet is laid out as `CFHEADER`, `CFFOLDER`, `CFFILE`, the name of the
//! file and a zero byte, then one `CFDATA` record for each block. The header
//! and the folder record hold the size of the whole file, the offsets of the
//! file entry and of the first data record, and the number of data records.
//! These are known only when the body has been written, so the writer puts
//! down a preliminary header and folder record, writes the body, and then
//! goes back to the start and writes the two records again.

use vstd::prelude::*;
use vstd::utf8::valid_utf8;
use crate::datetime::{lemma_date_word, lemma_time_word, CivilTime, DateTime};
use crate::error::ErrorKind;
use crate::le::{overwrite, push_bytes};
use crate::mszip::{
    block_at, chunk_at, chunk_count, encodable, lemma_block_shape, lemma_chunk_bounds,
    lemma_chunk_count, lemma_next_block, MSZipBlock, MSZipEncoder, MAX_BLOCK_SIZE, MAX_CHUNK,
};
use crate::records::{
    CfData, CfFile, CfFolder, CfHeader, ATTRIB_ARCHIVE, COMPRESS_MSZIP, DATA_SIZE, FILE_SIZE,
    FOLDER_SIZE, HEADER_SIZE,
};

verus! {

/// The compression level that the writer uses.
pub const DEFAULT_LEVEL: u32 = 6;

/// The most data records that a folder can count in its 16-bit field.
pub const MAX_DATA_RECORDS: usize = 65535;

/// The largest file that fits in that many blocks: 65535 chunks of 32768 bytes.
pub const MAX_FILE_SIZE: usize = 2_147_450_880;

/// What a data record takes beyond its chunk at most: its head of eight
/// bytes, and the twelve bytes by which a block may outgrow its chunk.
pub const RECORD_OVERHEAD: usize = 20;

/// One block as the cabinet holds it.
pub struct DataBlock {
    /// The number of bytes that the payload decompresses to.
    pub uncompressed: nat,
    /// The bytes of the block, signature included.
    pub payload: Seq<u8>,
}

/// Whether `name` can be the name of the file: not empty, and valid text.
pub open spec fn valid_name(name: Seq<u8>) -> bool {
    name.len() > 0 && valid_utf8(name)
}

/// Whether a file of `data_len` bytes under a name of `name_len` bytes fits
/// the fields of a cabinet: the blocks can be counted in 16 bits, and the
/// cabinet cannot grow beyond 32 bits, however badly the data compresses.
pub open spec fn fits(name_len: nat, data_len: nat) -> bool {
    &&& data_len <= MAX_FILE_SIZE
    &&& first_data_offset(name_len) + data_len + RECORD_OVERHEAD * chunk_count(data_len)
        <= u32::MAX
}

/// Where the file entry stands: after the header and the folder record.
pub open spec fn file_entry_offset() -> int {
    HEADER_SIZE + FOLDER_SIZE
}

/// Where the first data record stands: after the file entry, the name and
/// the zero byte that ends the name.
pub open spec fn first_data_offset(name_len: nat) -> int {
    HEADER_SIZE + FOLDER_SIZE + FILE_SIZE + name_len + 1
}

/// The bytes of one data record: its head and its payload.
pub open spec fn data_record(block: DataBlock) -> Seq<u8> {
    (CfData {
        csum: 0,
        cb_data: block.payload.len() as u16,
        cb_uncomp: block.uncompressed as u16,
    }).bytes() + block.payload
}

/// The bytes of the data records of `blocks`, one after the other.
pub open spec fn data_records(blocks: Seq<DataBlock>) -> Seq<u8>
    decreases blocks.len(),
{
    if blocks.len() == 0 {
        Seq::<u8>::empty()
    } else {
        data_records(blocks.drop_last()) + data_record(blocks.last())
    }
}

/// The file entry of a file of `file_size` bytes last modified at `time`.
pub open spec fn file_entry(file_size: nat, time: CivilTime) -> CfFile {
    CfFile {
        cb_file: file_size as u32,
        uoff_folder_start: 0,
        i_folder: 0,
        date: time.date_bits() as u16,
        time: time.time_bits() as u16,
        attribs: ATTRIB_ARCHIVE,
    }
}

/// What stands between the folder record and the end of the cabinet: the
/// file entry, the name, a zero byte, and the data records.
pub open spec fn cabinet_body(
    name: Seq<u8>,
    time: CivilTime,
    file_size: nat,
    blocks: Seq<DataBlock>,
) -> Seq<u8> {
    file_entry(file_size, time).bytes() + name + seq![0u8] + data_records(blocks)
}

/// The bytes of the cabinet that holds one file of `file_size` bytes, named
/// `name` and last modified at `time`, as the blocks `blocks`.
pub open spec fn cabinet_bytes(
    name: Seq<u8>,
    time: CivilTime,
    file_size: nat,
    blocks: Seq<DataBlock>,
) -> Seq<u8> {
    let body = cabinet_body(name, time, file_size, blocks);
    CfHeader::single(
        (HEADER_SIZE + FOLDER_SIZE + body.len()) as u32,
        file_entry_offset() as u32,
    ).bytes() + (CfFolder {
        coff_cab_start: first_data_offset(name.len()) as u32,
        c_cf_data: blocks.len() as u16,
        type_compress: COMPRESS_MSZIP,
    }).bytes() + body
}

/// The blocks that the MS-ZIP encoder makes of `data` at `level`, each with
/// the length of its chunk.
pub open spec fn mszip_blocks(level: int, data: Seq<u8>) -> Seq<DataBlock> {
    Seq::new(
        chunk_count(data.len()),
        |k: int|
            DataBlock {
                uncompressed: chunk_at(data, k).len(),
                payload: block_at(level, data, k).unwrap(),
            },
    )
}

/// What `make_cab` returns: the cabinet, or the reason why there is none.
pub open spec fn cabinet_of(name: Seq<u8>, time: CivilTime, level: int, data: Seq<u8>) -> Result<
    Seq<u8>,
    ErrorKind,
> {
    if !valid_name(name) {
        Err(ErrorKind::BadFilename)
    } else if !fits(name.len(), data.len()) {
        Err(ErrorKind::FileTooLarge)
    } else if !encodable(level, data) {
        Err(ErrorKind::Compression)
    } else {
        Ok(cabinet_bytes(name, time, data.len(), mszip_blocks(level, data)))
    }
}

/// `core::str::from_utf8`, asked only whether it succeeds. Claimed: it
/// succeeds on exactly the byte strings that are valid UTF-8.
#[verifier::external_body]
fn is_valid_text(bytes: &[u8]) -> (valid: bool)
    ensures
        valid == valid_utf8(bytes@),
{
    core::str::from_utf8(bytes).is_ok()
}

/// Whether a file of `data_len` bytes under a name of `name_len` bytes fits
/// the fields of a cabinet.
fn check_fits(name_len: usize, data_len: usize) -> (ok: bool)
    ensures
        ok == fits(name_len as nat, data_len as nat),
{
    if data_len > MAX_FILE_SIZE || name_len > 0xffff_ffff {
        return false;
    }
    let blocks: u64 = (data_len as u64 + 32767) / 32768;
    assert(blocks == chunk_count(data_len as nat));
    assert(blocks <= 65535);
    let worst: u64 = 61 + name_len as u64 + data_len as u64 + 20 * blocks;
    worst <= 0xffff_ffff
}

/// Appending a block to the blocks appends its record to their records.
pub proof fn lemma_data_records_push(blocks: Seq<DataBlock>, block: DataBlock)
    ensures
        data_records(blocks.push(block)) == data_records(blocks) + data_record(block),
{
    assert(blocks.push(block).drop_last() =~= blocks);
}

/// Writes a preliminary header and folder record: they hold the room, and
/// the fields that are not known yet are zero.
fn write_preliminary(out: &mut Vec<u8>)
    ensures
        final(out)@.len() == old(out)@.len() + HEADER_SIZE + FOLDER_SIZE,
        final(out)@.subrange(0, old(out)@.len() as int) == old(out)@,
{
    let header = CfHeader::new(0, 0);
    push_bytes(out, header.to_bytes().as_slice());
    let folder = CfFolder { coff_cab_start: 0, c_cf_data: 0, type_compress: COMPRESS_MSZIP };
    push_bytes(out, folder.to_bytes().as_slice());
    assert(out@.subrange(0, old(out)@.len() as int) =~= old(out)@);
}

/// Writes the file entry, the name of the file and the zero byte that ends it.
fn write_file_entry(out: &mut Vec<u8>, file_name: &[u8], modified: DateTime, file_size: usize)
    requires
        file_size <= MAX_FILE_SIZE,
    ensures
        final(out)@ == old(out)@ + (file_entry(file_size as nat, modified@).bytes() + file_name@
            + seq![0u8]),
{
    let time = modified.civil();
    proof {
        lemma_date_word(time);
        lemma_time_word(time);
    }
    let entry = CfFile {
        cb_file: file_size as u32,
        uoff_folder_start: 0,
        i_folder: 0,
        date: modified.encode_date(),
        time: modified.encode_time(),
        attribs: ATTRIB_ARCHIVE,
    };
    assert(entry == file_entry(file_size as nat, modified@));
    push_bytes(out, entry.to_bytes().as_slice());
    push_bytes(out, file_name);
    out.push(0);
    assert(out@ =~= old(out)@ + (entry.bytes() + file_name@ + seq![0u8]));
}

/// Appends the data record of `block`: its head, then its payload.
fn write_data_record(out: &mut Vec<u8>, block: &MSZipBlock)
    requires
        block.original_size <= MAX_CHUNK,
        block.data@.len() <= MAX_BLOCK_SIZE,
    ensures
        final(out)@ == old(out)@ + data_record(
            DataBlock { uncompressed: block.original_size as nat, payload: block.data@ },
        ),
        final(out)@.len() == old(out)@.len() + DATA_SIZE + block.data@.len(),
{
    let head = CfData {
        csum: 0,
        cb_data: block.data.len() as u16,
        cb_uncomp: block.original_size as u16,
    };
    push_bytes(out, head.to_bytes().as_slice());
    push_bytes(out, block.data.as_slice());
    assert(out@ =~= old(out)@ + (head.bytes() + block.data@));
}

/// Goes back to the start of `out` and writes the header and the folder
/// record, with their fields filled in, over the preliminary ones.
fn write_header(
    out: &mut Vec<u8>,
    cb_cabinet: usize,
    coff_files: usize,
    coff_cab_start: usize,
    count: usize,
)
    requires
        HEADER_SIZE + FOLDER_SIZE <= old(out)@.len(),
        cb_cabinet <= u32::MAX,
        coff_files <= u32::MAX,
        coff_cab_start <= u32::MAX,
        count <= MAX_DATA_RECORDS,
    ensures
        final(out)@ == CfHeader::single(cb_cabinet as u32, coff_files as u32).bytes() + (CfFolder {
            coff_cab_start: coff_cab_start as u32,
            c_cf_data: count as u16,
            type_compress: COMPRESS_MSZIP,
        }).bytes() + old(out)@.skip(file_entry_offset()),
{
    let header = CfHeader::new(cb_cabinet as u32, coff_files as u32);
    overwrite(out, 0, header.to_bytes().as_slice());
    let folder = CfFolder {
        coff_cab_start: coff_cab_start as u32,
        c_cf_data: count as u16,
        type_compress: COMPRESS_MSZIP,
    };
    overwrite(out, HEADER_SIZE, folder.to_bytes().as_slice());
    assert(out@ =~= header.bytes() + folder.bytes() + old(out)@.skip(file_entry_offset()));
}

/// Writes the cabinet that holds the single file `data` under the name
/// `file_name`, last modified at `modified`, and returns its bytes.
///
/// The name is the final component of the path of the file, as bytes. It
/// must be valid text and not empty, or the result is `BadFilename`. A file
/// that has more bytes than 65535 chunks hold, or whose cabinet could pass
/// four gigabytes, is refused with `FileTooLarge` before anything is
/// compressed. A failure of the DEFLATE layer is `Compression`.
#[verifier::rlimit(30)]
pub fn make_cab(file_name: &[u8], modified: DateTime, data: Vec<u8>) -> (res: Result<
    Vec<u8>,
    ErrorKind,
>)
    ensures
        match cabinet_of(file_name@, modified@, DEFAULT_LEVEL as int, data@) {
            Ok(cabinet) => res matches Ok(out) && out@ == cabinet,
            Err(e) => res == Err::<Vec<u8>, ErrorKind>(e),
        },
{
    if file_name.len() == 0 || !is_valid_text(file_name) {
        return Err(ErrorKind::BadFilename);
    }
    if !check_fits(file_name.len(), data.len()) {
        return Err(ErrorKind::FileTooLarge);
    }
    let ghost input = data@;
    let ghost level = DEFAULT_LEVEL as int;
    let ghost blocks = mszip_blocks(level, input);
    let ghost total = chunk_count(input.len());
    proof {
        lemma_chunk_count(input.len());
    }

    // First pass: a preliminary header and folder record, then the body.
    let mut out: Vec<u8> = Vec::new();
    write_preliminary(&mut out);
    let coff_files: usize = out.len();
    write_file_entry(&mut out, file_name, modified, data.len());
    let coff_cab_start: usize = out.len();
    let ghost preamble = out@;
    assert(preamble.skip(file_entry_offset()) =~= file_entry(input.len(), modified@).bytes()
        + file_name@ + seq![0u8]);
    let mut encoder = MSZipEncoder::new(data, DEFAULT_LEVEL);
    let mut count: usize = 0;
    assert(blocks.take(0) =~= Seq::<DataBlock>::empty());
    loop
        invariant
            encoder.well_formed(),
            encoder@.input == input,
            encoder@.level == level,
            input == data@,
            level == DEFAULT_LEVEL,
            valid_name(file_name@),
            fits(file_name@.len(), input.len()),
            blocks == mszip_blocks(level, input),
            total == chunk_count(input.len()),
            total <= MAX_DATA_RECORDS,
            preamble.len() + input.len() + 20 * total <= u32::MAX,
            count <= total,
            encoder@.consumed == if count < total {
                count * MAX_CHUNK
            } else {
                input.len() as int
            },
            forall|k: int| 0 <= k < count ==> (#[trigger] block_at(level, input, k)) is Some,
            out@ == preamble + data_records(blocks.take(count as int)),
            out@.len() <= preamble.len() + encoder@.consumed + 20 * count,
        ensures
            count == total,
        decreases total - count,
    {
        proof {
            if count < total {
                lemma_next_block(encoder@, count as int);
                lemma_chunk_bounds(input, count as int);
                lemma_block_shape(level, input, count as int);
            }
        }
        let block = match encoder.read_block() {
            Ok(block) => block,
            Err(e) => {
                assert(block_at(level, input, count as int) is None);
                return Err(e);
            },
        };
        if block.data.len() == 0 {
            break ;
        }
        write_data_record(&mut out, &block);
        proof {
            let record = DataBlock {
                uncompressed: block.original_size as nat,
                payload: block.data@,
            };
            assert(record == blocks[count as int]);
            assert(blocks.take(count + 1) =~= blocks.take(count as int).push(record));
            lemma_data_records_push(blocks.take(count as int), record);
        }
        count += 1;
    }
    assert(blocks.take(count as int) =~= blocks);
    assert(encodable(level, input));

    // Second pass: the header and the folder record with their fields filled in.
    let cb_cabinet: usize = out.len();
    write_header(&mut out, cb_cabinet, coff_files, coff_cab_start, count);
    proof {
        let body = cabinet_body(file_name@, modified@, input.len(), blocks);
        assert((preamble + data_records(blocks)).skip(file_entry_offset()) =~= preamble.skip(
            file_entry_offset(),
        ) + data_records(blocks));
        assert(preamble.skip(file_entry_offset()) + data_records(blocks) =~= body);
        assert(HEADER_SIZE + FOLDER_SIZE + body.len() == preamble.len() + data_records(
            blocks,
        ).len());
    }
    Ok(out)
}

} // verus!
