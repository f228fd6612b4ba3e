//! What a reader finds in a cabinet that the writer made.
//!
//! A reader knows nothing of how the cabinet was written. It takes the
//! offsets and counts from the header and the folder record, and walks the
//! data records by the lengths that each record gives. The laws of this
//! module say that what it finds in this way is what the writer was given:
//! the fields are consistent with the file, and the records hold the blocks.

use vstd::prelude::*;
use crate::cabinet::{
    cabinet_body, cabinet_bytes, cabinet_of, data_record, data_records, file_entry,
    file_entry_offset, first_data_offset, fits, lemma_data_records_push, mszip_blocks, DataBlock,
    MAX_DATA_RECORDS, RECORD_OVERHEAD,
};
use crate::datetime::{lemma_date_word, lemma_time_word, CivilTime};
use crate::le::{read_le16, read_le32};
use crate::mszip::{
    block_at, chunk_at, chunk_count, decoded, encodable, encoded, inflate_restores_all,
    lemma_block_shape, lemma_chunk_bounds, lemma_chunk_count,
    lemma_decoding_restores_what_inflate_restores, DecoderView, MAX_CHUNK,
};
use crate::records::{
    cabinet_signature, CfData, CfFolder, CfHeader, ATTRIB_ARCHIVE, COMPRESS_MSZIP, DATA_SIZE,
    FILE_SIZE, FOLDER_SIZE, HEADER_SIZE,
};

verus! {

/// Where a reader finds data record number `k`: the folder record says
/// where the first one stands, and each record says how long its payload is.
pub open spec fn record_offset(cabinet: Seq<u8>, k: nat) -> int
    decreases k,
{
    if k == 0 {
        read_le32(cabinet, HEADER_SIZE as int)
    } else {
        let before = record_offset(cabinet, (k - 1) as nat);
        before + DATA_SIZE + read_le16(cabinet, before + 4)
    }
}

/// The `cbData` field of data record number `k`: the length of its payload.
pub open spec fn record_compressed(cabinet: Seq<u8>, k: nat) -> int {
    read_le16(cabinet, record_offset(cabinet, k) + 4)
}

/// The `cbUncomp` field of data record number `k`: the length of its chunk.
pub open spec fn record_uncompressed(cabinet: Seq<u8>, k: nat) -> int {
    read_le16(cabinet, record_offset(cabinet, k) + 6)
}

/// The payload of data record number `k`.
pub open spec fn record_payload(cabinet: Seq<u8>, k: nat) -> Seq<u8> {
    cabinet.subrange(
        record_offset(cabinet, k) + DATA_SIZE,
        record_offset(cabinet, k) + DATA_SIZE + record_compressed(cabinet, k),
    )
}

/// The sum of the `cbUncomp` fields of the first `count` data records.
pub open spec fn uncompressed_total(cabinet: Seq<u8>, count: nat) -> int
    decreases count,
{
    if count == 0 {
        0
    } else {
        uncompressed_total(cabinet, (count - 1) as nat) + record_uncompressed(
            cabinet,
            (count - 1) as nat,
        )
    }
}

/// Whether the fields of a cabinet can hold these blocks: their number and
/// the two lengths of each fit 16 bits, and the sizes of the file and of the
/// cabinet fit 32 bits.
pub open spec fn writable(name: Seq<u8>, file_size: nat, blocks: Seq<DataBlock>) -> bool {
    &&& blocks.len() <= MAX_DATA_RECORDS
    &&& file_size <= u32::MAX
    &&& first_data_offset(name.len()) + data_records(blocks).len() <= u32::MAX
    &&& forall|k: int|
        0 <= k < blocks.len() ==> (#[trigger] blocks[k]).payload.len() <= 0xffff
            && blocks[k].uncompressed <= 0xffff
}

/// The records of two runs of blocks, joined, are the records of the joined run.
pub proof fn lemma_data_records_concat(front: Seq<DataBlock>, back: Seq<DataBlock>)
    ensures
        data_records(front + back) == data_records(front) + data_records(back),
    decreases back.len(),
{
    if back.len() == 0 {
        assert(front + back =~= front);
    } else {
        assert((front + back).drop_last() =~= front + back.drop_last());
        lemma_data_records_concat(front, back.drop_last());
        assert(data_records(front + back) =~= data_records(front) + data_records(back));
    }
}

/// The record of block number `k` stands among the records after those of
/// the blocks before it.
pub proof fn lemma_data_record_at(blocks: Seq<DataBlock>, k: int)
    requires
        0 <= k < blocks.len(),
    ensures
        data_records(blocks) == data_records(blocks.take(k)) + data_record(blocks[k])
            + data_records(blocks.skip(k + 1)),
        data_records(blocks.take(k + 1)) == data_records(blocks.take(k)) + data_record(blocks[k]),
{
    assert(blocks.take(k + 1) =~= blocks.take(k).push(blocks[k]));
    lemma_data_records_push(blocks.take(k), blocks[k]);
    assert(blocks =~= blocks.take(k + 1) + blocks.skip(k + 1));
    lemma_data_records_concat(blocks.take(k + 1), blocks.skip(k + 1));
}

/// The fixed part of a cabinet, as a reader finds it: the signature, the
/// size of the file, the counts, the two offsets and what stands at them.
#[verifier::rlimit(30)]
pub proof fn lemma_cabinet_head(
    name: Seq<u8>,
    time: CivilTime,
    file_size: nat,
    blocks: Seq<DataBlock>,
)
    requires
        writable(name, file_size, blocks),
        time.representable(),
    ensures
        ({
            let cabinet = cabinet_bytes(name, time, file_size, blocks);
            let data_at = first_data_offset(name.len());
            &&& cabinet.len() == data_at + data_records(blocks).len()
            &&& cabinet.subrange(0, 4) == cabinet_signature()
            &&& read_le32(cabinet, 8) == cabinet.len()
            &&& read_le32(cabinet, 16) == file_entry_offset()
            &&& cabinet[24] == 3
            &&& cabinet[25] == 1
            &&& read_le16(cabinet, 26) == 1
            &&& read_le16(cabinet, 28) == 1
            &&& read_le32(cabinet, 36) == data_at
            &&& read_le16(cabinet, 40) == blocks.len()
            &&& read_le16(cabinet, 42) == COMPRESS_MSZIP
            &&& cabinet.subrange(file_entry_offset(), file_entry_offset() + FILE_SIZE)
                == file_entry(file_size, time).bytes()
            &&& read_le32(cabinet, 44) == file_size
            &&& read_le16(cabinet, 54) == time.date_bits()
            &&& read_le16(cabinet, 56) == time.time_bits()
            &&& read_le16(cabinet, 58) == ATTRIB_ARCHIVE
            &&& cabinet.subrange(data_at - 1 - name.len(), data_at - 1) == name
            &&& cabinet[data_at - 1] == 0
            &&& cabinet.skip(data_at) == data_records(blocks)
        }),
{
    let cabinet = cabinet_bytes(name, time, file_size, blocks);
    let body = cabinet_body(name, time, file_size, blocks);
    let header = CfHeader::single(
        (HEADER_SIZE + FOLDER_SIZE + body.len()) as u32,
        file_entry_offset() as u32,
    );
    let folder = CfFolder {
        coff_cab_start: first_data_offset(name.len()) as u32,
        c_cf_data: blocks.len() as u16,
        type_compress: COMPRESS_MSZIP,
    };
    let entry = file_entry(file_size, time);
    header.lemma_layout();
    folder.lemma_layout();
    entry.lemma_layout();
    lemma_date_word(time);
    lemma_time_word(time);
    lemma_fixed_part(
        cabinet,
        header.bytes(),
        folder.bytes(),
        entry.bytes(),
        name,
        data_records(blocks),
    );
}

/// Where the parts of a cabinet stand in it, whatever they hold.
#[verifier::rlimit(30)]
proof fn lemma_fixed_part(
    cabinet: Seq<u8>,
    header: Seq<u8>,
    folder: Seq<u8>,
    entry: Seq<u8>,
    name: Seq<u8>,
    records: Seq<u8>,
)
    requires
        header.len() == 36,
        folder.len() == 8,
        entry.len() == 16,
        cabinet == header + folder + (entry + name + seq![0u8] + records),
    ensures
        cabinet.len() == 61 + name.len() + records.len(),
        cabinet.subrange(0, 4) == header.subrange(0, 4),
        read_le32(cabinet, 8) == read_le32(header, 8),
        read_le32(cabinet, 16) == read_le32(header, 16),
        cabinet[24] == header[24],
        cabinet[25] == header[25],
        read_le16(cabinet, 26) == read_le16(header, 26),
        read_le16(cabinet, 28) == read_le16(header, 28),
        read_le32(cabinet, 36) == read_le32(folder, 0),
        read_le16(cabinet, 40) == read_le16(folder, 4),
        read_le16(cabinet, 42) == read_le16(folder, 6),
        cabinet.subrange(44, 60) == entry,
        read_le32(cabinet, 44) == read_le32(entry, 0),
        read_le16(cabinet, 54) == read_le16(entry, 10),
        read_le16(cabinet, 56) == read_le16(entry, 12),
        read_le16(cabinet, 58) == read_le16(entry, 14),
        cabinet.subrange(60, 60 + name.len() as int) == name,
        cabinet[60 + name.len() as int] == 0,
        cabinet.skip(61 + name.len() as int) == records,
{
    assert(cabinet.subrange(0, 4) =~= header.subrange(0, 4));
    assert(cabinet.subrange(44, 60) =~= entry);
    assert(cabinet.subrange(60, 60 + name.len() as int) =~= name);
    assert(cabinet.skip(61 + name.len() as int) =~= records);
}

/// Where a data record stands among the bytes around it, whatever it holds.
proof fn lemma_record_in_place(
    cabinet: Seq<u8>,
    before: Seq<u8>,
    head: Seq<u8>,
    payload: Seq<u8>,
    after: Seq<u8>,
)
    requires
        head.len() == 8,
        cabinet == before + (head + payload) + after,
    ensures
        cabinet.len() == before.len() + 8 + payload.len() + after.len(),
        read_le32(cabinet, before.len() as int) == read_le32(head, 0),
        read_le16(cabinet, before.len() as int + 4) == read_le16(head, 4),
        read_le16(cabinet, before.len() as int + 6) == read_le16(head, 6),
        cabinet.subrange(before.len() as int + 8, before.len() as int + 8 + payload.len())
            == payload,
{
    let at = before.len() as int;
    assert(cabinet.subrange(at + 8, at + 8 + payload.len()) =~= payload);
}

/// What a reader finds where the record of block number `k` stands.
#[verifier::rlimit(30)]
proof fn lemma_record_fields(
    cabinet: Seq<u8>,
    data_at: int,
    blocks: Seq<DataBlock>,
    k: int,
    at: int,
)
    requires
        0 <= data_at <= cabinet.len(),
        cabinet.skip(data_at) == data_records(blocks),
        0 <= k < blocks.len(),
        blocks[k].payload.len() <= 0xffff,
        blocks[k].uncompressed <= 0xffff,
        at == data_at + data_records(blocks.take(k)).len(),
    ensures
        at + DATA_SIZE + blocks[k].payload.len() <= cabinet.len(),
        data_records(blocks.take(k + 1)).len() == data_records(blocks.take(k)).len() + DATA_SIZE
            + blocks[k].payload.len(),
        read_le32(cabinet, at) == 0,
        read_le16(cabinet, at + 4) == blocks[k].payload.len(),
        read_le16(cabinet, at + 6) == blocks[k].uncompressed,
        cabinet.subrange(at + DATA_SIZE, at + DATA_SIZE + blocks[k].payload.len())
            == blocks[k].payload,
{
    let block = blocks[k];
    let head = CfData {
        csum: 0,
        cb_data: block.payload.len() as u16,
        cb_uncomp: block.uncompressed as u16,
    };
    head.lemma_layout();
    lemma_data_record_at(blocks, k);
    let before = cabinet.subrange(0, data_at) + data_records(blocks.take(k));
    let after = data_records(blocks.skip(k + 1));
    assert(cabinet =~= cabinet.subrange(0, data_at) + cabinet.skip(data_at));
    assert(cabinet =~= before + (head.bytes() + block.payload) + after);
    lemma_record_in_place(cabinet, before, head.bytes(), block.payload, after);
}

/// The walk of a reader over data records that begin at `data_at`.
#[verifier::rlimit(30)]
proof fn lemma_walk(cabinet: Seq<u8>, data_at: int, blocks: Seq<DataBlock>, k: nat)
    requires
        0 <= data_at <= cabinet.len(),
        read_le32(cabinet, HEADER_SIZE as int) == data_at,
        cabinet.skip(data_at) == data_records(blocks),
        forall|i: int|
            0 <= i < blocks.len() ==> (#[trigger] blocks[i]).payload.len() <= 0xffff
                && blocks[i].uncompressed <= 0xffff,
        k <= blocks.len(),
    ensures
        record_offset(cabinet, k) == data_at + data_records(blocks.take(k as int)).len(),
        k == blocks.len() ==> record_offset(cabinet, k) == cabinet.len(),
        k < blocks.len() ==> {
            &&& record_offset(cabinet, k) + DATA_SIZE + blocks[k as int].payload.len()
                <= cabinet.len()
            &&& read_le32(cabinet, record_offset(cabinet, k)) == 0
            &&& record_compressed(cabinet, k) == blocks[k as int].payload.len()
            &&& record_uncompressed(cabinet, k) == blocks[k as int].uncompressed
            &&& record_payload(cabinet, k) == blocks[k as int].payload
        },
    decreases k,
{
    if k == 0 {
        assert(blocks.take(0) =~= Seq::<DataBlock>::empty());
    } else {
        let j = (k - 1) as nat;
        lemma_walk(cabinet, data_at, blocks, j);
        assert(blocks[j as int].payload.len() <= 0xffff);
        lemma_record_fields(cabinet, data_at, blocks, j as int, record_offset(cabinet, j));
    }
    assert(record_offset(cabinet, k) == data_at + data_records(blocks.take(k as int)).len());
    if k == blocks.len() {
        assert(blocks.take(k as int) =~= blocks);
        assert(cabinet.skip(data_at).len() == cabinet.len() - data_at);
    } else {
        assert(blocks[k as int].payload.len() <= 0xffff);
        lemma_record_fields(cabinet, data_at, blocks, k as int, record_offset(cabinet, k));
    }
}

/// The data records of a cabinet, as a reader walks them: record number `k`
/// stands where the records before it end, its two length fields are those
/// of block number `k`, its checksum is zero and its payload is the block;
/// after the last record the reader has reached the end of the file.
pub proof fn lemma_record_walk(
    name: Seq<u8>,
    time: CivilTime,
    file_size: nat,
    blocks: Seq<DataBlock>,
    k: nat,
)
    requires
        writable(name, file_size, blocks),
        time.representable(),
        k <= blocks.len(),
    ensures
        ({
            let cabinet = cabinet_bytes(name, time, file_size, blocks);
            let at = record_offset(cabinet, k);
            &&& at == first_data_offset(name.len()) + data_records(blocks.take(k as int)).len()
            &&& k == blocks.len() ==> at == cabinet.len()
            &&& k < blocks.len() ==> {
                &&& at + DATA_SIZE + blocks[k as int].payload.len() <= cabinet.len()
                &&& read_le32(cabinet, at) == 0
                &&& record_compressed(cabinet, k) == blocks[k as int].payload.len()
                &&& record_uncompressed(cabinet, k) == blocks[k as int].uncompressed
                &&& record_payload(cabinet, k) == blocks[k as int].payload
            }
        }),
{
    lemma_cabinet_head(name, time, file_size, blocks);
    lemma_walk(
        cabinet_bytes(name, time, file_size, blocks),
        first_data_offset(name.len()),
        blocks,
        k,
    );
}

/// The sum of the chunk lengths of the first `count` blocks.
pub open spec fn chunk_total(blocks: Seq<DataBlock>, count: nat) -> int
    decreases count,
{
    if count == 0 {
        0
    } else {
        chunk_total(blocks, (count - 1) as nat) + blocks[count - 1].uncompressed
    }
}

/// What a reader adds up over the data records is what the blocks hold.
pub proof fn lemma_uncompressed_total(
    name: Seq<u8>,
    time: CivilTime,
    file_size: nat,
    blocks: Seq<DataBlock>,
    count: nat,
)
    requires
        writable(name, file_size, blocks),
        time.representable(),
        count <= blocks.len(),
    ensures
        uncompressed_total(cabinet_bytes(name, time, file_size, blocks), count) == chunk_total(
            blocks,
            count,
        ),
    decreases count,
{
    if count > 0 {
        lemma_uncompressed_total(name, time, file_size, blocks, (count - 1) as nat);
        lemma_record_walk(name, time, file_size, blocks, (count - 1) as nat);
    }
}

/// How far the first `count` blocks of `data` reach in the input and in the
/// cabinet: their chunks are the first bytes of the input, and each record
/// takes at most twenty bytes more than its chunk.
proof fn lemma_mszip_prefix(level: int, data: Seq<u8>, count: nat)
    requires
        encodable(level, data),
        count <= chunk_count(data.len()),
    ensures
        chunk_total(mszip_blocks(level, data), count) == if count < chunk_count(data.len()) {
            count * MAX_CHUNK
        } else {
            data.len() as int
        },
        data_records(mszip_blocks(level, data).take(count as int)).len() <= chunk_total(
            mszip_blocks(level, data),
            count,
        ) + RECORD_OVERHEAD * count,
    decreases count,
{
    let blocks = mszip_blocks(level, data);
    lemma_chunk_count(data.len());
    if count == 0 {
        assert(blocks.take(0) =~= Seq::<DataBlock>::empty());
    } else {
        let j = (count - 1) as int;
        lemma_mszip_prefix(level, data, j as nat);
        lemma_chunk_bounds(data, j);
        lemma_block_shape(level, data, j);
        lemma_data_record_at(blocks, j);
        assert(block_at(level, data, j) is Some);
    }
}

/// The blocks that the encoder makes of a file that fits are blocks that the
/// fields of a cabinet can hold.
pub proof fn lemma_mszip_blocks_are_writable(name: Seq<u8>, level: int, data: Seq<u8>)
    ensures
        fits(name.len(), data.len()) && encodable(level, data) ==> writable(
            name,
            data.len(),
            mszip_blocks(level, data),
        ),
{
    if fits(name.len(), data.len()) && encodable(level, data) {
        let blocks = mszip_blocks(level, data);
        lemma_chunk_count(data.len());
        lemma_mszip_prefix(level, data, chunk_count(data.len()));
        assert(blocks.take(blocks.len() as int) =~= blocks);
        assert forall|k: int| 0 <= k < blocks.len() implies (#[trigger] blocks[k]).payload.len()
            <= 0xffff && blocks[k].uncompressed <= 0xffff by {
            lemma_chunk_bounds(data, k);
            lemma_block_shape(level, data, k);
            assert(block_at(level, data, k) is Some);
        }
    }
}

/// The structure of every cabinet that `make_cab` returns.
///
/// The file begins with `MSCF`. Its header gives the true size of the file,
/// one folder and one file, and the offset of the file entry, where the file
/// entry stands with the size of the input, the date and time words and the
/// archive attribute, followed by the name and a zero byte. The folder record
/// gives the offset at which the data records begin, their number, which is
/// the number of chunks of the input, and MS-ZIP as the compression type.
pub proof fn lemma_cabinet_structure(name: Seq<u8>, time: CivilTime, level: int, data: Seq<u8>)
    requires
        time.representable(),
    ensures
        cabinet_of(name, time, level, data) matches Ok(cabinet) ==> {
            let data_at = first_data_offset(name.len());
            &&& cabinet.subrange(0, 4) == cabinet_signature()
            &&& read_le32(cabinet, 8) == cabinet.len()
            &&& read_le32(cabinet, 16) == file_entry_offset()
            &&& cabinet.subrange(file_entry_offset(), file_entry_offset() + FILE_SIZE)
                == file_entry(data.len(), time).bytes()
            &&& read_le32(cabinet, 44) == data.len()
            &&& read_le16(cabinet, 54) == time.date_bits()
            &&& read_le16(cabinet, 56) == time.time_bits()
            &&& read_le16(cabinet, 58) == ATTRIB_ARCHIVE
            &&& cabinet.subrange(data_at - 1 - name.len(), data_at - 1) == name
            &&& cabinet[data_at - 1] == 0
            &&& read_le32(cabinet, 36) == data_at
            &&& record_offset(cabinet, 0) == data_at
            &&& record_offset(cabinet, chunk_count(data.len())) == cabinet.len()
            &&& read_le16(cabinet, 26) == 1
            &&& read_le16(cabinet, 28) == 1
            &&& read_le16(cabinet, 40) == chunk_count(data.len())
            &&& read_le16(cabinet, 42) == COMPRESS_MSZIP
        },
{
    if cabinet_of(name, time, level, data) is Ok {
        let blocks = mszip_blocks(level, data);
        lemma_mszip_blocks_are_writable(name, level, data);
        lemma_cabinet_head(name, time, data.len(), blocks);
        lemma_record_walk(name, time, data.len(), blocks, blocks.len());
    }
}

/// Every data record of a cabinet that `make_cab` returns holds one block of
/// the input: record number `k` has a zero checksum, gives the length of
/// chunk number `k`, which is from 1 to 32768, as `cbUncomp`, gives a `cbData`
/// of at most twelve more, and has the bytes of block number `k` as payload.
pub proof fn lemma_cabinet_data_record(
    name: Seq<u8>,
    time: CivilTime,
    level: int,
    data: Seq<u8>,
    k: nat,
)
    requires
        time.representable(),
        k < chunk_count(data.len()),
    ensures
        cabinet_of(name, time, level, data) matches Ok(cabinet) ==> {
            &&& record_offset(cabinet, k) + DATA_SIZE + record_compressed(cabinet, k)
                <= cabinet.len()
            &&& read_le32(cabinet, record_offset(cabinet, k)) == 0
            &&& record_uncompressed(cabinet, k) == chunk_at(data, k as int).len()
            &&& 1 <= record_uncompressed(cabinet, k) <= MAX_CHUNK
            &&& record_compressed(cabinet, k) <= record_uncompressed(cabinet, k) + 12
            &&& Some(record_payload(cabinet, k)) == block_at(level, data, k as int)
        },
{
    if cabinet_of(name, time, level, data) is Ok {
        let blocks = mszip_blocks(level, data);
        lemma_mszip_blocks_are_writable(name, level, data);
        lemma_record_walk(name, time, data.len(), blocks, k);
        lemma_chunk_bounds(data, k as int);
        lemma_block_shape(level, data, k as int);
        assert(block_at(level, data, k as int) is Some);
    }
}

/// In a cabinet that `make_cab` returns, the `cbUncomp` fields of all data
/// records add up to the `cbFile` field of the file entry, the size of the
/// input.
pub proof fn lemma_cabinet_uncompressed_total(
    name: Seq<u8>,
    time: CivilTime,
    level: int,
    data: Seq<u8>,
)
    requires
        time.representable(),
    ensures
        cabinet_of(name, time, level, data) matches Ok(cabinet) ==> uncompressed_total(
            cabinet,
            chunk_count(data.len()),
        ) == data.len() && read_le32(cabinet, 44) == data.len(),
{
    if cabinet_of(name, time, level, data) is Ok {
        let blocks = mszip_blocks(level, data);
        lemma_mszip_blocks_are_writable(name, level, data);
        lemma_cabinet_head(name, time, data.len(), blocks);
        lemma_uncompressed_total(name, time, data.len(), blocks, blocks.len());
        lemma_mszip_prefix(level, data, blocks.len());
    }
}

/// The payloads of the first `count` data records of a cabinet, in order.
pub open spec fn record_payloads(cabinet: Seq<u8>, count: nat) -> Seq<Seq<u8>> {
    Seq::new(count, |k: int| record_payload(cabinet, k as nat))
}

/// A reader gets the input back from a cabinet that `make_cab` returns, as
/// far as the DEFLATE layer does its part: the payloads of the data records
/// are the blocks of the encoder in their order, so where the DEFLATE layer
/// restores each chunk from its block, a new decoder that is given the
/// payloads one after the other has written exactly the input.
pub proof fn lemma_records_decode_to_what_inflate_restores(
    name: Seq<u8>,
    time: CivilTime,
    level: int,
    data: Seq<u8>,
)
    requires
        time.representable(),
    ensures
        cabinet_of(name, time, level, data) matches Ok(cabinet) ==> {
            let payloads = record_payloads(cabinet, chunk_count(data.len()));
            &&& payloads == encoded(level, data)
            &&& inflate_restores_all(level, data) ==> (decoded(DecoderView::fresh(), payloads)
                matches Ok(end) && end.written == data)
        },
{
    if let Ok(cabinet) = cabinet_of(name, time, level, data) {
        let count = chunk_count(data.len());
        let payloads = record_payloads(cabinet, count);
        assert forall|k: int| 0 <= k < count implies payloads[k] == encoded(level, data)[k] by {
            lemma_cabinet_data_record(name, time, level, data, k as nat);
        }
        assert(payloads =~= encoded(level, data));
        lemma_decoding_restores_what_inflate_restores(level, data);
    }
}

} // verus!
