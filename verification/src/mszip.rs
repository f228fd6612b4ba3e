//! The MS-ZIP block codec.
//!
//! An MS-ZIP stream is a sequence of blocks. Each block holds one chunk of at
//! most 32768 bytes of the input: the two bytes `CK`, then a DEFLATE stream
//! that is complete in itself at the bit level. The sliding window is carried
//! over: a block may refer back to the bytes of the chunk before it, so the
//! blocks have to be decoded in the order in which they were made.

use vstd::prelude::*;
use vstd::slice::slice_subrange;
use flate2::{Compress, Decompress};
use crate::deflate::{
    deflate_finish, deflate_level, deflate_result, deflate_seed, inflate_finish, inflate_result,
    inflate_seed, new_compressor, new_decompressor, reset_decompressor, set_deflate_dictionary,
    set_inflate_dictionary, StreamStatus,
};
use crate::error::ErrorKind;
use crate::le::{le16, push_bytes, push_le16};

verus! {

/// Maximum uncompressed bytes in a chunk: 32 KiB.
pub const MAX_CHUNK: usize = 32768;

/// The most bytes that the DEFLATE stream of a block may take: a chunk and
/// ten bytes.
pub const MAX_STREAM_SIZE: usize = MAX_CHUNK + 10;

/// The maximum size of a block, signature included: 32 KiB and twelve bytes.
pub const MAX_BLOCK_SIZE: usize = MAX_CHUNK + 12;

/// The two bytes `CK` that every block begins with.
pub open spec fn signature() -> Seq<u8> {
    seq![0x43u8, 0x4Bu8]
}

/// Whether `block` begins with the signature.
pub open spec fn has_signature(block: Seq<u8>) -> bool {
    block.len() >= 2 && block[0] == 0x43 && block[1] == 0x4B
}

/// The DEFLATE stream that holds `chunk` uncompressed: one final stored
/// block, which is its header byte, the length, the complement of the length
/// and the bytes themselves.
pub open spec fn stored_stream(chunk: Seq<u8>) -> Seq<u8>
    recommends
        chunk.len() <= 65535,
{
    seq![1u8] + le16(chunk.len() as u16) + le16((65535 - chunk.len()) as u16) + chunk
}

/// The bytes of the block for `chunk`, given how the DEFLATE stream ended and
/// what it wrote: the signature and the stream where the stream is complete
/// and at most ten bytes longer than the chunk, the signature and the chunk
/// stored where it is not, and `None` where the stream failed.
pub open spec fn framed(chunk: Seq<u8>, status: StreamStatus, stream: Seq<u8>) -> Option<Seq<u8>> {
    match status {
        StreamStatus::Failed => None,
        StreamStatus::StreamEnd => if stream.len() <= chunk.len() + 10 {
            Some(signature() + stream)
        } else {
            Some(signature() + stored_stream(chunk))
        },
        _ => Some(signature() + stored_stream(chunk)),
    }
}

/// The bytes of the block that a stream of the given level makes of `chunk`
/// when `dictionary` is what came before it, or `None` where the DEFLATE layer
/// fails.
pub open spec fn block_payload(level: int, dictionary: Seq<u8>, chunk: Seq<u8>) -> Option<
    Seq<u8>,
> {
    let done = deflate_result(level, dictionary, chunk, MAX_STREAM_SIZE as int);
    framed(chunk, done.0, done.1)
}

/// The chunk that starts at `from`: the next 32768 bytes of `input`, or what
/// is left of it.
pub open spec fn chunk_from(input: Seq<u8>, from: int) -> Seq<u8> {
    if from + MAX_CHUNK <= input.len() {
        input.subrange(from, from + MAX_CHUNK)
    } else {
        input.subrange(from, input.len() as int)
    }
}

/// The dictionary for the chunk that starts at `from`: the chunk before it,
/// and nothing for the first chunk.
pub open spec fn dictionary_before(input: Seq<u8>, from: int) -> Seq<u8> {
    if from >= MAX_CHUNK {
        input.subrange(from - MAX_CHUNK, from)
    } else {
        input.subrange(0, from)
    }
}

/// What a decoder that holds `dictionary` makes of `block`: the bytes of the
/// chunk, or the error that the block is refused with.
pub open spec fn decode_block(dictionary: Seq<u8>, block: Seq<u8>) -> Result<Seq<u8>, ErrorKind> {
    if block.len() > MAX_BLOCK_SIZE {
        Err(ErrorKind::BlockSizeTooLarge)
    } else if !has_signature(block) {
        Err(ErrorKind::InvalidBlockSignature)
    } else {
        let done = inflate_result(dictionary, block.skip(2), MAX_CHUNK as int);
        inflated(done.0, done.1)
    }
}

/// What the decoder makes of the end of a DEFLATE stream: the bytes written
/// where the stream is complete, else the error.
pub open spec fn inflated(status: StreamStatus, written: Seq<u8>) -> Result<Seq<u8>, ErrorKind> {
    match status {
        StreamStatus::StreamEnd => Ok(written),
        StreamStatus::NeedsMore => Err(ErrorKind::DecompressionError),
        StreamStatus::NoProgress => Err(ErrorKind::BufferError),
        StreamStatus::Failed => Err(ErrorKind::Flate),
    }
}

/// The number of chunks, and so of blocks, that an input of `len` bytes has.
pub open spec fn chunk_count(len: nat) -> nat {
    ((len + MAX_CHUNK - 1) / (MAX_CHUNK as int)) as nat
}

/// Chunk number `k` of `input`, counted from zero.
pub open spec fn chunk_at(input: Seq<u8>, k: int) -> Seq<u8> {
    chunk_from(input, k * MAX_CHUNK)
}

/// The dictionary that chunk number `k` is compressed and decoded against.
pub open spec fn dictionary_at(input: Seq<u8>, k: int) -> Seq<u8> {
    dictionary_before(input, k * MAX_CHUNK)
}

/// The bytes of block number `k` of `input` at the given level, or `None`
/// where the DEFLATE layer fails on it.
pub open spec fn block_at(level: int, input: Seq<u8>, k: int) -> Option<Seq<u8>> {
    block_payload(level, dictionary_at(input, k), chunk_at(input, k))
}

/// Whether the DEFLATE layer fails on none of the chunks of `input`.
pub open spec fn encodable(level: int, input: Seq<u8>) -> bool {
    forall|k: int| 0 <= k < chunk_count(input.len()) ==> (#[trigger] block_at(level, input, k)) is Some
}

/// All blocks of `input` at the given level, in order.
pub open spec fn encoded(level: int, input: Seq<u8>) -> Seq<Seq<u8>> {
    Seq::new(chunk_count(input.len()), |k: int| block_at(level, input, k).unwrap())
}

/// What a decoder in state `start` has become after `blocks`, taken in
/// order, or the error of the first block that it refuses.
pub open spec fn decoded(start: DecoderView, blocks: Seq<Seq<u8>>) -> Result<
    DecoderView,
    ErrorKind,
>
    decreases blocks.len(),
{
    if blocks.len() == 0 {
        Ok(start)
    } else {
        match decode_block(start.dictionary, blocks.first()) {
            Ok(chunk) => decoded(
                DecoderView { written: start.written + chunk, dictionary: chunk },
                blocks.drop_first(),
            ),
            Err(e) => Err(e),
        }
    }
}

/// Whether the DEFLATE layer, given `dictionary`, restores `chunk` from the
/// stream that follows the signature in `block`.
pub open spec fn inflate_restores(dictionary: Seq<u8>, chunk: Seq<u8>, block: Seq<u8>) -> bool {
    inflate_result(dictionary, block.skip(2), MAX_CHUNK as int) == (StreamStatus::StreamEnd, chunk)
}

/// What the decoder makes of the way a DEFLATE stream ended: nothing is
/// wrong where the stream is complete. A stream that wants more room for
/// output is a decompression error, one that could make no progress a buffer
/// error, and one that the DEFLATE layer refused is invalid data.
pub fn check_stream_end(status: StreamStatus) -> (res: Result<(), ErrorKind>)
    ensures
        res == match inflated(status, Seq::<u8>::empty()) {
            Ok(_) => Ok::<(), ErrorKind>(()),
            Err(e) => Err::<(), ErrorKind>(e),
        },
{
    match status {
        StreamStatus::StreamEnd => Ok(()),
        StreamStatus::NeedsMore => Err(ErrorKind::DecompressionError),
        StreamStatus::NoProgress => Err(ErrorKind::BufferError),
        StreamStatus::Failed => Err(ErrorKind::Flate),
    }
}

/// A single MSZIP block of compressed data.
pub struct MSZipBlock {
    /// The original size of the input data that was compressed.
    pub original_size: usize,
    /// The compressed data.
    pub data: Vec<u8>,
}

/// Builds the block for `chunk` from the outcome of its DEFLATE stream.
///
/// A stream that is complete and no more than ten bytes longer than the chunk
/// is taken as it is. Where the stream did not fit or came out longer, the
/// chunk is stored instead, which costs five bytes. A failed stream is a
/// compression error.
pub fn frame_block(chunk: &[u8], status: StreamStatus, stream: &[u8]) -> (res: Result<
    MSZipBlock,
    ErrorKind,
>)
    requires
        0 < chunk@.len() <= MAX_CHUNK,
    ensures
        match framed(chunk@, status, stream@) {
            Some(payload) => res matches Ok(block) && block.original_size == chunk@.len()
                && block.data@ == payload,
            None => res == Err::<MSZipBlock, ErrorKind>(ErrorKind::Compression),
        },
        res matches Ok(block) ==> has_signature(block.data@) && block.data@.len()
            <= block.original_size + 12,
{
    let mut data: Vec<u8> = Vec::new();
    data.push(0x43);
    data.push(0x4B);
    assert(data@ =~= signature());
    match status {
        StreamStatus::Failed => {
            return Err(ErrorKind::Compression);
        },
        StreamStatus::StreamEnd => {
            if stream.len() <= chunk.len() + 10 {
                push_bytes(&mut data, stream);
                return Ok(MSZipBlock { original_size: chunk.len(), data });
            }
        },
        _ => {},
    }
    let len: u16 = chunk.len() as u16;
    data.push(1);
    push_le16(&mut data, len);
    push_le16(&mut data, 65535 - len);
    push_bytes(&mut data, chunk);
    assert(data@ =~= signature() + stored_stream(chunk@));
    Ok(MSZipBlock { original_size: chunk.len(), data })
}

/// Runs one chunk through the compression stream, which stands at its start
/// with the chunk before as its window: asks for the whole DEFLATE stream of
/// `chunk` in `dst`. Returns how the stream ended and how many bytes of `dst`
/// it wrote.
fn run_compress(data: &mut Compress, chunk: &[u8], dst: &mut Vec<u8>) -> (done: (
    StreamStatus,
    usize,
))
    requires
        deflate_seed(*old(data)) is Some,
    ensures
        final(dst)@.len() == old(dst)@.len(),
        done.1 <= final(dst)@.len(),
        done.0 == deflate_result(
            deflate_level(*old(data)),
            deflate_seed(*old(data)).unwrap(),
            chunk@,
            old(dst)@.len() as int,
        ).0,
        final(dst)@.subrange(0, done.1 as int) == deflate_result(
            deflate_level(*old(data)),
            deflate_seed(*old(data)).unwrap(),
            chunk@,
            old(dst)@.len() as int,
        ).1,
{
    let room: usize = dst.len();
    let (status, total) = deflate_finish(data, chunk, dst);
    assert(total <= room);
    (status, total as usize)
}

/// A compression stream of the given level that stands at its start with
/// `dictionary` as its window: the reset that keeps the dictionary.
fn primed_compressor(level: u32, dictionary: &[u8]) -> (data: Compress)
    requires
        level <= 9,
        dictionary@.len() <= MAX_CHUNK,
    ensures
        deflate_level(data) == level,
        deflate_seed(data) == Some(dictionary@),
{
    let mut data = new_compressor(level);
    if dictionary.len() > 0 {
        let installed = set_deflate_dictionary(&mut data, dictionary);
        assert(installed);
    } else {
        assert(dictionary@ =~= Seq::<u8>::empty());
    }
    data
}

/// What an encoder stands for: the input it was given, how much of it has
/// gone into blocks, and its compression level.
pub struct EncoderView {
    /// The whole input.
    pub input: Seq<u8>,
    /// The number of bytes of the input that earlier blocks hold.
    pub consumed: nat,
    /// The compression level, from 0 to 9.
    pub level: int,
}

impl EncoderView {
    /// Every block but the last holds a full chunk, so the encoder stands at
    /// a multiple of the chunk size or at the end of the input.
    pub open spec fn valid(self) -> bool {
        &&& self.consumed <= self.input.len()
        &&& (self.consumed % (MAX_CHUNK as nat) == 0 || self.consumed == self.input.len())
    }

    /// The chunk that the next block will hold; empty at the end of the input.
    pub open spec fn next_chunk(self) -> Seq<u8> {
        chunk_from(self.input, self.consumed as int)
    }

    /// The bytes of the next block: empty at the end of the input, else the
    /// payload of the next chunk with the chunk before it as dictionary;
    /// `None` where the DEFLATE layer fails on it.
    pub open spec fn next_block(self) -> Option<Seq<u8>> {
        if self.consumed >= self.input.len() {
            Some(Seq::<u8>::empty())
        } else {
            block_payload(
                self.level,
                dictionary_before(self.input, self.consumed as int),
                self.next_chunk(),
            )
        }
    }
}

/// An MSZIP compressor.
///
/// This structure holds the data to compress and produces MSZIP-compressed
/// blocks from it, one chunk at a time.
pub struct MSZipEncoder {
    input: Vec<u8>,
    position: usize,
    level: u32,
    compress: Compress,
    out_buffer: Vec<u8>,
}

impl View for MSZipEncoder {
    type V = EncoderView;

    closed spec fn view(&self) -> EncoderView {
        EncoderView {
            input: self.input@,
            consumed: self.position as nat,
            level: self.level as int,
        }
    }
}

impl MSZipEncoder {
    /// What holds of every encoder that `new` made, between any two calls: it
    /// stands at a chunk boundary or at the end, it owns its output buffer,
    /// and while input is left its compression stream stands at its start
    /// with the chunk before as its window.
    pub closed spec fn well_formed(&self) -> bool {
        &&& self@.valid()
        &&& self.level <= 9
        &&& self.out_buffer@.len() == MAX_STREAM_SIZE
        &&& self.position < self.input@.len() ==> {
            &&& deflate_level(self.compress) == self.level
            &&& deflate_seed(self.compress) == Some(
                dictionary_before(self.input@, self.position as int),
            )
        }
    }

    /// A well-formed encoder stands at a chunk boundary or at the end.
    pub proof fn lemma_well_formed_is_valid(&self)
        requires
            self.well_formed(),
        ensures
            self@.valid(),
    {
    }

    /// Creates a new encoder which will compress `input` at the given level
    /// (0 for none to 9 for best) and emit compressed blocks when `read_block`
    /// is called.
    pub fn new(input: Vec<u8>, level: u32) -> (encoder: MSZipEncoder)
        requires
            level <= 9,
        ensures
            encoder.well_formed(),
            encoder@ == (EncoderView { input: input@, consumed: 0, level: level as int }),
    {
        let mut out_buffer: Vec<u8> = Vec::new();
        out_buffer.resize(MAX_STREAM_SIZE, 0);
        let compress = new_compressor(level);
        assert(dictionary_before(input@, 0) =~= Seq::<u8>::empty());
        MSZipEncoder { input, position: 0, level, compress, out_buffer }
    }

    /// Reads a single MSZIP block of compressed data.
    ///
    /// At the end of the input the block is empty, with an original size of
    /// zero, however often this is called. Before that the block holds the
    /// next chunk, and the encoder moves past it. A failure of the DEFLATE
    /// layer is a compression error and leaves the encoder where it stood.
    pub fn read_block(&mut self) -> (res: Result<MSZipBlock, ErrorKind>)
        requires
            old(self).well_formed(),
        ensures
            final(self).well_formed(),
            final(self)@.input == old(self)@.input,
            final(self)@.level == old(self)@.level,
            match old(self)@.next_block() {
                Some(payload) => res matches Ok(block) && block.data@ == payload
                    && block.original_size == old(self)@.next_chunk().len()
                    && final(self)@.consumed == old(self)@.consumed + block.original_size,
                None => res == Err::<MSZipBlock, ErrorKind>(ErrorKind::Compression)
                    && final(self)@.consumed == old(self)@.consumed,
            },
            res matches Ok(block) ==> block.original_size <= MAX_CHUNK && block.data@.len()
                <= block.original_size + 12 && (block.original_size == 0 <==> block.data@.len()
                == 0),
    {
        let remaining: usize = self.input.len() - self.position;
        if remaining == 0 {
            return Ok(MSZipBlock { original_size: 0, data: Vec::new() });
        }
        let size: usize = if remaining < MAX_CHUNK {
            remaining
        } else {
            MAX_CHUNK
        };
        let start: usize = self.position;
        let end: usize = start + size;
        let chunk = slice_subrange(self.input.as_slice(), start, end);
        let (status, written) = run_compress(&mut self.compress, chunk, &mut self.out_buffer);
        let stream = slice_subrange(self.out_buffer.as_slice(), 0, written);
        let framed = frame_block(chunk, status, stream);
        // Reset the compressor for the next block, but keep its dictionary:
        // the window of the next stream is the chunk that it follows.
        match framed {
            Ok(block) => {
                if end < self.input.len() {
                    assert(chunk@ =~= dictionary_before(self.input@, end as int));
                    self.compress = primed_compressor(self.level, chunk);
                }
                self.position = end;
                Ok(block)
            },
            Err(e) => {
                let before: usize = if start >= MAX_CHUNK {
                    start - MAX_CHUNK
                } else {
                    0
                };
                let dictionary = slice_subrange(self.input.as_slice(), before, start);
                self.compress = primed_compressor(self.level, dictionary);
                Err(e)
            },
        }
    }
}

/// What a decoder stands for: the bytes it has written so far, and the
/// dictionary that the next block is decoded against.
pub struct DecoderView {
    /// All chunks decoded so far, in order.
    pub written: Seq<u8>,
    /// The bytes of the last chunk; empty before the first block.
    pub dictionary: Seq<u8>,
}

impl DecoderView {
    /// A decoder that has seen no block and written nothing.
    pub open spec fn fresh() -> DecoderView {
        DecoderView { written: Seq::<u8>::empty(), dictionary: Seq::<u8>::empty() }
    }
}

/// An MSZIP decompressor.
///
/// When MSZIP-compressed blocks are passed to this structure's `write_block`
/// method, the data will be decompressed and appended to the bytes that
/// `finish` hands out.
pub struct MSZipDecoder {
    writer: Vec<u8>,
    decompress: Decompress,
    buffer: Vec<u8>,
    dictionary: Vec<u8>,
}

impl View for MSZipDecoder {
    type V = DecoderView;

    closed spec fn view(&self) -> DecoderView {
        DecoderView { written: self.writer@, dictionary: self.dictionary@ }
    }
}

impl MSZipDecoder {
    /// What holds of every decoder that `new` made, between any two calls: it
    /// owns its scratch buffer, and its decompression stream has been reset
    /// and given the bytes of the last chunk as its window.
    pub closed spec fn well_formed(&self) -> bool {
        &&& self.buffer@.len() == MAX_CHUNK
        &&& self.dictionary@.len() <= MAX_CHUNK
        &&& inflate_seed(self.decompress) == Some(self.dictionary@)
    }

    /// Creates a new decoder which will append uncompressed data to `writer`.
    pub fn new(writer: Vec<u8>) -> (decoder: MSZipDecoder)
        ensures
            decoder.well_formed(),
            decoder@ == (DecoderView { written: writer@, dictionary: Seq::<u8>::empty() }),
    {
        let mut buffer: Vec<u8> = Vec::new();
        buffer.resize(MAX_CHUNK, 0);
        MSZipDecoder { writer, decompress: new_decompressor(), buffer, dictionary: Vec::new() }
    }

    /// Decompresses the single MSZIP block `block`.
    ///
    /// A block of more than 32780 bytes, or one that does not begin with
    /// `CK`, is refused before anything is decoded. The rest of the block is
    /// decoded against the bytes of the block before it. A block that is
    /// refused or fails to decode leaves the decoder as it was; one that
    /// decodes is appended to the output and becomes the next dictionary.
    pub fn write_block(&mut self, block: &[u8]) -> (res: Result<(), ErrorKind>)
        requires
            old(self).well_formed(),
        ensures
            final(self).well_formed(),
            match decode_block(old(self)@.dictionary, block@) {
                Ok(chunk) => res == Ok::<(), ErrorKind>(()) && final(self)@ == (DecoderView {
                    written: old(self)@.written + chunk,
                    dictionary: chunk,
                }),
                Err(e) => res == Err::<(), ErrorKind>(e) && final(self)@ == old(self)@,
            },
    {
        if block.len() > MAX_BLOCK_SIZE {
            return Err(ErrorKind::BlockSizeTooLarge);
        }
        if block.len() < 2 || block[0] != 0x43 || block[1] != 0x4B {
            return Err(ErrorKind::InvalidBlockSignature);
        }
        let stream = slice_subrange(block, 2, block.len());
        assert(stream@ =~= block@.skip(2));
        let (status, written) = run_decompress(&mut self.decompress, stream, &mut self.buffer);
        let res = check_stream_end(status);
        if res.is_ok() {
            let decompressed = slice_subrange(self.buffer.as_slice(), 0, written);
            push_bytes(&mut self.writer, decompressed);
            self.dictionary.clear();
            push_bytes(&mut self.dictionary, decompressed);
            assert(self.dictionary@ =~= decompressed@);
        }
        // Reset the decompressor for the next block, and set its dictionary
        // to the bytes of the last chunk.
        reset_decompressor(&mut self.decompress);
        if self.dictionary.len() > 0 {
            let installed = set_inflate_dictionary(&mut self.decompress, self.dictionary.as_slice());
            assert(installed);
        } else {
            assert(self.dictionary@ =~= Seq::<u8>::empty());
        }
        res
    }

    /// Returns the bytes written: what the decoder was made with, and after
    /// it every chunk decoded, in order.
    pub fn finish(self) -> (res: Result<Vec<u8>, ErrorKind>)
        ensures
            res matches Ok(writer) && writer@ == self@.written,
    {
        Ok(self.writer)
    }
}

/// Runs one block through the decompression stream, which stands at its
/// start with the chunk before as its window: asks for all the bytes of
/// `stream` in `dst`. Returns how the stream ended and how many bytes of `dst`
/// it wrote.
fn run_decompress(data: &mut Decompress, stream: &[u8], dst: &mut Vec<u8>) -> (done: (
    StreamStatus,
    usize,
))
    requires
        inflate_seed(*old(data)) is Some,
    ensures
        final(dst)@.len() == old(dst)@.len(),
        done.1 <= final(dst)@.len(),
        done.0 == inflate_result(
            inflate_seed(*old(data)).unwrap(),
            stream@,
            old(dst)@.len() as int,
        ).0,
        final(dst)@.subrange(0, done.1 as int) == inflate_result(
            inflate_seed(*old(data)).unwrap(),
            stream@,
            old(dst)@.len() as int,
        ).1,
{
    let room: usize = dst.len();
    let (status, total) = inflate_finish(data, stream, dst);
    assert(total <= room);
    (status, total as usize)
}

/// Where chunk number `k` lies in the input, and how long it is: every chunk
/// of an input has between 1 and 32768 bytes, and all but the last are full.
pub proof fn lemma_chunk_bounds(input: Seq<u8>, k: int)
    requires
        0 <= k < chunk_count(input.len()),
    ensures
        k * MAX_CHUNK < input.len(),
        1 <= chunk_at(input, k).len() <= MAX_CHUNK,
        k + 1 < chunk_count(input.len()) ==> chunk_at(input, k).len() == MAX_CHUNK,
        k + 1 == chunk_count(input.len()) ==> k * MAX_CHUNK + chunk_at(input, k).len()
            == input.len(),
        chunk_at(input, k) == input.subrange(
            k * MAX_CHUNK,
            k * MAX_CHUNK + chunk_at(input, k).len(),
        ),
        dictionary_at(input, k).len() <= MAX_CHUNK,
        k > 0 ==> dictionary_at(input, k) == chunk_at(input, k - 1),
        k == 0 ==> dictionary_at(input, k) == Seq::<u8>::empty(),
{
    if k > 0 {
        assert(dictionary_at(input, k) =~= chunk_at(input, k - 1));
    } else {
        assert(dictionary_at(input, k) =~= Seq::<u8>::empty());
    }
}

/// The chunks cover the input: the number of chunks is the least whose full
/// size reaches the end of the input.
pub proof fn lemma_chunk_count(len: nat)
    ensures
        chunk_count(len) * MAX_CHUNK >= len,
        len > 0 ==> (chunk_count(len) - 1) * MAX_CHUNK < len,
        len == 0 <==> chunk_count(len) == 0,
{
}

/// Every block that the encoder makes begins with the signature and is at
/// most twelve bytes longer than its chunk, so no longer than 32780 bytes.
pub proof fn lemma_block_shape(level: int, input: Seq<u8>, k: int)
    requires
        0 <= k < chunk_count(input.len()),
    ensures
        block_at(level, input, k) matches Some(block) ==> has_signature(block) && block.len()
            <= chunk_at(input, k).len() + 12 && block.len() <= MAX_BLOCK_SIZE,
{
    lemma_chunk_bounds(input, k);
}

/// A block of more than 32780 bytes is refused for its size, whatever it
/// holds and whatever came before it.
pub proof fn lemma_oversized_block_is_refused(dictionary: Seq<u8>, block: Seq<u8>)
    requires
        block.len() > MAX_BLOCK_SIZE,
    ensures
        decode_block(dictionary, block) == Err::<Seq<u8>, ErrorKind>(
            ErrorKind::BlockSizeTooLarge,
        ),
{
}

/// A block that does not begin with `CK` is refused for its signature,
/// unless it was refused for its size before its first bytes were looked at.
pub proof fn lemma_unsigned_block_is_refused(dictionary: Seq<u8>, block: Seq<u8>)
    requires
        block.len() <= MAX_BLOCK_SIZE,
        block.len() < 2 || block[0] != 0x43 || block[1] != 0x4B,
    ensures
        decode_block(dictionary, block) == Err::<Seq<u8>, ErrorKind>(
            ErrorKind::InvalidBlockSignature,
        ),
{
}

/// What an encoder that stands at the start of chunk number `k` returns next
/// is block number `k` of its input.
pub proof fn lemma_next_block(encoder: EncoderView, k: int)
    requires
        0 <= k < chunk_count(encoder.input.len()),
        encoder.consumed == k * MAX_CHUNK,
    ensures
        encoder.next_chunk() == chunk_at(encoder.input, k),
        encoder.next_block() == block_at(encoder.level, encoder.input, k),
{
    lemma_chunk_bounds(encoder.input, k);
}

/// Encoding is a function of the input, the position and the level: two
/// encoders that agree on these return the same block next. The cut into
/// chunks does not depend on the level at all.
pub proof fn lemma_encoding_is_deterministic(a: EncoderView, b: EncoderView)
    requires
        a.input == b.input,
        a.consumed == b.consumed,
    ensures
        a.next_chunk() == b.next_chunk(),
        a.level == b.level ==> a.next_block() == b.next_block(),
        encoded(a.level, a.input).len() == encoded(b.level, b.input).len(),
{
}

/// The state of a decoder that has restored the first `k` chunks of `input`.
pub open spec fn decoder_after(input: Seq<u8>, k: int) -> DecoderView {
    DecoderView {
        written: if k * MAX_CHUNK <= input.len() {
            input.subrange(0, k * MAX_CHUNK)
        } else {
            input
        },
        dictionary: if k == 0 {
            Seq::<u8>::empty()
        } else {
            chunk_at(input, k - 1)
        },
    }
}

/// Whether the DEFLATE layer restores every chunk of `input` from the block
/// that the encoder makes of it, given the chunk before it as dictionary.
pub open spec fn inflate_restores_all(level: int, input: Seq<u8>) -> bool {
    forall|k: int|
        0 <= k < chunk_count(input.len()) ==> inflate_restores(
            dictionary_at(input, k),
            chunk_at(input, k),
            #[trigger] block_at(level, input, k).unwrap(),
        )
}

proof fn lemma_decoding_from(level: int, input: Seq<u8>, k: int)
    requires
        encodable(level, input),
        inflate_restores_all(level, input),
        0 <= k <= chunk_count(input.len()),
    ensures
        decoded(decoder_after(input, k), encoded(level, input).skip(k)) == Ok::<
            DecoderView,
            ErrorKind,
        >(decoder_after(input, chunk_count(input.len()) as int)),
    decreases chunk_count(input.len()) - k,
{
    let count = chunk_count(input.len()) as int;
    let blocks = encoded(level, input).skip(k);
    if k < count {
        lemma_chunk_bounds(input, k);
        lemma_block_shape(level, input, k);
        let block = block_at(level, input, k).unwrap();
        let chunk = chunk_at(input, k);
        assert(blocks.first() == block);
        assert(decoder_after(input, k).dictionary == dictionary_at(input, k));
        assert(decode_block(dictionary_at(input, k), block) == Ok::<Seq<u8>, ErrorKind>(chunk));
        let next = DecoderView {
            written: decoder_after(input, k).written + chunk,
            dictionary: chunk,
        };
        assert(next.written =~= decoder_after(input, k + 1).written);
        assert(next == decoder_after(input, k + 1));
        assert(blocks.drop_first() =~= encoded(level, input).skip(k + 1));
        lemma_decoding_from(level, input, k + 1);
    }
}

/// Decoding what was encoded gives the input back, as far as the DEFLATE
/// layer does its part: if it fails on no chunk, and restores each chunk from
/// the block made of it when given the same dictionary, then a new decoder
/// that takes all blocks in order has written exactly the input.
///
/// What is proved here is the codec's own share: that encoder and decoder cut
/// the stream alike, frame and check each block alike, and hand the DEFLATE
/// layer the same dictionary for the same block.
pub proof fn lemma_decoding_restores_what_inflate_restores(level: int, input: Seq<u8>)
    ensures
        encodable(level, input) && inflate_restores_all(level, input) ==> (decoded(
            DecoderView::fresh(),
            encoded(level, input),
        ) matches Ok(end) && end.written == input),
{
    if encodable(level, input) && inflate_restores_all(level, input) {
        lemma_decoding_from(level, input, 0);
        lemma_chunk_count(input.len());
        assert(encoded(level, input).skip(0) =~= encoded(level, input));
        assert(decoder_after(input, 0).written =~= Seq::<u8>::empty());
        assert(decoder_after(input, 0) == DecoderView::fresh());
        assert(decoder_after(input, chunk_count(input.len()) as int).written =~= input);
    }
}

} // verus!
