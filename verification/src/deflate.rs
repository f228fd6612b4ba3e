//! The DEFLATE primitive: raw compression and decompression streams of
//! `flate2`, with a preset dictionary.
//!
//! Nothing in this module is proved. It says what the codec relies on: a
//! stream that was just made or reset starts from an empty window, a
//! dictionary can be installed into such a stream, and what one call with
//! "finish" semantics then returns depends on the level, the dictionary, the
//! input and the room for output alone.
//!
//! A compression stream is never reset here. Where the codec needs a stream
//! at its start again it makes a new one: with output still pending, a reset
//! of a compression stream does not give back the room that the pending bytes
//! took.

use vstd::prelude::*;
use flate2::{Compress, Compression, Decompress, FlushCompress, FlushDecompress, Status};

verus! {

/// A raw DEFLATE compression stream.
#[verifier::external_type_specification]
#[verifier::external_body]
pub struct ExCompress(flate2::Compress);

/// A raw DEFLATE decompression stream.
#[verifier::external_type_specification]
#[verifier::external_body]
pub struct ExDecompress(flate2::Decompress);

/// How one call on a stream ended.
#[derive(Clone, Copy, Debug, PartialEq, Eq, Structural)]
pub enum StreamStatus {
    /// Progress was made, and the stream is not finished: more input or more
    /// room for output is needed (`flate2::Status::Ok`).
    NeedsMore,
    /// No progress was possible with the input and the room given
    /// (`flate2::Status::BufError`).
    NoProgress,
    /// The stream is complete: all input was used and all output written.
    StreamEnd,
    /// The stream reported an error.
    Failed,
}

/// The compression level that a compression stream was made with.
pub uninterp spec fn deflate_level(stream: Compress) -> int;

/// The preset dictionary of a compression stream that stands at its start:
/// `Some` of the dictionary (empty in a new stream) while nothing has been fed
/// to the stream, `None` once it is under way.
pub uninterp spec fn deflate_seed(stream: Compress) -> Option<Seq<u8>>;

/// What a compression stream of the given level returns when it stands at its
/// start with `dictionary` and is asked to finish `input` in one call with
/// `room` bytes for output: how the call ended and the bytes it wrote.
pub uninterp spec fn deflate_result(
    level: int,
    dictionary: Seq<u8>,
    input: Seq<u8>,
    room: int,
) -> (StreamStatus, Seq<u8>);

/// The preset dictionary of a decompression stream that stands at its start:
/// `Some` of the dictionary (empty in a new stream and after a reset) while
/// nothing has been fed to the stream, `None` once it is under way.
pub uninterp spec fn inflate_seed(stream: Decompress) -> Option<Seq<u8>>;

/// What a decompression stream returns when it stands at its start with
/// `dictionary` and is asked to finish `input` in one call with `room` bytes
/// for output: how the call ended and the bytes it wrote.
pub uninterp spec fn inflate_result(dictionary: Seq<u8>, input: Seq<u8>, room: int) -> (
    StreamStatus,
    Seq<u8>,
);

/// `flate2::Compress::new` for a raw stream (no zlib header) of the given
/// level. The call panics on a level above 9, which `requires` leaves out.
/// Claimed: the stream has the level it was made with, and stands at its
/// start with no dictionary.
#[verifier::external_body]
pub(crate) fn new_compressor(level: u32) -> (stream: Compress)
    requires
        level <= 9,
    ensures
        deflate_level(stream) == level,
        deflate_seed(stream) == Some(Seq::<u8>::empty()),
{
    Compress::new(Compression::new(level), false)
}

/// `flate2::Compress::set_dictionary`. Claimed: it keeps the level; on a raw
/// stream that was just made it succeeds (the call fails only on a gzip
/// stream, on a zlib stream under way, or while input is buffered), and the
/// stream then stands at its start with this dictionary.
#[verifier::external_body]
pub(crate) fn set_deflate_dictionary(stream: &mut Compress, dictionary: &[u8]) -> (installed: bool)
    requires
        0 < dictionary@.len() <= 32768,
    ensures
        deflate_level(*final(stream)) == deflate_level(*old(stream)),
        deflate_seed(*old(stream)) == Some(Seq::<u8>::empty()) ==> installed && deflate_seed(
            *final(stream),
        ) == Some(dictionary@),
{
    stream.set_dictionary(dictionary).is_ok()
}

/// `flate2::Compress::compress` with `FlushCompress::Finish`, writing from the
/// start of `output`, followed by `flate2::Compress::total_out`. Claimed: the
/// length of `output` stays; on a stream at its start the status and the
/// bytes written are `deflate_result`, and the count returned is the number of
/// those bytes (the counter starts at zero and does not count the
/// dictionary).
#[verifier::external_body]
pub(crate) fn deflate_finish(stream: &mut Compress, input: &[u8], output: &mut Vec<u8>) -> (done: (
    StreamStatus,
    u64,
))
    ensures
        final(output)@.len() == old(output)@.len(),
        deflate_seed(*old(stream)) matches Some(dictionary) ==> {
            let named = deflate_result(
                deflate_level(*old(stream)),
                dictionary,
                input@,
                old(output)@.len() as int,
            );
            &&& done.0 == named.0
            &&& done.1 == named.1.len()
            &&& done.1 <= old(output)@.len()
            &&& final(output)@.subrange(0, done.1 as int) == named.1
        },
{
    let status = match stream.compress(input, output.as_mut_slice(), FlushCompress::Finish) {
        Ok(Status::Ok) => StreamStatus::NeedsMore,
        Ok(Status::BufError) => StreamStatus::NoProgress,
        Ok(Status::StreamEnd) => StreamStatus::StreamEnd,
        Err(_) => StreamStatus::Failed,
    };
    (status, stream.total_out())
}

/// `flate2::Decompress::new` for a raw stream (no zlib header). Claimed: the
/// stream stands at its start with no dictionary.
#[verifier::external_body]
pub(crate) fn new_decompressor() -> (stream: Decompress)
    ensures
        inflate_seed(stream) == Some(Seq::<u8>::empty()),
{
    Decompress::new(false)
}

/// `flate2::Decompress::reset` for a raw stream. Claimed: the stream is as if
/// newly made, so it stands at its start with no dictionary.
#[verifier::external_body]
pub(crate) fn reset_decompressor(stream: &mut Decompress)
    ensures
        inflate_seed(*final(stream)) == Some(Seq::<u8>::empty()),
{
    stream.reset(false)
}

/// `flate2::Decompress::set_dictionary`. Claimed: on a raw stream that was
/// just reset it succeeds (a raw stream takes a dictionary at any time), and
/// the stream then stands at its start with this dictionary.
#[verifier::external_body]
pub(crate) fn set_inflate_dictionary(stream: &mut Decompress, dictionary: &[u8]) -> (installed:
    bool)
    requires
        0 < dictionary@.len() <= 32768,
    ensures
        inflate_seed(*old(stream)) == Some(Seq::<u8>::empty()) ==> installed && inflate_seed(
            *final(stream),
        ) == Some(dictionary@),
{
    stream.set_dictionary(dictionary).is_ok()
}

/// `flate2::Decompress::decompress` with `FlushDecompress::Finish`, writing
/// from the start of `output`, followed by `flate2::Decompress::total_out`.
/// Claimed: the length of `output` stays; on a stream at its start the status
/// and the bytes written are `inflate_result`, and the count returned is the
/// number of those bytes (a reset sets the counter to zero, and it does not
/// count the dictionary).
#[verifier::external_body]
pub(crate) fn inflate_finish(stream: &mut Decompress, input: &[u8], output: &mut Vec<u8>) -> (done:
    (StreamStatus, u64))
    ensures
        final(output)@.len() == old(output)@.len(),
        inflate_seed(*old(stream)) matches Some(dictionary) ==> {
            let named = inflate_result(dictionary, input@, old(output)@.len() as int);
            &&& done.0 == named.0
            &&& done.1 == named.1.len()
            &&& done.1 <= old(output)@.len()
            &&& final(output)@.subrange(0, done.1 as int) == named.1
        },
{
    let status = match stream.decompress(input, output.as_mut_slice(), FlushDecompress::Finish) {
        Ok(Status::Ok) => StreamStatus::NeedsMore,
        Ok(Status::BufError) => StreamStatus::NoProgress,
        Ok(Status::StreamEnd) => StreamStatus::StreamEnd,
        Err(_) => StreamStatus::Failed,
    };
    (status, stream.total_out())
}

} // verus!
