//! Little-endian integers as bytes, the only number format of a cabinet.

use vstd::prelude::*;

verus! {

/// The two bytes of `x`, low byte first.
pub open spec fn le16(x: u16) -> Seq<u8> {
    seq![(x % 256) as u8, (x / 256) as u8]
}

/// The four bytes of `x`, low byte first.
pub open spec fn le32(x: u32) -> Seq<u8> {
    seq![
        (x % 256) as u8,
        (x / 256 % 256) as u8,
        (x / 65536 % 256) as u8,
        (x / 16777216) as u8,
    ]
}

/// The number that the two bytes of `bytes` from `at` on spell, low byte first.
pub open spec fn read_le16(bytes: Seq<u8>, at: int) -> int {
    bytes[at] + 256 * bytes[at + 1]
}

/// The number that the four bytes of `bytes` from `at` on spell, low byte first.
pub open spec fn read_le32(bytes: Seq<u8>, at: int) -> int {
    bytes[at] + 256 * bytes[at + 1] + 65536 * bytes[at + 2] + 16777216 * bytes[at + 3]
}

/// The two bytes of a number spell that number.
pub proof fn lemma_le16_reads_back(x: u16)
    ensures
        le16(x).len() == 2,
        read_le16(le16(x), 0) == x,
{
}

/// The four bytes of a number spell that number.
pub proof fn lemma_le32_reads_back(x: u32)
    ensures
        le32(x).len() == 4,
        read_le32(le32(x), 0) == x,
{
}

/// Where the two bytes of `x` stand in `bytes` at `at`, `x` is read there.
pub proof fn lemma_le16_at(bytes: Seq<u8>, at: int, x: u16)
    requires
        0 <= at,
        at + 2 <= bytes.len(),
        bytes.subrange(at, at + 2) == le16(x),
    ensures
        read_le16(bytes, at) == x,
{
    let field = bytes.subrange(at, at + 2);
    assert(bytes[at] == field[0]);
    assert(bytes[at + 1] == field[1]);
}

/// Where the four bytes of `x` stand in `bytes` at `at`, `x` is read there.
pub proof fn lemma_le32_at(bytes: Seq<u8>, at: int, x: u32)
    requires
        0 <= at,
        at + 4 <= bytes.len(),
        bytes.subrange(at, at + 4) == le32(x),
    ensures
        read_le32(bytes, at) == x,
{
    let field = bytes.subrange(at, at + 4);
    assert(bytes[at] == field[0]);
    assert(bytes[at + 1] == field[1]);
    assert(bytes[at + 2] == field[2]);
    assert(bytes[at + 3] == field[3]);
}

/// Appends `x` to `out`, low byte first.
pub fn push_le16(out: &mut Vec<u8>, x: u16)
    ensures
        final(out)@ == old(out)@ + le16(x),
{
    out.push((x % 256) as u8);
    out.push((x / 256) as u8);
    assert(out@ =~= old(out)@ + le16(x));
}

/// Appends `x` to `out`, low byte first.
pub fn push_le32(out: &mut Vec<u8>, x: u32)
    ensures
        final(out)@ == old(out)@ + le32(x),
{
    out.push((x % 256) as u8);
    out.push((x / 256 % 256) as u8);
    out.push((x / 65536 % 256) as u8);
    out.push((x / 16777216) as u8);
    assert(out@ =~= old(out)@ + le32(x));
}

/// Appends every byte of `bytes` to `out`.
pub fn push_bytes(out: &mut Vec<u8>, bytes: &[u8])
    ensures
        final(out)@ == old(out)@ + bytes@,
{
    out.extend_from_slice(bytes);
    assert(out@ =~= old(out)@ + bytes@);
}

/// Replaces the bytes of `out` from `at` on by `bytes`, keeping the length.
pub fn overwrite(out: &mut Vec<u8>, at: usize, bytes: &[u8])
    requires
        at + bytes@.len() <= old(out)@.len(),
    ensures
        final(out)@ == old(out)@.subrange(0, at as int) + bytes@ + old(out)@.subrange(
            at + bytes@.len(),
            old(out)@.len() as int,
        ),
{
    let len: usize = out.len();
    let mut i: usize = 0;
    while i < bytes.len()
        invariant
            i <= bytes@.len(),
            at + bytes@.len() <= len,
            out@.len() == len,
            len == old(out)@.len(),
            forall|j: int| 0 <= j < at ==> out@[j] == old(out)@[j],
            forall|j: int| at <= j < at + i ==> out@[j] == bytes@[j - at],
            forall|j: int| at + i <= j < out@.len() ==> out@[j] == old(out)@[j],
        decreases bytes@.len() - i,
    {
        out.set(at + i, bytes[i]);
        i += 1;
    }
    assert(out@ =~= old(out)@.subrange(0, at as int) + bytes@ + old(out)@.subrange(
        at + bytes@.len(),
        old(out)@.len() as int,
    ));
}

} // verus!
