//! The little-endian bit reader of the `bitter` crate, as this library uses it:
//! its state is the sequence of bits not yet consumed and the number of them
//! that sit in its lookahead buffer.
use crate::bitstream::bits_of_bytes;
use crate::bitstream::bits_value;
use crate::bitstream::bytes_of_bits;
use bitter::BitReader;
use bitter::LittleEndianReader;
use vstd::prelude::*;

verus! {

#[verifier::external_type_specification]
#[verifier::external_body]
pub struct ExLittleEndianReader<'a>(LittleEndianReader<'a>);

/// The bits that the reader has not consumed yet, in stream order.
pub uninterp spec fn unread_bits(reader: LittleEndianReader) -> Seq<bool>;

/// How many of the unread bits the reader holds in its lookahead buffer.
pub uninterp spec fn lookahead_len(reader: LittleEndianReader) -> nat;

/// What holds of every reader state: the lookahead holds at most 63 bits and
/// never more than are left.
pub open spec fn reader_wf(reader: LittleEndianReader) -> bool {
    &&& lookahead_len(reader) <= 63
    &&& lookahead_len(reader) <= unread_bits(reader).len()
}

/// The lookahead a refill leaves: a full lookahead (56 bits or more) stays
/// as it is; otherwise it grows by whole bytes to 56 bits plus the odd bits it
/// already held, or to all that are left if fewer remain.
pub open spec fn lookahead_after_refill(lookahead: nat, remaining: nat) -> nat {
    if lookahead >= 56 {
        lookahead
    } else if 56 + lookahead % 8 <= remaining {
        56 + lookahead % 8
    } else {
        remaining
    }
}

/// `LittleEndianReader::new`: a reader over all bits of `data`, with an empty
/// lookahead buffer.
#[verifier::external_body]
pub(crate) fn reader_new<'a>(data: &'a [u8]) -> (reader: LittleEndianReader<'a>)
    ensures
        unread_bits(reader) == bits_of_bytes(data@),
        lookahead_len(reader) == 0,
{
    LittleEndianReader::new(data)
}

/// `BitReader::refill_lookahead`: consumes nothing and sets the lookahead as
/// `lookahead_after_refill` says.
#[verifier::external_body]
pub(crate) fn reader_refill_lookahead(reader: &mut LittleEndianReader)
    requires
        reader_wf(*old(reader)),
    ensures
        unread_bits(*final(reader)) == unread_bits(*old(reader)),
        lookahead_len(*final(reader)) == lookahead_after_refill(
            lookahead_len(*old(reader)),
            unread_bits(*old(reader)).len(),
        ),
        reader_wf(*final(reader)),
{
    reader.refill_lookahead()
}

/// `BitReader::lookahead_bits`: the number of bits in the lookahead buffer.
#[verifier::external_body]
pub(crate) fn reader_lookahead_bits(reader: &LittleEndianReader) -> (n: u32)
    ensures
        n == lookahead_len(*reader),
{
    reader.lookahead_bits()
}

/// `BitReader::peek`: the value of the next `count` bits, which must all be in
/// the lookahead buffer; nothing is consumed.
#[verifier::external_body]
pub(crate) fn reader_peek(reader: &LittleEndianReader, count: u32) -> (value: u64)
    requires
        reader_wf(*reader),
        count <= lookahead_len(*reader),
    ensures
        value == bits_value(unread_bits(*reader), count as nat),
{
    reader.peek(count)
}

/// `BitReader::consume`: drops the next `count` bits, which must all be in the
/// lookahead buffer.
#[verifier::external_body]
pub(crate) fn reader_consume(reader: &mut LittleEndianReader, count: u32)
    requires
        reader_wf(*old(reader)),
        count <= lookahead_len(*old(reader)),
    ensures
        unread_bits(*final(reader)) == unread_bits(*old(reader)).skip(count as int),
        lookahead_len(*final(reader)) == lookahead_len(*old(reader)) - count,
        reader_wf(*final(reader)),
{
    reader.consume(count)
}

/// `BitReader::bits_remaining`: the number of unread bits.
#[verifier::external_body]
pub(crate) fn reader_bits_remaining(reader: &LittleEndianReader) -> (n: Option<usize>)
    requires
        unread_bits(*reader).len() <= usize::MAX,
    ensures
        n == Some(unread_bits(*reader).len() as usize),
{
    reader.bits_remaining()
}

/// `BitReader::read_bytes` on the first `n` bytes of `buf`: when at least
/// `8 * n` bits are left they are read, byte by byte, into that prefix and
/// consumed; otherwise neither the reader nor the buffer changes.
#[verifier::external_body]
pub(crate) fn reader_read_bytes(reader: &mut LittleEndianReader, buf: &mut [u8], n: usize) -> (ok:
    bool)
    requires
        reader_wf(*old(reader)),
        n <= old(buf)@.len(),
    ensures
        ok == (8 * n <= unread_bits(*old(reader)).len()),
        ok ==> final(buf)@ == bytes_of_bits(unread_bits(*old(reader))).take(n as int) + old(
            buf,
        )@.skip(n as int),
        ok ==> unread_bits(*final(reader)) == unread_bits(*old(reader)).skip(8 * n),
        !ok ==> final(buf)@ == old(buf)@,
        !ok ==> *final(reader) == *old(reader),
        reader_wf(*final(reader)),
{
    reader.read_bytes(&mut buf[..n])
}

} // verus!
