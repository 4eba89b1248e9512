//! Size limits for demo frames and messages, the byte-level varint decoder,
//! and `Bitreader`, which reads bit fields and variable-length integers from a
//! demo's bit stream.
use crate::bit_source::lookahead_after_refill;
use crate::bit_source::lookahead_len;
use crate::bit_source::reader_bits_remaining;
use crate::bit_source::reader_consume;
use crate::bit_source::reader_lookahead_bits;
use crate::bit_source::reader_new;
use crate::bit_source::reader_peek;
use crate::bit_source::reader_read_bytes;
use crate::bit_source::reader_refill_lookahead;
use crate::bit_source::reader_wf;
use crate::bit_source::unread_bits;
use crate::bitstream::bits_of_bytes;
use crate::bitstream::bits_of_value;
use crate::bitstream::bits_value;
use crate::bitstream::lemma_bits_value_of_value;
use crate::bitstream::bytes_of_bits;
use crate::bitstream::lemma_bits_value_bound;
use crate::bitstream::lemma_bits_value_div_mod;
use crate::bitstream::lemma_pow2_le;
use crate::bitstream::lemma_byte_of_bits;
use crate::bitstream::lemma_bytes_of_bits_len;
use crate::bitstream::lemma_skip_skip;
use crate::text::byte_read_failure_message;
use crate::text::byte_read_failure_text;
use crate::varint::lemma_varint32_step;
use crate::varint::lemma_varint64_last;
use crate::varint::lemma_varint64_step;
use crate::varint::varint_terminated;
use crate::varint::lemma_varint_extent_after_continuations;
use crate::varint::lemma_varint_extent_bound;
use crate::varint::lemma_varint_sum_bound;
use crate::varint::varint32_value;
use crate::varint::varint_complete;
use crate::varint::varint_extent;
use crate::varint::varint_sum;
use vstd::arithmetic::div_mod::lemma_small_mod;
use vstd::arithmetic::power2::lemma2_to64;
use vstd::arithmetic::power2::pow2;
use bitter::LittleEndianReader;
use vstd::bits::lemma_u64_low_bits_mask_is_mod;
use vstd::bits::lemma_u64_shl_is_mul;
use vstd::bits::lemma_u64_shr_is_div;
use vstd::prelude::*;

verus! {

/// Hard ceiling for any single length-prefixed object copied out of a demo.
/// Normal Source 2 net messages are far smaller; this prevents malformed
/// varints from turning a tiny input into a multi-gigabyte allocation.
pub const MAX_MESSAGE_BYTES: usize = 64 * 1024 * 1024;

/// Hard ceiling for a single Snappy output buffer. The parser reuses this
/// buffer between frames, so bounding it also bounds peak frame memory.
pub const MAX_DECOMPRESSED_BYTES: usize = 256 * 1024 * 1024;

/// Largest accepted ratio of decompressed to compressed bytes.
pub const MAX_COMPRESSION_RATIO: usize = 256;

/// Decompressed size that is always accepted, whatever the ratio.
pub const DECOMPRESSION_RATIO_SLACK: usize = 1024 * 1024;

/// Errors of the demo parser.
#[derive(Debug, PartialEq, Clone)]
pub enum DemoParserError {
    ClassMapperNotFoundFirstPass,
    FieldNoDecoder,
    OutOfBitsError,
    OutOfBytesError,
    FailedByteRead(String),
    UnknownPathOP,
    EntityNotFound,
    ClassNotFound,
    MalformedMessage,
    StringTableNotFound,
    Source1DemoError,
    DemoEndsEarly(String),
    UnknownFile,
    IncorrectMetaDataProp,
    UnknownPropName(String),
    GameEventListNotSet,
    PropTypeNotFound(String),
    GameEventUnknownId(String),
    UnknownPawnPrefix(String),
    UnknownEntityHandle(String),
    ClsIdOutOfBounds,
    UnknownGameEventVariant(String),
    FileNotFound(String),
    NoEvents,
    DecompressionFailure(String),
    NoSendTableMessage,
    UserIdNotFound,
    EventListFallbackNotFound(String),
    VoiceDataWriteError(String),
    UnknownDemoCmd(i32),
    IllegalPathOp,
    VectorResizeFailure,
    ImpossibleCmd,
    UnkVoiceFormat,
    MalformedVoicePacket,
    ResourceLimitExceeded(&'static str),
}

/// The largest decompressed size that a frame of `compressed_len` bytes may
/// claim: 256 bytes out per byte in (saturating at `usize::MAX`), but never
/// less than 1 MiB.
pub open spec fn decompression_ratio_limit(compressed_len: usize) -> nat {
    let scaled = if compressed_len * MAX_COMPRESSION_RATIO > usize::MAX {
        usize::MAX as nat
    } else {
        (compressed_len * MAX_COMPRESSION_RATIO) as nat
    };
    if scaled >= DECOMPRESSION_RATIO_SLACK {
        scaled
    } else {
        DECOMPRESSION_RATIO_SLACK as nat
    }
}

/// Accepts a decompressed frame size only when it is within the absolute
/// ceiling and within the compression-ratio ceiling for its compressed size.
pub fn validate_decompressed_size(compressed_len: usize, decompressed_len: usize) -> (r: Result<
    (),
    DemoParserError,
>)
    ensures
        decompressed_len > MAX_DECOMPRESSED_BYTES ==> r == Err::<(), DemoParserError>(
            DemoParserError::ResourceLimitExceeded("decompressed frame exceeds limit"),
        ),
        decompressed_len <= MAX_DECOMPRESSED_BYTES && decompressed_len > decompression_ratio_limit(
            compressed_len,
        ) ==> r == Err::<(), DemoParserError>(
            DemoParserError::ResourceLimitExceeded("decompression ratio exceeds limit"),
        ),
        r is Ok <==> decompressed_len <= MAX_DECOMPRESSED_BYTES && decompressed_len
            <= decompression_ratio_limit(compressed_len),
{
    if decompressed_len > MAX_DECOMPRESSED_BYTES {
        return Err(DemoParserError::ResourceLimitExceeded("decompressed frame exceeds limit"));
    }
    let scaled = match compressed_len.checked_mul(MAX_COMPRESSION_RATIO) {
        Some(v) => v,
        None => usize::MAX,
    };
    let ratio_limit = if scaled >= DECOMPRESSION_RATIO_SLACK {
        scaled
    } else {
        DECOMPRESSION_RATIO_SLACK
    };
    if decompressed_len > ratio_limit {
        return Err(DemoParserError::ResourceLimitExceeded("decompression ratio exceeds limit"));
    }
    Ok(())
}

/// The bytes from position `ptr` of `bytes` to the end (none if `ptr` is past it).
pub open spec fn bytes_from(bytes: Seq<u8>, ptr: usize) -> Seq<u8> {
    if ptr <= bytes.len() {
        bytes.subrange(ptr as int, bytes.len() as int)
    } else {
        Seq::empty()
    }
}

/// Decodes a varint of at most five bytes that starts at `*ptr`, moving
/// `*ptr` past the bytes it reads. Fails with `OutOfBytesError` when the
/// bytes end before the varint does; `*ptr` has then moved to the end.
pub fn read_varint(bytes: &[u8], ptr: &mut usize) -> (r: Result<u32, DemoParserError>)
    ensures
        ({
            let tail = bytes_from(bytes@, *old(ptr));
            &&& varint_complete(tail, 5) ==> r == Ok::<u32, DemoParserError>(varint32_value(tail))
                && *final(ptr) == *old(ptr) + varint_extent(tail, 5)
            &&& !varint_complete(tail, 5) ==> r == Err::<u32, DemoParserError>(
                DemoParserError::OutOfBytesError,
            ) && *final(ptr) == *old(ptr) + tail.len()
        }),
{
    let ghost start: usize = *ptr;
    let ghost tail = bytes_from(bytes@, start);
    let mut result: u32 = 0;
    let mut count: u32 = 0;
    proof {
        lemma2_to64();
        lemma_varint_extent_bound(tail, 5);
    }
    loop
        invariant_except_break
            count <= 5,
            count <= tail.len(),
            *ptr == start + count,
            start <= bytes@.len() ==> tail.len() == bytes@.len() - start,
            start > bytes@.len() ==> tail.len() == 0,
            forall|i: int| 0 <= i < count ==> tail[i] == bytes@[start + i],
            result as nat == varint_sum(tail, count as nat) % 0x1_0000_0000,
            forall|i: int| 0 <= i < count ==> #[trigger] tail[i] >= 0x80,
            tail == bytes_from(bytes@, start),
            start == *old(ptr),
        ensures
            varint_complete(tail, 5),
            count == varint_extent(tail, 5),
            *ptr == start + count,
            result as nat == varint_sum(tail, count as nat) % 0x1_0000_0000,
        decreases 5 - count,
    {
        proof {
            lemma_varint_extent_after_continuations(tail, 5, count as nat);
        }
        if count >= 5 {
            assert(varint_extent(tail, 5) == 5);
            assert(varint_complete(tail, 5));
            assert(result == varint32_value(tail));
            return Ok(result);
        }
        let b = match bytes.get(*ptr) {
            Some(b) => *b as u32,
            None => {
                assert(count == tail.len());
                assert(varint_extent(tail, 5) == count);
                assert(!varint_complete(tail, 5)) by {
                    if count > 0 {
                        assert(tail[count - 1] >= 0x80);
                    }
                }
                return Err(DemoParserError::OutOfBytesError);
            },
        };
        proof {
            assert(tail[count as int] == bytes@[start + count]);
            lemma_varint_sum_bound(tail, count as nat);
            lemma2_to64();
            lemma_pow2_le(7 * count as nat, 28);
            lemma_small_mod(varint_sum(tail, count as nat), 0x1_0000_0000);
            lemma_varint32_step(result, b, count, tail);
        }
        *ptr += 1;
        result |= (b & 127) << (7 * count);
        count += 1;
        if b & 0x80 == 0 {
            proof {
                assert(b & 0x80 == 0 ==> b < 0x80) by (bit_vector)
                    requires
                        b < 256,
                ;
                lemma_varint_extent_after_continuations(tail, 5, (count - 1) as nat);
            }
            break ;
        }
        proof {
            assert(b & 0x80 != 0 ==> b >= 0x80) by (bit_vector)
                requires
                    b < 256,
            ;
        }
    }
    Ok(result)
}

/// The width of the extension that follows a six-bit `UBitVar` header: the
/// header's top two bits select none, 4, 8 or 28 more bits.
pub open spec fn ubit_var_extra(header: nat) -> nat {
    if header / 16 == 1 {
        4
    } else if header / 16 == 2 {
        8
    } else if header / 16 == 3 {
        28
    } else {
        0
    }
}

/// How many bits the `UBitVar` at the front of `s` takes.
pub open spec fn ubit_var_len(s: Seq<bool>) -> nat {
    6 + ubit_var_extra(bits_value(s, 6))
}

/// The `UBitVar` at the front of `s`: the header's low four bits, then the
/// extension above them; with no extension, the whole header.
pub open spec fn ubit_var_value(s: Seq<bool>) -> nat {
    let header = bits_value(s, 6);
    let extra = ubit_var_extra(header);
    if extra == 0 {
        header
    } else {
        header % 16 + 16 * bits_value(s.skip(6), extra)
    }
}

/// How many flag bits lead the field-path `UBitVar` at the front of `s`: up
/// to and including the first set one among the first three, else four.
pub open spec fn ubit_var_fp_prefix(s: Seq<bool>) -> nat {
    if s[0] {
        1
    } else if s[1] {
        2
    } else if s[2] {
        3
    } else {
        4
    }
}

/// The width of the value after those flags: 2, 4, 10, 17 or 31 bits.
pub open spec fn ubit_var_fp_width(s: Seq<bool>) -> nat {
    if s[0] {
        2
    } else if s[1] {
        4
    } else if s[2] {
        10
    } else if s[3] {
        17
    } else {
        31
    }
}

/// How many bits the field-path `UBitVar` at the front of `s` takes.
pub open spec fn ubit_var_fp_len(s: Seq<bool>) -> nat {
    ubit_var_fp_prefix(s) + ubit_var_fp_width(s)
}

/// The field-path `UBitVar` at the front of `s`.
pub open spec fn ubit_var_fp_value(s: Seq<bool>) -> nat {
    bits_value(s.skip(ubit_var_fp_prefix(s) as int), ubit_var_fp_width(s))
}

/// The signed value of a 32-bit varint: its bits read as an `i32`, shifted
/// right by one with the sign kept, and complemented when the lowest bit is set.
pub open spec fn varint32_signed(u: u32) -> int {
    let x: int = if u < 0x8000_0000 {
        u as int
    } else {
        u - 0x1_0000_0000
    };
    let half = x / 2;
    if u % 2 == 0 {
        half
    } else {
        -half - 1
    }
}

/// The parts of a bit-coded coordinate: whether it is negative, its integer
/// part and its fraction in 32nds.
pub struct BitCoordParts {
    pub negative: bool,
    pub int_val: u32,
    pub frac_val: u32,
}

/// How many bits the coordinate at the front of `s` takes: two flags saying
/// whether an integer part and a fraction follow; when either does, a sign
/// bit, then 14 integer bits, then 5 fraction bits, each only if flagged.
pub open spec fn bit_coord_len(s: Seq<bool>) -> nat {
    if !s[0] && !s[1] {
        2
    } else {
        3 + (if s[0] {
            14nat
        } else {
            0nat
        }) + (if s[1] {
            5nat
        } else {
            0nat
        })
    }
}

/// The coordinate at the front of `s`; the integer part is stored less one.
pub open spec fn bit_coord_parts(s: Seq<bool>) -> BitCoordParts {
    if !s[0] && !s[1] {
        BitCoordParts { negative: false, int_val: 0, frac_val: 0 }
    } else {
        let frac_start: int = if s[0] {
            17
        } else {
            3
        };
        BitCoordParts {
            negative: s[2],
            int_val: if s[0] {
                (bits_value(s.skip(3), 14) + 1) as u32
            } else {
                0
            },
            frac_val: if s[1] {
                bits_value(s.skip(frac_start), 5) as u32
            } else {
                0
            },
        }
    }
}

/// Joining a `UBitVar` header's low four bits with the extension above them.
proof fn lemma_ubit_var_join(bits: u32, ext: u32)
    requires
        bits < 64,
        ext < 0x1000_0000,
    ensures
        ((bits & 0b1111) | (ext << 4)) == bits % 16 + 16 * ext,
{
    assert(((bits & 0b1111) | (ext << 4)) == bits % 16 + 16 * ext) by (bit_vector)
        requires
            bits < 64,
            ext < 0x1000_0000,
    ;
}

/// The signed reading of a varint, computed with `i32` shifts and complement.
proof fn lemma_varint32_signed(u: u32)
    ensures
        ({
            let x = u as i32;
            let y = if x & 1 != 0 {
                !(x >> 1)
            } else {
                x >> 1
            };
            y as int == varint32_signed(u)
        }),
{
    let x = u as i32;
    assert((x & 1 != 0) == (u % 2 == 1)) by (bit_vector)
        requires
            x == u as i32,
    ;
    assert(!(x >> 1) == -(x >> 1) - 1) by (bit_vector);
    assert(u < 0x8000_0000 ==> (x >> 1) as int == (u as int) / 2) by (bit_vector)
        requires
            x == u as i32,
    ;
    assert(u >= 0x8000_0000 ==> (x >> 1) as int == ((u as int) - 0x1_0000_0000) / 2) by (bit_vector)
        requires
            x == u as i32,
    ;
}

/// A reader of bit fields over a demo's bytes. `bits` caches the next
/// `bits_left` unread bits, which the underlying reader holds in its lookahead.
pub struct Bitreader<'a> {
    pub reader: LittleEndianReader<'a>,
    pub bits_left: u32,
    pub bits: u64,
    pub total_bits_left: u32,
}

impl<'a> View for Bitreader<'a> {
    type V = Seq<bool>;

    /// The bits not read yet, in stream order.
    open spec fn view(&self) -> Seq<bool> {
        unread_bits(self.reader)
    }
}

impl<'a> Bitreader<'a> {
    /// The cache agrees with the stream and fits in the reader's lookahead.
    pub open spec fn wf(&self) -> bool {
        &&& reader_wf(self.reader)
        &&& self.bits_left <= lookahead_len(self.reader)
        &&& (self.bits_left == 0 || self.bits as nat == bits_value(self@, self.bits_left as nat))
        &&& self@.len() <= usize::MAX
    }

    pub fn new(bytes: &'a [u8]) -> (b: Bitreader<'a>)
        requires
            8 * bytes.len() <= usize::MAX,
        ensures
            b.wf(),
            b@ == bits_of_bytes(bytes@),
            b@.len() == 8 * bytes.len(),
            b.bits_left == 0,
            b.bits == 0,
            b.total_bits_left == 0,
    {
        let b = Bitreader { reader: reader_new(bytes), bits: 0, bits_left: 0, total_bits_left: 0 };
        b
    }

    /// Drops the next `n` cached bits.
    pub fn consume(&mut self, n: u32)
        requires
            old(self).wf(),
            n <= old(self).bits_left,
        ensures
            final(self).total_bits_left == old(self).total_bits_left,
            final(self).wf(),
            final(self)@ == old(self)@.skip(n as int),
            final(self).bits_left == old(self).bits_left - n,
    {
        proof {
            let n64 = n as u64;
            let bits = self.bits;
            assert(bits >> n == bits >> n64) by (bit_vector)
                requires
                    n64 == n,
            ;
            lemma_u64_shr_is_div(bits, n64);
            lemma_bits_value_div_mod(self@, n as nat, self.bits_left as nat);
        }
        self.bits_left -= n;
        self.bits >>= n;
        reader_consume(&mut self.reader, n);
    }

    /// The low `n` bits of the cache, which are the next `n` bits of the
    /// stream when the cache holds that many; nothing is consumed.
    pub fn peek(&mut self, n: u32) -> (v: u64)
        requires
            old(self).wf(),
            n <= 63,
        ensures
            *final(self) == *old(self),
            v == old(self).bits as nat % pow2(n as nat),
            n <= old(self).bits_left ==> v == bits_value(old(self)@, n as nat),
    {
        proof {
            let n64 = n as u64;
            let bits = self.bits;
            assert((1u64 << n) == (1u64 << n64)) by (bit_vector)
                requires
                    n64 == n,
            ;
            lemma2_to64();
            lemma_pow2_le(n as nat, 63);
            vstd::arithmetic::power2::lemma2_to64_rest();
            lemma_u64_shl_is_mul(1, n64);
            lemma_u64_low_bits_mask_is_mod(bits, n as nat);
            if n > 0 && n <= self.bits_left {
                lemma_bits_value_div_mod(self@, n as nat, self.bits_left as nat);
            }
        }
        self.bits & ((1u64 << n) - 1)
    }

    /// Refills the reader's lookahead and caches all of it: at least 56 bits,
    /// or all that are left.
    pub fn refill(&mut self)
        requires
            reader_wf(old(self).reader),
            old(self)@.len() <= usize::MAX,
        ensures
            final(self).total_bits_left == old(self).total_bits_left,
            final(self).wf(),
            final(self)@ == old(self)@,
            final(self).bits_left == lookahead_after_refill(
                lookahead_len(old(self).reader),
                old(self)@.len(),
            ),
            final(self).bits_left >= 56 || final(self).bits_left == final(self)@.len(),
    {
        reader_refill_lookahead(&mut self.reader);
        let refilled = reader_lookahead_bits(&self.reader);
        if refilled > 0 {
            self.bits = reader_peek(&self.reader, refilled);
        }
        self.bits_left = refilled;
    }

    /// The number of bits not read yet.
    pub fn bits_remaining(&mut self) -> (r: Option<usize>)
        requires
            old(self).wf(),
        ensures
            *final(self) == *old(self),
            r == Some(old(self)@.len() as usize),
    {
        Some(reader_bits_remaining(&self.reader)?)
    }

    /// Checks that a length-prefixed object of `n` bytes is within
    /// `MAX_MESSAGE_BYTES` and that `n` whole bytes are left to read.
    pub fn ensure_bytes_remaining(&mut self, n: usize) -> (r: Result<(), DemoParserError>)
        requires
            old(self).wf(),
        ensures
            *final(self) == *old(self),
            n > MAX_MESSAGE_BYTES ==> r == Err::<(), DemoParserError>(
                DemoParserError::ResourceLimitExceeded("length-prefixed message exceeds limit"),
            ),
            n <= MAX_MESSAGE_BYTES && 8 * n > old(self)@.len() ==> (r matches Err(
                DemoParserError::FailedByteRead(msg),
            ) && msg@ == byte_read_failure_text((old(self)@.len() / 8) as usize, n)),
            r is Ok <==> n <= MAX_MESSAGE_BYTES && 8 * n <= old(self)@.len(),
    {
        if n > MAX_MESSAGE_BYTES {
            return Err(
                DemoParserError::ResourceLimitExceeded("length-prefixed message exceeds limit"),
            );
        }
        let remaining = match reader_bits_remaining(&self.reader) {
            Some(bits) => bits.checked_div(8).unwrap_or(0),
            None => {
                return Err(DemoParserError::OutOfBitsError);
            },
        };
        if n > remaining {
            return Err(DemoParserError::FailedByteRead(byte_read_failure_message(remaining, n)));
        }
        Ok(())
    }

    /// Reads the next `n` bits as an unsigned number, the first bit read being
    /// the least significant, kept to its low 32 bits. The bits must be in the
    /// cache, or in the cache once it is refilled (always so for up to 56 bits).
    pub fn read_nbits(&mut self, n: u32) -> (r: Result<u32, DemoParserError>)
        requires
            old(self).wf(),
            n <= 63,
            n <= old(self)@.len(),
            n <= old(self).bits_left || n <= lookahead_after_refill(
                lookahead_len(old(self).reader),
                old(self)@.len(),
            ),
        ensures
            final(self).total_bits_left == old(self).total_bits_left,
            final(self).wf(),
            final(self)@ == old(self)@.skip(n as int),
            (r matches Ok(v) && v as nat == bits_value(old(self)@, n as nat) % 0x1_0000_0000),
            n <= 32 ==> (r matches Ok(v) && v as nat == bits_value(old(self)@, n as nat)),
    {
        if self.bits_left < n {
            self.refill();
        }
        let b = self.peek(n);
        self.consume(n);
        proof {
            lemma_bits_value_bound(old(self)@, n as nat);
            lemma2_to64();
            assert((b as u32) as nat == b % 0x1_0000_0000) by (bit_vector);
            if n <= 32 {
                lemma_pow2_le(n as nat, 32);
                lemma_small_mod(b as nat, 0x1_0000_0000);
            }
        }
        return Ok(b as u32);
    }

    /// Reads a varint of at most five bytes, each byte taken from the next
    /// eight bits; the result is cut to 32 bits.
    pub fn read_varint(&mut self) -> (r: Result<u32, DemoParserError>)
        requires
            old(self).wf(),
            varint_complete(bytes_of_bits(old(self)@), 5),
        ensures
            final(self).total_bits_left == old(self).total_bits_left,
            final(self).wf(),
            final(self)@ == old(self)@.skip(8 * varint_extent(bytes_of_bits(old(self)@), 5) as int),
            r == Ok::<u32, DemoParserError>(varint32_value(bytes_of_bits(old(self)@))),
    {
        let ghost s0 = self@;
        let ghost bytes = bytes_of_bits(s0);
        let mut result: u32 = 0;
        let mut count: u32 = 0;
        let mut b: u32;
        proof {
            lemma2_to64();
            lemma_varint_extent_bound(bytes, 5);
            assert(s0.skip(0) =~= s0);
        }
        loop
            invariant_except_break
                self.wf(),
                self.total_bits_left == old(self).total_bits_left,
                s0 == old(self)@,
                bytes == bytes_of_bits(s0),
                varint_complete(bytes, 5),
                count <= 5,
                count <= bytes.len(),
                self@ == s0.skip(8 * count),
                result as nat == varint_sum(bytes, count as nat) % 0x1_0000_0000,
                forall|i: int| 0 <= i < count ==> #[trigger] bytes[i] >= 0x80,
            ensures
                self.wf(),
                self.total_bits_left == old(self).total_bits_left,
                count == varint_extent(bytes, 5),
                self@ == s0.skip(8 * count),
                result as nat == varint_sum(bytes, count as nat) % 0x1_0000_0000,
            decreases 5 - count,
        {
            proof {
                lemma_varint_extent_after_continuations(bytes, 5, count as nat);
                lemma_varint_extent_bound(bytes, 5);
            }
            if count >= 5 {
                return Ok(result);
            }
            proof {
                assert(count < bytes.len()) by {
                    if varint_extent(bytes, 5) != 5 {
                        assert(bytes[varint_extent(bytes, 5) - 1] < 0x80);
                    }
                }
                lemma_byte_of_bits(s0, count as nat);
                lemma_skip_skip(s0, 8 * count, 8);
            }
            b = self.read_nbits(8)?;
            proof {
                lemma2_to64();
                lemma_varint_sum_bound(bytes, count as nat);
                lemma_pow2_le(7 * count as nat, 28);
                lemma_small_mod(varint_sum(bytes, count as nat), 0x1_0000_0000);
                lemma_varint32_step(result, b, count, bytes);
            }
            result |= (b & 127) << (7 * count);
            count += 1;
            if b & 0x80 == 0 {
                proof {
                    assert(b & 0x80 == 0 ==> b < 0x80) by (bit_vector)
                        requires
                            b < 256,
                    ;
                    lemma_varint_extent_after_continuations(bytes, 5, (count - 1) as nat);
                }
                break ;
            }
            proof {
                assert(b & 0x80 != 0 ==> b >= 0x80) by (bit_vector)
                    requires
                        b < 256,
                ;
            }
        }
        Ok(result)
    }

    /// Reads a varint into 64 bits. A varint that does not fit in 64 bits
    /// (a tenth byte above 1, or more than ten bytes) is `MalformedMessage`;
    /// its bytes are still consumed, up to the one with a clear high bit.
    pub fn read_varint_u_64(&mut self) -> (r: Result<u64, DemoParserError>)
        requires
            old(self).wf(),
            varint_terminated(bytes_of_bits(old(self)@), bytes_of_bits(old(self)@).len()),
        ensures
            final(self).total_bits_left == old(self).total_bits_left,
            ({
                let bytes = bytes_of_bits(old(self)@);
                let e = varint_extent(bytes, bytes.len());
                &&& final(self).wf()
                &&& final(self)@ == old(self)@.skip(8 * e as int)
                &&& (e <= 9 || (e == 10 && bytes[9] <= 1)) ==> r == Ok::<u64, DemoParserError>(
                    varint_sum(bytes, e) as u64,
                )
                &&& !(e <= 9 || (e == 10 && bytes[9] <= 1)) ==> r == Err::<u64, DemoParserError>(
                    DemoParserError::MalformedMessage,
                )
            }),
    {
        self.read_varint_u_64_checked()
    }

    /// `read_varint_u_64` on any stream: when no byte with a clear high bit
    /// comes before the stream ends, every whole byte left is consumed and the
    /// result is `OutOfBitsError`.
    pub fn read_varint_u_64_checked(&mut self) -> (r: Result<u64, DemoParserError>)
        requires
            old(self).wf(),
        ensures
            final(self).total_bits_left == old(self).total_bits_left,
            ({
                let bytes = bytes_of_bits(old(self)@);
                let e = varint_extent(bytes, bytes.len());
                let fits = e <= 9 || (e == 10 && bytes[9] <= 1);
                &&& final(self).wf()
                &&& final(self)@ == old(self)@.skip(8 * e as int)
                &&& !varint_terminated(bytes, bytes.len()) ==> r == Err::<u64, DemoParserError>(
                    DemoParserError::OutOfBitsError,
                )
                &&& varint_terminated(bytes, bytes.len()) && fits ==> r == Ok::<
                    u64,
                    DemoParserError,
                >(varint_sum(bytes, e) as u64)
                &&& varint_terminated(bytes, bytes.len()) && !fits ==> r == Err::<
                    u64,
                    DemoParserError,
                >(DemoParserError::MalformedMessage)
            }),
    {
        let ghost s0 = self@;
        let ghost bytes = bytes_of_bits(s0);
        let ghost max = bytes.len();
        let available: usize = match self.bits_remaining() {
            Some(n) => n / 8,
            None => 0,
        };
        let mut result: u64 = 0;
        let mut count: u64 = 0;
        let mut b: u32;
        let mut s: u64 = 0;
        proof {
            lemma2_to64();
            lemma_bytes_of_bits_len(s0);
            assert(s0.skip(0) =~= s0);
        }
        loop
            invariant
                self.wf(),
                self.total_bits_left == old(self).total_bits_left,
                s0 == old(self)@,
                bytes == bytes_of_bits(s0),
                max == bytes.len(),
                bytes.len() == s0.len() / 8,
                available == max,
                s0.len() <= usize::MAX,
                count <= max,
                forall|i: int| 0 <= i < count ==> #[trigger] bytes[i] >= 0x80,
                s == 7 * count,
                self@ == s0.skip(8 * count),
                count <= 9 ==> result == varint_sum(bytes, count as nat),
            decreases max - count,
        {
            if count as usize >= available {
                proof {
                    lemma_varint_extent_after_continuations(bytes, max, count as nat);
                }
                return Err(DemoParserError::OutOfBitsError);
            }
            proof {
                lemma_byte_of_bits(s0, count as nat);
                lemma_skip_skip(s0, 8 * count, 8);
            }
            b = self.read_nbits(8)?;
            if b < 0x80 {
                proof {
                    lemma_varint_extent_after_continuations(bytes, max, count as nat);
                }
                if count > 9 || count == 9 && b > 1 {
                    return Err(DemoParserError::MalformedMessage);
                }
                proof {
                    lemma_varint64_last(result, b as u64, count, bytes);
                }
                return Ok(result | (b as u64) << s);
            }
            proof {
                if count <= 8 {
                    lemma_varint64_step(result, b as u64, count, bytes);
                }
                assert(7 * (count + 1) <= 7 * (usize::MAX as int / 8) + 7);
            }
            if count <= 9 {
                result |= ((b as u64) & 127) << s;
            }
            count += 1;
            s += 7;
        }
    }

    /// Reads a `UBitVar`: a six-bit header whose top two bits say how many
    /// more bits follow above its low four.
    pub fn read_u_bit_var(&mut self) -> (r: Result<u32, DemoParserError>)
        requires
            old(self).wf(),
            ubit_var_len(old(self)@) <= old(self)@.len(),
        ensures
            final(self).total_bits_left == old(self).total_bits_left,
            final(self).wf(),
            final(self)@ == old(self)@.skip(ubit_var_len(old(self)@) as int),
            (r matches Ok(v) && v as nat == ubit_var_value(old(self)@)),
    {
        let ghost s0 = self@;
        let bits = self.read_nbits(6)?;
        proof {
            lemma_bits_value_bound(s0, 6);
            lemma2_to64();
            assert(bits < 64 ==> (bits & 0b110000) == (bits / 16) * 16 && (bits & 0b1111) == bits
                % 16) by (bit_vector);
            lemma_skip_skip(s0, 6, ubit_var_extra(bits as nat) as int);
        }
        match bits & 0b110000 {
            0b10000 => {
                let ext = self.read_nbits(4)?;
                proof {
                    lemma_bits_value_bound(s0.skip(6), 4);
                    lemma_ubit_var_join(bits, ext);
                }
                return Ok((bits & 0b1111) | (ext << 4));
            },
            0b100000 => {
                let ext = self.read_nbits(8)?;
                proof {
                    lemma_bits_value_bound(s0.skip(6), 8);
                    lemma_ubit_var_join(bits, ext);
                }
                return Ok((bits & 0b1111) | (ext << 4));
            },
            0b110000 => {
                let ext = self.read_nbits(28)?;
                proof {
                    lemma_bits_value_bound(s0.skip(6), 28);
                    lemma_ubit_var_join(bits, ext);
                }
                return Ok((bits & 0b1111) | (ext << 4));
            },
            _ => {
                assert(s0.skip(6) == s0.skip(6 + ubit_var_extra(bits as nat) as int));
                return Ok(bits);
            },
        }
    }

    /// Reads a zigzag-style signed varint.
    pub fn read_varint32(&mut self) -> (r: Result<i32, DemoParserError>)
        requires
            old(self).wf(),
            varint_complete(bytes_of_bits(old(self)@), 5),
        ensures
            final(self).total_bits_left == old(self).total_bits_left,
            final(self).wf(),
            final(self)@ == old(self)@.skip(8 * varint_extent(bytes_of_bits(old(self)@), 5) as int),
            (r matches Ok(v) && v as int == varint32_signed(varint32_value(bytes_of_bits(old(self)@)))),
    {
        let u = self.read_varint()?;
        let x = u as i32;
        let mut y = x >> 1;
        if x & 1 != 0 {
            y = !y;
        }
        proof {
            lemma_varint32_signed(u);
        }
        Ok(y as i32)
    }

    /// Reads a field-path `UBitVar`: flag bits, then a value whose width the
    /// first set flag selects.
    pub fn read_ubit_var_fp(&mut self) -> (r: Result<u32, DemoParserError>)
        requires
            old(self).wf(),
            ubit_var_fp_len(old(self)@) <= old(self)@.len(),
        ensures
            final(self).total_bits_left == old(self).total_bits_left,
            final(self).wf(),
            final(self)@ == old(self)@.skip(ubit_var_fp_len(old(self)@) as int),
            (r matches Ok(v) && v as nat == ubit_var_fp_value(old(self)@)),
    {
        let ghost s0 = self@;
        proof {
            let p = ubit_var_fp_prefix(s0);
            if p >= 2 {
                lemma_skip_skip(s0, 1, 1);
            }
            if p >= 3 {
                lemma_skip_skip(s0, 2, 1);
            }
            if p >= 4 {
                lemma_skip_skip(s0, 3, 1);
            }
            lemma_skip_skip(s0, p as int, ubit_var_fp_width(s0) as int);
        }
        if self.read_boolean()? {
            return Ok(self.read_nbits(2)?);
        }
        if self.read_boolean()? {
            return Ok(self.read_nbits(4)?);
        }
        if self.read_boolean()? {
            return Ok(self.read_nbits(10)?);
        }
        if self.read_boolean()? {
            return Ok(self.read_nbits(17)?);
        }
        return Ok(self.read_nbits(31)?);
    }

    /// Reads the integer parts of a bit-coded coordinate.
    pub fn read_bit_coord_parts(&mut self) -> (r: Result<BitCoordParts, DemoParserError>)
        requires
            old(self).wf(),
            bit_coord_len(old(self)@) <= old(self)@.len(),
        ensures
            final(self).total_bits_left == old(self).total_bits_left,
            final(self).wf(),
            final(self)@ == old(self)@.skip(bit_coord_len(old(self)@) as int),
            r == Ok::<BitCoordParts, DemoParserError>(bit_coord_parts(old(self)@)),
    {
        let ghost s0 = self@;
        proof {
            lemma_skip_skip(s0, 1, 1);
            if s0[0] || s0[1] {
                lemma_skip_skip(s0, 2, 1);
            }
            if s0[0] {
                lemma_skip_skip(s0, 3, 14);
                lemma_bits_value_bound(s0.skip(3), 14);
                lemma2_to64();
                if s0[1] {
                    lemma_skip_skip(s0, 17, 5);
                }
            } else if s0[1] {
                lemma_skip_skip(s0, 3, 5);
            }
        }
        let mut int_val: u32 = 0;
        let mut frac_val: u32 = 0;
        let i2 = self.read_boolean()?;
        let f2 = self.read_boolean()?;
        if !i2 && !f2 {
            return Ok(BitCoordParts { negative: false, int_val: 0, frac_val: 0 });
        }
        let sign = self.read_boolean()?;
        if i2 {
            int_val = self.read_nbits(14)? + 1;
        }
        if f2 {
            frac_val = self.read_nbits(5)?;
        }
        Ok(BitCoordParts { negative: sign, int_val, frac_val })
    }

    /// Reads a length-prefixed object of `n` bytes. The size is checked
    /// against `MAX_MESSAGE_BYTES` and against the bytes left before anything
    /// is allocated; on an error nothing is consumed.
    pub fn read_n_bytes(&mut self, n: usize) -> (r: Result<Vec<u8>, DemoParserError>)
        requires
            old(self).wf(),
        ensures
            final(self).total_bits_left == old(self).total_bits_left,
            final(self).wf(),
            n > MAX_MESSAGE_BYTES ==> r == Err::<Vec<u8>, DemoParserError>(
                DemoParserError::ResourceLimitExceeded("length-prefixed message exceeds limit"),
            ),
            n <= MAX_MESSAGE_BYTES && 8 * n > old(self)@.len() ==> (r matches Err(
                DemoParserError::FailedByteRead(msg),
            ) && msg@ == byte_read_failure_text((old(self)@.len() / 8) as usize, n)),
            r is Err ==> *final(self) == *old(self),
            r is Ok <==> n <= MAX_MESSAGE_BYTES && 8 * n <= old(self)@.len(),
            r is Ok ==> (r matches Ok(bytes) && bytes@ == bytes_of_bits(old(self)@).take(n as int)
                && final(self)@ == old(self)@.skip(8 * n)),
            r matches Ok(bytes) ==> bytes@.len() == n && n <= MAX_MESSAGE_BYTES,
            r is Ok ==> final(self).bits_left >= 56 || final(self).bits_left == final(self)@.len(),
    {
        match self.ensure_bytes_remaining(n) {
            Ok(()) => {},
            Err(e) => {
                return Err(e);
            },
        }
        let mut bytes = vec![0_u8; n];
        let ghost before = bytes@;
        let ok = reader_read_bytes(&mut self.reader, bytes.as_mut_slice(), n);
        proof {
            assert(before.skip(n as int) =~= Seq::<u8>::empty());
            assert(bytes@ =~= bytes_of_bits(old(self)@).take(n as int));
        }
        match ok {
            true => {
                proof {
                    lemma_bytes_of_bits_len(old(self)@);
                    let total = old(self)@.len();
                    assert(n <= total / 8) by (nonlinear_arith)
                        requires
                            8 * n <= total,
                    ;
                }
                self.refill();
                Ok(bytes)
            },
            false => Err(
                DemoParserError::FailedByteRead(
                    byte_read_failure_message(
                        reader_bits_remaining(&self.reader).unwrap_or(0).checked_div(8).unwrap_or(
                            0,
                        ),
                        n,
                    ),
                ),
            ),
        }
    }

    /// Reads a length-prefixed object of `n` bytes into the front of `buf`,
    /// with the checks of `read_n_bytes`; a `buf` shorter than `n` is
    /// `MalformedMessage`. On an error neither the stream nor `buf` changes.
    pub fn read_n_bytes_mut(&mut self, n: usize, buf: &mut [u8]) -> (r: Result<(), DemoParserError>)
        requires
            old(self).wf(),
        ensures
            final(self).total_bits_left == old(self).total_bits_left,
            final(self).wf(),
            n > MAX_MESSAGE_BYTES ==> r == Err::<(), DemoParserError>(
                DemoParserError::ResourceLimitExceeded("length-prefixed message exceeds limit"),
            ),
            n <= MAX_MESSAGE_BYTES && 8 * n > old(self)@.len() ==> (r matches Err(
                DemoParserError::FailedByteRead(msg),
            ) && msg@ == byte_read_failure_text((old(self)@.len() / 8) as usize, n)),
            n <= MAX_MESSAGE_BYTES && 8 * n <= old(self)@.len() && old(buf)@.len() < n ==> r
                == Err::<(), DemoParserError>(DemoParserError::MalformedMessage),
            r is Err ==> *final(self) == *old(self) && final(buf)@ == old(buf)@,
            r is Ok <==> n <= MAX_MESSAGE_BYTES && 8 * n <= old(self)@.len() && n <= old(buf)@.len(),
            r is Ok ==> final(buf)@ == bytes_of_bits(old(self)@).take(n as int) + old(buf)@.skip(
                n as int,
            ) && final(self)@ == old(self)@.skip(8 * n),
            r is Ok ==> final(self).bits_left >= 56 || final(self).bits_left == final(self)@.len(),
    {
        match self.ensure_bytes_remaining(n) {
            Ok(()) => {},
            Err(e) => {
                return Err(e);
            },
        }
        if buf.len() < n {
            return Err(DemoParserError::MalformedMessage);
        }
        match reader_read_bytes(&mut self.reader, buf, n) {
            true => {
                self.refill();
                Ok(())
            },
            false => Err(
                DemoParserError::FailedByteRead(
                    byte_read_failure_message(
                        reader_bits_remaining(&self.reader).unwrap_or(0).checked_div(8).unwrap_or(
                            0,
                        ),
                        n,
                    ),
                ),
            ),
        }
    }

    /// Whether a whole bit-coded coordinate is left to read; the stream
    /// position does not move.
    pub fn has_bit_coord(&mut self) -> (r: bool)
        requires
            old(self).wf(),
        ensures
            final(self).total_bits_left == old(self).total_bits_left,
            final(self).wf(),
            final(self)@ == old(self)@,
            r == (bit_coord_len(old(self)@) <= old(self)@.len()),
    {
        let remaining = match self.bits_remaining() {
            Some(n) => n,
            None => 0,
        };
        if remaining < 2 {
            return false;
        }
        if self.bits_left < 2 {
            self.refill();
        }
        let flags = self.peek(2);
        proof {
            reveal_with_fuel(bits_value, 3);
            assert(flags < 4 ==> ((flags & 1 != 0) == (flags % 2 == 1)) && ((flags & 2 != 0) == (
            flags / 2 == 1))) by (bit_vector);
        }
        let int_flag = flags & 1 != 0;
        let frac_flag = flags & 2 != 0;
        let needed: usize = if !int_flag && !frac_flag {
            2
        } else {
            3 + (if int_flag {
                14
            } else {
                0
            }) + (if frac_flag {
                5
            } else {
                0
            })
        };
        needed <= remaining
    }

    /// Whether a whole varint of at most five bytes is left to read, as
    /// `read_varint` and `read_varint32` need it; the stream position does not move.
    pub fn has_varint(&mut self) -> (r: bool)
        requires
            old(self).wf(),
        ensures
            final(self).wf(),
            final(self)@ == old(self)@,
            final(self).total_bits_left == old(self).total_bits_left,
            r == varint_complete(bytes_of_bits(old(self)@), 5),
    {
        let available: usize = match self.bits_remaining() {
            Some(n) => n / 8,
            None => 0,
        };
        if self.bits_left < 40 {
            self.refill();
        }
        let ghost s = self@;
        let ghost bytes = bytes_of_bits(s);
        let mut i: u32 = 0;
        while i < 5
            invariant
                self.wf(),
                self@ == s,
                s == old(self)@,
                self.total_bits_left == old(self).total_bits_left,
                bytes == bytes_of_bits(s),
                bytes.len() == s.len() / 8,
                available == bytes.len(),
                self.bits_left >= 40 || self.bits_left == s.len(),
                i <= 5,
                i <= available,
                forall|k: int| 0 <= k < i ==> #[trigger] bytes[k] >= 0x80,
            decreases 5 - i,
        {
            if i as usize >= available {
                proof {
                    lemma_varint_extent_after_continuations(bytes, 5, i as nat);
                }
                return false;
            }
            proof {
                lemma_byte_of_bits(s, i as nat);
            }
            let v = self.peek(8 * i + 8);
            let shift: u64 = 8 * i as u64;
            let byte = v >> shift;
            proof {
                lemma_u64_shr_is_div(v, shift);
                lemma_bits_value_div_mod(s, 8 * i as nat, (8 * i + 8) as nat);
            }
            if byte < 0x80 {
                proof {
                    lemma_varint_extent_after_continuations(bytes, 5, i as nat);
                }
                return true;
            }
            i += 1;
        }
        proof {
            lemma_varint_extent_after_continuations(bytes, 5, 5);
        }
        true
    }

    /// Whether a whole `UBitVar` is left to read, as `read_u_bit_var` needs
    /// it; the stream position does not move.
    pub fn has_u_bit_var(&mut self) -> (r: bool)
        requires
            old(self).wf(),
        ensures
            final(self).wf(),
            final(self)@ == old(self)@,
            final(self).total_bits_left == old(self).total_bits_left,
            r == (ubit_var_len(old(self)@) <= old(self)@.len()),
    {
        let remaining = match self.bits_remaining() {
            Some(n) => n,
            None => 0,
        };
        if remaining < 6 {
            return false;
        }
        if self.bits_left < 6 {
            self.refill();
        }
        let header = self.peek(6);
        proof {
            lemma_bits_value_bound(old(self)@, 6);
            lemma2_to64();
        }
        let top = header / 16;
        let extra: usize = if top == 1 {
            4
        } else if top == 2 {
            8
        } else if top == 3 {
            28
        } else {
            0
        };
        6 + extra <= remaining
    }

    /// Whether a whole field-path `UBitVar` is left to read, as
    /// `read_ubit_var_fp` needs it; the stream position does not move.
    pub fn has_ubit_var_fp(&mut self) -> (r: bool)
        requires
            old(self).wf(),
        ensures
            final(self).wf(),
            final(self)@ == old(self)@,
            final(self).total_bits_left == old(self).total_bits_left,
            old(self)@.len() >= 4 ==> r == (ubit_var_fp_len(old(self)@) <= old(self)@.len()),
            old(self)@.len() < 4 ==> r == (old(self)@.len() == 3 && old(self)@[0]),
    {
        let remaining = match self.bits_remaining() {
            Some(n) => n,
            None => 0,
        };
        if remaining < 3 {
            return false;
        }
        if self.bits_left < 4 {
            self.refill();
        }
        proof {
            reveal_with_fuel(bits_value, 5);
        }
        let first = self.peek(1);
        if first == 1 {
            return true;
        }
        if remaining < 4 {
            return false;
        }
        let flags = self.peek(4);
        let needed: usize = if (flags / 2) % 2 == 1 {
            6
        } else if (flags / 4) % 2 == 1 {
            13
        } else if (flags / 8) % 2 == 1 {
            21
        } else {
            35
        };
        needed <= remaining
    }

    /// Reads one bit.
    pub fn read_boolean(&mut self) -> (r: Result<bool, DemoParserError>)
        requires
            old(self).wf(),
            1 <= old(self)@.len(),
        ensures
            final(self).total_bits_left == old(self).total_bits_left,
            final(self).wf(),
            final(self)@ == old(self)@.skip(1),
            r == Ok::<bool, DemoParserError>(old(self)@[0]),
    {
        let v = self.read_nbits(1)?;
        proof {
            reveal_with_fuel(bits_value, 2);
        }
        Ok(v != 0)
    }
}

/// The bit reader and the byte decoder agree: at any whole-byte position
/// `p`, a varint read from the bits of a byte slice is the varint decoded
/// from the slice at `p`, and it takes eight bits per byte the slice decoder takes.
pub proof fn law_bit_and_byte_varints_agree(data: Seq<u8>, p: usize)
    requires
        p <= data.len(),
    ensures
        ({
            let stream = bytes_of_bits(bits_of_bytes(data).skip(8 * p as int));
            let tail = bytes_from(data, p);
            &&& varint_complete(stream, 5) == varint_complete(tail, 5)
            &&& varint32_value(stream) == varint32_value(tail)
            &&& varint_extent(stream, 5) == varint_extent(tail, 5)
        }),
{
    crate::bitstream::lemma_bits_of_bytes_skip(data, p as nat);
    crate::bitstream::lemma_bytes_of_bits_of_bytes(data.skip(p as int));
    assert(bytes_from(data, p) =~= data.skip(p as int));
}

/// The zigzag code of a signed value: non-negative values to even numbers,
/// negative ones to odd numbers.
pub open spec fn zigzag(v: int) -> int {
    if v >= 0 {
        2 * v
    } else {
        -2 * v - 1
    }
}

/// The signed reading undoes zigzag coding for values whose code stays
/// below `2^31`, and the code is what `(v << 1) ^ (v >> 31)` computes.
pub proof fn law_varint32_signed_zigzag(v: i32)
    requires
        -0x4000_0000 <= v < 0x4000_0000,
    ensures
        ((v << 1u32) ^ (v >> 31u32)) as u32 as int == zigzag(v as int),
        varint32_signed(zigzag(v as int) as u32) == v,
{
    assert(-0x4000_0000 <= v < 0x4000_0000 ==> ((v << 1u32) ^ (v >> 31u32)) as u32 as int == (
    if v >= 0 {
        2 * v
    } else {
        -2 * v - 1
    })) by (bit_vector);
}

/// A signed varint written as the encoding of its zigzag code reads back as
/// itself, whatever follows, taking exactly the encoding's bytes.
pub proof fn law_signed_varint_round_trip(v: i32, rest: Seq<u8>)
    requires
        -0x4000_0000 <= v < 0x4000_0000,
    ensures
        ({
            let s = crate::varint::varint_encode(zigzag(v as int) as nat) + rest;
            &&& varint_complete(s, 5)
            &&& varint_extent(s, 5) == crate::varint::varint_encode(zigzag(v as int) as nat).len()
            &&& varint32_signed(varint32_value(s)) == v
        }),
{
    law_varint32_signed_zigzag(v);
    crate::varint::law_varint32_round_trip(zigzag(v as int) as u32, rest);
}

/// Flipping the sign bit of a whole bit-coded coordinate that has an integer
/// part or a fraction flips its sign and keeps its length and magnitude.
pub proof fn law_bit_coord_sign(s1: Seq<bool>, s2: Seq<bool>)
    requires
        s1.len() == s2.len(),
        bit_coord_len(s1) <= s1.len(),
        forall|i: int| 0 <= i < s1.len() && i != 2 ==> s1[i] == s2[i],
        s1[2] != s2[2],
        s1[0] || s1[1],
    ensures
        bit_coord_len(s1) == bit_coord_len(s2),
        bit_coord_parts(s1).negative == !bit_coord_parts(s2).negative,
        bit_coord_parts(s1).int_val == bit_coord_parts(s2).int_val,
        bit_coord_parts(s1).frac_val == bit_coord_parts(s2).frac_val,
{
    assert(s1[0] == s2[0] && s1[1] == s2[1]);
    assert(s1.skip(3) =~= s2.skip(3));
    if s1.len() >= 17 {
        assert(s1.skip(17) =~= s2.skip(17));
    }
}

/// How a writer puts `v` as a `UBitVar`: values below 16 as the bare header;
/// larger ones as a header holding the low four bits, tagged 1, 2 or 3 in
/// its top two bits, followed by the rest of the value in 4, 8 or 28 bits.
pub open spec fn ubit_var_encoding(v: u32) -> Seq<bool> {
    if v < 16 {
        bits_of_value(v as nat, 6)
    } else if v < 256 {
        bits_of_value((16 + v % 16) as nat, 6) + bits_of_value((v / 16) as nat, 4)
    } else if v < 4096 {
        bits_of_value((32 + v % 16) as nat, 6) + bits_of_value((v / 16) as nat, 8)
    } else {
        bits_of_value((48 + v % 16) as nat, 6) + bits_of_value((v / 16) as nat, 28)
    }
}

/// A header and an extension written one after the other read back separately.
proof fn lemma_header_then_extension(h: nat, e: nat, k: nat, rest: Seq<bool>)
    ensures
        bits_value(bits_of_value(h, 6) + bits_of_value(e, k) + rest, 6) == h % pow2(6),
        (bits_of_value(h, 6) + bits_of_value(e, k) + rest).skip(6) == bits_of_value(e, k) + rest,
        bits_value((bits_of_value(h, 6) + bits_of_value(e, k) + rest).skip(6), k) == e % pow2(k),
        (bits_of_value(h, 6) + bits_of_value(e, k)).len() == 6 + k,
{
    let tail = bits_of_value(e, k) + rest;
    lemma_bits_value_of_value(h, 6, tail);
    lemma_bits_value_of_value(e, k, rest);
    assert(bits_of_value(h, 6) + bits_of_value(e, k) + rest =~= bits_of_value(h, 6) + tail);
    assert((bits_of_value(h, 6) + tail).skip(6) =~= tail);
}

/// Every `u32` written as a `UBitVar` reads back as itself, and the reader
/// takes exactly the bits that were written, whatever follows them.
pub proof fn law_u_bit_var_round_trip(v: u32, rest: Seq<bool>)
    ensures
        ubit_var_len(ubit_var_encoding(v) + rest) == ubit_var_encoding(v).len(),
        ubit_var_value(ubit_var_encoding(v) + rest) == v,
{
    lemma2_to64();
    vstd::arithmetic::power2::lemma2_to64_rest();
    let s = ubit_var_encoding(v) + rest;
    if v < 16 {
        lemma_bits_value_of_value(v as nat, 6, rest);
    } else if v < 256 {
        lemma_header_then_extension((16 + v % 16) as nat, (v / 16) as nat, 4, rest);
    } else if v < 4096 {
        lemma_header_then_extension((32 + v % 16) as nat, (v / 16) as nat, 8, rest);
    } else {
        lemma_header_then_extension((48 + v % 16) as nat, (v / 16) as nat, 28, rest);
    }
}

/// How a writer puts `v < 2^31` as a field-path `UBitVar`: flag bits up to
/// the first set one (or four clear flags), then `v` in the width that flag
/// selects: 2, 4, 10, 17 or 31 bits.
pub open spec fn ubit_var_fp_encoding(v: u32) -> Seq<bool> {
    if v < 4 {
        seq![true] + bits_of_value(v as nat, 2)
    } else if v < 16 {
        seq![false, true] + bits_of_value(v as nat, 4)
    } else if v < 1024 {
        seq![false, false, true] + bits_of_value(v as nat, 10)
    } else if v < 0x2_0000 {
        seq![false, false, false, true] + bits_of_value(v as nat, 17)
    } else {
        seq![false, false, false, false] + bits_of_value(v as nat, 31)
    }
}

/// Flags written before a value read back as themselves, and the value
/// after them reads back modulo the width written.
proof fn lemma_flags_then_value(flags: Seq<bool>, v: nat, k: nat, rest: Seq<bool>)
    ensures
        (flags + bits_of_value(v, k) + rest).skip(flags.len() as int) == bits_of_value(v, k) + rest,
        bits_value((flags + bits_of_value(v, k) + rest).skip(flags.len() as int), k) == v % pow2(k),
        (flags + bits_of_value(v, k)).len() == flags.len() + k,
        forall|i: int| 0 <= i < flags.len() ==> (flags + bits_of_value(v, k) + rest)[i] == flags[i],
{
    lemma_bits_value_of_value(v, k, rest);
    assert((flags + bits_of_value(v, k) + rest).skip(flags.len() as int) =~= bits_of_value(v, k)
        + rest);
}

/// Every `v < 2^31` written as a field-path `UBitVar` reads back as itself,
/// and the reader takes exactly the bits that were written.
pub proof fn law_ubit_var_fp_round_trip(v: u32, rest: Seq<bool>)
    requires
        v < 0x8000_0000,
    ensures
        ubit_var_fp_len(ubit_var_fp_encoding(v) + rest) == ubit_var_fp_encoding(v).len(),
        ubit_var_fp_value(ubit_var_fp_encoding(v) + rest) == v,
{
    lemma2_to64();
    vstd::arithmetic::power2::lemma2_to64_rest();
    if v < 4 {
        lemma_flags_then_value(seq![true], v as nat, 2, rest);
    } else if v < 16 {
        lemma_flags_then_value(seq![false, true], v as nat, 4, rest);
    } else if v < 1024 {
        lemma_flags_then_value(seq![false, false, true], v as nat, 10, rest);
    } else if v < 0x2_0000 {
        lemma_flags_then_value(seq![false, false, false, true], v as nat, 17, rest);
    } else {
        lemma_flags_then_value(seq![false, false, false, false], v as nat, 31, rest);
    }
}

} // verus!
