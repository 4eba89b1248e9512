//! Base-128 variable-length integers: each byte carries seven value bits, low
//! group first, and a set high bit announces that another byte follows.
use vstd::arithmetic::div_mod::lemma_small_mod;
use vstd::arithmetic::power2::lemma2_to64;
use vstd::arithmetic::power2::lemma2_to64_rest;
use vstd::arithmetic::power2::lemma_pow2_adds;
use crate::bitstream::lemma_pow2_le;
use vstd::arithmetic::power2::pow2;
use vstd::bits::lemma_u64_shl_is_mul;
use vstd::prelude::*;

verus! {

/// How many bytes a decoder that reads at most `max` bytes takes from `bytes`:
/// everything up to and including the first byte whose high bit is clear,
/// stopping early at `max` bytes or at the end of the input.
pub open spec fn varint_extent(bytes: Seq<u8>, max: nat) -> nat
    decreases max,
{
    if max == 0 || bytes.len() == 0 {
        0
    } else if bytes[0] < 0x80 {
        1
    } else {
        1 + varint_extent(bytes.drop_first(), (max - 1) as nat)
    }
}

/// The input holds a whole varint of at most `max` bytes: either a byte with
/// a clear high bit comes within the first `max` bytes, or `max` bytes are there.
pub open spec fn varint_complete(bytes: Seq<u8>, max: nat) -> bool {
    let e = varint_extent(bytes, max);
    e == max || (e > 0 && bytes[e - 1] < 0x80)
}

/// A byte with a clear high bit comes within the first `max` bytes.
pub open spec fn varint_terminated(bytes: Seq<u8>, max: nat) -> bool {
    let e = varint_extent(bytes, max);
    e > 0 && bytes[e - 1] < 0x80
}

/// The value of the first `k` bytes: the low seven bits of byte `i` weighted by `2^(7 i)`.
pub open spec fn varint_sum(bytes: Seq<u8>, k: nat) -> nat
    decreases k,
{
    if k == 0 {
        0
    } else {
        varint_sum(bytes, (k - 1) as nat) + (bytes[k - 1] % 128) as nat * pow2(7 * (k - 1) as nat)
    }
}

/// What a 32-bit decoder of at most five bytes returns for the varint at the
/// front of `bytes`: the sum of its groups, cut to 32 bits.
pub open spec fn varint32_value(bytes: Seq<u8>) -> u32 {
    (varint_sum(bytes, varint_extent(bytes, 5)) % 0x1_0000_0000) as u32
}

/// Where the extent ends, given that the first `c` bytes all carry a set high bit.
pub proof fn lemma_varint_extent_after_continuations(bytes: Seq<u8>, max: nat, c: nat)
    requires
        c <= max,
        c <= bytes.len(),
        forall|i: int| 0 <= i < c ==> #[trigger] bytes[i] >= 0x80,
    ensures
        c == max ==> varint_extent(bytes, max) == max,
        c < max && c < bytes.len() && bytes[c as int] < 0x80 ==> varint_extent(bytes, max) == c + 1,
        c < max && c == bytes.len() ==> varint_extent(bytes, max) == c,
        c <= varint_extent(bytes, max),
    decreases c,
{
    if c > 0 {
        let t = bytes.drop_first();
        assert forall|i: int| 0 <= i < c - 1 implies #[trigger] t[i] >= 0x80 by {
            assert(t[i] == bytes[i + 1]);
        }
        lemma_varint_extent_after_continuations(t, (max - 1) as nat, (c - 1) as nat);
        assert(bytes[0] >= 0x80);
        if c < bytes.len() {
            assert(t[c - 1] == bytes[c as int]);
        }
    }
}

pub proof fn lemma_varint_extent_bound(bytes: Seq<u8>, max: nat)
    ensures
        varint_extent(bytes, max) <= max,
        varint_extent(bytes, max) <= bytes.len(),
    decreases max,
{
    if max > 0 && bytes.len() > 0 && bytes[0] >= 0x80 {
        lemma_varint_extent_bound(bytes.drop_first(), (max - 1) as nat);
    }
}

/// The bytes before the last one the decoder takes all carry a set high bit.
pub proof fn lemma_varint_extent_continuations(bytes: Seq<u8>, max: nat)
    ensures
        forall|i: int| 0 <= i < varint_extent(bytes, max) - 1 ==> #[trigger] bytes[i] >= 0x80,
    decreases max,
{
    if max > 0 && bytes.len() > 0 && bytes[0] >= 0x80 {
        let t = bytes.drop_first();
        lemma_varint_extent_bound(bytes, max);
        lemma_varint_extent_continuations(t, (max - 1) as nat);
        assert forall|i: int| 0 <= i < varint_extent(bytes, max) - 1 implies #[trigger] bytes[i]
            >= 0x80 by {
            if i > 0 {
                assert(bytes[i] == t[i - 1]);
            }
        }
    }
}

pub proof fn lemma_varint_sum_bound(bytes: Seq<u8>, k: nat)
    ensures
        varint_sum(bytes, k) < pow2(7 * k),
    decreases k,
{
    if k == 0 {
        lemma2_to64();
    } else {
        lemma_varint_sum_bound(bytes, (k - 1) as nat);
        let p = pow2(7 * (k - 1) as nat);
        lemma_pow2_adds(7 * (k - 1) as nat, 7);
        lemma2_to64();
        assert(7 * k == 7 * (k - 1) as nat + 7);
        let x = (bytes[k - 1] % 128) as nat;
        assert(x * p <= 127 * p) by (nonlinear_arith)
            requires
                x <= 127,
        ;
    }
}

/// Adding the next group, as a decoder with a 32-bit accumulator does it:
/// the accumulator so far fits below the group's position, so the OR is an addition.
pub proof fn lemma_varint32_step(result: u32, b: u32, count: u32, bytes: Seq<u8>)
    requires
        count < 5,
        count < bytes.len(),
        b == bytes[count as int],
        result == varint_sum(bytes, count as nat),
    ensures
        (result | ((b & 127) << ((7 * count) as u32))) as nat == varint_sum(bytes, (count + 1) as nat)
            % 0x1_0000_0000,
{
    let sh: u32 = (7 * count) as u32;
    lemma_varint_sum_bound(bytes, count as nat);
    lemma2_to64();
    lemma_pow2_le(sh as nat, 32);
    assert(pow2(32) == 0x1_0000_0000) by {
        lemma2_to64();
    }
    let x: u32 = b & 127;
    assert(b & 127 == b % 128) by (bit_vector);
    assert(result < (1u32 << sh)) by {
        vstd::bits::lemma_u32_shl_is_mul(1, sh);
    }
    assert(((result | (x << sh)) as int) == ((result as int) + ((x as u64) << (sh as u64)) as int)
        % 0x1_0000_0000) by (bit_vector)
        requires
            sh <= 28,
            result < (1u32 << sh),
            x < 128,
    ;
    lemma_pow2_le(sh as nat, 28);
    assert((x as u64) * pow2(sh as nat) <= u64::MAX) by (nonlinear_arith)
        requires
            x < 128,
            pow2(sh as nat) <= pow2(28),
            pow2(28) == 0x1000_0000,
    ;
    lemma_u64_shl_is_mul(x as u64, sh as u64);
    let r = result as int;
    let add = x as int * pow2(sh as nat) as int;
    assert(r % 0x1_0000_0000 == r) by {
        lemma_small_mod(r as nat, 0x1_0000_0000);
    }
    assert((count + 1) as nat - 1 == count as nat);
    assert(7 * count as nat == sh as nat);
}

/// Adding the next group to a 64-bit accumulator that has room for it.
pub proof fn lemma_varint64_step(result: u64, b: u64, count: u64, bytes: Seq<u8>)
    requires
        count <= 8,
        count < bytes.len(),
        b == bytes[count as int],
        result == varint_sum(bytes, count as nat),
    ensures
        (result | ((b & 127) << ((7 * count) as u64))) == varint_sum(bytes, (count + 1) as nat),
{
    let sh: u64 = (7 * count) as u64;
    lemma_varint_sum_bound(bytes, count as nat);
    lemma2_to64();
    lemma2_to64_rest();
    let x: u64 = b & 127;
    assert(b & 127 == b % 128) by (bit_vector);
    lemma_pow2_le(sh as nat, 56);
    assert(result < (1u64 << sh)) by {
        vstd::bits::lemma_u64_shl_is_mul(1, sh);
    }
    assert((result | (x << sh)) == result + (x << sh)) by (bit_vector)
        requires
            sh <= 56,
            result < (1u64 << sh),
            x < 128,
    ;
    assert(x * pow2(sh as nat) <= u64::MAX) by (nonlinear_arith)
        requires
            x < 128,
            pow2(sh as nat) <= pow2(56),
            pow2(56) == 0x100_0000_0000_0000,
    ;
    lemma_u64_shl_is_mul(x, sh);
    assert((count + 1) as nat - 1 == count as nat);
}

/// Adding the terminating byte to a 64-bit accumulator that has room for it.
pub proof fn lemma_varint64_last(result: u64, b: u64, count: u64, bytes: Seq<u8>)
    requires
        count <= 9,
        count < bytes.len(),
        b == bytes[count as int],
        b < 0x80,
        count == 9 ==> b <= 1,
        result == varint_sum(bytes, count as nat),
    ensures
        (result | (b << ((7 * count) as u64))) == varint_sum(bytes, (count + 1) as nat),
{
    let sh: u64 = (7 * count) as u64;
    lemma_varint_sum_bound(bytes, count as nat);
    lemma2_to64();
    lemma2_to64_rest();
    assert(b % 128 == b);
    lemma_pow2_le(sh as nat, 63);
    assert(result < (1u64 << sh)) by {
        vstd::bits::lemma_u64_shl_is_mul(1, sh);
    }
    assert((result | (b << sh)) == result + (b << sh)) by (bit_vector)
        requires
            sh <= 63,
            result < (1u64 << sh),
            b < 128,
            sh == 63 ==> b <= 1,
    ;
    if count == 9 {
        assert(b * pow2(63) <= u64::MAX);
        assert(result + b * pow2(63) <= u64::MAX);
    } else {
        assert(pow2(sh as nat) <= pow2(56)) by {
            lemma_pow2_le(sh as nat, 56);
        }
        assert(b * pow2(sh as nat) <= u64::MAX) by (nonlinear_arith)
            requires
                b < 128,
                pow2(sh as nat) <= pow2(56),
                pow2(56) == 0x100_0000_0000_0000,
        ;
    }
    lemma_u64_shl_is_mul(b, sh);
    assert((count + 1) as nat - 1 == count as nat);
}

/// The varint encoding of `v`: seven bits per byte, low group first, the
/// high bit set on every byte but the last.
pub open spec fn varint_encode(v: nat) -> Seq<u8>
    decreases v,
{
    if v < 128 {
        seq![v as u8]
    } else {
        seq![(v % 128 + 128) as u8] + varint_encode(v / 128)
    }
}

/// The group sum of the first `k` bytes depends on those bytes only.
pub proof fn lemma_varint_sum_prefix(a: Seq<u8>, b: Seq<u8>, k: nat)
    requires
        k <= a.len(),
        k <= b.len(),
        forall|i: int| 0 <= i < k ==> a[i] == b[i],
    ensures
        varint_sum(a, k) == varint_sum(b, k),
    decreases k,
{
    if k > 0 {
        lemma_varint_sum_prefix(a, b, (k - 1) as nat);
    }
}

/// A leading byte contributes its low seven bits; the rest moves up a group.
pub proof fn lemma_varint_sum_cons(b: u8, t: Seq<u8>, k: nat)
    requires
        k <= t.len(),
    ensures
        varint_sum(seq![b] + t, k + 1) == (b % 128) as nat + 128 * varint_sum(t, k),
    decreases k,
{
    let s = seq![b] + t;
    lemma2_to64();
    if k == 0 {
        assert(s[0] == b);
        assert(varint_sum(s, 1) == varint_sum(s, 0) + (s[0] % 128) as nat * pow2(0));
    } else {
        lemma_varint_sum_cons(b, t, (k - 1) as nat);
        assert(s[k as int] == t[k - 1]);
        lemma_pow2_adds(7 * (k - 1) as nat, 7);
        let p = pow2(7 * (k - 1) as nat);
        assert(pow2(7 * k) == p * 128) by {
            assert(7 * (k - 1) as nat + 7 == 7 * k);
        }
        let x = (t[k - 1] % 128) as nat;
        let prev = varint_sum(t, (k - 1) as nat);
        assert(varint_sum(s, k + 1) == varint_sum(s, k) + x * pow2(7 * k));
        assert(varint_sum(s, k) == (b % 128) as nat + 128 * prev);
        assert(varint_sum(t, k) == prev + x * p);
        assert(128 * (prev + x * p) == 128 * prev + x * (p * 128)) by (nonlinear_arith);
    }
}

/// The shape and value of an encoding: every byte but the last carries a
/// set high bit, and the group sum of all its bytes is `v`.
pub proof fn lemma_varint_encode(v: nat)
    ensures
        ({
            let e = varint_encode(v);
            &&& e.len() >= 1
            &&& forall|i: int| 0 <= i < e.len() - 1 ==> #[trigger] e[i] >= 0x80
            &&& e[e.len() - 1] < 0x80
            &&& varint_sum(e, e.len()) == v
        }),
    decreases v,
{
    lemma2_to64();
    if v >= 128 {
        let t = varint_encode(v / 128);
        lemma_varint_encode(v / 128);
        let b = (v % 128 + 128) as u8;
        let e = seq![b] + t;
        assert(varint_encode(v) == e);
        assert forall|i: int| 0 <= i < e.len() - 1 implies #[trigger] e[i] >= 0x80 by {
            if i > 0 {
                assert(e[i] == t[i - 1]);
            }
        }
        assert(e[e.len() - 1] == t[t.len() - 1]);
        lemma_varint_sum_cons(b, t, t.len());
        assert(b % 128 == v % 128);
    } else {
        assert(varint_sum(varint_encode(v), 1) == varint_sum(varint_encode(v), 0) + (varint_encode(
            v,
        )[0] % 128) as nat * pow2(0));
    }
}

/// A value below `2^(7k)` takes at most `k` bytes.
pub proof fn lemma_varint_encode_len(v: nat, k: nat)
    requires
        k >= 1,
        v < pow2(7 * k),
    ensures
        varint_encode(v).len() <= k,
    decreases k,
{
    lemma2_to64();
    if v >= 128 {
        if k == 1 {
            assert(false);
        }
        lemma_pow2_adds(7 * (k - 1) as nat, 7);
        assert(7 * (k - 1) as nat + 7 == 7 * k);
        assert(v / 128 < pow2(7 * (k - 1) as nat)) by (nonlinear_arith)
            requires
                v < pow2(7 * (k - 1) as nat) * 128,
        ;
        lemma_varint_encode_len(v / 128, (k - 1) as nat);
    }
}

/// Where an encoding is followed by other bytes, a decoder that may take
/// at least its length takes exactly it, and its group sum is the value.
pub proof fn lemma_varint_encode_read(v: nat, rest: Seq<u8>, max: nat)
    requires
        varint_encode(v).len() <= max,
    ensures
        varint_extent(varint_encode(v) + rest, max) == varint_encode(v).len(),
        varint_terminated(varint_encode(v) + rest, max),
        varint_sum(varint_encode(v) + rest, varint_encode(v).len()) == v,
{
    let e = varint_encode(v);
    let s = e + rest;
    lemma_varint_encode(v);
    assert forall|i: int| 0 <= i < e.len() - 1 implies #[trigger] s[i] >= 0x80 by {
        assert(s[i] == e[i]);
    }
    lemma_varint_extent_after_continuations(s, max, (e.len() - 1) as nat);
    lemma_varint_sum_prefix(s, e, e.len());
}

/// Decoding the encoding of a 32-bit value gives it back, whatever follows:
/// the decoder takes exactly the encoding's bytes.
pub proof fn law_varint32_round_trip(v: u32, rest: Seq<u8>)
    ensures
        1 <= varint_encode(v as nat).len() <= 5,
        varint_complete(varint_encode(v as nat) + rest, 5),
        varint_extent(varint_encode(v as nat) + rest, 5) == varint_encode(v as nat).len(),
        varint32_value(varint_encode(v as nat) + rest) == v,
{
    lemma2_to64();
    lemma_varint_encode(v as nat);
    vstd::arithmetic::power2::lemma2_to64_rest();
    lemma_pow2_le(32, 35);
    lemma_varint_encode_len(v as nat, 5);
    lemma_varint_encode_read(v as nat, rest, 5);
    lemma_small_mod(v as nat, 0x1_0000_0000);
}

/// Decoding the encoding of a 64-bit value gives it back, whatever follows:
/// the decoder takes exactly the encoding's bytes and finds it in range.
pub proof fn law_varint64_round_trip(v: u64, rest: Seq<u8>)
    ensures
        ({
            let e = varint_encode(v as nat);
            let s = e + rest;
            &&& 1 <= e.len() <= 10
            &&& varint_terminated(s, s.len())
            &&& varint_extent(s, s.len()) == e.len()
            &&& (e.len() <= 9 || (e.len() == 10 && s[9] <= 1))
            &&& varint_sum(s, e.len()) == v
        }),
{
    let e = varint_encode(v as nat);
    let s = e + rest;
    lemma2_to64();
    vstd::arithmetic::power2::lemma2_to64_rest();
    lemma_varint_encode(v as nat);
    lemma_pow2_le(64, 70);
    lemma_varint_encode_len(v as nat, 10);
    lemma_varint_encode_read(v as nat, rest, s.len());
    if e.len() == 10 {
        assert(s[9] == e[9]);
        lemma_varint_sum_bound(e, 9);
        assert(varint_sum(e, 10) == varint_sum(e, 9) + (e[9] % 128) as nat * pow2(63));
        assert(e[9] % 128 == e[9]);
        if e[9] >= 2 {
            assert((e[9] % 128) as nat * pow2(63) >= 2 * pow2(63)) by (nonlinear_arith)
                requires
                    e[9] % 128 >= 2,
            ;
        }
    }
}

} // verus!
