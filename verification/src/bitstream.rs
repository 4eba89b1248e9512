//! The mathematical model of a bit stream: the bits of a byte slice in
//! least-significant-bit-first order, and the integer value of a run of them.
use vstd::arithmetic::div_mod::lemma_fundamental_div_mod_converse_div;
use vstd::arithmetic::div_mod::lemma_fundamental_div_mod_converse_mod;
use vstd::arithmetic::power2::lemma_pow2_pos;
use vstd::arithmetic::power2::lemma_pow2_unfold;
use vstd::arithmetic::power2::lemma2_to64;
use vstd::arithmetic::power2::pow2;
use vstd::prelude::*;

verus! {

/// 1 for a set bit, 0 for a clear one.
pub open spec fn bit_weight(b: bool) -> nat {
    if b {
        1
    } else {
        0
    }
}

/// The value of the first `n` bits of `s`, the first bit being the least significant.
pub open spec fn bits_value(s: Seq<bool>, n: nat) -> nat
    decreases n,
{
    if n == 0 {
        0
    } else {
        bit_weight(s[0]) + 2 * bits_value(s.drop_first(), (n - 1) as nat)
    }
}

/// The bits of `data`, byte after byte, each byte from its least significant bit up.
pub open spec fn bits_of_bytes(data: Seq<u8>) -> Seq<bool> {
    Seq::new(8 * data.len(), |k: int| (data[k / 8] >> ((k % 8) as u8)) & 1u8 == 1u8)
}

/// The whole bytes held by a bit sequence: byte `i` is the value of bits `8i .. 8i + 8`.
pub open spec fn bytes_of_bits(s: Seq<bool>) -> Seq<u8> {
    Seq::new(s.len() / 8, |i: int| bits_value(s.skip(8 * i), 8) as u8)
}

/// Powers of two grow with the exponent.
pub proof fn lemma_pow2_le(a: nat, b: nat)
    requires
        a <= b,
    ensures
        pow2(a) <= pow2(b),
{
    if a < b {
        vstd::arithmetic::power2::lemma_pow2_strictly_increases(a, b);
    }
}

pub proof fn lemma_bits_value_bound(s: Seq<bool>, n: nat)
    ensures
        bits_value(s, n) < pow2(n),
    decreases n,
{
    if n == 0 {
        lemma2_to64();
    } else {
        lemma_bits_value_bound(s.drop_first(), (n - 1) as nat);
        lemma_pow2_unfold(n);
    }
}

/// Splitting a run of bits in two: the low part, then the high part shifted up.
pub proof fn lemma_bits_value_split(s: Seq<bool>, a: nat, b: nat)
    requires
        a + b <= s.len(),
    ensures
        bits_value(s, a + b) == bits_value(s, a) + pow2(a) * bits_value(s.skip(a as int), b),
    decreases a,
{
    if a == 0 {
        assert(s.skip(0) =~= s);
        lemma2_to64();
        assert(bits_value(s, 0) == 0);
        assert(a + b == b);
        assert(bits_value(s, a + b) == bits_value(s, a) + pow2(a) * bits_value(s.skip(a as int), b));
    } else {
        let t = s.drop_first();
        lemma_bits_value_split(t, (a - 1) as nat, b);
        assert(t.skip(a - 1) =~= s.skip(a as int));
        assert((a + b - 1) as nat == ((a - 1) as nat + b) as nat);
        lemma_pow2_unfold(a);
        let p = pow2((a - 1) as nat);
        let x = bits_value(t.skip(a - 1), b);
        assert(2 * (p * x) == (2 * p) * x) by (nonlinear_arith);
        assert(bits_value(s, a + b) == bit_weight(s[0]) + 2 * bits_value(t, (a + b - 1) as nat));
        assert(bits_value(s, a) == bit_weight(s[0]) + 2 * bits_value(t, (a - 1) as nat));
        assert(pow2(a) * x == (2 * p) * x);
        assert(bits_value(t, (a - 1 + b) as nat) == bits_value(t, (a - 1) as nat) + p * x);
        assert(bits_value(s, a + b) == bits_value(s, a) + pow2(a) * bits_value(s.skip(a as int), b));
    }
}

/// The low `n` bits of a run are its value modulo `2^n`; the rest is its quotient.
pub proof fn lemma_bits_value_div_mod(s: Seq<bool>, n: nat, k: nat)
    requires
        n <= k <= s.len(),
    ensures
        bits_value(s, k) % pow2(n) == bits_value(s, n),
        bits_value(s, k) / pow2(n) == bits_value(s.skip(n as int), (k - n) as nat),
{
    lemma_bits_value_split(s, n, (k - n) as nat);
    lemma_bits_value_bound(s, n);
    lemma_pow2_pos(n);
    let x = bits_value(s, k) as int;
    let d = pow2(n) as int;
    let q = bits_value(s.skip(n as int), (k - n) as nat) as int;
    let r = bits_value(s, n) as int;
    assert(x == q * d + r) by (nonlinear_arith)
        requires
            x == r + d * q,
    ;
    lemma_fundamental_div_mod_converse_mod(x, d, q, r);
    lemma_fundamental_div_mod_converse_div(x, d, q, r);
}

/// A bit sequence holds as many whole bytes as fit in it.
pub proof fn lemma_bytes_of_bits_len(s: Seq<bool>)
    ensures
        bytes_of_bits(s).len() == s.len() / 8,
{
}

/// Byte `c` of the whole bytes of a bit sequence is the run of eight bits at `8 c`.
pub proof fn lemma_byte_of_bits(s: Seq<bool>, c: nat)
    requires
        c < s.len() / 8,
    ensures
        8 * c + 8 <= s.len(),
        bytes_of_bits(s).len() == s.len() / 8,
        bytes_of_bits(s)[c as int] as nat == bits_value(s.skip(8 * c as int), 8),
{
    assert(8 * c + 8 <= s.len()) by (nonlinear_arith)
        requires
            c < s.len() / 8,
    ;
    lemma_bits_value_bound(s.skip(8 * c as int), 8);
    lemma2_to64();
}

/// Dropping bits from the front moves the start of every later run.
pub proof fn lemma_skip_skip(s: Seq<bool>, a: int, b: int)
    requires
        0 <= a,
        0 <= b,
        a + b <= s.len(),
    ensures
        s.skip(a).skip(b) == s.skip(a + b),
{
    assert(s.skip(a).skip(b) =~= s.skip(a + b));
}

proof fn lemma_byte_is_sum_of_bits(b: u8)
    ensures
        b as int == ((b >> 0u8) & 1u8) + 2 * (((b >> 1u8) & 1u8) + 2 * (((b >> 2u8) & 1u8) + 2 * (((
        b >> 3u8) & 1u8) + 2 * (((b >> 4u8) & 1u8) + 2 * (((b >> 5u8) & 1u8) + 2 * (((b >> 6u8)
            & 1u8) + 2 * ((b >> 7u8) & 1u8))))))),
{
    assert(b as int == ((b >> 0u8) & 1u8) + 2 * (((b >> 1u8) & 1u8) + 2 * (((b >> 2u8) & 1u8) + 2
        * (((b >> 3u8) & 1u8) + 2 * (((b >> 4u8) & 1u8) + 2 * (((b >> 5u8) & 1u8) + 2 * (((b
        >> 6u8) & 1u8) + 2 * ((b >> 7u8) & 1u8)))))))) by (bit_vector);
}

/// Eight bits that spell out the byte `b` have the value `b`.
pub proof fn lemma_bits_value_of_byte(t: Seq<bool>, b: u8)
    requires
        t.len() >= 8,
        forall|k: int| 0 <= k < 8 ==> #[trigger] t[k] == ((b >> (k as u8)) & 1u8 == 1u8),
    ensures
        bits_value(t, 8) == b,
{
    lemma_byte_is_sum_of_bits(b);
    assert forall|k: int| 0 <= k < 8 implies bit_weight(#[trigger] t[k]) == ((b >> (k as u8))
        & 1u8) by {
        let kk = k as u8;
        assert((b >> kk) & 1u8 <= 1u8) by (bit_vector);
    }
    let t1 = t.drop_first();
    let t2 = t1.drop_first();
    let t3 = t2.drop_first();
    let t4 = t3.drop_first();
    let t5 = t4.drop_first();
    let t6 = t5.drop_first();
    let t7 = t6.drop_first();
    assert(t[0] == t[0] && t[1] == t1[0] && t[2] == t2[0] && t[3] == t3[0] && t[4] == t4[0]
        && t[5] == t5[0] && t[6] == t6[0] && t[7] == t7[0]);
    reveal_with_fuel(bits_value, 9);
}

/// Skipping whole bytes of bits is skipping those bytes.
pub proof fn lemma_bits_of_bytes_skip(data: Seq<u8>, p: nat)
    requires
        p <= data.len(),
    ensures
        bits_of_bytes(data).skip(8 * p as int) == bits_of_bytes(data.skip(p as int)),
{
    let l = bits_of_bytes(data).skip(8 * p as int);
    let r = bits_of_bytes(data.skip(p as int));
    assert(8 * data.len() - 8 * p == 8 * (data.len() - p)) by (nonlinear_arith);
    assert forall|k: int| 0 <= k < r.len() implies #[trigger] l[k] == r[k] by {
        assert((8 * p + k) / 8 == p + k / 8 && (8 * p + k) % 8 == k % 8) by (nonlinear_arith)
            requires
                0 <= k,
        ;
        assert(k / 8 < data.len() - p) by (nonlinear_arith)
            requires
                0 <= k < 8 * (data.len() - p),
        ;
    }
    assert(l =~= r);
}

/// Reading the bytes back out of the bits of a byte slice gives the slice.
pub proof fn lemma_bytes_of_bits_of_bytes(data: Seq<u8>)
    ensures
        bytes_of_bits(bits_of_bytes(data)) == data,
        bits_of_bytes(data).len() == 8 * data.len(),
{
    let s = bits_of_bytes(data);
    assert((8 * data.len()) / 8 == data.len()) by (nonlinear_arith);
    assert forall|i: int| 0 <= i < data.len() implies #[trigger] bytes_of_bits(s)[i] == data[i] by {
        let t = s.skip(8 * i);
        assert(8 * i + 8 <= 8 * data.len()) by (nonlinear_arith)
            requires
                0 <= i < data.len(),
        ;
        assert forall|k: int| 0 <= k < 8 implies #[trigger] t[k] == ((data[i] >> (k as u8)) & 1u8
            == 1u8) by {
            assert((8 * i + k) / 8 == i && (8 * i + k) % 8 == k) by (nonlinear_arith)
                requires
                    0 <= k < 8,
            ;
        }
        lemma_bits_value_of_byte(t, data[i]);
    }
    assert(bytes_of_bits(s) =~= data);
}

/// The `n` low bits of `x`, least significant first, as a writer puts them.
pub open spec fn bits_of_value(x: nat, n: nat) -> Seq<bool>
    decreases n,
{
    if n == 0 {
        Seq::empty()
    } else {
        seq![x % 2 == 1] + bits_of_value(x / 2, (n - 1) as nat)
    }
}

/// Reading `n` bits back from where `n` low bits of `x` were written gives
/// `x` modulo `2^n`, whatever follows.
pub proof fn lemma_bits_value_of_value(x: nat, n: nat, rest: Seq<bool>)
    ensures
        bits_of_value(x, n).len() == n,
        bits_value(bits_of_value(x, n) + rest, n) == x % pow2(n),
    decreases n,
{
    if n == 0 {
        lemma2_to64();
    } else {
        let s = bits_of_value(x, n) + rest;
        lemma_bits_value_of_value(x / 2, (n - 1) as nat, rest);
        assert(s.drop_first() =~= bits_of_value(x / 2, (n - 1) as nat) + rest);
        lemma_pow2_unfold(n);
        lemma_pow2_pos((n - 1) as nat);
        vstd::arithmetic::div_mod::lemma_mod_breakdown(x as int, 2, pow2((n - 1) as nat) as int);
    }
}

} // verus!
