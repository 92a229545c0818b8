//! The mathematical model of fixed-width byte layouts.
//!
//! A scalar of width `w` stands for a bit pattern: a natural number below
//! `pow256(w)`.  `be_value` / `le_value` read such a number out of a byte
//! sequence, most-significant byte first (big-endian) or least-significant
//! byte first (little-endian); `be_bytes` / `le_bytes` lay a number out as a
//! byte sequence of a given width.  Signed scalars go through their
//! two's-complement pattern, captured by the `to_pattern_*` / `from_pattern_*`
//! functions.

use vstd::prelude::*;

verus! {

use vstd::arithmetic::div_mod::{
    lemma_div_denominator,
    lemma_fundamental_div_mod,
    lemma_multiply_divide_lt,
};

/// `256^w`: the number of distinct patterns a `w`-byte scalar can hold.
pub open spec fn pow256(w: nat) -> nat
    decreases w,
{
    if w == 0 {
        1
    } else {
        (256 * pow256((w - 1) as nat)) as nat
    }
}

/// The number held by `s` read big-endian: `s[0]` is the most significant
/// byte, so the value is the sum of `s[i] * 256^(len - 1 - i)`.
pub open spec fn be_value(s: Seq<u8>) -> nat
    decreases s.len(),
{
    if s.len() == 0 {
        0
    } else {
        (be_value(s.drop_last()) * 256 + s.last()) as nat
    }
}

/// The number held by `s` read little-endian: `s[0]` is the least significant
/// byte, so the value is the sum of `s[i] * 256^i`.
pub open spec fn le_value(s: Seq<u8>) -> nat
    decreases s.len(),
{
    if s.len() == 0 {
        0
    } else {
        (s.first() + 256 * le_value(s.drop_first())) as nat
    }
}

/// The `w` bytes of `n`, most significant first.
pub open spec fn be_bytes(n: nat, w: nat) -> Seq<u8>
    decreases w,
{
    if w == 0 {
        Seq::empty()
    } else {
        be_bytes(n / 256, (w - 1) as nat).push((n % 256) as u8)
    }
}

/// The `w` bytes of `n`, least significant first.
pub open spec fn le_bytes(n: nat, w: nat) -> Seq<u8>
    decreases w,
{
    if w == 0 {
        Seq::empty()
    } else {
        seq![(n % 256) as u8] + le_bytes(n / 256, (w - 1) as nat)
    }
}

/// The two's-complement bit pattern of an `i8`, as a number below `0x100`.
pub open spec fn to_pattern_i8(v: i8) -> nat {
    if v >= 0 {
        v as nat
    } else {
        (v + 0x100) as nat
    }
}

/// The `i8` whose two's-complement bit pattern is `n`.
pub open spec fn from_pattern_i8(n: nat) -> i8 {
    if n % 0x100 < 0x80 {
        (n % 0x100) as i8
    } else {
        (n % 0x100 - 0x100) as i8
    }
}

/// The two's-complement bit pattern of an `i16`, as a number below `0x10000`.
pub open spec fn to_pattern_i16(v: i16) -> nat {
    if v >= 0 {
        v as nat
    } else {
        (v + 0x10000) as nat
    }
}

/// The `i16` whose two's-complement bit pattern is `n`.
pub open spec fn from_pattern_i16(n: nat) -> i16 {
    if n % 0x10000 < 0x8000 {
        (n % 0x10000) as i16
    } else {
        (n % 0x10000 - 0x10000) as i16
    }
}

/// The two's-complement bit pattern of an `i32`, as a number below
/// `0x100000000`.
pub open spec fn to_pattern_i32(v: i32) -> nat {
    if v >= 0 {
        v as nat
    } else {
        (v + 0x100000000) as nat
    }
}

/// The `i32` whose two's-complement bit pattern is `n`.
pub open spec fn from_pattern_i32(n: nat) -> i32 {
    if n % 0x100000000 < 0x80000000 {
        (n % 0x100000000) as i32
    } else {
        (n % 0x100000000 - 0x100000000) as i32
    }
}

/// The two's-complement bit pattern of an `i64`, as a number below
/// `0x10000000000000000`.
pub open spec fn to_pattern_i64(v: i64) -> nat {
    if v >= 0 {
        v as nat
    } else {
        (v + 0x10000000000000000) as nat
    }
}

/// The `i64` whose two's-complement bit pattern is `n`.
pub open spec fn from_pattern_i64(n: nat) -> i64 {
    if n % 0x10000000000000000 < 0x8000000000000000 {
        (n % 0x10000000000000000) as i64
    } else {
        (n % 0x10000000000000000 - 0x10000000000000000) as i64
    }
}

/// The bit pattern of a boolean: one for true, zero for false.
pub open spec fn to_pattern_bool(v: bool) -> nat {
    if v {
        1
    } else {
        0
    }
}

pub proof fn lemma_pow256_values()
    ensures
        pow256(0) == 1,
        pow256(1) == 0x100,
        pow256(2) == 0x10000,
        pow256(4) == 0x100000000,
        pow256(8) == 0x10000000000000000,
{
    assert(pow256(1) == 256 * pow256(0));
    assert(pow256(2) == 256 * pow256(1));
    assert(pow256(3) == 256 * pow256(2));
    assert(pow256(4) == 256 * pow256(3));
    assert(pow256(5) == 256 * pow256(4));
    assert(pow256(6) == 256 * pow256(5));
    assert(pow256(7) == 256 * pow256(6));
    assert(pow256(8) == 256 * pow256(7));
}

pub proof fn lemma_be_value_bound(s: Seq<u8>)
    ensures
        be_value(s) < pow256(s.len()),
    decreases s.len(),
{
    if s.len() > 0 {
        lemma_be_value_bound(s.drop_last());
    }
}

pub proof fn lemma_le_value_bound(s: Seq<u8>)
    ensures
        le_value(s) < pow256(s.len()),
    decreases s.len(),
{
    if s.len() > 0 {
        lemma_le_value_bound(s.drop_first());
    }
}

pub proof fn lemma_be_bytes_len(n: nat, w: nat)
    ensures
        be_bytes(n, w).len() == w,
    decreases w,
{
    if w > 0 {
        lemma_be_bytes_len(n / 256, (w - 1) as nat);
    }
}

pub proof fn lemma_le_bytes_len(n: nat, w: nat)
    ensures
        le_bytes(n, w).len() == w,
    decreases w,
{
    if w > 0 {
        lemma_le_bytes_len(n / 256, (w - 1) as nat);
    }
}

/// Reading back the big-endian layout of `n` yields `n`, for every `n` that
/// fits in `w` bytes.
pub proof fn lemma_be_value_of_be_bytes(n: nat, w: nat)
    requires
        n < pow256(w),
    ensures
        be_value(be_bytes(n, w)) == n,
    decreases w,
{
    if w > 0 {
        let inner = be_bytes(n / 256, (w - 1) as nat);
        lemma_be_bytes_len(n / 256, (w - 1) as nat);
        assert(be_bytes(n, w).drop_last() =~= inner);
        lemma_multiply_divide_lt(n as int, 256, pow256((w - 1) as nat) as int);
        lemma_be_value_of_be_bytes(n / 256, (w - 1) as nat);
        lemma_fundamental_div_mod(n as int, 256);
    }
}

/// Reading back the little-endian layout of `n` yields `n`, for every `n`
/// that fits in `w` bytes.
pub proof fn lemma_le_value_of_le_bytes(n: nat, w: nat)
    requires
        n < pow256(w),
    ensures
        le_value(le_bytes(n, w)) == n,
    decreases w,
{
    if w > 0 {
        let inner = le_bytes(n / 256, (w - 1) as nat);
        lemma_le_bytes_len(n / 256, (w - 1) as nat);
        assert(le_bytes(n, w).drop_first() =~= inner);
        assert(le_bytes(n, w).first() == (n % 256) as u8);
        lemma_multiply_divide_lt(n as int, 256, pow256((w - 1) as nat) as int);
        lemma_le_value_of_le_bytes(n / 256, (w - 1) as nat);
        lemma_fundamental_div_mod(n as int, 256);
    }
}

pub proof fn lemma_value_empty(s: Seq<u8>, k: int)
    requires
        0 <= k <= s.len(),
    ensures
        be_value(s.take(0)) == 0,
        le_value(s.subrange(k, k)) == 0,
{
    assert(s.take(0).len() == 0);
    assert(s.subrange(k, k).len() == 0);
}

pub proof fn lemma_be_value_step(s: Seq<u8>, k: int)
    requires
        0 < k <= s.len(),
    ensures
        be_value(s.take(k)) == be_value(s.take(k - 1)) * 256 + s[k - 1],
{
    let t = s.take(k);
    assert(t.len() == k);
    assert(t.drop_last() =~= s.take(k - 1));
    assert(t.last() == s[k - 1]);
}

pub proof fn lemma_le_value_step(s: Seq<u8>, i: int, k: int)
    requires
        0 <= i < k <= s.len(),
    ensures
        le_value(s.subrange(i, k)) == s[i] + 256 * le_value(s.subrange(i + 1, k)),
{
    let t = s.subrange(i, k);
    assert(t.len() == k - i);
    assert(t.drop_first() =~= s.subrange(i + 1, k));
    assert(t.first() == s[i]);
}

pub proof fn lemma_be_value_1(s: Seq<u8>)
    requires
        1 <= s.len(),
    ensures
        be_value(s.take(1)) == s[0],
        le_value(s.take(1)) == s[0],
{
    lemma_value_empty(s, 1);
    lemma_be_value_step(s, 1);
    assert(s.take(1) =~= s.subrange(0, 1));
    lemma_le_value_step(s, 0, 1);
}

pub proof fn lemma_be_value_2(s: Seq<u8>)
    requires
        2 <= s.len(),
    ensures
        be_value(s.take(2)) == 0x100 * s[0] + s[1],
{
    lemma_be_value_1(s);
    lemma_be_value_step(s, 2);
}

pub proof fn lemma_be_value_4(s: Seq<u8>)
    requires
        4 <= s.len(),
    ensures
        be_value(s.take(4)) == 0x1000000 * s[0] + 0x10000 * s[1] + 0x100 * s[2] + s[3],
{
    lemma_be_value_2(s);
    lemma_be_value_step(s, 3);
    lemma_be_value_step(s, 4);
}

pub proof fn lemma_be_value_8(s: Seq<u8>)
    requires
        8 <= s.len(),
    ensures
        be_value(s.take(8)) == 0x100000000000000 * s[0] + 0x1000000000000 * s[1]
            + 0x10000000000 * s[2] + 0x100000000 * s[3] + 0x1000000 * s[4] + 0x10000 * s[5]
            + 0x100 * s[6] + s[7],
{
    lemma_be_value_4(s);
    lemma_be_value_step(s, 5);
    lemma_be_value_step(s, 6);
    lemma_be_value_step(s, 7);
    lemma_be_value_step(s, 8);
}

pub proof fn lemma_le_value_2(s: Seq<u8>)
    requires
        2 <= s.len(),
    ensures
        le_value(s.take(2)) == s[0] + 0x100 * s[1],
{
    lemma_value_empty(s, 2);
    lemma_le_value_step(s, 0, 2);
    lemma_le_value_step(s, 1, 2);
    assert(s.take(2) =~= s.subrange(0, 2));
}

pub proof fn lemma_le_value_4(s: Seq<u8>)
    requires
        4 <= s.len(),
    ensures
        le_value(s.take(4)) == s[0] + 0x100 * s[1] + 0x10000 * s[2] + 0x1000000 * s[3],
{
    lemma_value_empty(s, 4);
    lemma_le_value_step(s, 0, 4);
    lemma_le_value_step(s, 1, 4);
    lemma_le_value_step(s, 2, 4);
    lemma_le_value_step(s, 3, 4);
    assert(s.take(4) =~= s.subrange(0, 4));
}

pub proof fn lemma_le_value_8(s: Seq<u8>)
    requires
        8 <= s.len(),
    ensures
        le_value(s.take(8)) == s[0] + 0x100 * s[1] + 0x10000 * s[2] + 0x1000000 * s[3]
            + 0x100000000 * s[4] + 0x10000000000 * s[5] + 0x1000000000000 * s[6]
            + 0x100000000000000 * s[7],
{
    lemma_value_empty(s, 8);
    lemma_le_value_step(s, 0, 8);
    lemma_le_value_step(s, 1, 8);
    lemma_le_value_step(s, 2, 8);
    lemma_le_value_step(s, 3, 8);
    lemma_le_value_step(s, 4, 8);
    lemma_le_value_step(s, 5, 8);
    lemma_le_value_step(s, 6, 8);
    lemma_le_value_step(s, 7, 8);
    assert(s.take(8) =~= s.subrange(0, 8));
}

pub proof fn lemma_bytes_empty(n: nat)
    ensures
        be_bytes(n, 0) == Seq::<u8>::empty(),
        le_bytes(n, 0) == Seq::<u8>::empty(),
{
}

pub proof fn lemma_be_bytes_1(n: nat)
    ensures
        be_bytes(n, 1) == seq![(n % 0x100) as u8],
        le_bytes(n, 1) == seq![(n % 0x100) as u8],
{
    lemma_bytes_empty(n / 0x100);
    assert(be_bytes(n, 1) =~= seq![(n % 0x100) as u8]);
    assert(le_bytes(n, 1) =~= seq![(n % 0x100) as u8]);
}

pub proof fn lemma_be_bytes_2(n: nat)
    ensures
        be_bytes(n, 2) == seq![((n / 0x100) % 0x100) as u8, (n % 0x100) as u8],
{
    lemma_be_bytes_1(n / 0x100);
    assert(be_bytes(n, 2) == be_bytes(n / 0x100, 1).push((n % 0x100) as u8));
    assert(be_bytes(n, 2) =~= seq![((n / 0x100) % 0x100) as u8, (n % 0x100) as u8]);
}

pub proof fn lemma_be_bytes_4(n: nat)
    ensures
        be_bytes(n, 4) == seq![
            ((n / 0x1000000) % 0x100) as u8,
            ((n / 0x10000) % 0x100) as u8,
            ((n / 0x100) % 0x100) as u8,
            (n % 0x100) as u8,
        ],
{
    lemma_div_denominator(n as int, 0x100, 0x100);
    lemma_div_denominator(n as int, 0x10000, 0x100);
    lemma_be_bytes_2(n / 0x10000);
    assert(n / 0x100 / 0x100 == n / 0x10000);
    assert(n / 0x10000 / 0x100 == n / 0x1000000);
    assert(be_bytes(n / 0x100, 3) == be_bytes(n / 0x10000, 2).push(((n / 0x100) % 0x100) as u8));
    assert(be_bytes(n, 4) == be_bytes(n / 0x100, 3).push((n % 0x100) as u8));
    assert(be_bytes(n, 4) =~= seq![
        ((n / 0x1000000) % 0x100) as u8,
        ((n / 0x10000) % 0x100) as u8,
        ((n / 0x100) % 0x100) as u8,
        (n % 0x100) as u8,
    ]);
}

pub proof fn lemma_be_bytes_8(n: nat)
    ensures
        be_bytes(n, 8) == seq![
            ((n / 0x100000000000000) % 0x100) as u8,
            ((n / 0x1000000000000) % 0x100) as u8,
            ((n / 0x10000000000) % 0x100) as u8,
            ((n / 0x100000000) % 0x100) as u8,
            ((n / 0x1000000) % 0x100) as u8,
            ((n / 0x10000) % 0x100) as u8,
            ((n / 0x100) % 0x100) as u8,
            (n % 0x100) as u8,
        ],
{
    lemma_div_denominator(n as int, 0x100, 0x100);
    lemma_div_denominator(n as int, 0x10000, 0x100);
    lemma_div_denominator(n as int, 0x1000000, 0x100);
    lemma_div_denominator(n as int, 0x100000000, 0x100);
    lemma_be_bytes_4(n / 0x100000000);
    assert(n / 0x100 / 0x100 == n / 0x10000);
    assert(n / 0x10000 / 0x100 == n / 0x1000000);
    assert(n / 0x1000000 / 0x100 == n / 0x100000000);
    assert(n / 0x100000000 / 0x100 == n / 0x10000000000) by {
        lemma_div_denominator(n as int, 0x100000000, 0x100);
    }
    assert(n / 0x100000000 / 0x10000 == n / 0x1000000000000) by {
        lemma_div_denominator(n as int, 0x100000000, 0x10000);
    }
    assert(n / 0x100000000 / 0x1000000 == n / 0x100000000000000) by {
        lemma_div_denominator(n as int, 0x100000000, 0x1000000);
    }
    assert(be_bytes(n / 0x1000000, 5) == be_bytes(n / 0x100000000, 4).push(
        ((n / 0x1000000) % 0x100) as u8,
    ));
    assert(be_bytes(n / 0x10000, 6) == be_bytes(n / 0x1000000, 5).push(
        ((n / 0x10000) % 0x100) as u8,
    ));
    assert(be_bytes(n / 0x100, 7) == be_bytes(n / 0x10000, 6).push(((n / 0x100) % 0x100) as u8));
    assert(be_bytes(n, 8) == be_bytes(n / 0x100, 7).push((n % 0x100) as u8));
    assert(be_bytes(n, 8) =~= seq![
        ((n / 0x100000000000000) % 0x100) as u8,
        ((n / 0x1000000000000) % 0x100) as u8,
        ((n / 0x10000000000) % 0x100) as u8,
        ((n / 0x100000000) % 0x100) as u8,
        ((n / 0x1000000) % 0x100) as u8,
        ((n / 0x10000) % 0x100) as u8,
        ((n / 0x100) % 0x100) as u8,
        (n % 0x100) as u8,
    ]);
}

pub proof fn lemma_le_bytes_2(n: nat)
    ensures
        le_bytes(n, 2) == seq![(n % 0x100) as u8, ((n / 0x100) % 0x100) as u8],
{
    lemma_be_bytes_1(n / 0x100);
    assert(le_bytes(n, 2) == seq![(n % 0x100) as u8] + le_bytes(n / 0x100, 1));
    assert(le_bytes(n, 2) =~= seq![(n % 0x100) as u8, ((n / 0x100) % 0x100) as u8]);
}

pub proof fn lemma_le_bytes_4(n: nat)
    ensures
        le_bytes(n, 4) == seq![
            (n % 0x100) as u8,
            ((n / 0x100) % 0x100) as u8,
            ((n / 0x10000) % 0x100) as u8,
            ((n / 0x1000000) % 0x100) as u8,
        ],
{
    lemma_div_denominator(n as int, 0x100, 0x100);
    lemma_div_denominator(n as int, 0x10000, 0x100);
    lemma_le_bytes_2(n / 0x10000);
    assert(n / 0x100 / 0x100 == n / 0x10000);
    assert(n / 0x10000 / 0x100 == n / 0x1000000);
    assert(le_bytes(n / 0x100, 3) == seq![((n / 0x100) % 0x100) as u8] + le_bytes(n / 0x10000, 2));
    assert(le_bytes(n, 4) == seq![(n % 0x100) as u8] + le_bytes(n / 0x100, 3));
    assert(le_bytes(n, 4) =~= seq![
        (n % 0x100) as u8,
        ((n / 0x100) % 0x100) as u8,
        ((n / 0x10000) % 0x100) as u8,
        ((n / 0x1000000) % 0x100) as u8,
    ]);
}

pub proof fn lemma_le_bytes_8(n: nat)
    ensures
        le_bytes(n, 8) == seq![
            (n % 0x100) as u8,
            ((n / 0x100) % 0x100) as u8,
            ((n / 0x10000) % 0x100) as u8,
            ((n / 0x1000000) % 0x100) as u8,
            ((n / 0x100000000) % 0x100) as u8,
            ((n / 0x10000000000) % 0x100) as u8,
            ((n / 0x1000000000000) % 0x100) as u8,
            ((n / 0x100000000000000) % 0x100) as u8,
        ],
{
    lemma_div_denominator(n as int, 0x100, 0x100);
    lemma_div_denominator(n as int, 0x10000, 0x100);
    lemma_div_denominator(n as int, 0x1000000, 0x100);
    lemma_le_bytes_4(n / 0x100000000);
    assert(n / 0x100 / 0x100 == n / 0x10000);
    assert(n / 0x10000 / 0x100 == n / 0x1000000);
    assert(n / 0x1000000 / 0x100 == n / 0x100000000);
    assert(n / 0x100000000 / 0x100 == n / 0x10000000000) by {
        lemma_div_denominator(n as int, 0x100000000, 0x100);
    }
    assert(n / 0x100000000 / 0x10000 == n / 0x1000000000000) by {
        lemma_div_denominator(n as int, 0x100000000, 0x10000);
    }
    assert(n / 0x100000000 / 0x1000000 == n / 0x100000000000000) by {
        lemma_div_denominator(n as int, 0x100000000, 0x1000000);
    }
    assert(le_bytes(n / 0x1000000, 5) == seq![((n / 0x1000000) % 0x100) as u8] + le_bytes(
        n / 0x100000000,
        4,
    ));
    assert(le_bytes(n / 0x10000, 6) == seq![((n / 0x10000) % 0x100) as u8] + le_bytes(
        n / 0x1000000,
        5,
    ));
    assert(le_bytes(n / 0x100, 7) == seq![((n / 0x100) % 0x100) as u8] + le_bytes(n / 0x10000, 6));
    assert(le_bytes(n, 8) == seq![(n % 0x100) as u8] + le_bytes(n / 0x100, 7));
    assert(le_bytes(n, 8) =~= seq![
        (n % 0x100) as u8,
        ((n / 0x100) % 0x100) as u8,
        ((n / 0x10000) % 0x100) as u8,
        ((n / 0x1000000) % 0x100) as u8,
        ((n / 0x100000000) % 0x100) as u8,
        ((n / 0x10000000000) % 0x100) as u8,
        ((n / 0x1000000000000) % 0x100) as u8,
        ((n / 0x100000000000000) % 0x100) as u8,
    ]);
}

/// How the shift-and-mask bytes of a `u16` relate to its digits in base 256.
pub proof fn lemma_u16_split(v: u16)
    by (bit_vector)
    ensures
        (v >> 8) as u8 == (v / 0x100) % 0x100,
        v as u8 == v % 0x100,
{
}

/// How the shift-and-mask bytes of a `u32` relate to its digits in base 256.
pub proof fn lemma_u32_split(v: u32)
    by (bit_vector)
    ensures
        (v >> 24) as u8 == (v / 0x1000000) % 0x100,
        (v >> 16) as u8 == (v / 0x10000) % 0x100,
        (v >> 8) as u8 == (v / 0x100) % 0x100,
        v as u8 == v % 0x100,
{
}

/// How the shift-and-mask bytes of a `u64` relate to its digits in base 256.
pub proof fn lemma_u64_split(v: u64)
    by (bit_vector)
    ensures
        (v >> 56) as u8 == (v / 0x100000000000000) % 0x100,
        (v >> 48) as u8 == (v / 0x1000000000000) % 0x100,
        (v >> 40) as u8 == (v / 0x10000000000) % 0x100,
        (v >> 32) as u8 == (v / 0x100000000) % 0x100,
        (v >> 24) as u8 == (v / 0x1000000) % 0x100,
        (v >> 16) as u8 == (v / 0x10000) % 0x100,
        (v >> 8) as u8 == (v / 0x100) % 0x100,
        v as u8 == v % 0x100,
{
}

/// Shifting two bytes together builds their base-256 value.
pub proof fn lemma_u16_compose(b0: u8, b1: u8)
    by (bit_vector)
    ensures
        ((b0 as u16) << 8) | (b1 as u16) == 0x100 * b0 + b1,
{
}

/// Shifting four bytes together builds their base-256 value.
pub proof fn lemma_u32_compose(b0: u8, b1: u8, b2: u8, b3: u8)
    by (bit_vector)
    ensures
        ((b0 as u32) << 24) | ((b1 as u32) << 16) | ((b2 as u32) << 8) | (b3 as u32) == 0x1000000
            * b0 + 0x10000 * b1 + 0x100 * b2 + b3,
{
}

/// Shifting eight bytes together builds their base-256 value.
pub proof fn lemma_u64_compose(b0: u8, b1: u8, b2: u8, b3: u8, b4: u8, b5: u8, b6: u8, b7: u8)
    by (bit_vector)
    ensures
        ((b0 as u64) << 56) | ((b1 as u64) << 48) | ((b2 as u64) << 40) | ((b3 as u64) << 32) | (
        (b4 as u64) << 24) | ((b5 as u64) << 16) | ((b6 as u64) << 8) | (b7 as u64)
            == 0x100000000000000 * b0 + 0x1000000000000 * b1 + 0x10000000000 * b2 + 0x100000000
            * b3 + 0x1000000 * b4 + 0x10000 * b5 + 0x100 * b6 + b7,
{
}

/// The little-endian layout is the big-endian layout reversed.
pub proof fn lemma_le_bytes_is_reverse(n: nat, w: nat)
    ensures
        le_bytes(n, w) == be_bytes(n, w).reverse(),
    decreases w,
{
    lemma_be_bytes_len(n, w);
    lemma_le_bytes_len(n, w);
    if w == 0 {
        assert(le_bytes(n, w) =~= be_bytes(n, w).reverse());
    } else {
        let m = (n % 256) as u8;
        let inner = be_bytes(n / 256, (w - 1) as nat);
        lemma_be_bytes_len(n / 256, (w - 1) as nat);
        lemma_le_bytes_is_reverse(n / 256, (w - 1) as nat);
        assert(be_bytes(n, w).reverse() =~= seq![m] + inner.reverse());
        assert(le_bytes(n, w) =~= seq![m] + inner.reverse());
    }
}

} // verus!
