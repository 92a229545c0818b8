//! The leaf codecs: one `Readable`, `Writeable` and `Scalar` implementation
//! per fixed-width type.
//!
//! Unsigned integers decode to the positional value of their first `width`
//! bytes and encode to its base-256 digits.  Signed integers go through the
//! two's-complement pattern of the same width.  Booleans occupy one byte:
//! any nonzero byte decodes to true, and true encodes to one.

use vstd::prelude::*;

verus! {

use crate::codec::{Readable, Scalar, Writeable};
use crate::model::{
    be_bytes,
    be_value,
    from_pattern_i16,
    from_pattern_i32,
    from_pattern_i64,
    from_pattern_i8,
    le_bytes,
    le_value,
    lemma_be_bytes_1,
    lemma_be_bytes_2,
    lemma_be_bytes_4,
    lemma_be_bytes_8,
    lemma_be_bytes_len,
    lemma_be_value_1,
    lemma_be_value_2,
    lemma_be_value_4,
    lemma_be_value_8,
    lemma_be_value_bound,
    lemma_be_value_of_be_bytes,
    lemma_le_bytes_2,
    lemma_le_bytes_4,
    lemma_le_bytes_8,
    lemma_le_bytes_is_reverse,
    lemma_le_bytes_len,
    lemma_le_value_2,
    lemma_le_value_4,
    lemma_le_value_8,
    lemma_le_value_bound,
    lemma_le_value_of_le_bytes,
    lemma_pow256_values,
    lemma_u16_compose,
    lemma_u16_split,
    lemma_u32_compose,
    lemma_u32_split,
    lemma_u64_compose,
    lemma_u64_split,
    to_pattern_bool,
    to_pattern_i16,
    to_pattern_i32,
    to_pattern_i64,
    to_pattern_i8,
};
use vstd::arithmetic::div_mod::lemma_small_mod;

impl Readable for u8 {
    open spec fn spec_min_len() -> nat {
        1
    }

    open spec fn spec_from_be(bytes: Seq<u8>) -> u8 {
        be_value(bytes.take(1)) as u8
    }

    open spec fn spec_from_le(bytes: Seq<u8>) -> u8 {
        le_value(bytes.take(1)) as u8
    }

    fn from_u8_be(buffer: &[u8]) -> (r: u8) {
        proof {
            lemma_be_value_1(buffer@);
        }
        buffer[0]
    }

    fn from_u8_le(buffer: &[u8]) -> (r: u8) {
        proof {
            lemma_be_value_1(buffer@);
        }
        buffer[0]
    }
}

impl Writeable for u8 {
    open spec fn spec_enc_len(&self) -> nat {
        1
    }

    open spec fn spec_to_be(&self) -> Seq<u8> {
        be_bytes(*self as nat, 1)
    }

    open spec fn spec_to_le(&self) -> Seq<u8> {
        le_bytes(*self as nat, 1)
    }

    proof fn lemma_enc_len(v: u8) {
        lemma_be_bytes_len(v as nat, 1);
        lemma_le_bytes_len(v as nat, 1);
    }

    fn to_u8_be(v: &u8, buffer: &mut [u8]) {
        buffer[0] = *v;
        proof {
            lemma_be_bytes_1(*v as nat);
            lemma_small_mod(*v as nat, 0x100);
            assert(buffer@ =~= v.spec_to_be() + old(buffer)@.skip(1));
        }
    }

    fn to_u8_le(v: &u8, buffer: &mut [u8]) {
        buffer[0] = *v;
        proof {
            lemma_be_bytes_1(*v as nat);
            lemma_small_mod(*v as nat, 0x100);
            assert(buffer@ =~= v.spec_to_le() + old(buffer)@.skip(1));
        }
    }
}

impl Scalar for u8 {
    open spec fn spec_width() -> nat {
        1
    }

    fn width() -> (w: usize) {
        1
    }

    proof fn lemma_width() {
    }

    proof fn lemma_fixed_len(v: u8) {
    }

    proof fn lemma_round_trip(v: u8) {
        lemma_pow256_values();
        lemma_be_bytes_len(v as nat, 1);
        lemma_le_bytes_len(v as nat, 1);
        assert(v.spec_to_be().take(1) =~= v.spec_to_be());
        assert(v.spec_to_le().take(1) =~= v.spec_to_le());
        lemma_be_value_of_be_bytes(v as nat, 1);
        lemma_le_value_of_le_bytes(v as nat, 1);
    }

    proof fn lemma_endian_mirror(v: u8) {
        lemma_le_bytes_is_reverse(v as nat, 1);
    }

    proof fn lemma_prefix(b1: Seq<u8>, b2: Seq<u8>) {
    }
}

impl Readable for bool {
    open spec fn spec_min_len() -> nat {
        1
    }

    open spec fn spec_from_be(bytes: Seq<u8>) -> bool {
        be_value(bytes.take(1)) != 0
    }

    open spec fn spec_from_le(bytes: Seq<u8>) -> bool {
        le_value(bytes.take(1)) != 0
    }

    fn from_u8_be(buffer: &[u8]) -> (r: bool) {
        proof {
            lemma_be_value_1(buffer@);
        }
        buffer[0] > 0
    }

    fn from_u8_le(buffer: &[u8]) -> (r: bool) {
        proof {
            lemma_be_value_1(buffer@);
        }
        buffer[0] > 0
    }
}

impl Writeable for bool {
    open spec fn spec_enc_len(&self) -> nat {
        1
    }

    open spec fn spec_to_be(&self) -> Seq<u8> {
        be_bytes(to_pattern_bool(*self), 1)
    }

    open spec fn spec_to_le(&self) -> Seq<u8> {
        le_bytes(to_pattern_bool(*self), 1)
    }

    proof fn lemma_enc_len(v: bool) {
        lemma_be_bytes_len(to_pattern_bool(v), 1);
        lemma_le_bytes_len(to_pattern_bool(v), 1);
    }

    fn to_u8_be(v: &bool, buffer: &mut [u8]) {
        buffer[0] = if *v {
            1
        } else {
            0
        };
        proof {
            lemma_be_bytes_1(to_pattern_bool(*v));
            lemma_small_mod(to_pattern_bool(*v), 0x100);
            assert(buffer@ =~= v.spec_to_be() + old(buffer)@.skip(1));
        }
    }

    fn to_u8_le(v: &bool, buffer: &mut [u8]) {
        buffer[0] = if *v {
            1
        } else {
            0
        };
        proof {
            lemma_be_bytes_1(to_pattern_bool(*v));
            lemma_small_mod(to_pattern_bool(*v), 0x100);
            assert(buffer@ =~= v.spec_to_le() + old(buffer)@.skip(1));
        }
    }
}

impl Scalar for bool {
    open spec fn spec_width() -> nat {
        1
    }

    fn width() -> (w: usize) {
        1
    }

    proof fn lemma_width() {
    }

    proof fn lemma_fixed_len(v: bool) {
    }

    proof fn lemma_round_trip(v: bool) {
        lemma_pow256_values();
        lemma_be_bytes_len(to_pattern_bool(v), 1);
        lemma_le_bytes_len(to_pattern_bool(v), 1);
        assert(v.spec_to_be().take(1) =~= v.spec_to_be());
        assert(v.spec_to_le().take(1) =~= v.spec_to_le());
        lemma_be_value_of_be_bytes(to_pattern_bool(v), 1);
        lemma_le_value_of_le_bytes(to_pattern_bool(v), 1);
    }

    proof fn lemma_endian_mirror(v: bool) {
        lemma_le_bytes_is_reverse(to_pattern_bool(v), 1);
    }

    proof fn lemma_prefix(b1: Seq<u8>, b2: Seq<u8>) {
    }
}


impl Readable for u16 {
    open spec fn spec_min_len() -> nat {
        2
    }

    open spec fn spec_from_be(bytes: Seq<u8>) -> u16 {
        be_value(bytes.take(2)) as u16
    }

    open spec fn spec_from_le(bytes: Seq<u8>) -> u16 {
        le_value(bytes.take(2)) as u16
    }

    fn from_u8_be(buffer: &[u8]) -> (r: u16) {
        let b0 = buffer[0];
        let b1 = buffer[1];
        proof {
            lemma_u16_compose(b0, b1);
            lemma_be_value_2(buffer@);
        }
        ((b0 as u16) << 8) | (b1 as u16)
    }

    fn from_u8_le(buffer: &[u8]) -> (r: u16) {
        let b0 = buffer[0];
        let b1 = buffer[1];
        proof {
            lemma_u16_compose(b1, b0);
            lemma_le_value_2(buffer@);
        }
        ((b1 as u16) << 8) | (b0 as u16)
    }
}

impl Writeable for u16 {
    open spec fn spec_enc_len(&self) -> nat {
        2
    }

    open spec fn spec_to_be(&self) -> Seq<u8> {
        be_bytes(*self as nat, 2)
    }

    open spec fn spec_to_le(&self) -> Seq<u8> {
        le_bytes(*self as nat, 2)
    }

    proof fn lemma_enc_len(v: u16) {
        lemma_be_bytes_len(v as nat, 2);
        lemma_le_bytes_len(v as nat, 2);
    }

    fn to_u8_be(v: &u16, buffer: &mut [u8]) {
        let x = *v;
        buffer[0] = (x >> 8) as u8;
        buffer[1] = x as u8;
        proof {
            lemma_u16_split(x);
            lemma_be_bytes_2(x as nat);
            assert(buffer@ =~= v.spec_to_be() + old(buffer)@.skip(2));
        }
    }

    fn to_u8_le(v: &u16, buffer: &mut [u8]) {
        let x = *v;
        buffer[1] = (x >> 8) as u8;
        buffer[0] = x as u8;
        proof {
            lemma_u16_split(x);
            lemma_le_bytes_2(x as nat);
            assert(buffer@ =~= v.spec_to_le() + old(buffer)@.skip(2));
        }
    }
}

impl Scalar for u16 {
    open spec fn spec_width() -> nat {
        2
    }

    fn width() -> (w: usize) {
        2
    }

    proof fn lemma_width() {
    }

    proof fn lemma_fixed_len(v: u16) {
    }

    proof fn lemma_round_trip(v: u16) {
        lemma_pow256_values();
        lemma_be_bytes_len(v as nat, 2);
        lemma_le_bytes_len(v as nat, 2);
        assert(v.spec_to_be().take(2) =~= v.spec_to_be());
        assert(v.spec_to_le().take(2) =~= v.spec_to_le());
        lemma_be_value_of_be_bytes(v as nat, 2);
        lemma_le_value_of_le_bytes(v as nat, 2);
    }

    proof fn lemma_endian_mirror(v: u16) {
        lemma_le_bytes_is_reverse(v as nat, 2);
    }

    proof fn lemma_prefix(b1: Seq<u8>, b2: Seq<u8>) {
    }
}

impl Readable for u32 {
    open spec fn spec_min_len() -> nat {
        4
    }

    open spec fn spec_from_be(bytes: Seq<u8>) -> u32 {
        be_value(bytes.take(4)) as u32
    }

    open spec fn spec_from_le(bytes: Seq<u8>) -> u32 {
        le_value(bytes.take(4)) as u32
    }

    fn from_u8_be(buffer: &[u8]) -> (r: u32) {
        let b0 = buffer[0];
        let b1 = buffer[1];
        let b2 = buffer[2];
        let b3 = buffer[3];
        proof {
            lemma_u32_compose(b0, b1, b2, b3);
            lemma_be_value_4(buffer@);
        }
        ((b0 as u32) << 24) | ((b1 as u32) << 16) | ((b2 as u32) << 8) | (b3 as u32)
    }

    fn from_u8_le(buffer: &[u8]) -> (r: u32) {
        let b0 = buffer[0];
        let b1 = buffer[1];
        let b2 = buffer[2];
        let b3 = buffer[3];
        proof {
            lemma_u32_compose(b3, b2, b1, b0);
            lemma_le_value_4(buffer@);
        }
        ((b3 as u32) << 24) | ((b2 as u32) << 16) | ((b1 as u32) << 8) | (b0 as u32)
    }
}

impl Writeable for u32 {
    open spec fn spec_enc_len(&self) -> nat {
        4
    }

    open spec fn spec_to_be(&self) -> Seq<u8> {
        be_bytes(*self as nat, 4)
    }

    open spec fn spec_to_le(&self) -> Seq<u8> {
        le_bytes(*self as nat, 4)
    }

    proof fn lemma_enc_len(v: u32) {
        lemma_be_bytes_len(v as nat, 4);
        lemma_le_bytes_len(v as nat, 4);
    }

    fn to_u8_be(v: &u32, buffer: &mut [u8]) {
        let x = *v;
        buffer[0] = (x >> 24) as u8;
        buffer[1] = (x >> 16) as u8;
        buffer[2] = (x >> 8) as u8;
        buffer[3] = x as u8;
        proof {
            lemma_u32_split(x);
            lemma_be_bytes_4(x as nat);
            assert(buffer@ =~= v.spec_to_be() + old(buffer)@.skip(4));
        }
    }

    fn to_u8_le(v: &u32, buffer: &mut [u8]) {
        let x = *v;
        buffer[3] = (x >> 24) as u8;
        buffer[2] = (x >> 16) as u8;
        buffer[1] = (x >> 8) as u8;
        buffer[0] = x as u8;
        proof {
            lemma_u32_split(x);
            lemma_le_bytes_4(x as nat);
            assert(buffer@ =~= v.spec_to_le() + old(buffer)@.skip(4));
        }
    }
}

impl Scalar for u32 {
    open spec fn spec_width() -> nat {
        4
    }

    fn width() -> (w: usize) {
        4
    }

    proof fn lemma_width() {
    }

    proof fn lemma_fixed_len(v: u32) {
    }

    proof fn lemma_round_trip(v: u32) {
        lemma_pow256_values();
        lemma_be_bytes_len(v as nat, 4);
        lemma_le_bytes_len(v as nat, 4);
        assert(v.spec_to_be().take(4) =~= v.spec_to_be());
        assert(v.spec_to_le().take(4) =~= v.spec_to_le());
        lemma_be_value_of_be_bytes(v as nat, 4);
        lemma_le_value_of_le_bytes(v as nat, 4);
    }

    proof fn lemma_endian_mirror(v: u32) {
        lemma_le_bytes_is_reverse(v as nat, 4);
    }

    proof fn lemma_prefix(b1: Seq<u8>, b2: Seq<u8>) {
    }
}

impl Readable for u64 {
    open spec fn spec_min_len() -> nat {
        8
    }

    open spec fn spec_from_be(bytes: Seq<u8>) -> u64 {
        be_value(bytes.take(8)) as u64
    }

    open spec fn spec_from_le(bytes: Seq<u8>) -> u64 {
        le_value(bytes.take(8)) as u64
    }

    fn from_u8_be(buffer: &[u8]) -> (r: u64) {
        let b0 = buffer[0];
        let b1 = buffer[1];
        let b2 = buffer[2];
        let b3 = buffer[3];
        let b4 = buffer[4];
        let b5 = buffer[5];
        let b6 = buffer[6];
        let b7 = buffer[7];
        proof {
            lemma_u64_compose(b0, b1, b2, b3, b4, b5, b6, b7);
            lemma_be_value_8(buffer@);
        }
        ((b0 as u64) << 56) | ((b1 as u64) << 48) | ((b2 as u64) << 40) | ((b3 as u64) << 32) | ((b4 as u64) << 24) | ((b5 as u64) << 16) | ((b6 as u64) << 8) | (b7 as u64)
    }

    fn from_u8_le(buffer: &[u8]) -> (r: u64) {
        let b0 = buffer[0];
        let b1 = buffer[1];
        let b2 = buffer[2];
        let b3 = buffer[3];
        let b4 = buffer[4];
        let b5 = buffer[5];
        let b6 = buffer[6];
        let b7 = buffer[7];
        proof {
            lemma_u64_compose(b7, b6, b5, b4, b3, b2, b1, b0);
            lemma_le_value_8(buffer@);
        }
        ((b7 as u64) << 56) | ((b6 as u64) << 48) | ((b5 as u64) << 40) | ((b4 as u64) << 32) | ((b3 as u64) << 24) | ((b2 as u64) << 16) | ((b1 as u64) << 8) | (b0 as u64)
    }
}

impl Writeable for u64 {
    open spec fn spec_enc_len(&self) -> nat {
        8
    }

    open spec fn spec_to_be(&self) -> Seq<u8> {
        be_bytes(*self as nat, 8)
    }

    open spec fn spec_to_le(&self) -> Seq<u8> {
        le_bytes(*self as nat, 8)
    }

    proof fn lemma_enc_len(v: u64) {
        lemma_be_bytes_len(v as nat, 8);
        lemma_le_bytes_len(v as nat, 8);
    }

    fn to_u8_be(v: &u64, buffer: &mut [u8]) {
        let x = *v;
        buffer[0] = (x >> 56) as u8;
        buffer[1] = (x >> 48) as u8;
        buffer[2] = (x >> 40) as u8;
        buffer[3] = (x >> 32) as u8;
        buffer[4] = (x >> 24) as u8;
        buffer[5] = (x >> 16) as u8;
        buffer[6] = (x >> 8) as u8;
        buffer[7] = x as u8;
        proof {
            lemma_u64_split(x);
            lemma_be_bytes_8(x as nat);
            assert(buffer@ =~= v.spec_to_be() + old(buffer)@.skip(8));
        }
    }

    fn to_u8_le(v: &u64, buffer: &mut [u8]) {
        let x = *v;
        buffer[7] = (x >> 56) as u8;
        buffer[6] = (x >> 48) as u8;
        buffer[5] = (x >> 40) as u8;
        buffer[4] = (x >> 32) as u8;
        buffer[3] = (x >> 24) as u8;
        buffer[2] = (x >> 16) as u8;
        buffer[1] = (x >> 8) as u8;
        buffer[0] = x as u8;
        proof {
            lemma_u64_split(x);
            lemma_le_bytes_8(x as nat);
            assert(buffer@ =~= v.spec_to_le() + old(buffer)@.skip(8));
        }
    }
}

impl Scalar for u64 {
    open spec fn spec_width() -> nat {
        8
    }

    fn width() -> (w: usize) {
        8
    }

    proof fn lemma_width() {
    }

    proof fn lemma_fixed_len(v: u64) {
    }

    proof fn lemma_round_trip(v: u64) {
        lemma_pow256_values();
        lemma_be_bytes_len(v as nat, 8);
        lemma_le_bytes_len(v as nat, 8);
        assert(v.spec_to_be().take(8) =~= v.spec_to_be());
        assert(v.spec_to_le().take(8) =~= v.spec_to_le());
        lemma_be_value_of_be_bytes(v as nat, 8);
        lemma_le_value_of_le_bytes(v as nat, 8);
    }

    proof fn lemma_endian_mirror(v: u64) {
        lemma_le_bytes_is_reverse(v as nat, 8);
    }

    proof fn lemma_prefix(b1: Seq<u8>, b2: Seq<u8>) {
    }
}

impl Readable for i8 {
    open spec fn spec_min_len() -> nat {
        1
    }

    open spec fn spec_from_be(bytes: Seq<u8>) -> i8 {
        from_pattern_i8(be_value(bytes.take(1)))
    }

    open spec fn spec_from_le(bytes: Seq<u8>) -> i8 {
        from_pattern_i8(le_value(bytes.take(1)))
    }

    fn from_u8_be(buffer: &[u8]) -> (r: i8) {
        let n = u8::from_u8_be(buffer);
        proof {
            lemma_be_value_bound(buffer@.take(1));
            lemma_pow256_values();
            lemma_small_mod(be_value(buffer@.take(1)), 0x100);
        }
        if n < 0x80 {
            n as i8
        } else {
            ((n as i16) - 0x100) as i8
        }
    }

    fn from_u8_le(buffer: &[u8]) -> (r: i8) {
        let n = u8::from_u8_le(buffer);
        proof {
            lemma_le_value_bound(buffer@.take(1));
            lemma_pow256_values();
            lemma_small_mod(le_value(buffer@.take(1)), 0x100);
        }
        if n < 0x80 {
            n as i8
        } else {
            ((n as i16) - 0x100) as i8
        }
    }
}

impl Writeable for i8 {
    open spec fn spec_enc_len(&self) -> nat {
        1
    }

    open spec fn spec_to_be(&self) -> Seq<u8> {
        be_bytes(to_pattern_i8(*self), 1)
    }

    open spec fn spec_to_le(&self) -> Seq<u8> {
        le_bytes(to_pattern_i8(*self), 1)
    }

    proof fn lemma_enc_len(v: i8) {
        lemma_be_bytes_len(to_pattern_i8(v), 1);
        lemma_le_bytes_len(to_pattern_i8(v), 1);
    }

    fn to_u8_be(v: &i8, buffer: &mut [u8]) {
        let x = *v;
        let n: u8 = if x >= 0 {
            x as u8
        } else {
            ((x as i16) + 0x100) as u8
        };
        proof {
            assert(n as nat == to_pattern_i8(x));
        }
        u8::to_u8_be(&n, buffer);
    }

    fn to_u8_le(v: &i8, buffer: &mut [u8]) {
        let x = *v;
        let n: u8 = if x >= 0 {
            x as u8
        } else {
            ((x as i16) + 0x100) as u8
        };
        proof {
            assert(n as nat == to_pattern_i8(x));
        }
        u8::to_u8_le(&n, buffer);
    }
}

impl Scalar for i8 {
    open spec fn spec_width() -> nat {
        1
    }

    fn width() -> (w: usize) {
        1
    }

    proof fn lemma_width() {
    }

    proof fn lemma_fixed_len(v: i8) {
    }

    proof fn lemma_round_trip(v: i8) {
        let p = to_pattern_i8(v);
        lemma_pow256_values();
        lemma_be_bytes_len(p, 1);
        lemma_le_bytes_len(p, 1);
        assert(v.spec_to_be().take(1) =~= v.spec_to_be());
        assert(v.spec_to_le().take(1) =~= v.spec_to_le());
        lemma_be_value_of_be_bytes(p, 1);
        lemma_le_value_of_le_bytes(p, 1);
        lemma_small_mod(p, 0x100);
    }

    proof fn lemma_endian_mirror(v: i8) {
        lemma_le_bytes_is_reverse(to_pattern_i8(v), 1);
    }

    proof fn lemma_prefix(b1: Seq<u8>, b2: Seq<u8>) {
    }
}

impl Readable for i16 {
    open spec fn spec_min_len() -> nat {
        2
    }

    open spec fn spec_from_be(bytes: Seq<u8>) -> i16 {
        from_pattern_i16(be_value(bytes.take(2)))
    }

    open spec fn spec_from_le(bytes: Seq<u8>) -> i16 {
        from_pattern_i16(le_value(bytes.take(2)))
    }

    fn from_u8_be(buffer: &[u8]) -> (r: i16) {
        let n = u16::from_u8_be(buffer);
        proof {
            lemma_be_value_bound(buffer@.take(2));
            lemma_pow256_values();
            lemma_small_mod(be_value(buffer@.take(2)), 0x10000);
        }
        if n < 0x8000 {
            n as i16
        } else {
            ((n as i32) - 0x10000) as i16
        }
    }

    fn from_u8_le(buffer: &[u8]) -> (r: i16) {
        let n = u16::from_u8_le(buffer);
        proof {
            lemma_le_value_bound(buffer@.take(2));
            lemma_pow256_values();
            lemma_small_mod(le_value(buffer@.take(2)), 0x10000);
        }
        if n < 0x8000 {
            n as i16
        } else {
            ((n as i32) - 0x10000) as i16
        }
    }
}

impl Writeable for i16 {
    open spec fn spec_enc_len(&self) -> nat {
        2
    }

    open spec fn spec_to_be(&self) -> Seq<u8> {
        be_bytes(to_pattern_i16(*self), 2)
    }

    open spec fn spec_to_le(&self) -> Seq<u8> {
        le_bytes(to_pattern_i16(*self), 2)
    }

    proof fn lemma_enc_len(v: i16) {
        lemma_be_bytes_len(to_pattern_i16(v), 2);
        lemma_le_bytes_len(to_pattern_i16(v), 2);
    }

    fn to_u8_be(v: &i16, buffer: &mut [u8]) {
        let x = *v;
        let n: u16 = if x >= 0 {
            x as u16
        } else {
            ((x as i32) + 0x10000) as u16
        };
        proof {
            assert(n as nat == to_pattern_i16(x));
        }
        u16::to_u8_be(&n, buffer);
    }

    fn to_u8_le(v: &i16, buffer: &mut [u8]) {
        let x = *v;
        let n: u16 = if x >= 0 {
            x as u16
        } else {
            ((x as i32) + 0x10000) as u16
        };
        proof {
            assert(n as nat == to_pattern_i16(x));
        }
        u16::to_u8_le(&n, buffer);
    }
}

impl Scalar for i16 {
    open spec fn spec_width() -> nat {
        2
    }

    fn width() -> (w: usize) {
        2
    }

    proof fn lemma_width() {
    }

    proof fn lemma_fixed_len(v: i16) {
    }

    proof fn lemma_round_trip(v: i16) {
        let p = to_pattern_i16(v);
        lemma_pow256_values();
        lemma_be_bytes_len(p, 2);
        lemma_le_bytes_len(p, 2);
        assert(v.spec_to_be().take(2) =~= v.spec_to_be());
        assert(v.spec_to_le().take(2) =~= v.spec_to_le());
        lemma_be_value_of_be_bytes(p, 2);
        lemma_le_value_of_le_bytes(p, 2);
        lemma_small_mod(p, 0x10000);
    }

    proof fn lemma_endian_mirror(v: i16) {
        lemma_le_bytes_is_reverse(to_pattern_i16(v), 2);
    }

    proof fn lemma_prefix(b1: Seq<u8>, b2: Seq<u8>) {
    }
}

impl Readable for i32 {
    open spec fn spec_min_len() -> nat {
        4
    }

    open spec fn spec_from_be(bytes: Seq<u8>) -> i32 {
        from_pattern_i32(be_value(bytes.take(4)))
    }

    open spec fn spec_from_le(bytes: Seq<u8>) -> i32 {
        from_pattern_i32(le_value(bytes.take(4)))
    }

    fn from_u8_be(buffer: &[u8]) -> (r: i32) {
        let n = u32::from_u8_be(buffer);
        proof {
            lemma_be_value_bound(buffer@.take(4));
            lemma_pow256_values();
            lemma_small_mod(be_value(buffer@.take(4)), 0x100000000);
        }
        if n < 0x80000000 {
            n as i32
        } else {
            ((n as i64) - 0x100000000) as i32
        }
    }

    fn from_u8_le(buffer: &[u8]) -> (r: i32) {
        let n = u32::from_u8_le(buffer);
        proof {
            lemma_le_value_bound(buffer@.take(4));
            lemma_pow256_values();
            lemma_small_mod(le_value(buffer@.take(4)), 0x100000000);
        }
        if n < 0x80000000 {
            n as i32
        } else {
            ((n as i64) - 0x100000000) as i32
        }
    }
}

impl Writeable for i32 {
    open spec fn spec_enc_len(&self) -> nat {
        4
    }

    open spec fn spec_to_be(&self) -> Seq<u8> {
        be_bytes(to_pattern_i32(*self), 4)
    }

    open spec fn spec_to_le(&self) -> Seq<u8> {
        le_bytes(to_pattern_i32(*self), 4)
    }

    proof fn lemma_enc_len(v: i32) {
        lemma_be_bytes_len(to_pattern_i32(v), 4);
        lemma_le_bytes_len(to_pattern_i32(v), 4);
    }

    fn to_u8_be(v: &i32, buffer: &mut [u8]) {
        let x = *v;
        let n: u32 = if x >= 0 {
            x as u32
        } else {
            ((x as i64) + 0x100000000) as u32
        };
        proof {
            assert(n as nat == to_pattern_i32(x));
        }
        u32::to_u8_be(&n, buffer);
    }

    fn to_u8_le(v: &i32, buffer: &mut [u8]) {
        let x = *v;
        let n: u32 = if x >= 0 {
            x as u32
        } else {
            ((x as i64) + 0x100000000) as u32
        };
        proof {
            assert(n as nat == to_pattern_i32(x));
        }
        u32::to_u8_le(&n, buffer);
    }
}

impl Scalar for i32 {
    open spec fn spec_width() -> nat {
        4
    }

    fn width() -> (w: usize) {
        4
    }

    proof fn lemma_width() {
    }

    proof fn lemma_fixed_len(v: i32) {
    }

    proof fn lemma_round_trip(v: i32) {
        let p = to_pattern_i32(v);
        lemma_pow256_values();
        lemma_be_bytes_len(p, 4);
        lemma_le_bytes_len(p, 4);
        assert(v.spec_to_be().take(4) =~= v.spec_to_be());
        assert(v.spec_to_le().take(4) =~= v.spec_to_le());
        lemma_be_value_of_be_bytes(p, 4);
        lemma_le_value_of_le_bytes(p, 4);
        lemma_small_mod(p, 0x100000000);
    }

    proof fn lemma_endian_mirror(v: i32) {
        lemma_le_bytes_is_reverse(to_pattern_i32(v), 4);
    }

    proof fn lemma_prefix(b1: Seq<u8>, b2: Seq<u8>) {
    }
}

impl Readable for i64 {
    open spec fn spec_min_len() -> nat {
        8
    }

    open spec fn spec_from_be(bytes: Seq<u8>) -> i64 {
        from_pattern_i64(be_value(bytes.take(8)))
    }

    open spec fn spec_from_le(bytes: Seq<u8>) -> i64 {
        from_pattern_i64(le_value(bytes.take(8)))
    }

    fn from_u8_be(buffer: &[u8]) -> (r: i64) {
        let n = u64::from_u8_be(buffer);
        proof {
            lemma_be_value_bound(buffer@.take(8));
            lemma_pow256_values();
            lemma_small_mod(be_value(buffer@.take(8)), 0x10000000000000000);
        }
        if n < 0x8000000000000000 {
            n as i64
        } else {
            ((n - 0x8000000000000000) as i64) + i64::MIN
        }
    }

    fn from_u8_le(buffer: &[u8]) -> (r: i64) {
        let n = u64::from_u8_le(buffer);
        proof {
            lemma_le_value_bound(buffer@.take(8));
            lemma_pow256_values();
            lemma_small_mod(le_value(buffer@.take(8)), 0x10000000000000000);
        }
        if n < 0x8000000000000000 {
            n as i64
        } else {
            ((n - 0x8000000000000000) as i64) + i64::MIN
        }
    }
}

impl Writeable for i64 {
    open spec fn spec_enc_len(&self) -> nat {
        8
    }

    open spec fn spec_to_be(&self) -> Seq<u8> {
        be_bytes(to_pattern_i64(*self), 8)
    }

    open spec fn spec_to_le(&self) -> Seq<u8> {
        le_bytes(to_pattern_i64(*self), 8)
    }

    proof fn lemma_enc_len(v: i64) {
        lemma_be_bytes_len(to_pattern_i64(v), 8);
        lemma_le_bytes_len(to_pattern_i64(v), 8);
    }

    fn to_u8_be(v: &i64, buffer: &mut [u8]) {
        let x = *v;
        let n: u64 = if x >= 0 {
            x as u64
        } else {
            ((x - i64::MIN) as u64) + 0x8000000000000000
        };
        proof {
            assert(n as nat == to_pattern_i64(x));
        }
        u64::to_u8_be(&n, buffer);
    }

    fn to_u8_le(v: &i64, buffer: &mut [u8]) {
        let x = *v;
        let n: u64 = if x >= 0 {
            x as u64
        } else {
            ((x - i64::MIN) as u64) + 0x8000000000000000
        };
        proof {
            assert(n as nat == to_pattern_i64(x));
        }
        u64::to_u8_le(&n, buffer);
    }
}

impl Scalar for i64 {
    open spec fn spec_width() -> nat {
        8
    }

    fn width() -> (w: usize) {
        8
    }

    proof fn lemma_width() {
    }

    proof fn lemma_fixed_len(v: i64) {
    }

    proof fn lemma_round_trip(v: i64) {
        let p = to_pattern_i64(v);
        lemma_pow256_values();
        lemma_be_bytes_len(p, 8);
        lemma_le_bytes_len(p, 8);
        assert(v.spec_to_be().take(8) =~= v.spec_to_be());
        assert(v.spec_to_le().take(8) =~= v.spec_to_le());
        lemma_be_value_of_be_bytes(p, 8);
        lemma_le_value_of_le_bytes(p, 8);
        lemma_small_mod(p, 0x10000000000000000);
    }

    proof fn lemma_endian_mirror(v: i64) {
        lemma_le_bytes_is_reverse(to_pattern_i64(v), 8);
    }

    proof fn lemma_prefix(b1: Seq<u8>, b2: Seq<u8>) {
    }
}

} // verus!
