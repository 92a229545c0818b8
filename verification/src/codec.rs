//! The two codec capabilities, the scalar contract that ties them
//! together, and the four public entry points.
//!
//! `Readable` turns a byte window into a value; `Writeable` turns a value
//! into the leading bytes of a window.  Both speak about byte sequences
//! through the spec functions each implementing type supplies.  `Scalar`
//! is the contract a fixed-width leaf type satisfies on top of the two
//! capabilities; the sequence adapter and the generic laws are built on it
//! alone, so a new scalar type joins the system by implementing these three
//! traits.

use vstd::prelude::*;

verus! {

/// A type that can be decoded from the leading bytes of a byte window.
pub trait Readable: Sized + DeepView {
    /// The least window length decoding accepts.
    spec fn spec_min_len() -> nat;

    /// What decoding `bytes` big-endian yields.
    spec fn spec_from_be(bytes: Seq<u8>) -> Self::V;

    /// What decoding `bytes` little-endian yields.
    spec fn spec_from_le(bytes: Seq<u8>) -> Self::V;

    /// Decodes a value from the front of `buffer`, big-endian.
    fn from_u8_be(buffer: &[u8]) -> (r: Self)
        requires
            Self::spec_min_len() <= buffer@.len(),
        ensures
            r.deep_view() == Self::spec_from_be(buffer@),
    ;

    /// Decodes a value from the front of `buffer`, little-endian.
    fn from_u8_le(buffer: &[u8]) -> (r: Self)
        requires
            Self::spec_min_len() <= buffer@.len(),
        ensures
            r.deep_view() == Self::spec_from_le(buffer@),
    ;
}

/// A type that can be encoded into the leading bytes of a byte window.
pub trait Writeable: Sized {
    /// How many leading bytes of the window encoding fills.
    spec fn spec_enc_len(&self) -> nat;

    /// The big-endian encoding of `self`: exactly `spec_enc_len` bytes.
    spec fn spec_to_be(&self) -> Seq<u8>;

    /// The little-endian encoding of `self`: exactly `spec_enc_len` bytes.
    spec fn spec_to_le(&self) -> Seq<u8>;

    /// Both encodings have length `spec_enc_len`.
    proof fn lemma_enc_len(v: Self)
        ensures
            v.spec_to_be().len() == v.spec_enc_len(),
            v.spec_to_le().len() == v.spec_enc_len(),
    ;

    /// Writes the big-endian encoding of `v` over the first
    /// `spec_enc_len` bytes of `buffer`; every byte after them is left
    /// untouched.
    fn to_u8_be(v: &Self, buffer: &mut [u8])
        requires
            v.spec_enc_len() <= old(buffer)@.len(),
        ensures
            final(buffer)@.len() == old(buffer)@.len(),
            final(buffer)@ == v.spec_to_be() + old(buffer)@.skip(v.spec_enc_len() as int),
    ;

    /// Writes the little-endian encoding of `v` over the first
    /// `spec_enc_len` bytes of `buffer`; every byte after them is left
    /// untouched.
    fn to_u8_le(v: &Self, buffer: &mut [u8])
        requires
            v.spec_enc_len() <= old(buffer)@.len(),
        ensures
            final(buffer)@.len() == old(buffer)@.len(),
            final(buffer)@ == v.spec_to_le() + old(buffer)@.skip(v.spec_enc_len() as int),
    ;
}

/// The contract of a fixed-width leaf type: its decoder and encoder agree
/// on one width, invert each other, mirror each other between the two byte
/// orders, and read nothing past the width.  The sequence adapter and the
/// generic laws need nothing else.
pub trait Scalar: Readable + Writeable {
    /// The intrinsic byte width of the type.
    spec fn spec_width() -> nat;

    /// The width, as executable code needs it.
    fn width() -> (w: usize)
        ensures
            w == Self::spec_width(),
    ;

    /// The width is at least one byte, and is what decoding requires.
    proof fn lemma_width()
        ensures
            1 <= Self::spec_width(),
            Self::spec_min_len() == Self::spec_width(),
    ;

    /// Every value encodes to exactly the width.
    proof fn lemma_fixed_len(v: Self)
        ensures
            v.spec_enc_len() == Self::spec_width(),
    ;

    /// Decoding an encoding yields the value back, in either byte order.
    proof fn lemma_round_trip(v: Self)
        ensures
            Self::spec_from_be(v.spec_to_be()) == v.deep_view(),
            Self::spec_from_le(v.spec_to_le()) == v.deep_view(),
    ;

    /// The little-endian encoding is the big-endian encoding reversed.
    proof fn lemma_endian_mirror(v: Self)
        ensures
            v.spec_to_le() == v.spec_to_be().reverse(),
    ;

    /// Decoding consults only the first `spec_width` bytes of the window.
    proof fn lemma_prefix(b1: Seq<u8>, b2: Seq<u8>)
        requires
            Self::spec_width() <= b1.len(),
            Self::spec_width() <= b2.len(),
            b1.take(Self::spec_width() as int) == b2.take(Self::spec_width() as int),
        ensures
            Self::spec_from_be(b1) == Self::spec_from_be(b2),
            Self::spec_from_le(b1) == Self::spec_from_le(b2),
    ;
}

/// Reads a value of type `T` from the front of `buffer`, big-endian.
pub fn read_be<T: Readable>(buffer: &[u8]) -> (r: T)
    requires
        T::spec_min_len() <= buffer@.len(),
    ensures
        r.deep_view() == T::spec_from_be(buffer@),
{
    T::from_u8_be(buffer)
}

/// Reads a value of type `T` from the front of `buffer`, little-endian.
pub fn read_le<T: Readable>(buffer: &[u8]) -> (r: T)
    requires
        T::spec_min_len() <= buffer@.len(),
    ensures
        r.deep_view() == T::spec_from_le(buffer@),
{
    T::from_u8_le(buffer)
}

/// Writes `v` over the front of `buffer`, big-endian; bytes past the
/// encoding keep their old value.
pub fn write_be<T: Writeable>(v: &T, buffer: &mut [u8])
    requires
        v.spec_enc_len() <= old(buffer)@.len(),
    ensures
        final(buffer)@.len() == old(buffer)@.len(),
        final(buffer)@ == v.spec_to_be() + old(buffer)@.skip(v.spec_enc_len() as int),
{
    T::to_u8_be(v, buffer);
}

/// Writes `v` over the front of `buffer`, little-endian; bytes past the
/// encoding keep their old value.
pub fn write_le<T: Writeable>(v: &T, buffer: &mut [u8])
    requires
        v.spec_enc_len() <= old(buffer)@.len(),
    ensures
        final(buffer)@.len() == old(buffer)@.len(),
        final(buffer)@ == v.spec_to_le() + old(buffer)@.skip(v.spec_enc_len() as int),
{
    T::to_u8_le(v, buffer);
}

} // verus!
