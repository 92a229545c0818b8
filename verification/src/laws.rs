//! The laws the codec obeys, stated once, generically, over the `Scalar`
//! contract.
//!
//! Each proof function below is a public statement about the spec functions
//! that the executable contracts speak of, so together with those contracts
//! it describes the observable behaviour of every scalar codec and of the
//! sequence adapter.

use vstd::prelude::*;

verus! {

use crate::codec::{Readable, Scalar, Writeable};
use crate::seqs::{lemma_seq_to_len, seq_from_be, seq_from_le, seq_to_be, seq_to_le};
use vstd::arithmetic::div_mod::{
    lemma_div_by_multiple,
    lemma_div_pos_is_pos,
    lemma_fundamental_div_mod,
    lemma_mod_division_less_than_divisor,
};

/// Round trip: decoding an encoding yields the value back, in either byte
/// order, even when the window carries extra bytes after the encoding.
pub proof fn lemma_scalar_round_trip<T: Scalar>(v: T, rest: Seq<u8>)
    ensures
        T::spec_from_be(v.spec_to_be() + rest) == v.deep_view(),
        T::spec_from_le(v.spec_to_le() + rest) == v.deep_view(),
{
    let w = T::spec_width() as int;
    T::lemma_width();
    T::lemma_enc_len(v);
    T::lemma_fixed_len(v);
    T::lemma_round_trip(v);
    assert((v.spec_to_be() + rest).take(w) =~= v.spec_to_be().take(w));
    assert(v.spec_to_be().take(w) =~= v.spec_to_be());
    T::lemma_prefix(v.spec_to_be() + rest, v.spec_to_be());
    assert((v.spec_to_le() + rest).take(w) =~= v.spec_to_le().take(w));
    assert(v.spec_to_le().take(w) =~= v.spec_to_le());
    T::lemma_prefix(v.spec_to_le() + rest, v.spec_to_le());
}

/// Order symmetry at width one: a one-byte scalar has the same encoding in
/// both byte orders.
pub proof fn lemma_order_symmetry_width_one<T: Scalar>(v: T)
    requires
        T::spec_width() == 1,
    ensures
        v.spec_to_be() == v.spec_to_le(),
{
    T::lemma_enc_len(v);
    T::lemma_fixed_len(v);
    T::lemma_endian_mirror(v);
    assert(v.spec_to_be().reverse() =~= v.spec_to_be());
}

/// Endian inversion: the little-endian encoding is the big-endian encoding
/// with its bytes reversed.
pub proof fn lemma_endian_inversion<T: Scalar>(v: T)
    ensures
        v.spec_to_le() == v.spec_to_be().reverse(),
{
    T::lemma_endian_mirror(v);
}

/// Prefix tolerance: decoding a scalar consults only the first
/// `T::spec_width()` bytes of the window; whatever follows them cannot
/// change the result.
pub proof fn lemma_prefix_tolerance<T: Scalar>(b1: Seq<u8>, b2: Seq<u8>)
    requires
        T::spec_width() <= b1.len(),
        T::spec_width() <= b2.len(),
        b1.take(T::spec_width() as int) == b2.take(T::spec_width() as int),
    ensures
        T::spec_from_be(b1) == T::spec_from_be(b2),
        T::spec_from_le(b1) == T::spec_from_le(b2),
{
    T::lemma_prefix(b1, b2);
}

/// Slot `i` of an encoded sequence holds exactly the encoding of element
/// `i`.
pub proof fn lemma_seq_slot<T: Scalar>(els: Seq<T>, i: int)
    requires
        0 <= i < els.len(),
    ensures
        seq_to_be::<T>(els).subrange(
            i * T::spec_width() as int,
            (i + 1) * T::spec_width() as int,
        ) == els[i].spec_to_be(),
        seq_to_le::<T>(els).subrange(
            i * T::spec_width() as int,
            (i + 1) * T::spec_width() as int,
        ) == els[i].spec_to_le(),
    decreases i,
{
    let w = T::spec_width() as int;
    T::lemma_width();
    T::lemma_enc_len(els[0]);
    T::lemma_fixed_len(els[0]);
    lemma_seq_to_len::<T>(els);
    lemma_seq_to_len::<T>(els.drop_first());
    assert((i + 1) * w <= els.len() * w) by (nonlinear_arith)
        requires
            i + 1 <= els.len(),
            0 <= w,
    ;
    assert((i + 1) * w == i * w + w) by (nonlinear_arith);
    assert(0 <= i * w) by (nonlinear_arith)
        requires
            0 <= i,
            0 <= w,
    ;
    if i == 0 {
        assert(seq_to_be::<T>(els).subrange(0, w) =~= els[0].spec_to_be());
        assert(seq_to_le::<T>(els).subrange(0, w) =~= els[0].spec_to_le());
    } else {
        lemma_seq_slot::<T>(els.drop_first(), i - 1);
        assert((i - 1) * w == i * w - w) by (nonlinear_arith);
        assert(w <= i * w) by (nonlinear_arith)
            requires
                1 <= i,
                0 <= w,
        ;
        assert(i * w <= (els.len() - 1) * w) by (nonlinear_arith)
            requires
                i <= els.len() - 1,
                0 <= w,
        ;
        assert(els.drop_first()[i - 1] == els[i]);
        let whole_be = seq_to_be::<T>(els);
        let tail_be = seq_to_be::<T>(els.drop_first());
        let whole_le = seq_to_le::<T>(els);
        let tail_le = seq_to_le::<T>(els.drop_first());
        assert(whole_be == els[0].spec_to_be() + tail_be);
        assert(whole_le == els[0].spec_to_le() + tail_le);
        assert forall|j: int| 0 <= j < w implies #[trigger] whole_be.subrange(
            i * w,
            (i + 1) * w,
        )[j] == tail_be.subrange((i - 1) * w, i * w)[j] by {
            assert(whole_be.subrange(i * w, (i + 1) * w)[j] == whole_be[i * w + j]);
            assert(whole_be[i * w + j] == (els[0].spec_to_be() + tail_be)[i * w + j]);
            assert((els[0].spec_to_be() + tail_be)[i * w + j] == tail_be[i * w + j - w]);
            assert(tail_be.subrange((i - 1) * w, i * w)[j] == tail_be[(i - 1) * w + j]);
        }
        assert forall|j: int| 0 <= j < w implies #[trigger] whole_le.subrange(
            i * w,
            (i + 1) * w,
        )[j] == tail_le.subrange((i - 1) * w, i * w)[j] by {
            assert(whole_le.subrange(i * w, (i + 1) * w)[j] == whole_le[i * w + j]);
            assert(whole_le[i * w + j] == (els[0].spec_to_le() + tail_le)[i * w + j]);
            assert((els[0].spec_to_le() + tail_le)[i * w + j] == tail_le[i * w + j - w]);
            assert(tail_le.subrange((i - 1) * w, i * w)[j] == tail_le[(i - 1) * w + j]);
        }
        assert(seq_to_be::<T>(els).subrange(i * w, (i + 1) * w) =~= seq_to_be::<T>(
            els.drop_first(),
        ).subrange((i - 1) * w, i * w));
        assert(seq_to_le::<T>(els).subrange(i * w, (i + 1) * w) =~= seq_to_le::<T>(
            els.drop_first(),
        ).subrange((i - 1) * w, i * w));
        assert(seq_to_be::<T>(els).subrange(i * w, (i + 1) * w) == els[i].spec_to_be());
        assert(seq_to_le::<T>(els).subrange(i * w, (i + 1) * w) == els[i].spec_to_le());
    }
}

/// Sequence round trip: encoding a sequence into exactly `len * width`
/// bytes and decoding those bytes back yields the sequence again, in either
/// byte order.
pub proof fn lemma_seq_round_trip<T: Scalar>(els: Seq<T>)
    ensures
        seq_from_be::<T>(seq_to_be::<T>(els)) == Seq::new(els.len(), |i: int| els[i].deep_view()),
        seq_from_le::<T>(seq_to_le::<T>(els)) == Seq::new(els.len(), |i: int| els[i].deep_view()),
{
    let w = T::spec_width() as int;
    T::lemma_width();
    lemma_seq_to_len::<T>(els);
    lemma_div_by_multiple(els.len() as int, w);
    assert(seq_from_be::<T>(seq_to_be::<T>(els)).len() == els.len());
    assert(seq_from_le::<T>(seq_to_le::<T>(els)).len() == els.len());
    assert forall|i: int| 0 <= i < els.len() implies seq_from_be::<T>(seq_to_be::<T>(els))[i]
        == els[i].deep_view() && seq_from_le::<T>(seq_to_le::<T>(els))[i]
        == els[i].deep_view() by {
        lemma_seq_slot::<T>(els, i);
        T::lemma_round_trip(els[i]);
    }
    assert(seq_from_be::<T>(seq_to_be::<T>(els)) =~= Seq::new(
        els.len(),
        |i: int| els[i].deep_view(),
    ));
    assert(seq_from_le::<T>(seq_to_le::<T>(els)) =~= Seq::new(
        els.len(),
        |i: int| els[i].deep_view(),
    ));
}

/// Truncating decode: a window of length `L` decodes to exactly
/// `L / width` elements, and the `L % width` remainder bytes have no
/// bearing on the result.
pub proof fn lemma_truncating_decode<T: Scalar>(bytes: Seq<u8>)
    ensures
        seq_from_be::<T>(bytes).len() == bytes.len() / T::spec_width(),
        seq_from_le::<T>(bytes).len() == bytes.len() / T::spec_width(),
        seq_from_be::<T>(bytes) == seq_from_be::<T>(
            bytes.take(((bytes.len() / T::spec_width()) * T::spec_width()) as int),
        ),
        seq_from_le::<T>(bytes) == seq_from_le::<T>(
            bytes.take(((bytes.len() / T::spec_width()) * T::spec_width()) as int),
        ),
{
    let w = T::spec_width() as int;
    T::lemma_width();
    let n = bytes.len() as int / w;
    let m = n * w;
    lemma_fundamental_div_mod(bytes.len() as int, w);
    lemma_mod_division_less_than_divisor(bytes.len() as int, w);
    lemma_div_pos_is_pos(bytes.len() as int, w);
    let front = bytes.take(m);
    assert(front.len() == m);
    lemma_div_by_multiple(n, w);
    assert(seq_from_be::<T>(front).len() == n);
    assert forall|i: int| 0 <= i < n implies seq_from_be::<T>(bytes)[i] == seq_from_be::<T>(
        front,
    )[i] && seq_from_le::<T>(bytes)[i] == seq_from_le::<T>(front)[i] by {
        assert((i + 1) * w <= n * w) by (nonlinear_arith)
            requires
                i + 1 <= n,
                0 <= w,
        ;
        assert((i + 1) * w == i * w + w) by (nonlinear_arith);
        assert(0 <= i * w) by (nonlinear_arith)
            requires
                0 <= i,
                0 <= w,
        ;
        assert(bytes.subrange(i * w, (i + 1) * w) =~= front.subrange(i * w, (i + 1) * w));
    }
    assert(seq_from_be::<T>(bytes) =~= seq_from_be::<T>(front));
    assert(seq_from_le::<T>(bytes) =~= seq_from_le::<T>(front));
}

} // verus!
