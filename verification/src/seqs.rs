//! The sequence adapter: `Vec<T>` is a codec whenever the element type is a
//! scalar codec.
//!
//! Decoding divides the window into slots of the element width, decodes one
//! element per slot in stream order, and silently discards the trailing
//! bytes of a window whose length is not a multiple of the width.  Encoding
//! writes element `i` into slot `i` and needs a window of at least
//! `len * width` bytes.  The adapter is written once, generically over the
//! `Scalar` contract, so sequences of any present or future scalar type come
//! for free.

use vstd::prelude::*;

verus! {

use crate::codec::{Readable, Scalar, Writeable};
use vstd::arithmetic::div_mod::{lemma_fundamental_div_mod, lemma_mod_division_less_than_divisor};
use vstd::slice::slice_subrange;

/// Decoding a byte sequence as consecutive big-endian slots of width
/// `T::spec_width()`: one element per full slot, remainder bytes dropped.
pub open spec fn seq_from_be<T: Scalar>(bytes: Seq<u8>) -> Seq<T::V> {
    Seq::new(
        bytes.len() / T::spec_width(),
        |i: int|
            T::spec_from_be(
                bytes.subrange(i * T::spec_width() as int, (i + 1) * T::spec_width() as int),
            ),
    )
}

/// Decoding a byte sequence as consecutive little-endian slots of width
/// `T::spec_width()`: one element per full slot, remainder bytes dropped.
pub open spec fn seq_from_le<T: Scalar>(bytes: Seq<u8>) -> Seq<T::V> {
    Seq::new(
        bytes.len() / T::spec_width(),
        |i: int|
            T::spec_from_le(
                bytes.subrange(i * T::spec_width() as int, (i + 1) * T::spec_width() as int),
            ),
    )
}

/// The big-endian encodings of the elements, laid out one after another.
pub open spec fn seq_to_be<T: Writeable>(els: Seq<T>) -> Seq<u8>
    decreases els.len(),
{
    if els.len() == 0 {
        Seq::empty()
    } else {
        els[0].spec_to_be() + seq_to_be(els.drop_first())
    }
}

/// The little-endian encodings of the elements, laid out one after another.
pub open spec fn seq_to_le<T: Writeable>(els: Seq<T>) -> Seq<u8>
    decreases els.len(),
{
    if els.len() == 0 {
        Seq::empty()
    } else {
        els[0].spec_to_le() + seq_to_le(els.drop_first())
    }
}

/// An encoded sequence occupies exactly `len * width` bytes.
pub proof fn lemma_seq_to_len<T: Scalar>(els: Seq<T>)
    ensures
        seq_to_be::<T>(els).len() == els.len() * T::spec_width(),
        seq_to_le::<T>(els).len() == els.len() * T::spec_width(),
    decreases els.len(),
{
    if els.len() == 0 {
    } else {
        T::lemma_enc_len(els[0]);
        T::lemma_fixed_len(els[0]);
        lemma_seq_to_len::<T>(els.drop_first());
        assert(T::spec_width() + (els.len() - 1) * T::spec_width() == els.len()
            * T::spec_width()) by (nonlinear_arith);
    }
}

impl<T: Scalar> Readable for Vec<T> {
    open spec fn spec_min_len() -> nat {
        0
    }

    open spec fn spec_from_be(bytes: Seq<u8>) -> Seq<T::V> {
        seq_from_be::<T>(bytes)
    }

    open spec fn spec_from_le(bytes: Seq<u8>) -> Seq<T::V> {
        seq_from_le::<T>(bytes)
    }

    #[verifier::loop_isolation(false)]
    fn from_u8_be(buffer: &[u8]) -> (r: Vec<T>) {
        proof {
            T::lemma_width();
        }
        let w = T::width();
        let n = buffer.len() / w;
        proof {
            lemma_fundamental_div_mod(buffer@.len() as int, w as int);
            lemma_mod_division_less_than_divisor(buffer@.len() as int, w as int);
        }
        let mut out: Vec<T> = Vec::new();
        let mut i: usize = 0;
        proof {
            assert(out.deep_view() =~= seq_from_be::<T>(buffer@).take(0));
        }
        while i < n
            invariant
                w == T::spec_width(),
                1 <= w,
                n == buffer@.len() as int / w as int,
                n * w <= buffer@.len(),
                i <= n,
                out.deep_view() == seq_from_be::<T>(buffer@).take(i as int),
            decreases n - i,
        {
            proof {
                assert((i + 1) * w <= n * w) by (nonlinear_arith)
                    requires
                        i + 1 <= n,
                        0 <= w,
                ;
                assert((i + 1) * w == i * w + w) by (nonlinear_arith);
            }
            let chunk = slice_subrange(buffer, i * w, i * w + w);
            let e = T::from_u8_be(chunk);
            let ghost pre = out@;
            out.push(e);
            proof {
                assert(out.deep_view() =~= seq_from_be::<T>(buffer@).take(i + 1)) by {
                    assert(forall|j: int|
                        0 <= j < pre.len() ==> out@[j].deep_view()
                            == #[trigger] pre[j].deep_view());
                    assert(out@[pre.len() as int].deep_view() == T::spec_from_be(chunk@));
                }
            }
            i = i + 1;
        }
        proof {
            assert(out.deep_view() =~= seq_from_be::<T>(buffer@));
        }
        out
    }

    #[verifier::loop_isolation(false)]
    fn from_u8_le(buffer: &[u8]) -> (r: Vec<T>) {
        proof {
            T::lemma_width();
        }
        let w = T::width();
        let n = buffer.len() / w;
        proof {
            lemma_fundamental_div_mod(buffer@.len() as int, w as int);
            lemma_mod_division_less_than_divisor(buffer@.len() as int, w as int);
        }
        let mut out: Vec<T> = Vec::new();
        let mut i: usize = 0;
        proof {
            assert(out.deep_view() =~= seq_from_le::<T>(buffer@).take(0));
        }
        while i < n
            invariant
                w == T::spec_width(),
                1 <= w,
                n == buffer@.len() as int / w as int,
                n * w <= buffer@.len(),
                i <= n,
                out.deep_view() == seq_from_le::<T>(buffer@).take(i as int),
            decreases n - i,
        {
            proof {
                assert((i + 1) * w <= n * w) by (nonlinear_arith)
                    requires
                        i + 1 <= n,
                        0 <= w,
                ;
                assert((i + 1) * w == i * w + w) by (nonlinear_arith);
            }
            let chunk = slice_subrange(buffer, i * w, i * w + w);
            let e = T::from_u8_le(chunk);
            let ghost pre = out@;
            out.push(e);
            proof {
                assert(out.deep_view() =~= seq_from_le::<T>(buffer@).take(i + 1)) by {
                    assert(forall|j: int|
                        0 <= j < pre.len() ==> out@[j].deep_view()
                            == #[trigger] pre[j].deep_view());
                    assert(out@[pre.len() as int].deep_view() == T::spec_from_le(chunk@));
                }
            }
            i = i + 1;
        }
        proof {
            assert(out.deep_view() =~= seq_from_le::<T>(buffer@));
        }
        out
    }
}

impl<T: Scalar> Writeable for Vec<T> {
    open spec fn spec_enc_len(&self) -> nat {
        self@.len() * T::spec_width()
    }

    open spec fn spec_to_be(&self) -> Seq<u8> {
        seq_to_be::<T>(self@)
    }

    open spec fn spec_to_le(&self) -> Seq<u8> {
        seq_to_le::<T>(self@)
    }

    proof fn lemma_enc_len(v: Vec<T>) {
        lemma_seq_to_len::<T>(v@);
    }

    fn to_u8_be(v: &Vec<T>, buffer: &mut [u8]) {
        write_all_be::<T>(v.as_slice(), buffer);
    }

    fn to_u8_le(v: &Vec<T>, buffer: &mut [u8]) {
        write_all_le::<T>(v.as_slice(), buffer);
    }
}

fn write_all_be<T: Scalar>(els: &[T], buffer: &mut [u8])
    requires
        els@.len() * T::spec_width() <= old(buffer)@.len(),
    ensures
        final(buffer)@.len() == old(buffer)@.len(),
        final(buffer)@ == seq_to_be::<T>(els@) + old(buffer)@.skip(
            (els@.len() * T::spec_width()) as int,
        ),
    decreases els@.len(),
{
    if els.len() > 0 {
        proof {
            T::lemma_width();
            T::lemma_fixed_len(els@[0]);
            T::lemma_enc_len(els@[0]);
            assert(T::spec_width() + (els@.len() - 1) * T::spec_width() == els@.len()
                * T::spec_width()) by (nonlinear_arith);
            assert(0 <= (els@.len() - 1) * T::spec_width()) by (nonlinear_arith)
                requires
                    1 <= els@.len(),
                    0 <= T::spec_width(),
            ;
        }
        let w = T::width();
        let (head, tail) = buffer.split_at_mut(w);
        T::to_u8_be(&els[0], head);
        let rest = slice_subrange(els, 1, els.len());
        proof {
            assert(rest@ =~= els@.drop_first());
        }
        write_all_be::<T>(rest, tail);
        proof {
            assert(buffer@ =~= seq_to_be::<T>(els@) + old(buffer)@.skip(
                (els@.len() * T::spec_width()) as int,
            ));
        }
    } else {
        proof {
            assert(buffer@ =~= seq_to_be::<T>(els@) + old(buffer)@.skip(
                (els@.len() * T::spec_width()) as int,
            ));
        }
    }
}

fn write_all_le<T: Scalar>(els: &[T], buffer: &mut [u8])
    requires
        els@.len() * T::spec_width() <= old(buffer)@.len(),
    ensures
        final(buffer)@.len() == old(buffer)@.len(),
        final(buffer)@ == seq_to_le::<T>(els@) + old(buffer)@.skip(
            (els@.len() * T::spec_width()) as int,
        ),
    decreases els@.len(),
{
    if els.len() > 0 {
        proof {
            T::lemma_width();
            T::lemma_fixed_len(els@[0]);
            T::lemma_enc_len(els@[0]);
            assert(T::spec_width() + (els@.len() - 1) * T::spec_width() == els@.len()
                * T::spec_width()) by (nonlinear_arith);
            assert(0 <= (els@.len() - 1) * T::spec_width()) by (nonlinear_arith)
                requires
                    1 <= els@.len(),
                    0 <= T::spec_width(),
            ;
        }
        let w = T::width();
        let (head, tail) = buffer.split_at_mut(w);
        T::to_u8_le(&els[0], head);
        let rest = slice_subrange(els, 1, els.len());
        proof {
            assert(rest@ =~= els@.drop_first());
        }
        write_all_le::<T>(rest, tail);
        proof {
            assert(buffer@ =~= seq_to_le::<T>(els@) + old(buffer)@.skip(
                (els@.len() * T::spec_width()) as int,
            ));
        }
    } else {
        proof {
            assert(buffer@ =~= seq_to_le::<T>(els@) + old(buffer)@.skip(
                (els@.len() * T::spec_width()) as int,
            ));
        }
    }
}

} // verus!
