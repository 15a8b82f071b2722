//! The transcript collaborator: a keyed message log. The prover absorbs
//! ring-element vectors into it, its byte content becomes one proof entry,
//! and the verifier re-creates it from those bytes and extracts the
//! vectors in the order they were absorbed.

use vstd::prelude::*;
use vstd::bytes::{
    spec_u64_to_le_bytes, spec_u64_from_le_bytes, lemma_auto_spec_u64_to_from_le_bytes,
    u64_to_le_bytes, u64_from_le_bytes,
};
use vstd::slice::slice_subrange;
use vstd::arithmetic::mul::{
    lemma_mul_inequality, lemma_mul_nonnegative, lemma_mul_is_distributive_add_other_way,
};
use crate::ring::RingElem;
use crate::ring::vec_view;
use crate::relation::{splits_view, splits_lt, splits_dims, check_splits_lt};

verus! {

// ---------------------------------------------------------------------------
// Canonical encoding of witness vectors
// ---------------------------------------------------------------------------

/// Canonical encoding of one ring element: each residue as eight
/// little-endian bytes, in order.
pub open spec fn enc_elem_spec(e: Seq<u64>) -> Seq<u8>
    decreases e.len(),
{
    if e.len() == 0 {
        Seq::empty()
    } else {
        enc_elem_spec(e.drop_last()) + spec_u64_to_le_bytes(e.last())
    }
}

/// Canonical encoding of a vector of ring elements.
pub open spec fn enc_vec_spec(v: Seq<Seq<u64>>) -> Seq<u8>
    decreases v.len(),
{
    if v.len() == 0 {
        Seq::empty()
    } else {
        enc_vec_spec(v.drop_last()) + enc_elem_spec(v.last())
    }
}

/// Canonical encoding of a split witness.
pub open spec fn enc_wits_spec(w: Seq<Seq<Seq<u64>>>) -> Seq<u8>
    decreases w.len(),
{
    if w.len() == 0 {
        Seq::empty()
    } else {
        enc_wits_spec(w.drop_last()) + enc_vec_spec(w.last())
    }
}

/// Decoding of one element from exactly `8 * d` bytes.
pub open spec fn dec_elem_spec(bytes: Seq<u8>, d: nat) -> Seq<u64>
    decreases d,
{
    if d == 0 {
        Seq::empty()
    } else {
        dec_elem_spec(bytes.take(8 * (d - 1)), (d - 1) as nat).push(
            spec_u64_from_le_bytes(bytes.subrange(8 * (d - 1), 8 * (d - 1) + 8)),
        )
    }
}

/// Decoding of a vector of `wlen` elements from exactly `8 * d * wlen` bytes.
pub open spec fn dec_vec_spec(bytes: Seq<u8>, wlen: nat, d: nat) -> Seq<Seq<u64>>
    decreases wlen,
{
    if wlen == 0 {
        Seq::empty()
    } else {
        dec_vec_spec(bytes.take((8 * d) * (wlen - 1)), (wlen - 1) as nat, d).push(
            dec_elem_spec(
                bytes.subrange((8 * d) * (wlen - 1), (8 * d) * (wlen - 1) + (8 * d) as int),
                d,
            ),
        )
    }
}

/// Decoding of `r` split vectors from exactly `8 * d * wlen * r` bytes.
pub open spec fn dec_wits_raw(bytes: Seq<u8>, r: nat, wlen: nat, d: nat) -> Seq<Seq<Seq<u64>>>
    decreases r,
{
    if r == 0 {
        Seq::empty()
    } else {
        dec_wits_raw(bytes.take(((8 * d) * wlen) * (r - 1)), (r - 1) as nat, wlen, d).push(
            dec_vec_spec(
                bytes.subrange(
                    ((8 * d) * wlen) * (r - 1),
                    ((8 * d) * wlen) * (r - 1) + ((8 * d) * wlen) as int,
                ),
                wlen,
                d,
            ),
        )
    }
}

/// What extraction of a terminal witness from a byte string yields: the
/// decoded witness when the length is exactly right and every residue
/// lies below the modulus, and nothing otherwise.
pub open spec fn dec_wits_spec(bytes: Seq<u8>, r: nat, wlen: nat, d: nat, q: u64) -> Option<
    Seq<Seq<Seq<u64>>>,
> {
    if bytes.len() == ((8 * d) * wlen) * r {
        if splits_lt(dec_wits_raw(bytes, r, wlen, d), q) {
            Option::Some(dec_wits_raw(bytes, r, wlen, d))
        } else {
            Option::None
        }
    } else {
        Option::None
    }
}

// ---------------------------------------------------------------------------
// Round-trip and canonicity lemmas
// ---------------------------------------------------------------------------

proof fn lemma_mul_step(x: int, k: int)
    requires
        x >= 0,
        k >= 0,
    ensures
        x * (k + 1) == x * k + x,
        0 <= x * k,
        x * k <= x * (k + 1),
        (k + 1) * x == x * (k + 1),
{
    vstd::arithmetic::mul::lemma_mul_is_distributive_add(x, k, 1);
    vstd::arithmetic::mul::lemma_mul_basics(x);
    lemma_mul_nonnegative(x, k);
    vstd::arithmetic::mul::lemma_mul_is_commutative(x, k + 1);
}

proof fn lemma_mul_le(x: int, a: int, b: int)
    requires
        x >= 0,
        0 <= a <= b,
    ensures
        x * a <= x * b,
        0 <= x * a,
{
    lemma_mul_inequality(a, b, x);
    vstd::arithmetic::mul::lemma_mul_is_commutative(x, a);
    vstd::arithmetic::mul::lemma_mul_is_commutative(x, b);
    lemma_mul_nonnegative(x, a);
}

/// Decoding inverts encoding on well-formed elements.
pub proof fn lemma_dec_enc_elem(e: Seq<u64>)
    ensures
        enc_elem_spec(e).len() == 8 * e.len(),
        dec_elem_spec(enc_elem_spec(e), e.len()) == e,
    decreases e.len(),
{
    lemma_auto_spec_u64_to_from_le_bytes();
    if e.len() == 0 {
        assert(dec_elem_spec(enc_elem_spec(e), 0) =~= e);
    } else {
        lemma_dec_enc_elem(e.drop_last());
        let b = enc_elem_spec(e);
        let dl = (e.len() - 1) as nat;
        assert(b.take(8 * dl as int) =~= enc_elem_spec(e.drop_last()));
        assert(b.subrange(8 * dl as int, 8 * dl as int + 8) =~= spec_u64_to_le_bytes(e.last()));
        assert(dec_elem_spec(b, e.len()) =~= e);
    }
}

/// Encoding inverts decoding on byte strings of the exact length.
pub proof fn lemma_enc_dec_elem(bytes: Seq<u8>, d: nat)
    requires
        bytes.len() == 8 * d,
    ensures
        enc_elem_spec(dec_elem_spec(bytes, d)) == bytes,
        dec_elem_spec(bytes, d).len() == d,
    decreases d,
{
    lemma_auto_spec_u64_to_from_le_bytes();
    if d == 0 {
        assert(enc_elem_spec(dec_elem_spec(bytes, d)) =~= bytes);
    } else {
        let dl = (d - 1) as nat;
        lemma_enc_dec_elem(bytes.take(8 * dl as int), dl);
        let w = dec_elem_spec(bytes, d);
        assert(w.drop_last() =~= dec_elem_spec(bytes.take(8 * dl as int), dl));
        assert(spec_u64_to_le_bytes(w.last()) =~= bytes.subrange(8 * dl as int, 8 * dl as int + 8));
        assert(enc_elem_spec(w) =~= bytes);
    }
}

/// Decoding inverts encoding on well-dimensioned vectors.
pub proof fn lemma_dec_enc_vec(v: Seq<Seq<u64>>, d: nat)
    requires
        forall|i: int| 0 <= i < v.len() ==> (#[trigger] v[i]).len() == d,
    ensures
        enc_vec_spec(v).len() == (8 * d) * v.len(),
        dec_vec_spec(enc_vec_spec(v), v.len(), d) == v,
    decreases v.len(),
{
    if v.len() == 0 {
        vstd::arithmetic::mul::lemma_mul_basics(8 * d as int);
        assert(dec_vec_spec(enc_vec_spec(v), 0, d) =~= v);
    } else {
        lemma_dec_enc_vec(v.drop_last(), d);
        lemma_dec_enc_elem(v.last());
        let b = enc_vec_spec(v);
        let wl = (v.len() - 1) as nat;
        lemma_mul_step(8 * d as int, wl as int);
        assert(b.len() == (8 * d) * v.len());
        assert(b.take((8 * d as int) * wl as int) =~= enc_vec_spec(v.drop_last()));
        assert(b.subrange((8 * d as int) * wl as int, (8 * d as int) * wl as int + (8 * d) as int)
            =~= enc_elem_spec(v.last()));
        assert(dec_vec_spec(b, v.len(), d) =~= v);
    }
}

/// Encoding inverts decoding of a vector.
pub proof fn lemma_enc_dec_vec(bytes: Seq<u8>, wlen: nat, d: nat)
    requires
        bytes.len() == (8 * d) * wlen,
    ensures
        enc_vec_spec(dec_vec_spec(bytes, wlen, d)) == bytes,
        dec_vec_spec(bytes, wlen, d).len() == wlen,
        forall|i: int|
            0 <= i < wlen ==> (#[trigger] dec_vec_spec(bytes, wlen, d)[i]).len() == d,
    decreases wlen,
{
    if wlen == 0 {
        vstd::arithmetic::mul::lemma_mul_basics(8 * d as int);
        assert(enc_vec_spec(dec_vec_spec(bytes, wlen, d)) =~= bytes);
    } else {
        let wl = (wlen - 1) as nat;
        lemma_mul_step(8 * d as int, wl as int);
        assert(bytes.take((8 * d as int) * wl as int).len() == (8 * d) * wl);
        lemma_enc_dec_vec(bytes.take((8 * d as int) * wl as int), wl, d);
        lemma_enc_dec_elem(
            bytes.subrange((8 * d as int) * wl as int, (8 * d as int) * wl as int + (8 * d) as int),
            d,
        );
        let v = dec_vec_spec(bytes, wlen, d);
        assert(v.drop_last() =~= dec_vec_spec(bytes.take((8 * d as int) * wl as int), wl, d));
        assert(enc_vec_spec(v) =~= bytes);
    }
}

/// Decoding inverts encoding on well-dimensioned split witnesses.
pub proof fn lemma_dec_enc_wits(w: Seq<Seq<Seq<u64>>>, wlen: nat, d: nat)
    requires
        forall|i: int| 0 <= i < w.len() ==> (#[trigger] w[i]).len() == wlen,
        forall|i: int, j: int|
            0 <= i < w.len() && 0 <= j < wlen ==> (#[trigger] w[i][j]).len() == d,
    ensures
        enc_wits_spec(w).len() == ((8 * d) * wlen) * w.len(),
        dec_wits_raw(enc_wits_spec(w), w.len(), wlen, d) == w,
    decreases w.len(),
{
    if w.len() == 0 {
        vstd::arithmetic::mul::lemma_mul_basics((8 * d as int) * wlen as int);
        assert(dec_wits_raw(enc_wits_spec(w), 0, wlen, d) =~= w);
    } else {
        lemma_dec_enc_wits(w.drop_last(), wlen, d);
        assert(forall|i: int| 0 <= i < w.last().len() ==> (#[trigger] w.last()[i]).len() == d);
        lemma_dec_enc_vec(w.last(), d);
        let b = enc_wits_spec(w);
        let rl = (w.len() - 1) as nat;
        lemma_mul_step((8 * d as int) * wlen as int, rl as int);
        assert(b.len() == ((8 * d) * wlen) * w.len());
        let cut = ((8 * d as int) * wlen as int) * rl as int;
        assert(b.take(cut) =~= enc_wits_spec(w.drop_last()));
        assert(b.subrange(cut, cut + (8 * d as int) * wlen as int) =~= enc_vec_spec(w.last()));
        assert(dec_wits_raw(b, w.len(), wlen, d) =~= w);
    }
}

/// Encoding inverts decoding of a split witness: the canonical encoding
/// of what was decoded is the byte string itself.
pub proof fn lemma_enc_dec_wits(bytes: Seq<u8>, r: nat, wlen: nat, d: nat)
    requires
        bytes.len() == ((8 * d) * wlen) * r,
    ensures
        enc_wits_spec(dec_wits_raw(bytes, r, wlen, d)) == bytes,
        splits_dims(dec_wits_raw(bytes, r, wlen, d), r, wlen, d),
    decreases r,
{
    if r == 0 {
        vstd::arithmetic::mul::lemma_mul_basics((8 * d as int) * wlen as int);
        assert(enc_wits_spec(dec_wits_raw(bytes, r, wlen, d)) =~= bytes);
        assert(splits_dims(dec_wits_raw(bytes, r, wlen, d), r, wlen, d));
    } else {
        let rl = (r - 1) as nat;
        let block = (8 * d as int) * wlen as int;
        lemma_mul_step(block, rl as int);
        let cut = block * rl as int;
        assert(bytes.take(cut).len() == block * rl as int);
        lemma_enc_dec_wits(bytes.take(cut), rl, wlen, d);
        lemma_enc_dec_vec(bytes.subrange(cut, cut + block), wlen, d);
        let w = dec_wits_raw(bytes, r, wlen, d);
        assert(w.drop_last() =~= dec_wits_raw(bytes.take(cut), rl, wlen, d));
        assert(enc_wits_spec(w) =~= bytes);
        assert forall|i: int| 0 <= i < r implies (#[trigger] w[i]).len() == wlen
            && crate::ring::vec_dims(w[i], d) by {
            if i < rl {
                assert(w[i] == dec_wits_raw(bytes.take(cut), rl, wlen, d)[i]);
            } else {
                assert(w[i] == dec_vec_spec(bytes.subrange(cut, cut + block), wlen, d));
            }
        }
    }
}

// ---------------------------------------------------------------------------
// Executable encoding
// ---------------------------------------------------------------------------

fn append_bytes(dst: &mut Vec<u8>, src: &Vec<u8>)
    ensures
        final(dst)@ == old(dst)@ + src@,
{
    let mut i: usize = 0;
    while i < src.len()
        invariant
            i <= src@.len(),
            dst@ == old(dst)@ + src@.take(i as int),
        decreases src@.len() - i,
    {
        proof {
            assert(old(dst)@ + src@.take(i as int + 1) =~= (old(dst)@ + src@.take(i as int)).push(
                src@[i as int],
            ));
        }
        let b = src[i];
        dst.push(b);
        i += 1;
    }
    proof {
        assert(src@.take(src@.len() as int) =~= src@);
    }
}

/// Canonical encoding of a split witness as bytes.
pub fn encode_witness(w: &Vec<Vec<RingElem>>) -> (res: Vec<u8>)
    ensures
        res@ == enc_wits_spec(splits_view(w@)),
{
    let ghost wv = splits_view(w@);
    let mut out: Vec<u8> = Vec::new();
    let mut i: usize = 0;
    proof {
        assert(wv.take(0) =~= Seq::<Seq<Seq<u64>>>::empty());
        assert(out@ =~= enc_wits_spec(wv.take(0)));
    }
    while i < w.len()
        invariant
            i <= w@.len(),
            wv == splits_view(w@),
            out@ == enc_wits_spec(wv.take(i as int)),
        decreases w@.len() - i,
    {
        let sub = &w[i];
        let ghost vv = vec_view(sub@);
        let mut j: usize = 0;
        proof {
            assert(vv.take(0) =~= Seq::<Seq<u64>>::empty());
            assert(out@ =~= enc_wits_spec(wv.take(i as int)) + enc_vec_spec(vv.take(0)));
        }
        while j < sub.len()
            invariant
                j <= sub@.len(),
                i < w@.len(),
                wv == splits_view(w@),
                sub@ == w@[i as int]@,
                vv == vec_view(sub@),
                out@ == enc_wits_spec(wv.take(i as int)) + enc_vec_spec(vv.take(j as int)),
            decreases sub@.len() - j,
        {
            let e = &sub[j];
            let ghost ev = e.c@;
            let mut k: usize = 0;
            proof {
                assert(ev.take(0) =~= Seq::<u64>::empty());
                assert(out@ =~= enc_wits_spec(wv.take(i as int)) + enc_vec_spec(vv.take(j as int))
                    + enc_elem_spec(ev.take(0)));
            }
            while k < e.c.len()
                invariant
                    k <= e.c@.len(),
                    i < w@.len(),
                    j < sub@.len(),
                    wv == splits_view(w@),
                    sub@ == w@[i as int]@,
                    vv == vec_view(sub@),
                    e.c@ == sub@[j as int].c@,
                    ev == e.c@,
                    out@ == enc_wits_spec(wv.take(i as int)) + enc_vec_spec(vv.take(j as int))
                        + enc_elem_spec(ev.take(k as int)),
                decreases e.c@.len() - k,
            {
                let bs = u64_to_le_bytes(e.c[k]);
                append_bytes(&mut out, &bs);
                proof {
                    let k1 = k + 1 as int;
                    assert(ev.take(k1).drop_last() =~= ev.take(k as int));
                    assert(enc_elem_spec(ev.take(k1)) == enc_elem_spec(ev.take(k as int))
                        + spec_u64_to_le_bytes(ev[k as int]));
                    assert(out@ =~= enc_wits_spec(wv.take(i as int)) + enc_vec_spec(
                        vv.take(j as int),
                    ) + enc_elem_spec(ev.take(k1)));
                }
                k += 1;
            }
            proof {
                assert(ev.take(ev.len() as int) =~= ev);
                let j1 = j + 1 as int;
                assert(vv.take(j1).drop_last() =~= vv.take(j as int));
                assert(vv.take(j1).last() == vv[j as int]);
                assert(vv[j as int] == ev);
                assert(enc_vec_spec(vv.take(j1)) == enc_vec_spec(vv.take(j as int))
                    + enc_elem_spec(ev));
                assert(out@ =~= enc_wits_spec(wv.take(i as int)) + enc_vec_spec(vv.take(j1)));
            }
            j += 1;
        }
        proof {
            assert(vv.take(vv.len() as int) =~= vv);
            let i1 = i + 1 as int;
            assert(wv.take(i1).drop_last() =~= wv.take(i as int));
            assert(wv.take(i1).last() == wv[i as int]);
            assert(wv[i as int] == vv);
            assert(enc_wits_spec(wv.take(i1)) == enc_wits_spec(wv.take(i as int)) + enc_vec_spec(
                vv,
            ));
            assert(out@ =~= enc_wits_spec(wv.take(i1)));
        }
        i += 1;
    }
    proof {
        assert(wv.take(wv.len() as int) =~= wv);
    }
    out
}

// ---------------------------------------------------------------------------
// The transcript itself
// ---------------------------------------------------------------------------

/// Key of a per-round transcript: a tag, the round number, and the CRS
/// node's dimensions, all as little-endian words.
pub open spec fn round_label_spec(round: u64, n: usize, r: usize) -> Seq<u8> {
    spec_u64_to_le_bytes(1u64) + spec_u64_to_le_bytes(round) + spec_u64_to_le_bytes(n as u64)
        + spec_u64_to_le_bytes(r as u64)
}

/// Key of the terminal "final check" transcript.
pub open spec fn final_label_spec(n: usize, r: usize) -> Seq<u8> {
    spec_u64_to_le_bytes(2u64) + spec_u64_to_le_bytes(n as u64) + spec_u64_to_le_bytes(r as u64)
}

/// A keyed message log. `label` is the derivation key; `buf` holds the
/// serialized protocol messages.
pub struct Transcript {
    pub label: Vec<u8>,
    pub buf: Vec<u8>,
}

impl Transcript {
    /// A fresh transcript for fold round `round`, keyed by the round
    /// number and the CRS node sizes.
    pub fn new_round(round: u64, n: usize, r: usize) -> (t: Self)
        ensures
            t.label@ == round_label_spec(round, n, r),
            t.buf@ == Seq::<u8>::empty(),
    {
        let mut label: Vec<u8> = Vec::new();
        let tag = u64_to_le_bytes(1u64);
        append_bytes(&mut label, &tag);
        let rb = u64_to_le_bytes(round);
        append_bytes(&mut label, &rb);
        let nb = u64_to_le_bytes(n as u64);
        append_bytes(&mut label, &nb);
        let rr = u64_to_le_bytes(r as u64);
        append_bytes(&mut label, &rr);
        let t = Transcript { label, buf: Vec::new() };
        proof {
            assert(t.label@ =~= round_label_spec(round, n, r));
        }
        t
    }

    /// A fresh transcript for the terminal reveal, keyed by the final
    /// witness sizes.
    pub fn new_final(n: usize, r: usize) -> (t: Self)
        ensures
            t.label@ == final_label_spec(n, r),
            t.buf@ == Seq::<u8>::empty(),
    {
        let mut label: Vec<u8> = Vec::new();
        let tag = u64_to_le_bytes(2u64);
        append_bytes(&mut label, &tag);
        let nb = u64_to_le_bytes(n as u64);
        append_bytes(&mut label, &nb);
        let rr = u64_to_le_bytes(r as u64);
        append_bytes(&mut label, &rr);
        let t = Transcript { label, buf: Vec::new() };
        proof {
            assert(t.label@ =~= final_label_spec(n, r));
        }
        t
    }

    /// Re-creates a round transcript from one proof entry.
    pub fn load_round(round: u64, n: usize, r: usize, bytes: &Vec<u8>) -> (t: Self)
        ensures
            t.label@ == round_label_spec(round, n, r),
            t.buf@ == bytes@,
    {
        let mut t = Self::new_round(round, n, r);
        append_bytes(&mut t.buf, bytes);
        proof {
            assert(t.buf@ =~= bytes@);
        }
        t
    }

    /// Re-creates the terminal transcript from the last proof entry.
    pub fn load_final(n: usize, r: usize, bytes: &Vec<u8>) -> (t: Self)
        ensures
            t.label@ == final_label_spec(n, r),
            t.buf@ == bytes@,
    {
        let mut t = Self::new_final(n, r);
        append_bytes(&mut t.buf, bytes);
        proof {
            assert(t.buf@ =~= bytes@);
        }
        t
    }

    /// Absorbs the raw vectors of a witness, appending their canonical
    /// encoding to the message log.
    pub fn absorb_vectors(&mut self, w: &Vec<Vec<RingElem>>)
        ensures
            final(self).label@ == old(self).label@,
            final(self).buf@ == old(self).buf@ + enc_wits_spec(splits_view(w@)),
    {
        let bs = encode_witness(w);
        append_bytes(&mut self.buf, &bs);
    }

    /// The serialized content of the transcript: one proof entry.
    pub fn transcript_bytes(&self) -> (res: Vec<u8>)
        ensures
            res@ == self.buf@,
    {
        let mut out: Vec<u8> = Vec::new();
        append_bytes(&mut out, &self.buf);
        proof {
            assert(out@ =~= self.buf@);
        }
        out
    }

    /// Whether the whole message log has been consumed; for a round of
    /// the built-in reducer this means no message bytes at all.
    pub fn is_empty(&self) -> (b: bool)
        ensures
            b == (self.buf@.len() == 0),
    {
        self.buf.len() == 0
    }

    /// Extracts `r` vectors of `wlen` elements of `d` residues each from
    /// the whole message log, failing unless the log is exactly their
    /// canonical encoding with every residue below `q`.
    pub fn extract_vectors(&self, r: usize, wlen: usize, q: u64, d: usize) -> (res: Option<
        Vec<Vec<RingElem>>,
    >)
        requires
            r >= 1,
            wlen >= 1,
            d >= 1,
        ensures
            match res {
                Some(w) => {
                    &&& dec_wits_spec(self.buf@, r as nat, wlen as nat, d as nat, q)
                        == Some(splits_view(w@))
                    &&& splits_view(w@) == dec_wits_raw(self.buf@, r as nat, wlen as nat, d as nat)
                },
                None => dec_wits_spec(self.buf@, r as nat, wlen as nat, d as nat, q) is None,
            },
    {
        let total_len = self.buf.len();
        proof {
            lemma_mul_le(8, 1, d as int);
            vstd::arithmetic::mul::lemma_mul_basics(8);
        }
        let eb_opt = 8usize.checked_mul(d);
        let eb = match eb_opt {
            Some(x) => x,
            None => {
                proof {
                    mul_bound_contra(8 * d as int, wlen as int, r as int, total_len as int);
                }
                return None;
            },
        };
        let vb_opt = eb.checked_mul(wlen);
        let vb = match vb_opt {
            Some(x) => x,
            None => {
                proof {
                    mul_bound_contra(8 * d as int, wlen as int, r as int, total_len as int);
                }
                return None;
            },
        };
        let tb_opt = vb.checked_mul(r);
        let tb = match tb_opt {
            Some(x) => x,
            None => {
                proof {
                    mul_bound_contra(8 * d as int, wlen as int, r as int, total_len as int);
                }
                return None;
            },
        };
        if total_len != tb {
            return None;
        }
        let mut out: Vec<Vec<RingElem>> = Vec::new();
        let mut i: usize = 0;
        let mut p: usize = 0;
        proof {
            assert(self.buf@.take(0) =~= Seq::<u8>::empty());
            assert(splits_view(out@) =~= dec_wits_raw(
                self.buf@.take(0),
                0,
                wlen as nat,
                d as nat,
            ));
        }
        while i < r
            invariant
                i <= r,
                eb == 8 * d,
                vb as int == (eb as int) * (wlen as int),
                tb as int == (vb as int) * (r as int),
                self.buf@.len() == tb,
                p == (vb as int) * (i as int),
                out@.len() == i,
                splits_view(out@) == dec_wits_raw(
                    self.buf@.take(p as int),
                    i as nat,
                    wlen as nat,
                    d as nat,
                ),
            decreases r - i,
        {
            proof {
                lemma_mul_step(vb as int, i as int);
                lemma_mul_le(vb as int, i as int + 1, r as int);
            }
            let ghost vstart = p as int;
            let mut cur: Vec<RingElem> = Vec::new();
            let mut j: usize = 0;
            proof {
                assert(self.buf@.subrange(vstart, vstart) =~= Seq::<u8>::empty());
                assert(vec_view(cur@) =~= dec_vec_spec(
                    self.buf@.subrange(vstart, vstart),
                    0,
                    d as nat,
                ));
            }
            while j < wlen
                invariant
                    j <= wlen,
                    i < r,
                    eb == 8 * d,
                    vb as int == (eb as int) * (wlen as int),
                    tb as int == (vb as int) * (r as int),
                    self.buf@.len() == tb,
                    vstart == (vb as int) * (i as int),
                    (vb as int) * (i as int + 1) <= tb as int,
                    vstart + vb == (vb as int) * (i as int + 1),
                    0 <= vstart,
                    p == vstart + (eb as int) * (j as int),
                    cur@.len() == j,
                    vec_view(cur@) == dec_vec_spec(
                        self.buf@.subrange(vstart, p as int),
                        j as nat,
                        d as nat,
                    ),
                decreases wlen - j,
            {
                proof {
                    lemma_mul_step(eb as int, j as int);
                    lemma_mul_le(eb as int, j as int + 1, wlen as int);
                }
                let ghost estart = p as int;
                let mut coeffs: Vec<u64> = Vec::new();
                let mut k: usize = 0;
                proof {
                    assert(self.buf@.subrange(estart, estart) =~= Seq::<u8>::empty());
                    assert(coeffs@ =~= dec_elem_spec(self.buf@.subrange(estart, estart), 0));
                }
                while k < d
                    invariant
                        k <= d,
                        i < r,
                        j < wlen,
                        eb == 8 * d,
                        vb as int == (eb as int) * (wlen as int),
                        tb as int == (vb as int) * (r as int),
                        self.buf@.len() == tb,
                        vstart == (vb as int) * (i as int),
                        (vb as int) * (i as int + 1) <= tb as int,
                        vstart + vb == (vb as int) * (i as int + 1),
                        estart == vstart + (eb as int) * (j as int),
                        estart + eb == vstart + (eb as int) * (j as int + 1),
                        (eb as int) * (j as int + 1) <= vb as int,
                        0 <= vstart,
                        0 <= estart,
                        p == estart + 8 * (k as int),
                        coeffs@.len() == k,
                        coeffs@ == dec_elem_spec(
                            self.buf@.subrange(estart, p as int),
                            k as nat,
                        ),
                    decreases d - k,
                {
                    let sl = slice_subrange(self.buf.as_slice(), p, p + 8);
                    let x = u64_from_le_bytes(sl);
                    proof {
                        let k1 = k + 1 as int;
                        let pre = self.buf@.subrange(estart, p as int);
                        let post = self.buf@.subrange(estart, p + 8 as int);
                        assert(post.take(8 * (k1 - 1)) =~= pre);
                        assert(post.subrange(8 * (k1 - 1), 8 * (k1 - 1) + 8) =~= self.buf@.subrange(
                            p as int,
                            p + 8 as int,
                        ));
                    }
                    coeffs.push(x);
                    p += 8;
                    k += 1;
                }
                let e = RingElem { c: coeffs };
                proof {
                    let j1 = j + 1 as int;
                    let pre = self.buf@.subrange(vstart, estart);
                    let post = self.buf@.subrange(vstart, p as int);
                    assert(post.take((8 * d as int) * (j1 - 1)) =~= pre);
                    assert(post.subrange(
                        (8 * d as int) * (j1 - 1),
                        (8 * d as int) * (j1 - 1) + (8 * d) as int,
                    ) =~= self.buf@.subrange(estart, p as int));
                    assert(vec_view(cur@.push(e)) =~= vec_view(cur@).push(e.c@));
                }
                cur.push(e);
                j += 1;
            }
            proof {
                let i1 = i + 1 as int;
                let block = (8 * d as int) * (wlen as int);
                assert(block == vb as int);
                let pre = self.buf@.take(vstart);
                let post = self.buf@.take(p as int);
                assert(post.take(block * (i1 - 1)) =~= pre);
                assert(post.subrange(block * (i1 - 1), block * (i1 - 1) + block)
                    =~= self.buf@.subrange(vstart, p as int));
                assert(splits_view(out@.push(cur)) =~= splits_view(out@).push(vec_view(cur@)));
            }
            out.push(cur);
            i += 1;
        }
        proof {
            assert(self.buf@.take(self.buf@.len() as int) =~= self.buf@);
        }
        if !check_splits_lt(&out, q) {
            return None;
        }
        Some(out)
    }
}

proof fn mul_bound_contra(eb: int, wlen: int, r: int, len: int)
    requires
        1 <= eb,
        1 <= wlen,
        1 <= r,
        len <= usize::MAX,
        eb > usize::MAX || eb * wlen > usize::MAX || (eb * wlen) * r > usize::MAX,
    ensures
        len != (eb * wlen) * r,
{
    assert((eb * wlen) * r > len) by (nonlinear_arith)
        requires
            1 <= eb,
            1 <= wlen,
            1 <= r,
            len <= usize::MAX,
            eb > usize::MAX || eb * wlen > usize::MAX || (eb * wlen) * r > usize::MAX,
    ;
}

} // verus!
