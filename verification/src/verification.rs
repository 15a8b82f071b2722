//! The verification driver: rebuilds the CRS chain and initial relation
//! from the SIS instance, replays each fold round from the supplied
//! transcripts, and checks the terminal revealed witness against the
//! final relation. Any mismatch rejects the whole proof.

use vstd::prelude::*;
use crate::ring::{dot_spec, vec_view, concat_view, lemma_dot_split, lemma_split_concat};
use crate::relation::{
    Index, CrsNode, InstanceView, inst_view, rel_check_spec, rel_sat, lin_sat, splits_dims,
    splits_lt, check_relation,
};
use crate::sis_relation::{
    SISInstance, sis_satisfied, chain_spec, index_spec, inst_spec, wit_spec, to_principal_relation,
    lemma_reduction_satisfied, lemma_split_consistency, num_witnesses_spec, witness_len_spec,
};
use crate::reducer::{OneRoundReducer, IdentityReducer, state_wf};
use crate::prover::{fold_state, fold_ok, proof_entries_spec};
use crate::transcript::{
    Transcript, dec_wits_spec, dec_wits_raw, enc_wits_spec, lemma_dec_enc_wits,
    lemma_enc_dec_wits,
};

verus! {

/// Failure of the whole verification call.
#[derive(Debug, Clone, Copy, PartialEq, Eq, Structural)]
pub enum VerifyError {
    /// A fold round rejected its transcript.
    ReductionFailure,
    /// The proof's shape, the extracted witness, or the terminal
    /// relation check did not match.
    TranscriptMismatch,
}

/// The views of the supplied proof entries.
pub open spec fn entries_view(p: Seq<Vec<u8>>) -> Seq<Seq<u8>> {
    p.map_values(|v: Vec<u8>| v@)
}

/// The verifier's state after replaying `k` rounds from the entries, or
/// nothing once some round has rejected.
pub open spec fn vstate<R: OneRoundReducer>(
    red: &R,
    chain: Seq<CrsNode>,
    k: int,
    idx: Index,
    inst: InstanceView,
    entries: Seq<Seq<u8>>,
    q: u64,
    d: nat,
) -> Option<(Index, InstanceView)>
    decreases k,
{
    if k <= 0 {
        Some((idx, inst))
    } else {
        match vstate(red, chain, k - 1, idx, inst, entries, q, d) {
            None => None,
            Some(p) => red.verify_round_spec(chain[k - 1], p.0, p.1, entries[k - 1], q, d),
        }
    }
}

/// Acceptance of a proof: it has one entry per CRS node, every fold
/// round replays successfully, and the terminal entry decodes to a
/// witness of the final index's dimensions that satisfies the final
/// relation.
pub open spec fn accept_spec<R: OneRoundReducer>(
    red: &R,
    entries: Seq<Seq<u8>>,
    sis: SISInstance,
) -> bool {
    let chain = chain_spec(sis);
    let rounds = chain.len() - 1;
    let dd = sis.d as nat;
    &&& entries.len() == chain.len()
    &&& match vstate(red, chain, rounds as int, index_spec(sis), inst_spec(sis), entries, sis.q, dd) {
        None => false,
        Some(p) => {
            &&& p.0.num_witnesses >= 1
            &&& p.0.witness_len >= 1
            &&& match dec_wits_spec(
                entries[rounds as int],
                p.0.num_witnesses as nat,
                p.0.witness_len as nat,
                dd,
                sis.q,
            ) {
                None => false,
                Some(w) => rel_check_spec(p.0, p.1, w, sis.q, dd),
            }
        },
    }
}

/// Once a round has rejected, every later state is still rejected.
proof fn lemma_vstate_none_mono<R: OneRoundReducer>(
    red: &R,
    chain: Seq<CrsNode>,
    j: int,
    k: int,
    idx: Index,
    inst: InstanceView,
    entries: Seq<Seq<u8>>,
    q: u64,
    d: nat,
)
    requires
        0 <= j <= k,
        vstate(red, chain, j, idx, inst, entries, q, d) is None,
    ensures
        vstate(red, chain, k, idx, inst, entries, q, d) is None,
    decreases k,
{
    if j < k {
        lemma_vstate_none_mono(red, chain, j, k - 1, idx, inst, entries, q, d);
    }
}

/// Replays the fold chain against the proof and checks the terminal
/// reveal. Failure is total: a wrong entry count, a rejected round, a
/// malformed terminal entry, or an unsatisfied final relation each
/// reject the proof outright.
pub fn verify<R: OneRoundReducer>(
    proofs: &Vec<Vec<u8>>,
    sis: &SISInstance,
    reducer: &R,
) -> (res: Result<(), VerifyError>)
    requires
        sis_satisfied(*sis),
    ensures
        res.is_ok() == accept_spec(reducer, entries_view(proofs@), *sis),
{
    let ghost chs = chain_spec(*sis);
    let ghost idx0 = index_spec(*sis);
    let ghost iv0 = inst_spec(*sis);
    let ghost dd = sis.d as nat;
    let ghost ev = entries_view(proofs@);
    let (chain, index0, instance0, _witness) = to_principal_relation(sis);
    if proofs.len() != chain.len() {
        return Err(VerifyError::TranscriptMismatch);
    }
    let mut index = index0;
    let mut instance = instance0;
    let mut round: usize = 0;
    let clen = chain.len();
    while round + 1 < clen
        invariant
            sis_satisfied(*sis),
            chain@ == chs,
            chs.len() == clen,
            chs == chain_spec(*sis),
            idx0 == index_spec(*sis),
            iv0 == inst_spec(*sis),
            dd == sis.d as nat,
            ev == entries_view(proofs@),
            proofs@.len() == clen,
            round < chs.len(),
            vstate(reducer, chs, round as int, idx0, iv0, ev, sis.q, dd) == Some(
                (index, inst_view(instance)),
            ),
        decreases chs.len() - round,
    {
        let node = chain[round];
        let tr = Transcript::load_round((round + 1) as u64, node.n, node.r, &proofs[round]);
        proof {
            assert(ev[round as int] == proofs@[round as int]@);
            assert(chs[round as int] == node);
        }
        match reducer.verify_round(&tr, &node, &index, &instance, sis.q, sis.d) {
            Ok(next) => {
                index = next.0;
                instance = next.1;
                round += 1;
            },
            Err(_) => {
                proof {
                    assert(vstate(reducer, chs, round as int + 1, idx0, iv0, ev, sis.q, dd)
                        is None);
                    lemma_vstate_none_mono(
                        reducer,
                        chs,
                        round as int + 1,
                        chs.len() - 1,
                        idx0,
                        iv0,
                        ev,
                        sis.q,
                        dd,
                    );
                }
                return Err(VerifyError::ReductionFailure);
            },
        }
    }
    let node = chain[round];
    let tr = Transcript::load_final(node.n, node.r, &proofs[round]);
    proof {
        assert(ev[round as int] == proofs@[round as int]@);
    }
    if index.num_witnesses < 1 || index.witness_len < 1 {
        return Err(VerifyError::TranscriptMismatch);
    }
    match tr.extract_vectors(index.num_witnesses, index.witness_len, sis.q, sis.d) {
        None => Err(VerifyError::TranscriptMismatch),
        Some(w) => {
            if check_relation(&index, &instance, &w, sis.q, sis.d) {
                Ok(())
            } else {
                Err(VerifyError::TranscriptMismatch)
            }
        },
    }
}

// ---------------------------------------------------------------------------
// Completeness
// ---------------------------------------------------------------------------

proof fn lemma_complete_rec<R: OneRoundReducer>(red: &R, sis: SISInstance, k: int)
    requires
        sis_satisfied(sis),
        0 <= k <= chain_spec(sis).len() - 1,
    ensures
        ({
            let chain = chain_spec(sis);
            let dd = sis.d as nat;
            let st = fold_state(
                red,
                chain,
                k,
                index_spec(sis),
                inst_spec(sis),
                wit_spec(sis),
                sis.q,
                dd,
            );
            &&& fold_ok(red, chain, k, index_spec(sis), inst_spec(sis), wit_spec(sis), sis.q, dd)
            &&& state_wf(st.0, st.1, st.2, sis.q, dd)
            &&& rel_sat(st.1, st.2, sis.q, dd)
            &&& vstate(
                red,
                chain,
                k,
                index_spec(sis),
                inst_spec(sis),
                proof_entries_spec(red, sis),
                sis.q,
                dd,
            ) == Some((st.0, st.1))
        }),
    decreases k,
{
    let chain = chain_spec(sis);
    let dd = sis.d as nat;
    let nn = sis.n as nat;
    if k <= 0 {
        lemma_reduction_satisfied(sis);
        lemma_split_consistency(nn);
        let r = num_witnesses_spec(nn);
        let w = witness_len_spec(nn);
        if w == 0 {
            assert(r * 0 == 0) by (nonlinear_arith);
        }
        assert(index_spec(sis).num_witnesses >= 1);
        assert(index_spec(sis).witness_len >= 1);
    } else {
        lemma_complete_rec(red, sis, k - 1);
        let st = fold_state(
            red,
            chain,
            k - 1,
            index_spec(sis),
            inst_spec(sis),
            wit_spec(sis),
            sis.q,
            dd,
        );
        red.round_complete(chain[k - 1], st.0, st.1, st.2, sis.q, dd);
        assert(proof_entries_spec(red, sis)[k - 1] == red.round_message(
            chain[k - 1],
            st.0,
            st.1,
            st.2,
            sis.q,
            dd,
        ));
    }
}

/// Completeness: for any satisfied SIS instance, every fold round of an
/// honest prover succeeds, and the proof it produces is accepted by the
/// verifier.
pub proof fn lemma_prove_verify_complete<R: OneRoundReducer>(red: &R, sis: SISInstance)
    requires
        sis_satisfied(sis),
    ensures
        fold_ok(
            red,
            chain_spec(sis),
            chain_spec(sis).len() - 1,
            index_spec(sis),
            inst_spec(sis),
            wit_spec(sis),
            sis.q,
            sis.d as nat,
        ),
        accept_spec(red, proof_entries_spec(red, sis), sis),
{
    let chain = chain_spec(sis);
    let rounds = chain.len() - 1;
    let dd = sis.d as nat;
    lemma_complete_rec(red, sis, rounds as int);
    let st = fold_state(
        red,
        chain,
        rounds as int,
        index_spec(sis),
        inst_spec(sis),
        wit_spec(sis),
        sis.q,
        dd,
    );
    let entries = proof_entries_spec(red, sis);
    assert(entries[rounds as int] == enc_wits_spec(st.2));
    lemma_dec_enc_wits(st.2, st.0.witness_len as nat, dd);
    assert(dec_wits_raw(enc_wits_spec(st.2), st.0.num_witnesses as nat, st.0.witness_len as nat, dd)
        == st.2);
    assert(dec_wits_spec(
        entries[rounds as int],
        st.0.num_witnesses as nat,
        st.0.witness_len as nat,
        dd,
        sis.q,
    ) == Some(st.2));
}

// ---------------------------------------------------------------------------
// Tamper rejection
// ---------------------------------------------------------------------------

/// The replayed fold state depends only on the non-terminal entries.
proof fn lemma_vstate_congruent<R: OneRoundReducer>(
    red: &R,
    chain: Seq<CrsNode>,
    k: int,
    idx: Index,
    inst: InstanceView,
    e1: Seq<Seq<u8>>,
    e2: Seq<Seq<u8>>,
    q: u64,
    d: nat,
)
    requires
        0 <= k,
        forall|j: int| 0 <= j < k ==> e1[j] == e2[j],
    ensures
        vstate(red, chain, k, idx, inst, e1, q, d) == vstate(red, chain, k, idx, inst, e2, q, d),
    decreases k,
{
    if k > 0 {
        lemma_vstate_congruent(red, chain, k - 1, idx, inst, e1, e2, q, d);
    }
}

/// Tamper rejection: changing the terminal entry of an accepted proof,
/// while keeping the round entries, makes the verifier reject — under
/// the hypothesis that the final relation admits exactly one satisfying
/// witness of the prescribed shape.
pub proof fn lemma_tamper_rejection<R: OneRoundReducer>(
    red: &R,
    entries: Seq<Seq<u8>>,
    tampered: Seq<Seq<u8>>,
    sis: SISInstance,
)
    requires
        sis_satisfied(sis),
        accept_spec(red, entries, sis),
        tampered.len() == entries.len(),
        forall|j: int| 0 <= j < entries.len() - 1 ==> tampered[j] == entries[j],
        tampered[entries.len() - 1] != entries[entries.len() - 1],
        // the final relation pins its satisfying witness down
        ({
            let chain = chain_spec(sis);
            let dd = sis.d as nat;
            let p = vstate(
                red,
                chain,
                chain.len() - 1,
                index_spec(sis),
                inst_spec(sis),
                entries,
                sis.q,
                dd,
            )->Some_0;
            forall|w2: Seq<Seq<Seq<u64>>>|
                rel_check_spec(p.0, p.1, w2, sis.q, dd) && splits_lt(w2, sis.q)
                    ==> w2 == dec_wits_spec(
                    entries[chain.len() - 1],
                    p.0.num_witnesses as nat,
                    p.0.witness_len as nat,
                    dd,
                    sis.q,
                )->Some_0
        }),
    ensures
        !accept_spec(red, tampered, sis),
{
    let chain = chain_spec(sis);
    let rounds = chain.len() - 1;
    let dd = sis.d as nat;
    lemma_vstate_congruent(
        red,
        chain,
        rounds as int,
        index_spec(sis),
        inst_spec(sis),
        entries,
        tampered,
        sis.q,
        dd,
    );
    let p = vstate(
        red,
        chain,
        rounds as int,
        index_spec(sis),
        inst_spec(sis),
        entries,
        sis.q,
        dd,
    )->Some_0;
    let r = p.0.num_witnesses as nat;
    let wlen = p.0.witness_len as nat;
    let e = entries[rounds as int];
    let e2 = tampered[rounds as int];
    let w = dec_wits_spec(e, r, wlen, dd, sis.q)->Some_0;
    if accept_spec(red, tampered, sis) {
        let w2 = dec_wits_spec(e2, r, wlen, dd, sis.q)->Some_0;
        assert(splits_lt(w2, sis.q));
        assert(rel_check_spec(p.0, p.1, w2, sis.q, dd));
        assert(w2 == w);
        lemma_enc_dec_wits(e, r, wlen, dd);
        lemma_enc_dec_wits(e2, r, wlen, dd);
        assert(e == enc_wits_spec(w));
        assert(e2 == enc_wits_spec(w2));
        assert(false);
    }
}

// ---------------------------------------------------------------------------
// Reveal equivalence
// ---------------------------------------------------------------------------

/// Under the identity reducer, acceptance keeps the initial index and
/// instance through every round.
proof fn lemma_vstate_identity(
    red: &IdentityReducer,
    chain: Seq<CrsNode>,
    k: int,
    idx: Index,
    inst: InstanceView,
    entries: Seq<Seq<u8>>,
    q: u64,
    d: nat,
)
    requires
        0 <= k,
        vstate(red, chain, k, idx, inst, entries, q, d) is Some,
    ensures
        vstate(red, chain, k, idx, inst, entries, q, d) == Some((idx, inst)),
    decreases k,
{
    if k > 0 {
        assert(vstate(red, chain, k - 1, idx, inst, entries, q, d) is Some);
        lemma_vstate_identity(red, chain, k - 1, idx, inst, entries, q, d);
    }
}

/// Reveal equivalence: a proof the verifier accepts under the built-in
/// reducer carries a terminal witness which, recombined in split order,
/// satisfies each row constraint of the SIS instance as one whole dot
/// product: `dot(a[i], concat(w)) == t[i]`.
pub proof fn lemma_reveal_equivalence(
    red: &IdentityReducer,
    entries: Seq<Seq<u8>>,
    sis: SISInstance,
)
    requires
        sis_satisfied(sis),
        accept_spec(red, entries, sis),
    ensures
        ({
            let chain = chain_spec(sis);
            let dd = sis.d as nat;
            let w = dec_wits_spec(
                entries[chain.len() - 1],
                num_witnesses_spec(sis.n as nat),
                witness_len_spec(sis.n as nat),
                dd,
                sis.q,
            )->Some_0;
            forall|i: int|
                0 <= i < sis.m ==> dot_spec(
                    vec_view(sis.a@[i]@),
                    concat_view(w),
                    sis.q,
                    dd,
                ) == (#[trigger] sis.t@[i]).c@
        }),
{
    let chain = chain_spec(sis);
    let rounds = chain.len() - 1;
    let dd = sis.d as nat;
    let nn = sis.n as nat;
    let r = num_witnesses_spec(nn);
    let wlen = witness_len_spec(nn);
    lemma_split_consistency(nn);
    lemma_vstate_identity(
        red,
        chain,
        rounds as int,
        index_spec(sis),
        inst_spec(sis),
        entries,
        sis.q,
        dd,
    );
    let iv = inst_spec(sis);
    let w = dec_wits_spec(entries[rounds as int], r, wlen, dd, sis.q)->Some_0;
    assert(rel_check_spec(index_spec(sis), iv, w, sis.q, dd));
    assert forall|i: int|
        0 <= i < sis.m implies dot_spec(vec_view(sis.a@[i]@), concat_view(w), sis.q, dd) == (
    #[trigger] sis.t@[i]).c@ by {
        let rv = vec_view(sis.a@[i]@);
        assert(crate::relation::splits_view(sis.a@)[i] == rv);
        assert(lin_sat(iv.lin[i], w, sis.q, dd));
        lemma_split_concat(w, wlen, r);
        let full = concat_view(w);
        assert forall|t: int| 0 <= t < full.len() implies (#[trigger] full[t]).len() == dd by {
            lemma_concat_entry(w, t, dd);
        }
        lemma_dot_split(rv, full, sis.q, dd, wlen, r);
        assert(Seq::new(
            iv.lin[i].phi.len(),
            |j: int| dot_spec(iv.lin[i].phi[j], w[j], sis.q, dd),
        ) =~= Seq::new(
            r,
            |j: int|
                dot_spec(
                    crate::ring::split_view(rv, wlen, r)[j],
                    crate::ring::split_view(full, wlen, r)[j],
                    sis.q,
                    dd,
                ),
        ));
    }
}

/// Every entry of the concatenation of well-dimensioned chunks has `d`
/// residues.
proof fn lemma_concat_entry(w: Seq<Seq<Seq<u64>>>, t: int, d: nat)
    requires
        0 <= t < concat_view(w).len(),
        forall|i: int, j: int|
            0 <= i < w.len() && 0 <= j < (#[trigger] w[i]).len() ==> (#[trigger] w[i][j]).len()
                == d,
    ensures
        concat_view(w)[t].len() == d,
    decreases w.len(),
{
    if w.len() > 0 {
        let pre = concat_view(w.drop_last());
        if t < pre.len() {
            lemma_concat_entry(w.drop_last(), t, d);
        } else {
            assert(concat_view(w)[t] == w.last()[t - pre.len()]);
        }
    }
}

} // verus!
