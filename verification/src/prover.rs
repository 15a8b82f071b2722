//! The proof driver: reduces a SIS instance, folds the principal
//! relation one round at a time while the CRS chain has a successor,
//! and appends the terminal reveal transcript.

use vstd::prelude::*;
use crate::relation::{Index, CrsNode, InstanceView, inst_view, wit_view};
use crate::sis_relation::{SISInstance, sis_satisfied, chain_spec, index_spec, inst_spec, wit_spec,
    to_principal_relation, log2_floor, num_witnesses_spec};
use crate::reducer::OneRoundReducer;
use crate::transcript::{Transcript, enc_wits_spec};

verus! {

/// Failure of the whole proving call.
#[derive(Debug, Clone, Copy, PartialEq, Eq, Structural)]
pub enum ProveError {
    ReductionFailure,
}

/// The fold state after `k` rounds, starting from `(idx, inst, wit)`.
pub open spec fn fold_state<R: OneRoundReducer>(
    red: &R,
    chain: Seq<CrsNode>,
    k: int,
    idx: Index,
    inst: InstanceView,
    wit: Seq<Seq<Seq<u64>>>,
    q: u64,
    d: nat,
) -> (Index, InstanceView, Seq<Seq<Seq<u64>>>)
    decreases k,
{
    if k <= 0 {
        (idx, inst, wit)
    } else {
        let p = fold_state(red, chain, k - 1, idx, inst, wit, q, d);
        (
            red.next_index(chain[k - 1], p.0, p.1, p.2, q, d),
            red.next_instance(chain[k - 1], p.0, p.1, p.2, q, d),
            red.next_witness(chain[k - 1], p.0, p.1, p.2, q, d),
        )
    }
}

/// Whether the first `k` fold rounds all succeed.
pub open spec fn fold_ok<R: OneRoundReducer>(
    red: &R,
    chain: Seq<CrsNode>,
    k: int,
    idx: Index,
    inst: InstanceView,
    wit: Seq<Seq<Seq<u64>>>,
    q: u64,
    d: nat,
) -> bool
    decreases k,
{
    if k <= 0 {
        true
    } else {
        let p = fold_state(red, chain, k - 1, idx, inst, wit, q, d);
        fold_ok(red, chain, k - 1, idx, inst, wit, q, d) && red.prove_ok(
            chain[k - 1],
            p.0,
            p.1,
            p.2,
            q,
            d,
        )
    }
}

/// The proof entries an honest prover produces: one protocol message per
/// fold round, then the canonical encoding of the final folded witness.
pub open spec fn proof_entries_spec<R: OneRoundReducer>(red: &R, sis: SISInstance) -> Seq<
    Seq<u8>,
> {
    let chain = chain_spec(sis);
    let rounds = chain.len() - 1;
    Seq::new(
        chain.len(),
        |k: int|
            if k < rounds {
                let p = fold_state(
                    red,
                    chain,
                    k,
                    index_spec(sis),
                    inst_spec(sis),
                    wit_spec(sis),
                    sis.q,
                    sis.d as nat,
                );
                red.round_message(chain[k], p.0, p.1, p.2, sis.q, sis.d as nat)
            } else {
                enc_wits_spec(
                    fold_state(
                        red,
                        chain,
                        rounds,
                        index_spec(sis),
                        inst_spec(sis),
                        wit_spec(sis),
                        sis.q,
                        sis.d as nat,
                    ).2,
                )
            },
    )
}

/// Round count determinism: the honest proof holds exactly one entry
/// per CRS chain node — one per fold round traversed plus the terminal
/// reveal — and that count, like the chain itself, is a function of the
/// instance alone.
pub proof fn lemma_round_count<R: OneRoundReducer>(red: &R, sis: SISInstance)
    ensures
        proof_entries_spec(red, sis).len() == 1 + (chain_spec(sis).len() - 1),
        chain_spec(sis).len() == log2_floor(num_witnesses_spec(sis.n as nat)) + 1,
{
}

/// Success of a prefix of the fold follows from success of the whole.
pub proof fn lemma_fold_ok_prefix<R: OneRoundReducer>(
    red: &R,
    chain: Seq<CrsNode>,
    j: int,
    k: int,
    idx: Index,
    inst: InstanceView,
    wit: Seq<Seq<Seq<u64>>>,
    q: u64,
    d: nat,
)
    requires
        0 <= j <= k,
        fold_ok(red, chain, k, idx, inst, wit, q, d),
    ensures
        fold_ok(red, chain, j, idx, inst, wit, q, d),
    decreases k,
{
    if j < k {
        lemma_fold_ok_prefix(red, chain, j, k - 1, idx, inst, wit, q, d);
    }
}

/// Drives the round loop: reduces the SIS instance, folds while the CRS
/// chain has a successor, and appends one terminal reveal entry. Any
/// round failure aborts the whole call with no partial proof.
pub fn prove<R: OneRoundReducer>(sis: &SISInstance, reducer: &R) -> (res: Result<
    Vec<Vec<u8>>,
    ProveError,
>)
    requires
        sis_satisfied(*sis),
    ensures
        ({
            let chain = chain_spec(*sis);
            let rounds = chain.len() - 1;
            &&& res.is_ok() == fold_ok(
                reducer,
                chain,
                rounds as int,
                index_spec(*sis),
                inst_spec(*sis),
                wit_spec(*sis),
                sis.q,
                sis.d as nat,
            )
            &&& res matches Ok(p) ==> p@.len() == chain.len() && (forall|k: int|
                0 <= k < chain.len() ==> (#[trigger] p@[k])@ == proof_entries_spec(
                    reducer,
                    *sis,
                )[k])
        }),
{
    let ghost chs = chain_spec(*sis);
    let ghost idx0 = index_spec(*sis);
    let ghost iv0 = inst_spec(*sis);
    let ghost wv0 = wit_spec(*sis);
    let ghost dd = sis.d as nat;
    let (chain, index0, instance0, witness0) = to_principal_relation(sis);
    let mut proofs: Vec<Vec<u8>> = Vec::new();
    let mut index = index0;
    let mut instance = instance0;
    let mut witness = witness0;
    let mut round: usize = 0;
    let clen = chain.len();
    while round + 1 < clen
        invariant
            sis_satisfied(*sis),
            chain@ == chs,
            chs.len() == clen,
            chs == chain_spec(*sis),
            idx0 == index_spec(*sis),
            iv0 == inst_spec(*sis),
            wv0 == wit_spec(*sis),
            dd == sis.d as nat,
            round < chs.len(),
            index == fold_state(reducer, chs, round as int, idx0, iv0, wv0, sis.q, dd).0,
            inst_view(instance) == fold_state(
                reducer,
                chs,
                round as int,
                idx0,
                iv0,
                wv0,
                sis.q,
                dd,
            ).1,
            wit_view(witness) == fold_state(
                reducer,
                chs,
                round as int,
                idx0,
                iv0,
                wv0,
                sis.q,
                dd,
            ).2,
            fold_ok(reducer, chs, round as int, idx0, iv0, wv0, sis.q, dd),
            proofs@.len() == round,
            forall|k: int|
                0 <= k < round ==> (#[trigger] proofs@[k])@ == proof_entries_spec(
                    reducer,
                    *sis,
                )[k],
        decreases chs.len() - round,
    {
        let node = chain[round];
        let mut tr = Transcript::new_round((round + 1) as u64, node.n, node.r);
        match reducer.prove_round(&mut tr, &node, &index, &instance, &witness, sis.q, sis.d) {
            Ok(next) => {
                let ghost st = fold_state(reducer, chs, round as int, idx0, iv0, wv0, sis.q, dd);
                proof {
                    assert(chs[round as int] == node);
                    assert(Seq::<u8>::empty() + reducer.round_message(
                        node,
                        st.0,
                        st.1,
                        st.2,
                        sis.q,
                        dd,
                    ) =~= reducer.round_message(node, st.0, st.1, st.2, sis.q, dd));
                }
                let entry = tr.transcript_bytes();
                proofs.push(entry);
                let (ni, ninst, nwit) = next;
                index = ni;
                instance = ninst;
                witness = nwit;
                round += 1;
            },
            Err(_) => {
                proof {
                    let rounds = chs.len() - 1;
                    if fold_ok(reducer, chs, rounds as int, idx0, iv0, wv0, sis.q, dd) {
                        lemma_fold_ok_prefix(
                            reducer,
                            chs,
                            round as int + 1,
                            rounds as int,
                            idx0,
                            iv0,
                            wv0,
                            sis.q,
                            dd,
                        );
                    }
                }
                return Err(ProveError::ReductionFailure);
            },
        }
    }
    let node = chain[round];
    let mut tr = Transcript::new_final(node.n, node.r);
    tr.absorb_vectors(&witness.s);
    proof {
        assert(Seq::<u8>::empty() + enc_wits_spec(wit_view(witness)) =~= enc_wits_spec(
            wit_view(witness),
        ));
    }
    let entry = tr.transcript_bytes();
    proofs.push(entry);
    Ok(proofs)
}

} // verus!
