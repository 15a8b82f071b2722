//! The one-round reducer: the collaborator that performs one fold of the
//! principal relation. It is a capability interface with two operations,
//! proving and verifying one round; the drivers are verified against its
//! contract alone. The built-in `IdentityReducer` is the trivial,
//! checkable fold used for testing the drivers end to end.

use vstd::prelude::*;
use crate::relation::{
    Index, CrsNode, Instance, Witness, InstanceView, inst_view, wit_view, splits_dims, splits_lt,
    inst_dims, rel_sat, instance_copy, witness_copy,
};
use crate::transcript::Transcript;

verus! {

/// Failure of one fold round.
#[derive(Debug, Clone, Copy, PartialEq, Eq, Structural)]
pub struct ReduceError;

/// Structural well-formedness of one fold state: the instance matches
/// the index's dimensions, the witness has the prescribed shape with
/// residues below the modulus, and the sizes are positive.
pub open spec fn state_wf(
    idx: Index,
    inst: InstanceView,
    wit: Seq<Seq<Seq<u64>>>,
    q: u64,
    d: nat,
) -> bool {
    &&& inst_dims(inst, idx, d)
    &&& splits_dims(wit, idx.num_witnesses as nat, idx.witness_len as nat, d)
    &&& splits_lt(wit, q)
    &&& idx.num_witnesses >= 1
    &&& idx.witness_len >= 1
}

/// One fold round of the reduction. An implementation folds
/// `(index, instance, witness)` into a smaller triple, writing its
/// protocol messages into the transcript; verification replays the same
/// fold from the message bytes alone.
pub trait OneRoundReducer: Sized {
    /// Whether the proving round succeeds on this state.
    spec fn prove_ok(
        &self,
        crs: CrsNode,
        idx: Index,
        inst: InstanceView,
        wit: Seq<Seq<Seq<u64>>>,
        q: u64,
        d: nat,
    ) -> bool;

    /// The folded index.
    spec fn next_index(
        &self,
        crs: CrsNode,
        idx: Index,
        inst: InstanceView,
        wit: Seq<Seq<Seq<u64>>>,
        q: u64,
        d: nat,
    ) -> Index;

    /// The folded instance.
    spec fn next_instance(
        &self,
        crs: CrsNode,
        idx: Index,
        inst: InstanceView,
        wit: Seq<Seq<Seq<u64>>>,
        q: u64,
        d: nat,
    ) -> InstanceView;

    /// The folded witness.
    spec fn next_witness(
        &self,
        crs: CrsNode,
        idx: Index,
        inst: InstanceView,
        wit: Seq<Seq<Seq<u64>>>,
        q: u64,
        d: nat,
    ) -> Seq<Seq<Seq<u64>>>;

    /// The protocol message the round writes into the transcript.
    spec fn round_message(
        &self,
        crs: CrsNode,
        idx: Index,
        inst: InstanceView,
        wit: Seq<Seq<Seq<u64>>>,
        q: u64,
        d: nat,
    ) -> Seq<u8>;

    /// What verifying one round yields from the message bytes: the
    /// folded index and instance, or nothing when the bytes are invalid.
    spec fn verify_round_spec(
        &self,
        crs: CrsNode,
        idx: Index,
        inst: InstanceView,
        msg: Seq<u8>,
        q: u64,
        d: nat,
    ) -> Option<(Index, InstanceView)>;

    /// Round completeness: on a well-formed, satisfied state the round
    /// succeeds, the folded state is again well-formed and satisfied,
    /// and the round's own message verifies back to the folded index
    /// and instance.
    proof fn round_complete(
        &self,
        crs: CrsNode,
        idx: Index,
        inst: InstanceView,
        wit: Seq<Seq<Seq<u64>>>,
        q: u64,
        d: nat,
    )
        requires
            q >= 1,
            state_wf(idx, inst, wit, q, d),
            rel_sat(inst, wit, q, d),
        ensures
            self.prove_ok(crs, idx, inst, wit, q, d),
            state_wf(
                self.next_index(crs, idx, inst, wit, q, d),
                self.next_instance(crs, idx, inst, wit, q, d),
                self.next_witness(crs, idx, inst, wit, q, d),
                q,
                d,
            ),
            rel_sat(
                self.next_instance(crs, idx, inst, wit, q, d),
                self.next_witness(crs, idx, inst, wit, q, d),
                q,
                d,
            ),
            self.verify_round_spec(
                crs,
                idx,
                inst,
                self.round_message(crs, idx, inst, wit, q, d),
                q,
                d,
            ) == Some(
                (
                    self.next_index(crs, idx, inst, wit, q, d),
                    self.next_instance(crs, idx, inst, wit, q, d),
                ),
            );

    /// Performs one proving round, writing the protocol message into
    /// the transcript as a side effect.
    fn prove_round(
        &self,
        tr: &mut Transcript,
        crs: &CrsNode,
        index: &Index,
        instance: &Instance,
        witness: &Witness,
        q: u64,
        d: usize,
    ) -> (res: Result<(Index, Instance, Witness), ReduceError>)
        ensures
            final(tr).label@ == old(tr).label@,
            res.is_ok() == self.prove_ok(
                *crs,
                *index,
                inst_view(*instance),
                wit_view(*witness),
                q,
                d as nat,
            ),
            res matches Ok(next) ==> {
                &&& next.0 == self.next_index(
                    *crs,
                    *index,
                    inst_view(*instance),
                    wit_view(*witness),
                    q,
                    d as nat,
                )
                &&& inst_view(next.1) == self.next_instance(
                    *crs,
                    *index,
                    inst_view(*instance),
                    wit_view(*witness),
                    q,
                    d as nat,
                )
                &&& wit_view(next.2) == self.next_witness(
                    *crs,
                    *index,
                    inst_view(*instance),
                    wit_view(*witness),
                    q,
                    d as nat,
                )
                &&& final(tr).buf@ == old(tr).buf@ + self.round_message(
                    *crs,
                    *index,
                    inst_view(*instance),
                    wit_view(*witness),
                    q,
                    d as nat,
                )
            },
    ;

    /// Performs one verification round on the transcript's message bytes.
    fn verify_round(
        &self,
        tr: &Transcript,
        crs: &CrsNode,
        index: &Index,
        instance: &Instance,
        q: u64,
        d: usize,
    ) -> (res: Result<(Index, Instance), ReduceError>)
        ensures
            res.is_ok() == self.verify_round_spec(
                *crs,
                *index,
                inst_view(*instance),
                tr.buf@,
                q,
                d as nat,
            ) is Some,
            res matches Ok(next) ==> {
                let sp = self.verify_round_spec(
                    *crs,
                    *index,
                    inst_view(*instance),
                    tr.buf@,
                    q,
                    d as nat,
                )->Some_0;
                next.0 == sp.0 && inst_view(next.1) == sp.1
            },
    ;
}

/// The trivial fold: it passes the state through unchanged and writes no
/// protocol message. It stands where a cryptographic folding backend
/// plugs in, and lets the drivers be exercised end to end.
#[derive(Debug, Clone, Copy)]
pub struct IdentityReducer;

impl OneRoundReducer for IdentityReducer {
    open spec fn prove_ok(
        &self,
        crs: CrsNode,
        idx: Index,
        inst: InstanceView,
        wit: Seq<Seq<Seq<u64>>>,
        q: u64,
        d: nat,
    ) -> bool {
        true
    }

    open spec fn next_index(
        &self,
        crs: CrsNode,
        idx: Index,
        inst: InstanceView,
        wit: Seq<Seq<Seq<u64>>>,
        q: u64,
        d: nat,
    ) -> Index {
        idx
    }

    open spec fn next_instance(
        &self,
        crs: CrsNode,
        idx: Index,
        inst: InstanceView,
        wit: Seq<Seq<Seq<u64>>>,
        q: u64,
        d: nat,
    ) -> InstanceView {
        inst
    }

    open spec fn next_witness(
        &self,
        crs: CrsNode,
        idx: Index,
        inst: InstanceView,
        wit: Seq<Seq<Seq<u64>>>,
        q: u64,
        d: nat,
    ) -> Seq<Seq<Seq<u64>>> {
        wit
    }

    open spec fn round_message(
        &self,
        crs: CrsNode,
        idx: Index,
        inst: InstanceView,
        wit: Seq<Seq<Seq<u64>>>,
        q: u64,
        d: nat,
    ) -> Seq<u8> {
        Seq::empty()
    }

    open spec fn verify_round_spec(
        &self,
        crs: CrsNode,
        idx: Index,
        inst: InstanceView,
        msg: Seq<u8>,
        q: u64,
        d: nat,
    ) -> Option<(Index, InstanceView)> {
        if msg.len() == 0 {
            Some((idx, inst))
        } else {
            None
        }
    }

    proof fn round_complete(
        &self,
        crs: CrsNode,
        idx: Index,
        inst: InstanceView,
        wit: Seq<Seq<Seq<u64>>>,
        q: u64,
        d: nat,
    ) {
    }

    fn prove_round(
        &self,
        tr: &mut Transcript,
        crs: &CrsNode,
        index: &Index,
        instance: &Instance,
        witness: &Witness,
        q: u64,
        d: usize,
    ) -> (res: Result<(Index, Instance, Witness), ReduceError>) {
        let next_instance = instance_copy(instance);
        let next_witness = witness_copy(witness);
        proof {
            assert(old(tr).buf@ + Seq::<u8>::empty() =~= old(tr).buf@);
        }
        Ok((*index, next_instance, next_witness))
    }

    fn verify_round(
        &self,
        tr: &Transcript,
        crs: &CrsNode,
        index: &Index,
        instance: &Instance,
        q: u64,
        d: usize,
    ) -> (res: Result<(Index, Instance), ReduceError>) {
        if tr.is_empty() {
            Ok((*index, instance_copy(instance)))
        } else {
            Err(ReduceError)
        }
    }
}

} // verus!
