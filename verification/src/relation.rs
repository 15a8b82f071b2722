//! The principal relation: an index of dimensions, an instance made of
//! linear and constant quadratic constraints over split witness vectors,
//! and the witness itself, together with the satisfaction check.

use vstd::prelude::*;
use crate::ring::{
    RingElem, add_elem, mul_elem, dot_spec, sum_spec, vec_view, vec_dims, vec_lt, elem_lt,
    ring_zero, ring_add, ring_mul, ring_dot, elem_eq, elem_copy,
};

verus! {

/// Relation dimensions, derived once and never mutated.
#[derive(Debug, Clone, Copy, PartialEq, Eq, Structural)]
pub struct Index {
    pub num_witnesses: usize,
    pub witness_len: usize,
    pub norm_bound_squared: u128,
    pub num_constraints: usize,
    pub num_constant_constraints: usize,
}

/// One node of the CRS chain: the witness sizing for one fold round.
#[derive(Debug, Clone, Copy, PartialEq, Eq, Structural)]
pub struct CrsNode {
    pub n: usize,
    pub r: usize,
}

/// A degree-one quadratic constraint: `sum_i <phi_i, w_i> == b`.
#[derive(Debug)]
pub struct QuadraticConstraint {
    pub phi: Vec<Vec<RingElem>>,
    pub b: RingElem,
}

/// A constant quadratic constraint:
/// `sum_{i,j} a_{ij} * <w_i, w_j> + sum_i <phi_i, w_i> == b`.
#[derive(Debug)]
pub struct ConstantQuadraticConstraint {
    pub quad: Vec<Vec<RingElem>>,
    pub phi: Vec<Vec<RingElem>>,
    pub b: RingElem,
}

/// The constraints of one relation instance.
#[derive(Debug)]
pub struct Instance {
    pub quad_dot_prod_funcs: Vec<QuadraticConstraint>,
    pub ct_quad_dot_prod_funcs: Vec<ConstantQuadraticConstraint>,
}

/// The split witness: `num_witnesses` sub-vectors of `witness_len` elements.
#[derive(Debug)]
pub struct Witness {
    pub s: Vec<Vec<RingElem>>,
}

// ---------------------------------------------------------------------------
// Mathematical views
// ---------------------------------------------------------------------------

/// View of a sequence of element vectors as nested residue sequences.
pub open spec fn splits_view(v: Seq<Vec<RingElem>>) -> Seq<Seq<Seq<u64>>> {
    v.map_values(|x: Vec<RingElem>| vec_view(x@))
}

#[verifier::ext_equal]
pub ghost struct LinConView {
    pub phi: Seq<Seq<Seq<u64>>>,
    pub b: Seq<u64>,
}

#[verifier::ext_equal]
pub ghost struct CtConView {
    pub quad: Seq<Seq<Seq<u64>>>,
    pub phi: Seq<Seq<Seq<u64>>>,
    pub b: Seq<u64>,
}

#[verifier::ext_equal]
pub ghost struct InstanceView {
    pub lin: Seq<LinConView>,
    pub ct: Seq<CtConView>,
}

pub open spec fn lin_view(c: QuadraticConstraint) -> LinConView {
    LinConView { phi: splits_view(c.phi@), b: c.b.c@ }
}

pub open spec fn ct_view(c: ConstantQuadraticConstraint) -> CtConView {
    CtConView { quad: splits_view(c.quad@), phi: splits_view(c.phi@), b: c.b.c@ }
}

pub open spec fn inst_view(inst: Instance) -> InstanceView {
    InstanceView {
        lin: inst.quad_dot_prod_funcs@.map_values(|c: QuadraticConstraint| lin_view(c)),
        ct: inst.ct_quad_dot_prod_funcs@.map_values(|c: ConstantQuadraticConstraint| ct_view(c)),
    }
}

pub open spec fn wit_view(w: Witness) -> Seq<Seq<Seq<u64>>> {
    splits_view(w.s@)
}

// ---------------------------------------------------------------------------
// Dimension predicates
// ---------------------------------------------------------------------------

/// `w` consists of `r` sub-vectors of `wlen` elements of `Z_q^d` each.
pub open spec fn splits_dims(w: Seq<Seq<Seq<u64>>>, r: nat, wlen: nat, d: nat) -> bool {
    w.len() == r && forall|i: int|
        0 <= i < w.len() ==> (#[trigger] w[i]).len() == wlen && vec_dims(w[i], d)
}

/// Every residue of every entry lies below `q`.
pub open spec fn splits_lt(w: Seq<Seq<Seq<u64>>>, q: u64) -> bool {
    forall|i: int| 0 <= i < w.len() ==> vec_lt(#[trigger] w[i], q)
}

pub open spec fn lin_dims(c: LinConView, r: nat, wlen: nat, d: nat) -> bool {
    splits_dims(c.phi, r, wlen, d) && c.b.len() == d
}

pub open spec fn ct_dims(c: CtConView, r: nat, wlen: nat, d: nat) -> bool {
    &&& c.quad.len() == r
    &&& forall|i: int| 0 <= i < c.quad.len() ==> (#[trigger] c.quad[i]).len() == r && vec_dims(c.quad[i], d)
    &&& splits_dims(c.phi, r, wlen, d)
    &&& c.b.len() == d
}

/// The instance's constraints match the index's dimensions.
pub open spec fn inst_dims(inst: InstanceView, idx: Index, d: nat) -> bool {
    &&& inst.lin.len() == idx.num_constraints
    &&& forall|i: int|
        0 <= i < inst.lin.len() ==> lin_dims(
            #[trigger] inst.lin[i],
            idx.num_witnesses as nat,
            idx.witness_len as nat,
            d,
        )
    &&& inst.ct.len() == idx.num_constant_constraints
    &&& forall|i: int|
        0 <= i < inst.ct.len() ==> ct_dims(
            #[trigger] inst.ct[i],
            idx.num_witnesses as nat,
            idx.witness_len as nat,
            d,
        )
}

// ---------------------------------------------------------------------------
// Satisfaction
// ---------------------------------------------------------------------------

/// A linear constraint holds: the split dot products sum to `b`.
pub open spec fn lin_sat(c: LinConView, w: Seq<Seq<Seq<u64>>>, q: u64, d: nat) -> bool {
    sum_spec(Seq::new(c.phi.len(), |i: int| dot_spec(c.phi[i], w[i], q, d)), q, d) == c.b
}

/// Value of a constant quadratic constraint on witness `w`.
pub open spec fn ct_eval(c: CtConView, w: Seq<Seq<Seq<u64>>>, q: u64, d: nat) -> Seq<u64> {
    add_elem(
        sum_spec(
            Seq::new(
                c.quad.len(),
                |i: int|
                    sum_spec(
                        Seq::new(
                            c.quad[i].len(),
                            |j: int| mul_elem(c.quad[i][j], dot_spec(w[i], w[j], q, d), q),
                        ),
                        q,
                        d,
                    ),
            ),
            q,
            d,
        ),
        sum_spec(Seq::new(c.phi.len(), |i: int| dot_spec(c.phi[i], w[i], q, d)), q, d),
        q,
    )
}

pub open spec fn ct_sat(c: CtConView, w: Seq<Seq<Seq<u64>>>, q: u64, d: nat) -> bool {
    ct_eval(c, w, q, d) == c.b
}

/// Every constraint of the instance holds on witness `w`.
pub open spec fn rel_sat(inst: InstanceView, w: Seq<Seq<Seq<u64>>>, q: u64, d: nat) -> bool {
    &&& forall|i: int| 0 <= i < inst.lin.len() ==> lin_sat(#[trigger] inst.lin[i], w, q, d)
    &&& forall|i: int| 0 <= i < inst.ct.len() ==> ct_sat(#[trigger] inst.ct[i], w, q, d)
}

/// What the terminal check of verification decides: the witness has the
/// dimensions the index prescribes and satisfies every constraint.
pub open spec fn rel_check_spec(
    idx: Index,
    inst: InstanceView,
    w: Seq<Seq<Seq<u64>>>,
    q: u64,
    d: nat,
) -> bool {
    &&& inst_dims(inst, idx, d)
    &&& splits_dims(w, idx.num_witnesses as nat, idx.witness_len as nat, d)
    &&& rel_sat(inst, w, q, d)
}

// ---------------------------------------------------------------------------
// Deep copies (the fold state is handed from round to round by value)
// ---------------------------------------------------------------------------

pub fn vec_elems_copy(v: &Vec<RingElem>) -> (r: Vec<RingElem>)
    ensures
        r@.len() == v@.len(),
        vec_view(r@) == vec_view(v@),
{
    let mut out: Vec<RingElem> = Vec::new();
    let mut i: usize = 0;
    while i < v.len()
        invariant
            i <= v@.len(),
            out@.len() == i,
            forall|j: int| 0 <= j < i ==> (#[trigger] out@[j]).c@ == v@[j].c@,
        decreases v@.len() - i,
    {
        let e = elem_copy(&v[i]);
        out.push(e);
        i += 1;
    }
    proof {
        assert(vec_view(out@) =~= vec_view(v@));
    }
    out
}

pub fn splits_copy(v: &Vec<Vec<RingElem>>) -> (r: Vec<Vec<RingElem>>)
    ensures
        r@.len() == v@.len(),
        splits_view(r@) == splits_view(v@),
{
    let mut out: Vec<Vec<RingElem>> = Vec::new();
    let mut i: usize = 0;
    while i < v.len()
        invariant
            i <= v@.len(),
            out@.len() == i,
            forall|j: int| 0 <= j < i ==> vec_view((#[trigger] out@[j])@) == vec_view(v@[j]@),
        decreases v@.len() - i,
    {
        let sub = vec_elems_copy(&v[i]);
        out.push(sub);
        i += 1;
    }
    proof {
        assert(splits_view(out@) =~= splits_view(v@));
    }
    out
}

pub fn witness_copy(w: &Witness) -> (r: Witness)
    ensures
        wit_view(r) == wit_view(*w),
        r.s@.len() == w.s@.len(),
{
    Witness { s: splits_copy(&w.s) }
}

pub fn instance_copy(inst: &Instance) -> (r: Instance)
    ensures
        inst_view(r) == inst_view(*inst),
{
    let mut lin: Vec<QuadraticConstraint> = Vec::new();
    let mut i: usize = 0;
    while i < inst.quad_dot_prod_funcs.len()
        invariant
            i <= inst.quad_dot_prod_funcs@.len(),
            lin@.len() == i,
            forall|j: int|
                0 <= j < i ==> lin_view(#[trigger] lin@[j]) == lin_view(
                    inst.quad_dot_prod_funcs@[j],
                ),
        decreases inst.quad_dot_prod_funcs@.len() - i,
    {
        let c = &inst.quad_dot_prod_funcs[i];
        let copied = QuadraticConstraint { phi: splits_copy(&c.phi), b: elem_copy(&c.b) };
        proof {
            assert(lin_view(copied) =~= lin_view(inst.quad_dot_prod_funcs@[i as int]));
        }
        lin.push(copied);
        i += 1;
    }
    let mut ct: Vec<ConstantQuadraticConstraint> = Vec::new();
    let mut k: usize = 0;
    while k < inst.ct_quad_dot_prod_funcs.len()
        invariant
            k <= inst.ct_quad_dot_prod_funcs@.len(),
            ct@.len() == k,
            forall|j: int|
                0 <= j < k ==> ct_view(#[trigger] ct@[j]) == ct_view(
                    inst.ct_quad_dot_prod_funcs@[j],
                ),
        decreases inst.ct_quad_dot_prod_funcs@.len() - k,
    {
        let c = &inst.ct_quad_dot_prod_funcs[k];
        let copied = ConstantQuadraticConstraint {
            quad: splits_copy(&c.quad),
            phi: splits_copy(&c.phi),
            b: elem_copy(&c.b),
        };
        proof {
            assert(ct_view(copied) =~= ct_view(inst.ct_quad_dot_prod_funcs@[k as int]));
        }
        ct.push(copied);
        k += 1;
    }
    let out = Instance { quad_dot_prod_funcs: lin, ct_quad_dot_prod_funcs: ct };
    proof {
        assert(inst_view(out) =~= inst_view(*inst));
    }
    out
}

// ---------------------------------------------------------------------------
// Executable satisfaction check
// ---------------------------------------------------------------------------

/// Dimension check for a split vector: `r` sub-vectors of `wlen` elements
/// with `d` residues each.
pub fn check_splits_dims(v: &Vec<Vec<RingElem>>, r: usize, wlen: usize, d: usize) -> (b: bool)
    ensures
        b == splits_dims(splits_view(v@), r as nat, wlen as nat, d as nat),
{
    if v.len() != r {
        return false;
    }
    let mut i: usize = 0;
    while i < v.len()
        invariant
            i <= v@.len(),
            v@.len() == r,
            forall|j: int|
                0 <= j < i ==> (#[trigger] splits_view(v@)[j]).len() == wlen && vec_dims(
                    splits_view(v@)[j],
                    d as nat,
                ),
        decreases v@.len() - i,
    {
        if v[i].len() != wlen {
            proof {
                assert(splits_view(v@)[i as int].len() != wlen);
            }
            return false;
        }
        let sub = &v[i];
        let mut j: usize = 0;
        while j < sub.len()
            invariant
                j <= sub@.len(),
                i < v@.len(),
                sub@ == v@[i as int]@,
                forall|k: int| 0 <= k < j ==> (#[trigger] vec_view(sub@)[k]).len() == d,
            decreases sub@.len() - j,
        {
            if sub[j].c.len() != d {
                proof {
                    assert(vec_view(sub@)[j as int].len() != d);
                    assert(!vec_dims(splits_view(v@)[i as int], d as nat));
                }
                return false;
            }
            j += 1;
        }
        proof {
            assert(splits_view(v@)[i as int] == vec_view(sub@));
            assert(vec_dims(splits_view(v@)[i as int], d as nat));
            assert(splits_view(v@)[i as int].len() == wlen);
        }
        i += 1;
    }
    true
}

/// Residue-bound check for a split vector.
pub fn check_splits_lt(v: &Vec<Vec<RingElem>>, q: u64) -> (b: bool)
    ensures
        b == splits_lt(splits_view(v@), q),
{
    let mut i: usize = 0;
    while i < v.len()
        invariant
            i <= v@.len(),
            forall|j: int| 0 <= j < i ==> vec_lt(#[trigger] splits_view(v@)[j], q),
        decreases v@.len() - i,
    {
        let sub = &v[i];
        let mut j: usize = 0;
        while j < sub.len()
            invariant
                j <= sub@.len(),
                i < v@.len(),
                sub@ == v@[i as int]@,
                forall|k: int| 0 <= k < j ==> elem_lt(#[trigger] vec_view(sub@)[k], q),
            decreases sub@.len() - j,
        {
            let e = &sub[j];
            let mut k: usize = 0;
            while k < e.c.len()
                invariant
                    k <= e.c@.len(),
                    i < v@.len(),
                    j < sub@.len(),
                    sub@ == v@[i as int]@,
                    e.c@ == sub@[j as int].c@,
                    forall|t: int| 0 <= t < k ==> e.c@[t] < q,
                decreases e.c@.len() - k,
            {
                if e.c[k] >= q {
                    proof {
                        assert(vec_view(sub@)[j as int] == sub@[j as int].c@);
                        assert(vec_view(sub@)[j as int][k as int] >= q);
                        assert(!elem_lt(vec_view(sub@)[j as int], q));
                        assert(splits_view(v@)[i as int] == vec_view(sub@));
                        assert(!vec_lt(splits_view(v@)[i as int], q));
                    }
                    return false;
                }
                k += 1;
            }
            proof {
                assert(elem_lt(vec_view(sub@)[j as int], q));
            }
            j += 1;
        }
        proof {
            assert(vec_lt(splits_view(v@)[i as int], q));
        }
        i += 1;
    }
    true
}

/// Evaluates one linear constraint against a witness of matching shape.
fn eval_lin(c: &QuadraticConstraint, wit: &Vec<Vec<RingElem>>, q: u64, d: usize) -> (b: bool)
    requires
        q >= 1,
        c.phi@.len() == wit@.len(),
        forall|i: int|
            0 <= i < c.phi@.len() ==> (#[trigger] c.phi@[i])@.len() == wit@[i]@.len() && vec_dims(
                vec_view(c.phi@[i]@),
                d as nat,
            ) && vec_dims(vec_view(wit@[i]@), d as nat),
    ensures
        b == lin_sat(lin_view(*c), splits_view(wit@), q, d as nat),
{
    let ghost cv = lin_view(*c);
    let ghost wv = splits_view(wit@);
    let ghost terms = Seq::new(cv.phi.len(), |i: int| dot_spec(cv.phi[i], wv[i], q, d as nat));
    let mut acc = ring_zero(d);
    let mut i: usize = 0;
    proof {
        assert(terms.take(0) =~= Seq::<Seq<u64>>::empty());
    }
    while i < c.phi.len()
        invariant
            q >= 1,
            i <= c.phi@.len(),
            c.phi@.len() == wit@.len(),
            cv == lin_view(*c),
            wv == splits_view(wit@),
            terms == Seq::new(cv.phi.len(), |k: int| dot_spec(cv.phi[k], wv[k], q, d as nat)),
            forall|k: int|
                0 <= k < c.phi@.len() ==> (#[trigger] c.phi@[k])@.len() == wit@[k]@.len()
                    && vec_dims(vec_view(c.phi@[k]@), d as nat) && vec_dims(
                    vec_view(wit@[k]@),
                    d as nat,
                ),
            acc.c@ == sum_spec(terms.take(i as int), q, d as nat),
            acc.c@.len() == d,
        decreases c.phi@.len() - i,
    {
        let dp = ring_dot(&c.phi[i], &wit[i], q, d);
        let acc2 = ring_add(&acc, &dp, q);
        proof {
            assert(cv.phi[i as int] == vec_view(c.phi@[i as int]@));
            assert(wv[i as int] == vec_view(wit@[i as int]@));
            let i1 = i + 1 as int;
            assert(terms.take(i1).drop_last() =~= terms.take(i as int));
            assert(terms.take(i1).last() == terms[i as int]);
        }
        acc = acc2;
        i += 1;
    }
    proof {
        assert(terms.take(terms.len() as int) =~= terms);
    }
    elem_eq(&acc, &c.b)
}

/// Evaluates one constant quadratic constraint.
fn eval_ct(c: &ConstantQuadraticConstraint, wit: &Vec<Vec<RingElem>>, q: u64, d: usize) -> (b:
    bool)
    requires
        q >= 1,
        c.quad@.len() == wit@.len(),
        c.phi@.len() == wit@.len(),
        forall|i: int|
            0 <= i < c.quad@.len() ==> (#[trigger] c.quad@[i])@.len() == wit@.len() && vec_dims(
                vec_view(c.quad@[i]@),
                d as nat,
            ),
        forall|i: int|
            0 <= i < c.phi@.len() ==> (#[trigger] c.phi@[i])@.len() == wit@[i]@.len() && vec_dims(
                vec_view(c.phi@[i]@),
                d as nat,
            ),
        forall|i: int|
            0 <= i < wit@.len() ==> vec_dims(vec_view((#[trigger] wit@[i])@), d as nat),
        forall|i: int, j: int|
            0 <= i < wit@.len() && 0 <= j < wit@.len() ==> (#[trigger] wit@[i])@.len()
                == (#[trigger] wit@[j])@.len(),
    ensures
        b == ct_sat(ct_view(*c), splits_view(wit@), q, d as nat),
{
    let ghost cv = ct_view(*c);
    let ghost wv = splits_view(wit@);
    let ghost qterms = Seq::new(
        cv.quad.len(),
        |i: int|
            sum_spec(
                Seq::new(
                    cv.quad[i].len(),
                    |j: int| mul_elem(cv.quad[i][j], dot_spec(wv[i], wv[j], q, d as nat), q),
                ),
                q,
                d as nat,
            ),
    );
    let mut qacc = ring_zero(d);
    let mut i: usize = 0;
    proof {
        assert(qterms.take(0) =~= Seq::<Seq<u64>>::empty());
    }
    while i < c.quad.len()
        invariant
            q >= 1,
            i <= c.quad@.len(),
            c.quad@.len() == wit@.len(),
            cv == ct_view(*c),
            wv == splits_view(wit@),
            qterms == Seq::new(
                cv.quad.len(),
                |a: int|
                    sum_spec(
                        Seq::new(
                            cv.quad[a].len(),
                            |b2: int|
                                mul_elem(cv.quad[a][b2], dot_spec(wv[a], wv[b2], q, d as nat), q),
                        ),
                        q,
                        d as nat,
                    ),
            ),
            forall|a: int|
                0 <= a < c.quad@.len() ==> (#[trigger] c.quad@[a])@.len() == wit@.len() && vec_dims(
                    vec_view(c.quad@[a]@),
                    d as nat,
                ),
            forall|a: int|
                0 <= a < wit@.len() ==> vec_dims(vec_view((#[trigger] wit@[a])@), d as nat),
            forall|a: int, b2: int|
                0 <= a < wit@.len() && 0 <= b2 < wit@.len() ==> (#[trigger] wit@[a])@.len()
                    == (#[trigger] wit@[b2])@.len(),
            qacc.c@ == sum_spec(qterms.take(i as int), q, d as nat),
            qacc.c@.len() == d,
        decreases c.quad@.len() - i,
    {
        let row = &c.quad[i];
        let ghost rowterms = Seq::new(
            cv.quad[i as int].len(),
            |j: int| mul_elem(cv.quad[i as int][j], dot_spec(wv[i as int], wv[j], q, d as nat), q),
        );
        let mut racc = ring_zero(d);
        let mut j: usize = 0;
        proof {
            assert(rowterms.take(0) =~= Seq::<Seq<u64>>::empty());
        }
        while j < row.len()
            invariant
                q >= 1,
                i < c.quad@.len(),
                j <= row@.len(),
                c.quad@.len() == wit@.len(),
                row@ == c.quad@[i as int]@,
                row@.len() == wit@.len(),
                cv == ct_view(*c),
                wv == splits_view(wit@),
                rowterms == Seq::new(
                    cv.quad[i as int].len(),
                    |b2: int|
                        mul_elem(
                            cv.quad[i as int][b2],
                            dot_spec(wv[i as int], wv[b2], q, d as nat),
                            q,
                        ),
                ),
                vec_dims(vec_view(row@), d as nat),
                forall|a: int|
                    0 <= a < wit@.len() ==> vec_dims(vec_view((#[trigger] wit@[a])@), d as nat),
                forall|a: int, b2: int|
                    0 <= a < wit@.len() && 0 <= b2 < wit@.len() ==> (#[trigger] wit@[a])@.len()
                        == (#[trigger] wit@[b2])@.len(),
                racc.c@ == sum_spec(rowterms.take(j as int), q, d as nat),
                racc.c@.len() == d,
            decreases row@.len() - j,
        {
            proof {
                assert(vec_view(row@)[j as int] == row@[j as int].c@);
                assert(vec_view(row@)[j as int].len() == d);
                assert(wv[i as int] == vec_view(wit@[i as int]@));
                assert(wv[j as int] == vec_view(wit@[j as int]@));
                assert(wit@[i as int]@.len() == wit@[j as int]@.len());
            }
            let dp = ring_dot(&wit[i], &wit[j], q, d);
            let prod = ring_mul(&row[j], &dp, q);
            let racc2 = ring_add(&racc, &prod, q);
            proof {
                assert(cv.quad[i as int][j as int] == vec_view(row@)[j as int]);
                assert(wv[i as int] == vec_view(wit@[i as int]@));
                assert(wv[j as int] == vec_view(wit@[j as int]@));
                let j1 = j + 1 as int;
                assert(rowterms.take(j1).drop_last() =~= rowterms.take(j as int));
                assert(rowterms.take(j1).last() == rowterms[j as int]);
                assert(vec_view(row@)[j as int].len() == d);
            }
            racc = racc2;
            j += 1;
        }
        let qacc2 = ring_add(&qacc, &racc, q);
        proof {
            assert(rowterms.take(rowterms.len() as int) =~= rowterms);
            let i1 = i + 1 as int;
            assert(qterms.take(i1).drop_last() =~= qterms.take(i as int));
            assert(qterms.take(i1).last() == qterms[i as int]);
            assert(qterms[i as int] == sum_spec(rowterms, q, d as nat));
        }
        qacc = qacc2;
        i += 1;
    }
    proof {
        assert(qterms.take(qterms.len() as int) =~= qterms);
    }
    // linear part
    let ghost lterms = Seq::new(cv.phi.len(), |i: int| dot_spec(cv.phi[i], wv[i], q, d as nat));
    let mut lacc = ring_zero(d);
    let mut t: usize = 0;
    proof {
        assert(lterms.take(0) =~= Seq::<Seq<u64>>::empty());
    }
    while t < c.phi.len()
        invariant
            q >= 1,
            t <= c.phi@.len(),
            c.phi@.len() == wit@.len(),
            cv == ct_view(*c),
            wv == splits_view(wit@),
            lterms == Seq::new(cv.phi.len(), |k: int| dot_spec(cv.phi[k], wv[k], q, d as nat)),
            forall|k: int|
                0 <= k < c.phi@.len() ==> (#[trigger] c.phi@[k])@.len() == wit@[k]@.len()
                    && vec_dims(vec_view(c.phi@[k]@), d as nat) && vec_dims(
                    vec_view(wit@[k]@),
                    d as nat,
                ),
            lacc.c@ == sum_spec(lterms.take(t as int), q, d as nat),
            lacc.c@.len() == d,
        decreases c.phi@.len() - t,
    {
        let dp = ring_dot(&c.phi[t], &wit[t], q, d);
        let lacc2 = ring_add(&lacc, &dp, q);
        proof {
            assert(cv.phi[t as int] == vec_view(c.phi@[t as int]@));
            assert(wv[t as int] == vec_view(wit@[t as int]@));
            let t1 = t + 1 as int;
            assert(lterms.take(t1).drop_last() =~= lterms.take(t as int));
            assert(lterms.take(t1).last() == lterms[t as int]);
        }
        lacc = lacc2;
        t += 1;
    }
    proof {
        assert(lterms.take(lterms.len() as int) =~= lterms);
    }
    let total = ring_add(&qacc, &lacc, q);
    elem_eq(&total, &c.b)
}

/// Decides whether `(index, instance, wit)` satisfies the principal
/// relation: the dimensions prescribed by the index hold and every
/// constraint evaluates as required.
pub fn check_relation(
    index: &Index,
    instance: &Instance,
    wit: &Vec<Vec<RingElem>>,
    q: u64,
    d: usize,
) -> (b: bool)
    requires
        q >= 1,
    ensures
        b == rel_check_spec(*index, inst_view(*instance), splits_view(wit@), q, d as nat),
{
    let ghost iv = inst_view(*instance);
    let ghost wv = splits_view(wit@);
    if !check_splits_dims(wit, index.num_witnesses, index.witness_len, d) {
        return false;
    }
    if instance.quad_dot_prod_funcs.len() != index.num_constraints {
        return false;
    }
    if instance.ct_quad_dot_prod_funcs.len() != index.num_constant_constraints {
        return false;
    }
    // linear constraints
    let mut i: usize = 0;
    while i < instance.quad_dot_prod_funcs.len()
        invariant
            q >= 1,
            i <= instance.quad_dot_prod_funcs@.len(),
            iv == inst_view(*instance),
            wv == splits_view(wit@),
            splits_dims(wv, index.num_witnesses as nat, index.witness_len as nat, d as nat),
            forall|j: int|
                0 <= j < i ==> lin_dims(
                    #[trigger] iv.lin[j],
                    index.num_witnesses as nat,
                    index.witness_len as nat,
                    d as nat,
                ) && lin_sat(iv.lin[j], wv, q, d as nat),
        decreases instance.quad_dot_prod_funcs@.len() - i,
    {
        let c = &instance.quad_dot_prod_funcs[i];
        proof {
            assert(iv.lin[i as int] == lin_view(*c));
        }
        if !check_splits_dims(&c.phi, index.num_witnesses, index.witness_len, d) {
            proof {
                assert(!lin_dims(
                    iv.lin[i as int],
                    index.num_witnesses as nat,
                    index.witness_len as nat,
                    d as nat,
                ));
            }
            return false;
        }
        if c.b.c.len() != d {
            return false;
        }
        proof {
            assert forall|t: int| 0 <= t < c.phi@.len() implies (#[trigger] c.phi@[t])@.len()
                == wit@[t]@.len() && vec_dims(vec_view(c.phi@[t]@), d as nat) && vec_dims(
                vec_view(wit@[t]@),
                d as nat,
            ) by {
                assert(splits_view(c.phi@)[t] == vec_view(c.phi@[t]@));
                assert(splits_view(wit@)[t] == vec_view(wit@[t]@));
            }
        }
        if !eval_lin(c, wit, q, d) {
            proof {
                assert(!lin_sat(iv.lin[i as int], wv, q, d as nat));
            }
            return false;
        }
        i += 1;
    }
    // constant constraints
    let mut k: usize = 0;
    while k < instance.ct_quad_dot_prod_funcs.len()
        invariant
            q >= 1,
            k <= instance.ct_quad_dot_prod_funcs@.len(),
            iv == inst_view(*instance),
            wv == splits_view(wit@),
            splits_dims(wv, index.num_witnesses as nat, index.witness_len as nat, d as nat),
            forall|j: int|
                0 <= j < k ==> ct_dims(
                    #[trigger] iv.ct[j],
                    index.num_witnesses as nat,
                    index.witness_len as nat,
                    d as nat,
                ) && ct_sat(iv.ct[j], wv, q, d as nat),
        decreases instance.ct_quad_dot_prod_funcs@.len() - k,
    {
        let c = &instance.ct_quad_dot_prod_funcs[k];
        proof {
            assert(iv.ct[k as int] == ct_view(*c));
        }
        if !check_splits_dims(&c.quad, index.num_witnesses, index.num_witnesses, d) {
            return false;
        }
        if !check_splits_dims(&c.phi, index.num_witnesses, index.witness_len, d) {
            return false;
        }
        if c.b.c.len() != d {
            return false;
        }
        proof {
            assert forall|t: int| 0 <= t < c.quad@.len() implies (#[trigger] c.quad@[t])@.len()
                == wit@.len() && vec_dims(vec_view(c.quad@[t]@), d as nat) by {
                assert(splits_view(c.quad@)[t] == vec_view(c.quad@[t]@));
            }
            assert forall|t: int| 0 <= t < c.phi@.len() implies (#[trigger] c.phi@[t])@.len()
                == wit@[t]@.len() && vec_dims(vec_view(c.phi@[t]@), d as nat) by {
                assert(splits_view(c.phi@)[t] == vec_view(c.phi@[t]@));
                assert(splits_view(wit@)[t] == vec_view(wit@[t]@));
            }
            assert forall|t: int| 0 <= t < wit@.len() implies vec_dims(
                vec_view((#[trigger] wit@[t])@),
                d as nat,
            ) by {
                assert(splits_view(wit@)[t] == vec_view(wit@[t]@));
            }
            assert forall|t: int, u: int|
                0 <= t < wit@.len() && 0 <= u < wit@.len() implies (#[trigger] wit@[t])@.len()
                    == (#[trigger] wit@[u])@.len() by {
                assert(splits_view(wit@)[t] == vec_view(wit@[t]@));
                assert(splits_view(wit@)[u] == vec_view(wit@[u]@));
            }
        }
        if !eval_ct(c, wit, q, d) {
            proof {
                assert(!ct_sat(iv.ct[k as int], wv, q, d as nat));
            }
            return false;
        }
        k += 1;
    }
    proof {
        assert(inst_dims(iv, *index, d as nat));
    }
    true
}

} // verus!
