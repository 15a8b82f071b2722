//! The coefficient ring: elements of `Z_q^d` (a product ring given by `d`
//! residues modulo `q`), vectors over it, dot products, and the squared
//! Euclidean norm of the centered representatives.

use vstd::prelude::*;
use vstd::arithmetic::div_mod::{lemma_small_mod, lemma_add_mod_noop, lemma_mod_bound};

verus! {

/// One ring element: `d` residues modulo `q`, added and multiplied
/// componentwise.
#[derive(Debug)]
pub struct RingElem {
    pub c: Vec<u64>,
}

/// Every residue of `e` lies below the modulus.
pub open spec fn elem_lt(e: Seq<u64>, q: u64) -> bool {
    forall|i: int| 0 <= i < e.len() ==> e[i] < q
}

/// `e` is a well-formed element of `Z_q^d`.
pub open spec fn elem_ok(e: Seq<u64>, q: u64, d: nat) -> bool {
    e.len() == d && elem_lt(e, q)
}

/// The residues of a vector of elements.
pub open spec fn vec_view(v: Seq<RingElem>) -> Seq<Seq<u64>> {
    v.map_values(|e: RingElem| e.c@)
}

/// Every element of the vector has exactly `d` residues.
pub open spec fn vec_dims(v: Seq<Seq<u64>>, d: nat) -> bool {
    forall|i: int| 0 <= i < v.len() ==> (#[trigger] v[i]).len() == d
}

/// Every residue in the vector lies below `q`.
pub open spec fn vec_lt(v: Seq<Seq<u64>>, q: u64) -> bool {
    forall|i: int| 0 <= i < v.len() ==> elem_lt(#[trigger] v[i], q)
}

/// Well-formed vector over `Z_q^d`.
pub open spec fn vec_ok(v: Seq<Seq<u64>>, q: u64, d: nat) -> bool {
    vec_dims(v, d) && vec_lt(v, q)
}

/// The additive identity of `Z_q^d`.
pub open spec fn zero_elem(d: nat) -> Seq<u64> {
    Seq::new(d, |i: int| 0u64)
}

/// Componentwise sum modulo `q`.
pub open spec fn add_elem(a: Seq<u64>, b: Seq<u64>, q: u64) -> Seq<u64> {
    Seq::new(a.len(), |i: int| ((a[i] + b[i]) % (q as int)) as u64)
}

/// Componentwise product modulo `q`.
pub open spec fn mul_elem(a: Seq<u64>, b: Seq<u64>, q: u64) -> Seq<u64> {
    Seq::new(a.len(), |i: int| ((a[i] * b[i]) % (q as int)) as u64)
}

/// Ring-valued dot product of two vectors of equal length.
pub open spec fn dot_spec(u: Seq<Seq<u64>>, v: Seq<Seq<u64>>, q: u64, d: nat) -> Seq<u64>
    decreases u.len(),
{
    if u.len() == 0 {
        zero_elem(d)
    } else {
        add_elem(dot_spec(u.drop_last(), v.drop_last(), q, d), mul_elem(u.last(), v.last(), q), q)
    }
}

/// Sum of a sequence of ring elements.
pub open spec fn sum_spec(xs: Seq<Seq<u64>>, q: u64, d: nat) -> Seq<u64>
    decreases xs.len(),
{
    if xs.len() == 0 {
        zero_elem(d)
    } else {
        add_elem(sum_spec(xs.drop_last(), q, d), xs.last(), q)
    }
}

/// The centered (signed) representative of a residue: the integer in
/// `(-q/2, q/2]` congruent to `x` modulo `q`.
pub open spec fn centered(x: u64, q: u64) -> int {
    if 2 * x > q {
        x - q
    } else {
        x as int
    }
}

/// Squared Euclidean norm of one element's centered representatives.
pub open spec fn elem_norm_sq(e: Seq<u64>, q: u64) -> int
    decreases e.len(),
{
    if e.len() == 0 {
        0
    } else {
        elem_norm_sq(e.drop_last(), q) + centered(e.last(), q) * centered(e.last(), q)
    }
}

/// Squared Euclidean norm of a vector of elements.
pub open spec fn vec_norm_sq(v: Seq<Seq<u64>>, q: u64) -> int
    decreases v.len(),
{
    if v.len() == 0 {
        0
    } else {
        vec_norm_sq(v.drop_last(), q) + elem_norm_sq(v.last(), q)
    }
}

/// Partition of a vector of length `r * wlen` into `r` chunks of `wlen`
/// entries, in order.
pub open spec fn split_view(v: Seq<Seq<u64>>, wlen: nat, r: nat) -> Seq<Seq<Seq<u64>>> {
    Seq::new(r, |j: int| v.subrange(j * wlen, (j + 1) * wlen))
}

/// Concatenation of split chunks back into one vector, in split order.
pub open spec fn concat_view(w: Seq<Seq<Seq<u64>>>) -> Seq<Seq<u64>>
    decreases w.len(),
{
    if w.len() == 0 {
        Seq::empty()
    } else {
        concat_view(w.drop_last()) + w.last()
    }
}

// ---------------------------------------------------------------------------
// Executable operations
// ---------------------------------------------------------------------------

/// The zero element of `Z_q^d`.
pub fn ring_zero(d: usize) -> (r: RingElem)
    ensures
        r.c@ == zero_elem(d as nat),
{
    let mut c: Vec<u64> = Vec::new();
    let mut i: usize = 0;
    while i < d
        invariant
            i <= d,
            c@.len() == i,
            forall|j: int| 0 <= j < i ==> c@[j] == 0u64,
        decreases d - i,
    {
        c.push(0);
        i += 1;
    }
    proof {
        assert(c@ =~= zero_elem(d as nat));
    }
    RingElem { c }
}

/// An owned copy of a ring element.
pub fn elem_copy(e: &RingElem) -> (r: RingElem)
    ensures
        r.c@ == e.c@,
{
    let mut c: Vec<u64> = Vec::new();
    let mut i: usize = 0;
    while i < e.c.len()
        invariant
            i <= e.c@.len(),
            c@.len() == i,
            forall|j: int| 0 <= j < i ==> c@[j] == e.c@[j],
        decreases e.c@.len() - i,
    {
        c.push(e.c[i]);
        i += 1;
    }
    proof {
        assert(c@ =~= e.c@);
    }
    RingElem { c }
}

/// Componentwise addition modulo `q`.
pub fn ring_add(a: &RingElem, b: &RingElem, q: u64) -> (r: RingElem)
    requires
        q >= 1,
        a.c@.len() == b.c@.len(),
    ensures
        r.c@ == add_elem(a.c@, b.c@, q),
{
    let mut c: Vec<u64> = Vec::new();
    let mut i: usize = 0;
    while i < a.c.len()
        invariant
            q >= 1,
            i <= a.c@.len(),
            a.c@.len() == b.c@.len(),
            c@.len() == i,
            forall|j: int| 0 <= j < i ==> c@[j] == ((a.c@[j] + b.c@[j]) % (q as int)) as u64,
        decreases a.c@.len() - i,
    {
        let x: u128 = ((a.c[i] as u128) + (b.c[i] as u128)) % (q as u128);
        proof {
            lemma_mod_bound(a.c@[i as int] + b.c@[i as int], q as int);
        }
        c.push(x as u64);
        i += 1;
    }
    proof {
        assert(c@ =~= add_elem(a.c@, b.c@, q));
    }
    RingElem { c }
}

/// Componentwise multiplication modulo `q`.
pub fn ring_mul(a: &RingElem, b: &RingElem, q: u64) -> (r: RingElem)
    requires
        q >= 1,
        a.c@.len() == b.c@.len(),
    ensures
        r.c@ == mul_elem(a.c@, b.c@, q),
{
    let mut c: Vec<u64> = Vec::new();
    let mut i: usize = 0;
    while i < a.c.len()
        invariant
            q >= 1,
            i <= a.c@.len(),
            a.c@.len() == b.c@.len(),
            c@.len() == i,
            forall|j: int| 0 <= j < i ==> c@[j] == ((a.c@[j] * b.c@[j]) % (q as int)) as u64,
        decreases a.c@.len() - i,
    {
        proof {
            vstd::arithmetic::mul::lemma_mul_upper_bound(
                a.c@[i as int] as int,
                u64::MAX as int,
                b.c@[i as int] as int,
                u64::MAX as int,
            );
            lemma_mod_bound(a.c@[i as int] * b.c@[i as int], q as int);
        }
        let x: u128 = ((a.c[i] as u128) * (b.c[i] as u128)) % (q as u128);
        c.push(x as u64);
        i += 1;
    }
    proof {
        assert(c@ =~= mul_elem(a.c@, b.c@, q));
    }
    RingElem { c }
}

/// Ring-valued dot product of two equal-length vectors.
pub fn ring_dot(u: &Vec<RingElem>, v: &Vec<RingElem>, q: u64, d: usize) -> (r: RingElem)
    requires
        q >= 1,
        u@.len() == v@.len(),
        vec_dims(vec_view(u@), d as nat),
        vec_dims(vec_view(v@), d as nat),
    ensures
        r.c@ == dot_spec(vec_view(u@), vec_view(v@), q, d as nat),
        r.c@.len() == d,
{
    let ghost uu = vec_view(u@);
    let ghost vv = vec_view(v@);
    let mut acc = ring_zero(d);
    let mut i: usize = 0;
    proof {
        assert(uu.take(0) =~= Seq::<Seq<u64>>::empty());
        assert(vv.take(0) =~= Seq::<Seq<u64>>::empty());
    }
    while i < u.len()
        invariant
            q >= 1,
            i <= u@.len(),
            u@.len() == v@.len(),
            uu == vec_view(u@),
            vv == vec_view(v@),
            vec_dims(uu, d as nat),
            vec_dims(vv, d as nat),
            acc.c@.len() == d,
            acc.c@ == dot_spec(uu.take(i as int), vv.take(i as int), q, d as nat),
        decreases u@.len() - i,
    {
        proof {
            assert(uu[i as int] == u@[i as int].c@);
            assert(vv[i as int] == v@[i as int].c@);
        }
        let p = ring_mul(&u[i], &v[i], q);
        let acc2 = ring_add(&acc, &p, q);
        proof {
            let i1 = i + 1 as int;
            assert(uu.take(i1).drop_last() =~= uu.take(i as int));
            assert(vv.take(i1).drop_last() =~= vv.take(i as int));
            assert(uu.take(i1).last() == uu[i as int]);
            assert(vv.take(i1).last() == vv[i as int]);
        }
        acc = acc2;
        i += 1;
    }
    proof {
        assert(uu.take(u@.len() as int) =~= uu);
        assert(vv.take(v@.len() as int) =~= vv);
    }
    acc
}

/// Matrix-vector product: one dot product per row.
pub fn matvec(a: &Vec<Vec<RingElem>>, s: &Vec<RingElem>, q: u64, d: usize) -> (r: Vec<RingElem>)
    requires
        q >= 1,
        forall|i: int| 0 <= i < a@.len() ==> (#[trigger] a@[i])@.len() == s@.len(),
        forall|i: int| 0 <= i < a@.len() ==> vec_dims(vec_view(#[trigger] a@[i]@), d as nat),
        vec_dims(vec_view(s@), d as nat),
    ensures
        r@.len() == a@.len(),
        forall|i: int|
            0 <= i < a@.len() ==> (#[trigger] r@[i]).c@ == dot_spec(
                vec_view(a@[i]@),
                vec_view(s@),
                q,
                d as nat,
            ),
{
    let mut out: Vec<RingElem> = Vec::new();
    let mut i: usize = 0;
    while i < a.len()
        invariant
            q >= 1,
            i <= a@.len(),
            out@.len() == i,
            forall|k: int| 0 <= k < a@.len() ==> (#[trigger] a@[k])@.len() == s@.len(),
            forall|k: int| 0 <= k < a@.len() ==> vec_dims(vec_view(#[trigger] a@[k]@), d as nat),
            vec_dims(vec_view(s@), d as nat),
            forall|k: int|
                0 <= k < i ==> (#[trigger] out@[k]).c@ == dot_spec(
                    vec_view(a@[k]@),
                    vec_view(s@),
                    q,
                    d as nat,
                ),
        decreases a@.len() - i,
    {
        let row_dot = ring_dot(&a[i], s, q, d);
        out.push(row_dot);
        i += 1;
    }
    out
}

/// Equality test on ring elements.
pub fn elem_eq(a: &RingElem, b: &RingElem) -> (r: bool)
    ensures
        r == (a.c@ == b.c@),
{
    if a.c.len() != b.c.len() {
        return false;
    }
    let mut i: usize = 0;
    while i < a.c.len()
        invariant
            i <= a.c@.len(),
            a.c@.len() == b.c@.len(),
            forall|j: int| 0 <= j < i ==> a.c@[j] == b.c@[j],
        decreases a.c@.len() - i,
    {
        if a.c[i] != b.c[i] {
            return false;
        }
        i += 1;
    }
    proof {
        assert(a.c@ =~= b.c@);
    }
    true
}

// ---------------------------------------------------------------------------
// Squared-norm computation
// ---------------------------------------------------------------------------

proof fn lemma_elem_norm_sq_nonneg(e: Seq<u64>, q: u64)
    ensures
        elem_norm_sq(e, q) >= 0,
    decreases e.len(),
{
    if e.len() > 0 {
        lemma_elem_norm_sq_nonneg(e.drop_last(), q);
        let c = centered(e.last(), q);
        assert(c * c >= 0) by (nonlinear_arith);
    }
}

proof fn lemma_vec_norm_sq_nonneg(v: Seq<Seq<u64>>, q: u64)
    ensures
        vec_norm_sq(v, q) >= 0,
    decreases v.len(),
{
    if v.len() > 0 {
        lemma_vec_norm_sq_nonneg(v.drop_last(), q);
        lemma_elem_norm_sq_nonneg(v.last(), q);
    }
}

proof fn lemma_elem_norm_sq_prefix(e: Seq<u64>, q: u64, k: int)
    requires
        0 <= k <= e.len(),
    ensures
        elem_norm_sq(e, q) >= elem_norm_sq(e.take(k), q),
    decreases e.len(),
{
    if k == e.len() {
        assert(e.take(k) =~= e);
    } else {
        let c = centered(e.last(), q);
        assert(c * c >= 0) by (nonlinear_arith);
        assert(e.drop_last().take(k) =~= e.take(k));
        lemma_elem_norm_sq_prefix(e.drop_last(), q, k);
    }
}

proof fn lemma_vec_norm_sq_prefix(v: Seq<Seq<u64>>, q: u64, k: int)
    requires
        0 <= k <= v.len(),
    ensures
        vec_norm_sq(v, q) >= vec_norm_sq(v.take(k), q),
    decreases v.len(),
{
    if k == v.len() {
        assert(v.take(k) =~= v);
    } else {
        lemma_elem_norm_sq_nonneg(v.last(), q);
        assert(v.drop_last().take(k) =~= v.take(k));
        lemma_vec_norm_sq_prefix(v.drop_last(), q, k);
    }
}

/// Squared norm of the whole vector, or `None` when the exact value
/// exceeds `u128::MAX`.
pub fn norm_sq_checked(v: &Vec<RingElem>, q: u64) -> (r: Option<u128>)
    requires
        q >= 1,
        vec_lt(vec_view(v@), q),
    ensures
        match r {
            Some(x) => x as int == vec_norm_sq(vec_view(v@), q),
            None => vec_norm_sq(vec_view(v@), q) > u128::MAX,
        },
{
    let ghost vv = vec_view(v@);
    let mut acc: u128 = 0;
    let mut i: usize = 0;
    proof {
        assert(vv.take(0) =~= Seq::<Seq<u64>>::empty());
    }
    while i < v.len()
        invariant
            q >= 1,
            i <= v@.len(),
            vv == vec_view(v@),
            vec_lt(vv, q),
            acc as int == vec_norm_sq(vv.take(i as int), q),
        decreases v@.len() - i,
    {
        let e = &v[i];
        proof {
            assert(vv[i as int] == v@[i as int].c@);
        }
        let mut j: usize = 0;
        while j < e.c.len()
            invariant
                q >= 1,
                i < v@.len(),
                j <= e.c@.len(),
                vv == vec_view(v@),
                vec_lt(vv, q),
                e.c@ == vv[i as int],
                acc as int == vec_norm_sq(vv.take(i as int), q) + elem_norm_sq(
                    e.c@.take(j as int),
                    q,
                ),
            decreases e.c@.len() - j,
        {
            let x = e.c[j];
            proof {
                assert(elem_lt(vv[i as int], q));
                assert(x < q);
            }
            let big: bool = 2 * (x as u128) > (q as u128);
            let mag: u64 = if big {
                q - x
            } else {
                x
            };
            proof {
                let cx = centered(x, q);
                assert(cx * cx == (mag as int) * (mag as int)) by (nonlinear_arith)
                    requires
                        x < q,
                        cx == centered(x, q),
                        mag == if 2 * x > q {
                            (q - x) as u64
                        } else {
                            x
                        },
                ;
                vstd::arithmetic::mul::lemma_mul_upper_bound(
                    mag as int,
                    u64::MAX as int,
                    mag as int,
                    u64::MAX as int,
                );
            }
            let sq: u128 = (mag as u128) * (mag as u128);
            proof {
                let j1 = j + 1 as int;
                assert(e.c@.take(j1).drop_last() =~= e.c@.take(j as int));
                assert(e.c@.take(j1).last() == e.c@[j as int]);
            }
            if u128::MAX - acc < sq {
                proof {
                    lemma_vec_norm_sq_prefix(vv, q, i + 1 as int);
                    assert(vv.take(i + 1 as int).drop_last() =~= vv.take(i as int));
                    assert(vv.take(i + 1 as int).last() == vv[i as int]);
                    lemma_elem_norm_sq_prefix(vv[i as int], q, j + 1 as int);
                }
                return None;
            }
            acc = acc + sq;
            j += 1;
        }
        proof {
            assert(e.c@.take(e.c@.len() as int) =~= e.c@);
            let i1 = i + 1 as int;
            assert(vv.take(i1).drop_last() =~= vv.take(i as int));
            assert(vv.take(i1).last() == vv[i as int]);
        }
        i += 1;
    }
    proof {
        assert(vv.take(v@.len() as int) =~= vv);
    }
    Some(acc)
}

// ---------------------------------------------------------------------------
// Algebraic lemmas
// ---------------------------------------------------------------------------

/// Sums and products modulo a positive modulus stay below it.
pub proof fn lemma_add_elem_ok(a: Seq<u64>, b: Seq<u64>, q: u64, d: nat)
    requires
        q >= 1,
        a.len() == d,
        b.len() == d,
    ensures
        elem_ok(add_elem(a, b, q), q, d),
{
    assert forall|i: int| 0 <= i < d implies add_elem(a, b, q)[i] < q by {
        lemma_mod_bound(a[i] + b[i], q as int);
    }
}

pub proof fn lemma_mul_elem_ok(a: Seq<u64>, b: Seq<u64>, q: u64, d: nat)
    requires
        q >= 1,
        a.len() == d,
        b.len() == d,
    ensures
        elem_ok(mul_elem(a, b, q), q, d),
{
    assert forall|i: int| 0 <= i < d implies mul_elem(a, b, q)[i] < q by {
        vstd::arithmetic::mul::lemma_mul_upper_bound(
            a[i] as int,
            u64::MAX as int,
            b[i] as int,
            u64::MAX as int,
        );
        lemma_mod_bound(a[i] * b[i], q as int);
    }
}

/// Adding the zero element changes nothing.
pub proof fn lemma_add_elem_zero(e: Seq<u64>, q: u64, d: nat)
    requires
        q >= 1,
        elem_ok(e, q, d),
    ensures
        add_elem(e, zero_elem(d), q) == e,
        add_elem(zero_elem(d), e, q) == e,
{
    assert forall|i: int| 0 <= i < d implies (e[i] + 0) % (q as int) == e[i] by {
        lemma_small_mod(e[i] as nat, q as nat);
    }
    assert(add_elem(e, zero_elem(d), q) =~= e);
    assert(add_elem(zero_elem(d), e, q) =~= e);
}

/// Modular componentwise addition is associative.
pub proof fn lemma_add_elem_assoc(a: Seq<u64>, b: Seq<u64>, c: Seq<u64>, q: u64)
    requires
        q >= 1,
        a.len() == b.len(),
        b.len() == c.len(),
        elem_lt(a, q),
        elem_lt(c, q),
    ensures
        add_elem(add_elem(a, b, q), c, q) == add_elem(a, add_elem(b, c, q), q),
{
    assert forall|i: int|
        0 <= i < a.len() implies add_elem(add_elem(a, b, q), c, q)[i] == add_elem(
        a,
        add_elem(b, c, q),
        q,
    )[i] by {
        let qi = q as int;
        lemma_small_mod(c[i] as nat, q as nat);
        lemma_add_mod_noop(a[i] + b[i], c[i] as int, qi);
        lemma_small_mod(a[i] as nat, q as nat);
        lemma_add_mod_noop(a[i] as int, b[i] + c[i], qi);
    }
    assert(add_elem(add_elem(a, b, q), c, q) =~= add_elem(a, add_elem(b, c, q), q));
}

/// A dot product of well-dimensioned vectors is a well-formed element.
pub proof fn lemma_dot_ok(u: Seq<Seq<u64>>, v: Seq<Seq<u64>>, q: u64, d: nat)
    requires
        q >= 1,
        u.len() == v.len(),
        vec_dims(u, d),
        vec_dims(v, d),
    ensures
        elem_ok(dot_spec(u, v, q, d), q, d),
    decreases u.len(),
{
    if u.len() == 0 {
    } else {
        lemma_dot_ok(u.drop_last(), v.drop_last(), q, d);
        lemma_mul_elem_ok(u.last(), v.last(), q, d);
        lemma_add_elem_ok(
            dot_spec(u.drop_last(), v.drop_last(), q, d),
            mul_elem(u.last(), v.last(), q),
            q,
            d,
        );
    }
}

/// The dot product distributes over concatenation of the two vectors.
pub proof fn lemma_dot_append(
    u1: Seq<Seq<u64>>,
    v1: Seq<Seq<u64>>,
    u2: Seq<Seq<u64>>,
    v2: Seq<Seq<u64>>,
    q: u64,
    d: nat,
)
    requires
        q >= 1,
        u1.len() == v1.len(),
        u2.len() == v2.len(),
        vec_dims(u1, d),
        vec_dims(v1, d),
        vec_dims(u2, d),
        vec_dims(v2, d),
    ensures
        dot_spec(u1 + u2, v1 + v2, q, d) == add_elem(
            dot_spec(u1, v1, q, d),
            dot_spec(u2, v2, q, d),
            q,
        ),
    decreases u2.len(),
{
    if u2.len() == 0 {
        assert(u1 + u2 =~= u1);
        assert(v1 + v2 =~= v1);
        lemma_dot_ok(u1, v1, q, d);
        lemma_add_elem_zero(dot_spec(u1, v1, q, d), q, d);
    } else {
        let u2p = u2.drop_last();
        let v2p = v2.drop_last();
        assert((u1 + u2).drop_last() =~= u1 + u2p);
        assert((v1 + v2).drop_last() =~= v1 + v2p);
        assert((u1 + u2).last() == u2.last());
        assert((v1 + v2).last() == v2.last());
        lemma_dot_append(u1, v1, u2p, v2p, q, d);
        lemma_dot_ok(u1, v1, q, d);
        lemma_dot_ok(u2p, v2p, q, d);
        lemma_mul_elem_ok(u2.last(), v2.last(), q, d);
        lemma_add_elem_assoc(
            dot_spec(u1, v1, q, d),
            dot_spec(u2p, v2p, q, d),
            mul_elem(u2.last(), v2.last(), q),
            q,
        );
    }
}

/// The sum of the chunk-wise dot products of a split equals the dot
/// product of the whole vectors.
pub proof fn lemma_dot_split(u: Seq<Seq<u64>>, v: Seq<Seq<u64>>, q: u64, d: nat, wlen: nat, r: nat)
    requires
        q >= 1,
        u.len() == r * wlen,
        v.len() == r * wlen,
        vec_dims(u, d),
        vec_dims(v, d),
    ensures
        sum_spec(
            Seq::new(
                r,
                |j: int|
                    dot_spec(split_view(u, wlen, r)[j], split_view(v, wlen, r)[j], q, d),
            ),
            q,
            d,
        ) == dot_spec(u, v, q, d),
    decreases r,
{
    let s = Seq::new(
        r,
        |j: int| dot_spec(split_view(u, wlen, r)[j], split_view(v, wlen, r)[j], q, d),
    );
    if r == 0 {
        assert(r * wlen == 0) by (nonlinear_arith)
            requires
                r == 0,
        ;
        assert(u.len() == 0);
    } else {
        let r1 = (r - 1) as nat;
        assert(r * wlen == r1 * wlen + wlen) by (nonlinear_arith)
            requires
                r >= 1,
                r1 == r - 1,
        ;
        let cut = r1 * wlen;
        let u1 = u.take(cut as int);
        let u2 = u.skip(cut as int);
        let v1 = v.take(cut as int);
        let v2 = v.skip(cut as int);
        assert(u =~= u1 + u2);
        assert(v =~= v1 + v2);
        assert forall|j: int| 0 <= j < r1 implies split_view(u, wlen, r)[j] == split_view(
            u1,
            wlen,
            r1,
        )[j] && split_view(v, wlen, r)[j] == split_view(v1, wlen, r1)[j] by {
            vstd::arithmetic::mul::lemma_mul_nonnegative(j, wlen as int);
            vstd::arithmetic::mul::lemma_mul_is_distributive_add_other_way(wlen as int, j, 1);
            vstd::arithmetic::mul::lemma_mul_inequality(j + 1, r1 as int, wlen as int);
            assert(u.subrange(j * wlen, (j + 1) * wlen) =~= u1.subrange(j * wlen, (j + 1) * wlen));
            assert(v.subrange(j * wlen, (j + 1) * wlen) =~= v1.subrange(j * wlen, (j + 1) * wlen));
        }
        let s1 = Seq::new(
            r1,
            |j: int| dot_spec(split_view(u1, wlen, r1)[j], split_view(v1, wlen, r1)[j], q, d),
        );
        assert(s.drop_last() =~= s1);
        assert(split_view(u, wlen, r)[r - 1] =~= u2);
        assert(split_view(v, wlen, r)[r - 1] =~= v2);
        assert(s.last() == dot_spec(u2, v2, q, d));
        lemma_dot_split(u1, v1, q, d, wlen, r1);
        lemma_dot_append(u1, v1, u2, v2, q, d);
    }
}

/// Splitting the concatenation of well-dimensioned chunks gives the
/// chunks back.
pub proof fn lemma_split_concat(w: Seq<Seq<Seq<u64>>>, wlen: nat, r: nat)
    requires
        w.len() == r,
        forall|i: int| 0 <= i < w.len() ==> (#[trigger] w[i]).len() == wlen,
    ensures
        concat_view(w).len() == r * wlen,
        split_view(concat_view(w), wlen, r) == w,
    decreases r,
{
    if r == 0 {
        assert(r * wlen == 0) by (nonlinear_arith)
            requires
                r == 0,
        ;
        assert(split_view(concat_view(w), wlen, r) =~= w);
    } else {
        let r1 = (r - 1) as nat;
        let wp = w.drop_last();
        lemma_split_concat(wp, wlen, r1);
        assert(r * wlen == r1 * wlen + wlen) by (nonlinear_arith)
            requires
                r >= 1,
                r1 == r - 1,
        ;
        let cut = r1 * wlen;
        let full = concat_view(w);
        assert(full == concat_view(wp) + w.last());
        assert(full.len() == r * wlen);
        assert forall|j: int| 0 <= j < r implies split_view(full, wlen, r)[j] == w[j] by {
            vstd::arithmetic::mul::lemma_mul_nonnegative(j, wlen as int);
            vstd::arithmetic::mul::lemma_mul_is_distributive_add_other_way(wlen as int, j, 1);
            if j < r1 {
                vstd::arithmetic::mul::lemma_mul_inequality(j + 1, r1 as int, wlen as int);
                assert(full.subrange(j * wlen, (j + 1) * wlen) =~= concat_view(wp).subrange(
                    j * wlen,
                    (j + 1) * wlen,
                ));
                assert(split_view(concat_view(wp), wlen, r1)[j] == wp[j]);
            } else {
                assert(j == r1);
                assert(j * wlen == cut);
                assert((j + 1) * wlen == cut + wlen);
                assert(full.subrange(j * wlen, (j + 1) * wlen) =~= w.last());
            }
        }
        assert(split_view(full, wlen, r) =~= w);
    }
}

/// Multiplying the zero element by anything gives the zero element.
pub proof fn lemma_mul_elem_zero_left(b: Seq<u64>, q: u64, d: nat)
    requires
        q >= 1,
    ensures
        mul_elem(zero_elem(d), b, q) == zero_elem(d),
{
    assert forall|i: int| 0 <= i < d implies mul_elem(zero_elem(d), b, q)[i] == 0u64 by {
        assert(zero_elem(d)[i] == 0u64);
        assert((0 * b[i]) % (q as int) == 0) by {
            lemma_small_mod(0, q as nat);
        }
    }
    assert(mul_elem(zero_elem(d), b, q) =~= zero_elem(d));
}

/// The dot product of a vector of zero elements with anything is zero.
pub proof fn lemma_dot_zero_left(z: Seq<Seq<u64>>, v: Seq<Seq<u64>>, q: u64, d: nat)
    requires
        q >= 1,
        z.len() == v.len(),
        forall|i: int| 0 <= i < z.len() ==> #[trigger] z[i] == zero_elem(d),
    ensures
        dot_spec(z, v, q, d) == zero_elem(d),
    decreases z.len(),
{
    if z.len() == 0 {
    } else {
        lemma_dot_zero_left(z.drop_last(), v.drop_last(), q, d);
        lemma_mul_elem_zero_left(v.last(), q, d);
        assert(elem_ok(zero_elem(d), q, d));
        lemma_add_elem_zero(zero_elem(d), q, d);
    }
}

/// A sum of zero elements is the zero element.
pub proof fn lemma_sum_zeros(xs: Seq<Seq<u64>>, q: u64, d: nat)
    requires
        q >= 1,
        forall|i: int| 0 <= i < xs.len() ==> #[trigger] xs[i] == zero_elem(d),
    ensures
        sum_spec(xs, q, d) == zero_elem(d),
    decreases xs.len(),
{
    if xs.len() == 0 {
    } else {
        lemma_sum_zeros(xs.drop_last(), q, d);
        assert(elem_ok(zero_elem(d), q, d));
        lemma_add_elem_zero(zero_elem(d), q, d);
    }
}

} // verus!
