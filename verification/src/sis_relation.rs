//! The SIS instance (`A * s == t` with a bound on `|s|^2`) and its
//! reduction to a principal relation: witness-split derivation, constraint
//! construction, and the CRS chain.

use vstd::prelude::*;
use vstd::arithmetic::div_mod::{lemma_mod_bound, lemma_fundamental_div_mod};
use vstd::arithmetic::mul::{
    lemma_mul_inequality, lemma_mul_nonnegative, lemma_mul_is_distributive_add_other_way,
};
use crate::ring::{
    RingElem, dot_spec, sum_spec, mul_elem, vec_view, vec_dims, vec_lt, vec_ok, elem_lt, elem_ok, zero_elem,
    vec_norm_sq, split_view, elem_copy, ring_zero, ring_dot, elem_eq, norm_sq_checked,
    lemma_dot_split, lemma_dot_zero_left, lemma_sum_zeros, lemma_mul_elem_zero_left,
    lemma_add_elem_zero,
};
use crate::relation::{
    Index, CrsNode, QuadraticConstraint, ConstantQuadraticConstraint, Instance, Witness,
    LinConView, CtConView, InstanceView, lin_view, ct_view, inst_view, wit_view, splits_view,
    splits_dims, splits_lt, lin_dims, ct_dims, inst_dims, lin_sat, ct_sat, ct_eval, rel_sat,
    check_splits_dims, check_splits_lt,
};

verus! {

// ---------------------------------------------------------------------------
// Witness-split parameters
// ---------------------------------------------------------------------------

/// Largest `c >= start` reachable by stepping while `(c+1)^3 <= n`.
pub open spec fn cbrt_from(n: nat, c: nat) -> nat
    decreases n - c,
{
    if c < n && (c + 1) * (c + 1) * (c + 1) <= n {
        cbrt_from(n, c + 1)
    } else {
        c
    }
}

/// The integer cube root of `n`, for `n >= 1`.
pub open spec fn cube_target(n: nat) -> nat {
    cbrt_from(n, 1)
}

/// The largest divisor of `n` that is at most `k` (at least 1).
pub open spec fn largest_divisor_le(n: nat, k: nat) -> nat
    decreases k,
{
    if k <= 1 {
        1
    } else if n % k == 0 {
        k
    } else {
        largest_divisor_le(n, (k - 1) as nat)
    }
}

/// The derived number of split witnesses for a secret of length `n`.
pub open spec fn num_witnesses_spec(n: nat) -> nat {
    largest_divisor_le(n, cube_target(n))
}

/// The derived length of each split witness.
pub open spec fn witness_len_spec(n: nat) -> nat {
    n / num_witnesses_spec(n)
}

proof fn lemma_cbrt_from(n: nat, c: nat)
    requires
        1 <= c <= n,
        c * c * c <= n,
    ensures
        c <= cbrt_from(n, c) <= n,
        cbrt_from(n, c) * cbrt_from(n, c) * cbrt_from(n, c) <= n,
        (cbrt_from(n, c) + 1) * (cbrt_from(n, c) + 1) * (cbrt_from(n, c) + 1) > n,
    decreases n - c,
{
    if c < n && (c + 1) * (c + 1) * (c + 1) <= n {
        lemma_cbrt_from(n, c + 1);
    } else {
        if c >= n {
            assert((c + 1) * (c + 1) * (c + 1) > n) by (nonlinear_arith)
                requires
                    c >= n,
                    n >= 1,
            ;
        }
    }
}

proof fn lemma_largest_divisor(n: nat, k: nat)
    requires
        1 <= n,
        1 <= k,
    ensures
        1 <= largest_divisor_le(n, k) <= k,
        n % largest_divisor_le(n, k) == 0,
        forall|j: nat| largest_divisor_le(n, k) < j <= k ==> #[trigger] (n % j) != 0,
    decreases k,
{
    if k <= 1 {
        lemma_mod_bound(n as int, 1);
    } else if n % k == 0 {
    } else {
        lemma_largest_divisor(n, (k - 1) as nat);
    }
}

/// Split consistency: the derived witness count divides `n` exactly, is no
/// larger than the integer cube root of `n`, is maximal among divisors up
/// to that root, and recombines with the witness length to give `n`.
pub proof fn lemma_split_consistency(n: nat)
    requires
        1 <= n,
    ensures
        1 <= num_witnesses_spec(n) <= cube_target(n),
        cube_target(n) <= n,
        cube_target(n) * cube_target(n) * cube_target(n) <= n,
        n % num_witnesses_spec(n) == 0,
        num_witnesses_spec(n) * witness_len_spec(n) == n,
        witness_len_spec(n) <= n,
        forall|j: nat| num_witnesses_spec(n) < j <= cube_target(n) ==> #[trigger] (n % j) != 0,
{
    lemma_cbrt_from(n, 1);
    lemma_largest_divisor(n, cube_target(n));
    let r = num_witnesses_spec(n);
    let w = witness_len_spec(n);
    lemma_fundamental_div_mod(n as int, r as int);
    lemma_mul_inequality(1, r as int, w as int);
    vstd::arithmetic::mul::lemma_mul_basics(w as int);
}

fn next_cube_le(c: usize, n: usize) -> (b: bool)
    requires
        1 <= c <= n,
        (c as nat) * (c as nat) * (c as nat) <= n as nat,
    ensures
        b == ((c as nat + 1) * (c as nat + 1) * (c as nat + 1) <= n as nat),
{
    proof {
        assert(usize::MAX as nat <= 0xFFFF_FFFF_FFFF_FFFFnat);
        assert(c < 0x40000000) by (nonlinear_arith)
            requires
                (c as nat) * (c as nat) * (c as nat) <= n as nat,
                n as nat <= 0xFFFF_FFFF_FFFF_FFFFnat,
                c >= 1,
        ;
        let cv = c as int + 1;
        assert(cv * cv <= 0x1000000000000000) by (nonlinear_arith)
            requires
                1 <= cv <= 0x40000000,
        ;
        assert(cv * cv * cv <= 0x40000000000000000000000) by (nonlinear_arith)
            requires
                1 <= cv <= 0x40000000,
                cv * cv <= 0x1000000000000000,
        ;
    }
    let c1: u128 = (c as u128) + 1;
    let cube: u128 = c1 * c1 * c1;
    cube <= n as u128
}

fn cube_target_exec(n: usize) -> (c: usize)
    requires
        n >= 1,
    ensures
        c as nat == cube_target(n as nat),
        1 <= c <= n,
        (c as nat) * (c as nat) * (c as nat) <= n as nat,
{
    let mut c: usize = 1;
    while c < n && next_cube_le(c, n)
        invariant
            1 <= c <= n,
            (c as nat) * (c as nat) * (c as nat) <= n as nat,
            cbrt_from(n as nat, c as nat) == cube_target(n as nat),
        decreases n - c,
    {
        c = c + 1;
    }
    proof {
        assert(cbrt_from(n as nat, c as nat) == c as nat);
    }
    c
}

/// Derives `(num_witnesses, witness_len)` from the secret length `n`.
pub fn derive_split(n: usize) -> (res: (usize, usize))
    requires
        n >= 1,
    ensures
        res.0 as nat == num_witnesses_spec(n as nat),
        res.1 as nat == witness_len_spec(n as nat),
        1 <= res.0 <= n,
        (res.0 as nat) * (res.1 as nat) == n as nat,
{
    let t = cube_target_exec(n);
    let mut k: usize = t;
    while k > 1 && n % k != 0
        invariant
            1 <= k <= t,
            t <= n,
            largest_divisor_le(n as nat, k as nat) == largest_divisor_le(n as nat, t as nat),
        decreases k,
    {
        k = k - 1;
    }
    proof {
        assert(largest_divisor_le(n as nat, k as nat) == k as nat);
        lemma_split_consistency(n as nat);
    }
    let wlen = n / k;
    (k, wlen)
}

/// The number of fold rounds budgeted for `r` split witnesses.
pub open spec fn log2_floor(r: nat) -> nat
    decreases r,
{
    if r < 2 {
        0
    } else {
        1 + log2_floor(r / 2)
    }
}

proof fn lemma_log2_lt(r: nat)
    requires
        r >= 1,
    ensures
        log2_floor(r) < r,
    decreases r,
{
    if r >= 2 {
        lemma_log2_lt(r / 2);
    }
}

fn rounds_exec(r: usize) -> (k: usize)
    requires
        r >= 1,
    ensures
        k as nat == log2_floor(r as nat),
        k < r || (r == 1 && k == 0),
{
    let mut x: usize = r;
    let mut k: usize = 0;
    proof {
        lemma_log2_lt(r as nat);
    }
    while x >= 2
        invariant
            1 <= x <= r,
            k as nat + log2_floor(x as nat) == log2_floor(r as nat),
            log2_floor(r as nat) < r,
        decreases x,
    {
        x = x / 2;
        k = k + 1;
    }
    k
}

// ---------------------------------------------------------------------------
// The SIS instance
// ---------------------------------------------------------------------------

/// A Short Integer Solution instance over `Z_q^d`: a public matrix `a`
/// of `m` rows and `n` columns, a public target `t = a * s`, and a
/// secret `s` whose squared norm is bounded by `norm_bound_squared`.
#[derive(Debug)]
pub struct SISInstance {
    /// row count of `a`
    pub m: usize,
    /// column count of `a`
    pub n: usize,
    /// modulus of the base ring
    pub q: u64,
    /// ring dimension (residues per element)
    pub d: usize,
    /// commitment matrix
    pub a: Vec<Vec<RingElem>>,
    /// target vector
    pub t: Vec<RingElem>,
    /// exact bound on the squared norm of `s`
    pub norm_bound_squared: u128,
    /// the secret witness
    pub s: Vec<RingElem>,
}

/// The construction invariant of a SIS instance.
pub open spec fn sis_satisfied(sis: SISInstance) -> bool {
    &&& sis.q >= 2
    &&& sis.d >= 1
    &&& sis.n >= 1
    &&& sis.t@.len() == sis.m
    &&& sis.s@.len() == sis.n
    &&& splits_dims(splits_view(sis.a@), sis.m as nat, sis.n as nat, sis.d as nat)
    &&& splits_lt(splits_view(sis.a@), sis.q)
    &&& vec_ok(vec_view(sis.t@), sis.q, sis.d as nat)
    &&& vec_ok(vec_view(sis.s@), sis.q, sis.d as nat)
    &&& vec_norm_sq(vec_view(sis.s@), sis.q) <= sis.norm_bound_squared
    &&& forall|i: int|
        0 <= i < sis.m ==> dot_spec(vec_view(sis.a@[i]@), vec_view(sis.s@), sis.q, sis.d as nat)
            == (#[trigger] sis.t@[i]).c@
}

impl SISInstance {
    /// Builds an instance, failing unless every invariant holds: the
    /// dimensions agree, `|s|^2 <= norm_bound_squared`, and `a * s == t`.
    pub fn new(
        m: usize,
        n: usize,
        q: u64,
        d: usize,
        a: Vec<Vec<RingElem>>,
        t: Vec<RingElem>,
        norm_bound_squared: u128,
        s: Vec<RingElem>,
    ) -> (res: Result<Self, &'static str>)
        ensures
            ({
                let cand = (SISInstance { m, n, q, d, a, t, norm_bound_squared, s });
                match res {
                    Ok(inst) => inst == cand && sis_satisfied(cand),
                    Err(_) => !sis_satisfied(cand),
                }
            }),
    {
        let instance = SISInstance { m, n, q, d, a, t, norm_bound_squared, s };
        if !instance.is_satisfied() {
            Err("SISInstance is not satisfied")
        } else {
            Ok(instance)
        }
    }

    fn is_satisfied(&self) -> (b: bool)
        ensures
            b == sis_satisfied(*self),
    {
        if self.q < 2 || self.d < 1 || self.n < 1 {
            return false;
        }
        if self.t.len() != self.m || self.s.len() != self.n {
            return false;
        }
        if !check_splits_dims(&self.a, self.m, self.n, self.d) {
            return false;
        }
        if !check_splits_lt(&self.a, self.q) {
            return false;
        }
        if !check_vec_ok(&self.t, self.q, self.d) {
            return false;
        }
        if !check_vec_ok(&self.s, self.q, self.d) {
            return false;
        }
        match norm_sq_checked(&self.s, self.q) {
            None => {
                return false;
            },
            Some(norm) => {
                if norm > self.norm_bound_squared {
                    return false;
                }
            },
        }
        let mut i: usize = 0;
        while i < self.m
            invariant
                i <= self.m,
                self.q >= 1,
                self.a@.len() == self.m,
                self.s@.len() == self.n,
                self.t@.len() == self.m,
                splits_dims(splits_view(self.a@), self.m as nat, self.n as nat, self.d as nat),
                vec_dims(vec_view(self.s@), self.d as nat),
                forall|j: int|
                    0 <= j < i ==> dot_spec(
                        vec_view(self.a@[j]@),
                        vec_view(self.s@),
                        self.q,
                        self.d as nat,
                    ) == (#[trigger] self.t@[j]).c@,
            decreases self.m - i,
        {
            proof {
                assert(splits_view(self.a@)[i as int] == vec_view(self.a@[i as int]@));
            }
            let row_dot = ring_dot(&self.a[i], &self.s, self.q, self.d);
            if !elem_eq(&row_dot, &self.t[i]) {
                return false;
            }
            i += 1;
        }
        true
    }
}

/// Well-formedness check for a flat vector of ring elements.
fn check_vec_ok(v: &Vec<RingElem>, q: u64, d: usize) -> (b: bool)
    ensures
        b == vec_ok(vec_view(v@), q, d as nat),
{
    let mut i: usize = 0;
    while i < v.len()
        invariant
            i <= v@.len(),
            forall|j: int|
                0 <= j < i ==> (#[trigger] vec_view(v@)[j]).len() == d && elem_lt(
                    vec_view(v@)[j],
                    q,
                ),
        decreases v@.len() - i,
    {
        let e = &v[i];
        if e.c.len() != d {
            proof {
                assert(vec_view(v@)[i as int].len() != d);
            }
            return false;
        }
        let mut k: usize = 0;
        while k < e.c.len()
            invariant
                k <= e.c@.len(),
                i < v@.len(),
                e.c@ == v@[i as int].c@,
                forall|t: int| 0 <= t < k ==> e.c@[t] < q,
            decreases e.c@.len() - k,
        {
            if e.c[k] >= q {
                proof {
                    assert(vec_view(v@)[i as int] == v@[i as int].c@);
                    assert(!elem_lt(vec_view(v@)[i as int], q));
                }
                return false;
            }
            k += 1;
        }
        proof {
            assert(vec_view(v@)[i as int] == v@[i as int].c@);
        }
        i += 1;
    }
    true
}

// ---------------------------------------------------------------------------
// The reduction
// ---------------------------------------------------------------------------

/// The index derived from a SIS instance.
pub open spec fn index_spec(sis: SISInstance) -> Index {
    Index {
        num_witnesses: num_witnesses_spec(sis.n as nat) as usize,
        witness_len: witness_len_spec(sis.n as nat) as usize,
        norm_bound_squared: sis.norm_bound_squared,
        num_constraints: sis.m,
        num_constant_constraints: 1,
    }
}

/// The CRS chain derived from a SIS instance: one node per fold round
/// plus the terminal node, each sized to the split parameters.
pub open spec fn chain_spec(sis: SISInstance) -> Seq<CrsNode> {
    Seq::new(
        log2_floor(num_witnesses_spec(sis.n as nat)) + 1,
        |i: int|
            CrsNode {
                n: witness_len_spec(sis.n as nat) as usize,
                r: num_witnesses_spec(sis.n as nat) as usize,
            },
    )
}

/// The all-zero constant quadratic constraint of the derived instance.
pub open spec fn zero_ct_spec(sis: SISInstance) -> CtConView {
    CtConView {
        quad: Seq::new(
            num_witnesses_spec(sis.n as nat),
            |i: int| Seq::new(num_witnesses_spec(sis.n as nat), |j: int| zero_elem(sis.d as nat)),
        ),
        phi: Seq::new(
            num_witnesses_spec(sis.n as nat),
            |i: int| Seq::new(witness_len_spec(sis.n as nat), |j: int| zero_elem(sis.d as nat)),
        ),
        b: zero_elem(sis.d as nat),
    }
}

/// The instance derived from a SIS instance: one linear constraint per
/// row of `a`, with the row split into chunks, plus the zero constant
/// constraint.
pub open spec fn inst_spec(sis: SISInstance) -> InstanceView {
    InstanceView {
        lin: Seq::new(
            sis.m as nat,
            |i: int|
                LinConView {
                    phi: split_view(
                        vec_view(sis.a@[i]@),
                        witness_len_spec(sis.n as nat),
                        num_witnesses_spec(sis.n as nat),
                    ),
                    b: sis.t@[i].c@,
                },
        ),
        ct: seq![zero_ct_spec(sis)],
    }
}

/// The split witness derived from a SIS instance.
pub open spec fn wit_spec(sis: SISInstance) -> Seq<Seq<Seq<u64>>> {
    split_view(
        vec_view(sis.s@),
        witness_len_spec(sis.n as nat),
        num_witnesses_spec(sis.n as nat),
    )
}

/// Splits a vector of `r * wlen` elements into `r` chunks of `wlen`.
fn split_vector(v: &Vec<RingElem>, r: usize, wlen: usize) -> (res: Vec<Vec<RingElem>>)
    requires
        v@.len() == (r as nat) * (wlen as nat),
    ensures
        res@.len() == r,
        splits_view(res@) == split_view(vec_view(v@), wlen as nat, r as nat),
{
    let mut out: Vec<Vec<RingElem>> = Vec::new();
    let mut j: usize = 0;
    let mut pos: usize = 0;
    let total = v.len();
    while j < r
        invariant
            j <= r,
            pos == (j as int) * (wlen as int),
            v@.len() == total,
            v@.len() == (r as nat) * (wlen as nat),
            out@.len() == j,
            forall|t: int|
                0 <= t < j ==> vec_view((#[trigger] out@[t])@) == split_view(
                    vec_view(v@),
                    wlen as nat,
                    r as nat,
                )[t],
        decreases r - j,
    {
        proof {
            lemma_mul_nonnegative(j as int, wlen as int);
            lemma_mul_is_distributive_add_other_way(wlen as int, j as int, 1);
            lemma_mul_inequality(j as int + 1, r as int, wlen as int);
        }
        let mut chunk: Vec<RingElem> = Vec::new();
        let mut k: usize = 0;
        while k < wlen
            invariant
                k <= wlen,
                j < r,
                pos == (j as int) * (wlen as int) + k,
                (j as int) * (wlen as int) + wlen == (j as int + 1) * (wlen as int),
                (j as int + 1) * (wlen as int) <= (r as int) * (wlen as int),
                0 <= (j as int) * (wlen as int),
                v@.len() == total,
                v@.len() == (r as nat) * (wlen as nat),
                chunk@.len() == k,
                forall|t: int|
                    0 <= t < k ==> (#[trigger] chunk@[t]).c@ == v@[(j as int) * (wlen as int)
                        + t].c@,
            decreases wlen - k,
        {
            let e = elem_copy(&v[pos]);
            chunk.push(e);
            pos += 1;
            k += 1;
        }
        proof {
            let jj = j as int;
            let ww = wlen as int;
            assert(vec_view(chunk@) =~= vec_view(v@).subrange(jj * ww, (jj + 1) * ww));
            assert(split_view(vec_view(v@), wlen as nat, r as nat)[jj] == vec_view(v@).subrange(
                jj * ww,
                (jj + 1) * ww,
            ));
        }
        out.push(chunk);
        j += 1;
    }
    proof {
        assert forall|t: int| 0 <= t < r implies #[trigger] splits_view(out@)[t] == split_view(
            vec_view(v@),
            wlen as nat,
            r as nat,
        )[t] by {
            assert(splits_view(out@)[t] == vec_view(out@[t]@));
        }
        assert(splits_view(out@) =~= split_view(vec_view(v@), wlen as nat, r as nat));
    }
    out
}

/// Builds a `rows x cols` block of zero elements.
fn zero_splits(rows: usize, cols: usize, d: usize) -> (res: Vec<Vec<RingElem>>)
    ensures
        res@.len() == rows,
        splits_view(res@) == Seq::new(
            rows as nat,
            |i: int| Seq::new(cols as nat, |j: int| zero_elem(d as nat)),
        ),
{
    let mut out: Vec<Vec<RingElem>> = Vec::new();
    let mut i: usize = 0;
    while i < rows
        invariant
            i <= rows,
            out@.len() == i,
            forall|t: int|
                0 <= t < i ==> vec_view((#[trigger] out@[t])@) == Seq::new(
                    cols as nat,
                    |j: int| zero_elem(d as nat),
                ),
        decreases rows - i,
    {
        let mut row: Vec<RingElem> = Vec::new();
        let mut j: usize = 0;
        while j < cols
            invariant
                j <= cols,
                row@.len() == j,
                forall|t: int| 0 <= t < j ==> (#[trigger] row@[t]).c@ == zero_elem(d as nat),
            decreases cols - j,
        {
            row.push(ring_zero(d));
            j += 1;
        }
        proof {
            assert(vec_view(row@) =~= Seq::new(cols as nat, |t: int| zero_elem(d as nat)));
        }
        out.push(row);
        i += 1;
    }
    proof {
        assert forall|t: int| 0 <= t < rows implies #[trigger] splits_view(out@)[t] == Seq::new(
            cols as nat,
            |j: int| zero_elem(d as nat),
        ) by {
            assert(splits_view(out@)[t] == vec_view(out@[t]@));
        }
        assert(splits_view(out@) =~= Seq::new(
            rows as nat,
            |t: int| Seq::new(cols as nat, |j: int| zero_elem(d as nat)),
        ));
    }
    out
}

/// Reduces a satisfied SIS instance to its CRS chain, index, principal
/// relation instance, and split witness.
pub fn to_principal_relation(sis: &SISInstance) -> (res: (Vec<CrsNode>, Index, Instance, Witness))
    requires
        sis_satisfied(*sis),
    ensures
        res.0@ == chain_spec(*sis),
        res.1 == index_spec(*sis),
        inst_view(res.2) == inst_spec(*sis),
        wit_view(res.3) == wit_spec(*sis),
{
    let (r, wlen) = derive_split(sis.n);
    let rounds = rounds_exec(r);
    proof {
        lemma_log2_lt(r as nat);
    }
    let mut chain: Vec<CrsNode> = Vec::new();
    let mut ci: usize = 0;
    while ci < rounds + 1
        invariant
            ci <= rounds + 1,
            chain@.len() == ci,
            rounds < usize::MAX,
            forall|t: int| 0 <= t < ci ==> chain@[t] == (CrsNode { n: wlen, r }),
        decreases rounds + 1 - ci,
    {
        chain.push(CrsNode { n: wlen, r });
        ci += 1;
    }
    let index = Index {
        num_witnesses: r,
        witness_len: wlen,
        norm_bound_squared: sis.norm_bound_squared,
        num_constraints: sis.m,
        num_constant_constraints: 1,
    };
    let mut lin: Vec<QuadraticConstraint> = Vec::new();
    let mut i: usize = 0;
    while i < sis.m
        invariant
            i <= sis.m,
            lin@.len() == i,
            sis_satisfied(*sis),
            r as nat == num_witnesses_spec(sis.n as nat),
            wlen as nat == witness_len_spec(sis.n as nat),
            (r as nat) * (wlen as nat) == sis.n as nat,
            forall|t: int| 0 <= t < i ==> #[trigger] lin_view(lin@[t]) == inst_spec(*sis).lin[t],
        decreases sis.m - i,
    {
        proof {
            assert(splits_view(sis.a@)[i as int] == vec_view(sis.a@[i as int]@));
        }
        let phi = split_vector(&sis.a[i], r, wlen);
        let b = elem_copy(&sis.t[i]);
        let con = QuadraticConstraint { phi, b };
        proof {
            assert(lin_view(con) =~= inst_spec(*sis).lin[i as int]);
        }
        lin.push(con);
        i += 1;
    }
    let zq = zero_splits(r, r, sis.d);
    let zphi = zero_splits(r, wlen, sis.d);
    let zb = ring_zero(sis.d);
    let ct = ConstantQuadraticConstraint { quad: zq, phi: zphi, b: zb };
    proof {
        assert(ct_view(ct) =~= zero_ct_spec(*sis));
    }
    let mut cts: Vec<ConstantQuadraticConstraint> = Vec::new();
    cts.push(ct);
    let instance = Instance { quad_dot_prod_funcs: lin, ct_quad_dot_prod_funcs: cts };
    let witness = Witness { s: split_vector(&sis.s, r, wlen) };
    proof {
        assert(chain@ =~= chain_spec(*sis));
        assert(inst_view(instance).lin =~= inst_spec(*sis).lin);
        assert(inst_view(instance).ct =~= inst_spec(*sis).ct);
        assert(inst_view(instance) =~= inst_spec(*sis));
    }
    (chain, index, instance, witness)
}

// ---------------------------------------------------------------------------
// Construction invariant carried through the reduction
// ---------------------------------------------------------------------------

proof fn lemma_split_chunks_ok(v: Seq<Seq<u64>>, q: u64, d: nat, wlen: nat, r: nat)
    requires
        v.len() == r * wlen,
        vec_dims(v, d),
        vec_lt(v, q),
    ensures
        splits_dims(split_view(v, wlen, r), r, wlen, d),
        splits_lt(split_view(v, wlen, r), q),
{
    assert forall|j: int|
        0 <= j < r implies (#[trigger] split_view(v, wlen, r)[j]).len() == wlen && vec_dims(
        split_view(v, wlen, r)[j],
        d,
    ) && vec_lt(split_view(v, wlen, r)[j], q) by {
        lemma_mul_nonnegative(j, wlen as int);
        lemma_mul_is_distributive_add_other_way(wlen as int, j, 1);
        lemma_mul_inequality(j + 1, r as int, wlen as int);
        let ch = split_view(v, wlen, r)[j];
        assert(ch == v.subrange(j * wlen, (j + 1) * wlen));
        assert forall|t: int| 0 <= t < ch.len() implies (#[trigger] ch[t]).len() == d && elem_lt(
            ch[t],
            q,
        ) by {
            assert(ch[t] == v[j * wlen + t]);
        }
    }
}

/// A satisfied SIS instance reduces to a principal relation whose derived
/// witness has the prescribed dimensions, stays below the modulus, and
/// satisfies every derived constraint.
pub proof fn lemma_reduction_satisfied(sis: SISInstance)
    requires
        sis_satisfied(sis),
    ensures
        inst_dims(inst_spec(sis), index_spec(sis), sis.d as nat),
        splits_dims(
            wit_spec(sis),
            index_spec(sis).num_witnesses as nat,
            index_spec(sis).witness_len as nat,
            sis.d as nat,
        ),
        splits_lt(wit_spec(sis), sis.q),
        rel_sat(inst_spec(sis), wit_spec(sis), sis.q, sis.d as nat),
{
    let nn = sis.n as nat;
    let dd = sis.d as nat;
    let r = num_witnesses_spec(nn);
    let w = witness_len_spec(nn);
    let idx = index_spec(sis);
    let iv = inst_spec(sis);
    let wv = wit_spec(sis);
    lemma_split_consistency(nn);
    assert(idx.num_witnesses as nat == r);
    assert(idx.witness_len as nat == w);
    let sv = vec_view(sis.s@);
    // chunk dimensions and bounds
    lemma_split_chunks_ok(sv, sis.q, dd, w, r);
    assert(splits_dims(wv, r, w, dd));
    assert(splits_lt(wv, sis.q));
    // linear constraints: split dot products recombine to the row product
    assert forall|i: int| 0 <= i < iv.lin.len() implies lin_sat(#[trigger] iv.lin[i], wv, sis.q, dd)
        && lin_dims(iv.lin[i], r, w, dd) by {
        let rv = vec_view(sis.a@[i]@);
        assert(splits_view(sis.a@)[i] == rv);
        assert(vec_dims(rv, dd) && vec_lt(rv, sis.q) && rv.len() == nn);
        lemma_split_chunks_ok(rv, sis.q, dd, w, r);
        lemma_dot_split(rv, sv, sis.q, dd, w, r);
        assert(Seq::new(
            iv.lin[i].phi.len(),
            |k: int| dot_spec(iv.lin[i].phi[k], wv[k], sis.q, dd),
        ) =~= Seq::new(
            r,
            |k: int| dot_spec(split_view(rv, w, r)[k], split_view(sv, w, r)[k], sis.q, dd),
        ));
        assert(dot_spec(rv, sv, sis.q, dd) == sis.t@[i].c@);
        assert(elem_ok(sis.t@[i].c@, sis.q, dd)) by {
            assert(vec_view(sis.t@)[i] == sis.t@[i].c@);
        }
    }
    // the constant constraint is identically zero
    let zc = zero_ct_spec(sis);
    assert forall|i: int| 0 <= i < iv.ct.len() implies ct_sat(#[trigger] iv.ct[i], wv, sis.q, dd)
        && ct_dims(iv.ct[i], r, w, dd) by {
        assert(iv.ct[i] == zc);
        assert forall|a: int| 0 <= a < r implies (#[trigger] zc.quad[a]).len() == r && vec_dims(
            zc.quad[a],
            dd,
        ) by {
            assert(forall|t: int| 0 <= t < r ==> #[trigger] zc.quad[a][t] == zero_elem(dd));
        }
        assert forall|a: int| 0 <= a < r implies (#[trigger] zc.phi[a]).len() == w && vec_dims(
            zc.phi[a],
            dd,
        ) by {
            assert(forall|t: int| 0 <= t < w ==> #[trigger] zc.phi[a][t] == zero_elem(dd));
        }
        assert(ct_dims(zc, r, w, dd));
        let qterms = Seq::new(
            zc.quad.len(),
            |a: int|
                sum_spec(
                    Seq::new(
                        zc.quad[a].len(),
                        |b2: int|
                            mul_elem(zc.quad[a][b2], dot_spec(wv[a], wv[b2], sis.q, dd), sis.q),
                    ),
                    sis.q,
                    dd,
                ),
        );
        assert forall|a: int| 0 <= a < qterms.len() implies #[trigger] qterms[a] == zero_elem(
            dd,
        ) by {
            let inner = Seq::new(
                zc.quad[a].len(),
                |b2: int| mul_elem(zc.quad[a][b2], dot_spec(wv[a], wv[b2], sis.q, dd), sis.q),
            );
            assert forall|b2: int| 0 <= b2 < inner.len() implies #[trigger] inner[b2] == zero_elem(
                dd,
            ) by {
                lemma_mul_elem_zero_left(dot_spec(wv[a], wv[b2], sis.q, dd), sis.q, dd);
            }
            lemma_sum_zeros(inner, sis.q, dd);
        }
        lemma_sum_zeros(qterms, sis.q, dd);
        let lterms = Seq::new(zc.phi.len(), |a: int| dot_spec(zc.phi[a], wv[a], sis.q, dd));
        assert forall|a: int| 0 <= a < lterms.len() implies #[trigger] lterms[a] == zero_elem(
            dd,
        ) by {
            assert(forall|t: int| 0 <= t < zc.phi[a].len() ==> #[trigger] zc.phi[a][t] == zero_elem(dd));
            assert(zc.phi[a].len() == wv[a].len());
            lemma_dot_zero_left(zc.phi[a], wv[a], sis.q, dd);
        }
        lemma_sum_zeros(lterms, sis.q, dd);
        assert(elem_ok(zero_elem(dd), sis.q, dd));
        lemma_add_elem_zero(zero_elem(dd), sis.q, dd);
        assert(ct_eval(zc, wv, sis.q, dd) == zero_elem(dd));
    }
    assert(inst_dims(iv, idx, dd));
}

} // verus!
