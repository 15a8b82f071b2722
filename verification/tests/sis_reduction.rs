use sis_fold::ring::{matvec, norm_sq_checked, RingElem};
use sis_fold::sis_relation::{derive_split, to_principal_relation, SISInstance};
use sis_fold::prover::prove;
use sis_fold::verification::{verify, VerifyError};
use sis_fold::reducer::IdentityReducer;

fn lcg_next(state: &mut u64) -> u64 {
    *state = state
        .wrapping_mul(6364136223846793005)
        .wrapping_add(1442695040888963407);
    *state >> 16
}

fn random_elem(state: &mut u64, q: u64, d: usize) -> RingElem {
    let mut c = Vec::new();
    for _ in 0..d {
        c.push(lcg_next(state) % q);
    }
    RingElem { c }
}

/// A short element whose residues encode values drawn from [-bound, bound).
fn random_short_elem(state: &mut u64, q: u64, d: usize, bound: i64) -> RingElem {
    let mut c = Vec::new();
    for _ in 0..d {
        let v = (lcg_next(state) % (2 * bound as u64)) as i64 - bound;
        let residue = if v < 0 { q - ((-v) as u64) } else { v as u64 };
        c.push(residue);
    }
    RingElem { c }
}

/// A random SIS instance over the two-factor ring modulus
/// 4294967297 = 641 * 6700417, with a short secret.
fn random_sis_instance(m: usize, n: usize) -> SISInstance {
    let q: u64 = 4294967297;
    let d: usize = 64;
    let norm_bound_squared: u128 = 65536;
    let mut state: u64 = 0x5deece66d;
    let mut a = Vec::new();
    for _ in 0..m {
        let mut row = Vec::new();
        for _ in 0..n {
            row.push(random_elem(&mut state, q, d));
        }
        a.push(row);
    }
    let mut s = Vec::new();
    for _ in 0..n {
        s.push(random_short_elem(&mut state, q, d, 2));
    }
    let t = matvec(&a, &s, q, d);
    SISInstance::new(m, n, q, d, a, t, norm_bound_squared, s)
        .expect("Failed to create SIS instance")
}

#[test]
fn test_sis_reduction_proof() {
    let m = 4;
    let n = 128;
    println!("begin generate random sis instance");
    let sis = random_sis_instance(m, n);
    let proofs = prove(&sis, &IdentityReducer).expect("Fail to Prove");

    let sum: usize = proofs.iter().map(|x| x.len()).sum();
    println!(
        "Proof generated successfully! Proof size: {:.1} KB",
        sum as f64 / 1024.0
    );

    let result = verify(&proofs, &sis, &IdentityReducer);
    assert!(result.is_ok());
    println!("Proof verified successfully!");
}

fn small_instance_parts() -> (usize, usize, u64, usize, Vec<Vec<RingElem>>, Vec<RingElem>, Vec<RingElem>) {
    // m = 2, n = 8, d = 2, q = 97; secret of all-ones
    let q: u64 = 97;
    let d: usize = 2;
    let m: usize = 2;
    let n: usize = 8;
    let mut state: u64 = 42;
    let mut a = Vec::new();
    for _ in 0..m {
        let mut row = Vec::new();
        for _ in 0..n {
            row.push(random_elem(&mut state, q, d));
        }
        a.push(row);
    }
    let mut s = Vec::new();
    for _ in 0..n {
        s.push(RingElem { c: vec![1, 1] });
    }
    let t = matvec(&a, &s, q, d);
    (m, n, q, d, a, t, s)
}

#[test]
fn test_construction_accepts_satisfied_instance() {
    let (m, n, q, d, a, t, s) = small_instance_parts();
    // |s|^2 = n * d = 16 exactly
    assert!(SISInstance::new(m, n, q, d, a, t, 16, s).is_ok());
}

#[test]
fn test_construction_rejects_wrong_target() {
    let (m, n, q, d, a, mut t, s) = small_instance_parts();
    t[0].c[0] = (t[0].c[0] + 1) % q;
    assert!(SISInstance::new(m, n, q, d, a, t, 16, s).is_err());
}

#[test]
fn test_construction_rejects_norm_over_bound() {
    let (m, n, q, d, a, t, s) = small_instance_parts();
    // |s|^2 = 16, so a bound of 15 must fail
    assert!(SISInstance::new(m, n, q, d, a, t, 15, s).is_err());
}

#[test]
fn test_construction_rejects_dimension_mismatch() {
    let (m, n, q, d, a, t, mut s) = small_instance_parts();
    s.pop();
    assert!(SISInstance::new(m, n, q, d, a, t, 16, s).is_err());
}

#[test]
fn test_norm_is_exact() {
    let q: u64 = 97;
    // residues 1, 96 (= -1), 2: squared norm 1 + 1 + 4 = 6
    let v = vec![RingElem { c: vec![1, 96, 2] }];
    assert_eq!(norm_sq_checked(&v, q), Some(6));
}

#[test]
fn test_matvec_exact_value() {
    let q: u64 = 17;
    let d: usize = 1;
    let a = vec![vec![RingElem { c: vec![3] }, RingElem { c: vec![5] }]];
    let s = vec![RingElem { c: vec![2] }, RingElem { c: vec![1] }];
    let t = matvec(&a, &s, q, d);
    // 3 * 2 + 5 * 1 = 11 (mod 17)
    assert_eq!(t[0].c, vec![11]);
}

#[test]
fn test_split_consistency_cases() {
    // cube root of 128 is 5, largest divisor of 128 at most 5 is 4
    assert_eq!(derive_split(128), (4, 32));
    // 27 = 3^3
    assert_eq!(derive_split(27), (3, 9));
    // 7 is prime with cube root 1
    assert_eq!(derive_split(7), (1, 7));
    assert_eq!(derive_split(64), (4, 16));
    assert_eq!(derive_split(100), (4, 25));
    assert_eq!(derive_split(1), (1, 1));
}

#[test]
fn test_round_count_and_determinism() {
    let sis = random_sis_instance(4, 128);
    // n = 128 gives r = 4, so two fold rounds plus the terminal reveal
    let (chain, index, instance, witness) = to_principal_relation(&sis);
    assert_eq!(chain.len(), 3);
    let proofs = prove(&sis, &IdentityReducer).expect("Fail to Prove");
    assert_eq!(proofs.len(), chain.len());

    // re-running the reduction yields the identical structure
    let (chain2, index2, instance2, witness2) = to_principal_relation(&sis);
    assert_eq!(chain, chain2);
    assert_eq!(index, index2);
    assert_eq!(
        instance.quad_dot_prod_funcs.len(),
        instance2.quad_dot_prod_funcs.len()
    );
    for (c1, c2) in instance
        .quad_dot_prod_funcs
        .iter()
        .zip(instance2.quad_dot_prod_funcs.iter())
    {
        assert_eq!(c1.b.c, c2.b.c);
        assert_eq!(c1.phi.len(), c2.phi.len());
    }
    assert_eq!(witness.s.len(), witness2.s.len());
    for (w1, w2) in witness.s.iter().zip(witness2.s.iter()) {
        for (e1, e2) in w1.iter().zip(w2.iter()) {
            assert_eq!(e1.c, e2.c);
        }
    }
}

#[test]
fn test_tamper_terminal_byte_rejected() {
    let sis = random_sis_instance(4, 128);
    let proofs = prove(&sis, &IdentityReducer).expect("Fail to Prove");
    assert!(verify(&proofs, &sis, &IdentityReducer).is_ok());

    let last = proofs.len() - 1;
    // flip the low byte of the first residue: the relation check fails
    let mut tampered = proofs.clone();
    tampered[last][0] ^= 1;
    assert!(verify(&tampered, &sis, &IdentityReducer).is_err());

    // force a residue past the modulus: extraction itself fails
    let mut oversized = proofs.clone();
    for b in oversized[last][0..8].iter_mut() {
        *b = 0xff;
    }
    assert_eq!(
        verify(&oversized, &sis, &IdentityReducer),
        Err(VerifyError::TranscriptMismatch)
    );
}

#[test]
fn test_wrong_entry_count_rejected() {
    let sis = random_sis_instance(4, 128);
    let proofs = prove(&sis, &IdentityReducer).expect("Fail to Prove");
    let mut short = proofs.clone();
    short.pop();
    assert_eq!(
        verify(&short, &sis, &IdentityReducer),
        Err(VerifyError::TranscriptMismatch)
    );
}

#[test]
fn test_nonempty_round_entry_rejected() {
    let sis = random_sis_instance(4, 128);
    let proofs = prove(&sis, &IdentityReducer).expect("Fail to Prove");
    // the built-in reducer writes no round message, so extra bytes in a
    // fold-round entry must be rejected by that round
    let mut padded = proofs.clone();
    padded[0].push(0);
    assert_eq!(
        verify(&padded, &sis, &IdentityReducer),
        Err(VerifyError::ReductionFailure)
    );
}

#[test]
fn test_truncated_terminal_entry_rejected() {
    let sis = random_sis_instance(4, 128);
    let mut proofs = prove(&sis, &IdentityReducer).expect("Fail to Prove");
    let last = proofs.len() - 1;
    proofs[last].pop();
    assert_eq!(
        verify(&proofs, &sis, &IdentityReducer),
        Err(VerifyError::TranscriptMismatch)
    );
}
