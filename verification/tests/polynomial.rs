use leandas::fri::{check_rs_membership, fri_fold_evaluations};
use leandas::polynomial::{rs_encode, Domain, Polynomial};
use leandas::{EF, F};

#[test]
fn test_polynomial_evaluate_constant() {
    let p = Polynomial::new(vec![F::from_u8(42)]);
    assert_eq!(p.evaluate(F::zero()), F::from_u8(42));
    assert_eq!(p.evaluate(F::one()), F::from_u8(42));
    assert_eq!(p.evaluate(F::two()), F::from_u8(42));
}

#[test]
fn test_polynomial_evaluate_linear() {
    // p(x) = 3 + 5x
    let p = Polynomial::new(vec![F::from_u8(3), F::from_u8(5)]);
    assert_eq!(p.evaluate(F::zero()), F::from_u8(3));
    assert_eq!(p.evaluate(F::one()), F::from_u8(8));
    assert_eq!(p.evaluate(F::two()), F::from_u8(13));
}

#[test]
fn test_polynomial_evaluate_quadratic() {
    // p(x) = 1 + 2x + 3x^2
    let p = Polynomial::new(vec![F::from_u8(1), F::from_u8(2), F::from_u8(3)]);
    // p(0) = 1, p(1) = 6, p(2) = 1 + 4 + 12 = 17
    assert_eq!(p.evaluate(F::zero()), F::from_u8(1));
    assert_eq!(p.evaluate(F::one()), F::from_u8(6));
    assert_eq!(p.evaluate(F::two()), F::from_u8(17));
}

#[test]
fn test_domain_generator_is_primitive_root() {
    let domain = Domain::new(32);
    assert_eq!(domain.elements.len(), 32);
    assert_eq!(domain.elements[0], F::one());
    // omega^32 should be 1 (wraps around).
    let omega_32 = domain.generator.exp_u64(32);
    assert_eq!(omega_32, F::one());
    // omega^16 should NOT be 1 (primitive, not just any root).
    let omega_16 = domain.generator.exp_u64(16);
    assert_ne!(omega_16, F::one());
}

#[test]
fn test_domain_elements_distinct() {
    let domain = Domain::new(16);
    let mut seen = std::collections::HashSet::new();
    for &e in &domain.elements {
        assert!(seen.insert(e.as_canonical_u32()), "duplicate domain element");
    }
}

#[test]
fn test_rs_encode_constant() {
    // Degree-0 polynomial: p(x) = 7. All evaluations should be 7.
    let cw = rs_encode(&[F::from_u8(7)], 16);
    assert_eq!(cw.len(), 16);
    for &v in &cw.evals {
        assert_eq!(v, F::from_u8(7));
    }
}

#[test]
fn test_rs_encode_linear() {
    // p(x) = 1 + 2x on domain of size 8.
    let cw = rs_encode(&[F::from_u8(1), F::from_u8(2)], 8);
    assert_eq!(cw.len(), 8);

    // Verify against direct polynomial evaluation.
    let domain = Domain::new(8);
    let poly = Polynomial::new(vec![F::from_u8(1), F::from_u8(2)]);
    for (i, &omega_i) in domain.elements.iter().enumerate() {
        assert_eq!(cw.evals[i], poly.evaluate(omega_i));
    }
}

#[test]
fn test_rs_encode_degree_bound() {
    // Degree-3 polynomial on domain of size 32 (rate 4/32 = 1/8).
    let msg = vec![F::from_u8(1), F::from_u8(2), F::from_u8(3), F::from_u8(4)];
    let cw = rs_encode(&msg, 32);
    assert_eq!(cw.len(), 32);

    // First evaluation (at omega^0 = 1): sum of coefficients.
    let expected_at_one = F::from_u8(1)
        .add(F::from_u8(2))
        .add(F::from_u8(3))
        .add(F::from_u8(4));
    assert_eq!(cw.evals[0], expected_at_one);
}

#[test]
fn test_rs_encode_fri_foldable() {
    // Encode a degree-< k polynomial on domain of size n = 2k.
    // After FRI folding (log2(n) rounds), the result should be constant.

    let k = 16;
    let n = 32;
    let msg: Vec<F> = (0..k).map(|i| F::from_usize(i + 1)).collect();
    let cw = rs_encode(&msg, n);

    // Embed into extension field for FRI.
    let evals_ef: Vec<EF> = cw.evals.iter().map(|&v| EF::from(v)).collect();

    // Generate deterministic challenges.
    let num_rounds = n.ilog2() as usize;
    let challenges: Vec<EF> = (0..num_rounds)
        .map(|i| EF::from(F::from_usize(i * 7 + 3)))
        .collect();

    let result = fri_fold_evaluations(&evals_ef, &challenges);

    // For a valid RS codeword (degree < n/2 = 16), after full folding
    // to a single value, the result is just a constant. We verify it's
    // well-defined (non-panic).
    let _ = result;
}

#[test]
fn test_non_rs_codeword_detected_by_fri() {
    // An arbitrary non-RS vector should fail the membership check.

    let n = 16;
    let evals: Vec<EF> = (0..n).map(|i| EF::from(F::from_usize(i * 17 + 3))).collect();
    let challenges: Vec<EF> = (0..10)
        .map(|i| EF::from(F::from_usize(i * 13 + 7)))
        .collect();
    assert!(!check_rs_membership(&evals, &challenges));
}
