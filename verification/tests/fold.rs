use leandas::fold::{
    apply_folding_plan, apply_folding_plan_base, check_rs_precomputed, fold_iterative,
    is_constant, precompute_folding_plan, FoldedLayer,
};
use leandas::polynomial::{rs_encode, Domain, Polynomial};
use leandas::{EF, F};

fn embed(cw: &[F]) -> Vec<EF> {
    cw.iter().map(|&v| EF::from(v)).collect()
}

/// A fixed nonzero beta for tests.
fn test_beta() -> EF {
    EF::from_basis_coefficients_slice(&[
        F::from_u8(7),
        F::from_u8(13),
        F::from_u8(3),
        F::from_u8(19),
        F::from_u8(11),
    ])
    .unwrap()
}

// ── Plan structure tests ─────────────────────────────────────────

#[test]
fn test_plan_n8_d2() {
    let plan = precompute_folding_plan(8, 2);
    assert_eq!(plan.num_rounds, 1);
    assert_eq!(plan.num_outputs, 4);
    assert_eq!(plan.stride, 4);
    assert_eq!(plan.coeffs.len(), 2); // t+1 = 2 layers
    assert_eq!(plan.coeffs[0].len(), 4); // 4 outputs
    assert_eq!(plan.coeffs[0][0].len(), 2); // d=2 ancestors
}

#[test]
fn test_plan_n16_d4() {
    let plan = precompute_folding_plan(16, 4);
    assert_eq!(plan.num_rounds, 2);
    assert_eq!(plan.num_outputs, 4);
    assert_eq!(plan.coeffs.len(), 3); // t+1 = 3
    assert_eq!(plan.coeffs[0][0].len(), 4); // d=4
}

#[test]
fn test_plan_n32_d8() {
    let plan = precompute_folding_plan(32, 8);
    assert_eq!(plan.num_rounds, 3);
    assert_eq!(plan.num_outputs, 4);
    assert_eq!(plan.coeffs.len(), 4); // t+1 = 4
    assert_eq!(plan.coeffs[0][0].len(), 8); // d=8
}

// ── Direct vs iterative agreement ────────────────────────────────

#[test]
fn test_direct_vs_iterative_n8_d2() {
    let cw: Vec<EF> = (0..8).map(|i| EF::from(F::from_usize(i * 17 + 3))).collect();
    let beta = test_beta();
    let plan = precompute_folding_plan(8, 2);
    let direct = apply_folding_plan(&plan, &cw, beta);
    let iterative = fold_iterative(&cw, 1, beta);
    assert_eq!(direct.values, iterative);
}

#[test]
fn test_direct_vs_iterative_n16_d4() {
    let cw: Vec<EF> = (0..16).map(|i| EF::from(F::from_usize(i * 13 + 7))).collect();
    let beta = test_beta();
    let plan = precompute_folding_plan(16, 4);
    let direct = apply_folding_plan(&plan, &cw, beta);
    let iterative = fold_iterative(&cw, 2, beta);
    assert_eq!(direct.values, iterative);
}

#[test]
fn test_direct_vs_iterative_n32_d8() {
    let cw: Vec<EF> = (0..32).map(|i| EF::from(F::from_usize(i * 11 + 5))).collect();
    let beta = test_beta();
    let plan = precompute_folding_plan(32, 8);
    let direct = apply_folding_plan(&plan, &cw, beta);
    let iterative = fold_iterative(&cw, 3, beta);
    assert_eq!(direct.values, iterative);
}

#[test]
fn test_direct_vs_iterative_n64_d16() {
    let cw: Vec<EF> = (0..64).map(|i| EF::from(F::from_usize(i * 7 + 1))).collect();
    let beta = test_beta();
    let plan = precompute_folding_plan(64, 16);
    let direct = apply_folding_plan(&plan, &cw, beta);
    let iterative = fold_iterative(&cw, 4, beta);
    assert_eq!(direct.values, iterative);
}

// ── RS membership (valid codewords) ──────────────────────────────

#[test]
fn test_constant_polynomial_passes() {
    let cw = rs_encode(&[F::from_u8(42)], 8);
    assert!(check_rs_precomputed(&embed(&cw.evals), 2, test_beta()));
}

#[test]
fn test_linear_polynomial_passes_d2() {
    let cw = rs_encode(&[F::from_u8(1), F::from_u8(2)], 8);
    assert!(check_rs_precomputed(&embed(&cw.evals), 2, test_beta()));
}

#[test]
fn test_degree3_passes_d4() {
    let msg: Vec<F> = (1..=4).map(|i| F::from_u8(i)).collect();
    let cw = rs_encode(&msg, 16);
    assert!(check_rs_precomputed(&embed(&cw.evals), 4, test_beta()));
}

#[test]
fn test_degree7_passes_d8() {
    let msg: Vec<F> = (1..=8).map(|i| F::from_usize(i)).collect();
    let cw = rs_encode(&msg, 32);
    assert!(check_rs_precomputed(&embed(&cw.evals), 8, test_beta()));
}

#[test]
fn test_max_degree_passes() {
    let beta = test_beta();
    for (n, d) in [(8, 2), (16, 4), (32, 8), (64, 16)] {
        let msg: Vec<F> = (1..=d).map(|i| F::from_usize(i)).collect();
        let cw = rs_encode(&msg, n);
        assert!(
            check_rs_precomputed(&embed(&cw.evals), d, beta),
            "degree-{} polynomial should pass d={d} check on N={n}",
            d - 1
        );
    }
}

// ── RS membership (invalid codewords) ────────────────────────────

#[test]
fn test_random_vector_rejected() {
    let cw: Vec<EF> = (0..32).map(|i| EF::from(F::from_usize(i * 17 + 3))).collect();
    assert!(!check_rs_precomputed(&cw, 8, test_beta()));
}

#[test]
fn fold_test_tampered_codeword_rejected() {
    let msg: Vec<F> = (1..=4).map(|i| F::from_usize(i)).collect();
    let mut cw = rs_encode(&msg, 16);
    cw.evals[3] = cw.evals[3].add(F::one());
    assert!(!check_rs_precomputed(&embed(&cw.evals), 4, test_beta()));
}

// ── Soundness: β≠0 fixes the gap ────────────────────────────────

#[test]
fn test_soundness_x5_rejected_with_random_beta() {
    // f(x) = x^5 on N=8, d=4. With β=0 this was a false positive.
    // With random β, the odd part is properly tested and this is rejected.
    let domain = Domain::new(8);
    let poly = Polynomial::new(vec![
        F::zero(), F::zero(), F::zero(), F::zero(), F::zero(), F::one(),
    ]);
    let evals: Vec<EF> = domain
        .elements
        .iter()
        .map(|&x| EF::from(poly.evaluate(x)))
        .collect();

    assert!(
        !check_rs_precomputed(&evals, 4, test_beta()),
        "x^5 should be rejected with random beta"
    );
}

#[test]
fn test_soundness_x1_rejected_d1_n8() {
    // f(x) = x has degree 1 ≥ 1, fold with d=1 means 0 rounds.
    // d=1 is a degenerate case: no folding, just check if the codeword
    // itself is constant. x evaluations are not constant.
    let cw = rs_encode(&[F::zero(), F::one()], 8);
    let evals = embed(&cw.evals);
    assert!(!is_constant(&FoldedLayer { values: evals }));
}

// ── β=0 regression: should degenerate to uniform averaging ───────

#[test]
fn test_beta_zero_gives_uniform_average() {
    let cw: Vec<EF> = (0..16).map(|i| EF::from(F::from_usize(i + 1))).collect();
    let plan = precompute_folding_plan(16, 4);
    let layer = apply_folding_plan(&plan, &cw, EF::zero());

    // With β=0, only coeffs[0] contributes: uniform 1/d average.
    let d = 4usize;
    let stride = 4;
    let weight = EF::from(F::from_usize(d).inverse());
    for i in 0..plan.num_outputs {
        let mut expected = EF::zero();
        for s in 0..d {
            expected = expected.add(cw[i + s * stride]);
        }
        expected = weight.mul(expected);
        assert_eq!(layer.values[i], expected, "β=0 output[{i}] mismatch");
    }
}

// ── Algebraic identity: degree < d folds to constant a_0 ────────

#[test]
fn test_low_degree_folds_to_constant() {
    // For degree < d, the folded layer is constant regardless of β.
    // With β≠0, the constant value depends on β (not just a_0).
    let beta = test_beta();
    let msg = vec![F::from_u8(7), F::from_u8(11), F::from_u8(3), F::from_u8(5)];
    let cw = rs_encode(&msg, 16);
    let plan = precompute_folding_plan(16, 4);
    let layer = apply_folding_plan_base(&plan, &cw.evals, beta);

    assert!(is_constant(&layer), "degree < d should fold to constant");

    // With β=0, the constant IS a_0.
    let layer_beta0 = apply_folding_plan_base(&plan, &cw.evals, EF::zero());
    let a0 = EF::from(F::from_u8(7));
    for (i, &v) in layer_beta0.values.iter().enumerate() {
        assert_eq!(v, a0, "β=0 output[{i}] should be a_0");
    }
}

// ── Coefficient sanity: coeffs[0] rows sum to 1/d ────────────────

#[test]
fn test_coeffs_k0_rows_sum_to_one() {
    // The k=0 coefficients are the β=0 weights. Since β=0 folding is
    // averaging (each round divides by 2), the total weight sums to 1.
    for (n, d) in [(8, 2), (16, 4), (32, 8)] {
        let plan = precompute_folding_plan(n, d);
        for i in 0..plan.num_outputs {
            let row_sum: F = plan.coeffs[0][i].iter().fold(F::zero(), |acc, &c| acc.add(c));
            assert_eq!(
                row_sum, F::one(),
                "coeffs[0][{i}] should sum to 1 for N={n}, d={d}"
            );
        }
    }
}

// ── Property: direct and iterative always agree ──────────────────

#[test]
fn test_agreement_on_rs_codewords() {
    let beta = test_beta();
    for (n, d) in [(8, 2), (8, 4), (16, 4), (16, 8), (32, 8), (32, 16), (64, 16)] {
        let msg: Vec<F> = (0..d).map(|i| F::from_usize(i * 7 + 3)).collect();
        let cw = rs_encode(&msg, n);
        let evals = embed(&cw.evals);

        let plan = precompute_folding_plan(n, d);
        let direct = apply_folding_plan(&plan, &evals, beta);
        let iterative = fold_iterative(&evals, plan.num_rounds, beta);

        assert_eq!(
            direct.values, iterative,
            "direct vs iterative mismatch for N={n}, d={d}"
        );
    }
}

#[test]
fn test_agreement_on_arbitrary_vectors() {
    let beta = test_beta();
    for n in [8, 16, 32] {
        for d in [2, 4, 8] {
            if d > n {
                continue;
            }
            let cw: Vec<EF> = (0..n)
                .map(|i| EF::from(F::from_usize(i * 31 + 17)))
                .collect();
            let plan = precompute_folding_plan(n, d);
            let direct = apply_folding_plan(&plan, &cw, beta);
            let iterative = fold_iterative(&cw, plan.num_rounds, beta);
            assert_eq!(
                direct.values, iterative,
                "mismatch for N={n}, d={d} on arbitrary vector"
            );
        }
    }
}

#[test]
fn test_agreement_with_multiple_betas() {
    // Verify agreement for several different beta values.
    let cw: Vec<EF> = (0..16).map(|i| EF::from(F::from_usize(i * 13 + 7))).collect();
    let plan = precompute_folding_plan(16, 4);

    let betas = [
        EF::zero(),
        EF::one(),
        EF::from(F::two()),
        test_beta(),
        EF::from(F::from_usize(12345)),
    ];

    for beta in betas {
        let direct = apply_folding_plan(&plan, &cw, beta);
        let iterative = fold_iterative(&cw, 2, beta);
        assert_eq!(direct.values, iterative);
    }
}

// ── Edge cases ───────────────────────────────────────────────────

#[test]
fn test_degree_1_is_identity() {
    // d=1 means 0 fold rounds: the output IS the input.
    let cw: Vec<EF> = (0..8).map(|i| EF::from(F::from_usize(i))).collect();
    let plan = precompute_folding_plan(8, 1);
    assert_eq!(plan.num_rounds, 0);
    assert_eq!(plan.num_outputs, 8);
    assert_eq!(plan.coeffs.len(), 1); // only coeffs[0]
    let layer = apply_folding_plan(&plan, &cw, test_beta());
    assert_eq!(layer.values, cw);
}

#[test]
fn test_degree_equals_n_folds_to_one() {
    // d=N means log2(N) folds, single output.
    let n = 8;
    let cw: Vec<EF> = (0..n).map(|i| EF::from(F::from_usize(i + 1))).collect();
    let beta = test_beta();
    let plan = precompute_folding_plan(n, n);
    assert_eq!(plan.num_rounds, 3);
    assert_eq!(plan.num_outputs, 1);
    let layer = apply_folding_plan(&plan, &cw, beta);

    // Compare with iterative.
    let iterative = fold_iterative(&cw, 3, beta);
    assert_eq!(layer.values, iterative);
    assert!(is_constant(&layer)); // trivially: 1 element
}
