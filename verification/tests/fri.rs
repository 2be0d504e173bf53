use leandas::commitment::commit_codeword;
use leandas::fri::{
    check_rs_membership, check_rs_membership_iterative, compute_inv_twiddles,
    fri_fold_evaluations, fri_fold_round,
};
use leandas::polynomial::rs_encode;
use leandas::rlc::{compute_rlc, derive_challenge};
use leandas::{Codeword, EF, F};

/// A compression function for tests: three rounds of cubing and mixing over both digests.
fn toy_hash(l: [F; 8], r: [F; 8]) -> [F; 8] {
    let mut s: Vec<F> = l.iter().chain(r.iter()).copied().collect();
    for round in 0..3usize {
        for i in 0..16 {
            let x = s[i].add(F::from_usize(31 * round + i + 1));
            let cube = x.mul(x).mul(x);
            let neighbour = s[(i + 5) % 16].mul(F::from_usize(i + 2));
            s[(i + 1) % 16] = s[(i + 1) % 16].add(cube).add(neighbour);
        }
    }
    let mut d = [F::zero(); 8];
    for i in 0..8 {
        d[i] = s[i].add(s[i + 8].mul(F::from_usize(3)));
    }
    d
}

#[test]
fn test_fold_constant_polynomial() {
    // A constant polynomial p(x) = c has evals [c, c, c, c].
    // After folding, the result should be c regardless of challenge.
    let c = EF::from(F::from_u8(42));
    let evals = vec![c; 4];
    let challenges = vec![EF::from(F::from_u8(7)), EF::from(F::from_u8(13))];

    let result = fri_fold_evaluations(&evals, &challenges);
    assert_eq!(result, c);
}

#[test]
fn test_fold_round_halves_size() {
    let n = 8;
    let omega = F::two_adic_generator(3); // 8th root
    let inv_tw = compute_inv_twiddles(omega, 4);
    let evals = vec![EF::one(); n];
    let folded = fri_fold_round(&evals, EF::one(), &inv_tw);
    assert_eq!(folded.len(), 4);
}

#[test]
fn test_check_rs_membership_valid() {
    // A valid RS codeword (from a degree-< n/2 polynomial) should pass.
    let msg: Vec<F> = (0..8).map(|i| F::from_usize(i + 1)).collect();
    let cw = rs_encode(&msg, 32); // degree < 8 < 32/2 = 16 ✓
    let evals: Vec<EF> = cw.evals.iter().map(|&v| EF::from(v)).collect();

    let challenges: Vec<EF> = (0..10)
        .map(|i| EF::from(F::from_usize(i * 7 + 3)))
        .collect();
    assert!(check_rs_membership(&evals, &challenges));
}

#[test]
fn test_check_rs_membership_valid_max_degree() {
    // Degree exactly n/2 - 1 (the maximum for rate 1/2 RS).
    let k = 16; // degree < 16
    let n = 32; // domain size
    let msg: Vec<F> = (0..k).map(|i| F::from_usize(i + 1)).collect();
    let cw = rs_encode(&msg, n);
    let evals: Vec<EF> = cw.evals.iter().map(|&v| EF::from(v)).collect();

    let challenges: Vec<EF> = (0..10)
        .map(|i| EF::from(F::from_usize(i * 7 + 3)))
        .collect();
    assert!(check_rs_membership(&evals, &challenges));
}

#[test]
fn test_check_rs_membership_invalid() {
    // An arbitrary non-RS vector should fail with high probability.
    let evals: Vec<EF> = (0..16)
        .map(|i| EF::from(F::from_usize(i * 17 + 3)))
        .collect();

    let challenges: Vec<EF> = (0..10)
        .map(|i| EF::from(F::from_usize(i * 13 + 7)))
        .collect();
    assert!(!check_rs_membership(&evals, &challenges));
}

#[test]
fn test_fri_full_fold_valid_polynomial() {
    // Full fold of a valid codeword should return a well-defined value.
    let msg: Vec<F> = (0..4).map(|i| F::from_usize(i + 1)).collect();
    let cw = rs_encode(&msg, 16);
    let evals: Vec<EF> = cw.evals.iter().map(|&v| EF::from(v)).collect();

    let challenges: Vec<EF> = (0..4)
        .map(|i| EF::from(F::from_usize(i * 3 + 1)))
        .collect();
    let result = fri_fold_evaluations(&evals, &challenges);

    // The result should be deterministic.
    let result2 = fri_fold_evaluations(&evals, &challenges);
    assert_eq!(result, result2);
}

// ── Twiddle-free fold tests ──────────────────────────────────────

#[test]
fn test_iterative_constant_polynomial() {
    let c = EF::from(F::from_u8(42));
    let evals = vec![c; 8];
    let challenges: Vec<EF> = (0..5).map(|i| EF::from(F::from_usize(i + 1))).collect();
    assert!(check_rs_membership_iterative(&evals, &challenges));
}

#[test]
fn test_iterative_valid_rs_degree4() {
    let msg: Vec<F> = (0..4).map(|i| F::from_usize(i + 1)).collect();
    let cw = rs_encode(&msg, 32);
    let evals: Vec<EF> = cw.evals.iter().map(|&v| EF::from(v)).collect();
    let challenges: Vec<EF> = (0..10)
        .map(|i| EF::from(F::from_usize(i * 7 + 3)))
        .collect();
    assert!(check_rs_membership_iterative(&evals, &challenges));
}

#[test]
fn test_iterative_valid_rs_degree8() {
    let msg: Vec<F> = (0..8).map(|i| F::from_usize(i + 1)).collect();
    let cw = rs_encode(&msg, 32);
    let evals: Vec<EF> = cw.evals.iter().map(|&v| EF::from(v)).collect();
    let challenges: Vec<EF> = (0..10)
        .map(|i| EF::from(F::from_usize(i * 7 + 3)))
        .collect();
    assert!(check_rs_membership_iterative(&evals, &challenges));
}

#[test]
fn test_iterative_valid_rs_max_degree() {
    // degree exactly n/2 - 1 (maximum for rate 1/2 RS)
    let k = 16;
    let n = 32;
    let msg: Vec<F> = (0..k).map(|i| F::from_usize(i + 1)).collect();
    let cw = rs_encode(&msg, n);
    let evals: Vec<EF> = cw.evals.iter().map(|&v| EF::from(v)).collect();
    let challenges: Vec<EF> = (0..10)
        .map(|i| EF::from(F::from_usize(i * 7 + 3)))
        .collect();
    assert!(check_rs_membership_iterative(&evals, &challenges));
}

#[test]
fn test_iterative_invalid_rs_rejected() {
    let n = 16;
    let evals: Vec<EF> = (0..n)
        .map(|i| EF::from(F::from_usize(i * 17 + 3)))
        .collect();
    let challenges: Vec<EF> = (0..10)
        .map(|i| EF::from(F::from_usize(i * 13 + 7)))
        .collect();
    assert!(!check_rs_membership_iterative(&evals, &challenges));
}

#[test]
fn test_iterative_tampered_codeword_rejected() {
    let msg: Vec<F> = (0..8).map(|i| F::from_usize(i + 1)).collect();
    let mut cw = rs_encode(&msg, 32);
    cw.evals[5] = cw.evals[5].add(F::one()); // tamper one evaluation
    let evals: Vec<EF> = cw.evals.iter().map(|&v| EF::from(v)).collect();
    let challenges: Vec<EF> = (0..10)
        .map(|i| EF::from(F::from_usize(i * 7 + 3)))
        .collect();
    assert!(!check_rs_membership_iterative(&evals, &challenges));
}

#[test]
fn test_iterative_agrees_with_standard_on_validity() {
    // Both fold variants should agree on RS membership for valid codewords.
    for degree in [1, 4, 8, 15] {
        let n = 32;
        let msg: Vec<F> = (0..degree).map(|i| F::from_usize(i + 1)).collect();
        let cw = rs_encode(&msg, n);
        let evals: Vec<EF> = cw.evals.iter().map(|&v| EF::from(v)).collect();
        let challenges: Vec<EF> = (0..10)
            .map(|i| EF::from(F::from_usize(i * 7 + 3)))
            .collect();
        assert!(
            check_rs_membership(&evals, &challenges),
            "standard fold should accept degree {degree}"
        );
        assert!(
            check_rs_membership_iterative(&evals, &challenges),
            "twiddle-free fold should accept degree {degree}"
        );
    }
}

#[test]
fn test_iterative_agrees_with_standard_on_invalidity() {
    // Both fold variants should agree on rejection.
    for seed in [3, 17, 99, 1234] {
        let n = 16;
        let evals: Vec<EF> = (0..n)
            .map(|i| EF::from(F::from_usize(i * seed + 3)))
            .collect();
        let challenges: Vec<EF> = (0..10)
            .map(|i| EF::from(F::from_usize(i * 13 + 7)))
            .collect();
        let std_result = check_rs_membership(&evals, &challenges);
        let free_result = check_rs_membership_iterative(&evals, &challenges);
        assert_eq!(
            std_result, free_result,
            "both variants should agree for seed {seed}"
        );
    }
}

#[test]
fn test_iterative_large_domain() {
    // Test at a larger scale: n=1024, degree=256
    let k = 256;
    let n = 1024;
    let msg: Vec<F> = (0..k).map(|i| F::from_usize(i + 1)).collect();
    let cw = rs_encode(&msg, n);
    let evals: Vec<EF> = cw.evals.iter().map(|&v| EF::from(v)).collect();
    let challenges: Vec<EF> = (0..20)
        .map(|i| EF::from(F::from_usize(i * 7 + 3)))
        .collect();
    assert!(check_rs_membership_iterative(&evals, &challenges));
}

#[test]
fn test_iterative_with_rlc() {
    // End-to-end: RLC of multiple codewords, then twiddle-free fold.
    // This is exactly what the circuit does.

    let n = 32;
    let m = 4;
    let degree = 8;

    let codewords: Vec<Codeword> = (0..m)
        .map(|i| {
            let msg: Vec<F> = (0..degree)
                .map(|j| F::from_usize((i + 1) * (j + 1) + i * 7 + 3))
                .collect();
            rs_encode(&msg, n)
        })
        .collect();

    let commitments: Vec<_> = codewords.iter().map(|cw| commit_codeword(&toy_hash, cw)).collect();
    let challenges: Vec<EF> = commitments.iter().map(|c| derive_challenge(c)).collect();
    let rlc = compute_rlc(&codewords, &challenges);

    // RLC of valid RS codewords is still a valid RS codeword.
    let fold_challenges: Vec<EF> = (0..10)
        .map(|i| EF::from(F::from_usize(i * 11 + 5)))
        .collect();
    assert!(check_rs_membership_iterative(&rlc, &fold_challenges));
}
