use leandas::commitment::{
    commit_codeword, commit_codeword_with_tree, commit_codeword_with_tree_epl, open_position,
    open_position_epl, verify_opening, verify_opening_epl,
};
use leandas::hash::hash_leaf_ltr;
use leandas::types::EVALS_PER_LEAF;
use leandas::{Codeword, F};

/// A compression function for tests: three rounds of cubing and mixing over both digests.
fn toy_hash(l: [F; 8], r: [F; 8]) -> [F; 8] {
    let mut s: Vec<F> = l.iter().chain(r.iter()).copied().collect();
    for round in 0..3usize {
        for i in 0..16 {
            let x = s[i].add(F::from_usize(31 * round + i + 1));
            let cube = x.mul(x).mul(x);
            let neighbour = s[(i + 5) % 16].mul(F::from_usize(i + 2));
            s[(i + 1) % 16] = s[(i + 1) % 16].add(cube).add(neighbour);
        }
    }
    let mut d = [F::zero(); 8];
    for i in 0..8 {
        d[i] = s[i].add(s[i + 8].mul(F::from_usize(3)));
    }
    d
}

#[test]
fn test_commit_open_verify_roundtrip() {
    // Codeword of length 32 → 2 leaves of 16 evals each.
    let n = 32;
    let evals: Vec<F> = (0..n).map(|i| F::from_usize(i + 1)).collect();
    let cw = Codeword::new(evals);

    let (commitment, tree) = commit_codeword_with_tree(&toy_hash, &cw);

    // Open and verify every position.
    for pos in 0..n {
        let opening = open_position(&cw, &tree, pos);
        assert_eq!(opening.values.len(), EVALS_PER_LEAF);
        assert!(opening.values.contains(&cw.evals[pos]));
        assert!(
            verify_opening(&toy_hash, &commitment, &opening, n),
            "opening at position {pos} should verify"
        );
    }
}

#[test]
fn test_tampered_opening_fails() {
    let n = 32;
    let evals: Vec<F> = (0..n).map(|i| F::from_usize(i + 10)).collect();
    let cw = Codeword::new(evals);

    let (commitment, tree) = commit_codeword_with_tree(&toy_hash, &cw);
    let mut opening = open_position(&cw, &tree, 2);

    // Tamper with one value in the leaf.
    opening.values[0] = F::from_usize(999);
    assert!(
        !verify_opening(&toy_hash, &commitment, &opening, n),
        "tampered opening should not verify"
    );
}

#[test]
fn test_different_codewords_different_commitments() {
    let cw1 = Codeword::new(vec![F::one(); 16]);
    let cw2 = Codeword::new(vec![F::two(); 16]);

    let com1 = commit_codeword(&toy_hash, &cw1);
    let com2 = commit_codeword(&toy_hash, &cw2);

    assert_ne!(com1, com2);
}

#[test]
fn test_commit_open_verify_epl32() {
    // Test with EPL=32: sequential compress (4 chunks of 8).
    let n = 128;
    let epl = 32;
    let evals: Vec<F> = (0..n).map(|i| F::from_usize(i + 1)).collect();
    let cw = Codeword::new(evals);

    let (commitment, tree) = commit_codeword_with_tree_epl(&toy_hash, &cw, epl);

    // Open and verify several positions.
    for pos in [0, 15, 31, 32, 63, 96, 127] {
        let opening = open_position_epl(&cw, &tree, pos, epl);
        assert_eq!(opening.values.len(), epl);
        assert!(opening.values.contains(&cw.evals[pos]));
        assert!(
            verify_opening_epl(&toy_hash, &commitment, &opening, n, epl),
            "opening at position {pos} with EPL={epl} should verify"
        );
    }
}

#[test]
fn test_commit_open_verify_epl64() {
    // Test with EPL=64: sequential compress (8 chunks of 8).
    let n = 256;
    let epl = 64;
    let evals: Vec<F> = (0..n).map(|i| F::from_usize(i + 1)).collect();
    let cw = Codeword::new(evals);

    let (commitment, tree) = commit_codeword_with_tree_epl(&toy_hash, &cw, epl);

    for pos in [0, 33, 63, 64, 128, 200, 255] {
        let opening = open_position_epl(&cw, &tree, pos, epl);
        assert_eq!(opening.values.len(), epl);
        assert!(
            verify_opening_epl(&toy_hash, &commitment, &opening, n, epl),
            "opening at position {pos} with EPL={epl} should verify"
        );
    }
}

#[test]
fn test_tampered_opening_epl32_fails() {
    let n = 128;
    let epl = 32;
    let evals: Vec<F> = (0..n).map(|i| F::from_usize(i + 10)).collect();
    let cw = Codeword::new(evals);

    let (commitment, tree) = commit_codeword_with_tree_epl(&toy_hash, &cw, epl);
    let mut opening = open_position_epl(&cw, &tree, 2, epl);
    opening.values[0] = F::from_usize(999);
    assert!(!verify_opening_epl(&toy_hash, &commitment, &opening, n, epl));
}

#[test]
fn an_opening_must_hold_a_whole_leaf() {
    let (n, epl) = (64, 32);
    let cw = Codeword::new((0..n).map(|i| F::from_usize(i * i + 1)).collect());
    let (com, tree) = commit_codeword_with_tree_epl(&toy_hash, &cw, epl);
    let opening = open_position_epl(&cw, &tree, 40, epl);
    assert!(verify_opening_epl(&toy_hash, &com, &opening, n, epl));
    // Sixteen values with the same hash as the leaf: the running hash of the first
    // twenty-four, and the last eight.
    let mut forged = opening.clone();
    forged.values = hash_leaf_ltr(&toy_hash, &opening.values[..24]).to_vec();
    forged.values.extend_from_slice(&opening.values[24..]);
    assert_eq!(
        hash_leaf_ltr(&toy_hash, &forged.values),
        hash_leaf_ltr(&toy_hash, &opening.values)
    );
    assert!(!verify_opening_epl(&toy_hash, &com, &forged, n, epl));
    // No values, and values that are no whole digests.
    forged.values.clear();
    assert!(!verify_opening_epl(&toy_hash, &com, &forged, n, epl));
    forged.values = opening.values[..20].to_vec();
    assert!(!verify_opening_epl(&toy_hash, &com, &forged, n, epl));
}
