use leandas::field::P;
use leandas::fold::{challenge_from_digest, poly_mul_linear};
use leandas::fri::{fri_fold_round, fri_fold_round_iterative};
use leandas::hash::hash_leaf_ltr;
use leandas::numeric::{
    ilog2, is_power_of_two, log2_ceil_usize, next_multiple_of, next_power_of_two,
};
use leandas::types::compute_evals_per_leaf;
use leandas::{EF, F};

/// A compression function for tests: three rounds of cubing and mixing over both digests.
fn toy_hash(l: [F; 8], r: [F; 8]) -> [F; 8] {
    let mut s: Vec<F> = l.iter().chain(r.iter()).copied().collect();
    for round in 0..3usize {
        for i in 0..16 {
            let x = s[i].add(F::from_usize(31 * round + i + 1));
            let cube = x.mul(x).mul(x);
            let neighbour = s[(i + 5) % 16].mul(F::from_usize(i + 2));
            s[(i + 1) % 16] = s[(i + 1) % 16].add(cube).add(neighbour);
        }
    }
    let mut d = [F::zero(); 8];
    for i in 0..8 {
        d[i] = s[i].add(s[i + 8].mul(F::from_usize(3)));
    }
    d
}

fn f(x: usize) -> F {
    F::from_usize(x)
}

fn ef(c: [usize; 5]) -> EF {
    EF::from_basis_coefficients_slice(&c.map(F::from_usize)).unwrap()
}

#[test]
fn base_field_arithmetic() {
    assert_eq!(P, 2_130_706_433);
    assert_eq!(f(P as usize), F::zero());
    assert_eq!(F::from_u32(P).as_canonical_u32(), 0);
    assert_eq!(f(5).sub(f(7)).as_canonical_u32(), P - 2);
    assert_eq!(f(P as usize - 1).add(f(3)), f(2));
    assert_eq!(f(7).neg().add(f(7)), F::zero());
    // (P - 1)^2 = 1
    assert_eq!(f(P as usize - 1).mul(f(P as usize - 1)), F::one());
    assert_eq!(f(3).exp_u64(5), f(243));
    assert_eq!(f(3).exp_u64(0), F::one());
    for x in [1, 2, 3, 12_345, P as usize - 1] {
        assert_eq!(f(x).inverse().mul(f(x)), F::one());
    }
    assert_eq!(F::two().inverse().as_canonical_u32(), 1_065_353_217);
}

#[test]
fn two_adic_generators() {
    assert_eq!(F::two_adic_generator(0), F::one());
    assert_eq!(F::two_adic_generator(1), F::one().neg());
    for bits in 1..25 {
        let g = F::two_adic_generator(bits);
        assert_eq!(g.mul(g), F::two_adic_generator(bits - 1));
        assert_eq!(g.exp_u64(1 << (bits - 1)), F::one().neg());
    }
}

#[test]
fn extension_field_arithmetic() {
    let x = ef([0, 1, 0, 0, 0]);
    let x4 = ef([0, 0, 0, 0, 1]);
    // X^5 = 1 - X^2
    assert_eq!(x.mul(x4), EF::one().sub(ef([0, 0, 1, 0, 0])));
    let (a, b, c) = (ef([1, 2, 3, 4, 5]), ef([6, 7, 8, 9, 10]), ef([11, 0, 13, 0, 15]));
    assert_eq!(a.mul(b), b.mul(a));
    assert_eq!(a.mul(b).mul(c), a.mul(b.mul(c)));
    assert_eq!(a.mul(b.add(c)), a.mul(b).add(a.mul(c)));
    assert_eq!(a.scale(f(3)), a.mul(EF::from(f(3))));
    assert_eq!(a.sub(a), EF::zero());
    // (1 + 2X)(3 + X) = 3 + 7X + 2X^2
    assert_eq!(ef([1, 2, 0, 0, 0]).mul(ef([3, 1, 0, 0, 0])), ef([3, 7, 2, 0, 0]));
    assert!(EF::from_basis_coefficients_slice(&[F::one(); 4]).is_none());
}

#[test]
fn machine_integers() {
    assert!(is_power_of_two(1) && is_power_of_two(64));
    assert!(!is_power_of_two(0) && !is_power_of_two(12));
    assert_eq!([ilog2(1), ilog2(9), ilog2(16)], [0, 3, 4]);
    assert_eq!([log2_ceil_usize(1), log2_ceil_usize(9), log2_ceil_usize(16)], [0, 4, 4]);
    assert_eq!([next_power_of_two(0), next_power_of_two(5), next_power_of_two(8)], [1, 8, 8]);
    assert_eq!([next_multiple_of(75, 8), next_multiple_of(80, 8)], [80, 80]);
}

#[test]
fn leaf_sizes() {
    for (n, epl) in [(0, 16), (16, 16), (128, 16), (256, 64), (1 << 20, 64)] {
        assert_eq!(compute_evals_per_leaf(n), epl);
    }
}

#[test]
fn leaves_are_hashed_left_to_right() {
    let data: Vec<F> = (0..24).map(f).collect();
    let mut chunks: Vec<[F; 8]> = vec![];
    for c in data.chunks(8) {
        let mut d = [F::zero(); 8];
        d.copy_from_slice(c);
        chunks.push(d);
    }
    let expected = toy_hash(toy_hash(chunks[0], chunks[1]), chunks[2]);
    assert_eq!(hash_leaf_ltr(&toy_hash, &data), expected);
    assert_eq!(hash_leaf_ltr(&toy_hash, &data[..16]), toy_hash(chunks[0], chunks[1]));
}

#[test]
fn a_longer_leaf_can_share_its_hash() {
    // The hash of a leaf binds its values only among leaves of one length.
    let long: Vec<F> = (0..24).map(f).collect();
    let mut short = hash_leaf_ltr(&toy_hash, &long[..16]).to_vec();
    short.extend_from_slice(&long[16..]);
    assert_eq!(hash_leaf_ltr(&toy_hash, &long), hash_leaf_ltr(&toy_hash, &short));
}

#[test]
fn challenges_take_the_first_five_elements() {
    let digest = [1, 2, 3, 4, 5, 6, 7, 8].map(F::from_usize);
    assert_eq!(challenge_from_digest(&digest), ef([1, 2, 3, 4, 5]));
}

#[test]
fn products_with_linear_polynomials() {
    // (1 + 2x + 3x^2)(4 + 5x) = 4 + 13x + 22x^2 + 15x^3
    let p: Vec<F> = [1, 2, 3].iter().map(|&x| f(x)).collect();
    let expected: Vec<F> = [4, 13, 22, 15].iter().map(|&x| f(x)).collect();
    assert_eq!(poly_mul_linear(&p, f(4), f(5)), expected);
}

#[test]
fn one_folding_round() {
    // Values 7 and 3 with the inverse twiddle one half: (7 + 3) / 2 + alpha (7 - 3) / 2.
    let half = EF::from(F::two().inverse());
    let evals = [EF::from(f(7)), EF::from(f(3))];
    let alpha = ef([10, 1, 0, 0, 0]);
    let expected = EF::from(f(5)).add(alpha.mul(EF::from(f(2))));
    assert_eq!(fri_fold_round(&evals, alpha, &[half]), vec![expected]);
    assert_eq!(fri_fold_round_iterative(&evals, alpha, EF::one()), vec![expected]);
}
