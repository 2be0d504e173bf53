use leandas::fri::check_rs_membership;
use leandas::polynomial::rs_encode;
use leandas::rlc::compute_rlc;
use leandas::{Codeword, EF, F};

fn fold_challenges() -> Vec<EF> {
    (0..10).map(|i| EF::from(F::from_usize(i * 7 + 3))).collect()
}

#[test]
fn an_invalid_codeword_spoils_all_combinations_but_one() {
    let good = rs_encode(&[F::from_usize(1), F::from_usize(2)], 16);
    let mut bad = rs_encode(&[F::from_usize(3)], 16);
    bad.evals[4] = bad.evals[4].add(F::one());
    let codewords = vec![good, bad];
    let accepted = (0..20)
        .filter(|&r| {
            let challenges = [EF::from(F::from_usize(5)), EF::from(F::from_usize(r))];
            check_rs_membership(&compute_rlc(&codewords, &challenges), &fold_challenges())
        })
        .collect::<Vec<usize>>();
    assert_eq!(accepted, vec![0]);
}

#[test]
fn two_valid_combinations_come_from_valid_codewords() {
    let codewords: Vec<Codeword> =
        (1..3).map(|i| rs_encode(&[F::from_usize(i), F::from_usize(9)], 16)).collect();
    for r in [1usize, 2, 77] {
        let challenges = [EF::from(F::from_usize(5)), EF::from(F::from_usize(r))];
        assert!(check_rs_membership(&compute_rlc(&codewords, &challenges), &fold_challenges()));
    }
}

#[test]
fn different_messages_agree_in_few_places() {
    let a = rs_encode(&[1, 2, 3, 4].map(F::from_usize), 32);
    let b = rs_encode(&[9, 2, 3, 4].map(F::from_usize), 32);
    let c = rs_encode(&[4, 3, 2, 1].map(F::from_usize), 32);
    let agree = |x: &Codeword, y: &Codeword| {
        x.evals.iter().zip(&y.evals).filter(|(p, q)| p == q).count()
    };
    assert_eq!(agree(&a, &b), 0);
    assert!(agree(&a, &c) < 4);
    assert_eq!(agree(&a, &a), 32);
}

#[test]
fn domain_sums_of_squares_vanish() {
    // The powers of a primitive root add up to zero, and so do the values of x^k.
    let cw = rs_encode(&[F::zero(), F::zero(), F::one()], 8);
    let sum = cw.evals.iter().fold(F::zero(), |acc, &v| acc.add(v));
    assert_eq!(sum, F::zero());
}
