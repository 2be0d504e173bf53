use leandas::rlc::compute_rlc;
use leandas::{Codeword, EF, F};

#[test]
fn test_rlc_single_codeword() {
    // With a single codeword and challenge r=1, RLC should equal
    // the embedded codeword.
    let cw = Codeword::new(vec![F::one(), F::two(), F::from_u8(3)]);
    let r = EF::one();
    let result = compute_rlc(&[cw.clone()], &[r]);

    for j in 0..3 {
        assert_eq!(result[j], EF::from(cw.evals[j]));
    }
}

#[test]
fn test_rlc_linearity() {
    // RLC of two identical codewords with challenges r1, r2
    // should equal (r1 + r2) * embed(codeword).
    let vals = vec![F::one(), F::two()];
    let cw = Codeword::new(vals);
    let r1 = EF::from(F::two());
    let r2 = EF::from(F::from_u8(3));

    let result = compute_rlc(&[cw.clone(), cw.clone()], &[r1, r2]);
    let expected_coeff = r1.add(r2);

    for j in 0..2 {
        let expected = expected_coeff.mul(EF::from(cw.evals[j]));
        assert_eq!(result[j], expected);
    }
}
