use leandas::cli::{choose_run, parse_args, parse_number, Options, Parsed, Run};
use leandas::text::decimal_usize;
use leandas::workload::{
    add_key, circuit_degree, circuit_key, commit_batch, commit_trees, constant_codewords,
    make_codewords, open_scheduled, opening_schedule,
};
use leandas::commitment::{commit_codeword_epl, verify_opening_epl};
use leandas::polynomial::rs_encode;
use leandas::F;

/// A compression function for tests: three rounds of cubing and mixing over both digests.
fn toy_hash(l: [F; 8], r: [F; 8]) -> [F; 8] {
    let mut s: Vec<F> = l.iter().chain(r.iter()).copied().collect();
    for round in 0..3usize {
        for i in 0..16 {
            let x = s[i].add(F::from_usize(31 * round + i + 1));
            let cube = x.mul(x).mul(x);
            let neighbour = s[(i + 5) % 16].mul(F::from_usize(i + 2));
            s[(i + 1) % 16] = s[(i + 1) % 16].add(cube).add(neighbour);
        }
    }
    let mut d = [F::zero(); 8];
    for i in 0..8 {
        d[i] = s[i].add(s[i + 8].mul(F::from_usize(3)));
    }
    d
}

fn parse(args: &[&str]) -> Parsed {
    let mut all = vec![String::from("leandas")];
    all.extend(args.iter().map(|a| a.to_string()));
    parse_args(&all)
}

fn options(args: &[&str]) -> Options {
    match parse(args) {
        Parsed::Run { options } => options,
        other => panic!("not a run: {other:?}"),
    }
}

#[test]
fn defaults() {
    let o = options(&[]);
    assert_eq!(o.num_codewords, 4);
    assert_eq!(o.codeword_len, 32);
    assert_eq!(o.batch_size, None);
    assert!(!o.zkvm);
    assert_eq!(o.num_openings, 4);
    assert_eq!(o.epl, None);
    assert_eq!(o.parallel, 0);
    assert!(!o.hybrid);
    assert_eq!(o.num_inner_proofs, 4);
    assert!(!o.spot_check);
    assert_eq!(o.spot_checks, None);
    assert!(matches!(parse_args(&vec![]), Parsed::Run { .. }));
}

#[test]
fn every_option() {
    let o = options(&[
        "-m", "8", "--length", "64", "-b", "2", "--epl", "16", "--zkvm", "--parallel", "3",
        "--openings", "5", "--hybrid", "--inner-proofs", "6", "--spot-check", "-k", "7",
    ]);
    assert_eq!(o.num_codewords, 8);
    assert_eq!(o.codeword_len, 64);
    assert_eq!(o.batch_size, Some(2));
    assert_eq!(o.epl, Some(16));
    assert!(o.zkvm && o.hybrid && o.spot_check);
    assert_eq!(o.parallel, 3);
    assert_eq!(o.num_openings, 5);
    assert_eq!(o.num_inner_proofs, 6);
    assert_eq!(o.spot_checks, Some(7));
    let o = options(&["--codewords", "1", "-n", "16", "--batch-size", "9", "-n", "128"]);
    assert_eq!((o.num_codewords, o.codeword_len, o.batch_size), (1, 128, Some(9)));
}

#[test]
fn bad_arguments() {
    assert!(matches!(parse(&["--zkvm", "--fast"]), Parsed::Unknown { index: 2 }));
    assert!(matches!(parse(&["-m"]), Parsed::Missing { index: 1 }));
    assert!(matches!(parse(&["-m", "x"]), Parsed::Invalid { index: 2 }));
    assert!(matches!(parse(&["-m", "-h"]), Parsed::Invalid { index: 2 }));
    assert!(matches!(parse(&["-m", "2", "--help", "--fast"]), Parsed::Help));
    assert!(matches!(parse(&["-h"]), Parsed::Help));
}

#[test]
fn numbers() {
    let p = |s: &str| parse_number(&String::from(s));
    assert_eq!(p("0"), Some(0));
    assert_eq!(p("0042"), Some(42));
    assert_eq!(p("+7"), Some(7));
    assert_eq!(p(""), None);
    assert_eq!(p("+"), None);
    assert_eq!(p("-1"), None);
    assert_eq!(p("1 "), None);
    assert_eq!(p("1_000"), None);
    assert_eq!(p("++1"), None);
    assert_eq!(p(&usize::MAX.to_string()), Some(usize::MAX));
    assert_eq!(p("340282366920938463463374607431768211456"), None);
    for n in [0, 9, 10, 65_537, usize::MAX] {
        assert_eq!(parse_number(&decimal_usize(n)), Some(n));
        assert_eq!(decimal_usize(n), n.to_string());
    }
}

#[test]
fn runs() {
    let run = choose_run(&options(&["--hybrid", "--spot-check", "-n", "256"]));
    assert!(matches!(
        run,
        Run::Hybrid { num_inner_proofs: 4, codeword_len: 256, epl: 64, batch_size: 1 }
    ));
    let run = choose_run(&options(&["--spot-check", "-m", "3", "-k", "9"]));
    assert!(matches!(
        run,
        Run::SpotCheck {
            num_codewords: 3,
            codeword_len: 32,
            epl: 16,
            batch_size: 3,
            spot_checks: Some(9),
        }
    ));
    let run = choose_run(&options(&["--epl", "32", "-b", "2", "--zkvm"]));
    assert!(matches!(
        run,
        Run::Pipeline {
            num_codewords: 4,
            codeword_len: 32,
            batch_size: 2,
            epl: 32,
            zkvm: true,
            num_openings: 4,
            parallel: 0,
        }
    ));
    assert!(matches!(choose_run(&options(&["-n", "48"])), Run::NotPowerOfTwo));
    assert!(matches!(choose_run(&options(&["-n", "0"])), Run::NotPowerOfTwo));
    assert!(matches!(choose_run(&options(&["-n", "8"])), Run::TooShort));
}

#[test]
fn test_workload_codewords() {
    let constants = constant_codewords(3, 2, 8);
    assert_eq!(constants[1].evals, vec![F::from_usize(4); 8]);
    let codewords = make_codewords(2, 16, 3);
    let msg: Vec<F> = [2 + 10, 4 + 10, 6 + 10].iter().map(|&x| F::from_usize(x)).collect();
    assert_eq!(codewords[1].evals, rs_encode(&msg, 16).evals);
    assert_eq!(codewords.len(), 2);
}

#[test]
fn circuits_of_workloads() {
    assert_eq!(circuit_degree(0, 32), 16);
    assert_eq!(circuit_degree(5, 32), 8);
    assert_eq!(circuit_degree(8, 32), 8);
    assert_eq!(circuit_key(2, 8, 256, 5), (2, 256, 64, 8));
    assert_eq!(circuit_key(8, 2, 128, 32), (2, 128, 16, 32));
    let mut keys = vec![];
    add_key(&mut keys, (1, 2, 3, 4));
    add_key(&mut keys, (1, 2, 3, 5));
    add_key(&mut keys, (1, 2, 3, 4));
    assert_eq!(keys, vec![(1, 2, 3, 4), (1, 2, 3, 5)]);
}

#[test]
fn openings_are_spread_over_codewords() {
    assert_eq!(opening_schedule(4, 3, 32, 16), vec![(0, 0), (1, 7), (2, 14), (0, 21)]);
    // No more than there are leaves.
    assert_eq!(opening_schedule(9, 1, 32, 16), vec![(0, 0), (0, 7)]);
}

#[test]
fn scheduled_openings_verify() {
    let codewords = make_codewords(3, 64, 8);
    let trees = commit_trees(&toy_hash, &codewords, 16);
    let schedule = opening_schedule(10, 3, 64, 16);
    let openings = open_scheduled(&codewords, &trees, &schedule, 16);
    assert_eq!(openings.len(), 10);
    for (k, (i, o)) in openings.iter().enumerate() {
        let com = commit_codeword_epl(&toy_hash, &codewords[*i], 16);
        assert!(verify_opening_epl(&toy_hash, &com, o, 64, 16));
        assert_eq!(o.leaf_index, (k * 7) % 64 / 16);
    }
}

#[test]
fn committed_batches() {
    let codewords = constant_codewords(1, 3, 16);
    let batch = commit_batch(&toy_hash, codewords.clone(), 5, 16);
    assert_eq!(batch.indices, vec![5, 6, 7]);
    assert_eq!(batch.commitments[2], commit_codeword_epl(&toy_hash, &codewords[2], 16));
    assert_eq!(batch.challenges.len(), 3);
}
