use leandas::batch::{build_reference_challenges, fold_batch, prove_batch, BatchProof};
use leandas::circuit::{compile_das_circuit, CircuitKind, CompileError};
use leandas::commitment::{
    commit_codeword, commit_codeword_epl, commit_codeword_with_tree, commit_codeword_with_tree_epl,
    open_position, open_position_epl,
};
use leandas::fold::{challenge_from_digest, fold_iterative};
use leandas::inputs::hash_commitments;
use leandas::machine::{MachineParams, WhirSummary};
use leandas::pipeline::{
    batch_groups, count_batches, make_batch, prove_das, prove_das_with_bytecode, schedule,
    DasConfig, Schedule,
};
use leandas::polynomial::rs_encode;
use leandas::proving::{prove_circuit, prove_spotcheck_circuit, verify_circuit};
use leandas::rlc::{compute_rlc, derive_challenge};
use leandas::text::Replacements;
use leandas::types::{Batch, EVALS_PER_LEAF};
use leandas::verification::{
    verify_das, verify_das_unified, verify_das_with_bytecode, VerifyResult,
};
use leandas::vm::{bind_hash, Bytecode, Evaluation, RawProof, Verified, VmParams, Witness};
use leandas::{Codeword, Commitment, EF, F};

/// A compression function for tests: three rounds of cubing and mixing over both digests.
fn toy_hash(l: [F; 8], r: [F; 8]) -> [F; 8] {
    let mut s: Vec<F> = l.iter().chain(r.iter()).copied().collect();
    for round in 0..3usize {
        for i in 0..16 {
            let x = s[i].add(F::from_usize(31 * round + i + 1));
            let cube = x.mul(x).mul(x);
            let neighbour = s[(i + 5) % 16].mul(F::from_usize(i + 2));
            s[(i + 1) % 16] = s[(i + 1) % 16].add(cube).add(neighbour);
        }
    }
    let mut d = [F::zero(); 8];
    for i in 0..8 {
        d[i] = s[i].add(s[i + 8].mul(F::from_usize(3)));
    }
    d
}

/// A program of the toy machine: the parameters of the batch circuit.
#[derive(Clone, Debug)]
struct Program {
    batch_size: usize,
    codeword_len: usize,
    epl: usize,
    rounds: usize,
}

/// A proof of the toy machine: the public input, and whether the run succeeded.
#[derive(Clone, Debug)]
struct ToyProof {
    public_input: Vec<F>,
    ok: bool,
}

fn vm() -> VmParams {
    VmParams {
        input_start: 16,
        n_instruction_columns: 12,
        domain_sep: [F::from_usize(5); 8],
    }
}

fn number(r: &Replacements, key: &str) -> usize {
    r.get(key).unwrap().parse().unwrap()
}

fn toy_compile(_kind: CircuitKind, r: Replacements) -> Bytecode<Program> {
    let program = Program {
        batch_size: number(&r, "__BATCH_SIZE__"),
        codeword_len: number(&r, "__CODEWORD_LEN__"),
        epl: number(&r, "__EPL__"),
        rounds: number(&r, "__NUM_FOLD_ROUNDS__"),
    };
    Bytecode {
        log_size: 10,
        zero_eval: F::one(),
        hash: [F::from_usize(program.codeword_len * 100 + program.rounds); 8],
        program,
    }
}

/// Run the batch circuit's statement on the private input.
fn toy_prove(bc: &Bytecode<Program>, pi: &Vec<F>, w: &Witness, _rate: usize) -> ToyProof {
    let p = &bc.program;
    let (b, n) = (p.batch_size, p.codeword_len);
    let data = &w.private_input;
    let commitments: Vec<Commitment> = (0..b)
        .map(|i| {
            let mut root = [F::zero(); 8];
            root.copy_from_slice(&data[8 * i..8 * i + 8]);
            Commitment { root }
        })
        .collect();
    let codewords: Vec<Codeword> = (0..b)
        .map(|i| Codeword::new(data[8 * b + n * i..8 * b + n * i + n].to_vec()))
        .collect();
    let columns = &data[8 * b + n * b..];
    assert_eq!(columns.len(), n * b);
    let chain = hash_commitments(&toy_hash, &commitments);
    let bound = bind_hash(&toy_hash, &vm(), &bc.hash);
    let mut ok = pi[..8] == chain && pi[8..] == bound;
    for i in 0..b {
        ok = ok && commit_codeword_epl(&toy_hash, &codewords[i], p.epl) == commitments[i];
    }
    let challenges: Vec<EF> = commitments.iter().map(derive_challenge).collect();
    let rlc: Vec<EF> = columns
        .chunks(b)
        .map(|column| {
            challenges
                .iter()
                .zip(column)
                .fold(EF::zero(), |acc, (r, value)| acc.add(r.mul(EF::from(*value))))
        })
        .collect();
    let folded = fold_iterative(&rlc, p.rounds, challenge_from_digest(&chain));
    ok = ok && folded.iter().all(|v| *v == folded[0]);
    ToyProof { public_input: pi.clone(), ok }
}

fn toy_verify(_bc: &Bytecode<Program>, pi: &Vec<F>, p: &ToyProof) -> Result<Verified, String> {
    if p.ok && p.public_input == *pi {
        Ok(Verified {
            bytecode_evaluation: Evaluation { point: vec![EF::zero(); 14], value: EF::one() },
            raw_proof: RawProof { transcript: vec![], merkle_openings: vec![] },
        })
    } else {
        Err(String::from("run failed"))
    }
}

fn batch_of(codewords: Vec<Codeword>, epl: usize) -> Batch {
    let commitments: Vec<Commitment> =
        codewords.iter().map(|cw| commit_codeword_epl(&toy_hash, cw, epl)).collect();
    let challenges: Vec<EF> = commitments.iter().map(derive_challenge).collect();
    Batch { indices: (0..codewords.len()).collect(), codewords, commitments, challenges }
}

fn toy_machine() -> MachineParams {
    MachineParams {
        rs_domain_initial_reduction_factor: 5,
        n_tables: 0,
        min_log_n_rows_per_table: 8,
        max_log_n_rows_per_table: vec![],
        min_whir_log_inv_rate: 1,
        max_whir_log_inv_rate: 2,
        min_log_memory_size: 16,
        max_log_memory_size: 26,
        max_bus_width: 4,
        logup_memory_domainsep: 0,
        logup_precompile_domainsep: 1,
        logup_bytecode_domainsep: 2,
        col_pc: 0,
        max_num_variables_to_send_coeffs: 9,
        whir_initial_folding_factor: 7,
        whir_subsequent_folding_factor: 5,
        execution_table_index: 0,
        max_air_constraints: 1,
        n_runtime_columns: 20,
        total_whir_statements: 1,
        starting_pc: 0,
        ending_pc: 1,
        tables: vec![],
        airs: vec![],
    }
}

fn toy_whir(_log_inv_rate: usize, _n_vars: usize) -> WhirSummary {
    WhirSummary {
        commitment_ood_samples: 1,
        starting_folding_pow_bits: 0,
        rounds: vec![],
        final_queries: 8,
        final_query_pow_bits: 3,
    }
}

/// Constant codewords, which are codewords of every degree.
fn constant_batch(batch_size: usize, codeword_len: usize, epl: usize) -> Batch {
    let codewords: Vec<Codeword> = (0..batch_size)
        .map(|i| Codeword::new(vec![F::from_usize(i + 1); codeword_len]))
        .collect();
    batch_of(codewords, epl)
}

/// Codewords of polynomials with no pattern to them.
fn make_rs_batch(batch_size: usize, codeword_len: usize, degree: usize) -> Batch {
    assert!(degree < codeword_len / 2, "degree must be < n/2 for RS rate 1/2");
    let codewords: Vec<Codeword> = (0..batch_size)
        .map(|i| {
            let msg: Vec<F> = (0..degree)
                .map(|j| F::from_usize((i + 1) * (j + 1) + i * 7 + 3))
                .collect();
            rs_encode(&msg, codeword_len)
        })
        .collect();
    batch_of(codewords, EVALS_PER_LEAF)
}

/// Create a valid RS test codeword (constant polynomial, degree 0).
fn make_codeword(n: usize, seed: usize) -> Codeword {
    let c = F::from_usize(seed + 1);
    let evals = vec![c; n];
    Codeword::new(evals)
}

fn default_config(batch_size: usize, zkvm_mode: bool, codeword_len: usize) -> DasConfig {
    DasConfig {
        batch_size,
        zkvm_mode,
        evals_per_leaf: Some(EVALS_PER_LEAF),
        degree: codeword_len / 2,
        parallel: 0,
    }
}

#[test]
fn test_end_to_end_reference_mode() {
    let n = 32;
    let m = 4;
    let codewords: Vec<Codeword> = (0..m).map(|i| make_codeword(n, i)).collect();

    let trees: Vec<_> = codewords
        .iter()
        .map(|cw| commit_codeword_with_tree(&toy_hash, cw))
        .collect();

    let config = default_config(2, false, n);
    let das_proof =
        prove_das(&toy_hash, &vm(), &toy_compile, &toy_prove, codewords.clone(), &config);

    assert_eq!(das_proof.commitments.len(), m);

    let mut openings = Vec::new();
    openings.push((0, open_position(&codewords[0], &trees[0].1, 3)));
    openings.push((2, open_position(&codewords[2], &trees[2].1, 17)));
    openings.push((3, open_position(&codewords[3], &trees[3].1, 0)));

    let result = verify_das(&toy_hash, &vm(), &toy_compile, &toy_verify, &das_proof, &openings);
    assert!(matches!(result, VerifyResult::Accept));
}

#[test]
fn test_tampered_opening_rejected() {
    let n = 32;
    let cw = make_codeword(n, 42);
    let (_, tree) = commit_codeword_with_tree(&toy_hash, &cw);

    let config = default_config(1, false, n);
    let das_proof =
        prove_das(&toy_hash, &vm(), &toy_compile, &toy_prove, vec![cw.clone()], &config);

    let mut opening = open_position(&cw, &tree, 5);
    opening.values[0] = F::from_usize(999_999);

    let result =
        verify_das(&toy_hash, &vm(), &toy_compile, &toy_verify, &das_proof, &[(0, opening)]);
    assert!(matches!(result, VerifyResult::RejectOpening { .. }));
}

#[test]
fn test_end_to_end_zkvm_mode() {
    let n = 16;
    let m = 2;
    let codewords: Vec<Codeword> = (0..m).map(|i| make_codeword(n, i)).collect();

    let config = default_config(2, true, n);
    let das_proof =
        prove_das(&toy_hash, &vm(), &toy_compile, &toy_prove, codewords.clone(), &config);

    let result = verify_das(&toy_hash, &vm(), &toy_compile, &toy_verify, &das_proof, &[]);
    assert!(
        matches!(result, VerifyResult::Accept),
        "ZKVM proof should verify: {:?}",
        result
    );
}

#[test]
fn test_end_to_end_rs_codewords() {
    let n = 32;
    let m = 4;
    let degree = 8;

    let codewords: Vec<Codeword> = (0..m)
        .map(|i| {
            let msg: Vec<F> = (0..degree)
                .map(|j| F::from_usize((i + 1) * (j + 1) + i * 7 + 3))
                .collect();
            rs_encode(&msg, n)
        })
        .collect();

    let trees: Vec<_> = codewords
        .iter()
        .map(|cw| commit_codeword_with_tree(&toy_hash, cw))
        .collect();

    let config = DasConfig {
        batch_size: 2,
        zkvm_mode: false,
        evals_per_leaf: Some(EVALS_PER_LEAF),
        degree,
        parallel: 0,
    };
    let das_proof =
        prove_das(&toy_hash, &vm(), &toy_compile, &toy_prove, codewords.clone(), &config);

    let openings = vec![
        (0, open_position(&codewords[0], &trees[0].1, 3)),
        (2, open_position(&codewords[2], &trees[2].1, 17)),
    ];

    let result = verify_das(&toy_hash, &vm(), &toy_compile, &toy_verify, &das_proof, &openings);
    assert!(matches!(result, VerifyResult::Accept));
}

#[test]
fn test_end_to_end_rs_zkvm() {
    let n = 32;
    let m = 2;
    let degree = 4;

    let codewords: Vec<Codeword> = (0..m)
        .map(|i| {
            let msg: Vec<F> = (0..degree)
                .map(|j| F::from_usize((i + 1) * (j + 1)))
                .collect();
            rs_encode(&msg, n)
        })
        .collect();

    let config = DasConfig {
        batch_size: 2,
        zkvm_mode: true,
        evals_per_leaf: Some(EVALS_PER_LEAF),
        degree,
        parallel: 0,
    };
    let das_proof =
        prove_das(&toy_hash, &vm(), &toy_compile, &toy_prove, codewords.clone(), &config);

    let result = verify_das(&toy_hash, &vm(), &toy_compile, &toy_verify, &das_proof, &[]);
    assert!(
        matches!(result, VerifyResult::Accept),
        "RS codewords + ZKVM should verify: {:?}",
        result
    );
}

#[test]
fn test_end_to_end_large_epl() {
    // Test with EPL=32 (sequential compress with 4 chunks).
    let n = 64;
    let m = 2;
    let epl = 32;
    let codewords: Vec<Codeword> = (0..m).map(|i| make_codeword(n, i)).collect();

    let trees: Vec<_> = codewords
        .iter()
        .map(|cw| commit_codeword_with_tree_epl(&toy_hash, cw, epl))
        .collect();

    let config = DasConfig {
        batch_size: 2,
        zkvm_mode: false,
        evals_per_leaf: Some(epl),
        degree: n / 2,
        parallel: 0,
    };
    let das_proof =
        prove_das(&toy_hash, &vm(), &toy_compile, &toy_prove, codewords.clone(), &config);

    assert_eq!(das_proof.evals_per_leaf, epl);

    let openings = vec![
        (0, open_position_epl(&codewords[0], &trees[0].1, 3, epl)),
        (1, open_position_epl(&codewords[1], &trees[1].1, 40, epl)),
    ];

    let result = verify_das(&toy_hash, &vm(), &toy_compile, &toy_verify, &das_proof, &openings);
    assert!(matches!(result, VerifyResult::Accept));
}

#[test]
fn test_prove_and_verify_circuit() {
    let batch_size = 1;
    let codeword_len = 32;

    let degree = codeword_len / 2;
    let bytecode =
        compile_das_circuit(&vm(), &toy_compile, batch_size, codeword_len, EVALS_PER_LEAF, degree);
    let batch = constant_batch(batch_size, codeword_len, EVALS_PER_LEAF);

    let (proof, _pub_input) =
        prove_circuit(&toy_hash, &vm(), &toy_prove, &bytecode, &batch, degree);
    let result = verify_circuit(&toy_hash, &vm(), &toy_verify, &bytecode, &batch, &proof);
    assert!(result.is_ok(), "proof should verify: {:?}", result.err());
}

#[test]
fn test_prove_and_verify_nonconstant_rs() {
    let batch_size = 1;
    let codeword_len = 32;
    let degree = 4;

    let bytecode =
        compile_das_circuit(&vm(), &toy_compile, batch_size, codeword_len, EVALS_PER_LEAF, degree);
    let batch = make_rs_batch(batch_size, codeword_len, degree);

    assert_ne!(batch.codewords[0].evals[0], batch.codewords[0].evals[1]);

    let (proof, _pub_input) =
        prove_circuit(&toy_hash, &vm(), &toy_prove, &bytecode, &batch, degree);
    let result = verify_circuit(&toy_hash, &vm(), &toy_verify, &bytecode, &batch, &proof);
    assert!(result.is_ok(), "non-constant RS codeword should verify: {:?}", result.err());
}

#[test]
fn test_prove_and_verify_multi_codeword_rs() {
    let batch_size = 2;
    let codeword_len = 32;
    let degree = 8;

    let bytecode =
        compile_das_circuit(&vm(), &toy_compile, batch_size, codeword_len, EVALS_PER_LEAF, degree);
    let batch = make_rs_batch(batch_size, codeword_len, degree);

    let (proof, _pub_input) =
        prove_circuit(&toy_hash, &vm(), &toy_prove, &bytecode, &batch, degree);
    let result = verify_circuit(&toy_hash, &vm(), &toy_verify, &bytecode, &batch, &proof);
    assert!(result.is_ok(), "multi-codeword RS batch should verify: {:?}", result.err());
}

#[test]
fn test_prove_and_verify_epl32() {
    let batch_size = 1;
    let codeword_len = 64;
    let epl = 32;

    let degree = codeword_len / 2;
    let bytecode = compile_das_circuit(&vm(), &toy_compile, batch_size, codeword_len, epl, degree);
    let batch = constant_batch(batch_size, codeword_len, epl);

    let (proof, _pub_input) =
        prove_circuit(&toy_hash, &vm(), &toy_prove, &bytecode, &batch, degree);
    let result = verify_circuit(&toy_hash, &vm(), &toy_verify, &bytecode, &batch, &proof);
    assert!(result.is_ok(), "EPL=32 circuit should verify: {:?}", result.err());
}

#[test]
fn test_prove_and_verify_epl64() {
    let batch_size = 1;
    let codeword_len = 128;
    let epl = 64;

    let degree = codeword_len / 2;
    let bytecode = compile_das_circuit(&vm(), &toy_compile, batch_size, codeword_len, epl, degree);
    let batch = constant_batch(batch_size, codeword_len, epl);

    let (proof, _pub_input) =
        prove_circuit(&toy_hash, &vm(), &toy_prove, &bytecode, &batch, degree);
    let result = verify_circuit(&toy_hash, &vm(), &toy_verify, &bytecode, &batch, &proof);
    assert!(result.is_ok(), "EPL=64 circuit should verify: {:?}", result.err());
}

#[test]
fn invalid_codeword_gives_a_proof_that_is_rejected() {
    let mut codewords: Vec<Codeword> = (0..4).map(|i| make_codeword(32, i)).collect();
    codewords[2].evals[7] = F::from_usize(999_999);
    let config = default_config(2, true, 32);
    let das_proof =
        prove_das(&toy_hash, &vm(), &toy_compile, &toy_prove, codewords, &config);
    let result = verify_das(&toy_hash, &vm(), &toy_compile, &toy_verify, &das_proof, &[]);
    assert!(matches!(result, VerifyResult::RejectProof { batch_index: 1 }));
}

#[test]
fn failed_verification_says_why() {
    let degree = 16;
    let bytecode = compile_das_circuit(&vm(), &toy_compile, 1, 32, EVALS_PER_LEAF, degree);
    let mut batch = make_rs_batch(1, 32, 8);
    batch.codewords[0].evals[5] = batch.codewords[0].evals[5].add(F::one());
    let batch = batch_of(batch.codewords, EVALS_PER_LEAF);
    let (proof, _) = prove_circuit(&toy_hash, &vm(), &toy_prove, &bytecode, &batch, degree);
    let result = verify_circuit(&toy_hash, &vm(), &toy_verify, &bytecode, &batch, &proof);
    assert_eq!(result, Err(String::from("proof verification failed: run failed")));
}

#[test]
fn proof_is_bound_to_its_commitments() {
    let codewords: Vec<Codeword> = (0..2).map(|i| make_codeword(32, i)).collect();
    let config = default_config(1, true, 32);
    let mut das_proof =
        prove_das(&toy_hash, &vm(), &toy_compile, &toy_prove, codewords, &config);
    let other = das_proof.aggregated_proof.batch_proofs[1].commitments[0];
    das_proof.aggregated_proof.batch_proofs[0].commitments[0] = other;
    let result = verify_das(&toy_hash, &vm(), &toy_compile, &toy_verify, &das_proof, &[]);
    assert!(matches!(result, VerifyResult::RejectProof { batch_index: 0 }));
    // Also where the batches cover the commitments.
    das_proof.commitments[0] = other;
    let result = verify_das(&toy_hash, &vm(), &toy_compile, &toy_verify, &das_proof, &[]);
    assert!(matches!(result, VerifyResult::RejectProof { batch_index: 0 }));
}

#[test]
fn batches_must_cover_the_commitments() {
    let codewords: Vec<Codeword> = (0..5).map(|i| make_codeword(32, i)).collect();
    let config = default_config(2, false, 32);
    let proof_of = || {
        prove_das(&toy_hash, &vm(), &toy_compile, &toy_prove, codewords.clone(), &config)
    };
    let check = |das_proof: &leandas::pipeline::DasProof<ToyProof>| {
        verify_das(&toy_hash, &vm(), &toy_compile, &toy_verify, das_proof, &[])
    };
    assert!(matches!(check(&proof_of()), VerifyResult::Accept));
    // No batches at all.
    let mut das_proof = proof_of();
    das_proof.aggregated_proof.batch_proofs.clear();
    assert!(matches!(check(&das_proof), VerifyResult::RejectProof { batch_index: 0 }));
    das_proof.commitments.clear();
    assert!(matches!(check(&das_proof), VerifyResult::Accept));
    // The last batch is missing.
    let mut das_proof = proof_of();
    das_proof.aggregated_proof.batch_proofs.pop();
    assert!(matches!(check(&das_proof), VerifyResult::RejectProof { batch_index: 2 }));
    // A commitment that is in no batch.
    let mut das_proof = proof_of();
    das_proof.aggregated_proof.batch_proofs[1].commitments.pop();
    assert!(matches!(check(&das_proof), VerifyResult::RejectProof { batch_index: 3 }));
    let mut das_proof = proof_of();
    das_proof.commitments[3].root[0] = F::from_usize(5);
    assert!(matches!(check(&das_proof), VerifyResult::RejectProof { batch_index: 3 }));
}

#[test]
fn batches_may_cover_the_commitments_in_any_order() {
    let codewords: Vec<Codeword> = (0..5).map(|i| make_codeword(32, i)).collect();
    let config = default_config(2, false, 32);
    let proof_of = || {
        prove_das(&toy_hash, &vm(), &toy_compile, &toy_prove, codewords.clone(), &config)
    };
    let check = |das_proof: &leandas::pipeline::DasProof<ToyProof>| {
        verify_das(&toy_hash, &vm(), &toy_compile, &toy_verify, das_proof, &[])
    };
    // Two batches in the other order, and commitments too.
    let mut das_proof = proof_of();
    das_proof.aggregated_proof.batch_proofs.swap(1, 2);
    assert!(matches!(check(&das_proof), VerifyResult::Accept));
    das_proof.commitments.reverse();
    assert!(matches!(check(&das_proof), VerifyResult::Accept));
    // The batches hold a commitment that the proof does not.
    let mut das_proof = proof_of();
    das_proof.commitments.pop();
    assert!(matches!(check(&das_proof), VerifyResult::Accept));
    // A batch or a commitment is there twice.
    let mut das_proof = proof_of();
    let batch = das_proof.aggregated_proof.batch_proofs[1].clone();
    das_proof.aggregated_proof.batch_proofs.push(batch);
    assert!(matches!(check(&das_proof), VerifyResult::Accept));
    das_proof.commitments[3] = das_proof.commitments[0];
    assert!(matches!(check(&das_proof), VerifyResult::Accept));
    // So it is for batches with proofs.
    let config = default_config(2, true, 32);
    let codewords = codewords[..4].to_vec();
    let mut das_proof =
        prove_das(&toy_hash, &vm(), &toy_compile, &toy_prove, codewords, &config);
    das_proof.aggregated_proof.batch_proofs.swap(0, 1);
    assert!(matches!(check(&das_proof), VerifyResult::Accept));
}

#[test]
fn coverage_is_asked_last() {
    let n = 32;
    let codewords: Vec<Codeword> = (0..4).map(|i| make_codeword(n, i)).collect();
    let trees: Vec<_> =
        codewords.iter().map(|cw| commit_codeword_with_tree(&toy_hash, cw)).collect();
    let config = default_config(2, true, n);
    let mut das_proof =
        prove_das(&toy_hash, &vm(), &toy_compile, &toy_prove, codewords.clone(), &config);
    das_proof.commitments.push(Commitment { root: [F::from_usize(7); 8] });
    let good = open_position(&codewords[1], &trees[1].1, 20);
    let mut short = open_position(&codewords[3], &trees[3].1, 20);
    short.siblings.pop();
    let openings = vec![(1, good), (3, short)];
    let check = |das_proof: &leandas::pipeline::DasProof<ToyProof>, count: usize| {
        let openings = &openings[..count];
        verify_das(&toy_hash, &vm(), &toy_compile, &toy_verify, das_proof, openings)
    };
    assert!(matches!(check(&das_proof, 1), VerifyResult::RejectProof { batch_index: 2 }));
    // An opening that does not verify comes first, and before it a proof.
    assert!(matches!(
        check(&das_proof, 2),
        VerifyResult::RejectOpening { codeword_index: 3, position: 1 }
    ));
    das_proof.aggregated_proof.batch_proofs[1].proof.as_mut().unwrap().ok = false;
    assert!(matches!(check(&das_proof, 2), VerifyResult::RejectProof { batch_index: 1 }));
}

#[test]
fn given_bytecode_is_used() {
    let codewords: Vec<Codeword> = (0..2).map(|i| make_codeword(32, i)).collect();
    let config = default_config(2, true, 32);
    let mut bytecode = compile_das_circuit(&vm(), &toy_compile, 2, 32, EVALS_PER_LEAF, 16);
    bytecode.hash = [F::from_usize(77); 8];
    let das_proof = prove_das_with_bytecode(
        &toy_hash,
        &vm(),
        &toy_compile,
        &toy_prove,
        codewords,
        &config,
        Some(bytecode.clone()),
    );
    let own = verify_das_with_bytecode(
        &toy_hash,
        &vm(),
        &toy_compile,
        &toy_verify,
        &das_proof,
        &[],
        Some(bytecode),
    );
    assert!(matches!(own, VerifyResult::Accept));
    // A verifier that compiles its own circuit expects another digest of it.
    let compiled = verify_das(&toy_hash, &vm(), &toy_compile, &toy_verify, &das_proof, &[]);
    assert!(matches!(compiled, VerifyResult::RejectProof { batch_index: 0 }));
}

#[test]
fn first_bad_opening_is_reported() {
    let n = 64;
    let codewords: Vec<Codeword> = (0..3)
        .map(|i| rs_encode(&[F::from_usize(i + 1), F::from_usize(5)], n))
        .collect();
    let trees: Vec<_> = codewords
        .iter()
        .map(|cw| commit_codeword_with_tree(&toy_hash, cw))
        .collect();
    let config = default_config(2, false, n);
    let das_proof =
        prove_das(&toy_hash, &vm(), &toy_compile, &toy_prove, codewords.clone(), &config);
    let good = open_position(&codewords[0], &trees[0].1, 33);
    // The opening of another codeword, and one without its path.
    let wrong = open_position(&codewords[1], &trees[1].1, 40);
    let mut short = open_position(&codewords[1], &trees[1].1, 0);
    short.siblings.pop();
    let openings = vec![(0, good), (2, wrong), (1, short)];
    let result = verify_das(&toy_hash, &vm(), &toy_compile, &toy_verify, &das_proof, &openings);
    assert!(matches!(result, VerifyResult::RejectOpening { codeword_index: 2, position: 2 }));
    let result =
        verify_das(&toy_hash, &vm(), &toy_compile, &toy_verify, &das_proof, &openings[2..]);
    assert!(matches!(result, VerifyResult::RejectOpening { codeword_index: 1, position: 0 }));
}

#[test]
fn batches_partition_the_codewords() {
    let codewords: Vec<Codeword> = (0..7).map(|i| make_codeword(16, i)).collect();
    let config = default_config(3, false, 16);
    let das_proof = prove_das(&toy_hash, &vm(), &toy_compile, &toy_prove, codewords, &config);
    assert_eq!(das_proof.batch_size, 3);
    assert_eq!(das_proof.codeword_length, 16);
    assert_eq!(das_proof.degree, 8);
    let sizes: Vec<usize> =
        das_proof.aggregated_proof.batch_proofs.iter().map(|bp| bp.commitments.len()).collect();
    assert_eq!(sizes, vec![3, 3, 1]);
    let covered: Vec<Commitment> = das_proof
        .aggregated_proof
        .batch_proofs
        .iter()
        .flat_map(|bp| bp.commitments.clone())
        .collect();
    assert_eq!(covered, das_proof.commitments);
    assert_eq!(das_proof.aggregated_proof.commitments, das_proof.commitments);
    assert!(das_proof.aggregated_proof.proof.is_none());
}

#[test]
fn batch_size_is_capped_by_the_codewords() {
    let codewords: Vec<Codeword> = (0..2).map(|i| make_codeword(256, i)).collect();
    let config = DasConfig { batch_size: 8, ..DasConfig::default() };
    let das_proof = prove_das(&toy_hash, &vm(), &toy_compile, &toy_prove, codewords, &config);
    assert_eq!(das_proof.batch_size, 2);
    assert_eq!(das_proof.evals_per_leaf, 64);
    assert_eq!(das_proof.aggregated_proof.batch_proofs.len(), 1);
}

#[test]
fn default_configuration() {
    let config = DasConfig::default();
    assert_eq!(config.batch_size, 8);
    assert!(!config.zkvm_mode);
    assert_eq!(config.evals_per_leaf, None);
    assert_eq!(config.degree, 1);
    assert_eq!(config.parallel, 0);
}

#[test]
fn a_single_batch_carries_its_proof_up() {
    let codewords: Vec<Codeword> = (0..2).map(|i| make_codeword(32, i)).collect();
    let config = default_config(2, true, 32);
    let das_proof = prove_das(&toy_hash, &vm(), &toy_compile, &toy_prove, codewords, &config);
    let agg = &das_proof.aggregated_proof;
    let batch = &agg.batch_proofs[0];
    assert_eq!(agg.public_input, batch.public_input);
    assert_eq!(
        agg.proof.as_ref().unwrap().public_input,
        batch.proof.as_ref().unwrap().public_input
    );
    assert_eq!(agg.public_input.as_ref().unwrap().len(), 16);
}

#[test]
fn make_batch_takes_its_share() {
    let codewords: Vec<Codeword> = (0..5).map(|i| make_codeword(16, i)).collect();
    let commitments: Vec<Commitment> =
        codewords.iter().map(|cw| commit_codeword(&toy_hash, cw)).collect();
    let batch = make_batch(&codewords, &commitments, 2, 2);
    assert_eq!(batch.indices, vec![4]);
    assert_eq!(batch.codewords[0].evals, codewords[4].evals);
    assert_eq!(batch.commitments, vec![commitments[4]]);
    assert_eq!(batch.challenges, vec![derive_challenge(&commitments[4])]);
    let batch = make_batch(&codewords, &commitments, 2, 1);
    assert_eq!(batch.indices, vec![2, 3]);
    assert_eq!(count_batches(5, 2), 3);
    assert_eq!(count_batches(4, 2), 2);
    assert_eq!(count_batches(1, 9), 1);
}

#[test]
fn schedules() {
    let mut config = default_config(1, false, 32);
    config.parallel = 4;
    assert_eq!(schedule(&config, 8, 10), Schedule::Reference);
    config.zkvm_mode = true;
    assert_eq!(
        schedule(&config, 8, 10),
        Schedule::Parallel { concurrency: 4, threads_per_batch: 2 }
    );
    assert_eq!(
        schedule(&config, 3, 2),
        Schedule::Parallel { concurrency: 3, threads_per_batch: 1 }
    );
    assert_eq!(schedule(&config, 1, 10), Schedule::Sequential);
    config.parallel = 0;
    assert_eq!(schedule(&config, 8, 10), Schedule::Sequential);
    assert_eq!(batch_groups(7, 3), vec![(0, 3), (3, 6), (6, 7)]);
    assert_eq!(batch_groups(0, 3), vec![]);
}

#[test]
fn reference_proof_of_a_batch() {
    let batch = constant_batch(3, 16, EVALS_PER_LEAF);
    let bp: BatchProof<ToyProof> = prove_batch(&batch);
    assert_eq!(bp.commitments, batch.commitments);
    assert!(bp.proof.is_none());
    assert!(bp.public_input.is_none());
    // The combination of constant codewords folds to the combination of the constants.
    let expected = batch.challenges[0]
        .add(batch.challenges[1].mul(EF::from(F::from_usize(2))))
        .add(batch.challenges[2].mul(EF::from(F::from_usize(3))));
    assert_eq!(fold_batch(&batch), expected);
}

#[test]
fn reference_challenges_repeat_the_round() {
    let challenges = build_reference_challenges(3);
    for (i, c) in challenges.iter().enumerate() {
        let coeffs = [F::from_usize(i + 1); 5];
        assert_eq!(*c, EF::from_basis_coefficients_slice(&coeffs).unwrap());
    }
    assert_eq!(challenges.len(), 3);
}

#[test]
fn spotcheck_witness_holds_the_combination() {
    let batch = make_rs_batch(2, 32, 8);
    let record = |_bc: &Bytecode<Program>, pi: &Vec<F>, w: &Witness, rate: usize| {
        (pi.clone(), w.private_input.clone(), rate)
    };
    let bytecode = compile_das_circuit(&vm(), &toy_compile, 2, 32, EVALS_PER_LEAF, 8);
    let ((pi, private_input, rate), public_input) =
        prove_spotcheck_circuit(&toy_hash, &vm(), &record, &bytecode, &batch, 8);
    assert_eq!(pi, public_input);
    assert_eq!(rate, 1);
    assert_eq!(&pi[..8], &hash_commitments(&toy_hash, &batch.commitments));
    let rlc = compute_rlc(&batch.codewords, &batch.challenges);
    let last = rlc[31];
    assert_eq!(&private_input[private_input.len() - 5..], &last.coeffs);
}

#[test]
fn unified_verification_needs_a_recursive_proof() {
    let n = 32;
    let cw = make_codeword(n, 1);
    let (_, tree) = commit_codeword_with_tree(&toy_hash, &cw);
    let config = default_config(1, false, n);
    let das_proof =
        prove_das(&toy_hash, &vm(), &toy_compile, &toy_prove, vec![cw.clone()], &config);
    let opening = open_position(&cw, &tree, 9);
    let result = verify_das_unified(
        &toy_hash,
        &vm(),
        &toy_machine(),
        &toy_compile,
        &toy_whir,
        &|_: usize| 20,
        &toy_verify,
        &das_proof,
        &[(0, opening)],
        4,
    );
    assert!(matches!(result, Ok(VerifyResult::RejectProof { batch_index: 0 })));
}

#[test]
fn unified_verification_of_a_recursive_proof() {
    let n = 32;
    let cw = make_codeword(n, 1);
    let (_, tree) = commit_codeword_with_tree(&toy_hash, &cw);
    let config = default_config(1, false, n);
    let mut das_proof =
        prove_das(&toy_hash, &vm(), &toy_compile, &toy_prove, vec![cw.clone()], &config);
    let public_input = vec![F::from_usize(3); 80];
    das_proof.aggregated_proof.public_input = Some(public_input.clone());
    das_proof.aggregated_proof.proof = Some(ToyProof { public_input, ok: true });
    // The one proof stands for the batches.
    das_proof.aggregated_proof.batch_proofs.clear();
    // The size that the circuit is compiled for settles on the second attempt.
    let run = |das_proof: &leandas::pipeline::DasProof<ToyProof>, zero_eval: F, attempts: usize| {
        let compile = |kind: CircuitKind, r: Replacements| {
            assert!(matches!(kind, CircuitKind::Unified));
            Bytecode { log_size: 19, zero_eval, ..toy_compile(kind, r) }
        };
        verify_das_unified(
            &toy_hash,
            &vm(),
            &toy_machine(),
            &compile,
            &toy_whir,
            &|_: usize| 20,
            &toy_verify,
            das_proof,
            &[(0, open_position(&cw, &tree, 9))],
            attempts,
        )
    };
    assert!(matches!(run(&das_proof, F::one(), 2), Ok(VerifyResult::Accept)));
    assert!(matches!(run(&das_proof, F::one(), 1), Err(CompileError::NotConverged)));
    assert!(matches!(run(&das_proof, F::one(), 0), Err(CompileError::NotConverged)));
    assert!(matches!(run(&das_proof, F::two(), 2), Err(CompileError::WrongZeroEval)));
    das_proof.aggregated_proof.proof.as_mut().unwrap().ok = false;
    let result = run(&das_proof, F::one(), 2);
    assert!(matches!(result, Ok(VerifyResult::RejectProof { batch_index: 0 })));
    das_proof.aggregated_proof.proof.as_mut().unwrap().ok = true;
    // A commitment may be there twice.
    let extra = das_proof.commitments[0];
    das_proof.commitments.push(extra);
    assert!(matches!(run(&das_proof, F::one(), 2), Ok(VerifyResult::Accept)));
    // One that the proof does not list.
    das_proof.commitments[1].root[0] = F::zero();
    let result = run(&das_proof, F::one(), 2);
    assert!(matches!(result, Ok(VerifyResult::RejectProof { batch_index: 1 })));
    // With that, an opening that does not verify is reported first.
    das_proof.commitments[0].root[0] = F::zero();
    let result = run(&das_proof, F::one(), 2);
    assert!(matches!(
        result,
        Ok(VerifyResult::RejectOpening { codeword_index: 0, position: 0 })
    ));
}
