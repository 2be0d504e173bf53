use leandas::circuit::{
    compile_das_circuit, compile_hybrid_das_circuit, compile_unified_das_circuit, CircuitKind,
};
use leandas::claims::Reduction;
use leandas::commitment::{commit_codeword, commit_codeword_epl};
use leandas::fold::{challenge_from_digest, fold_iterative};
use leandas::inputs::{build_public_memory, chain_digests, hash_commitments};
use leandas::machine::{MachineParams, WhirSummary};
use leandas::polynomial::rs_encode;
use leandas::proving::{prove_circuit, prove_unified_leaf, verify_circuit_with_public_input};
use leandas::recursion::{prove_hybrid_recursion, prove_unified_recursion};
use leandas::rlc::{compute_rlc, derive_challenge};
use leandas::text::Replacements;
use leandas::types::{Batch, EVALS_PER_LEAF};
use leandas::vm::{bind_hash, Bytecode, Evaluation, RawProof, Verified, VmParams, Witness};
use leandas::{Codeword, Commitment, EF, F};

/// A compression function for tests: three rounds of cubing and mixing over both digests.
fn toy_hash(l: [F; 8], r: [F; 8]) -> [F; 8] {
    let mut s: Vec<F> = l.iter().chain(r.iter()).copied().collect();
    for round in 0..3usize {
        for i in 0..16 {
            let x = s[i].add(F::from_usize(31 * round + i + 1));
            let cube = x.mul(x).mul(x);
            let neighbour = s[(i + 5) % 16].mul(F::from_usize(i + 2));
            s[(i + 1) % 16] = s[(i + 1) % 16].add(cube).add(neighbour);
        }
    }
    let mut d = [F::zero(); 8];
    for i in 0..8 {
        d[i] = s[i].add(s[i + 8].mul(F::from_usize(3)));
    }
    d
}

fn vm() -> VmParams {
    VmParams { input_start: 16, n_instruction_columns: 12, domain_sep: [F::from_usize(5); 8] }
}

fn machine() -> MachineParams {
    MachineParams {
        rs_domain_initial_reduction_factor: 5,
        n_tables: 0,
        min_log_n_rows_per_table: 8,
        max_log_n_rows_per_table: vec![],
        min_whir_log_inv_rate: 1,
        max_whir_log_inv_rate: 2,
        min_log_memory_size: 16,
        max_log_memory_size: 26,
        max_bus_width: 4,
        logup_memory_domainsep: 0,
        logup_precompile_domainsep: 1,
        logup_bytecode_domainsep: 2,
        col_pc: 0,
        max_num_variables_to_send_coeffs: 9,
        whir_initial_folding_factor: 7,
        whir_subsequent_folding_factor: 5,
        execution_table_index: 0,
        max_air_constraints: 1,
        n_runtime_columns: 20,
        total_whir_statements: 1,
        starting_pc: 0,
        ending_pc: 1,
        tables: vec![],
        airs: vec![],
    }
}

fn whir(_log_inv_rate: usize, _n_vars: usize) -> WhirSummary {
    WhirSummary {
        commitment_ood_samples: 1,
        starting_folding_pow_bits: 0,
        rounds: vec![],
        final_queries: 8,
        final_query_pow_bits: 3,
    }
}

fn min_stacked(_log_size: usize) -> usize {
    20
}

/// A program of the toy machine: its template, and one instruction for each name in it.
struct Program {
    kind: CircuitKind,
    instructions: Vec<String>,
    values: Replacements,
}

impl Program {
    fn number(&self, key: &str) -> usize {
        self.values.get(key).unwrap().parse().unwrap()
    }
}

fn compile(kind: CircuitKind, r: Replacements) -> Bytecode<Program> {
    let instructions: Vec<String> =
        r.entries.iter().map(|(name, value)| format!("{name} = {value}")).collect();
    let (log_size, tag) = match kind {
        CircuitKind::Batch => (10, 1),
        CircuitKind::SpotCheck => (11, 2),
        CircuitKind::Unified => (19, 3),
        CircuitKind::Hybrid => (20, 4),
    };
    Bytecode {
        log_size,
        zero_eval: F::one(),
        hash: [F::from_usize(100 * instructions.len() + tag); 8],
        program: Program { kind, instructions, values: r },
    }
}

/// What the toy machine gives: the public input of the run, or why there is no proof.
type Outcome = Result<Vec<F>, String>;

fn digest(s: &[F]) -> [F; 8] {
    let mut d = [F::zero(); 8];
    d.copy_from_slice(&s[..8]);
    d
}

/// The statement on a batch: the rows are committed to, and the combination of the
/// codewords folds to a constant.
fn check_batch(p: &Program, coms: &[Commitment], rows: &[F], rlc: &[EF]) -> Result<(), String> {
    let n = p.number("__CODEWORD_LEN__");
    for (com, row) in coms.iter().zip(rows.chunks(n)) {
        let cw = Codeword::new(row.to_vec());
        if commit_codeword_epl(&toy_hash, &cw, p.number("__EPL__")) != *com {
            return Err(String::from("wrong root"));
        }
    }
    let beta = challenge_from_digest(&hash_commitments(&toy_hash, coms));
    let folded = fold_iterative(&rlc.to_vec(), p.number("__NUM_FOLD_ROUNDS__"), beta);
    if folded.iter().any(|v| *v != folded[0]) {
        return Err(String::from("not constant"));
    }
    Ok(())
}

/// Read the roots and rows at the start of a batch's data.
fn read_batch<'a>(p: &Program, data: &'a [F]) -> (Vec<Commitment>, &'a [F], &'a [F]) {
    let (b, n) = (p.number("__BATCH_SIZE__"), p.number("__CODEWORD_LEN__"));
    let coms = data[..8 * b].chunks(8).map(|c| Commitment { root: digest(c) }).collect();
    (coms, &data[8 * b..(8 + n) * b], &data[(8 + n) * b..])
}

/// The batch circuit: combines the columns.
fn run_batch(p: &Program, pi: &[F], data: &[F]) -> Result<(), String> {
    let (coms, rows, rest) = read_batch(p, data);
    assert_eq!(rest.len(), rows.len());
    let rlc: Vec<EF> = rest
        .chunks(coms.len())
        .map(|column| {
            coms.iter().zip(column).fold(EF::zero(), |acc, (com, value)| {
                acc.add(derive_challenge(com).mul(EF::from(*value)))
            })
        })
        .collect();
    if pi[..8] != hash_commitments(&toy_hash, &coms) {
        return Err(String::from("wrong commitments"));
    }
    check_batch(p, &coms, rows, &rlc)
}

/// The unified circuit on one raw batch: combines the first codeword as extension elements
/// and the columns of the others.
fn run_unified_leaf(p: &Program, pi: &[F], w: &[F], base: usize) -> Result<(), String> {
    assert_eq!(w[1], F::one());
    let start = w[2].as_canonical_u32() as usize - base;
    assert_eq!(w[3], F::from_usize(base + w.len()));
    let (coms, rows, rest) = read_batch(p, &w[start..]);
    let (b, n) = (coms.len(), p.number("__CODEWORD_LEN__"));
    let (first, others) = rest.split_at(5 * n);
    assert_eq!(others.len(), n * (b - 1));
    let rlc: Vec<EF> = (0..n)
        .map(|j| {
            let value = EF::from_basis_coefficients_slice(&first[5 * j..5 * j + 5]).unwrap();
            let mut acc = derive_challenge(&coms[0]).mul(value);
            for i in 1..b {
                let other = EF::from(others[j * (b - 1) + i - 1]);
                acc = acc.add(derive_challenge(&coms[i]).mul(other));
            }
            acc
        })
        .collect();
    let hash = hash_commitments(&toy_hash, &coms);
    if pi[..8] != chain_digests(&toy_hash, &[hash]) {
        return Err(String::from("wrong commitments"));
    }
    check_batch(p, &coms, rows, &rlc)
}

/// A recursive circuit: chains the hashes that the public inputs of the proofs start with.
fn run_recursion(pi: &[F], w: &[F], base: usize) -> Result<(), String> {
    let count = (w[0].as_canonical_u32() + w[1].as_canonical_u32()) as usize;
    let hashes: Vec<[F; 8]> = (0..count)
        .map(|i| {
            // The value of the claim, the reserved memory, the public input.
            let start = w[2 + i].as_canonical_u32() as usize - base;
            digest(&w[start + 5 + 16..])
        })
        .collect();
    if pi[..8] != chain_digests(&toy_hash, &hashes) {
        return Err(String::from("wrong hashes"));
    }
    Ok(())
}

/// Run a program; there is no proof of a run that fails.
fn prove(bc: &Bytecode<Program>, pi: &Vec<F>, w: &Witness, _rate: usize) -> Outcome {
    let base = build_public_memory(&vm(), pi).len();
    let data = &w.private_input;
    match bc.program.kind {
        CircuitKind::Batch => run_batch(&bc.program, pi, data)?,
        CircuitKind::Unified if data[0] == F::zero() => {
            run_unified_leaf(&bc.program, pi, data, base)?
        }
        _ => run_recursion(pi, data, base)?,
    }
    if pi[pi.len() - 8..] != bind_hash(&toy_hash, &vm(), &bc.hash) {
        return Err(String::from("wrong program"));
    }
    Ok(pi.clone())
}

fn verify(bc: &Bytecode<Program>, pi: &Vec<F>, p: &Outcome) -> Result<Verified, String> {
    if p.as_ref()? != pi {
        return Err(String::from("wrong public input"));
    }
    Ok(Verified {
        bytecode_evaluation: Evaluation {
            point: vec![EF::from(pi[0]); bc.log_size + 4],
            value: EF::one(),
        },
        raw_proof: RawProof { transcript: vec![pi[0]], merkle_openings: vec![] },
    })
}

fn begin(claims: &Vec<Evaluation>) -> (usize, EF) {
    (claims.len(), EF::from(F::from_usize(2)))
}

fn sumcheck(
    state: usize,
    bc: &Bytecode<Program>,
    _claims: &Vec<Evaluation>,
    _powers: &Vec<EF>,
    sum: EF,
) -> Reduction {
    Reduction {
        point: vec![EF::from(F::from_usize(state)); bc.log_size + 4],
        value: sum,
        transcript: vec![F::from_usize(state)],
    }
}

/// A batch with commitments and challenges that fit its codewords.
fn batch_of(codewords: Vec<Codeword>) -> Batch {
    let commitments: Vec<Commitment> =
        codewords.iter().map(|cw| commit_codeword(&toy_hash, cw)).collect();
    let challenges: Vec<EF> = commitments.iter().map(derive_challenge).collect();
    Batch { indices: (0..codewords.len()).collect(), codewords, commitments, challenges }
}

/// Constant codewords from the given one on.
fn constants(batch_size: usize, codeword_len: usize, first: usize) -> Vec<Codeword> {
    (0..batch_size)
        .map(|i| Codeword::new(vec![F::from_usize(first + i); codeword_len]))
        .collect()
}

/// Codewords of polynomials with no pattern to them.
fn polynomials(batch_size: usize, codeword_len: usize, degree: usize) -> Vec<Codeword> {
    (0..batch_size)
        .map(|i| {
            let msg: Vec<F> =
                (0..degree).map(|j| F::from_usize((i + 1) * (j + 1) + i * 7 + 3)).collect();
            rs_encode(&msg, codeword_len)
        })
        .collect()
}

#[test]
fn test_compile_circuit() {
    let bytecode = compile_das_circuit(&vm(), &compile, 2, 16, EVALS_PER_LEAF, 8);
    assert!(
        !bytecode.program.instructions.is_empty(),
        "compiled circuit should have instructions"
    );
    assert!(matches!(bytecode.program.kind, CircuitKind::Batch));
}

#[test]
fn circuit_test_tampered_codeword_rejected() {
    let batch_size = 1;
    let codeword_len = 32;

    let mut codewords = constants(batch_size, codeword_len, 1);
    let untouched = batch_of(codewords.clone());
    codewords[0].evals[7] = F::from_usize(999_999);
    let batch = batch_of(codewords);

    let degree = codeword_len / 2;
    let bytecode =
        compile_das_circuit(&vm(), &compile, batch_size, codeword_len, EVALS_PER_LEAF, degree);

    let (result, _) = prove_circuit(&toy_hash, &vm(), &prove, &bytecode, &batch, degree);
    assert!(result.is_err(), "tampered codeword should fail FRI constant check");
    assert_eq!(result, Err(String::from("not constant")));
    let (result, _) = prove_circuit(&toy_hash, &vm(), &prove, &bytecode, &untouched, degree);
    assert!(result.is_ok());
}

#[test]
fn test_tampered_rs_codeword_rejected() {
    let batch_size = 1;
    let codeword_len = 32;
    let degree = 8;

    let mut codewords = polynomials(batch_size, codeword_len, degree);
    let untouched = batch_of(codewords.clone());
    assert_ne!(codewords[0].evals[0], codewords[0].evals[1]);
    codewords[0].evals[5] = codewords[0].evals[5].add(F::from_usize(1));
    let batch = batch_of(codewords);

    let bytecode =
        compile_das_circuit(&vm(), &compile, batch_size, codeword_len, EVALS_PER_LEAF, degree);

    let (result, _) = prove_circuit(&toy_hash, &vm(), &prove, &bytecode, &batch, degree);
    assert!(result.is_err(), "tampered RS codeword should fail FRI constant check");
    assert_eq!(result, Err(String::from("not constant")));
    let (result, _) = prove_circuit(&toy_hash, &vm(), &prove, &bytecode, &untouched, degree);
    assert!(result.is_ok());
}

#[test]
fn the_batch_circuit_reads_rows_and_columns() {
    let batch = batch_of(polynomials(3, 32, 8));
    let bytecode = compile_das_circuit(&vm(), &compile, 3, 32, EVALS_PER_LEAF, 8);
    let record = |_bc: &Bytecode<Program>, _pi: &Vec<F>, w: &Witness, _rate: usize| {
        w.private_input.clone()
    };
    let (data, _) = prove_circuit(&toy_hash, &vm(), &record, &bytecode, &batch, 8);
    assert_eq!(data.len(), 3 * 8 + 3 * 32 + 32 * 3);
    assert_eq!(&data[8..16], &batch.commitments[1].root);
    assert_eq!(data[24 + 32 + 5], batch.codewords[1].evals[5]);
    assert_eq!(data[24 + 96 + 3 * 5 + 1], batch.codewords[1].evals[5]);
    // The columns give the combination of the codewords.
    let (result, _) = prove_circuit(&toy_hash, &vm(), &prove, &bytecode, &batch, 8);
    assert!(result.is_ok());
    let rlc = compute_rlc(&batch.codewords, &batch.challenges);
    let first = (0..3).fold(EF::zero(), |acc, i| {
        acc.add(batch.challenges[i].mul(EF::from(data[24 + 96 + i])))
    });
    assert_eq!(rlc[0], first);
}

#[test]
fn test_compile_unified_circuit() {
    let bytecode = compile_unified_das_circuit(
        &vm(), &machine(), &compile, &whir, &min_stacked, 1, 32, EVALS_PER_LEAF, 16, 4,
    )
    .unwrap();
    assert!(
        !bytecode.program.instructions.is_empty(),
        "unified circuit should have instructions"
    );
    assert!(matches!(bytecode.program.kind, CircuitKind::Unified));
}

#[test]
fn test_prove_unified_leaf_mode() {
    let batch_size = 1;
    let codeword_len = 32;
    let degree = 16;
    let log_inv_rate = 1;

    let bytecode = compile_unified_das_circuit(
        &vm(), &machine(), &compile, &whir, &min_stacked, batch_size, codeword_len,
        EVALS_PER_LEAF, degree, 4,
    )
    .unwrap();
    let batch = batch_of(constants(batch_size, codeword_len, 1));

    let (proof, pub_input) =
        prove_unified_leaf(&toy_hash, &vm(), &prove, &bytecode, &batch, log_inv_rate);
    let result = verify_circuit_with_public_input(&verify, &bytecode, &pub_input, &proof);
    assert!(result.is_ok(), "unified leaf proof should verify: {:?}", result.err());
}

#[test]
fn a_unified_leaf_combines_all_codewords() {
    let bytecode = compile_unified_das_circuit(
        &vm(), &machine(), &compile, &whir, &min_stacked, 3, 32, EVALS_PER_LEAF, 8, 4,
    )
    .unwrap();
    let mut codewords = polynomials(3, 32, 8);
    let batch = batch_of(codewords.clone());
    let (proof, _) = prove_unified_leaf(&toy_hash, &vm(), &prove, &bytecode, &batch, 1);
    assert!(proof.is_ok());
    for i in 0..3 {
        let value = codewords[i].evals[9];
        codewords[i].evals[9] = value.add(F::one());
        let batch = batch_of(codewords.clone());
        let (proof, _) = prove_unified_leaf(&toy_hash, &vm(), &prove, &bytecode, &batch, 1);
        assert_eq!(proof, Err(String::from("not constant")));
        codewords[i].evals[9] = value;
    }
}

#[test]
fn test_prove_unified_recursion_end_to_end() {
    let batch_size = 1;
    let codeword_len = 32;
    let degree = 16;
    let log_inv_rate = 1;

    let bytecode = compile_unified_das_circuit(
        &vm(), &machine(), &compile, &whir, &min_stacked, batch_size, codeword_len,
        EVALS_PER_LEAF, degree, 4,
    )
    .unwrap();

    let num_batches = 2;
    let mut leaf_proofs = Vec::new();
    for batch_idx in 0..num_batches {
        let batch = batch_of(constants(batch_size, codeword_len, batch_idx * batch_size + 1));
        let (proof, pub_input) =
            prove_unified_leaf(&toy_hash, &vm(), &prove, &bytecode, &batch, log_inv_rate);
        verify(&bytecode, &pub_input, &proof).expect("leaf proof must verify");
        leaf_proofs.push((pub_input, proof));
    }

    let (rec_proof, rec_pub_input) = prove_unified_recursion(
        &toy_hash, &vm(), &verify, &begin, &sumcheck, &prove, &leaf_proofs, &bytecode,
        log_inv_rate,
    );
    verify(&bytecode, &rec_pub_input, &rec_proof).expect("recursive proof must verify");
}

#[test]
fn test_compile_hybrid_circuit() {
    let (inner_bytecode, hybrid_bytecode) = compile_hybrid_das_circuit(
        &vm(), &machine(), &compile, &whir, &min_stacked, 1, 32, EVALS_PER_LEAF, 16, 4,
    )
    .unwrap();
    assert!(
        !inner_bytecode.program.instructions.is_empty(),
        "inner circuit should have instructions"
    );
    assert!(
        !hybrid_bytecode.program.instructions.is_empty(),
        "hybrid circuit should have instructions"
    );
    assert!(
        hybrid_bytecode.log_size > inner_bytecode.log_size,
        "hybrid circuit should be larger than inner"
    );
}

#[test]
fn test_prove_hybrid_recursion_end_to_end() {
    let batch_size = 1;
    let codeword_len = 32;
    let degree = 16;
    let log_inv_rate = 1;

    let (inner_bytecode, hybrid_bytecode) = compile_hybrid_das_circuit(
        &vm(), &machine(), &compile, &whir, &min_stacked, batch_size, codeword_len,
        EVALS_PER_LEAF, degree, 4,
    )
    .unwrap();

    let num_batches = 4;
    let mut inner_proofs = Vec::new();
    for batch_idx in 0..num_batches {
        let batch = batch_of(constants(batch_size, codeword_len, batch_idx * batch_size + 1));
        let (proof, pub_input) =
            prove_circuit(&toy_hash, &vm(), &prove, &inner_bytecode, &batch, degree);
        verify(&inner_bytecode, &pub_input, &proof).expect("inner batch proof must verify");
        inner_proofs.push((pub_input, proof));
    }

    let (rec_proof, rec_pub_input) = prove_hybrid_recursion(
        &toy_hash, &vm(), &verify, &begin, &sumcheck, &prove, &vec![], &inner_proofs,
        &hybrid_bytecode, &inner_bytecode, log_inv_rate,
    );
    verify(&hybrid_bytecode, &rec_pub_input, &rec_proof)
        .expect("hybrid recursive proof must verify");
}
