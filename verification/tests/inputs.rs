use leandas::commitment::commit_codeword;
use leandas::inputs::{
    build_default_claim, build_hybrid_public_input, build_public_memory,
    build_unified_public_input, build_verifier_public_input, chain_digests, hash_commitments,
    prepare_public_input, prepare_public_input_with_hash,
};
use leandas::proving::prove_unified_leaf;
use leandas::rlc::derive_challenge;
use leandas::types::{Batch, DIGEST_SIZE};
use leandas::vm::{bind_hash, claim_sizes, Bytecode, VmParams, Witness};
use leandas::witness::{prepare_batch_data, prepare_private_input, prepare_unified_leaf_private_input};
use leandas::{Codeword, Commitment, EF, F};

const DIMENSION: usize = 5;

/// A compression function for tests: three rounds of cubing and mixing over both digests.
fn toy_hash(l: [F; 8], r: [F; 8]) -> [F; 8] {
    let mut s: Vec<F> = l.iter().chain(r.iter()).copied().collect();
    for round in 0..3usize {
        for i in 0..16 {
            let x = s[i].add(F::from_usize(31 * round + i + 1));
            let cube = x.mul(x).mul(x);
            let neighbour = s[(i + 5) % 16].mul(F::from_usize(i + 2));
            s[(i + 1) % 16] = s[(i + 1) % 16].add(cube).add(neighbour);
        }
    }
    let mut d = [F::zero(); 8];
    for i in 0..8 {
        d[i] = s[i].add(s[i + 8].mul(F::from_usize(3)));
    }
    d
}

fn make_batch(batch_size: usize, codeword_len: usize) -> Batch {
    let codewords: Vec<Codeword> = (0..batch_size)
        .map(|i| {
            let c = F::from_usize(i + 1);
            let evals = vec![c; codeword_len];
            Codeword::new(evals)
        })
        .collect();
    let commitments: Vec<Commitment> =
        codewords.iter().map(|cw| commit_codeword(&toy_hash, cw)).collect();
    let challenges: Vec<EF> = commitments.iter().map(derive_challenge).collect();
    Batch { indices: (0..batch_size).collect(), codewords, commitments, challenges }
}

fn vm() -> VmParams {
    VmParams { input_start: 16, n_instruction_columns: 12, domain_sep: [F::from_usize(9); 8] }
}

fn bytecode(log_size: usize, tag: usize) -> Bytecode<()> {
    Bytecode {
        log_size,
        zero_eval: F::from_usize(tag),
        hash: [F::from_usize(100 + tag); 8],
        program: (),
    }
}

#[test]
fn test_prepare_public_input() {
    let batch = make_batch(2, 16);
    let pub_input = prepare_public_input(&toy_hash, &vm(), &batch);

    // Public input is now just the chain hash of commitments (DIGEST_SIZE elements).
    assert_eq!(pub_input.len(), DIGEST_SIZE);

    // Verify the hash matches what hash_commitments produces.
    let expected_hash = hash_commitments(&toy_hash, &batch.commitments);
    assert_eq!(&pub_input[..DIGEST_SIZE], &expected_hash);
}

#[test]
fn test_prepare_private_input() {
    let batch = make_batch(2, 16);
    let degree = 8;
    let priv_input = prepare_private_input(&batch, degree);

    let b = 2;
    let n = 16;
    let v = 1; // RLC_VEC_BATCH
    // Region 0 (B*DIGEST) + Region 1 (B*N) + Region 2 (V*N*DIM) + Region 3 ((B-V)*N)
    assert_eq!(priv_input.len(), b * DIGEST_SIZE + b * n + v * n * DIMENSION + (b - v) * n);
    // Region 0 (commitments)
    assert_eq!(&priv_input[0..DIGEST_SIZE], &batch.commitments[0].root);
    assert_eq!(&priv_input[DIGEST_SIZE..2 * DIGEST_SIZE], &batch.commitments[1].root);
    // Region 1 (row-major BF)
    let cw_base = b * DIGEST_SIZE;
    assert_eq!(priv_input[cw_base], batch.codewords[0].evals[0]);
    assert_eq!(priv_input[cw_base + n], batch.codewords[1].evals[0]);
    // Region 2 (EF-embedded row-major for first V=1 codeword)
    let ef_base = cw_base + b * n;
    assert_eq!(priv_input[ef_base], batch.codewords[0].evals[0]);
    assert_eq!(priv_input[ef_base + 1], F::zero()); // padding
    assert_eq!(priv_input[ef_base + DIMENSION], batch.codewords[0].evals[1]); // next element
    // Region 3 (column-major for remaining B-V=1 codeword)
    let col_base = ef_base + v * n * DIMENSION;
    // col_j contains codewords[V..B][j], so col_0 = cw_1[0], col_1 = cw_1[1], ...
    assert_eq!(priv_input[col_base], batch.codewords[1].evals[0]);
    assert_eq!(priv_input[col_base + 1], batch.codewords[1].evals[1]);
}

#[test]
fn commitments_are_hashed_in_a_chain_from_zero() {
    let batch = make_batch(3, 16);
    let mut h = [F::zero(); 8];
    for com in &batch.commitments {
        h = toy_hash(h, com.root);
    }
    assert_eq!(hash_commitments(&toy_hash, &batch.commitments), h);
    assert_eq!(chain_digests(&toy_hash, &[]), [F::zero(); 8]);
}

#[test]
fn public_input_with_the_program() {
    let batch = make_batch(2, 16);
    let bc = bytecode(10, 3);
    let with_hash = prepare_public_input_with_hash(&toy_hash, &vm(), &batch, &bc);
    let verifier = build_verifier_public_input(&toy_hash, &vm(), &batch.commitments, &bc);
    assert_eq!(with_hash, verifier);
    assert_eq!(with_hash.len(), 16);
    assert_eq!(&with_hash[8..], &toy_hash(bc.hash, vm().domain_sep));
    assert_eq!(bind_hash(&toy_hash, &vm(), &bc.hash), toy_hash(bc.hash, vm().domain_sep));
}

#[test]
fn claim_sizes_are_rounded_to_digests() {
    // 10 + log2_ceil(12) = 14 variables, 75 elements, padded to 80.
    assert_eq!(claim_sizes(10, 12), (14, 75, 80));
    // 12 + 4 = 16 variables, 85 elements, padded to 88.
    assert_eq!(claim_sizes(12, 16), (16, 85, 88));
    let claim = build_default_claim(14, F::from_usize(6));
    assert_eq!(claim.len(), 75);
    assert_eq!(claim[70], F::from_usize(6));
    assert!(claim.iter().enumerate().all(|(i, c)| i == 70 || *c == F::zero()));
}

#[test]
fn unified_public_input_layout() {
    let bc = bytecode(10, 3);
    let hashes = [[F::from_usize(1); 8], [F::from_usize(2); 8]];
    let input = build_unified_public_input(&toy_hash, &vm(), &hashes, &bc);
    assert_eq!(input.len(), 8 + 80 + 8);
    let agg = toy_hash(toy_hash([F::zero(); 8], hashes[0]), hashes[1]);
    assert_eq!(&input[..8], &agg);
    assert_eq!(input[8 + 70], F::from_usize(3));
    assert_eq!(&input[88..], &toy_hash(bc.hash, vm().domain_sep));
    assert!(input[8..78].iter().chain(&input[79..88]).all(|x| *x == F::zero()));
}

#[test]
fn hybrid_public_input_layout() {
    let inner = bytecode(10, 3);
    let own = bytecode(12, 4);
    let hashes = [[F::from_usize(1); 8]];
    let input = build_hybrid_public_input(&toy_hash, &vm(), &hashes, &inner, &own);
    assert_eq!(input.len(), 8 + 80 + 88 + 8 + 8);
    assert_eq!(&input[..8], &toy_hash([F::zero(); 8], hashes[0]));
    assert_eq!(input[8 + 70], F::from_usize(3));
    assert_eq!(input[88 + 80], F::from_usize(4));
    assert_eq!(&input[176..184], &toy_hash(inner.hash, vm().domain_sep));
    assert_eq!(&input[184..], &toy_hash(own.hash, vm().domain_sep));
}

#[test]
fn public_memory_is_padded_to_a_power_of_two() {
    let input = vec![F::from_usize(7); 20];
    let memory = build_public_memory(&vm(), &input);
    assert_eq!(memory.len(), 64);
    assert!(memory[..16].iter().all(|x| *x == F::zero()));
    assert_eq!(&memory[16..36], &input[..]);
    assert!(memory[36..].iter().all(|x| *x == F::zero()));
    // A length that is a power of two stays.
    assert_eq!(build_public_memory(&vm(), &vec![F::one(); 16]).len(), 32);
}

#[test]
fn unified_leaf_points_at_its_batch() {
    let batch = make_batch(2, 16);
    let data = prepare_batch_data(&batch);
    let input = prepare_unified_leaf_private_input(&batch, 128);
    assert_eq!(input[0], F::zero());
    assert_eq!(input[1], F::one());
    assert_eq!(input[2], F::from_usize(132));
    assert_eq!(input[3], F::from_usize(132 + data.len()));
    assert_eq!(&input[4..], &data[..]);
}

#[test]
fn unified_leaf_proof_is_of_the_batch() {
    let batch = make_batch(1, 32);
    let bc = bytecode(10, 1);
    let record = |_bc: &Bytecode<()>, pi: &Vec<F>, w: &Witness, rate: usize| {
        (pi.clone(), w.private_input.clone(), w.merkle_paths.len(), rate)
    };
    let ((pi, private_input, paths, rate), public_input) =
        prove_unified_leaf(&toy_hash, &vm(), &record, &bc, &batch, 2);
    assert_eq!(pi, public_input);
    assert_eq!(rate, 2);
    assert_eq!(paths, 0);
    let hash = hash_commitments(&toy_hash, &batch.commitments);
    assert_eq!(pi, build_unified_public_input(&toy_hash, &vm(), &[hash], &bc));
    let memory = build_public_memory(&vm(), &pi);
    assert_eq!(private_input, prepare_unified_leaf_private_input(&batch, memory.len()));
}
