use leandas::aggregation::{
    aggregate_pair, aggregate_proofs, aggregate_proofs_unified, aggregate_with_unified_recursion,
    is_tied_to_batches, AggregatedProof, UnifiedAggregationContext,
};
use leandas::batch::BatchProof;
use leandas::claims::{
    alpha_powers, build_zero_claim, compute_claimed_sum, compute_reduced_claim, parse_claim,
    Reduction,
};
use leandas::deep::{recurse_hybrid, recurse_unified};
use leandas::inputs::{
    build_default_claim, build_hybrid_public_input, build_public_memory,
    build_unified_public_input, hash_commitments,
};
use leandas::recursion::{
    layout_private_input, prove_hybrid_recursion, prove_unified_recursion,
};
use leandas::vm::{
    bind_hash, Bytecode, Evaluation, PathOpening, RawProof, Verified, VmParams, Witness,
};
use leandas::{Commitment, EF, F};

/// A compression function for tests: three rounds of cubing and mixing over both digests.
fn toy_hash(l: [F; 8], r: [F; 8]) -> [F; 8] {
    let mut s: Vec<F> = l.iter().chain(r.iter()).copied().collect();
    for round in 0..3usize {
        for i in 0..16 {
            let x = s[i].add(F::from_usize(31 * round + i + 1));
            let cube = x.mul(x).mul(x);
            let neighbour = s[(i + 5) % 16].mul(F::from_usize(i + 2));
            s[(i + 1) % 16] = s[(i + 1) % 16].add(cube).add(neighbour);
        }
    }
    let mut d = [F::zero(); 8];
    for i in 0..8 {
        d[i] = s[i].add(s[i + 8].mul(F::from_usize(3)));
    }
    d
}

fn vm() -> VmParams {
    VmParams { input_start: 16, n_instruction_columns: 12, domain_sep: [F::from_usize(9); 8] }
}

fn bytecode(log_size: usize, tag: usize) -> Bytecode<usize> {
    Bytecode {
        log_size,
        zero_eval: F::one(),
        hash: [F::from_usize(100 + tag); 8],
        program: tag,
    }
}

/// A proof that records what it was made of.
#[derive(Clone, Debug)]
struct Record {
    program: usize,
    public_input: Vec<F>,
    private_input: Vec<F>,
    merkle_paths: Vec<Vec<F>>,
    rate: usize,
}

fn prove(bc: &Bytecode<usize>, pi: &Vec<F>, w: &Witness, rate: usize) -> Record {
    Record {
        program: bc.program,
        public_input: pi.clone(),
        private_input: w.private_input.clone(),
        merkle_paths: w.merkle_paths.clone(),
        rate,
    }
}

/// Verification gives a claim and a transcript that tell proofs apart.
fn verify(bc: &Bytecode<usize>, pi: &Vec<F>, p: &Record) -> Result<Verified, String> {
    if p.program != bc.program || p.public_input != *pi {
        return Err(String::from("wrong program or public input"));
    }
    let n_vars = bc.log_size + 4;
    Ok(Verified {
        bytecode_evaluation: Evaluation {
            point: vec![EF::from(pi[0]); n_vars],
            value: EF::from(F::from_usize(11)),
        },
        raw_proof: RawProof {
            transcript: vec![pi[0], F::from_usize(12)],
            merkle_openings: vec![PathOpening {
                leaf_data: vec![F::from_usize(13)],
                path: vec![[F::from_usize(14); 8], [F::from_usize(15); 8]],
            }],
        },
    })
}

fn begin(claims: &Vec<Evaluation>) -> (usize, EF) {
    (claims.len(), EF::from(F::from_usize(2)))
}

/// The reduced value is the claimed sum, so that tests can see it.
fn sumcheck(
    state: usize,
    bc: &Bytecode<usize>,
    _claims: &Vec<Evaluation>,
    powers: &Vec<EF>,
    sum: EF,
) -> Reduction {
    assert_eq!(state, powers.len());
    Reduction {
        point: vec![EF::from(F::from_usize(state)); bc.log_size + 4],
        value: sum,
        transcript: vec![F::from_usize(900 + state)],
    }
}

fn leaf(bc: &Bytecode<usize>, tag: usize) -> (Vec<F>, Record) {
    let hashes = [[F::from_usize(tag); 8]];
    let pi = build_unified_public_input(&toy_hash, &vm(), &hashes, bc);
    let w = Witness { private_input: vec![], merkle_paths: vec![] };
    let proof = prove(bc, &pi, &w, 1);
    (pi, proof)
}

fn inner_leaf(bc: &Bytecode<usize>, tag: usize) -> (Vec<F>, Record) {
    let mut pi = vec![F::from_usize(tag); 8];
    pi.extend_from_slice(&bind_hash(&toy_hash, &vm(), &bc.hash));
    let w = Witness { private_input: vec![], merkle_paths: vec![] };
    let proof = prove(bc, &pi, &w, 1);
    (pi, proof)
}

#[test]
fn claims_are_parsed_and_flattened() {
    let data: Vec<F> = (0..40).map(F::from_usize).collect();
    let e = parse_claim(&data, 8, 2);
    assert_eq!(e.point.len(), 2);
    assert_eq!(
        e.point[1],
        EF::from_basis_coefficients_slice(&data[13..18]).unwrap()
    );
    assert_eq!(e.value, EF::from_basis_coefficients_slice(&data[18..23]).unwrap());
    let r = Reduction { point: e.point, value: e.value, transcript: vec![] };
    assert_eq!(compute_reduced_claim(&r), data[8..23].to_vec());
    let zero = build_zero_claim(3, F::from_usize(7));
    assert_eq!(zero.point, vec![EF::zero(); 3]);
    assert_eq!(zero.value, EF::from(F::from_usize(7)));
}

#[test]
fn claims_are_weighted_with_powers() {
    let alpha = EF::from(F::from_usize(3));
    let powers = alpha_powers(alpha, 3);
    assert_eq!(
        powers,
        vec![EF::one(), EF::from(F::from_usize(3)), EF::from(F::from_usize(9))]
    );
    let claims: Vec<Evaluation> =
        (1..4).map(|i| Evaluation { point: vec![], value: EF::from(F::from_usize(i)) }).collect();
    // 1 + 2 * 3 + 3 * 9
    let sum = compute_claimed_sum(&claims, &powers, alpha);
    assert_eq!(sum, EF::from(F::from_usize(34)));
}

#[test]
fn private_input_layout() {
    let parts = vec![vec![F::from_usize(7); 3], vec![], vec![F::from_usize(8); 2]];
    let input = layout_private_input(2, 1, &parts, 64);
    let expected: Vec<F> =
        [2, 1, 69, 72, 72, 7, 7, 7, 8, 8].iter().map(|&x| F::from_usize(x)).collect();
    assert_eq!(input, expected);
}

#[test]
fn unified_recursion_end_to_end() {
    let bc = bytecode(10, 1);
    let leaves = vec![leaf(&bc, 1), leaf(&bc, 2)];
    let (rec, pi) = prove_unified_recursion(
        &toy_hash, &vm(), &verify, &begin, &sumcheck, &prove, &leaves, &bc, 1,
    );
    assert!(verify(&bc, &pi, &rec).is_ok());
    assert_eq!(rec.public_input, pi);
    assert_eq!(rec.rate, 1);

    // The public input: hashes of the children, the reduced claim, the program.
    assert_eq!(pi.len(), 96);
    let mut agg = [F::zero(); 8];
    for l in &leaves {
        let mut d = [F::zero(); 8];
        d.copy_from_slice(&l.0[..8]);
        agg = toy_hash(agg, d);
    }
    assert_eq!(&pi[..8], &agg);
    // Four claims, in pairs: 1, 11, 1, 11 with the weights 1, 2, 4, 8.
    assert_eq!(pi[8], F::from_usize(4));
    assert_eq!(pi[8 + 70], F::from_usize(1 + 22 + 4 + 88));
    assert_eq!(&pi[88..], &bind_hash(&toy_hash, &vm(), &bc.hash));

    // The private input: two proofs, no raw batches, the address of each part.
    let base = build_public_memory(&vm(), &pi).len();
    let block = 5 + build_public_memory(&vm(), &leaves[0].0).len() + 2;
    let w = &rec.private_input;
    let header: Vec<F> = [2, 0, base + 5, base + 5 + block, base + 5 + 2 * block]
        .iter()
        .map(|&x| F::from_usize(x))
        .collect();
    assert_eq!(&w[..5], &header[..]);
    assert_eq!(w[5], F::from_usize(11));
    assert_eq!(w[10 + 16], leaves[0].0[0]);
    assert_eq!(w[5 + block - 2], leaves[0].0[0]);
    assert_eq!(w[5 + block - 1], F::from_usize(12));
    assert_eq!(w[5 + 2 * block], F::from_usize(904));
    assert_eq!(w.len(), 5 + 2 * block + 1);
    assert_eq!(rec.merkle_paths.len(), 4);
    assert_eq!(rec.merkle_paths[0], vec![F::from_usize(13)]);
    assert_eq!(rec.merkle_paths[1].len(), 16);
}

#[test]
fn hybrid_recursion_end_to_end() {
    let inner = bytecode(10, 1);
    let hybrid = bytecode(12, 2);
    let inner_proofs: Vec<(Vec<F>, Record)> = (1..5).map(|t| inner_leaf(&inner, t)).collect();
    let none: Vec<(Vec<F>, Record)> = vec![];
    let (first, pi) = prove_hybrid_recursion(
        &toy_hash, &vm(), &verify, &begin, &sumcheck, &prove, &none, &inner_proofs, &hybrid,
        &inner, 1,
    );
    assert!(verify(&hybrid, &pi, &first).is_ok());
    assert_eq!(pi.len(), 8 + 80 + 88 + 8 + 8);
    // Two claims on the inner program for each proof, none on the hybrid one.
    assert_eq!(pi[8], F::from_usize(8));
    assert_eq!(&pi[88..88 + 85], &build_default_claim(16, F::one())[..]);
    assert_eq!(first.private_input[0], F::zero());
    assert_eq!(first.private_input[1], F::from_usize(4));

    // A proof of the hybrid circuit and one of the inner circuit together.
    let selves = vec![(pi.clone(), first)];
    let (second, pi2) = prove_hybrid_recursion(
        &toy_hash, &vm(), &verify, &begin, &sumcheck, &prove, &selves,
        &inner_proofs[..1].to_vec(), &hybrid, &inner, 1,
    );
    assert_eq!(second.private_input[0], F::one());
    assert_eq!(second.private_input[1], F::one());
    // The claim that the self proof carries, and two for the inner proof.
    assert_eq!(pi2[8], F::from_usize(3));
    // Two claims on the hybrid program.
    assert_eq!(pi2[88], F::from_usize(2));
    let mut self_digest = [F::zero(); 8];
    self_digest.copy_from_slice(&pi[..8]);
    let agg = toy_hash(toy_hash([F::zero(); 8], self_digest), [F::from_usize(1); 8]);
    assert_eq!(&pi2[..8], &agg);
    assert_eq!(second.merkle_paths.len(), 4);
}

#[test]
fn unified_recursion_over_levels() {
    let bc = bytecode(10, 1);
    let leaves: Vec<(Vec<F>, Record)> = (1..6).map(|t| leaf(&bc, t)).collect();
    let (left, levels) = recurse_unified(
        &toy_hash, &vm(), &verify, &begin, &sumcheck, &prove, leaves.clone(), &bc, 1, 2,
    );
    // 5, 3, 2, 1
    assert_eq!(levels, 3);
    assert_eq!(left.len(), 1);
    assert!(verify(&bc, &left[0].0, &left[0].1).is_ok());
    let (left, levels) = recurse_unified(
        &toy_hash, &vm(), &verify, &begin, &sumcheck, &prove, leaves[..1].to_vec(), &bc, 1, 2,
    );
    assert_eq!(levels, 0);
    assert_eq!(left[0].0, leaves[0].0);
}

#[test]
fn hybrid_recursion_over_levels() {
    let inner = bytecode(10, 1);
    let hybrid = bytecode(12, 2);
    let leaves: Vec<(Vec<F>, Record)> = (1..6).map(|t| inner_leaf(&inner, t)).collect();
    let (left, levels) = recurse_hybrid(
        &toy_hash, &vm(), &verify, &begin, &sumcheck, &prove, leaves.clone(), &hybrid, &inner,
        1, 4,
    );
    // 5 inner proofs, 2 hybrid ones, 1
    assert_eq!(levels, 2);
    assert_eq!(left.len(), 1);
    assert_eq!(left[0].1.program, 2);
    assert_eq!(left[0].1.private_input[0], F::from_usize(2));
    let (left, levels) = recurse_hybrid(
        &toy_hash, &vm(), &verify, &begin, &sumcheck, &prove, leaves[..1].to_vec(), &hybrid,
        &inner, 1, 4,
    );
    assert_eq!(levels, 1);
    assert_eq!(left[0].1.private_input[1], F::one());
}

fn com(tag: usize) -> Commitment {
    Commitment { root: [F::from_usize(tag); 8] }
}

fn reference(tags: &[usize]) -> AggregatedProof<Record> {
    AggregatedProof::from(BatchProof {
        commitments: tags.iter().map(|&t| com(t)).collect(),
        proof: None,
        public_input: None,
    })
}

fn aggregated(bc: &Bytecode<usize>, tag: usize) -> AggregatedProof<Record> {
    let (pi, proof) = leaf(bc, tag);
    AggregatedProof::from(BatchProof {
        commitments: vec![com(tag)],
        proof: Some(proof),
        public_input: Some(pi),
    })
}

#[test]
fn a_batch_proof_becomes_a_leaf() {
    let bc = bytecode(10, 1);
    let leaf = aggregated(&bc, 4);
    assert_eq!(leaf.commitments, vec![com(4)]);
    assert_eq!(leaf.public_input, leaf.batch_proofs[0].public_input);
    assert_eq!(
        leaf.proof.unwrap().public_input,
        leaf.batch_proofs[0].proof.as_ref().unwrap().public_input
    );
    assert_eq!(leaf.batch_proofs.len(), 1);
}

#[test]
fn pairs_are_joined_in_order() {
    let pair = aggregate_pair(&reference(&[1, 2]), &reference(&[3]));
    assert_eq!(pair.commitments, vec![com(1), com(2), com(3)]);
    assert_eq!(pair.batch_proofs.len(), 2);
    assert_eq!(pair.batch_proofs[1].commitments, vec![com(3)]);
    assert!(pair.proof.is_none());
}

#[test]
fn a_binary_tree_covers_all_in_order() {
    let all: Vec<AggregatedProof<Record>> =
        (0..5).map(|i| reference(&[2 * i, 2 * i + 1])).collect();
    let root = aggregate_proofs(all);
    let expected: Vec<Commitment> = (0..10).map(com).collect();
    assert_eq!(root.commitments, expected);
    let firsts: Vec<Commitment> =
        root.batch_proofs.iter().map(|bp| bp.commitments[0]).collect();
    assert_eq!(firsts, vec![com(0), com(2), com(4), com(6), com(8)]);
    assert!(root.proof.is_none());
    assert!(root.public_input.is_none());
}

#[test]
fn a_single_proof_is_returned_as_it_is() {
    let bc = bytecode(10, 1);
    let root = aggregate_proofs(vec![aggregated(&bc, 3)]);
    assert!(root.proof.is_some());
    assert_eq!(root.commitments, vec![com(3)]);
    let ctx = UnifiedAggregationContext { bytecode: bytecode(10, 1), log_inv_rate: 1 };
    let root = aggregate_proofs_unified(
        &toy_hash, &vm(), &verify, &begin, &sumcheck, &prove, vec![aggregated(&bc, 3)], &ctx, 2,
    );
    assert!(root.proof.unwrap().private_input.is_empty());
}

#[test]
fn unified_aggregation_verifies_its_children() {
    let bc = bytecode(10, 1);
    let ctx = UnifiedAggregationContext { bytecode: bytecode(10, 1), log_inv_rate: 2 };
    let children: Vec<AggregatedProof<Record>> = (1..4).map(|t| aggregated(&bc, t)).collect();
    let refs: Vec<&AggregatedProof<Record>> = children.iter().collect();
    let node = aggregate_with_unified_recursion(
        &toy_hash, &vm(), &verify, &begin, &sumcheck, &prove, &refs, &ctx,
    );
    assert_eq!(node.commitments, vec![com(1), com(2), com(3)]);
    assert_eq!(node.batch_proofs.len(), 3);
    let proof = node.proof.unwrap();
    assert_eq!(proof.rate, 2);
    assert_eq!(proof.private_input[0], F::from_usize(3));
    assert!(verify(&bc, &node.public_input.unwrap(), &proof).is_ok());

    let root = aggregate_proofs_unified(
        &toy_hash, &vm(), &verify, &begin, &sumcheck, &prove, children, &ctx, 2,
    );
    assert_eq!(root.commitments, vec![com(1), com(2), com(3)]);
    assert_eq!(root.batch_proofs.len(), 3);
    // The last child is aggregated alone and joined one level up.
    assert_eq!(root.proof.unwrap().private_input[0], F::from_usize(2));
}

#[test]
fn clones_carry_everything() {
    let bc = bytecode(10, 1);
    let a = aggregated(&bc, 5);
    let b = a.clone();
    assert_eq!(b.commitments, a.commitments);
    assert_eq!(b.public_input, a.public_input);
    assert_eq!(b.proof.unwrap().public_input, a.proof.unwrap().public_input);
    assert_eq!(b.batch_proofs[0].commitments, a.batch_proofs[0].commitments);
}

/// A proof of one batch with the unified circuit.
fn batch_leaf(bc: &Bytecode<usize>, tag: usize) -> AggregatedProof<Record> {
    let hashes = [hash_commitments(&toy_hash, &[com(tag)])];
    let pi = build_unified_public_input(&toy_hash, &vm(), &hashes, bc);
    let w = Witness { private_input: vec![], merkle_paths: vec![] };
    let proof = prove(bc, &pi, &w, 1);
    AggregatedProof::from(BatchProof {
        commitments: vec![com(tag)],
        proof: Some(proof),
        public_input: Some(pi),
    })
}

#[test]
fn aggregates_are_tied_to_their_batches() {
    let bc = bytecode(10, 1);
    let ctx = UnifiedAggregationContext { bytecode: bytecode(10, 1), log_inv_rate: 1 };
    for (n, fan_in) in [(1, 2), (2, 2), (3, 2), (5, 2), (5, 3), (9, 4), (16, 16), (4, 40)] {
        let leaves = (1..n + 1).map(|t| batch_leaf(&bc, t)).collect();
        let root = aggregate_proofs_unified(
            &toy_hash, &vm(), &verify, &begin, &sumcheck, &prove, leaves, &ctx, fan_in,
        );
        let pi = root.public_input.unwrap();
        let mut batches = root.batch_proofs;
        assert!(is_tied_to_batches(&toy_hash, &batches, &pi));
        batches[0].commitments[0] = com(77);
        assert!(!is_tied_to_batches(&toy_hash, &batches, &pi));
        assert!(!is_tied_to_batches(&toy_hash, &batches, &pi[..7].to_vec()));
        batches.clear();
        assert!(!is_tied_to_batches(&toy_hash, &batches, &pi));
    }
}

#[test]
fn recursive_public_inputs_have_the_shape_of_raw_ones() {
    let (bc, inner) = (bytecode(10, 1), bytecode(9, 2));
    let digest = |pi: &Vec<F>| {
        let mut d = [F::zero(); 8];
        d.copy_from_slice(&pi[..8]);
        d
    };
    let leaves = vec![leaf(&bc, 1), leaf(&bc, 2)];
    let (_, x) = prove_unified_recursion(
        &toy_hash, &vm(), &verify, &begin, &sumcheck, &prove, &leaves, &bc, 1,
    );
    let hashes: Vec<[F; 8]> = leaves.iter().map(|l| digest(&l.0)).collect();
    let d = build_unified_public_input(&toy_hash, &vm(), &hashes, &bc);
    assert_eq!(x.len(), d.len());
    assert_eq!(x[..8], d[..8]);
    assert_eq!(x[x.len() - 8..], d[d.len() - 8..]);

    let leaves = vec![inner_leaf(&inner, 3), inner_leaf(&inner, 4)];
    let (_, x) = prove_hybrid_recursion(
        &toy_hash, &vm(), &verify, &begin, &sumcheck, &prove, &vec![], &leaves, &bc, &inner, 1,
    );
    let hashes: Vec<[F; 8]> = leaves.iter().map(|l| digest(&l.0)).collect();
    let d = build_hybrid_public_input(&toy_hash, &vm(), &hashes, &inner, &bc);
    assert_eq!(x.len(), d.len());
    assert_eq!(x[..8], d[..8]);
    assert_eq!(x[x.len() - 16..], d[d.len() - 16..]);
    // The claim on the inner program takes 70 elements, padded to 72.
    let start = 8 + 72;
    assert_eq!(x[start..x.len() - 16], d[start..d.len() - 16]);
}
