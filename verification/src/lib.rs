//! Data availability sampling with recursive proofs: Reed-Solomon codewords,
//! Merkle commitments, random linear combinations and FRI-style folding, with
//! contracts stated over the field and proved by Verus.

pub mod aggregation;
pub mod air;
pub mod air_laws;
pub mod air_text_laws;
pub mod air_value_laws;
pub mod batch;
pub mod circuit;
pub mod circuit_laws;
pub mod claims;
pub mod claims_laws;
pub mod cli;
pub mod code;
pub mod commitment;
pub mod compile_laws;
pub mod core_laws;
pub mod das_laws;
pub mod deep;
pub mod deep_laws;
pub mod ext;
pub mod field;
pub mod fold;
pub mod fold_laws;
pub mod fri;
pub mod hash;
pub mod inputs;
pub mod layout_laws;
pub mod machine;
pub mod metadata;
pub mod numeric;
pub mod pipeline;
pub mod pipeline_laws;
pub mod polynomial;
pub mod proving;
pub mod recursion;
pub mod rlc;
pub mod roots;
pub mod slices;
pub mod soundness;
pub mod sums;
pub mod template_laws;
pub mod text;
pub mod text_laws;
pub mod tool_laws;
pub mod tree;
pub mod types;
pub mod verdict_laws;
pub mod verification;
pub mod vm;
pub mod witness;
pub mod witness_laws;
pub mod workload;

pub use aggregation::{aggregate_proofs, aggregate_proofs_unified, UnifiedAggregationContext};
pub use batch::prove_batch;
pub use circuit::compile_unified_das_circuit;
pub use commitment::{
    commit_codeword, commit_codeword_epl, commit_codeword_with_tree, commit_codeword_with_tree_epl,
    open_position, open_position_epl, verify_opening, verify_opening_epl,
};
pub use ext::EF;
pub use field::F;
pub use fold::{
    apply_folding_plan, challenge_from_digest, check_rs_precomputed, precompute_folding_plan,
    FoldedLayer, FoldingPlan,
};
pub use fri::{check_rs_membership_iterative, fri_fold_evaluations};
pub use hash::hash_leaf_ltr;
pub use pipeline::prove_das;
pub use polynomial::{rs_encode, Domain, Polynomial};
pub use recursion::{prove_hybrid_recursion, prove_unified_recursion};
pub use rlc::{compute_rlc, derive_challenge};
pub use types::{
    compute_evals_per_leaf, Codeword, Commitment, Opening, DIGEST_SIZE, EVALS_PER_LEAF,
    MIN_EVALS_PER_LEAF,
};
pub use verification::{verify_das, verify_das_unified, verify_das_with_bytecode, VerifyResult};
