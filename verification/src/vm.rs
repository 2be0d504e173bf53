//! What the library knows of the virtual machine that proofs are made in: plain
//! parameters and the data that goes into and comes out of a proof.

use crate::ext::EF;
use crate::field::F;
use crate::hash::{compress, is_compression};
use crate::numeric::{log2_ceil, log2_ceil_usize, next_multiple_of, round_up};
use crate::types::{digest_view, Digest};
use vstd::prelude::*;

verus! {

/// Parameters of the virtual machine.
#[derive(Clone, Copy, Debug)]
pub struct VmParams {
    /// Memory address at which a program's own public input starts.
    pub input_start: usize,
    /// Number of columns that encode one instruction.
    pub n_instruction_columns: usize,
    /// Domain separator that is hashed with a program's digest.
    pub domain_sep: [F; 8],
}

/// A compiled program: the values that inputs are built from, and the program itself,
/// which only the virtual machine reads.
#[derive(Clone, Debug)]
pub struct Bytecode<B> {
    /// Base-two logarithm of the padded instruction count.
    pub log_size: usize,
    /// First element of the encoded instructions: their multilinear extension at zero.
    pub zero_eval: F,
    /// Digest of the program.
    pub hash: [F; 8],
    /// The program.
    pub program: B,
}

/// A claimed value of a multilinear polynomial at a point.
#[derive(Clone, Debug)]
pub struct Evaluation {
    pub point: Vec<EF>,
    pub value: EF,
}

/// A leaf of a proof's hash tree and its authentication path.
#[derive(Clone, Debug)]
pub struct PathOpening {
    pub leaf_data: Vec<F>,
    pub path: Vec<[F; 8]>,
}

/// The parts of a proof that a recursive verifier reads.
#[derive(Clone, Debug)]
pub struct RawProof {
    pub transcript: Vec<F>,
    pub merkle_openings: Vec<PathOpening>,
}

/// What the verification of a proof yields.
#[derive(Clone, Debug)]
pub struct Verified {
    /// The claim on the program's encoding that verification leaves open.
    pub bytecode_evaluation: Evaluation,
    pub raw_proof: RawProof,
}

/// Private input of an execution.
#[derive(Clone, Debug)]
pub struct Witness {
    pub private_input: Vec<F>,
    pub merkle_paths: Vec<Vec<F>>,
}

/// The number of variables of a program's encoding.
pub open spec fn point_n_vars(log_size: int, n_instruction_columns: int) -> int {
    log_size + log2_ceil(n_instruction_columns)
}

/// The length of a claim: a point and a value.
pub open spec fn claim_len(n_vars: int) -> int {
    (n_vars + 1) * 5
}

/// The length of a claim padded to whole digests.
pub open spec fn claim_len_padded(n_vars: int) -> int {
    round_up(claim_len(n_vars), 8)
}

/// The sizes derived from the program size fit a machine word, with room for the other
/// parts of a public input.
pub open spec fn sizes_fit(log_size: int) -> bool {
    log_size <= usize::MAX as int / 100
}

/// The number of variables of a program's encoding, with the claim length and the
/// padded claim length.
pub fn claim_sizes(log_size: usize, n_instruction_columns: usize) -> (r: (usize, usize, usize))
    requires
        sizes_fit(log_size as int),
    ensures
        r.0 == point_n_vars(log_size as int, n_instruction_columns as int),
        r.1 == claim_len(r.0 as int),
        r.2 == claim_len_padded(r.0 as int),
        r.1 <= r.2 <= r.1 + 7,
        r.0 <= usize::MAX / 100 + 64,
        r.2 <= usize::MAX / 8,
{
    let n_vars: usize = log_size + log2_ceil_usize(n_instruction_columns);
    let size: usize = (n_vars + 1) * 5;
    let padded: usize = next_multiple_of(size, 8);
    (n_vars, size, padded)
}

/// The digest of a program as it stands in a public input: its hash compressed with
/// the domain separator.
pub open spec fn bound_hash<H: Fn(Digest, Digest) -> Digest>(
    h: H,
    vm: VmParams,
    hash: Digest,
) -> Seq<int> {
    compress(h, digest_view(hash), digest_view(vm.domain_sep))
}

/// Compress a program's hash with the domain separator.
pub fn bind_hash<H: Fn(Digest, Digest) -> Digest>(h: &H, vm: &VmParams, hash: &Digest) -> (d: Digest)
    requires
        is_compression(*h),
    ensures
        digest_view(d) == bound_hash(*h, *vm, *hash),
{
    crate::hash::compress_pair(h, hash, &vm.domain_sep)
}

} // verus!
