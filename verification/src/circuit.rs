//! Instantiation of the circuit templates, and proofs of single batches.
//!
//! There are three kinds of circuits. The batch circuit proves a batch of codewords.
//! The unified circuit does that and verifies proofs of itself. The hybrid circuit
//! verifies proofs of the batch circuit and of itself.

use crate::air::{generate_all_air_evals_dsl, tables_text};
use crate::field::{finv, fpow, F};
use crate::fold::lemma_generator_nonzero;
use crate::machine::{
    collect_max_rows, is_whir_grid, rates_ok, render_table_list, render_whir_table, sorted_by_key,
    whir_callable, table_list, values_of, whir_configs, whir_table, without_repeats, MachineParams,
    TableColumn, WhirColumn, WhirSummary,
};
use crate::numeric::{
    ilog2, lemma_pow2_le, lemma_pow2_log2, log2, log2_ceil, log2_ceil_usize, next_pow2, pow2_u64,
};
use crate::polynomial::{domain_generator, domain_size};
use crate::text::{
    bracket_numbers, bracketed, decimal, decimal_u64, decimal_usize, decimals, Replacements,
};
use crate::types::{Batch, MIN_EVALS_PER_LEAF};
use crate::vm::{claim_len_padded, claim_sizes, point_n_vars, sizes_fit, Bytecode, VmParams};
use vstd::arithmetic::power2::{is_pow2, lemma2_to64, pow2};
use vstd::prelude::*;

verus! {

/// Maximum number of inner proofs that one recursion aggregates.
pub const MAX_INNER_PROOFS: usize = 16;

/// A guess of the recursion circuits' size to start from.
pub const INITIAL_LOG_SIZE: usize = 18;

/// The circuit templates.
#[derive(Clone, Copy, Debug)]
pub enum CircuitKind {
    Batch,
    SpotCheck,
    Unified,
    Hybrid,
}

/// The codeword lengths, leaf sizes and degrees for which there is a batch circuit.
pub open spec fn circuit_params(n: int, epl: int, degree: int) -> bool {
    &&& domain_size(n)
    &&& epl >= MIN_EVALS_PER_LEAF
    &&& epl % 8 == 0
    &&& n % epl == 0
    &&& is_pow2(degree)
    &&& degree <= n / 2
}

/// The inverse of the domain's generator to the power `2^r`, for each folding round `r`.
pub open spec fn omega_inv_rounds(n: int, degree: int) -> Seq<Seq<char>> {
    Seq::new(
        log2(degree),
        |r: int| decimal(fpow(finv(domain_generator(n)), pow2(r as nat))),
    )
}

/// The replacements of the batch circuit's template.
#[verifier::opaque]
pub open spec fn das_replacements(
    vm: VmParams,
    batch_size: int,
    n: int,
    epl: int,
    degree: int,
) -> Map<Seq<char>, Seq<char>> {
    Map::empty().insert("__NRPIS__"@, decimal(vm.input_start as int)).insert(
        "__BATCH_SIZE__"@,
        decimal(batch_size),
    ).insert("__CODEWORD_LEN__"@, decimal(n)).insert("__DIM__"@, decimal(5)).insert(
        "__DIGEST_LEN__"@,
        decimal(8),
    ).insert("__EPL__"@, decimal(epl)).insert("__NUM_LEAVES__"@, decimal(n / epl)).insert(
        "__TREE_HEIGHT__"@,
        decimal(log2(n / epl) as int),
    ).insert("__NUM_FOLD_ROUNDS__"@, decimal(log2(degree) as int)).insert(
        "__N_CHUNKS__"@,
        decimal(epl / 8),
    ).insert("__HALF__"@, decimal(finv(2))).insert(
        "__OMEGA_INV_ROUNDS__"@,
        bracketed(omega_inv_rounds(n, degree)),
    )
}

/// The texts of the folding rounds' generators.
fn render_omega_inv_rounds(codeword_len: usize, degree: usize) -> (r: String)
    requires
        domain_size(codeword_len as int),
        is_pow2(degree as int),
        degree <= codeword_len,
    ensures
        r@ == bracketed(omega_inv_rounds(codeword_len as int, degree as int)),
{
    proof {
        lemma_pow2_log2(codeword_len as int);
        lemma_pow2_log2(degree as int);
        lemma_generator_nonzero(codeword_len as int);
        crate::fold::lemma_plan_params(codeword_len as int, degree as int);
    }
    let omega_inv = F::two_adic_generator(ilog2(codeword_len)).inverse();
    let rounds: usize = ilog2(degree);
    let mut values: Vec<usize> = Vec::with_capacity(rounds);
    let mut r: usize = 0;
    while r < rounds
        invariant
            r <= rounds <= 24,
            omega_inv@ == finv(domain_generator(codeword_len as int)),
            values@.len() == r,
            forall|j: int|
                0 <= j < r ==> (#[trigger] values@[j]) == fpow(omega_inv@, pow2(j as nat)),
        decreases rounds - r,
    {
        let x = omega_inv.exp_u64(pow2_u64(r));
        values.push(x.as_canonical_u32() as usize);
        r = r + 1;
    }
    assert(decimals(values@) =~= omega_inv_rounds(codeword_len as int, degree as int));
    bracket_numbers(&values)
}

/// Build the replacements of the batch circuit's template.
pub fn build_das_replacements(
    vm: &VmParams,
    batch_size: usize,
    codeword_len: usize,
    evals_per_leaf: usize,
    degree: usize,
) -> (r: Replacements)
    requires
        circuit_params(codeword_len as int, evals_per_leaf as int, degree as int),
    ensures
        r.wf(),
        r@ == das_replacements(
            *vm,
            batch_size as int,
            codeword_len as int,
            evals_per_leaf as int,
            degree as int,
        ),
{
    proof {
        reveal(das_replacements);
    }
    proof {
        crate::commitment::lemma_commit_params(codeword_len as int, evals_per_leaf as int);
        lemma_pow2_log2(degree as int);
    }
    let num_leaves: usize = codeword_len / evals_per_leaf;
    let tree_height: usize = if num_leaves > 1 {
        ilog2(num_leaves)
    } else {
        0
    };
    let num_fold_rounds: usize = ilog2(degree);
    let n_chunks: usize = evals_per_leaf / 8;
    let half = F::two().inverse();
    let omegas = render_omega_inv_rounds(codeword_len, degree);
    let mut r = Replacements::new();
    r.insert("__NRPIS__", decimal_usize(vm.input_start));
    r.insert("__BATCH_SIZE__", decimal_usize(batch_size));
    r.insert("__CODEWORD_LEN__", decimal_usize(codeword_len));
    r.insert("__DIM__", decimal_usize(5));
    r.insert("__DIGEST_LEN__", decimal_usize(8));
    r.insert("__EPL__", decimal_usize(evals_per_leaf));
    r.insert("__NUM_LEAVES__", decimal_usize(num_leaves));
    r.insert("__TREE_HEIGHT__", decimal_usize(tree_height));
    r.insert("__NUM_FOLD_ROUNDS__", decimal_usize(num_fold_rounds));
    r.insert("__N_CHUNKS__", decimal_usize(n_chunks));
    r.insert("__HALF__", decimal_u64(half.as_canonical_u32() as u64));
    r.insert("__OMEGA_INV_ROUNDS__", omegas);
    r
}

/// `compile` can be called on a template with the given replacements.
pub open spec fn compiles<B, C: Fn(CircuitKind, Replacements) -> Bytecode<B>>(
    compile: C,
    kind: CircuitKind,
    replacements: Map<Seq<char>, Seq<char>>,
) -> bool {
    forall|r: Replacements|
        r.wf() && r@ == replacements ==> #[trigger] call_requires(compile, (kind, r))
}

/// `bytecode` is what `compile` gives for a template and replacements.
pub open spec fn compiled<B, C: Fn(CircuitKind, Replacements) -> Bytecode<B>>(
    compile: C,
    kind: CircuitKind,
    replacements: Map<Seq<char>, Seq<char>>,
    bytecode: Bytecode<B>,
) -> bool {
    exists|r: Replacements|
        r.wf() && r@ == replacements && #[trigger] call_ensures(compile, (kind, r), bytecode)
}

/// Compile the batch circuit.
pub fn compile_das_circuit<B, C: Fn(CircuitKind, Replacements) -> Bytecode<B>>(
    vm: &VmParams,
    compile: &C,
    batch_size: usize,
    codeword_len: usize,
    evals_per_leaf: usize,
    degree: usize,
) -> (r: Bytecode<B>)
    requires
        circuit_params(codeword_len as int, evals_per_leaf as int, degree as int),
        compiles(
            *compile,
            CircuitKind::Batch,
            das_replacements(
                *vm,
                batch_size as int,
                codeword_len as int,
                evals_per_leaf as int,
                degree as int,
            ),
        ),
    ensures
        compiled(
            *compile,
            CircuitKind::Batch,
            das_replacements(
                *vm,
                batch_size as int,
                codeword_len as int,
                evals_per_leaf as int,
                degree as int,
            ),
            r,
        ),
{
    let replacements = build_das_replacements(vm, batch_size, codeword_len, evals_per_leaf, degree);
    compile(CircuitKind::Batch, replacements)
}

/// The number of spot checks: the security level over the rate's exponent, rounded up.
///
/// Each check catches a wrong combination with probability at least one minus the rate,
/// so `k` checks fail with probability at most the rate to the `k`.
pub fn compute_num_spot_checks(codeword_len: usize, degree: usize, security_bits: usize) -> (r:
    usize)
    requires
        0 < degree,
        codeword_len >= 2 * degree,
        security_bits + usize::BITS <= usize::MAX,
    ensures
        ({
            let bits = log2(codeword_len as int / degree as int);
            &&& bits >= 1
            &&& r == (security_bits + bits - 1) / (bits as int)
            &&& bits * r >= security_bits
            &&& r > 0 ==> bits * (r - 1) < security_bits
        }),
{
    proof {
        let q = codeword_len as int / degree as int;
        assert(q >= 2) by (nonlinear_arith)
            requires
                q == codeword_len as int / degree as int,
                degree > 0,
                codeword_len >= 2 * degree,
        ;
    }
    let log_inv_rate: usize = ilog2(codeword_len / degree);
    let r: usize = (security_bits + log_inv_rate - 1) / log_inv_rate;
    proof {
        let (s, b) = (security_bits as int, log_inv_rate as int);
        let t = s + b - 1;
        vstd::arithmetic::div_mod::lemma_fundamental_div_mod(t, b);
        let q = t / b;
        assert(b * q >= s && (q > 0 ==> b * (q - 1) < s)) by (nonlinear_arith)
            requires
                t == b * q + t % b,
                0 <= t % b < b,
                t == s + b - 1,
        ;
    }
    r
}

/// The replacements of the spot-check circuit's template.
pub open spec fn spotcheck_replacements(
    vm: VmParams,
    batch_size: int,
    n: int,
    epl: int,
    degree: int,
    checks: int,
) -> Map<Seq<char>, Seq<char>> {
    let log_n = log2(n) as int;
    let per_element = 31int / log_n;
    let per_hash = per_element * 8;
    das_replacements(vm, batch_size, n, epl, degree).insert(
        "__NUM_SPOT_CHECKS__"@,
        decimal(checks),
    ).insert("__LOG_CODEWORD_LEN__"@, decimal(log_n)).insert(
        "__POSITIONS_PER_ELEMENT__"@,
        decimal(per_element),
    ).insert("__NUM_RAND_ELEMENTS__"@, decimal((checks + per_element - 1) / per_element)).insert(
        "__NUM_FULL_RAND_ELEMENTS__"@,
        decimal(checks / per_element),
    ).insert("__REMAINDER_POSITIONS__"@, decimal(checks % per_element)).insert(
        "__NUM_HASH_ROUNDS__"@,
        decimal((checks + per_hash - 1) / per_hash),
    ).insert("__N_RLC_CHUNKS__"@, decimal((n * 5 + 8 - 1) / 8))
}

/// Build the replacements of the spot-check circuit's template.
pub fn build_spotcheck_replacements(
    vm: &VmParams,
    batch_size: usize,
    codeword_len: usize,
    evals_per_leaf: usize,
    degree: usize,
    num_spot_checks: usize,
) -> (r: Replacements)
    requires
        circuit_params(codeword_len as int, evals_per_leaf as int, degree as int),
        0 < num_spot_checks <= usize::MAX - 248,
    ensures
        r.wf(),
        r@ == spotcheck_replacements(
            *vm,
            batch_size as int,
            codeword_len as int,
            evals_per_leaf as int,
            degree as int,
            num_spot_checks as int,
        ),
{
    proof {
        lemma_pow2_log2(degree as int);
        crate::numeric::lemma_log2_half(codeword_len as int);
        lemma_pow2_log2(codeword_len as int);
        lemma_pow2_le(log2(codeword_len as int), 24);
        lemma2_to64();
    }
    let mut r = build_das_replacements(vm, batch_size, codeword_len, evals_per_leaf, degree);
    let log_n: usize = ilog2(codeword_len);
    let per_element: usize = 31 / log_n;
    proof {
        let (p, l) = (per_element as int, log_n as int);
        assert(1 <= p <= 31) by (nonlinear_arith)
            requires
                p == 31int / l,
                1 <= l <= 24,
        ;
    }
    let per_hash: usize = per_element * 8;
    let num_hash_rounds: usize = (num_spot_checks + per_hash - 1) / per_hash;
    let n_rlc_chunks: usize = (codeword_len * 5 + 8 - 1) / 8;
    let num_rand: usize = (num_spot_checks + per_element - 1) / per_element;
    let num_full: usize = num_spot_checks / per_element;
    let remainder: usize = num_spot_checks % per_element;
    r.insert("__NUM_SPOT_CHECKS__", decimal_usize(num_spot_checks));
    r.insert("__LOG_CODEWORD_LEN__", decimal_usize(log_n));
    r.insert("__POSITIONS_PER_ELEMENT__", decimal_usize(per_element));
    r.insert("__NUM_RAND_ELEMENTS__", decimal_usize(num_rand));
    r.insert("__NUM_FULL_RAND_ELEMENTS__", decimal_usize(num_full));
    r.insert("__REMAINDER_POSITIONS__", decimal_usize(remainder));
    r.insert("__NUM_HASH_ROUNDS__", decimal_usize(num_hash_rounds));
    r.insert("__N_RLC_CHUNKS__", decimal_usize(n_rlc_chunks));
    r
}

/// Compile the spot-check circuit, which takes the linear combination as a hint and
/// checks it at random positions.
pub fn compile_spotcheck_circuit<B, C: Fn(CircuitKind, Replacements) -> Bytecode<B>>(
    vm: &VmParams,
    compile: &C,
    batch_size: usize,
    codeword_len: usize,
    evals_per_leaf: usize,
    degree: usize,
    num_spot_checks: usize,
) -> (r: Bytecode<B>)
    requires
        circuit_params(codeword_len as int, evals_per_leaf as int, degree as int),
        0 < num_spot_checks <= usize::MAX - 248,
        compiles(
            *compile,
            CircuitKind::SpotCheck,
            spotcheck_replacements(
                *vm,
                batch_size as int,
                codeword_len as int,
                evals_per_leaf as int,
                degree as int,
                num_spot_checks as int,
            ),
        ),
    ensures
        compiled(
            *compile,
            CircuitKind::SpotCheck,
            spotcheck_replacements(
                *vm,
                batch_size as int,
                codeword_len as int,
                evals_per_leaf as int,
                degree as int,
                num_spot_checks as int,
            ),
            r,
        ),
{
    let replacements = build_spotcheck_replacements(
        vm,
        batch_size,
        codeword_len,
        evals_per_leaf,
        degree,
        num_spot_checks,
    );
    compile(CircuitKind::SpotCheck, replacements)
}

// The recursive circuits.

/// The sizes that a recursive circuit is instantiated with.
#[derive(Clone, Copy, Debug)]
pub struct RecursionShape {
    /// The smallest number of variables of a low-degree test.
    pub min_stacked: usize,
    /// The logarithm of the size of the program whose proofs are verified.
    pub log_guest: usize,
    /// The logarithm of the size of that program's public memory.
    pub public_memory_log: usize,
    /// The length of that program's public input.
    pub pub_input_size: usize,
    /// The first element of that program's encoding.
    pub zero_eval: F,
}

/// The tables' evaluation functions can be generated.
pub open spec fn airs_ok(m: MachineParams) -> bool {
    &&& forall|i: int| 0 <= i < m.airs@.len() ==> (#[trigger] m.airs@[i]).wf()
    &&& next_pow2(m.max_bus_width as int) <= usize::MAX
}

/// The replacements for the parameters of the low-degree tests.
#[verifier::opaque]
pub open spec fn whir_replacements(
    base: Map<Seq<char>, Seq<char>>,
    m: MachineParams,
    configs: Seq<Vec<WhirSummary>>,
    shape: RecursionShape,
) -> Map<Seq<char>, Seq<char>> {
    base.insert(
        "WHIR_FIRST_RS_REDUCTION_FACTOR_PLACEHOLDER"@,
        decimal(m.rs_domain_initial_reduction_factor as int),
    ).insert(
        "WHIR_ALL_POTENTIAL_NUM_QUERIES_PLACEHOLDER"@,
        whir_table(configs, WhirColumn::NumQueries),
    ).insert(
        "WHIR_ALL_POTENTIAL_QUERY_GRINDING_PLACEHOLDER"@,
        whir_table(configs, WhirColumn::QueryGrinding),
    ).insert(
        "WHIR_ALL_POTENTIAL_NUM_OODS_PLACEHOLDER"@,
        whir_table(configs, WhirColumn::NumOods),
    ).insert(
        "WHIR_ALL_POTENTIAL_FOLDING_GRINDING_PLACEHOLDER"@,
        whir_table(configs, WhirColumn::FoldingGrinding),
    ).insert(
        "MIN_STACKED_N_VARS_PLACEHOLDER"@,
        decimal(shape.min_stacked as int),
    )
}

/// The replacements for the machine's parameters.
#[verifier::opaque]
pub open spec fn vm_replacements(
    base: Map<Seq<char>, Seq<char>>,
    vm: VmParams,
    m: MachineParams,
    shape: RecursionShape,
) -> Map<Seq<char>, Seq<char>> {
    base.insert(
        "N_TABLES_PLACEHOLDER"@,
        decimal(m.n_tables as int),
    ).insert(
        "MIN_LOG_N_ROWS_PER_TABLE_PLACEHOLDER"@,
        decimal(m.min_log_n_rows_per_table as int),
    ).insert(
        "MAX_LOG_N_ROWS_PER_TABLE_PLACEHOLDER"@,
        bracketed(
            decimals(values_of(without_repeats(sorted_by_key(m.max_log_n_rows_per_table@)))),
        ),
    ).insert(
        "MIN_WHIR_LOG_INV_RATE_PLACEHOLDER"@,
        decimal(m.min_whir_log_inv_rate as int),
    ).insert(
        "MAX_WHIR_LOG_INV_RATE_PLACEHOLDER"@,
        decimal(m.max_whir_log_inv_rate as int),
    ).insert(
        "MIN_LOG_MEMORY_SIZE_PLACEHOLDER"@,
        decimal(m.min_log_memory_size as int),
    ).insert(
        "MAX_LOG_MEMORY_SIZE_PLACEHOLDER"@,
        decimal(m.max_log_memory_size as int),
    ).insert(
        "MAX_BUS_WIDTH_PLACEHOLDER"@,
        decimal(m.max_bus_width as int),
    ).insert(
        "LOGUP_MEMORY_DOMAINSEP_PLACEHOLDER"@,
        decimal(m.logup_memory_domainsep as int),
    ).insert(
        "LOGUP_PRECOMPILE_DOMAINSEP_PLACEHOLDER"@,
        decimal(m.logup_precompile_domainsep as int),
    ).insert(
        "LOGUP_BYTECODE_DOMAINSEP_PLACEHOLDER"@,
        decimal(m.logup_bytecode_domainsep as int),
    ).insert(
        "LOG_GUEST_BYTECODE_LEN_PLACEHOLDER"@,
        decimal(shape.log_guest as int),
    ).insert(
        "COL_PC_PLACEHOLDER"@,
        decimal(m.col_pc as int),
    ).insert(
        "NONRESERVED_PROGRAM_INPUT_START_PLACEHOLDER"@,
        decimal(vm.input_start as int),
    ).insert(
        "INNER_PUBLIC_MEMORY_LOG_SIZE_PLACEHOLDER"@,
        decimal(shape.public_memory_log as int),
    ).insert(
        "PUB_INPUT_SIZE_PLACEHOLDER"@,
        decimal(shape.pub_input_size as int),
    ).insert(
        "MAX_NUM_VARIABLES_TO_SEND_COEFFS_PLACEHOLDER"@,
        decimal(m.max_num_variables_to_send_coeffs as int),
    ).insert(
        "WHIR_INITIAL_FOLDING_FACTOR_PLACEHOLDER"@,
        decimal(m.whir_initial_folding_factor as int),
    ).insert(
        "WHIR_SUBSEQUENT_FOLDING_FACTOR_PLACEHOLDER"@,
        decimal(m.whir_subsequent_folding_factor as int),
    ).insert(
        "EXECUTION_TABLE_INDEX_PLACEHOLDER"@,
        decimal(m.execution_table_index as int),
    ).insert(
        "MAX_NUM_AIR_CONSTRAINTS_PLACEHOLDER"@,
        decimal(m.max_air_constraints as int),
    ).insert(
        "N_INSTRUCTION_COLUMNS_PLACEHOLDER"@,
        decimal(vm.n_instruction_columns as int),
    ).insert(
        "N_COMMITTED_EXEC_COLUMNS_PLACEHOLDER"@,
        decimal(m.n_runtime_columns as int),
    ).insert(
        "TOTAL_WHIR_STATEMENTS_PLACEHOLDER"@,
        decimal(m.total_whir_statements as int),
    ).insert(
        "STARTING_PC_PLACEHOLDER"@,
        decimal(m.starting_pc as int),
    ).insert(
        "ENDING_PC_PLACEHOLDER"@,
        decimal(m.ending_pc as int),
    ).insert(
        "BYTECODE_ZERO_EVAL_PLACEHOLDER"@,
        decimal(shape.zero_eval@),
    ).insert(
        "__MAX_INNER_PROOFS__"@,
        decimal(MAX_INNER_PROOFS as int),
    )
}

/// The replacements for the machine's tables.
#[verifier::opaque]
pub open spec fn table_replacements(
    base: Map<Seq<char>, Seq<char>>,
    m: MachineParams,
) -> Map<Seq<char>, Seq<char>> {
    base.insert(
        "LOOKUPS_INDEXES_PLACEHOLDER"@,
        table_list(m.tables@, TableColumn::LookupIndexes),
    ).insert(
        "LOOKUPS_VALUES_PLACEHOLDER"@,
        table_list(m.tables@, TableColumn::LookupValues),
    ).insert(
        "NUM_COLS_AIR_PLACEHOLDER"@,
        table_list(m.tables@, TableColumn::NumColumns),
    ).insert(
        "AIR_DEGREES_PLACEHOLDER"@,
        table_list(m.tables@, TableColumn::Degree),
    ).insert(
        "N_AIR_COLUMNS_PLACEHOLDER"@,
        table_list(m.tables@, TableColumn::NumColumns),
    ).insert(
        "AIR_DOWN_COLUMNS_PLACEHOLDER"@,
        table_list(m.tables@, TableColumn::DownColumns),
    ).insert(
        "EVALUATE_AIR_FUNCTIONS_PLACEHOLDER"@,
        tables_text(m.airs@, m.max_bus_width as int),
    )
}

/// Insert the replacements for the parameters of the low-degree tests.
fn insert_whir(
    r: &mut Replacements,
    m: &MachineParams,
    configs: &Vec<Vec<WhirSummary>>,
    shape: &RecursionShape,
)
    requires
        old(r).wf(),
    ensures
        final(r).wf(),
        final(r)@ == whir_replacements(old(r)@, *m, configs@, *shape),
{
    proof {
        reveal(whir_replacements);
    }
    r.insert("WHIR_FIRST_RS_REDUCTION_FACTOR_PLACEHOLDER", decimal_usize(m.rs_domain_initial_reduction_factor));
    r.insert("WHIR_ALL_POTENTIAL_NUM_QUERIES_PLACEHOLDER", render_whir_table(configs, WhirColumn::NumQueries));
    r.insert("WHIR_ALL_POTENTIAL_QUERY_GRINDING_PLACEHOLDER", render_whir_table(configs, WhirColumn::QueryGrinding));
    r.insert("WHIR_ALL_POTENTIAL_NUM_OODS_PLACEHOLDER", render_whir_table(configs, WhirColumn::NumOods));
    r.insert("WHIR_ALL_POTENTIAL_FOLDING_GRINDING_PLACEHOLDER", render_whir_table(configs, WhirColumn::FoldingGrinding));
    r.insert("MIN_STACKED_N_VARS_PLACEHOLDER", decimal_usize(shape.min_stacked));
}

/// Insert the replacements for the machine's parameters.
fn insert_vm(
    r: &mut Replacements,
    vm: &VmParams,
    m: &MachineParams,
    shape: &RecursionShape,
)
    requires
        old(r).wf(),
    ensures
        final(r).wf(),
        final(r)@ == vm_replacements(old(r)@, *vm, *m, *shape),
{
    proof {
        reveal(vm_replacements);
    }
    let rows = collect_max_rows(&m.max_log_n_rows_per_table);
    r.insert("N_TABLES_PLACEHOLDER", decimal_usize(m.n_tables));
    r.insert("MIN_LOG_N_ROWS_PER_TABLE_PLACEHOLDER", decimal_usize(m.min_log_n_rows_per_table));
    r.insert("MAX_LOG_N_ROWS_PER_TABLE_PLACEHOLDER", bracket_numbers(&rows));
    r.insert("MIN_WHIR_LOG_INV_RATE_PLACEHOLDER", decimal_usize(m.min_whir_log_inv_rate));
    r.insert("MAX_WHIR_LOG_INV_RATE_PLACEHOLDER", decimal_usize(m.max_whir_log_inv_rate));
    r.insert("MIN_LOG_MEMORY_SIZE_PLACEHOLDER", decimal_usize(m.min_log_memory_size));
    r.insert("MAX_LOG_MEMORY_SIZE_PLACEHOLDER", decimal_usize(m.max_log_memory_size));
    r.insert("MAX_BUS_WIDTH_PLACEHOLDER", decimal_usize(m.max_bus_width));
    r.insert("LOGUP_MEMORY_DOMAINSEP_PLACEHOLDER", decimal_usize(m.logup_memory_domainsep));
    r.insert("LOGUP_PRECOMPILE_DOMAINSEP_PLACEHOLDER", decimal_usize(m.logup_precompile_domainsep));
    r.insert("LOGUP_BYTECODE_DOMAINSEP_PLACEHOLDER", decimal_usize(m.logup_bytecode_domainsep));
    r.insert("LOG_GUEST_BYTECODE_LEN_PLACEHOLDER", decimal_usize(shape.log_guest));
    r.insert("COL_PC_PLACEHOLDER", decimal_usize(m.col_pc));
    r.insert("NONRESERVED_PROGRAM_INPUT_START_PLACEHOLDER", decimal_usize(vm.input_start));
    r.insert("INNER_PUBLIC_MEMORY_LOG_SIZE_PLACEHOLDER", decimal_usize(shape.public_memory_log));
    r.insert("PUB_INPUT_SIZE_PLACEHOLDER", decimal_usize(shape.pub_input_size));
    r.insert("MAX_NUM_VARIABLES_TO_SEND_COEFFS_PLACEHOLDER", decimal_usize(m.max_num_variables_to_send_coeffs));
    r.insert("WHIR_INITIAL_FOLDING_FACTOR_PLACEHOLDER", decimal_usize(m.whir_initial_folding_factor));
    r.insert("WHIR_SUBSEQUENT_FOLDING_FACTOR_PLACEHOLDER", decimal_usize(m.whir_subsequent_folding_factor));
    r.insert("EXECUTION_TABLE_INDEX_PLACEHOLDER", decimal_usize(m.execution_table_index));
    r.insert("MAX_NUM_AIR_CONSTRAINTS_PLACEHOLDER", decimal_usize(m.max_air_constraints));
    r.insert("N_INSTRUCTION_COLUMNS_PLACEHOLDER", decimal_usize(vm.n_instruction_columns));
    r.insert("N_COMMITTED_EXEC_COLUMNS_PLACEHOLDER", decimal_usize(m.n_runtime_columns));
    r.insert("TOTAL_WHIR_STATEMENTS_PLACEHOLDER", decimal_usize(m.total_whir_statements));
    r.insert("STARTING_PC_PLACEHOLDER", decimal_usize(m.starting_pc));
    r.insert("ENDING_PC_PLACEHOLDER", decimal_usize(m.ending_pc));
    r.insert("BYTECODE_ZERO_EVAL_PLACEHOLDER", decimal_u64(shape.zero_eval.as_canonical_u32() as u64));
    r.insert("__MAX_INNER_PROOFS__", decimal_usize(MAX_INNER_PROOFS));
}

/// Insert the replacements for the machine's tables.
fn insert_tables(
    r: &mut Replacements,
    m: &MachineParams,
)
    requires
        old(r).wf(),
        airs_ok(*m),
    ensures
        final(r).wf(),
        final(r)@ == table_replacements(old(r)@, *m),
{
    proof {
        reveal(table_replacements);
    }
    r.insert("LOOKUPS_INDEXES_PLACEHOLDER", render_table_list(&m.tables, TableColumn::LookupIndexes));
    r.insert("LOOKUPS_VALUES_PLACEHOLDER", render_table_list(&m.tables, TableColumn::LookupValues));
    r.insert("NUM_COLS_AIR_PLACEHOLDER", render_table_list(&m.tables, TableColumn::NumColumns));
    r.insert("AIR_DEGREES_PLACEHOLDER", render_table_list(&m.tables, TableColumn::Degree));
    r.insert("N_AIR_COLUMNS_PLACEHOLDER", render_table_list(&m.tables, TableColumn::NumColumns));
    r.insert("AIR_DOWN_COLUMNS_PLACEHOLDER", render_table_list(&m.tables, TableColumn::DownColumns));
    r.insert("EVALUATE_AIR_FUNCTIONS_PLACEHOLDER", generate_all_air_evals_dsl(&m.airs, m.max_bus_width));
}

/// The replacements that both recursive circuits take.
pub open spec fn recursion_replacements(
    base: Map<Seq<char>, Seq<char>>,
    vm: VmParams,
    m: MachineParams,
    configs: Seq<Vec<WhirSummary>>,
    shape: RecursionShape,
) -> Map<Seq<char>, Seq<char>> {
    table_replacements(vm_replacements(whir_replacements(base, m, configs, shape), vm, m, shape), m)
}

/// Insert the replacements that both recursive circuits take.
fn insert_recursion(
    r: &mut Replacements,
    vm: &VmParams,
    m: &MachineParams,
    configs: &Vec<Vec<WhirSummary>>,
    shape: &RecursionShape,
)
    requires
        old(r).wf(),
        airs_ok(*m),
    ensures
        final(r).wf(),
        final(r)@ == recursion_replacements(old(r)@, *vm, *m, configs@, *shape),
{
    insert_whir(r, m, configs, shape);
    insert_vm(r, vm, m, shape);
    insert_tables(r, m);
}

/// The length of the unified circuit's public input: the aggregated hash, the padded
/// claim and the program digest.
pub open spec fn unified_input_len(n_vars: int) -> int {
    8 + claim_len_padded(n_vars) + 8
}

/// The length of the hybrid circuit's public input.
pub open spec fn hybrid_input_len(inner_n_vars: int, self_n_vars: int) -> int {
    8 + claim_len_padded(inner_n_vars) + claim_len_padded(self_n_vars) + 8 + 8
}

/// The sizes of the unified circuit for proofs of a program of the given size.
pub open spec fn unified_shape(
    vm: VmParams,
    log_size: int,
    min_stacked: usize,
    zero_eval: F,
) -> RecursionShape {
    let size = unified_input_len(point_n_vars(log_size, vm.n_instruction_columns as int));
    RecursionShape {
        min_stacked,
        log_guest: log_size as usize,
        public_memory_log: log2_ceil(vm.input_start + size) as usize,
        pub_input_size: size as usize,
        zero_eval,
    }
}

/// The sizes derived from the machine's parameters fit a machine word.
pub open spec fn input_fits(vm: VmParams) -> bool {
    vm.input_start <= usize::MAX as int / 2
}

/// Compute the sizes of the unified circuit.
pub fn build_unified_shape(
    vm: &VmParams,
    log_size: usize,
    min_stacked: usize,
    zero_eval: F,
) -> (r: RecursionShape)
    requires
        sizes_fit(log_size as int),
        input_fits(*vm),
    ensures
        r == unified_shape(*vm, log_size as int, min_stacked, zero_eval),
        r.pub_input_size == unified_input_len(
            point_n_vars(log_size as int, vm.n_instruction_columns as int),
        ),
        r.public_memory_log == log2_ceil(vm.input_start + r.pub_input_size),
{
    let sizes: (usize, usize, usize) = claim_sizes(log_size, vm.n_instruction_columns);
    let pub_input_size: usize = 8 + sizes.2 + 8;
    let public_memory_log: usize = log2_ceil_usize(vm.input_start + pub_input_size);
    RecursionShape {
        min_stacked,
        log_guest: log_size,
        public_memory_log,
        pub_input_size,
        zero_eval,
    }
}

/// `compile` can be called on the unified circuit for a guess of its size, with whatever
/// configurations `whir` gives.
pub open spec fn compiles_on_grid<
    B,
    C: Fn(CircuitKind, Replacements) -> Bytecode<B>,
    W: Fn(usize, usize) -> WhirSummary,
>(
    vm: VmParams,
    m: MachineParams,
    compile: C,
    whir: W,
    base: Map<Seq<char>, Seq<char>>,
    guess: usize,
    min_stacked: usize,
    zero_eval: F,
) -> bool {
    forall|configs: Seq<Vec<WhirSummary>>| #[trigger]
        is_whir_grid(whir, m, min_stacked as int, configs) ==> compiles(
            compile,
            CircuitKind::Unified,
            recursion_replacements(
                base,
                vm,
                m,
                configs,
                unified_shape(vm, guess as int, min_stacked, zero_eval),
            ),
        )
}

/// Compile the unified circuit for a guess of its own size.
pub fn compile_unified_inner<
    B,
    C: Fn(CircuitKind, Replacements) -> Bytecode<B>,
    W: Fn(usize, usize) -> WhirSummary,
>(
    vm: &VmParams,
    m: &MachineParams,
    compile: &C,
    whir: &W,
    batch_size: usize,
    codeword_len: usize,
    evals_per_leaf: usize,
    degree: usize,
    log_size_guess: usize,
    min_stacked: usize,
    bytecode_zero_eval: F,
) -> (r: Bytecode<B>)
    requires
        circuit_params(codeword_len as int, evals_per_leaf as int, degree as int),
        sizes_fit(log_size_guess as int),
        input_fits(*vm),
        airs_ok(*m),
        rates_ok(*m),
        whir_callable(*whir, *m, min_stacked as int),
        compiles_on_grid(
            *vm,
            *m,
            *compile,
            *whir,
            das_replacements(
                *vm,
                batch_size as int,
                codeword_len as int,
                evals_per_leaf as int,
                degree as int,
            ),
            log_size_guess,
            min_stacked,
            bytecode_zero_eval,
        ),
    ensures
        exists|configs: Seq<Vec<WhirSummary>>|
            is_whir_grid(*whir, *m, min_stacked as int, configs) && compiled(
                *compile,
                CircuitKind::Unified,
                #[trigger] recursion_replacements(
                    das_replacements(
                        *vm,
                        batch_size as int,
                        codeword_len as int,
                        evals_per_leaf as int,
                        degree as int,
                    ),
                    *vm,
                    *m,
                    configs,
                    unified_shape(*vm, log_size_guess as int, min_stacked, bytecode_zero_eval),
                ),
                r,
            ),
{
    let mut r = build_das_replacements(vm, batch_size, codeword_len, evals_per_leaf, degree);
    let shape = build_unified_shape(vm, log_size_guess, min_stacked, bytecode_zero_eval);
    let configs = whir_configs(whir, m, min_stacked);
    insert_recursion(&mut r, vm, m, &configs, &shape);
    compile(CircuitKind::Unified, r)
}

/// What to do after compiling a recursive circuit for a guess of its own size.
#[derive(Clone, Copy, Debug)]
pub enum CompileStep {
    /// The guess was right.
    Done,
    /// Compile again for the size that came out.
    Again(usize),
    /// The program's encoding does not start with the expected element.
    WrongZeroEval,
}

/// Decide whether a recursive circuit refers to itself correctly.
pub fn next_compile_step<B>(
    bytecode: &Bytecode<B>,
    log_size_guess: usize,
    bytecode_zero_eval: F,
) -> (r: CompileStep)
    ensures
        r == (if bytecode.zero_eval@ != bytecode_zero_eval@ {
            CompileStep::WrongZeroEval
        } else if bytecode.log_size == log_size_guess {
            CompileStep::Done
        } else {
            CompileStep::Again(bytecode.log_size)
        }),
{
    if bytecode.zero_eval != bytecode_zero_eval {
        CompileStep::WrongZeroEval
    } else if bytecode.log_size == log_size_guess {
        CompileStep::Done
    } else {
        CompileStep::Again(bytecode.log_size)
    }
}

/// The smaller of two numbers.
pub open spec fn smaller(a: usize, b: usize) -> usize {
    if a <= b {
        a
    } else {
        b
    }
}

/// The sizes of the hybrid circuit.
pub open spec fn hybrid_shape<B>(
    vm: VmParams,
    self_log_size: int,
    self_min_stacked: usize,
    inner: Bytecode<B>,
    inner_min_stacked: usize,
    self_zero_eval: F,
) -> RecursionShape {
    let cols = vm.n_instruction_columns as int;
    let size = hybrid_input_len(
        point_n_vars(inner.log_size as int, cols),
        point_n_vars(self_log_size, cols),
    );
    RecursionShape {
        min_stacked: smaller(self_min_stacked, inner_min_stacked),
        log_guest: self_log_size as usize,
        public_memory_log: log2_ceil(vm.input_start + size) as usize,
        pub_input_size: size as usize,
        zero_eval: self_zero_eval,
    }
}

/// The replacements of the hybrid circuit's template.
pub open spec fn hybrid_replacements<B>(
    vm: VmParams,
    m: MachineParams,
    configs: Seq<Vec<WhirSummary>>,
    shape: RecursionShape,
    inner: Bytecode<B>,
) -> Map<Seq<char>, Seq<char>> {
    recursion_replacements(Map::empty(), vm, m, configs, shape).insert(
        "__INNER_LOG_GUEST_BL__"@,
        decimal(inner.log_size as int),
    ).insert("__INNER_PUB_INPUT_SIZE__"@, decimal(16)).insert(
        "__INNER_PM_LOG__"@,
        decimal(log2_ceil(vm.input_start + 16) as int),
    ).insert("__INNER_BYTECODE_ZERO_EVAL__"@, decimal(inner.zero_eval@))
}

/// Compute the sizes of the hybrid circuit.
pub fn build_hybrid_shape<B>(
    vm: &VmParams,
    self_log_size: usize,
    self_min_stacked: usize,
    inner: &Bytecode<B>,
    inner_min_stacked: usize,
    self_zero_eval: F,
) -> (r: RecursionShape)
    requires
        sizes_fit(self_log_size as int),
        sizes_fit(inner.log_size as int),
        input_fits(*vm),
    ensures
        r == hybrid_shape(
            *vm,
            self_log_size as int,
            self_min_stacked,
            *inner,
            inner_min_stacked,
            self_zero_eval,
        ),
        r.public_memory_log == log2_ceil(vm.input_start + r.pub_input_size),
{
    let own: (usize, usize, usize) = claim_sizes(self_log_size, vm.n_instruction_columns);
    let other: (usize, usize, usize) = claim_sizes(inner.log_size, vm.n_instruction_columns);
    let pub_input_size: usize = 8 + other.2 + own.2 + 8 + 8;
    let public_memory_log: usize = log2_ceil_usize(vm.input_start + pub_input_size);
    let min_stacked: usize = if self_min_stacked <= inner_min_stacked {
        self_min_stacked
    } else {
        inner_min_stacked
    };
    RecursionShape {
        min_stacked,
        log_guest: self_log_size,
        public_memory_log,
        pub_input_size,
        zero_eval: self_zero_eval,
    }
}

/// `compile` can be called on the hybrid circuit for a guess of its size, with whatever
/// configurations `whir` gives.
pub open spec fn compiles_hybrid_on_grid<
    B,
    C: Fn(CircuitKind, Replacements) -> Bytecode<B>,
    W: Fn(usize, usize) -> WhirSummary,
>(
    vm: VmParams,
    m: MachineParams,
    compile: C,
    whir: W,
    inner: Bytecode<B>,
    guess: usize,
    self_min_stacked: usize,
    inner_min_stacked: usize,
    zero_eval: F,
) -> bool {
    forall|configs: Seq<Vec<WhirSummary>>| #[trigger]
        is_whir_grid(
            whir,
            m,
            smaller(self_min_stacked, inner_min_stacked) as int,
            configs,
        ) ==> compiles(
            compile,
            CircuitKind::Hybrid,
            hybrid_replacements(
                vm,
                m,
                configs,
                hybrid_shape(
                    vm,
                    guess as int,
                    self_min_stacked,
                    inner,
                    inner_min_stacked,
                    zero_eval,
                ),
                inner,
            ),
        )
}

/// Compile the hybrid circuit for a guess of its own size.
pub fn compile_hybrid_inner<
    B,
    C: Fn(CircuitKind, Replacements) -> Bytecode<B>,
    W: Fn(usize, usize) -> WhirSummary,
>(
    vm: &VmParams,
    m: &MachineParams,
    compile: &C,
    whir: &W,
    self_log_size: usize,
    self_min_stacked: usize,
    self_zero_eval: F,
    inner: &Bytecode<B>,
    inner_min_stacked: usize,
) -> (r: Bytecode<B>)
    requires
        sizes_fit(self_log_size as int),
        sizes_fit(inner.log_size as int),
        input_fits(*vm),
        airs_ok(*m),
        rates_ok(*m),
        whir_callable(*whir, *m, smaller(self_min_stacked, inner_min_stacked) as int),
        compiles_hybrid_on_grid(
            *vm,
            *m,
            *compile,
            *whir,
            *inner,
            self_log_size,
            self_min_stacked,
            inner_min_stacked,
            self_zero_eval,
        ),
    ensures
        exists|configs: Seq<Vec<WhirSummary>>|
            is_whir_grid(
                *whir,
                *m,
                smaller(self_min_stacked, inner_min_stacked) as int,
                configs,
            ) && compiled(
                *compile,
                CircuitKind::Hybrid,
                #[trigger] hybrid_replacements(
                    *vm,
                    *m,
                    configs,
                    hybrid_shape(
                        *vm,
                        self_log_size as int,
                        self_min_stacked,
                        *inner,
                        inner_min_stacked,
                        self_zero_eval,
                    ),
                    *inner,
                ),
                r,
            ),
{
    let shape = build_hybrid_shape(
        vm,
        self_log_size,
        self_min_stacked,
        inner,
        inner_min_stacked,
        self_zero_eval,
    );
    let configs = whir_configs(whir, m, shape.min_stacked);
    let mut r = Replacements::new();
    insert_recursion(&mut r, vm, m, &configs, &shape);
    r.insert("__INNER_LOG_GUEST_BL__", decimal_usize(inner.log_size));
    r.insert("__INNER_PUB_INPUT_SIZE__", decimal_usize(16));
    r.insert("__INNER_PM_LOG__", decimal_usize(log2_ceil_usize(vm.input_start + 16)));
    r.insert(
        "__INNER_BYTECODE_ZERO_EVAL__",
        decimal_u64(inner.zero_eval.as_canonical_u32() as u64),
    );
    assert(r@ == hybrid_replacements(*vm, *m, configs@, shape, *inner));
    compile(CircuitKind::Hybrid, r)
}

// Circuits that refer to themselves.

/// Why no circuit came out that refers to itself.
#[derive(Clone, Copy, Debug)]
pub enum CompileError {
    /// A program's encoding does not start with the expected element.
    WrongZeroEval,
    /// A program's size is too large for the sizes derived from it.
    TooLarge,
    /// Every attempt gave a program of another size than it was compiled for.
    NotConverged,
}

/// The size that an attempt of a run is compiled for: a fixed guess at first, then the size
/// that came out of the attempt before.
pub open spec fn guess_at<B>(trace: Seq<Bytecode<B>>, i: int) -> usize {
    if i <= 0 {
        INITIAL_LOG_SIZE
    } else {
        trace[i - 1].log_size
    }
}

/// The outcome of an attempt calls for another one.
pub open spec fn goes_on<B>(trace: Seq<Bytecode<B>>, i: int) -> bool {
    &&& trace[i].zero_eval@ == 1
    &&& trace[i].log_size != guess_at(trace, i)
    &&& sizes_fit(trace[i].log_size as int)
}

/// A run of at most `attempts` attempts, each but the last of which calls for another,
/// ends with an error, or with none.
pub open spec fn run_ends<B>(
    trace: Seq<Bytecode<B>>,
    attempts: int,
    error: Option<CompileError>,
) -> bool {
    let k = trace.len() - 1;
    &&& trace.len() <= attempts
    &&& forall|i: int| 0 <= i < k ==> #[trigger] goes_on(trace, i)
    &&& match error {
        None => k >= 0 && trace[k].zero_eval@ == 1 && trace[k].log_size == guess_at(trace, k),
        Some(CompileError::WrongZeroEval) => k >= 0 && trace[k].zero_eval@ != 1,
        Some(CompileError::TooLarge) => k >= 0 && trace[k].zero_eval@ == 1
            && trace[k].log_size != guess_at(trace, k) && !sizes_fit(trace[k].log_size as int),
        Some(CompileError::NotConverged) => trace.len() == attempts && (k >= 0 ==> goes_on(
            trace,
            k,
        )),
    }
}

/// The attempts of a run so far, each of which calls for another.
pub open spec fn all_go_on<B>(trace: Seq<Bytecode<B>>) -> bool {
    forall|i: int| 0 <= i < trace.len() ==> #[trigger] goes_on(trace, i)
}

/// One more attempt leaves those before it as they are.
proof fn lemma_guess_push<B>(trace: Seq<Bytecode<B>>, b: Bytecode<B>, i: int)
    requires
        0 <= i <= trace.len(),
    ensures
        guess_at(trace.push(b), i) == guess_at(trace, i),
        i < trace.len() ==> goes_on(trace.push(b), i) == goes_on(trace, i),
{
    if i > 0 {
        assert(trace.push(b)[i - 1] == trace[i - 1]);
    }
}

/// How one more attempt ends a run, or carries it on.
proof fn lemma_run_push<B>(trace: Seq<Bytecode<B>>, b: Bytecode<B>, attempts: int)
    requires
        all_go_on(trace),
        trace.len() < attempts,
    ensures
        ({
            let t = trace.push(b);
            let guess = guess_at(trace, trace.len() as int);
            &&& b.zero_eval@ != 1 ==> run_ends(t, attempts, Some(CompileError::WrongZeroEval))
            &&& b.zero_eval@ == 1 && b.log_size == guess ==> run_ends(t, attempts, None)
            &&& b.zero_eval@ == 1 && b.log_size != guess && !sizes_fit(b.log_size as int)
                ==> run_ends(t, attempts, Some(CompileError::TooLarge))
            &&& b.zero_eval@ == 1 && b.log_size != guess && sizes_fit(b.log_size as int)
                ==> all_go_on(t)
            &&& guess_at(t, t.len() as int) == b.log_size
        }),
{
    let t = trace.push(b);
    assert forall|i: int| 0 <= i < trace.len() implies #[trigger] goes_on(t, i) by {
        lemma_guess_push(trace, b, i);
    }
    lemma_guess_push(trace, b, trace.len() as int);
}

/// The error of a result, where there is one.
pub open spec fn error_of<T>(r: Result<T, CompileError>) -> Option<CompileError> {
    match r {
        Ok(_) => None,
        Err(e) => Some(e),
    }
}

/// `bytecode` is the unified circuit compiled for programs of the size `guess`.
#[verifier::opaque]
pub open spec fn unified_attempt<
    B,
    C: Fn(CircuitKind, Replacements) -> Bytecode<B>,
    W: Fn(usize, usize) -> WhirSummary,
    S: Fn(usize) -> usize,
>(
    vm: VmParams,
    m: MachineParams,
    compile: C,
    whir: W,
    min_stacked: S,
    base: Map<Seq<char>, Seq<char>>,
    guess: usize,
    zero_eval: F,
    bytecode: Bytecode<B>,
) -> bool {
    exists|ms: usize, configs: Seq<Vec<WhirSummary>>|
        call_ensures(min_stacked, (guess,), ms) && is_whir_grid(
            whir,
            m,
            ms as int,
            configs,
        ) && compiled(
            compile,
            CircuitKind::Unified,
            #[trigger] recursion_replacements(
                base,
                vm,
                m,
                configs,
                unified_shape(vm, guess as int, ms, zero_eval),
            ),
            bytecode,
        )
}

/// `bytecode` is the unified circuit compiled for programs of its own size, and its
/// encoding starts with one, as it was compiled for.
pub open spec fn unified_for_own_size<
    B,
    C: Fn(CircuitKind, Replacements) -> Bytecode<B>,
    W: Fn(usize, usize) -> WhirSummary,
    S: Fn(usize) -> usize,
>(
    vm: VmParams,
    m: MachineParams,
    compile: C,
    whir: W,
    min_stacked: S,
    base: Map<Seq<char>, Seq<char>>,
    bytecode: Bytecode<B>,
) -> bool {
    &&& bytecode.zero_eval@ == 1
    &&& exists|one: F|
        one@ == 1 && #[trigger] unified_attempt(
            vm,
            m,
            compile,
            whir,
            min_stacked,
            base,
            bytecode.log_size,
            one,
            bytecode,
        )
}

/// An attempt of a run is the unified circuit compiled for the size that it guesses and for
/// an encoding that starts with one.
pub open spec fn unified_made<
    B,
    C: Fn(CircuitKind, Replacements) -> Bytecode<B>,
    W: Fn(usize, usize) -> WhirSummary,
    S: Fn(usize) -> usize,
>(
    vm: VmParams,
    m: MachineParams,
    compile: C,
    whir: W,
    min_stacked: S,
    base: Map<Seq<char>, Seq<char>>,
    trace: Seq<Bytecode<B>>,
    i: int,
) -> bool {
    exists|one: F|
        one@ == 1 && #[trigger] unified_attempt(
            vm,
            m,
            compile,
            whir,
            min_stacked,
            base,
            guess_at(trace, i),
            one,
            trace[i],
        )
}

/// All attempts of a run are of the unified circuit.
pub open spec fn unified_run<
    B,
    C: Fn(CircuitKind, Replacements) -> Bytecode<B>,
    W: Fn(usize, usize) -> WhirSummary,
    S: Fn(usize) -> usize,
>(
    vm: VmParams,
    m: MachineParams,
    compile: C,
    whir: W,
    min_stacked: S,
    base: Map<Seq<char>, Seq<char>>,
    trace: Seq<Bytecode<B>>,
) -> bool {
    forall|i: int|
        0 <= i < trace.len() ==> #[trigger] unified_made(
            vm,
            m,
            compile,
            whir,
            min_stacked,
            base,
            trace,
            i,
        )
}

/// The result is that of a run of at most `attempts` attempts at the unified circuit: the
/// last program of the run, or the error that it ends with.
pub open spec fn unified_outcome<
    B,
    C: Fn(CircuitKind, Replacements) -> Bytecode<B>,
    W: Fn(usize, usize) -> WhirSummary,
    S: Fn(usize) -> usize,
>(
    vm: VmParams,
    m: MachineParams,
    compile: C,
    whir: W,
    min_stacked: S,
    base: Map<Seq<char>, Seq<char>>,
    attempts: int,
    r: Result<Bytecode<B>, CompileError>,
) -> bool {
    exists|trace: Seq<Bytecode<B>>| #[trigger]
        unified_run(vm, m, compile, whir, min_stacked, base, trace) && run_ends(
            trace,
            attempts,
            error_of(r),
        ) && (r is Ok ==> r->Ok_0 == trace.last())
}

/// The unified circuit can be compiled for a guess of its size.
pub open spec fn unified_compiles_for<
    B,
    C: Fn(CircuitKind, Replacements) -> Bytecode<B>,
    W: Fn(usize, usize) -> WhirSummary,
    S: Fn(usize) -> usize,
>(
    vm: VmParams,
    m: MachineParams,
    compile: C,
    whir: W,
    min_stacked: S,
    base: Map<Seq<char>, Seq<char>>,
    guess: usize,
) -> bool {
    &&& call_requires(min_stacked, (guess,))
    &&& forall|ms: usize, one: F|
        #[trigger] call_ensures(min_stacked, (guess,), ms) && #[trigger] one@ == 1
            ==> whir_callable(whir, m, ms as int) && compiles_on_grid(
            vm,
            m,
            compile,
            whir,
            base,
            guess,
            ms,
            one,
        )
}

/// Every attempt that a run of at most `attempts` attempts at the unified circuit makes
/// can be made.
pub open spec fn unified_compiles<
    B,
    C: Fn(CircuitKind, Replacements) -> Bytecode<B>,
    W: Fn(usize, usize) -> WhirSummary,
    S: Fn(usize) -> usize,
>(
    vm: VmParams,
    m: MachineParams,
    compile: C,
    whir: W,
    min_stacked: S,
    base: Map<Seq<char>, Seq<char>>,
    attempts: int,
) -> bool {
    forall|trace: Seq<Bytecode<B>>| #[trigger]
        unified_run(vm, m, compile, whir, min_stacked, base, trace) && all_go_on(trace)
            && trace.len() < attempts ==> unified_compiles_for(
            vm,
            m,
            compile,
            whir,
            min_stacked,
            base,
            guess_at(trace, trace.len() as int),
        )
}

/// One more attempt at the unified circuit.
proof fn lemma_unified_push<
    B,
    C: Fn(CircuitKind, Replacements) -> Bytecode<B>,
    W: Fn(usize, usize) -> WhirSummary,
    S: Fn(usize) -> usize,
>(
    vm: VmParams,
    m: MachineParams,
    compile: C,
    whir: W,
    min_stacked: S,
    base: Map<Seq<char>, Seq<char>>,
    trace: Seq<Bytecode<B>>,
    one: F,
    b: Bytecode<B>,
)
    requires
        unified_run(vm, m, compile, whir, min_stacked, base, trace),
        one@ == 1,
        unified_attempt(
            vm,
            m,
            compile,
            whir,
            min_stacked,
            base,
            guess_at(trace, trace.len() as int),
            one,
            b,
        ),
    ensures
        unified_run(vm, m, compile, whir, min_stacked, base, trace.push(b)),
{
    let t = trace.push(b);
    assert forall|i: int| 0 <= i < t.len() implies #[trigger] unified_made(
        vm,
        m,
        compile,
        whir,
        min_stacked,
        base,
        t,
        i,
    ) by {
        lemma_guess_push(trace, b, i);
        if i < trace.len() {
            assert(unified_made(vm, m, compile, whir, min_stacked, base, trace, i));
            assert(t[i] == trace[i]);
        } else {
            assert(t[i] == b);
        }
    }
}

/// Compile the unified circuit, which verifies proofs of itself: compile for a guess of
/// its size, and again for the size that comes out, until the two agree.
pub fn compile_unified_das_circuit<
    B,
    C: Fn(CircuitKind, Replacements) -> Bytecode<B>,
    W: Fn(usize, usize) -> WhirSummary,
    S: Fn(usize) -> usize,
>(
    vm: &VmParams,
    m: &MachineParams,
    compile: &C,
    whir: &W,
    min_stacked: &S,
    batch_size: usize,
    codeword_len: usize,
    evals_per_leaf: usize,
    degree: usize,
    attempts: usize,
) -> (r: Result<Bytecode<B>, CompileError>)
    requires
        circuit_params(codeword_len as int, evals_per_leaf as int, degree as int),
        input_fits(*vm),
        airs_ok(*m),
        rates_ok(*m),
        unified_compiles(
            *vm,
            *m,
            *compile,
            *whir,
            *min_stacked,
            das_replacements(
                *vm,
                batch_size as int,
                codeword_len as int,
                evals_per_leaf as int,
                degree as int,
            ),
            attempts as int,
        ),
    ensures
        r is Ok ==> unified_for_own_size(
            *vm,
            *m,
            *compile,
            *whir,
            *min_stacked,
            das_replacements(
                *vm,
                batch_size as int,
                codeword_len as int,
                evals_per_leaf as int,
                degree as int,
            ),
            r->Ok_0,
        ),
        unified_outcome(
            *vm,
            *m,
            *compile,
            *whir,
            *min_stacked,
            das_replacements(
                *vm,
                batch_size as int,
                codeword_len as int,
                evals_per_leaf as int,
                degree as int,
            ),
            attempts as int,
            r,
        ),
{
    let mut guess: usize = INITIAL_LOG_SIZE;
    let zero_eval = F::one();
    let ghost base = das_replacements(
        *vm,
        batch_size as int,
        codeword_len as int,
        evals_per_leaf as int,
        degree as int,
    );
    let ghost mut trace: Seq<Bytecode<B>> = Seq::empty();
    let mut left: usize = attempts;
    while left > 0
        invariant
            circuit_params(codeword_len as int, evals_per_leaf as int, degree as int),
            input_fits(*vm),
            airs_ok(*m),
            rates_ok(*m),
            unified_compiles(
                *vm,
                *m,
                *compile,
                *whir,
                *min_stacked,
                base,
                attempts as int,
            ),
            sizes_fit(guess as int),
            zero_eval@ == 1,
            left <= attempts,
            base == das_replacements(
                *vm,
                batch_size as int,
                codeword_len as int,
                evals_per_leaf as int,
                degree as int,
            ),
            trace.len() == attempts - left,
            all_go_on(trace),
            guess == guess_at(trace, trace.len() as int),
            unified_run(*vm, *m, *compile, *whir, *min_stacked, base, trace),
        decreases left,
    {
        assert(unified_compiles_for(
            *vm,
            *m,
            *compile,
            *whir,
            *min_stacked,
            base,
            guess,
        ));
        let ms: usize = min_stacked(guess);
        let bytecode = compile_unified_inner(
            vm,
            m,
            compile,
            whir,
            batch_size,
            codeword_len,
            evals_per_leaf,
            degree,
            guess,
            ms,
            zero_eval,
        );
        assert(unified_attempt(
            *vm,
            *m,
            *compile,
            *whir,
            *min_stacked,
            base,
            guess,
            zero_eval,
            bytecode,
        )) by {
            reveal(unified_attempt);
        }
        proof {
            lemma_unified_push(
                *vm,
                *m,
                *compile,
                *whir,
                *min_stacked,
                base,
                trace,
                zero_eval,
                bytecode,
            );
            lemma_run_push(trace, bytecode, attempts as int);
            trace = trace.push(bytecode);
        }
        match next_compile_step(&bytecode, guess, zero_eval) {
            CompileStep::WrongZeroEval => {
                return Err(CompileError::WrongZeroEval);
            },
            CompileStep::Done => {
                assert(bytecode.log_size == guess);
                return Ok(bytecode);
            },
            CompileStep::Again(actual) => {
                if actual > usize::MAX / 100 {
                    return Err(CompileError::TooLarge);
                }
                guess = actual;
            },
        }
        left = left - 1;
    }
    Err(CompileError::NotConverged)
}

/// `bytecode` is the hybrid circuit for the inner program compiled for proofs of a
/// program of the size `guess`.
#[verifier::opaque]
pub open spec fn hybrid_attempt<
    B,
    C: Fn(CircuitKind, Replacements) -> Bytecode<B>,
    W: Fn(usize, usize) -> WhirSummary,
    S: Fn(usize) -> usize,
>(
    vm: VmParams,
    m: MachineParams,
    compile: C,
    whir: W,
    min_stacked: S,
    inner: Bytecode<B>,
    guess: usize,
    zero_eval: F,
    bytecode: Bytecode<B>,
) -> bool {
    exists|ms: usize, inner_ms: usize, configs: Seq<Vec<WhirSummary>>|
        call_ensures(min_stacked, (guess,), ms) && call_ensures(
            min_stacked,
            (inner.log_size,),
            inner_ms,
        ) && is_whir_grid(whir, m, smaller(ms, inner_ms) as int, configs) && compiled(
            compile,
            CircuitKind::Hybrid,
            #[trigger] hybrid_replacements(
                vm,
                m,
                configs,
                hybrid_shape(vm, guess as int, ms, inner, inner_ms, zero_eval),
                inner,
            ),
            bytecode,
        )
}

/// The second program is the hybrid circuit for the first, compiled for programs of its
/// own size, and its encoding starts with one, as it was compiled for.
pub open spec fn hybrid_for_own_size<
    B,
    C: Fn(CircuitKind, Replacements) -> Bytecode<B>,
    W: Fn(usize, usize) -> WhirSummary,
    S: Fn(usize) -> usize,
>(
    vm: VmParams,
    m: MachineParams,
    compile: C,
    whir: W,
    min_stacked: S,
    programs: (Bytecode<B>, Bytecode<B>),
) -> bool {
    &&& programs.1.zero_eval@ == 1
    &&& exists|one: F|
        one@ == 1 && #[trigger] hybrid_attempt(
            vm,
            m,
            compile,
            whir,
            min_stacked,
            programs.0,
            programs.1.log_size,
            one,
            programs.1,
        )
}

/// An attempt of a run is the hybrid circuit compiled for the size that it guesses and for
/// an encoding that starts with one.
pub open spec fn hybrid_made<
    B,
    C: Fn(CircuitKind, Replacements) -> Bytecode<B>,
    W: Fn(usize, usize) -> WhirSummary,
    S: Fn(usize) -> usize,
>(
    vm: VmParams,
    m: MachineParams,
    compile: C,
    whir: W,
    min_stacked: S,
    inner: Bytecode<B>,
    trace: Seq<Bytecode<B>>,
    i: int,
) -> bool {
    exists|one: F|
        one@ == 1 && #[trigger] hybrid_attempt(
            vm,
            m,
            compile,
            whir,
            min_stacked,
            inner,
            guess_at(trace, i),
            one,
            trace[i],
        )
}

/// All attempts of a run are of the hybrid circuit for the inner program.
pub open spec fn hybrid_run<
    B,
    C: Fn(CircuitKind, Replacements) -> Bytecode<B>,
    W: Fn(usize, usize) -> WhirSummary,
    S: Fn(usize) -> usize,
>(
    vm: VmParams,
    m: MachineParams,
    compile: C,
    whir: W,
    min_stacked: S,
    inner: Bytecode<B>,
    trace: Seq<Bytecode<B>>,
) -> bool {
    forall|i: int|
        0 <= i < trace.len() ==> #[trigger] hybrid_made(
            vm,
            m,
            compile,
            whir,
            min_stacked,
            inner,
            trace,
            i,
        )
}

/// The result for an inner program: an error where that is too large, else that of a run
/// of at most `attempts` attempts at the hybrid circuit for it.
pub open spec fn hybrid_outcome<
    B,
    C: Fn(CircuitKind, Replacements) -> Bytecode<B>,
    W: Fn(usize, usize) -> WhirSummary,
    S: Fn(usize) -> usize,
>(
    vm: VmParams,
    m: MachineParams,
    compile: C,
    whir: W,
    min_stacked: S,
    inner: Bytecode<B>,
    attempts: int,
    r: Result<(Bytecode<B>, Bytecode<B>), CompileError>,
) -> bool {
    if !sizes_fit(inner.log_size as int) {
        r == Err::<(Bytecode<B>, Bytecode<B>), CompileError>(CompileError::TooLarge)
    } else {
        exists|trace: Seq<Bytecode<B>>| #[trigger]
            hybrid_run(vm, m, compile, whir, min_stacked, inner, trace) && run_ends(
                trace,
                attempts,
                error_of(r),
            ) && (r is Ok ==> r->Ok_0 == (inner, trace.last()))
    }
}

/// The hybrid circuit for an inner program can be compiled for a guess of its size.
pub open spec fn hybrid_compiles_for<
    B,
    C: Fn(CircuitKind, Replacements) -> Bytecode<B>,
    W: Fn(usize, usize) -> WhirSummary,
    S: Fn(usize) -> usize,
>(
    vm: VmParams,
    m: MachineParams,
    compile: C,
    whir: W,
    min_stacked: S,
    inner: Bytecode<B>,
    guess: usize,
) -> bool {
    &&& call_requires(min_stacked, (guess,))
    &&& call_requires(min_stacked, (inner.log_size,))
    &&& forall|ms: usize, inner_ms: usize, one: F|
        #[trigger] call_ensures(min_stacked, (guess,), ms) && #[trigger] call_ensures(
            min_stacked,
            (inner.log_size,),
            inner_ms,
        ) && #[trigger] one@ == 1 ==> whir_callable(whir, m, smaller(ms, inner_ms) as int)
            && compiles_hybrid_on_grid(
            vm,
            m,
            compile,
            whir,
            inner,
            guess,
            ms,
            inner_ms,
            one,
        )
}

/// Every attempt that a run of at most `attempts` attempts at the hybrid circuit for an
/// inner program makes can be made.
pub open spec fn hybrid_compiles<
    B,
    C: Fn(CircuitKind, Replacements) -> Bytecode<B>,
    W: Fn(usize, usize) -> WhirSummary,
    S: Fn(usize) -> usize,
>(
    vm: VmParams,
    m: MachineParams,
    compile: C,
    whir: W,
    min_stacked: S,
    inner: Bytecode<B>,
    attempts: int,
) -> bool {
    forall|trace: Seq<Bytecode<B>>| #[trigger]
        hybrid_run(vm, m, compile, whir, min_stacked, inner, trace) && all_go_on(trace)
            && trace.len() < attempts ==> hybrid_compiles_for(
            vm,
            m,
            compile,
            whir,
            min_stacked,
            inner,
            guess_at(trace, trace.len() as int),
        )
}

/// One more attempt at the hybrid circuit.
proof fn lemma_hybrid_push<
    B,
    C: Fn(CircuitKind, Replacements) -> Bytecode<B>,
    W: Fn(usize, usize) -> WhirSummary,
    S: Fn(usize) -> usize,
>(
    vm: VmParams,
    m: MachineParams,
    compile: C,
    whir: W,
    min_stacked: S,
    inner: Bytecode<B>,
    trace: Seq<Bytecode<B>>,
    one: F,
    b: Bytecode<B>,
)
    requires
        hybrid_run(vm, m, compile, whir, min_stacked, inner, trace),
        one@ == 1,
        hybrid_attempt(
            vm,
            m,
            compile,
            whir,
            min_stacked,
            inner,
            guess_at(trace, trace.len() as int),
            one,
            b,
        ),
    ensures
        hybrid_run(vm, m, compile, whir, min_stacked, inner, trace.push(b)),
{
    let t = trace.push(b);
    assert forall|i: int| 0 <= i < t.len() implies #[trigger] hybrid_made(
        vm,
        m,
        compile,
        whir,
        min_stacked,
        inner,
        t,
        i,
    ) by {
        lemma_guess_push(trace, b, i);
        if i < trace.len() {
            assert(hybrid_made(vm, m, compile, whir, min_stacked, inner, trace, i));
            assert(t[i] == trace[i]);
        } else {
            assert(t[i] == b);
        }
    }
}

/// Compile the batch circuit, and the hybrid circuit that verifies its proofs and proofs
/// of itself. Returns the inner and the hybrid program.
pub fn compile_hybrid_das_circuit<
    B,
    C: Fn(CircuitKind, Replacements) -> Bytecode<B>,
    W: Fn(usize, usize) -> WhirSummary,
    S: Fn(usize) -> usize,
>(
    vm: &VmParams,
    m: &MachineParams,
    compile: &C,
    whir: &W,
    min_stacked: &S,
    batch_size: usize,
    codeword_len: usize,
    evals_per_leaf: usize,
    degree: usize,
    attempts: usize,
) -> (r: Result<(Bytecode<B>, Bytecode<B>), CompileError>)
    requires
        circuit_params(codeword_len as int, evals_per_leaf as int, degree as int),
        input_fits(*vm),
        airs_ok(*m),
        rates_ok(*m),
        compiles(
            *compile,
            CircuitKind::Batch,
            das_replacements(
                *vm,
                batch_size as int,
                codeword_len as int,
                evals_per_leaf as int,
                degree as int,
            ),
        ),
        forall|inner: Bytecode<B>|
            #[trigger] compiled(
                *compile,
                CircuitKind::Batch,
                das_replacements(
                    *vm,
                    batch_size as int,
                    codeword_len as int,
                    evals_per_leaf as int,
                    degree as int,
                ),
                inner,
            ) && sizes_fit(inner.log_size as int) ==> hybrid_compiles(
                *vm,
                *m,
                *compile,
                *whir,
                *min_stacked,
                inner,
                attempts as int,
            ),
    ensures
        r is Ok ==> compiled(
            *compile,
            CircuitKind::Batch,
            das_replacements(
                *vm,
                batch_size as int,
                codeword_len as int,
                evals_per_leaf as int,
                degree as int,
            ),
            r->Ok_0.0,
        ) && hybrid_for_own_size(*vm, *m, *compile, *whir, *min_stacked, r->Ok_0),
        exists|inner: Bytecode<B>|
            #[trigger] compiled(
                *compile,
                CircuitKind::Batch,
                das_replacements(
                    *vm,
                    batch_size as int,
                    codeword_len as int,
                    evals_per_leaf as int,
                    degree as int,
                ),
                inner,
            ) && hybrid_outcome(
                *vm,
                *m,
                *compile,
                *whir,
                *min_stacked,
                inner,
                attempts as int,
                r,
            ),
{
    let inner = compile_das_circuit(vm, compile, batch_size, codeword_len, evals_per_leaf, degree);
    if inner.log_size > usize::MAX / 100 {
        return Err(CompileError::TooLarge);
    }
    let mut guess: usize = INITIAL_LOG_SIZE;
    let zero_eval = F::one();
    let ghost mut trace: Seq<Bytecode<B>> = Seq::empty();
    let mut left: usize = attempts;
    while left > 0
        invariant
            circuit_params(codeword_len as int, evals_per_leaf as int, degree as int),
            input_fits(*vm),
            airs_ok(*m),
            rates_ok(*m),
            compiled(
                *compile,
                CircuitKind::Batch,
                das_replacements(
                    *vm,
                    batch_size as int,
                    codeword_len as int,
                    evals_per_leaf as int,
                    degree as int,
                ),
                inner,
            ),
            hybrid_compiles(
                *vm,
                *m,
                *compile,
                *whir,
                *min_stacked,
                inner,
                attempts as int,
            ),
            sizes_fit(guess as int),
            sizes_fit(inner.log_size as int),
            zero_eval@ == 1,
            left <= attempts,
            trace.len() == attempts - left,
            all_go_on(trace),
            guess == guess_at(trace, trace.len() as int),
            hybrid_run(*vm, *m, *compile, *whir, *min_stacked, inner, trace),
        decreases left,
    {
        assert(hybrid_compiles_for(
            *vm,
            *m,
            *compile,
            *whir,
            *min_stacked,
            inner,
            guess,
        ));
        let ms: usize = min_stacked(guess);
        let inner_ms: usize = min_stacked(inner.log_size);
        let bytecode = compile_hybrid_inner(
            vm,
            m,
            compile,
            whir,
            guess,
            ms,
            zero_eval,
            &inner,
            inner_ms,
        );
        assert(hybrid_attempt(
            *vm,
            *m,
            *compile,
            *whir,
            *min_stacked,
            inner,
            guess,
            zero_eval,
            bytecode,
        )) by {
            reveal(hybrid_attempt);
        }
        proof {
            lemma_hybrid_push(
                *vm,
                *m,
                *compile,
                *whir,
                *min_stacked,
                inner,
                trace,
                zero_eval,
                bytecode,
            );
            lemma_run_push(trace, bytecode, attempts as int);
            trace = trace.push(bytecode);
        }
        match next_compile_step(&bytecode, guess, zero_eval) {
            CompileStep::WrongZeroEval => {
                return Err(CompileError::WrongZeroEval);
            },
            CompileStep::Done => {
                let programs = (inner, bytecode);
                assert(hybrid_attempt(
                    *vm,
                    *m,
                    *compile,
                    *whir,
                    *min_stacked,
                    programs.0,
                    programs.1.log_size,
                    zero_eval,
                    programs.1,
                ));
                return Ok(programs);
            },
            CompileStep::Again(actual) => {
                if actual > usize::MAX / 100 {
                    return Err(CompileError::TooLarge);
                }
                guess = actual;
            },
        }
        left = left - 1;
    }
    Err(CompileError::NotConverged)
}

} // verus!
