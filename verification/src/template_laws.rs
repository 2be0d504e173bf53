//! What the recursive circuits are compiled with.

use crate::air::{table_text, tables_text, TableAir};
use crate::circuit::{
    hybrid_input_len, hybrid_replacements, hybrid_shape, recursion_replacements,
    table_replacements, unified_input_len, unified_shape, vm_replacements, whir_replacements,
    RecursionShape, MAX_INNER_PROOFS,
};
use crate::circuit_laws::number_at;
use crate::field::F;
use crate::hash::{is_compression, lemma_compress};
use crate::inputs::{
    batch_public_input, default_hybrid_input, default_unified_input, lemma_chain_digest,
    public_memory,
};
use crate::machine::{
    sorted_by_key, table_entry, table_list, values_of, whir_numbers, whir_row, whir_table,
    without_repeats, MachineParams, TableColumn, TableInfo, WhirColumn, WhirSummary,
};
use crate::numeric::{lemma_log2_ceil, log2, log2_ceil};
use crate::slices::{flat, lemma_flat_add, lemma_flat_take};
use crate::text::{bracketed, decimal, decimals};
use crate::text_laws::{
    is_item, lemma_decimal_is_item, lemma_decimal_reads_back, lemma_decimals_read_back,
    lemma_list_is_item, lemma_list_reads_back, lemma_numbers_read_back, list_items, list_numbers,
};
use crate::types::{digest_view, Commitment, Digest};
use crate::vm::{claim_len, claim_len_padded, point_n_vars, Bytecode, VmParams};
use vstd::arithmetic::power2::pow2;
use vstd::prelude::*;

verus! {

/// The texts under the keys of the low-degree tests.
proof fn lemma_whir_entries(base: Map<Seq<char>, Seq<char>>, m: MachineParams, configs: Seq<Vec<WhirSummary>>, shape: RecursionShape)
    ensures
        ({
            let r = whir_replacements(base, m, configs, shape);
            &&& r["WHIR_FIRST_RS_REDUCTION_FACTOR_PLACEHOLDER"@] == decimal(m.rs_domain_initial_reduction_factor as int)
            &&& r["WHIR_ALL_POTENTIAL_NUM_QUERIES_PLACEHOLDER"@] == whir_table(configs, WhirColumn::NumQueries)
            &&& r["WHIR_ALL_POTENTIAL_QUERY_GRINDING_PLACEHOLDER"@] == whir_table(configs, WhirColumn::QueryGrinding)
            &&& r["WHIR_ALL_POTENTIAL_NUM_OODS_PLACEHOLDER"@] == whir_table(configs, WhirColumn::NumOods)
            &&& r["WHIR_ALL_POTENTIAL_FOLDING_GRINDING_PLACEHOLDER"@] == whir_table(configs, WhirColumn::FoldingGrinding)
            &&& r["MIN_STACKED_N_VARS_PLACEHOLDER"@] == decimal(shape.min_stacked as int)
        }),
{
    reveal(whir_replacements);
    reveal_strlit("WHIR_FIRST_RS_REDUCTION_FACTOR_PLACEHOLDER");
    reveal_strlit("WHIR_ALL_POTENTIAL_NUM_QUERIES_PLACEHOLDER");
    reveal_strlit("WHIR_ALL_POTENTIAL_QUERY_GRINDING_PLACEHOLDER");
    reveal_strlit("WHIR_ALL_POTENTIAL_NUM_OODS_PLACEHOLDER");
    reveal_strlit("WHIR_ALL_POTENTIAL_FOLDING_GRINDING_PLACEHOLDER");
    reveal_strlit("MIN_STACKED_N_VARS_PLACEHOLDER");
    assert("WHIR_FIRST_RS_REDUCTION_FACTOR_PLACEHOLDER"@.len() == 42);
    assert("WHIR_FIRST_RS_REDUCTION_FACTOR_PLACEHOLDER"@[5] == 'F');
    assert("WHIR_ALL_POTENTIAL_NUM_QUERIES_PLACEHOLDER"@.len() == 42);
    assert("WHIR_ALL_POTENTIAL_NUM_QUERIES_PLACEHOLDER"@[5] == 'A');
    assert("WHIR_ALL_POTENTIAL_QUERY_GRINDING_PLACEHOLDER"@.len() == 45);
    assert("WHIR_ALL_POTENTIAL_NUM_OODS_PLACEHOLDER"@.len() == 39);
    assert("WHIR_ALL_POTENTIAL_FOLDING_GRINDING_PLACEHOLDER"@.len() == 47);
    assert("MIN_STACKED_N_VARS_PLACEHOLDER"@.len() == 30);
}

/// The texts under the keys of the machine's parameters.
proof fn lemma_vm_entries(base: Map<Seq<char>, Seq<char>>, vm: VmParams, m: MachineParams, shape: RecursionShape)
    ensures
        ({
            let r = vm_replacements(base, vm, m, shape);
            &&& r["N_TABLES_PLACEHOLDER"@] == decimal(m.n_tables as int)
            &&& r["MIN_LOG_N_ROWS_PER_TABLE_PLACEHOLDER"@] == decimal(m.min_log_n_rows_per_table as int)
            &&& r["MAX_LOG_N_ROWS_PER_TABLE_PLACEHOLDER"@] == bracketed( decimals(values_of(without_repeats(sorted_by_key(m.max_log_n_rows_per_table@)))), )
            &&& r["MIN_WHIR_LOG_INV_RATE_PLACEHOLDER"@] == decimal(m.min_whir_log_inv_rate as int)
            &&& r["MAX_WHIR_LOG_INV_RATE_PLACEHOLDER"@] == decimal(m.max_whir_log_inv_rate as int)
            &&& r["MIN_LOG_MEMORY_SIZE_PLACEHOLDER"@] == decimal(m.min_log_memory_size as int)
            &&& r["MAX_LOG_MEMORY_SIZE_PLACEHOLDER"@] == decimal(m.max_log_memory_size as int)
            &&& r["MAX_BUS_WIDTH_PLACEHOLDER"@] == decimal(m.max_bus_width as int)
            &&& r["LOGUP_MEMORY_DOMAINSEP_PLACEHOLDER"@] == decimal(m.logup_memory_domainsep as int)
            &&& r["LOGUP_PRECOMPILE_DOMAINSEP_PLACEHOLDER"@] == decimal(m.logup_precompile_domainsep as int)
            &&& r["LOGUP_BYTECODE_DOMAINSEP_PLACEHOLDER"@] == decimal(m.logup_bytecode_domainsep as int)
            &&& r["LOG_GUEST_BYTECODE_LEN_PLACEHOLDER"@] == decimal(shape.log_guest as int)
            &&& r["COL_PC_PLACEHOLDER"@] == decimal(m.col_pc as int)
            &&& r["NONRESERVED_PROGRAM_INPUT_START_PLACEHOLDER"@] == decimal(vm.input_start as int)
            &&& r["INNER_PUBLIC_MEMORY_LOG_SIZE_PLACEHOLDER"@] == decimal(shape.public_memory_log as int)
            &&& r["PUB_INPUT_SIZE_PLACEHOLDER"@] == decimal(shape.pub_input_size as int)
            &&& r["MAX_NUM_VARIABLES_TO_SEND_COEFFS_PLACEHOLDER"@] == decimal(m.max_num_variables_to_send_coeffs as int)
            &&& r["WHIR_INITIAL_FOLDING_FACTOR_PLACEHOLDER"@] == decimal(m.whir_initial_folding_factor as int)
            &&& r["WHIR_SUBSEQUENT_FOLDING_FACTOR_PLACEHOLDER"@] == decimal(m.whir_subsequent_folding_factor as int)
            &&& r["EXECUTION_TABLE_INDEX_PLACEHOLDER"@] == decimal(m.execution_table_index as int)
            &&& r["MAX_NUM_AIR_CONSTRAINTS_PLACEHOLDER"@] == decimal(m.max_air_constraints as int)
            &&& r["N_INSTRUCTION_COLUMNS_PLACEHOLDER"@] == decimal(vm.n_instruction_columns as int)
            &&& r["N_COMMITTED_EXEC_COLUMNS_PLACEHOLDER"@] == decimal(m.n_runtime_columns as int)
            &&& r["TOTAL_WHIR_STATEMENTS_PLACEHOLDER"@] == decimal(m.total_whir_statements as int)
            &&& r["STARTING_PC_PLACEHOLDER"@] == decimal(m.starting_pc as int)
            &&& r["ENDING_PC_PLACEHOLDER"@] == decimal(m.ending_pc as int)
            &&& r["BYTECODE_ZERO_EVAL_PLACEHOLDER"@] == decimal(shape.zero_eval@)
            &&& r["__MAX_INNER_PROOFS__"@] == decimal(MAX_INNER_PROOFS as int)
        }),
{
    reveal(vm_replacements);
    reveal_strlit("N_TABLES_PLACEHOLDER");
    reveal_strlit("MIN_LOG_N_ROWS_PER_TABLE_PLACEHOLDER");
    reveal_strlit("MAX_LOG_N_ROWS_PER_TABLE_PLACEHOLDER");
    reveal_strlit("MIN_WHIR_LOG_INV_RATE_PLACEHOLDER");
    reveal_strlit("MAX_WHIR_LOG_INV_RATE_PLACEHOLDER");
    reveal_strlit("MIN_LOG_MEMORY_SIZE_PLACEHOLDER");
    reveal_strlit("MAX_LOG_MEMORY_SIZE_PLACEHOLDER");
    reveal_strlit("MAX_BUS_WIDTH_PLACEHOLDER");
    reveal_strlit("LOGUP_MEMORY_DOMAINSEP_PLACEHOLDER");
    reveal_strlit("LOGUP_PRECOMPILE_DOMAINSEP_PLACEHOLDER");
    reveal_strlit("LOGUP_BYTECODE_DOMAINSEP_PLACEHOLDER");
    reveal_strlit("LOG_GUEST_BYTECODE_LEN_PLACEHOLDER");
    reveal_strlit("COL_PC_PLACEHOLDER");
    reveal_strlit("NONRESERVED_PROGRAM_INPUT_START_PLACEHOLDER");
    reveal_strlit("INNER_PUBLIC_MEMORY_LOG_SIZE_PLACEHOLDER");
    reveal_strlit("PUB_INPUT_SIZE_PLACEHOLDER");
    reveal_strlit("MAX_NUM_VARIABLES_TO_SEND_COEFFS_PLACEHOLDER");
    reveal_strlit("WHIR_INITIAL_FOLDING_FACTOR_PLACEHOLDER");
    reveal_strlit("WHIR_SUBSEQUENT_FOLDING_FACTOR_PLACEHOLDER");
    reveal_strlit("EXECUTION_TABLE_INDEX_PLACEHOLDER");
    reveal_strlit("MAX_NUM_AIR_CONSTRAINTS_PLACEHOLDER");
    reveal_strlit("N_INSTRUCTION_COLUMNS_PLACEHOLDER");
    reveal_strlit("N_COMMITTED_EXEC_COLUMNS_PLACEHOLDER");
    reveal_strlit("TOTAL_WHIR_STATEMENTS_PLACEHOLDER");
    reveal_strlit("STARTING_PC_PLACEHOLDER");
    reveal_strlit("ENDING_PC_PLACEHOLDER");
    reveal_strlit("BYTECODE_ZERO_EVAL_PLACEHOLDER");
    reveal_strlit("__MAX_INNER_PROOFS__");
    assert("N_TABLES_PLACEHOLDER"@.len() == 20);
    assert("N_TABLES_PLACEHOLDER"@[0] == 'N');
    assert("MIN_LOG_N_ROWS_PER_TABLE_PLACEHOLDER"@.len() == 36);
    assert("MIN_LOG_N_ROWS_PER_TABLE_PLACEHOLDER"@[1] == 'I');
    assert("MAX_LOG_N_ROWS_PER_TABLE_PLACEHOLDER"@.len() == 36);
    assert("MAX_LOG_N_ROWS_PER_TABLE_PLACEHOLDER"@[1] == 'A');
    assert("MIN_WHIR_LOG_INV_RATE_PLACEHOLDER"@.len() == 33);
    assert("MIN_WHIR_LOG_INV_RATE_PLACEHOLDER"@[1] == 'I');
    assert("MAX_WHIR_LOG_INV_RATE_PLACEHOLDER"@.len() == 33);
    assert("MAX_WHIR_LOG_INV_RATE_PLACEHOLDER"@[1] == 'A');
    assert("MIN_LOG_MEMORY_SIZE_PLACEHOLDER"@.len() == 31);
    assert("MIN_LOG_MEMORY_SIZE_PLACEHOLDER"@[1] == 'I');
    assert("MAX_LOG_MEMORY_SIZE_PLACEHOLDER"@.len() == 31);
    assert("MAX_LOG_MEMORY_SIZE_PLACEHOLDER"@[1] == 'A');
    assert("MAX_BUS_WIDTH_PLACEHOLDER"@.len() == 25);
    assert("LOGUP_MEMORY_DOMAINSEP_PLACEHOLDER"@.len() == 34);
    assert("LOGUP_MEMORY_DOMAINSEP_PLACEHOLDER"@[3] == 'U');
    assert("LOGUP_PRECOMPILE_DOMAINSEP_PLACEHOLDER"@.len() == 38);
    assert("LOGUP_BYTECODE_DOMAINSEP_PLACEHOLDER"@.len() == 36);
    assert("LOGUP_BYTECODE_DOMAINSEP_PLACEHOLDER"@[1] == 'O');
    assert("LOG_GUEST_BYTECODE_LEN_PLACEHOLDER"@.len() == 34);
    assert("LOG_GUEST_BYTECODE_LEN_PLACEHOLDER"@[3] == '_');
    assert("COL_PC_PLACEHOLDER"@.len() == 18);
    assert("NONRESERVED_PROGRAM_INPUT_START_PLACEHOLDER"@.len() == 43);
    assert("INNER_PUBLIC_MEMORY_LOG_SIZE_PLACEHOLDER"@.len() == 40);
    assert("PUB_INPUT_SIZE_PLACEHOLDER"@.len() == 26);
    assert("MAX_NUM_VARIABLES_TO_SEND_COEFFS_PLACEHOLDER"@.len() == 44);
    assert("WHIR_INITIAL_FOLDING_FACTOR_PLACEHOLDER"@.len() == 39);
    assert("WHIR_SUBSEQUENT_FOLDING_FACTOR_PLACEHOLDER"@.len() == 42);
    assert("EXECUTION_TABLE_INDEX_PLACEHOLDER"@.len() == 33);
    assert("EXECUTION_TABLE_INDEX_PLACEHOLDER"@[1] == 'X');
    assert("MAX_NUM_AIR_CONSTRAINTS_PLACEHOLDER"@.len() == 35);
    assert("N_INSTRUCTION_COLUMNS_PLACEHOLDER"@.len() == 33);
    assert("N_INSTRUCTION_COLUMNS_PLACEHOLDER"@[1] == '_');
    assert("N_COMMITTED_EXEC_COLUMNS_PLACEHOLDER"@.len() == 36);
    assert("N_COMMITTED_EXEC_COLUMNS_PLACEHOLDER"@[1] == '_');
    assert("TOTAL_WHIR_STATEMENTS_PLACEHOLDER"@.len() == 33);
    assert("TOTAL_WHIR_STATEMENTS_PLACEHOLDER"@[1] == 'O');
    assert("STARTING_PC_PLACEHOLDER"@.len() == 23);
    assert("ENDING_PC_PLACEHOLDER"@.len() == 21);
    assert("BYTECODE_ZERO_EVAL_PLACEHOLDER"@.len() == 30);
    assert("__MAX_INNER_PROOFS__"@.len() == 20);
    assert("__MAX_INNER_PROOFS__"@[0] == '_');
}

/// The texts under the keys of the machine's tables.
proof fn lemma_table_entries(base: Map<Seq<char>, Seq<char>>, m: MachineParams)
    ensures
        ({
            let r = table_replacements(base, m);
            &&& r["LOOKUPS_INDEXES_PLACEHOLDER"@] == table_list(m.tables@, TableColumn::LookupIndexes)
            &&& r["LOOKUPS_VALUES_PLACEHOLDER"@] == table_list(m.tables@, TableColumn::LookupValues)
            &&& r["NUM_COLS_AIR_PLACEHOLDER"@] == table_list(m.tables@, TableColumn::NumColumns)
            &&& r["AIR_DEGREES_PLACEHOLDER"@] == table_list(m.tables@, TableColumn::Degree)
            &&& r["N_AIR_COLUMNS_PLACEHOLDER"@] == table_list(m.tables@, TableColumn::NumColumns)
            &&& r["AIR_DOWN_COLUMNS_PLACEHOLDER"@] == table_list(m.tables@, TableColumn::DownColumns)
            &&& r["EVALUATE_AIR_FUNCTIONS_PLACEHOLDER"@] == tables_text(m.airs@, m.max_bus_width as int)
        }),
{
    reveal(table_replacements);
    reveal_strlit("LOOKUPS_INDEXES_PLACEHOLDER");
    reveal_strlit("LOOKUPS_VALUES_PLACEHOLDER");
    reveal_strlit("NUM_COLS_AIR_PLACEHOLDER");
    reveal_strlit("AIR_DEGREES_PLACEHOLDER");
    reveal_strlit("N_AIR_COLUMNS_PLACEHOLDER");
    reveal_strlit("AIR_DOWN_COLUMNS_PLACEHOLDER");
    reveal_strlit("EVALUATE_AIR_FUNCTIONS_PLACEHOLDER");
    assert("LOOKUPS_INDEXES_PLACEHOLDER"@.len() == 27);
    assert("LOOKUPS_VALUES_PLACEHOLDER"@.len() == 26);
    assert("NUM_COLS_AIR_PLACEHOLDER"@.len() == 24);
    assert("AIR_DEGREES_PLACEHOLDER"@.len() == 23);
    assert("N_AIR_COLUMNS_PLACEHOLDER"@.len() == 25);
    assert("AIR_DOWN_COLUMNS_PLACEHOLDER"@.len() == 28);
    assert("EVALUATE_AIR_FUNCTIONS_PLACEHOLDER"@.len() == 34);
}

/// The constants of the batch circuit stay.
proof fn lemma_whir_keeps(base: Map<Seq<char>, Seq<char>>, m: MachineParams, configs: Seq<Vec<WhirSummary>>, shape: RecursionShape)
    ensures
        ({
            let r = whir_replacements(base, m, configs, shape);
            &&& r["__NRPIS__"@] == base["__NRPIS__"@]
            &&& r["__BATCH_SIZE__"@] == base["__BATCH_SIZE__"@]
            &&& r["__CODEWORD_LEN__"@] == base["__CODEWORD_LEN__"@]
            &&& r["__DIM__"@] == base["__DIM__"@]
            &&& r["__DIGEST_LEN__"@] == base["__DIGEST_LEN__"@]
            &&& r["__EPL__"@] == base["__EPL__"@]
            &&& r["__NUM_LEAVES__"@] == base["__NUM_LEAVES__"@]
            &&& r["__TREE_HEIGHT__"@] == base["__TREE_HEIGHT__"@]
            &&& r["__NUM_FOLD_ROUNDS__"@] == base["__NUM_FOLD_ROUNDS__"@]
            &&& r["__N_CHUNKS__"@] == base["__N_CHUNKS__"@]
            &&& r["__HALF__"@] == base["__HALF__"@]
            &&& r["__OMEGA_INV_ROUNDS__"@] == base["__OMEGA_INV_ROUNDS__"@]
        }),
{
    reveal(whir_replacements);
    reveal_strlit("WHIR_FIRST_RS_REDUCTION_FACTOR_PLACEHOLDER");
    reveal_strlit("WHIR_ALL_POTENTIAL_NUM_QUERIES_PLACEHOLDER");
    reveal_strlit("WHIR_ALL_POTENTIAL_QUERY_GRINDING_PLACEHOLDER");
    reveal_strlit("WHIR_ALL_POTENTIAL_NUM_OODS_PLACEHOLDER");
    reveal_strlit("WHIR_ALL_POTENTIAL_FOLDING_GRINDING_PLACEHOLDER");
    reveal_strlit("MIN_STACKED_N_VARS_PLACEHOLDER");
    reveal_strlit("__NRPIS__");
    reveal_strlit("__BATCH_SIZE__");
    reveal_strlit("__CODEWORD_LEN__");
    reveal_strlit("__DIM__");
    reveal_strlit("__DIGEST_LEN__");
    reveal_strlit("__EPL__");
    reveal_strlit("__NUM_LEAVES__");
    reveal_strlit("__TREE_HEIGHT__");
    reveal_strlit("__NUM_FOLD_ROUNDS__");
    reveal_strlit("__N_CHUNKS__");
    reveal_strlit("__HALF__");
    reveal_strlit("__OMEGA_INV_ROUNDS__");
    assert("WHIR_FIRST_RS_REDUCTION_FACTOR_PLACEHOLDER"@.len() == 42);
    assert("WHIR_FIRST_RS_REDUCTION_FACTOR_PLACEHOLDER"@[5] == 'F');
    assert("WHIR_ALL_POTENTIAL_NUM_QUERIES_PLACEHOLDER"@.len() == 42);
    assert("WHIR_ALL_POTENTIAL_NUM_QUERIES_PLACEHOLDER"@[5] == 'A');
    assert("WHIR_ALL_POTENTIAL_QUERY_GRINDING_PLACEHOLDER"@.len() == 45);
    assert("WHIR_ALL_POTENTIAL_NUM_OODS_PLACEHOLDER"@.len() == 39);
    assert("WHIR_ALL_POTENTIAL_FOLDING_GRINDING_PLACEHOLDER"@.len() == 47);
    assert("MIN_STACKED_N_VARS_PLACEHOLDER"@.len() == 30);
    assert("__NRPIS__"@.len() == 9);
    assert("__BATCH_SIZE__"@.len() == 14);
    assert("__BATCH_SIZE__"@[2] == 'B');
    assert("__CODEWORD_LEN__"@.len() == 16);
    assert("__DIM__"@.len() == 7);
    assert("__DIM__"@[2] == 'D');
    assert("__DIGEST_LEN__"@.len() == 14);
    assert("__DIGEST_LEN__"@[2] == 'D');
    assert("__EPL__"@.len() == 7);
    assert("__EPL__"@[2] == 'E');
    assert("__NUM_LEAVES__"@.len() == 14);
    assert("__NUM_LEAVES__"@[2] == 'N');
    assert("__TREE_HEIGHT__"@.len() == 15);
    assert("__NUM_FOLD_ROUNDS__"@.len() == 19);
    assert("__N_CHUNKS__"@.len() == 12);
    assert("__HALF__"@.len() == 8);
    assert("__OMEGA_INV_ROUNDS__"@.len() == 20);
}

/// What stands under the keys before stays.
proof fn lemma_vm_keeps(base: Map<Seq<char>, Seq<char>>, vm: VmParams, m: MachineParams, shape: RecursionShape)
    ensures
        ({
            let r = vm_replacements(base, vm, m, shape);
            &&& r["__NRPIS__"@] == base["__NRPIS__"@]
            &&& r["__BATCH_SIZE__"@] == base["__BATCH_SIZE__"@]
            &&& r["__CODEWORD_LEN__"@] == base["__CODEWORD_LEN__"@]
            &&& r["__DIM__"@] == base["__DIM__"@]
            &&& r["__DIGEST_LEN__"@] == base["__DIGEST_LEN__"@]
            &&& r["__EPL__"@] == base["__EPL__"@]
            &&& r["__NUM_LEAVES__"@] == base["__NUM_LEAVES__"@]
            &&& r["__TREE_HEIGHT__"@] == base["__TREE_HEIGHT__"@]
            &&& r["__NUM_FOLD_ROUNDS__"@] == base["__NUM_FOLD_ROUNDS__"@]
            &&& r["__N_CHUNKS__"@] == base["__N_CHUNKS__"@]
            &&& r["__HALF__"@] == base["__HALF__"@]
            &&& r["__OMEGA_INV_ROUNDS__"@] == base["__OMEGA_INV_ROUNDS__"@]
            &&& r["WHIR_FIRST_RS_REDUCTION_FACTOR_PLACEHOLDER"@] == base["WHIR_FIRST_RS_REDUCTION_FACTOR_PLACEHOLDER"@]
            &&& r["WHIR_ALL_POTENTIAL_NUM_QUERIES_PLACEHOLDER"@] == base["WHIR_ALL_POTENTIAL_NUM_QUERIES_PLACEHOLDER"@]
            &&& r["WHIR_ALL_POTENTIAL_QUERY_GRINDING_PLACEHOLDER"@] == base["WHIR_ALL_POTENTIAL_QUERY_GRINDING_PLACEHOLDER"@]
            &&& r["WHIR_ALL_POTENTIAL_NUM_OODS_PLACEHOLDER"@] == base["WHIR_ALL_POTENTIAL_NUM_OODS_PLACEHOLDER"@]
            &&& r["WHIR_ALL_POTENTIAL_FOLDING_GRINDING_PLACEHOLDER"@] == base["WHIR_ALL_POTENTIAL_FOLDING_GRINDING_PLACEHOLDER"@]
            &&& r["MIN_STACKED_N_VARS_PLACEHOLDER"@] == base["MIN_STACKED_N_VARS_PLACEHOLDER"@]
        }),
{
    reveal(vm_replacements);
    reveal_strlit("N_TABLES_PLACEHOLDER");
    reveal_strlit("MIN_LOG_N_ROWS_PER_TABLE_PLACEHOLDER");
    reveal_strlit("MAX_LOG_N_ROWS_PER_TABLE_PLACEHOLDER");
    reveal_strlit("MIN_WHIR_LOG_INV_RATE_PLACEHOLDER");
    reveal_strlit("MAX_WHIR_LOG_INV_RATE_PLACEHOLDER");
    reveal_strlit("MIN_LOG_MEMORY_SIZE_PLACEHOLDER");
    reveal_strlit("MAX_LOG_MEMORY_SIZE_PLACEHOLDER");
    reveal_strlit("MAX_BUS_WIDTH_PLACEHOLDER");
    reveal_strlit("LOGUP_MEMORY_DOMAINSEP_PLACEHOLDER");
    reveal_strlit("LOGUP_PRECOMPILE_DOMAINSEP_PLACEHOLDER");
    reveal_strlit("LOGUP_BYTECODE_DOMAINSEP_PLACEHOLDER");
    reveal_strlit("LOG_GUEST_BYTECODE_LEN_PLACEHOLDER");
    reveal_strlit("COL_PC_PLACEHOLDER");
    reveal_strlit("NONRESERVED_PROGRAM_INPUT_START_PLACEHOLDER");
    reveal_strlit("INNER_PUBLIC_MEMORY_LOG_SIZE_PLACEHOLDER");
    reveal_strlit("PUB_INPUT_SIZE_PLACEHOLDER");
    reveal_strlit("MAX_NUM_VARIABLES_TO_SEND_COEFFS_PLACEHOLDER");
    reveal_strlit("WHIR_INITIAL_FOLDING_FACTOR_PLACEHOLDER");
    reveal_strlit("WHIR_SUBSEQUENT_FOLDING_FACTOR_PLACEHOLDER");
    reveal_strlit("EXECUTION_TABLE_INDEX_PLACEHOLDER");
    reveal_strlit("MAX_NUM_AIR_CONSTRAINTS_PLACEHOLDER");
    reveal_strlit("N_INSTRUCTION_COLUMNS_PLACEHOLDER");
    reveal_strlit("N_COMMITTED_EXEC_COLUMNS_PLACEHOLDER");
    reveal_strlit("TOTAL_WHIR_STATEMENTS_PLACEHOLDER");
    reveal_strlit("STARTING_PC_PLACEHOLDER");
    reveal_strlit("ENDING_PC_PLACEHOLDER");
    reveal_strlit("BYTECODE_ZERO_EVAL_PLACEHOLDER");
    reveal_strlit("__MAX_INNER_PROOFS__");
    reveal_strlit("__NRPIS__");
    reveal_strlit("__BATCH_SIZE__");
    reveal_strlit("__CODEWORD_LEN__");
    reveal_strlit("__DIM__");
    reveal_strlit("__DIGEST_LEN__");
    reveal_strlit("__EPL__");
    reveal_strlit("__NUM_LEAVES__");
    reveal_strlit("__TREE_HEIGHT__");
    reveal_strlit("__NUM_FOLD_ROUNDS__");
    reveal_strlit("__N_CHUNKS__");
    reveal_strlit("__HALF__");
    reveal_strlit("__OMEGA_INV_ROUNDS__");
    reveal_strlit("WHIR_FIRST_RS_REDUCTION_FACTOR_PLACEHOLDER");
    reveal_strlit("WHIR_ALL_POTENTIAL_NUM_QUERIES_PLACEHOLDER");
    reveal_strlit("WHIR_ALL_POTENTIAL_QUERY_GRINDING_PLACEHOLDER");
    reveal_strlit("WHIR_ALL_POTENTIAL_NUM_OODS_PLACEHOLDER");
    reveal_strlit("WHIR_ALL_POTENTIAL_FOLDING_GRINDING_PLACEHOLDER");
    reveal_strlit("MIN_STACKED_N_VARS_PLACEHOLDER");
    assert("N_TABLES_PLACEHOLDER"@.len() == 20);
    assert("N_TABLES_PLACEHOLDER"@[2] == 'T');
    assert("MIN_LOG_N_ROWS_PER_TABLE_PLACEHOLDER"@.len() == 36);
    assert("MIN_LOG_N_ROWS_PER_TABLE_PLACEHOLDER"@[1] == 'I');
    assert("MAX_LOG_N_ROWS_PER_TABLE_PLACEHOLDER"@.len() == 36);
    assert("MAX_LOG_N_ROWS_PER_TABLE_PLACEHOLDER"@[1] == 'A');
    assert("MIN_WHIR_LOG_INV_RATE_PLACEHOLDER"@.len() == 33);
    assert("MIN_WHIR_LOG_INV_RATE_PLACEHOLDER"@[1] == 'I');
    assert("MAX_WHIR_LOG_INV_RATE_PLACEHOLDER"@.len() == 33);
    assert("MAX_WHIR_LOG_INV_RATE_PLACEHOLDER"@[1] == 'A');
    assert("MIN_LOG_MEMORY_SIZE_PLACEHOLDER"@.len() == 31);
    assert("MIN_LOG_MEMORY_SIZE_PLACEHOLDER"@[1] == 'I');
    assert("MAX_LOG_MEMORY_SIZE_PLACEHOLDER"@.len() == 31);
    assert("MAX_LOG_MEMORY_SIZE_PLACEHOLDER"@[1] == 'A');
    assert("MAX_BUS_WIDTH_PLACEHOLDER"@.len() == 25);
    assert("LOGUP_MEMORY_DOMAINSEP_PLACEHOLDER"@.len() == 34);
    assert("LOGUP_MEMORY_DOMAINSEP_PLACEHOLDER"@[3] == 'U');
    assert("LOGUP_PRECOMPILE_DOMAINSEP_PLACEHOLDER"@.len() == 38);
    assert("LOGUP_BYTECODE_DOMAINSEP_PLACEHOLDER"@.len() == 36);
    assert("LOGUP_BYTECODE_DOMAINSEP_PLACEHOLDER"@[1] == 'O');
    assert("LOG_GUEST_BYTECODE_LEN_PLACEHOLDER"@.len() == 34);
    assert("LOG_GUEST_BYTECODE_LEN_PLACEHOLDER"@[3] == '_');
    assert("COL_PC_PLACEHOLDER"@.len() == 18);
    assert("NONRESERVED_PROGRAM_INPUT_START_PLACEHOLDER"@.len() == 43);
    assert("INNER_PUBLIC_MEMORY_LOG_SIZE_PLACEHOLDER"@.len() == 40);
    assert("PUB_INPUT_SIZE_PLACEHOLDER"@.len() == 26);
    assert("MAX_NUM_VARIABLES_TO_SEND_COEFFS_PLACEHOLDER"@.len() == 44);
    assert("WHIR_INITIAL_FOLDING_FACTOR_PLACEHOLDER"@.len() == 39);
    assert("WHIR_INITIAL_FOLDING_FACTOR_PLACEHOLDER"@[5] == 'I');
    assert("WHIR_SUBSEQUENT_FOLDING_FACTOR_PLACEHOLDER"@.len() == 42);
    assert("WHIR_SUBSEQUENT_FOLDING_FACTOR_PLACEHOLDER"@[5] == 'S');
    assert("EXECUTION_TABLE_INDEX_PLACEHOLDER"@.len() == 33);
    assert("EXECUTION_TABLE_INDEX_PLACEHOLDER"@[1] == 'X');
    assert("MAX_NUM_AIR_CONSTRAINTS_PLACEHOLDER"@.len() == 35);
    assert("N_INSTRUCTION_COLUMNS_PLACEHOLDER"@.len() == 33);
    assert("N_INSTRUCTION_COLUMNS_PLACEHOLDER"@[1] == '_');
    assert("N_COMMITTED_EXEC_COLUMNS_PLACEHOLDER"@.len() == 36);
    assert("N_COMMITTED_EXEC_COLUMNS_PLACEHOLDER"@[1] == '_');
    assert("TOTAL_WHIR_STATEMENTS_PLACEHOLDER"@.len() == 33);
    assert("TOTAL_WHIR_STATEMENTS_PLACEHOLDER"@[1] == 'O');
    assert("STARTING_PC_PLACEHOLDER"@.len() == 23);
    assert("ENDING_PC_PLACEHOLDER"@.len() == 21);
    assert("BYTECODE_ZERO_EVAL_PLACEHOLDER"@.len() == 30);
    assert("BYTECODE_ZERO_EVAL_PLACEHOLDER"@[0] == 'B');
    assert("__MAX_INNER_PROOFS__"@.len() == 20);
    assert("__MAX_INNER_PROOFS__"@[2] == 'M');
    assert("__NRPIS__"@.len() == 9);
    assert("__BATCH_SIZE__"@.len() == 14);
    assert("__BATCH_SIZE__"@[2] == 'B');
    assert("__CODEWORD_LEN__"@.len() == 16);
    assert("__DIM__"@.len() == 7);
    assert("__DIM__"@[2] == 'D');
    assert("__DIGEST_LEN__"@.len() == 14);
    assert("__DIGEST_LEN__"@[2] == 'D');
    assert("__EPL__"@.len() == 7);
    assert("__EPL__"@[2] == 'E');
    assert("__NUM_LEAVES__"@.len() == 14);
    assert("__NUM_LEAVES__"@[2] == 'N');
    assert("__TREE_HEIGHT__"@.len() == 15);
    assert("__NUM_FOLD_ROUNDS__"@.len() == 19);
    assert("__N_CHUNKS__"@.len() == 12);
    assert("__HALF__"@.len() == 8);
    assert("__OMEGA_INV_ROUNDS__"@.len() == 20);
    assert("__OMEGA_INV_ROUNDS__"@[2] == 'O');
    assert("WHIR_FIRST_RS_REDUCTION_FACTOR_PLACEHOLDER"@.len() == 42);
    assert("WHIR_FIRST_RS_REDUCTION_FACTOR_PLACEHOLDER"@[5] == 'F');
    assert("WHIR_ALL_POTENTIAL_NUM_QUERIES_PLACEHOLDER"@.len() == 42);
    assert("WHIR_ALL_POTENTIAL_NUM_QUERIES_PLACEHOLDER"@[5] == 'A');
    assert("WHIR_ALL_POTENTIAL_QUERY_GRINDING_PLACEHOLDER"@.len() == 45);
    assert("WHIR_ALL_POTENTIAL_NUM_OODS_PLACEHOLDER"@.len() == 39);
    assert("WHIR_ALL_POTENTIAL_NUM_OODS_PLACEHOLDER"@[5] == 'A');
    assert("WHIR_ALL_POTENTIAL_FOLDING_GRINDING_PLACEHOLDER"@.len() == 47);
    assert("MIN_STACKED_N_VARS_PLACEHOLDER"@.len() == 30);
    assert("MIN_STACKED_N_VARS_PLACEHOLDER"@[0] == 'M');
}

/// What stands under the keys before stays.
proof fn lemma_table_keeps(base: Map<Seq<char>, Seq<char>>, m: MachineParams)
    ensures
        ({
            let r = table_replacements(base, m);
            &&& r["__NRPIS__"@] == base["__NRPIS__"@]
            &&& r["__BATCH_SIZE__"@] == base["__BATCH_SIZE__"@]
            &&& r["__CODEWORD_LEN__"@] == base["__CODEWORD_LEN__"@]
            &&& r["__DIM__"@] == base["__DIM__"@]
            &&& r["__DIGEST_LEN__"@] == base["__DIGEST_LEN__"@]
            &&& r["__EPL__"@] == base["__EPL__"@]
            &&& r["__NUM_LEAVES__"@] == base["__NUM_LEAVES__"@]
            &&& r["__TREE_HEIGHT__"@] == base["__TREE_HEIGHT__"@]
            &&& r["__NUM_FOLD_ROUNDS__"@] == base["__NUM_FOLD_ROUNDS__"@]
            &&& r["__N_CHUNKS__"@] == base["__N_CHUNKS__"@]
            &&& r["__HALF__"@] == base["__HALF__"@]
            &&& r["__OMEGA_INV_ROUNDS__"@] == base["__OMEGA_INV_ROUNDS__"@]
            &&& r["WHIR_FIRST_RS_REDUCTION_FACTOR_PLACEHOLDER"@] == base["WHIR_FIRST_RS_REDUCTION_FACTOR_PLACEHOLDER"@]
            &&& r["WHIR_ALL_POTENTIAL_NUM_QUERIES_PLACEHOLDER"@] == base["WHIR_ALL_POTENTIAL_NUM_QUERIES_PLACEHOLDER"@]
            &&& r["WHIR_ALL_POTENTIAL_QUERY_GRINDING_PLACEHOLDER"@] == base["WHIR_ALL_POTENTIAL_QUERY_GRINDING_PLACEHOLDER"@]
            &&& r["WHIR_ALL_POTENTIAL_NUM_OODS_PLACEHOLDER"@] == base["WHIR_ALL_POTENTIAL_NUM_OODS_PLACEHOLDER"@]
            &&& r["WHIR_ALL_POTENTIAL_FOLDING_GRINDING_PLACEHOLDER"@] == base["WHIR_ALL_POTENTIAL_FOLDING_GRINDING_PLACEHOLDER"@]
            &&& r["MIN_STACKED_N_VARS_PLACEHOLDER"@] == base["MIN_STACKED_N_VARS_PLACEHOLDER"@]
            &&& r["N_TABLES_PLACEHOLDER"@] == base["N_TABLES_PLACEHOLDER"@]
            &&& r["MIN_LOG_N_ROWS_PER_TABLE_PLACEHOLDER"@] == base["MIN_LOG_N_ROWS_PER_TABLE_PLACEHOLDER"@]
            &&& r["MAX_LOG_N_ROWS_PER_TABLE_PLACEHOLDER"@] == base["MAX_LOG_N_ROWS_PER_TABLE_PLACEHOLDER"@]
            &&& r["MIN_WHIR_LOG_INV_RATE_PLACEHOLDER"@] == base["MIN_WHIR_LOG_INV_RATE_PLACEHOLDER"@]
            &&& r["MAX_WHIR_LOG_INV_RATE_PLACEHOLDER"@] == base["MAX_WHIR_LOG_INV_RATE_PLACEHOLDER"@]
            &&& r["MIN_LOG_MEMORY_SIZE_PLACEHOLDER"@] == base["MIN_LOG_MEMORY_SIZE_PLACEHOLDER"@]
            &&& r["MAX_LOG_MEMORY_SIZE_PLACEHOLDER"@] == base["MAX_LOG_MEMORY_SIZE_PLACEHOLDER"@]
            &&& r["MAX_BUS_WIDTH_PLACEHOLDER"@] == base["MAX_BUS_WIDTH_PLACEHOLDER"@]
            &&& r["LOGUP_MEMORY_DOMAINSEP_PLACEHOLDER"@] == base["LOGUP_MEMORY_DOMAINSEP_PLACEHOLDER"@]
            &&& r["LOGUP_PRECOMPILE_DOMAINSEP_PLACEHOLDER"@] == base["LOGUP_PRECOMPILE_DOMAINSEP_PLACEHOLDER"@]
            &&& r["LOGUP_BYTECODE_DOMAINSEP_PLACEHOLDER"@] == base["LOGUP_BYTECODE_DOMAINSEP_PLACEHOLDER"@]
            &&& r["LOG_GUEST_BYTECODE_LEN_PLACEHOLDER"@] == base["LOG_GUEST_BYTECODE_LEN_PLACEHOLDER"@]
            &&& r["COL_PC_PLACEHOLDER"@] == base["COL_PC_PLACEHOLDER"@]
            &&& r["NONRESERVED_PROGRAM_INPUT_START_PLACEHOLDER"@] == base["NONRESERVED_PROGRAM_INPUT_START_PLACEHOLDER"@]
            &&& r["INNER_PUBLIC_MEMORY_LOG_SIZE_PLACEHOLDER"@] == base["INNER_PUBLIC_MEMORY_LOG_SIZE_PLACEHOLDER"@]
            &&& r["PUB_INPUT_SIZE_PLACEHOLDER"@] == base["PUB_INPUT_SIZE_PLACEHOLDER"@]
            &&& r["MAX_NUM_VARIABLES_TO_SEND_COEFFS_PLACEHOLDER"@] == base["MAX_NUM_VARIABLES_TO_SEND_COEFFS_PLACEHOLDER"@]
            &&& r["WHIR_INITIAL_FOLDING_FACTOR_PLACEHOLDER"@] == base["WHIR_INITIAL_FOLDING_FACTOR_PLACEHOLDER"@]
            &&& r["WHIR_SUBSEQUENT_FOLDING_FACTOR_PLACEHOLDER"@] == base["WHIR_SUBSEQUENT_FOLDING_FACTOR_PLACEHOLDER"@]
            &&& r["EXECUTION_TABLE_INDEX_PLACEHOLDER"@] == base["EXECUTION_TABLE_INDEX_PLACEHOLDER"@]
            &&& r["MAX_NUM_AIR_CONSTRAINTS_PLACEHOLDER"@] == base["MAX_NUM_AIR_CONSTRAINTS_PLACEHOLDER"@]
            &&& r["N_INSTRUCTION_COLUMNS_PLACEHOLDER"@] == base["N_INSTRUCTION_COLUMNS_PLACEHOLDER"@]
            &&& r["N_COMMITTED_EXEC_COLUMNS_PLACEHOLDER"@] == base["N_COMMITTED_EXEC_COLUMNS_PLACEHOLDER"@]
            &&& r["TOTAL_WHIR_STATEMENTS_PLACEHOLDER"@] == base["TOTAL_WHIR_STATEMENTS_PLACEHOLDER"@]
            &&& r["STARTING_PC_PLACEHOLDER"@] == base["STARTING_PC_PLACEHOLDER"@]
            &&& r["ENDING_PC_PLACEHOLDER"@] == base["ENDING_PC_PLACEHOLDER"@]
            &&& r["BYTECODE_ZERO_EVAL_PLACEHOLDER"@] == base["BYTECODE_ZERO_EVAL_PLACEHOLDER"@]
            &&& r["__MAX_INNER_PROOFS__"@] == base["__MAX_INNER_PROOFS__"@]
        }),
{
    reveal(table_replacements);
    reveal_strlit("LOOKUPS_INDEXES_PLACEHOLDER");
    reveal_strlit("LOOKUPS_VALUES_PLACEHOLDER");
    reveal_strlit("NUM_COLS_AIR_PLACEHOLDER");
    reveal_strlit("AIR_DEGREES_PLACEHOLDER");
    reveal_strlit("N_AIR_COLUMNS_PLACEHOLDER");
    reveal_strlit("AIR_DOWN_COLUMNS_PLACEHOLDER");
    reveal_strlit("EVALUATE_AIR_FUNCTIONS_PLACEHOLDER");
    reveal_strlit("__NRPIS__");
    reveal_strlit("__BATCH_SIZE__");
    reveal_strlit("__CODEWORD_LEN__");
    reveal_strlit("__DIM__");
    reveal_strlit("__DIGEST_LEN__");
    reveal_strlit("__EPL__");
    reveal_strlit("__NUM_LEAVES__");
    reveal_strlit("__TREE_HEIGHT__");
    reveal_strlit("__NUM_FOLD_ROUNDS__");
    reveal_strlit("__N_CHUNKS__");
    reveal_strlit("__HALF__");
    reveal_strlit("__OMEGA_INV_ROUNDS__");
    reveal_strlit("WHIR_FIRST_RS_REDUCTION_FACTOR_PLACEHOLDER");
    reveal_strlit("WHIR_ALL_POTENTIAL_NUM_QUERIES_PLACEHOLDER");
    reveal_strlit("WHIR_ALL_POTENTIAL_QUERY_GRINDING_PLACEHOLDER");
    reveal_strlit("WHIR_ALL_POTENTIAL_NUM_OODS_PLACEHOLDER");
    reveal_strlit("WHIR_ALL_POTENTIAL_FOLDING_GRINDING_PLACEHOLDER");
    reveal_strlit("MIN_STACKED_N_VARS_PLACEHOLDER");
    reveal_strlit("N_TABLES_PLACEHOLDER");
    reveal_strlit("MIN_LOG_N_ROWS_PER_TABLE_PLACEHOLDER");
    reveal_strlit("MAX_LOG_N_ROWS_PER_TABLE_PLACEHOLDER");
    reveal_strlit("MIN_WHIR_LOG_INV_RATE_PLACEHOLDER");
    reveal_strlit("MAX_WHIR_LOG_INV_RATE_PLACEHOLDER");
    reveal_strlit("MIN_LOG_MEMORY_SIZE_PLACEHOLDER");
    reveal_strlit("MAX_LOG_MEMORY_SIZE_PLACEHOLDER");
    reveal_strlit("MAX_BUS_WIDTH_PLACEHOLDER");
    reveal_strlit("LOGUP_MEMORY_DOMAINSEP_PLACEHOLDER");
    reveal_strlit("LOGUP_PRECOMPILE_DOMAINSEP_PLACEHOLDER");
    reveal_strlit("LOGUP_BYTECODE_DOMAINSEP_PLACEHOLDER");
    reveal_strlit("LOG_GUEST_BYTECODE_LEN_PLACEHOLDER");
    reveal_strlit("COL_PC_PLACEHOLDER");
    reveal_strlit("NONRESERVED_PROGRAM_INPUT_START_PLACEHOLDER");
    reveal_strlit("INNER_PUBLIC_MEMORY_LOG_SIZE_PLACEHOLDER");
    reveal_strlit("PUB_INPUT_SIZE_PLACEHOLDER");
    reveal_strlit("MAX_NUM_VARIABLES_TO_SEND_COEFFS_PLACEHOLDER");
    reveal_strlit("WHIR_INITIAL_FOLDING_FACTOR_PLACEHOLDER");
    reveal_strlit("WHIR_SUBSEQUENT_FOLDING_FACTOR_PLACEHOLDER");
    reveal_strlit("EXECUTION_TABLE_INDEX_PLACEHOLDER");
    reveal_strlit("MAX_NUM_AIR_CONSTRAINTS_PLACEHOLDER");
    reveal_strlit("N_INSTRUCTION_COLUMNS_PLACEHOLDER");
    reveal_strlit("N_COMMITTED_EXEC_COLUMNS_PLACEHOLDER");
    reveal_strlit("TOTAL_WHIR_STATEMENTS_PLACEHOLDER");
    reveal_strlit("STARTING_PC_PLACEHOLDER");
    reveal_strlit("ENDING_PC_PLACEHOLDER");
    reveal_strlit("BYTECODE_ZERO_EVAL_PLACEHOLDER");
    reveal_strlit("__MAX_INNER_PROOFS__");
    assert("LOOKUPS_INDEXES_PLACEHOLDER"@.len() == 27);
    assert("LOOKUPS_VALUES_PLACEHOLDER"@.len() == 26);
    assert("LOOKUPS_VALUES_PLACEHOLDER"@[0] == 'L');
    assert("NUM_COLS_AIR_PLACEHOLDER"@.len() == 24);
    assert("AIR_DEGREES_PLACEHOLDER"@.len() == 23);
    assert("AIR_DEGREES_PLACEHOLDER"@[0] == 'A');
    assert("N_AIR_COLUMNS_PLACEHOLDER"@.len() == 25);
    assert("N_AIR_COLUMNS_PLACEHOLDER"@[0] == 'N');
    assert("AIR_DOWN_COLUMNS_PLACEHOLDER"@.len() == 28);
    assert("EVALUATE_AIR_FUNCTIONS_PLACEHOLDER"@.len() == 34);
    assert("EVALUATE_AIR_FUNCTIONS_PLACEHOLDER"@[3] == 'L');
    assert("__NRPIS__"@.len() == 9);
    assert("__BATCH_SIZE__"@.len() == 14);
    assert("__BATCH_SIZE__"@[2] == 'B');
    assert("__CODEWORD_LEN__"@.len() == 16);
    assert("__DIM__"@.len() == 7);
    assert("__DIM__"@[2] == 'D');
    assert("__DIGEST_LEN__"@.len() == 14);
    assert("__DIGEST_LEN__"@[2] == 'D');
    assert("__EPL__"@.len() == 7);
    assert("__EPL__"@[2] == 'E');
    assert("__NUM_LEAVES__"@.len() == 14);
    assert("__NUM_LEAVES__"@[2] == 'N');
    assert("__TREE_HEIGHT__"@.len() == 15);
    assert("__NUM_FOLD_ROUNDS__"@.len() == 19);
    assert("__N_CHUNKS__"@.len() == 12);
    assert("__HALF__"@.len() == 8);
    assert("__OMEGA_INV_ROUNDS__"@.len() == 20);
    assert("__OMEGA_INV_ROUNDS__"@[2] == 'O');
    assert("WHIR_FIRST_RS_REDUCTION_FACTOR_PLACEHOLDER"@.len() == 42);
    assert("WHIR_FIRST_RS_REDUCTION_FACTOR_PLACEHOLDER"@[5] == 'F');
    assert("WHIR_ALL_POTENTIAL_NUM_QUERIES_PLACEHOLDER"@.len() == 42);
    assert("WHIR_ALL_POTENTIAL_NUM_QUERIES_PLACEHOLDER"@[5] == 'A');
    assert("WHIR_ALL_POTENTIAL_QUERY_GRINDING_PLACEHOLDER"@.len() == 45);
    assert("WHIR_ALL_POTENTIAL_NUM_OODS_PLACEHOLDER"@.len() == 39);
    assert("WHIR_ALL_POTENTIAL_NUM_OODS_PLACEHOLDER"@[5] == 'A');
    assert("WHIR_ALL_POTENTIAL_FOLDING_GRINDING_PLACEHOLDER"@.len() == 47);
    assert("MIN_STACKED_N_VARS_PLACEHOLDER"@.len() == 30);
    assert("MIN_STACKED_N_VARS_PLACEHOLDER"@[0] == 'M');
    assert("N_TABLES_PLACEHOLDER"@.len() == 20);
    assert("N_TABLES_PLACEHOLDER"@[2] == 'T');
    assert("MIN_LOG_N_ROWS_PER_TABLE_PLACEHOLDER"@.len() == 36);
    assert("MIN_LOG_N_ROWS_PER_TABLE_PLACEHOLDER"@[1] == 'I');
    assert("MAX_LOG_N_ROWS_PER_TABLE_PLACEHOLDER"@.len() == 36);
    assert("MAX_LOG_N_ROWS_PER_TABLE_PLACEHOLDER"@[1] == 'A');
    assert("MIN_WHIR_LOG_INV_RATE_PLACEHOLDER"@.len() == 33);
    assert("MIN_WHIR_LOG_INV_RATE_PLACEHOLDER"@[1] == 'I');
    assert("MAX_WHIR_LOG_INV_RATE_PLACEHOLDER"@.len() == 33);
    assert("MAX_WHIR_LOG_INV_RATE_PLACEHOLDER"@[1] == 'A');
    assert("MIN_LOG_MEMORY_SIZE_PLACEHOLDER"@.len() == 31);
    assert("MIN_LOG_MEMORY_SIZE_PLACEHOLDER"@[1] == 'I');
    assert("MAX_LOG_MEMORY_SIZE_PLACEHOLDER"@.len() == 31);
    assert("MAX_LOG_MEMORY_SIZE_PLACEHOLDER"@[1] == 'A');
    assert("MAX_BUS_WIDTH_PLACEHOLDER"@.len() == 25);
    assert("MAX_BUS_WIDTH_PLACEHOLDER"@[0] == 'M');
    assert("LOGUP_MEMORY_DOMAINSEP_PLACEHOLDER"@.len() == 34);
    assert("LOGUP_MEMORY_DOMAINSEP_PLACEHOLDER"@[3] == 'U');
    assert("LOGUP_PRECOMPILE_DOMAINSEP_PLACEHOLDER"@.len() == 38);
    assert("LOGUP_BYTECODE_DOMAINSEP_PLACEHOLDER"@.len() == 36);
    assert("LOGUP_BYTECODE_DOMAINSEP_PLACEHOLDER"@[1] == 'O');
    assert("LOG_GUEST_BYTECODE_LEN_PLACEHOLDER"@.len() == 34);
    assert("LOG_GUEST_BYTECODE_LEN_PLACEHOLDER"@[3] == '_');
    assert("COL_PC_PLACEHOLDER"@.len() == 18);
    assert("NONRESERVED_PROGRAM_INPUT_START_PLACEHOLDER"@.len() == 43);
    assert("INNER_PUBLIC_MEMORY_LOG_SIZE_PLACEHOLDER"@.len() == 40);
    assert("PUB_INPUT_SIZE_PLACEHOLDER"@.len() == 26);
    assert("PUB_INPUT_SIZE_PLACEHOLDER"@[0] == 'P');
    assert("MAX_NUM_VARIABLES_TO_SEND_COEFFS_PLACEHOLDER"@.len() == 44);
    assert("WHIR_INITIAL_FOLDING_FACTOR_PLACEHOLDER"@.len() == 39);
    assert("WHIR_INITIAL_FOLDING_FACTOR_PLACEHOLDER"@[5] == 'I');
    assert("WHIR_SUBSEQUENT_FOLDING_FACTOR_PLACEHOLDER"@.len() == 42);
    assert("WHIR_SUBSEQUENT_FOLDING_FACTOR_PLACEHOLDER"@[5] == 'S');
    assert("EXECUTION_TABLE_INDEX_PLACEHOLDER"@.len() == 33);
    assert("EXECUTION_TABLE_INDEX_PLACEHOLDER"@[1] == 'X');
    assert("MAX_NUM_AIR_CONSTRAINTS_PLACEHOLDER"@.len() == 35);
    assert("N_INSTRUCTION_COLUMNS_PLACEHOLDER"@.len() == 33);
    assert("N_INSTRUCTION_COLUMNS_PLACEHOLDER"@[1] == '_');
    assert("N_COMMITTED_EXEC_COLUMNS_PLACEHOLDER"@.len() == 36);
    assert("N_COMMITTED_EXEC_COLUMNS_PLACEHOLDER"@[1] == '_');
    assert("TOTAL_WHIR_STATEMENTS_PLACEHOLDER"@.len() == 33);
    assert("TOTAL_WHIR_STATEMENTS_PLACEHOLDER"@[1] == 'O');
    assert("STARTING_PC_PLACEHOLDER"@.len() == 23);
    assert("STARTING_PC_PLACEHOLDER"@[0] == 'S');
    assert("ENDING_PC_PLACEHOLDER"@.len() == 21);
    assert("BYTECODE_ZERO_EVAL_PLACEHOLDER"@.len() == 30);
    assert("BYTECODE_ZERO_EVAL_PLACEHOLDER"@[0] == 'B');
    assert("__MAX_INNER_PROOFS__"@.len() == 20);
    assert("__MAX_INNER_PROOFS__"@[2] == 'M');
}

/// What stands under the keys of both recursive circuits stays in the hybrid one.
proof fn lemma_hybrid_keeps<B>(
    vm: VmParams,
    m: MachineParams,
    configs: Seq<Vec<WhirSummary>>,
    shape: RecursionShape,
    inner: Bytecode<B>,
)
    ensures
        ({
            let r = hybrid_replacements(vm, m, configs, shape, inner);
            let base = recursion_replacements(Map::empty(), vm, m, configs, shape);
            &&& r["__INNER_LOG_GUEST_BL__"@] == decimal(inner.log_size as int)
            &&& r["__INNER_PUB_INPUT_SIZE__"@] == decimal(16)
            &&& r["__INNER_PM_LOG__"@] == decimal(log2_ceil(vm.input_start + 16) as int)
            &&& r["__INNER_BYTECODE_ZERO_EVAL__"@] == decimal(inner.zero_eval@)
            &&& r["WHIR_FIRST_RS_REDUCTION_FACTOR_PLACEHOLDER"@] == base["WHIR_FIRST_RS_REDUCTION_FACTOR_PLACEHOLDER"@]
            &&& r["WHIR_ALL_POTENTIAL_NUM_QUERIES_PLACEHOLDER"@] == base["WHIR_ALL_POTENTIAL_NUM_QUERIES_PLACEHOLDER"@]
            &&& r["WHIR_ALL_POTENTIAL_QUERY_GRINDING_PLACEHOLDER"@] == base["WHIR_ALL_POTENTIAL_QUERY_GRINDING_PLACEHOLDER"@]
            &&& r["WHIR_ALL_POTENTIAL_NUM_OODS_PLACEHOLDER"@] == base["WHIR_ALL_POTENTIAL_NUM_OODS_PLACEHOLDER"@]
            &&& r["WHIR_ALL_POTENTIAL_FOLDING_GRINDING_PLACEHOLDER"@] == base["WHIR_ALL_POTENTIAL_FOLDING_GRINDING_PLACEHOLDER"@]
            &&& r["MIN_STACKED_N_VARS_PLACEHOLDER"@] == base["MIN_STACKED_N_VARS_PLACEHOLDER"@]
            &&& r["N_TABLES_PLACEHOLDER"@] == base["N_TABLES_PLACEHOLDER"@]
            &&& r["MIN_LOG_N_ROWS_PER_TABLE_PLACEHOLDER"@] == base["MIN_LOG_N_ROWS_PER_TABLE_PLACEHOLDER"@]
            &&& r["MAX_LOG_N_ROWS_PER_TABLE_PLACEHOLDER"@] == base["MAX_LOG_N_ROWS_PER_TABLE_PLACEHOLDER"@]
            &&& r["MIN_WHIR_LOG_INV_RATE_PLACEHOLDER"@] == base["MIN_WHIR_LOG_INV_RATE_PLACEHOLDER"@]
            &&& r["MAX_WHIR_LOG_INV_RATE_PLACEHOLDER"@] == base["MAX_WHIR_LOG_INV_RATE_PLACEHOLDER"@]
            &&& r["MIN_LOG_MEMORY_SIZE_PLACEHOLDER"@] == base["MIN_LOG_MEMORY_SIZE_PLACEHOLDER"@]
            &&& r["MAX_LOG_MEMORY_SIZE_PLACEHOLDER"@] == base["MAX_LOG_MEMORY_SIZE_PLACEHOLDER"@]
            &&& r["MAX_BUS_WIDTH_PLACEHOLDER"@] == base["MAX_BUS_WIDTH_PLACEHOLDER"@]
            &&& r["LOGUP_MEMORY_DOMAINSEP_PLACEHOLDER"@] == base["LOGUP_MEMORY_DOMAINSEP_PLACEHOLDER"@]
            &&& r["LOGUP_PRECOMPILE_DOMAINSEP_PLACEHOLDER"@] == base["LOGUP_PRECOMPILE_DOMAINSEP_PLACEHOLDER"@]
            &&& r["LOGUP_BYTECODE_DOMAINSEP_PLACEHOLDER"@] == base["LOGUP_BYTECODE_DOMAINSEP_PLACEHOLDER"@]
            &&& r["LOG_GUEST_BYTECODE_LEN_PLACEHOLDER"@] == base["LOG_GUEST_BYTECODE_LEN_PLACEHOLDER"@]
            &&& r["COL_PC_PLACEHOLDER"@] == base["COL_PC_PLACEHOLDER"@]
            &&& r["NONRESERVED_PROGRAM_INPUT_START_PLACEHOLDER"@] == base["NONRESERVED_PROGRAM_INPUT_START_PLACEHOLDER"@]
            &&& r["INNER_PUBLIC_MEMORY_LOG_SIZE_PLACEHOLDER"@] == base["INNER_PUBLIC_MEMORY_LOG_SIZE_PLACEHOLDER"@]
            &&& r["PUB_INPUT_SIZE_PLACEHOLDER"@] == base["PUB_INPUT_SIZE_PLACEHOLDER"@]
            &&& r["MAX_NUM_VARIABLES_TO_SEND_COEFFS_PLACEHOLDER"@] == base["MAX_NUM_VARIABLES_TO_SEND_COEFFS_PLACEHOLDER"@]
            &&& r["WHIR_INITIAL_FOLDING_FACTOR_PLACEHOLDER"@] == base["WHIR_INITIAL_FOLDING_FACTOR_PLACEHOLDER"@]
            &&& r["WHIR_SUBSEQUENT_FOLDING_FACTOR_PLACEHOLDER"@] == base["WHIR_SUBSEQUENT_FOLDING_FACTOR_PLACEHOLDER"@]
            &&& r["EXECUTION_TABLE_INDEX_PLACEHOLDER"@] == base["EXECUTION_TABLE_INDEX_PLACEHOLDER"@]
            &&& r["MAX_NUM_AIR_CONSTRAINTS_PLACEHOLDER"@] == base["MAX_NUM_AIR_CONSTRAINTS_PLACEHOLDER"@]
            &&& r["N_INSTRUCTION_COLUMNS_PLACEHOLDER"@] == base["N_INSTRUCTION_COLUMNS_PLACEHOLDER"@]
            &&& r["N_COMMITTED_EXEC_COLUMNS_PLACEHOLDER"@] == base["N_COMMITTED_EXEC_COLUMNS_PLACEHOLDER"@]
            &&& r["TOTAL_WHIR_STATEMENTS_PLACEHOLDER"@] == base["TOTAL_WHIR_STATEMENTS_PLACEHOLDER"@]
            &&& r["STARTING_PC_PLACEHOLDER"@] == base["STARTING_PC_PLACEHOLDER"@]
            &&& r["ENDING_PC_PLACEHOLDER"@] == base["ENDING_PC_PLACEHOLDER"@]
            &&& r["BYTECODE_ZERO_EVAL_PLACEHOLDER"@] == base["BYTECODE_ZERO_EVAL_PLACEHOLDER"@]
            &&& r["__MAX_INNER_PROOFS__"@] == base["__MAX_INNER_PROOFS__"@]
            &&& r["LOOKUPS_INDEXES_PLACEHOLDER"@] == base["LOOKUPS_INDEXES_PLACEHOLDER"@]
            &&& r["LOOKUPS_VALUES_PLACEHOLDER"@] == base["LOOKUPS_VALUES_PLACEHOLDER"@]
            &&& r["NUM_COLS_AIR_PLACEHOLDER"@] == base["NUM_COLS_AIR_PLACEHOLDER"@]
            &&& r["AIR_DEGREES_PLACEHOLDER"@] == base["AIR_DEGREES_PLACEHOLDER"@]
            &&& r["N_AIR_COLUMNS_PLACEHOLDER"@] == base["N_AIR_COLUMNS_PLACEHOLDER"@]
            &&& r["AIR_DOWN_COLUMNS_PLACEHOLDER"@] == base["AIR_DOWN_COLUMNS_PLACEHOLDER"@]
            &&& r["EVALUATE_AIR_FUNCTIONS_PLACEHOLDER"@] == base["EVALUATE_AIR_FUNCTIONS_PLACEHOLDER"@]
        }),
{
    reveal_strlit("__INNER_LOG_GUEST_BL__");
    reveal_strlit("__INNER_PUB_INPUT_SIZE__");
    reveal_strlit("__INNER_PM_LOG__");
    reveal_strlit("__INNER_BYTECODE_ZERO_EVAL__");
    reveal_strlit("WHIR_FIRST_RS_REDUCTION_FACTOR_PLACEHOLDER");
    reveal_strlit("WHIR_ALL_POTENTIAL_NUM_QUERIES_PLACEHOLDER");
    reveal_strlit("WHIR_ALL_POTENTIAL_QUERY_GRINDING_PLACEHOLDER");
    reveal_strlit("WHIR_ALL_POTENTIAL_NUM_OODS_PLACEHOLDER");
    reveal_strlit("WHIR_ALL_POTENTIAL_FOLDING_GRINDING_PLACEHOLDER");
    reveal_strlit("MIN_STACKED_N_VARS_PLACEHOLDER");
    reveal_strlit("N_TABLES_PLACEHOLDER");
    reveal_strlit("MIN_LOG_N_ROWS_PER_TABLE_PLACEHOLDER");
    reveal_strlit("MAX_LOG_N_ROWS_PER_TABLE_PLACEHOLDER");
    reveal_strlit("MIN_WHIR_LOG_INV_RATE_PLACEHOLDER");
    reveal_strlit("MAX_WHIR_LOG_INV_RATE_PLACEHOLDER");
    reveal_strlit("MIN_LOG_MEMORY_SIZE_PLACEHOLDER");
    reveal_strlit("MAX_LOG_MEMORY_SIZE_PLACEHOLDER");
    reveal_strlit("MAX_BUS_WIDTH_PLACEHOLDER");
    reveal_strlit("LOGUP_MEMORY_DOMAINSEP_PLACEHOLDER");
    reveal_strlit("LOGUP_PRECOMPILE_DOMAINSEP_PLACEHOLDER");
    reveal_strlit("LOGUP_BYTECODE_DOMAINSEP_PLACEHOLDER");
    reveal_strlit("LOG_GUEST_BYTECODE_LEN_PLACEHOLDER");
    reveal_strlit("COL_PC_PLACEHOLDER");
    reveal_strlit("NONRESERVED_PROGRAM_INPUT_START_PLACEHOLDER");
    reveal_strlit("INNER_PUBLIC_MEMORY_LOG_SIZE_PLACEHOLDER");
    reveal_strlit("PUB_INPUT_SIZE_PLACEHOLDER");
    reveal_strlit("MAX_NUM_VARIABLES_TO_SEND_COEFFS_PLACEHOLDER");
    reveal_strlit("WHIR_INITIAL_FOLDING_FACTOR_PLACEHOLDER");
    reveal_strlit("WHIR_SUBSEQUENT_FOLDING_FACTOR_PLACEHOLDER");
    reveal_strlit("EXECUTION_TABLE_INDEX_PLACEHOLDER");
    reveal_strlit("MAX_NUM_AIR_CONSTRAINTS_PLACEHOLDER");
    reveal_strlit("N_INSTRUCTION_COLUMNS_PLACEHOLDER");
    reveal_strlit("N_COMMITTED_EXEC_COLUMNS_PLACEHOLDER");
    reveal_strlit("TOTAL_WHIR_STATEMENTS_PLACEHOLDER");
    reveal_strlit("STARTING_PC_PLACEHOLDER");
    reveal_strlit("ENDING_PC_PLACEHOLDER");
    reveal_strlit("BYTECODE_ZERO_EVAL_PLACEHOLDER");
    reveal_strlit("__MAX_INNER_PROOFS__");
    reveal_strlit("LOOKUPS_INDEXES_PLACEHOLDER");
    reveal_strlit("LOOKUPS_VALUES_PLACEHOLDER");
    reveal_strlit("NUM_COLS_AIR_PLACEHOLDER");
    reveal_strlit("AIR_DEGREES_PLACEHOLDER");
    reveal_strlit("N_AIR_COLUMNS_PLACEHOLDER");
    reveal_strlit("AIR_DOWN_COLUMNS_PLACEHOLDER");
    reveal_strlit("EVALUATE_AIR_FUNCTIONS_PLACEHOLDER");
    assert("__INNER_LOG_GUEST_BL__"@.len() == 22);
    assert("__INNER_PUB_INPUT_SIZE__"@.len() == 24);
    assert("__INNER_PUB_INPUT_SIZE__"@[0] == '_');
    assert("__INNER_PM_LOG__"@.len() == 16);
    assert("__INNER_BYTECODE_ZERO_EVAL__"@.len() == 28);
    assert("__INNER_BYTECODE_ZERO_EVAL__"@[0] == '_');
    assert("WHIR_FIRST_RS_REDUCTION_FACTOR_PLACEHOLDER"@.len() == 42);
    assert("WHIR_FIRST_RS_REDUCTION_FACTOR_PLACEHOLDER"@[5] == 'F');
    assert("WHIR_ALL_POTENTIAL_NUM_QUERIES_PLACEHOLDER"@.len() == 42);
    assert("WHIR_ALL_POTENTIAL_NUM_QUERIES_PLACEHOLDER"@[5] == 'A');
    assert("WHIR_ALL_POTENTIAL_QUERY_GRINDING_PLACEHOLDER"@.len() == 45);
    assert("WHIR_ALL_POTENTIAL_NUM_OODS_PLACEHOLDER"@.len() == 39);
    assert("WHIR_ALL_POTENTIAL_NUM_OODS_PLACEHOLDER"@[5] == 'A');
    assert("WHIR_ALL_POTENTIAL_FOLDING_GRINDING_PLACEHOLDER"@.len() == 47);
    assert("MIN_STACKED_N_VARS_PLACEHOLDER"@.len() == 30);
    assert("MIN_STACKED_N_VARS_PLACEHOLDER"@[0] == 'M');
    assert("N_TABLES_PLACEHOLDER"@.len() == 20);
    assert("N_TABLES_PLACEHOLDER"@[0] == 'N');
    assert("MIN_LOG_N_ROWS_PER_TABLE_PLACEHOLDER"@.len() == 36);
    assert("MIN_LOG_N_ROWS_PER_TABLE_PLACEHOLDER"@[1] == 'I');
    assert("MAX_LOG_N_ROWS_PER_TABLE_PLACEHOLDER"@.len() == 36);
    assert("MAX_LOG_N_ROWS_PER_TABLE_PLACEHOLDER"@[1] == 'A');
    assert("MIN_WHIR_LOG_INV_RATE_PLACEHOLDER"@.len() == 33);
    assert("MIN_WHIR_LOG_INV_RATE_PLACEHOLDER"@[1] == 'I');
    assert("MAX_WHIR_LOG_INV_RATE_PLACEHOLDER"@.len() == 33);
    assert("MAX_WHIR_LOG_INV_RATE_PLACEHOLDER"@[1] == 'A');
    assert("MIN_LOG_MEMORY_SIZE_PLACEHOLDER"@.len() == 31);
    assert("MIN_LOG_MEMORY_SIZE_PLACEHOLDER"@[1] == 'I');
    assert("MAX_LOG_MEMORY_SIZE_PLACEHOLDER"@.len() == 31);
    assert("MAX_LOG_MEMORY_SIZE_PLACEHOLDER"@[1] == 'A');
    assert("MAX_BUS_WIDTH_PLACEHOLDER"@.len() == 25);
    assert("MAX_BUS_WIDTH_PLACEHOLDER"@[0] == 'M');
    assert("LOGUP_MEMORY_DOMAINSEP_PLACEHOLDER"@.len() == 34);
    assert("LOGUP_MEMORY_DOMAINSEP_PLACEHOLDER"@[3] == 'U');
    assert("LOGUP_PRECOMPILE_DOMAINSEP_PLACEHOLDER"@.len() == 38);
    assert("LOGUP_BYTECODE_DOMAINSEP_PLACEHOLDER"@.len() == 36);
    assert("LOGUP_BYTECODE_DOMAINSEP_PLACEHOLDER"@[1] == 'O');
    assert("LOG_GUEST_BYTECODE_LEN_PLACEHOLDER"@.len() == 34);
    assert("LOG_GUEST_BYTECODE_LEN_PLACEHOLDER"@[3] == '_');
    assert("COL_PC_PLACEHOLDER"@.len() == 18);
    assert("NONRESERVED_PROGRAM_INPUT_START_PLACEHOLDER"@.len() == 43);
    assert("INNER_PUBLIC_MEMORY_LOG_SIZE_PLACEHOLDER"@.len() == 40);
    assert("PUB_INPUT_SIZE_PLACEHOLDER"@.len() == 26);
    assert("PUB_INPUT_SIZE_PLACEHOLDER"@[0] == 'P');
    assert("MAX_NUM_VARIABLES_TO_SEND_COEFFS_PLACEHOLDER"@.len() == 44);
    assert("WHIR_INITIAL_FOLDING_FACTOR_PLACEHOLDER"@.len() == 39);
    assert("WHIR_INITIAL_FOLDING_FACTOR_PLACEHOLDER"@[5] == 'I');
    assert("WHIR_SUBSEQUENT_FOLDING_FACTOR_PLACEHOLDER"@.len() == 42);
    assert("WHIR_SUBSEQUENT_FOLDING_FACTOR_PLACEHOLDER"@[5] == 'S');
    assert("EXECUTION_TABLE_INDEX_PLACEHOLDER"@.len() == 33);
    assert("EXECUTION_TABLE_INDEX_PLACEHOLDER"@[1] == 'X');
    assert("MAX_NUM_AIR_CONSTRAINTS_PLACEHOLDER"@.len() == 35);
    assert("N_INSTRUCTION_COLUMNS_PLACEHOLDER"@.len() == 33);
    assert("N_INSTRUCTION_COLUMNS_PLACEHOLDER"@[1] == '_');
    assert("N_COMMITTED_EXEC_COLUMNS_PLACEHOLDER"@.len() == 36);
    assert("N_COMMITTED_EXEC_COLUMNS_PLACEHOLDER"@[1] == '_');
    assert("TOTAL_WHIR_STATEMENTS_PLACEHOLDER"@.len() == 33);
    assert("TOTAL_WHIR_STATEMENTS_PLACEHOLDER"@[1] == 'O');
    assert("STARTING_PC_PLACEHOLDER"@.len() == 23);
    assert("STARTING_PC_PLACEHOLDER"@[0] == 'S');
    assert("ENDING_PC_PLACEHOLDER"@.len() == 21);
    assert("BYTECODE_ZERO_EVAL_PLACEHOLDER"@.len() == 30);
    assert("BYTECODE_ZERO_EVAL_PLACEHOLDER"@[0] == 'B');
    assert("__MAX_INNER_PROOFS__"@.len() == 20);
    assert("__MAX_INNER_PROOFS__"@[0] == '_');
    assert("LOOKUPS_INDEXES_PLACEHOLDER"@.len() == 27);
    assert("LOOKUPS_VALUES_PLACEHOLDER"@.len() == 26);
    assert("LOOKUPS_VALUES_PLACEHOLDER"@[0] == 'L');
    assert("NUM_COLS_AIR_PLACEHOLDER"@.len() == 24);
    assert("NUM_COLS_AIR_PLACEHOLDER"@[0] == 'N');
    assert("AIR_DEGREES_PLACEHOLDER"@.len() == 23);
    assert("AIR_DEGREES_PLACEHOLDER"@[0] == 'A');
    assert("N_AIR_COLUMNS_PLACEHOLDER"@.len() == 25);
    assert("N_AIR_COLUMNS_PLACEHOLDER"@[0] == 'N');
    assert("AIR_DOWN_COLUMNS_PLACEHOLDER"@.len() == 28);
    assert("AIR_DOWN_COLUMNS_PLACEHOLDER"@[0] == 'A');
    assert("EVALUATE_AIR_FUNCTIONS_PLACEHOLDER"@.len() == 34);
    assert("EVALUATE_AIR_FUNCTIONS_PLACEHOLDER"@[3] == 'L');
}

/// The texts under all keys of the recursive circuits.
proof fn lemma_recursion_entries(
    base: Map<Seq<char>, Seq<char>>,
    vm: VmParams,
    m: MachineParams,
    configs: Seq<Vec<WhirSummary>>,
    shape: RecursionShape,
)
    ensures
        ({
            let r = recursion_replacements(base, vm, m, configs, shape);
            &&& r["WHIR_FIRST_RS_REDUCTION_FACTOR_PLACEHOLDER"@] == decimal(m.rs_domain_initial_reduction_factor as int)
            &&& r["WHIR_ALL_POTENTIAL_NUM_QUERIES_PLACEHOLDER"@] == whir_table(configs, WhirColumn::NumQueries)
            &&& r["WHIR_ALL_POTENTIAL_QUERY_GRINDING_PLACEHOLDER"@] == whir_table(configs, WhirColumn::QueryGrinding)
            &&& r["WHIR_ALL_POTENTIAL_NUM_OODS_PLACEHOLDER"@] == whir_table(configs, WhirColumn::NumOods)
            &&& r["WHIR_ALL_POTENTIAL_FOLDING_GRINDING_PLACEHOLDER"@] == whir_table(configs, WhirColumn::FoldingGrinding)
            &&& r["MIN_STACKED_N_VARS_PLACEHOLDER"@] == decimal(shape.min_stacked as int)
            &&& r["N_TABLES_PLACEHOLDER"@] == decimal(m.n_tables as int)
            &&& r["MIN_LOG_N_ROWS_PER_TABLE_PLACEHOLDER"@] == decimal(m.min_log_n_rows_per_table as int)
            &&& r["MAX_LOG_N_ROWS_PER_TABLE_PLACEHOLDER"@] == bracketed( decimals(values_of(without_repeats(sorted_by_key(m.max_log_n_rows_per_table@)))), )
            &&& r["MIN_WHIR_LOG_INV_RATE_PLACEHOLDER"@] == decimal(m.min_whir_log_inv_rate as int)
            &&& r["MAX_WHIR_LOG_INV_RATE_PLACEHOLDER"@] == decimal(m.max_whir_log_inv_rate as int)
            &&& r["MIN_LOG_MEMORY_SIZE_PLACEHOLDER"@] == decimal(m.min_log_memory_size as int)
            &&& r["MAX_LOG_MEMORY_SIZE_PLACEHOLDER"@] == decimal(m.max_log_memory_size as int)
            &&& r["MAX_BUS_WIDTH_PLACEHOLDER"@] == decimal(m.max_bus_width as int)
            &&& r["LOGUP_MEMORY_DOMAINSEP_PLACEHOLDER"@] == decimal(m.logup_memory_domainsep as int)
            &&& r["LOGUP_PRECOMPILE_DOMAINSEP_PLACEHOLDER"@] == decimal(m.logup_precompile_domainsep as int)
            &&& r["LOGUP_BYTECODE_DOMAINSEP_PLACEHOLDER"@] == decimal(m.logup_bytecode_domainsep as int)
            &&& r["LOG_GUEST_BYTECODE_LEN_PLACEHOLDER"@] == decimal(shape.log_guest as int)
            &&& r["COL_PC_PLACEHOLDER"@] == decimal(m.col_pc as int)
            &&& r["NONRESERVED_PROGRAM_INPUT_START_PLACEHOLDER"@] == decimal(vm.input_start as int)
            &&& r["INNER_PUBLIC_MEMORY_LOG_SIZE_PLACEHOLDER"@] == decimal(shape.public_memory_log as int)
            &&& r["PUB_INPUT_SIZE_PLACEHOLDER"@] == decimal(shape.pub_input_size as int)
            &&& r["MAX_NUM_VARIABLES_TO_SEND_COEFFS_PLACEHOLDER"@] == decimal(m.max_num_variables_to_send_coeffs as int)
            &&& r["WHIR_INITIAL_FOLDING_FACTOR_PLACEHOLDER"@] == decimal(m.whir_initial_folding_factor as int)
            &&& r["WHIR_SUBSEQUENT_FOLDING_FACTOR_PLACEHOLDER"@] == decimal(m.whir_subsequent_folding_factor as int)
            &&& r["EXECUTION_TABLE_INDEX_PLACEHOLDER"@] == decimal(m.execution_table_index as int)
            &&& r["MAX_NUM_AIR_CONSTRAINTS_PLACEHOLDER"@] == decimal(m.max_air_constraints as int)
            &&& r["N_INSTRUCTION_COLUMNS_PLACEHOLDER"@] == decimal(vm.n_instruction_columns as int)
            &&& r["N_COMMITTED_EXEC_COLUMNS_PLACEHOLDER"@] == decimal(m.n_runtime_columns as int)
            &&& r["TOTAL_WHIR_STATEMENTS_PLACEHOLDER"@] == decimal(m.total_whir_statements as int)
            &&& r["STARTING_PC_PLACEHOLDER"@] == decimal(m.starting_pc as int)
            &&& r["ENDING_PC_PLACEHOLDER"@] == decimal(m.ending_pc as int)
            &&& r["BYTECODE_ZERO_EVAL_PLACEHOLDER"@] == decimal(shape.zero_eval@)
            &&& r["__MAX_INNER_PROOFS__"@] == decimal(MAX_INNER_PROOFS as int)
            &&& r["LOOKUPS_INDEXES_PLACEHOLDER"@] == table_list(m.tables@, TableColumn::LookupIndexes)
            &&& r["LOOKUPS_VALUES_PLACEHOLDER"@] == table_list(m.tables@, TableColumn::LookupValues)
            &&& r["NUM_COLS_AIR_PLACEHOLDER"@] == table_list(m.tables@, TableColumn::NumColumns)
            &&& r["AIR_DEGREES_PLACEHOLDER"@] == table_list(m.tables@, TableColumn::Degree)
            &&& r["N_AIR_COLUMNS_PLACEHOLDER"@] == table_list(m.tables@, TableColumn::NumColumns)
            &&& r["AIR_DOWN_COLUMNS_PLACEHOLDER"@] == table_list(m.tables@, TableColumn::DownColumns)
            &&& r["EVALUATE_AIR_FUNCTIONS_PLACEHOLDER"@] == tables_text(m.airs@, m.max_bus_width as int)
        }),
{
    let a = whir_replacements(base, m, configs, shape);
    let b = vm_replacements(a, vm, m, shape);
    lemma_whir_entries(base, m, configs, shape);
    lemma_vm_entries(a, vm, m, shape);
    lemma_table_entries(b, m);
    lemma_vm_keeps(a, vm, m, shape);
    lemma_table_keeps(b, m);
}

/// The unified circuit takes the constants of the batch circuit as they are.
pub proof fn lemma_unified_keeps_batch_constants(
    base: Map<Seq<char>, Seq<char>>,
    vm: VmParams,
    m: MachineParams,
    configs: Seq<Vec<WhirSummary>>,
    shape: RecursionShape,
)
    ensures
        ({
            let r = recursion_replacements(base, vm, m, configs, shape);
            &&& r["__NRPIS__"@] == base["__NRPIS__"@]
            &&& r["__BATCH_SIZE__"@] == base["__BATCH_SIZE__"@]
            &&& r["__CODEWORD_LEN__"@] == base["__CODEWORD_LEN__"@]
            &&& r["__DIM__"@] == base["__DIM__"@]
            &&& r["__DIGEST_LEN__"@] == base["__DIGEST_LEN__"@]
            &&& r["__EPL__"@] == base["__EPL__"@]
            &&& r["__NUM_LEAVES__"@] == base["__NUM_LEAVES__"@]
            &&& r["__TREE_HEIGHT__"@] == base["__TREE_HEIGHT__"@]
            &&& r["__NUM_FOLD_ROUNDS__"@] == base["__NUM_FOLD_ROUNDS__"@]
            &&& r["__N_CHUNKS__"@] == base["__N_CHUNKS__"@]
            &&& r["__HALF__"@] == base["__HALF__"@]
            &&& r["__OMEGA_INV_ROUNDS__"@] == base["__OMEGA_INV_ROUNDS__"@]
        }),
{
    let a = whir_replacements(base, m, configs, shape);
    let b = vm_replacements(a, vm, m, shape);
    lemma_whir_keeps(base, m, configs, shape);
    lemma_vm_keeps(a, vm, m, shape);
    lemma_table_keeps(b, m);
}

/// The recursive circuits are compiled with the machine's parameters: the number under each
/// key is the parameter that the key names.
pub proof fn lemma_recursion_constants(
    base: Map<Seq<char>, Seq<char>>,
    vm: VmParams,
    m: MachineParams,
    configs: Seq<Vec<WhirSummary>>,
    shape: RecursionShape,
)
    ensures
        ({
            let r = recursion_replacements(base, vm, m, configs, shape);
            &&& number_at(r, "WHIR_FIRST_RS_REDUCTION_FACTOR_PLACEHOLDER"@) == m.rs_domain_initial_reduction_factor
            &&& number_at(r, "MIN_STACKED_N_VARS_PLACEHOLDER"@) == shape.min_stacked
            &&& number_at(r, "N_TABLES_PLACEHOLDER"@) == m.n_tables
            &&& number_at(r, "MIN_LOG_N_ROWS_PER_TABLE_PLACEHOLDER"@) == m.min_log_n_rows_per_table
            &&& number_at(r, "MIN_WHIR_LOG_INV_RATE_PLACEHOLDER"@) == m.min_whir_log_inv_rate
            &&& number_at(r, "MAX_WHIR_LOG_INV_RATE_PLACEHOLDER"@) == m.max_whir_log_inv_rate
            &&& number_at(r, "MIN_LOG_MEMORY_SIZE_PLACEHOLDER"@) == m.min_log_memory_size
            &&& number_at(r, "MAX_LOG_MEMORY_SIZE_PLACEHOLDER"@) == m.max_log_memory_size
            &&& number_at(r, "MAX_BUS_WIDTH_PLACEHOLDER"@) == m.max_bus_width
            &&& number_at(r, "LOGUP_MEMORY_DOMAINSEP_PLACEHOLDER"@) == m.logup_memory_domainsep
            &&& number_at(r, "LOGUP_PRECOMPILE_DOMAINSEP_PLACEHOLDER"@) == m.logup_precompile_domainsep
            &&& number_at(r, "LOGUP_BYTECODE_DOMAINSEP_PLACEHOLDER"@) == m.logup_bytecode_domainsep
            &&& number_at(r, "LOG_GUEST_BYTECODE_LEN_PLACEHOLDER"@) == shape.log_guest
            &&& number_at(r, "COL_PC_PLACEHOLDER"@) == m.col_pc
            &&& number_at(r, "NONRESERVED_PROGRAM_INPUT_START_PLACEHOLDER"@) == vm.input_start
            &&& number_at(r, "INNER_PUBLIC_MEMORY_LOG_SIZE_PLACEHOLDER"@) == shape.public_memory_log
            &&& number_at(r, "PUB_INPUT_SIZE_PLACEHOLDER"@) == shape.pub_input_size
            &&& number_at(r, "MAX_NUM_VARIABLES_TO_SEND_COEFFS_PLACEHOLDER"@) == m.max_num_variables_to_send_coeffs
            &&& number_at(r, "WHIR_INITIAL_FOLDING_FACTOR_PLACEHOLDER"@) == m.whir_initial_folding_factor
            &&& number_at(r, "WHIR_SUBSEQUENT_FOLDING_FACTOR_PLACEHOLDER"@) == m.whir_subsequent_folding_factor
            &&& number_at(r, "EXECUTION_TABLE_INDEX_PLACEHOLDER"@) == m.execution_table_index
            &&& number_at(r, "MAX_NUM_AIR_CONSTRAINTS_PLACEHOLDER"@) == m.max_air_constraints
            &&& number_at(r, "N_INSTRUCTION_COLUMNS_PLACEHOLDER"@) == vm.n_instruction_columns
            &&& number_at(r, "N_COMMITTED_EXEC_COLUMNS_PLACEHOLDER"@) == m.n_runtime_columns
            &&& number_at(r, "TOTAL_WHIR_STATEMENTS_PLACEHOLDER"@) == m.total_whir_statements
            &&& number_at(r, "STARTING_PC_PLACEHOLDER"@) == m.starting_pc
            &&& number_at(r, "ENDING_PC_PLACEHOLDER"@) == m.ending_pc
            &&& number_at(r, "BYTECODE_ZERO_EVAL_PLACEHOLDER"@) == shape.zero_eval@
            &&& number_at(r, "__MAX_INNER_PROOFS__"@) == MAX_INNER_PROOFS
        }),
{
    lemma_recursion_entries(base, vm, m, configs, shape);
    shape.zero_eval.lemma_view_range();
    lemma_decimal_reads_back(m.rs_domain_initial_reduction_factor as int);
    lemma_decimal_reads_back(shape.min_stacked as int);
    lemma_decimal_reads_back(m.n_tables as int);
    lemma_decimal_reads_back(m.min_log_n_rows_per_table as int);
    lemma_decimal_reads_back(m.min_whir_log_inv_rate as int);
    lemma_decimal_reads_back(m.max_whir_log_inv_rate as int);
    lemma_decimal_reads_back(m.min_log_memory_size as int);
    lemma_decimal_reads_back(m.max_log_memory_size as int);
    lemma_decimal_reads_back(m.max_bus_width as int);
    lemma_decimal_reads_back(m.logup_memory_domainsep as int);
    lemma_decimal_reads_back(m.logup_precompile_domainsep as int);
    lemma_decimal_reads_back(m.logup_bytecode_domainsep as int);
    lemma_decimal_reads_back(shape.log_guest as int);
    lemma_decimal_reads_back(m.col_pc as int);
    lemma_decimal_reads_back(vm.input_start as int);
    lemma_decimal_reads_back(shape.public_memory_log as int);
    lemma_decimal_reads_back(shape.pub_input_size as int);
    lemma_decimal_reads_back(m.max_num_variables_to_send_coeffs as int);
    lemma_decimal_reads_back(m.whir_initial_folding_factor as int);
    lemma_decimal_reads_back(m.whir_subsequent_folding_factor as int);
    lemma_decimal_reads_back(m.execution_table_index as int);
    lemma_decimal_reads_back(m.max_air_constraints as int);
    lemma_decimal_reads_back(vm.n_instruction_columns as int);
    lemma_decimal_reads_back(m.n_runtime_columns as int);
    lemma_decimal_reads_back(m.total_whir_statements as int);
    lemma_decimal_reads_back(m.starting_pc as int);
    lemma_decimal_reads_back(m.ending_pc as int);
    lemma_decimal_reads_back(shape.zero_eval@);
    lemma_decimal_reads_back(MAX_INNER_PROOFS as int);
}

// Lists.

/// The numbers of low-degree test `j` at rate `i` in a table of such tests.
pub open spec fn whir_entry(text: Seq<char>, i: int, j: int) -> Seq<int> {
    list_numbers(list_items(list_items(text)[i])[j])
}

/// Reading a table of low-degree tests.
proof fn lemma_whir_table(configs: Seq<Vec<WhirSummary>>, col: WhirColumn, i: int, j: int)
    ensures
        list_items(whir_table(configs, col)).len() == configs.len(),
        0 <= i < configs.len() ==> list_items(list_items(whir_table(configs, col))[i]).len()
            == configs[i]@.len(),
        0 <= i < configs.len() && 0 <= j < configs[i]@.len() ==> whir_entry(
            whir_table(configs, col),
            i,
            j,
        ) == Seq::new(
            whir_numbers(configs[i]@[j], col).len(),
            |k: int| whir_numbers(configs[i]@[j], col)[k] as int,
        ),
{
    let rows = Seq::new(configs.len(), |k: int| whir_row(configs[k]@, col));
    assert forall|a: int| 0 <= a < rows.len() implies is_item(#[trigger] rows[a]) by {
        lemma_whir_row(configs[a]@, col);
    }
    lemma_list_reads_back(rows);
    if 0 <= i < configs.len() {
        lemma_whir_row(configs[i]@, col);
        assert(list_items(whir_table(configs, col))[i] == whir_row(configs[i]@, col));
        if 0 <= j < configs[i]@.len() {
            lemma_decimals_read_back(whir_numbers(configs[i]@[j], col));
        }
    }
}

/// Reading the low-degree tests of one rate.
proof fn lemma_whir_row(row: Seq<WhirSummary>, col: WhirColumn)
    ensures
        is_item(whir_row(row, col)),
        list_items(whir_row(row, col)) == Seq::new(
            row.len(),
            |k: int| bracketed(decimals(whir_numbers(row[k], col))),
        ),
{
    let items = Seq::new(row.len(), |k: int| bracketed(decimals(whir_numbers(row[k], col))));
    assert forall|a: int| 0 <= a < items.len() implies is_item(#[trigger] items[a]) by {
        lemma_decimals_read_back(whir_numbers(row[a], col));
    }
    lemma_list_reads_back(items);
    lemma_list_is_item(items);
}

/// The recursive circuits are compiled with the parameters of the low-degree test for every
/// rate and size: for each round its queries, their grinding, its samples outside the domain
/// and its folding grinding, the final queries and their grinding at the end, and the
/// commitment's samples and the first folding grinding at the start.
pub proof fn lemma_whir_constants(
    base: Map<Seq<char>, Seq<char>>,
    vm: VmParams,
    m: MachineParams,
    configs: Seq<Vec<WhirSummary>>,
    shape: RecursionShape,
    i: int,
    j: int,
    k: int,
)
    requires
        0 <= i < configs.len(),
        0 <= j < configs[i]@.len(),
    ensures
        ({
            let r = recursion_replacements(base, vm, m, configs, shape);
            let w = configs[i]@[j];
            let n = w.rounds@.len() as int;
            let queries = whir_entry(r["WHIR_ALL_POTENTIAL_NUM_QUERIES_PLACEHOLDER"@], i, j);
            let grinding = whir_entry(r["WHIR_ALL_POTENTIAL_QUERY_GRINDING_PLACEHOLDER"@], i, j);
            let oods = whir_entry(r["WHIR_ALL_POTENTIAL_NUM_OODS_PLACEHOLDER"@], i, j);
            let folding = whir_entry(r["WHIR_ALL_POTENTIAL_FOLDING_GRINDING_PLACEHOLDER"@], i, j);
            &&& queries.len() == n + 1
            &&& grinding.len() == n + 1
            &&& oods.len() == n + 1
            &&& folding.len() == n + 1
            &&& queries[n] == w.final_queries
            &&& grinding[n] == w.final_query_pow_bits
            &&& oods[0] == w.commitment_ood_samples
            &&& folding[0] == w.starting_folding_pow_bits
            &&& 0 <= k < n ==> {
                &&& queries[k] == w.rounds@[k].num_queries
                &&& grinding[k] == w.rounds@[k].query_pow_bits
                &&& oods[k + 1] == w.rounds@[k].ood_samples
                &&& folding[k + 1] == w.rounds@[k].folding_pow_bits
            }
            &&& list_items(r["WHIR_ALL_POTENTIAL_NUM_QUERIES_PLACEHOLDER"@]).len()
                == configs.len()
        }),
{
    lemma_recursion_entries(base, vm, m, configs, shape);
    lemma_whir_table(configs, WhirColumn::NumQueries, i, j);
    lemma_whir_table(configs, WhirColumn::QueryGrinding, i, j);
    lemma_whir_table(configs, WhirColumn::NumOods, i, j);
    lemma_whir_table(configs, WhirColumn::FoldingGrinding, i, j);
}

/// The text of a table in a list can be an item.
proof fn lemma_table_entry(t: TableInfo, col: TableColumn)
    ensures
        is_item(table_entry(t, col)),
{
    let n = t.lookups@.len();
    match col {
        TableColumn::LookupIndexes => {
            let items = Seq::new(n, |i: int| decimal(t.lookups@[i].index as int));
            assert forall|a: int| 0 <= a < items.len() implies is_item(#[trigger] items[a]) by {
                lemma_decimal_is_item(t.lookups@[a].index as int);
            }
            lemma_list_is_item(items);
        },
        TableColumn::LookupValues => {
            let items = Seq::new(n, |i: int| bracketed(decimals(t.lookups@[i].values@)));
            assert forall|a: int| 0 <= a < items.len() implies is_item(#[trigger] items[a]) by {
                lemma_decimals_read_back(t.lookups@[a].values@);
            }
            lemma_list_is_item(items);
        },
        TableColumn::NumColumns => lemma_decimal_is_item(t.n_columns as int),
        TableColumn::Degree => lemma_decimal_is_item(t.degree_air as int),
        TableColumn::DownColumns => lemma_decimals_read_back(t.down_columns@),
    }
}

/// Reading a list over tables.
proof fn lemma_table_list(tables: Seq<TableInfo>, col: TableColumn)
    ensures
        list_items(table_list(tables, col)) == Seq::new(
            tables.len(),
            |i: int| table_entry(tables[i], col),
        ),
{
    let items = Seq::new(tables.len(), |i: int| table_entry(tables[i], col));
    assert forall|a: int| 0 <= a < items.len() implies is_item(#[trigger] items[a]) by {
        lemma_table_entry(tables[a], col);
    }
    lemma_list_reads_back(items);
}

/// The recursive circuits are compiled with the shape of each table: the index and the values
/// of each of its lookups, the number of its columns, the degree of its constraints, and the
/// columns of which they read the next row.
pub proof fn lemma_table_constants(
    base: Map<Seq<char>, Seq<char>>,
    vm: VmParams,
    m: MachineParams,
    configs: Seq<Vec<WhirSummary>>,
    shape: RecursionShape,
    i: int,
    k: int,
)
    requires
        0 <= i < m.tables@.len(),
    ensures
        ({
            let r = recursion_replacements(base, vm, m, configs, shape);
            let t = m.tables@[i];
            let n = t.lookups@.len() as int;
            let indexes = list_numbers(list_items(r["LOOKUPS_INDEXES_PLACEHOLDER"@])[i]);
            let values = list_items(list_items(r["LOOKUPS_VALUES_PLACEHOLDER"@])[i]);
            let down = list_numbers(list_items(r["AIR_DOWN_COLUMNS_PLACEHOLDER"@])[i]);
            &&& indexes.len() == n
            &&& values.len() == n
            &&& 0 <= k < n ==> {
                &&& indexes[k] == t.lookups@[k].index
                &&& list_numbers(values[k]) == Seq::new(
                    t.lookups@[k].values@.len(),
                    |j: int| t.lookups@[k].values@[j] as int,
                )
            }
            &&& list_numbers(r["NUM_COLS_AIR_PLACEHOLDER"@])[i] == t.n_columns
            &&& list_numbers(r["N_AIR_COLUMNS_PLACEHOLDER"@])[i] == t.n_columns
            &&& list_numbers(r["AIR_DEGREES_PLACEHOLDER"@])[i] == t.degree_air
            &&& down == Seq::new(t.down_columns@.len(), |j: int| t.down_columns@[j] as int)
            &&& list_items(r["LOOKUPS_INDEXES_PLACEHOLDER"@]).len() == m.tables@.len()
            &&& list_items(r["LOOKUPS_VALUES_PLACEHOLDER"@]).len() == m.tables@.len()
            &&& list_items(r["NUM_COLS_AIR_PLACEHOLDER"@]).len() == m.tables@.len()
            &&& list_items(r["AIR_DEGREES_PLACEHOLDER"@]).len() == m.tables@.len()
            &&& list_items(r["AIR_DOWN_COLUMNS_PLACEHOLDER"@]).len() == m.tables@.len()
        }),
{
    let t = m.tables@[i];
    let n = t.lookups@.len();
    lemma_recursion_entries(base, vm, m, configs, shape);
    lemma_table_list(m.tables@, TableColumn::LookupIndexes);
    lemma_table_list(m.tables@, TableColumn::LookupValues);
    lemma_table_list(m.tables@, TableColumn::NumColumns);
    lemma_table_list(m.tables@, TableColumn::Degree);
    lemma_table_list(m.tables@, TableColumn::DownColumns);
    lemma_numbers_read_back(
        Seq::new(n, |q: int| decimal(t.lookups@[q].index as int)),
        Seq::new(n, |q: int| t.lookups@[q].index as int),
    );
    let items = Seq::new(n, |q: int| bracketed(decimals(t.lookups@[q].values@)));
    assert forall|a: int| 0 <= a < items.len() implies is_item(#[trigger] items[a]) by {
        lemma_decimals_read_back(t.lookups@[a].values@);
    }
    lemma_list_reads_back(items);
    if 0 <= k < n {
        lemma_decimals_read_back(t.lookups@[k].values@);
    }
    lemma_decimal_reads_back(t.n_columns as int);
    lemma_decimal_reads_back(t.degree_air as int);
    lemma_decimals_read_back(t.down_columns@);
}

// Largest row counts.

/// Leaving out repeated neighbours keeps the entries and their order, and leaves no repeated
/// neighbours.
proof fn lemma_without_repeats(s: Seq<(usize, usize)>)
    ensures
        ({
            let t = without_repeats(s);
            &&& s.len() > 0 ==> t.len() > 0 && t.last() == s.last()
            &&& forall|i: int| 0 <= i < s.len() ==> t.contains(#[trigger] s[i])
            &&& forall|i: int| 0 <= i < t.len() ==> s.contains(#[trigger] t[i])
            &&& forall|i: int| 0 < i < t.len() ==> t[i - 1] != #[trigger] t[i]
        }),
    decreases s.len(),
{
    let t = without_repeats(s);
    if s.len() > 1 {
        let d = s.drop_last();
        lemma_without_repeats(d);
        let u = without_repeats(d);
        assert(d.last() == s[s.len() - 2]);
        assert forall|i: int| 0 <= i < s.len() implies t.contains(#[trigger] s[i]) by {
            if i < s.len() - 1 {
                assert(u.contains(d[i]));
                let k = choose|k: int| 0 <= k < u.len() && u[k] == d[i];
                assert(t[k] == s[i]);
            } else {
                assert(t[t.len() - 1] == s[i]);
            }
        }
        assert forall|i: int| 0 <= i < t.len() implies s.contains(#[trigger] t[i]) by {
            if i < u.len() {
                assert(d.contains(u[i]));
                let k = choose|k: int| 0 <= k < d.len() && d[k] == u[i];
                assert(s[k] == t[i]);
            } else {
                assert(s[s.len() - 1] == t[i]);
            }
        }
        assert forall|i: int| 0 < i < t.len() implies t[i - 1] != #[trigger] t[i] by {
            if i < u.len() {
                assert(u[i - 1] != u[i]);
            }
        }
    } else {
        assert forall|i: int| 0 <= i < s.len() implies t.contains(#[trigger] s[i]) by {
            assert(t[i] == s[i]);
        }
    }
}

/// Leaving out entries keeps the order by keys.
proof fn lemma_without_repeats_sorted(s: Seq<(usize, usize)>)
    requires
        forall|i: int, j: int| 0 <= i <= j < s.len() ==> (#[trigger] s[i]).0 <= (#[trigger] s[j]).0,
    ensures
        forall|i: int, j: int|
            0 <= i <= j < without_repeats(s).len() ==> (#[trigger] without_repeats(s)[i]).0 <= (
            #[trigger] without_repeats(s)[j]).0,
    decreases s.len(),
{
    if s.len() > 1 {
        let d = s.drop_last();
        assert forall|i: int, j: int| 0 <= i <= j < d.len() implies (#[trigger] d[i]).0 <= (
        #[trigger] d[j]).0 by {
            assert(s[i].0 <= s[j].0);
        }
        lemma_without_repeats_sorted(d);
        lemma_without_repeats(d);
        let (t, u) = (without_repeats(s), without_repeats(d));
        assert forall|i: int, j: int| 0 <= i <= j < t.len() implies (#[trigger] t[i]).0 <= (
        #[trigger] t[j]).0 by {
            if j == u.len() && i < u.len() {
                assert(d.contains(u[i]));
                let k = choose|k: int| 0 <= k < d.len() && d[k] == u[i];
                assert(s[k].0 <= s[s.len() - 1].0);
            }
        }
    }
}

/// The list of the largest row counts holds the values of entries that are in the order of
/// their tables, are the given entries, and are no repeated neighbours.
pub proof fn lemma_max_rows_constants(
    base: Map<Seq<char>, Seq<char>>,
    vm: VmParams,
    m: MachineParams,
    configs: Seq<Vec<WhirSummary>>,
    shape: RecursionShape,
) -> (t: Seq<(usize, usize)>)
    ensures
        list_numbers(
            recursion_replacements(
                base,
                vm,
                m,
                configs,
                shape,
            )["MAX_LOG_N_ROWS_PER_TABLE_PLACEHOLDER"@],
        ) == Seq::new(t.len(), |i: int| t[i].1 as int),
        forall|i: int, j: int| 0 <= i <= j < t.len() ==> (#[trigger] t[i]).0 <= (#[trigger] t[j]).0,
        forall|i: int| 0 < i < t.len() ==> t[i - 1] != #[trigger] t[i],
        forall|i: int|
            0 <= i < m.max_log_n_rows_per_table@.len() ==> t.contains(
                #[trigger] m.max_log_n_rows_per_table@[i],
            ),
        forall|i: int|
            0 <= i < t.len() ==> m.max_log_n_rows_per_table@.contains(#[trigger] t[i]),
{
    let s = m.max_log_n_rows_per_table@;
    let o = sorted_by_key(s);
    let t = without_repeats(o);
    lemma_recursion_entries(base, vm, m, configs, shape);
    lemma_decimals_read_back(values_of(t));
    crate::machine::lemma_sorted_by_key(s);
    crate::machine::lemma_sorted_multiset(s);
    lemma_without_repeats(o);
    lemma_without_repeats_sorted(o);
    broadcast use vstd::seq_lib::group_to_multiset_ensures;

    assert forall|i: int| 0 <= i < s.len() implies t.contains(#[trigger] s[i]) by {
        assert(s.contains(s[i]));
        assert(o.to_multiset().contains(s[i]));
        assert(o.contains(s[i]));
        let k = choose|k: int| 0 <= k < o.len() && o[k] == s[i];
        assert(t.contains(o[k]));
    }
    assert forall|i: int| 0 <= i < t.len() implies s.contains(#[trigger] t[i]) by {
        assert(o.contains(t[i]));
        assert(s.to_multiset().contains(t[i]));
    }
    let v = values_of(t);
    assert(Seq::new(v.len(), |i: int| v[i] as int) =~= Seq::new(t.len(), |i: int| t[i].1 as int));
    t
}

// Sizes.

/// The unified circuit is compiled for proofs of programs of the given size: the size of the
/// public input is that of the public input that is built for such a program, and two to the
/// logarithm is the size of its public memory.
pub proof fn lemma_unified_sizes<H: Fn(Digest, Digest) -> Digest, B>(
    h: H,
    base: Map<Seq<char>, Seq<char>>,
    vm: VmParams,
    m: MachineParams,
    configs: Seq<Vec<WhirSummary>>,
    min_stacked: usize,
    zero_eval: F,
    hashes: Seq<Seq<int>>,
    bytecode: Bytecode<B>,
)
    requires
        is_compression(h),
        vm.input_start + default_unified_input(h, vm, hashes, bytecode).len() <= usize::MAX,
    ensures
        ({
            let shape = unified_shape(vm, bytecode.log_size as int, min_stacked, zero_eval);
            let r = recursion_replacements(base, vm, m, configs, shape);
            let x = default_unified_input(h, vm, hashes, bytecode);
            &&& number_at(r, "LOG_GUEST_BYTECODE_LEN_PLACEHOLDER"@) == bytecode.log_size
            &&& number_at(r, "PUB_INPUT_SIZE_PLACEHOLDER"@) == x.len()
            &&& pow2(number_at(r, "INNER_PUBLIC_MEMORY_LOG_SIZE_PLACEHOLDER"@) as nat)
                == public_memory(vm.input_start as int, x).len()
            &&& number_at(r, "MIN_STACKED_N_VARS_PLACEHOLDER"@) == min_stacked
            &&& number_at(r, "BYTECODE_ZERO_EVAL_PLACEHOLDER"@) == zero_eval@
        }),
{
    let shape = unified_shape(vm, bytecode.log_size as int, min_stacked, zero_eval);
    let n = point_n_vars(bytecode.log_size as int, vm.n_instruction_columns as int);
    let x = default_unified_input(h, vm, hashes, bytecode);
    lemma_recursion_constants(base, vm, m, configs, shape);
    lemma_chain_digest(h, hashes);
    lemma_compress(h, digest_view(bytecode.hash), digest_view(vm.domain_sep));
    lemma_claim_padding(n);
    assert(x.len() == unified_input_len(n));
    lemma_memory_size(vm.input_start as int, x);
}

/// The length of a claim and its padding.
proof fn lemma_claim_padding(n: int)
    requires
        n >= 0,
    ensures
        claim_len(n) <= claim_len_padded(n),
        claim_len(n) > 0,
{
    vstd::arithmetic::div_mod::lemma_fundamental_div_mod(claim_len(n) + 7, 8);
}

/// The logarithm of the size of a public memory.
proof fn lemma_memory_size(input_start: int, x: Seq<int>)
    requires
        input_start >= 0,
        input_start + x.len() <= usize::MAX,
    ensures
        public_memory(input_start, x).len() == pow2(log2_ceil(input_start + x.len())),
        log2_ceil(input_start + x.len()) <= usize::MAX,
{
    let end = input_start + x.len();
    lemma_log2_ceil(end);
    lemma_log2_ceil_small(end);
}

/// A logarithm is no larger than the number.
proof fn lemma_log2_ceil_small(n: int)
    requires
        n >= 0,
    ensures
        log2_ceil(n) <= n,
{
    if n > 1 {
        lemma_log2_small(n - 1);
    }
}

proof fn lemma_log2_small(n: int)
    requires
        n >= 1,
    ensures
        log2(n) < n,
    decreases n,
{
    if n > 1 {
        lemma_log2_small(n / 2);
    }
}

/// The hybrid circuit is compiled for proofs of itself of the given size and for proofs of the
/// inner program: the sizes of both public inputs are those of the public inputs that are
/// built, two to the logarithms are the sizes of their public memories, and the smallest size
/// of a low-degree test is the smaller of the two.
pub proof fn lemma_hybrid_sizes<H: Fn(Digest, Digest) -> Digest, B>(
    h: H,
    vm: VmParams,
    m: MachineParams,
    configs: Seq<Vec<WhirSummary>>,
    self_min_stacked: usize,
    inner_min_stacked: usize,
    zero_eval: F,
    hashes: Seq<Seq<int>>,
    inner: Bytecode<B>,
    hybrid: Bytecode<B>,
    commitments: Seq<Commitment>,
)
    requires
        is_compression(h),
        vm.input_start + default_hybrid_input(h, vm, hashes, inner, hybrid).len() <= usize::MAX,
        vm.input_start + 16 <= usize::MAX,
    ensures
        ({
            let shape = hybrid_shape(
                vm,
                hybrid.log_size as int,
                self_min_stacked,
                inner,
                inner_min_stacked,
                zero_eval,
            );
            let r = hybrid_replacements(vm, m, configs, shape, inner);
            let x = default_hybrid_input(h, vm, hashes, inner, hybrid);
            let y = batch_public_input(h, vm, commitments, Some(inner.hash));
            let least = number_at(r, "MIN_STACKED_N_VARS_PLACEHOLDER"@);
            &&& number_at(r, "LOG_GUEST_BYTECODE_LEN_PLACEHOLDER"@) == hybrid.log_size
            &&& number_at(r, "PUB_INPUT_SIZE_PLACEHOLDER"@) == x.len()
            &&& pow2(number_at(r, "INNER_PUBLIC_MEMORY_LOG_SIZE_PLACEHOLDER"@) as nat)
                == public_memory(vm.input_start as int, x).len()
            &&& number_at(r, "BYTECODE_ZERO_EVAL_PLACEHOLDER"@) == zero_eval@
            &&& number_at(r, "__INNER_LOG_GUEST_BL__"@) == inner.log_size
            &&& number_at(r, "__INNER_PUB_INPUT_SIZE__"@) == y.len()
            &&& pow2(number_at(r, "__INNER_PM_LOG__"@) as nat) == public_memory(
                vm.input_start as int,
                y,
            ).len()
            &&& number_at(r, "__INNER_BYTECODE_ZERO_EVAL__"@) == inner.zero_eval@
            &&& least <= self_min_stacked
            &&& least <= inner_min_stacked
            &&& least == self_min_stacked || least == inner_min_stacked
        }),
{
    let shape = hybrid_shape(
        vm,
        hybrid.log_size as int,
        self_min_stacked,
        inner,
        inner_min_stacked,
        zero_eval,
    );
    let cols = vm.n_instruction_columns as int;
    let (n, k) = (point_n_vars(inner.log_size as int, cols), point_n_vars(
        hybrid.log_size as int,
        cols,
    ));
    let x = default_hybrid_input(h, vm, hashes, inner, hybrid);
    let y = batch_public_input(h, vm, commitments, Some(inner.hash));
    lemma_recursion_constants(Map::empty(), vm, m, configs, shape);
    lemma_hybrid_keeps(vm, m, configs, shape, inner);
    lemma_chain_digest(h, hashes);
    lemma_chain_digest(h, crate::inputs::roots(commitments));
    lemma_compress(h, digest_view(inner.hash), digest_view(vm.domain_sep));
    lemma_compress(h, digest_view(hybrid.hash), digest_view(vm.domain_sep));
    lemma_claim_padding(n);
    lemma_claim_padding(k);
    assert(x.len() == hybrid_input_len(n, k));
    lemma_memory_size(vm.input_start as int, x);
    assert(y.len() == 16);
    lemma_memory_size(vm.input_start as int, y);
    inner.zero_eval.lemma_view_range();
    lemma_decimal_reads_back(inner.log_size as int);
    lemma_decimal_reads_back(16);
    lemma_decimal_reads_back(log2_ceil(vm.input_start + 16) as int);
    lemma_decimal_reads_back(inner.zero_eval@);
}

/// The evaluation functions of the tables stand one after the other, each in whole.
pub proof fn lemma_functions_in_order(tables: Seq<TableAir>, max_bus_width: int, i: int)
    requires
        0 <= i < tables.len(),
    ensures
        ({
            let x = tables_text(tables, max_bus_width);
            let at = tables_text(tables.take(i), max_bus_width).len() as int;
            let f = table_text(tables[i], max_bus_width);
            &&& at + f.len() <= x.len()
            &&& x.subrange(at, at + f.len()) == f
            &&& i == 0 ==> at == 0
            &&& tables_text(tables.take(i + 1), max_bus_width).len() == at + f.len()
            &&& i + 1 == tables.len() ==> x.len() == at + f.len()
        }),
{
    let v = Seq::new(tables.len(), |k: int| table_text(tables[k], max_bus_width));
    let a = Seq::new(tables.take(i).len(), |k: int| table_text(tables.take(i)[k], max_bus_width));
    let b = Seq::new(
        tables.take(i + 1).len(),
        |k: int| table_text(tables.take(i + 1)[k], max_bus_width),
    );
    assert(a =~= v.take(i));
    assert(b =~= v.take(i + 1));
    lemma_flat_take(v, i);
    lemma_flat_add(v.take(i + 1), v.skip(i + 1));
    assert(v.take(i + 1) + v.skip(i + 1) =~= v);
    let f = table_text(tables[i], max_bus_width);
    let at = flat(v.take(i)).len() as int;
    assert(flat(v).subrange(at, at + f.len()) =~= f);
    if i + 1 == tables.len() {
        assert(v.take(i + 1) =~= v);
    }
}

/// The hybrid circuit is compiled with the machine's parameters, with its own shape, and with
/// the size of the inner program and the first element of its encoding.
pub proof fn lemma_hybrid_keys<B>(
    vm: VmParams,
    m: MachineParams,
    configs: Seq<Vec<WhirSummary>>,
    shape: RecursionShape,
    inner: Bytecode<B>,
)
    ensures
        ({
            let r = hybrid_replacements(vm, m, configs, shape, inner);
            &&& number_at(r, "LOG_GUEST_BYTECODE_LEN_PLACEHOLDER"@) == shape.log_guest
            &&& number_at(r, "BYTECODE_ZERO_EVAL_PLACEHOLDER"@) == shape.zero_eval@
            &&& number_at(r, "PUB_INPUT_SIZE_PLACEHOLDER"@) == shape.pub_input_size
            &&& number_at(r, "__INNER_LOG_GUEST_BL__"@) == inner.log_size
            &&& number_at(r, "__INNER_BYTECODE_ZERO_EVAL__"@) == inner.zero_eval@
        }),
{
    lemma_recursion_constants(Map::empty(), vm, m, configs, shape);
    lemma_hybrid_keeps(vm, m, configs, shape, inner);
    inner.zero_eval.lemma_view_range();
    lemma_decimal_reads_back(inner.log_size as int);
    lemma_decimal_reads_back(inner.zero_eval@);
}

} // verus!
