use leandas::circuit::{
    build_das_replacements, compile_hybrid_das_circuit, compile_spotcheck_circuit,
    compile_unified_das_circuit, compute_num_spot_checks, next_compile_step, CircuitKind,
    CompileError, CompileStep,
};
use leandas::machine::{
    collect_max_rows, render_table_list, render_whir_table, whir_configs, Lookup, MachineParams,
    TableColumn, TableInfo, WhirColumn, WhirRound, WhirSummary,
};
use leandas::text::{bracket, bracket_numbers, decimal_u64, decimal_usize, Replacements};
use leandas::vm::{Bytecode, VmParams};
use leandas::F;

fn vm() -> VmParams {
    VmParams { input_start: 16, n_instruction_columns: 12, domain_sep: [F::from_usize(9); 8] }
}

fn table() -> TableInfo {
    TableInfo {
        lookups: vec![
            Lookup { index: 3, values: vec![4, 5] },
            Lookup { index: 7, values: vec![] },
        ],
        n_columns: 20,
        degree_air: 5,
        down_columns: vec![0, 2],
    }
}

fn machine() -> MachineParams {
    MachineParams {
        rs_domain_initial_reduction_factor: 5,
        n_tables: 1,
        min_log_n_rows_per_table: 8,
        max_log_n_rows_per_table: vec![(2, 20), (0, 25), (1, 21)],
        min_whir_log_inv_rate: 1,
        max_whir_log_inv_rate: 2,
        min_log_memory_size: 16,
        max_log_memory_size: 26,
        max_bus_width: 4,
        logup_memory_domainsep: 0,
        logup_precompile_domainsep: 1,
        logup_bytecode_domainsep: 2,
        col_pc: 0,
        max_num_variables_to_send_coeffs: 9,
        whir_initial_folding_factor: 7,
        whir_subsequent_folding_factor: 5,
        execution_table_index: 0,
        max_air_constraints: 1,
        n_runtime_columns: 20,
        total_whir_statements: 1,
        starting_pc: 0,
        ending_pc: 1,
        tables: vec![table()],
        airs: vec![],
    }
}

fn whir(log_inv_rate: usize, n_vars: usize) -> WhirSummary {
    WhirSummary {
        commitment_ood_samples: 2,
        starting_folding_pow_bits: 1,
        rounds: vec![WhirRound {
            num_queries: log_inv_rate,
            query_pow_bits: n_vars,
            ood_samples: 3,
            folding_pow_bits: 4,
        }],
        final_queries: 8,
        final_query_pow_bits: 6,
    }
}

fn value(r: &Replacements, key: &str) -> String {
    r.get(key).unwrap().clone()
}

#[test]
fn decimals_and_lists() {
    assert_eq!(decimal_u64(0), "0");
    assert_eq!(decimal_u64(18_446_744_073_709_551_615), "18446744073709551615");
    assert_eq!(decimal_usize(9070), "9070");
    assert_eq!(bracket_numbers(&vec![]), "[]");
    assert_eq!(bracket_numbers(&vec![7]), "[7]");
    assert_eq!(bracket_numbers(&vec![1, 20, 3]), "[1, 20, 3]");
    assert_eq!(bracket(&vec![String::from("a"), String::from("b")]), "[a, b]");
}

#[test]
fn replacements_keep_the_last_value() {
    let mut r = Replacements::new();
    assert!(r.get("A").is_none());
    r.insert("A", String::from("1"));
    r.insert("B", String::from("2"));
    r.insert("A", String::from("3"));
    assert_eq!(value(&r, "A"), "3");
    assert_eq!(value(&r, "B"), "2");
    assert_eq!(r.entries.len(), 2);
}

#[test]
fn batch_circuit_replacements() {
    let r = build_das_replacements(&vm(), 2, 64, 32, 8);
    assert_eq!(value(&r, "__NRPIS__"), "16");
    assert_eq!(value(&r, "__BATCH_SIZE__"), "2");
    assert_eq!(value(&r, "__CODEWORD_LEN__"), "64");
    assert_eq!(value(&r, "__DIM__"), "5");
    assert_eq!(value(&r, "__DIGEST_LEN__"), "8");
    assert_eq!(value(&r, "__EPL__"), "32");
    assert_eq!(value(&r, "__NUM_LEAVES__"), "2");
    assert_eq!(value(&r, "__TREE_HEIGHT__"), "1");
    assert_eq!(value(&r, "__NUM_FOLD_ROUNDS__"), "3");
    assert_eq!(value(&r, "__N_CHUNKS__"), "4");
    // One half modulo 2^31 - 2^24 + 1.
    assert_eq!(value(&r, "__HALF__"), "1065353217");
    let inv = F::two_adic_generator(6).inverse();
    let powers: Vec<usize> =
        (0..3).map(|r| inv.exp_u64(1 << r).as_canonical_u32() as usize).collect();
    assert_eq!(value(&r, "__OMEGA_INV_ROUNDS__"), bracket_numbers(&powers));
    assert_eq!(r.entries.len(), 12);
}

#[test]
fn a_single_leaf_has_height_zero() {
    let r = build_das_replacements(&vm(), 1, 16, 16, 1);
    assert_eq!(value(&r, "__NUM_LEAVES__"), "1");
    assert_eq!(value(&r, "__TREE_HEIGHT__"), "0");
    assert_eq!(value(&r, "__NUM_FOLD_ROUNDS__"), "0");
    assert_eq!(value(&r, "__OMEGA_INV_ROUNDS__"), "[]");
}

#[test]
fn spot_checks_reach_the_security_level() {
    assert_eq!(compute_num_spot_checks(32, 16, 128), 128);
    assert_eq!(compute_num_spot_checks(64, 16, 128), 64);
    assert_eq!(compute_num_spot_checks(128, 16, 128), 43);
    assert_eq!(compute_num_spot_checks(128, 16, 0), 0);
}

#[test]
fn spotcheck_circuit_is_compiled_from_its_own_template() {
    let compile = |kind: CircuitKind, r: Replacements| {
        assert!(matches!(kind, CircuitKind::SpotCheck));
        Bytecode { log_size: 5, zero_eval: F::one(), hash: [F::zero(); 8], program: r }
    };
    let bc = compile_spotcheck_circuit(&vm(), &compile, 2, 32, 16, 8, 40);
    assert_eq!(value(&bc.program, "__CODEWORD_LEN__"), "32");
    assert!(bc.program.entries.iter().any(|(_, v)| v == "40"));
}

#[test]
fn rows_are_ordered_by_table_and_not_repeated() {
    assert_eq!(collect_max_rows(&vec![(2, 20), (0, 25), (1, 21)]), vec![25, 21, 20]);
    assert_eq!(collect_max_rows(&vec![(1, 3), (0, 9), (1, 3)]), vec![9, 3]);
    // Entries with the same key and another value stay, in their order.
    assert_eq!(collect_max_rows(&vec![(1, 4), (1, 3), (0, 9)]), vec![9, 4, 3]);
    assert_eq!(collect_max_rows(&vec![]), Vec::<usize>::new());
}

#[test]
fn table_lists() {
    let tables = vec![table(), table()];
    assert_eq!(render_table_list(&tables, TableColumn::LookupIndexes), "[[3, 7], [3, 7]]");
    assert_eq!(
        render_table_list(&tables, TableColumn::LookupValues),
        "[[[4, 5], []], [[4, 5], []]]"
    );
    assert_eq!(render_table_list(&tables, TableColumn::NumColumns), "[20, 20]");
    assert_eq!(render_table_list(&tables, TableColumn::Degree), "[5, 5]");
    assert_eq!(render_table_list(&tables, TableColumn::DownColumns), "[[0, 2], [0, 2]]");
}

#[test]
fn whir_tables() {
    let configs = vec![vec![whir(1, 30)], vec![whir(2, 29), whir(2, 30)]];
    assert_eq!(
        render_whir_table(&configs, WhirColumn::NumQueries),
        "[[[1, 8]], [[2, 8], [2, 8]]]"
    );
    assert_eq!(
        render_whir_table(&configs, WhirColumn::QueryGrinding),
        "[[[30, 6]], [[29, 6], [30, 6]]]"
    );
    assert_eq!(
        render_whir_table(&configs, WhirColumn::NumOods),
        "[[[2, 3]], [[2, 3], [2, 3]]]"
    );
    assert_eq!(
        render_whir_table(&configs, WhirColumn::FoldingGrinding),
        "[[[1, 4]], [[1, 4], [1, 4]]]"
    );
}

#[test]
fn whir_grid_covers_rates_and_sizes() {
    // Up to 24 + 7 - rate variables.
    let configs = whir_configs(&whir, &machine(), 29);
    let sizes: Vec<Vec<usize>> = configs
        .iter()
        .map(|row| row.iter().map(|w| w.rounds[0].query_pow_bits).collect())
        .collect();
    assert_eq!(sizes, vec![vec![29, 30], vec![29]]);
    assert_eq!(configs[1][0].rounds[0].num_queries, 2);
}

fn sized(log_size: usize, zero_eval: F, program: Replacements) -> Bytecode<Replacements> {
    Bytecode { log_size, zero_eval, hash: [F::zero(); 8], program }
}

#[test]
fn compile_steps() {
    let bc = sized(18, F::one(), Replacements::new());
    assert!(matches!(next_compile_step(&bc, 18, F::one()), CompileStep::Done));
    assert!(matches!(next_compile_step(&bc, 17, F::one()), CompileStep::Again(18)));
    assert!(matches!(next_compile_step(&bc, 18, F::two()), CompileStep::WrongZeroEval));
}

#[test]
fn unified_circuit_is_compiled_for_its_own_size() {
    let compile = |kind: CircuitKind, r: Replacements| {
        assert!(matches!(kind, CircuitKind::Unified));
        sized(19, F::one(), r)
    };
    let min_stacked = |log_size: usize| log_size + 3;
    let bc = compile_unified_das_circuit(
        &vm(), &machine(), &compile, &whir, &min_stacked, 1, 32, 16, 16, 5,
    );
    let bc = bc.unwrap();
    assert_eq!(bc.log_size, 19);
    assert_eq!(value(&bc.program, "LOG_GUEST_BYTECODE_LEN_PLACEHOLDER"), "19");
    assert_eq!(value(&bc.program, "MIN_STACKED_N_VARS_PLACEHOLDER"), "22");
    // 19 + 4 variables make a claim of 120 elements.
    assert_eq!(value(&bc.program, "PUB_INPUT_SIZE_PLACEHOLDER"), "136");
    assert_eq!(value(&bc.program, "INNER_PUBLIC_MEMORY_LOG_SIZE_PLACEHOLDER"), "8");
    assert_eq!(value(&bc.program, "MAX_LOG_N_ROWS_PER_TABLE_PLACEHOLDER"), "[25, 21, 20]");
    assert_eq!(value(&bc.program, "__CODEWORD_LEN__"), "32");
}

#[test]
fn compilation_gives_up() {
    let min_stacked = |log_size: usize| log_size + 3;
    let drifting = |_kind: CircuitKind, r: Replacements| {
        let guess: usize = value(&r, "LOG_GUEST_BYTECODE_LEN_PLACEHOLDER").parse().unwrap();
        sized(guess + 1, F::one(), r)
    };
    let r = compile_unified_das_circuit(
        &vm(), &machine(), &drifting, &whir, &min_stacked, 1, 32, 16, 16, 4,
    );
    assert!(matches!(r, Err(CompileError::NotConverged)));
    let wrong = |_kind: CircuitKind, r: Replacements| sized(18, F::two(), r);
    let r = compile_unified_das_circuit(
        &vm(), &machine(), &wrong, &whir, &min_stacked, 1, 32, 16, 16, 4,
    );
    assert!(matches!(r, Err(CompileError::WrongZeroEval)));
}

#[test]
fn compilation_refuses_a_program_that_is_too_large() {
    let min_stacked = |log_size: usize| log_size + 3;
    let huge = |_kind: CircuitKind, r: Replacements| sized(usize::MAX, F::one(), r);
    let r = compile_unified_das_circuit(
        &vm(), &machine(), &huge, &whir, &min_stacked, 1, 32, 16, 16, 4,
    );
    assert!(matches!(r, Err(CompileError::TooLarge)));
    let r = compile_hybrid_das_circuit(
        &vm(), &machine(), &huge, &whir, &min_stacked, 1, 32, 16, 16, 4,
    );
    assert!(matches!(r, Err(CompileError::TooLarge)));
}

#[test]
fn compilation_goes_on_from_the_size_that_came_out() {
    let min_stacked = |log_size: usize| log_size + 3;
    // From the first guess of 18 over 20 to 23, which stays.
    let settling = |_kind: CircuitKind, r: Replacements| {
        let guess: usize = value(&r, "LOG_GUEST_BYTECODE_LEN_PLACEHOLDER").parse().unwrap();
        let size = match guess {
            18 => 20,
            20 => 23,
            23 => 23,
            other => panic!("no attempt is made for the size {other}"),
        };
        sized(size, F::one(), r)
    };
    let run = |attempts: usize| {
        compile_unified_das_circuit(
            &vm(), &machine(), &settling, &whir, &min_stacked, 1, 32, 16, 16, attempts,
        )
    };
    assert!(matches!(run(0), Err(CompileError::NotConverged)));
    assert!(matches!(run(2), Err(CompileError::NotConverged)));
    assert_eq!(run(3).unwrap().log_size, 23);
    assert_eq!(run(9).unwrap().log_size, 23);
}

#[test]
fn hybrid_circuit_refers_to_the_inner_one() {
    let compile = |kind: CircuitKind, r: Replacements| match kind {
        CircuitKind::Batch => sized(10, F::from_usize(6), r),
        _ => sized(17, F::one(), r),
    };
    let min_stacked = |log_size: usize| log_size + 3;
    let (inner, hybrid) = compile_hybrid_das_circuit(
        &vm(), &machine(), &compile, &whir, &min_stacked, 1, 32, 16, 16, 3,
    )
    .unwrap();
    assert_eq!(inner.log_size, 10);
    assert_eq!(hybrid.log_size, 17);
    assert!(inner.program.get("__BATCH_SIZE__").is_some());
    assert!(hybrid.program.get("__BATCH_SIZE__").is_none());
    assert!(hybrid.program.entries.iter().any(|(_, v)| v == "10"));
}
