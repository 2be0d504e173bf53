use leandas::air::{
    air_eval_in_zk_dsl, generate_all_air_evals_dsl, Expr, Node, Op, TableAir,
};

fn node(op: Op, lhs: Expr, rhs: Expr) -> Node {
    Node { op, lhs, rhs }
}

/// `x0 (x1 - 3)`, `x0 (x1 - 3) + x2` and `-(5 - x2)`, which share a node.
fn table() -> TableAir {
    TableAir {
        index: 1,
        constraints: vec![Expr::Operation(1), Expr::Operation(2), Expr::Operation(4)],
        bus_flag: Expr::Variable(2),
        bus_data: vec![Expr::Operation(1), Expr::Constant(9)],
        graph: vec![
            node(Op::Sub, Expr::Variable(1), Expr::Constant(3)),
            node(Op::Mul, Expr::Variable(0), Expr::Operation(0)),
            node(Op::Add, Expr::Operation(1), Expr::Variable(2)),
            node(Op::Sub, Expr::Constant(5), Expr::Variable(2)),
            node(Op::Neg, Expr::Operation(3), Expr::Operation(3)),
        ],
    }
}

const EXPECTED: &str = "def evaluate_air_constraints_table_1(inner_evals, air_alpha_powers, bus_beta, logup_alphas_eq_poly):

    constraints_buf = Array(DIM * 3)
    aux_0 = sub_extension_base_ret(inner_evals + DIM * 1, 3)
    mul_extension(inner_evals + DIM * 0, aux_0, constraints_buf + 0 * DIM)
    add_ee(constraints_buf + 0 * DIM, inner_evals + DIM * 2, constraints_buf + 1 * DIM)
    aux_1 = sub_base_extension_ret(5, inner_evals + DIM * 2)
    aux_2 = opposite_extension_ret(aux_1)
    copy_5(aux_2, constraints_buf + 2 * DIM)
    buff = Array(DIM * 2)
    copy_5(constraints_buf + 0 * DIM, buff + DIM * 0)
    aux_3 = embed_in_ef(9)
    copy_5(aux_3, buff + DIM * 1)
    bus_res_init = Array(DIM)
    dot_product_ee(buff, logup_alphas_eq_poly, bus_res_init, 2)
    bus_res: Mut = add_extension_ret(mul_base_extension_ret(LOGUP_PRECOMPILE_DOMAINSEP, logup_alphas_eq_poly + 7 * DIM), bus_res_init)
    bus_res = mul_extension_ret(bus_res, bus_beta)
    sum: Mut = add_extension_ret(bus_res, inner_evals + DIM * 2)
    weighted_constraints = Array(DIM)
    dot_product_ee(air_alpha_powers + DIM, constraints_buf, weighted_constraints, 3)
    sum = add_extension_ret(sum, weighted_constraints)
    return sum
";

#[test]
fn table_code() {
    assert_eq!(air_eval_in_zk_dsl(&table(), 5), EXPECTED);
}

#[test]
fn tables_follow_each_other() {
    let all = generate_all_air_evals_dsl(&vec![table(), table()], 5);
    assert_eq!(all, format!("{EXPECTED}{EXPECTED}"));
}

#[test]
fn operations_with_constants() {
    let t = TableAir {
        index: 0,
        constraints: vec![Expr::Operation(0), Expr::Operation(1), Expr::Operation(2)],
        bus_flag: Expr::Operation(3),
        bus_data: vec![],
        graph: vec![
            node(Op::Mul, Expr::Constant(2), Expr::Variable(0)),
            node(Op::Add, Expr::Variable(0), Expr::Constant(4)),
            node(Op::Sub, Expr::Variable(0), Expr::Constant(6)),
            node(Op::Mul, Expr::Constant(8), Expr::Variable(1)),
        ],
    };
    let code = air_eval_in_zk_dsl(&t, 4);
    let body = "
    aux_0 = Array(1)
    aux_0[0] = 2
    dot_product_be(aux_0, inner_evals + DIM * 0, constraints_buf + 0 * DIM)
    aux_1 = Array(1)
    aux_1[0] = 4
    add_be(aux_1, inner_evals + DIM * 0, constraints_buf + 1 * DIM)
    aux_2 = Array(1)
    aux_2[0] = 6
    add_be(aux_2, constraints_buf + 2 * DIM, inner_evals + DIM * 0)
    aux_3 = mul_base_extension_ret(8, inner_evals + DIM * 1)
    buff = Array(DIM * 0)";
    assert!(code.contains(body));
    assert!(code.contains("logup_alphas_eq_poly + 3 * DIM"));
    assert!(code.contains("sum: Mut = add_extension_ret(bus_res, aux_3)"));
}
