//! What the text of the generated code means.
//!
//! The circuit language writes each memory cell once, so a line of a program is an equation
//! on the final memory. Here lines are read as text: what a line says depends on its
//! characters alone. Every memory that the text of a table's function admits holds the values
//! of the table's constraints.

use crate::air::{
    base_call, base_into_name, base_ret_name, call_two, constant, emit, ext_into_name,
    ext_ret_name, fresh, gen, gen_binop, gen_bus, gen_constraints, gen_table, graph_wf, in_graph,
    larger, line, place_text, rank, settle, start, stmt_text, stmts_text, table_text, Expr, Gen,
    Node, Op, Place, Stmt, TableAir,
};
use crate::air_laws::{
    apply, base, column_exists, columns_exist, expr_value, place_value, table_columns_exist,
    Store,
};
use crate::ext::{
    eadd, embed, emul, escale, esub, eswf, ewf, lemma_eadd_assoc, lemma_eadd_comm,
    lemma_eadd_zero, lemma_emul_comm, lemma_esub_is_add, lemma_ewf_ops, Ext,
};
use crate::field::P;
use crate::slices::{flat, lemma_flat_add, lemma_flat_take};
use crate::text::decimal;
use crate::text_laws::{is_digit, lemma_decimal_reads_back, number};
use vstd::prelude::*;

verus! {

// Reading.

/// The position of the first `c`, or the length of the text where there is none.
pub open spec fn find(s: Seq<char>, c: char) -> int
    decreases s.len(),
{
    if s.len() == 0 || s[0] == c {
        0
    } else {
        1 + find(s.drop_first(), c)
    }
}

/// What stands before the first `c`.
pub open spec fn before(s: Seq<char>, c: char) -> Seq<char> {
    s.take(find(s, c))
}

/// What stands behind the first `c`.
pub open spec fn behind(s: Seq<char>, c: char) -> Seq<char> {
    s.skip(find(s, c) + 1)
}

/// The text has no `c`.
pub open spec fn free(s: Seq<char>, c: char) -> bool {
    forall|i: int| 0 <= i < s.len() ==> #[trigger] s[i] != c
}

/// The text has no sign of the grammar and no line break.
pub open spec fn plain(s: Seq<char>) -> bool {
    free(s, '=') && free(s, '(') && free(s, ')') && free(s, ',') && free(s, '[') && free(s, '\n')
}

/// The text starts with `p`.
pub open spec fn starts(s: Seq<char>, p: Seq<char>) -> bool {
    s.len() >= p.len() && s.take(p.len() as int) == p
}

/// The value that an argument stands for: a variable, a column value, a slot of the
/// constraint buffer or one of the bus buffer, each by its number.
pub open spec fn arg_value(s: Store, arg: Seq<char>) -> Ext {
    if starts(arg, "aux_"@) {
        s.aux[number(arg.skip(4))]
    } else if starts(arg, "inner_evals + DIM * "@) {
        s.inner[number(arg.skip(20))]
    } else if starts(arg, "constraints_buf + "@) {
        s.slots[number(before(arg.skip(18), ' '))]
    } else {
        s.bus[number(arg.skip(13))]
    }
}

/// A base field constant as an argument.
pub open spec fn constant_value(arg: Seq<char>) -> Ext {
    embed(number(arg) % P as int)
}

/// The argument before the first comma.
pub open spec fn first_arg(body: Seq<char>) -> Seq<char> {
    before(body, ',')
}

/// The arguments behind the first comma and a space.
pub open spec fn other_args(body: Seq<char>) -> Seq<char> {
    behind(body, ',').skip(1)
}

/// The value that a call returns.
pub open spec fn call_value(s: Store, name: Seq<char>, body: Seq<char>) -> Ext {
    let (a, b) = (first_arg(body), other_args(body));
    if name == "embed_in_ef"@ {
        constant_value(body)
    } else if name == "opposite_extension_ret"@ {
        esub(embed(0), arg_value(s, body))
    } else if name == "add_extension_ret"@ {
        eadd(arg_value(s, a), arg_value(s, b))
    } else if name == "sub_extension_ret"@ {
        esub(arg_value(s, a), arg_value(s, b))
    } else if name == "mul_extension_ret"@ {
        emul(arg_value(s, a), arg_value(s, b))
    } else if name == "add_base_extension_ret"@ {
        eadd(constant_value(a), arg_value(s, b))
    } else if name == "mul_base_extension_ret"@ {
        emul(constant_value(a), arg_value(s, b))
    } else if name == "sub_base_extension_ret"@ {
        esub(constant_value(a), arg_value(s, b))
    } else if name == "sub_extension_base_ret"@ {
        esub(arg_value(s, a), constant_value(b))
    } else {
        arbitrary()
    }
}

/// The equation between the arguments of a call that returns nothing.
pub open spec fn call_holds(s: Store, name: Seq<char>, body: Seq<char>) -> bool {
    let (a, b) = (first_arg(body), other_args(body));
    let (c, d) = (first_arg(b), other_args(b));
    if name == "copy_5"@ {
        arg_value(s, b) == arg_value(s, a)
    } else if name == "add_ee"@ {
        arg_value(s, d) == eadd(arg_value(s, a), arg_value(s, c))
    } else if name == "sub_extension"@ {
        arg_value(s, d) == esub(arg_value(s, a), arg_value(s, c))
    } else if name == "mul_extension"@ {
        arg_value(s, d) == emul(arg_value(s, a), arg_value(s, c))
    } else if name == "dot_product_be"@ {
        arg_value(s, d) == emul(arg_value(s, a), arg_value(s, c))
    } else if name == "add_be"@ {
        arg_value(s, d) == eadd(arg_value(s, a), arg_value(s, c))
    } else {
        true
    }
}

/// The equation that a line of code states: a variable set to what a call returns, the one
/// cell of a variable set to a constant, or a call that returns nothing. Allocations and
/// lines that set no variable state none.
pub open spec fn line_holds(s: Store, text: Seq<char>) -> bool {
    if find(text, '=') < text.len() {
        let target = before(text, '=');
        let source = behind(text, '=').skip(1);
        if !starts(target, "aux_"@) {
            true
        } else if find(source, '(') < source.len() {
            let name = before(source, '(');
            let k = number(target.subrange(4, target.len() - 1));
            name == "Array"@ || s.aux[k] == call_value(s, name, behind(source, '(').drop_last())
        } else {
            s.aux[number(before(target, '[').skip(4))] == constant_value(source)
        }
    } else {
        call_holds(s, before(text, '('), behind(text, '(').drop_last())
    }
}

/// The lines of a text.
pub open spec fn lines(s: Seq<char>) -> Seq<Seq<char>>
    decreases s.len(),
{
    if s.len() == 0 {
        seq![Seq::empty()]
    } else {
        let f = lines(s.drop_last());
        if s.last() == '\n' {
            f.push(Seq::empty())
        } else {
            f.drop_last().push(f.last().push(s.last()))
        }
    }
}

/// Every indented line of a text states an equation that holds in the memory.
pub open spec fn text_holds(s: Store, text: Seq<char>) -> bool {
    forall|i: int|
        0 <= i < lines(text).len() && starts(#[trigger] lines(text)[i], "    "@) ==> line_holds(
            s,
            lines(text)[i].skip(4),
        )
}

// Literals.

pub proof fn lemma_lit_line()
    ensures
        "\n    "@ == seq!['\n', ' ', ' ', ' ', ' '],
{
    reveal_strlit("\n    ");
    let s = "\n    "@;
    assert(s[0] == '\n');
    assert(s[1] == ' ');
    assert(s[2] == ' ');
    assert(s[3] == ' ');
    assert(s[4] == ' ');
    assert(s =~= seq!['\n', ' ', ' ', ' ', ' ']);
}

pub proof fn lemma_lit_aux()
    ensures
        "aux_"@ == seq!['a', 'u', 'x', '_'],
{
    reveal_strlit("aux_");
    let s = "aux_"@;
    assert(s[0] == 'a');
    assert(s[1] == 'u');
    assert(s[2] == 'x');
    assert(s[3] == '_');
    assert(s =~= seq!['a', 'u', 'x', '_']);
}

pub proof fn lemma_lit_inner()
    ensures
        "inner_evals + DIM * "@ == seq!['i', 'n', 'n', 'e', 'r', '_', 'e', 'v', 'a', 'l', 's', ' ', '+', ' ', 'D', 'I', 'M', ' ', '*', ' '],
{
    reveal_strlit("inner_evals + DIM * ");
    let s = "inner_evals + DIM * "@;
    assert(s[0] == 'i');
    assert(s[1] == 'n');
    assert(s[2] == 'n');
    assert(s[3] == 'e');
    assert(s[4] == 'r');
    assert(s[5] == '_');
    assert(s[6] == 'e');
    assert(s[7] == 'v');
    assert(s[8] == 'a');
    assert(s[9] == 'l');
    assert(s[10] == 's');
    assert(s[11] == ' ');
    assert(s[12] == '+');
    assert(s[13] == ' ');
    assert(s[14] == 'D');
    assert(s[15] == 'I');
    assert(s[16] == 'M');
    assert(s[17] == ' ');
    assert(s[18] == '*');
    assert(s[19] == ' ');
    assert(s =~= seq!['i', 'n', 'n', 'e', 'r', '_', 'e', 'v', 'a', 'l', 's', ' ', '+', ' ', 'D', 'I', 'M', ' ', '*', ' ']);
}

pub proof fn lemma_lit_slot()
    ensures
        "constraints_buf + "@ == seq!['c', 'o', 'n', 's', 't', 'r', 'a', 'i', 'n', 't', 's', '_', 'b', 'u', 'f', ' ', '+', ' '],
{
    reveal_strlit("constraints_buf + ");
    let s = "constraints_buf + "@;
    assert(s[0] == 'c');
    assert(s[1] == 'o');
    assert(s[2] == 'n');
    assert(s[3] == 's');
    assert(s[4] == 't');
    assert(s[5] == 'r');
    assert(s[6] == 'a');
    assert(s[7] == 'i');
    assert(s[8] == 'n');
    assert(s[9] == 't');
    assert(s[10] == 's');
    assert(s[11] == '_');
    assert(s[12] == 'b');
    assert(s[13] == 'u');
    assert(s[14] == 'f');
    assert(s[15] == ' ');
    assert(s[16] == '+');
    assert(s[17] == ' ');
    assert(s =~= seq!['c', 'o', 'n', 's', 't', 'r', 'a', 'i', 'n', 't', 's', '_', 'b', 'u', 'f', ' ', '+', ' ']);
}

pub proof fn lemma_lit_dim()
    ensures
        " * DIM"@ == seq![' ', '*', ' ', 'D', 'I', 'M'],
{
    reveal_strlit(" * DIM");
    let s = " * DIM"@;
    assert(s[0] == ' ');
    assert(s[1] == '*');
    assert(s[2] == ' ');
    assert(s[3] == 'D');
    assert(s[4] == 'I');
    assert(s[5] == 'M');
    assert(s =~= seq![' ', '*', ' ', 'D', 'I', 'M']);
}

pub proof fn lemma_lit_embed()
    ensures
        " = embed_in_ef("@ == seq![' ', '=', ' ', 'e', 'm', 'b', 'e', 'd', '_', 'i', 'n', '_', 'e', 'f', '('],
{
    reveal_strlit(" = embed_in_ef(");
    let s = " = embed_in_ef("@;
    assert(s[0] == ' ');
    assert(s[1] == '=');
    assert(s[2] == ' ');
    assert(s[3] == 'e');
    assert(s[4] == 'm');
    assert(s[5] == 'b');
    assert(s[6] == 'e');
    assert(s[7] == 'd');
    assert(s[8] == '_');
    assert(s[9] == 'i');
    assert(s[10] == 'n');
    assert(s[11] == '_');
    assert(s[12] == 'e');
    assert(s[13] == 'f');
    assert(s[14] == '(');
    assert(s =~= seq![' ', '=', ' ', 'e', 'm', 'b', 'e', 'd', '_', 'i', 'n', '_', 'e', 'f', '(']);
}

pub proof fn lemma_lit_close()
    ensures
        ")"@ == seq![')'],
{
    reveal_strlit(")");
    let s = ")"@;
    assert(s[0] == ')');
    assert(s =~= seq![')']);
}

pub proof fn lemma_lit_copy()
    ensures
        "copy_5("@ == seq!['c', 'o', 'p', 'y', '_', '5', '('],
{
    reveal_strlit("copy_5(");
    let s = "copy_5("@;
    assert(s[0] == 'c');
    assert(s[1] == 'o');
    assert(s[2] == 'p');
    assert(s[3] == 'y');
    assert(s[4] == '_');
    assert(s[5] == '5');
    assert(s[6] == '(');
    assert(s =~= seq!['c', 'o', 'p', 'y', '_', '5', '(']);
}

pub proof fn lemma_lit_comma()
    ensures
        ", "@ == seq![',', ' '],
{
    reveal_strlit(", ");
    let s = ", "@;
    assert(s[0] == ',');
    assert(s[1] == ' ');
    assert(s =~= seq![',', ' ']);
}

pub proof fn lemma_lit_opp()
    ensures
        " = opposite_extension_ret("@ == seq![' ', '=', ' ', 'o', 'p', 'p', 'o', 's', 'i', 't', 'e', '_', 'e', 'x', 't', 'e', 'n', 's', 'i', 'o', 'n', '_', 'r', 'e', 't', '('],
{
    reveal_strlit(" = opposite_extension_ret(");
    let s = " = opposite_extension_ret("@;
    assert(s[0] == ' ');
    assert(s[1] == '=');
    assert(s[2] == ' ');
    assert(s[3] == 'o');
    assert(s[4] == 'p');
    assert(s[5] == 'p');
    assert(s[6] == 'o');
    assert(s[7] == 's');
    assert(s[8] == 'i');
    assert(s[9] == 't');
    assert(s[10] == 'e');
    assert(s[11] == '_');
    assert(s[12] == 'e');
    assert(s[13] == 'x');
    assert(s[14] == 't');
    assert(s[15] == 'e');
    assert(s[16] == 'n');
    assert(s[17] == 's');
    assert(s[18] == 'i');
    assert(s[19] == 'o');
    assert(s[20] == 'n');
    assert(s[21] == '_');
    assert(s[22] == 'r');
    assert(s[23] == 'e');
    assert(s[24] == 't');
    assert(s[25] == '(');
    assert(s =~= seq![' ', '=', ' ', 'o', 'p', 'p', 'o', 's', 'i', 't', 'e', '_', 'e', 'x', 't', 'e', 'n', 's', 'i', 'o', 'n', '_', 'r', 'e', 't', '(']);
}

pub proof fn lemma_lit_open()
    ensures
        "("@ == seq!['('],
{
    reveal_strlit("(");
    let s = "("@;
    assert(s[0] == '(');
    assert(s =~= seq!['(']);
}

pub proof fn lemma_lit_assign()
    ensures
        " = "@ == seq![' ', '=', ' '],
{
    reveal_strlit(" = ");
    let s = " = "@;
    assert(s[0] == ' ');
    assert(s[1] == '=');
    assert(s[2] == ' ');
    assert(s =~= seq![' ', '=', ' ']);
}

pub proof fn lemma_lit_array()
    ensures
        " = Array(1)"@ == seq![' ', '=', ' ', 'A', 'r', 'r', 'a', 'y', '(', '1', ')'],
{
    reveal_strlit(" = Array(1)");
    let s = " = Array(1)"@;
    assert(s[0] == ' ');
    assert(s[1] == '=');
    assert(s[2] == ' ');
    assert(s[3] == 'A');
    assert(s[4] == 'r');
    assert(s[5] == 'r');
    assert(s[6] == 'a');
    assert(s[7] == 'y');
    assert(s[8] == '(');
    assert(s[9] == '1');
    assert(s[10] == ')');
    assert(s =~= seq![' ', '=', ' ', 'A', 'r', 'r', 'a', 'y', '(', '1', ')']);
}

pub proof fn lemma_lit_zero()
    ensures
        "[0] = "@ == seq!['[', '0', ']', ' ', '=', ' '],
{
    reveal_strlit("[0] = ");
    let s = "[0] = "@;
    assert(s[0] == '[');
    assert(s[1] == '0');
    assert(s[2] == ']');
    assert(s[3] == ' ');
    assert(s[4] == '=');
    assert(s[5] == ' ');
    assert(s =~= seq!['[', '0', ']', ' ', '=', ' ']);
}

pub proof fn lemma_lit_buffer()
    ensures
        "buff + DIM * "@ == seq!['b', 'u', 'f', 'f', ' ', '+', ' ', 'D', 'I', 'M', ' ', '*', ' '],
{
    reveal_strlit("buff + DIM * ");
    let s = "buff + DIM * "@;
    assert(s[0] == 'b');
    assert(s[1] == 'u');
    assert(s[2] == 'f');
    assert(s[3] == 'f');
    assert(s[4] == ' ');
    assert(s[5] == '+');
    assert(s[6] == ' ');
    assert(s[7] == 'D');
    assert(s[8] == 'I');
    assert(s[9] == 'M');
    assert(s[10] == ' ');
    assert(s[11] == '*');
    assert(s[12] == ' ');
    assert(s =~= seq!['b', 'u', 'f', 'f', ' ', '+', ' ', 'D', 'I', 'M', ' ', '*', ' ']);
}

pub proof fn lemma_lit_bus()
    ensures
        ", buff + DIM * "@ == seq![',', ' ', 'b', 'u', 'f', 'f', ' ', '+', ' ', 'D', 'I', 'M', ' ', '*', ' '],
{
    reveal_strlit(", buff + DIM * ");
    let s = ", buff + DIM * "@;
    assert(s[0] == ',');
    assert(s[1] == ' ');
    assert(s[2] == 'b');
    assert(s[3] == 'u');
    assert(s[4] == 'f');
    assert(s[5] == 'f');
    assert(s[6] == ' ');
    assert(s[7] == '+');
    assert(s[8] == ' ');
    assert(s[9] == 'D');
    assert(s[10] == 'I');
    assert(s[11] == 'M');
    assert(s[12] == ' ');
    assert(s[13] == '*');
    assert(s[14] == ' ');
    assert(s =~= seq![',', ' ', 'b', 'u', 'f', 'f', ' ', '+', ' ', 'D', 'I', 'M', ' ', '*', ' ']);
}

/// The names of the language are different words without a sign of the grammar.
pub proof fn lemma_names()
    ensures
        plain("embed_in_ef"@),
        plain("opposite_extension_ret"@),
        plain("add_extension_ret"@),
        plain("sub_extension_ret"@),
        plain("mul_extension_ret"@),
        plain("add_base_extension_ret"@),
        plain("mul_base_extension_ret"@),
        plain("sub_base_extension_ret"@),
        plain("sub_extension_base_ret"@),
        plain("copy_5"@),
        plain("add_ee"@),
        plain("sub_extension"@),
        plain("mul_extension"@),
        plain("dot_product_be"@),
        plain("add_be"@),
        plain("Array"@),
        "embed_in_ef"@ != "opposite_extension_ret"@,
        "embed_in_ef"@ != "add_extension_ret"@,
        "embed_in_ef"@ != "sub_extension_ret"@,
        "embed_in_ef"@ != "mul_extension_ret"@,
        "embed_in_ef"@ != "add_base_extension_ret"@,
        "embed_in_ef"@ != "mul_base_extension_ret"@,
        "embed_in_ef"@ != "sub_base_extension_ret"@,
        "embed_in_ef"@ != "sub_extension_base_ret"@,
        "embed_in_ef"@ != "copy_5"@,
        "embed_in_ef"@ != "add_ee"@,
        "embed_in_ef"@ != "sub_extension"@,
        "embed_in_ef"@ != "mul_extension"@,
        "embed_in_ef"@ != "dot_product_be"@,
        "embed_in_ef"@ != "add_be"@,
        "embed_in_ef"@ != "Array"@,
        "opposite_extension_ret"@ != "add_extension_ret"@,
        "opposite_extension_ret"@ != "sub_extension_ret"@,
        "opposite_extension_ret"@ != "mul_extension_ret"@,
        "opposite_extension_ret"@ != "add_base_extension_ret"@,
        "opposite_extension_ret"@ != "mul_base_extension_ret"@,
        "opposite_extension_ret"@ != "sub_base_extension_ret"@,
        "opposite_extension_ret"@ != "sub_extension_base_ret"@,
        "opposite_extension_ret"@ != "copy_5"@,
        "opposite_extension_ret"@ != "add_ee"@,
        "opposite_extension_ret"@ != "sub_extension"@,
        "opposite_extension_ret"@ != "mul_extension"@,
        "opposite_extension_ret"@ != "dot_product_be"@,
        "opposite_extension_ret"@ != "add_be"@,
        "opposite_extension_ret"@ != "Array"@,
        "add_extension_ret"@ != "sub_extension_ret"@,
        "add_extension_ret"@ != "mul_extension_ret"@,
        "add_extension_ret"@ != "add_base_extension_ret"@,
        "add_extension_ret"@ != "mul_base_extension_ret"@,
        "add_extension_ret"@ != "sub_base_extension_ret"@,
        "add_extension_ret"@ != "sub_extension_base_ret"@,
        "add_extension_ret"@ != "copy_5"@,
        "add_extension_ret"@ != "add_ee"@,
        "add_extension_ret"@ != "sub_extension"@,
        "add_extension_ret"@ != "mul_extension"@,
        "add_extension_ret"@ != "dot_product_be"@,
        "add_extension_ret"@ != "add_be"@,
        "add_extension_ret"@ != "Array"@,
        "sub_extension_ret"@ != "mul_extension_ret"@,
        "sub_extension_ret"@ != "add_base_extension_ret"@,
        "sub_extension_ret"@ != "mul_base_extension_ret"@,
        "sub_extension_ret"@ != "sub_base_extension_ret"@,
        "sub_extension_ret"@ != "sub_extension_base_ret"@,
        "sub_extension_ret"@ != "copy_5"@,
        "sub_extension_ret"@ != "add_ee"@,
        "sub_extension_ret"@ != "sub_extension"@,
        "sub_extension_ret"@ != "mul_extension"@,
        "sub_extension_ret"@ != "dot_product_be"@,
        "sub_extension_ret"@ != "add_be"@,
        "sub_extension_ret"@ != "Array"@,
        "mul_extension_ret"@ != "add_base_extension_ret"@,
        "mul_extension_ret"@ != "mul_base_extension_ret"@,
        "mul_extension_ret"@ != "sub_base_extension_ret"@,
        "mul_extension_ret"@ != "sub_extension_base_ret"@,
        "mul_extension_ret"@ != "copy_5"@,
        "mul_extension_ret"@ != "add_ee"@,
        "mul_extension_ret"@ != "sub_extension"@,
        "mul_extension_ret"@ != "mul_extension"@,
        "mul_extension_ret"@ != "dot_product_be"@,
        "mul_extension_ret"@ != "add_be"@,
        "mul_extension_ret"@ != "Array"@,
        "add_base_extension_ret"@ != "mul_base_extension_ret"@,
        "add_base_extension_ret"@ != "sub_base_extension_ret"@,
        "add_base_extension_ret"@ != "sub_extension_base_ret"@,
        "add_base_extension_ret"@ != "copy_5"@,
        "add_base_extension_ret"@ != "add_ee"@,
        "add_base_extension_ret"@ != "sub_extension"@,
        "add_base_extension_ret"@ != "mul_extension"@,
        "add_base_extension_ret"@ != "dot_product_be"@,
        "add_base_extension_ret"@ != "add_be"@,
        "add_base_extension_ret"@ != "Array"@,
        "mul_base_extension_ret"@ != "sub_base_extension_ret"@,
        "mul_base_extension_ret"@ != "sub_extension_base_ret"@,
        "mul_base_extension_ret"@ != "copy_5"@,
        "mul_base_extension_ret"@ != "add_ee"@,
        "mul_base_extension_ret"@ != "sub_extension"@,
        "mul_base_extension_ret"@ != "mul_extension"@,
        "mul_base_extension_ret"@ != "dot_product_be"@,
        "mul_base_extension_ret"@ != "add_be"@,
        "mul_base_extension_ret"@ != "Array"@,
        "sub_base_extension_ret"@ != "sub_extension_base_ret"@,
        "sub_base_extension_ret"@ != "copy_5"@,
        "sub_base_extension_ret"@ != "add_ee"@,
        "sub_base_extension_ret"@ != "sub_extension"@,
        "sub_base_extension_ret"@ != "mul_extension"@,
        "sub_base_extension_ret"@ != "dot_product_be"@,
        "sub_base_extension_ret"@ != "add_be"@,
        "sub_base_extension_ret"@ != "Array"@,
        "sub_extension_base_ret"@ != "copy_5"@,
        "sub_extension_base_ret"@ != "add_ee"@,
        "sub_extension_base_ret"@ != "sub_extension"@,
        "sub_extension_base_ret"@ != "mul_extension"@,
        "sub_extension_base_ret"@ != "dot_product_be"@,
        "sub_extension_base_ret"@ != "add_be"@,
        "sub_extension_base_ret"@ != "Array"@,
        "copy_5"@ != "add_ee"@,
        "copy_5"@ != "sub_extension"@,
        "copy_5"@ != "mul_extension"@,
        "copy_5"@ != "dot_product_be"@,
        "copy_5"@ != "add_be"@,
        "copy_5"@ != "Array"@,
        "add_ee"@ != "sub_extension"@,
        "add_ee"@ != "mul_extension"@,
        "add_ee"@ != "dot_product_be"@,
        "add_ee"@ != "add_be"@,
        "add_ee"@ != "Array"@,
        "sub_extension"@ != "mul_extension"@,
        "sub_extension"@ != "dot_product_be"@,
        "sub_extension"@ != "add_be"@,
        "sub_extension"@ != "Array"@,
        "mul_extension"@ != "dot_product_be"@,
        "mul_extension"@ != "add_be"@,
        "mul_extension"@ != "Array"@,
        "dot_product_be"@ != "add_be"@,
        "dot_product_be"@ != "Array"@,
        "add_be"@ != "Array"@,
{
    lemma_name_embed_in_ef();
    lemma_name_opposite_extension_ret();
    lemma_name_add_extension_ret();
    lemma_name_sub_extension_ret();
    lemma_name_mul_extension_ret();
    lemma_name_add_base_extension_ret();
    lemma_name_mul_base_extension_ret();
    lemma_name_sub_base_extension_ret();
    lemma_name_sub_extension_base_ret();
    lemma_name_copy_5();
    lemma_name_add_ee();
    lemma_name_sub_extension();
    lemma_name_mul_extension();
    lemma_name_dot_product_be();
    lemma_name_add_be();
    lemma_name_Array();
    reveal_strlit("embed_in_ef");
    reveal_strlit("opposite_extension_ret");
    reveal_strlit("add_extension_ret");
    reveal_strlit("sub_extension_ret");
    reveal_strlit("mul_extension_ret");
    reveal_strlit("add_base_extension_ret");
    reveal_strlit("mul_base_extension_ret");
    reveal_strlit("sub_base_extension_ret");
    reveal_strlit("sub_extension_base_ret");
    reveal_strlit("copy_5");
    reveal_strlit("add_ee");
    reveal_strlit("sub_extension");
    reveal_strlit("mul_extension");
    reveal_strlit("dot_product_be");
    reveal_strlit("add_be");
    reveal_strlit("Array");
    assert("embed_in_ef"@.len() == 11);
    assert("opposite_extension_ret"@.len() == 22);
    assert("opposite_extension_ret"@[0] == 'o');
    assert("opposite_extension_ret"@[4] == 's');
    assert("add_extension_ret"@.len() == 17);
    assert("add_extension_ret"@[0] == 'a');
    assert("sub_extension_ret"@.len() == 17);
    assert("sub_extension_ret"@[0] == 's');
    assert("mul_extension_ret"@.len() == 17);
    assert("mul_extension_ret"@[0] == 'm');
    assert("add_base_extension_ret"@.len() == 22);
    assert("add_base_extension_ret"@[0] == 'a');
    assert("add_base_extension_ret"@[4] == 'b');
    assert("mul_base_extension_ret"@.len() == 22);
    assert("mul_base_extension_ret"@[0] == 'm');
    assert("mul_base_extension_ret"@[4] == 'b');
    assert("sub_base_extension_ret"@.len() == 22);
    assert("sub_base_extension_ret"@[0] == 's');
    assert("sub_base_extension_ret"@[4] == 'b');
    assert("sub_extension_base_ret"@.len() == 22);
    assert("sub_extension_base_ret"@[0] == 's');
    assert("sub_extension_base_ret"@[4] == 'e');
    assert("copy_5"@.len() == 6);
    assert("copy_5"@[4] == '_');
    assert("add_ee"@.len() == 6);
    assert("add_ee"@[4] == 'e');
    assert("sub_extension"@.len() == 13);
    assert("sub_extension"@[0] == 's');
    assert("mul_extension"@.len() == 13);
    assert("mul_extension"@[0] == 'm');
    assert("dot_product_be"@.len() == 14);
    assert("add_be"@.len() == 6);
    assert("add_be"@[4] == 'b');
    assert("Array"@.len() == 5);
}

proof fn lemma_name_embed_in_ef()
    ensures
        plain("embed_in_ef"@),
{
    reveal_strlit("embed_in_ef");
    let s = "embed_in_ef"@;
    assert(s[0] == 'e');
    assert(s[1] == 'm');
    assert(s[2] == 'b');
    assert(s[3] == 'e');
    assert(s[4] == 'd');
    assert(s[5] == '_');
    assert(s[6] == 'i');
    assert(s[7] == 'n');
    assert(s[8] == '_');
    assert(s[9] == 'e');
    assert(s[10] == 'f');
}

proof fn lemma_name_opposite_extension_ret()
    ensures
        plain("opposite_extension_ret"@),
{
    reveal_strlit("opposite_extension_ret");
    let s = "opposite_extension_ret"@;
    assert(s[0] == 'o');
    assert(s[1] == 'p');
    assert(s[2] == 'p');
    assert(s[3] == 'o');
    assert(s[4] == 's');
    assert(s[5] == 'i');
    assert(s[6] == 't');
    assert(s[7] == 'e');
    assert(s[8] == '_');
    assert(s[9] == 'e');
    assert(s[10] == 'x');
    assert(s[11] == 't');
    assert(s[12] == 'e');
    assert(s[13] == 'n');
    assert(s[14] == 's');
    assert(s[15] == 'i');
    assert(s[16] == 'o');
    assert(s[17] == 'n');
    assert(s[18] == '_');
    assert(s[19] == 'r');
    assert(s[20] == 'e');
    assert(s[21] == 't');
}

proof fn lemma_name_add_extension_ret()
    ensures
        plain("add_extension_ret"@),
{
    reveal_strlit("add_extension_ret");
    let s = "add_extension_ret"@;
    assert(s[0] == 'a');
    assert(s[1] == 'd');
    assert(s[2] == 'd');
    assert(s[3] == '_');
    assert(s[4] == 'e');
    assert(s[5] == 'x');
    assert(s[6] == 't');
    assert(s[7] == 'e');
    assert(s[8] == 'n');
    assert(s[9] == 's');
    assert(s[10] == 'i');
    assert(s[11] == 'o');
    assert(s[12] == 'n');
    assert(s[13] == '_');
    assert(s[14] == 'r');
    assert(s[15] == 'e');
    assert(s[16] == 't');
}

proof fn lemma_name_sub_extension_ret()
    ensures
        plain("sub_extension_ret"@),
{
    reveal_strlit("sub_extension_ret");
    let s = "sub_extension_ret"@;
    assert(s[0] == 's');
    assert(s[1] == 'u');
    assert(s[2] == 'b');
    assert(s[3] == '_');
    assert(s[4] == 'e');
    assert(s[5] == 'x');
    assert(s[6] == 't');
    assert(s[7] == 'e');
    assert(s[8] == 'n');
    assert(s[9] == 's');
    assert(s[10] == 'i');
    assert(s[11] == 'o');
    assert(s[12] == 'n');
    assert(s[13] == '_');
    assert(s[14] == 'r');
    assert(s[15] == 'e');
    assert(s[16] == 't');
}

proof fn lemma_name_mul_extension_ret()
    ensures
        plain("mul_extension_ret"@),
{
    reveal_strlit("mul_extension_ret");
    let s = "mul_extension_ret"@;
    assert(s[0] == 'm');
    assert(s[1] == 'u');
    assert(s[2] == 'l');
    assert(s[3] == '_');
    assert(s[4] == 'e');
    assert(s[5] == 'x');
    assert(s[6] == 't');
    assert(s[7] == 'e');
    assert(s[8] == 'n');
    assert(s[9] == 's');
    assert(s[10] == 'i');
    assert(s[11] == 'o');
    assert(s[12] == 'n');
    assert(s[13] == '_');
    assert(s[14] == 'r');
    assert(s[15] == 'e');
    assert(s[16] == 't');
}

proof fn lemma_name_add_base_extension_ret()
    ensures
        plain("add_base_extension_ret"@),
{
    reveal_strlit("add_base_extension_ret");
    let s = "add_base_extension_ret"@;
    assert(s[0] == 'a');
    assert(s[1] == 'd');
    assert(s[2] == 'd');
    assert(s[3] == '_');
    assert(s[4] == 'b');
    assert(s[5] == 'a');
    assert(s[6] == 's');
    assert(s[7] == 'e');
    assert(s[8] == '_');
    assert(s[9] == 'e');
    assert(s[10] == 'x');
    assert(s[11] == 't');
    assert(s[12] == 'e');
    assert(s[13] == 'n');
    assert(s[14] == 's');
    assert(s[15] == 'i');
    assert(s[16] == 'o');
    assert(s[17] == 'n');
    assert(s[18] == '_');
    assert(s[19] == 'r');
    assert(s[20] == 'e');
    assert(s[21] == 't');
}

proof fn lemma_name_mul_base_extension_ret()
    ensures
        plain("mul_base_extension_ret"@),
{
    reveal_strlit("mul_base_extension_ret");
    let s = "mul_base_extension_ret"@;
    assert(s[0] == 'm');
    assert(s[1] == 'u');
    assert(s[2] == 'l');
    assert(s[3] == '_');
    assert(s[4] == 'b');
    assert(s[5] == 'a');
    assert(s[6] == 's');
    assert(s[7] == 'e');
    assert(s[8] == '_');
    assert(s[9] == 'e');
    assert(s[10] == 'x');
    assert(s[11] == 't');
    assert(s[12] == 'e');
    assert(s[13] == 'n');
    assert(s[14] == 's');
    assert(s[15] == 'i');
    assert(s[16] == 'o');
    assert(s[17] == 'n');
    assert(s[18] == '_');
    assert(s[19] == 'r');
    assert(s[20] == 'e');
    assert(s[21] == 't');
}

proof fn lemma_name_sub_base_extension_ret()
    ensures
        plain("sub_base_extension_ret"@),
{
    reveal_strlit("sub_base_extension_ret");
    let s = "sub_base_extension_ret"@;
    assert(s[0] == 's');
    assert(s[1] == 'u');
    assert(s[2] == 'b');
    assert(s[3] == '_');
    assert(s[4] == 'b');
    assert(s[5] == 'a');
    assert(s[6] == 's');
    assert(s[7] == 'e');
    assert(s[8] == '_');
    assert(s[9] == 'e');
    assert(s[10] == 'x');
    assert(s[11] == 't');
    assert(s[12] == 'e');
    assert(s[13] == 'n');
    assert(s[14] == 's');
    assert(s[15] == 'i');
    assert(s[16] == 'o');
    assert(s[17] == 'n');
    assert(s[18] == '_');
    assert(s[19] == 'r');
    assert(s[20] == 'e');
    assert(s[21] == 't');
}

proof fn lemma_name_sub_extension_base_ret()
    ensures
        plain("sub_extension_base_ret"@),
{
    reveal_strlit("sub_extension_base_ret");
    let s = "sub_extension_base_ret"@;
    assert(s[0] == 's');
    assert(s[1] == 'u');
    assert(s[2] == 'b');
    assert(s[3] == '_');
    assert(s[4] == 'e');
    assert(s[5] == 'x');
    assert(s[6] == 't');
    assert(s[7] == 'e');
    assert(s[8] == 'n');
    assert(s[9] == 's');
    assert(s[10] == 'i');
    assert(s[11] == 'o');
    assert(s[12] == 'n');
    assert(s[13] == '_');
    assert(s[14] == 'b');
    assert(s[15] == 'a');
    assert(s[16] == 's');
    assert(s[17] == 'e');
    assert(s[18] == '_');
    assert(s[19] == 'r');
    assert(s[20] == 'e');
    assert(s[21] == 't');
}

proof fn lemma_name_copy_5()
    ensures
        plain("copy_5"@),
{
    reveal_strlit("copy_5");
    let s = "copy_5"@;
    assert(s[0] == 'c');
    assert(s[1] == 'o');
    assert(s[2] == 'p');
    assert(s[3] == 'y');
    assert(s[4] == '_');
    assert(s[5] == '5');
}

proof fn lemma_name_add_ee()
    ensures
        plain("add_ee"@),
{
    reveal_strlit("add_ee");
    let s = "add_ee"@;
    assert(s[0] == 'a');
    assert(s[1] == 'd');
    assert(s[2] == 'd');
    assert(s[3] == '_');
    assert(s[4] == 'e');
    assert(s[5] == 'e');
}

proof fn lemma_name_sub_extension()
    ensures
        plain("sub_extension"@),
{
    reveal_strlit("sub_extension");
    let s = "sub_extension"@;
    assert(s[0] == 's');
    assert(s[1] == 'u');
    assert(s[2] == 'b');
    assert(s[3] == '_');
    assert(s[4] == 'e');
    assert(s[5] == 'x');
    assert(s[6] == 't');
    assert(s[7] == 'e');
    assert(s[8] == 'n');
    assert(s[9] == 's');
    assert(s[10] == 'i');
    assert(s[11] == 'o');
    assert(s[12] == 'n');
}

proof fn lemma_name_mul_extension()
    ensures
        plain("mul_extension"@),
{
    reveal_strlit("mul_extension");
    let s = "mul_extension"@;
    assert(s[0] == 'm');
    assert(s[1] == 'u');
    assert(s[2] == 'l');
    assert(s[3] == '_');
    assert(s[4] == 'e');
    assert(s[5] == 'x');
    assert(s[6] == 't');
    assert(s[7] == 'e');
    assert(s[8] == 'n');
    assert(s[9] == 's');
    assert(s[10] == 'i');
    assert(s[11] == 'o');
    assert(s[12] == 'n');
}

proof fn lemma_name_dot_product_be()
    ensures
        plain("dot_product_be"@),
{
    reveal_strlit("dot_product_be");
    let s = "dot_product_be"@;
    assert(s[0] == 'd');
    assert(s[1] == 'o');
    assert(s[2] == 't');
    assert(s[3] == '_');
    assert(s[4] == 'p');
    assert(s[5] == 'r');
    assert(s[6] == 'o');
    assert(s[7] == 'd');
    assert(s[8] == 'u');
    assert(s[9] == 'c');
    assert(s[10] == 't');
    assert(s[11] == '_');
    assert(s[12] == 'b');
    assert(s[13] == 'e');
}

proof fn lemma_name_add_be()
    ensures
        plain("add_be"@),
{
    reveal_strlit("add_be");
    let s = "add_be"@;
    assert(s[0] == 'a');
    assert(s[1] == 'd');
    assert(s[2] == 'd');
    assert(s[3] == '_');
    assert(s[4] == 'b');
    assert(s[5] == 'e');
}

proof fn lemma_name_Array()
    ensures
        plain("Array"@),
{
    reveal_strlit("Array");
    let s = "Array"@;
    assert(s[0] == 'A');
    assert(s[1] == 'r');
    assert(s[2] == 'r');
    assert(s[3] == 'a');
    assert(s[4] == 'y');
}

pub proof fn lemma_plain_aux()
    ensures
        plain("aux_"@),
        "aux_"@.len() == 4,
        "aux_"@[0] == 'a',
{
    reveal_strlit("aux_");
    let s = "aux_"@;
    assert(s[0] == 'a');
    assert(s[1] == 'u');
    assert(s[2] == 'x');
    assert(s[3] == '_');
}

pub proof fn lemma_plain_inner()
    ensures
        plain("inner_evals + DIM * "@),
        "inner_evals + DIM * "@.len() == 20,
        "inner_evals + DIM * "@[0] == 'i',
{
    reveal_strlit("inner_evals + DIM * ");
    let s = "inner_evals + DIM * "@;
    assert(s[0] == 'i');
    assert(s[1] == 'n');
    assert(s[2] == 'n');
    assert(s[3] == 'e');
    assert(s[4] == 'r');
    assert(s[5] == '_');
    assert(s[6] == 'e');
    assert(s[7] == 'v');
    assert(s[8] == 'a');
    assert(s[9] == 'l');
    assert(s[10] == 's');
    assert(s[11] == ' ');
    assert(s[12] == '+');
    assert(s[13] == ' ');
    assert(s[14] == 'D');
    assert(s[15] == 'I');
    assert(s[16] == 'M');
    assert(s[17] == ' ');
    assert(s[18] == '*');
    assert(s[19] == ' ');
}

pub proof fn lemma_plain_slot()
    ensures
        plain("constraints_buf + "@),
        "constraints_buf + "@.len() == 18,
        "constraints_buf + "@[0] == 'c',
{
    reveal_strlit("constraints_buf + ");
    let s = "constraints_buf + "@;
    assert(s[0] == 'c');
    assert(s[1] == 'o');
    assert(s[2] == 'n');
    assert(s[3] == 's');
    assert(s[4] == 't');
    assert(s[5] == 'r');
    assert(s[6] == 'a');
    assert(s[7] == 'i');
    assert(s[8] == 'n');
    assert(s[9] == 't');
    assert(s[10] == 's');
    assert(s[11] == '_');
    assert(s[12] == 'b');
    assert(s[13] == 'u');
    assert(s[14] == 'f');
    assert(s[15] == ' ');
    assert(s[16] == '+');
    assert(s[17] == ' ');
}

pub proof fn lemma_plain_dim()
    ensures
        plain(" * DIM"@),
        " * DIM"@.len() == 6,
        " * DIM"@[0] == ' ',
{
    reveal_strlit(" * DIM");
    let s = " * DIM"@;
    assert(s[0] == ' ');
    assert(s[1] == '*');
    assert(s[2] == ' ');
    assert(s[3] == 'D');
    assert(s[4] == 'I');
    assert(s[5] == 'M');
}

pub proof fn lemma_plain_buffer()
    ensures
        plain("buff + DIM * "@),
        "buff + DIM * "@.len() == 13,
        "buff + DIM * "@[0] == 'b',
{
    reveal_strlit("buff + DIM * ");
    let s = "buff + DIM * "@;
    assert(s[0] == 'b');
    assert(s[1] == 'u');
    assert(s[2] == 'f');
    assert(s[3] == 'f');
    assert(s[4] == ' ');
    assert(s[5] == '+');
    assert(s[6] == ' ');
    assert(s[7] == 'D');
    assert(s[8] == 'I');
    assert(s[9] == 'M');
    assert(s[10] == ' ');
    assert(s[11] == '*');
    assert(s[12] == ' ');
}

pub proof fn lemma_spelled_embed()
    ensures
        "embed_in_ef"@ == seq!['e', 'm', 'b', 'e', 'd', '_', 'i', 'n', '_', 'e', 'f'],
{
    reveal_strlit("embed_in_ef");
    let s = "embed_in_ef"@;
    assert(s[0] == 'e');
    assert(s[1] == 'm');
    assert(s[2] == 'b');
    assert(s[3] == 'e');
    assert(s[4] == 'd');
    assert(s[5] == '_');
    assert(s[6] == 'i');
    assert(s[7] == 'n');
    assert(s[8] == '_');
    assert(s[9] == 'e');
    assert(s[10] == 'f');
    assert(s =~= seq!['e', 'm', 'b', 'e', 'd', '_', 'i', 'n', '_', 'e', 'f']);
}

pub proof fn lemma_spelled_copy()
    ensures
        "copy_5"@ == seq!['c', 'o', 'p', 'y', '_', '5'],
{
    reveal_strlit("copy_5");
    let s = "copy_5"@;
    assert(s[0] == 'c');
    assert(s[1] == 'o');
    assert(s[2] == 'p');
    assert(s[3] == 'y');
    assert(s[4] == '_');
    assert(s[5] == '5');
    assert(s =~= seq!['c', 'o', 'p', 'y', '_', '5']);
}

pub proof fn lemma_spelled_opposite()
    ensures
        "opposite_extension_ret"@ == seq!['o', 'p', 'p', 'o', 's', 'i', 't', 'e', '_', 'e', 'x', 't', 'e', 'n', 's', 'i', 'o', 'n', '_', 'r', 'e', 't'],
{
    reveal_strlit("opposite_extension_ret");
    let s = "opposite_extension_ret"@;
    assert(s[0] == 'o');
    assert(s[1] == 'p');
    assert(s[2] == 'p');
    assert(s[3] == 'o');
    assert(s[4] == 's');
    assert(s[5] == 'i');
    assert(s[6] == 't');
    assert(s[7] == 'e');
    assert(s[8] == '_');
    assert(s[9] == 'e');
    assert(s[10] == 'x');
    assert(s[11] == 't');
    assert(s[12] == 'e');
    assert(s[13] == 'n');
    assert(s[14] == 's');
    assert(s[15] == 'i');
    assert(s[16] == 'o');
    assert(s[17] == 'n');
    assert(s[18] == '_');
    assert(s[19] == 'r');
    assert(s[20] == 'e');
    assert(s[21] == 't');
    assert(s =~= seq!['o', 'p', 'p', 'o', 's', 'i', 't', 'e', '_', 'e', 'x', 't', 'e', 'n', 's', 'i', 'o', 'n', '_', 'r', 'e', 't']);
}

/// 2 texts one after the other.
pub proof fn lemma_flat_2(a: Seq<char>, b: Seq<char>)
    ensures
        flat(seq![a, b]) == a + b,
{
    let v = seq![a, b];
    lemma_flat_take(v, 0);
    lemma_flat_take(v, 1);
    assert(v.take(0) =~= Seq::empty());
    assert(v.take(2) =~= v);
    assert(Seq::<char>::empty() + a =~= a);
}

/// 3 texts one after the other.
pub proof fn lemma_flat_3(a: Seq<char>, b: Seq<char>, c: Seq<char>)
    ensures
        flat(seq![a, b, c]) == a + b + c,
{
    let v = seq![a, b, c];
    lemma_flat_take(v, 0);
    lemma_flat_take(v, 1);
    lemma_flat_take(v, 2);
    assert(v.take(0) =~= Seq::empty());
    assert(v.take(3) =~= v);
    assert(Seq::<char>::empty() + a =~= a);
}

/// 4 texts one after the other.
pub proof fn lemma_flat_4(a: Seq<char>, b: Seq<char>, c: Seq<char>, d: Seq<char>)
    ensures
        flat(seq![a, b, c, d]) == a + b + c + d,
{
    let v = seq![a, b, c, d];
    lemma_flat_take(v, 0);
    lemma_flat_take(v, 1);
    lemma_flat_take(v, 2);
    lemma_flat_take(v, 3);
    assert(v.take(0) =~= Seq::empty());
    assert(v.take(4) =~= v);
    assert(Seq::<char>::empty() + a =~= a);
}

/// 5 texts one after the other.
pub proof fn lemma_flat_5(a: Seq<char>, b: Seq<char>, c: Seq<char>, d: Seq<char>, e: Seq<char>)
    ensures
        flat(seq![a, b, c, d, e]) == a + b + c + d + e,
{
    let v = seq![a, b, c, d, e];
    lemma_flat_take(v, 0);
    lemma_flat_take(v, 1);
    lemma_flat_take(v, 2);
    lemma_flat_take(v, 3);
    lemma_flat_take(v, 4);
    assert(v.take(0) =~= Seq::empty());
    assert(v.take(5) =~= v);
    assert(Seq::<char>::empty() + a =~= a);
}

/// 6 texts one after the other.
pub proof fn lemma_flat_6(a: Seq<char>, b: Seq<char>, c: Seq<char>, d: Seq<char>, e: Seq<char>, f: Seq<char>)
    ensures
        flat(seq![a, b, c, d, e, f]) == a + b + c + d + e + f,
{
    let v = seq![a, b, c, d, e, f];
    lemma_flat_take(v, 0);
    lemma_flat_take(v, 1);
    lemma_flat_take(v, 2);
    lemma_flat_take(v, 3);
    lemma_flat_take(v, 4);
    lemma_flat_take(v, 5);
    assert(v.take(0) =~= Seq::empty());
    assert(v.take(6) =~= v);
    assert(Seq::<char>::empty() + a =~= a);
}

/// 9 texts one after the other.
pub proof fn lemma_flat_9(a: Seq<char>, b: Seq<char>, c: Seq<char>, d: Seq<char>, e: Seq<char>, f: Seq<char>, g: Seq<char>, h: Seq<char>, i: Seq<char>)
    ensures
        flat(seq![a, b, c, d, e, f, g, h, i]) == a + b + c + d + e + f + g + h + i,
{
    let v = seq![a, b, c, d, e, f, g, h, i];
    lemma_flat_take(v, 0);
    lemma_flat_take(v, 1);
    lemma_flat_take(v, 2);
    lemma_flat_take(v, 3);
    lemma_flat_take(v, 4);
    lemma_flat_take(v, 5);
    lemma_flat_take(v, 6);
    lemma_flat_take(v, 7);
    lemma_flat_take(v, 8);
    assert(v.take(0) =~= Seq::empty());
    assert(v.take(9) =~= v);
    assert(Seq::<char>::empty() + a =~= a);
}

// Lemmas on reading.

/// The first `c` behind a text without it.
pub proof fn lemma_find(a: Seq<char>, c: char, b: Seq<char>)
    requires
        free(a, c),
    ensures
        find(a + seq![c] + b, c) == a.len(),
        before(a + seq![c] + b, c) == a,
        behind(a + seq![c] + b, c) == b,
    decreases a.len(),
{
    let s = a + seq![c] + b;
    if a.len() > 0 {
        let d = a.drop_first();
        assert forall|i: int| 0 <= i < d.len() implies #[trigger] d[i] != c by {
            assert(d[i] == a[i + 1]);
        }
        lemma_find(d, c, b);
        assert(s.drop_first() =~= d + seq![c] + b);
        assert(a[0] != c);
        assert(s[0] == a[0]);
    } else {
        assert(s[0] == c);
    }
    assert(s.take(a.len() as int) =~= a);
    assert(s.skip(a.len() as int + 1) =~= b);
}

/// A text without `c`.
pub proof fn lemma_find_none(a: Seq<char>, c: char)
    requires
        free(a, c),
    ensures
        find(a, c) == a.len(),
    decreases a.len(),
{
    if a.len() > 0 {
        let d = a.drop_first();
        assert forall|i: int| 0 <= i < d.len() implies #[trigger] d[i] != c by {
            assert(d[i] == a[i + 1]);
        }
        lemma_find_none(d, c);
        assert(a[0] != c);
    }
}

/// Plain texts one after the other.
pub proof fn lemma_plain_add(a: Seq<char>, b: Seq<char>)
    requires
        plain(a),
        plain(b),
    ensures
        plain(a + b),
{
    assert forall|i: int| 0 <= i < (a + b).len() implies #[trigger] (a + b)[i] != '=' && (a + b)[i]
        != '(' && (a + b)[i] != ')' && (a + b)[i] != ',' && (a + b)[i] != '[' && (a + b)[i]
        != '\n' by {
        if i < a.len() {
            assert((a + b)[i] == a[i]);
        } else {
            assert((a + b)[i] == b[i - a.len()]);
        }
    }
}

/// A decimal is plain.
pub proof fn lemma_decimal_plain(n: int)
    requires
        n >= 0,
    ensures
        plain(decimal(n)),
        free(decimal(n), ' '),
        decimal(n).len() > 0,
{
    lemma_decimal_reads_back(n);
    let s = decimal(n);
    assert forall|i: int| 0 <= i < s.len() implies is_digit(#[trigger] s[i]) by {}
}

/// The text of a variable.
proof fn lemma_place_aux(s: Store, k: u64)
    ensures
        plain(place_text(Place::Aux(k))),
        arg_value(s, place_text(Place::Aux(k))) == s.aux[k as int],
{
    let t = place_text(Place::Aux(k));
    let d = decimal(k as int);
    lemma_plain_aux();
    lemma_flat_2("aux_"@, d);
    lemma_decimal_plain(k as int);
    lemma_decimal_reads_back(k as int);
    lemma_plain_add("aux_"@, d);
    assert(t.take(4) =~= "aux_"@);
    assert(t.skip(4) =~= d);
}

/// The text of a column value.
proof fn lemma_place_inner(s: Store, v: u64)
    ensures
        plain(place_text(Place::Inner(v))),
        arg_value(s, place_text(Place::Inner(v))) == s.inner[v as int],
{
    let t = place_text(Place::Inner(v));
    let d = decimal(v as int);
    let w = "inner_evals + DIM * "@;
    lemma_plain_aux();
    lemma_plain_inner();
    lemma_flat_2(w, d);
    lemma_decimal_plain(v as int);
    lemma_decimal_reads_back(v as int);
    lemma_plain_add(w, d);
    assert(t[0] == 'i');
    lemma_not_starts(t, "aux_"@);
    assert(t.take(20) =~= w);
    assert(t.skip(20) =~= d);
}

/// The text of a slot.
proof fn lemma_place_slot(s: Store, i: u64)
    ensures
        plain(place_text(Place::Slot(i))),
        arg_value(s, place_text(Place::Slot(i))) == s.slots[i as int],
{
    let t = place_text(Place::Slot(i));
    let d = decimal(i as int);
    let (w, x) = ("constraints_buf + "@, " * DIM"@);
    lemma_plain_aux();
    lemma_plain_inner();
    lemma_plain_slot();
    lemma_plain_dim();
    lemma_flat_3(w, d, x);
    lemma_decimal_plain(i as int);
    lemma_decimal_reads_back(i as int);
    lemma_plain_add(w, d);
    lemma_plain_add(w + d, x);
    assert(t[0] == 'c');
    lemma_not_starts(t, "aux_"@);
    lemma_not_starts(t, "inner_evals + DIM * "@);
    assert(t.take(18) =~= w);
    let rest = x.skip(1);
    assert(t.skip(18) =~= d + seq![' '] + rest);
    lemma_find(d, ' ', rest);
}

/// Texts with different first characters.
pub proof fn lemma_not_starts(t: Seq<char>, p: Seq<char>)
    requires
        t.len() > 0,
        p.len() > 0,
        t[0] != p[0],
    ensures
        !starts(t, p),
{
    if starts(t, p) {
        assert(t.take(p.len() as int)[0] == t[0]);
    }
}

/// The text of a place is plain, and stands for the place's value.
pub proof fn lemma_place(s: Store, p: Place)
    ensures
        plain(place_text(p)),
        arg_value(s, place_text(p)) == place_value(s, p),
{
    match p {
        Place::Aux(k) => lemma_place_aux(s, k),
        Place::Inner(v) => lemma_place_inner(s, v),
        Place::Slot(i) => lemma_place_slot(s, i),
    }
}

/// A variable's text starts as a variable does, and its number is that of the variable.
pub proof fn lemma_variable(k: u64)
    ensures
        ({
            let v = place_text(Place::Aux(k));
            &&& plain(v)
            &&& starts(v, "aux_"@)
            &&& v.len() > 4
            &&& number(v.skip(4)) == k
        }),
{
    let d = decimal(k as int);
    lemma_plain_aux();
    lemma_flat_2("aux_"@, d);
    lemma_decimal_plain(k as int);
    lemma_decimal_reads_back(k as int);
    lemma_plain_add("aux_"@, d);
    let v = place_text(Place::Aux(k));
    assert(v.take(4) =~= "aux_"@);
    assert(v.skip(4) =~= d);
}

/// The code of a line that sets a variable to what a call returns.
pub open spec fn assign_code(k: u64, name: Seq<char>, body: Seq<char>) -> Seq<char> {
    place_text(Place::Aux(k)) + seq![' ', '=', ' '] + name + seq!['('] + body + seq![')']
}

/// The code of a call.
pub open spec fn call_code(name: Seq<char>, body: Seq<char>) -> Seq<char> {
    name + seq!['('] + body + seq![')']
}

/// What a line says that sets a variable to what a call returns.
proof fn lemma_assign(s: Store, k: u64, name: Seq<char>, body: Seq<char>)
    requires
        plain(name),
        name != "Array"@,
        line_holds(s, assign_code(k, name, body)),
    ensures
        s.aux[k as int] == call_value(s, name, body),
{
    let v = place_text(Place::Aux(k));
    lemma_variable(k);
    let code = assign_code(k, name, body);
    let target = v + seq![' '];
    let rest = seq![' '] + name + seq!['('] + body + seq![')'];
    assert(free(target, '=')) by {
        assert forall|i: int| 0 <= i < target.len() implies #[trigger] target[i] != '=' by {
            if i < v.len() {
                assert(target[i] == v[i]);
            }
        }
    }
    assert(code =~= target + seq!['='] + rest);
    lemma_find(target, '=', rest);
    lemma_plain_aux();
    assert(target.take(4) =~= v.take(4));
    assert(starts(target, "aux_"@));
    assert(target.subrange(4, target.len() - 1) =~= v.skip(4));
    let source = rest.skip(1);
    let tail = body + seq![')'];
    assert(source =~= name + seq!['('] + tail);
    lemma_find(name, '(', tail);
    assert(tail.drop_last() =~= body);
}

/// What a line says that sets the cell of a variable to a constant.
proof fn lemma_cell(s: Store, k: u64, c: u32)
    requires
        line_holds(
            s,
            place_text(Place::Aux(k)) + seq!['[', '0', ']', ' ', '=', ' '] + decimal(c as int),
        ),
    ensures
        s.aux[k as int] == base(c),
{
    let v = place_text(Place::Aux(k));
    let d = decimal(c as int);
    lemma_variable(k);
    lemma_decimal_plain(c as int);
    lemma_decimal_reads_back(c as int);
    let code = v + seq!['[', '0', ']', ' ', '=', ' '] + d;
    let target = v + seq!['[', '0', ']', ' '];
    let rest = seq![' '] + d;
    assert(free(target, '=')) by {
        assert forall|i: int| 0 <= i < target.len() implies #[trigger] target[i] != '=' by {
            if i < v.len() {
                assert(target[i] == v[i]);
            }
        }
    }
    assert(code =~= target + seq!['='] + rest);
    lemma_find(target, '=', rest);
    lemma_plain_aux();
    assert(target.take(4) =~= v.take(4));
    assert(starts(target, "aux_"@));
    let source = rest.skip(1);
    assert(source =~= d);
    lemma_find_none(d, '(');
    assert(target =~= v + seq!['['] + seq!['0', ']', ' ']);
    lemma_find(v, '[', seq!['0', ']', ' ']);
}

/// What a call on its own says.
proof fn lemma_call(s: Store, name: Seq<char>, body: Seq<char>)
    requires
        plain(name),
        free(body, '='),
        line_holds(s, call_code(name, body)),
    ensures
        call_holds(s, name, body),
{
    let code = call_code(name, body);
    let tail = body + seq![')'];
    assert(free(code, '=')) by {
        assert forall|i: int| 0 <= i < code.len() implies #[trigger] code[i] != '=' by {
            if i < name.len() {
                assert(code[i] == name[i]);
            } else if i > name.len() && i < code.len() - 1 {
                assert(code[i] == body[i - name.len() - 1]);
            }
        }
    }
    lemma_find_none(code, '=');
    assert(code =~= name + seq!['('] + tail);
    lemma_find(name, '(', tail);
    assert(tail.drop_last() =~= body);
}

/// Two arguments.
pub proof fn lemma_args(a: Seq<char>, b: Seq<char>)
    requires
        free(a, ','),
    ensures
        first_arg(a + ", "@ + b) == a,
        other_args(a + ", "@ + b) == b,
{
    lemma_lit_comma();
    let rest = seq![' '] + b;
    assert(a + ", "@ + b =~= a + seq![','] + rest);
    lemma_find(a, ',', rest);
    assert(rest.skip(1) =~= b);
}

// Statements as equations.

/// The equation that a statement states.
pub open spec fn stmt_holds(s: Store, stmt: Stmt) -> bool {
    match stmt {
        Stmt::Embed(k, c) => s.aux[k as int] == base(c),
        Stmt::Copy(a, b) => place_value(s, b) == place_value(s, a),
        Stmt::Opposite(k, a) => s.aux[k as int] == esub(embed(0), place_value(s, a)),
        Stmt::ExtInto(op, a, b, d) => place_value(s, d) == apply(
            op,
            place_value(s, a),
            place_value(s, b),
        ),
        Stmt::ExtRet(op, k, a, b) => s.aux[k as int] == apply(
            op,
            place_value(s, a),
            place_value(s, b),
        ),
        Stmt::BaseInto(op, t, c, ext, d) => s.aux[t as int] == base(c) && place_value(s, d)
            == apply(op, base(c), place_value(s, ext)),
        Stmt::BaseRet(op, k, c, ext) => s.aux[k as int] == apply(op, base(c), place_value(s, ext)),
        Stmt::BaseMinus(k, c, ext) => s.aux[k as int] == esub(base(c), place_value(s, ext)),
        Stmt::MinusBaseInto(t, c, d, ext) => s.aux[t as int] == base(c) && place_value(s, ext)
            == eadd(base(c), place_value(s, d)),
        Stmt::MinusBaseRet(k, ext, c) => s.aux[k as int] == esub(place_value(s, ext), base(c)),
        Stmt::BusBuffer(_) => true,
        Stmt::BusCopy(p, i) => s.bus[i as int] == place_value(s, p),
    }
}

/// The operation is one that the statement has a word for.
pub open spec fn writable(stmt: Stmt) -> bool {
    match stmt {
        Stmt::ExtInto(op, _, _, _) => !(op is Neg),
        Stmt::ExtRet(op, _, _, _) => !(op is Neg),
        Stmt::BaseInto(op, _, _, _, _) => op is Add || op is Mul,
        Stmt::BaseRet(op, _, _, _) => op is Add || op is Mul,
        _ => true,
    }
}

// Lines of a text.

/// A text without a line break goes to the last line.
pub proof fn lemma_lines_extend(a: Seq<char>, b: Seq<char>)
    requires
        free(b, '\n'),
    ensures
        lines(a + b) == lines(a).drop_last().push(lines(a).last() + b),
        lines(a).len() > 0,
    decreases b.len(),
{
    lemma_lines_len(a);
    if b.len() == 0 {
        assert(a + b =~= a);
        assert(lines(a).last() + b =~= lines(a).last());
        assert(lines(a) =~= lines(a).drop_last().push(lines(a).last()));
    } else {
        let c = b.drop_last();
        assert forall|i: int| 0 <= i < c.len() implies #[trigger] c[i] != '\n' by {
            assert(c[i] == b[i]);
        }
        lemma_lines_extend(a, c);
        assert((a + b).drop_last() =~= a + c);
        assert((a + b).last() == b.last());
        assert(b[b.len() - 1] != '\n');
        let f = lines(a + c);
        assert(f.drop_last() =~= lines(a).drop_last());
        assert(f.last().push(b.last()) =~= lines(a).last() + b);
    }
}

/// There is always a last line.
pub proof fn lemma_lines_len(a: Seq<char>)
    ensures
        lines(a).len() > 0,
    decreases a.len(),
{
    if a.len() > 0 {
        lemma_lines_len(a.drop_last());
    }
}

/// Text that starts on a new line leaves the lines before it as they are.
proof fn lemma_lines_keep(a: Seq<char>, b: Seq<char>)
    requires
        b.len() == 0 || b[0] == '\n',
    ensures
        lines(a + b).len() >= lines(a).len(),
        b.len() > 0 ==> lines(a + b).len() > lines(a).len(),
        forall|i: int| 0 <= i < lines(a).len() ==> #[trigger] lines(a + b)[i] == lines(a)[i],
    decreases b.len(),
{
    if b.len() == 0 {
        assert(a + b =~= a);
    } else {
        let c = b.drop_last();
        lemma_lines_keep(a, c);
        assert((a + b).drop_last() =~= a + c);
        assert((a + b).last() == b.last());
        lemma_lines_len(a + c);
    }
}

/// A line of a text that holds states an equation that holds.
proof fn lemma_says(s: Store, a: Seq<char>, code: Seq<char>, b: Seq<char>)
    requires
        text_holds(s, a + "\n    "@ + code + b),
        free(code, '\n'),
        b.len() == 0 || b[0] == '\n',
    ensures
        line_holds(s, code),
{
    lemma_lit_line();
    reveal_strlit("    ");
    let indent = "    "@;
    assert(indent[0] == ' ' && indent[1] == ' ' && indent[2] == ' ' && indent[3] == ' ');
    let nl = seq!['\n'];
    let body = indent + code;
    let x = a + nl;
    let text = a + "\n    "@ + code + b;
    assert(text =~= x + body + b);
    assert(x.drop_last() =~= a);
    assert(lines(x) == lines(a).push(Seq::empty()));
    assert(free(body, '\n')) by {
        assert forall|i: int| 0 <= i < body.len() implies #[trigger] body[i] != '\n' by {
            if i >= 4 {
                assert(body[i] == code[i - 4]);
            } else {
                assert(body[i] == indent[i]);
            }
        }
    }
    lemma_lines_extend(x, body);
    assert(Seq::<char>::empty() + body =~= body);
    let l = lines(x + body);
    let k = lines(a).len() as int;
    assert(l[k] == body);
    lemma_lines_keep(x + body, b);
    assert(lines(text)[k] == body);
    assert(body.take(4) =~= indent);
    assert(starts(lines(text)[k], "    "@));
    assert(body.skip(4) =~= code);
}

/// Arguments hold no equality sign and no line break.
pub proof fn lemma_body(a: Seq<char>, b: Seq<char>)
    requires
        free(a, '='),
        free(a, '\n'),
        free(b, '='),
        free(b, '\n'),
    ensures
        free(a + ", "@ + b, '='),
        free(a + ", "@ + b, '\n'),
{
    lemma_lit_comma();
    let t = a + ", "@ + b;
    assert forall|i: int| 0 <= i < t.len() implies #[trigger] t[i] != '=' && t[i] != '\n' by {
        if i < a.len() {
            assert(t[i] == a[i]);
        } else if i >= a.len() + 2 {
            assert(t[i] == b[i - a.len() - 2]);
        } else {
            assert(t[i] == ", "@[i - a.len()]);
        }
    }
}

/// The code of an assignment holds no line break.
pub proof fn lemma_assign_free(k: u64, name: Seq<char>, body: Seq<char>)
    requires
        plain(name),
        free(body, '\n'),
    ensures
        free(assign_code(k, name, body), '\n'),
{
    lemma_variable(k);
    let v = place_text(Place::Aux(k));
    let eq = seq![' ', '=', ' '];
    let t = assign_code(k, name, body);
    let (n, m) = (v.len() as int, name.len() as int);
    assert forall|i: int| 0 <= i < t.len() implies #[trigger] t[i] != '\n' by {
        if i < n {
            assert(t[i] == v[i]);
        } else if i < n + 3 {
            assert(t[i] == eq[i - n]);
        } else if i < n + 3 + m {
            assert(t[i] == name[i - n - 3]);
        } else if i == n + 3 + m {
            assert(t[i] == '(');
        } else if i < t.len() - 1 {
            assert(t[i] == body[i - n - 4 - m]);
        } else {
            assert(t[i] == ')');
        }
    }
}

/// The code of a call holds no line break.
pub proof fn lemma_call_free(name: Seq<char>, body: Seq<char>)
    requires
        plain(name),
        free(body, '\n'),
    ensures
        free(call_code(name, body), '\n'),
{
    let t = call_code(name, body);
    let m = name.len() as int;
    assert forall|i: int| 0 <= i < t.len() implies #[trigger] t[i] != '\n' by {
        if i < m {
            assert(t[i] == name[i]);
        } else if i == m {
            assert(t[i] == '(');
        } else if i < t.len() - 1 {
            assert(t[i] == body[i - m - 1]);
        } else {
            assert(t[i] == ')');
        }
    }
}

/// A line of text that sets a variable to what a call returns.
proof fn lemma_assign_line(
    s: Store,
    a: Seq<char>,
    k: u64,
    name: Seq<char>,
    body: Seq<char>,
    b: Seq<char>,
)
    requires
        text_holds(s, a + ("\n    "@ + assign_code(k, name, body)) + b),
        plain(name),
        name != "Array"@,
        free(body, '\n'),
        b.len() == 0 || b[0] == '\n',
    ensures
        s.aux[k as int] == call_value(s, name, body),
{
    let code = assign_code(k, name, body);
    lemma_assign_free(k, name, body);
    assert(a + ("\n    "@ + code) + b =~= a + "\n    "@ + code + b);
    lemma_says(s, a, code, b);
    lemma_assign(s, k, name, body);
}

/// A line of text that is a call.
proof fn lemma_call_line(s: Store, a: Seq<char>, name: Seq<char>, body: Seq<char>, b: Seq<char>)
    requires
        text_holds(s, a + ("\n    "@ + call_code(name, body)) + b),
        plain(name),
        free(body, '\n'),
        free(body, '='),
        b.len() == 0 || b[0] == '\n',
    ensures
        call_holds(s, name, body),
{
    let code = call_code(name, body);
    lemma_call_free(name, body);
    assert(a + ("\n    "@ + code) + b =~= a + "\n    "@ + code + b);
    lemma_says(s, a, code, b);
    lemma_call(s, name, body);
}

// Statements in their text.

/// The text of a variable set to the result of a call with two arguments.
pub proof fn lemma_call_two_text(k: u64, name: Seq<char>, x: Seq<char>, y: Seq<char>)
    ensures
        call_two(k, name, x, y) == "\n    "@ + assign_code(k, name, x + ", "@ + y),
{
    let v = place_text(Place::Aux(k));
    lemma_flat_9("\n    "@, v, " = "@, name, "("@, x, ", "@, y, ")"@);
    lemma_lit_assign();
    lemma_lit_open();
    lemma_lit_close();
    assert(call_two(k, name, x, y) =~= "\n    "@ + assign_code(k, name, x + ", "@ + y));
}

/// The text of a call with three arguments.
pub proof fn lemma_call_three_text(name: Seq<char>, x: Seq<char>, y: Seq<char>, z: Seq<char>)
    ensures
        flat(seq!["\n    "@, name, "("@, x, ", "@, y, ", "@, z, ")"@]) == "\n    "@ + call_code(
            name,
            x + ", "@ + (y + ", "@ + z),
        ),
{
    lemma_flat_9("\n    "@, name, "("@, x, ", "@, y, ", "@, z, ")"@);
    lemma_lit_open();
    lemma_lit_close();
    assert("\n    "@ + name + "("@ + x + ", "@ + y + ", "@ + z + ")"@ =~= "\n    "@ + call_code(
        name,
        x + ", "@ + (y + ", "@ + z),
    ));
}

/// The three lines that put a constant into a variable and call a function on it.
pub proof fn lemma_base_call_text(t: u64, c: u32, name: Seq<char>, x: Place, y: Place)
    ensures
        ({
            let v = place_text(Place::Aux(t));
            let cell = v + seq!['[', '0', ']', ' ', '=', ' '] + decimal(c as int);
            base_call(t, c, name, x, y) == ("\n    "@ + (v + " = Array(1)"@)) + ("\n    "@ + cell) + (
            "\n    "@ + call_code(name, v + ", "@ + (place_text(x) + ", "@ + place_text(y))))
        }),
{
    let v = place_text(Place::Aux(t));
    let d = decimal(c as int);
    let (px, py) = (place_text(x), place_text(y));
    let l = "\n    "@;
    let first = seq![l, v, " = Array(1)"@];
    let second = seq![l, v, "[0] = "@, d];
    let third = seq![l, name, "("@, v, ", "@, px, ", "@, py, ")"@];
    lemma_flat_3(l, v, " = Array(1)"@);
    lemma_flat_4(l, v, "[0] = "@, d);
    lemma_call_three_text(name, v, px, py);
    lemma_lit_zero();
    lemma_flat_add(first, second);
    lemma_flat_add(first + second, third);
    assert(first + second + third =~= seq![
        l,
        v,
        " = Array(1)"@,
        l,
        v,
        "[0] = "@,
        d,
        l,
        name,
        "("@,
        v,
        ", "@,
        px,
        ", "@,
        py,
        ")"@,
    ]);
    let cell = v + seq!['[', '0', ']', ' ', '=', ' '] + d;
    assert(l + v + " = Array(1)"@ =~= l + (v + " = Array(1)"@));
    assert(l + v + "[0] = "@ + d =~= l + cell);
}

/// What the three lines say.
proof fn lemma_base_call_says(
    s: Store,
    a: Seq<char>,
    t: u64,
    c: u32,
    name: Seq<char>,
    x: Place,
    y: Place,
    b: Seq<char>,
)
    requires
        text_holds(s, a + base_call(t, c, name, x, y) + b),
        plain(name),
        b.len() == 0 || b[0] == '\n',
    ensures
        s.aux[t as int] == base(c),
        call_holds(
            s,
            name,
            place_text(Place::Aux(t)) + ", "@ + (place_text(x) + ", "@ + place_text(y)),
        ),
{
    let v = place_text(Place::Aux(t));
    let d = decimal(c as int);
    let l = "\n    "@;
    let cell = v + seq!['[', '0', ']', ' ', '=', ' '] + d;
    let body = v + ", "@ + (place_text(x) + ", "@ + place_text(y));
    let (p1, p2, p3) = (l + (v + " = Array(1)"@), l + cell, l + call_code(name, body));
    lemma_base_call_text(t, c, name, x, y);
    lemma_lit_line();
    lemma_variable(t);
    lemma_decimal_plain(c as int);
    lemma_place(s, x);
    lemma_place(s, y);
    lemma_body(place_text(x), place_text(y));
    lemma_body(v, place_text(x) + ", "@ + place_text(y));
    let rest = p3 + b;
    assert(rest[0] == '\n');
    assert(free(cell, '\n')) by {
        let mid = seq!['[', '0', ']', ' ', '=', ' '];
        assert forall|i: int| 0 <= i < cell.len() implies #[trigger] cell[i] != '\n' by {
            if i < v.len() {
                assert(cell[i] == v[i]);
            } else if i < v.len() + 6 {
                assert(cell[i] == mid[i - v.len()]);
            } else {
                assert(cell[i] == d[i - v.len() - 6]);
            }
        }
    }
    assert(a + (p1 + p2 + p3) + b =~= (a + p1) + l + cell + rest);
    lemma_says(s, a + p1, cell, rest);
    lemma_cell(s, t, c);
    assert(a + (p1 + p2 + p3) + b =~= (a + p1 + p2) + p3 + b);
    lemma_call_line(s, a + p1 + p2, name, body, b);
}

/// What the text of an embedded constant says.
proof fn lemma_says_embed(s: Store, a: Seq<char>, k: u64, c: u32, b: Seq<char>)
    requires
        text_holds(s, a + stmt_text(Stmt::Embed(k, c)) + b),
        writable(Stmt::Embed(k, c)),
        b.len() == 0 || b[0] == '\n',
    ensures
        stmt_holds(s, Stmt::Embed(k, c)),
{
    lemma_names();
    let l = "\n    "@;
    let stmt = Stmt::Embed(k, c);
    let (v, d) = (place_text(Place::Aux(k)), decimal(c as int));
    lemma_flat_5(l, v, " = embed_in_ef("@, d, ")"@);
    lemma_lit_embed();
    lemma_lit_close();
    lemma_spelled_embed();
    assert(stmt_text(stmt) =~= l + assign_code(k, "embed_in_ef"@, d));
    lemma_decimal_plain(c as int);
    lemma_decimal_reads_back(c as int);
    lemma_assign_line(s, a, k, "embed_in_ef"@, d, b);
}

/// What the text of a copy says.
proof fn lemma_says_copy(s: Store, a: Seq<char>, p: Place, q: Place, b: Seq<char>)
    requires
        text_holds(s, a + stmt_text(Stmt::Copy(p, q)) + b),
        writable(Stmt::Copy(p, q)),
        b.len() == 0 || b[0] == '\n',
    ensures
        stmt_holds(s, Stmt::Copy(p, q)),
{
    lemma_names();
    let l = "\n    "@;
    let stmt = Stmt::Copy(p, q);
    let (x, y) = (place_text(p), place_text(q));
    lemma_place(s, p);
    lemma_place(s, q);
    lemma_flat_6(l, "copy_5("@, x, ", "@, y, ")"@);
    lemma_lit_copy();
    lemma_lit_close();
    lemma_spelled_copy();
    lemma_body(x, y);
    lemma_args(x, y);
    assert(stmt_text(stmt) =~= l + call_code("copy_5"@, x + ", "@ + y));
    lemma_call_line(s, a, "copy_5"@, x + ", "@ + y, b);
}

/// What the text of a negation says.
proof fn lemma_says_opposite(s: Store, a: Seq<char>, k: u64, p: Place, b: Seq<char>)
    requires
        text_holds(s, a + stmt_text(Stmt::Opposite(k, p)) + b),
        writable(Stmt::Opposite(k, p)),
        b.len() == 0 || b[0] == '\n',
    ensures
        stmt_holds(s, Stmt::Opposite(k, p)),
{
    lemma_names();
    let l = "\n    "@;
    let stmt = Stmt::Opposite(k, p);
    let (v, x) = (place_text(Place::Aux(k)), place_text(p));
    lemma_place(s, p);
    lemma_flat_5(l, v, " = opposite_extension_ret("@, x, ")"@);
    lemma_lit_opp();
    lemma_lit_close();
    lemma_spelled_opposite();
    assert(stmt_text(stmt) =~= l + assign_code(k, "opposite_extension_ret"@, x));
    lemma_assign_line(s, a, k, "opposite_extension_ret"@, x, b);
}

/// What the text of an operation into a place says.
proof fn lemma_says_ext_into(s: Store, a: Seq<char>, op: Op, p: Place, q: Place, r: Place, b: Seq<char>)
    requires
        text_holds(s, a + stmt_text(Stmt::ExtInto(op, p, q, r)) + b),
        writable(Stmt::ExtInto(op, p, q, r)),
        b.len() == 0 || b[0] == '\n',
    ensures
        stmt_holds(s, Stmt::ExtInto(op, p, q, r)),
{
    lemma_names();
    let (x, y, z) = (place_text(p), place_text(q), place_text(r));
    let name = ext_into_name(op);
    lemma_place(s, p);
    lemma_place(s, q);
    lemma_place(s, r);
    lemma_call_three_text(name, x, y, z);
    let rest = y + ", "@ + z;
    lemma_body(y, z);
    lemma_body(x, rest);
    lemma_args(x, rest);
    lemma_args(y, z);
    lemma_call_line(s, a, name, x + ", "@ + rest, b);
}

/// What the text of an operation says.
proof fn lemma_says_ext_ret(s: Store, a: Seq<char>, op: Op, k: u64, p: Place, q: Place, b: Seq<char>)
    requires
        text_holds(s, a + stmt_text(Stmt::ExtRet(op, k, p, q)) + b),
        writable(Stmt::ExtRet(op, k, p, q)),
        b.len() == 0 || b[0] == '\n',
    ensures
        stmt_holds(s, Stmt::ExtRet(op, k, p, q)),
{
    lemma_names();
    lemma_two_places(s, a, k, ext_ret_name(op), p, q, b);
}

/// What the text of an operation on a constant into a place says.
proof fn lemma_says_base_into(s: Store, a: Seq<char>, op: Op, t: u64, c: u32, ext: Place, d: Place, b: Seq<char>)
    requires
        text_holds(s, a + stmt_text(Stmt::BaseInto(op, t, c, ext, d)) + b),
        writable(Stmt::BaseInto(op, t, c, ext, d)),
        b.len() == 0 || b[0] == '\n',
    ensures
        stmt_holds(s, Stmt::BaseInto(op, t, c, ext, d)),
{
    lemma_names();
    let name = base_into_name(op);
    lemma_base_call_says(s, a, t, c, name, ext, d, b);
    lemma_three_places(s, t, ext, d);
}

/// What the text of an operation on a constant says.
proof fn lemma_says_base_ret(s: Store, a: Seq<char>, op: Op, k: u64, c: u32, ext: Place, b: Seq<char>)
    requires
        text_holds(s, a + stmt_text(Stmt::BaseRet(op, k, c, ext)) + b),
        writable(Stmt::BaseRet(op, k, c, ext)),
        b.len() == 0 || b[0] == '\n',
    ensures
        stmt_holds(s, Stmt::BaseRet(op, k, c, ext)),
{
    lemma_names();
    lemma_constant_and_place(s, a, k, base_ret_name(op), c, ext, b);
}

/// What the text of a difference from a constant says.
proof fn lemma_says_base_minus(s: Store, a: Seq<char>, k: u64, c: u32, ext: Place, b: Seq<char>)
    requires
        text_holds(s, a + stmt_text(Stmt::BaseMinus(k, c, ext)) + b),
        writable(Stmt::BaseMinus(k, c, ext)),
        b.len() == 0 || b[0] == '\n',
    ensures
        stmt_holds(s, Stmt::BaseMinus(k, c, ext)),
{
    lemma_names();
    lemma_constant_and_place(s, a, k, "sub_base_extension_ret"@, c, ext, b);
}

/// What the text of a difference with a constant into a place says.
proof fn lemma_says_minus_base_into(s: Store, a: Seq<char>, t: u64, c: u32, d: Place, ext: Place, b: Seq<char>)
    requires
        text_holds(s, a + stmt_text(Stmt::MinusBaseInto(t, c, d, ext)) + b),
        writable(Stmt::MinusBaseInto(t, c, d, ext)),
        b.len() == 0 || b[0] == '\n',
    ensures
        stmt_holds(s, Stmt::MinusBaseInto(t, c, d, ext)),
{
    lemma_names();
    lemma_base_call_says(s, a, t, c, "add_be"@, d, ext, b);
    lemma_three_places(s, t, d, ext);
}

/// What the text of a difference with a constant says.
proof fn lemma_says_minus_base_ret(s: Store, a: Seq<char>, k: u64, ext: Place, c: u32, b: Seq<char>)
    requires
        text_holds(s, a + stmt_text(Stmt::MinusBaseRet(k, ext, c)) + b),
        writable(Stmt::MinusBaseRet(k, ext, c)),
        b.len() == 0 || b[0] == '\n',
    ensures
        stmt_holds(s, Stmt::MinusBaseRet(k, ext, c)),
{
    lemma_names();
    let (x, d) = (place_text(ext), decimal(c as int));
    lemma_place(s, ext);
    lemma_decimal_plain(c as int);
    lemma_decimal_reads_back(c as int);
    lemma_call_two_text(k, "sub_extension_base_ret"@, x, d);
    lemma_body(x, d);
    lemma_args(x, d);
    lemma_assign_line(s, a, k, "sub_extension_base_ret"@, x + ", "@ + d, b);
}

/// What the text of a copy into the bus buffer says.
proof fn lemma_says_bus_copy(s: Store, a: Seq<char>, p: Place, i: u64, b: Seq<char>)
    requires
        text_holds(s, a + stmt_text(Stmt::BusCopy(p, i)) + b),
        writable(Stmt::BusCopy(p, i)),
        b.len() == 0 || b[0] == '\n',
    ensures
        stmt_holds(s, Stmt::BusCopy(p, i)),
{
    lemma_names();
    let l = "\n    "@;
    let stmt = Stmt::BusCopy(p, i);
    let (x, d) = (place_text(p), decimal(i as int));
    let y = "buff + DIM * "@ + d;
    lemma_place(s, p);
    lemma_flat_6(l, "copy_5("@, x, ", buff + DIM * "@, d, ")"@);
    lemma_lit_copy();
    lemma_lit_close();
    lemma_lit_bus();
    lemma_lit_comma();
    lemma_lit_buffer();
    lemma_spelled_copy();
    lemma_buffer_slot(s, i);
    lemma_body(x, y);
    lemma_args(x, y);
    assert(stmt_text(stmt) =~= l + call_code("copy_5"@, x + ", "@ + y));
    lemma_call_line(s, a, "copy_5"@, x + ", "@ + y, b);
}

/// What the text of a statement says is the statement's equation.
proof fn lemma_stmt_says(s: Store, a: Seq<char>, stmt: Stmt, b: Seq<char>)
    requires
        text_holds(s, a + stmt_text(stmt) + b),
        writable(stmt),
        b.len() == 0 || b[0] == '\n',
    ensures
        stmt_holds(s, stmt),
{
    match stmt {
        Stmt::Embed(k, c) => lemma_says_embed(s, a, k, c, b),
        Stmt::Copy(p, q) => lemma_says_copy(s, a, p, q, b),
        Stmt::Opposite(k, p) => lemma_says_opposite(s, a, k, p, b),
        Stmt::ExtInto(op, p, q, r) => lemma_says_ext_into(s, a, op, p, q, r, b),
        Stmt::ExtRet(op, k, p, q) => lemma_says_ext_ret(s, a, op, k, p, q, b),
        Stmt::BaseInto(op, t, c, ext, d) => lemma_says_base_into(s, a, op, t, c, ext, d, b),
        Stmt::BaseRet(op, k, c, ext) => lemma_says_base_ret(s, a, op, k, c, ext, b),
        Stmt::BaseMinus(k, c, ext) => lemma_says_base_minus(s, a, k, c, ext, b),
        Stmt::MinusBaseInto(t, c, d, ext) => lemma_says_minus_base_into(s, a, t, c, d, ext, b),
        Stmt::MinusBaseRet(k, ext, c) => lemma_says_minus_base_ret(s, a, k, ext, c, b),
        Stmt::BusCopy(p, i) => lemma_says_bus_copy(s, a, p, i, b),
        Stmt::BusBuffer(_) => {},
    }
}

/// A slot of the bus buffer as an argument.
pub proof fn lemma_buffer_slot(s: Store, i: u64)
    ensures
        plain("buff + DIM * "@ + decimal(i as int)),
        arg_value(s, "buff + DIM * "@ + decimal(i as int)) == s.bus[i as int],
{
    let d = decimal(i as int);
    let w = "buff + DIM * "@;
    let t = w + d;
    lemma_plain_buffer();
    lemma_plain_aux();
    lemma_plain_inner();
    lemma_plain_slot();
    lemma_decimal_plain(i as int);
    lemma_decimal_reads_back(i as int);
    lemma_plain_add(w, d);
    assert(t[0] == 'b');
    lemma_not_starts(t, "aux_"@);
    lemma_not_starts(t, "inner_evals + DIM * "@);
    lemma_not_starts(t, "constraints_buf + "@);
    assert(t.skip(13) =~= d);
}

/// A variable set to the result of a call on two places.
proof fn lemma_two_places(
    s: Store,
    a: Seq<char>,
    k: u64,
    name: Seq<char>,
    p: Place,
    q: Place,
    b: Seq<char>,
)
    requires
        text_holds(s, a + call_two(k, name, place_text(p), place_text(q)) + b),
        plain(name),
        name != "Array"@,
        b.len() == 0 || b[0] == '\n',
    ensures
        ({
            let body = place_text(p) + ", "@ + place_text(q);
            &&& s.aux[k as int] == call_value(s, name, body)
            &&& arg_value(s, first_arg(body)) == place_value(s, p)
            &&& arg_value(s, other_args(body)) == place_value(s, q)
        }),
{
    let (x, y) = (place_text(p), place_text(q));
    lemma_place(s, p);
    lemma_place(s, q);
    lemma_call_two_text(k, name, x, y);
    lemma_body(x, y);
    lemma_args(x, y);
    lemma_assign_line(s, a, k, name, x + ", "@ + y, b);
}

/// A variable set to the result of a call on a constant and a place.
proof fn lemma_constant_and_place(
    s: Store,
    a: Seq<char>,
    k: u64,
    name: Seq<char>,
    c: u32,
    p: Place,
    b: Seq<char>,
)
    requires
        text_holds(s, a + call_two(k, name, decimal(c as int), place_text(p)) + b),
        plain(name),
        name != "Array"@,
        b.len() == 0 || b[0] == '\n',
    ensures
        ({
            let body = decimal(c as int) + ", "@ + place_text(p);
            &&& s.aux[k as int] == call_value(s, name, body)
            &&& constant_value(first_arg(body)) == base(c)
            &&& arg_value(s, other_args(body)) == place_value(s, p)
        }),
{
    let (d, y) = (decimal(c as int), place_text(p));
    lemma_place(s, p);
    lemma_decimal_plain(c as int);
    lemma_decimal_reads_back(c as int);
    lemma_call_two_text(k, name, d, y);
    lemma_body(d, y);
    lemma_args(d, y);
    lemma_assign_line(s, a, k, name, d + ", "@ + y, b);
}

/// The arguments of a call on a variable and two places.
proof fn lemma_three_places(s: Store, t: u64, x: Place, y: Place)
    ensures
        ({
            let body = place_text(Place::Aux(t)) + ", "@ + (place_text(x) + ", "@ + place_text(y));
            &&& arg_value(s, first_arg(body)) == s.aux[t as int]
            &&& arg_value(s, first_arg(other_args(body))) == place_value(s, x)
            &&& arg_value(s, other_args(other_args(body))) == place_value(s, y)
        }),
{
    lemma_place(s, Place::Aux(t));
    lemma_place(s, x);
    lemma_place(s, y);
    let rest = place_text(x) + ", "@ + place_text(y);
    lemma_args(place_text(Place::Aux(t)), rest);
    lemma_args(place_text(x), place_text(y));
}

/// A concatenation starts with its first part.
pub proof fn lemma_flat_first(v: Seq<Seq<char>>)
    requires
        v.len() > 0,
        v[0].len() > 0,
    ensures
        flat(v).len() > 0,
        flat(v)[0] == v[0][0],
    decreases v.len(),
{
    let d = v.drop_last();
    if v.len() == 1 {
        reveal_with_fuel(flat, 2);
        assert(d.len() == 0);
        assert(flat(d) == Seq::<char>::empty());
        assert(flat(v) =~= v[0]);
    } else {
        lemma_flat_first(d);
    }
}

/// The text of a statement starts on a new line.
proof fn lemma_stmt_starts(stmt: Stmt)
    ensures
        stmt_text(stmt).len() > 0,
        stmt_text(stmt)[0] == '\n',
{
    lemma_lit_line();
    match stmt {
        Stmt::Embed(k, c) => lemma_flat_first(
            seq![line(), place_text(Place::Aux(k)), " = embed_in_ef("@, decimal(c as int), ")"@],
        ),
        Stmt::Copy(a, b) => lemma_flat_first(
            seq![line(), "copy_5("@, place_text(a), ", "@, place_text(b), ")"@],
        ),
        Stmt::Opposite(k, a) => lemma_flat_first(
            seq![
                line(),
                place_text(Place::Aux(k)),
                " = opposite_extension_ret("@,
                place_text(a),
                ")"@,
            ],
        ),
        Stmt::ExtInto(op, a, b, d) => lemma_flat_first(
            seq![
                line(),
                ext_into_name(op),
                "("@,
                place_text(a),
                ", "@,
                place_text(b),
                ", "@,
                place_text(d),
                ")"@,
            ],
        ),
        Stmt::ExtRet(op, k, a, b) => lemma_call_two_text(
            k,
            ext_ret_name(op),
            place_text(a),
            place_text(b),
        ),
        Stmt::BaseInto(op, t, c, ext, d) => lemma_base_call_text(
            t,
            c,
            base_into_name(op),
            ext,
            d,
        ),
        Stmt::BaseRet(op, k, c, ext) => lemma_call_two_text(
            k,
            base_ret_name(op),
            decimal(c as int),
            place_text(ext),
        ),
        Stmt::BaseMinus(k, c, ext) => lemma_call_two_text(
            k,
            "sub_base_extension_ret"@,
            decimal(c as int),
            place_text(ext),
        ),
        Stmt::MinusBaseInto(t, c, d, ext) => lemma_base_call_text(t, c, "add_be"@, d, ext),
        Stmt::MinusBaseRet(k, ext, c) => lemma_call_two_text(
            k,
            "sub_extension_base_ret"@,
            place_text(ext),
            decimal(c as int),
        ),
        Stmt::BusBuffer(n) => lemma_flat_first(
            seq![line(), "buff = Array(DIM * "@, decimal(n as int), ")"@],
        ),
        Stmt::BusCopy(p, i) => lemma_flat_first(
            seq![
                line(),
                "copy_5("@,
                place_text(p),
                ", buff + DIM * "@,
                decimal(i as int),
                ")"@,
            ],
        ),
    }
}

/// The text of statements says the equation of each.
pub proof fn lemma_stmts_say(s: Store, a: Seq<char>, stmts: Seq<Stmt>, b: Seq<char>, i: int)
    requires
        text_holds(s, a + stmts_text(stmts) + b),
        b.len() == 0 || b[0] == '\n',
        0 <= i < stmts.len(),
        writable(stmts[i]),
    ensures
        stmt_holds(s, stmts[i]),
{
    let v = Seq::new(stmts.len(), |k: int| stmt_text(stmts[k]));
    lemma_flat_take(v, i);
    let (x, y) = (v.take(i + 1), v.skip(i + 1));
    lemma_flat_add(x, y);
    assert(x + y =~= v);
    let rest = flat(y) + b;
    if y.len() > 0 {
        lemma_stmt_starts(stmts[i + 1]);
        assert(y[0] == stmt_text(stmts[i + 1]));
        lemma_flat_first(y);
        assert(rest[0] == flat(y)[0]);
    } else {
        assert(rest =~= b);
    }
    let front = a + flat(v.take(i));
    assert(a + flat(v) + b =~= front + stmt_text(stmts[i]) + rest);
    lemma_stmt_says(s, front, stmts[i], rest);
}

/// The text tells operations on the same values apart.
pub proof fn lemma_operations_differ(op: Op, other: Op, k: u64, a: Place, b: Place)
    requires
        !(op is Neg),
        !(other is Neg),
        op != other,
    ensures
        stmt_text(Stmt::ExtRet(op, k, a, b)) != stmt_text(Stmt::ExtRet(other, k, a, b)),
{
    lemma_names();
    let (n, m) = (ext_ret_name(op), ext_ret_name(other));
    let (x, y) = (place_text(a), place_text(b));
    lemma_call_two_text(k, n, x, y);
    lemma_call_two_text(k, m, x, y);
    let v = place_text(Place::Aux(k));
    let (s, t) = (call_two(k, n, x, y), call_two(k, m, x, y));
    lemma_lit_line();
    let body = x + ", "@ + y;
    assert(s.len() == 5 + v.len() + 3 + n.len() + 1 + body.len() + 1);
    assert(t.len() == 5 + v.len() + 3 + m.len() + 1 + body.len() + 1);
    if s == t {
        assert(n.len() == m.len());
        let at = 5 + v.len() as int + 3;
        assert(s.subrange(at, at + n.len()) =~= n);
        assert(t.subrange(at, at + m.len()) =~= m);
    }
}

// From the equations to the values.

/// Every statement's equation holds.
pub open spec fn all_hold(s: Store, stmts: Seq<Stmt>) -> bool {
    forall|i: int| 0 <= i < stmts.len() ==> stmt_holds(s, #[trigger] stmts[i])
}

/// The statements have words for their operations.
pub open spec fn all_writable(stmts: Seq<Stmt>) -> bool {
    forall|i: int| 0 <= i < stmts.len() ==> writable(#[trigger] stmts[i])
}

/// `b` goes on from `a`, with statements that have words for their operations.
pub open spec fn extends(a: Seq<Stmt>, b: Seq<Stmt>) -> bool {
    &&& a.len() <= b.len()
    &&& forall|i: int| 0 <= i < a.len() ==> #[trigger] b[i] == a[i]
    &&& forall|i: int| a.len() <= i < b.len() ==> writable(#[trigger] b[i])
}

proof fn lemma_extends_trans(a: Seq<Stmt>, b: Seq<Stmt>, c: Seq<Stmt>)
    requires
        extends(a, b),
        extends(b, c),
    ensures
        extends(a, c),
{
    assert forall|i: int| 0 <= i < a.len() implies #[trigger] c[i] == a[i] by {
        assert(c[i] == b[i]);
        assert(b[i] == a[i]);
    }
    assert forall|i: int| a.len() <= i < c.len() implies writable(#[trigger] c[i]) by {
        if i < b.len() {
            assert(c[i] == b[i]);
            assert(writable(b[i]));
        }
    }
}

/// The equations of a program hold for what it goes on from.
proof fn lemma_hold_prefix(s: Store, a: Seq<Stmt>, b: Seq<Stmt>)
    requires
        extends(a, b),
        all_hold(s, b),
    ensures
        all_hold(s, a),
{
    assert forall|i: int| 0 <= i < a.len() implies stmt_holds(s, #[trigger] a[i]) by {
        assert(b[i] == a[i]);
    }
}

/// Generating goes on from the statements before.
proof fn lemma_gen_extends(graph: Seq<Node>, e: Expr, dest: Option<Place>, st: Gen)
    requires
        graph_wf(graph),
        in_graph(graph, e),
    ensures
        extends(st.out, gen(graph, e, dest, st).1.out),
    decreases rank(e), 0int,
{
    if let Expr::Operation(i) = e {
        if st.cache[i as int] is None {
            let node = graph[i as int];
            if node.op is Neg {
                lemma_gen_extends(graph, node.lhs, None, st);
                let s1 = gen(graph, node.lhs, None, st).1;
                let s2 = gen(graph, e, dest, st).1;
                lemma_extends_trans(st.out, s1.out, s2.out);
            } else {
                lemma_binop_extends(graph, node.op, node.lhs, node.rhs, dest, st);
                let s1 = gen_binop(graph, node.op, node.lhs, node.rhs, dest, st).1;
                let s2 = gen(graph, e, dest, st).1;
                lemma_extends_trans(st.out, s1.out, s2.out);
            }
        }
    }
}

proof fn lemma_binop_extends(
    graph: Seq<Node>,
    op: Op,
    lhs: Expr,
    rhs: Expr,
    dest: Option<Place>,
    st: Gen,
)
    requires
        graph_wf(graph),
        !(op is Neg),
        in_graph(graph, lhs),
        in_graph(graph, rhs),
    ensures
        extends(st.out, gen_binop(graph, op, lhs, rhs, dest, st).1.out),
    decreases larger(rank(lhs), rank(rhs)), 1int,
{
    let end = gen_binop(graph, op, lhs, rhs, dest, st).1;
    match (op, constant(lhs), constant(rhs)) {
        (_, None, None) => {
            let s1 = gen(graph, lhs, None, st).1;
            lemma_gen_extends(graph, lhs, None, st);
            let s2 = gen(graph, rhs, None, s1).1;
            lemma_gen_extends(graph, rhs, None, s1);
            lemma_extends_trans(st.out, s1.out, s2.out);
            lemma_extends_trans(st.out, s2.out, end.out);
        },
        (Op::Sub, Some(c), _) => {
            let s1 = gen(graph, rhs, None, st).1;
            lemma_gen_extends(graph, rhs, None, st);
            lemma_extends_trans(st.out, s1.out, end.out);
        },
        (Op::Sub, None, Some(c)) => {
            let s1 = gen(graph, lhs, None, st).1;
            lemma_gen_extends(graph, lhs, None, st);
            lemma_extends_trans(st.out, s1.out, end.out);
        },
        (_, Some(c), _) => {
            let s1 = gen(graph, rhs, None, st).1;
            lemma_gen_extends(graph, rhs, None, st);
            lemma_extends_trans(st.out, s1.out, end.out);
        },
        (_, None, Some(c)) => {
            let s1 = gen(graph, lhs, None, st).1;
            lemma_gen_extends(graph, lhs, None, st);
            lemma_extends_trans(st.out, s1.out, end.out);
        },
    }
}

/// Every remembered place holds the value of its node.
pub open spec fn remembers(graph: Seq<Node>, st: Gen, s: Store) -> bool {
    &&& st.cache.len() == graph.len()
    &&& forall|i: int|
        0 <= i < st.cache.len() && (#[trigger] st.cache[i]) is Some ==> place_value(
            s,
            st.cache[i]->0,
        ) == expr_value(graph, Expr::Operation(i as u32), s.inner)
}

/// The memory holds field elements.
pub open spec fn memory_wf(s: Store) -> bool {
    eswf(s.inner) && forall|k: int| ewf(#[trigger] s.slots[k])
}

/// A destination is a slot of the constraint buffer.
pub open spec fn slot_only(dest: Option<Place>) -> bool {
    dest is Some ==> dest->0 is Slot
}

/// The expression can be evaluated over the columns.
pub open spec fn evaluable(graph: Seq<Node>, e: Expr, cols: int) -> bool {
    &&& graph_wf(graph)
    &&& graph.len() <= u32::MAX
    &&& in_graph(graph, e)
    &&& columns_exist(graph, cols)
    &&& column_exists(e, cols)
}

/// In a memory in which the equations of the generated statements hold, the place that the
/// generator names holds the value of the expression, and so does the destination of a node.
proof fn lemma_gen_values(
    graph: Seq<Node>,
    e: Expr,
    dest: Option<Place>,
    st: Gen,
    s: Store,
)
    requires
        evaluable(graph, e, s.inner.len() as int),
        memory_wf(s),
        slot_only(dest),
        remembers(graph, st, s),
        all_hold(s, gen(graph, e, dest, st).1.out),
    ensures
        ({
            let (p, st1) = gen(graph, e, dest, st);
            &&& place_value(s, p) == expr_value(graph, e, s.inner)
            &&& remembers(graph, st1, s)
            &&& dest is Some && e is Operation ==> place_value(s, dest->0) == expr_value(
                graph,
                e,
                s.inner,
            )
        }),
    decreases rank(e), 0int,
{
    let (p, st1) = gen(graph, e, dest, st);
    let n = st1.out.len() - 1;
    match e {
        Expr::Constant(c) => {
            assert(stmt_holds(s, st1.out[n]));
        },
        Expr::Variable(v) => {},
        Expr::Operation(i) => {
            if st.cache[i as int] is Some {
                if dest is Some {
                    assert(stmt_holds(s, st1.out[n]));
                }
            } else {
                let node = graph[i as int];
                let value = expr_value(graph, e, s.inner);
                let (v, s2) = if node.op is Neg {
                    let (x, s1) = gen(graph, node.lhs, None, st);
                    let k = s1.count as u64;
                    (Place::Aux(k), fresh(s1, Stmt::Opposite(k, x)))
                } else {
                    gen_binop(graph, node.op, node.lhs, node.rhs, dest, st)
                };
                assert((p, st1) == settle(i, v, dest, s2));
                assert(extends(s2.out, st1.out));
                lemma_hold_prefix(s, s2.out, st1.out);
                if node.op is Neg {
                    let (x, s1) = gen(graph, node.lhs, None, st);
                    assert(extends(s1.out, s2.out));
                    lemma_hold_prefix(s, s1.out, s2.out);
                    lemma_gen_values(graph, node.lhs, None, st, s);
                    assert(stmt_holds(s, s2.out[s2.out.len() - 1]));
                } else {
                    lemma_binop_values(graph, node.op, node.lhs, node.rhs, dest, st, s);
                }
                assert(place_value(s, v) == value);
                if dest is Some && v != dest->0 {
                    assert(stmt_holds(s, st1.out[n]));
                }
                assert forall|j: int|
                    0 <= j < st1.cache.len() && (#[trigger] st1.cache[j]) is Some implies
                    place_value(s, st1.cache[j]->0) == expr_value(
                    graph,
                    Expr::Operation(j as u32),
                    s.inner,
                ) by {
                    if j != i {
                        assert(s2.cache[j] == st1.cache[j]);
                    }
                }
            }
        },
    }
}

/// A difference from a sum.
proof fn lemma_difference(c: Ext, d: Ext)
    requires
        ewf(c),
        ewf(d),
    ensures
        esub(eadd(c, d), c) == d,
{
    let e = eadd(c, d);
    lemma_esub_is_add(e, c);
    let m = escale(P - 1, c);
    lemma_ewf_ops(c, c, P - 1);
    lemma_eadd_comm(c, d);
    lemma_eadd_assoc(d, c, m);
    crate::code::lemma_cancel(c);
    lemma_eadd_zero(d);
}

proof fn lemma_value_wf(graph: Seq<Node>, e: Expr, inner: Seq<Ext>)
    requires
        evaluable(graph, e, inner.len() as int),
        eswf(inner),
    ensures
        ewf(expr_value(graph, e, inner)),
{
    if let Expr::Operation(i) = e {
        let node = graph[i as int];
        let a = expr_value(graph, node.lhs, inner);
        let b = expr_value(graph, node.rhs, inner);
        lemma_ewf_ops(a, b, 0);
        lemma_ewf_ops(embed(0), a, 0);
    }
}

proof fn lemma_binop_values(
    graph: Seq<Node>,
    op: Op,
    lhs: Expr,
    rhs: Expr,
    dest: Option<Place>,
    st: Gen,
    s: Store,
)
    requires
        !(op is Neg),
        evaluable(graph, lhs, s.inner.len() as int),
        evaluable(graph, rhs, s.inner.len() as int),
        memory_wf(s),
        slot_only(dest),
        remembers(graph, st, s),
        all_hold(s, gen_binop(graph, op, lhs, rhs, dest, st).1.out),
    ensures
        ({
            let (v, s2) = gen_binop(graph, op, lhs, rhs, dest, st);
            &&& place_value(s, v) == apply(
                op,
                expr_value(graph, lhs, s.inner),
                expr_value(graph, rhs, s.inner),
            )
            &&& remembers(graph, s2, s)
        }),
    decreases larger(rank(lhs), rank(rhs)), 1int,
{
    let (v, end) = gen_binop(graph, op, lhs, rhs, dest, st);
    let (x, y) = (expr_value(graph, lhs, s.inner), expr_value(graph, rhs, s.inner));
    lemma_value_wf(graph, lhs, s.inner);
    lemma_value_wf(graph, rhs, s.inner);
    lemma_eadd_comm(x, y);
    lemma_emul_comm(x, y);
    let n = end.out.len() - 1;
    match (op, constant(lhs), constant(rhs)) {
        (_, None, None) => {
            let (p, s1) = gen(graph, lhs, None, st);
            let (q, s2) = gen(graph, rhs, None, s1);
            lemma_gen_extends(graph, rhs, None, s1);
            assert(extends(s2.out, end.out));
            lemma_hold_prefix(s, s2.out, end.out);
            lemma_hold_prefix(s, s1.out, s2.out);
            lemma_gen_values(graph, lhs, None, st, s);
            lemma_gen_values(graph, rhs, None, s1, s);
            assert(stmt_holds(s, end.out[n]));
        },
        (Op::Sub, Some(c), _) => {
            let (q, s1) = gen(graph, rhs, None, st);
            assert(extends(s1.out, end.out));
            lemma_hold_prefix(s, s1.out, end.out);
            lemma_gen_values(graph, rhs, None, st, s);
            assert(stmt_holds(s, end.out[n]));
        },
        (Op::Sub, None, Some(c)) => {
            let (p, s1) = gen(graph, lhs, None, st);
            assert(extends(s1.out, end.out));
            lemma_hold_prefix(s, s1.out, end.out);
            lemma_gen_values(graph, lhs, None, st, s);
            assert(stmt_holds(s, end.out[n]));
            if let Some(d) = dest {
                let w = place_value(s, d);
                assert(ewf(s.slots[d->Slot_0 as int]));
                lemma_difference(base(c), w);
            }
        },
        (_, Some(c), _) => {
            let (q, s1) = gen(graph, rhs, None, st);
            assert(extends(s1.out, end.out));
            lemma_hold_prefix(s, s1.out, end.out);
            lemma_gen_values(graph, rhs, None, st, s);
            assert(stmt_holds(s, end.out[n]));
        },
        (_, None, Some(c)) => {
            let (p, s1) = gen(graph, lhs, None, st);
            assert(extends(s1.out, end.out));
            lemma_hold_prefix(s, s1.out, end.out);
            lemma_gen_values(graph, lhs, None, st, s);
            assert(stmt_holds(s, end.out[n]));
        },
    }
}

/// The slots of the first `n` constraints hold their values.
proof fn lemma_constraints_values(t: TableAir, n: nat, s: Store)
    requires
        t.wf(),
        t.graph@.len() <= u32::MAX,
        table_columns_exist(t, s.inner.len() as int),
        memory_wf(s),
        n <= t.constraints@.len(),
        forall|i: int|
            0 <= i < t.constraints@.len() ==> (#[trigger] t.constraints@[i]) is Operation,
        all_hold(s, gen_constraints(t.graph@, t.constraints@, n, start(t.graph@.len())).out),
    ensures
        ({
            let st = gen_constraints(t.graph@, t.constraints@, n, start(t.graph@.len()));
            &&& remembers(t.graph@, st, s)
            &&& all_writable(st.out)
            &&& forall|i: int|
                0 <= i < n ==> #[trigger] s.slots[i] == expr_value(
                    t.graph@,
                    t.constraints@[i],
                    s.inner,
                )
        }),
    decreases n,
{
    let graph = t.graph@;
    if n > 0 {
        let k = (n - 1) as nat;
        let st = gen_constraints(graph, t.constraints@, k, start(graph.len()));
        let e = t.constraints@[k as int];
        let dest = Some(Place::Slot(k as u64));
        assert(in_graph(graph, e) && column_exists(e, s.inner.len() as int) && e is Operation);
        let st1 = gen(graph, e, dest, st).1;
        lemma_gen_extends(graph, e, dest, st);
        lemma_hold_prefix(s, st.out, st1.out);
        lemma_constraints_values(t, k, s);
        lemma_gen_values(graph, e, dest, st, s);
        lemma_writable_step(st.out, st1.out);
        assert forall|i: int| 0 <= i < n implies #[trigger] s.slots[i] == expr_value(
            graph,
            t.constraints@[i],
            s.inner,
        ) by {
            if i == k {
                assert(place_value(s, dest->0) == s.slots[k as int]);
            }
        }
    }
}

proof fn lemma_writable_step(a: Seq<Stmt>, b: Seq<Stmt>)
    requires
        all_writable(a),
        extends(a, b),
    ensures
        all_writable(b),
{
    assert forall|i: int| 0 <= i < b.len() implies writable(#[trigger] b[i]) by {
        if i < a.len() {
            assert(b[i] == a[i]);
            assert(writable(a[i]));
        }
    }
}

/// The bus buffer holds the first `n` bus values.
proof fn lemma_bus_values(t: TableAir, st: Gen, n: nat, s: Store)
    requires
        t.wf(),
        t.graph@.len() <= u32::MAX,
        table_columns_exist(t, s.inner.len() as int),
        memory_wf(s),
        n <= t.bus_data@.len(),
        remembers(t.graph@, st, s),
        all_hold(s, gen_bus(t.graph@, t.bus_data@, n, st).out),
    ensures
        ({
            let st1 = gen_bus(t.graph@, t.bus_data@, n, st);
            &&& remembers(t.graph@, st1, s)
            &&& extends(st.out, st1.out)
            &&& forall|j: int|
                0 <= j < n ==> #[trigger] s.bus[j] == expr_value(
                    t.graph@,
                    t.bus_data@[j],
                    s.inner,
                )
        }),
    decreases n,
{
    let graph = t.graph@;
    if n > 0 {
        let k = (n - 1) as nat;
        let st1 = gen_bus(graph, t.bus_data@, k, st);
        let e = t.bus_data@[k as int];
        assert(in_graph(graph, e) && column_exists(e, s.inner.len() as int));
        let (p, st2) = gen(graph, e, None, st1);
        let st3 = emit(st2, Stmt::BusCopy(p, k as u64));
        lemma_gen_extends(graph, e, None, st1);
        assert(extends(st2.out, st3.out));
        lemma_hold_prefix(s, st2.out, st3.out);
        lemma_hold_prefix(s, st1.out, st2.out);
        lemma_bus_values(t, st, k, s);
        lemma_gen_values(graph, e, None, st1, s);
        lemma_extends_trans(st1.out, st2.out, st3.out);
        lemma_extends_trans(st.out, st1.out, st3.out);
        assert(stmt_holds(s, st3.out[st3.out.len() - 1]));
        assert forall|j: int| 0 <= j < n implies #[trigger] s.bus[j] == expr_value(
            graph,
            t.bus_data@[j],
            s.inner,
        ) by {
            if j == k {
                assert(s.bus[k as int] == place_value(s, p));
            }
        }
    }
}

/// In every memory in which the equations of a table's statements hold, the slots hold the
/// values of the constraints, the flag's place that of the bus flag, and the bus buffer the
/// bus values.
proof fn lemma_table_equations(t: TableAir, s: Store)
    requires
        t.wf(),
        t.graph@.len() <= u32::MAX,
        table_columns_exist(t, s.inner.len() as int),
        memory_wf(s),
        forall|i: int|
            0 <= i < t.constraints@.len() ==> (#[trigger] t.constraints@[i]) is Operation,
        all_hold(s, gen_table(t).1.out),
    ensures
        forall|i: int|
            0 <= i < t.constraints@.len() ==> #[trigger] s.slots[i] == expr_value(
                t.graph@,
                t.constraints@[i],
                s.inner,
            ),
        place_value(s, gen_table(t).0) == expr_value(t.graph@, t.bus_flag, s.inner),
        forall|j: int|
            0 <= j < t.bus_data@.len() ==> #[trigger] s.bus[j] == expr_value(
                t.graph@,
                t.bus_data@[j],
                s.inner,
            ),
{
    let graph = t.graph@;
    let n = t.constraints@.len();
    let m = t.bus_data@.len();
    let s1 = gen_constraints(graph, t.constraints@, n, start(graph.len()));
    let (flag, s2) = gen(graph, t.bus_flag, None, s1);
    let s3 = emit(s2, Stmt::BusBuffer(m as u64));
    let s4 = gen_bus(graph, t.bus_data@, m, s3);
    lemma_gen_extends(graph, t.bus_flag, None, s1);
    assert(extends(s2.out, s3.out));
    lemma_bus_extends(graph, t, s3, m);
    lemma_hold_prefix(s, s3.out, s4.out);
    lemma_hold_prefix(s, s2.out, s3.out);
    lemma_hold_prefix(s, s1.out, s2.out);
    lemma_constraints_values(t, n, s);
    lemma_gen_values(graph, t.bus_flag, None, s1, s);
    lemma_bus_values(t, s3, m, s);
}

proof fn lemma_bus_extends(graph: Seq<Node>, t: TableAir, st: Gen, n: nat)
    requires
        t.wf(),
        graph == t.graph@,
        n <= t.bus_data@.len(),
    ensures
        extends(st.out, gen_bus(graph, t.bus_data@, n, st).out),
    decreases n,
{
    if n > 0 {
        let k = (n - 1) as nat;
        lemma_bus_extends(graph, t, st, k);
        let st1 = gen_bus(graph, t.bus_data@, k, st);
        let e = t.bus_data@[k as int];
        assert(in_graph(graph, e));
        let (p, st2) = gen(graph, e, None, st1);
        let st3 = emit(st2, Stmt::BusCopy(p, k as u64));
        lemma_gen_extends(graph, e, None, st1);
        lemma_extends_trans(st.out, st1.out, st2.out);
        assert(extends(st2.out, st3.out));
        lemma_extends_trans(st.out, st2.out, st3.out);
    }
}

proof fn lemma_constraints_extend(t: TableAir, n: nat)
    requires
        t.wf(),
        n <= t.constraints@.len(),
    ensures
        all_writable(gen_constraints(t.graph@, t.constraints@, n, start(t.graph@.len())).out),
    decreases n,
{
    if n > 0 {
        let k = (n - 1) as nat;
        lemma_constraints_extend(t, k);
        let st = gen_constraints(t.graph@, t.constraints@, k, start(t.graph@.len()));
        let e = t.constraints@[k as int];
        let dest = Some(Place::Slot(k as u64));
        assert(in_graph(t.graph@, e));
        lemma_gen_extends(t.graph@, e, dest, st);
        lemma_writable_step(st.out, gen(t.graph@, e, dest, st).1.out);
    }
}

/// All statements of a table have words for their operations.
proof fn lemma_table_writable(t: TableAir)
    requires
        t.wf(),
    ensures
        all_writable(gen_table(t).1.out),
{
    let graph = t.graph@;
    let n = t.constraints@.len();
    let m = t.bus_data@.len();
    let s1 = gen_constraints(graph, t.constraints@, n, start(graph.len()));
    let (flag, s2) = gen(graph, t.bus_flag, None, s1);
    let s3 = emit(s2, Stmt::BusBuffer(m as u64));
    let s4 = gen_bus(graph, t.bus_data@, m, s3);
    lemma_constraints_extend(t, n);
    lemma_gen_extends(graph, t.bus_flag, None, s1);
    lemma_writable_step(s1.out, s2.out);
    assert(extends(s2.out, s3.out));
    lemma_writable_step(s2.out, s3.out);
    lemma_bus_extends(graph, t, s3, m);
    lemma_writable_step(s3.out, s4.out);
}

/// The text of a table's function, read as code, computes the table: in every memory in which
/// what its lines say holds, the constraint buffer holds the value of each constraint, the
/// place that the text names as the flag the value of the bus flag, and the bus buffer each
/// bus value, for all column values. The constraints are to be nodes: a bare constant or
/// column is not copied to its slot.
pub proof fn lemma_table_text_computes(t: TableAir, max_bus_width: int, s: Store)
    requires
        t.wf(),
        t.graph@.len() <= u32::MAX,
        table_columns_exist(t, s.inner.len() as int),
        memory_wf(s),
        forall|i: int|
            0 <= i < t.constraints@.len() ==> (#[trigger] t.constraints@[i]) is Operation,
        text_holds(s, table_text(t, max_bus_width)),
    ensures
        forall|i: int|
            0 <= i < t.constraints@.len() ==> #[trigger] s.slots[i] == expr_value(
                t.graph@,
                t.constraints@[i],
                s.inner,
            ),
        arg_value(s, place_text(gen_table(t).0)) == expr_value(t.graph@, t.bus_flag, s.inner),
        forall|j: int|
            0 <= j < t.bus_data@.len() ==> #[trigger] s.bus[j] == expr_value(
                t.graph@,
                t.bus_data@[j],
                s.inner,
            ),
{
    let (flag, st) = gen_table(t);
    let (front, back) = table_frame(t, max_bus_width, flag);
    lemma_table_frame(t, max_bus_width);
    lemma_table_writable(t);
    assert forall|i: int| 0 <= i < st.out.len() implies stmt_holds(s, #[trigger] st.out[i]) by {
        assert(writable(st.out[i]));
        lemma_stmts_say(s, flat(front), st.out, flat(back), i);
    }
    lemma_table_equations(t, s);
    lemma_place(s, flag);
}

/// What stands before and behind the statements in a table's function.
pub open spec fn table_frame(t: TableAir, max_bus_width: int, flag: Place) -> (
    Seq<Seq<char>>,
    Seq<Seq<char>>,
) {
    let n = decimal(t.constraints@.len() as int);
    let m = decimal(t.bus_data@.len() as int);
    (
        seq![
            "def evaluate_air_constraints_table_"@,
            decimal(t.index as int),
            "(inner_evals, air_alpha_powers, bus_beta, logup_alphas_eq_poly):\n"@,
            "\n    constraints_buf = Array(DIM * "@,
            n,
            ")"@,
        ],
        seq![
            "\n    bus_res_init = Array(DIM)"@,
            "\n    dot_product_ee(buff, logup_alphas_eq_poly, bus_res_init, "@,
            m,
            ")"@,
            "\n    bus_res: Mut = add_extension_ret(mul_base_extension_ret(LOGUP_PRECOMPILE_DOMAINSEP, logup_alphas_eq_poly + "@,
            decimal(crate::numeric::next_pow2(max_bus_width) - 1),
            " * DIM), bus_res_init)"@,
            "\n    bus_res = mul_extension_ret(bus_res, bus_beta)"@,
            "\n    sum: Mut = add_extension_ret(bus_res, "@,
            place_text(flag),
            ")"@,
            "\n    weighted_constraints = Array(DIM)"@,
            "\n    dot_product_ee(air_alpha_powers + DIM, constraints_buf, weighted_constraints, "@,
            n,
            ")"@,
            "\n    sum = add_extension_ret(sum, weighted_constraints)"@,
            "\n    return sum"@,
            "\n"@,
        ],
    )
}

pub proof fn lemma_table_frame(t: TableAir, max_bus_width: int)
    ensures
        ({
            let (flag, st) = gen_table(t);
            let (front, back) = table_frame(t, max_bus_width, flag);
            &&& table_text(t, max_bus_width) == flat(front) + stmts_text(st.out) + flat(back)
            &&& flat(back).len() > 0
            &&& flat(back)[0] == '\n'
        }),
{
    let (flag, st) = gen_table(t);
    let (front, back) = table_frame(t, max_bus_width, flag);
    let n = decimal(t.constraints@.len() as int);
    let m = decimal(t.bus_data@.len() as int);
    let mid = seq![stmts_text(st.out)];
    lemma_flat_add(front, mid);
    lemma_flat_add(front + mid, back);
    reveal_with_fuel(flat, 2);
    assert(mid.drop_last().len() == 0);
    assert(flat(mid) =~= stmts_text(st.out));
    assert(front + mid + back =~= seq![
        "def evaluate_air_constraints_table_"@,
        decimal(t.index as int),
        "(inner_evals, air_alpha_powers, bus_beta, logup_alphas_eq_poly):\n"@,
        "\n    constraints_buf = Array(DIM * "@,
        n,
        ")"@,
        stmts_text(st.out),
        "\n    bus_res_init = Array(DIM)"@,
        "\n    dot_product_ee(buff, logup_alphas_eq_poly, bus_res_init, "@,
        m,
        ")"@,
        "\n    bus_res: Mut = add_extension_ret(mul_base_extension_ret(LOGUP_PRECOMPILE_DOMAINSEP, logup_alphas_eq_poly + "@,
        decimal(crate::numeric::next_pow2(max_bus_width) - 1),
        " * DIM), bus_res_init)"@,
        "\n    bus_res = mul_extension_ret(bus_res, bus_beta)"@,
        "\n    sum: Mut = add_extension_ret(bus_res, "@,
        place_text(flag),
        ")"@,
        "\n    weighted_constraints = Array(DIM)"@,
        "\n    dot_product_ee(air_alpha_powers + DIM, constraints_buf, weighted_constraints, "@,
        n,
        ")"@,
        "\n    sum = add_extension_ret(sum, weighted_constraints)"@,
        "\n    return sum"@,
        "\n"@,
    ]);
    reveal_strlit("\n    bus_res_init = Array(DIM)");
    assert("\n    bus_res_init = Array(DIM)"@[0] == '\n');
    assert("\n    bus_res_init = Array(DIM)"@.len() > 0);
    lemma_flat_first(back);
}

} // verus!
