//! What the function that is generated for a table returns.
//!
//! The lines behind the statements combine the buffers: the bus values with the weights of
//! the lookup argument, the flag, and the constraints with the powers of a challenge. Here
//! they are read as text and executed one after the other.

use crate::air::{
    base_call, base_into_name, base_ret_name, call_two, ext_into_name, ext_ret_name, gen_table,
    line, place_text, stmt_text, stmts_text, table_text, Op, Place, Stmt, TableAir,
};
use crate::air_laws::{expr_value, table_columns_exist, Store};
use crate::air_text_laws::{
    arg_value, assign_code, before, behind, call_code, find, first_arg, free, lemma_args,
    lemma_assign_free, lemma_base_call_text, lemma_body, lemma_buffer_slot, lemma_call_free,
    lemma_call_three_text, lemma_call_two_text, lemma_decimal_plain, lemma_find, lemma_find_none,
    lemma_flat_2, lemma_flat_4, lemma_flat_5, lemma_flat_6, lemma_lines_extend, lemma_lit_bus,
    lemma_lit_close, lemma_lit_comma, lemma_lit_copy, lemma_lit_embed, lemma_lit_line,
    lemma_lit_open, lemma_lit_opp, lemma_names, lemma_not_starts, lemma_place, lemma_plain_add,
    lemma_plain_aux, lemma_plain_dim, lemma_plain_inner, lemma_plain_slot, lemma_spelled_copy,
    lemma_spelled_embed, lemma_spelled_opposite, lemma_table_frame, lemma_table_text_computes,
    lemma_variable, lines, memory_wf, other_args, plain, starts, table_frame, text_holds,
};
use crate::ext::{eadd, emul, Ext};
use crate::numeric::next_pow2;
use crate::slices::{flat, lemma_flat_take};
use crate::sums::{esum, lemma_esum_eq};
use crate::text::decimal;
use crate::text_laws::{lemma_decimal_reads_back, number};
use vstd::prelude::*;

verus! {

/// What the names stand for: values by their name, the powers of the challenge, the weights of
/// the lookup argument, and the separator of its domain.
pub struct Scope {
    pub named: Map<Seq<char>, Ext>,
    pub alphas: Seq<Ext>,
    pub logup: Seq<Ext>,
    pub separator: Ext,
}

/// The position of the first comma outside of parentheses, of which `d` are open.
pub open spec fn top_comma(s: Seq<char>, d: int) -> int
    decreases s.len(),
{
    if s.len() == 0 || (s[0] == ',' && d == 0) {
        0
    } else {
        1 + top_comma(
            s.drop_first(),
            if s[0] == '(' {
                d + 1
            } else if s[0] == ')' {
                d - 1
            } else {
                d
            },
        )
    }
}

/// The text names a place in the memory.
pub open spec fn names_place(text: Seq<char>) -> bool {
    starts(text, "aux_"@) || starts(text, "inner_evals + DIM * "@) || starts(
        text,
        "constraints_buf + "@,
    )
}

/// The value of an expression with calls nested at most `nesting` deep.
pub open spec fn value_of(s: Store, e: Scope, text: Seq<char>, nesting: nat) -> Ext
    decreases nesting,
{
    if find(text, '(') < text.len() && nesting > 0 {
        let name = before(text, '(');
        let body = behind(text, '(').drop_last();
        let k = top_comma(body, 0);
        let a = value_of(s, e, body.take(k), (nesting - 1) as nat);
        let b = value_of(s, e, body.skip(k + 2), (nesting - 1) as nat);
        if name == "add_extension_ret"@ {
            eadd(a, b)
        } else if name == "mul_extension_ret"@ || name == "mul_base_extension_ret"@ {
            emul(a, b)
        } else {
            arbitrary()
        }
    } else if names_place(text) {
        arg_value(s, text)
    } else if text == "LOGUP_PRECOMPILE_DOMAINSEP"@ {
        e.separator
    } else if starts(text, "logup_alphas_eq_poly + "@) {
        e.logup[number(before(text.skip(23), ' '))]
    } else {
        e.named[text]
    }
}

/// Element `i` of a vector.
pub open spec fn element_of(s: Store, e: Scope, text: Seq<char>, i: int) -> Ext {
    if text == "buff"@ {
        s.bus[i]
    } else if text == "constraints_buf"@ {
        s.slots[i]
    } else if text == "logup_alphas_eq_poly"@ {
        e.logup[i]
    } else if text == "air_alpha_powers + DIM"@ {
        e.alphas[i + 1]
    } else {
        arbitrary()
    }
}

/// The scope with a name set to a value.
pub open spec fn set_name(e: Scope, name: Seq<char>, x: Ext) -> Scope {
    Scope { named: e.named.insert(name, x), ..e }
}

/// What a line of code does to the names: it sets one to the value of an expression or to a
/// dot product, or gives back the value of one. Variables of the memory and allocations set
/// none.
pub open spec fn exec_code(s: Store, e: Scope, text: Seq<char>) -> Scope {
    if find(text, '=') < text.len() {
        let target = before(text, '=');
        let source = behind(text, '=').skip(1);
        if starts(target, "aux_"@) || starts(source, "Array"@) {
            e
        } else {
            set_name(e, before(before(target, ' '), ':'), value_of(s, e, source, 2))
        }
    } else if before(text, '(') == "dot_product_ee"@ {
        let body = behind(text, '(').drop_last();
        let (a, rest) = (first_arg(body), other_args(body));
        let (b, more) = (first_arg(rest), other_args(rest));
        set_name(
            e,
            first_arg(more),
            esum(
                |i: int| emul(element_of(s, e, a, i), element_of(s, e, b, i)),
                number(other_args(more)) as nat,
            ),
        )
    } else if starts(text, "return "@) {
        set_name(e, "return"@, e.named[text.skip(7)])
    } else {
        e
    }
}

/// What indented lines do to the names, one after the other.
pub open spec fn run_lines(s: Store, e: Scope, ls: Seq<Seq<char>>) -> Scope
    decreases ls.len(),
{
    if ls.len() == 0 {
        e
    } else {
        let p = run_lines(s, e, ls.drop_last());
        if starts(ls.last(), "    "@) {
            exec_code(s, p, ls.last().skip(4))
        } else {
            p
        }
    }
}

/// What a text does to the names.
pub open spec fn run_text(s: Store, e: Scope, text: Seq<char>) -> Scope {
    run_lines(s, e, lines(text))
}

/// The value that a text gives back.
pub open spec fn returned(s: Store, e: Scope, text: Seq<char>) -> Ext {
    run_text(s, e, text).named["return"@]
}

// Words.

proof fn lemma_word_bus_res_init()
    ensures
        "bus_res_init"@.len() == 12,
        "bus_res_init"@[0] == 'b',
        plain("bus_res_init"@),
        free("bus_res_init"@, ' '),
        free("bus_res_init"@, ':'),
{
    reveal_strlit("bus_res_init");
    let s = "bus_res_init"@;
    assert(s[0] == 'b');
    assert(s[1] == 'u');
    assert(s[2] == 's');
    assert(s[3] == '_');
    assert(s[4] == 'r');
    assert(s[5] == 'e');
    assert(s[6] == 's');
    assert(s[7] == '_');
    assert(s[8] == 'i');
    assert(s[9] == 'n');
    assert(s[10] == 'i');
    assert(s[11] == 't');
}

proof fn lemma_word_bus_res()
    ensures
        "bus_res"@.len() == 7,
        "bus_res"@[0] == 'b',
        plain("bus_res"@),
        free("bus_res"@, ' '),
        free("bus_res"@, ':'),
{
    reveal_strlit("bus_res");
    let s = "bus_res"@;
    assert(s[0] == 'b');
    assert(s[1] == 'u');
    assert(s[2] == 's');
    assert(s[3] == '_');
    assert(s[4] == 'r');
    assert(s[5] == 'e');
    assert(s[6] == 's');
}

proof fn lemma_word_bus_beta()
    ensures
        "bus_beta"@.len() == 8,
        "bus_beta"@[0] == 'b',
        plain("bus_beta"@),
        free("bus_beta"@, ' '),
        free("bus_beta"@, ':'),
{
    reveal_strlit("bus_beta");
    let s = "bus_beta"@;
    assert(s[0] == 'b');
    assert(s[1] == 'u');
    assert(s[2] == 's');
    assert(s[3] == '_');
    assert(s[4] == 'b');
    assert(s[5] == 'e');
    assert(s[6] == 't');
    assert(s[7] == 'a');
}

proof fn lemma_word_sum()
    ensures
        "sum"@.len() == 3,
        "sum"@[0] == 's',
        plain("sum"@),
        free("sum"@, ' '),
        free("sum"@, ':'),
{
    reveal_strlit("sum");
    let s = "sum"@;
    assert(s[0] == 's');
    assert(s[1] == 'u');
    assert(s[2] == 'm');
}

proof fn lemma_word_weighted()
    ensures
        "weighted_constraints"@.len() == 20,
        "weighted_constraints"@[0] == 'w',
        plain("weighted_constraints"@),
        free("weighted_constraints"@, ' '),
        free("weighted_constraints"@, ':'),
{
    reveal_strlit("weighted_constraints");
    let s = "weighted_constraints"@;
    assert(s[0] == 'w');
    assert(s[1] == 'e');
    assert(s[2] == 'i');
    assert(s[3] == 'g');
    assert(s[4] == 'h');
    assert(s[5] == 't');
    assert(s[6] == 'e');
    assert(s[7] == 'd');
    assert(s[8] == '_');
    assert(s[9] == 'c');
    assert(s[10] == 'o');
    assert(s[11] == 'n');
    assert(s[12] == 's');
    assert(s[13] == 't');
    assert(s[14] == 'r');
    assert(s[15] == 'a');
    assert(s[16] == 'i');
    assert(s[17] == 'n');
    assert(s[18] == 't');
    assert(s[19] == 's');
}

proof fn lemma_word_buff()
    ensures
        "buff"@.len() == 4,
        "buff"@[0] == 'b',
        plain("buff"@),
        free("buff"@, ' '),
        free("buff"@, ':'),
{
    reveal_strlit("buff");
    let s = "buff"@;
    assert(s[0] == 'b');
    assert(s[1] == 'u');
    assert(s[2] == 'f');
    assert(s[3] == 'f');
}

proof fn lemma_word_constraints()
    ensures
        "constraints_buf"@.len() == 15,
        "constraints_buf"@[0] == 'c',
        plain("constraints_buf"@),
        free("constraints_buf"@, ' '),
        free("constraints_buf"@, ':'),
{
    reveal_strlit("constraints_buf");
    let s = "constraints_buf"@;
    assert(s[0] == 'c');
    assert(s[1] == 'o');
    assert(s[2] == 'n');
    assert(s[3] == 's');
    assert(s[4] == 't');
    assert(s[5] == 'r');
    assert(s[6] == 'a');
    assert(s[7] == 'i');
    assert(s[8] == 'n');
    assert(s[9] == 't');
    assert(s[10] == 's');
    assert(s[11] == '_');
    assert(s[12] == 'b');
    assert(s[13] == 'u');
    assert(s[14] == 'f');
}

proof fn lemma_word_poly()
    ensures
        "logup_alphas_eq_poly"@.len() == 20,
        "logup_alphas_eq_poly"@[0] == 'l',
        plain("logup_alphas_eq_poly"@),
        free("logup_alphas_eq_poly"@, ' '),
        free("logup_alphas_eq_poly"@, ':'),
{
    reveal_strlit("logup_alphas_eq_poly");
    let s = "logup_alphas_eq_poly"@;
    assert(s[0] == 'l');
    assert(s[1] == 'o');
    assert(s[2] == 'g');
    assert(s[3] == 'u');
    assert(s[4] == 'p');
    assert(s[5] == '_');
    assert(s[6] == 'a');
    assert(s[7] == 'l');
    assert(s[8] == 'p');
    assert(s[9] == 'h');
    assert(s[10] == 'a');
    assert(s[11] == 's');
    assert(s[12] == '_');
    assert(s[13] == 'e');
    assert(s[14] == 'q');
    assert(s[15] == '_');
    assert(s[16] == 'p');
    assert(s[17] == 'o');
    assert(s[18] == 'l');
    assert(s[19] == 'y');
}

proof fn lemma_word_powers()
    ensures
        "air_alpha_powers + DIM"@.len() == 22,
        "air_alpha_powers + DIM"@[0] == 'a',
        plain("air_alpha_powers + DIM"@),
        free("air_alpha_powers + DIM"@, ':'),
{
    reveal_strlit("air_alpha_powers + DIM");
    let s = "air_alpha_powers + DIM"@;
    assert(s[0] == 'a');
    assert(s[1] == 'i');
    assert(s[2] == 'r');
    assert(s[3] == '_');
    assert(s[4] == 'a');
    assert(s[5] == 'l');
    assert(s[6] == 'p');
    assert(s[7] == 'h');
    assert(s[8] == 'a');
    assert(s[9] == '_');
    assert(s[10] == 'p');
    assert(s[11] == 'o');
    assert(s[12] == 'w');
    assert(s[13] == 'e');
    assert(s[14] == 'r');
    assert(s[15] == 's');
    assert(s[16] == ' ');
    assert(s[17] == '+');
    assert(s[18] == ' ');
    assert(s[19] == 'D');
    assert(s[20] == 'I');
    assert(s[21] == 'M');
}

proof fn lemma_word_weights()
    ensures
        "logup_alphas_eq_poly + "@.len() == 23,
        "logup_alphas_eq_poly + "@[0] == 'l',
        plain("logup_alphas_eq_poly + "@),
        free("logup_alphas_eq_poly + "@, ':'),
{
    reveal_strlit("logup_alphas_eq_poly + ");
    let s = "logup_alphas_eq_poly + "@;
    assert(s[0] == 'l');
    assert(s[1] == 'o');
    assert(s[2] == 'g');
    assert(s[3] == 'u');
    assert(s[4] == 'p');
    assert(s[5] == '_');
    assert(s[6] == 'a');
    assert(s[7] == 'l');
    assert(s[8] == 'p');
    assert(s[9] == 'h');
    assert(s[10] == 'a');
    assert(s[11] == 's');
    assert(s[12] == '_');
    assert(s[13] == 'e');
    assert(s[14] == 'q');
    assert(s[15] == '_');
    assert(s[16] == 'p');
    assert(s[17] == 'o');
    assert(s[18] == 'l');
    assert(s[19] == 'y');
    assert(s[20] == ' ');
    assert(s[21] == '+');
    assert(s[22] == ' ');
}

proof fn lemma_word_separator()
    ensures
        "LOGUP_PRECOMPILE_DOMAINSEP"@.len() == 26,
        "LOGUP_PRECOMPILE_DOMAINSEP"@[0] == 'L',
        plain("LOGUP_PRECOMPILE_DOMAINSEP"@),
        free("LOGUP_PRECOMPILE_DOMAINSEP"@, ' '),
        free("LOGUP_PRECOMPILE_DOMAINSEP"@, ':'),
{
    reveal_strlit("LOGUP_PRECOMPILE_DOMAINSEP");
    let s = "LOGUP_PRECOMPILE_DOMAINSEP"@;
    assert(s[0] == 'L');
    assert(s[1] == 'O');
    assert(s[2] == 'G');
    assert(s[3] == 'U');
    assert(s[4] == 'P');
    assert(s[5] == '_');
    assert(s[6] == 'P');
    assert(s[7] == 'R');
    assert(s[8] == 'E');
    assert(s[9] == 'C');
    assert(s[10] == 'O');
    assert(s[11] == 'M');
    assert(s[12] == 'P');
    assert(s[13] == 'I');
    assert(s[14] == 'L');
    assert(s[15] == 'E');
    assert(s[16] == '_');
    assert(s[17] == 'D');
    assert(s[18] == 'O');
    assert(s[19] == 'M');
    assert(s[20] == 'A');
    assert(s[21] == 'I');
    assert(s[22] == 'N');
    assert(s[23] == 'S');
    assert(s[24] == 'E');
    assert(s[25] == 'P');
}

proof fn lemma_word_head()
    ensures
        "def evaluate_air_constraints_table_"@.len() == 35,
        "def evaluate_air_constraints_table_"@[0] == 'd',
        plain("def evaluate_air_constraints_table_"@),
        free("def evaluate_air_constraints_table_"@, ':'),
{
    reveal_strlit("def evaluate_air_constraints_table_");
    let s = "def evaluate_air_constraints_table_"@;
    assert(s[0] == 'd');
    assert(s[1] == 'e');
    assert(s[2] == 'f');
    assert(s[3] == ' ');
    assert(s[4] == 'e');
    assert(s[5] == 'v');
    assert(s[6] == 'a');
    assert(s[7] == 'l');
    assert(s[8] == 'u');
    assert(s[9] == 'a');
    assert(s[10] == 't');
    assert(s[11] == 'e');
    assert(s[12] == '_');
    assert(s[13] == 'a');
    assert(s[14] == 'i');
    assert(s[15] == 'r');
    assert(s[16] == '_');
    assert(s[17] == 'c');
    assert(s[18] == 'o');
    assert(s[19] == 'n');
    assert(s[20] == 's');
    assert(s[21] == 't');
    assert(s[22] == 'r');
    assert(s[23] == 'a');
    assert(s[24] == 'i');
    assert(s[25] == 'n');
    assert(s[26] == 't');
    assert(s[27] == 's');
    assert(s[28] == '_');
    assert(s[29] == 't');
    assert(s[30] == 'a');
    assert(s[31] == 'b');
    assert(s[32] == 'l');
    assert(s[33] == 'e');
    assert(s[34] == '_');
}

proof fn lemma_word_params()
    ensures
        "(inner_evals, air_alpha_powers, bus_beta, logup_alphas_eq_poly):"@.len() == 64,
        "(inner_evals, air_alpha_powers, bus_beta, logup_alphas_eq_poly):"@[0] == '(',
        free("(inner_evals, air_alpha_powers, bus_beta, logup_alphas_eq_poly):"@, '='),
        free("(inner_evals, air_alpha_powers, bus_beta, logup_alphas_eq_poly):"@, '['),
        free("(inner_evals, air_alpha_powers, bus_beta, logup_alphas_eq_poly):"@, '\n'),
{
    reveal_strlit("(inner_evals, air_alpha_powers, bus_beta, logup_alphas_eq_poly):");
    let s = "(inner_evals, air_alpha_powers, bus_beta, logup_alphas_eq_poly):"@;
    assert(s[0] == '(');
    assert(s[1] == 'i');
    assert(s[2] == 'n');
    assert(s[3] == 'n');
    assert(s[4] == 'e');
    assert(s[5] == 'r');
    assert(s[6] == '_');
    assert(s[7] == 'e');
    assert(s[8] == 'v');
    assert(s[9] == 'a');
    assert(s[10] == 'l');
    assert(s[11] == 's');
    assert(s[12] == ',');
    assert(s[13] == ' ');
    assert(s[14] == 'a');
    assert(s[15] == 'i');
    assert(s[16] == 'r');
    assert(s[17] == '_');
    assert(s[18] == 'a');
    assert(s[19] == 'l');
    assert(s[20] == 'p');
    assert(s[21] == 'h');
    assert(s[22] == 'a');
    assert(s[23] == '_');
    assert(s[24] == 'p');
    assert(s[25] == 'o');
    assert(s[26] == 'w');
    assert(s[27] == 'e');
    assert(s[28] == 'r');
    assert(s[29] == 's');
    assert(s[30] == ',');
    assert(s[31] == ' ');
    assert(s[32] == 'b');
    assert(s[33] == 'u');
    assert(s[34] == 's');
    assert(s[35] == '_');
    assert(s[36] == 'b');
    assert(s[37] == 'e');
    assert(s[38] == 't');
    assert(s[39] == 'a');
    assert(s[40] == ',');
    assert(s[41] == ' ');
    assert(s[42] == 'l');
    assert(s[43] == 'o');
    assert(s[44] == 'g');
    assert(s[45] == 'u');
    assert(s[46] == 'p');
    assert(s[47] == '_');
    assert(s[48] == 'a');
    assert(s[49] == 'l');
    assert(s[50] == 'p');
    assert(s[51] == 'h');
    assert(s[52] == 'a');
    assert(s[53] == 's');
    assert(s[54] == '_');
    assert(s[55] == 'e');
    assert(s[56] == 'q');
    assert(s[57] == '_');
    assert(s[58] == 'p');
    assert(s[59] == 'o');
    assert(s[60] == 'l');
    assert(s[61] == 'y');
    assert(s[62] == ')');
    assert(s[63] == ':');
}

proof fn lemma_word_cell_array()
    ensures
        " = Array(1)"@.len() == 11,
        " = Array(1)"@[0] == ' ',
        free(" = Array(1)"@, ','),
        free(" = Array(1)"@, '['),
        free(" = Array(1)"@, '\n'),
        free(" = Array(1)"@, ':'),
        " = Array(1)"@[1] == '=',
{
    reveal_strlit(" = Array(1)");
    let s = " = Array(1)"@;
    assert(s[0] == ' ');
    assert(s[1] == '=');
    assert(s[2] == ' ');
    assert(s[3] == 'A');
    assert(s[4] == 'r');
    assert(s[5] == 'r');
    assert(s[6] == 'a');
    assert(s[7] == 'y');
    assert(s[8] == '(');
    assert(s[9] == '1');
    assert(s[10] == ')');
}

proof fn lemma_word_space()
    ensures
        " "@.len() == 1,
        " "@[0] == ' ',
        plain(" "@),
        free(" "@, ':'),
{
    reveal_strlit(" ");
    let s = " "@;
    assert(s[0] == ' ');
}

proof fn lemma_word_equals()
    ensures
        " = "@.len() == 3,
        " = "@[0] == ' ',
        free(" = "@, '('),
        free(" = "@, ')'),
        free(" = "@, ','),
        free(" = "@, '['),
        free(" = "@, '\n'),
        free(" = "@, ':'),
        " = "@[1] == '=',
        " = "@[2] == ' ',
{
    reveal_strlit(" = ");
    let s = " = "@;
    assert(s[0] == ' ');
    assert(s[1] == '=');
    assert(s[2] == ' ');
}

proof fn lemma_word_mut()
    ensures
        ": Mut"@.len() == 5,
        ": Mut"@[0] == ':',
        plain(": Mut"@),
        ": Mut"@[1] == ' ',
        ": Mut"@[2] == 'M',
        ": Mut"@[3] == 'u',
        ": Mut"@[4] == 't',
{
    reveal_strlit(": Mut");
    let s = ": Mut"@;
    assert(s[0] == ':');
    assert(s[1] == ' ');
    assert(s[2] == 'M');
    assert(s[3] == 'u');
    assert(s[4] == 't');
}

proof fn lemma_word_return()
    ensures
        "return "@.len() == 7,
        "return "@[0] == 'r',
        plain("return "@),
        free("return "@, ':'),
        "return"@.len() == 6,
{
    reveal_strlit("return ");
    let s = "return "@;
    assert(s[0] == 'r');
    assert(s[1] == 'e');
    assert(s[2] == 't');
    assert(s[3] == 'u');
    assert(s[4] == 'r');
    assert(s[5] == 'n');
    assert(s[6] == ' ');
    reveal_strlit("return");
    assert("return"@.len() == 6);
}

proof fn lemma_word_dot()
    ensures
        "dot_product_ee"@.len() == 14,
        "dot_product_ee"@[0] == 'd',
        plain("dot_product_ee"@),
        free("dot_product_ee"@, ' '),
        free("dot_product_ee"@, ':'),
{
    reveal_strlit("dot_product_ee");
    let s = "dot_product_ee"@;
    assert(s[0] == 'd');
    assert(s[1] == 'o');
    assert(s[2] == 't');
    assert(s[3] == '_');
    assert(s[4] == 'p');
    assert(s[5] == 'r');
    assert(s[6] == 'o');
    assert(s[7] == 'd');
    assert(s[8] == 'u');
    assert(s[9] == 'c');
    assert(s[10] == 't');
    assert(s[11] == '_');
    assert(s[12] == 'e');
    assert(s[13] == 'e');
}

proof fn lemma_word_array()
    ensures
        "Array"@.len() == 5,
        "Array"@[0] == 'A',
        starts("Array(DIM)"@, "Array"@),
        free("Array(DIM)"@, '\n'),
{
    reveal_strlit("Array");
    reveal_strlit("Array(DIM)");
    let (a, s) = ("Array"@, "Array(DIM)"@);
    assert(a[0] == 'A');
    assert(a[1] == 'r');
    assert(a[2] == 'r');
    assert(a[3] == 'a');
    assert(a[4] == 'y');
    assert(s[0] == 'A');
    assert(s[1] == 'r');
    assert(s[2] == 'r');
    assert(s[3] == 'a');
    assert(s[4] == 'y');
    assert(s[5] == '(');
    assert(s[6] == 'D');
    assert(s[7] == 'I');
    assert(s[8] == 'M');
    assert(s[9] == ')');
    assert(s.take(5) =~= a);
}

proof fn lemma_word_array_dim()
    ensures
        "Array(DIM * "@.len() == 12,
        "Array"@.len() == 5,
        "Array(DIM * "@.take(5) == "Array"@,
        free("Array(DIM * "@, '\n'),
{
    reveal_strlit("Array");
    reveal_strlit("Array(DIM * ");
    let (a, s) = ("Array"@, "Array(DIM * "@);
    assert(a[0] == 'A');
    assert(a[1] == 'r');
    assert(a[2] == 'r');
    assert(a[3] == 'a');
    assert(a[4] == 'y');
    assert(s[0] == 'A');
    assert(s[1] == 'r');
    assert(s[2] == 'r');
    assert(s[3] == 'a');
    assert(s[4] == 'y');
    assert(s[5] == '(');
    assert(s[6] == 'D');
    assert(s[7] == 'I');
    assert(s[8] == 'M');
    assert(s[9] == ' ');
    assert(s[10] == '*');
    assert(s[11] == ' ');
    assert(s.take(5) =~= a);
}

proof fn lemma_word_vectors()
    ensures
        "buff"@ != "constraints_buf"@,
        "buff"@ != "logup_alphas_eq_poly"@,
        "buff"@ != "air_alpha_powers + DIM"@,
        "constraints_buf"@ != "logup_alphas_eq_poly"@,
        "constraints_buf"@ != "air_alpha_powers + DIM"@,
        "logup_alphas_eq_poly"@ != "air_alpha_powers + DIM"@,
{
    reveal_strlit("buff");
    reveal_strlit("constraints_buf");
    reveal_strlit("logup_alphas_eq_poly");
    reveal_strlit("air_alpha_powers + DIM");
    assert("buff"@.len() == 4);
    assert("constraints_buf"@.len() == 15);
    assert("logup_alphas_eq_poly"@.len() == 20);
    assert("air_alpha_powers + DIM"@.len() == 22);
}

proof fn lemma_word_keys()
    ensures
        "bus_res_init"@ != "bus_res"@,
        "bus_res_init"@ != "bus_beta"@,
        "bus_res_init"@ != "sum"@,
        "bus_res_init"@ != "weighted_constraints"@,
        "bus_res_init"@ != "return"@,
        "bus_res"@ != "bus_beta"@,
        "bus_res"@ != "sum"@,
        "bus_res"@ != "weighted_constraints"@,
        "bus_res"@ != "return"@,
        "bus_beta"@ != "sum"@,
        "bus_beta"@ != "weighted_constraints"@,
        "bus_beta"@ != "return"@,
        "sum"@ != "weighted_constraints"@,
        "sum"@ != "return"@,
        "weighted_constraints"@ != "return"@,
{
    reveal_strlit("bus_res_init");
    reveal_strlit("bus_res");
    reveal_strlit("bus_beta");
    reveal_strlit("sum");
    reveal_strlit("weighted_constraints");
    reveal_strlit("return");
    assert("bus_res_init"@.len() == 12);
    assert("bus_res"@.len() == 7);
    assert("bus_beta"@.len() == 8);
    assert("sum"@.len() == 3);
    assert("weighted_constraints"@.len() == 20);
    assert("return"@.len() == 6);
}

proof fn lemma_word_calls()
    ensures
        "copy_5"@ != "dot_product_ee"@,
        "copy_5"@.len() > 0,
        "copy_5"@[0] == 'c',
        "add_ee"@ != "dot_product_ee"@,
        "add_ee"@.len() > 0,
        "add_ee"@[0] == 'a',
        "sub_extension"@ != "dot_product_ee"@,
        "sub_extension"@.len() > 0,
        "sub_extension"@[0] == 's',
        "mul_extension"@ != "dot_product_ee"@,
        "mul_extension"@.len() > 0,
        "mul_extension"@[0] == 'm',
        "dot_product_be"@ != "dot_product_ee"@,
        "dot_product_be"@.len() > 0,
        "dot_product_be"@[0] == 'd',
        "add_be"@ != "dot_product_ee"@,
        "add_be"@.len() > 0,
        "add_be"@[0] == 'a',
{
    reveal_strlit("copy_5");
    reveal_strlit("add_ee");
    reveal_strlit("sub_extension");
    reveal_strlit("mul_extension");
    reveal_strlit("dot_product_be");
    reveal_strlit("add_be");
    reveal_strlit("dot_product_ee");
    assert("copy_5"@.len() == 6);
    assert("copy_5"@[4] == '_');
    assert("add_ee"@.len() == 6);
    assert("add_ee"@[4] == 'e');
    assert("sub_extension"@.len() == 13);
    assert("sub_extension"@[0] == 's');
    assert("mul_extension"@.len() == 13);
    assert("mul_extension"@[0] == 'm');
    assert("dot_product_be"@.len() == 14);
    assert("dot_product_be"@[12] == 'b');
    assert("add_be"@.len() == 6);
    assert("add_be"@[4] == 'b');
    assert("dot_product_ee"@.len() == 14);
    assert("dot_product_ee"@[12] == 'e');
    assert("copy_5"@[0] == 'c');
    assert("add_ee"@[0] == 'a');
    assert("sub_extension"@[0] == 's');
    assert("mul_extension"@[0] == 'm');
    assert("dot_product_be"@[0] == 'd');
    assert("add_be"@[0] == 'a');
}

/// The parts of a line.
proof fn lemma_split_init()
    ensures
        "\n    bus_res_init = Array(DIM)"@ == "\n    "@ + "bus_res_init"@ + " = "@ + "Array(DIM)"@,
{
    reveal_strlit("\n    bus_res_init = Array(DIM)");
    reveal_strlit("\n    ");
    reveal_strlit("bus_res_init");
    reveal_strlit(" = ");
    reveal_strlit("Array(DIM)");
    let s = "\n    bus_res_init = Array(DIM)"@;
    assert(s[0] == '\n');
    assert(s[1] == ' ');
    assert(s[2] == ' ');
    assert(s[3] == ' ');
    assert(s[4] == ' ');
    assert(s[5] == 'b');
    assert(s[6] == 'u');
    assert(s[7] == 's');
    assert(s[8] == '_');
    assert(s[9] == 'r');
    assert(s[10] == 'e');
    assert(s[11] == 's');
    assert(s[12] == '_');
    assert(s[13] == 'i');
    assert(s[14] == 'n');
    assert(s[15] == 'i');
    assert(s[16] == 't');
    assert(s[17] == ' ');
    assert(s[18] == '=');
    assert(s[19] == ' ');
    assert(s[20] == 'A');
    assert(s[21] == 'r');
    assert(s[22] == 'r');
    assert(s[23] == 'a');
    assert(s[24] == 'y');
    assert(s[25] == '(');
    assert(s[26] == 'D');
    assert(s[27] == 'I');
    assert(s[28] == 'M');
    assert(s[29] == ')');
    let p0 = "\n    "@;
    assert(p0[0] == '\n');
    assert(p0[1] == ' ');
    assert(p0[2] == ' ');
    assert(p0[3] == ' ');
    assert(p0[4] == ' ');
    let p1 = "bus_res_init"@;
    assert(p1[0] == 'b');
    assert(p1[1] == 'u');
    assert(p1[2] == 's');
    assert(p1[3] == '_');
    assert(p1[4] == 'r');
    assert(p1[5] == 'e');
    assert(p1[6] == 's');
    assert(p1[7] == '_');
    assert(p1[8] == 'i');
    assert(p1[9] == 'n');
    assert(p1[10] == 'i');
    assert(p1[11] == 't');
    let p2 = " = "@;
    assert(p2[0] == ' ');
    assert(p2[1] == '=');
    assert(p2[2] == ' ');
    let p3 = "Array(DIM)"@;
    assert(p3[0] == 'A');
    assert(p3[1] == 'r');
    assert(p3[2] == 'r');
    assert(p3[3] == 'a');
    assert(p3[4] == 'y');
    assert(p3[5] == '(');
    assert(p3[6] == 'D');
    assert(p3[7] == 'I');
    assert(p3[8] == 'M');
    assert(p3[9] == ')');
    assert(s =~= "\n    "@ + "bus_res_init"@ + " = "@ + "Array(DIM)"@);
}

/// The parts of a line.
proof fn lemma_split_dot_bus()
    ensures
        "\n    dot_product_ee(buff, logup_alphas_eq_poly, bus_res_init, "@ == "\n    "@ + "dot_product_ee"@ + "("@ + "buff"@ + ", "@ + "logup_alphas_eq_poly"@ + ", "@ + "bus_res_init"@ + ", "@,
{
    reveal_strlit("\n    dot_product_ee(buff, logup_alphas_eq_poly, bus_res_init, ");
    reveal_strlit("\n    ");
    reveal_strlit("dot_product_ee");
    reveal_strlit("(");
    reveal_strlit("buff");
    reveal_strlit(", ");
    reveal_strlit("logup_alphas_eq_poly");
    reveal_strlit("bus_res_init");
    let s = "\n    dot_product_ee(buff, logup_alphas_eq_poly, bus_res_init, "@;
    assert(s[0] == '\n');
    assert(s[1] == ' ');
    assert(s[2] == ' ');
    assert(s[3] == ' ');
    assert(s[4] == ' ');
    assert(s[5] == 'd');
    assert(s[6] == 'o');
    assert(s[7] == 't');
    assert(s[8] == '_');
    assert(s[9] == 'p');
    assert(s[10] == 'r');
    assert(s[11] == 'o');
    assert(s[12] == 'd');
    assert(s[13] == 'u');
    assert(s[14] == 'c');
    assert(s[15] == 't');
    assert(s[16] == '_');
    assert(s[17] == 'e');
    assert(s[18] == 'e');
    assert(s[19] == '(');
    assert(s[20] == 'b');
    assert(s[21] == 'u');
    assert(s[22] == 'f');
    assert(s[23] == 'f');
    assert(s[24] == ',');
    assert(s[25] == ' ');
    assert(s[26] == 'l');
    assert(s[27] == 'o');
    assert(s[28] == 'g');
    assert(s[29] == 'u');
    assert(s[30] == 'p');
    assert(s[31] == '_');
    assert(s[32] == 'a');
    assert(s[33] == 'l');
    assert(s[34] == 'p');
    assert(s[35] == 'h');
    assert(s[36] == 'a');
    assert(s[37] == 's');
    assert(s[38] == '_');
    assert(s[39] == 'e');
    assert(s[40] == 'q');
    assert(s[41] == '_');
    assert(s[42] == 'p');
    assert(s[43] == 'o');
    assert(s[44] == 'l');
    assert(s[45] == 'y');
    assert(s[46] == ',');
    assert(s[47] == ' ');
    assert(s[48] == 'b');
    assert(s[49] == 'u');
    assert(s[50] == 's');
    assert(s[51] == '_');
    assert(s[52] == 'r');
    assert(s[53] == 'e');
    assert(s[54] == 's');
    assert(s[55] == '_');
    assert(s[56] == 'i');
    assert(s[57] == 'n');
    assert(s[58] == 'i');
    assert(s[59] == 't');
    assert(s[60] == ',');
    assert(s[61] == ' ');
    let p0 = "\n    "@;
    assert(p0[0] == '\n');
    assert(p0[1] == ' ');
    assert(p0[2] == ' ');
    assert(p0[3] == ' ');
    assert(p0[4] == ' ');
    let p1 = "dot_product_ee"@;
    assert(p1[0] == 'd');
    assert(p1[1] == 'o');
    assert(p1[2] == 't');
    assert(p1[3] == '_');
    assert(p1[4] == 'p');
    assert(p1[5] == 'r');
    assert(p1[6] == 'o');
    assert(p1[7] == 'd');
    assert(p1[8] == 'u');
    assert(p1[9] == 'c');
    assert(p1[10] == 't');
    assert(p1[11] == '_');
    assert(p1[12] == 'e');
    assert(p1[13] == 'e');
    let p2 = "("@;
    assert(p2[0] == '(');
    let p3 = "buff"@;
    assert(p3[0] == 'b');
    assert(p3[1] == 'u');
    assert(p3[2] == 'f');
    assert(p3[3] == 'f');
    let p4 = ", "@;
    assert(p4[0] == ',');
    assert(p4[1] == ' ');
    let p5 = "logup_alphas_eq_poly"@;
    assert(p5[0] == 'l');
    assert(p5[1] == 'o');
    assert(p5[2] == 'g');
    assert(p5[3] == 'u');
    assert(p5[4] == 'p');
    assert(p5[5] == '_');
    assert(p5[6] == 'a');
    assert(p5[7] == 'l');
    assert(p5[8] == 'p');
    assert(p5[9] == 'h');
    assert(p5[10] == 'a');
    assert(p5[11] == 's');
    assert(p5[12] == '_');
    assert(p5[13] == 'e');
    assert(p5[14] == 'q');
    assert(p5[15] == '_');
    assert(p5[16] == 'p');
    assert(p5[17] == 'o');
    assert(p5[18] == 'l');
    assert(p5[19] == 'y');
    let p6 = "bus_res_init"@;
    assert(p6[0] == 'b');
    assert(p6[1] == 'u');
    assert(p6[2] == 's');
    assert(p6[3] == '_');
    assert(p6[4] == 'r');
    assert(p6[5] == 'e');
    assert(p6[6] == 's');
    assert(p6[7] == '_');
    assert(p6[8] == 'i');
    assert(p6[9] == 'n');
    assert(p6[10] == 'i');
    assert(p6[11] == 't');
    assert(s =~= "\n    "@ + "dot_product_ee"@ + "("@ + "buff"@ + ", "@ + "logup_alphas_eq_poly"@ + ", "@ + "bus_res_init"@ + ", "@);
}

/// The parts of a line.
proof fn lemma_split_result()
    ensures
        "\n    bus_res: Mut = add_extension_ret(mul_base_extension_ret(LOGUP_PRECOMPILE_DOMAINSEP, logup_alphas_eq_poly + "@ == "\n    "@ + "bus_res"@ + ": Mut"@ + " = "@ + "add_extension_ret"@ + "("@ + "mul_base_extension_ret"@ + "("@ + "LOGUP_PRECOMPILE_DOMAINSEP"@ + ", "@ + "logup_alphas_eq_poly + "@,
{
    reveal_strlit("\n    bus_res: Mut = add_extension_ret(mul_base_extension_ret(LOGUP_PRECOMPILE_DOMAINSEP, logup_alphas_eq_poly + ");
    reveal_strlit("\n    ");
    reveal_strlit("bus_res");
    reveal_strlit(": Mut");
    reveal_strlit(" = ");
    reveal_strlit("add_extension_ret");
    reveal_strlit("(");
    reveal_strlit("mul_base_extension_ret");
    reveal_strlit("LOGUP_PRECOMPILE_DOMAINSEP");
    reveal_strlit(", ");
    reveal_strlit("logup_alphas_eq_poly + ");
    let s = "\n    bus_res: Mut = add_extension_ret(mul_base_extension_ret(LOGUP_PRECOMPILE_DOMAINSEP, logup_alphas_eq_poly + "@;
    assert(s[0] == '\n');
    assert(s[1] == ' ');
    assert(s[2] == ' ');
    assert(s[3] == ' ');
    assert(s[4] == ' ');
    assert(s[5] == 'b');
    assert(s[6] == 'u');
    assert(s[7] == 's');
    assert(s[8] == '_');
    assert(s[9] == 'r');
    assert(s[10] == 'e');
    assert(s[11] == 's');
    assert(s[12] == ':');
    assert(s[13] == ' ');
    assert(s[14] == 'M');
    assert(s[15] == 'u');
    assert(s[16] == 't');
    assert(s[17] == ' ');
    assert(s[18] == '=');
    assert(s[19] == ' ');
    assert(s[20] == 'a');
    assert(s[21] == 'd');
    assert(s[22] == 'd');
    assert(s[23] == '_');
    assert(s[24] == 'e');
    assert(s[25] == 'x');
    assert(s[26] == 't');
    assert(s[27] == 'e');
    assert(s[28] == 'n');
    assert(s[29] == 's');
    assert(s[30] == 'i');
    assert(s[31] == 'o');
    assert(s[32] == 'n');
    assert(s[33] == '_');
    assert(s[34] == 'r');
    assert(s[35] == 'e');
    assert(s[36] == 't');
    assert(s[37] == '(');
    assert(s[38] == 'm');
    assert(s[39] == 'u');
    assert(s[40] == 'l');
    assert(s[41] == '_');
    assert(s[42] == 'b');
    assert(s[43] == 'a');
    assert(s[44] == 's');
    assert(s[45] == 'e');
    assert(s[46] == '_');
    assert(s[47] == 'e');
    assert(s[48] == 'x');
    assert(s[49] == 't');
    assert(s[50] == 'e');
    assert(s[51] == 'n');
    assert(s[52] == 's');
    assert(s[53] == 'i');
    assert(s[54] == 'o');
    assert(s[55] == 'n');
    assert(s[56] == '_');
    assert(s[57] == 'r');
    assert(s[58] == 'e');
    assert(s[59] == 't');
    assert(s[60] == '(');
    assert(s[61] == 'L');
    assert(s[62] == 'O');
    assert(s[63] == 'G');
    assert(s[64] == 'U');
    assert(s[65] == 'P');
    assert(s[66] == '_');
    assert(s[67] == 'P');
    assert(s[68] == 'R');
    assert(s[69] == 'E');
    assert(s[70] == 'C');
    assert(s[71] == 'O');
    assert(s[72] == 'M');
    assert(s[73] == 'P');
    assert(s[74] == 'I');
    assert(s[75] == 'L');
    assert(s[76] == 'E');
    assert(s[77] == '_');
    assert(s[78] == 'D');
    assert(s[79] == 'O');
    assert(s[80] == 'M');
    assert(s[81] == 'A');
    assert(s[82] == 'I');
    assert(s[83] == 'N');
    assert(s[84] == 'S');
    assert(s[85] == 'E');
    assert(s[86] == 'P');
    assert(s[87] == ',');
    assert(s[88] == ' ');
    assert(s[89] == 'l');
    assert(s[90] == 'o');
    assert(s[91] == 'g');
    assert(s[92] == 'u');
    assert(s[93] == 'p');
    assert(s[94] == '_');
    assert(s[95] == 'a');
    assert(s[96] == 'l');
    assert(s[97] == 'p');
    assert(s[98] == 'h');
    assert(s[99] == 'a');
    assert(s[100] == 's');
    assert(s[101] == '_');
    assert(s[102] == 'e');
    assert(s[103] == 'q');
    assert(s[104] == '_');
    assert(s[105] == 'p');
    assert(s[106] == 'o');
    assert(s[107] == 'l');
    assert(s[108] == 'y');
    assert(s[109] == ' ');
    assert(s[110] == '+');
    assert(s[111] == ' ');
    let p0 = "\n    "@;
    assert(p0[0] == '\n');
    assert(p0[1] == ' ');
    assert(p0[2] == ' ');
    assert(p0[3] == ' ');
    assert(p0[4] == ' ');
    let p1 = "bus_res"@;
    assert(p1[0] == 'b');
    assert(p1[1] == 'u');
    assert(p1[2] == 's');
    assert(p1[3] == '_');
    assert(p1[4] == 'r');
    assert(p1[5] == 'e');
    assert(p1[6] == 's');
    let p2 = ": Mut"@;
    assert(p2[0] == ':');
    assert(p2[1] == ' ');
    assert(p2[2] == 'M');
    assert(p2[3] == 'u');
    assert(p2[4] == 't');
    let p3 = " = "@;
    assert(p3[0] == ' ');
    assert(p3[1] == '=');
    assert(p3[2] == ' ');
    let p4 = "add_extension_ret"@;
    assert(p4[0] == 'a');
    assert(p4[1] == 'd');
    assert(p4[2] == 'd');
    assert(p4[3] == '_');
    assert(p4[4] == 'e');
    assert(p4[5] == 'x');
    assert(p4[6] == 't');
    assert(p4[7] == 'e');
    assert(p4[8] == 'n');
    assert(p4[9] == 's');
    assert(p4[10] == 'i');
    assert(p4[11] == 'o');
    assert(p4[12] == 'n');
    assert(p4[13] == '_');
    assert(p4[14] == 'r');
    assert(p4[15] == 'e');
    assert(p4[16] == 't');
    let p5 = "("@;
    assert(p5[0] == '(');
    let p6 = "mul_base_extension_ret"@;
    assert(p6[0] == 'm');
    assert(p6[1] == 'u');
    assert(p6[2] == 'l');
    assert(p6[3] == '_');
    assert(p6[4] == 'b');
    assert(p6[5] == 'a');
    assert(p6[6] == 's');
    assert(p6[7] == 'e');
    assert(p6[8] == '_');
    assert(p6[9] == 'e');
    assert(p6[10] == 'x');
    assert(p6[11] == 't');
    assert(p6[12] == 'e');
    assert(p6[13] == 'n');
    assert(p6[14] == 's');
    assert(p6[15] == 'i');
    assert(p6[16] == 'o');
    assert(p6[17] == 'n');
    assert(p6[18] == '_');
    assert(p6[19] == 'r');
    assert(p6[20] == 'e');
    assert(p6[21] == 't');
    let p7 = "LOGUP_PRECOMPILE_DOMAINSEP"@;
    assert(p7[0] == 'L');
    assert(p7[1] == 'O');
    assert(p7[2] == 'G');
    assert(p7[3] == 'U');
    assert(p7[4] == 'P');
    assert(p7[5] == '_');
    assert(p7[6] == 'P');
    assert(p7[7] == 'R');
    assert(p7[8] == 'E');
    assert(p7[9] == 'C');
    assert(p7[10] == 'O');
    assert(p7[11] == 'M');
    assert(p7[12] == 'P');
    assert(p7[13] == 'I');
    assert(p7[14] == 'L');
    assert(p7[15] == 'E');
    assert(p7[16] == '_');
    assert(p7[17] == 'D');
    assert(p7[18] == 'O');
    assert(p7[19] == 'M');
    assert(p7[20] == 'A');
    assert(p7[21] == 'I');
    assert(p7[22] == 'N');
    assert(p7[23] == 'S');
    assert(p7[24] == 'E');
    assert(p7[25] == 'P');
    let p8 = ", "@;
    assert(p8[0] == ',');
    assert(p8[1] == ' ');
    let p9 = "logup_alphas_eq_poly + "@;
    assert(p9[0] == 'l');
    assert(p9[1] == 'o');
    assert(p9[2] == 'g');
    assert(p9[3] == 'u');
    assert(p9[4] == 'p');
    assert(p9[5] == '_');
    assert(p9[6] == 'a');
    assert(p9[7] == 'l');
    assert(p9[8] == 'p');
    assert(p9[9] == 'h');
    assert(p9[10] == 'a');
    assert(p9[11] == 's');
    assert(p9[12] == '_');
    assert(p9[13] == 'e');
    assert(p9[14] == 'q');
    assert(p9[15] == '_');
    assert(p9[16] == 'p');
    assert(p9[17] == 'o');
    assert(p9[18] == 'l');
    assert(p9[19] == 'y');
    assert(p9[20] == ' ');
    assert(p9[21] == '+');
    assert(p9[22] == ' ');
    assert(s =~= "\n    "@ + "bus_res"@ + ": Mut"@ + " = "@ + "add_extension_ret"@ + "("@ + "mul_base_extension_ret"@ + "("@ + "LOGUP_PRECOMPILE_DOMAINSEP"@ + ", "@ + "logup_alphas_eq_poly + "@);
}

/// The parts of a line.
proof fn lemma_split_result_end()
    ensures
        " * DIM), bus_res_init)"@ == " * DIM"@ + ")"@ + ", "@ + "bus_res_init"@ + ")"@,
{
    reveal_strlit(" * DIM), bus_res_init)");
    reveal_strlit(" * DIM");
    reveal_strlit(")");
    reveal_strlit(", ");
    reveal_strlit("bus_res_init");
    let s = " * DIM), bus_res_init)"@;
    assert(s[0] == ' ');
    assert(s[1] == '*');
    assert(s[2] == ' ');
    assert(s[3] == 'D');
    assert(s[4] == 'I');
    assert(s[5] == 'M');
    assert(s[6] == ')');
    assert(s[7] == ',');
    assert(s[8] == ' ');
    assert(s[9] == 'b');
    assert(s[10] == 'u');
    assert(s[11] == 's');
    assert(s[12] == '_');
    assert(s[13] == 'r');
    assert(s[14] == 'e');
    assert(s[15] == 's');
    assert(s[16] == '_');
    assert(s[17] == 'i');
    assert(s[18] == 'n');
    assert(s[19] == 'i');
    assert(s[20] == 't');
    assert(s[21] == ')');
    let p0 = " * DIM"@;
    assert(p0[0] == ' ');
    assert(p0[1] == '*');
    assert(p0[2] == ' ');
    assert(p0[3] == 'D');
    assert(p0[4] == 'I');
    assert(p0[5] == 'M');
    let p1 = ")"@;
    assert(p1[0] == ')');
    let p2 = ", "@;
    assert(p2[0] == ',');
    assert(p2[1] == ' ');
    let p3 = "bus_res_init"@;
    assert(p3[0] == 'b');
    assert(p3[1] == 'u');
    assert(p3[2] == 's');
    assert(p3[3] == '_');
    assert(p3[4] == 'r');
    assert(p3[5] == 'e');
    assert(p3[6] == 's');
    assert(p3[7] == '_');
    assert(p3[8] == 'i');
    assert(p3[9] == 'n');
    assert(p3[10] == 'i');
    assert(p3[11] == 't');
    assert(s =~= " * DIM"@ + ")"@ + ", "@ + "bus_res_init"@ + ")"@);
}

/// The parts of a line.
proof fn lemma_split_times_beta()
    ensures
        "\n    bus_res = mul_extension_ret(bus_res, bus_beta)"@ == "\n    "@ + "bus_res"@ + " = "@ + "mul_extension_ret"@ + "("@ + "bus_res"@ + ", "@ + "bus_beta"@ + ")"@,
{
    reveal_strlit("\n    bus_res = mul_extension_ret(bus_res, bus_beta)");
    reveal_strlit("\n    ");
    reveal_strlit("bus_res");
    reveal_strlit(" = ");
    reveal_strlit("mul_extension_ret");
    reveal_strlit("(");
    reveal_strlit(", ");
    reveal_strlit("bus_beta");
    reveal_strlit(")");
    let s = "\n    bus_res = mul_extension_ret(bus_res, bus_beta)"@;
    assert(s[0] == '\n');
    assert(s[1] == ' ');
    assert(s[2] == ' ');
    assert(s[3] == ' ');
    assert(s[4] == ' ');
    assert(s[5] == 'b');
    assert(s[6] == 'u');
    assert(s[7] == 's');
    assert(s[8] == '_');
    assert(s[9] == 'r');
    assert(s[10] == 'e');
    assert(s[11] == 's');
    assert(s[12] == ' ');
    assert(s[13] == '=');
    assert(s[14] == ' ');
    assert(s[15] == 'm');
    assert(s[16] == 'u');
    assert(s[17] == 'l');
    assert(s[18] == '_');
    assert(s[19] == 'e');
    assert(s[20] == 'x');
    assert(s[21] == 't');
    assert(s[22] == 'e');
    assert(s[23] == 'n');
    assert(s[24] == 's');
    assert(s[25] == 'i');
    assert(s[26] == 'o');
    assert(s[27] == 'n');
    assert(s[28] == '_');
    assert(s[29] == 'r');
    assert(s[30] == 'e');
    assert(s[31] == 't');
    assert(s[32] == '(');
    assert(s[33] == 'b');
    assert(s[34] == 'u');
    assert(s[35] == 's');
    assert(s[36] == '_');
    assert(s[37] == 'r');
    assert(s[38] == 'e');
    assert(s[39] == 's');
    assert(s[40] == ',');
    assert(s[41] == ' ');
    assert(s[42] == 'b');
    assert(s[43] == 'u');
    assert(s[44] == 's');
    assert(s[45] == '_');
    assert(s[46] == 'b');
    assert(s[47] == 'e');
    assert(s[48] == 't');
    assert(s[49] == 'a');
    assert(s[50] == ')');
    let p0 = "\n    "@;
    assert(p0[0] == '\n');
    assert(p0[1] == ' ');
    assert(p0[2] == ' ');
    assert(p0[3] == ' ');
    assert(p0[4] == ' ');
    let p1 = "bus_res"@;
    assert(p1[0] == 'b');
    assert(p1[1] == 'u');
    assert(p1[2] == 's');
    assert(p1[3] == '_');
    assert(p1[4] == 'r');
    assert(p1[5] == 'e');
    assert(p1[6] == 's');
    let p2 = " = "@;
    assert(p2[0] == ' ');
    assert(p2[1] == '=');
    assert(p2[2] == ' ');
    let p3 = "mul_extension_ret"@;
    assert(p3[0] == 'm');
    assert(p3[1] == 'u');
    assert(p3[2] == 'l');
    assert(p3[3] == '_');
    assert(p3[4] == 'e');
    assert(p3[5] == 'x');
    assert(p3[6] == 't');
    assert(p3[7] == 'e');
    assert(p3[8] == 'n');
    assert(p3[9] == 's');
    assert(p3[10] == 'i');
    assert(p3[11] == 'o');
    assert(p3[12] == 'n');
    assert(p3[13] == '_');
    assert(p3[14] == 'r');
    assert(p3[15] == 'e');
    assert(p3[16] == 't');
    let p4 = "("@;
    assert(p4[0] == '(');
    let p5 = ", "@;
    assert(p5[0] == ',');
    assert(p5[1] == ' ');
    let p6 = "bus_beta"@;
    assert(p6[0] == 'b');
    assert(p6[1] == 'u');
    assert(p6[2] == 's');
    assert(p6[3] == '_');
    assert(p6[4] == 'b');
    assert(p6[5] == 'e');
    assert(p6[6] == 't');
    assert(p6[7] == 'a');
    let p7 = ")"@;
    assert(p7[0] == ')');
    assert(s =~= "\n    "@ + "bus_res"@ + " = "@ + "mul_extension_ret"@ + "("@ + "bus_res"@ + ", "@ + "bus_beta"@ + ")"@);
}

/// The parts of a line.
proof fn lemma_split_sum()
    ensures
        "\n    sum: Mut = add_extension_ret(bus_res, "@ == "\n    "@ + "sum"@ + ": Mut"@ + " = "@ + "add_extension_ret"@ + "("@ + "bus_res"@ + ", "@,
{
    reveal_strlit("\n    sum: Mut = add_extension_ret(bus_res, ");
    reveal_strlit("\n    ");
    reveal_strlit("sum");
    reveal_strlit(": Mut");
    reveal_strlit(" = ");
    reveal_strlit("add_extension_ret");
    reveal_strlit("(");
    reveal_strlit("bus_res");
    reveal_strlit(", ");
    let s = "\n    sum: Mut = add_extension_ret(bus_res, "@;
    assert(s[0] == '\n');
    assert(s[1] == ' ');
    assert(s[2] == ' ');
    assert(s[3] == ' ');
    assert(s[4] == ' ');
    assert(s[5] == 's');
    assert(s[6] == 'u');
    assert(s[7] == 'm');
    assert(s[8] == ':');
    assert(s[9] == ' ');
    assert(s[10] == 'M');
    assert(s[11] == 'u');
    assert(s[12] == 't');
    assert(s[13] == ' ');
    assert(s[14] == '=');
    assert(s[15] == ' ');
    assert(s[16] == 'a');
    assert(s[17] == 'd');
    assert(s[18] == 'd');
    assert(s[19] == '_');
    assert(s[20] == 'e');
    assert(s[21] == 'x');
    assert(s[22] == 't');
    assert(s[23] == 'e');
    assert(s[24] == 'n');
    assert(s[25] == 's');
    assert(s[26] == 'i');
    assert(s[27] == 'o');
    assert(s[28] == 'n');
    assert(s[29] == '_');
    assert(s[30] == 'r');
    assert(s[31] == 'e');
    assert(s[32] == 't');
    assert(s[33] == '(');
    assert(s[34] == 'b');
    assert(s[35] == 'u');
    assert(s[36] == 's');
    assert(s[37] == '_');
    assert(s[38] == 'r');
    assert(s[39] == 'e');
    assert(s[40] == 's');
    assert(s[41] == ',');
    assert(s[42] == ' ');
    let p0 = "\n    "@;
    assert(p0[0] == '\n');
    assert(p0[1] == ' ');
    assert(p0[2] == ' ');
    assert(p0[3] == ' ');
    assert(p0[4] == ' ');
    let p1 = "sum"@;
    assert(p1[0] == 's');
    assert(p1[1] == 'u');
    assert(p1[2] == 'm');
    let p2 = ": Mut"@;
    assert(p2[0] == ':');
    assert(p2[1] == ' ');
    assert(p2[2] == 'M');
    assert(p2[3] == 'u');
    assert(p2[4] == 't');
    let p3 = " = "@;
    assert(p3[0] == ' ');
    assert(p3[1] == '=');
    assert(p3[2] == ' ');
    let p4 = "add_extension_ret"@;
    assert(p4[0] == 'a');
    assert(p4[1] == 'd');
    assert(p4[2] == 'd');
    assert(p4[3] == '_');
    assert(p4[4] == 'e');
    assert(p4[5] == 'x');
    assert(p4[6] == 't');
    assert(p4[7] == 'e');
    assert(p4[8] == 'n');
    assert(p4[9] == 's');
    assert(p4[10] == 'i');
    assert(p4[11] == 'o');
    assert(p4[12] == 'n');
    assert(p4[13] == '_');
    assert(p4[14] == 'r');
    assert(p4[15] == 'e');
    assert(p4[16] == 't');
    let p5 = "("@;
    assert(p5[0] == '(');
    let p6 = "bus_res"@;
    assert(p6[0] == 'b');
    assert(p6[1] == 'u');
    assert(p6[2] == 's');
    assert(p6[3] == '_');
    assert(p6[4] == 'r');
    assert(p6[5] == 'e');
    assert(p6[6] == 's');
    let p7 = ", "@;
    assert(p7[0] == ',');
    assert(p7[1] == ' ');
    assert(s =~= "\n    "@ + "sum"@ + ": Mut"@ + " = "@ + "add_extension_ret"@ + "("@ + "bus_res"@ + ", "@);
}

/// The parts of a line.
proof fn lemma_split_weighted()
    ensures
        "\n    weighted_constraints = Array(DIM)"@ == "\n    "@ + "weighted_constraints"@ + " = "@ + "Array(DIM)"@,
{
    reveal_strlit("\n    weighted_constraints = Array(DIM)");
    reveal_strlit("\n    ");
    reveal_strlit("weighted_constraints");
    reveal_strlit(" = ");
    reveal_strlit("Array(DIM)");
    let s = "\n    weighted_constraints = Array(DIM)"@;
    assert(s[0] == '\n');
    assert(s[1] == ' ');
    assert(s[2] == ' ');
    assert(s[3] == ' ');
    assert(s[4] == ' ');
    assert(s[5] == 'w');
    assert(s[6] == 'e');
    assert(s[7] == 'i');
    assert(s[8] == 'g');
    assert(s[9] == 'h');
    assert(s[10] == 't');
    assert(s[11] == 'e');
    assert(s[12] == 'd');
    assert(s[13] == '_');
    assert(s[14] == 'c');
    assert(s[15] == 'o');
    assert(s[16] == 'n');
    assert(s[17] == 's');
    assert(s[18] == 't');
    assert(s[19] == 'r');
    assert(s[20] == 'a');
    assert(s[21] == 'i');
    assert(s[22] == 'n');
    assert(s[23] == 't');
    assert(s[24] == 's');
    assert(s[25] == ' ');
    assert(s[26] == '=');
    assert(s[27] == ' ');
    assert(s[28] == 'A');
    assert(s[29] == 'r');
    assert(s[30] == 'r');
    assert(s[31] == 'a');
    assert(s[32] == 'y');
    assert(s[33] == '(');
    assert(s[34] == 'D');
    assert(s[35] == 'I');
    assert(s[36] == 'M');
    assert(s[37] == ')');
    let p0 = "\n    "@;
    assert(p0[0] == '\n');
    assert(p0[1] == ' ');
    assert(p0[2] == ' ');
    assert(p0[3] == ' ');
    assert(p0[4] == ' ');
    let p1 = "weighted_constraints"@;
    assert(p1[0] == 'w');
    assert(p1[1] == 'e');
    assert(p1[2] == 'i');
    assert(p1[3] == 'g');
    assert(p1[4] == 'h');
    assert(p1[5] == 't');
    assert(p1[6] == 'e');
    assert(p1[7] == 'd');
    assert(p1[8] == '_');
    assert(p1[9] == 'c');
    assert(p1[10] == 'o');
    assert(p1[11] == 'n');
    assert(p1[12] == 's');
    assert(p1[13] == 't');
    assert(p1[14] == 'r');
    assert(p1[15] == 'a');
    assert(p1[16] == 'i');
    assert(p1[17] == 'n');
    assert(p1[18] == 't');
    assert(p1[19] == 's');
    let p2 = " = "@;
    assert(p2[0] == ' ');
    assert(p2[1] == '=');
    assert(p2[2] == ' ');
    let p3 = "Array(DIM)"@;
    assert(p3[0] == 'A');
    assert(p3[1] == 'r');
    assert(p3[2] == 'r');
    assert(p3[3] == 'a');
    assert(p3[4] == 'y');
    assert(p3[5] == '(');
    assert(p3[6] == 'D');
    assert(p3[7] == 'I');
    assert(p3[8] == 'M');
    assert(p3[9] == ')');
    assert(s =~= "\n    "@ + "weighted_constraints"@ + " = "@ + "Array(DIM)"@);
}

/// The parts of a line.
proof fn lemma_split_dot_constraints()
    ensures
        "\n    dot_product_ee(air_alpha_powers + DIM, constraints_buf, weighted_constraints, "@ == "\n    "@ + "dot_product_ee"@ + "("@ + "air_alpha_powers + DIM"@ + ", "@ + "constraints_buf"@ + ", "@ + "weighted_constraints"@ + ", "@,
{
    reveal_strlit("\n    dot_product_ee(air_alpha_powers + DIM, constraints_buf, weighted_constraints, ");
    reveal_strlit("\n    ");
    reveal_strlit("dot_product_ee");
    reveal_strlit("(");
    reveal_strlit("air_alpha_powers + DIM");
    reveal_strlit(", ");
    reveal_strlit("constraints_buf");
    reveal_strlit("weighted_constraints");
    let s = "\n    dot_product_ee(air_alpha_powers + DIM, constraints_buf, weighted_constraints, "@;
    assert(s[0] == '\n');
    assert(s[1] == ' ');
    assert(s[2] == ' ');
    assert(s[3] == ' ');
    assert(s[4] == ' ');
    assert(s[5] == 'd');
    assert(s[6] == 'o');
    assert(s[7] == 't');
    assert(s[8] == '_');
    assert(s[9] == 'p');
    assert(s[10] == 'r');
    assert(s[11] == 'o');
    assert(s[12] == 'd');
    assert(s[13] == 'u');
    assert(s[14] == 'c');
    assert(s[15] == 't');
    assert(s[16] == '_');
    assert(s[17] == 'e');
    assert(s[18] == 'e');
    assert(s[19] == '(');
    assert(s[20] == 'a');
    assert(s[21] == 'i');
    assert(s[22] == 'r');
    assert(s[23] == '_');
    assert(s[24] == 'a');
    assert(s[25] == 'l');
    assert(s[26] == 'p');
    assert(s[27] == 'h');
    assert(s[28] == 'a');
    assert(s[29] == '_');
    assert(s[30] == 'p');
    assert(s[31] == 'o');
    assert(s[32] == 'w');
    assert(s[33] == 'e');
    assert(s[34] == 'r');
    assert(s[35] == 's');
    assert(s[36] == ' ');
    assert(s[37] == '+');
    assert(s[38] == ' ');
    assert(s[39] == 'D');
    assert(s[40] == 'I');
    assert(s[41] == 'M');
    assert(s[42] == ',');
    assert(s[43] == ' ');
    assert(s[44] == 'c');
    assert(s[45] == 'o');
    assert(s[46] == 'n');
    assert(s[47] == 's');
    assert(s[48] == 't');
    assert(s[49] == 'r');
    assert(s[50] == 'a');
    assert(s[51] == 'i');
    assert(s[52] == 'n');
    assert(s[53] == 't');
    assert(s[54] == 's');
    assert(s[55] == '_');
    assert(s[56] == 'b');
    assert(s[57] == 'u');
    assert(s[58] == 'f');
    assert(s[59] == ',');
    assert(s[60] == ' ');
    assert(s[61] == 'w');
    assert(s[62] == 'e');
    assert(s[63] == 'i');
    assert(s[64] == 'g');
    assert(s[65] == 'h');
    assert(s[66] == 't');
    assert(s[67] == 'e');
    assert(s[68] == 'd');
    assert(s[69] == '_');
    assert(s[70] == 'c');
    assert(s[71] == 'o');
    assert(s[72] == 'n');
    assert(s[73] == 's');
    assert(s[74] == 't');
    assert(s[75] == 'r');
    assert(s[76] == 'a');
    assert(s[77] == 'i');
    assert(s[78] == 'n');
    assert(s[79] == 't');
    assert(s[80] == 's');
    assert(s[81] == ',');
    assert(s[82] == ' ');
    let p0 = "\n    "@;
    assert(p0[0] == '\n');
    assert(p0[1] == ' ');
    assert(p0[2] == ' ');
    assert(p0[3] == ' ');
    assert(p0[4] == ' ');
    let p1 = "dot_product_ee"@;
    assert(p1[0] == 'd');
    assert(p1[1] == 'o');
    assert(p1[2] == 't');
    assert(p1[3] == '_');
    assert(p1[4] == 'p');
    assert(p1[5] == 'r');
    assert(p1[6] == 'o');
    assert(p1[7] == 'd');
    assert(p1[8] == 'u');
    assert(p1[9] == 'c');
    assert(p1[10] == 't');
    assert(p1[11] == '_');
    assert(p1[12] == 'e');
    assert(p1[13] == 'e');
    let p2 = "("@;
    assert(p2[0] == '(');
    let p3 = "air_alpha_powers + DIM"@;
    assert(p3[0] == 'a');
    assert(p3[1] == 'i');
    assert(p3[2] == 'r');
    assert(p3[3] == '_');
    assert(p3[4] == 'a');
    assert(p3[5] == 'l');
    assert(p3[6] == 'p');
    assert(p3[7] == 'h');
    assert(p3[8] == 'a');
    assert(p3[9] == '_');
    assert(p3[10] == 'p');
    assert(p3[11] == 'o');
    assert(p3[12] == 'w');
    assert(p3[13] == 'e');
    assert(p3[14] == 'r');
    assert(p3[15] == 's');
    assert(p3[16] == ' ');
    assert(p3[17] == '+');
    assert(p3[18] == ' ');
    assert(p3[19] == 'D');
    assert(p3[20] == 'I');
    assert(p3[21] == 'M');
    let p4 = ", "@;
    assert(p4[0] == ',');
    assert(p4[1] == ' ');
    let p5 = "constraints_buf"@;
    assert(p5[0] == 'c');
    assert(p5[1] == 'o');
    assert(p5[2] == 'n');
    assert(p5[3] == 's');
    assert(p5[4] == 't');
    assert(p5[5] == 'r');
    assert(p5[6] == 'a');
    assert(p5[7] == 'i');
    assert(p5[8] == 'n');
    assert(p5[9] == 't');
    assert(p5[10] == 's');
    assert(p5[11] == '_');
    assert(p5[12] == 'b');
    assert(p5[13] == 'u');
    assert(p5[14] == 'f');
    let p6 = "weighted_constraints"@;
    assert(p6[0] == 'w');
    assert(p6[1] == 'e');
    assert(p6[2] == 'i');
    assert(p6[3] == 'g');
    assert(p6[4] == 'h');
    assert(p6[5] == 't');
    assert(p6[6] == 'e');
    assert(p6[7] == 'd');
    assert(p6[8] == '_');
    assert(p6[9] == 'c');
    assert(p6[10] == 'o');
    assert(p6[11] == 'n');
    assert(p6[12] == 's');
    assert(p6[13] == 't');
    assert(p6[14] == 'r');
    assert(p6[15] == 'a');
    assert(p6[16] == 'i');
    assert(p6[17] == 'n');
    assert(p6[18] == 't');
    assert(p6[19] == 's');
    assert(s =~= "\n    "@ + "dot_product_ee"@ + "("@ + "air_alpha_powers + DIM"@ + ", "@ + "constraints_buf"@ + ", "@ + "weighted_constraints"@ + ", "@);
}

/// The parts of a line.
proof fn lemma_split_last_sum()
    ensures
        "\n    sum = add_extension_ret(sum, weighted_constraints)"@ == "\n    "@ + "sum"@ + " = "@ + "add_extension_ret"@ + "("@ + "sum"@ + ", "@ + "weighted_constraints"@ + ")"@,
{
    reveal_strlit("\n    sum = add_extension_ret(sum, weighted_constraints)");
    reveal_strlit("\n    ");
    reveal_strlit("sum");
    reveal_strlit(" = ");
    reveal_strlit("add_extension_ret");
    reveal_strlit("(");
    reveal_strlit(", ");
    reveal_strlit("weighted_constraints");
    reveal_strlit(")");
    let s = "\n    sum = add_extension_ret(sum, weighted_constraints)"@;
    assert(s[0] == '\n');
    assert(s[1] == ' ');
    assert(s[2] == ' ');
    assert(s[3] == ' ');
    assert(s[4] == ' ');
    assert(s[5] == 's');
    assert(s[6] == 'u');
    assert(s[7] == 'm');
    assert(s[8] == ' ');
    assert(s[9] == '=');
    assert(s[10] == ' ');
    assert(s[11] == 'a');
    assert(s[12] == 'd');
    assert(s[13] == 'd');
    assert(s[14] == '_');
    assert(s[15] == 'e');
    assert(s[16] == 'x');
    assert(s[17] == 't');
    assert(s[18] == 'e');
    assert(s[19] == 'n');
    assert(s[20] == 's');
    assert(s[21] == 'i');
    assert(s[22] == 'o');
    assert(s[23] == 'n');
    assert(s[24] == '_');
    assert(s[25] == 'r');
    assert(s[26] == 'e');
    assert(s[27] == 't');
    assert(s[28] == '(');
    assert(s[29] == 's');
    assert(s[30] == 'u');
    assert(s[31] == 'm');
    assert(s[32] == ',');
    assert(s[33] == ' ');
    assert(s[34] == 'w');
    assert(s[35] == 'e');
    assert(s[36] == 'i');
    assert(s[37] == 'g');
    assert(s[38] == 'h');
    assert(s[39] == 't');
    assert(s[40] == 'e');
    assert(s[41] == 'd');
    assert(s[42] == '_');
    assert(s[43] == 'c');
    assert(s[44] == 'o');
    assert(s[45] == 'n');
    assert(s[46] == 's');
    assert(s[47] == 't');
    assert(s[48] == 'r');
    assert(s[49] == 'a');
    assert(s[50] == 'i');
    assert(s[51] == 'n');
    assert(s[52] == 't');
    assert(s[53] == 's');
    assert(s[54] == ')');
    let p0 = "\n    "@;
    assert(p0[0] == '\n');
    assert(p0[1] == ' ');
    assert(p0[2] == ' ');
    assert(p0[3] == ' ');
    assert(p0[4] == ' ');
    let p1 = "sum"@;
    assert(p1[0] == 's');
    assert(p1[1] == 'u');
    assert(p1[2] == 'm');
    let p2 = " = "@;
    assert(p2[0] == ' ');
    assert(p2[1] == '=');
    assert(p2[2] == ' ');
    let p3 = "add_extension_ret"@;
    assert(p3[0] == 'a');
    assert(p3[1] == 'd');
    assert(p3[2] == 'd');
    assert(p3[3] == '_');
    assert(p3[4] == 'e');
    assert(p3[5] == 'x');
    assert(p3[6] == 't');
    assert(p3[7] == 'e');
    assert(p3[8] == 'n');
    assert(p3[9] == 's');
    assert(p3[10] == 'i');
    assert(p3[11] == 'o');
    assert(p3[12] == 'n');
    assert(p3[13] == '_');
    assert(p3[14] == 'r');
    assert(p3[15] == 'e');
    assert(p3[16] == 't');
    let p4 = "("@;
    assert(p4[0] == '(');
    let p5 = ", "@;
    assert(p5[0] == ',');
    assert(p5[1] == ' ');
    let p6 = "weighted_constraints"@;
    assert(p6[0] == 'w');
    assert(p6[1] == 'e');
    assert(p6[2] == 'i');
    assert(p6[3] == 'g');
    assert(p6[4] == 'h');
    assert(p6[5] == 't');
    assert(p6[6] == 'e');
    assert(p6[7] == 'd');
    assert(p6[8] == '_');
    assert(p6[9] == 'c');
    assert(p6[10] == 'o');
    assert(p6[11] == 'n');
    assert(p6[12] == 's');
    assert(p6[13] == 't');
    assert(p6[14] == 'r');
    assert(p6[15] == 'a');
    assert(p6[16] == 'i');
    assert(p6[17] == 'n');
    assert(p6[18] == 't');
    assert(p6[19] == 's');
    let p7 = ")"@;
    assert(p7[0] == ')');
    assert(s =~= "\n    "@ + "sum"@ + " = "@ + "add_extension_ret"@ + "("@ + "sum"@ + ", "@ + "weighted_constraints"@ + ")"@);
}

/// The parts of a line.
proof fn lemma_split_return()
    ensures
        "\n    return sum"@ == "\n    "@ + "return "@ + "sum"@,
{
    reveal_strlit("\n    return sum");
    reveal_strlit("\n    ");
    reveal_strlit("return ");
    reveal_strlit("sum");
    let s = "\n    return sum"@;
    assert(s[0] == '\n');
    assert(s[1] == ' ');
    assert(s[2] == ' ');
    assert(s[3] == ' ');
    assert(s[4] == ' ');
    assert(s[5] == 'r');
    assert(s[6] == 'e');
    assert(s[7] == 't');
    assert(s[8] == 'u');
    assert(s[9] == 'r');
    assert(s[10] == 'n');
    assert(s[11] == ' ');
    assert(s[12] == 's');
    assert(s[13] == 'u');
    assert(s[14] == 'm');
    let p0 = "\n    "@;
    assert(p0[0] == '\n');
    assert(p0[1] == ' ');
    assert(p0[2] == ' ');
    assert(p0[3] == ' ');
    assert(p0[4] == ' ');
    let p1 = "return "@;
    assert(p1[0] == 'r');
    assert(p1[1] == 'e');
    assert(p1[2] == 't');
    assert(p1[3] == 'u');
    assert(p1[4] == 'r');
    assert(p1[5] == 'n');
    assert(p1[6] == ' ');
    let p2 = "sum"@;
    assert(p2[0] == 's');
    assert(p2[1] == 'u');
    assert(p2[2] == 'm');
    assert(s =~= "\n    "@ + "return "@ + "sum"@);
}

/// The parts of a line.
proof fn lemma_split_buff()
    ensures
        "buff = Array(DIM * "@ == "buff"@ + " = "@ + "Array(DIM * "@,
{
    reveal_strlit("buff = Array(DIM * ");
    reveal_strlit("buff");
    reveal_strlit(" = ");
    reveal_strlit("Array(DIM * ");
    let s = "buff = Array(DIM * "@;
    assert(s[0] == 'b');
    assert(s[1] == 'u');
    assert(s[2] == 'f');
    assert(s[3] == 'f');
    assert(s[4] == ' ');
    assert(s[5] == '=');
    assert(s[6] == ' ');
    assert(s[7] == 'A');
    assert(s[8] == 'r');
    assert(s[9] == 'r');
    assert(s[10] == 'a');
    assert(s[11] == 'y');
    assert(s[12] == '(');
    assert(s[13] == 'D');
    assert(s[14] == 'I');
    assert(s[15] == 'M');
    assert(s[16] == ' ');
    assert(s[17] == '*');
    assert(s[18] == ' ');
    let p0 = "buff"@;
    assert(p0[0] == 'b');
    assert(p0[1] == 'u');
    assert(p0[2] == 'f');
    assert(p0[3] == 'f');
    let p1 = " = "@;
    assert(p1[0] == ' ');
    assert(p1[1] == '=');
    assert(p1[2] == ' ');
    let p2 = "Array(DIM * "@;
    assert(p2[0] == 'A');
    assert(p2[1] == 'r');
    assert(p2[2] == 'r');
    assert(p2[3] == 'a');
    assert(p2[4] == 'y');
    assert(p2[5] == '(');
    assert(p2[6] == 'D');
    assert(p2[7] == 'I');
    assert(p2[8] == 'M');
    assert(p2[9] == ' ');
    assert(p2[10] == '*');
    assert(p2[11] == ' ');
    assert(s =~= "buff"@ + " = "@ + "Array(DIM * "@);
}

/// The parts of a line.
proof fn lemma_split_constraints()
    ensures
        "\n    constraints_buf = Array(DIM * "@ == "\n    "@ + "constraints_buf"@ + " = "@ + "Array(DIM * "@,
{
    reveal_strlit("\n    constraints_buf = Array(DIM * ");
    reveal_strlit("\n    ");
    reveal_strlit("constraints_buf");
    reveal_strlit(" = ");
    reveal_strlit("Array(DIM * ");
    let s = "\n    constraints_buf = Array(DIM * "@;
    assert(s[0] == '\n');
    assert(s[1] == ' ');
    assert(s[2] == ' ');
    assert(s[3] == ' ');
    assert(s[4] == ' ');
    assert(s[5] == 'c');
    assert(s[6] == 'o');
    assert(s[7] == 'n');
    assert(s[8] == 's');
    assert(s[9] == 't');
    assert(s[10] == 'r');
    assert(s[11] == 'a');
    assert(s[12] == 'i');
    assert(s[13] == 'n');
    assert(s[14] == 't');
    assert(s[15] == 's');
    assert(s[16] == '_');
    assert(s[17] == 'b');
    assert(s[18] == 'u');
    assert(s[19] == 'f');
    assert(s[20] == ' ');
    assert(s[21] == '=');
    assert(s[22] == ' ');
    assert(s[23] == 'A');
    assert(s[24] == 'r');
    assert(s[25] == 'r');
    assert(s[26] == 'a');
    assert(s[27] == 'y');
    assert(s[28] == '(');
    assert(s[29] == 'D');
    assert(s[30] == 'I');
    assert(s[31] == 'M');
    assert(s[32] == ' ');
    assert(s[33] == '*');
    assert(s[34] == ' ');
    let p0 = "\n    "@;
    assert(p0[0] == '\n');
    assert(p0[1] == ' ');
    assert(p0[2] == ' ');
    assert(p0[3] == ' ');
    assert(p0[4] == ' ');
    let p1 = "constraints_buf"@;
    assert(p1[0] == 'c');
    assert(p1[1] == 'o');
    assert(p1[2] == 'n');
    assert(p1[3] == 's');
    assert(p1[4] == 't');
    assert(p1[5] == 'r');
    assert(p1[6] == 'a');
    assert(p1[7] == 'i');
    assert(p1[8] == 'n');
    assert(p1[9] == 't');
    assert(p1[10] == 's');
    assert(p1[11] == '_');
    assert(p1[12] == 'b');
    assert(p1[13] == 'u');
    assert(p1[14] == 'f');
    let p2 = " = "@;
    assert(p2[0] == ' ');
    assert(p2[1] == '=');
    assert(p2[2] == ' ');
    let p3 = "Array(DIM * "@;
    assert(p3[0] == 'A');
    assert(p3[1] == 'r');
    assert(p3[2] == 'r');
    assert(p3[3] == 'a');
    assert(p3[4] == 'y');
    assert(p3[5] == '(');
    assert(p3[6] == 'D');
    assert(p3[7] == 'I');
    assert(p3[8] == 'M');
    assert(p3[9] == ' ');
    assert(p3[10] == '*');
    assert(p3[11] == ' ');
    assert(s =~= "\n    "@ + "constraints_buf"@ + " = "@ + "Array(DIM * "@);
}

/// The parts of a line.
proof fn lemma_split_params()
    ensures
        "(inner_evals, air_alpha_powers, bus_beta, logup_alphas_eq_poly):\n"@ == "(inner_evals, air_alpha_powers, bus_beta, logup_alphas_eq_poly):"@ + "\n"@,
{
    reveal_strlit("(inner_evals, air_alpha_powers, bus_beta, logup_alphas_eq_poly):\n");
    reveal_strlit("(inner_evals, air_alpha_powers, bus_beta, logup_alphas_eq_poly):");
    reveal_strlit("\n");
    let s = "(inner_evals, air_alpha_powers, bus_beta, logup_alphas_eq_poly):\n"@;
    assert(s[0] == '(');
    assert(s[1] == 'i');
    assert(s[2] == 'n');
    assert(s[3] == 'n');
    assert(s[4] == 'e');
    assert(s[5] == 'r');
    assert(s[6] == '_');
    assert(s[7] == 'e');
    assert(s[8] == 'v');
    assert(s[9] == 'a');
    assert(s[10] == 'l');
    assert(s[11] == 's');
    assert(s[12] == ',');
    assert(s[13] == ' ');
    assert(s[14] == 'a');
    assert(s[15] == 'i');
    assert(s[16] == 'r');
    assert(s[17] == '_');
    assert(s[18] == 'a');
    assert(s[19] == 'l');
    assert(s[20] == 'p');
    assert(s[21] == 'h');
    assert(s[22] == 'a');
    assert(s[23] == '_');
    assert(s[24] == 'p');
    assert(s[25] == 'o');
    assert(s[26] == 'w');
    assert(s[27] == 'e');
    assert(s[28] == 'r');
    assert(s[29] == 's');
    assert(s[30] == ',');
    assert(s[31] == ' ');
    assert(s[32] == 'b');
    assert(s[33] == 'u');
    assert(s[34] == 's');
    assert(s[35] == '_');
    assert(s[36] == 'b');
    assert(s[37] == 'e');
    assert(s[38] == 't');
    assert(s[39] == 'a');
    assert(s[40] == ',');
    assert(s[41] == ' ');
    assert(s[42] == 'l');
    assert(s[43] == 'o');
    assert(s[44] == 'g');
    assert(s[45] == 'u');
    assert(s[46] == 'p');
    assert(s[47] == '_');
    assert(s[48] == 'a');
    assert(s[49] == 'l');
    assert(s[50] == 'p');
    assert(s[51] == 'h');
    assert(s[52] == 'a');
    assert(s[53] == 's');
    assert(s[54] == '_');
    assert(s[55] == 'e');
    assert(s[56] == 'q');
    assert(s[57] == '_');
    assert(s[58] == 'p');
    assert(s[59] == 'o');
    assert(s[60] == 'l');
    assert(s[61] == 'y');
    assert(s[62] == ')');
    assert(s[63] == ':');
    assert(s[64] == '\n');
    let p0 = "(inner_evals, air_alpha_powers, bus_beta, logup_alphas_eq_poly):"@;
    assert(p0[0] == '(');
    assert(p0[1] == 'i');
    assert(p0[2] == 'n');
    assert(p0[3] == 'n');
    assert(p0[4] == 'e');
    assert(p0[5] == 'r');
    assert(p0[6] == '_');
    assert(p0[7] == 'e');
    assert(p0[8] == 'v');
    assert(p0[9] == 'a');
    assert(p0[10] == 'l');
    assert(p0[11] == 's');
    assert(p0[12] == ',');
    assert(p0[13] == ' ');
    assert(p0[14] == 'a');
    assert(p0[15] == 'i');
    assert(p0[16] == 'r');
    assert(p0[17] == '_');
    assert(p0[18] == 'a');
    assert(p0[19] == 'l');
    assert(p0[20] == 'p');
    assert(p0[21] == 'h');
    assert(p0[22] == 'a');
    assert(p0[23] == '_');
    assert(p0[24] == 'p');
    assert(p0[25] == 'o');
    assert(p0[26] == 'w');
    assert(p0[27] == 'e');
    assert(p0[28] == 'r');
    assert(p0[29] == 's');
    assert(p0[30] == ',');
    assert(p0[31] == ' ');
    assert(p0[32] == 'b');
    assert(p0[33] == 'u');
    assert(p0[34] == 's');
    assert(p0[35] == '_');
    assert(p0[36] == 'b');
    assert(p0[37] == 'e');
    assert(p0[38] == 't');
    assert(p0[39] == 'a');
    assert(p0[40] == ',');
    assert(p0[41] == ' ');
    assert(p0[42] == 'l');
    assert(p0[43] == 'o');
    assert(p0[44] == 'g');
    assert(p0[45] == 'u');
    assert(p0[46] == 'p');
    assert(p0[47] == '_');
    assert(p0[48] == 'a');
    assert(p0[49] == 'l');
    assert(p0[50] == 'p');
    assert(p0[51] == 'h');
    assert(p0[52] == 'a');
    assert(p0[53] == 's');
    assert(p0[54] == '_');
    assert(p0[55] == 'e');
    assert(p0[56] == 'q');
    assert(p0[57] == '_');
    assert(p0[58] == 'p');
    assert(p0[59] == 'o');
    assert(p0[60] == 'l');
    assert(p0[61] == 'y');
    assert(p0[62] == ')');
    assert(p0[63] == ':');
    let p1 = "\n"@;
    assert(p1[0] == '\n');
    assert(s =~= "(inner_evals, air_alpha_powers, bus_beta, logup_alphas_eq_poly):"@ + "\n"@);
}

// Lines.

/// One more line.
proof fn lemma_run_line(s: Store, e: Scope, x: Seq<char>, code: Seq<char>)
    requires
        free(code, '\n'),
    ensures
        run_text(s, e, x + ("\n    "@ + code)) == exec_code(s, run_text(s, e, x), code),
{
    lemma_lit_line();
    reveal_strlit("    ");
    let indent = "    "@;
    assert(indent[0] == ' ' && indent[1] == ' ' && indent[2] == ' ' && indent[3] == ' ');
    let nl = seq!['\n'];
    let body = indent + code;
    let y = x + nl;
    assert(x + ("\n    "@ + code) =~= y + body);
    assert(y.drop_last() =~= x);
    assert(lines(y) == lines(x).push(Seq::empty()));
    assert(free(body, '\n')) by {
        assert forall|i: int| 0 <= i < body.len() implies #[trigger] body[i] != '\n' by {
            if i >= 4 {
                assert(body[i] == code[i - 4]);
            } else {
                assert(body[i] == indent[i]);
            }
        }
    }
    lemma_lines_extend(y, body);
    assert(Seq::<char>::empty() + body =~= body);
    let l = lines(y + body);
    assert(l =~= lines(x).push(body));
    assert(l.drop_last() =~= lines(x));
    assert(body.take(4) =~= indent);
    assert(body.skip(4) =~= code);
}

/// A line break at the end.
proof fn lemma_run_break(s: Store, e: Scope, x: Seq<char>)
    ensures
        run_text(s, e, x + "\n"@) == run_text(s, e, x),
{
    reveal_strlit("\n");
    assert("\n"@[0] == '\n');
    reveal_strlit("    ");
    let y = x + "\n"@;
    assert(y.drop_last() =~= x);
    assert(lines(y) == lines(x).push(Seq::empty()));
    assert(lines(y).drop_last() =~= lines(x));
    assert("    "@.len() == 4);
}

/// A word that sets no variable of the memory.
pub open spec fn is_name(w: Seq<char>) -> bool {
    &&& plain(w)
    &&& free(w, ' ')
    &&& free(w, ':')
    &&& w.len() > 0
    &&& w[0] != 'a'
    &&& w[0] != 'i'
    &&& w[0] != 'c'
}

/// A name is no place.
proof fn lemma_name_value(s: Store, e: Scope, w: Seq<char>, nesting: nat)
    requires
        is_name(w),
        w[0] != 'l',
        w[0] != 'L',
    ensures
        value_of(s, e, w, nesting) == e.named[w],
{
    lemma_find_none(w, '(');
    lemma_plain_aux();
    lemma_plain_inner();
    lemma_plain_slot();
    lemma_not_starts(w, "aux_"@);
    lemma_not_starts(w, "inner_evals + DIM * "@);
    lemma_not_starts(w, "constraints_buf + "@);
    lemma_word_weights();
    lemma_not_starts(w, "logup_alphas_eq_poly + "@);
    lemma_word_separator();
}

/// A line that sets a name.
proof fn lemma_exec_set(s: Store, e: Scope, w: Seq<char>, mark: Seq<char>, source: Seq<char>)
    requires
        is_name(w),
        mark == ": Mut"@ || mark.len() == 0,
        !starts(source, "Array"@),
    ensures
        exec_code(s, e, w + mark + " = "@ + source) == set_name(
            e,
            w,
            value_of(s, e, source, 2),
        ),
{
    lemma_target(w, mark, source);
    lemma_plain_aux();
    let target = w + mark + " "@;
    lemma_word_space();
    assert(target[0] == w[0]);
    lemma_not_starts(target, "aux_"@);
}

/// A line that allocates.
proof fn lemma_exec_array(s: Store, e: Scope, w: Seq<char>, source: Seq<char>)
    requires
        is_name(w) || w == "constraints_buf"@ || w == "buff"@,
        starts(source, "Array"@),
    ensures
        exec_code(s, e, w + " = "@ + source) == e,
{
    lemma_word_constraints();
    lemma_word_buff();
    let none = Seq::<char>::empty();
    lemma_target(w, none, source);
    assert(w + none =~= w);
}

/// The two sides of a line that sets a name.
proof fn lemma_target(w: Seq<char>, mark: Seq<char>, source: Seq<char>)
    requires
        plain(w),
        free(w, ' '),
        free(w, ':'),
        mark == ": Mut"@ || mark.len() == 0,
    ensures
        ({
            let text = w + mark + " = "@ + source;
            &&& find(text, '=') < text.len()
            &&& before(text, '=') == w + mark + " "@
            &&& behind(text, '=').skip(1) == source
            &&& before(before(w + mark + " "@, ' '), ':') == w
        }),
{
    let text = w + mark + " = "@ + source;
    lemma_word_equals();
    lemma_word_space();
    lemma_word_mut();
    let target = w + mark + " "@;
    let rest = " "@ + source;
    assert(free(target, '=')) by {
        assert forall|i: int| 0 <= i < target.len() implies #[trigger] target[i] != '=' by {
            if i < w.len() {
                assert(target[i] == w[i]);
            } else if i < w.len() + mark.len() {
                assert(target[i] == mark[i - w.len()]);
            } else {
                assert(target[i] == " "@[i - w.len() - mark.len()]);
            }
        }
    }
    assert(text =~= target + seq!['='] + rest);
    lemma_find(target, '=', rest);
    assert(rest.skip(1) =~= source);
    if mark.len() == 0 {
        assert(target =~= w + seq![' '] + Seq::<char>::empty());
        lemma_find(w, ' ', Seq::empty());
        lemma_find_none(w, ':');
        assert(w.take(w.len() as int) =~= w);
    } else {
        let head = w + seq![':'];
        let tail = seq!['M', 'u', 't', ' '];
        assert(free(head, ' ')) by {
            assert forall|i: int| 0 <= i < head.len() implies #[trigger] head[i] != ' ' by {
                if i < w.len() {
                    assert(head[i] == w[i]);
                }
            }
        }
        assert(target =~= head + seq![' '] + tail);
        lemma_find(head, ' ', tail);
        assert(head =~= w + seq![':'] + Seq::<char>::empty());
        lemma_find(w, ':', Seq::empty());
    }
}

/// Text without a sign of the grammar is passed over.
proof fn lemma_top_plain(a: Seq<char>, b: Seq<char>, d: int)
    requires
        plain(a),
    ensures
        top_comma(a + b, d) == a.len() + top_comma(b, d),
    decreases a.len(),
{
    if a.len() == 0 {
        assert(a + b =~= b);
    } else {
        let t = a.drop_first();
        assert(plain(t)) by {
            assert forall|i: int| 0 <= i < t.len() implies #[trigger] t[i] != '=' && t[i] != '('
                && t[i] != ')' && t[i] != ',' && t[i] != '[' && t[i] != '\n' by {
                assert(t[i] == a[i + 1]);
            }
        }
        lemma_top_plain(t, b, d);
        assert((a + b).drop_first() =~= t + b);
        assert((a + b)[0] == a[0]);
    }
}

/// The first of two arguments is plain.
proof fn lemma_top_simple(a: Seq<char>, b: Seq<char>)
    requires
        plain(a),
    ensures
        top_comma(a + ", "@ + b, 0) == a.len(),
{
    lemma_lit_comma();
    let rest = ", "@ + b;
    assert(a + ", "@ + b =~= a + rest);
    lemma_top_plain(a, rest, 0);
    assert(rest[0] == ',');
}

/// The first of two arguments is a call on two plain arguments.
proof fn lemma_top_nested(name: Seq<char>, x: Seq<char>, y: Seq<char>, b: Seq<char>)
    requires
        plain(name),
        plain(x),
        plain(y),
    ensures
        ({
            let a = name + "("@ + x + ", "@ + y + ")"@;
            top_comma(a + ", "@ + b, 0) == a.len()
        }),
{
    lemma_lit_comma();
    lemma_lit_open();
    lemma_lit_close();
    let a = name + "("@ + x + ", "@ + y + ")"@;
    let t4 = ", "@ + b;
    let t3 = ")"@ + t4;
    let t2 = ", "@ + (y + t3);
    let t1 = "("@ + (x + t2);
    assert(a + ", "@ + b =~= name + t1);
    lemma_top_plain(name, t1, 0);
    assert(t1[0] == '(');
    assert(t1.drop_first() =~= x + t2);
    lemma_top_plain(x, t2, 1);
    assert(t2[0] == ',');
    assert(t2.drop_first() =~= " "@ + (y + t3)) by {
        lemma_word_space();
    }
    lemma_word_space();
    lemma_top_plain(" "@, y + t3, 1);
    lemma_top_plain(y, t3, 1);
    assert(t3[0] == ')');
    assert(t3.drop_first() =~= t4);
    assert(t4[0] == ',');
    assert(top_comma(t4, 0) == 0);
    assert(top_comma(t3, 1) == 1 + top_comma(t4, 0));
    assert(top_comma(t2, 1) == 1 + top_comma(" "@ + (y + t3), 1));
    assert(top_comma(t1, 0) == 1 + top_comma(x + t2, 1));
}

/// The value of a call.
proof fn lemma_value_call(
    s: Store,
    e: Scope,
    name: Seq<char>,
    a: Seq<char>,
    b: Seq<char>,
    nesting: nat,
)
    requires
        plain(name),
        nesting > 0,
        top_comma(a + ", "@ + b, 0) == a.len(),
    ensures
        ({
            let text = name + "("@ + a + ", "@ + b + ")"@;
            let n = (nesting - 1) as nat;
            let (x, y) = (value_of(s, e, a, n), value_of(s, e, b, n));
            &&& name == "add_extension_ret"@ ==> value_of(s, e, text, nesting) == eadd(x, y)
            &&& name == "mul_extension_ret"@ ==> value_of(s, e, text, nesting) == emul(x, y)
            &&& name == "mul_base_extension_ret"@ ==> value_of(s, e, text, nesting) == emul(x, y)
        }),
{
    lemma_names();
    lemma_lit_open();
    lemma_lit_close();
    lemma_lit_comma();
    let text = name + "("@ + a + ", "@ + b + ")"@;
    let body = a + ", "@ + b;
    let rest = body + ")"@;
    assert(text =~= name + seq!['('] + rest);
    lemma_find(name, '(', rest);
    assert(rest.drop_last() =~= body);
    assert(body.take(a.len() as int) =~= a);
    assert(body.skip(a.len() as int + 2) =~= b);
}

/// A line that sets a name to a dot product.
proof fn lemma_exec_dot(
    s: Store,
    e: Scope,
    a: Seq<char>,
    b: Seq<char>,
    c: Seq<char>,
    n: int,
)
    requires
        n >= 0,
        plain(a),
        plain(b),
        plain(c),
    ensures
        exec_code(
            s,
            e,
            "dot_product_ee"@ + "("@ + a + ", "@ + b + ", "@ + c + ", "@ + decimal(n) + ")"@,
        ) == set_name(
            e,
            c,
            esum(|i: int| emul(element_of(s, e, a, i), element_of(s, e, b, i)), n as nat),
        ),
{
    lemma_lit_open();
    lemma_lit_close();
    lemma_lit_comma();
    lemma_word_dot();
    lemma_decimal_plain(n);
    lemma_decimal_reads_back(n);
    let d = decimal(n);
    let more = c + ", "@ + d;
    let rest = b + ", "@ + more;
    let body = a + ", "@ + rest;
    let text = "dot_product_ee"@ + "("@ + a + ", "@ + b + ", "@ + c + ", "@ + d + ")"@;
    let tail = body + ")"@;
    assert(text =~= "dot_product_ee"@ + seq!['('] + tail);
    lemma_find("dot_product_ee"@, '(', tail);
    assert(tail.drop_last() =~= body);
    lemma_args(a, rest);
    lemma_args(b, more);
    lemma_args(c, d);
    lemma_body(c, d);
    lemma_body(b, more);
    lemma_body(a, rest);
    assert(free(text, '=')) by {
        let w = "dot_product_ee"@;
        assert forall|i: int| 0 <= i < text.len() implies #[trigger] text[i] != '=' by {
            if i < w.len() {
                assert(text[i] == w[i]);
            } else if i == w.len() {
                assert(text[i] == '(');
            } else if i < text.len() - 1 {
                assert(text[i] == body[i - w.len() - 1]);
            } else {
                assert(text[i] == ')');
            }
        }
    }
    lemma_find_none(text, '=');
}

/// The weight behind an offset.
proof fn lemma_weight_value(s: Store, e: Scope, w: int, nesting: nat)
    requires
        w >= 0,
    ensures
        plain("logup_alphas_eq_poly + "@ + decimal(w) + " * DIM"@),
        value_of(s, e, "logup_alphas_eq_poly + "@ + decimal(w) + " * DIM"@, nesting)
            == e.logup[w],
{
    let d = decimal(w);
    let p = "logup_alphas_eq_poly + "@;
    let t = p + d + " * DIM"@;
    lemma_word_weights();
    lemma_plain_dim();
    lemma_decimal_plain(w);
    lemma_decimal_reads_back(w);
    lemma_plain_add(p, d);
    lemma_plain_add(p + d, " * DIM"@);
    lemma_find_none(t, '(');
    lemma_plain_aux();
    lemma_plain_inner();
    lemma_plain_slot();
    assert(t[0] == 'l');
    lemma_not_starts(t, "aux_"@);
    lemma_not_starts(t, "inner_evals + DIM * "@);
    lemma_not_starts(t, "constraints_buf + "@);
    lemma_word_separator();
    assert(t.take(23) =~= p);
    let rest = " * DIM"@.skip(1);
    assert(t.skip(23) =~= d + seq![' '] + rest);
    lemma_find(d, ' ', rest);
}

/// The separator.
proof fn lemma_separator_value(s: Store, e: Scope, nesting: nat)
    ensures
        value_of(s, e, "LOGUP_PRECOMPILE_DOMAINSEP"@, nesting) == e.separator,
{
    let w = "LOGUP_PRECOMPILE_DOMAINSEP"@;
    lemma_word_separator();
    lemma_find_none(w, '(');
    lemma_plain_aux();
    lemma_plain_inner();
    lemma_plain_slot();
    lemma_not_starts(w, "aux_"@);
    lemma_not_starts(w, "inner_evals + DIM * "@);
    lemma_not_starts(w, "constraints_buf + "@);
}

/// A place.
proof fn lemma_place_text_value(s: Store, e: Scope, p: Place, nesting: nat)
    ensures
        value_of(s, e, place_text(p), nesting) == arg_value(s, place_text(p)),
        plain(place_text(p)),
{
    let t = place_text(p);
    lemma_place(s, p);
    lemma_find_none(t, '(');
    lemma_plain_aux();
    lemma_plain_inner();
    lemma_plain_slot();
    match p {
        Place::Aux(k) => {
            lemma_variable(k);
        },
        Place::Inner(v) => {
            let w = "inner_evals + DIM * "@;
            lemma_flat_2(w, decimal(v as int));
            assert(t.take(20) =~= w);
        },
        Place::Slot(i) => {
            let w = "constraints_buf + "@;
            crate::air_text_laws::lemma_flat_3(w, decimal(i as int), " * DIM"@);
            assert(t.take(18) =~= w);
        },
    }
}

// Statements set no name.

/// A line that sets a variable of the memory to what a call returns.
proof fn lemma_inert_assign(s: Store, e: Scope, k: u64, name: Seq<char>, body: Seq<char>)
    ensures
        exec_code(s, e, assign_code(k, name, body)) == e,
{
    let v = place_text(Place::Aux(k));
    let rest = seq![' '] + name + seq!['('] + body + seq![')'];
    assert(assign_code(k, name, body) =~= v + seq![' '] + seq!['='] + rest);
    lemma_inert_variable(s, e, k, seq![' '], rest);
}

/// A line whose target starts with a variable of the memory.
proof fn lemma_inert_variable(s: Store, e: Scope, k: u64, mid: Seq<char>, rest: Seq<char>)
    requires
        free(mid, '='),
    ensures
        exec_code(s, e, place_text(Place::Aux(k)) + mid + seq!['='] + rest) == e,
{
    let v = place_text(Place::Aux(k));
    lemma_variable(k);
    lemma_plain_aux();
    let target = v + mid;
    assert(free(target, '=')) by {
        assert forall|i: int| 0 <= i < target.len() implies #[trigger] target[i] != '=' by {
            if i < v.len() {
                assert(target[i] == v[i]);
            } else {
                assert(target[i] == mid[i - v.len()]);
            }
        }
    }
    lemma_find(target, '=', rest);
    assert(target.take(4) =~= v.take(4));
}

/// A call that is no dot product.
proof fn lemma_inert_call(s: Store, e: Scope, name: Seq<char>, body: Seq<char>)
    requires
        plain(name),
        name.len() > 0,
        name[0] != 'r',
        name != "dot_product_ee"@,
        free(body, '='),
    ensures
        exec_code(s, e, call_code(name, body)) == e,
{
    let code = call_code(name, body);
    let tail = body + seq![')'];
    assert(free(code, '=')) by {
        assert forall|i: int| 0 <= i < code.len() implies #[trigger] code[i] != '=' by {
            if i < name.len() {
                assert(code[i] == name[i]);
            } else if i == name.len() {
                assert(code[i] == '(');
            } else if i < code.len() - 1 {
                assert(code[i] == body[i - name.len() - 1]);
            } else {
                assert(code[i] == ')');
            }
        }
    }
    lemma_find_none(code, '=');
    assert(code =~= name + seq!['('] + tail);
    lemma_find(name, '(', tail);
    lemma_word_return();
    assert(code[0] == name[0]);
    lemma_not_starts(code, "return "@);
}

/// The three lines of a call on a constant.
proof fn lemma_inert_base_call(
    s: Store,
    e: Scope,
    x: Seq<char>,
    t: u64,
    c: u32,
    name: Seq<char>,
    p: Place,
    q: Place,
)
    requires
        plain(name),
        name.len() > 0,
        name[0] != 'r',
        name != "dot_product_ee"@,
    ensures
        run_text(s, e, x + base_call(t, c, name, p, q)) == run_text(s, e, x),
{
    let v = place_text(Place::Aux(t));
    let d = decimal(c as int);
    let l = "\n    "@;
    let alloc = v + " = Array(1)"@;
    let mid = seq!['[', '0', ']', ' ', '=', ' '];
    let cell = v + mid + d;
    let body = v + ", "@ + (place_text(p) + ", "@ + place_text(q));
    let code = call_code(name, body);
    lemma_base_call_text(t, c, name, p, q);
    lemma_variable(t);
    lemma_place(s, p);
    lemma_place(s, q);
    lemma_body(place_text(p), place_text(q));
    lemma_body(v, place_text(p) + ", "@ + place_text(q));
    lemma_decimal_plain(c as int);
    lemma_word_cell_array();
    let (p1, p2, p3) = (l + alloc, l + cell, l + code);
    assert(x + (p1 + p2 + p3) =~= ((x + p1) + p2) + p3);
    assert(free(alloc, '\n')) by {
        let w = " = Array(1)"@;
        assert forall|i: int| 0 <= i < alloc.len() implies #[trigger] alloc[i] != '\n' by {
            if i < v.len() {
                assert(alloc[i] == v[i]);
            } else {
                assert(alloc[i] == w[i - v.len()]);
            }
        }
    }
    assert(free(cell, '\n')) by {
        assert forall|i: int| 0 <= i < cell.len() implies #[trigger] cell[i] != '\n' by {
            if i < v.len() {
                assert(cell[i] == v[i]);
            } else if i < v.len() + 6 {
                assert(cell[i] == mid[i - v.len()]);
            } else {
                assert(cell[i] == d[i - v.len() - 6]);
            }
        }
    }
    lemma_call_free(name, body);
    lemma_run_line(s, e, x, alloc);
    lemma_run_line(s, e, x + p1, cell);
    lemma_run_line(s, e, (x + p1) + p2, code);
    let e0 = run_text(s, e, x);
    let w = " = Array(1)"@;
    assert(alloc =~= v + seq![' '] + seq!['='] + w.skip(2));
    lemma_inert_variable(s, e0, t, seq![' '], w.skip(2));
    let head = seq!['[', '0', ']', ' '];
    assert(cell =~= v + head + seq!['='] + (seq![' '] + d));
    lemma_inert_variable(s, e0, t, head, seq![' '] + d);
    lemma_inert_call(s, e0, name, body);
}

/// A statement sets no name.
proof fn lemma_inert_stmt(s: Store, e: Scope, x: Seq<char>, stmt: Stmt)
    ensures
        run_text(s, e, x + stmt_text(stmt)) == run_text(s, e, x),
{
    lemma_names();
    lemma_word_dot();
    lemma_word_calls();
    let l = "\n    "@;
    let e0 = run_text(s, e, x);
    match stmt {
        Stmt::Embed(k, c) => {
            let (v, d) = (place_text(Place::Aux(k)), decimal(c as int));
            lemma_flat_5(l, v, " = embed_in_ef("@, d, ")"@);
            lemma_lit_embed();
            lemma_lit_close();
            lemma_spelled_embed();
            assert(stmt_text(stmt) =~= l + assign_code(k, "embed_in_ef"@, d));
            lemma_decimal_plain(c as int);
            lemma_inert_assign_line(s, e, x, k, "embed_in_ef"@, d);
        },
        Stmt::Copy(p, q) => {
            let (a, b) = (place_text(p), place_text(q));
            lemma_place(s, p);
            lemma_place(s, q);
            lemma_flat_6(l, "copy_5("@, a, ", "@, b, ")"@);
            lemma_lit_copy();
            lemma_lit_close();
            lemma_spelled_copy();
            lemma_body(a, b);
            assert(stmt_text(stmt) =~= l + call_code("copy_5"@, a + ", "@ + b));
            lemma_inert_call_line(s, e, x, "copy_5"@, a + ", "@ + b);
        },
        Stmt::Opposite(k, p) => {
            let (v, a) = (place_text(Place::Aux(k)), place_text(p));
            lemma_place(s, p);
            lemma_flat_5(l, v, " = opposite_extension_ret("@, a, ")"@);
            lemma_lit_opp();
            lemma_lit_close();
            lemma_spelled_opposite();
            assert(stmt_text(stmt) =~= l + assign_code(k, "opposite_extension_ret"@, a));
            lemma_inert_assign_line(s, e, x, k, "opposite_extension_ret"@, a);
        },
        Stmt::ExtInto(op, p, q, r) => {
            lemma_inert_into(s, e, x, op, p, q, r);
        },
        Stmt::ExtRet(op, k, p, q) => {
            lemma_place(s, p);
            lemma_place(s, q);
            lemma_inert_two(s, e, x, k, ext_ret_name(op), place_text(p), place_text(q));
        },
        Stmt::BaseInto(op, t, c, ext, d) => {
            lemma_inert_base_call(s, e, x, t, c, base_into_name(op), ext, d);
        },
        Stmt::BaseRet(op, k, c, ext) => {
            lemma_place(s, ext);
            lemma_decimal_plain(c as int);
            lemma_inert_two(s, e, x, k, base_ret_name(op), decimal(c as int), place_text(ext));
        },
        Stmt::BaseMinus(k, c, ext) => {
            lemma_place(s, ext);
            lemma_decimal_plain(c as int);
            lemma_inert_two(
                s,
                e,
                x,
                k,
                "sub_base_extension_ret"@,
                decimal(c as int),
                place_text(ext),
            );
        },
        Stmt::MinusBaseInto(t, c, d, ext) => {
            lemma_inert_base_call(s, e, x, t, c, "add_be"@, d, ext);
        },
        Stmt::MinusBaseRet(k, ext, c) => {
            lemma_place(s, ext);
            lemma_decimal_plain(c as int);
            lemma_inert_two(
                s,
                e,
                x,
                k,
                "sub_extension_base_ret"@,
                place_text(ext),
                decimal(c as int),
            );
        },
        Stmt::BusBuffer(n) => {
            lemma_inert_buffer(s, e, x, n);
        },
        Stmt::BusCopy(p, i) => {
            let (a, d) = (place_text(p), decimal(i as int));
            let b = "buff + DIM * "@ + d;
            lemma_place(s, p);
            lemma_flat_6(l, "copy_5("@, a, ", buff + DIM * "@, d, ")"@);
            lemma_lit_copy();
            lemma_lit_close();
            lemma_lit_bus();
            lemma_lit_comma();
            crate::air_text_laws::lemma_lit_buffer();
            lemma_spelled_copy();
            lemma_buffer_slot(s, i);
            lemma_body(a, b);
            assert(stmt_text(stmt) =~= l + call_code("copy_5"@, a + ", "@ + b));
            lemma_inert_call_line(s, e, x, "copy_5"@, a + ", "@ + b);
        },
    }
}

proof fn lemma_inert_assign_line(
    s: Store,
    e: Scope,
    x: Seq<char>,
    k: u64,
    name: Seq<char>,
    body: Seq<char>,
)
    requires
        plain(name),
        free(body, '\n'),
    ensures
        run_text(s, e, x + ("\n    "@ + assign_code(k, name, body))) == run_text(s, e, x),
{
    lemma_assign_free(k, name, body);
    lemma_run_line(s, e, x, assign_code(k, name, body));
    lemma_inert_assign(s, run_text(s, e, x), k, name, body);
}

proof fn lemma_inert_call_line(
    s: Store,
    e: Scope,
    x: Seq<char>,
    name: Seq<char>,
    body: Seq<char>,
)
    requires
        plain(name),
        name.len() > 0,
        name[0] != 'r',
        name != "dot_product_ee"@,
        free(body, '='),
        free(body, '\n'),
    ensures
        run_text(s, e, x + ("\n    "@ + call_code(name, body))) == run_text(s, e, x),
{
    lemma_call_free(name, body);
    lemma_run_line(s, e, x, call_code(name, body));
    lemma_inert_call(s, run_text(s, e, x), name, body);
}

proof fn lemma_inert_two(
    s: Store,
    e: Scope,
    x: Seq<char>,
    k: u64,
    name: Seq<char>,
    a: Seq<char>,
    b: Seq<char>,
)
    requires
        plain(name),
        plain(a),
        plain(b),
    ensures
        run_text(s, e, x + call_two(k, name, a, b)) == run_text(s, e, x),
{
    lemma_call_two_text(k, name, a, b);
    lemma_body(a, b);
    lemma_inert_assign_line(s, e, x, k, name, a + ", "@ + b);
}

proof fn lemma_inert_into(s: Store, e: Scope, x: Seq<char>, op: Op, p: Place, q: Place, r: Place)
    ensures
        run_text(s, e, x + stmt_text(Stmt::ExtInto(op, p, q, r))) == run_text(s, e, x),
{
    lemma_names();
    lemma_word_dot();
    lemma_word_calls();
    let (a, b, c) = (place_text(p), place_text(q), place_text(r));
    let name = ext_into_name(op);
    lemma_place(s, p);
    lemma_place(s, q);
    lemma_place(s, r);
    lemma_call_three_text(name, a, b, c);
    let rest = b + ", "@ + c;
    lemma_body(b, c);
    lemma_body(a, rest);
    lemma_inert_call_line(s, e, x, name, a + ", "@ + rest);
}

/// The allocation of the bus buffer.
proof fn lemma_inert_buffer(s: Store, e: Scope, x: Seq<char>, n: u64)
    ensures
        run_text(s, e, x + stmt_text(Stmt::BusBuffer(n))) == run_text(s, e, x),
{
    let l = "\n    "@;
    let d = decimal(n as int);
    lemma_flat_4(l, "buff = Array(DIM * "@, d, ")"@);
    lemma_split_buff();
    lemma_word_buff();
    lemma_decimal_plain(n as int);
    let source = "Array(DIM * "@ + d + ")"@;
    let code = "buff"@ + " = "@ + source;
    assert(stmt_text(Stmt::BusBuffer(n)) =~= l + code);
    lemma_array_source(d);
    lemma_free_sum("buff"@ + " = "@, source);
    lemma_run_line(s, e, x, code);
    lemma_exec_array(s, run_text(s, e, x), "buff"@, source);
}

/// An allocation of as many values as a number says.
proof fn lemma_array_source(d: Seq<char>)
    requires
        plain(d),
    ensures
        starts("Array(DIM * "@ + d + ")"@, "Array"@),
        free("Array(DIM * "@ + d + ")"@, '\n'),
        free("buff"@ + " = "@, '\n'),
        free("constraints_buf"@ + " = "@, '\n'),
{
    lemma_word_array_dim();
    lemma_lit_close();
    lemma_word_buff();
    lemma_word_constraints();
    lemma_word_equals();
    let t = "Array(DIM * "@ + d + ")"@;
    assert(t.take(5) =~= "Array"@);
    assert forall|i: int| 0 <= i < t.len() implies #[trigger] t[i] != '\n' by {
        if i < 12 {
            assert(t[i] == "Array(DIM * "@[i]);
        } else if i < 12 + d.len() {
            assert(t[i] == d[i - 12]);
        } else {
            assert(t[i] == ")"@[i - 12 - d.len()]);
        }
    }
    lemma_free_sum("buff"@, " = "@);
    lemma_free_sum("constraints_buf"@, " = "@);
}

proof fn lemma_free_sum(a: Seq<char>, b: Seq<char>)
    requires
        free(a, '\n'),
        free(b, '\n'),
    ensures
        free(a + b, '\n'),
{
    let t = a + b;
    assert forall|i: int| 0 <= i < t.len() implies #[trigger] t[i] != '\n' by {
        if i < a.len() {
            assert(t[i] == a[i]);
        } else {
            assert(t[i] == b[i - a.len()]);
        }
    }
}

/// Statements set no name.
proof fn lemma_inert_stmts(s: Store, e: Scope, x: Seq<char>, stmts: Seq<Stmt>)
    ensures
        run_text(s, e, x + stmts_text(stmts)) == run_text(s, e, x),
    decreases stmts.len(),
{
    let v = Seq::new(stmts.len(), |k: int| stmt_text(stmts[k]));
    if stmts.len() == 0 {
        assert(v.len() == 0);
        assert(x + flat(v) =~= x);
    } else {
        let d = stmts.drop_last();
        lemma_inert_stmts(s, e, x, d);
        let w = Seq::new(d.len(), |k: int| stmt_text(d[k]));
        assert(v.drop_last() =~= w);
        assert(x + stmts_text(stmts) =~= (x + stmts_text(d)) + stmt_text(stmts.last()));
        lemma_inert_stmt(s, e, x + stmts_text(d), stmts.last());
    }
}

/// The lines before the statements set no name.
proof fn lemma_inert_front(s: Store, e: Scope, t: TableAir, w: int, flag: Place)
    ensures
        run_text(s, e, flat(table_frame(t, w, flag).0)) == e,
{
    let front = table_frame(t, w, flag).0;
    let (i, n) = (decimal(t.index as int), decimal(t.constraints@.len() as int));
    let head = "def evaluate_air_constraints_table_"@;
    let params = "(inner_evals, air_alpha_powers, bus_beta, logup_alphas_eq_poly):"@;
    lemma_flat_6(
        head,
        i,
        "(inner_evals, air_alpha_powers, bus_beta, logup_alphas_eq_poly):\n"@,
        "\n    constraints_buf = Array(DIM * "@,
        n,
        ")"@,
    );
    lemma_split_params();
    lemma_split_constraints();
    lemma_word_head();
    lemma_word_params();
    lemma_decimal_plain(t.index as int);
    lemma_decimal_plain(t.constraints@.len() as int);
    lemma_word_constraints();
    let first = head + i + params;
    let source = "Array(DIM * "@ + n + ")"@;
    let code = "constraints_buf"@ + " = "@ + source;
    assert(flat(front) =~= (first + "\n"@) + ("\n    "@ + code));
    lemma_array_source(n);
    lemma_free_sum("constraints_buf"@ + " = "@, source);
    lemma_run_line(s, e, first + "\n"@, code);
    lemma_run_break(s, e, first);
    lemma_free_sum(head, i);
    lemma_free_sum(head + i, params);
    let none = Seq::<char>::empty();
    lemma_lines_extend(none, first);
    assert(none + first =~= first);
    let ls = lines(first);
    assert(ls =~= seq![first]);
    assert(ls.drop_last().len() == 0);
    reveal_with_fuel(run_lines, 2);
    reveal_strlit("    ");
    assert("    "@[0] == ' ');
    assert(first[0] == 'd');
    lemma_not_starts(first, "    "@);
    assert(run_text(s, e, first) == e);
    lemma_exec_array(s, e, "constraints_buf"@, source);
}

// The lines behind the statements.

/// The names after the dot product of the bus values.
proof fn lemma_bus_product(s: Store, e: Scope, x: Seq<char>, m: int)
    requires
        m >= 0,
    ensures
        ({
            let y = x + "\n    bus_res_init = Array(DIM)"@
                + "\n    dot_product_ee(buff, logup_alphas_eq_poly, bus_res_init, "@ + decimal(m)
                + ")"@;
            let e0 = run_text(s, e, x);
            run_text(s, e, y) == set_name(
                e0,
                "bus_res_init"@,
                esum(|i: int| emul(s.bus[i], e0.logup[i]), m as nat),
            )
        }),
{
    let e0 = run_text(s, e, x);
    let d = decimal(m);
    lemma_split_init();
    lemma_split_dot_bus();
    lemma_word_bus_res_init();
    lemma_word_array();
    lemma_word_buff();
    lemma_word_poly();
    lemma_word_vectors();
    lemma_word_dot();
    lemma_lit_open();
    lemma_lit_close();
    lemma_lit_comma();
    lemma_decimal_plain(m);
    lemma_word_equals();
    let l = "\n    "@;
    let c1 = "bus_res_init"@ + " = "@ + "Array(DIM)"@;
    let (a, b, c) = ("buff"@, "logup_alphas_eq_poly"@, "bus_res_init"@);
    let c2 = "dot_product_ee"@ + "("@ + a + ", "@ + b + ", "@ + c + ", "@ + d + ")"@;
    let y1 = x + (l + c1);
    let y = x + "\n    bus_res_init = Array(DIM)"@
        + "\n    dot_product_ee(buff, logup_alphas_eq_poly, bus_res_init, "@ + d + ")"@;
    assert(y =~= y1 + (l + c2));
    lemma_free_sum("bus_res_init"@, " = "@);
    lemma_free_sum("bus_res_init"@ + " = "@, "Array(DIM)"@);
    lemma_run_line(s, e, x, c1);
    lemma_exec_array(s, e0, "bus_res_init"@, "Array(DIM)"@);
    lemma_dot_free(a, b, c, d);
    lemma_run_line(s, e, y1, c2);
    lemma_exec_dot(s, e0, a, b, c, m);
    lemma_esum_eq(
        |i: int| emul(element_of(s, e0, a, i), element_of(s, e0, b, i)),
        |i: int| emul(s.bus[i], e0.logup[i]),
        m as nat,
    );
}

/// The code of a dot product has no line break.
proof fn lemma_dot_free(a: Seq<char>, b: Seq<char>, c: Seq<char>, d: Seq<char>)
    requires
        plain(a),
        plain(b),
        plain(c),
        plain(d),
    ensures
        free("dot_product_ee"@ + "("@ + a + ", "@ + b + ", "@ + c + ", "@ + d + ")"@, '\n'),
{
    lemma_word_dot();
    lemma_lit_open();
    lemma_lit_close();
    lemma_body(c, d);
    lemma_body(b, c + ", "@ + d);
    lemma_body(a, b + ", "@ + (c + ", "@ + d));
    let body = a + ", "@ + (b + ", "@ + (c + ", "@ + d));
    lemma_free_sum("dot_product_ee"@, "("@);
    lemma_free_sum("dot_product_ee"@ + "("@, body);
    lemma_free_sum("dot_product_ee"@ + "("@ + body, ")"@);
    assert("dot_product_ee"@ + "("@ + a + ", "@ + b + ", "@ + c + ", "@ + d + ")"@
        =~= "dot_product_ee"@ + "("@ + body + ")"@);
}

/// The line that adds the separator's term to the bus values.
proof fn lemma_line_result(s: Store, e: Scope, x: Seq<char>, w: int)
    requires
        w >= 0,
    ensures
        ({
            let y = x
                + "\n    bus_res: Mut = add_extension_ret(mul_base_extension_ret(LOGUP_PRECOMPILE_DOMAINSEP, logup_alphas_eq_poly + "@
                + decimal(w) + " * DIM), bus_res_init)"@;
            let e0 = run_text(s, e, x);
            run_text(s, e, y) == set_name(
                e0,
                "bus_res"@,
                eadd(emul(e0.separator, e0.logup[w]), e0.named["bus_res_init"@]),
            )
        }),
{
    let e0 = run_text(s, e, x);
    let d = decimal(w);
    let l = "\n    "@;
    let weight = "logup_alphas_eq_poly + "@ + d + " * DIM"@;
    let sep = "LOGUP_PRECOMPILE_DOMAINSEP"@;
    let init = "bus_res_init"@;
    let inner = "mul_base_extension_ret"@ + "("@ + sep + ", "@ + weight + ")"@;
    let src = "add_extension_ret"@ + "("@ + inner + ", "@ + init + ")"@;
    let c1 = "bus_res"@ + ": Mut"@ + " = "@ + src;
    lemma_result_text(x, w);
    lemma_names();
    lemma_word_bus_res();
    lemma_word_bus_res_init();
    lemma_word_separator();
    lemma_word_mut();
    lemma_weight_value(s, e0, w, 0);
    lemma_call_text_free("mul_base_extension_ret"@, sep, weight);
    lemma_call_text_free("add_extension_ret"@, inner, init);
    lemma_set_free("bus_res"@, ": Mut"@, src);
    lemma_run_line(s, e, x, c1);
    lemma_call_start("add_extension_ret"@, inner, init);
    lemma_source_not_array(src);
    lemma_exec_set(s, e0, "bus_res"@, ": Mut"@, src);
    lemma_top_nested("mul_base_extension_ret"@, sep, weight, init);
    lemma_value_call(s, e0, "add_extension_ret"@, inner, init, 2);
    lemma_top_simple(sep, weight);
    lemma_value_call(s, e0, "mul_base_extension_ret"@, sep, weight, 1);
    lemma_separator_value(s, e0, 0);
    lemma_name_value(s, e0, init, 1);
}

/// A call starts with its name.
proof fn lemma_call_start(name: Seq<char>, a: Seq<char>, b: Seq<char>)
    requires
        name == "add_extension_ret"@ || name == "mul_extension_ret"@,
    ensures
        ({
            let t = name + "("@ + a + ", "@ + b + ")"@;
            t.len() > 0 && (t[0] == 'a' || t[0] == 'm')
        }),
{
    reveal_strlit("add_extension_ret");
    reveal_strlit("mul_extension_ret");
    assert("add_extension_ret"@.len() == 17);
    assert("mul_extension_ret"@.len() == 17);
    assert("add_extension_ret"@[0] == 'a');
    assert("mul_extension_ret"@[0] == 'm');
    let t = name + "("@ + a + ", "@ + b + ")"@;
    assert(t[0] == name[0]);
}

proof fn lemma_result_text(x: Seq<char>, w: int)
    ensures
        ({
            let weight = "logup_alphas_eq_poly + "@ + decimal(w) + " * DIM"@;
            let inner = "mul_base_extension_ret"@ + "("@ + "LOGUP_PRECOMPILE_DOMAINSEP"@ + ", "@
                + weight + ")"@;
            let src = "add_extension_ret"@ + "("@ + inner + ", "@ + "bus_res_init"@ + ")"@;
            x
                + "\n    bus_res: Mut = add_extension_ret(mul_base_extension_ret(LOGUP_PRECOMPILE_DOMAINSEP, logup_alphas_eq_poly + "@
                + decimal(w) + " * DIM), bus_res_init)"@ == x + ("\n    "@ + ("bus_res"@
                + ": Mut"@ + " = "@ + src))
        }),
{
    lemma_split_result();
    lemma_split_result_end();
    let d = decimal(w);
    let weight = "logup_alphas_eq_poly + "@ + d + " * DIM"@;
    let inner = "mul_base_extension_ret"@ + "("@ + "LOGUP_PRECOMPILE_DOMAINSEP"@ + ", "@ + weight
        + ")"@;
    let src = "add_extension_ret"@ + "("@ + inner + ", "@ + "bus_res_init"@ + ")"@;
    assert(x
        + "\n    bus_res: Mut = add_extension_ret(mul_base_extension_ret(LOGUP_PRECOMPILE_DOMAINSEP, logup_alphas_eq_poly + "@
        + d + " * DIM), bus_res_init)"@ =~= x + ("\n    "@ + ("bus_res"@ + ": Mut"@ + " = "@
        + src)));
}

/// The line that multiplies the bus result with the challenge.
proof fn lemma_line_times_beta(s: Store, e: Scope, x: Seq<char>)
    ensures
        ({
            let e1 = run_text(s, e, x);
            run_text(s, e, x + "\n    bus_res = mul_extension_ret(bus_res, bus_beta)"@) == set_name(
                e1,
                "bus_res"@,
                emul(e1.named["bus_res"@], e1.named["bus_beta"@]),
            )
        }),
{
    let e1 = run_text(s, e, x);
    let none = Seq::<char>::empty();
    let src2 = "mul_extension_ret"@ + "("@ + "bus_res"@ + ", "@ + "bus_beta"@ + ")"@;
    let c2 = "bus_res"@ + none + " = "@ + src2;
    lemma_split_times_beta();
    lemma_names();
    lemma_word_bus_res();
    lemma_word_bus_beta();
    assert(x + "\n    bus_res = mul_extension_ret(bus_res, bus_beta)"@ =~= x + ("\n    "@ + c2));
    lemma_call_text_free("mul_extension_ret"@, "bus_res"@, "bus_beta"@);
    lemma_set_free("bus_res"@, none, src2);
    lemma_run_line(s, e, x, c2);
    lemma_call_start("mul_extension_ret"@, "bus_res"@, "bus_beta"@);
    lemma_source_not_array(src2);
    lemma_exec_set(s, e1, "bus_res"@, none, src2);
    lemma_top_simple("bus_res"@, "bus_beta"@);
    lemma_value_call(s, e1, "mul_extension_ret"@, "bus_res"@, "bus_beta"@, 2);
    lemma_name_value(s, e1, "bus_res"@, 1);
    lemma_name_value(s, e1, "bus_beta"@, 1);
}

/// The text of a call has no line break where its parts have none.
proof fn lemma_call_text_free(name: Seq<char>, a: Seq<char>, b: Seq<char>)
    requires
        free(name, '\n'),
        free(a, '\n'),
        free(b, '\n'),
    ensures
        free(name + "("@ + a + ", "@ + b + ")"@, '\n'),
{
    lemma_lit_open();
    lemma_lit_close();
    lemma_lit_comma();
    lemma_free_sum(name, "("@);
    lemma_free_sum(name + "("@, a);
    lemma_free_sum(name + "("@ + a, ", "@);
    lemma_free_sum(name + "("@ + a + ", "@, b);
    lemma_free_sum(name + "("@ + a + ", "@ + b, ")"@);
}

/// A line that sets a name has no line break where its parts have none.
proof fn lemma_set_free(w: Seq<char>, mark: Seq<char>, source: Seq<char>)
    requires
        free(w, '\n'),
        free(mark, '\n'),
        free(source, '\n'),
    ensures
        free(w + mark + " = "@ + source, '\n'),
{
    lemma_word_equals();
    lemma_free_sum(w, mark);
    lemma_free_sum(w + mark, " = "@);
    lemma_free_sum(w + mark + " = "@, source);
}

/// A source that starts with a small letter allocates nothing.
proof fn lemma_source_not_array(source: Seq<char>)
    requires
        source.len() > 0,
        source[0] == 'a' || source[0] == 'm',
    ensures
        !starts(source, "Array"@),
{
    lemma_word_array();
    lemma_not_starts(source, "Array"@);
}

/// The line that adds the flag.
proof fn lemma_line_sum(s: Store, e: Scope, x: Seq<char>, flag: Place)
    ensures
        ({
            let e0 = run_text(s, e, x);
            run_text(
                s,
                e,
                x + "\n    sum: Mut = add_extension_ret(bus_res, "@ + place_text(flag) + ")"@,
            ) == set_name(
                e0,
                "sum"@,
                eadd(e0.named["bus_res"@], arg_value(s, place_text(flag))),
            )
        }),
{
    let e0 = run_text(s, e, x);
    let f = place_text(flag);
    let src = "add_extension_ret"@ + "("@ + "bus_res"@ + ", "@ + f + ")"@;
    let c1 = "sum"@ + ": Mut"@ + " = "@ + src;
    lemma_split_sum();
    lemma_names();
    lemma_word_bus_res();
    lemma_word_sum();
    lemma_word_mut();
    lemma_place_text_value(s, e0, flag, 1);
    assert(x + "\n    sum: Mut = add_extension_ret(bus_res, "@ + f + ")"@ =~= x + ("\n    "@ + c1));
    lemma_call_text_free("add_extension_ret"@, "bus_res"@, f);
    lemma_set_free("sum"@, ": Mut"@, src);
    lemma_run_line(s, e, x, c1);
    lemma_call_start("add_extension_ret"@, "bus_res"@, f);
    lemma_source_not_array(src);
    lemma_exec_set(s, e0, "sum"@, ": Mut"@, src);
    lemma_top_simple("bus_res"@, f);
    lemma_value_call(s, e0, "add_extension_ret"@, "bus_res"@, f, 2);
    lemma_name_value(s, e0, "bus_res"@, 1);
}

/// The lines that weight the constraints.
proof fn lemma_line_weighted(s: Store, e: Scope, x: Seq<char>, n: int)
    requires
        n >= 0,
    ensures
        ({
            let e1 = run_text(s, e, x);
            run_text(
                s,
                e,
                x + "\n    weighted_constraints = Array(DIM)"@
                    + "\n    dot_product_ee(air_alpha_powers + DIM, constraints_buf, weighted_constraints, "@
                    + decimal(n) + ")"@,
            ) == set_name(
                e1,
                "weighted_constraints"@,
                esum(|i: int| emul(e1.alphas[i + 1], s.slots[i]), n as nat),
            )
        }),
{
    let e1 = run_text(s, e, x);
    let d = decimal(n);
    let l = "\n    "@;
    let (a, b, c) = ("air_alpha_powers + DIM"@, "constraints_buf"@, "weighted_constraints"@);
    let c2 = c + " = "@ + "Array(DIM)"@;
    let c3 = "dot_product_ee"@ + "("@ + a + ", "@ + b + ", "@ + c + ", "@ + d + ")"@;
    lemma_split_weighted();
    lemma_split_dot_constraints();
    lemma_word_weighted();
    lemma_word_constraints();
    lemma_word_powers();
    lemma_word_vectors();
    lemma_word_array();
    lemma_word_equals();
    lemma_decimal_plain(n);
    let y2 = x + (l + c2);
    assert(x + "\n    weighted_constraints = Array(DIM)"@
        + "\n    dot_product_ee(air_alpha_powers + DIM, constraints_buf, weighted_constraints, "@
        + d + ")"@ =~= y2 + (l + c3));
    lemma_free_sum(c, " = "@);
    lemma_free_sum(c + " = "@, "Array(DIM)"@);
    lemma_run_line(s, e, x, c2);
    lemma_exec_array(s, e1, c, "Array(DIM)"@);
    lemma_dot_free(a, b, c, d);
    lemma_run_line(s, e, y2, c3);
    lemma_exec_dot(s, e1, a, b, c, n);
    lemma_esum_eq(
        |i: int| emul(element_of(s, e1, a, i), element_of(s, e1, b, i)),
        |i: int| emul(e1.alphas[i + 1], s.slots[i]),
        n as nat,
    );
}

/// The line that adds the weighted constraints.
proof fn lemma_line_last_sum(s: Store, e: Scope, x: Seq<char>)
    ensures
        ({
            let e2 = run_text(s, e, x);
            run_text(s, e, x + "\n    sum = add_extension_ret(sum, weighted_constraints)"@)
                == set_name(
                e2,
                "sum"@,
                eadd(e2.named["sum"@], e2.named["weighted_constraints"@]),
            )
        }),
{
    let e2 = run_text(s, e, x);
    let none = Seq::<char>::empty();
    let c = "weighted_constraints"@;
    let src4 = "add_extension_ret"@ + "("@ + "sum"@ + ", "@ + c + ")"@;
    let c4 = "sum"@ + none + " = "@ + src4;
    lemma_split_last_sum();
    lemma_names();
    lemma_word_sum();
    lemma_word_weighted();
    assert(x + "\n    sum = add_extension_ret(sum, weighted_constraints)"@ =~= x + ("\n    "@ + c4));
    lemma_call_text_free("add_extension_ret"@, "sum"@, c);
    lemma_set_free("sum"@, none, src4);
    lemma_run_line(s, e, x, c4);
    lemma_call_start("add_extension_ret"@, "sum"@, c);
    lemma_source_not_array(src4);
    lemma_exec_set(s, e2, "sum"@, none, src4);
    lemma_top_simple("sum"@, c);
    lemma_value_call(s, e2, "add_extension_ret"@, "sum"@, c, 2);
    lemma_name_value(s, e2, "sum"@, 1);
    lemma_name_value(s, e2, c, 1);
}

/// The last line.
proof fn lemma_line_return(s: Store, e: Scope, x: Seq<char>)
    ensures
        returned(s, e, x + "\n    return sum"@ + "\n"@) == run_text(s, e, x).named["sum"@],
{
    let e3 = run_text(s, e, x);
    let c5 = "return "@ + "sum"@;
    lemma_split_return();
    lemma_word_return();
    lemma_word_sum();
    let y = x + "\n    return sum"@;
    assert(y =~= x + ("\n    "@ + c5));
    lemma_free_sum("return "@, "sum"@);
    lemma_run_line(s, e, x, c5);
    lemma_exec_return(s, e3);
    lemma_run_break(s, e, y);
}

/// The line that gives the sum back.
proof fn lemma_exec_return(s: Store, e: Scope)
    ensures
        exec_code(s, e, "return "@ + "sum"@) == set_name(e, "return"@, e.named["sum"@]),
{
    lemma_word_return();
    lemma_word_sum();
    lemma_word_dot();
    let t = "return "@ + "sum"@;
    assert(free(t, '=') && free(t, '(')) by {
        assert forall|i: int| 0 <= i < t.len() implies #[trigger] t[i] != '=' && t[i] != '(' by {
            if i < 7 {
                assert(t[i] == "return "@[i]);
            } else {
                assert(t[i] == "sum"@[i - 7]);
            }
        }
    }
    lemma_find_none(t, '=');
    lemma_find_none(t, '(');
    assert(t.take(t.len() as int) =~= t);
    assert(t.take(7) =~= "return "@);
    assert(t.skip(7) =~= "sum"@);
    assert(t.len() == 10);
}

/// The function that is generated for a table, read as code, returns what the recursive
/// verifier checks. With the challenge `beta` of the bus, the weights `w` of the lookup
/// argument and the powers `a` of the challenge of the constraints, it returns the separator
/// times the last weight of the bus plus the sum of the bus values times the first weights,
/// all times `beta`, plus the bus flag, plus the sum of constraint `i` times power `i + 1`.
/// So it is for every memory in which what the lines say holds.
pub proof fn lemma_table_function_returns(t: TableAir, max_bus_width: int, s: Store, e: Scope)
    requires
        t.wf(),
        t.graph@.len() <= u32::MAX,
        table_columns_exist(t, s.inner.len() as int),
        memory_wf(s),
        forall|i: int|
            0 <= i < t.constraints@.len() ==> (#[trigger] t.constraints@[i]) is Operation,
        text_holds(s, table_text(t, max_bus_width)),
    ensures
        returned(s, e, table_text(t, max_bus_width)) == eadd(
            eadd(
                emul(
                    eadd(
                        emul(e.separator, e.logup[next_pow2(max_bus_width) - 1]),
                        esum(
                            |j: int|
                                emul(
                                    expr_value(t.graph@, t.bus_data@[j], s.inner),
                                    e.logup[j],
                                ),
                            t.bus_data@.len(),
                        ),
                    ),
                    e.named["bus_beta"@],
                ),
                expr_value(t.graph@, t.bus_flag, s.inner),
            ),
            esum(
                |i: int| emul(e.alphas[i + 1], expr_value(t.graph@, t.constraints@[i], s.inner)),
                t.constraints@.len(),
            ),
        ),
{
    let (flag, st) = gen_table(t);
    let (front, back) = table_frame(t, max_bus_width, flag);
    let (n, m) = (t.constraints@.len() as int, t.bus_data@.len() as int);
    lemma_table_text_computes(t, max_bus_width, s);
    lemma_table_frame(t, max_bus_width);
    let x0 = flat(front) + stmts_text(st.out);
    lemma_inert_front(s, e, t, max_bus_width, flag);
    lemma_inert_stmts(s, e, flat(front), st.out);
    lemma_back_returns(s, e, x0, t, max_bus_width, flag);
    lemma_esum_eq(
        |i: int| emul(s.bus[i], e.logup[i]),
        |j: int| emul(expr_value(t.graph@, t.bus_data@[j], s.inner), e.logup[j]),
        m as nat,
    );
    lemma_esum_eq(
        |i: int| emul(e.alphas[i + 1], s.slots[i]),
        |i: int| emul(e.alphas[i + 1], expr_value(t.graph@, t.constraints@[i], s.inner)),
        n as nat,
    );
}

/// What the lines behind the statements return, over the buffers.
proof fn lemma_back_returns(
    s: Store,
    e: Scope,
    x0: Seq<char>,
    t: TableAir,
    max_bus_width: int,
    flag: Place,
)
    ensures
        ({
            let e0 = run_text(s, e, x0);
            returned(s, e, x0 + flat(table_frame(t, max_bus_width, flag).1)) == eadd(
                eadd(
                    emul(
                        eadd(
                            emul(e0.separator, e0.logup[next_pow2(max_bus_width) - 1]),
                            esum(|i: int| emul(s.bus[i], e0.logup[i]), t.bus_data@.len()),
                        ),
                        e0.named["bus_beta"@],
                    ),
                    arg_value(s, place_text(flag)),
                ),
                esum(|i: int| emul(e0.alphas[i + 1], s.slots[i]), t.constraints@.len()),
            )
        }),
{
    let (n, m) = (t.constraints@.len() as int, t.bus_data@.len() as int);
    let w = next_pow2(max_bus_width) - 1;
    let e0 = run_text(s, e, x0);
    vstd::arithmetic::power2::lemma_pow2_pos(crate::numeric::log2_ceil(max_bus_width));
    let x1 = x0 + "\n    bus_res_init = Array(DIM)"@
        + "\n    dot_product_ee(buff, logup_alphas_eq_poly, bus_res_init, "@ + decimal(m) + ")"@;
    let x2 = x1
        + "\n    bus_res: Mut = add_extension_ret(mul_base_extension_ret(LOGUP_PRECOMPILE_DOMAINSEP, logup_alphas_eq_poly + "@
        + decimal(w) + " * DIM), bus_res_init)"@;
    let x3 = x2 + "\n    bus_res = mul_extension_ret(bus_res, bus_beta)"@;
    let x4 = x3 + "\n    sum: Mut = add_extension_ret(bus_res, "@ + place_text(flag) + ")"@;
    let x5 = x4 + "\n    weighted_constraints = Array(DIM)"@
        + "\n    dot_product_ee(air_alpha_powers + DIM, constraints_buf, weighted_constraints, "@
        + decimal(n) + ")"@;
    let x6 = x5 + "\n    sum = add_extension_ret(sum, weighted_constraints)"@;
    lemma_back_text(x0, t, max_bus_width, flag);
    lemma_bus_product(s, e, x0, m);
    lemma_line_result(s, e, x1, w);
    lemma_line_times_beta(s, e, x2);
    lemma_line_sum(s, e, x3, flag);
    lemma_line_weighted(s, e, x4, n);
    lemma_line_last_sum(s, e, x5);
    lemma_line_return(s, e, x6);
    lemma_word_keys();
    let e1 = run_text(s, e, x1);
    assert(e1.logup == e0.logup && e1.alphas == e0.alphas && e1.separator == e0.separator);
    assert(e1.named["bus_beta"@] == e0.named["bus_beta"@]);
}

/// What stands behind the statements, part by part.
proof fn lemma_back_text(x: Seq<char>, t: TableAir, max_bus_width: int, flag: Place)
    ensures
        x + flat(table_frame(t, max_bus_width, flag).1) == x
            + "\n    bus_res_init = Array(DIM)"@
            + "\n    dot_product_ee(buff, logup_alphas_eq_poly, bus_res_init, "@ + decimal(
            t.bus_data@.len() as int,
        ) + ")"@
            + "\n    bus_res: Mut = add_extension_ret(mul_base_extension_ret(LOGUP_PRECOMPILE_DOMAINSEP, logup_alphas_eq_poly + "@
            + decimal(next_pow2(max_bus_width) - 1) + " * DIM), bus_res_init)"@
            + "\n    bus_res = mul_extension_ret(bus_res, bus_beta)"@
            + "\n    sum: Mut = add_extension_ret(bus_res, "@ + place_text(flag) + ")"@
            + "\n    weighted_constraints = Array(DIM)"@
            + "\n    dot_product_ee(air_alpha_powers + DIM, constraints_buf, weighted_constraints, "@
            + decimal(t.constraints@.len() as int) + ")"@
            + "\n    sum = add_extension_ret(sum, weighted_constraints)"@ + "\n    return sum"@
            + "\n"@,
{
    let v = table_frame(t, max_bus_width, flag).1;
    lemma_step(x, v, 0);
    lemma_step(x, v, 1);
    lemma_step(x, v, 2);
    lemma_step(x, v, 3);
    lemma_step(x, v, 4);
    lemma_step(x, v, 5);
    lemma_step(x, v, 6);
    lemma_step(x, v, 7);
    lemma_step(x, v, 8);
    lemma_step(x, v, 9);
    lemma_step(x, v, 10);
    lemma_step(x, v, 11);
    lemma_step(x, v, 12);
    lemma_step(x, v, 13);
    lemma_step(x, v, 14);
    lemma_step(x, v, 15);
    lemma_step(x, v, 16);
    lemma_step(x, v, 17);
    assert(v.take(0) =~= Seq::empty());
    assert(v.take(18) =~= v);
    assert(x + Seq::<char>::empty() =~= x);
}

/// One more part.
proof fn lemma_step(x: Seq<char>, v: Seq<Seq<char>>, k: int)
    requires
        0 <= k < v.len(),
    ensures
        x + flat(v.take(k + 1)) == x + flat(v.take(k)) + v[k],
{
    lemma_flat_take(v, k);
    assert(x + (flat(v.take(k)) + v[k]) =~= x + flat(v.take(k)) + v[k]);
}

} // verus!
