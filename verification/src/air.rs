//! Generation of constraint evaluation code for the recursive verifier.
//!
//! The constraints of a table are symbolic expressions over its columns, held as a
//! graph whose nodes are shared. The generator turns them into statements of the
//! circuit language, evaluating each node once and remembering where its value is.

use crate::numeric::{next_pow2, next_power_of_two};
use crate::slices::flat;
use crate::text::{append_parts, decimal, decimal_u64, parts_text};
use vstd::prelude::*;

verus! {

/// A symbolic expression.
#[derive(Clone, Copy, Debug)]
pub enum Expr {
    /// A base field constant, by its canonical representative.
    Constant(u32),
    /// A column value.
    Variable(u64),
    /// A node of the graph.
    Operation(u32),
}

/// The operation of a node.
#[derive(Clone, Copy, Debug)]
pub enum Op {
    Neg,
    Add,
    Sub,
    Mul,
}

/// A node: an operation on two expressions. A negation reads the first only.
#[derive(Clone, Copy, Debug)]
pub struct Node {
    pub op: Op,
    pub lhs: Expr,
    pub rhs: Expr,
}

/// Where a value is.
#[derive(Clone, Copy, Debug)]
pub enum Place {
    /// A numbered variable.
    Aux(u64),
    /// A column value.
    Inner(u64),
    /// A slot of the constraint buffer.
    Slot(u64),
}

/// A statement of the circuit language.
#[derive(Clone, Copy, Debug)]
pub enum Stmt {
    /// A new variable holding a base field constant.
    Embed(u64, u32),
    /// Copy a value into a place.
    Copy(Place, Place),
    /// A new variable holding the negation of a value.
    Opposite(u64, Place),
    /// An operation on two values, into a place.
    ExtInto(Op, Place, Place, Place),
    /// An operation on two values, into a new variable.
    ExtRet(Op, u64, Place, Place),
    /// An operation on a constant, put into a new variable, and a value, into a place.
    BaseInto(Op, u64, u32, Place, Place),
    /// An operation on a constant and a value, into a new variable.
    BaseRet(Op, u64, u32, Place),
    /// A constant minus a value, into a new variable.
    BaseMinus(u64, u32, Place),
    /// A value minus a constant, into a place: the constant, put into a new variable,
    /// plus the place gives the value.
    MinusBaseInto(u64, u32, Place, Place),
    /// A value minus a constant, into a new variable.
    MinusBaseRet(u64, Place, u32),
    /// Allocate the bus buffer for a number of values.
    BusBuffer(u64),
    /// Copy a value into the bus buffer.
    BusCopy(Place, u64),
}

/// The height of an expression above the leaves of the graph's numbering.
pub open spec fn rank(e: Expr) -> int {
    match e {
        Expr::Operation(i) => i + 1,
        _ => 0,
    }
}

/// Nodes read only constants, variables and nodes with smaller numbers.
pub open spec fn graph_wf(graph: Seq<Node>) -> bool {
    forall|i: int|
        0 <= i < graph.len() ==> rank((#[trigger] graph[i]).lhs) <= i && rank(graph[i].rhs) <= i
}

/// The expression's nodes are in the graph.
pub open spec fn in_graph(graph: Seq<Node>, e: Expr) -> bool {
    rank(e) <= graph.len()
}

/// The state of the generator: where each evaluated node's value is, the statements,
/// and the number of variables in use.
pub struct Gen {
    pub cache: Seq<Option<Place>>,
    pub out: Seq<Stmt>,
    pub count: nat,
}

/// The state with one more statement that takes a new variable.
pub open spec fn fresh(st: Gen, s: Stmt) -> Gen {
    Gen { out: st.out.push(s), count: st.count + 1, ..st }
}

/// The state with one more statement.
pub open spec fn emit(st: Gen, s: Stmt) -> Gen {
    Gen { out: st.out.push(s), ..st }
}

/// The constant of a constant expression.
pub open spec fn constant(e: Expr) -> Option<u32> {
    match e {
        Expr::Constant(c) => Some(c),
        _ => None,
    }
}

/// An operation on two values.
pub open spec fn finish_ext(op: Op, a: Place, b: Place, dest: Option<Place>, st: Gen) -> (
    Place,
    Gen,
) {
    match dest {
        Some(d) => (d, emit(st, Stmt::ExtInto(op, a, b, d))),
        None => {
            let k = st.count as u64;
            (Place::Aux(k), fresh(st, Stmt::ExtRet(op, k, a, b)))
        },
    }
}

/// A sum or product of a constant and a value.
pub open spec fn finish_base(op: Op, c: u32, ext: Place, dest: Option<Place>, st: Gen) -> (
    Place,
    Gen,
) {
    let k = st.count as u64;
    match dest {
        Some(d) => (d, fresh(st, Stmt::BaseInto(op, k, c, ext, d))),
        None => (Place::Aux(k), fresh(st, Stmt::BaseRet(op, k, c, ext))),
    }
}

/// A value minus a constant.
pub open spec fn finish_minus_base(ext: Place, c: u32, dest: Option<Place>, st: Gen) -> (
    Place,
    Gen,
) {
    let k = st.count as u64;
    match dest {
        Some(d) => (d, fresh(st, Stmt::MinusBaseInto(k, c, d, ext))),
        None => (Place::Aux(k), fresh(st, Stmt::MinusBaseRet(k, ext, c))),
    }
}

/// The value of a node goes to the destination unless it is there, and its place is
/// remembered.
pub open spec fn settle(i: u32, v: Place, dest: Option<Place>, st: Gen) -> (Place, Gen) {
    let st1 = match dest {
        Some(d) => if v != d {
            emit(st, Stmt::Copy(v, d))
        } else {
            st
        },
        None => st,
    };
    (v, Gen { cache: st1.cache.update(i as int, Some(v)), ..st1 })
}

/// The larger of two numbers.
pub open spec fn larger(a: int, b: int) -> int {
    if a < b {
        b
    } else {
        a
    }
}

/// The statements that evaluate an expression, and where its value then is. Constants
/// and variables stay where they are even if there is a destination.
pub open spec fn gen(graph: Seq<Node>, e: Expr, dest: Option<Place>, st: Gen) -> (Place, Gen)
    decreases rank(e), 0int,
    when graph_wf(graph) && in_graph(graph, e)
{
    match e {
        Expr::Constant(c) => {
            let k = st.count as u64;
            (Place::Aux(k), fresh(st, Stmt::Embed(k, c)))
        },
        Expr::Variable(v) => (Place::Inner(v), st),
        Expr::Operation(i) => {
            match st.cache[i as int] {
                Some(v) => (
                    v,
                    match dest {
                        Some(d) => emit(st, Stmt::Copy(v, d)),
                        None => st,
                    },
                ),
                None => {
                    let node = graph[i as int];
                    let (v, st1) = match node.op {
                        Op::Neg => {
                            let (a, s1) = gen(graph, node.lhs, None, st);
                            let k = s1.count as u64;
                            (Place::Aux(k), fresh(s1, Stmt::Opposite(k, a)))
                        },
                        op => gen_binop(graph, op, node.lhs, node.rhs, dest, st),
                    };
                    settle(i, v, dest, st1)
                },
            }
        },
    }
}

/// The statements that evaluate an operation on two expressions, and where its value
/// then is. A constant operand is used as a base field element.
pub open spec fn gen_binop(
    graph: Seq<Node>,
    op: Op,
    lhs: Expr,
    rhs: Expr,
    dest: Option<Place>,
    st: Gen,
) -> (Place, Gen)
    decreases larger(rank(lhs), rank(rhs)), 1int,
    when graph_wf(graph) && in_graph(graph, lhs) && in_graph(graph, rhs)
{
    match (op, constant(lhs), constant(rhs)) {
        (_, None, None) => {
            let (a, s1) = gen(graph, lhs, None, st);
            let (b, s2) = gen(graph, rhs, None, s1);
            finish_ext(op, a, b, dest, s2)
        },
        (Op::Sub, Some(c), _) => {
            let (b, s1) = gen(graph, rhs, None, st);
            let k = s1.count as u64;
            (Place::Aux(k), fresh(s1, Stmt::BaseMinus(k, c, b)))
        },
        (Op::Sub, None, Some(c)) => {
            let (a, s1) = gen(graph, lhs, None, st);
            finish_minus_base(a, c, dest, s1)
        },
        (_, Some(c), _) => {
            let (b, s1) = gen(graph, rhs, None, st);
            finish_base(op, c, b, dest, s1)
        },
        (_, None, Some(c)) => {
            let (a, s1) = gen(graph, lhs, None, st);
            finish_base(op, c, a, dest, s1)
        },
    }
}

/// The number of nodes not yet evaluated.
pub open spec fn pending(cache: Seq<Option<Place>>) -> nat
    decreases cache.len(),
{
    if cache.len() == 0 {
        0
    } else {
        pending(cache.drop_last()) + (if cache.last() is None {
            1nat
        } else {
            0nat
        })
    }
}

/// Evaluating a node takes one from the number of pending nodes.
proof fn lemma_pending_update(cache: Seq<Option<Place>>, i: int, v: Place)
    requires
        0 <= i < cache.len(),
        cache[i] is None,
    ensures
        pending(cache.update(i, Some(v))) + 1 == pending(cache),
    decreases cache.len(),
{
    let c = cache.update(i, Some(v));
    if i == cache.len() - 1 {
        assert(c.drop_last() =~= cache.drop_last());
    } else {
        lemma_pending_update(cache.drop_last(), i, v);
        assert(c.drop_last() =~= cache.drop_last().update(i, Some(v)));
    }
}

/// The generator.
#[derive(Debug)]
pub struct Emitter {
    pub cache: Vec<Option<Place>>,
    pub out: Vec<Stmt>,
    pub count: u64,
}

impl View for Emitter {
    type V = Gen;

    open spec fn view(&self) -> Gen {
        Gen { cache: self.cache@, out: self.out@, count: self.count as nat }
    }
}

/// The most variables that the pending nodes can take on top of those in use.
pub open spec fn budget(st: Gen) -> int {
    (st.count + 2 * pending(st.cache)) as int
}

/// One for a constant, which takes a variable wherever it stands.
pub open spec fn constant_cost(e: Expr) -> int {
    match e {
        Expr::Constant(_) => 1,
        _ => 0,
    }
}

impl Emitter {
    /// A generator for a graph with the given number of nodes.
    pub fn new(nodes: usize) -> (r: Self)
        ensures
            r@.cache.len() == nodes,
            r@.out.len() == 0,
            r@.count == 0,
            forall|i: int| 0 <= i < nodes ==> #[trigger] r@.cache[i] is None,
    {
        let mut cache: Vec<Option<Place>> = Vec::with_capacity(nodes);
        let mut i: usize = 0;
        while i < nodes
            invariant
                i <= nodes,
                cache@.len() == i,
                forall|j: int| 0 <= j < i ==> #[trigger] cache@[j] is None,
            decreases nodes - i,
        {
            cache.push(None);
            i = i + 1;
        }
        Emitter { cache, out: Vec::new(), count: 0 }
    }

    /// Append a statement.
    fn emit(&mut self, s: Stmt)
        ensures
            final(self)@ == emit(old(self)@, s),
    {
        self.out.push(s);
    }

    /// Take the number of a new variable.
    fn next(&mut self) -> (k: u64)
        requires
            old(self)@.count < u64::MAX,
        ensures
            k == old(self)@.count,
            final(self)@ == (Gen { count: old(self)@.count + 1, ..old(self)@ }),
    {
        let k: u64 = self.count;
        self.count = k + 1;
        k
    }
}

/// Whether two places are the same.
fn same_place(a: Place, b: Place) -> (r: bool)
    ensures
        r == (a == b),
{
    match (a, b) {
        (Place::Aux(x), Place::Aux(y)) => x == y,
        (Place::Inner(x), Place::Inner(y)) => x == y,
        (Place::Slot(x), Place::Slot(y)) => x == y,
        _ => false,
    }
}

/// Emit the statements that evaluate an expression; returns where its value is.
pub fn eval_air_constraint(
    graph: &Vec<Node>,
    e: Expr,
    dest: Option<Place>,
    st: &mut Emitter,
) -> (r: Place)
    requires
        graph_wf(graph@),
        in_graph(graph@, e),
        old(st)@.cache.len() == graph@.len(),
        budget(old(st)@) + 2 <= u64::MAX,
    ensures
        (r, final(st)@) == gen(graph@, e, dest, old(st)@),
        final(st)@.cache.len() == graph@.len(),
        budget(final(st)@) <= budget(old(st)@) + constant_cost(e),
        forall|j: int|
            rank(e) <= j < graph@.len() ==> #[trigger] final(st)@.cache[j] == old(st)@.cache[j],
    decreases rank(e), 0int,
{
    match e {
        Expr::Constant(c) => {
            let k = st.next();
            st.emit(Stmt::Embed(k, c));
            Place::Aux(k)
        },
        Expr::Variable(v) => Place::Inner(v),
        Expr::Operation(i) => {
            if let Some(v) = st.cache[i as usize] {
                if let Some(d) = dest {
                    st.emit(Stmt::Copy(v, d));
                }
                return v;
            }
            let node = graph[i as usize];
            let ghost before = st@;
            proof {
                lemma_pending_update(before.cache, i as int, Place::Aux(0));
            }
            let v = match node.op {
                Op::Neg => {
                    let a = eval_air_constraint(graph, node.lhs, None, st);
                    let k = st.next();
                    st.emit(Stmt::Opposite(k, a));
                    Place::Aux(k)
                },
                _ => eval_air_binop(graph, node.op, node.lhs, node.rhs, dest, st),
            };
            let ghost mid = st@;
            proof {
                assert(mid.cache[i as int] is None);
                lemma_pending_update(mid.cache, i as int, v);
            }
            if let Some(d) = dest {
                if !same_place(v, d) {
                    st.emit(Stmt::Copy(v, d));
                }
            }
            st.cache.set(i as usize, Some(v));
            v
        },
    }
}

/// Emit the statements that evaluate an operation on two expressions; returns where its
/// value is.
fn eval_air_binop(
    graph: &Vec<Node>,
    op: Op,
    lhs: Expr,
    rhs: Expr,
    dest: Option<Place>,
    st: &mut Emitter,
) -> (r: Place)
    requires
        graph_wf(graph@),
        !(op is Neg),
        in_graph(graph@, lhs),
        in_graph(graph@, rhs),
        old(st)@.cache.len() == graph@.len(),
        budget(old(st)@) + 2 <= u64::MAX,
    ensures
        (r, final(st)@) == gen_binop(graph@, op, lhs, rhs, dest, old(st)@),
        final(st)@.cache.len() == graph@.len(),
        budget(final(st)@) <= budget(old(st)@) + 2,
        forall|j: int|
            larger(rank(lhs), rank(rhs)) <= j < graph@.len() ==> #[trigger] final(st)@.cache[j]
                == old(st)@.cache[j],
    decreases larger(rank(lhs), rank(rhs)), 1int,
{
    match (op, lhs, rhs) {
        (Op::Sub, Expr::Constant(c), _) => {
            let b = eval_air_constraint(graph, rhs, None, st);
            let k = st.next();
            st.emit(Stmt::BaseMinus(k, c, b));
            Place::Aux(k)
        },
        (Op::Sub, _, Expr::Constant(c)) => {
            let a = eval_air_constraint(graph, lhs, None, st);
            let k = st.next();
            match dest {
                Some(d) => {
                    st.emit(Stmt::MinusBaseInto(k, c, d, a));
                    d
                },
                None => {
                    st.emit(Stmt::MinusBaseRet(k, a, c));
                    Place::Aux(k)
                },
            }
        },
        (_, Expr::Constant(c), _) => {
            let b = eval_air_constraint(graph, rhs, None, st);
            emit_base(op, c, b, dest, st)
        },
        (_, _, Expr::Constant(c)) => {
            let a = eval_air_constraint(graph, lhs, None, st);
            emit_base(op, c, a, dest, st)
        },
        _ => {
            let a = eval_air_constraint(graph, lhs, None, st);
            let b = eval_air_constraint(graph, rhs, None, st);
            match dest {
                Some(d) => {
                    st.emit(Stmt::ExtInto(op, a, b, d));
                    d
                },
                None => {
                    let k = st.next();
                    st.emit(Stmt::ExtRet(op, k, a, b));
                    Place::Aux(k)
                },
            }
        },
    }
}

/// Emit a sum or product of a constant and a value.
fn emit_base(op: Op, c: u32, ext: Place, dest: Option<Place>, st: &mut Emitter) -> (r: Place)
    requires
        old(st)@.count < u64::MAX,
    ensures
        (r, final(st)@) == finish_base(op, c, ext, dest, old(st)@),
{
    let k = st.next();
    match dest {
        Some(d) => {
            st.emit(Stmt::BaseInto(op, k, c, ext, d));
            d
        },
        None => {
            st.emit(Stmt::BaseRet(op, k, c, ext));
            Place::Aux(k)
        },
    }
}

// The text of the statements.

/// The text of a place.
pub open spec fn place_text(p: Place) -> Seq<char> {
    match p {
        Place::Aux(k) => flat(seq!["aux_"@, decimal(k as int)]),
        Place::Inner(v) => flat(seq!["inner_evals + DIM * "@, decimal(v as int)]),
        Place::Slot(i) => flat(seq!["constraints_buf + "@, decimal(i as int), " * DIM"@]),
    }
}

/// The name of the function that writes the result of an operation to a place.
pub open spec fn ext_into_name(op: Op) -> Seq<char> {
    match op {
        Op::Mul => "mul_extension"@,
        Op::Add => "add_ee"@,
        _ => "sub_extension"@,
    }
}

/// The name of the function that returns the result of an operation.
pub open spec fn ext_ret_name(op: Op) -> Seq<char> {
    match op {
        Op::Mul => "mul_extension_ret"@,
        Op::Add => "add_extension_ret"@,
        _ => "sub_extension_ret"@,
    }
}

/// The name of the function that writes the result of an operation on a base field
/// element and a value to a place.
pub open spec fn base_into_name(op: Op) -> Seq<char> {
    match op {
        Op::Mul => "dot_product_be"@,
        _ => "add_be"@,
    }
}

/// The name of the function that returns the result of an operation on a base field
/// element and a value.
pub open spec fn base_ret_name(op: Op) -> Seq<char> {
    match op {
        Op::Mul => "mul_base_extension_ret"@,
        _ => "add_base_extension_ret"@,
    }
}

/// A new line of the function body.
pub open spec fn line() -> Seq<char> {
    "\n    "@
}

/// A constant put into a variable, and a call on it.
pub open spec fn base_call(t: u64, c: u32, name: Seq<char>, x: Place, y: Place) -> Seq<char> {
    let tmp = place_text(Place::Aux(t));
    flat(
        seq![
            line(),
            tmp,
            " = Array(1)"@,
            line(),
            tmp,
            "[0] = "@,
            decimal(c as int),
            line(),
            name,
            "("@,
            tmp,
            ", "@,
            place_text(x),
            ", "@,
            place_text(y),
            ")"@,
        ],
    )
}

/// A variable set to the result of a call with two arguments.
pub open spec fn call_two(k: u64, name: Seq<char>, x: Seq<char>, y: Seq<char>) -> Seq<char> {
    flat(seq![line(), place_text(Place::Aux(k)), " = "@, name, "("@, x, ", "@, y, ")"@])
}

/// The text of a statement.
pub open spec fn stmt_text(s: Stmt) -> Seq<char> {
    match s {
        Stmt::Embed(k, c) => flat(
            seq![line(), place_text(Place::Aux(k)), " = embed_in_ef("@, decimal(c as int), ")"@],
        ),
        Stmt::Copy(a, b) => flat(
            seq![line(), "copy_5("@, place_text(a), ", "@, place_text(b), ")"@],
        ),
        Stmt::Opposite(k, a) => flat(
            seq![
                line(),
                place_text(Place::Aux(k)),
                " = opposite_extension_ret("@,
                place_text(a),
                ")"@,
            ],
        ),
        Stmt::ExtInto(op, a, b, d) => flat(
            seq![
                line(),
                ext_into_name(op),
                "("@,
                place_text(a),
                ", "@,
                place_text(b),
                ", "@,
                place_text(d),
                ")"@,
            ],
        ),
        Stmt::ExtRet(op, k, a, b) => call_two(k, ext_ret_name(op), place_text(a), place_text(b)),
        Stmt::BaseInto(op, t, c, ext, d) => base_call(t, c, base_into_name(op), ext, d),
        Stmt::BaseRet(op, k, c, ext) => call_two(
            k,
            base_ret_name(op),
            decimal(c as int),
            place_text(ext),
        ),
        Stmt::BaseMinus(k, c, ext) => call_two(
            k,
            "sub_base_extension_ret"@,
            decimal(c as int),
            place_text(ext),
        ),
        Stmt::MinusBaseInto(t, c, d, ext) => base_call(t, c, "add_be"@, d, ext),
        Stmt::MinusBaseRet(k, ext, c) => call_two(
            k,
            "sub_extension_base_ret"@,
            place_text(ext),
            decimal(c as int),
        ),
        Stmt::BusBuffer(n) => flat(
            seq![line(), "buff = Array(DIM * "@, decimal(n as int), ")"@],
        ),
        Stmt::BusCopy(p, i) => flat(
            seq![
                line(),
                "copy_5("@,
                place_text(p),
                ", buff + DIM * "@,
                decimal(i as int),
                ")"@,
            ],
        ),
    }
}

/// The text of statements.
pub open spec fn stmts_text(s: Seq<Stmt>) -> Seq<char> {
    flat(Seq::new(s.len(), |i: int| stmt_text(s[i])))
}

/// The text of a place.
fn render_place(p: Place) -> (r: String)
    ensures
        r@ == place_text(p),
{
    let mut s = String::new();
    match p {
        Place::Aux(k) => {
            let n = decimal_u64(k);
            let parts: Vec<&str> = vec!["aux_", n.as_str()];
            append_parts(&mut s, &parts);
            assert(parts_text(parts@) =~= seq!["aux_"@, decimal(k as int)]);
        },
        Place::Inner(v) => {
            let n = decimal_u64(v);
            let parts: Vec<&str> = vec!["inner_evals + DIM * ", n.as_str()];
            append_parts(&mut s, &parts);
            assert(parts_text(parts@) =~= seq!["inner_evals + DIM * "@, decimal(v as int)]);
        },
        Place::Slot(i) => {
            let n = decimal_u64(i);
            let parts: Vec<&str> = vec!["constraints_buf + ", n.as_str(), " * DIM"];
            append_parts(&mut s, &parts);
            assert(parts_text(parts@) =~= seq![
                "constraints_buf + "@,
                decimal(i as int),
                " * DIM"@,
            ]);
        },
    }
    assert(Seq::<char>::empty() + place_text(p) =~= place_text(p));
    s
}

/// Append a constant put into a variable, and a call on it.
fn emit_base_precompile(s: &mut String, t: u64, c: u32, name: &str, x: Place, y: Place)
    ensures
        final(s)@ == old(s)@ + base_call(t, c, name@, x, y),
{
    let tmp = render_place(Place::Aux(t));
    let num = decimal_u64(c as u64);
    let (a, b) = (render_place(x), render_place(y));
    let parts: Vec<&str> = vec![
        "\n    ",
        tmp.as_str(),
        " = Array(1)",
        "\n    ",
        tmp.as_str(),
        "[0] = ",
        num.as_str(),
        "\n    ",
        name,
        "(",
        tmp.as_str(),
        ", ",
        a.as_str(),
        ", ",
        b.as_str(),
        ")",
    ];
    append_parts(s, &parts);
    proof {
        let v = place_text(Place::Aux(t));
        assert(parts_text(parts@) =~= seq![
            line(),
            v,
            " = Array(1)"@,
            line(),
            v,
            "[0] = "@,
            decimal(c as int),
            line(),
            name@,
            "("@,
            v,
            ", "@,
            place_text(x),
            ", "@,
            place_text(y),
            ")"@,
        ]);
    }
}

/// Append a variable set to the result of a call with two arguments.
fn render_call_two(s: &mut String, k: u64, name: &str, x: &str, y: &str)
    ensures
        final(s)@ == old(s)@ + call_two(k, name@, x@, y@),
{
    let v = render_place(Place::Aux(k));
    let parts: Vec<&str> = vec!["\n    ", v.as_str(), " = ", name, "(", x, ", ", y, ")"];
    append_parts(s, &parts);
    assert(parts_text(parts@) =~= seq![
        line(),
        place_text(Place::Aux(k)),
        " = "@,
        name@,
        "("@,
        x@,
        ", "@,
        y@,
        ")"@,
    ]);
}

/// Append the text of a statement.
fn render_stmt(s: &mut String, stmt: Stmt)
    ensures
        final(s)@ == old(s)@ + stmt_text(stmt),
{
    match stmt {
        Stmt::Embed(k, c) => {
            let (v, n) = (render_place(Place::Aux(k)), decimal_u64(c as u64));
            let parts: Vec<&str> = vec![
                "\n    ",
                v.as_str(),
                " = embed_in_ef(",
                n.as_str(),
                ")",
            ];
            append_parts(s, &parts);
            assert(parts_text(parts@) =~= seq![
                line(),
                place_text(Place::Aux(k)),
                " = embed_in_ef("@,
                decimal(c as int),
                ")"@,
            ]);
        },
        Stmt::Copy(a, b) => {
            let (x, y) = (render_place(a), render_place(b));
            let parts: Vec<&str> = vec!["\n    ", "copy_5(", x.as_str(), ", ", y.as_str(), ")"];
            append_parts(s, &parts);
            assert(parts_text(parts@) =~= seq![
                line(),
                "copy_5("@,
                place_text(a),
                ", "@,
                place_text(b),
                ")"@,
            ]);
        },
        Stmt::Opposite(k, a) => {
            let (v, x) = (render_place(Place::Aux(k)), render_place(a));
            let parts: Vec<&str> = vec![
                "\n    ",
                v.as_str(),
                " = opposite_extension_ret(",
                x.as_str(),
                ")",
            ];
            append_parts(s, &parts);
            assert(parts_text(parts@) =~= seq![
                line(),
                place_text(Place::Aux(k)),
                " = opposite_extension_ret("@,
                place_text(a),
                ")"@,
            ]);
        },
        Stmt::ExtInto(op, a, b, d) => {
            let name: &str = match op {
                Op::Mul => "mul_extension",
                Op::Add => "add_ee",
                _ => "sub_extension",
            };
            let (x, y, z) = (render_place(a), render_place(b), render_place(d));
            let parts: Vec<&str> = vec![
                "\n    ",
                name,
                "(",
                x.as_str(),
                ", ",
                y.as_str(),
                ", ",
                z.as_str(),
                ")",
            ];
            append_parts(s, &parts);
            assert(parts_text(parts@) =~= seq![
                line(),
                ext_into_name(op),
                "("@,
                place_text(a),
                ", "@,
                place_text(b),
                ", "@,
                place_text(d),
                ")"@,
            ]);
        },
        Stmt::ExtRet(op, k, a, b) => {
            let name: &str = match op {
                Op::Mul => "mul_extension_ret",
                Op::Add => "add_extension_ret",
                _ => "sub_extension_ret",
            };
            let (x, y) = (render_place(a), render_place(b));
            render_call_two(s, k, name, x.as_str(), y.as_str());
        },
        Stmt::BaseInto(op, t, c, ext, d) => {
            let name: &str = match op {
                Op::Mul => "dot_product_be",
                _ => "add_be",
            };
            emit_base_precompile(s, t, c, name, ext, d);
        },
        Stmt::BaseRet(op, k, c, ext) => {
            let name: &str = match op {
                Op::Mul => "mul_base_extension_ret",
                _ => "add_base_extension_ret",
            };
            let (n, x) = (decimal_u64(c as u64), render_place(ext));
            render_call_two(s, k, name, n.as_str(), x.as_str());
        },
        Stmt::BaseMinus(k, c, ext) => {
            let (n, x) = (decimal_u64(c as u64), render_place(ext));
            render_call_two(s, k, "sub_base_extension_ret", n.as_str(), x.as_str());
        },
        Stmt::MinusBaseInto(t, c, d, ext) => {
            emit_base_precompile(s, t, c, "add_be", d, ext);
        },
        Stmt::MinusBaseRet(k, ext, c) => {
            let (n, x) = (decimal_u64(c as u64), render_place(ext));
            render_call_two(s, k, "sub_extension_base_ret", x.as_str(), n.as_str());
        },
        Stmt::BusBuffer(n) => {
            let num = decimal_u64(n);
            let parts: Vec<&str> = vec!["\n    ", "buff = Array(DIM * ", num.as_str(), ")"];
            append_parts(s, &parts);
            assert(parts_text(parts@) =~= seq![
                line(),
                "buff = Array(DIM * "@,
                decimal(n as int),
                ")"@,
            ]);
        },
        Stmt::BusCopy(p, i) => {
            let (x, num) = (render_place(p), decimal_u64(i));
            let parts: Vec<&str> = vec![
                "\n    ",
                "copy_5(",
                x.as_str(),
                ", buff + DIM * ",
                num.as_str(),
                ")",
            ];
            append_parts(s, &parts);
            assert(parts_text(parts@) =~= seq![
                line(),
                "copy_5("@,
                place_text(p),
                ", buff + DIM * "@,
                decimal(i as int),
                ")"@,
            ]);
        },
    }
}

/// Append the text of statements.
fn render_stmts(s: &mut String, stmts: &Vec<Stmt>)
    ensures
        final(s)@ == old(s)@ + stmts_text(stmts@),
{
    let n: usize = stmts.len();
    let ghost before = s@;
    let ghost v = Seq::new(stmts@.len(), |i: int| stmt_text(stmts@[i]));
    let mut i: usize = 0;
    assert(v.take(0).len() == 0);
    assert(before + flat(v.take(0)) =~= before);
    while i < n
        invariant
            i <= n == stmts@.len(),
            v == Seq::new(stmts@.len(), |j: int| stmt_text(stmts@[j])),
            s@ == before + flat(v.take(i as int)),
        decreases n - i,
    {
        render_stmt(s, stmts[i]);
        proof {
            crate::slices::lemma_flat_take(v, i as int);
            assert(before + flat(v.take(i as int)) + v[i as int] =~= before + (flat(
                v.take(i as int),
            ) + v[i as int]));
        }
        i = i + 1;
    }
    assert(v.take(n as int) =~= v);
}

// A table's evaluation function.

/// The constraints of a table over its columns, and the values it puts on the bus.
#[derive(Debug)]
pub struct TableAir {
    /// The table's number.
    pub index: u64,
    /// The expressions that are zero on every row.
    pub constraints: Vec<Expr>,
    /// The multiplicity of the bus message.
    pub bus_flag: Expr,
    /// The bus message.
    pub bus_data: Vec<Expr>,
    /// The nodes of the expressions.
    pub graph: Vec<Node>,
}

impl TableAir {
    /// The expressions are over the graph, and the numbers of variables fit a machine
    /// word.
    pub open spec fn wf(&self) -> bool {
        &&& graph_wf(self.graph@)
        &&& forall|i: int|
            0 <= i < self.constraints@.len() ==> in_graph(
                self.graph@,
                #[trigger] self.constraints@[i],
            )
        &&& in_graph(self.graph@, self.bus_flag)
        &&& forall|i: int|
            0 <= i < self.bus_data@.len() ==> in_graph(self.graph@, #[trigger] self.bus_data@[i])
        &&& 2 * self.graph@.len() + self.constraints@.len() + self.bus_data@.len() + 3
            <= u64::MAX
    }
}

/// The state after the first `n` constraints, each into its slot.
pub open spec fn gen_constraints(graph: Seq<Node>, cs: Seq<Expr>, n: nat, st: Gen) -> Gen
    decreases n,
{
    if n == 0 {
        st
    } else {
        gen(
            graph,
            cs[n - 1],
            Some(Place::Slot((n - 1) as u64)),
            gen_constraints(graph, cs, (n - 1) as nat, st),
        ).1
    }
}

/// The state after the first `n` bus values, each copied into the bus buffer.
pub open spec fn gen_bus(graph: Seq<Node>, ds: Seq<Expr>, n: nat, st: Gen) -> Gen
    decreases n,
{
    if n == 0 {
        st
    } else {
        let (p, s) = gen(graph, ds[n - 1], None, gen_bus(graph, ds, (n - 1) as nat, st));
        emit(s, Stmt::BusCopy(p, (n - 1) as u64))
    }
}

/// The state before anything is evaluated.
pub open spec fn start(nodes: nat) -> Gen {
    Gen { cache: Seq::new(nodes, |i: int| None), out: Seq::empty(), count: 0 }
}

/// The place of the bus flag, and the state after the whole table.
pub open spec fn gen_table(t: TableAir) -> (Place, Gen) {
    let s0 = start(t.graph@.len());
    let s1 = gen_constraints(t.graph@, t.constraints@, t.constraints@.len(), s0);
    let (flag, s2) = gen(t.graph@, t.bus_flag, None, s1);
    let s3 = emit(s2, Stmt::BusBuffer(t.bus_data@.len() as u64));
    (flag, gen_bus(t.graph@, t.bus_data@, t.bus_data@.len(), s3))
}

/// The text of a table's evaluation function.
pub open spec fn table_text(t: TableAir, max_bus_width: int) -> Seq<char> {
    let (flag, st) = gen_table(t);
    let n = decimal(t.constraints@.len() as int);
    let m = decimal(t.bus_data@.len() as int);
    flat(
        seq![
            "def evaluate_air_constraints_table_"@,
            decimal(t.index as int),
            "(inner_evals, air_alpha_powers, bus_beta, logup_alphas_eq_poly):\n"@,
            "\n    constraints_buf = Array(DIM * "@,
            n,
            ")"@,
            stmts_text(st.out),
            "\n    bus_res_init = Array(DIM)"@,
            "\n    dot_product_ee(buff, logup_alphas_eq_poly, bus_res_init, "@,
            m,
            ")"@,
            "\n    bus_res: Mut = add_extension_ret(mul_base_extension_ret(LOGUP_PRECOMPILE_DOMAINSEP, logup_alphas_eq_poly + "@,
            decimal(next_pow2(max_bus_width) - 1),
            " * DIM), bus_res_init)"@,
            "\n    bus_res = mul_extension_ret(bus_res, bus_beta)"@,
            "\n    sum: Mut = add_extension_ret(bus_res, "@,
            place_text(flag),
            ")"@,
            "\n    weighted_constraints = Array(DIM)"@,
            "\n    dot_product_ee(air_alpha_powers + DIM, constraints_buf, weighted_constraints, "@,
            n,
            ")"@,
            "\n    sum = add_extension_ret(sum, weighted_constraints)"@,
            "\n    return sum"@,
            "\n"@,
        ],
    )
}

/// A fresh cache has every node pending.
proof fn lemma_pending_start(cache: Seq<Option<Place>>)
    requires
        forall|i: int| 0 <= i < cache.len() ==> #[trigger] cache[i] is None,
    ensures
        pending(cache) == cache.len(),
    decreases cache.len(),
{
    if cache.len() > 0 {
        let c = cache.drop_last();
        assert forall|i: int| 0 <= i < c.len() implies #[trigger] c[i] is None by {
            assert(c[i] == cache[i]);
        }
        lemma_pending_start(c);
    }
}

/// Emit the statements of a table; returns the place of the bus flag and the statements.
pub fn emit_table(t: &TableAir) -> (r: (Place, Vec<Stmt>))
    requires
        t.wf(),
    ensures
        r.0 == gen_table(*t).0,
        r.1@ == gen_table(*t).1.out,
{
    let graph: &Vec<Node> = &t.graph;
    let mut st = Emitter::new(graph.len());
    let ghost s0 = start(graph@.len());
    proof {
        lemma_pending_start(st@.cache);
        assert(st@.cache =~= s0.cache);
        assert(st@.out =~= s0.out);
        assert(st@ == s0);
    }
    let n: usize = t.constraints.len();
    let mut i: usize = 0;
    while i < n
        invariant
            t.wf(),
            graph@ == t.graph@,
            i <= n == t.constraints@.len(),
            st@ == gen_constraints(graph@, t.constraints@, i as nat, s0),
            st@.cache.len() == graph@.len(),
            budget(st@) <= 2 * graph@.len() + i,
        decreases n - i,
    {
        let e = t.constraints[i];
        assert(in_graph(graph@, t.constraints@[i as int]));
        let _ = eval_air_constraint(graph, e, Some(Place::Slot(i as u64)), &mut st);
        i = i + 1;
    }
    let flag = eval_air_constraint(graph, t.bus_flag, None, &mut st);
    let m: usize = t.bus_data.len();
    st.emit(Stmt::BusBuffer(m as u64));
    let ghost s3 = st@;
    let mut j: usize = 0;
    while j < m
        invariant
            t.wf(),
            graph@ == t.graph@,
            n == t.constraints@.len(),
            j <= m == t.bus_data@.len(),
            st@ == gen_bus(graph@, t.bus_data@, j as nat, s3),
            st@.cache.len() == graph@.len(),
            budget(st@) <= 2 * graph@.len() + n + 1 + j,
        decreases m - j,
    {
        let e = t.bus_data[j];
        assert(in_graph(graph@, t.bus_data@[j as int]));
        let p = eval_air_constraint(graph, e, None, &mut st);
        st.emit(Stmt::BusCopy(p, j as u64));
        j = j + 1;
    }
    (flag, st.out)
}

/// Generate the evaluation function of a table.
pub fn air_eval_in_zk_dsl(t: &TableAir, max_bus_width: usize) -> (r: String)
    requires
        t.wf(),
        next_pow2(max_bus_width as int) <= usize::MAX,
    ensures
        r@ == table_text(*t, max_bus_width as int),
{
    let (flag, stmts) = emit_table(t);
    let index = decimal_u64(t.index);
    let n = decimal_u64(t.constraints.len() as u64);
    let m = decimal_u64(t.bus_data.len() as u64);
    proof {
        vstd::arithmetic::power2::lemma_pow2_pos(
            crate::numeric::log2_ceil(max_bus_width as int),
        );
    }
    let width: usize = next_power_of_two(max_bus_width) - 1;
    let w = decimal_u64(width as u64);
    let flag_text = render_place(flag);
    let mut body = String::new();
    render_stmts(&mut body, &stmts);
    assert(Seq::<char>::empty() + stmts_text(stmts@) =~= stmts_text(stmts@));
    let parts: Vec<&str> = vec![
        "def evaluate_air_constraints_table_",
        index.as_str(),
        "(inner_evals, air_alpha_powers, bus_beta, logup_alphas_eq_poly):\n",
        "\n    constraints_buf = Array(DIM * ",
        n.as_str(),
        ")",
        body.as_str(),
        "\n    bus_res_init = Array(DIM)",
        "\n    dot_product_ee(buff, logup_alphas_eq_poly, bus_res_init, ",
        m.as_str(),
        ")",
        "\n    bus_res: Mut = add_extension_ret(mul_base_extension_ret(LOGUP_PRECOMPILE_DOMAINSEP, logup_alphas_eq_poly + ",
        w.as_str(),
        " * DIM), bus_res_init)",
        "\n    bus_res = mul_extension_ret(bus_res, bus_beta)",
        "\n    sum: Mut = add_extension_ret(bus_res, ",
        flag_text.as_str(),
        ")",
        "\n    weighted_constraints = Array(DIM)",
        "\n    dot_product_ee(air_alpha_powers + DIM, constraints_buf, weighted_constraints, ",
        n.as_str(),
        ")",
        "\n    sum = add_extension_ret(sum, weighted_constraints)",
        "\n    return sum",
        "\n",
    ];
    let mut out = String::new();
    append_parts(&mut out, &parts);
    proof {
        let (f, st) = gen_table(*t);
        let nn = decimal(t.constraints@.len() as int);
        let mm = decimal(t.bus_data@.len() as int);
        assert(parts_text(parts@) =~= seq![
            "def evaluate_air_constraints_table_"@,
            decimal(t.index as int),
            "(inner_evals, air_alpha_powers, bus_beta, logup_alphas_eq_poly):\n"@,
            "\n    constraints_buf = Array(DIM * "@,
            nn,
            ")"@,
            stmts_text(st.out),
            "\n    bus_res_init = Array(DIM)"@,
            "\n    dot_product_ee(buff, logup_alphas_eq_poly, bus_res_init, "@,
            mm,
            ")"@,
            "\n    bus_res: Mut = add_extension_ret(mul_base_extension_ret(LOGUP_PRECOMPILE_DOMAINSEP, logup_alphas_eq_poly + "@,
            decimal(next_pow2(max_bus_width as int) - 1),
            " * DIM), bus_res_init)"@,
            "\n    bus_res = mul_extension_ret(bus_res, bus_beta)"@,
            "\n    sum: Mut = add_extension_ret(bus_res, "@,
            place_text(f),
            ")"@,
            "\n    weighted_constraints = Array(DIM)"@,
            "\n    dot_product_ee(air_alpha_powers + DIM, constraints_buf, weighted_constraints, "@,
            nn,
            ")"@,
            "\n    sum = add_extension_ret(sum, weighted_constraints)"@,
            "\n    return sum"@,
            "\n"@,
        ]);
        assert(Seq::<char>::empty() + table_text(*t, max_bus_width as int) =~= table_text(
            *t,
            max_bus_width as int,
        ));
    }
    out
}

/// Generate the evaluation functions of tables, one after the other.
pub fn generate_all_air_evals_dsl(tables: &Vec<TableAir>, max_bus_width: usize) -> (r: String)
    requires
        forall|i: int| 0 <= i < tables@.len() ==> (#[trigger] tables@[i]).wf(),
        next_pow2(max_bus_width as int) <= usize::MAX,
    ensures
        r@ == tables_text(tables@, max_bus_width as int),
{
    let n: usize = tables.len();
    let mut res = String::new();
    let ghost v = Seq::new(tables@.len(), |i: int| table_text(tables@[i], max_bus_width as int));
    let mut i: usize = 0;
    assert(v.take(0).len() == 0);
    assert(res@ =~= flat(v.take(0)));
    while i < n
        invariant
            i <= n == tables@.len(),
            forall|j: int| 0 <= j < tables@.len() ==> (#[trigger] tables@[j]).wf(),
            next_pow2(max_bus_width as int) <= usize::MAX,
            v == Seq::new(
                tables@.len(),
                |j: int| table_text(tables@[j], max_bus_width as int),
            ),
            res@ == flat(v.take(i as int)),
        decreases n - i,
    {
        let text = air_eval_in_zk_dsl(&tables[i], max_bus_width);
        res.append(text.as_str());
        proof {
            crate::slices::lemma_flat_take(v, i as int);
        }
        i = i + 1;
    }
    assert(v.take(n as int) =~= v);
    res
}

/// The evaluation functions of tables.
pub open spec fn tables_text(tables: Seq<TableAir>, max_bus_width: int) -> Seq<char> {
    flat(Seq::new(tables.len(), |i: int| table_text(tables[i], max_bus_width)))
}

} // verus!
