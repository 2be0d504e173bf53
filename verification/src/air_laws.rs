//! The generated statements compute the expressions they were generated from.

use crate::air::{
    budget, constant, constant_cost, emit, fresh, gen, gen_binop, gen_bus, gen_constraints,
    gen_table, graph_wf, in_graph, larger, pending, rank, settle, start, Expr, Gen, Node, Op,
    Place, Stmt, TableAir,
};
use crate::ext::{
    eadd, embed, emul, esub, eswf, ewf, lemma_eadd_comm, lemma_emul_comm, lemma_ewf_ops, Ext,
};
use crate::field::P;
use vstd::prelude::*;

verus! {

/// The values of variables, of the constraint buffer and of the bus buffer, over given
/// column values.
pub struct Store {
    pub aux: Map<int, Ext>,
    pub slots: Map<int, Ext>,
    pub bus: Map<int, Ext>,
    pub inner: Seq<Ext>,
}

/// The value at a place.
pub open spec fn place_value(s: Store, p: Place) -> Ext {
    match p {
        Place::Aux(k) => s.aux[k as int],
        Place::Inner(v) => s.inner[v as int],
        Place::Slot(i) => s.slots[i as int],
    }
}

/// The store with a value written to a variable.
pub open spec fn set_aux(s: Store, k: u64, x: Ext) -> Store {
    Store { aux: s.aux.insert(k as int, x), ..s }
}

/// The store with a value written to a place; column values cannot be written.
pub open spec fn set_place(s: Store, p: Place, x: Ext) -> Store {
    match p {
        Place::Aux(k) => set_aux(s, k, x),
        Place::Inner(_) => s,
        Place::Slot(i) => Store { slots: s.slots.insert(i as int, x), ..s },
    }
}

/// A base field constant as an extension element.
pub open spec fn base(c: u32) -> Ext {
    embed(c as int % P as int)
}

/// The value of an operation.
pub open spec fn apply(op: Op, a: Ext, b: Ext) -> Ext {
    match op {
        Op::Neg => esub(embed(0), a),
        Op::Add => eadd(a, b),
        Op::Sub => esub(a, b),
        Op::Mul => emul(a, b),
    }
}

/// What a statement does.
pub open spec fn run_stmt(s: Store, stmt: Stmt) -> Store {
    match stmt {
        Stmt::Embed(k, c) => set_aux(s, k, base(c)),
        Stmt::Copy(a, b) => set_place(s, b, place_value(s, a)),
        Stmt::Opposite(k, a) => set_aux(s, k, esub(embed(0), place_value(s, a))),
        Stmt::ExtInto(op, a, b, d) => set_place(
            s,
            d,
            apply(op, place_value(s, a), place_value(s, b)),
        ),
        Stmt::ExtRet(op, k, a, b) => set_aux(
            s,
            k,
            apply(op, place_value(s, a), place_value(s, b)),
        ),
        Stmt::BaseInto(op, t, c, ext, d) => set_place(
            set_aux(s, t, base(c)),
            d,
            apply(op, base(c), place_value(s, ext)),
        ),
        Stmt::BaseRet(op, k, c, ext) => set_aux(s, k, apply(op, base(c), place_value(s, ext))),
        Stmt::BaseMinus(k, c, ext) => set_aux(s, k, esub(base(c), place_value(s, ext))),
        Stmt::MinusBaseInto(t, c, d, ext) => set_place(
            set_aux(s, t, base(c)),
            d,
            esub(place_value(s, ext), base(c)),
        ),
        Stmt::MinusBaseRet(k, ext, c) => set_aux(s, k, esub(place_value(s, ext), base(c))),
        Stmt::BusBuffer(_) => s,
        Stmt::BusCopy(p, i) => Store { bus: s.bus.insert(i as int, place_value(s, p)), ..s },
    }
}

/// What statements do, one after the other.
pub open spec fn run(s: Store, stmts: Seq<Stmt>) -> Store
    decreases stmts.len(),
{
    if stmts.len() == 0 {
        s
    } else {
        run_stmt(run(s, stmts.drop_last()), stmts.last())
    }
}

/// The value of an expression over column values.
pub open spec fn expr_value(graph: Seq<Node>, e: Expr, inner: Seq<Ext>) -> Ext
    decreases rank(e),
    when graph_wf(graph) && in_graph(graph, e)
{
    match e {
        Expr::Constant(c) => base(c),
        Expr::Variable(v) => inner[v as int],
        Expr::Operation(i) => {
            let node = graph[i as int];
            let a = expr_value(graph, node.lhs, inner);
            match node.op {
                Op::Neg => apply(Op::Neg, a, a),
                op => apply(op, a, expr_value(graph, node.rhs, inner)),
            }
        },
    }
}

/// The variables that expressions name are columns.
pub open spec fn columns_exist(graph: Seq<Node>, cols: int) -> bool {
    forall|i: int|
        0 <= i < graph.len() ==> column_exists((#[trigger] graph[i]).lhs, cols) && column_exists(
            graph[i].rhs,
            cols,
        )
}

/// A variable is a column.
pub open spec fn column_exists(e: Expr, cols: int) -> bool {
    match e {
        Expr::Variable(v) => v < cols,
        _ => true,
    }
}

proof fn lemma_expr_wf(graph: Seq<Node>, e: Expr, inner: Seq<Ext>)
    requires
        graph_wf(graph),
        in_graph(graph, e),
        columns_exist(graph, inner.len() as int),
        column_exists(e, inner.len() as int),
        eswf(inner),
    ensures
        ewf(expr_value(graph, e, inner)),
{
    if let Expr::Operation(i) = e {
        let node = graph[i as int];
        let a = expr_value(graph, node.lhs, inner);
        let b = expr_value(graph, node.rhs, inner);
        lemma_ewf_ops(a, b, 0);
        lemma_ewf_ops(embed(0), a, 0);
    }
}

/// A place that statements to come do not overwrite: a variable in use, a column, or a
/// slot below the limit.
pub open spec fn stable(p: Place, count: nat, limit: nat) -> bool {
    match p {
        Place::Aux(k) => k < count,
        Place::Inner(_) => true,
        Place::Slot(i) => i < limit,
    }
}

/// Every remembered place is stable and holds the value of its node.
pub open spec fn sound(
    graph: Seq<Node>,
    inner: Seq<Ext>,
    st: Gen,
    s: Store,
    limit: nat,
) -> bool {
    &&& s.inner == inner
    &&& st.cache.len() == graph.len()
    &&& forall|i: int|
        0 <= i < st.cache.len() && (#[trigger] st.cache[i]) is Some ==> stable(
            st.cache[i]->0,
            st.count,
            limit,
        ) && place_value(s, st.cache[i]->0) == expr_value(
            graph,
            Expr::Operation(i as u32),
            inner,
        )
}

/// Nothing stable has changed.
pub open spec fn keeps(a: Store, b: Store, count: nat, limit: nat) -> bool {
    &&& a.inner == b.inner
    &&& a.bus == b.bus
    &&& forall|k: int| 0 <= k < count ==> #[trigger] b.aux[k] == a.aux[k]
    &&& forall|i: int| 0 <= i < limit ==> #[trigger] b.slots[i] == a.slots[i]
}

/// The limit after an evaluation with the given destination.
pub open spec fn next_limit(dest: Option<Place>, limit: nat) -> nat {
    match dest {
        Some(_) => limit + 1,
        None => limit,
    }
}

/// The destination, if there is one, is the slot at the limit.
pub open spec fn dest_ok(dest: Option<Place>, limit: nat) -> bool {
    &&& limit < u64::MAX
    &&& match dest {
        Some(d) => d == Place::Slot(limit as u64),
        None => true,
    }
}

/// What an evaluation achieves: the result's place holds the value and is stable, the
/// state is sound, nothing stable changed, and there is room for what is pending.
pub open spec fn achieves(
    graph: Seq<Node>,
    inner: Seq<Ext>,
    s0: Store,
    st: Gen,
    dest: Option<Place>,
    limit: nat,
    p: Place,
    st1: Gen,
    value: Ext,
    cost: int,
    top: int,
) -> bool {
    let a = run(s0, st.out);
    let b = run(s0, st1.out);
    &&& place_value(b, p) == value
    &&& stable(p, st1.count, next_limit(dest, limit))
    &&& sound(graph, inner, st1, b, next_limit(dest, limit))
    &&& keeps(a, b, st.count, limit)
    &&& st.count <= st1.count
    &&& budget(st1) <= budget(st) + cost
    &&& forall|j: int| top <= j < graph.len() ==> #[trigger] st1.cache[j] == st.cache[j]
}

proof fn lemma_run_push(s0: Store, out: Seq<Stmt>, stmt: Stmt)
    ensures
        run(s0, out.push(stmt)) == run_stmt(run(s0, out), stmt),
{
    assert(out.push(stmt).drop_last() =~= out);
}

/// Soundness does not mind new variables, nor a slot at the limit.
proof fn lemma_sound_step(
    graph: Seq<Node>,
    inner: Seq<Ext>,
    st: Gen,
    a: Store,
    limit: nat,
    st1: Gen,
    b: Store,
    limit1: nat,
)
    requires
        sound(graph, inner, st, a, limit),
        st1.cache == st.cache,
        st.count <= st1.count,
        limit <= limit1,
        keeps(a, b, st.count, limit),
    ensures
        sound(graph, inner, st1, b, limit1),
{
    assert forall|i: int|
        0 <= i < st1.cache.len() && (#[trigger] st1.cache[i]) is Some implies stable(
        st1.cache[i]->0,
        st1.count,
        limit1,
    ) && place_value(b, st1.cache[i]->0) == expr_value(
        graph,
        Expr::Operation(i as u32),
        inner,
    ) by {
        let p = st.cache[i]->0;
        assert(place_value(b, p) == place_value(a, p));
    }
}

/// Evaluating a node takes one from the number of pending nodes.
proof fn lemma_pending_set(cache: Seq<Option<Place>>, i: int, v: Place)
    requires
        0 <= i < cache.len(),
        cache[i] is None,
    ensures
        pending(cache.update(i, Some(v))) + 1 == pending(cache),
    decreases cache.len(),
{
    let c = cache.update(i, Some(v));
    if i == cache.len() - 1 {
        assert(c.drop_last() =~= cache.drop_last());
    } else {
        lemma_pending_set(cache.drop_last(), i, v);
        assert(c.drop_last() =~= cache.drop_last().update(i, Some(v)));
    }
}

/// The statements generated for an expression compute its value.
proof fn lemma_gen_sound(
    graph: Seq<Node>,
    inner: Seq<Ext>,
    e: Expr,
    dest: Option<Place>,
    st: Gen,
    s0: Store,
    limit: nat,
)
    requires
        graph_wf(graph),
        in_graph(graph, e),
        columns_exist(graph, inner.len() as int),
        column_exists(e, inner.len() as int),
        eswf(inner),
        graph.len() <= u32::MAX,
        dest_ok(dest, limit),
        sound(graph, inner, st, run(s0, st.out), limit),
        budget(st) + 2 <= u64::MAX,
    ensures
        ({
            let (p, st1) = gen(graph, e, dest, st);
            &&& achieves(
                graph,
                inner,
                s0,
                st,
                dest,
                limit,
                p,
                st1,
                expr_value(graph, e, inner),
                constant_cost(e),
                rank(e),
            )
            &&& dest is Some && e is Operation ==> run(s0, st1.out).slots[limit as int]
                == expr_value(graph, e, inner)
        }),
    decreases rank(e), 0int,
{
    let a = run(s0, st.out);
    let (p, st1) = gen(graph, e, dest, st);
    let b = run(s0, st1.out);
    match e {
        Expr::Constant(c) => {
            lemma_run_push(s0, st.out, Stmt::Embed(st.count as u64, c));
            lemma_sound_step(graph, inner, st, a, limit, st1, b, next_limit(dest, limit));
        },
        Expr::Variable(v) => {
            lemma_sound_step(graph, inner, st, a, limit, st1, b, next_limit(dest, limit));
        },
        Expr::Operation(i) => {
            if st.cache[i as int] is Some {
                let v = st.cache[i as int]->0;
                if let Some(d) = dest {
                    lemma_run_push(s0, st.out, Stmt::Copy(v, d));
                }
                lemma_sound_step(graph, inner, st, a, limit, st1, b, next_limit(dest, limit));
            } else {
                let node = graph[i as int];
                let value = expr_value(graph, e, inner);
                if node.op is Neg {
                    let (x, s1) = gen(graph, node.lhs, None, st);
                    lemma_gen_sound(graph, inner, node.lhs, None, st, s0, limit);
                    let m = run(s0, s1.out);
                    let k = s1.count as u64;
                    let s2 = fresh(s1, Stmt::Opposite(k, x));
                    lemma_pending_pos(s1.cache, i as int);
                    lemma_run_push(s0, s1.out, Stmt::Opposite(k, x));
                    let w = run(s0, s2.out);
                    lemma_sound_step(graph, inner, s1, m, limit, s2, w, limit);
                    lemma_settle(graph, inner, i, Place::Aux(k), dest, st, s2, s0, limit, value);
                } else {
                    lemma_binop_sound(
                        graph,
                        inner,
                        node.op,
                        node.lhs,
                        node.rhs,
                        dest,
                        st,
                        s0,
                        limit,
                    );
                    let (v, s2) = gen_binop(graph, node.op, node.lhs, node.rhs, dest, st);
                    lemma_settle(graph, inner, i, v, dest, st, s2, s0, limit, value);
                }
            }
        },
    }
}

/// A pending node counts.
proof fn lemma_pending_pos(cache: Seq<Option<Place>>, i: int)
    requires
        0 <= i < cache.len(),
        cache[i] is None,
    ensures
        pending(cache) >= 1,
{
    lemma_pending_set(cache, i, Place::Aux(0));
}

/// After the value of a node is computed: it goes to the destination and its place is
/// remembered.
proof fn lemma_settle(
    graph: Seq<Node>,
    inner: Seq<Ext>,
    i: u32,
    v: Place,
    dest: Option<Place>,
    st: Gen,
    s2: Gen,
    s0: Store,
    limit: nat,
    value: Ext,
)
    requires
        graph.len() <= u32::MAX,
        0 <= i < graph.len(),
        dest_ok(dest, limit),
        st.cache.len() == graph.len(),
        st.cache[i as int] is None,
        s2.cache.len() == graph.len(),
        s2.cache[i as int] is None,
        value == expr_value(graph, Expr::Operation(i), inner),
        ({
            let a = run(s0, st.out);
            let m = run(s0, s2.out);
            &&& place_value(m, v) == value
            &&& stable(v, s2.count, limit) || dest == Some(v)
            &&& sound(graph, inner, s2, m, limit)
            &&& keeps(a, m, st.count, limit)
        }),
        st.count <= s2.count,
        budget(s2) <= budget(st) + 2,
        forall|j: int| i < j < graph.len() ==> #[trigger] s2.cache[j] == st.cache[j],
    ensures
        ({
            let (p, st1) = settle(i, v, dest, s2);
            &&& achieves(graph, inner, s0, st, dest, limit, p, st1, value, 0, i + 1)
            &&& dest is Some ==> run(s0, st1.out).slots[limit as int] == value
        }),
{
    let a = run(s0, st.out);
    let m = run(s0, s2.out);
    let (p, st1) = settle(i, v, dest, s2);
    let b = run(s0, st1.out);
    let limit1 = next_limit(dest, limit);
    if let Some(d) = dest {
        if v != d {
            lemma_run_push(s0, s2.out, Stmt::Copy(v, d));
        }
    }
    lemma_pending_set(s2.cache, i as int, v);
    assert(keeps(m, b, s2.count, limit));
    let with_out = Gen { cache: s2.cache, ..st1 };
    lemma_sound_step(graph, inner, s2, m, limit, with_out, b, limit1);
    assert forall|j: int|
        0 <= j < st1.cache.len() && (#[trigger] st1.cache[j]) is Some implies stable(
        st1.cache[j]->0,
        st1.count,
        limit1,
    ) && place_value(b, st1.cache[j]->0) == expr_value(
        graph,
        Expr::Operation(j as u32),
        inner,
    ) by {
        if j != i {
            assert(with_out.cache[j] == st1.cache[j]);
        }
    }
    assert(keeps(a, b, st.count, limit)) by {
        assert forall|k: int| 0 <= k < st.count implies #[trigger] b.aux[k] == a.aux[k] by {
            assert(b.aux[k] == m.aux[k]);
            assert(m.aux[k] == a.aux[k]);
        }
        assert forall|k: int| 0 <= k < limit implies #[trigger] b.slots[k] == a.slots[k] by {
            assert(b.slots[k] == m.slots[k]);
            assert(m.slots[k] == a.slots[k]);
        }
    }
}

/// The statements generated for an operation on two expressions compute its value.
proof fn lemma_binop_sound(
    graph: Seq<Node>,
    inner: Seq<Ext>,
    op: Op,
    lhs: Expr,
    rhs: Expr,
    dest: Option<Place>,
    st: Gen,
    s0: Store,
    limit: nat,
)
    requires
        graph_wf(graph),
        !(op is Neg),
        in_graph(graph, lhs),
        in_graph(graph, rhs),
        columns_exist(graph, inner.len() as int),
        column_exists(lhs, inner.len() as int),
        column_exists(rhs, inner.len() as int),
        eswf(inner),
        graph.len() <= u32::MAX,
        dest_ok(dest, limit),
        sound(graph, inner, st, run(s0, st.out), limit),
        budget(st) + 2 <= u64::MAX,
    ensures
        ({
            let (v, s2) = gen_binop(graph, op, lhs, rhs, dest, st);
            let a = run(s0, st.out);
            let m = run(s0, s2.out);
            &&& place_value(m, v) == apply(
                op,
                expr_value(graph, lhs, inner),
                expr_value(graph, rhs, inner),
            )
            &&& stable(v, s2.count, limit) || dest == Some(v)
            &&& sound(graph, inner, s2, m, limit)
            &&& keeps(a, m, st.count, limit)
            &&& st.count <= s2.count
            &&& budget(s2) <= budget(st) + 2
            &&& forall|j: int|
                larger(rank(lhs), rank(rhs)) <= j < graph.len() ==> #[trigger] s2.cache[j]
                    == st.cache[j]
        }),
    decreases larger(rank(lhs), rank(rhs)), 1int,
{
    let a = run(s0, st.out);
    let (v, s2) = gen_binop(graph, op, lhs, rhs, dest, st);
    let m = run(s0, s2.out);
    let (x, y) = (expr_value(graph, lhs, inner), expr_value(graph, rhs, inner));
    lemma_expr_wf(graph, lhs, inner);
    lemma_expr_wf(graph, rhs, inner);
    lemma_eadd_comm(x, y);
    lemma_emul_comm(x, y);
    match (op, constant(lhs), constant(rhs)) {
        (_, None, None) => {
            let (p, t1) = gen(graph, lhs, None, st);
            lemma_gen_sound(graph, inner, lhs, None, st, s0, limit);
            let (q, t2) = gen(graph, rhs, None, t1);
            lemma_gen_sound(graph, inner, rhs, None, t1, s0, limit);
            let (m1, m2) = (run(s0, t1.out), run(s0, t2.out));
            assert(place_value(m2, p) == place_value(m1, p));
            match dest {
                Some(d) => {
                    lemma_run_push(s0, t2.out, Stmt::ExtInto(op, p, q, d));
                },
                None => {
                    lemma_run_push(s0, t2.out, Stmt::ExtRet(op, t2.count as u64, p, q));
                },
            }
            lemma_sound_step(graph, inner, t2, m2, limit, s2, m, limit);
            assert forall|k: int| 0 <= k < st.count implies #[trigger] m.aux[k] == a.aux[k] by {
                assert(m1.aux[k] == a.aux[k]);
                assert(m2.aux[k] == m1.aux[k]);
            }
            assert forall|k: int| 0 <= k < limit implies #[trigger] m.slots[k] == a.slots[k] by {
                assert(m1.slots[k] == a.slots[k]);
                assert(m2.slots[k] == m1.slots[k]);
            }
        },
        (Op::Sub, Some(c), _) => {
            let (q, t1) = gen(graph, rhs, None, st);
            lemma_gen_sound(graph, inner, rhs, None, st, s0, limit);
            let m1 = run(s0, t1.out);
            lemma_run_push(s0, t1.out, Stmt::BaseMinus(t1.count as u64, c, q));
            lemma_sound_step(graph, inner, t1, m1, limit, s2, m, limit);
            lemma_keeps_after(a, m1, m, st.count, limit);
        },
        (Op::Sub, None, Some(c)) => {
            let (p, t1) = gen(graph, lhs, None, st);
            lemma_gen_sound(graph, inner, lhs, None, st, s0, limit);
            let m1 = run(s0, t1.out);
            let k = t1.count as u64;
            match dest {
                Some(d) => {
                    lemma_run_push(s0, t1.out, Stmt::MinusBaseInto(k, c, d, p));
                },
                None => {
                    lemma_run_push(s0, t1.out, Stmt::MinusBaseRet(k, p, c));
                },
            }
            lemma_sound_step(graph, inner, t1, m1, limit, s2, m, limit);
            lemma_keeps_after(a, m1, m, st.count, limit);
        },
        (_, Some(c), _) => {
            let (q, t1) = gen(graph, rhs, None, st);
            lemma_gen_sound(graph, inner, rhs, None, st, s0, limit);
            let m1 = run(s0, t1.out);
            let k = t1.count as u64;
            match dest {
                Some(d) => {
                    lemma_run_push(s0, t1.out, Stmt::BaseInto(op, k, c, q, d));
                },
                None => {
                    lemma_run_push(s0, t1.out, Stmt::BaseRet(op, k, c, q));
                },
            }
            lemma_sound_step(graph, inner, t1, m1, limit, s2, m, limit);
            lemma_keeps_after(a, m1, m, st.count, limit);
        },
        (_, None, Some(c)) => {
            let (p, t1) = gen(graph, lhs, None, st);
            lemma_gen_sound(graph, inner, lhs, None, st, s0, limit);
            let m1 = run(s0, t1.out);
            let k = t1.count as u64;
            match dest {
                Some(d) => {
                    lemma_run_push(s0, t1.out, Stmt::BaseInto(op, k, c, p, d));
                },
                None => {
                    lemma_run_push(s0, t1.out, Stmt::BaseRet(op, k, c, p));
                },
            }
            lemma_sound_step(graph, inner, t1, m1, limit, s2, m, limit);
            lemma_keeps_after(a, m1, m, st.count, limit);
        },
    }
}

/// Keeping composes.
proof fn lemma_keeps_after(a: Store, b: Store, c: Store, count: nat, limit: nat)
    requires
        keeps(a, b, count, limit),
        keeps(b, c, count, limit),
    ensures
        keeps(a, c, count, limit),
{
    assert forall|k: int| 0 <= k < count implies #[trigger] c.aux[k] == a.aux[k] by {
        assert(b.aux[k] == a.aux[k]);
    }
    assert forall|k: int| 0 <= k < limit implies #[trigger] c.slots[k] == a.slots[k] by {
        assert(b.slots[k] == a.slots[k]);
    }
}

/// The columns that a table's expressions name exist.
pub open spec fn table_columns_exist(t: TableAir, cols: int) -> bool {
    &&& columns_exist(t.graph@, cols)
    &&& forall|i: int|
        0 <= i < t.constraints@.len() ==> column_exists(#[trigger] t.constraints@[i], cols)
    &&& column_exists(t.bus_flag, cols)
    &&& forall|i: int|
        0 <= i < t.bus_data@.len() ==> column_exists(#[trigger] t.bus_data@[i], cols)
}

/// After the first `n` constraints each has its value in its slot.
proof fn lemma_constraints_sound(t: TableAir, inner: Seq<Ext>, s0: Store, n: nat)
    requires
        t.wf(),
        t.graph@.len() <= u32::MAX,
        table_columns_exist(t, inner.len() as int),
        eswf(inner),
        s0.inner == inner,
        n <= t.constraints@.len(),
        forall|i: int|
            0 <= i < t.constraints@.len() ==> (#[trigger] t.constraints@[i]) is Operation,
    ensures
        ({
            let st = gen_constraints(t.graph@, t.constraints@, n, start(t.graph@.len()));
            let s = run(s0, st.out);
            &&& sound(t.graph@, inner, st, s, n)
            &&& budget(st) <= 2 * t.graph@.len()
            &&& forall|i: int|
                0 <= i < n ==> #[trigger] s.slots[i] == expr_value(
                    t.graph@,
                    t.constraints@[i],
                    inner,
                )
        }),
    decreases n,
{
    let graph = t.graph@;
    if n == 0 {
        lemma_all_pending(graph.len());
    } else {
        let k = (n - 1) as nat;
        lemma_constraints_sound(t, inner, s0, k);
        let st = gen_constraints(graph, t.constraints@, k, start(graph.len()));
        let e = t.constraints@[k as int];
        assert(in_graph(graph, e) && column_exists(e, inner.len() as int) && e is Operation);
        lemma_gen_sound(graph, inner, e, Some(Place::Slot(k as u64)), st, s0, k);
        let a = run(s0, st.out);
        let st1 = gen_constraints(graph, t.constraints@, n, start(graph.len()));
        let b = run(s0, st1.out);
        assert forall|i: int| 0 <= i < n implies #[trigger] b.slots[i] == expr_value(
            graph,
            t.constraints@[i],
            inner,
        ) by {
            if i < k {
                assert(a.slots[i] == expr_value(graph, t.constraints@[i], inner));
            }
        }
    }
}

/// In a fresh state every node is pending.
proof fn lemma_all_pending(nodes: nat)
    ensures
        pending(start(nodes).cache) == nodes,
    decreases nodes,
{
    if nodes > 0 {
        let k = (nodes - 1) as nat;
        lemma_all_pending(k);
        assert(start(nodes).cache.drop_last() =~= start(k).cache);
    }
}

/// After the first `n` bus values each is in the bus buffer, and slots and stable
/// variables are as before.
proof fn lemma_bus_sound(t: TableAir, inner: Seq<Ext>, s0: Store, st: Gen, limit: nat, n: nat)
    requires
        t.wf(),
        t.graph@.len() <= u32::MAX,
        table_columns_exist(t, inner.len() as int),
        eswf(inner),
        n <= t.bus_data@.len(),
        limit <= t.constraints@.len(),
        sound(t.graph@, inner, st, run(s0, st.out), limit),
        budget(st) <= 2 * t.graph@.len() + 1,
    ensures
        ({
            let st1 = gen_bus(t.graph@, t.bus_data@, n, st);
            let a = run(s0, st.out);
            let b = run(s0, st1.out);
            &&& sound(t.graph@, inner, st1, b, limit)
            &&& budget(st1) <= 2 * t.graph@.len() + 1 + n
            &&& st.count <= st1.count
            &&& forall|k: int| 0 <= k < st.count ==> #[trigger] b.aux[k] == a.aux[k]
            &&& forall|i: int| 0 <= i < limit ==> #[trigger] b.slots[i] == a.slots[i]
            &&& b.inner == a.inner
            &&& forall|j: int|
                0 <= j < n ==> #[trigger] b.bus[j] == expr_value(t.graph@, t.bus_data@[j], inner)
        }),
    decreases n,
{
    let graph = t.graph@;
    if n > 0 {
        let k = (n - 1) as nat;
        lemma_bus_sound(t, inner, s0, st, limit, k);
        let st1 = gen_bus(graph, t.bus_data@, k, st);
        let e = t.bus_data@[k as int];
        assert(in_graph(graph, e) && column_exists(e, inner.len() as int));
        lemma_gen_sound(graph, inner, e, None, st1, s0, limit);
        let (p, st2) = gen(graph, e, None, st1);
        let stmt = Stmt::BusCopy(p, k as u64);
        lemma_run_push(s0, st2.out, stmt);
        let st3 = emit(st2, stmt);
        let (a, b1, b2, b3) = (
            run(s0, st.out),
            run(s0, st1.out),
            run(s0, st2.out),
            run(s0, st3.out),
        );
        assert forall|i: int|
            0 <= i < st3.cache.len() && (#[trigger] st3.cache[i]) is Some implies stable(
            st3.cache[i]->0,
            st3.count,
            limit,
        ) && place_value(b3, st3.cache[i]->0) == expr_value(
            graph,
            Expr::Operation(i as u32),
            inner,
        ) by {
            assert(st2.cache[i] is Some);
            assert(place_value(b3, st3.cache[i]->0) == place_value(b2, st2.cache[i]->0));
        }
        assert forall|i: int| 0 <= i < st.count implies #[trigger] b3.aux[i] == a.aux[i] by {
            assert(b1.aux[i] == a.aux[i]);
            assert(b2.aux[i] == b1.aux[i]);
        }
        assert forall|i: int| 0 <= i < limit implies #[trigger] b3.slots[i] == a.slots[i] by {
            assert(b1.slots[i] == a.slots[i]);
            assert(b2.slots[i] == b1.slots[i]);
        }
        assert forall|j: int| 0 <= j < n implies #[trigger] b3.bus[j] == expr_value(
            graph,
            t.bus_data@[j],
            inner,
        ) by {
            if j < k {
                assert(b1.bus[j] == expr_value(graph, t.bus_data@[j], inner));
            }
        }
    }
}

/// Running the statements generated for a table leaves the value of each constraint in
/// its slot of the constraint buffer, the value of the bus flag at the flag's place, and
/// each bus value in the bus buffer, for all column values. The constraints are to be
/// nodes: a bare constant or column is not copied to its slot.
pub proof fn lemma_table_computes(t: TableAir, inner: Seq<Ext>, s0: Store)
    requires
        t.wf(),
        t.graph@.len() <= u32::MAX,
        table_columns_exist(t, inner.len() as int),
        eswf(inner),
        s0.inner == inner,
        forall|i: int|
            0 <= i < t.constraints@.len() ==> (#[trigger] t.constraints@[i]) is Operation,
    ensures
        ({
            let (flag, st) = gen_table(t);
            let s = run(s0, st.out);
            &&& forall|i: int|
                0 <= i < t.constraints@.len() ==> #[trigger] s.slots[i] == expr_value(
                    t.graph@,
                    t.constraints@[i],
                    inner,
                )
            &&& place_value(s, flag) == expr_value(t.graph@, t.bus_flag, inner)
            &&& forall|j: int|
                0 <= j < t.bus_data@.len() ==> #[trigger] s.bus[j] == expr_value(
                    t.graph@,
                    t.bus_data@[j],
                    inner,
                )
        }),
{
    let graph = t.graph@;
    let n = t.constraints@.len();
    let m = t.bus_data@.len();
    lemma_constraints_sound(t, inner, s0, n);
    let s1 = gen_constraints(graph, t.constraints@, n, start(graph.len()));
    lemma_gen_sound(graph, inner, t.bus_flag, None, s1, s0, n);
    let (flag, s2) = gen(graph, t.bus_flag, None, s1);
    let stmt = Stmt::BusBuffer(m as u64);
    lemma_run_push(s0, s2.out, stmt);
    let s3 = emit(s2, stmt);
    let (a1, a2, a3) = (run(s0, s1.out), run(s0, s2.out), run(s0, s3.out));
    assert(a3 == a2);
    assert(sound(graph, inner, s3, a3, n)) by {
        assert forall|i: int|
            0 <= i < s3.cache.len() && (#[trigger] s3.cache[i]) is Some implies stable(
            s3.cache[i]->0,
            s3.count,
            n,
        ) && place_value(a3, s3.cache[i]->0) == expr_value(
            graph,
            Expr::Operation(i as u32),
            inner,
        ) by {
            assert(s2.cache[i] is Some);
        }
    }
    lemma_bus_sound(t, inner, s0, s3, n, m);
    let s4 = gen_bus(graph, t.bus_data@, m, s3);
    let a4 = run(s0, s4.out);
    assert forall|i: int| 0 <= i < n implies #[trigger] a4.slots[i] == expr_value(
        graph,
        t.constraints@[i],
        inner,
    ) by {
        assert(a1.slots[i] == expr_value(graph, t.constraints@[i], inner));
        assert(a2.slots[i] == a1.slots[i]);
    }
    assert(place_value(a4, flag) == place_value(a2, flag));
}

} // verus!
