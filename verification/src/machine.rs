//! Parameters of the virtual machine and of its proof system that the recursive
//! circuits are instantiated with, and their texts in the circuit templates.

use crate::air::TableAir;
use crate::field::TWO_ADICITY;
use crate::text::{bracket, bracket_numbers, bracketed, decimal, decimal_usize, decimals, texts};
use vstd::prelude::*;

verus! {

/// A lookup of a table: an index column and value columns.
#[derive(Debug)]
pub struct Lookup {
    pub index: usize,
    pub values: Vec<usize>,
}

/// The shape of a table.
#[derive(Debug)]
pub struct TableInfo {
    pub lookups: Vec<Lookup>,
    pub n_columns: usize,
    pub degree_air: usize,
    pub down_columns: Vec<usize>,
}

/// What is listed of each table.
#[derive(Clone, Copy, Debug)]
pub enum TableColumn {
    LookupIndexes,
    LookupValues,
    NumColumns,
    Degree,
    DownColumns,
}

/// One round of the low-degree test.
#[derive(Clone, Copy, Debug)]
pub struct WhirRound {
    pub num_queries: usize,
    pub query_pow_bits: usize,
    pub ood_samples: usize,
    pub folding_pow_bits: usize,
}

/// The parameters of a low-degree test.
#[derive(Debug)]
pub struct WhirSummary {
    pub commitment_ood_samples: usize,
    pub starting_folding_pow_bits: usize,
    pub rounds: Vec<WhirRound>,
    pub final_queries: usize,
    pub final_query_pow_bits: usize,
}

/// What is listed of each low-degree test.
#[derive(Clone, Copy, Debug)]
pub enum WhirColumn {
    NumQueries,
    QueryGrinding,
    NumOods,
    FoldingGrinding,
}

/// Constants of the machine and its proof system.
#[derive(Debug)]
pub struct MachineParams {
    pub rs_domain_initial_reduction_factor: usize,
    pub n_tables: usize,
    pub min_log_n_rows_per_table: usize,
    /// Table numbers with their largest row counts.
    pub max_log_n_rows_per_table: Vec<(usize, usize)>,
    pub min_whir_log_inv_rate: usize,
    pub max_whir_log_inv_rate: usize,
    pub min_log_memory_size: usize,
    pub max_log_memory_size: usize,
    pub max_bus_width: usize,
    pub logup_memory_domainsep: usize,
    pub logup_precompile_domainsep: usize,
    pub logup_bytecode_domainsep: usize,
    pub col_pc: usize,
    pub max_num_variables_to_send_coeffs: usize,
    pub whir_initial_folding_factor: usize,
    pub whir_subsequent_folding_factor: usize,
    pub execution_table_index: usize,
    pub max_air_constraints: usize,
    pub n_runtime_columns: usize,
    pub total_whir_statements: usize,
    pub starting_pc: usize,
    pub ending_pc: usize,
    pub tables: Vec<TableInfo>,
    pub airs: Vec<TableAir>,
}

// Tables.

/// The text of a table in a list.
pub open spec fn table_entry(t: TableInfo, col: TableColumn) -> Seq<char> {
    let n = t.lookups@.len();
    match col {
        TableColumn::LookupIndexes => bracketed(
            Seq::new(n, |i: int| decimal(t.lookups@[i].index as int)),
        ),
        TableColumn::LookupValues => bracketed(
            Seq::new(n, |i: int| bracketed(decimals(t.lookups@[i].values@))),
        ),
        TableColumn::NumColumns => decimal(t.n_columns as int),
        TableColumn::Degree => decimal(t.degree_air as int),
        TableColumn::DownColumns => bracketed(decimals(t.down_columns@)),
    }
}

/// A list over tables.
pub open spec fn table_list(tables: Seq<TableInfo>, col: TableColumn) -> Seq<char> {
    bracketed(Seq::new(tables.len(), |i: int| table_entry(tables[i], col)))
}

/// The text of a table in a list.
fn render_table_entry(t: &TableInfo, col: TableColumn) -> (r: String)
    ensures
        r@ == table_entry(*t, col),
{
    match col {
        TableColumn::LookupIndexes => {
            let n: usize = t.lookups.len();
            let mut out: Vec<String> = Vec::with_capacity(n);
            let mut i: usize = 0;
            while i < n
                invariant
                    i <= n == t.lookups@.len(),
                    out@.len() == i,
                    forall|j: int|
                        0 <= j < i ==> (#[trigger] out@[j])@ == decimal(
                            t.lookups@[j].index as int,
                        ),
                decreases n - i,
            {
                out.push(decimal_usize(t.lookups[i].index));
                i = i + 1;
            }
            assert(texts(out@) =~= Seq::new(
                n as nat,
                |j: int| decimal(t.lookups@[j].index as int),
            ));
            bracket(&out)
        },
        TableColumn::LookupValues => {
            let n: usize = t.lookups.len();
            let mut out: Vec<String> = Vec::with_capacity(n);
            let mut i: usize = 0;
            while i < n
                invariant
                    i <= n == t.lookups@.len(),
                    out@.len() == i,
                    forall|j: int|
                        0 <= j < i ==> (#[trigger] out@[j])@ == bracketed(
                            decimals(t.lookups@[j].values@),
                        ),
                decreases n - i,
            {
                out.push(bracket_numbers(&t.lookups[i].values));
                i = i + 1;
            }
            assert(texts(out@) =~= Seq::new(
                n as nat,
                |j: int| bracketed(decimals(t.lookups@[j].values@)),
            ));
            bracket(&out)
        },
        TableColumn::NumColumns => decimal_usize(t.n_columns),
        TableColumn::Degree => decimal_usize(t.degree_air),
        TableColumn::DownColumns => bracket_numbers(&t.down_columns),
    }
}

/// Build a list over tables.
pub fn render_table_list(tables: &Vec<TableInfo>, col: TableColumn) -> (r: String)
    ensures
        r@ == table_list(tables@, col),
{
    let n: usize = tables.len();
    let mut out: Vec<String> = Vec::with_capacity(n);
    let mut i: usize = 0;
    while i < n
        invariant
            i <= n == tables@.len(),
            out@.len() == i,
            forall|j: int| 0 <= j < i ==> (#[trigger] out@[j])@ == table_entry(tables@[j], col),
        decreases n - i,
    {
        out.push(render_table_entry(&tables[i], col));
        i = i + 1;
    }
    assert(texts(out@) =~= Seq::new(n as nat, |j: int| table_entry(tables@[j], col)));
    bracket(&out)
}

// Low-degree tests.

/// The number that a round has in a list.
pub open spec fn round_number(r: WhirRound, col: WhirColumn) -> usize {
    match col {
        WhirColumn::NumQueries => r.num_queries,
        WhirColumn::QueryGrinding => r.query_pow_bits,
        WhirColumn::NumOods => r.ood_samples,
        WhirColumn::FoldingGrinding => r.folding_pow_bits,
    }
}

/// The numbers of a low-degree test: queries and their grinding end with the final
/// queries, out-of-domain samples and folding grinding begin with the commitment's.
pub open spec fn whir_numbers(w: WhirSummary, col: WhirColumn) -> Seq<usize> {
    let rounds = Seq::new(w.rounds@.len(), |i: int| round_number(w.rounds@[i], col));
    match col {
        WhirColumn::NumQueries => rounds.push(w.final_queries),
        WhirColumn::QueryGrinding => rounds.push(w.final_query_pow_bits),
        WhirColumn::NumOods => seq![w.commitment_ood_samples] + rounds,
        WhirColumn::FoldingGrinding => seq![w.starting_folding_pow_bits] + rounds,
    }
}

/// A list over the low-degree tests of one rate.
pub open spec fn whir_row(row: Seq<WhirSummary>, col: WhirColumn) -> Seq<char> {
    bracketed(Seq::new(row.len(), |i: int| bracketed(decimals(whir_numbers(row[i], col)))))
}

/// A list over rates.
pub open spec fn whir_table(configs: Seq<Vec<WhirSummary>>, col: WhirColumn) -> Seq<char> {
    bracketed(Seq::new(configs.len(), |i: int| whir_row(configs[i]@, col)))
}

/// The numbers of a low-degree test.
fn collect_whir_numbers(w: &WhirSummary, col: WhirColumn) -> (r: Vec<usize>)
    ensures
        r@ == whir_numbers(*w, col),
{
    let n: usize = w.rounds.len();
    let mut out: Vec<usize> = Vec::with_capacity(n);
    match col {
        WhirColumn::NumOods => out.push(w.commitment_ood_samples),
        WhirColumn::FoldingGrinding => out.push(w.starting_folding_pow_bits),
        _ => {},
    }
    let ghost head = out@;
    let ghost rounds = Seq::new(w.rounds@.len(), |i: int| round_number(w.rounds@[i], col));
    let mut i: usize = 0;
    assert(head + rounds.take(0) =~= head);
    while i < n
        invariant
            i <= n == w.rounds@.len(),
            rounds == Seq::new(w.rounds@.len(), |j: int| round_number(w.rounds@[j], col)),
            out@ == head + rounds.take(i as int),
        decreases n - i,
    {
        let r = w.rounds[i];
        let x: usize = match col {
            WhirColumn::NumQueries => r.num_queries,
            WhirColumn::QueryGrinding => r.query_pow_bits,
            WhirColumn::NumOods => r.ood_samples,
            WhirColumn::FoldingGrinding => r.folding_pow_bits,
        };
        out.push(x);
        i = i + 1;
        assert(out@ =~= head + rounds.take(i as int));
    }
    assert(rounds.take(n as int) =~= rounds);
    match col {
        WhirColumn::NumQueries => out.push(w.final_queries),
        WhirColumn::QueryGrinding => out.push(w.final_query_pow_bits),
        _ => {},
    }
    assert(out@ =~= whir_numbers(*w, col));
    out
}

/// Build the list over the low-degree tests of one rate.
fn render_whir_row(row: &Vec<WhirSummary>, col: WhirColumn) -> (r: String)
    ensures
        r@ == whir_row(row@, col),
{
    let n: usize = row.len();
    let mut out: Vec<String> = Vec::with_capacity(n);
    let mut i: usize = 0;
    while i < n
        invariant
            i <= n == row@.len(),
            out@.len() == i,
            forall|j: int|
                0 <= j < i ==> (#[trigger] out@[j])@ == bracketed(
                    decimals(whir_numbers(row@[j], col)),
                ),
        decreases n - i,
    {
        let numbers = collect_whir_numbers(&row[i], col);
        out.push(bracket_numbers(&numbers));
        i = i + 1;
    }
    assert(texts(out@) =~= Seq::new(
        n as nat,
        |j: int| bracketed(decimals(whir_numbers(row@[j], col))),
    ));
    bracket(&out)
}

/// Build the list over rates.
pub fn render_whir_table(configs: &Vec<Vec<WhirSummary>>, col: WhirColumn) -> (r: String)
    ensures
        r@ == whir_table(configs@, col),
{
    let n: usize = configs.len();
    let mut out: Vec<String> = Vec::with_capacity(n);
    let mut i: usize = 0;
    while i < n
        invariant
            i <= n == configs@.len(),
            out@.len() == i,
            forall|j: int| 0 <= j < i ==> (#[trigger] out@[j])@ == whir_row(configs@[j]@, col),
        decreases n - i,
    {
        out.push(render_whir_row(&configs[i], col));
        i = i + 1;
    }
    assert(texts(out@) =~= Seq::new(n as nat, |j: int| whir_row(configs@[j]@, col)));
    bracket(&out)
}

/// The largest number of variables of a low-degree test at the given rate.
pub open spec fn max_n_vars(m: MachineParams, rate: int) -> int {
    TWO_ADICITY + m.whir_initial_folding_factor - rate
}

/// The rates lie in a range for which the sizes are machine words.
pub open spec fn rates_ok(m: MachineParams) -> bool {
    &&& m.min_whir_log_inv_rate <= m.max_whir_log_inv_rate
    &&& m.max_whir_log_inv_rate <= TWO_ADICITY + m.whir_initial_folding_factor < usize::MAX
}

/// The configurations for every rate and every number of variables from `min_stacked`
/// to the largest, as `whir` gives them.
pub open spec fn is_whir_grid<W: Fn(usize, usize) -> WhirSummary>(
    whir: W,
    m: MachineParams,
    min_stacked: int,
    configs: Seq<Vec<WhirSummary>>,
) -> bool {
    &&& configs.len() == m.max_whir_log_inv_rate - m.min_whir_log_inv_rate + 1
    &&& forall|i: int|
        0 <= i < configs.len() ==> is_whir_row(
            whir,
            m,
            min_stacked,
            m.min_whir_log_inv_rate + i,
            #[trigger] configs[i]@,
        )
}

/// The configurations for one rate.
pub open spec fn is_whir_row<W: Fn(usize, usize) -> WhirSummary>(
    whir: W,
    m: MachineParams,
    min_stacked: int,
    rate: int,
    row: Seq<WhirSummary>,
) -> bool {
    &&& row.len() == (if min_stacked <= max_n_vars(m, rate) {
        max_n_vars(m, rate) - min_stacked + 1
    } else {
        0
    })
    &&& forall|j: int|
        0 <= j < row.len() ==> call_ensures(
            whir,
            (rate as usize, (min_stacked + j) as usize),
            #[trigger] row[j],
        )
}

/// `whir` can be called for every rate and every number of variables from `min_stacked` to
/// the largest.
pub open spec fn whir_callable<W: Fn(usize, usize) -> WhirSummary>(
    whir: W,
    m: MachineParams,
    min_stacked: int,
) -> bool {
    forall|rate: usize, n: usize|
        m.min_whir_log_inv_rate <= rate <= m.max_whir_log_inv_rate && min_stacked <= n
            <= max_n_vars(m, rate as int) ==> #[trigger] call_requires(whir, (rate, n))
}

/// Collect the configurations for one rate.
fn whir_configs_for<W: Fn(usize, usize) -> WhirSummary>(
    whir: &W,
    m: &MachineParams,
    min_stacked: usize,
    rate: usize,
) -> (r: Vec<WhirSummary>)
    requires
        rates_ok(*m),
        m.min_whir_log_inv_rate <= rate <= m.max_whir_log_inv_rate,
        whir_callable(*whir, *m, min_stacked as int),
    ensures
        is_whir_row(*whir, *m, min_stacked as int, rate as int, r@),
{
    let top: usize = TWO_ADICITY + m.whir_initial_folding_factor - rate;
    let mut row: Vec<WhirSummary> = Vec::new();
    let mut n_vars: usize = min_stacked;
    while n_vars <= top
        invariant
            m.min_whir_log_inv_rate <= rate <= m.max_whir_log_inv_rate,
            top == max_n_vars(*m, rate as int),
            top < usize::MAX,
            min_stacked <= n_vars,
            n_vars <= top + 1 || n_vars == min_stacked,
            whir_callable(*whir, *m, min_stacked as int),
            row@.len() == n_vars - min_stacked,
            forall|j: int|
                0 <= j < row@.len() ==> call_ensures(
                    *whir,
                    (rate, (min_stacked + j) as usize),
                    #[trigger] row@[j],
                ),
        decreases top + 1 - n_vars,
    {
        let w = whir(rate, n_vars);
        row.push(w);
        n_vars = n_vars + 1;
    }
    row
}

/// Collect the configurations for every rate and number of variables.
pub fn whir_configs<W: Fn(usize, usize) -> WhirSummary>(
    whir: &W,
    m: &MachineParams,
    min_stacked: usize,
) -> (r: Vec<Vec<WhirSummary>>)
    requires
        rates_ok(*m),
        whir_callable(*whir, *m, min_stacked as int),
    ensures
        is_whir_grid(*whir, *m, min_stacked as int, r@),
{
    let mut configs: Vec<Vec<WhirSummary>> = Vec::new();
    let mut rate: usize = m.min_whir_log_inv_rate;
    while rate <= m.max_whir_log_inv_rate
        invariant
            rates_ok(*m),
            m.min_whir_log_inv_rate <= rate <= m.max_whir_log_inv_rate + 1,
            whir_callable(*whir, *m, min_stacked as int),
            configs@.len() == rate - m.min_whir_log_inv_rate,
            forall|i: int|
                0 <= i < configs@.len() ==> is_whir_row(
                    *whir,
                    *m,
                    min_stacked as int,
                    m.min_whir_log_inv_rate + i,
                    #[trigger] configs@[i]@,
                ),
        decreases m.max_whir_log_inv_rate + 1 - rate,
    {
        configs.push(whir_configs_for(whir, m, min_stacked, rate));
        rate = rate + 1;
    }
    configs
}

// Largest row counts.

/// `x` put behind the entries whose key is not larger.
pub open spec fn insert_by_key(s: Seq<(usize, usize)>, x: (usize, usize)) -> Seq<(usize, usize)>
    decreases s.len(),
{
    if s.len() == 0 || s.last().0 <= x.0 {
        s.push(x)
    } else {
        insert_by_key(s.drop_last(), x).push(s.last())
    }
}

/// The entries in the order of their keys, entries with equal keys as they were.
pub open spec fn sorted_by_key(s: Seq<(usize, usize)>) -> Seq<(usize, usize)>
    decreases s.len(),
{
    if s.len() == 0 {
        s
    } else {
        insert_by_key(sorted_by_key(s.drop_last()), s.last())
    }
}

/// The entries without those that equal the one before.
pub open spec fn without_repeats(s: Seq<(usize, usize)>) -> Seq<(usize, usize)>
    decreases s.len(),
{
    if s.len() <= 1 {
        s
    } else if s[s.len() - 1] == s[s.len() - 2] {
        without_repeats(s.drop_last())
    } else {
        without_repeats(s.drop_last()).push(s.last())
    }
}

/// The values of entries.
pub open spec fn values_of(s: Seq<(usize, usize)>) -> Seq<usize> {
    Seq::new(s.len(), |i: int| s[i].1)
}

/// Put an entry behind those whose key is not larger.
fn insert_entry(s: &mut Vec<(usize, usize)>, x: (usize, usize))
    ensures
        final(s)@ == insert_by_key(old(s)@, x),
{
    let ghost before = s@;
    let mut i: usize = s.len();
    proof {
        assert(before.take(i as int) =~= before);
        assert(insert_by_key(before, x) + before.skip(i as int) =~= insert_by_key(before, x));
    }
    while i > 0 && s[i - 1].0 > x.0
        invariant
            i <= s@.len(),
            s@ == before,
            insert_by_key(before, x) == insert_by_key(before.take(i as int), x) + before.skip(
                i as int,
            ),
        decreases i,
    {
        proof {
            let t = before.take(i as int);
            assert(t.drop_last() =~= before.take(i - 1));
            assert(insert_by_key(t.drop_last(), x).push(t.last()) + before.skip(i as int)
                =~= insert_by_key(t.drop_last(), x) + before.skip(i - 1));
        }
        i = i - 1;
    }
    assert(insert_by_key(before.take(i as int), x) =~= before.take(i as int).push(x));
    s.insert(i, x);
    assert(s@ =~= before.take(i as int).push(x) + before.skip(i as int));
}

/// The values of the entries in the order of their keys, without repeated entries.
pub fn collect_max_rows(entries: &Vec<(usize, usize)>) -> (r: Vec<usize>)
    ensures
        r@ == values_of(without_repeats(sorted_by_key(entries@))),
{
    let n: usize = entries.len();
    let mut sorted: Vec<(usize, usize)> = Vec::with_capacity(n);
    let mut i: usize = 0;
    assert(entries@.take(0) =~= Seq::empty());
    while i < n
        invariant
            i <= n == entries@.len(),
            sorted@ == sorted_by_key(entries@.take(i as int)),
        decreases n - i,
    {
        insert_entry(&mut sorted, entries[i]);
        assert(entries@.take(i + 1).drop_last() =~= entries@.take(i as int));
        i = i + 1;
    }
    assert(entries@.take(n as int) =~= entries@);
    let m: usize = sorted.len();
    let mut out: Vec<usize> = Vec::with_capacity(m);
    let mut k: usize = 0;
    assert(out@ =~= values_of(without_repeats(sorted@.take(0))));
    while k < m
        invariant
            k <= m == sorted@.len(),
            out@ == values_of(without_repeats(sorted@.take(k as int))),
        decreases m - k,
    {
        let repeated: bool = k > 0 && sorted[k].0 == sorted[k - 1].0 && sorted[k].1 == sorted[k
            - 1].1;
        proof {
            let t = sorted@.take(k + 1);
            assert(t.drop_last() =~= sorted@.take(k as int));
            if k == 0 {
                assert(without_repeats(t) =~= without_repeats(t.drop_last()).push(t.last()));
            }
        }
        if !repeated {
            out.push(sorted[k].1);
        }
        k = k + 1;
        assert(out@ =~= values_of(without_repeats(sorted@.take(k as int))));
    }
    assert(sorted@.take(m as int) =~= sorted@);
    out
}

/// Inserting keeps the order by keys.
proof fn lemma_insert_sorted(s: Seq<(usize, usize)>, x: (usize, usize))
    requires
        forall|i: int, j: int| 0 <= i <= j < s.len() ==> (#[trigger] s[i]).0 <= (#[trigger] s[j]).0,
    ensures
        ({
            let r = insert_by_key(s, x);
            &&& forall|i: int, j: int|
                0 <= i <= j < r.len() ==> (#[trigger] r[i]).0 <= (#[trigger] r[j]).0
            &&& r.len() == s.len() + 1
            &&& forall|i: int| 0 <= i < r.len() ==> (#[trigger] r[i]) == x || s.contains(r[i])
        }),
    decreases s.len(),
{
    let r = insert_by_key(s, x);
    if s.len() > 0 && s.last().0 > x.0 {
        let t = s.drop_last();
        assert forall|i: int, j: int| 0 <= i <= j < t.len() implies (#[trigger] t[i]).0 <= (
        #[trigger] t[j]).0 by {
            assert(s[i].0 <= s[j].0);
        }
        lemma_insert_sorted(t, x);
        let u = insert_by_key(t, x);
        assert forall|i: int| 0 <= i < r.len() implies (#[trigger] r[i]) == x || s.contains(
            r[i],
        ) by {
            if i < u.len() && u[i] != x {
                assert(t.contains(u[i]));
                let k = choose|k: int| 0 <= k < t.len() && t[k] == u[i];
                assert(s[k] == u[i]);
            } else if i == u.len() {
                assert(s[s.len() - 1] == r[i]);
            }
        }
        assert forall|i: int, j: int| 0 <= i <= j < r.len() implies (#[trigger] r[i]).0 <= (
        #[trigger] r[j]).0 by {
            if j == u.len() && i < u.len() {
                if u[i] != x {
                    assert(t.contains(u[i]));
                    let k = choose|k: int| 0 <= k < t.len() && t[k] == u[i];
                    assert(s[k].0 <= s[s.len() - 1].0);
                }
            }
        }
    } else {
        assert forall|i: int| 0 <= i < r.len() implies (#[trigger] r[i]) == x || s.contains(
            r[i],
        ) by {
            if i < s.len() {
                assert(s[i] == r[i]);
            }
        }
        assert forall|i: int, j: int| 0 <= i <= j < r.len() implies (#[trigger] r[i]).0 <= (
        #[trigger] r[j]).0 by {
            if j == s.len() && i < s.len() {
                assert(s[i].0 <= s[s.len() - 1].0);
            }
        }
    }
}

/// The sorted entries are in the order of their keys.
pub proof fn lemma_sorted_by_key(s: Seq<(usize, usize)>)
    ensures
        forall|i: int, j: int|
            0 <= i <= j < sorted_by_key(s).len() ==> (#[trigger] sorted_by_key(s)[i]).0 <= (
            #[trigger] sorted_by_key(s)[j]).0,
        sorted_by_key(s).len() == s.len(),
    decreases s.len(),
{
    if s.len() > 0 {
        lemma_sorted_by_key(s.drop_last());
        lemma_insert_sorted(sorted_by_key(s.drop_last()), s.last());
    }
}

/// Inserting adds the entry and nothing else.
proof fn lemma_insert_multiset(s: Seq<(usize, usize)>, x: (usize, usize))
    ensures
        insert_by_key(s, x).to_multiset() == s.to_multiset().insert(x),
    decreases s.len(),
{
    broadcast use vstd::seq_lib::group_to_multiset_ensures;

    if s.len() > 0 && s.last().0 > x.0 {
        let t = s.drop_last();
        lemma_insert_multiset(t, x);
        assert(t.push(s.last()) =~= s);
        let u = insert_by_key(t, x);
        assert(u.push(s.last()).to_multiset() == u.to_multiset().insert(s.last()));
        assert(t.push(s.last()).to_multiset() == t.to_multiset().insert(s.last()));
        assert(u.to_multiset().insert(s.last()) =~= s.to_multiset().insert(x));
    }
}

/// The sorted entries are the entries.
pub proof fn lemma_sorted_multiset(s: Seq<(usize, usize)>)
    ensures
        sorted_by_key(s).to_multiset() == s.to_multiset(),
    decreases s.len(),
{
    broadcast use vstd::seq_lib::group_to_multiset_ensures;

    if s.len() > 0 {
        lemma_sorted_multiset(s.drop_last());
        lemma_insert_multiset(sorted_by_key(s.drop_last()), s.last());
        assert(s.drop_last().push(s.last()) =~= s);
    }
}

} // verus!
