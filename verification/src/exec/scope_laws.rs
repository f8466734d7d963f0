//! What the scope of a query is for: which table a name means, what a named result, a derived
//! table or a view gives, how joins take their tables, and what a subquery sees of the row around
//! it.
#[allow(unused_imports)]
use vstd::prelude::*;

#[allow(unused_imports)]
use crate::catalog::TableDefV;
#[allow(unused_imports)]
use crate::error::ErrorV;
#[allow(unused_imports)]
use crate::exec::check::{valid_columns, without_aggregates};
#[allow(unused_imports)]
use crate::exec::joins::{conditions, conditions_on, joined, only_qualifier};
#[allow(unused_imports)]
use crate::exec::ops::{branch, EnvV};
#[allow(unused_imports)]
use crate::exec::output::SelectOutV;
#[allow(unused_imports)]
use crate::exec::plan::{access, reached, AccessV};
#[allow(unused_imports)]
use crate::exec::rows::distinct_rows;
#[allow(unused_imports)]
use crate::exec::schema::{pushed, resolved, row_width, table_named, SchemaV};
#[allow(unused_imports)]
use crate::exec::select::{
    absent, all_joined, answered, core_of, derived_entries, first_rows, flat_select, found, has_derived, looked_up, named,
    queried, reads_from, recursive_rows, scanned, scope_with, select_output, tables_of, view_rows, Finder, FoundV, PassV, Runner,
    ScopeV,
};
#[allow(unused_imports)]
use crate::exec::source::{entry_named, CteEntryV, DataSource};
#[allow(unused_imports)]
use crate::exec::subquery::{
    all_with_outer, any_refers, item_exprs, join_ons, opt_seq, refers, select_parts, select_refers, select_with_outer, with_items,
    with_outer,
};
#[allow(unused_imports)]
use crate::record::ValueV;
#[allow(unused_imports)]
use crate::sql::ast::{CteV, ExprV, JoinKind, SelectItemV, SelectStmtV, StmtV, TableRefV};
#[allow(unused_imports)]
use crate::sql::grammar::parsed;
#[allow(unused_imports)]
use crate::sql::walk::qualifier_of;

verus! {

// --- what a name means ---

/// A name that is no named result means the table of the store; where there is none it means the
/// view of that name, if views may be read at all.
pub proof fn names_mean_tables_then_views<S: DataSource>(src: S, env: EnvV, sc: ScopeV, name: Seq<char>, def: TableDefV, sql: Seq<char>, f: FoundV, e: ErrorV)
    requires
        entry_named(sc.ctes, name, 0) is None,
    ensures
        src.find_table(name) == Ok::<Option<TableDefV>, ErrorV>(Some(def)) ==> found(src, env, sc, name) == Ok::<Option<FoundV>, ErrorV>(Some(FoundV { def, rows: None })),
        src.find_table(name) == Err::<Option<TableDefV>, ErrorV>(e) ==> found(src, env, sc, name) == Err::<Option<FoundV>, ErrorV>(e),
        src.find_table(name) == Ok::<Option<TableDefV>, ErrorV>(None) && !sc.views ==> found(src, env, sc, name) == Ok::<Option<FoundV>, ErrorV>(None),
        src.find_table(name) == Ok::<Option<TableDefV>, ErrorV>(None) && sc.views && src.view_text(name) == Ok::<Option<Seq<char>>, ErrorV>(None) ==> found(src, env, sc, name) == Ok::<Option<FoundV>, ErrorV>(None),
        src.find_table(name) == Ok::<Option<TableDefV>, ErrorV>(None) && sc.views && src.view_text(name) == Ok::<Option<Seq<char>>, ErrorV>(Some(sql)) && view_rows(src, env, sc, name, sql) == Ok::<FoundV, ErrorV>(f) ==> found(src, env, sc, name) == Ok::<Option<FoundV>, ErrorV>(Some(f)),
{
}

/// A table that is not found is an error of the query.
pub proof fn unknown_tables_are_errors(find: Finder, n: int, t: TableRefV, f: FoundV)
    ensures
        find(n, t.name) == Ok::<Option<FoundV>, ErrorV>(None) ==> looked_up(find, n, t) is Err,
        find(n, t.name) == Ok::<Option<FoundV>, ErrorV>(Some(f)) ==> looked_up(find, n, t) == Ok::<FoundV, ErrorV>(f),
{
}

/// A view has the columns and the rows of its SELECT, which sees neither the named results nor the
/// parameters of the query around it. A view that is being read already is an error.
pub proof fn views_give_what_their_select_gives<S: DataSource>(src: S, env: EnvV, sc: ScopeV, name: Seq<char>, sql: Seq<char>, q: SelectStmtV, out: SelectOutV)
    requires
        parsed(sql, env.reals) == Ok::<StmtV, ErrorV>(StmtV::Select(q)),
        sc.depth < usize::MAX,
    ensures
        sc.resolving.contains(name) ==> view_rows(src, env, sc, name, sql) is Err,
        !sc.resolving.contains(name) && queried(src, env, ScopeV { ctes: Seq::empty(), views: true, resolving: sc.resolving.push(name), depth: sc.depth + 1 }, q, Seq::empty()) == Ok::<SelectOutV, ErrorV>(out) ==> {
            let v = view_rows(src, env, sc, name, sql);
            &&& v is Ok
            &&& v->Ok_0.rows == Some(out.rows)
            &&& v->Ok_0.def.name == name
            &&& v->Ok_0.def.columns.len() == out.columns.len()
            &&& forall|c: int| 0 <= c < out.columns.len() ==> (#[trigger] v->Ok_0.def.columns[c]).name == out.columns[c]
        },
{
}

// --- named results and derived tables ---

/// A SELECT with one common table expression runs the expression first, and then the rest of the
/// statement, in which its name means that result before anything else.
pub proof fn common_tables_are_run_first<S: DataSource>(src: S, env: EnvV, run: Runner, find: Finder, ctes: Seq<CteEntryV>, stmt: SelectStmtV, params: Seq<ValueV>, cte: CteV, out: SelectOutV, e: ErrorV)
    requires
        stmt.with == seq![cte],
        !reads_from(cte.query, cte.name),
    ensures
        run(branch(branch(env, 5), 0), ctes, cte.query) == Err::<SelectOutV, ErrorV>(e) ==> select_output(src, env, run, find, ctes, stmt, params) == Err::<SelectOutV, ErrorV>(e),
        run(branch(branch(env, 5), 0), ctes, cte.query) == Ok::<SelectOutV, ErrorV>(out) ==> select_output(src, env, run, find, ctes, stmt, params) == run(env, seq![named(cte.name, out)] + ctes, SelectStmtV { with: Seq::empty(), ..stmt }),
        named(cte.name, out).name == cte.name,
        named(cte.name, out).rows == out.rows,
{
    reveal_with_fuel(scope_with, 2);
    assert(ctes.insert(0, named(cte.name, out)) =~= seq![named(cte.name, out)] + ctes);
}

/// Of several common table expressions each sees those before it.
pub proof fn common_tables_see_those_before(env: EnvV, run: Runner, with: Seq<CteV>, ctes: Seq<CteEntryV>, i: int, out: SelectOutV)
    requires
        0 <= i < with.len(),
        i <= ctes.len(),
        !reads_from(with[i].query, with[i].name),
        run(branch(env, i), ctes, with[i].query) == Ok::<SelectOutV, ErrorV>(out),
    ensures
        scope_with(env, run, with, ctes, i) == scope_with(env, run, with, ctes.insert(i, named(with[i].name, out)), i + 1),
        scope_with(env, run, with, ctes, with.len() as int) == Ok::<Seq<CteEntryV>, ErrorV>(ctes),
        ctes.insert(i, named(with[i].name, out))[i].rows == out.rows,
        forall|m: int| 0 <= m < i ==> ctes.insert(i, named(with[i].name, out))[m] == #[trigger] ctes[m],
{
}

/// A common table expression that reads from itself is built up from its seed: the rows of the
/// first SELECT alone stand where the term adds nothing to them.
pub proof fn recursion_starts_with_the_seed(env: EnvV, run: Runner, ctes: Seq<CteEntryV>, at: int, cte: CteV, seed: SelectOutV, step: SelectOutV)
    requires
        cte.query.compound.len() == 1,
        run(branch(env, 0), ctes, core_of(cte.query)) == Ok::<SelectOutV, ErrorV>(seed),
        run(branch(branch(env, 1), seed.rows.len() as int), ctes.insert(at, named(cte.name, seed)), cte.query.compound[0].select) == Ok::<SelectOutV, ErrorV>(step),
    ensures
        step.columns.len() == seed.columns.len() && step.rows.len() == 0 ==> recursive_rows(env, run, ctes, at, cte) == Ok::<SelectOutV, ErrorV>(seed),
        step.columns.len() != seed.columns.len() ==> recursive_rows(env, run, ctes, at, cte) is Err,
{
    assert(distinct_rows(Seq::empty()) =~= Seq::<Seq<ValueV>>::empty());
    if step.rows.len() == 0 {
        assert(step.rows =~= Seq::empty());
        assert(absent(Seq::empty(), seed.rows) =~= Seq::<Seq<ValueV>>::empty());
    }
}

/// A derived table is run first, and its alias means its result in the rest of the statement.
pub proof fn derived_tables_are_run_first<S: DataSource>(src: S, env: EnvV, run: Runner, find: Finder, ctes: Seq<CteEntryV>, stmt: SelectStmtV, params: Seq<ValueV>, t: TableRefV, q: SelectStmtV, out: SelectOutV)
    requires
        stmt.with.len() == 0,
        stmt.joins.len() == 0,
        stmt.from == Some(t),
        t.subquery == Some(Box::new(q)),
        run(branch(branch(env, 6), 0), ctes, q) == Ok::<SelectOutV, ErrorV>(out),
    ensures
        select_output(src, env, run, find, ctes, stmt, params) == run(env, seq![named(qualifier_of(t), out)] + ctes, SelectStmtV { from: Some(TableRefV { name: qualifier_of(t), alias: t.alias, subquery: None }), ..stmt }),
{
    assert(tables_of(stmt) =~= seq![t]);
    assert(tables_of(stmt)[0].subquery is Some);
    assert(has_derived(stmt));
    reveal_with_fuel(derived_entries, 2);
    assert(seq![named(qualifier_of(t), out)] + Seq::<CteEntryV>::empty() =~= seq![named(qualifier_of(t), out)]);
    assert(flat_select(stmt).joins =~= stmt.joins);
}

// --- joins ---

proof fn lemma_conditions_on(cs: Seq<ExprV>, q: Seq<char>, i: int)
    requires
        0 <= i < conditions_on(cs, q).len(),
    ensures
        cs.contains(conditions_on(cs, q)[i]),
        only_qualifier(conditions_on(cs, q)[i]) == Some(q),
    decreases cs.len(),
{
    let rest = cs.drop_first();
    if only_qualifier(cs[0]) == Some(q) {
        if i > 0 {
            lemma_conditions_on(rest, q, i - 1);
            let m = choose|m: int| 0 <= m < rest.len() && rest[m] == conditions_on(rest, q)[i - 1];
            assert(cs[m + 1] == rest[m]);
        }
    } else {
        lemma_conditions_on(rest, q, i);
        let m = choose|m: int| 0 <= m < rest.len() && rest[m] == conditions_on(rest, q)[i];
        assert(cs[m + 1] == rest[m]);
    }
}

/// The conditions that are tried on the rows of one table before it is joined are conditions that
/// must hold for the whole condition to hold, and speak of that table alone.
pub proof fn own_conditions_are_of_the_table(w: Option<ExprV>, q: Seq<char>, i: int)
    requires
        0 <= i < conditions_on(conditions(w), q).len(),
    ensures
        conditions(w).contains(conditions_on(conditions(w), q)[i]),
        only_qualifier(conditions_on(conditions(w), q)[i]) == Some(q),
{
    lemma_conditions_on(conditions(w), q, i);
}

/// A left join pairs with all rows of its table. An inner join may leave out those that the
/// table's own conditions exclude; where there are none it too takes all.
pub proof fn joins_take_the_rows_of_their_table<S: DataSource>(src: S, env: EnvV, find: Finder, stmt: SelectStmtV, s: SchemaV, rows: Seq<Seq<ValueV>>, params: Seq<ValueV>, i: int, f: FoundV, right: Seq<Seq<ValueV>>, s2: SchemaV, both: Seq<Seq<ValueV>>)
    requires
        0 <= i < stmt.joins.len(),
        ({
            let j = stmt.joins[i];
            let q = qualifier_of(j.table);
            &&& find(i + 1, j.table.name) == Ok::<Option<FoundV>, ErrorV>(Some(f))
            &&& scanned(src, f) == Ok::<Seq<Seq<ValueV>>, ErrorV>(right)
            &&& j.kind == JoinKind::Left || conditions_on(conditions(stmt.where_clause), q).len() == 0
            &&& pushed(s, q, f.def) == Ok::<SchemaV, ErrorV>(s2)
            &&& without_aggregates(j.on, "ON"@) is Ok
            &&& valid_columns(j.on, s2) is Ok
            &&& joined(branch(branch(env, 12), i), rows, right, j.kind, j.on, s2, f.def.columns.len(), params, 0) == Ok::<Seq<Seq<ValueV>>, ErrorV>(both)
        }),
    ensures
        all_joined(src, env, find, stmt, s, rows, params, i) == all_joined(src, env, find, stmt, s2, both, params, i + 1),
        all_joined(src, env, find, stmt, s, rows, params, stmt.joins.len() as int) == Ok::<(SchemaV, Seq<Seq<ValueV>>), ErrorV>((s, rows)),
        f.rows is Some ==> right == f.rows->0,
        f.rows is None ==> src.all_rows(f.def) == Ok::<Seq<Seq<ValueV>>, ErrorV>(right),
{
}

/// A joined table stands after those before it: its columns come after theirs in the row.
pub proof fn joined_tables_stand_after(s: SchemaV, q: Seq<char>, def: TableDefV)
    requires
        pushed(s, q, def) is Ok,
    ensures
        ({
            let s2 = pushed(s, q, def)->Ok_0;
            &&& s2.tables.len() == s.tables.len() + 1
            &&& forall|i: int| 0 <= i < s.tables.len() ==> #[trigger] s2.tables[i] == s.tables[i] && s.tables[i].qualifier != q
            &&& s2.tables.last().qualifier == q
            &&& s2.tables.last().def == def
            &&& s2.tables.last().offset == row_width(s.tables)
            &&& s2.ranks == s.ranks
        }),
{
    assert forall|i: int| 0 <= i < s.tables.len() implies s.tables[i].qualifier != q by {
        lemma_not_named(s, q, 0, i);
    }
}

proof fn lemma_not_named(s: SchemaV, q: Seq<char>, from: int, i: int)
    requires
        0 <= from <= i < s.tables.len(),
        table_named(s.tables, q, from) is None,
    ensures
        s.tables[i].qualifier != q,
    decreases i - from,
{
    if from < i {
        lemma_not_named(s, q, from + 1, i);
    }
}

/// Without joins the rows of a stored table are those that the chosen access reaches, and the rows
/// of a named result are all of them.
pub proof fn first_tables_are_read<S: DataSource>(src: S, env: EnvV, f: FoundV, q: Seq<char>, stmt: SelectStmtV, params: Seq<ValueV>, a: AccessV)
    requires
        stmt.joins.len() == 0,
    ensures
        f.rows is Some ==> first_rows(src, env, f, q, stmt, params) == Ok::<Seq<Seq<ValueV>>, ErrorV>(f.rows->0),
        f.rows is None && access(env, q, f.def, stmt, params) == Ok::<AccessV, ErrorV>(a) ==> first_rows(src, env, f, q, stmt, params) == reached(src, f.def, a),
{
}

// --- subqueries and the row around them ---

/// A qualified column of an outer table is replaced by its value in the outer row; any other column
/// stays.
pub proof fn outer_columns_have_their_values(q: Seq<char>, name: Seq<char>, s: SchemaV, row: Seq<ValueV>, i: int, v: ValueV)
    ensures
        resolved(s, Some(q), name) == Ok::<int, ErrorV>(i) ==> with_outer(ExprV::Column { table: Some(q), name }, s, row) == ExprV::Literal(row[i]),
        resolved(s, Some(q), name) is Err ==> with_outer(ExprV::Column { table: Some(q), name }, s, row) == (ExprV::Column { table: Some(q), name }),
        with_outer(ExprV::Column { table: None, name }, s, row) == (ExprV::Column { table: None, name }),
        with_outer(ExprV::Literal(v), s, row) == ExprV::Literal(v),
{
}

proof fn lemma_all_outer(es: Seq<ExprV>, s: SchemaV, row: Seq<ValueV>)
    ensures
        all_with_outer(es, s, row).len() == es.len(),
        forall|i: int| 0 <= i < es.len() ==> #[trigger] all_with_outer(es, s, row)[i] == with_outer(es[i], s, row),
    decreases es.len(),
{
    if es.len() > 0 {
        let rest = es.drop_first();
        lemma_all_outer(rest, s, row);
        assert forall|i: int| 0 <= i < es.len() implies #[trigger] all_with_outer(es, s, row)[i] == with_outer(es[i], s, row) by {
            if i > 0 {
                assert(all_with_outer(es, s, row)[i] == all_with_outer(rest, s, row)[i - 1]);
                assert(rest[i - 1] == es[i]);
            }
        }
    }
}

proof fn lemma_items(items: Seq<SelectItemV>, ps: Seq<ExprV>)
    requires
        forall|j: int| 0 <= j < items.len() ==> (#[trigger] items[j]) is Expr,
        ps.len() == items.len(),
    ensures
        item_exprs(items).len() == items.len(),
        with_items(items, ps).len() == items.len(),
        forall|j: int| 0 <= j < items.len() ==> item_exprs(items)[j] == (#[trigger] items[j])->expr,
        forall|j: int| 0 <= j < items.len() ==> (#[trigger] with_items(items, ps)[j]) == (SelectItemV::Expr { expr: ps[j], alias: items[j]->alias }),
    decreases items.len(),
{
    if items.len() > 0 {
        let rest = items.drop_first();
        let qs = ps.drop_first();
        assert forall|j: int| 0 <= j < rest.len() implies (#[trigger] rest[j]) is Expr by {
            assert(rest[j] == items[j + 1]);
        }
        lemma_items(rest, qs);
        assert forall|j: int| 0 <= j < items.len() implies item_exprs(items)[j] == (#[trigger] items[j])->expr by {
            if j > 0 {
                assert(item_exprs(items)[j] == item_exprs(rest)[j - 1]);
                assert(rest[j - 1] == items[j]);
            }
        }
        assert forall|j: int| 0 <= j < items.len() implies (#[trigger] with_items(items, ps)[j]) == (SelectItemV::Expr { expr: ps[j], alias: items[j]->alias }) by {
            if j > 0 {
                assert(with_items(items, ps)[j] == with_items(rest, qs)[j - 1]);
                assert(rest[j - 1] == items[j]);
                assert(qs[j - 1] == ps[j]);
            }
        }
    }
}

/// A subquery sees the values of the outer row in its condition, in HAVING, in its items, in the
/// conditions of its joins and in its groups; its tables, its order and its bounds stay.
pub proof fn subqueries_see_the_outer_row(q: SelectStmtV, s: SchemaV, row: Seq<ValueV>)
    requires
        forall|j: int| 0 <= j < q.projection.len() ==> (#[trigger] q.projection[j]) is Expr,
    ensures
        ({
            let r = select_with_outer(q, s, row);
            &&& q.where_clause is Some ==> r.where_clause == Some(with_outer(q.where_clause->0, s, row))
            &&& q.where_clause is None ==> r.where_clause is None
            &&& q.having is Some ==> r.having == Some(with_outer(q.having->0, s, row))
            &&& q.having is None ==> r.having is None
            &&& r.projection.len() == q.projection.len()
            &&& forall|j: int| 0 <= j < q.projection.len() ==> #[trigger] r.projection[j] == (SelectItemV::Expr { expr: with_outer(q.projection[j]->expr, s, row), alias: q.projection[j]->alias })
            &&& r.joins.len() == q.joins.len()
            &&& forall|j: int| 0 <= j < q.joins.len() ==> (#[trigger] r.joins[j]).on == with_outer(q.joins[j].on, s, row) && r.joins[j].kind == q.joins[j].kind && r.joins[j].table == q.joins[j].table
            &&& r.group_by.len() == q.group_by.len()
            &&& forall|j: int| 0 <= j < q.group_by.len() ==> #[trigger] r.group_by[j] == with_outer(q.group_by[j], s, row)
            &&& r.from == q.from
            &&& r.order_by == q.order_by
            &&& r.limit == q.limit
            &&& r.offset == q.offset
            &&& r.distinct == q.distinct
        }),
{
    let parts = select_parts(q);
    let ps = all_with_outer(parts, s, row);
    lemma_all_outer(parts, s, row);
    let a = opt_seq(q.where_clause).len() as int;
    let b = a + opt_seq(q.having).len();
    let n = b + q.projection.len();
    let m = n + q.joins.len();
    let none = Seq::new(q.projection.len(), |j: int| q.projection[j]->expr);
    lemma_items(q.projection, none);
    assert(item_exprs(q.projection).len() == q.projection.len());
    let mine = ps.subrange(b, n);
    lemma_items(q.projection, mine);
    assert forall|j: int| 0 <= j < q.projection.len() implies #[trigger] mine[j] == with_outer(q.projection[j]->expr, s, row) by {
        assert(mine[j] == ps[b + j]);
        assert(parts[b + j] == item_exprs(q.projection)[j]);
        assert(q.projection[j] is Expr);
    }
    let ons = ps.subrange(n, m);
    assert forall|j: int| 0 <= j < q.joins.len() implies #[trigger] ons[j] == with_outer(q.joins[j].on, s, row) by {
        assert(ons[j] == ps[n + j]);
        assert(parts[n + j] == join_ons(q.joins)[j]);
    }
    let groups = ps.skip(m);
    assert forall|j: int| 0 <= j < q.group_by.len() implies #[trigger] groups[j] == with_outer(q.group_by[j], s, row) by {
        assert(groups[j] == ps[m + j]);
        assert(parts[m + j] == q.group_by[j]);
    }
    if q.where_clause is Some {
        assert(parts[0] == q.where_clause->0);
    }
    if q.having is Some {
        assert(parts[a] == q.having->0);
    }
    let r = select_with_outer(q, s, row);
    assert(r.projection == with_items(q.projection, mine));
}

proof fn lemma_any_refers(es: Seq<ExprV>, quals: Seq<Seq<char>>, i: int)
    requires
        0 <= i < es.len(),
        refers(es[i], quals),
    ensures
        any_refers(es, quals),
    decreases es.len(),
{
    if i > 0 {
        let rest = es.drop_first();
        assert(rest[i - 1] == es[i]);
        lemma_any_refers(rest, quals, i - 1);
    }
}

/// A subquery that names a column of the tables around it is not answered once for all rows: it is
/// left for each of them.
pub proof fn correlated_subqueries_wait_for_a_row(env: EnvV, run: Runner, ctes: Seq<CteEntryV>, quals: Seq<Seq<char>>, q: SelectStmtV, i: int, t: Seq<char>, name: Seq<char>)
    requires
        0 <= i < select_parts(q).len(),
        refers(select_parts(q)[i], quals),
    ensures
        answered(env, run, ctes, PassV::Once(quals), ExprV::ScalarSubquery(Box::new(q))) == Ok::<ExprV, ErrorV>(ExprV::ScalarSubquery(Box::new(q))),
        answered(env, run, ctes, PassV::Once(quals), ExprV::Exists(Box::new(q))) == Ok::<ExprV, ErrorV>(ExprV::Exists(Box::new(q))),
        quals.contains(t) ==> refers(ExprV::Column { table: Some(t), name }, quals),
{
    lemma_any_refers(select_parts(q), quals, i);
    assert(select_refers(q, quals));
}

} // verus!
