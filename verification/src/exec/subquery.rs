//! Subqueries as syntax: the expressions of a SELECT, what a subquery refers to outside
//! of it, and a subquery with the values of an outer row in it.
use vstd::prelude::*;

#[allow(unused_imports)]
use crate::catalog::strings_v;
use crate::exec::schema::QuerySchema;
#[allow(unused_imports)]
use crate::exec::schema::{resolved, row_width, SchemaV};
use crate::record::{Value, ValueV};
#[allow(unused_imports)]
use crate::record::row_view;
use crate::sql::ast::{clone_compound_selects, clone_ctes, clone_expr, clone_order_bys, clone_table_ref, CompoundSelect, CompoundSelectV, Expr, ExprV, Join, JoinV, SelectItem, SelectItemV, SelectStmt, SelectStmtV};
#[allow(unused_imports)]
use crate::sql::ast::{compound_selects_v, expr_v, exprs_v, joins_v, order_bys_v, select_items_v};
use crate::sql::walk::{expr_has_subquery, parts_of, rebuild};
#[allow(unused_imports)]
use crate::sql::walk::{compounds_size, expr_size, exprs_size, items_size, joins_size, key_exprs, keys_size, lemma_exprs_size_append, lemma_exprs_size_elem, lemma_parts_size, mentions_subquery, parts, qualifier_of, refs_v, select_size, with_parts};
use crate::text::str_eq;

verus! {

// --- the expressions of a SELECT ---

pub open spec fn opt_seq(o: Option<ExprV>) -> Seq<ExprV> {
    match o {
        Some(e) => seq![e],
        None => Seq::empty(),
    }
}

/// The expressions of a projection.
pub open spec fn item_exprs(items: Seq<SelectItemV>) -> Seq<ExprV>
    decreases items.len(),
{
    if items.len() == 0 {
        Seq::empty()
    } else {
        match items[0] {
            SelectItemV::Star => item_exprs(items.drop_first()),
            SelectItemV::Expr { expr, alias: _ } => seq![expr] + item_exprs(items.drop_first()),
        }
    }
}

/// A projection with other expressions in it.
pub open spec fn with_items(items: Seq<SelectItemV>, ps: Seq<ExprV>) -> Seq<SelectItemV>
    decreases items.len(),
{
    if items.len() == 0 {
        Seq::empty()
    } else {
        match items[0] {
            SelectItemV::Star => seq![SelectItemV::Star] + with_items(items.drop_first(), ps),
            SelectItemV::Expr { expr: _, alias } => seq![SelectItemV::Expr { expr: ps[0], alias }] + with_items(items.drop_first(), ps.drop_first()),
        }
    }
}

/// The conditions of joins.
pub open spec fn join_ons(joins: Seq<JoinV>) -> Seq<ExprV> {
    Seq::new(joins.len(), |i: int| joins[i].on)
}

/// Joins with other conditions.
pub open spec fn with_ons(joins: Seq<JoinV>, ps: Seq<ExprV>) -> Seq<JoinV> {
    Seq::new(joins.len(), |i: int| JoinV { kind: joins[i].kind, table: joins[i].table, on: ps[i] })
}

/// The expressions of a SELECT in which subqueries count: the condition, `HAVING`, the
/// projection, the conditions of the joins, and the groups.
pub open spec fn select_parts(s: SelectStmtV) -> Seq<ExprV> {
    opt_seq(s.where_clause) + opt_seq(s.having) + item_exprs(s.projection) + join_ons(s.joins) + s.group_by
}

/// A SELECT with other expressions in the place of its own.
pub open spec fn with_select_parts(s: SelectStmtV, ps: Seq<ExprV>) -> SelectStmtV {
    let a = opt_seq(s.where_clause).len() as int;
    let b = a + opt_seq(s.having).len();
    let n = b + item_exprs(s.projection).len();
    let j = n + s.joins.len();
    SelectStmtV {
        where_clause: if s.where_clause is Some { Some(ps[0]) } else { None },
        having: if s.having is Some { Some(ps[a]) } else { None },
        projection: with_items(s.projection, ps.subrange(b, n)),
        joins: with_ons(s.joins, ps.subrange(n, j)),
        group_by: ps.skip(j),
        ..s
    }
}

proof fn lemma_item_exprs(items: Seq<SelectItemV>)
    ensures
        item_exprs(items).len() <= items.len(),
        exprs_size(item_exprs(items)) == items_size(items),
    decreases items.len(),
{
    if items.len() > 0 {
        lemma_item_exprs(items.drop_first());
        match items[0] {
            SelectItemV::Star => {},
            SelectItemV::Expr { expr, alias: _ } => {
                assert((seq![expr] + item_exprs(items.drop_first())).drop_first() =~= item_exprs(items.drop_first()));
            },
        }
    }
}

proof fn lemma_join_ons(joins: Seq<JoinV>)
    ensures
        exprs_size(join_ons(joins)) <= joins_size(joins),
    decreases joins.len(),
{
    if joins.len() > 0 {
        lemma_join_ons(joins.drop_first());
        assert(join_ons(joins).drop_first() =~= join_ons(joins.drop_first()));
    }
}

proof fn lemma_opt_seq(o: Option<ExprV>)
    ensures
        exprs_size(opt_seq(o)) == (match o {
                Some(e) => expr_size(e),
                None => 0,
        }),
{
    reveal_with_fuel(exprs_size, 2);
    if let Some(e) = o {
        assert(seq![e].drop_first() =~= Seq::empty());
    }
}

pub proof fn lemma_select_parts_size(s: SelectStmtV)
    ensures
        exprs_size(select_parts(s)) + compounds_size(s.compound) < select_size(s),
{
    let a = opt_seq(s.where_clause);
    let b = opt_seq(s.having);
    let c = item_exprs(s.projection);
    let d = join_ons(s.joins);
    lemma_exprs_size_append(a, b);
    lemma_exprs_size_append(a + b, c);
    lemma_exprs_size_append(a + b + c, d);
    lemma_exprs_size_append(a + b + c + d, s.group_by);
    lemma_opt_seq(s.where_clause);
    lemma_opt_seq(s.having);
    lemma_item_exprs(s.projection);
    lemma_join_ons(s.joins);
}

fn push_opt<'a>(out: &mut Vec<&'a Expr>, o: &'a Option<Expr>)
    ensures
        refs_v(final(out)@) == refs_v(old(out)@) + opt_seq(opt_expr_v(*o)),
{
    let ghost before = refs_v(out@);
    match o {
        Some(e) => {
            out.push(e);
            assert(refs_v(out@) =~= before + seq![e@]);
        },
        None => {
            assert(before + Seq::<ExprV>::empty() =~= before);
        },
    }
}

pub open spec fn opt_expr_v(o: Option<Expr>) -> Option<ExprV> {
    match o {
        Some(e) => Some(e@),
        None => None,
    }
}

/// References to the expressions of a SELECT.
pub fn select_parts_of(s: &SelectStmt) -> (r: Vec<&Expr>)
    ensures
        refs_v(r@) == select_parts(s@),
{
    let mut out: Vec<&Expr> = Vec::new();
    assert(refs_v(out@) =~= Seq::empty());
    push_opt(&mut out, &s.where_clause);
    assert(refs_v(out@) =~= opt_seq(s@.where_clause));
    push_opt(&mut out, &s.having);
    let ghost head = opt_seq(s@.where_clause) + opt_seq(s@.having);
    let ghost items = select_items_v(s.projection@);
    let n: usize = s.projection.len();
    assert(items.skip(0) =~= items);
    for i in 0..n
        invariant
            n == s.projection@.len(),
            items == select_items_v(s.projection@),
            refs_v(out@) + item_exprs(items.skip(i as int)) == head + item_exprs(items),
    {
        let ghost before = refs_v(out@);
        assert(items[i as int] == s.projection@[i as int]@);
        assert(items.skip(i as int)[0] == items[i as int]);
        assert(items.skip(i as int).drop_first() =~= items.skip(i + 1));
        match &s.projection[i] {
            SelectItem::Star => {},
            SelectItem::Expr { expr, alias: _ } => {
                out.push(expr);
                assert(refs_v(out@) =~= before.push(expr@));
                assert(refs_v(out@) + item_exprs(items.skip(i + 1)) =~= before + (seq![expr@] + item_exprs(items.skip(i + 1))));
            },
        }
    }
    assert(items.skip(n as int) =~= Seq::empty());
    assert(refs_v(out@) + Seq::<ExprV>::empty() =~= refs_v(out@));
    let ghost head2 = head + item_exprs(items);
    let ghost ons = join_ons(joins_v(s.joins@));
    let m: usize = s.joins.len();
    assert(refs_v(out@) =~= head2 + ons.take(0));
    for i in 0..m
        invariant
            m == s.joins@.len(),
            ons == join_ons(joins_v(s.joins@)),
            refs_v(out@) == head2 + ons.take(i as int),
    {
        let ghost before = refs_v(out@);
        assert(joins_v(s.joins@)[i as int] == s.joins@[i as int]@);
        out.push(&s.joins[i].on);
        assert(refs_v(out@) =~= before.push(ons[i as int]));
        assert(head2 + ons.take(i + 1) =~= before.push(ons[i as int]));
    }
    assert(ons.take(m as int) =~= ons);
    let ghost head3 = head2 + ons;
    let ghost gs = exprs_v(s.group_by@);
    let g: usize = s.group_by.len();
    assert(refs_v(out@) =~= head3 + gs.take(0));
    for i in 0..g
        invariant
            g == s.group_by@.len(),
            gs == exprs_v(s.group_by@),
            refs_v(out@) == head3 + gs.take(i as int),
    {
        let ghost before = refs_v(out@);
        assert(gs[i as int] == s.group_by@[i as int]@);
        out.push(&s.group_by[i]);
        assert(refs_v(out@) =~= before.push(gs[i as int]));
        assert(head3 + gs.take(i + 1) =~= before.push(gs[i as int]));
    }
    assert(gs.take(g as int) =~= gs);
    out
}

#[verifier::spinoff_prover]
#[verifier::rlimit(60)]
fn items_with(items: &Vec<SelectItem>, ps: &Vec<Expr>, lo: usize) -> (r: Vec<SelectItem>)
    requires
        lo + item_exprs(select_items_v(items@)).len() <= ps@.len(),
    ensures
        select_items_v(r@) == with_items(select_items_v(items@), exprs_v(ps@).subrange(lo as int, lo + item_exprs(select_items_v(items@)).len())),
{
    let ghost its = select_items_v(items@);
    let ghost pv = exprs_v(ps@);
    let ghost hi = lo + item_exprs(its).len();
    let ghost want = with_items(its, pv.subrange(lo as int, hi));
    let mut out: Vec<SelectItem> = Vec::new();
    let mut k: usize = lo;
    let n: usize = items.len();
    assert(its.skip(0) =~= its);
    assert(select_items_v(out@) =~= Seq::empty());
    assert(Seq::<SelectItemV>::empty() + want =~= want);
    for i in 0..n
        invariant
            n == items@.len(),
            its == select_items_v(items@),
            pv == exprs_v(ps@),
            pv.len() == ps@.len(),
            hi <= pv.len(),
            lo <= k,
            k + item_exprs(its.skip(i as int)).len() == hi,
            select_items_v(out@) + with_items(its.skip(i as int), pv.subrange(k as int, hi)) == want,
    {
        let ghost before = select_items_v(out@);
        let ghost tail = its.skip(i + 1);
        assert(its[i as int] == items@[i as int]@);
        assert(its.skip(i as int)[0] == its[i as int]);
        assert(its.skip(i as int).drop_first() =~= tail);
        match &items[i] {
            SelectItem::Star => {
                out.push(SelectItem::Star);
                let ghost rest = with_items(tail, pv.subrange(k as int, hi));
                assert(select_items_v(out@) =~= before.push(SelectItemV::Star));
                assert(before + (seq![SelectItemV::Star] + rest) =~= select_items_v(out@) + rest);
            },
            SelectItem::Expr { expr, alias } => {
                assert(ps.len() == ps@.len());
                let a: Option<String> = match alias {
                    Some(a) => Some(a.clone()),
                    None => None,
                };
                let item = SelectItem::Expr { expr: clone_expr(&ps[k]), alias: a };
                let ghost iv = item@;
                out.push(item);
                assert(select_items_v(out@) =~= before.push(iv));
                assert(pv[k as int] == ps@[k as int]@);
                assert(pv.subrange(k as int, hi).drop_first() =~= pv.subrange(k + 1, hi));
                let ghost rest = with_items(tail, pv.subrange(k + 1, hi));
                assert(item_exprs(its.skip(i as int)) =~= seq![expr_v(*expr)] + item_exprs(tail));
                assert(before + (seq![iv] + rest) =~= select_items_v(out@) + rest);
                k = k + 1;
            },
        }
    }
    assert(its.skip(n as int) =~= Seq::empty());
    assert(select_items_v(out@) + Seq::<SelectItemV>::empty() =~= select_items_v(out@));
    out
}

/// A copy of a SELECT with other expressions.
#[verifier::spinoff_prover]
#[verifier::rlimit(40)]
pub fn rebuild_select(s: &SelectStmt, ps: &Vec<Expr>) -> (r: SelectStmt)
    requires
        ps@.len() == select_parts(s@).len(),
    ensures
        r@ == with_select_parts(s@, exprs_v(ps@)),
{
    let ghost sv = s@;
    let ghost pv = exprs_v(ps@);
    assert(pv.len() == ps@.len());
    let mut k: usize = 0;
    let where_clause: Option<Expr> = if s.where_clause.is_some() {
        assert(pv[0] == ps@[0]@);
        k = 1;
        Some(clone_expr(&ps[0]))
    } else {
        None
    };
    let a: usize = k;
    let having: Option<Expr> = if s.having.is_some() {
        assert(pv[a as int] == ps@[a as int]@);
        k = k + 1;
        Some(clone_expr(&ps[a]))
    } else {
        None
    };
    let b: usize = k;
    assert(a == opt_seq(sv.where_clause).len());
    assert(b == a + opt_seq(sv.having).len());
    let projection = items_with(&s.projection, ps, b);
    let j: usize = s.joins.len();
    let g: usize = s.group_by.len();
    assert(pv.len() == b + item_exprs(sv.projection).len() + j + g);
    let n: usize = ps.len() - g - j;
    let mut joins: Vec<Join> = Vec::new();
    for i in 0..j
        invariant
            j == s.joins@.len(),
            pv == exprs_v(ps@),
            pv.len() == ps@.len(),
            n + j <= pv.len(),
            joins@.len() == i,
            forall|q: int| 0 <= q < i ==> (#[trigger] joins@[q])@ == (JoinV { kind: s.joins@[q].kind, table: s.joins@[q].table@, on: pv[n + q] }),
    {
        assert(pv[n + i] == ps@[n + i]@);
        assert(ps.len() == ps@.len());
        joins.push(Join { kind: s.joins[i].kind, table: clone_table_ref(&s.joins[i].table), on: clone_expr(&ps[n + i]) });
    }
    let mut group_by: Vec<Expr> = Vec::new();
    let m: usize = n + j;
    for i in 0..g
        invariant
            g == s.group_by@.len(),
            pv == exprs_v(ps@),
            pv.len() == ps@.len(),
            m + g == pv.len(),
            group_by@.len() == i,
            forall|q: int| 0 <= q < i ==> (#[trigger] group_by@[q])@ == pv[m + q],
    {
        assert(pv[m + i] == ps@[m + i]@);
        assert(ps.len() == ps@.len());
        group_by.push(clone_expr(&ps[m + i]));
    }
    let limit: Option<Expr> = match &s.limit {
        Some(e) => Some(clone_expr(e)),
        None => None,
    };
    let offset: Option<Expr> = match &s.offset {
        Some(e) => Some(clone_expr(e)),
        None => None,
    };
    let from = match &s.from {
        Some(t) => Some(clone_table_ref(t)),
        None => None,
    };
    let r = SelectStmt {
        distinct: s.distinct,
        projection,
        from,
        joins,
        where_clause,
        group_by,
        having,
        order_by: clone_order_bys(&s.order_by),
        limit,
        offset,
        as_of: s.as_of,
        compound: clone_compound_selects(&s.compound),
        with: clone_ctes(&s.with),
    };
    proof {
        let want = with_select_parts(sv, pv);
        assert(r@.joins =~= want.joins) by {
            assert forall|q: int| 0 <= q < j implies r@.joins[q] == want.joins[q] by {
                assert(r@.joins[q] == joins@[q]@);
                assert(sv.joins[q] == s.joins@[q]@);
            }
        }
        assert(r@.group_by =~= want.group_by) by {
            assert forall|q: int| 0 <= q < g implies r@.group_by[q] == want.group_by[q] by {
                assert(r@.group_by[q] == group_by@[q]@);
            }
        }
        assert(r@ =~= want);
    }
    r
}

/// Some expression of the SELECT holds a subquery.
pub open spec fn any_subquery(es: Seq<ExprV>) -> bool {
    exists|i: int| 0 <= i < es.len() && mentions_subquery(#[trigger] es[i])
}

pub fn select_has_subquery(s: &SelectStmt) -> (r: bool)
    ensures
        r == any_subquery(select_parts(s@)),
{
    let ps = select_parts_of(s);
    let n: usize = ps.len();
    let ghost all = select_parts(s@);
    for i in 0..n
        invariant
            n == ps@.len(),
            all == select_parts(s@),
            refs_v(ps@) == all,
            all.len() == n,
            forall|k: int| 0 <= k < i ==> !mentions_subquery(#[trigger] all[k]),
    {
        assert(refs_v(ps@)[i as int] == ps@[i as int]@);
        if expr_has_subquery(ps[i]) {
            assert(mentions_subquery(all[i as int]));
            return true;
        }
    }
    false
}

// --- what a subquery refers to ---

/// The parts of an expression and, of a window, its sort keys.
pub open spec fn searched(e: ExprV) -> Seq<ExprV> {
    match e {
        ExprV::Window { func: _, args: _, partition_by: _, order_by, frame: _ } => parts(e) + key_exprs(order_by),
        _ => parts(e),
    }
}

pub open spec fn subquery_of(e: ExprV) -> Option<SelectStmtV> {
    match e {
        ExprV::ScalarSubquery(q) => Some(*q),
        ExprV::Exists(q) => Some(*q),
        ExprV::InSubquery { expr: _, query, negated: _ } => Some(*query),
        _ => None,
    }
}

proof fn lemma_keys_size(s: Seq<crate::sql::ast::OrderByV>)
    ensures
        exprs_size(key_exprs(s)) == keys_size(s),
    decreases s.len(),
{
    if s.len() > 0 {
        lemma_keys_size(s.drop_first());
        assert(key_exprs(s).drop_first() =~= key_exprs(s.drop_first()));
    }
}

pub proof fn lemma_searched_size(e: ExprV)
    ensures
        exprs_size(searched(e)) + (match subquery_of(e) {
                Some(q) => select_size(q),
                None => 0,
        }) < expr_size(e),
{
    lemma_parts_size(e);
    reveal_with_fuel(exprs_size, 2);
    match e {
        ExprV::Window { func: _, args, partition_by, order_by, frame: _ } => {
            lemma_exprs_size_append(args, partition_by);
            lemma_exprs_size_append(parts(e), key_exprs(order_by));
            lemma_keys_size(order_by);
        },
        ExprV::InSubquery { expr, query: _, negated: _ } => {
            assert(seq![*expr].drop_first() =~= Seq::empty());
        },
        _ => {},
    }
}

/// The expression names a column of a table in `quals`.
pub open spec fn refers(e: ExprV, quals: Seq<Seq<char>>) -> bool
    decreases expr_size(e), 0nat,
{
    proof {
        lemma_searched_size(e);
    }
    (match e {
            ExprV::Column { table: Some(q), name: _ } => quals.contains(q),
            _ => false,
    }) || any_refers(searched(e), quals) || (match subquery_of(e) {
            Some(q) => select_refers(q, quals),
            None => false,
    })
}

pub open spec fn any_refers(es: Seq<ExprV>, quals: Seq<Seq<char>>) -> bool
    decreases exprs_size(es), 1 + es.len(),
{
    es.len() > 0 && (refers(es[0], quals) || any_refers(es.drop_first(), quals))
}

/// The SELECT, or one chained to it, names a column of a table in `quals`.
pub open spec fn select_refers(s: SelectStmtV, quals: Seq<Seq<char>>) -> bool
    decreases select_size(s), 0nat,
{
    proof {
        lemma_select_parts_size(s);
    }
    any_refers(select_parts(s), quals) || any_compound_refers(s.compound, quals)
}

pub open spec fn any_compound_refers(cs: Seq<CompoundSelectV>, quals: Seq<Seq<char>>) -> bool
    decreases compounds_size(cs), 1 + cs.len(),
{
    cs.len() > 0 && (select_refers(cs[0].select, quals) || any_compound_refers(cs.drop_first(), quals))
}

pub fn has_string(v: &Vec<String>, s: &str) -> (r: bool)
    ensures
        r == strings_v(v@).contains(s@),
{
    let n: usize = v.len();
    let ghost vs = strings_v(v@);
    for i in 0..n
        invariant
            n == v@.len(),
            vs == strings_v(v@),
            forall|k: int| 0 <= k < i ==> #[trigger] vs[k] != s@,
    {
        assert(vs[i as int] == v@[i as int]@);
        if str_eq(v[i].as_str(), s) {
            assert(vs[i as int] == s@);
            return true;
        }
    }
    false
}

fn searched_of(e: &Expr) -> (r: Vec<&Expr>)
    ensures
        refs_v(r@) == searched(e@),
{
    let mut out = parts_of(e);
    if let Expr::Window { func: _, args: _, partition_by: _, order_by, frame: _ } = e {
        let n: usize = order_by.len();
        let ghost keys = key_exprs(order_bys_v(order_by@));
        let ghost start = refs_v(out@);
        assert(refs_v(out@) =~= start + keys.take(0));
        for i in 0..n
            invariant
                n == order_by@.len(),
                keys == key_exprs(order_bys_v(order_by@)),
                refs_v(out@) == start + keys.take(i as int),
        {
            let ghost before = refs_v(out@);
            out.push(&order_by[i].expr);
            assert(order_bys_v(order_by@)[i as int] == order_by@[i as int]@);
            assert(refs_v(out@) =~= before.push(keys[i as int]));
            assert(keys.take(i + 1) =~= keys.take(i as int).push(keys[i as int]));
            assert(start + keys.take(i + 1) =~= before.push(keys[i as int]));
        }
        assert(keys.take(n as int) =~= keys);
    }
    out
}

#[verifier::loop_isolation(false)]
pub fn expr_refs_quals(e: &Expr, quals: &Vec<String>) -> (r: bool)
    ensures
        r == refers(e@, strings_v(quals@)),
    decreases expr_size(e@),
{
    let ghost qs = strings_v(quals@);
    proof {
        lemma_searched_size(e@);
    }
    if let Expr::Column { table: Some(q), name: _ } = e {
        if has_string(quals, q.as_str()) {
            return true;
        }
    }
    let ps = searched_of(e);
    let n: usize = ps.len();
    let ghost all = searched(e@);
    assert(all.skip(0) =~= all);
    for i in 0..n
        invariant
            n == ps@.len(),
            refs_v(ps@) == all,
            exprs_size(all) < expr_size(e@),
            any_refers(all, qs) == any_refers(all.skip(i as int), qs),
    {
        proof {
            lemma_exprs_size_elem(all, i as int);
            assert(refs_v(ps@)[i as int] == ps@[i as int]@);
            assert(all.skip(i as int).drop_first() =~= all.skip(i + 1));
            assert(all.skip(i as int)[0] == all[i as int]);
        }
        if expr_refs_quals(ps[i], quals) {
            return true;
        }
    }
    assert(all.skip(n as int) =~= Seq::empty());
    assert(!any_refers(all, qs));
    match e {
        Expr::ScalarSubquery(q) => stmt_refs_quals(q, quals),
        Expr::Exists(q) => stmt_refs_quals(q, quals),
        Expr::InSubquery { expr: _, query, negated: _ } => stmt_refs_quals(query, quals),
        _ => false,
    }
}

#[verifier::loop_isolation(false)]
pub fn stmt_refs_quals(s: &SelectStmt, quals: &Vec<String>) -> (r: bool)
    ensures
        r == select_refers(s@, strings_v(quals@)),
    decreases select_size(s@),
{
    let ghost qs = strings_v(quals@);
    proof {
        lemma_select_parts_size(s@);
    }
    let ps = select_parts_of(s);
    let n: usize = ps.len();
    let ghost all = select_parts(s@);
    assert(all.skip(0) =~= all);
    for i in 0..n
        invariant
            n == ps@.len(),
            refs_v(ps@) == all,
            exprs_size(all) < select_size(s@),
            any_refers(all, qs) == any_refers(all.skip(i as int), qs),
    {
        proof {
            lemma_exprs_size_elem(all, i as int);
            assert(refs_v(ps@)[i as int] == ps@[i as int]@);
            assert(all.skip(i as int).drop_first() =~= all.skip(i + 1));
            assert(all.skip(i as int)[0] == all[i as int]);
        }
        if expr_refs_quals(ps[i], quals) {
            return true;
        }
    }
    assert(all.skip(n as int) =~= Seq::empty());
    assert(!any_refers(all, qs));
    let ghost cs = compound_selects_v(s.compound@);
    let m: usize = s.compound.len();
    assert(cs.skip(0) =~= cs);
    for i in 0..m
        invariant
            m == s.compound@.len(),
            cs == compound_selects_v(s.compound@),
            compounds_size(cs) < select_size(s@),
            any_compound_refers(cs, qs) == any_compound_refers(cs.skip(i as int), qs),
    {
        proof {
            lemma_compounds_size_elem(cs, i as int);
            assert(cs[i as int] == s.compound@[i as int]@);
            assert(cs.skip(i as int).drop_first() =~= cs.skip(i + 1));
            assert(cs.skip(i as int)[0] == cs[i as int]);
        }
        if stmt_refs_quals(&s.compound[i].select, quals) {
            return true;
        }
    }
    assert(cs.skip(m as int) =~= Seq::empty());
    false
}

pub proof fn lemma_compounds_size_elem(s: Seq<CompoundSelectV>, i: int)
    requires
        0 <= i < s.len(),
    ensures
        select_size(s[i].select) < compounds_size(s),
    decreases s.len(),
{
    if i > 0 {
        lemma_compounds_size_elem(s.drop_first(), i - 1);
    }
}

/// The qualifiers of the tables of a SELECT.
pub open spec fn qualifiers(s: SelectStmtV) -> Seq<Seq<char>> {
    (match s.from {
            Some(t) => seq![qualifier_of(t)],
            None => Seq::empty(),
    }) + Seq::new(s.joins.len(), |i: int| qualifier_of(s.joins[i].table))
}

pub fn outer_qualifiers(s: &SelectStmt) -> (r: Vec<String>)
    ensures
        strings_v(r@) == qualifiers(s@),
{
    let mut out: Vec<String> = Vec::new();
    assert(strings_v(out@) =~= Seq::empty());
    match &s.from {
        Some(t) => {
            out.push(t.qualifier().to_owned());
            assert(strings_v(out@) =~= seq![qualifier_of(t@)]);
        },
        None => {},
    }
    let ghost head = strings_v(out@);
    let ghost qs = Seq::new(s@.joins.len(), |i: int| qualifier_of(s@.joins[i].table));
    let n: usize = s.joins.len();
    assert(strings_v(out@) =~= head + qs.take(0));
    for i in 0..n
        invariant
            n == s.joins@.len(),
            qs == Seq::new(s@.joins.len(), |i: int| qualifier_of(s@.joins[i].table)),
            strings_v(out@) == head + qs.take(i as int),
    {
        let ghost before = strings_v(out@);
        assert(s@.joins[i as int] == s.joins@[i as int]@);
        out.push(s.joins[i].table.qualifier().to_owned());
        assert(strings_v(out@) =~= before.push(qs[i as int]));
        assert(head + qs.take(i + 1) =~= before.push(qs[i as int]));
    }
    assert(qs.take(n as int) =~= qs);
    out
}

// --- a subquery with the values of an outer row ---

/// The expression with every qualified column of the outer tables replaced by its value
/// in the outer row.
pub open spec fn with_outer(e: ExprV, s: SchemaV, row: Seq<ValueV>) -> ExprV
    decreases expr_size(e), 0nat,
{
    proof {
        lemma_searched_size(e);
        lemma_parts_size(e);
    }
    match e {
        ExprV::Column { table: Some(q), name } => match resolved(s, Some(q), name) {
            Ok(i) => ExprV::Literal(row[i]),
            Err(_) => e,
        },
        ExprV::ScalarSubquery(q) => ExprV::ScalarSubquery(Box::new(select_with_outer(*q, s, row))),
        ExprV::Exists(q) => ExprV::Exists(Box::new(select_with_outer(*q, s, row))),
        ExprV::InSubquery { expr, query, negated } => ExprV::InSubquery {
            expr: Box::new(with_outer(*expr, s, row)),
            query: Box::new(select_with_outer(*query, s, row)),
            negated,
        },
        _ => with_parts(e, all_with_outer(parts(e), s, row)),
    }
}

pub open spec fn all_with_outer(es: Seq<ExprV>, s: SchemaV, row: Seq<ValueV>) -> Seq<ExprV>
    decreases exprs_size(es), 1 + es.len(),
{
    if es.len() == 0 {
        Seq::empty()
    } else {
        seq![with_outer(es[0], s, row)] + all_with_outer(es.drop_first(), s, row)
    }
}

/// The SELECT, and those chained to it, with the values of the outer row.
pub open spec fn select_with_outer(q: SelectStmtV, s: SchemaV, row: Seq<ValueV>) -> SelectStmtV
    decreases select_size(q), 0nat,
{
    proof {
        lemma_select_parts_size(q);
    }
    SelectStmtV {
        compound: compounds_with_outer(q.compound, s, row),
        ..with_select_parts(q, all_with_outer(select_parts(q), s, row))
    }
}

pub open spec fn compounds_with_outer(cs: Seq<CompoundSelectV>, s: SchemaV, row: Seq<ValueV>) -> Seq<CompoundSelectV>
    decreases compounds_size(cs), 1 + cs.len(),
{
    if cs.len() == 0 {
        Seq::empty()
    } else {
        seq![CompoundSelectV { op: cs[0].op, select: select_with_outer(cs[0].select, s, row) }] + compounds_with_outer(cs.drop_first(), s, row)
    }
}

fn subst_all(ps: &Vec<&Expr>, schema: &QuerySchema, row: &Vec<Value>) -> (r: Vec<Expr>)
    requires
        schema.wf(),
        row@.len() == row_width(schema@.tables),
    ensures
        exprs_v(r@) == all_with_outer(refs_v(ps@), schema@, row_view(row@)),
        r@.len() == ps@.len(),
    decreases exprs_size(refs_v(ps@)), 1nat,
{
    let n: usize = ps.len();
    let ghost all = refs_v(ps@);
    let ghost rv = row_view(row@);
    let ghost whole = all_with_outer(all, schema@, rv);
    let mut out: Vec<Expr> = Vec::new();
    assert(exprs_v(out@) =~= Seq::empty());
    assert(all.skip(0) =~= all);
    assert(Seq::<ExprV>::empty() + whole =~= whole);
    for i in 0..n
        invariant
            n == ps@.len(),
            all == refs_v(ps@),
            rv == row_view(row@),
            schema.wf(),
            row@.len() == row_width(schema@.tables),
            out@.len() == i,
            exprs_v(out@) + all_with_outer(all.skip(i as int), schema@, rv) == whole,
    {
        proof {
            lemma_exprs_size_elem(all, i as int);
            assert(all[i as int] == ps@[i as int]@);
            assert(all.skip(i as int).drop_first() =~= all.skip(i + 1));
            assert(all.skip(i as int)[0] == all[i as int]);
        }
        let ghost before = exprs_v(out@);
        let p = subst_outer_expr(ps[i], schema, row);
        let ghost pv = p@;
        out.push(p);
        assert(exprs_v(out@) =~= before.push(pv));
        assert(before + (seq![pv] + all_with_outer(all.skip(i + 1), schema@, rv)) =~= exprs_v(out@) + all_with_outer(all.skip(i + 1), schema@, rv));
    }
    assert(all.skip(n as int) =~= Seq::empty());
    assert(exprs_v(out@) + Seq::<ExprV>::empty() =~= exprs_v(out@));
    out
}

#[verifier::spinoff_prover]
#[verifier::rlimit(40)]
pub fn subst_outer_expr(e: &Expr, schema: &QuerySchema, row: &Vec<Value>) -> (r: Expr)
    requires
        schema.wf(),
        row@.len() == row_width(schema@.tables),
    ensures
        r@ == with_outer(e@, schema@, row_view(row@)),
    decreases expr_size(e@), 0nat,
{
    proof {
        lemma_searched_size(e@);
        lemma_parts_size(e@);
    }
    match e {
        Expr::Column { table, name } => {
            if table.is_none() {
                let ps: Vec<&Expr> = Vec::new();
                assert(refs_v(ps@) =~= Seq::empty());
                assert(with_outer(e@, schema@, row_view(row@)) == e@);
                return clone_expr(e);
            }
            match schema.resolve(table, name.as_str()) {
                Ok(i) => {
                    let v = row[i].clone();
                    assert(row_view(row@)[i as int] == row@[i as int]@);
                    Expr::Literal(v)
                },
                Err(_) => clone_expr(e),
            }
        },
        Expr::ScalarSubquery(q) => Expr::ScalarSubquery(Box::new(subst_outer_stmt(q, schema, row))),
        Expr::Exists(q) => Expr::Exists(Box::new(subst_outer_stmt(q, schema, row))),
        Expr::InSubquery { expr, query, negated } => {
            assert(seq![*e@->InSubquery_expr].drop_first() =~= Seq::empty());
            Expr::InSubquery {
                expr: Box::new(subst_outer_expr(expr, schema, row)),
                query: Box::new(subst_outer_stmt(query, schema, row)),
                negated: *negated,
            }
        },
        _ => {
            let ps = parts_of(e);
            let out = subst_all(&ps, schema, row);
            rebuild(e, out)
        },
    }
}

#[verifier::spinoff_prover]
#[verifier::rlimit(40)]
pub fn subst_outer_stmt(q: &SelectStmt, schema: &QuerySchema, row: &Vec<Value>) -> (r: SelectStmt)
    requires
        schema.wf(),
        row@.len() == row_width(schema@.tables),
    ensures
        r@ == select_with_outer(q@, schema@, row_view(row@)),
    decreases select_size(q@), 0nat,
{
    proof {
        lemma_select_parts_size(q@);
    }
    let ghost rv = row_view(row@);
    let ps = select_parts_of(q);
    let new_parts = subst_all(&ps, schema, row);
    let mut out = rebuild_select(q, &new_parts);
    let ghost shape = out@;
    let n: usize = q.compound.len();
    let ghost cs = compound_selects_v(q.compound@);
    let ghost whole = compounds_with_outer(cs, schema@, rv);
    let mut compound: Vec<CompoundSelect> = Vec::new();
    assert(compound_selects_v(compound@) =~= Seq::empty());
    assert(cs.skip(0) =~= cs);
    assert(Seq::<CompoundSelectV>::empty() + whole =~= whole);
    for i in 0..n
        invariant
            n == q.compound@.len(),
            cs == compound_selects_v(q.compound@),
            rv == row_view(row@),
            schema.wf(),
            row@.len() == row_width(schema@.tables),
            compounds_size(cs) < select_size(q@),
            compound_selects_v(compound@) + compounds_with_outer(cs.skip(i as int), schema@, rv) == whole,
    {
        proof {
            lemma_compounds_size_elem(cs, i as int);
            assert(cs[i as int] == q.compound@[i as int]@);
            assert(cs.skip(i as int).drop_first() =~= cs.skip(i + 1));
            assert(cs.skip(i as int)[0] == cs[i as int]);
        }
        let ghost before = compound_selects_v(compound@);
        let c = CompoundSelect { op: q.compound[i].op, select: subst_outer_stmt(&q.compound[i].select, schema, row) };
        let ghost cv = c@;
        compound.push(c);
        assert(compound_selects_v(compound@) =~= before.push(cv));
        assert(before + (seq![cv] + compounds_with_outer(cs.skip(i + 1), schema@, rv)) =~= compound_selects_v(compound@) + compounds_with_outer(cs.skip(i + 1), schema@, rv));
    }
    assert(cs.skip(n as int) =~= Seq::empty());
    assert(compound_selects_v(compound@) + Seq::<CompoundSelectV>::empty() =~= compound_selects_v(compound@));
    out.compound = compound;
    assert(out@ =~= (SelectStmtV { compound: whole, ..shape }));
    out
}

} // verus!
