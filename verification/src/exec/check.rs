//! Checks of a statement against its schema, and what its expressions mention.
use vstd::prelude::*;

use crate::error::{sql_err, sql_lit, Error, ErrorV};
#[allow(unused_imports)]
use crate::error::sql_error;
#[allow(unused_imports)]
use crate::exec::schema::{opt_text, resolved, SchemaV};
use crate::exec::schema::QuerySchema;
use crate::record::{Value, ValueV};
use crate::sql::ast::{expr_same, Expr, ExprV, OrderBy, OrderByV, SelectItem, SelectItemV};
#[allow(unused_imports)]
use crate::sql::ast::{exprs_v, select_items_v};
use crate::sql::walk::{deep_parts_of, operands_of, parts_of};
#[allow(unused_imports)]
use crate::sql::walk::{
    deep_parts, expr_size, exprs_size, lemma_deep_parts_size, lemma_exprs_size_elem, lemma_parts_size,
    mentions_aggregate, operands, parts, refs_v,
};
#[allow(unused_imports)]
use crate::catalog::strings_v;
use crate::text::{cat, cat3, str_eq};

verus! {

// --- columns exist ---

/// Every column that an expression mentions exists, whether or not there are rows;
/// the body of a subquery is another scope.
pub open spec fn valid_columns(e: ExprV, s: SchemaV) -> Result<(), ErrorV>
    decreases expr_size(e), 0nat,
{
    match e {
        ExprV::Column { table, name } => match resolved(s, table, name) {
            Ok(_) => Ok(()),
            Err(e) => Err(e),
        },
        _ => {
            proof {
                lemma_deep_parts_size(e);
            }
            all_valid(deep_parts(e), s)
        },
    }
}

pub open spec fn all_valid(es: Seq<ExprV>, s: SchemaV) -> Result<(), ErrorV>
    decreases exprs_size(es), 1 + es.len(),
{
    if es.len() == 0 {
        Ok(())
    } else {
        match valid_columns(es[0], s) {
            Err(e) => Err(e),
            Ok(_) => all_valid(es.drop_first(), s),
        }
    }
}

/// The outcome of a check.
pub open spec fn checked(r: Result<(), Error>, want: Result<(), ErrorV>) -> bool {
    match want {
        Ok(_) => r is Ok,
        Err(e) => r is Err && r->Err_0@ == e,
    }
}

#[verifier::loop_isolation(false)]
pub fn validate_columns(e: &Expr, schema: &QuerySchema) -> (r: Result<(), Error>)
    requires
        schema.wf(),
    ensures
        checked(r, valid_columns(e@, schema@)),
    decreases expr_size(e@),
{
    match e {
        Expr::Column { table, name } => match schema.resolve(table, name.as_str()) {
            Ok(_) => Ok(()),
            Err(e) => Err(e),
        },
        _ => {
            let ps = deep_parts_of(e);
            let n: usize = ps.len();
            let ghost all = deep_parts(e@);
            proof {
                lemma_deep_parts_size(e@);
                assert(all.skip(0) =~= all);
            }
            for i in 0..n
                invariant
                    n == ps@.len(),
                    refs_v(ps@) == all,
                    exprs_size(all) < expr_size(e@),
                    all_valid(all, schema@) == all_valid(all.skip(i as int), schema@),
            {
                proof {
                    lemma_exprs_size_elem(all, i as int);
                    assert(refs_v(ps@)[i as int] == ps@[i as int]@);
                    assert(all.skip(i as int).drop_first() =~= all.skip(i + 1));
                    assert(all.skip(i as int)[0] == all[i as int]);
                }
                match validate_columns(ps[i], schema) {
                    Ok(_) => {},
                    Err(x) => {
                        return Err(x);
                    },
                }
            }
            assert(all.skip(n as int) =~= Seq::empty());
            Ok(())
        },
    }
}

/// A clause that aggregates may not stand in.
pub open spec fn without_aggregates(e: ExprV, clause: Seq<char>) -> Result<(), ErrorV> {
    if mentions_aggregate(e) {
        Err(sql_error("los agregados no se permiten en "@ + clause))
    } else {
        Ok(())
    }
}

pub fn no_aggregates(e: &Expr, clause: &str) -> (r: Result<(), Error>)
    ensures
        checked(r, without_aggregates(e@, clause@)),
{
    if e.has_aggregate() {
        Err(sql_err(cat("los agregados no se permiten en ", clause)))
    } else {
        Ok(())
    }
}

// --- destinations of ORDER BY ---

/// The first of some names.
pub open spec fn name_index(columns: Seq<Seq<char>>, name: Seq<char>, i: int) -> Option<int>
    decreases columns.len() - i,
{
    if i < 0 || i >= columns.len() {
        None
    } else if columns[i] == name {
        Some(i)
    } else {
        name_index(columns, name, i + 1)
    }
}

pub fn find_name(columns: &Vec<String>, name: &str) -> (r: Option<usize>)
    ensures
        (match name_index(strings_v(columns@), name@, 0) {
            Some(i) => r is Some && r->0 == i && 0 <= i < columns@.len(),
            None => r is None,
        }),
{
    let n: usize = columns.len();
    let ghost cs = strings_v(columns@);
    for i in 0..n
        invariant
            n == columns@.len(),
            cs == strings_v(columns@),
            name_index(cs, name@, 0) == name_index(cs, name@, i as int),
    {
        assert(cs[i as int] == columns@[i as int]@);
        if str_eq(columns[i].as_str(), name) {
            return Some(i);
        }
    }
    None
}

/// The output column that a sort key names, by its name or its position.
pub open spec fn output_index(o: OrderByV, columns: Seq<Seq<char>>) -> Result<int, ErrorV> {
    match o.expr {
        ExprV::Column { table: None, name } => match name_index(columns, name, 0) {
            Some(i) => Ok(i),
            None => Err(sql_error("ORDER BY: «"@ + name + "» no está en la proyección"@)),
        },
        ExprV::Literal(ValueV::Integer(n)) if 1 <= n <= columns.len() => Ok(n - 1),
        _ => Err(sql_error("ORDER BY aquí solo admite una columna de salida o su posición"@)),
    }
}

pub fn order_output_index(o: &OrderBy, columns: &Vec<String>) -> (r: Result<usize, Error>)
    ensures
        (match output_index(o@, strings_v(columns@)) {
            Ok(i) => r is Ok && r->Ok_0 == i && 0 <= i < columns@.len(),
            Err(e) => r is Err && r->Err_0@ == e,
        }),
{
    match &o.expr {
        Expr::Column { table: None, name } => match find_name(columns, name.as_str()) {
            Some(i) => Ok(i),
            None => Err(
                sql_err(cat3("ORDER BY: «", name.as_str(), "» no está en la proyección")),
            ),
        },
        Expr::Literal(Value::Integer(n)) if *n >= 1 && *n as u64 <= columns.len() as u64 => Ok(
            *n as usize - 1,
        ),
        _ => Err(sql_lit("ORDER BY aquí solo admite una columna de salida o su posición")),
    }
}

/// The expression with an alias.
pub open spec fn aliased(items: Seq<SelectItemV>, name: Seq<char>, i: int) -> Option<ExprV>
    decreases items.len() - i,
{
    if i < 0 || i >= items.len() {
        None
    } else {
        match items[i] {
            SelectItemV::Expr { expr, alias } => if alias == Some(name) {
                Some(expr)
            } else {
                aliased(items, name, i + 1)
            },
            SelectItemV::Star => aliased(items, name, i + 1),
        }
    }
}

/// The expression on the input row that a sort key stands for.
pub open spec fn key_expr(o: OrderByV, items: Seq<SelectItemV>) -> Result<ExprV, ErrorV> {
    match o.expr {
        ExprV::Literal(ValueV::Integer(n)) if n >= 1 => if n <= items.len() && items[n - 1] is Expr {
            Ok(items[n - 1]->expr)
        } else {
            Err(sql_error("ORDER BY: posición fuera de rango o sobre '*'"@))
        },
        ExprV::Column { table: None, name } => match aliased(items, name, 0) {
            Some(e) => Ok(e),
            None => Ok(o.expr),
        },
        _ => Ok(o.expr),
    }
}

pub fn order_key_expr<'a>(o: &'a OrderBy, items: &'a Vec<SelectItem>) -> (r: Result<&'a Expr, Error>)
    ensures
        (match key_expr(o@, select_items_v(items@)) {
            Ok(e) => r is Ok && r->Ok_0@ == e,
            Err(e) => r is Err && r->Err_0@ == e,
        }),
{
    let ghost its = select_items_v(items@);
    match &o.expr {
        Expr::Literal(Value::Integer(n)) if *n >= 1 => {
            if *n as u64 <= items.len() as u64 {
                let k: usize = *n as usize - 1;
                assert(its[k as int] == items@[k as int]@);
                if let SelectItem::Expr { expr, alias: _ } = &items[k] {
                    return Ok(expr);
                }
            }
            Err(sql_lit("ORDER BY: posición fuera de rango o sobre '*'"))
        },
        Expr::Column { table: None, name } => {
            let n: usize = items.len();
            for i in 0..n
                invariant
                    n == items@.len(),
                    its == select_items_v(items@),
                    key_expr(o@, its) == (match aliased(its, name@, i as int) {
                        Some(e) => Ok::<ExprV, ErrorV>(e),
                        None => Ok(o@.expr),
                    }),
            {
                assert(its[i as int] == items@[i as int]@);
                if let SelectItem::Expr { expr, alias } = &items[i] {
                    if let Some(a) = alias {
                        if str_eq(a.as_str(), name.as_str()) {
                            return Ok(expr);
                        }
                    }
                }
            }
            Ok(&o.expr)
        },
        _ => Ok(&o.expr),
    }
}

// --- what an expression mentions ---

/// The first column outside aggregates.
pub open spec fn loose_column(e: ExprV) -> Option<Seq<char>>
    decreases expr_size(e), 0nat,
{
    match e {
        ExprV::Column { table: _, name } => Some(name),
        ExprV::Aggregate { func: _, arg: _, distinct: _, sep: _ } => None,
        ExprV::Window { func: _, args: _, partition_by: _, order_by: _, frame: _ } => None,
        _ => {
            proof {
                lemma_parts_size(e);
            }
            first_loose(parts(e))
        },
    }
}

pub open spec fn first_loose(es: Seq<ExprV>) -> Option<Seq<char>>
    decreases exprs_size(es), 1 + es.len(),
{
    if es.len() == 0 {
        None
    } else {
        match loose_column(es[0]) {
            Some(n) => Some(n),
            None => first_loose(es.drop_first()),
        }
    }
}

#[verifier::loop_isolation(false)]
pub fn col_outside_agg(e: &Expr) -> (r: Option<&str>)
    ensures
        (match loose_column(e@) {
            Some(n) => r is Some && r->0@ == n,
            None => r is None,
        }),
    decreases expr_size(e@),
{
    match e {
        Expr::Column { table: _, name } => Some(name.as_str()),
        Expr::Aggregate { .. } | Expr::Window { .. } => None,
        _ => {
            let ps = parts_of(e);
            let n: usize = ps.len();
            let ghost all = parts(e@);
            proof {
                lemma_parts_size(e@);
                assert(all.skip(0) =~= all);
            }
            for i in 0..n
                invariant
                    n == ps@.len(),
                    refs_v(ps@) == all,
                    exprs_size(all) < expr_size(e@),
                    first_loose(all) == first_loose(all.skip(i as int)),
            {
                proof {
                    lemma_exprs_size_elem(all, i as int);
                    assert(refs_v(ps@)[i as int] == ps@[i as int]@);
                    assert(all.skip(i as int).drop_first() =~= all.skip(i + 1));
                    assert(all.skip(i as int)[0] == all[i as int]);
                }
                let c = col_outside_agg(ps[i]);
                if c.is_some() {
                    return c;
                }
            }
            assert(all.skip(n as int) =~= Seq::empty());
            None
        },
    }
}

/// The qualifier and the name of a column.
pub type ColRef = (Option<String>, String);

pub type ColRefV = (Option<Seq<char>>, Seq<char>);

pub open spec fn col_ref_v(c: ColRef) -> ColRefV {
    (opt_text(c.0), c.1@)
}

pub open spec fn col_refs_v(s: Seq<ColRef>) -> Seq<ColRefV> {
    Seq::new(s.len(), |i: int| col_ref_v(s[i]))
}

/// The columns of an expression, in order; `outside` leaves out those in aggregates.
pub open spec fn columns_in(e: ExprV, outside: bool) -> Seq<ColRefV>
    decreases expr_size(e), 0nat,
{
    match e {
        ExprV::Column { table, name } => seq![(table, name)],
        _ => if outside && e is Aggregate {
            Seq::empty()
        } else {
            proof {
                lemma_parts_size(e);
            }
            columns_in_all(operands(e), outside)
        },
    }
}

pub open spec fn columns_in_all(es: Seq<ExprV>, outside: bool) -> Seq<ColRefV>
    decreases exprs_size(es), 1 + es.len(),
{
    if es.len() == 0 {
        Seq::empty()
    } else {
        columns_in(es[0], outside) + columns_in_all(es.drop_first(), outside)
    }
}

#[verifier::loop_isolation(false)]
pub fn collect_columns(e: &Expr, outside: bool, out: &mut Vec<ColRef>)
    ensures
        col_refs_v(final(out)@) == col_refs_v(old(out)@) + columns_in(e@, outside),
    decreases expr_size(e@),
{
    match e {
        Expr::Column { table, name } => {
            let t = match table {
                Some(s) => Some(s.clone()),
                None => None,
            };
            out.push((t, name.clone()));
            assert(col_refs_v(out@) =~= col_refs_v(old(out)@) + columns_in(e@, outside));
        },
        _ => {
            if outside && matches!(e, Expr::Aggregate { .. }) {
                assert(col_refs_v(out@) =~= col_refs_v(old(out)@) + columns_in(e@, outside));
                return;
            }
            let ps = operands_of(e);
            let n: usize = ps.len();
            let ghost all = operands(e@);
            let ghost whole = col_refs_v(out@) + columns_in_all(all, outside);
            proof {
                lemma_parts_size(e@);
                assert(all.skip(0) =~= all);
            }
            for i in 0..n
                invariant
                    n == ps@.len(),
                    refs_v(ps@) == all,
                    exprs_size(all) < expr_size(e@),
                    whole == col_refs_v(out@) + columns_in_all(all.skip(i as int), outside),
            {
                proof {
                    lemma_exprs_size_elem(all, i as int);
                    assert(refs_v(ps@)[i as int] == ps@[i as int]@);
                    assert(all.skip(i as int).drop_first() =~= all.skip(i + 1));
                    assert(all.skip(i as int)[0] == all[i as int]);
                }
                let ghost before = col_refs_v(out@);
                collect_columns(ps[i], outside, out);
                proof {
                    let rest = columns_in_all(all.skip(i + 1), outside);
                    assert(before + (columns_in(all[i as int], outside) + rest) =~= col_refs_v(out@)
                        + rest);
                }
            }
            assert(all.skip(n as int) =~= Seq::empty());
            assert(col_refs_v(out@) + Seq::<ColRefV>::empty() =~= col_refs_v(out@));
        },
    }
}

/// The parts in which windows are looked for.
pub open spec fn window_parts(e: ExprV) -> Seq<ExprV> {
    match e {
        ExprV::Match { column: _, query: _, negated: _ } => Seq::empty(),
        ExprV::Aggregate { func: _, arg: _, distinct: _, sep: _ } => Seq::empty(),
        ExprV::InSubquery { expr: _, query: _, negated: _ } => Seq::empty(),
        _ => parts(e),
    }
}

/// `found` and the windows of an expression that are not in it yet.
pub open spec fn windows_in(e: ExprV, found: Seq<ExprV>) -> Seq<ExprV>
    decreases expr_size(e), 0nat,
{
    if e is Window {
        if found.contains(e) {
            found
        } else {
            found.push(e)
        }
    } else {
        proof {
            lemma_parts_size(e);
        }
        windows_in_all(window_parts(e), found)
    }
}

pub open spec fn windows_in_all(es: Seq<ExprV>, found: Seq<ExprV>) -> Seq<ExprV>
    decreases exprs_size(es), 1 + es.len(),
{
    if es.len() == 0 {
        found
    } else {
        windows_in_all(es.drop_first(), windows_in(es[0], found))
    }
}

/// The position of an expression among others.
pub fn find_expr(es: &Vec<&Expr>, e: &Expr) -> (r: Option<usize>)
    ensures
        (match r {
            Some(i) => i < es@.len() && refs_v(es@)[i as int] == e@ && forall|k: int|
                0 <= k < i ==> #[trigger] refs_v(es@)[k] != e@,
            None => !refs_v(es@).contains(e@),
        }),
{
    let n: usize = es.len();
    for i in 0..n
        invariant
            n == es@.len(),
            forall|k: int| 0 <= k < i ==> #[trigger] refs_v(es@)[k] != e@,
    {
        assert(refs_v(es@)[i as int] == es@[i as int]@);
        if expr_same(es[i], e) {
            return Some(i);
        }
    }
    None
}

#[verifier::loop_isolation(false)]
pub fn collect_windows<'a>(e: &'a Expr, out: &mut Vec<&'a Expr>)
    ensures
        refs_v(final(out)@) == windows_in(e@, refs_v(old(out)@)),
        forall|i: int|
            0 <= i < final(out)@.len() ==> (#[trigger] final(out)@[i]) is Window || (i
                < old(out)@.len() && final(out)@[i] == old(out)@[i]),
    decreases expr_size(e@),
{
    match e {
        Expr::Window { .. } => {
            if find_expr(out, e).is_none() {
                out.push(e);
                assert(refs_v(out@) =~= refs_v(old(out)@).push(e@));
            }
        },
        Expr::Match { .. } | Expr::Aggregate { .. } | Expr::InSubquery { .. } => {
            assert(window_parts(e@) =~= Seq::empty());
        },
        _ => {
            let ps = parts_of(e);
            let n: usize = ps.len();
            let ghost all = parts(e@);
            let ghost whole = windows_in_all(all, refs_v(out@));
            proof {
                lemma_parts_size(e@);
                assert(all.skip(0) =~= all);
            }
            for i in 0..n
                invariant
                    n == ps@.len(),
                    refs_v(ps@) == all,
                    exprs_size(all) < expr_size(e@),
                    whole == windows_in_all(all.skip(i as int), refs_v(out@)),
                    forall|i: int|
                        0 <= i < out@.len() ==> (#[trigger] out@[i]) is Window || (i
                            < old(out)@.len() && out@[i] == old(out)@[i]),
            {
                proof {
                    lemma_exprs_size_elem(all, i as int);
                    assert(refs_v(ps@)[i as int] == ps@[i as int]@);
                    assert(all.skip(i as int).drop_first() =~= all.skip(i + 1));
                    assert(all.skip(i as int)[0] == all[i as int]);
                }
                collect_windows(ps[i], out);
            }
            assert(all.skip(n as int) =~= Seq::empty());
        },
    }
}

/// The two arguments of every call of `bm25` in an expression.
pub open spec fn rank_calls(e: ExprV) -> Seq<(ExprV, ExprV)>
    decreases expr_size(e), 0nat,
{
    match e {
        ExprV::InSubquery { expr: _, query: _, negated: _ } => Seq::empty(),
        _ => if e is Function && e->Function_name == "bm25"@ && e->Function_args.len() == 2 {
            seq![(e->Function_args[0], e->Function_args[1])]
        } else {
            proof {
                lemma_deep_parts_size(e);
            }
            rank_calls_all(deep_parts(e))
        },
    }
}

pub open spec fn rank_calls_all(es: Seq<ExprV>) -> Seq<(ExprV, ExprV)>
    decreases exprs_size(es), 1 + es.len(),
{
    if es.len() == 0 {
        Seq::empty()
    } else {
        rank_calls(es[0]) + rank_calls_all(es.drop_first())
    }
}

pub open spec fn ref_pairs_v(s: Seq<(&Expr, &Expr)>) -> Seq<(ExprV, ExprV)> {
    Seq::new(s.len(), |i: int| (s[i].0@, s[i].1@))
}

#[verifier::loop_isolation(false)]
pub fn collect_bm25<'a>(e: &'a Expr, out: &mut Vec<(&'a Expr, &'a Expr)>)
    ensures
        ref_pairs_v(final(out)@) == ref_pairs_v(old(out)@) + rank_calls(e@),
    decreases expr_size(e@),
{
    if let Expr::Function { name, args } = e {
        assert(exprs_v(args@).len() == args@.len());
        if str_eq(name.as_str(), "bm25") && args.len() == 2 {
            out.push((&args[0], &args[1]));
            assert(exprs_v(args@)[0] == args@[0]@ && exprs_v(args@)[1] == args@[1]@);
            assert(ref_pairs_v(out@) =~= ref_pairs_v(old(out)@) + rank_calls(e@));
            return;
        }
    }
    if let Expr::InSubquery { .. } = e {
        assert(ref_pairs_v(out@) =~= ref_pairs_v(old(out)@) + rank_calls(e@));
        return;
    }
    let ps = deep_parts_of(e);
    let n: usize = ps.len();
    let ghost all = deep_parts(e@);
    let ghost whole = ref_pairs_v(out@) + rank_calls_all(all);
    proof {
        lemma_deep_parts_size(e@);
        assert(all.skip(0) =~= all);
    }
    for i in 0..n
        invariant
            n == ps@.len(),
            refs_v(ps@) == all,
            exprs_size(all) < expr_size(e@),
            whole == ref_pairs_v(out@) + rank_calls_all(all.skip(i as int)),
    {
        proof {
            lemma_exprs_size_elem(all, i as int);
            assert(refs_v(ps@)[i as int] == ps@[i as int]@);
            assert(all.skip(i as int).drop_first() =~= all.skip(i + 1));
            assert(all.skip(i as int)[0] == all[i as int]);
        }
        let ghost before = ref_pairs_v(out@);
        collect_bm25(ps[i], out);
        proof {
            let rest = rank_calls_all(all.skip(i + 1));
            assert(before + (rank_calls(all[i as int]) + rest) =~= ref_pairs_v(out@) + rest);
        }
    }
    assert(all.skip(n as int) =~= Seq::empty());
    assert(ref_pairs_v(out@) + Seq::<(ExprV, ExprV)>::empty() =~= ref_pairs_v(out@));
}

} // verus!
