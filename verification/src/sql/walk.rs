//! Structure of expressions: their direct parts, rebuilding from new parts, and
//! the questions that are answered by walking over them.
use vstd::prelude::*;

#[allow(unused_imports)]
use crate::sql::ast::{clone_expr, clone_order_bys, CompoundSelectV, CteV, Expr, ExprV, JoinV, OrderByV, SelectItemV, SelectStmtV, TableRef, TableRefV};
#[allow(unused_imports)]
use crate::sql::ast::{expr_expr_pairs_v, exprs_v, order_bys_v};

verus! {

// --- sizes ---

/// Number of nodes of an expression, those of its subqueries included.
pub open spec fn expr_size(e: ExprV) -> nat
    decreases e,
{
    match e {
        ExprV::Literal(_) => 1,
        ExprV::Column { table: _, name: _ } => 1,
        ExprV::Param(_) => 1,
        ExprV::Unary(_, x) => 1 + expr_size(*x),
        ExprV::Binary(a, _, b) => 1 + expr_size(*a) + expr_size(*b),
        ExprV::IsNull { expr, negated: _ } => 1 + expr_size(*expr),
        ExprV::Like { expr, pattern, negated: _ } => 1 + expr_size(*expr) + expr_size(*pattern),
        ExprV::Match { column, query, negated: _ } => 1 + expr_size(*column) + expr_size(*query),
        ExprV::Aggregate { func: _, arg, distinct: _, sep } => 1 + opt_size(arg) + opt_size(sep),
        ExprV::Function { name: _, args } => 1 + exprs_size(args),
        ExprV::In { expr, list, negated: _ } => 1 + expr_size(*expr) + exprs_size(list),
        ExprV::Cast { expr, to: _ } => 1 + expr_size(*expr),
        ExprV::Case { operand, whens, else_ } => 1 + opt_size(operand) + pairs_size(whens) + opt_size(
            else_,
        ),
        ExprV::ScalarSubquery(q) => 1 + select_size(*q),
        ExprV::Exists(q) => 1 + select_size(*q),
        ExprV::InSubquery { expr, query, negated: _ } => 1 + expr_size(*expr) + select_size(*query),
        ExprV::Window { func: _, args, partition_by, order_by, frame: _ } => 1 + exprs_size(args)
            + exprs_size(partition_by) + keys_size(order_by),
    }
}

pub open spec fn opt_size(o: Option<Box<ExprV>>) -> nat
    decreases o,
{
    match o {
        Some(x) => expr_size(*x),
        None => 0,
    }
}

pub open spec fn exprs_size(s: Seq<ExprV>) -> nat
    decreases s,
{
    if s.len() == 0 {
        0
    } else {
        expr_size(s[0]) + exprs_size(s.drop_first())
    }
}

pub open spec fn pairs_size(s: Seq<(ExprV, ExprV)>) -> nat
    decreases s,
{
    if s.len() == 0 {
        0
    } else {
        expr_size(s[0].0) + expr_size(s[0].1) + pairs_size(s.drop_first())
    }
}

pub open spec fn keys_size(s: Seq<OrderByV>) -> nat
    decreases s,
{
    if s.len() == 0 {
        0
    } else {
        expr_size(s[0].expr) + keys_size(s.drop_first())
    }
}

pub open spec fn items_size(s: Seq<SelectItemV>) -> nat
    decreases s,
{
    if s.len() == 0 {
        0
    } else {
        (match s[0] {
            SelectItemV::Star => 0,
            SelectItemV::Expr { expr, alias: _ } => expr_size(expr),
        }) + items_size(s.drop_first())
    }
}

pub open spec fn table_size(t: TableRefV) -> nat
    decreases t,
{
    match t.subquery {
        Some(q) => 1 + select_size(*q),
        None => 1,
    }
}

pub open spec fn joins_size(s: Seq<JoinV>) -> nat
    decreases s,
{
    if s.len() == 0 {
        0
    } else {
        table_size(s[0].table) + expr_size(s[0].on) + joins_size(s.drop_first())
    }
}

pub open spec fn compounds_size(s: Seq<CompoundSelectV>) -> nat
    decreases s,
{
    if s.len() == 0 {
        0
    } else {
        1 + select_size(s[0].select) + compounds_size(s.drop_first())
    }
}

pub open spec fn ctes_size(s: Seq<CteV>) -> nat
    decreases s,
{
    if s.len() == 0 {
        0
    } else {
        1 + select_size(s[0].query) + ctes_size(s.drop_first())
    }
}

/// Number of nodes of a SELECT.
pub open spec fn select_size(s: SelectStmtV) -> nat
    decreases s,
{
    1 + items_size(s.projection) + (match s.from {
        Some(t) => table_size(t),
        None => 0,
    }) + joins_size(s.joins) + (match s.where_clause {
        Some(e) => expr_size(e),
        None => 0,
    }) + exprs_size(s.group_by) + (match s.having {
        Some(e) => expr_size(e),
        None => 0,
    }) + keys_size(s.order_by) + (match s.limit {
        Some(e) => expr_size(e),
        None => 0,
    }) + (match s.offset {
        Some(e) => expr_size(e),
        None => 0,
    }) + compounds_size(s.compound) + ctes_size(s.with)
}

pub proof fn lemma_exprs_size_elem(s: Seq<ExprV>, i: int)
    requires
        0 <= i < s.len(),
    ensures
        expr_size(s[i]) <= exprs_size(s),
    decreases s.len(),
{
    if i > 0 {
        lemma_exprs_size_elem(s.drop_first(), i - 1);
    }
}

pub proof fn lemma_exprs_size_append(a: Seq<ExprV>, b: Seq<ExprV>)
    ensures
        exprs_size(a + b) == exprs_size(a) + exprs_size(b),
    decreases a.len(),
{
    if a.len() == 0 {
        assert(a + b =~= b);
    } else {
        assert((a + b).drop_first() =~= a.drop_first() + b);
        lemma_exprs_size_append(a.drop_first(), b);
    }
}

// --- parts ---

pub open spec fn opt_part(o: Option<Box<ExprV>>) -> Seq<ExprV> {
    match o {
        Some(x) => seq![*x],
        None => Seq::empty(),
    }
}

/// The conditions and results of a CASE, in the order in which they are written.
pub open spec fn pair_parts(s: Seq<(ExprV, ExprV)>) -> Seq<ExprV>
    decreases s.len(),
{
    if s.len() == 0 {
        Seq::empty()
    } else {
        seq![s[0].0, s[0].1] + pair_parts(s.drop_first())
    }
}

/// The pairs that a sequence of conditions and results makes.
pub open spec fn part_pairs(s: Seq<ExprV>) -> Seq<(ExprV, ExprV)>
    decreases s.len(),
{
    if s.len() < 2 {
        Seq::empty()
    } else {
        seq![(s[0], s[1])] + part_pairs(s.skip(2))
    }
}

/// The direct sub-expressions of an expression, in the order in which they are
/// written. Subqueries and the sort keys of a window are not among them.
pub open spec fn parts(e: ExprV) -> Seq<ExprV> {
    match e {
        ExprV::Unary(_, x) => seq![*x],
        ExprV::Binary(a, _, b) => seq![*a, *b],
        ExprV::IsNull { expr, negated: _ } => seq![*expr],
        ExprV::Like { expr, pattern, negated: _ } => seq![*expr, *pattern],
        ExprV::Match { column, query, negated: _ } => seq![*column, *query],
        ExprV::Aggregate { func: _, arg, distinct: _, sep } => opt_part(arg) + opt_part(sep),
        ExprV::Function { name: _, args } => args,
        ExprV::In { expr, list, negated: _ } => seq![*expr] + list,
        ExprV::Cast { expr, to: _ } => seq![*expr],
        ExprV::Case { operand, whens, else_ } => opt_part(operand) + pair_parts(whens) + opt_part(
            else_,
        ),
        ExprV::InSubquery { expr, query: _, negated: _ } => seq![*expr],
        ExprV::Window { func: _, args, partition_by, order_by: _, frame: _ } => args + partition_by,
        _ => Seq::empty(),
    }
}

/// The parts without the separator of an aggregate.
pub open spec fn operands(e: ExprV) -> Seq<ExprV> {
    match e {
        ExprV::Aggregate { func: _, arg, distinct: _, sep: _ } => opt_part(arg),
        _ => parts(e),
    }
}

/// `e` with other parts in the place of its own.
pub open spec fn with_parts(e: ExprV, ps: Seq<ExprV>) -> ExprV {
    match e {
        ExprV::Unary(op, _) => ExprV::Unary(op, Box::new(ps[0])),
        ExprV::Binary(_, op, _) => ExprV::Binary(Box::new(ps[0]), op, Box::new(ps[1])),
        ExprV::IsNull { expr: _, negated } => ExprV::IsNull { expr: Box::new(ps[0]), negated },
        ExprV::Like { expr: _, pattern: _, negated } => ExprV::Like {
            expr: Box::new(ps[0]),
            pattern: Box::new(ps[1]),
            negated,
        },
        ExprV::Match { column: _, query: _, negated } => ExprV::Match {
            column: Box::new(ps[0]),
            query: Box::new(ps[1]),
            negated,
        },
        ExprV::Aggregate { func, arg, distinct, sep } => ExprV::Aggregate {
            func,
            arg: match arg {
                Some(_) => Some(Box::new(ps[0])),
                None => None,
            },
            distinct,
            sep: match sep {
                Some(_) => Some(Box::new(ps.last())),
                None => None,
            },
        },
        ExprV::Function { name, args: _ } => ExprV::Function { name, args: ps },
        ExprV::In { expr: _, list: _, negated } => ExprV::In {
            expr: Box::new(ps[0]),
            list: ps.skip(1),
            negated,
        },
        ExprV::Cast { expr: _, to } => ExprV::Cast { expr: Box::new(ps[0]), to },
        ExprV::Case { operand, whens, else_ } => {
            let start = if operand is Some {
                1int
            } else {
                0
            };
            ExprV::Case {
                operand: match operand {
                    Some(_) => Some(Box::new(ps[0])),
                    None => None,
                },
                whens: part_pairs(ps.subrange(start, start + 2 * whens.len())),
                else_: match else_ {
                    Some(_) => Some(Box::new(ps.last())),
                    None => None,
                },
            }
        },
        ExprV::InSubquery { expr: _, query, negated } => ExprV::InSubquery {
            expr: Box::new(ps[0]),
            query,
            negated,
        },
        ExprV::Window { func, args, partition_by: _, order_by, frame } => ExprV::Window {
            func,
            args: ps.take(args.len() as int),
            partition_by: ps.skip(args.len() as int),
            order_by,
            frame,
        },
        _ => e,
    }
}

pub proof fn lemma_pair_parts(s: Seq<(ExprV, ExprV)>)
    ensures
        pair_parts(s).len() == 2 * s.len(),
        part_pairs(pair_parts(s)) == s,
        exprs_size(pair_parts(s)) == pairs_size(s),
    decreases s.len(),
{
    if s.len() > 0 {
        let rest = s.drop_first();
        lemma_pair_parts(rest);
        let p = seq![s[0].0, s[0].1];
        assert(pair_parts(s).skip(2) =~= pair_parts(rest));
        assert(s =~= seq![s[0]] + rest);
        lemma_exprs_size_append(p, pair_parts(rest));
        assert(p.drop_first().drop_first() =~= Seq::empty());
        reveal_with_fuel(exprs_size, 3);
    } else {
        assert(part_pairs(pair_parts(s)) =~= s);
    }
}

/// The parts of an expression are smaller than it, all together.
pub proof fn lemma_parts_size(e: ExprV)
    ensures
        exprs_size(parts(e)) < expr_size(e),
        exprs_size(operands(e)) < expr_size(e),
{
    reveal_with_fuel(exprs_size, 3);
    match e {
        ExprV::Unary(_, x) => {
            assert(seq![*x].drop_first() =~= Seq::empty());
        },
        ExprV::Binary(a, _, b) => {
            assert(seq![*a, *b].drop_first() =~= seq![*b]);
            assert(seq![*b].drop_first() =~= Seq::empty());
        },
        ExprV::Like { expr: a, pattern: b, negated: _ } => {
            assert(seq![*a, *b].drop_first() =~= seq![*b]);
            assert(seq![*b].drop_first() =~= Seq::empty());
        },
        ExprV::Match { column: a, query: b, negated: _ } => {
            assert(seq![*a, *b].drop_first() =~= seq![*b]);
            assert(seq![*b].drop_first() =~= Seq::empty());
        },
        ExprV::IsNull { expr, negated: _ } => {
            assert(seq![*expr].drop_first() =~= Seq::empty());
        },
        ExprV::Cast { expr, to: _ } => {
            assert(seq![*expr].drop_first() =~= Seq::empty());
        },
        ExprV::InSubquery { expr, query: _, negated: _ } => {
            assert(seq![*expr].drop_first() =~= Seq::empty());
        },
        ExprV::Aggregate { func: _, arg, distinct: _, sep } => {
            lemma_exprs_size_append(opt_part(arg), opt_part(sep));
            lemma_opt_part_size(arg);
            lemma_opt_part_size(sep);
        },
        ExprV::In { expr, list, negated: _ } => {
            lemma_exprs_size_append(seq![*expr], list);
            assert(seq![*expr].drop_first() =~= Seq::empty());
        },
        ExprV::Case { operand, whens, else_ } => {
            lemma_pair_parts(whens);
            lemma_exprs_size_append(opt_part(operand) + pair_parts(whens), opt_part(else_));
            lemma_exprs_size_append(opt_part(operand), pair_parts(whens));
            lemma_opt_part_size(operand);
            lemma_opt_part_size(else_);
        },
        ExprV::Window { func: _, args, partition_by, order_by: _, frame: _ } => {
            lemma_exprs_size_append(args, partition_by);
        },
        _ => {},
    }
}

proof fn lemma_opt_part_size(o: Option<Box<ExprV>>)
    ensures
        exprs_size(opt_part(o)) == opt_size(o),
{
    reveal_with_fuel(exprs_size, 2);
    match o {
        Some(x) => {
            assert(seq![*x].drop_first() =~= Seq::empty());
        },
        None => {},
    }
}

/// The expressions of sort keys.
pub open spec fn key_exprs(s: Seq<OrderByV>) -> Seq<ExprV> {
    Seq::new(s.len(), |i: int| s[i].expr)
}

proof fn lemma_key_exprs_size(s: Seq<OrderByV>)
    ensures
        exprs_size(key_exprs(s)) == keys_size(s),
    decreases s.len(),
{
    if s.len() > 0 {
        lemma_key_exprs_size(s.drop_first());
        assert(key_exprs(s).drop_first() =~= key_exprs(s.drop_first()));
    }
}

/// The operands and, of a window, the sort keys.
pub open spec fn deep_parts(e: ExprV) -> Seq<ExprV> {
    match e {
        ExprV::Window { func: _, args: _, partition_by: _, order_by, frame: _ } => operands(e)
            + key_exprs(order_by),
        _ => operands(e),
    }
}

pub proof fn lemma_deep_parts_size(e: ExprV)
    ensures
        exprs_size(deep_parts(e)) < expr_size(e),
{
    lemma_parts_size(e);
    if let ExprV::Window { func: _, args, partition_by, order_by, frame: _ } = e {
        lemma_exprs_size_append(args, partition_by);
        lemma_exprs_size_append(operands(e), key_exprs(order_by));
        lemma_key_exprs_size(order_by);
    }
}

/// The expressions that references point to.
pub open spec fn refs_v(s: Seq<&Expr>) -> Seq<ExprV> {
    Seq::new(s.len(), |i: int| s[i]@)
}

fn push_refs<'a>(out: &mut Vec<&'a Expr>, v: &'a Vec<Expr>)
    ensures
        refs_v(final(out)@) == refs_v(old(out)@) + exprs_v(v@),
{
    let n: usize = v.len();
    for i in 0..n
        invariant
            n == v@.len(),
            refs_v(out@) == refs_v(old(out)@) + exprs_v(v@).take(i as int),
    {
        let ghost before = out@;
        out.push(&v[i]);
        assert(refs_v(out@) =~= refs_v(before).push(v@[i as int]@));
        assert(exprs_v(v@).take(i + 1) =~= exprs_v(v@).take(i as int).push(exprs_v(v@)[i as int]));
    }
    assert(exprs_v(v@).take(n as int) =~= exprs_v(v@));
}

fn push_ref<'a>(out: &mut Vec<&'a Expr>, e: &'a Expr)
    ensures
        refs_v(final(out)@) == refs_v(old(out)@).push(e@),
{
    out.push(e);
    assert(refs_v(out@) =~= refs_v(old(out)@).push(e@));
}

fn push_pairs<'a>(out: &mut Vec<&'a Expr>, v: &'a Vec<(Expr, Expr)>)
    ensures
        refs_v(final(out)@) == refs_v(old(out)@) + pair_parts(expr_expr_pairs_v(v@)),
{
    let n: usize = v.len();
    let ghost ws = expr_expr_pairs_v(v@);
    let ghost all = refs_v(out@) + pair_parts(ws);
    assert(ws.skip(0) =~= ws);
    for i in 0..n
        invariant
            n == v@.len(),
            ws == expr_expr_pairs_v(v@),
            refs_v(out@) + pair_parts(ws.skip(i as int)) == all,
    {
        let ghost before = refs_v(out@);
        push_ref(out, &v[i].0);
        push_ref(out, &v[i].1);
        assert(ws.skip(i as int).drop_first() =~= ws.skip(i + 1));
        assert(before + pair_parts(ws.skip(i as int)) =~= refs_v(out@) + pair_parts(ws.skip(i + 1)));
    }
    assert(ws.skip(n as int) =~= Seq::empty());
    assert(refs_v(out@) + Seq::<ExprV>::empty() =~= refs_v(out@));
}

/// References to the parts of an expression.
pub fn parts_of(e: &Expr) -> (r: Vec<&Expr>)
    ensures
        refs_v(r@) == parts(e@),
{
    let mut out: Vec<&Expr> = Vec::new();
    match e {
        Expr::Unary(_, x) => push_ref(&mut out, x),
        Expr::Binary(a, _, b) => {
            push_ref(&mut out, a);
            push_ref(&mut out, b);
        },
        Expr::IsNull { expr, negated: _ } => push_ref(&mut out, expr),
        Expr::Like { expr, pattern, negated: _ } => {
            push_ref(&mut out, expr);
            push_ref(&mut out, pattern);
        },
        Expr::Match { column, query, negated: _ } => {
            push_ref(&mut out, column);
            push_ref(&mut out, query);
        },
        Expr::Aggregate { func: _, arg, distinct: _, sep } => {
            if let Some(x) = arg {
                push_ref(&mut out, x);
            }
            if let Some(x) = sep {
                push_ref(&mut out, x);
            }
        },
        Expr::Function { name: _, args } => push_refs(&mut out, args),
        Expr::In { expr, list, negated: _ } => {
            push_ref(&mut out, expr);
            push_refs(&mut out, list);
        },
        Expr::Cast { expr, to: _ } => push_ref(&mut out, expr),
        Expr::Case { operand, whens, else_ } => {
            if let Some(x) = operand {
                push_ref(&mut out, x);
            }
            push_pairs(&mut out, whens);
            if let Some(x) = else_ {
                push_ref(&mut out, x);
            }
        },
        Expr::InSubquery { expr, query: _, negated: _ } => push_ref(&mut out, expr),
        Expr::Window { func: _, args, partition_by, order_by: _, frame: _ } => {
            push_refs(&mut out, args);
            push_refs(&mut out, partition_by);
        },
        _ => {},
    }
    assert(refs_v(out@) =~= parts(e@));
    out
}

/// References to the operands of an expression.
pub fn operands_of(e: &Expr) -> (r: Vec<&Expr>)
    ensures
        refs_v(r@) == operands(e@),
{
    match e {
        Expr::Aggregate { func: _, arg, distinct: _, sep: _ } => {
            let mut out: Vec<&Expr> = Vec::new();
            if let Some(x) = arg {
                push_ref(&mut out, x);
            }
            assert(refs_v(out@) =~= operands(e@));
            out
        },
        _ => parts_of(e),
    }
}

/// References to the operands and sort keys of an expression.
pub fn deep_parts_of(e: &Expr) -> (r: Vec<&Expr>)
    ensures
        refs_v(r@) == deep_parts(e@),
{
    let mut out = operands_of(e);
    if let Expr::Window { func: _, args: _, partition_by: _, order_by, frame: _ } = e {
        let n: usize = order_by.len();
        let ghost keys = key_exprs(order_bys_v(order_by@));
        let ghost start = refs_v(out@);
        assert(refs_v(out@) =~= start + keys.take(0));
        for i in 0..n
            invariant
                n == order_by@.len(),
                keys == key_exprs(order_bys_v(order_by@)),
                refs_v(out@) == start + keys.take(i as int),
        {
            let ghost before = refs_v(out@);
            push_ref(&mut out, &order_by[i].expr);
            assert(order_bys_v(order_by@)[i as int] == order_by@[i as int]@);
            assert(keys.take(i + 1) =~= keys.take(i as int).push(keys[i as int]));
        }
        assert(keys.take(n as int) =~= keys);
    }
    out
}

fn take_first(ps: &mut Vec<Expr>) -> (r: Expr)
    requires
        old(ps)@.len() > 0,
    ensures
        r@ == exprs_v(old(ps)@)[0],
        exprs_v(final(ps)@) == exprs_v(old(ps)@).drop_first(),
        final(ps)@.len() == old(ps)@.len() - 1,
{
    let r = ps.remove(0);
    assert(exprs_v(ps@) =~= exprs_v(old(ps)@).drop_first());
    r
}

fn take_many(ps: &mut Vec<Expr>, n: usize) -> (r: Vec<Expr>)
    requires
        old(ps)@.len() >= n,
    ensures
        exprs_v(r@) == exprs_v(old(ps)@).take(n as int),
        exprs_v(final(ps)@) == exprs_v(old(ps)@).skip(n as int),
        final(ps)@.len() == old(ps)@.len() - n,
{
    let ghost all = exprs_v(ps@);
    let mut out: Vec<Expr> = Vec::new();
    assert(exprs_v(out@) =~= all.take(0));
    assert(exprs_v(ps@) =~= all.skip(0));
    for i in 0..n
        invariant
            all.len() >= n,
            exprs_v(out@) == all.take(i as int),
            exprs_v(ps@) == all.skip(i as int),
            ps@.len() == all.len() - i,
    {
        let ghost before = out@;
        let x = take_first(ps);
        out.push(x);
        assert(exprs_v(out@) =~= exprs_v(before).push(x@));
        assert(all.take(i + 1) =~= all.take(i as int).push(all[i as int]));
        assert(all.skip(i as int).drop_first() =~= all.skip(i + 1));
    }
    out
}

fn take_pairs(ps: &mut Vec<Expr>, n: usize) -> (r: Vec<(Expr, Expr)>)
    requires
        old(ps)@.len() >= 2 * n,
    ensures
        expr_expr_pairs_v(r@) == part_pairs(exprs_v(old(ps)@).take(2 * n)),
        exprs_v(final(ps)@) == exprs_v(old(ps)@).skip(2 * n),
        final(ps)@.len() == old(ps)@.len() - 2 * n,
{
    let ghost all = exprs_v(ps@);
    let ghost want = part_pairs(all.take(2 * n));
    let mut out: Vec<(Expr, Expr)> = Vec::new();
    assert(expr_expr_pairs_v(out@) + want =~= want);
    assert(exprs_v(ps@) =~= all.skip(0));
    assert(all.subrange(0, 2 * n) =~= all.take(2 * n));
    for i in 0..n
        invariant
            all.len() >= 2 * n,
            expr_expr_pairs_v(out@) + part_pairs(all.subrange(2 * i, 2 * n)) == want,
            exprs_v(ps@) == all.skip(2 * i),
            ps@.len() == all.len() - 2 * i,
    {
        let ghost before = expr_expr_pairs_v(out@);
        let c = take_first(ps);
        let r = take_first(ps);
        out.push((c, r));
        proof {
            let s = all.subrange(2 * i, 2 * n);
            assert(all.skip(2 * i).drop_first().drop_first() =~= all.skip(2 * (i + 1)));
            assert(s.skip(2) =~= all.subrange(2 * (i + 1), 2 * n));
            assert(expr_expr_pairs_v(out@) =~= before.push((c@, r@)));
            assert(before + part_pairs(s) =~= expr_expr_pairs_v(out@) + part_pairs(s.skip(2)));
        }
    }
    assert(all.subrange(2 * n, 2 * n) =~= Seq::empty());
    assert(expr_expr_pairs_v(out@) + Seq::<(ExprV, ExprV)>::empty() =~= expr_expr_pairs_v(out@));
    out
}

/// A copy of `e` with other parts.
#[verifier::spinoff_prover]
#[verifier::rlimit(30)]
pub fn rebuild(e: &Expr, ps: Vec<Expr>) -> (r: Expr)
    requires
        ps@.len() == parts(e@).len(),
    ensures
        r@ == with_parts(e@, exprs_v(ps@)),
{
    let mut ps = ps;
    let ghost all = exprs_v(ps@);
    match e {
        Expr::Unary(op, _) => {
            let a = take_first(&mut ps);
            Expr::Unary(*op, Box::new(a))
        },
        Expr::Binary(_, op, _) => {
            let a = take_first(&mut ps);
            let b = take_first(&mut ps);
            Expr::Binary(Box::new(a), *op, Box::new(b))
        },
        Expr::IsNull { expr: _, negated } => Expr::IsNull {
            expr: Box::new(take_first(&mut ps)),
            negated: *negated,
        },
        Expr::Like { expr: _, pattern: _, negated } => {
            let a = take_first(&mut ps);
            let b = take_first(&mut ps);
            Expr::Like { expr: Box::new(a), pattern: Box::new(b), negated: *negated }
        },
        Expr::Match { column: _, query: _, negated } => {
            let a = take_first(&mut ps);
            let b = take_first(&mut ps);
            Expr::Match { column: Box::new(a), query: Box::new(b), negated: *negated }
        },
        Expr::Aggregate { func, arg, distinct, sep } => {
            let a = match arg {
                Some(_) => Some(Box::new(take_first(&mut ps))),
                None => None,
            };
            let b = match sep {
                Some(_) => Some(Box::new(take_first(&mut ps))),
                None => None,
            };
            Expr::Aggregate { func: *func, arg: a, distinct: *distinct, sep: b }
        },
        Expr::Function { name, args: _ } => Expr::Function { name: name.clone(), args: ps },
        Expr::In { expr: _, list: _, negated } => {
            let a = take_first(&mut ps);
            assert(all.drop_first() =~= all.skip(1));
            Expr::In { expr: Box::new(a), list: ps, negated: *negated }
        },
        Expr::Cast { expr: _, to } => Expr::Cast { expr: Box::new(take_first(&mut ps)), to: *to },
        Expr::Case { operand, whens, else_ } => {
            let ghost start = if operand is Some {
                1int
            } else {
                0
            };
            proof {
                lemma_pair_parts(expr_expr_pairs_v(whens@));
                assert(all.skip(0) =~= all);
            }
            let a = match operand {
                Some(_) => Some(Box::new(take_first(&mut ps))),
                None => None,
            };
            assert(exprs_v(ps@) =~= all.skip(start));
            let ws = take_pairs(&mut ps, whens.len());
            assert(all.skip(start).take((2 * whens@.len()) as int) =~= all.subrange(
                start,
                start + 2 * whens@.len(),
            ));
            let b = match else_ {
                Some(_) => Some(Box::new(take_first(&mut ps))),
                None => None,
            };
            Expr::Case { operand: a, whens: ws, else_: b }
        },
        Expr::InSubquery { expr: _, query, negated } => Expr::InSubquery {
            expr: Box::new(take_first(&mut ps)),
            query: Box::new(crate::sql::ast::clone_select(query)),
            negated: *negated,
        },
        Expr::Window { func, args, partition_by, order_by, frame } => {
            assert(parts(e@) == exprs_v(args@) + exprs_v(partition_by@));
            let a = take_many(&mut ps, args.len());
            Expr::Window {
                func: *func,
                args: a,
                partition_by: ps,
                order_by: clone_order_bys(order_by),
                frame: *frame,
            }
        },
        _ => clone_expr(e),
    }
}

// --- questions about expressions ---

/// No column, aggregate, subquery or window anywhere: the expression has a value
/// without a row.
pub open spec fn is_constant(e: ExprV) -> bool
    decreases expr_size(e), 0nat,
{
    match e {
        ExprV::Column { table: _, name: _ } => false,
        ExprV::Aggregate { func: _, arg: _, distinct: _, sep: _ } => false,
        ExprV::ScalarSubquery(_) => false,
        ExprV::Exists(_) => false,
        ExprV::InSubquery { expr: _, query: _, negated: _ } => false,
        ExprV::Window { func: _, args: _, partition_by: _, order_by: _, frame: _ } => false,
        _ => {
            proof {
                lemma_parts_size(e);
            }
            all_constant(parts(e))
        },
    }
}

pub open spec fn all_constant(s: Seq<ExprV>) -> bool
    decreases exprs_size(s), 1 + s.len(),
{
    s.len() == 0 || (is_constant(s[0]) && all_constant(s.drop_first()))
}

/// A `?N` somewhere outside subqueries.
pub open spec fn mentions_param(e: ExprV) -> bool
    decreases expr_size(e), 0nat,
{
    match e {
        ExprV::Param(_) => true,
        ExprV::InSubquery { expr: _, query: _, negated: _ } => false,
        _ => {
            proof {
                lemma_parts_size(e);
            }
            any_mentions_param(operands(e))
        },
    }
}

pub open spec fn any_mentions_param(s: Seq<ExprV>) -> bool
    decreases exprs_size(s), 1 + s.len(),
{
    s.len() > 0 && (mentions_param(s[0]) || any_mentions_param(s.drop_first()))
}

/// An aggregate somewhere outside subqueries and windows.
pub open spec fn mentions_aggregate(e: ExprV) -> bool
    decreases expr_size(e), 0nat,
{
    match e {
        ExprV::Aggregate { func: _, arg: _, distinct: _, sep: _ } => true,
        ExprV::InSubquery { expr: _, query: _, negated: _ } => false,
        ExprV::Window { func: _, args: _, partition_by: _, order_by: _, frame: _ } => false,
        _ => {
            proof {
                lemma_parts_size(e);
            }
            any_mentions_aggregate(parts(e))
        },
    }
}

pub open spec fn any_mentions_aggregate(s: Seq<ExprV>) -> bool
    decreases exprs_size(s), 1 + s.len(),
{
    s.len() > 0 && (mentions_aggregate(s[0]) || any_mentions_aggregate(s.drop_first()))
}

/// A window function somewhere outside subqueries.
pub open spec fn mentions_window(e: ExprV) -> bool
    decreases expr_size(e), 0nat,
{
    match e {
        ExprV::Window { func: _, args: _, partition_by: _, order_by: _, frame: _ } => true,
        ExprV::InSubquery { expr: _, query: _, negated: _ } => false,
        _ => {
            proof {
                lemma_parts_size(e);
            }
            any_mentions_window(operands(e))
        },
    }
}

pub open spec fn any_mentions_window(s: Seq<ExprV>) -> bool
    decreases exprs_size(s), 1 + s.len(),
{
    s.len() > 0 && (mentions_window(s[0]) || any_mentions_window(s.drop_first()))
}

/// A subquery somewhere outside other subqueries.
pub open spec fn mentions_subquery(e: ExprV) -> bool
    decreases expr_size(e), 0nat,
{
    match e {
        ExprV::ScalarSubquery(_) => true,
        ExprV::Exists(_) => true,
        ExprV::InSubquery { expr: _, query: _, negated: _ } => true,
        _ => {
            proof {
                lemma_parts_size(e);
            }
            any_mentions_subquery(parts(e))
        },
    }
}

pub open spec fn any_mentions_subquery(s: Seq<ExprV>) -> bool
    decreases exprs_size(s), 1 + s.len(),
{
    s.len() > 0 && (mentions_subquery(s[0]) || any_mentions_subquery(s.drop_first()))
}

impl Expr {
    /// Whether the expression has a value without a row.
    #[verifier::loop_isolation(false)]
    pub fn is_const(&self) -> (r: bool)
        ensures
            r == is_constant(self@),
        decreases expr_size(self@),
    {
        match self {
            Expr::Column { .. } | Expr::Aggregate { .. } | Expr::ScalarSubquery(_) | Expr::Exists(
                _,
            ) | Expr::InSubquery { .. } | Expr::Window { .. } => false,
            _ => {
                let ps = parts_of(self);
                let n: usize = ps.len();
                let ghost all = parts(self@);
                proof {
                    lemma_parts_size(self@);
                    assert(all.skip(0) =~= all);
                }
                for i in 0..n
                    invariant
                        n == ps@.len(),
                        refs_v(ps@) == all,
                        exprs_size(all) < expr_size(self@),
                        all_constant(all) == all_constant(all.skip(i as int)),
                {
                    proof {
                        lemma_exprs_size_elem(all, i as int);
                        assert(refs_v(ps@)[i as int] == ps@[i as int]@);
                        assert(all.skip(i as int).drop_first() =~= all.skip(i + 1));
                        assert(all.skip(i as int)[0] == all[i as int]);
                    }
                    if !ps[i].is_const() {
                        return false;
                    }
                }
                assert(all.skip(n as int) =~= Seq::empty());
                true
            },
        }
    }

    /// Whether the expression holds a parameter.
    #[verifier::loop_isolation(false)]
    pub fn contains_param(&self) -> (r: bool)
        ensures
            r == mentions_param(self@),
        decreases expr_size(self@),
    {
        match self {
            Expr::Param(_) => true,
            Expr::InSubquery { .. } => false,
            _ => {
                let ps = operands_of(self);
                let n: usize = ps.len();
                let ghost all = operands(self@);
                proof {
                    lemma_parts_size(self@);
                    assert(all.skip(0) =~= all);
                }
                for i in 0..n
                    invariant
                        n == ps@.len(),
                        refs_v(ps@) == all,
                        exprs_size(all) < expr_size(self@),
                        any_mentions_param(all) == any_mentions_param(all.skip(i as int)),
                {
                    proof {
                        lemma_exprs_size_elem(all, i as int);
                        assert(refs_v(ps@)[i as int] == ps@[i as int]@);
                        assert(all.skip(i as int).drop_first() =~= all.skip(i + 1));
                        assert(all.skip(i as int)[0] == all[i as int]);
                    }
                    if ps[i].contains_param() {
                        return true;
                    }
                }
                assert(all.skip(n as int) =~= Seq::empty());
                false
            },
        }
    }

    /// Whether the expression holds an aggregate of its own scope.
    #[verifier::loop_isolation(false)]
    pub fn has_aggregate(&self) -> (r: bool)
        ensures
            r == mentions_aggregate(self@),
        decreases expr_size(self@),
    {
        match self {
            Expr::Aggregate { .. } => true,
            Expr::InSubquery { .. } | Expr::Window { .. } => false,
            _ => {
                let ps = parts_of(self);
                let n: usize = ps.len();
                let ghost all = parts(self@);
                proof {
                    lemma_parts_size(self@);
                    assert(all.skip(0) =~= all);
                }
                for i in 0..n
                    invariant
                        n == ps@.len(),
                        refs_v(ps@) == all,
                        exprs_size(all) < expr_size(self@),
                        any_mentions_aggregate(all) == any_mentions_aggregate(all.skip(i as int)),
                {
                    proof {
                        lemma_exprs_size_elem(all, i as int);
                        assert(refs_v(ps@)[i as int] == ps@[i as int]@);
                        assert(all.skip(i as int).drop_first() =~= all.skip(i + 1));
                        assert(all.skip(i as int)[0] == all[i as int]);
                    }
                    if ps[i].has_aggregate() {
                        return true;
                    }
                }
                assert(all.skip(n as int) =~= Seq::empty());
                false
            },
        }
    }

    /// Whether the expression holds a window function.
    #[verifier::loop_isolation(false)]
    pub fn has_window(&self) -> (r: bool)
        ensures
            r == mentions_window(self@),
        decreases expr_size(self@),
    {
        match self {
            Expr::Window { .. } => true,
            Expr::InSubquery { .. } => false,
            _ => {
                let ps = operands_of(self);
                let n: usize = ps.len();
                let ghost all = operands(self@);
                proof {
                    lemma_parts_size(self@);
                    assert(all.skip(0) =~= all);
                }
                for i in 0..n
                    invariant
                        n == ps@.len(),
                        refs_v(ps@) == all,
                        exprs_size(all) < expr_size(self@),
                        any_mentions_window(all) == any_mentions_window(all.skip(i as int)),
                {
                    proof {
                        lemma_exprs_size_elem(all, i as int);
                        assert(refs_v(ps@)[i as int] == ps@[i as int]@);
                        assert(all.skip(i as int).drop_first() =~= all.skip(i + 1));
                        assert(all.skip(i as int)[0] == all[i as int]);
                    }
                    if ps[i].has_window() {
                        return true;
                    }
                }
                assert(all.skip(n as int) =~= Seq::empty());
                false
            },
        }
    }
}

/// Whether the expression holds a subquery.
#[verifier::loop_isolation(false)]
pub fn expr_has_subquery(e: &Expr) -> (r: bool)
    ensures
        r == mentions_subquery(e@),
    decreases expr_size(e@),
{
    match e {
        Expr::ScalarSubquery(_) | Expr::Exists(_) | Expr::InSubquery { .. } => true,
        _ => {
            let ps = parts_of(e);
            let n: usize = ps.len();
            let ghost all = parts(e@);
            proof {
                lemma_parts_size(e@);
                assert(all.skip(0) =~= all);
            }
            for i in 0..n
                invariant
                    n == ps@.len(),
                    refs_v(ps@) == all,
                    exprs_size(all) < expr_size(e@),
                    any_mentions_subquery(all) == any_mentions_subquery(all.skip(i as int)),
            {
                proof {
                    lemma_exprs_size_elem(all, i as int);
                    assert(refs_v(ps@)[i as int] == ps@[i as int]@);
                    assert(all.skip(i as int).drop_first() =~= all.skip(i + 1));
                    assert(all.skip(i as int)[0] == all[i as int]);
                }
                if expr_has_subquery(ps[i]) {
                    return true;
                }
            }
            assert(all.skip(n as int) =~= Seq::empty());
            false
        },
    }
}

/// The name by which the columns of a table are qualified.
pub open spec fn qualifier_of(t: TableRefV) -> Seq<char> {
    match t.alias {
        Some(a) => a,
        None => t.name,
    }
}

impl TableRef {
    /// The alias where there is one, else the name.
    pub fn qualifier(&self) -> (r: &str)
        ensures
            r@ == qualifier_of(self@),
    {
        match &self.alias {
            Some(a) => a.as_str(),
            None => self.name.as_str(),
        }
    }
}

} // verus!
