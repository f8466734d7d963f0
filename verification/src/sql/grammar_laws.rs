//! What the grammar is for: which operators bind tighter, which way they associate, and what the
//! words of a statement mean.
#[allow(unused_imports)]
use vstd::prelude::*;

#[allow(unused_imports)]
use crate::catalog::{ColType, FkAction, TriggerEvent, TriggerForEach, TriggerTiming};
#[allow(unused_imports)]
use crate::error::ErrorV;
#[allow(unused_imports)]
use crate::record::ValueV;
#[allow(unused_imports)]
use crate::sql::ast::{
    AggFunc, AsOfClause, BinOp, ColumnAstV, CompoundSelectV, ExprV, InsertSourceV, JoinKind, JoinV, OnConflictV, OrderByV,
    SelectItemV, SelectStmtV, SetOp, StmtV, TableRefV, UnOp, WindowFunc,
};
#[allow(unused_imports)]
use crate::sql::grammar::{
    aggregate_named, args_at, as_of_at, attributes_at, chain_at, chain_rest, clause_at, coltype_at, comparison, compare_at,
    compounds_at, core_at, delete_at, event_at, expr_at, exprs_at, extreme_named, fk_action_at, fk_actions_at, for_each_at,
    from_at, if_exists_at, if_not_exists_at, insert_at, insert_columns_at, is_kw, is_tok, item_at, items_at, join_kind_at,
    joins_at, keys_at, name_place, not_at, on_conflict_at, operand_at, operator, order_item_at, ordering_at, over_at, primary_at,
    range_at, returning_at, select_at, set_at, set_op_at, sets_at, skip, stmts_at, stmt_at, suffix_at, table_at, timing_at,
    tok_at, unary_at, update_at, value_rows_at, whens_at, window_call, window_named, At, Source, MAX_EXPR_DEPTH,
};
#[allow(unused_imports)]
use crate::sql::lexer::{Kw, TokV};

verus! {

// --- operators ---

pub open spec fn number(n: i64) -> ExprV {
    ExprV::Literal(ValueV::Integer(n))
}

pub open spec fn joined(l: ExprV, op: BinOp, r: ExprV) -> ExprV {
    ExprV::Binary(Box::new(l), op, Box::new(r))
}

/// A token that ends a sum: none of the operators on numbers and texts.
pub open spec fn ends_sum(t: Option<TokV>) -> bool {
    match t {
        Some(TokV::Plus) => false,
        Some(TokV::Minus) => false,
        Some(TokV::Star) => false,
        Some(TokV::Slash) => false,
        Some(TokV::Percent) => false,
        Some(TokV::Concat) => false,
        Some(TokV::Arrow) => false,
        Some(TokV::ArrowArrow) => false,
        _ => true,
    }
}

/// A token that ends a comparison too.
pub open spec fn ends_comparison(t: Option<TokV>) -> bool {
    &&& ends_sum(t)
    &&& match t {
        Some(TokV::Eq) => false,
        Some(TokV::Ne) => false,
        Some(TokV::Lt) => false,
        Some(TokV::Le) => false,
        Some(TokV::Gt) => false,
        Some(TokV::Ge) => false,
        Some(TokV::Kw(Kw::Is)) => false,
        Some(TokV::Kw(Kw::Not)) => false,
        Some(TokV::Kw(Kw::Like)) => false,
        Some(TokV::Kw(Kw::In)) => false,
        Some(TokV::Kw(Kw::Between)) => false,
        _ => true,
    }
}

/// A token that ends an expression.
pub open spec fn ends_expression(t: Option<TokV>) -> bool {
    ends_comparison(t) && t != Some(TokV::Kw(Kw::And)) && t != Some(TokV::Kw(Kw::Or))
}

/// `+` and `-`.
pub open spec fn sum_op(t: TokV) -> Option<BinOp> {
    match t {
        TokV::Plus => Some(BinOp::Add),
        TokV::Minus => Some(BinOp::Sub),
        _ => None,
    }
}

/// `*`, `/` and `%`.
pub open spec fn product_op(t: TokV) -> Option<BinOp> {
    match t {
        TokV::Star => Some(BinOp::Mul),
        TokV::Slash => Some(BinOp::Div),
        TokV::Percent => Some(BinOp::Mod),
        _ => None,
    }
}

/// A number stands at `i`.
pub open spec fn is_number(c: Source, i: int, n: i64) -> bool {
    0 <= i < c.toks.len() && c.toks[i].tok == TokV::Int(n)
}

/// A token stands at `i`.
pub open spec fn stands(c: Source, i: int, t: TokV) -> bool {
    0 <= i < c.toks.len() && c.toks[i].tok == t
}

proof fn lemma_tight(c: Source, st: At, d: int, n: i64)
    requires
        is_number(c, st.i, n),
        !(tok_at(c, st.i + 1) matches Some(TokV::Concat)),
        !(tok_at(c, st.i + 1) matches Some(TokV::Arrow)),
        !(tok_at(c, st.i + 1) matches Some(TokV::ArrowArrow)),
    ensures
        chain_at(c, st, d, 4) == Ok::<(ExprV, At), ErrorV>((number(n), skip(st, 1))),
        operand_at(c, st, d, 3) == Ok::<(ExprV, At), ErrorV>((number(n), skip(st, 1))),
{
    assert(primary_at(c, st, d) == Ok::<(ExprV, At), ErrorV>((number(n), skip(st, 1))));
    assert(unary_at(c, st, d) == primary_at(c, st, d));
    assert(operand_at(c, st, d, 4) == unary_at(c, st, d));
    assert(operator(4, tok_at(c, st.i + 1)) is None);
    assert(chain_rest(c, skip(st, 1), d, 4, number(n)) == Ok::<(ExprV, At), ErrorV>((number(n), skip(st, 1))));
}

/// The products of one number.
proof fn lemma_product(c: Source, st: At, d: int, n: i64)
    requires
        is_number(c, st.i, n),
        ends_sum(tok_at(c, st.i + 1)) || tok_at(c, st.i + 1) == Some(TokV::Plus) || tok_at(c, st.i + 1) == Some(TokV::Minus),
    ensures
        chain_at(c, st, d, 3) == Ok::<(ExprV, At), ErrorV>((number(n), skip(st, 1))),
        operand_at(c, st, d, 2) == Ok::<(ExprV, At), ErrorV>((number(n), skip(st, 1))),
{
    lemma_tight(c, st, d, n);
    assert(operator(3, tok_at(c, st.i + 1)) is None);
    assert(chain_rest(c, skip(st, 1), d, 3, number(n)) == Ok::<(ExprV, At), ErrorV>((number(n), skip(st, 1))));
}

/// A product of two numbers.
proof fn lemma_product_of_two(c: Source, st: At, d: int, m: i64, op: TokV, n: i64)
    requires
        is_number(c, st.i, m),
        stands(c, st.i + 1, op),
        product_op(op) is Some,
        is_number(c, st.i + 2, n),
        ends_sum(tok_at(c, st.i + 3)) || tok_at(c, st.i + 3) == Some(TokV::Plus) || tok_at(c, st.i + 3) == Some(TokV::Minus),
    ensures
        chain_at(c, st, d, 3) == Ok::<(ExprV, At), ErrorV>((joined(number(m), product_op(op)->0, number(n)), skip(st, 3))),
        operand_at(c, st, d, 2) == chain_at(c, st, d, 3),
{
    lemma_tight(c, st, d, m);
    let s1 = skip(st, 1);
    let s2 = skip(s1, 1);
    lemma_tight(c, s2, d, n);
    let e = joined(number(m), product_op(op)->0, number(n));
    assert(operator(3, tok_at(c, s1.i)) == Some(product_op(op)->0));
    let s3 = skip(s2, 1);
    assert(operator(3, tok_at(c, s3.i)) is None);
    assert(chain_rest(c, s3, d, 3, e) == Ok::<(ExprV, At), ErrorV>((e, s3)));
    assert(chain_rest(c, s1, d, 3, number(m)) == chain_rest(c, s3, d, 3, e));
    assert(s3 == skip(st, 3));
}

/// A product binds tighter than a sum, on either side of it: `x + y * z` adds the product, and
/// `x * y + z` adds to the product.
pub proof fn products_bind_tighter_than_sums(c: Source, st: At, d: int, x: i64, plus: TokV, y: i64, times: TokV, z: i64)
    requires
        sum_op(plus) is Some,
        product_op(times) is Some,
        is_number(c, st.i, x),
        is_number(c, st.i + 2, y),
        is_number(c, st.i + 4, z),
        ends_sum(tok_at(c, st.i + 5)),
    ensures
        stands(c, st.i + 1, plus) && stands(c, st.i + 3, times) ==> chain_at(c, st, d, 2) == Ok::<(ExprV, At), ErrorV>((joined(number(x), sum_op(plus)->0, joined(number(y), product_op(times)->0, number(z))), skip(st, 5))),
        stands(c, st.i + 1, times) && stands(c, st.i + 3, plus) ==> chain_at(c, st, d, 2) == Ok::<(ExprV, At), ErrorV>((joined(joined(number(x), product_op(times)->0, number(y)), sum_op(plus)->0, number(z)), skip(st, 5))),
{
    let s5 = skip(st, 5);
    assert(operator(2, tok_at(c, s5.i)) is None);
    if stands(c, st.i + 1, plus) && stands(c, st.i + 3, times) {
        lemma_product(c, st, d, x);
        let s1 = skip(st, 1);
        let s2 = skip(s1, 1);
        lemma_product_of_two(c, s2, d, y, times, z);
        let e = joined(number(x), sum_op(plus)->0, joined(number(y), product_op(times)->0, number(z)));
        assert(skip(s2, 3) == s5);
        assert(operator(2, tok_at(c, s1.i)) == Some(sum_op(plus)->0));
        assert(chain_rest(c, s5, d, 2, e) == Ok::<(ExprV, At), ErrorV>((e, s5)));
        assert(chain_rest(c, s1, d, 2, number(x)) == chain_rest(c, s5, d, 2, e));
    }
    if stands(c, st.i + 1, times) && stands(c, st.i + 3, plus) {
        lemma_product_of_two(c, st, d, x, times, y);
        let s3 = skip(st, 3);
        let s4 = skip(s3, 1);
        lemma_product(c, s4, d, z);
        let l = joined(number(x), product_op(times)->0, number(y));
        let e = joined(l, sum_op(plus)->0, number(z));
        assert(skip(s4, 1) == s5);
        assert(operator(2, tok_at(c, s3.i)) == Some(sum_op(plus)->0));
        assert(chain_rest(c, s5, d, 2, e) == Ok::<(ExprV, At), ErrorV>((e, s5)));
        assert(chain_rest(c, s3, d, 2, l) == chain_rest(c, s5, d, 2, e));
    }
}

/// Operators of one level are taken from the left: after `l`, an operator and an operand `r` make
/// one expression, which is the left operand of what follows.
pub proof fn operators_associate_to_the_left(c: Source, st: At, d: int, level: int, l: ExprV, op: BinOp, r: ExprV, s1: At)
    requires
        operator(level, tok_at(c, st.i)) == Some(op),
        operand_at(c, skip(st, 1), d, level) == Ok::<(ExprV, At), ErrorV>((r, s1)),
        st.i + 1 < s1.i <= c.toks.len(),
    ensures
        chain_rest(c, st, d, level, l) == chain_rest(c, s1, d, level, joined(l, op, r)),
        operator(level, tok_at(c, s1.i)) is None ==> chain_rest(c, st, d, level, l) == Ok::<(ExprV, At), ErrorV>((joined(l, op, r), s1)),
{
    assert(chain_rest(c, st, d, level, l) == chain_rest(c, s1, d, level, joined(l, op, r)));
}

proof fn lemma_sum(c: Source, st: At, d: int, n: i64)
    requires
        is_number(c, st.i, n),
        ends_sum(tok_at(c, st.i + 1)),
    ensures
        chain_at(c, st, d, 2) == Ok::<(ExprV, At), ErrorV>((number(n), skip(st, 1))),
{
    lemma_product(c, st, d, n);
    assert(operator(2, tok_at(c, st.i + 1)) is None);
    assert(chain_rest(c, skip(st, 1), d, 2, number(n)) == Ok::<(ExprV, At), ErrorV>((number(n), skip(st, 1))));
}

proof fn lemma_compared(c: Source, st: At, d: int, n: i64)
    requires
        is_number(c, st.i, n),
        ends_comparison(tok_at(c, st.i + 1)),
    ensures
        not_at(c, st, d) == Ok::<(ExprV, At), ErrorV>((number(n), skip(st, 1))),
        operand_at(c, st, d, 1) == Ok::<(ExprV, At), ErrorV>((number(n), skip(st, 1))),
{
    lemma_sum(c, st, d, n);
    assert(suffix_at(c, skip(st, 1), d, number(n)) == Ok::<(ExprV, At), ErrorV>((number(n), skip(st, 1))));
    assert(compare_at(c, st, d) == Ok::<(ExprV, At), ErrorV>((number(n), skip(st, 1))));
}

/// A comparison binds tighter than NOT, and looser than a sum: `NOT x = y` is the negation of the
/// comparison, and `x + y < z` compares the sum.
pub proof fn comparisons_bind_between_sums_and_not(c: Source, st: At, d: int, x: i64, y: i64, z: i64, plus: TokV)
    requires
        d + 1 <= MAX_EXPR_DEPTH,
        sum_op(plus) is Some,
    ensures
        stands(c, st.i, TokV::Kw(Kw::Not)) && is_number(c, st.i + 1, x) && stands(c, st.i + 2, TokV::Eq) && is_number(c, st.i + 3, y) && ends_comparison(tok_at(c, st.i + 4)) ==> not_at(c, st, d) == Ok::<(ExprV, At), ErrorV>((ExprV::Unary(UnOp::Not, Box::new(joined(number(x), BinOp::Eq, number(y)))), skip(st, 4))),
        is_number(c, st.i, x) && stands(c, st.i + 1, plus) && is_number(c, st.i + 2, y) && stands(c, st.i + 3, TokV::Lt) && is_number(c, st.i + 4, z) && ends_comparison(tok_at(c, st.i + 5)) ==> compare_at(c, st, d) == Ok::<(ExprV, At), ErrorV>((joined(joined(number(x), sum_op(plus)->0, number(y)), BinOp::Lt, number(z)), skip(st, 5))),
{
    if stands(c, st.i, TokV::Kw(Kw::Not)) && is_number(c, st.i + 1, x) && stands(c, st.i + 2, TokV::Eq) && is_number(c, st.i + 3, y) && ends_comparison(tok_at(c, st.i + 4)) {
        let s1 = skip(st, 1);
        let s2 = skip(s1, 1);
        let s3 = skip(s2, 1);
        let e = joined(number(x), BinOp::Eq, number(y));
        lemma_sum(c, s1, d + 1, x);
        lemma_sum(c, s3, d + 1, y);
        assert(comparison(tok_at(c, s2.i)) == Some(BinOp::Eq));
        assert(suffix_at(c, s2, d + 1, number(x)) == Ok::<(ExprV, At), ErrorV>((e, skip(s3, 1))));
        assert(compare_at(c, s1, d + 1) == Ok::<(ExprV, At), ErrorV>((e, skip(s3, 1))));
        assert(not_at(c, s1, d + 1) == compare_at(c, s1, d + 1));
        assert(skip(s3, 1) == skip(st, 4));
    }
    if is_number(c, st.i, x) && stands(c, st.i + 1, plus) && is_number(c, st.i + 2, y) && stands(c, st.i + 3, TokV::Lt) && is_number(c, st.i + 4, z) && ends_comparison(tok_at(c, st.i + 5)) {
        let s1 = skip(st, 1);
        let s2 = skip(s1, 1);
        let s3 = skip(s2, 1);
        let s4 = skip(s3, 1);
        lemma_product(c, st, d, x);
        lemma_product(c, s2, d, y);
        let l = joined(number(x), sum_op(plus)->0, number(y));
        assert(operator(2, tok_at(c, s1.i)) == Some(sum_op(plus)->0));
        assert(operator(2, tok_at(c, s3.i)) is None);
        assert(chain_rest(c, s3, d, 2, l) == Ok::<(ExprV, At), ErrorV>((l, s3)));
        assert(chain_rest(c, s1, d, 2, number(x)) == chain_rest(c, s3, d, 2, l));
        assert(chain_at(c, st, d, 2) == Ok::<(ExprV, At), ErrorV>((l, s3)));
        lemma_sum(c, s4, d, z);
        assert(comparison(tok_at(c, s3.i)) == Some(BinOp::Lt));
        assert(suffix_at(c, s3, d, l) == Ok::<(ExprV, At), ErrorV>((joined(l, BinOp::Lt, number(z)), skip(s4, 1))));
        assert(skip(s4, 1) == skip(st, 5));
    }
}

/// AND binds tighter than OR, on either side of it.
pub proof fn and_binds_tighter_than_or(c: Source, st: At, d: int, x: i64, y: i64, z: i64)
    requires
        is_number(c, st.i, x),
        is_number(c, st.i + 2, y),
        is_number(c, st.i + 4, z),
        ends_expression(tok_at(c, st.i + 5)),
    ensures
        stands(c, st.i + 1, TokV::Kw(Kw::Or)) && stands(c, st.i + 3, TokV::Kw(Kw::And)) ==> chain_at(c, st, d, 0) == Ok::<(ExprV, At), ErrorV>((joined(number(x), BinOp::Or, joined(number(y), BinOp::And, number(z))), skip(st, 5))),
        stands(c, st.i + 1, TokV::Kw(Kw::And)) && stands(c, st.i + 3, TokV::Kw(Kw::Or)) ==> chain_at(c, st, d, 0) == Ok::<(ExprV, At), ErrorV>((joined(joined(number(x), BinOp::And, number(y)), BinOp::Or, number(z)), skip(st, 5))),
{
    let s1 = skip(st, 1);
    let s2 = skip(s1, 1);
    let s3 = skip(s2, 1);
    let s4 = skip(s3, 1);
    let s5 = skip(s4, 1);
    assert(s5 == skip(st, 5));
    assert(operator(0, tok_at(c, s5.i)) is None && operator(1, tok_at(c, s5.i)) is None);
    if stands(c, st.i + 1, TokV::Kw(Kw::Or)) && stands(c, st.i + 3, TokV::Kw(Kw::And)) {
        lemma_compared(c, st, d, x);
        lemma_compared(c, s2, d, y);
        lemma_compared(c, s4, d, z);
        let r = joined(number(y), BinOp::And, number(z));
        let e = joined(number(x), BinOp::Or, r);
        assert(chain_rest(c, s1, d, 1, number(x)) == Ok::<(ExprV, At), ErrorV>((number(x), s1)));
        assert(chain_at(c, st, d, 1) == Ok::<(ExprV, At), ErrorV>((number(x), s1)));
        assert(chain_rest(c, s5, d, 1, r) == Ok::<(ExprV, At), ErrorV>((r, s5)));
        assert(chain_rest(c, s3, d, 1, number(y)) == chain_rest(c, s5, d, 1, r));
        assert(chain_at(c, s2, d, 1) == Ok::<(ExprV, At), ErrorV>((r, s5)));
        assert(operand_at(c, st, d, 0) == chain_at(c, st, d, 1));
        assert(operand_at(c, s2, d, 0) == chain_at(c, s2, d, 1));
        assert(chain_rest(c, s5, d, 0, e) == Ok::<(ExprV, At), ErrorV>((e, s5)));
        assert(chain_rest(c, s1, d, 0, number(x)) == chain_rest(c, s5, d, 0, e));
    }
    if stands(c, st.i + 1, TokV::Kw(Kw::And)) && stands(c, st.i + 3, TokV::Kw(Kw::Or)) {
        lemma_compared(c, st, d, x);
        lemma_compared(c, s2, d, y);
        lemma_compared(c, s4, d, z);
        let l = joined(number(x), BinOp::And, number(y));
        let e = joined(l, BinOp::Or, number(z));
        assert(chain_rest(c, s3, d, 1, l) == Ok::<(ExprV, At), ErrorV>((l, s3)));
        assert(chain_rest(c, s1, d, 1, number(x)) == chain_rest(c, s3, d, 1, l));
        assert(chain_at(c, st, d, 1) == Ok::<(ExprV, At), ErrorV>((l, s3)));
        assert(chain_rest(c, s5, d, 1, number(z)) == Ok::<(ExprV, At), ErrorV>((number(z), s5)));
        assert(chain_at(c, s4, d, 1) == Ok::<(ExprV, At), ErrorV>((number(z), s5)));
        assert(operand_at(c, st, d, 0) == chain_at(c, st, d, 1));
        assert(operand_at(c, s4, d, 0) == chain_at(c, s4, d, 1));
        assert(chain_rest(c, s5, d, 0, e) == Ok::<(ExprV, At), ErrorV>((e, s5)));
        assert(chain_rest(c, s3, d, 0, l) == chain_rest(c, s5, d, 0, e));
    }
}

/// A minus before a number takes that number alone.
pub proof fn minus_takes_the_next_operand(c: Source, st: At, d: int, x: i64, times: TokV, y: i64)
    requires
        d + 1 <= MAX_EXPR_DEPTH,
        product_op(times) is Some,
        stands(c, st.i, TokV::Minus),
        is_number(c, st.i + 1, x),
        stands(c, st.i + 2, times),
        is_number(c, st.i + 3, y),
        ends_sum(tok_at(c, st.i + 4)),
    ensures
        chain_at(c, st, d, 3) == Ok::<(ExprV, At), ErrorV>((joined(ExprV::Unary(UnOp::Neg, Box::new(number(x))), product_op(times)->0, number(y)), skip(st, 4))),
{
    let s1 = skip(st, 1);
    let s2 = skip(s1, 1);
    let s3 = skip(s2, 1);
    let s4 = skip(s3, 1);
    let l = ExprV::Unary(UnOp::Neg, Box::new(number(x)));
    assert(primary_at(c, s1, d + 1) == Ok::<(ExprV, At), ErrorV>((number(x), s2)));
    assert(unary_at(c, s1, d + 1) == Ok::<(ExprV, At), ErrorV>((number(x), s2)));
    assert(unary_at(c, st, d) == Ok::<(ExprV, At), ErrorV>((l, s2)));
    assert(operand_at(c, st, d, 4) == unary_at(c, st, d));
    assert(operator(4, tok_at(c, s2.i)) is None);
    assert(chain_rest(c, s2, d, 4, l) == Ok::<(ExprV, At), ErrorV>((l, s2)));
    assert(chain_at(c, st, d, 4) == Ok::<(ExprV, At), ErrorV>((l, s2)));
    lemma_tight(c, s3, d, y);
    let e = joined(l, product_op(times)->0, number(y));
    assert(operator(3, tok_at(c, s2.i)) == Some(product_op(times)->0));
    assert(operator(3, tok_at(c, s4.i)) is None);
    assert(chain_rest(c, s4, d, 3, e) == Ok::<(ExprV, At), ErrorV>((e, s4)));
    assert(chain_rest(c, s2, d, 3, l) == chain_rest(c, s4, d, 3, e));
    assert(s4 == skip(st, 4));
}

// --- what follows an operand ---

/// IS NULL, IS NOT NULL, and comparisons by their signs.
pub proof fn tests_and_comparisons_are_read(c: Source, st: At, d: int, l: ExprV, r: ExprV, s2: At)
    requires
        0 <= st.i,
        chain_at(c, skip(st, 1), d, 2) == Ok::<(ExprV, At), ErrorV>((r, s2)),
        st.i + 1 < s2.i <= c.toks.len(),
    ensures
        is_kw(c, st.i, Kw::Is) && is_kw(c, st.i + 1, Kw::Null) ==> suffix_at(c, st, d, l) == Ok::<(ExprV, At), ErrorV>((ExprV::IsNull { expr: Box::new(l), negated: false }, skip(st, 2))),
        is_kw(c, st.i, Kw::Is) && is_kw(c, st.i + 1, Kw::Not) && is_kw(c, st.i + 2, Kw::Null) ==> suffix_at(c, st, d, l) == Ok::<(ExprV, At), ErrorV>((ExprV::IsNull { expr: Box::new(l), negated: true }, skip(st, 3))),
        is_tok(c, st.i, TokV::Eq) ==> suffix_at(c, st, d, l) == Ok::<(ExprV, At), ErrorV>((joined(l, BinOp::Eq, r), s2)),
        is_tok(c, st.i, TokV::Ne) ==> suffix_at(c, st, d, l) == Ok::<(ExprV, At), ErrorV>((joined(l, BinOp::Ne, r), s2)),
        is_tok(c, st.i, TokV::Lt) ==> suffix_at(c, st, d, l) == Ok::<(ExprV, At), ErrorV>((joined(l, BinOp::Lt, r), s2)),
        is_tok(c, st.i, TokV::Le) ==> suffix_at(c, st, d, l) == Ok::<(ExprV, At), ErrorV>((joined(l, BinOp::Le, r), s2)),
        is_tok(c, st.i, TokV::Gt) ==> suffix_at(c, st, d, l) == Ok::<(ExprV, At), ErrorV>((joined(l, BinOp::Gt, r), s2)),
        is_tok(c, st.i, TokV::Ge) ==> suffix_at(c, st, d, l) == Ok::<(ExprV, At), ErrorV>((joined(l, BinOp::Ge, r), s2)),
        is_kw(c, st.i, Kw::Like) ==> suffix_at(c, st, d, l) == Ok::<(ExprV, At), ErrorV>((ExprV::Like { expr: Box::new(l), pattern: Box::new(r), negated: false }, s2)),
{
    assert(skip(st, 1).i == st.i + 1);
    assert(skip(skip(st, 1), 1) == skip(st, 2));
    assert(skip(skip(st, 2), 1) == skip(st, 3));
}

/// `x BETWEEN lo AND hi` is `x >= lo AND x <= hi`, and `x NOT BETWEEN lo AND hi` is `x < lo OR x >
/// hi`; NOT LIKE and NOT IN are negated.
pub proof fn ranges_are_two_comparisons(c: Source, st: At, d: int, x: ExprV, lo: ExprV, s1: At, hi: ExprV, s3: At)
    requires
        0 <= st.i,
        st.i < s1.i < s3.i <= c.toks.len(),
        s1.i + 1 < s3.i,
        chain_at(c, st, d, 2) == Ok::<(ExprV, At), ErrorV>((lo, s1)),
        is_kw(c, s1.i, Kw::And),
        chain_at(c, skip(s1, 1), d, 2) == Ok::<(ExprV, At), ErrorV>((hi, s3)),
    ensures
        range_at(c, st, d, x, false) == Ok::<(ExprV, At), ErrorV>((joined(joined(x, BinOp::Ge, lo), BinOp::And, joined(x, BinOp::Le, hi)), s3)),
        range_at(c, st, d, x, true) == Ok::<(ExprV, At), ErrorV>((joined(joined(x, BinOp::Lt, lo), BinOp::Or, joined(x, BinOp::Gt, hi)), s3)),
{
}

/// NOT before BETWEEN, LIKE or IN negates it.
pub proof fn not_before_a_test_negates_it(c: Source, st: At, d: int, x: ExprV, list: Seq<ExprV>, s1: At, p: ExprV, s2: At)
    requires
        0 <= st.i,
        is_kw(c, st.i, Kw::Not),
    ensures
        is_kw(c, st.i + 1, Kw::Between) ==> suffix_at(c, st, d, x) == range_at(c, skip(st, 2), d, x, true),
        is_kw(c, st.i + 1, Kw::Like) && chain_at(c, skip(st, 2), d, 2) == Ok::<(ExprV, At), ErrorV>((p, s2)) && st.i + 2 < s2.i <= c.toks.len() ==> suffix_at(c, st, d, x) == Ok::<(ExprV, At), ErrorV>((ExprV::Like { expr: Box::new(x), pattern: Box::new(p), negated: true }, s2)),
        is_kw(c, st.i + 1, Kw::In) && is_tok(c, st.i + 2, TokV::LParen) && !is_kw(c, st.i + 3, Kw::Select) && args_at(c, skip(st, 3), d) == Ok::<(Seq<ExprV>, At), ErrorV>((list, s1)) && st.i + 3 < s1.i <= c.toks.len() ==> suffix_at(c, st, d, x) == Ok::<(ExprV, At), ErrorV>((ExprV::In { expr: Box::new(x), list, negated: true }, s1)),
{
    assert(skip(skip(st, 1), 1) == skip(st, 2));
    assert(skip(skip(st, 2), 1) == skip(st, 3));
}

/// Without NOT they are not negated.
pub proof fn tests_without_not_are_plain(c: Source, st: At, d: int, x: ExprV, list: Seq<ExprV>, s1: At)
    requires
        0 <= st.i,
    ensures
        is_kw(c, st.i, Kw::Between) ==> suffix_at(c, st, d, x) == range_at(c, skip(st, 1), d, x, false),
        is_kw(c, st.i, Kw::In) && is_tok(c, st.i + 1, TokV::LParen) && !is_kw(c, st.i + 2, Kw::Select) && args_at(c, skip(st, 2), d) == Ok::<(Seq<ExprV>, At), ErrorV>((list, s1)) && st.i + 2 < s1.i <= c.toks.len() ==> suffix_at(c, st, d, x) == Ok::<(ExprV, At), ErrorV>((ExprV::In { expr: Box::new(x), list, negated: false }, s1)),
{
    assert(skip(skip(st, 1), 1) == skip(st, 2));
}

// --- operands ---

/// A literal has the value that is written, a name is a column, and a name after a qualifier and a
/// dot is the column of that table.
pub proof fn operands_mean_what_is_written(c: Source, st: At, d: int, n: i64, b: u64, t: Seq<char>, x: Seq<u8>, name: Seq<char>, col: Seq<char>)
    ensures
        is_tok(c, st.i, TokV::Int(n)) ==> primary_at(c, st, d) == Ok::<(ExprV, At), ErrorV>((number(n), skip(st, 1))),
        is_tok(c, st.i, TokV::Float(b)) ==> primary_at(c, st, d) == Ok::<(ExprV, At), ErrorV>((ExprV::Literal(ValueV::Real(b)), skip(st, 1))),
        is_tok(c, st.i, TokV::Str(t)) ==> primary_at(c, st, d) == Ok::<(ExprV, At), ErrorV>((ExprV::Literal(ValueV::Text(t)), skip(st, 1))),
        is_tok(c, st.i, TokV::Blob(x)) ==> primary_at(c, st, d) == Ok::<(ExprV, At), ErrorV>((ExprV::Literal(ValueV::Blob(x)), skip(st, 1))),
        is_kw(c, st.i, Kw::Null) ==> primary_at(c, st, d) == Ok::<(ExprV, At), ErrorV>((ExprV::Literal(ValueV::Null), skip(st, 1))),
        is_kw(c, st.i, Kw::True) ==> primary_at(c, st, d) == Ok::<(ExprV, At), ErrorV>((ExprV::Literal(ValueV::Bool(true)), skip(st, 1))),
        is_kw(c, st.i, Kw::False) ==> primary_at(c, st, d) == Ok::<(ExprV, At), ErrorV>((ExprV::Literal(ValueV::Bool(false)), skip(st, 1))),
        is_tok(c, st.i, TokV::Ident(name)) && is_tok(c, st.i + 1, TokV::Dot) && is_tok(c, st.i + 2, TokV::Ident(col)) ==> primary_at(c, st, d) == Ok::<(ExprV, At), ErrorV>((ExprV::Column { table: Some(name), name: col }, skip(st, 3))),
        is_tok(c, st.i, TokV::Ident(name)) && !is_tok(c, st.i + 1, TokV::Dot) && !is_tok(c, st.i + 1, TokV::LParen) ==> primary_at(c, st, d) == Ok::<(ExprV, At), ErrorV>((ExprV::Column { table: None, name }, skip(st, 1))),
{
    assert(skip(skip(st, 2), 1) == skip(st, 3));
}

proof fn lemma_name_place(names: Seq<Seq<char>>, name: Seq<char>)
    ensures
        0 <= name_place(names, name) <= names.len(),
        name_place(names, name) < names.len() ==> names[name_place(names, name)] == name,
        name_place(names, name) == names.len() ==> !names.contains(name),
        forall|k: int| 0 <= k < name_place(names, name) ==> #[trigger] names[k] != name,
    decreases names.len(),
{
    if names.len() > 0 && names[0] != name {
        let rest = names.drop_first();
        lemma_name_place(rest, name);
        assert forall|k: int| 0 <= k < name_place(names, name) implies #[trigger] names[k] != name by {
            if k > 0 {
                assert(rest[k - 1] == names[k]);
            }
        }
        if name_place(names, name) == names.len() {
            assert forall|k: int| 0 <= k < names.len() implies names[k] != name by {
                if k > 0 {
                    assert(rest[k - 1] == names[k]);
                    assert(!rest.contains(name));
                }
            }
        }
    }
}

/// A named parameter has the number of its name among the names seen, from one: a name that was
/// seen keeps its number, a new one gets the next. A numbered parameter keeps its number. The two
/// kinds are not mixed.
pub proof fn parameters_are_numbered(c: Source, st: At, d: int, n: usize, name: Seq<char>)
    requires
        st.names.len() < usize::MAX,
    ensures
        is_tok(c, st.i, TokV::Param(n)) && st.names.len() == 0 ==> primary_at(c, st, d) is Ok && primary_at(c, st, d)->Ok_0.0 == ExprV::Param(n),
        is_tok(c, st.i, TokV::Param(n)) && st.names.len() > 0 ==> primary_at(c, st, d) is Err,
        is_tok(c, st.i, TokV::NamedParam(name)) && st.numbered ==> primary_at(c, st, d) is Err,
        is_tok(c, st.i, TokV::NamedParam(name)) && !st.numbered ==> {
            let r = primary_at(c, st, d);
            &&& r is Ok
            &&& r->Ok_0.0 is Param
            &&& r->Ok_0.1.i == st.i + 1
            &&& 1 <= r->Ok_0.0->Param_0 <= r->Ok_0.1.names.len()
            &&& r->Ok_0.1.names[r->Ok_0.0->Param_0 - 1] == name
            &&& st.names.contains(name) ==> r->Ok_0.1.names == st.names
            &&& !st.names.contains(name) ==> r->Ok_0.1.names == st.names.push(name) && r->Ok_0.0->Param_0 == st.names.len() + 1
        },
{
    lemma_name_place(st.names, name);
}

/// Arguments and lists are read in their order.
pub proof fn lists_keep_their_order(c: Source, st: At, d: int, e: ExprV, s1: At, rest: Seq<ExprV>, s2: At)
    requires
        expr_at(c, st, d) == Ok::<(ExprV, At), ErrorV>((e, s1)),
        st.i < s1.i <= c.toks.len(),
    ensures
        !is_tok(c, s1.i, TokV::Comma) ==> exprs_at(c, st, d) == Ok::<(Seq<ExprV>, At), ErrorV>((seq![e], s1)),
        is_tok(c, s1.i, TokV::Comma) && exprs_at(c, skip(s1, 1), d) == Ok::<(Seq<ExprV>, At), ErrorV>((rest, s2)) ==> exprs_at(c, st, d) == Ok::<(Seq<ExprV>, At), ErrorV>((seq![e] + rest, s2)),
{
}

/// The branches of CASE keep their conditions and results, in their order.
pub proof fn branches_keep_their_order(c: Source, st: At, d: int, a: ExprV, s1: At, b: ExprV, s3: At, rest: Seq<(ExprV, ExprV)>, s4: At)
    requires
        is_kw(c, st.i, Kw::When),
        expr_at(c, skip(st, 1), d) == Ok::<(ExprV, At), ErrorV>((a, s1)),
        st.i + 1 < s1.i <= c.toks.len(),
        is_kw(c, s1.i, Kw::Then),
        expr_at(c, skip(s1, 1), d) == Ok::<(ExprV, At), ErrorV>((b, s3)),
        s1.i + 1 < s3.i <= c.toks.len(),
        whens_at(c, s3, d) == Ok::<(Seq<(ExprV, ExprV)>, At), ErrorV>((rest, s4)),
    ensures
        whens_at(c, st, d) == Ok::<(Seq<(ExprV, ExprV)>, At), ErrorV>((seq![(a, b)] + rest, s4)),
{
}

/// The names of aggregates and window functions.
pub proof fn functions_are_named()
    ensures
        aggregate_named("COUNT"@) == Some(AggFunc::Count),
        aggregate_named("SUM"@) == Some(AggFunc::Sum),
        aggregate_named("AVG"@) == Some(AggFunc::Avg),
        aggregate_named("GROUP_CONCAT"@) == Some(AggFunc::GroupConcat),
        extreme_named("MIN"@) == Some(AggFunc::Min),
        extreme_named("MAX"@) == Some(AggFunc::Max),
        window_named("ROW_NUMBER"@) == Some(WindowFunc::RowNumber),
        window_named("RANK"@) == Some(WindowFunc::Rank),
        window_named("DENSE_RANK"@) == Some(WindowFunc::DenseRank),
        window_named("NTILE"@) == Some(WindowFunc::Ntile),
        window_named("LAG"@) == Some(WindowFunc::Lag),
        window_named("LEAD"@) == Some(WindowFunc::Lead),
        window_named("FIRST_VALUE"@) == Some(WindowFunc::FirstValue),
        window_named("LAST_VALUE"@) == Some(WindowFunc::LastValue),
{
    reveal_strlit("COUNT");
    reveal_strlit("SUM");
    reveal_strlit("AVG");
    reveal_strlit("GROUP_CONCAT");
    reveal_strlit("MIN");
    reveal_strlit("MAX");
    reveal_strlit("ROW_NUMBER");
    reveal_strlit("RANK");
    reveal_strlit("DENSE_RANK");
    reveal_strlit("NTILE");
    reveal_strlit("LAG");
    reveal_strlit("LEAD");
    reveal_strlit("FIRST_VALUE");
    reveal_strlit("LAST_VALUE");
    assert("COUNT"@.len() == 5);
    assert("SUM"@.len() == 3);
    assert("AVG"@.len() == 3);
    assert("GROUP_CONCAT"@.len() == 12);
    assert("MIN"@.len() == 3);
    assert("MAX"@.len() == 3);
    assert("ROW_NUMBER"@.len() == 10);
    assert("RANK"@.len() == 4);
    assert("DENSE_RANK"@.len() == 10);
    assert("NTILE"@.len() == 5);
    assert("LAG"@.len() == 3);
    assert("LEAD"@.len() == 4);
    assert("FIRST_VALUE"@.len() == 11);
    assert("LAST_VALUE"@.len() == 10);
    assert("SUM"@[0] != "AVG"@[0]);
    assert("MIN"@[1] != "MAX"@[1]);
    assert("ROW_NUMBER"@[0] != "DENSE_RANK"@[0]);
    assert("ROW_NUMBER"@[0] != "LAST_VALUE"@[0]);
    assert("DENSE_RANK"@[0] != "LAST_VALUE"@[0]);
    assert("RANK"@[0] != "LEAD"@[0]);
}

/// An aggregate before OVER becomes the window function that computes the same, over the same
/// argument.
pub proof fn aggregates_become_windows(x: ExprV)
    ensures
        window_call(ExprV::Aggregate { func: AggFunc::Sum, arg: Some(Box::new(x)), distinct: false, sep: None }) == Ok::<(WindowFunc, Seq<ExprV>), Seq<char>>((WindowFunc::Sum, seq![x])),
        window_call(ExprV::Aggregate { func: AggFunc::Count, arg: Some(Box::new(x)), distinct: false, sep: None }) == Ok::<(WindowFunc, Seq<ExprV>), Seq<char>>((WindowFunc::Count, seq![x])),
        window_call(ExprV::Aggregate { func: AggFunc::Count, arg: None, distinct: false, sep: None }) == Ok::<(WindowFunc, Seq<ExprV>), Seq<char>>((WindowFunc::Count, Seq::empty())),
        window_call(ExprV::Aggregate { func: AggFunc::Avg, arg: Some(Box::new(x)), distinct: false, sep: None }) == Ok::<(WindowFunc, Seq<ExprV>), Seq<char>>((WindowFunc::Avg, seq![x])),
        window_call(ExprV::Aggregate { func: AggFunc::Min, arg: Some(Box::new(x)), distinct: false, sep: None }) == Ok::<(WindowFunc, Seq<ExprV>), Seq<char>>((WindowFunc::Min, seq![x])),
        window_call(ExprV::Aggregate { func: AggFunc::Max, arg: Some(Box::new(x)), distinct: false, sep: None }) == Ok::<(WindowFunc, Seq<ExprV>), Seq<char>>((WindowFunc::Max, seq![x])),
        window_call(ExprV::Aggregate { func: AggFunc::Sum, arg: Some(Box::new(x)), distinct: true, sep: None }) is Err,
{
    reveal(window_call);
}

/// A window keeps its parts: PARTITION BY first, then ORDER BY. A call without OVER stays a call.
pub proof fn windows_keep_their_parts(c: Source, st: At, d: int, call: ExprV, func: WindowFunc, args: Seq<ExprV>, partition_by: Seq<ExprV>, s3: At, order_by: Seq<OrderByV>, s4: At)
    requires
        window_call(call) == Ok::<(WindowFunc, Seq<ExprV>), Seq<char>>((func, args)),
        keys_at(c, skip(st, 2), d, Kw::Partition) == Ok::<(Seq<ExprV>, At), ErrorV>((partition_by, s3)),
        ordering_at(c, s3) == Ok::<(Seq<OrderByV>, At), ErrorV>((order_by, s4)),
        st.i + 2 <= s3.i <= s4.i < c.toks.len(),
        is_tok(c, s4.i, TokV::RParen),
    ensures
        is_kw(c, st.i, Kw::Over) && is_tok(c, st.i + 1, TokV::LParen) ==> over_at(c, st, d, call) == Ok::<(ExprV, At), ErrorV>((ExprV::Window { func, args, partition_by, order_by, frame: None }, skip(s4, 1))),
        !is_kw(c, st.i, Kw::Over) ==> over_at(c, st, d, call) == Ok::<(ExprV, At), ErrorV>((call, st)),
{
    assert(skip(skip(st, 1), 1) == skip(st, 2));
}

// --- the clauses of a SELECT ---

/// A sort key descends exactly where DESC follows it.
pub proof fn sort_keys_have_their_direction(c: Source, st: At, name: Seq<char>, col: Seq<char>)
    ensures
        is_tok(c, st.i, TokV::Ident(name)) && is_kw(c, st.i + 1, Kw::Desc) ==> order_item_at(c, st) == Ok::<(OrderByV, At), ErrorV>((OrderByV { expr: ExprV::Column { table: None, name }, desc: true }, skip(st, 2))),
        is_tok(c, st.i, TokV::Ident(name)) && is_kw(c, st.i + 1, Kw::Asc) ==> order_item_at(c, st) == Ok::<(OrderByV, At), ErrorV>((OrderByV { expr: ExprV::Column { table: None, name }, desc: false }, skip(st, 2))),
        is_tok(c, st.i, TokV::Ident(name)) && !is_kw(c, st.i + 1, Kw::Asc) && !is_kw(c, st.i + 1, Kw::Desc) && !is_tok(c, st.i + 1, TokV::Dot) ==> order_item_at(c, st) == Ok::<(OrderByV, At), ErrorV>((OrderByV { expr: ExprV::Column { table: None, name }, desc: false }, skip(st, 1))),
        is_tok(c, st.i, TokV::Ident(name)) && is_tok(c, st.i + 1, TokV::Dot) && is_tok(c, st.i + 2, TokV::Ident(col)) && is_kw(c, st.i + 3, Kw::Desc) ==> order_item_at(c, st) == Ok::<(OrderByV, At), ErrorV>((OrderByV { expr: ExprV::Column { table: Some(name), name: col }, desc: true }, skip(st, 4))),
{
    reveal(order_item_at);
    assert(skip(skip(st, 1), 1) == skip(st, 2));
    assert(skip(skip(st, 2), 1) == skip(st, 3));
    assert(skip(skip(st, 3), 1) == skip(st, 4));
}

/// JOIN and INNER JOIN keep pairs only; LEFT JOIN keeps the rows of the left side too.
pub proof fn joins_have_their_kind(c: Source, st: At)
    ensures
        is_kw(c, st.i, Kw::Join) ==> join_kind_at(c, st) == Ok::<(Option<JoinKind>, At), ErrorV>((Some(JoinKind::Inner), skip(st, 1))),
        is_kw(c, st.i, Kw::Inner) && is_kw(c, st.i + 1, Kw::Join) ==> join_kind_at(c, st) == Ok::<(Option<JoinKind>, At), ErrorV>((Some(JoinKind::Inner), skip(st, 2))),
        is_kw(c, st.i, Kw::Left) && is_kw(c, st.i + 1, Kw::Join) ==> join_kind_at(c, st) == Ok::<(Option<JoinKind>, At), ErrorV>((Some(JoinKind::Left), skip(st, 2))),
        !is_kw(c, st.i, Kw::Join) && !is_kw(c, st.i, Kw::Inner) && !is_kw(c, st.i, Kw::Left) ==> join_kind_at(c, st) == Ok::<(Option<JoinKind>, At), ErrorV>((None, st)),
{
    assert(skip(skip(st, 1), 1) == skip(st, 2));
}

/// A join keeps its kind, its table and its condition; those that follow come after it.
pub proof fn joins_keep_their_parts(c: Source, st: At, d: int, kind: JoinKind, s1: At, table: TableRefV, s2: At, on: ExprV, s4: At, rest: Seq<JoinV>, s5: At)
    requires
        join_kind_at(c, st) == Ok::<(Option<JoinKind>, At), ErrorV>((Some(kind), s1)),
        table_at(c, s1, d) == Ok::<(TableRefV, At), ErrorV>((table, s2)),
        is_kw(c, s2.i, Kw::On),
        expr_at(c, skip(s2, 1), d) == Ok::<(ExprV, At), ErrorV>((on, s4)),
        s1.i < s2.i < s4.i <= c.toks.len(),
        s2.i + 1 < s4.i,
        joins_at(c, s4, d) == Ok::<(Seq<JoinV>, At), ErrorV>((rest, s5)),
    ensures
        joins_at(c, st, d) == Ok::<(Seq<JoinV>, At), ErrorV>((seq![JoinV { kind, table, on }] + rest, s5)),
{
}

/// UNION ALL keeps all rows; UNION, INTERSECT and EXCEPT are themselves.
pub proof fn set_operators_are_read(c: Source, i: int)
    ensures
        is_kw(c, i, Kw::Union) && is_kw(c, i + 1, Kw::All) ==> set_op_at(c, i) == Some((SetOp::UnionAll, 2int)),
        is_kw(c, i, Kw::Union) && !is_kw(c, i + 1, Kw::All) ==> set_op_at(c, i) == Some((SetOp::Union, 1int)),
        is_kw(c, i, Kw::Intersect) ==> set_op_at(c, i) == Some((SetOp::Intersect, 1int)),
        is_kw(c, i, Kw::Except) ==> set_op_at(c, i) == Some((SetOp::Except, 1int)),
{
}

/// The clauses of a SELECT up to HAVING go to their places.
pub proof fn first_clauses_go_to_their_places(c: Source, st: At, d: int, projection: Seq<SelectItemV>, s2: At, from: Option<TableRefV>, joins: Seq<JoinV>, s3: At, where_clause: Option<ExprV>, s4: At, group_by: Seq<ExprV>, s5: At, having: Option<ExprV>, s6: At)
    requires
        is_kw(c, st.i, Kw::Select),
        ({
            let s1 = if is_kw(c, st.i + 1, Kw::Distinct) {
                skip(st, 2)
            } else {
                skip(st, 1)
            };
            s1.i < s2.i && items_at(c, s1, d) == Ok::<(Seq<SelectItemV>, At), ErrorV>((projection, s2))
        }),
        s2.i <= s3.i <= s4.i <= s5.i <= s6.i <= c.toks.len(),
        from_at(c, s2, d) == Ok::<((Option<TableRefV>, Seq<JoinV>), At), ErrorV>(((from, joins), s3)),
        clause_at(c, s3, d, Kw::Where) == Ok::<(Option<ExprV>, At), ErrorV>((where_clause, s4)),
        keys_at(c, s4, d, Kw::Group) == Ok::<(Seq<ExprV>, At), ErrorV>((group_by, s5)),
        clause_at(c, s5, d, Kw::Having) == Ok::<(Option<ExprV>, At), ErrorV>((having, s6)),
    ensures
        core_at(c, st, d) is Ok,
        ({
            let q = core_at(c, st, d)->Ok_0.0;
            &&& q.distinct == is_kw(c, st.i + 1, Kw::Distinct)
            &&& q.projection == projection
            &&& q.from == from
            &&& q.joins == joins
            &&& q.where_clause == where_clause
            &&& q.group_by == group_by
            &&& q.having == having
            &&& core_at(c, st, d)->Ok_0.1 == s6
        }),
{
    assert(skip(skip(st, 1), 1) == skip(st, 2));
}

/// What is chained to a SELECT, its order, its LIMIT, its OFFSET and its AS OF go to their places.
pub proof fn last_clauses_go_to_their_places(c: Source, st: At, d: int, lead: SelectStmtV, s1: At, compound: Seq<CompoundSelectV>, s2: At, order_by: Seq<OrderByV>, s3: At, limit: Option<ExprV>, s4: At, offset: Option<ExprV>, s5: At, as_of: Option<AsOfClause>, s6: At)
    requires
        core_at(c, st, d) == Ok::<(SelectStmtV, At), ErrorV>((lead, s1)),
        st.i < s1.i <= s2.i <= s3.i <= s4.i <= s5.i <= s6.i <= c.toks.len(),
        compounds_at(c, s1, d) == Ok::<(Seq<CompoundSelectV>, At), ErrorV>((compound, s2)),
        ordering_at(c, s2) == Ok::<(Seq<OrderByV>, At), ErrorV>((order_by, s3)),
        clause_at(c, s3, d, Kw::Limit) == Ok::<(Option<ExprV>, At), ErrorV>((limit, s4)),
        clause_at(c, s4, d, Kw::Offset) == Ok::<(Option<ExprV>, At), ErrorV>((offset, s5)),
        as_of_at(c, s5) == Ok::<(Option<AsOfClause>, At), ErrorV>((as_of, s6)),
    ensures
        select_at(c, st, d) is Ok,
        ({
            let q = select_at(c, st, d)->Ok_0.0;
            &&& q.compound == compound
            &&& q.order_by == order_by
            &&& q.limit == limit
            &&& q.offset == offset
            &&& q.as_of == as_of
            &&& q.distinct == lead.distinct
            &&& q.projection == lead.projection
            &&& q.from == lead.from
            &&& q.joins == lead.joins
            &&& q.where_clause == lead.where_clause
            &&& q.group_by == lead.group_by
            &&& q.having == lead.having
            &&& select_at(c, st, d)->Ok_0.1 == s6
        }),
{
}

/// A clause is there exactly where its word is.
pub proof fn clauses_start_with_their_word(c: Source, st: At, d: int, k: Kw, e: ExprV, s1: At)
    ensures
        !is_kw(c, st.i, k) ==> clause_at(c, st, d, k) == Ok::<(Option<ExprV>, At), ErrorV>((None, st)),
        is_kw(c, st.i, k) && expr_at(c, skip(st, 1), d) == Ok::<(ExprV, At), ErrorV>((e, s1)) && st.i + 1 < s1.i <= c.toks.len() ==> clause_at(c, st, d, k) == Ok::<(Option<ExprV>, At), ErrorV>((Some(e), s1)),
        !is_kw(c, st.i, Kw::From) ==> from_at(c, st, d) == Ok::<((Option<TableRefV>, Seq<JoinV>), At), ErrorV>(((None, Seq::empty()), st)),
{
}

/// A table keeps its name and its alias, written with AS or without.
pub proof fn tables_keep_their_alias(c: Source, st: At, d: int, name: Seq<char>, alias: Seq<char>)
    requires
        is_tok(c, st.i, TokV::Ident(name)),
    ensures
        is_tok(c, st.i + 1, TokV::Ident(alias)) ==> table_at(c, st, d) == Ok::<(TableRefV, At), ErrorV>((TableRefV { name, alias: Some(alias), subquery: None }, skip(st, 2))),
        is_kw(c, st.i + 1, Kw::As) && is_tok(c, st.i + 2, TokV::Ident(alias)) ==> table_at(c, st, d) == Ok::<(TableRefV, At), ErrorV>((TableRefV { name, alias: Some(alias), subquery: None }, skip(st, 3))),
        tok_at(c, st.i + 1) is None ==> table_at(c, st, d) == Ok::<(TableRefV, At), ErrorV>((TableRefV { name, alias: None, subquery: None }, skip(st, 1))),
{
    assert(skip(skip(st, 1), 1) == skip(st, 2));
    assert(skip(skip(st, 2), 1) == skip(st, 3));
}

/// An item keeps its alias.
pub proof fn items_keep_their_alias(c: Source, st: At, d: int, e: ExprV, s1: At, alias: Seq<char>)
    requires
        expr_at(c, st, d) == Ok::<(ExprV, At), ErrorV>((e, s1)),
        st.i < s1.i <= c.toks.len(),
        !is_tok(c, st.i, TokV::Star),
    ensures
        is_kw(c, s1.i, Kw::As) && is_tok(c, s1.i + 1, TokV::Ident(alias)) ==> item_at(c, st, d) == Ok::<(SelectItemV, At), ErrorV>((SelectItemV::Expr { expr: e, alias: Some(alias) }, skip(s1, 2))),
        !is_kw(c, s1.i, Kw::As) ==> item_at(c, st, d) == Ok::<(SelectItemV, At), ErrorV>((SelectItemV::Expr { expr: e, alias: None }, s1)),
{
    assert(skip(skip(s1, 1), 1) == skip(s1, 2));
}

// --- declarations ---

/// The words of types, of the actions of a foreign key, and of triggers.
pub proof fn words_mean_what_they_say(c: Source, st: At)
    ensures
        is_kw(c, st.i, Kw::Integer) ==> coltype_at(c, st) == Ok::<(ColType, At), ErrorV>((ColType::Integer, skip(st, 1))),
        is_kw(c, st.i, Kw::Real) ==> coltype_at(c, st) == Ok::<(ColType, At), ErrorV>((ColType::Real, skip(st, 1))),
        is_kw(c, st.i, Kw::Text) ==> coltype_at(c, st) == Ok::<(ColType, At), ErrorV>((ColType::Text, skip(st, 1))),
        is_kw(c, st.i, Kw::Blob) ==> coltype_at(c, st) == Ok::<(ColType, At), ErrorV>((ColType::Blob, skip(st, 1))),
        is_kw(c, st.i, Kw::Boolean) ==> coltype_at(c, st) == Ok::<(ColType, At), ErrorV>((ColType::Boolean, skip(st, 1))),
        is_kw(c, st.i, Kw::Cascade) ==> fk_action_at(c, st) == Ok::<(FkAction, At), ErrorV>((FkAction::Cascade, skip(st, 1))),
        is_kw(c, st.i, Kw::Restrict) ==> fk_action_at(c, st) == Ok::<(FkAction, At), ErrorV>((FkAction::Restrict, skip(st, 1))),
        is_kw(c, st.i, Kw::SetTo) && is_kw(c, st.i + 1, Kw::Null) ==> fk_action_at(c, st) == Ok::<(FkAction, At), ErrorV>((FkAction::SetNull, skip(st, 2))),
        is_kw(c, st.i, Kw::Before) ==> timing_at(c, st) == Ok::<(TriggerTiming, At), ErrorV>((TriggerTiming::Before, skip(st, 1))),
        is_kw(c, st.i, Kw::After) ==> timing_at(c, st) == Ok::<(TriggerTiming, At), ErrorV>((TriggerTiming::After, skip(st, 1))),
        is_kw(c, st.i, Kw::Instead) && is_kw(c, st.i + 1, Kw::Of) ==> timing_at(c, st) == Ok::<(TriggerTiming, At), ErrorV>((TriggerTiming::InsteadOf, skip(st, 2))),
        is_kw(c, st.i, Kw::Insert) ==> event_at(c, st) == Ok::<(TriggerEvent, At), ErrorV>((TriggerEvent::Insert, skip(st, 1))),
        is_kw(c, st.i, Kw::Update) ==> event_at(c, st) == Ok::<(TriggerEvent, At), ErrorV>((TriggerEvent::Update, skip(st, 1))),
        is_kw(c, st.i, Kw::Delete) ==> event_at(c, st) == Ok::<(TriggerEvent, At), ErrorV>((TriggerEvent::Delete, skip(st, 1))),
        !is_kw(c, st.i, Kw::For) ==> for_each_at(c, st) == Ok::<(TriggerForEach, At), ErrorV>((TriggerForEach::Row, st)),
        is_kw(c, st.i, Kw::For) && is_kw(c, st.i + 1, Kw::Each) && is_kw(c, st.i + 2, Kw::Row) ==> for_each_at(c, st) == Ok::<(TriggerForEach, At), ErrorV>((TriggerForEach::Row, skip(st, 3))),
        is_kw(c, st.i, Kw::For) && is_kw(c, st.i + 1, Kw::Each) && is_kw(c, st.i + 2, Kw::Statement) ==> for_each_at(c, st) == Ok::<(TriggerForEach, At), ErrorV>((TriggerForEach::Statement, skip(st, 3))),
        is_kw(c, st.i, Kw::If) && is_kw(c, st.i + 1, Kw::Exists) ==> if_exists_at(c, st) == Ok::<(bool, At), ErrorV>((true, skip(st, 2))),
        !is_kw(c, st.i, Kw::If) ==> if_exists_at(c, st) == Ok::<(bool, At), ErrorV>((false, st)),
        is_kw(c, st.i, Kw::If) && is_kw(c, st.i + 1, Kw::Not) && is_kw(c, st.i + 2, Kw::Exists) ==> if_not_exists_at(c, st) == Ok::<(bool, At), ErrorV>((true, skip(st, 3))),
        !is_kw(c, st.i, Kw::If) ==> if_not_exists_at(c, st) == Ok::<(bool, At), ErrorV>((false, st)),
{
    reveal(coltype_at);
    reveal(fk_action_at);
    reveal(timing_at);
    reveal(event_at);
    reveal(for_each_at);
    reveal(if_exists_at);
    reveal(if_not_exists_at);
    assert(skip(skip(st, 1), 1) == skip(st, 2));
    assert(skip(skip(st, 2), 1) == skip(st, 3));
}

/// ON DELETE sets what is done when the parent goes, ON UPDATE what is done when it changes, and
/// neither touches the other; the last of each counts.
pub proof fn actions_go_to_their_event(c: Source, st: At, on_delete: FkAction, on_update: FkAction, a: FkAction, s1: At)
    requires
        fk_action_at(c, skip(st, 2)) == Ok::<(FkAction, At), ErrorV>((a, s1)),
        st.i + 2 < s1.i <= c.toks.len(),
    ensures
        !is_kw(c, st.i, Kw::On) ==> fk_actions_at(c, st, on_delete, on_update) == Ok::<((FkAction, FkAction), At), ErrorV>(((on_delete, on_update), st)),
        is_kw(c, st.i, Kw::On) && is_kw(c, st.i + 1, Kw::Delete) ==> fk_actions_at(c, st, on_delete, on_update) == fk_actions_at(c, s1, a, on_update),
        is_kw(c, st.i, Kw::On) && is_kw(c, st.i + 1, Kw::Update) ==> fk_actions_at(c, st, on_delete, on_update) == fk_actions_at(c, s1, on_delete, a),
{
    reveal_with_fuel(fk_actions_at, 2);
}

/// PRIMARY KEY, NOT NULL and DEFAULT each set their own property of a column and leave the rest.
pub proof fn attributes_set_their_property(c: Source, st: At, col: ColumnAstV, e: ExprV, s1: At)
    ensures
        is_kw(c, st.i, Kw::Primary) && is_kw(c, st.i + 1, Kw::Key) && st.i + 2 <= c.toks.len() ==> attributes_at(c, st, col) == attributes_at(c, skip(st, 2), ColumnAstV { primary_key: true, ..col }),
        is_kw(c, st.i, Kw::Not) && is_kw(c, st.i + 1, Kw::Null) ==> attributes_at(c, st, col) == attributes_at(c, skip(st, 2), ColumnAstV { not_null: true, ..col }),
        is_kw(c, st.i, Kw::Default) && expr_at(c, skip(st, 1), 0) == Ok::<(ExprV, At), ErrorV>((e, s1)) && st.i + 1 < s1.i <= c.toks.len() ==> attributes_at(c, st, col) == attributes_at(c, s1, ColumnAstV { default: Some(e), ..col }),
        tok_at(c, st.i) is None ==> attributes_at(c, st, col) == Ok::<(ColumnAstV, At), ErrorV>((col, st)),
{
    reveal_with_fuel(attributes_at, 2);
    assert(skip(skip(st, 1), 1) == skip(st, 2));
}

// --- writes ---

/// An assignment gives its column the expression behind the equals sign; assignments keep their
/// order.
pub proof fn assignments_keep_their_sides(c: Source, st: At, col: Seq<char>, e: ExprV, s1: At, rest: Seq<(Seq<char>, ExprV)>, s2: At)
    requires
        is_tok(c, st.i, TokV::Ident(col)),
        is_tok(c, st.i + 1, TokV::Eq),
        expr_at(c, skip(st, 2), 0) == Ok::<(ExprV, At), ErrorV>((e, s1)),
        st.i < s1.i <= c.toks.len(),
    ensures
        set_at(c, st) == Ok::<((Seq<char>, ExprV), At), ErrorV>(((col, e), s1)),
        !is_tok(c, s1.i, TokV::Comma) ==> sets_at(c, st) == Ok::<(Seq<(Seq<char>, ExprV)>, At), ErrorV>((seq![(col, e)], s1)),
        is_tok(c, s1.i, TokV::Comma) && sets_at(c, skip(s1, 1)) == Ok::<(Seq<(Seq<char>, ExprV)>, At), ErrorV>((rest, s2)) ==> sets_at(c, st) == Ok::<(Seq<(Seq<char>, ExprV)>, At), ErrorV>((seq![(col, e)] + rest, s2)),
{
    reveal(set_at);
    reveal_with_fuel(sets_at, 2);
    assert(skip(skip(st, 1), 1) == skip(st, 2));
}

/// UPDATE keeps its table, its assignments, its condition and its RETURNING.
pub proof fn updates_keep_their_parts(c: Source, st: At, table: Seq<char>, sets: Seq<(Seq<char>, ExprV)>, s3: At, where_clause: Option<ExprV>, s4: At, returning: Option<Seq<SelectItemV>>, s5: At)
    requires
        is_tok(c, st.i, TokV::Ident(table)),
        is_kw(c, st.i + 1, Kw::SetTo),
        sets_at(c, skip(st, 2)) == Ok::<(Seq<(Seq<char>, ExprV)>, At), ErrorV>((sets, s3)),
        clause_at(c, s3, 0, Kw::Where) == Ok::<(Option<ExprV>, At), ErrorV>((where_clause, s4)),
        returning_at(c, s4) == Ok::<(Option<Seq<SelectItemV>>, At), ErrorV>((returning, s5)),
    ensures
        update_at(c, st) == Ok::<(StmtV, At), ErrorV>((StmtV::Update { table, sets, where_clause, returning }, s5)),
{
    reveal(update_at);
    assert(skip(skip(st, 1), 1) == skip(st, 2));
}

/// DELETE keeps its table, its condition and its RETURNING.
pub proof fn deletes_keep_their_parts(c: Source, st: At, table: Seq<char>, where_clause: Option<ExprV>, s3: At, returning: Option<Seq<SelectItemV>>, s4: At)
    requires
        is_kw(c, st.i, Kw::From),
        is_tok(c, st.i + 1, TokV::Ident(table)),
        clause_at(c, skip(st, 2), 0, Kw::Where) == Ok::<(Option<ExprV>, At), ErrorV>((where_clause, s3)),
        returning_at(c, s3) == Ok::<(Option<Seq<SelectItemV>>, At), ErrorV>((returning, s4)),
    ensures
        delete_at(c, st) == Ok::<(StmtV, At), ErrorV>((StmtV::Delete { table, where_clause, returning }, s4)),
{
    reveal(delete_at);
    assert(skip(skip(st, 1), 1) == skip(st, 2));
}

/// INSERT keeps its table, its columns, its rows, its ON CONFLICT and its RETURNING.
pub proof fn inserts_keep_their_parts(c: Source, st: At, table: Seq<char>, columns: Option<Seq<Seq<char>>>, s3: At, rows: Seq<Seq<ExprV>>, s5: At, on_conflict: Option<OnConflictV>, s6: At, returning: Option<Seq<SelectItemV>>, s7: At)
    requires
        is_kw(c, st.i, Kw::Into),
        is_tok(c, st.i + 1, TokV::Ident(table)),
        insert_columns_at(c, skip(st, 2)) == Ok::<(Option<Seq<Seq<char>>>, At), ErrorV>((columns, s3)),
        is_kw(c, s3.i, Kw::Values),
        value_rows_at(c, skip(s3, 1)) == Ok::<(Seq<Seq<ExprV>>, At), ErrorV>((rows, s5)),
        on_conflict_at(c, s5) == Ok::<(Option<OnConflictV>, At), ErrorV>((on_conflict, s6)),
        returning_at(c, s6) == Ok::<(Option<Seq<SelectItemV>>, At), ErrorV>((returning, s7)),
    ensures
        insert_at(c, st) == Ok::<(StmtV, At), ErrorV>((StmtV::Insert { table, columns, source: InsertSourceV::Values(rows), on_conflict, returning }, s7)),
{
    reveal(insert_at);
    assert(skip(skip(st, 1), 1) == skip(st, 2));
}

/// Statements are read one after the other, with a semicolon between them.
pub proof fn statements_keep_their_order(c: Source, st: At, s: StmtV, s1: At, rest: Seq<StmtV>, s3: At)
    requires
        0 <= st.i,
        stmt_at(c, st) == Ok::<(StmtV, At), ErrorV>((s, s1)),
        st.i < s1.i <= c.toks.len(),
        is_tok(c, s1.i, TokV::Semi),
        stmts_at(c, skip(s1, 1)) == Ok::<(Seq<StmtV>, At), ErrorV>((rest, s3)),
    ensures
        stmts_at(c, st) == Ok::<(Seq<StmtV>, At), ErrorV>((seq![s] + rest, s3)),
{
    reveal_with_fuel(stmts_at, 2);
}

} // verus!
