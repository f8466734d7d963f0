//! The grammar of the dialect, as functions from a position in the tokens to what is
//! read there and the position after it.
//!
//! ```text
//! expr := or          or  := and (OR and)*        and := not (AND not)*
//! not  := NOT not | comparison
//! comparison := sum ((=|!=|<|<=|>|>=) sum | IS [NOT] NULL | [NOT] LIKE sum
//!               | [NOT] IN (list) | [NOT] BETWEEN sum AND sum)?
//! sum  := product ((+|-) product)*        product := joined ((*|/|%) joined)*
//! joined := unary ((|| | -> | ->>) unary)*        unary := - unary | primary
//! primary := literal | column | table.column | call | ?N | :name | CASE | CAST
//!            | EXISTS (select) | (select) | (expr)
//! ```
use vstd::prelude::*;
#[allow(unused_imports)]
use vstd::utf8::encode_utf8;

use crate::catalog::{ColType, ColumnFkV, ColumnPosV, FkAction, ForeignKeySpecV, TriggerEvent, TriggerForEach, TriggerTiming};
use crate::error::ErrorV;
#[allow(unused_imports)]
use crate::error::sql_error;
#[allow(unused_imports)]
use crate::record::ValueV;
use crate::sql::ast::{AggFunc, AsOfClause, BinOp, ColumnAstV, CompoundSelectV, CteV, ExprV, JoinKind, JoinV, OnConflictV, OrderByV, SelectItemV, SelectStmtV, SetOp, StmtV, TableRefV, WindowFunc};
#[allow(unused_imports)]
use crate::sql::ast::{InsertSourceV, UnOp};
#[allow(unused_imports)]
use crate::sql::datetime::rfc3339;
use crate::reals::RealTableV;
#[allow(unused_imports)]
use crate::sql::lexer::lexed;
use crate::sql::lexer::{Kw, SpannedV, TokV};
#[allow(unused_imports)]
use crate::text::{ascii_upper_all, slice, text_width, trim_end, trim_start};

verus! {

/// The deepest nesting of expressions.
pub const MAX_EXPR_DEPTH: usize = 256;

/// The tokens of a text, the text, and its length in bytes.
pub ghost struct Source {
    pub toks: Seq<SpannedV>,
    pub src: Seq<char>,
    pub end: usize,
}

/// A place in the tokens, with what has been seen of parameters: the names in order
/// of appearance, and whether there was a numbered one.
pub ghost struct At {
    pub i: int,
    pub names: Seq<Seq<char>>,
    pub numbered: bool,
}

/// What was read, and the place after it.
pub type Got<T> = Result<(T, At), ErrorV>;

/// The number of tokens that are left.
pub open spec fn left(c: Source, st: At) -> int {
    c.toks.len() - st.i
}

pub open spec fn tok_at(c: Source, i: int) -> Option<TokV> {
    if 0 <= i < c.toks.len() {
        Some(c.toks[i].tok)
    } else {
        None
    }
}

pub open spec fn is_tok(c: Source, i: int, t: TokV) -> bool {
    tok_at(c, i) == Some(t)
}

pub open spec fn is_kw(c: Source, i: int, k: Kw) -> bool {
    is_tok(c, i, TokV::Kw(k))
}

/// The byte of the source at which the token `i` starts, or its end.
pub open spec fn pos_at(c: Source, i: int) -> usize {
    if 0 <= i < c.toks.len() {
        c.toks[i].pos
    } else {
        c.end
    }
}

pub open spec fn skip(st: At, n: int) -> At {
    At { i: st.i + n, names: st.names, numbered: st.numbered }
}

pub open spec fn error_at(c: Source, i: int, msg: Seq<char>) -> ErrorV {
    ErrorV::Sql { msg, pos: Some(pos_at(c, i)) }
}

pub open spec fn expected(c: Source, i: int, what: Seq<char>) -> ErrorV {
    error_at(c, i, "se esperaba "@ + what)
}

/// `r`, where it lies after `st`; every form read through this takes at least one token.
pub open spec fn ahead<T>(c: Source, st: At, r: Got<T>) -> Got<T> {
    match r {
        Ok((v, s)) => if st.i < s.i <= c.toks.len() {
            Ok((v, s))
        } else {
            Err(sql_error(Seq::empty()))
        },
        Err(e) => Err(e),
    }
}

/// `r`, where it does not lie before `st`; for forms that may take no token.
pub open spec fn onward<T>(c: Source, st: At, r: Got<T>) -> Got<T> {
    match r {
        Ok((v, s)) => if st.i <= s.i && (s.i <= c.toks.len() || s.i == st.i) {
            Ok((v, s))
        } else {
            Err(sql_error(Seq::empty()))
        },
        Err(e) => Err(e),
    }
}

/// The token `t`, named `what` in the error.
pub open spec fn expect_at(c: Source, st: At, t: TokV, what: Seq<char>) -> Got<()> {
    if is_tok(c, st.i, t) {
        Ok(((), skip(st, 1)))
    } else {
        Err(expected(c, st.i, what))
    }
}

pub open spec fn keyword_at(c: Source, st: At, k: Kw, what: Seq<char>) -> Got<()> {
    expect_at(c, st, TokV::Kw(k), what)
}

/// An identifier, named `what` in the error.
pub open spec fn name_at(c: Source, st: At, what: Seq<char>) -> Got<Seq<char>> {
    match tok_at(c, st.i) {
        Some(TokV::Ident(s)) => Ok((s, skip(st, 1))),
        _ => Err(expected(c, st.i, what)),
    }
}

/// `v`, once the closing parenthesis is there.
pub open spec fn close_at<T>(c: Source, st: At, v: T) -> Got<T> {
    if is_tok(c, st.i, TokV::RParen) {
        Ok((v, skip(st, 1)))
    } else {
        Err(expected(c, st.i, "')'"@))
    }
}

/// Identifiers separated by commas.
#[verifier::opaque]
pub open spec fn names_at(c: Source, st: At, what: Seq<char>) -> Got<Seq<Seq<char>>>
    decreases left(c, st),
{
    match name_at(c, st, what) {
        Err(e) => Err(e),
        Ok((name, s1)) => {
            if is_tok(c, s1.i, TokV::Comma) {
                match names_at(c, skip(s1, 1), what) {
                    Err(e) => Err(e),
                    Ok((rest, s2)) => {
                        Ok((seq![name] + rest, s2))
                    },
                }
            } else {
                Ok((seq![name], s1))
            }
        },
    }
}

/// Identifiers separated by commas, between parentheses of which the first was read.
#[verifier::opaque]
pub open spec fn name_list_at(c: Source, st: At, what: Seq<char>) -> Got<Seq<Seq<char>>> {
    match names_at(c, st, what) {
        Err(e) => Err(e),
        Ok((names, s1)) => {
            close_at(c, s1, names)
        },
    }
}

// --- expressions ---

/// The operator of a token at a level of binding: OR, AND, sums, products, and
/// concatenation with extraction.
pub open spec fn operator(level: int, t: Option<TokV>) -> Option<BinOp> {
    match t {
        Some(TokV::Kw(Kw::Or)) => if level == 0 { Some(BinOp::Or) } else { None },
        Some(TokV::Kw(Kw::And)) => if level == 1 { Some(BinOp::And) } else { None },
        Some(TokV::Plus) => if level == 2 { Some(BinOp::Add) } else { None },
        Some(TokV::Minus) => if level == 2 { Some(BinOp::Sub) } else { None },
        Some(TokV::Star) => if level == 3 { Some(BinOp::Mul) } else { None },
        Some(TokV::Slash) => if level == 3 { Some(BinOp::Div) } else { None },
        Some(TokV::Percent) => if level == 3 { Some(BinOp::Mod) } else { None },
        Some(TokV::Concat) => if level == 4 { Some(BinOp::Concat) } else { None },
        Some(TokV::Arrow) => if level == 4 { Some(BinOp::JsonGet) } else { None },
        Some(TokV::ArrowArrow) => if level == 4 { Some(BinOp::JsonGetText) } else { None },
        _ => None,
    }
}

pub open spec fn comparison(t: Option<TokV>) -> Option<BinOp> {
    match t {
        Some(TokV::Eq) => Some(BinOp::Eq),
        Some(TokV::Ne) => Some(BinOp::Ne),
        Some(TokV::Lt) => Some(BinOp::Lt),
        Some(TokV::Le) => Some(BinOp::Le),
        Some(TokV::Gt) => Some(BinOp::Gt),
        Some(TokV::Ge) => Some(BinOp::Ge),
        _ => None,
    }
}

pub open spec fn binary(l: ExprV, op: BinOp, r: ExprV) -> ExprV {
    ExprV::Binary(Box::new(l), op, Box::new(r))
}

/// `x BETWEEN lo AND hi` as comparisons.
pub open spec fn between(x: ExprV, lo: ExprV, hi: ExprV, negated: bool) -> ExprV {
    if negated {
        binary(binary(x, BinOp::Lt, lo), BinOp::Or, binary(x, BinOp::Gt, hi))
    } else {
        binary(binary(x, BinOp::Ge, lo), BinOp::And, binary(x, BinOp::Le, hi))
    }
}

/// An expression inside `d` others.
pub open spec fn expr_at(c: Source, st: At, d: int) -> Got<ExprV>
    decreases left(c, st), 30int,
{
    if d + 1 > MAX_EXPR_DEPTH {
        Err(error_at(c, st.i, "expresión demasiado anidada"@))
    } else {
        chain_at(c, st, d + 1, 0)
    }
}

/// The rank of a level among the forms of an expression.
pub open spec fn level_rank(level: int) -> int {
    if level <= 0 {
        29
    } else if level == 1 {
        28
    } else if level == 2 {
        25
    } else if level == 3 {
        24
    } else {
        23
    }
}

/// What the operators of a level join.
pub open spec fn operand_at(c: Source, st: At, d: int, level: int) -> Got<ExprV>
    decreases left(c, st), level_rank(level), 0int,
{
    if level <= 0 {
        chain_at(c, st, d, 1)
    } else if level == 1 {
        not_at(c, st, d)
    } else if level == 2 {
        chain_at(c, st, d, 3)
    } else if level == 3 {
        chain_at(c, st, d, 4)
    } else {
        unary_at(c, st, d)
    }
}

/// Operands joined by the operators of a level, from left to right.
pub open spec fn chain_at(c: Source, st: At, d: int, level: int) -> Got<ExprV>
    decreases left(c, st), level_rank(level), 1int,
{
    match ahead(c, st, operand_at(c, st, d, level)) {
        Err(e) => Err(e),
        Ok((l, s1)) => {
            chain_rest(c, s1, d, level, l)
        },
    }
}

/// What follows the operand `l` in a chain.
pub open spec fn chain_rest(c: Source, st: At, d: int, level: int, l: ExprV) -> Got<ExprV>
    decreases left(c, st), 0int,
{
    match operator(level, tok_at(c, st.i)) {
        None => Ok((l, st)),
        Some(op) => {
            match ahead(c, skip(st, 1), operand_at(c, skip(st, 1), d, level)) {
                Err(e) => Err(e),
                Ok((r, s1)) => {
                    chain_rest(c, s1, d, level, binary(l, op, r))
                },
            }
        }
    }
}

pub open spec fn not_at(c: Source, st: At, d: int) -> Got<ExprV>
    decreases left(c, st), 27int,
{
    if is_kw(c, st.i, Kw::Not) {
        if d + 1 > MAX_EXPR_DEPTH {
            Err(error_at(c, st.i + 1, "expresión demasiado anidada"@))
        } else {
            match ahead(c, skip(st, 1), not_at(c, skip(st, 1), d + 1)) {
                Err(e) => Err(e),
                Ok((e1, s1)) => {
                    Ok((ExprV::Unary(UnOp::Not, Box::new(e1)), s1))
                },
            }
        }
    } else {
        compare_at(c, st, d)
    }
}

pub open spec fn compare_at(c: Source, st: At, d: int) -> Got<ExprV>
    decreases left(c, st), 26int,
{
    match ahead(c, st, chain_at(c, st, d, 2)) {
        Err(e) => Err(e),
        Ok((l, s1)) => {
            suffix_at(c, s1, d, l)
        },
    }
}

/// What follows the first sum `l` of a comparison.
pub open spec fn suffix_at(c: Source, st: At, d: int, l: ExprV) -> Got<ExprV>
    decreases left(c, st), 0int,
{
    let negated = is_kw(c, st.i, Kw::Not);
    let s1 = if negated { skip(st, 1) } else { st };
    if is_kw(c, st.i, Kw::Is) {
        let s2 = if is_kw(c, st.i + 1, Kw::Not) { skip(st, 2) } else { skip(st, 1) };
        match keyword_at(c, s2, Kw::Null, "NULL"@) {
            Err(e) => Err(e),
            Ok((u, s3)) => {
                Ok((ExprV::IsNull { expr: Box::new(l), negated: is_kw(c, st.i + 1, Kw::Not) }, s3))
            },
        }
    } else if is_kw(c, s1.i, Kw::Like) {
        like_at(c, skip(s1, 1), d, l, negated)
    } else if is_kw(c, s1.i, Kw::In) {
        in_at(c, skip(s1, 1), d, l, negated)
    } else if is_kw(c, s1.i, Kw::Between) {
        range_at(c, skip(s1, 1), d, l, negated)
    } else {
        match comparison(tok_at(c, st.i)) {
            None => Ok((l, st)),
            Some(op) => {
                match ahead(c, skip(st, 1), chain_at(c, skip(st, 1), d, 2)) {
                    Err(e) => Err(e),
                    Ok((r, s2)) => {
                        Ok((binary(l, op, r), s2))
                    },
                }
            }
        }
    }
}

/// What follows `l LIKE`.
pub open spec fn like_at(c: Source, st: At, d: int, l: ExprV, negated: bool) -> Got<ExprV>
    decreases left(c, st), 26int,
{
    match ahead(c, st, chain_at(c, st, d, 2)) {
        Err(e) => Err(e),
        Ok((p, s1)) => {
            Ok((ExprV::Like { expr: Box::new(l), pattern: Box::new(p), negated }, s1))
        },
    }
}

/// What follows `l BETWEEN`.
pub open spec fn range_at(c: Source, st: At, d: int, l: ExprV, negated: bool) -> Got<ExprV>
    decreases left(c, st), 26int,
{
    match ahead(c, st, chain_at(c, st, d, 2)) {
        Err(e) => Err(e),
        Ok((lo, s1)) => {
            match keyword_at(c, s1, Kw::And, "AND"@) {
                Err(e) => Err(e),
                Ok((u, s2)) => {
                    match ahead(c, s2, chain_at(c, s2, d, 2)) {
                        Err(e) => Err(e),
                        Ok((hi, s3)) => {
                            Ok((between(l, lo, hi, negated), s3))
                        },
                    }
                },
            }
        },
    }
}

/// What follows `l IN`.
pub open spec fn in_at(c: Source, st: At, d: int, l: ExprV, negated: bool) -> Got<ExprV>
    decreases left(c, st), 0int,
{
    if !is_tok(c, st.i, TokV::LParen) {
        Err(expected(c, st.i, "'(' tras IN"@))
    } else if is_kw(c, st.i + 1, Kw::Select) {
        match ahead(c, skip(st, 1), select_at(c, skip(st, 1), d)) {
            Err(e) => Err(e),
            Ok((q, s1)) => {
                close_at(c, s1, ExprV::InSubquery { expr: Box::new(l), query: Box::new(q), negated })
            },
        }
    } else {
        match ahead(c, skip(st, 1), args_at(c, skip(st, 1), d)) {
            Err(e) => Err(e),
            Ok((list, s1)) => {
                Ok((ExprV::In { expr: Box::new(l), list, negated }, s1))
            },
        }
    }
}

pub open spec fn unary_at(c: Source, st: At, d: int) -> Got<ExprV>
    decreases left(c, st), 22int,
{
    if is_tok(c, st.i, TokV::Minus) {
        if d + 1 > MAX_EXPR_DEPTH {
            Err(error_at(c, st.i + 1, "expresión demasiado anidada"@))
        } else {
            match ahead(c, skip(st, 1), unary_at(c, skip(st, 1), d + 1)) {
                Err(e) => Err(e),
                Ok((e1, s1)) => {
                    Ok((ExprV::Unary(UnOp::Neg, Box::new(e1)), s1))
                },
            }
        }
    } else {
        primary_at(c, st, d)
    }
}

/// Expressions separated by commas.
pub open spec fn exprs_at(c: Source, st: At, d: int) -> Got<Seq<ExprV>>
    decreases left(c, st), 31int,
{
    match ahead(c, st, expr_at(c, st, d)) {
        Err(e) => Err(e),
        Ok((e1, s1)) => {
            if is_tok(c, s1.i, TokV::Comma) {
                match exprs_at(c, skip(s1, 1), d) {
                    Err(e) => Err(e),
                    Ok((rest, s2)) => {
                        Ok((seq![e1] + rest, s2))
                    },
                }
            } else {
                Ok((seq![e1], s1))
            }
        },
    }
}

/// Expressions up to the closing parenthesis, possibly none.
pub open spec fn args_at(c: Source, st: At, d: int) -> Got<Seq<ExprV>>
    decreases left(c, st), 32int,
{
    if is_tok(c, st.i, TokV::RParen) {
        Ok((Seq::empty(), skip(st, 1)))
    } else {
        match ahead(c, st, exprs_at(c, st, d)) {
            Err(e) => Err(e),
            Ok((es, s1)) => {
                close_at(c, s1, es)
            },
        }
    }
}

pub open spec fn mixed_params(c: Source, i: int) -> ErrorV {
    error_at(c, i, "no se pueden mezclar parámetros posicionales (?N) y nombrados (:nombre)"@)
}

/// The index of a name in a list, or the length of the list.
pub open spec fn name_place(names: Seq<Seq<char>>, name: Seq<char>) -> int
    decreases names.len(),
{
    if names.len() == 0 {
        0
    } else if names[0] == name {
        0
    } else {
        1 + name_place(names.drop_first(), name)
    }
}

/// The place after a parameter of that name.
pub open spec fn with_name(st: At, name: Seq<char>) -> At {
    if name_place(st.names, name) < st.names.len() {
        skip(st, 1)
    } else {
        At { i: st.i + 1, names: st.names.push(name), numbered: st.numbered }
    }
}

pub open spec fn primary_at(c: Source, st: At, d: int) -> Got<ExprV>
    decreases left(c, st), 21int,
{
    let s1 = skip(st, 1);
    match tok_at(c, st.i) {
        Some(TokV::Int(n)) => Ok((ExprV::Literal(ValueV::Integer(n)), s1)),
        Some(TokV::Float(b)) => Ok((ExprV::Literal(ValueV::Real(b)), s1)),
        Some(TokV::Str(t)) => Ok((ExprV::Literal(ValueV::Text(t)), s1)),
        Some(TokV::Blob(b)) => Ok((ExprV::Literal(ValueV::Blob(b)), s1)),
        Some(TokV::Kw(Kw::Null)) => Ok((ExprV::Literal(ValueV::Null), s1)),
        Some(TokV::Kw(Kw::True)) => Ok((ExprV::Literal(ValueV::Bool(true)), s1)),
        Some(TokV::Kw(Kw::False)) => Ok((ExprV::Literal(ValueV::Bool(false)), s1)),
        Some(TokV::Kw(Kw::Cast)) => cast_at(c, s1, d),
        Some(TokV::Kw(Kw::Case)) => case_at(c, s1, d),
        Some(TokV::Param(n)) => if st.names.len() > 0 {
            Err(mixed_params(c, st.i))
        } else {
            Ok((ExprV::Param(n), At { i: st.i + 1, names: st.names, numbered: true }))
        },
        Some(TokV::NamedParam(name)) => if st.numbered {
            Err(mixed_params(c, st.i))
        } else {
            Ok((ExprV::Param((name_place(st.names, name) + 1) as usize), with_name(st, name)))
        },
        Some(TokV::Ident(name)) => if is_tok(c, st.i + 1, TokV::Dot) {
            match name_at(c, skip(st, 2), "un nombre de columna"@) {
                Err(e) => Err(e),
                Ok((col, s2)) => {
                    Ok((ExprV::Column { table: Some(name), name: col }, s2))
                },
            }
        } else if is_tok(c, st.i + 1, TokV::LParen) {
            call_at(c, skip(st, 2), d, name, st.i)
        } else {
            Ok((ExprV::Column { table: None, name }, s1))
        },
        Some(TokV::Kw(Kw::Exists)) => {
            match expect_at(c, s1, TokV::LParen, "'(' tras EXISTS"@) {
                Err(e) => Err(e),
                Ok((u, s2)) => {
                    match ahead(c, s2, select_at(c, s2, d)) {
                        Err(e) => Err(e),
                        Ok((q, s3)) => {
                            close_at(c, s3, ExprV::Exists(Box::new(q)))
                        },
                    }
                },
            }
        }
        Some(TokV::LParen) => if is_kw(c, st.i + 1, Kw::Select) {
            match ahead(c, s1, select_at(c, s1, d)) {
                Err(e) => Err(e),
                Ok((q, s2)) => {
                    close_at(c, s2, ExprV::ScalarSubquery(Box::new(q)))
                },
            }
        } else {
            match ahead(c, s1, expr_at(c, s1, d)) {
                Err(e) => Err(e),
                Ok((e1, s2)) => {
                    close_at(c, s2, e1)
                },
            }
        },
        _ => Err(error_at(c, st.i, "se esperaba una expresión"@)),
    }
}

/// A type; the error is placed after the token that is none.
#[verifier::opaque]
pub open spec fn coltype_at(c: Source, st: At) -> Got<ColType> {
    let s1 = skip(st, 1);
    match tok_at(c, st.i) {
        Some(TokV::Kw(Kw::Integer)) => Ok((ColType::Integer, s1)),
        Some(TokV::Kw(Kw::Real)) => Ok((ColType::Real, s1)),
        Some(TokV::Kw(Kw::Text)) => Ok((ColType::Text, s1)),
        Some(TokV::Kw(Kw::Blob)) => Ok((ColType::Blob, s1)),
        Some(TokV::Kw(Kw::Boolean)) => Ok((ColType::Boolean, s1)),
        _ => Err(expected(c, st.i + 1, "un tipo: INTEGER, REAL, TEXT, BLOB o BOOLEAN"@)),
    }
}

/// What follows `CAST`.
pub open spec fn cast_at(c: Source, st: At, d: int) -> Got<ExprV>
    decreases left(c, st), 0int,
{
    match expect_at(c, st, TokV::LParen, "'(' tras CAST"@) {
        Err(e) => Err(e),
        Ok((u, s1)) => {
            match ahead(c, s1, expr_at(c, s1, d)) {
                Err(e) => Err(e),
                Ok((x, s2)) => {
                    match keyword_at(c, s2, Kw::As, "AS"@) {
                        Err(e) => Err(e),
                        Ok((w, s3)) => {
                            match coltype_at(c, s3) {
                                Err(e) => Err(e),
                                Ok((to, s4)) => {
                                    close_at(c, s4, ExprV::Cast { expr: Box::new(x), to })
                                },
                            }
                        },
                    }
                },
            }
        },
    }
}

/// What follows `CASE`.
pub open spec fn case_at(c: Source, st: At, d: int) -> Got<ExprV>
    decreases left(c, st), 33int,
{
    if is_kw(c, st.i, Kw::When) {
        case_rest(c, st, d, None)
    } else {
        match ahead(c, st, expr_at(c, st, d)) {
            Err(e) => Err(e),
            Ok((x, s1)) => {
                case_rest(c, s1, d, Some(Box::new(x)))
            },
        }
    }
}

/// The branches of a `CASE` and its end.
pub open spec fn case_rest(c: Source, st: At, d: int, operand: Option<Box<ExprV>>) -> Got<ExprV>
    decreases left(c, st), 2int,
{
    match onward(c, st, whens_at(c, st, d)) {
        Err(e) => Err(e),
        Ok((whens, s1)) => {
            if whens.len() == 0 {
                Err(error_at(c, s1.i, "CASE necesita al menos un WHEN … THEN"@))
            } else if is_kw(c, s1.i, Kw::Else) {
                match ahead(c, skip(s1, 1), expr_at(c, skip(s1, 1), d)) {
                    Err(e) => Err(e),
                    Ok((x, s2)) => {
                        match keyword_at(c, s2, Kw::End, "END"@) {
                            Err(e) => Err(e),
                            Ok((u, s3)) => {
                                Ok((ExprV::Case { operand, whens, else_: Some(Box::new(x)) }, s3))
                            },
                        }
                    },
                }
            } else {
                match keyword_at(c, s1, Kw::End, "END"@) {
                    Err(e) => Err(e),
                    Ok((u, s2)) => {
                        Ok((ExprV::Case { operand, whens, else_: None }, s2))
                    },
                }
            }
        },
    }
}

/// Branches `WHEN a THEN b`, possibly none.
pub open spec fn whens_at(c: Source, st: At, d: int) -> Got<Seq<(ExprV, ExprV)>>
    decreases left(c, st), 1int,
{
    if !is_kw(c, st.i, Kw::When) {
        Ok((Seq::empty(), st))
    } else {
        match ahead(c, skip(st, 1), expr_at(c, skip(st, 1), d)) {
            Err(e) => Err(e),
            Ok((a, s1)) => {
                match keyword_at(c, s1, Kw::Then, "THEN"@) {
                    Err(e) => Err(e),
                    Ok((u, s2)) => {
                        match ahead(c, s2, expr_at(c, s2, d)) {
                            Err(e) => Err(e),
                            Ok((b, s3)) => {
                                match whens_at(c, s3, d) {
                                    Err(e) => Err(e),
                                    Ok((rest, s4)) => {
                                        Ok((seq![(a, b)] + rest, s4))
                                    },
                                }
                            },
                        }
                    },
                }
            },
        }
    }
}

/// The aggregate of that name, in upper case; `MIN` and `MAX` are told apart by their
/// arguments.
pub open spec fn aggregate_named(name: Seq<char>) -> Option<AggFunc> {
    if name == "COUNT"@ {
        Some(AggFunc::Count)
    } else if name == "SUM"@ {
        Some(AggFunc::Sum)
    } else if name == "AVG"@ {
        Some(AggFunc::Avg)
    } else if name == "GROUP_CONCAT"@ {
        Some(AggFunc::GroupConcat)
    } else {
        None
    }
}

pub open spec fn extreme_named(name: Seq<char>) -> Option<AggFunc> {
    if name == "MIN"@ {
        Some(AggFunc::Min)
    } else if name == "MAX"@ {
        Some(AggFunc::Max)
    } else {
        None
    }
}

pub open spec fn plain_aggregate(func: AggFunc, arg: ExprV, distinct: bool) -> ExprV {
    ExprV::Aggregate { func, arg: Some(Box::new(arg)), distinct, sep: None }
}

/// What follows `MIN(` or `MAX(`: an aggregate of one argument, or a function of more.
pub open spec fn extreme_at(c: Source, st: At, d: int, name: Seq<char>, func: AggFunc) -> Got<ExprV>
    decreases left(c, st), 33int,
{
    if is_kw(c, st.i, Kw::Distinct) {
        match ahead(c, skip(st, 1), expr_at(c, skip(st, 1), d)) {
            Err(e) => Err(e),
            Ok((x, s1)) => {
                match close_at(c, s1, ()) {
                    Err(e) => Err(e),
                    Ok((u, s2)) => {
                        over_at(c, s2, d, plain_aggregate(func, x, true))
                    },
                }
            },
        }
    } else {
        match ahead(c, st, args_at(c, st, d)) {
            Err(e) => Err(e),
            Ok((es, s1)) => {
                if es.len() == 1 {
                    over_at(c, s1, d, plain_aggregate(func, es[0], false))
                } else {
                    over_at(c, s1, d, ExprV::Function { name, args: es })
                }
            },
        }
    }
}

/// What follows `name(`; `at` is the place of the name.
pub open spec fn call_at(c: Source, st: At, d: int, name: Seq<char>, at: int) -> Got<ExprV>
    decreases left(c, st), 34int,
{
    let upper = ascii_upper_all(name);
    match extreme_named(upper) {
        Some(func) => extreme_at(c, st, d, name, func),
        None => match aggregate_named(upper) {
            Some(func) => aggregate_at(c, st, d, func, at),
            None => {
                match ahead(c, st, args_at(c, st, d)) {
                    Err(e) => Err(e),
                    Ok((es, s1)) => {
                        if upper == "IIF"@ {
                            if es.len() != 3 {
                                Err(error_at(c, at, "iif() requiere exactamente 3 argumentos"@))
                            } else {
                                Ok((ExprV::Case { operand: None, whens: seq![(es[0], es[1])], else_: Some(Box::new(es[2])) }, s1))
                            }
                        } else {
                            over_at(c, s1, d, ExprV::Function { name, args: es })
                        }
                    },
                }
            }
        },
    }
}

/// The argument of an aggregate.
pub open spec fn aggregate_at(c: Source, st: At, d: int, func: AggFunc, at: int) -> Got<ExprV>
    decreases left(c, st), 33int,
{
    let distinct = is_kw(c, st.i, Kw::Distinct);
    let s1 = if distinct { skip(st, 1) } else { st };
    if is_tok(c, s1.i, TokV::Star) {
        if distinct {
            Err(error_at(c, at, "DISTINCT no admite '*'"@))
        } else if func != AggFunc::Count {
            Err(error_at(c, at, "solo COUNT admite '*'"@))
        } else {
            aggregate_rest(c, skip(s1, 1), d, func, distinct, None)
        }
    } else {
        match ahead(c, s1, expr_at(c, s1, d)) {
            Err(e) => Err(e),
            Ok((x, s2)) => {
                aggregate_rest(c, s2, d, func, distinct, Some(Box::new(x)))
            },
        }
    }
}

/// The separator of `GROUP_CONCAT` and the end of an aggregate.
pub open spec fn aggregate_rest(c: Source, st: At, d: int, func: AggFunc, distinct: bool, arg: Option<Box<ExprV>>) -> Got<ExprV>
    decreases left(c, st), 1int,
{
    if func == AggFunc::GroupConcat && is_tok(c, st.i, TokV::Comma) {
        match ahead(c, skip(st, 1), expr_at(c, skip(st, 1), d)) {
            Err(e) => Err(e),
            Ok((x, s1)) => {
                match close_at(c, s1, ()) {
                    Err(e) => Err(e),
                    Ok((u, s2)) => {
                        over_at(c, s2, d, ExprV::Aggregate { func, arg, distinct, sep: Some(Box::new(x)) })
                    },
                }
            },
        }
    } else {
        match close_at(c, st, ()) {
            Err(e) => Err(e),
            Ok((u, s1)) => {
                over_at(c, s1, d, ExprV::Aggregate { func, arg, distinct, sep: None })
            },
        }
    }
}

/// The window function of that name, in upper case.
pub open spec fn window_named(name: Seq<char>) -> Option<WindowFunc> {
    if name == "ROW_NUMBER"@ {
        Some(WindowFunc::RowNumber)
    } else if name == "RANK"@ {
        Some(WindowFunc::Rank)
    } else if name == "DENSE_RANK"@ {
        Some(WindowFunc::DenseRank)
    } else if name == "NTILE"@ {
        Some(WindowFunc::Ntile)
    } else if name == "LAG"@ {
        Some(WindowFunc::Lag)
    } else if name == "LEAD"@ {
        Some(WindowFunc::Lead)
    } else if name == "FIRST_VALUE"@ {
        Some(WindowFunc::FirstValue)
    } else if name == "LAST_VALUE"@ {
        Some(WindowFunc::LastValue)
    } else {
        None
    }
}

/// The window function that a call becomes before `OVER`, or the message.
#[verifier::opaque]
pub open spec fn window_call(call: ExprV) -> Result<(WindowFunc, Seq<ExprV>), Seq<char>> {
    match call {
        ExprV::Aggregate { func, arg, distinct, sep } => if distinct {
            Err("DISTINCT no se admite en una ventana"@)
        } else if sep is Some || func == AggFunc::GroupConcat {
            Err("GROUP_CONCAT no se admite como ventana"@)
        } else {
            let args = match arg {
                Some(x) => seq![*x],
                None => Seq::empty(),
            };
            let wf = match func {
                AggFunc::Sum => WindowFunc::Sum,
                AggFunc::Count => WindowFunc::Count,
                AggFunc::Avg => WindowFunc::Avg,
                AggFunc::Min => WindowFunc::Min,
                _ => WindowFunc::Max,
            };
            Ok((wf, args))
        },
        ExprV::Function { name, args } => match window_named(ascii_upper_all(name)) {
            Some(wf) => Ok((wf, args)),
            None => Err("«"@ + ascii_upper_all(name) + "» no es una función de ventana"@),
        },
        _ => Err("OVER solo puede seguir a una función"@),
    }
}

/// A call, made a window function where `OVER` follows.
pub open spec fn over_at(c: Source, st: At, d: int, call: ExprV) -> Got<ExprV>
    decreases left(c, st), 0int,
{
    if !is_kw(c, st.i, Kw::Over) {
        Ok((call, st))
    } else {
        let s1 = skip(st, 1);
        match window_call(call) {
            Err(msg) => Err(error_at(c, s1.i, msg)),
            Ok((func, args)) => {
                match expect_at(c, s1, TokV::LParen, "'(' tras OVER"@) {
                    Err(e) => Err(e),
                    Ok((u, s2)) => {
                        match onward(c, s2, keys_at(c, s2, d, Kw::Partition)) {
                            Err(e) => Err(e),
                            Ok((partition_by, s3)) => {
                                match onward(c, s3, ordering_at(c, s3)) {
                                    Err(e) => Err(e),
                                    Ok((order_by, s4)) => {
                                        close_at(c, s4, ExprV::Window { func, args, partition_by, order_by, frame: None })
                                    },
                                }
                            },
                        }
                    },
                }
            }
        }
    }
}

/// `k BY` and expressions, or nothing.
pub open spec fn keys_at(c: Source, st: At, d: int, k: Kw) -> Got<Seq<ExprV>>
    decreases left(c, st), 0int,
{
    if !is_kw(c, st.i, k) {
        Ok((Seq::empty(), st))
    } else {
        match keyword_at(c, skip(st, 1), Kw::By, "BY"@) {
            Err(e) => Err(e),
            Ok((u, s1)) => {
                exprs_at(c, s1, d)
            },
        }
    }
}

#[verifier::opaque]
pub open spec fn order_item_at(c: Source, st: At) -> Got<OrderByV> {
    match name_at(c, st, "un nombre de columna"@) {
        Err(e) => Err(e),
        Ok((first, s1)) => {
            if is_tok(c, s1.i, TokV::Dot) {
                match name_at(c, skip(s1, 1), "un nombre de columna"@) {
                    Err(e) => Err(e),
                    Ok((col, s2)) => {
                        Ok(directed(c, s2, ExprV::Column { table: Some(first), name: col }))
                    },
                }
            } else {
                Ok(directed(c, s1, ExprV::Column { table: None, name: first }))
            }
        },
    }
}

/// A sort key with the direction that follows it.
pub open spec fn directed(c: Source, st: At, expr: ExprV) -> (OrderByV, At) {
    let desc = is_kw(c, st.i, Kw::Desc);
    let word = desc || is_kw(c, st.i, Kw::Asc);
    (OrderByV { expr, desc }, if word { skip(st, 1) } else { st })
}

#[verifier::opaque]
pub open spec fn order_items_at(c: Source, st: At) -> Got<Seq<OrderByV>>
    decreases left(c, st),
{
    match ahead(c, st, order_item_at(c, st)) {
        Err(e) => Err(e),
        Ok((item, s1)) => {
            if is_tok(c, s1.i, TokV::Comma) {
                match order_items_at(c, skip(s1, 1)) {
                    Err(e) => Err(e),
                    Ok((rest, s2)) => {
                        Ok((seq![item] + rest, s2))
                    },
                }
            } else {
                Ok((seq![item], s1))
            }
        },
    }
}

/// `ORDER BY` and its keys, or nothing.
#[verifier::opaque]
pub open spec fn ordering_at(c: Source, st: At) -> Got<Seq<OrderByV>> {
    if !is_kw(c, st.i, Kw::Order) {
        Ok((Seq::empty(), st))
    } else {
        match keyword_at(c, skip(st, 1), Kw::By, "BY"@) {
            Err(e) => Err(e),
            Ok((u, s1)) => {
                order_items_at(c, s1)
            },
        }
    }
}

// --- SELECT ---

/// `AS OF` lies ahead.
pub open spec fn history_ahead(c: Source, i: int) -> bool {
    is_kw(c, i, Kw::As) && is_kw(c, i + 1, Kw::Of)
}

/// `AS OF VERSION n` or `AS OF TIMESTAMP 't'`, or nothing.
#[verifier::opaque]
pub open spec fn as_of_at(c: Source, st: At) -> Got<Option<AsOfClause>> {
    let s1 = skip(st, 2);
    let s2 = skip(st, 4);
    if !history_ahead(c, st.i) {
        Ok((None, st))
    } else if is_kw(c, s1.i, Kw::Version) {
        match tok_at(c, s1.i + 1) {
            Some(TokV::Int(n)) => if n >= 0 {
                Ok((Some(AsOfClause::Version(n as u64)), s2))
            } else {
                Err(expected(c, s1.i + 1, "un número de versión entero no negativo"@))
            },
            _ => Err(expected(c, s1.i + 1, "un número de versión entero no negativo"@)),
        }
    } else if is_kw(c, s1.i, Kw::Timestamp) {
        match tok_at(c, s1.i + 1) {
            Some(TokV::Str(t)) => match rfc3339(encode_utf8(t)) {
                Some(ms) => Ok((Some(AsOfClause::Timestamp(if ms < 0 { 0 } else { ms as u64 })), s2)),
                None => Err(error_at(c, s1.i + 1, "timestamp RFC 3339 inválido"@)),
            },
            _ => Err(expected(c, s1.i + 1, "un literal de timestamp RFC 3339 entre comillas"@)),
        }
    } else {
        Err(expected(c, s1.i, "VERSION o TIMESTAMP tras AS OF"@))
    }
}

/// A table, or a subquery with its alias.
pub open spec fn table_at(c: Source, st: At, d: int) -> Got<TableRefV>
    decreases left(c, st), 0int,
{
    if is_tok(c, st.i, TokV::LParen) && is_kw(c, st.i + 1, Kw::Select) {
        match ahead(c, skip(st, 1), select_at(c, skip(st, 1), d)) {
            Err(e) => Err(e),
            Ok((q, s1)) => {
                match close_at(c, s1, ()) {
                    Err(e) => Err(e),
                    Ok((u, s2)) => {
                        let s3 = if is_kw(c, s2.i, Kw::As) { skip(s2, 1) } else { s2 };
                        match name_at(c, s3, "un alias para la subconsulta del FROM"@) {
                            Err(e) => Err(e),
                            Ok((alias, s4)) => {
                                Ok((TableRefV { name: Seq::empty(), alias: Some(alias), subquery: Some(Box::new(q)) }, s4))
                            },
                        }
                    },
                }
            },
        }
    } else {
        match name_at(c, st, "un nombre de tabla"@) {
            Err(e) => Err(e),
            Ok((name, s1)) => {
                let named = tok_at(c, s1.i) is Some && tok_at(c, s1.i)->0 is Ident;
                let word = is_kw(c, s1.i, Kw::As);
                if !history_ahead(c, s1.i) && (word || named) {
                    match name_at(c, if word { skip(s1, 1) } else { s1 }, "un alias de tabla"@) {
                        Err(e) => Err(e),
                        Ok((alias, s2)) => {
                            Ok((TableRefV { name, alias: Some(alias), subquery: None }, s2))
                        },
                    }
                } else {
                    Ok((TableRefV { name, alias: None, subquery: None }, s1))
                }
            },
        }
    }
}

/// An item of a projection.
pub open spec fn item_at(c: Source, st: At, d: int) -> Got<SelectItemV>
    decreases left(c, st), 32int,
{
    if is_tok(c, st.i, TokV::Star) {
        Ok((SelectItemV::Star, skip(st, 1)))
    } else {
        match ahead(c, st, expr_at(c, st, d)) {
            Err(e) => Err(e),
            Ok((expr, s1)) => {
                if !history_ahead(c, s1.i) && is_kw(c, s1.i, Kw::As) {
                    match name_at(c, skip(s1, 1), "un alias de columna tras AS"@) {
                        Err(e) => Err(e),
                        Ok((alias, s2)) => {
                            Ok((SelectItemV::Expr { expr, alias: Some(alias) }, s2))
                        },
                    }
                } else {
                    Ok((SelectItemV::Expr { expr, alias: None }, s1))
                }
            },
        }
    }
}

pub open spec fn items_at(c: Source, st: At, d: int) -> Got<Seq<SelectItemV>>
    decreases left(c, st), 33int,
{
    match ahead(c, st, item_at(c, st, d)) {
        Err(e) => Err(e),
        Ok((item, s1)) => {
            if is_tok(c, s1.i, TokV::Comma) {
                match items_at(c, skip(s1, 1), d) {
                    Err(e) => Err(e),
                    Ok((rest, s2)) => {
                        Ok((seq![item] + rest, s2))
                    },
                }
            } else {
                Ok((seq![item], s1))
            }
        },
    }
}

/// The words of a join, or nothing.
pub open spec fn join_kind_at(c: Source, st: At) -> Got<Option<JoinKind>> {
    if is_kw(c, st.i, Kw::Inner) {
        match keyword_at(c, skip(st, 1), Kw::Join, "JOIN"@) {
            Err(e) => Err(e),
            Ok((u, s1)) => {
                Ok((Some(JoinKind::Inner), s1))
            },
        }
    } else if is_kw(c, st.i, Kw::Left) {
        match keyword_at(c, skip(st, 1), Kw::Join, "JOIN"@) {
            Err(e) => Err(e),
            Ok((u, s1)) => {
                Ok((Some(JoinKind::Left), s1))
            },
        }
    } else if is_kw(c, st.i, Kw::Join) {
        Ok((Some(JoinKind::Inner), skip(st, 1)))
    } else {
        Ok((None, st))
    }
}

/// Joins, possibly none.
pub open spec fn joins_at(c: Source, st: At, d: int) -> Got<Seq<JoinV>>
    decreases left(c, st), 0int,
{
    match join_kind_at(c, st) {
        Err(e) => Err(e),
        Ok((k, s1)) => {
            match k {
                None => Ok((Seq::empty(), st)),
                Some(kind) => {
                    match ahead(c, s1, table_at(c, s1, d)) {
                        Err(e) => Err(e),
                        Ok((table, s2)) => {
                            match keyword_at(c, s2, Kw::On, "ON"@) {
                                Err(e) => Err(e),
                                Ok((u, s3)) => {
                                    match ahead(c, s3, expr_at(c, s3, d)) {
                                        Err(e) => Err(e),
                                        Ok((on, s4)) => {
                                            match joins_at(c, s4, d) {
                                                Err(e) => Err(e),
                                                Ok((rest, s5)) => {
                                                    Ok((seq![JoinV { kind, table, on }] + rest, s5))
                                                },
                                            }
                                        },
                                    }
                                },
                            }
                        },
                    }
                }
            }
        },
    }
}

/// `FROM` with its joins, or nothing.
pub open spec fn from_at(c: Source, st: At, d: int) -> Got<(Option<TableRefV>, Seq<JoinV>)>
    decreases left(c, st), 0int,
{
    if !is_kw(c, st.i, Kw::From) {
        Ok(((None, Seq::empty()), st))
    } else {
        match ahead(c, skip(st, 1), table_at(c, skip(st, 1), d)) {
            Err(e) => Err(e),
            Ok((table, s1)) => {
                match onward(c, s1, joins_at(c, s1, d)) {
                    Err(e) => Err(e),
                    Ok((joins, s2)) => {
                        Ok(((Some(table), joins), s2))
                    },
                }
            },
        }
    }
}

/// `k` and an expression, or nothing.
pub open spec fn clause_at(c: Source, st: At, d: int, k: Kw) -> Got<Option<ExprV>>
    decreases left(c, st), 0int,
{
    if !is_kw(c, st.i, k) {
        Ok((None, st))
    } else {
        match ahead(c, skip(st, 1), expr_at(c, skip(st, 1), d)) {
            Err(e) => Err(e),
            Ok((x, s1)) => {
                Ok((Some(x), s1))
            },
        }
    }
}

/// A SELECT up to `HAVING`.
pub open spec fn core_at(c: Source, st: At, d: int) -> Got<SelectStmtV>
    decreases left(c, st), 39int,
{
    match keyword_at(c, st, Kw::Select, "SELECT"@) {
        Err(e) => Err(e),
        Ok((u, s0)) => {
            let distinct = is_kw(c, s0.i, Kw::Distinct);
            let s1 = if distinct { skip(s0, 1) } else { s0 };
            match ahead(c, s1, items_at(c, s1, d)) {
                Err(e) => Err(e),
                Ok((projection, s2)) => {
                    match onward(c, s2, from_at(c, s2, d)) {
                        Err(e) => Err(e),
                        Ok((tables, s3)) => {
                            match onward(c, s3, clause_at(c, s3, d, Kw::Where)) {
                                Err(e) => Err(e),
                                Ok((where_clause, s4)) => {
                                    match onward(c, s4, keys_at(c, s4, d, Kw::Group)) {
                                        Err(e) => Err(e),
                                        Ok((group_by, s5)) => {
                                            match onward(c, s5, clause_at(c, s5, d, Kw::Having)) {
                                                Err(e) => Err(e),
                                                Ok((having, s6)) => {
                                                    Ok((SelectStmtV {
                                                                distinct,
                                                                projection,
                                                                from: tables.0,
                                                                joins: tables.1,
                                                                where_clause,
                                                                group_by,
                                                                having,
                                                                order_by: Seq::empty(),
                                                                limit: None,
                                                                offset: None,
                                                                as_of: None,
                                                                compound: Seq::empty(),
                                                                with: Seq::empty(),
                                                            }, s6))
                                                },
                                            }
                                        },
                                    }
                                },
                            }
                        },
                    }
                },
            }
        },
    }
}

/// The set operator at a place and the number of its tokens.
pub open spec fn set_op_at(c: Source, i: int) -> Option<(SetOp, int)> {
    if is_kw(c, i, Kw::Union) {
        if is_kw(c, i + 1, Kw::All) {
            Some((SetOp::UnionAll, 2))
        } else {
            Some((SetOp::Union, 1))
        }
    } else if is_kw(c, i, Kw::Intersect) {
        Some((SetOp::Intersect, 1))
    } else if is_kw(c, i, Kw::Except) {
        Some((SetOp::Except, 1))
    } else {
        None
    }
}

/// The SELECTs chained by set operators, possibly none.
pub open spec fn compounds_at(c: Source, st: At, d: int) -> Got<Seq<CompoundSelectV>>
    decreases left(c, st), 0int,
{
    match set_op_at(c, st.i) {
        None => Ok((Seq::empty(), st)),
        Some((op, n)) => {
            match ahead(c, skip(st, n), core_at(c, skip(st, n), d)) {
                Err(e) => Err(e),
                Ok((select, s1)) => {
                    match compounds_at(c, s1, d) {
                        Err(e) => Err(e),
                        Ok((rest, s2)) => {
                            Ok((seq![CompoundSelectV { op, select }] + rest, s2))
                        },
                    }
                },
            }
        }
    }
}

/// A SELECT with what is chained to it and its final clauses.
pub open spec fn select_at(c: Source, st: At, d: int) -> Got<SelectStmtV>
    decreases left(c, st), 40int,
{
    match ahead(c, st, core_at(c, st, d)) {
        Err(e) => Err(e),
        Ok((lead, s1)) => {
            match onward(c, s1, compounds_at(c, s1, d)) {
                Err(e) => Err(e),
                Ok((compound, s2)) => {
                    match onward(c, s2, ordering_at(c, s2)) {
                        Err(e) => Err(e),
                        Ok((order_by, s3)) => {
                            match onward(c, s3, clause_at(c, s3, d, Kw::Limit)) {
                                Err(e) => Err(e),
                                Ok((limit, s4)) => {
                                    match onward(c, s4, clause_at(c, s4, d, Kw::Offset)) {
                                        Err(e) => Err(e),
                                        Ok((offset, s5)) => {
                                            match onward(c, s5, as_of_at(c, s5)) {
                                                Err(e) => Err(e),
                                                Ok((as_of, s6)) => {
                                                    Ok((SelectStmtV { compound, order_by, limit, offset, as_of, ..lead }, s6))
                                                },
                                            }
                                        },
                                    }
                                },
                            }
                        },
                    }
                },
            }
        },
    }
}

/// A common table expression.
#[verifier::opaque]
pub open spec fn cte_at(c: Source, st: At) -> Got<CteV> {
    match name_at(c, st, "un nombre de CTE"@) {
        Err(e) => Err(e),
        Ok((name, s1)) => {
            match keyword_at(c, s1, Kw::As, "AS"@) {
                Err(e) => Err(e),
                Ok((u, s2)) => {
                    match expect_at(c, s2, TokV::LParen, "'(' tras AS"@) {
                        Err(e) => Err(e),
                        Ok((w, s3)) => {
                            match select_at(c, s3, 0) {
                                Err(e) => Err(e),
                                Ok((query, s4)) => {
                                    close_at(c, s4, CteV { name, query })
                                },
                            }
                        },
                    }
                },
            }
        },
    }
}

/// Common table expressions separated by commas.
#[verifier::opaque]
pub open spec fn ctes_at(c: Source, st: At) -> Got<Seq<CteV>>
    decreases left(c, st),
{
    match ahead(c, st, cte_at(c, st)) {
        Err(e) => Err(e),
        Ok((cte, s1)) => {
            if is_tok(c, s1.i, TokV::Comma) {
                match ctes_at(c, skip(s1, 1)) {
                    Err(e) => Err(e),
                    Ok((rest, s2)) => {
                        Ok((seq![cte] + rest, s2))
                    },
                }
            } else {
                Ok((seq![cte], s1))
            }
        },
    }
}

/// A SELECT after its common table expressions.
#[verifier::opaque]
pub open spec fn with_at(c: Source, st: At) -> Got<StmtV> {
    match keyword_at(c, st, Kw::With, "WITH"@) {
        Err(e) => Err(e),
        Ok((u, s0)) => {
            let s1 = if is_kw(c, s0.i, Kw::Recursive) { skip(s0, 1) } else { s0 };
            match ahead(c, s1, ctes_at(c, s1)) {
                Err(e) => Err(e),
                Ok((with, s2)) => {
                    match ahead(c, s2, select_at(c, s2, 0)) {
                        Err(e) => Err(e),
                        Ok((sel, s3)) => {
                            Ok((StmtV::Select(SelectStmtV { with, ..sel }), s3))
                        },
                    }
                },
            }
        },
    }
}

// --- the other statements ---

/// `IF NOT EXISTS`, or nothing.
#[verifier::opaque]
pub open spec fn if_not_exists_at(c: Source, st: At) -> Got<bool> {
    if is_kw(c, st.i, Kw::If) {
        match keyword_at(c, skip(st, 1), Kw::Not, "NOT"@) {
            Err(e) => Err(e),
            Ok((u, s1)) => {
                match keyword_at(c, s1, Kw::Exists, "EXISTS"@) {
                    Err(e) => Err(e),
                    Ok((w, s2)) => {
                        Ok((true, s2))
                    },
                }
            },
        }
    } else {
        Ok((false, st))
    }
}

/// `IF EXISTS`, or nothing.
#[verifier::opaque]
pub open spec fn if_exists_at(c: Source, st: At) -> Got<bool> {
    if is_kw(c, st.i, Kw::If) {
        match keyword_at(c, skip(st, 1), Kw::Exists, "EXISTS"@) {
            Err(e) => Err(e),
            Ok((u, s1)) => {
                Ok((true, s1))
            },
        }
    } else {
        Ok((false, st))
    }
}

#[verifier::opaque]
pub open spec fn fk_action_at(c: Source, st: At) -> Got<FkAction> {
    if is_kw(c, st.i, Kw::Cascade) {
        Ok((FkAction::Cascade, skip(st, 1)))
    } else if is_kw(c, st.i, Kw::Restrict) {
        Ok((FkAction::Restrict, skip(st, 1)))
    } else if is_kw(c, st.i, Kw::SetTo) {
        match keyword_at(c, skip(st, 1), Kw::Null, "NULL"@) {
            Err(e) => Err(e),
            Ok((u, s1)) => {
                Ok((FkAction::SetNull, s1))
            },
        }
    } else {
        Err(expected(c, st.i, "CASCADE, RESTRICT o SET NULL"@))
    }
}

/// The actions `ON DELETE` and `ON UPDATE`, in any order; the last of each counts.
#[verifier::opaque]
pub open spec fn fk_actions_at(c: Source, st: At, on_delete: FkAction, on_update: FkAction) -> Got<(FkAction, FkAction)>
    decreases left(c, st),
{
    if !is_kw(c, st.i, Kw::On) {
        Ok(((on_delete, on_update), st))
    } else if is_kw(c, st.i + 1, Kw::Delete) {
        match ahead(c, skip(st, 2), fk_action_at(c, skip(st, 2))) {
            Err(e) => Err(e),
            Ok((a, s1)) => {
                fk_actions_at(c, s1, a, on_update)
            },
        }
    } else if is_kw(c, st.i + 1, Kw::Update) {
        match ahead(c, skip(st, 2), fk_action_at(c, skip(st, 2))) {
            Err(e) => Err(e),
            Ok((a, s1)) => {
                fk_actions_at(c, s1, on_delete, a)
            },
        }
    } else {
        Err(expected(c, st.i + 1, "DELETE o UPDATE tras ON"@))
    }
}

/// What follows `REFERENCES` beside a column.
#[verifier::opaque]
pub open spec fn fk_reference_at(c: Source, st: At) -> Got<ColumnFkV> {
    match name_at(c, st, "una tabla padre"@) {
        Err(e) => Err(e),
        Ok((parent, s1)) => {
            if is_tok(c, s1.i, TokV::LParen) {
                match name_at(c, skip(s1, 1), "una columna del padre"@) {
                    Err(e) => Err(e),
                    Ok((col, s2)) => {
                        match close_at(c, s2, ()) {
                            Err(e) => Err(e),
                            Ok((u, s3)) => {
                                match fk_actions_at(c, s3, FkAction::Restrict, FkAction::Restrict) {
                                    Err(e) => Err(e),
                                    Ok((acts, s4)) => {
                                        Ok((ColumnFkV { parent, parent_column: Some(col), on_delete: acts.0, on_update: acts.1 }, s4))
                                    },
                                }
                            },
                        }
                    },
                }
            } else {
                match fk_actions_at(c, s1, FkAction::Restrict, FkAction::Restrict) {
                    Err(e) => Err(e),
                    Ok((acts, s2)) => {
                        Ok((ColumnFkV { parent, parent_column: None, on_delete: acts.0, on_update: acts.1 }, s2))
                    },
                }
            }
        },
    }
}

/// A foreign key of the table.
#[verifier::opaque]
pub open spec fn table_fk_at(c: Source, st: At) -> Got<ForeignKeySpecV> {
    match keyword_at(c, st, Kw::Foreign, "FOREIGN"@) {
        Err(e) => Err(e),
        Ok((u, s1)) => {
            match keyword_at(c, s1, Kw::Key, "KEY"@) {
                Err(e) => Err(e),
                Ok((w, s2)) => {
                    match expect_at(c, s2, TokV::LParen, "'('"@) {
                        Err(e) => Err(e),
                        Ok((x, s3)) => {
                            match name_list_at(c, s3, "una columna"@) {
                                Err(e) => Err(e),
                                Ok((columns, s4)) => {
                                    match keyword_at(c, s4, Kw::References, "REFERENCES"@) {
                                        Err(e) => Err(e),
                                        Ok((y, s5)) => {
                                            match name_at(c, s5, "una tabla padre"@) {
                                                Err(e) => Err(e),
                                                Ok((parent, s6)) => {
                                                    if is_tok(c, s6.i, TokV::LParen) {
                                                        match name_list_at(c, skip(s6, 1), "una columna del padre"@) {
                                                            Err(e) => Err(e),
                                                            Ok((parent_columns, s7)) => {
                                                                match fk_actions_at(c, s7, FkAction::Restrict, FkAction::Restrict) {
                                                                    Err(e) => Err(e),
                                                                    Ok((acts, s8)) => {
                                                                        Ok((ForeignKeySpecV { columns, parent, parent_columns, on_delete: acts.0, on_update: acts.1 }, s8))
                                                                    },
                                                                }
                                                            },
                                                        }
                                                    } else {
                                                        match fk_actions_at(c, s6, FkAction::Restrict, FkAction::Restrict) {
                                                            Err(e) => Err(e),
                                                            Ok((acts, s7)) => {
                                                                Ok((ForeignKeySpecV { columns, parent, parent_columns: Seq::empty(), on_delete: acts.0, on_update: acts.1 }, s7))
                                                            },
                                                        }
                                                    }
                                                },
                                            }
                                        },
                                    }
                                },
                            }
                        },
                    }
                },
            }
        },
    }
}

/// The attributes that follow the type of a column.
#[verifier::opaque]
pub open spec fn attributes_at(c: Source, st: At, col: ColumnAstV) -> Got<ColumnAstV>
    decreases left(c, st),
{
    if is_kw(c, st.i, Kw::Primary) {
        match keyword_at(c, skip(st, 1), Kw::Key, "KEY"@) {
            Err(e) => Err(e),
            Ok((u, s1)) => {
                attributes_at(c, s1, ColumnAstV { primary_key: true, ..col })
            },
        }
    } else if is_kw(c, st.i, Kw::Not) {
        match keyword_at(c, skip(st, 1), Kw::Null, "NULL"@) {
            Err(e) => Err(e),
            Ok((u, s1)) => {
                attributes_at(c, s1, ColumnAstV { not_null: true, ..col })
            },
        }
    } else if is_kw(c, st.i, Kw::Default) {
        match ahead(c, skip(st, 1), expr_at(c, skip(st, 1), 0)) {
            Err(e) => Err(e),
            Ok((x, s1)) => {
                attributes_at(c, s1, ColumnAstV { default: Some(x), ..col })
            },
        }
    } else if is_kw(c, st.i, Kw::References) {
        match ahead(c, skip(st, 1), fk_reference_at(c, skip(st, 1))) {
            Err(e) => Err(e),
            Ok((fk, s1)) => {
                attributes_at(c, s1, ColumnAstV { references: Some(fk), ..col })
            },
        }
    } else {
        Ok((col, st))
    }
}

#[verifier::opaque]
pub open spec fn column_at(c: Source, st: At) -> Got<ColumnAstV> {
    match name_at(c, st, "un nombre de columna"@) {
        Err(e) => Err(e),
        Ok((name, s1)) => {
            match coltype_at(c, s1) {
                Err(e) => Err(e),
                Ok((col_type, s2)) => {
                    attributes_at(c, s2, ColumnAstV { name, col_type, not_null: false, primary_key: false, default: None, references: None, unique: false, check: None })
                },
            }
        },
    }
}

/// Columns and foreign keys separated by commas.
#[verifier::opaque]
pub open spec fn members_at(c: Source, st: At) -> Got<(Seq<ColumnAstV>, Seq<ForeignKeySpecV>)>
    decreases left(c, st),
{
    if is_kw(c, st.i, Kw::Foreign) {
        match ahead(c, st, table_fk_at(c, st)) {
            Err(e) => Err(e),
            Ok((fk, s1)) => {
                if is_tok(c, s1.i, TokV::Comma) {
                    match members_at(c, skip(s1, 1)) {
                        Err(e) => Err(e),
                        Ok((rest, s2)) => {
                            Ok(((rest.0, seq![fk] + rest.1), s2))
                        },
                    }
                } else {
                    Ok(((Seq::empty(), seq![fk]), s1))
                }
            },
        }
    } else {
        match ahead(c, st, column_at(c, st)) {
            Err(e) => Err(e),
            Ok((col, s1)) => {
                if is_tok(c, s1.i, TokV::Comma) {
                    match members_at(c, skip(s1, 1)) {
                        Err(e) => Err(e),
                        Ok((rest, s2)) => {
                            Ok(((seq![col] + rest.0, rest.1), s2))
                        },
                    }
                } else {
                    Ok(((seq![col], Seq::empty()), s1))
                }
            },
        }
    }
}

/// What follows `CREATE` for a table.
#[verifier::opaque]
pub open spec fn create_table_at(c: Source, st: At) -> Got<StmtV> {
    match keyword_at(c, st, Kw::Table, "TABLE"@) {
        Err(e) => Err(e),
        Ok((u, s1)) => {
            match if_not_exists_at(c, s1) {
                Err(e) => Err(e),
                Ok((if_not_exists, s2)) => {
                    match name_at(c, s2, "un nombre de tabla"@) {
                        Err(e) => Err(e),
                        Ok((name, s3)) => {
                            match expect_at(c, s3, TokV::LParen, "'('"@) {
                                Err(e) => Err(e),
                                Ok((w, s4)) => {
                                    match members_at(c, s4) {
                                        Err(e) => Err(e),
                                        Ok((members, s5)) => {
                                            close_at(c, s5, StmtV::CreateTable {
                                                    if_not_exists,
                                                    name,
                                                    columns: members.0,
                                                    foreign_keys: members.1,
                                                    uniques: Seq::empty(),
                                                    checks: Seq::empty(),
                                            })
                                        },
                                    }
                                },
                            }
                        },
                    }
                },
            }
        },
    }
}

/// What follows `CREATE` for an index.
#[verifier::opaque]
pub open spec fn create_index_at(c: Source, st: At) -> Got<StmtV> {
    let unique = is_kw(c, st.i, Kw::Unique);
    let s0 = if unique { skip(st, 1) } else { st };
    match keyword_at(c, s0, Kw::Index, "INDEX"@) {
        Err(e) => Err(e),
        Ok((u, s1)) => {
            match if_not_exists_at(c, s1) {
                Err(e) => Err(e),
                Ok((if_not_exists, s2)) => {
                    match name_at(c, s2, "un nombre de índice"@) {
                        Err(e) => Err(e),
                        Ok((name, s3)) => {
                            match keyword_at(c, s3, Kw::On, "ON"@) {
                                Err(e) => Err(e),
                                Ok((w, s4)) => {
                                    match name_at(c, s4, "un nombre de tabla"@) {
                                        Err(e) => Err(e),
                                        Ok((table, s5)) => {
                                            match expect_at(c, s5, TokV::LParen, "'('"@) {
                                                Err(e) => Err(e),
                                                Ok((x, s6)) => {
                                                    match name_list_at(c, s6, "un nombre de columna"@) {
                                                        Err(e) => Err(e),
                                                        Ok((columns, s7)) => {
                                                            Ok((StmtV::CreateIndex { if_not_exists, unique, name, table, columns }, s7))
                                                        },
                                                    }
                                                },
                                            }
                                        },
                                    }
                                },
                            }
                        },
                    }
                },
            }
        },
    }
}

/// The text of the source from the token `i` to the token `j`, trimmed.
pub open spec fn text_between(c: Source, i: int, j: int) -> Seq<char> {
    trim_end(trim_start(slice(c.src, pos_at(c, i) as nat, pos_at(c, j) as nat)))
}

/// What follows `CREATE` for a view; its SELECT is kept as text.
#[verifier::opaque]
pub open spec fn create_view_at(c: Source, st: At) -> Got<StmtV> {
    match keyword_at(c, st, Kw::View, "VIEW"@) {
        Err(e) => Err(e),
        Ok((u, s1)) => {
            match if_not_exists_at(c, s1) {
                Err(e) => Err(e),
                Ok((if_not_exists, s2)) => {
                    match name_at(c, s2, "un nombre de vista"@) {
                        Err(e) => Err(e),
                        Ok((name, s3)) => {
                            match keyword_at(c, s3, Kw::As, "AS"@) {
                                Err(e) => Err(e),
                                Ok((w, s4)) => {
                                    match ahead(c, s4, select_at(c, s4, 0)) {
                                        Err(e) => Err(e),
                                        Ok((q, s5)) => {
                                            Ok((StmtV::CreateView { if_not_exists, name, select_sql: text_between(c, s4.i, s5.i) }, s5))
                                        },
                                    }
                                },
                            }
                        },
                    }
                },
            }
        },
    }
}

#[verifier::opaque]
pub open spec fn timing_at(c: Source, st: At) -> Got<TriggerTiming> {
    if is_kw(c, st.i, Kw::Before) {
        Ok((TriggerTiming::Before, skip(st, 1)))
    } else if is_kw(c, st.i, Kw::After) {
        Ok((TriggerTiming::After, skip(st, 1)))
    } else if is_kw(c, st.i, Kw::Instead) {
        match keyword_at(c, skip(st, 1), Kw::Of, "OF"@) {
            Err(e) => Err(e),
            Ok((u, s1)) => {
                Ok((TriggerTiming::InsteadOf, s1))
            },
        }
    } else {
        Err(expected(c, st.i, "BEFORE, AFTER o INSTEAD OF"@))
    }
}

#[verifier::opaque]
pub open spec fn event_at(c: Source, st: At) -> Got<TriggerEvent> {
    if is_kw(c, st.i, Kw::Insert) {
        Ok((TriggerEvent::Insert, skip(st, 1)))
    } else if is_kw(c, st.i, Kw::Update) {
        Ok((TriggerEvent::Update, skip(st, 1)))
    } else if is_kw(c, st.i, Kw::Delete) {
        Ok((TriggerEvent::Delete, skip(st, 1)))
    } else {
        Err(expected(c, st.i, "INSERT, UPDATE o DELETE"@))
    }
}

/// `FOR EACH ROW` or `FOR EACH STATEMENT`; without it, per row.
#[verifier::opaque]
pub open spec fn for_each_at(c: Source, st: At) -> Got<TriggerForEach> {
    if is_kw(c, st.i, Kw::For) {
        match keyword_at(c, skip(st, 1), Kw::Each, "EACH"@) {
            Err(e) => Err(e),
            Ok((u, s1)) => {
                if is_kw(c, s1.i, Kw::Row) {
                    Ok((TriggerForEach::Row, skip(s1, 1)))
                } else if is_kw(c, s1.i, Kw::Statement) {
                    Ok((TriggerForEach::Statement, skip(s1, 1)))
                } else {
                    Err(expected(c, s1.i, "ROW o STATEMENT"@))
                }
            },
        }
    } else {
        Ok((TriggerForEach::Row, st))
    }
}

/// What follows `CREATE` for a trigger; its body is kept as text.
pub open spec fn create_trigger_at(c: Source, st: At) -> Got<StmtV>
    decreases left(c, st), 0int,
{
    match keyword_at(c, st, Kw::Trigger, "TRIGGER"@) {
        Err(e) => Err(e),
        Ok((u, s1)) => {
            match onward(c, s1, if_not_exists_at(c, s1)) {
                Err(e) => Err(e),
                Ok((if_not_exists, s2)) => {
                    match name_at(c, s2, "un nombre de trigger"@) {
                        Err(e) => Err(e),
                        Ok((name, s3)) => {
                            match ahead(c, s3, timing_at(c, s3)) {
                                Err(e) => Err(e),
                                Ok((timing, s4)) => {
                                    match ahead(c, s4, event_at(c, s4)) {
                                        Err(e) => Err(e),
                                        Ok((event, s5)) => {
                                            match keyword_at(c, s5, Kw::On, "ON"@) {
                                                Err(e) => Err(e),
                                                Ok((w, s6)) => {
                                                    match name_at(c, s6, "una tabla"@) {
                                                        Err(e) => Err(e),
                                                        Ok((table, s7)) => {
                                                            match onward(c, s7, for_each_at(c, s7)) {
                                                                Err(e) => Err(e),
                                                                Ok((for_each, s8)) => {
                                                                    match keyword_at(c, s8, Kw::Begin, "BEGIN"@) {
                                                                        Err(e) => Err(e),
                                                                        Ok((x, s9)) => {
                                                                            match onward(c, s9, body_at(c, s9)) {
                                                                                Err(e) => Err(e),
                                                                                Ok((stmts, s10)) => {
                                                                                    let body_sql = text_between(c, s9.i, s10.i);
                                                                                    match keyword_at(c, s10, Kw::End, "END"@) {
                                                                                        Err(e) => Err(e),
                                                                                        Ok((y, s11)) => {
                                                                                            Ok((StmtV::CreateTrigger { if_not_exists, name, timing, event, for_each, table, body_sql }, s11))
                                                                                        },
                                                                                    }
                                                                                },
                                                                            }
                                                                        },
                                                                    }
                                                                },
                                                            }
                                                        },
                                                    }
                                                },
                                            }
                                        },
                                    }
                                },
                            }
                        },
                    }
                },
            }
        },
    }
}

/// Statements up to `END` or the end of the text.
pub open spec fn body_at(c: Source, st: At) -> Got<Seq<StmtV>>
    decreases left(c, st), 5int,
{
    if is_kw(c, st.i, Kw::End) || tok_at(c, st.i) is None {
        Ok((Seq::empty(), st))
    } else {
        match ahead(c, st, stmt_at(c, st)) {
            Err(e) => Err(e),
            Ok((s, s1)) => {
                let s2 = if is_tok(c, s1.i, TokV::Semi) { skip(s1, 1) } else { s1 };
                match body_at(c, s2) {
                    Err(e) => Err(e),
                    Ok((rest, s3)) => {
                        Ok((seq![s] + rest, s3))
                    },
                }
            },
        }
    }
}

/// What follows `CREATE`.
pub open spec fn create_at(c: Source, st: At) -> Got<StmtV>
    decreases left(c, st), 1int,
{
    if is_kw(c, st.i, Kw::Unique) || is_kw(c, st.i, Kw::Index) {
        create_index_at(c, st)
    } else if is_kw(c, st.i, Kw::View) {
        create_view_at(c, st)
    } else if is_kw(c, st.i, Kw::Trigger) {
        create_trigger_at(c, st)
    } else {
        create_table_at(c, st)
    }
}

/// What follows `DROP`.
#[verifier::opaque]
pub open spec fn drop_at(c: Source, st: At) -> Got<StmtV> {
    if is_kw(c, st.i, Kw::Index) {
        match if_exists_at(c, skip(st, 1)) {
            Err(e) => Err(e),
            Ok((if_exists, s1)) => {
                match name_at(c, s1, "un nombre de índice"@) {
                    Err(e) => Err(e),
                    Ok((name, s2)) => {
                        Ok((StmtV::DropIndex { if_exists, name }, s2))
                    },
                }
            },
        }
    } else if is_kw(c, st.i, Kw::View) {
        match if_exists_at(c, skip(st, 1)) {
            Err(e) => Err(e),
            Ok((if_exists, s1)) => {
                match name_at(c, s1, "un nombre de vista"@) {
                    Err(e) => Err(e),
                    Ok((name, s2)) => {
                        Ok((StmtV::DropView { if_exists, name }, s2))
                    },
                }
            },
        }
    } else if is_kw(c, st.i, Kw::Trigger) {
        match if_exists_at(c, skip(st, 1)) {
            Err(e) => Err(e),
            Ok((if_exists, s1)) => {
                match name_at(c, s1, "un nombre de trigger"@) {
                    Err(e) => Err(e),
                    Ok((name, s2)) => {
                        Ok((StmtV::DropTrigger { if_exists, name }, s2))
                    },
                }
            },
        }
    } else {
        match keyword_at(c, st, Kw::Table, "TABLE"@) {
            Err(e) => Err(e),
            Ok((u, s0)) => {
                match if_exists_at(c, s0) {
                    Err(e) => Err(e),
                    Ok((if_exists, s1)) => {
                        match name_at(c, s1, "un nombre de tabla"@) {
                            Err(e) => Err(e),
                            Ok((name, s2)) => {
                                Ok((StmtV::DropTable { if_exists, name }, s2))
                            },
                        }
                    },
                }
            },
        }
    }
}

/// What follows `ALTER TABLE name MOVE COLUMN name`.
#[verifier::opaque]
pub open spec fn column_pos_at(c: Source, st: At) -> Got<ColumnPosV> {
    if is_kw(c, st.i, Kw::First) {
        Ok((ColumnPosV::First, skip(st, 1)))
    } else if is_kw(c, st.i, Kw::Before) {
        match name_at(c, skip(st, 1), "un nombre de columna"@) {
            Err(e) => Err(e),
            Ok((name, s1)) => {
                Ok((ColumnPosV::Before(name), s1))
            },
        }
    } else if is_kw(c, st.i, Kw::After) {
        match name_at(c, skip(st, 1), "un nombre de columna"@) {
            Err(e) => Err(e),
            Ok((name, s1)) => {
                Ok((ColumnPosV::After(name), s1))
            },
        }
    } else {
        Err(expected(c, st.i, "FIRST, BEFORE o AFTER"@))
    }
}

/// The place after an optional `COLUMN`.
pub open spec fn past_column(c: Source, st: At) -> At {
    if is_kw(c, st.i, Kw::Column) {
        skip(st, 1)
    } else {
        st
    }
}

/// What follows `ALTER`.
#[verifier::opaque]
pub open spec fn alter_at(c: Source, st: At) -> Got<StmtV> {
    match keyword_at(c, st, Kw::Table, "TABLE"@) {
        Err(e) => Err(e),
        Ok((u, s0)) => {
            match name_at(c, s0, "un nombre de tabla"@) {
                Err(e) => Err(e),
                Ok((table, s1)) => {
                    let s2 = skip(s1, 1);
                    if is_kw(c, s1.i, Kw::Add) {
                        match column_at(c, past_column(c, s2)) {
                            Err(e) => Err(e),
                            Ok((column, s3)) => {
                                Ok((StmtV::AlterTableAddColumn { table, column }, s3))
                            },
                        }
                    } else if is_kw(c, s1.i, Kw::Move) {
                        match keyword_at(c, s2, Kw::Column, "COLUMN"@) {
                            Err(e) => Err(e),
                            Ok((w, s3)) => {
                                match name_at(c, s3, "un nombre de columna"@) {
                                    Err(e) => Err(e),
                                    Ok((column, s4)) => {
                                        match column_pos_at(c, s4) {
                                            Err(e) => Err(e),
                                            Ok((pos, s5)) => {
                                                Ok((StmtV::AlterTableMoveColumn { table, column, pos }, s5))
                                            },
                                        }
                                    },
                                }
                            },
                        }
                    } else if is_kw(c, s1.i, Kw::Reorder) {
                        match keyword_at(c, s2, Kw::Columns, "COLUMNS"@) {
                            Err(e) => Err(e),
                            Ok((w, s3)) => {
                                match expect_at(c, s3, TokV::LParen, "'('"@) {
                                    Err(e) => Err(e),
                                    Ok((x, s4)) => {
                                        match name_list_at(c, s4, "un nombre de columna"@) {
                                            Err(e) => Err(e),
                                            Ok((order, s5)) => {
                                                Ok((StmtV::AlterTableReorderColumns { table, order }, s5))
                                            },
                                        }
                                    },
                                }
                            },
                        }
                    } else if is_kw(c, s1.i, Kw::Rename) {
                        match name_at(c, past_column(c, s2), "un nombre de columna"@) {
                            Err(e) => Err(e),
                            Ok((from, s3)) => {
                                match keyword_at(c, s3, Kw::To, "TO"@) {
                                    Err(e) => Err(e),
                                    Ok((w, s4)) => {
                                        match name_at(c, s4, "un nombre de columna"@) {
                                            Err(e) => Err(e),
                                            Ok((to, s5)) => {
                                                Ok((StmtV::AlterTableRenameColumn { table, old: from, new: to }, s5))
                                            },
                                        }
                                    },
                                }
                            },
                        }
                    } else if is_kw(c, s1.i, Kw::Drop) {
                        match name_at(c, past_column(c, s2), "un nombre de columna"@) {
                            Err(e) => Err(e),
                            Ok((column, s3)) => {
                                Ok((StmtV::AlterTableDropColumn { table, column }, s3))
                            },
                        }
                    } else {
                        Err(expected(c, s1.i, "ADD, DROP, RENAME, MOVE o REORDER tras ALTER TABLE"@))
                    }
                },
            }
        },
    }
}

/// A row of values.
#[verifier::opaque]
pub open spec fn value_row_at(c: Source, st: At) -> Got<Seq<ExprV>> {
    match expect_at(c, st, TokV::LParen, "'('"@) {
        Err(e) => Err(e),
        Ok((u, s1)) => {
            match exprs_at(c, s1, 0) {
                Err(e) => Err(e),
                Ok((row, s2)) => {
                    close_at(c, s2, row)
                },
            }
        },
    }
}

/// Rows of values separated by commas.
#[verifier::opaque]
pub open spec fn value_rows_at(c: Source, st: At) -> Got<Seq<Seq<ExprV>>>
    decreases left(c, st),
{
    match ahead(c, st, value_row_at(c, st)) {
        Err(e) => Err(e),
        Ok((row, s1)) => {
            if is_tok(c, s1.i, TokV::Comma) {
                match value_rows_at(c, skip(s1, 1)) {
                    Err(e) => Err(e),
                    Ok((rest, s2)) => {
                        Ok((seq![row] + rest, s2))
                    },
                }
            } else {
                Ok((seq![row], s1))
            }
        },
    }
}

/// An assignment.
#[verifier::opaque]
pub open spec fn set_at(c: Source, st: At) -> Got<(Seq<char>, ExprV)> {
    match name_at(c, st, "un nombre de columna"@) {
        Err(e) => Err(e),
        Ok((col, s1)) => {
            match expect_at(c, s1, TokV::Eq, "'='"@) {
                Err(e) => Err(e),
                Ok((u, s2)) => {
                    match expr_at(c, s2, 0) {
                        Err(e) => Err(e),
                        Ok((x, s3)) => {
                            Ok(((col, x), s3))
                        },
                    }
                },
            }
        },
    }
}

/// Assignments separated by commas.
#[verifier::opaque]
pub open spec fn sets_at(c: Source, st: At) -> Got<Seq<(Seq<char>, ExprV)>>
    decreases left(c, st),
{
    match ahead(c, st, set_at(c, st)) {
        Err(e) => Err(e),
        Ok((one, s1)) => {
            if is_tok(c, s1.i, TokV::Comma) {
                match sets_at(c, skip(s1, 1)) {
                    Err(e) => Err(e),
                    Ok((rest, s2)) => {
                        Ok((seq![one] + rest, s2))
                    },
                }
            } else {
                Ok((seq![one], s1))
            }
        },
    }
}

/// The target columns of `ON CONFLICT`, which do not count, or nothing.
#[verifier::opaque]
pub open spec fn targets_at(c: Source, st: At) -> Got<()> {
    if is_tok(c, st.i, TokV::LParen) {
        match name_list_at(c, skip(st, 1), "una columna"@) {
            Err(e) => Err(e),
            Ok((names, s1)) => {
                Ok(((), s1))
            },
        }
    } else {
        Ok(((), st))
    }
}

#[verifier::opaque]
pub open spec fn on_conflict_at(c: Source, st: At) -> Got<Option<OnConflictV>> {
    if !(is_kw(c, st.i, Kw::On) && is_kw(c, st.i + 1, Kw::Conflict)) {
        Ok((None, st))
    } else {
        match targets_at(c, skip(st, 2)) {
            Err(e) => Err(e),
            Ok((u, s1)) => {
                match keyword_at(c, s1, Kw::Do, "DO"@) {
                    Err(e) => Err(e),
                    Ok((w, s2)) => {
                        if is_kw(c, s2.i, Kw::Nothing) {
                            Ok((Some(OnConflictV::Nothing), skip(s2, 1)))
                        } else {
                            match keyword_at(c, s2, Kw::Update, "UPDATE"@) {
                                Err(e) => Err(e),
                                Ok((x, s3)) => {
                                    match keyword_at(c, s3, Kw::SetTo, "SET"@) {
                                        Err(e) => Err(e),
                                        Ok((y, s4)) => {
                                            match sets_at(c, s4) {
                                                Err(e) => Err(e),
                                                Ok((sets, s5)) => {
                                                    match clause_at(c, s5, 0, Kw::Where) {
                                                        Err(e) => Err(e),
                                                        Ok((where_clause, s6)) => {
                                                            Ok((Some(OnConflictV::Update { sets, where_clause }), s6))
                                                        },
                                                    }
                                                },
                                            }
                                        },
                                    }
                                },
                            }
                        }
                    },
                }
            },
        }
    }
}

/// `RETURNING` and its items, or nothing.
#[verifier::opaque]
pub open spec fn returning_at(c: Source, st: At) -> Got<Option<Seq<SelectItemV>>> {
    if !is_kw(c, st.i, Kw::Returning) {
        Ok((None, st))
    } else {
        match items_at(c, skip(st, 1), 0) {
            Err(e) => Err(e),
            Ok((items, s1)) => {
                Ok((Some(items), s1))
            },
        }
    }
}

/// The columns of an INSERT, or nothing.
#[verifier::opaque]
pub open spec fn insert_columns_at(c: Source, st: At) -> Got<Option<Seq<Seq<char>>>> {
    if is_tok(c, st.i, TokV::LParen) {
        match name_list_at(c, skip(st, 1), "un nombre de columna"@) {
            Err(e) => Err(e),
            Ok((names, s1)) => {
                Ok((Some(names), s1))
            },
        }
    } else {
        Ok((None, st))
    }
}

/// What follows `INSERT`.
#[verifier::opaque]
pub open spec fn insert_at(c: Source, st: At) -> Got<StmtV> {
    match keyword_at(c, st, Kw::Into, "INTO"@) {
        Err(e) => Err(e),
        Ok((u, s1)) => {
            match name_at(c, s1, "un nombre de tabla"@) {
                Err(e) => Err(e),
                Ok((table, s2)) => {
                    match insert_columns_at(c, s2) {
                        Err(e) => Err(e),
                        Ok((columns, s3)) => {
                            match keyword_at(c, s3, Kw::Values, "VALUES"@) {
                                Err(e) => Err(e),
                                Ok((w, s4)) => {
                                    match value_rows_at(c, s4) {
                                        Err(e) => Err(e),
                                        Ok((rows, s5)) => {
                                            match on_conflict_at(c, s5) {
                                                Err(e) => Err(e),
                                                Ok((on_conflict, s6)) => {
                                                    match returning_at(c, s6) {
                                                        Err(e) => Err(e),
                                                        Ok((returning, s7)) => {
                                                            Ok((StmtV::Insert { table, columns, source: InsertSourceV::Values(rows), on_conflict, returning }, s7))
                                                        },
                                                    }
                                                },
                                            }
                                        },
                                    }
                                },
                            }
                        },
                    }
                },
            }
        },
    }
}

/// What follows `UPDATE`.
#[verifier::opaque]
pub open spec fn update_at(c: Source, st: At) -> Got<StmtV> {
    match name_at(c, st, "un nombre de tabla"@) {
        Err(e) => Err(e),
        Ok((table, s1)) => {
            match keyword_at(c, s1, Kw::SetTo, "SET"@) {
                Err(e) => Err(e),
                Ok((u, s2)) => {
                    match sets_at(c, s2) {
                        Err(e) => Err(e),
                        Ok((sets, s3)) => {
                            match clause_at(c, s3, 0, Kw::Where) {
                                Err(e) => Err(e),
                                Ok((where_clause, s4)) => {
                                    match returning_at(c, s4) {
                                        Err(e) => Err(e),
                                        Ok((returning, s5)) => {
                                            Ok((StmtV::Update { table, sets, where_clause, returning }, s5))
                                        },
                                    }
                                },
                            }
                        },
                    }
                },
            }
        },
    }
}

/// What follows `DELETE`.
#[verifier::opaque]
pub open spec fn delete_at(c: Source, st: At) -> Got<StmtV> {
    match keyword_at(c, st, Kw::From, "FROM"@) {
        Err(e) => Err(e),
        Ok((u, s1)) => {
            match name_at(c, s1, "un nombre de tabla"@) {
                Err(e) => Err(e),
                Ok((table, s2)) => {
                    match clause_at(c, s2, 0, Kw::Where) {
                        Err(e) => Err(e),
                        Ok((where_clause, s3)) => {
                            match returning_at(c, s3) {
                                Err(e) => Err(e),
                                Ok((returning, s4)) => {
                                    Ok((StmtV::Delete { table, where_clause, returning }, s4))
                                },
                            }
                        },
                    }
                },
            }
        },
    }
}

/// A statement.
pub open spec fn stmt_at(c: Source, st: At) -> Got<StmtV>
    decreases left(c, st), 4int,
{
    let s1 = skip(st, 1);
    match tok_at(c, st.i) {
        Some(TokV::Kw(Kw::With)) => with_at(c, st),
        Some(TokV::Kw(Kw::Create)) => create_at(c, s1),
        Some(TokV::Kw(Kw::Alter)) => alter_at(c, s1),
        Some(TokV::Kw(Kw::Drop)) => drop_at(c, s1),
        Some(TokV::Kw(Kw::Insert)) => insert_at(c, s1),
        Some(TokV::Kw(Kw::Select)) => {
            match select_at(c, st, 0) {
                Err(e) => Err(e),
                Ok((q, s2)) => {
                    Ok((StmtV::Select(q), s2))
                },
            }
        }
        Some(TokV::Kw(Kw::Update)) => update_at(c, s1),
        Some(TokV::Kw(Kw::Delete)) => delete_at(c, s1),
        Some(TokV::Kw(Kw::Begin)) => Ok((StmtV::Begin, s1)),
        Some(TokV::Kw(Kw::Commit)) => Ok((StmtV::Commit, s1)),
        Some(TokV::Kw(Kw::Rollback)) => Ok((StmtV::Rollback, s1)),
        _ => Err(expected(c, st.i, "CREATE, DROP, INSERT, SELECT, UPDATE, DELETE, BEGIN, COMMIT o ROLLBACK"@)),
    }
}

/// Statements separated by semicolons, up to the end.
#[verifier::opaque]
pub open spec fn stmts_at(c: Source, st: At) -> Got<Seq<StmtV>>
    decreases left(c, st),
{
    if tok_at(c, st.i) is None {
        Ok((Seq::empty(), st))
    } else {
        match ahead(c, st, stmt_at(c, st)) {
            Err(e) => Err(e),
            Ok((s, s1)) => {
                let s2 = if is_tok(c, s1.i, TokV::Semi) { skip(s1, 1) } else { s1 };
                match stmts_at(c, s2) {
                    Err(e) => Err(e),
                    Ok((rest, s3)) => {
                        Ok((seq![s] + rest, s3))
                    },
                }
            },
        }
    }
}

/// The source of a text with those tokens.
pub open spec fn source_of(toks: Seq<SpannedV>, src: Seq<char>) -> Source {
    Source { toks, src, end: text_width(src) as usize }
}

/// The start of the tokens.
pub open spec fn start() -> At {
    At { i: 0, names: Seq::empty(), numbered: false }
}

/// The statement of a text, with the names of its parameters.
pub open spec fn parsed_full(sql: Seq<char>, reals: RealTableV) -> Result<(StmtV, Seq<Seq<char>>), ErrorV> {
    match lexed(sql, reals) {
        Err(e) => Err(e),
        Ok(toks) => {
            let c = source_of(toks, sql);
            match stmt_at(c, start()) {
                Err(e) => Err(e),
                Ok((s, s1)) => {
                    let s2 = if is_tok(c, s1.i, TokV::Semi) { skip(s1, 1) } else { s1 };
                    if tok_at(c, s2.i) is Some {
                        Err(expected(c, s2.i, "el final de la sentencia"@))
                    } else {
                        Ok((s, s2.names))
                    }
                },
            }
        },
    }
}

/// The statement of a text.
pub open spec fn parsed(sql: Seq<char>, reals: RealTableV) -> Result<StmtV, ErrorV> {
    match parsed_full(sql, reals) {
        Err(e) => Err(e),
        Ok((s, names)) => {
            Ok(s)
        },
    }
}

/// The statements of a text.
pub open spec fn parsed_many(sql: Seq<char>, reals: RealTableV) -> Result<Seq<StmtV>, ErrorV> {
    match lexed(sql, reals) {
        Err(e) => Err(e),
        Ok(toks) => {
            match stmts_at(source_of(toks, sql), start()) {
                Err(e) => Err(e),
                Ok((ss, s1)) => {
                    Ok(ss)
                },
            }
        },
    }
}

} // verus!
