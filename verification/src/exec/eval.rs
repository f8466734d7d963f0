//! Evaluation of expressions.
use vstd::prelude::*;
use vstd::string::StringExecFns;

use crate::error::{gives, sql_err, sql_lit, Error, ErrorV};
#[allow(unused_imports)]
use crate::error::sql_error;
use crate::exec::functions::call_function;
#[allow(unused_imports)]
use crate::exec::functions::call;
use crate::exec::json_fns::json_arrow;
#[allow(unused_imports)]
use crate::exec::json_fns::arrow_value;
use crate::exec::ops::{arith, cast_value, neg, order_values, truthy, truthy3, Env, EnvV};
#[allow(unused_imports)]
use crate::exec::ops::{arith_value, branch, cast, is_arithmetic, negated_value, settled, truth, truth3, value_order};
use crate::exec::pattern::like_match;
#[allow(unused_imports)]
use crate::exec::pattern::like;
use crate::exec::schema::{find_fts, QuerySchema, RowV, SchemaV};
#[allow(unused_imports)]
use crate::exec::schema::{fts_on, lemma_laid_out, located, opt_text, rank_named, resolved, row_fits, row_v, row_width};
use crate::fts::excerpt::{highlight, snippet};
#[allow(unused_imports)]
use crate::fts::excerpt::{highlighted, snipped};
use crate::fts::query::parse_query;
use crate::fts::ranking::term_counts;
#[allow(unused_imports)]
use crate::fts::ranking::counted;
#[allow(unused_imports)]
use crate::fts::query::parsed_query;
#[allow(unused_imports)]
use crate::fts::registry::registered;
use crate::fts::registry::tokenizer_for;
use crate::reals::{copy_numbers, Order, RealOp, RealOpV};
#[allow(unused_imports)]
use crate::reals::{known_distance, known_match};
use crate::record::{Value, ValueV};
#[allow(unused_imports)]
use crate::record::{kind_name_of, row_view};
use crate::sql::ast::{BinOp, Expr, ExprV, UnOp};
#[allow(unused_imports)]
use crate::sql::ast::{expr_expr_pairs_v, expr_v, exprs_v};
use crate::text::{cat, cat3, cat4, chars_of, i64_text, str_eq, u64_text};
#[allow(unused_imports)]
use crate::text::{int_text, nat_text};

verus! {

// --- operators ---

/// Conjunction of three truth values; the right operand counts only where the left
/// one is not false.
pub open spec fn and_value(l: ValueV, r: Result<ValueV, ErrorV>) -> Result<ValueV, ErrorV> {
    match truth3(l) {
        Err(e) => Err(e),
        Ok(Some(false)) => Ok(ValueV::Bool(false)),
        Ok(l3) => match r {
            Err(e) => Err(e),
            Ok(rv) => match truth3(rv) {
                Err(e) => Err(e),
                Ok(Some(false)) => Ok(ValueV::Bool(false)),
                Ok(r3) => if l3 == Some(true) && r3 == Some(true) {
                    Ok(ValueV::Bool(true))
                } else {
                    Ok(ValueV::Null)
                },
            },
        },
    }
}

/// Disjunction of three truth values; the right operand counts only where the left
/// one is not true.
pub open spec fn or_value(l: ValueV, r: Result<ValueV, ErrorV>) -> Result<ValueV, ErrorV> {
    match truth3(l) {
        Err(e) => Err(e),
        Ok(Some(true)) => Ok(ValueV::Bool(true)),
        Ok(l3) => match r {
            Err(e) => Err(e),
            Ok(rv) => match truth3(rv) {
                Err(e) => Err(e),
                Ok(Some(true)) => Ok(ValueV::Bool(true)),
                Ok(r3) => if l3 == Some(false) && r3 == Some(false) {
                    Ok(ValueV::Bool(false))
                } else {
                    Ok(ValueV::Null)
                },
            },
        },
    }
}

pub open spec fn is_comparison(op: BinOp) -> bool {
    op == BinOp::Eq || op == BinOp::Ne || op == BinOp::Lt || op == BinOp::Le || op == BinOp::Gt || op
        == BinOp::Ge
}

/// Whether an order satisfies a comparison operator.
pub open spec fn holds(op: BinOp, o: Order) -> bool {
    match op {
        BinOp::Eq => o == Order::Equal,
        BinOp::Ne => o != Order::Equal,
        BinOp::Lt => o == Order::Less,
        BinOp::Le => o != Order::Greater,
        BinOp::Gt => o == Order::Greater,
        _ => o != Order::Less,
    }
}

/// A binary operator other than `AND` and `OR`.
#[verifier::opaque]
pub open spec fn binary_value(env: EnvV, op: BinOp, l: ValueV, r: ValueV) -> Result<ValueV, ErrorV> {
    if is_comparison(op) {
        match value_order(env, l, r) {
            Err(e) => Err(e),
            Ok(None) => Ok(ValueV::Null),
            Ok(Some(o)) => Ok(ValueV::Bool(holds(op, o))),
        }
    } else if is_arithmetic(op) {
        arith_value(env, op, l, r)
    } else if op == BinOp::Concat {
        match (l, r) {
            (ValueV::Null, _) => Ok(ValueV::Null),
            (_, ValueV::Null) => Ok(ValueV::Null),
            (ValueV::Text(a), ValueV::Text(b)) => Ok(ValueV::Text(a + b)),
            _ => Err(
                sql_error(
                    "|| requiere TEXT, no "@ + kind_name_of(l) + " y "@ + kind_name_of(r)
                        + " (usa CAST)"@,
                ),
            ),
        }
    } else {
        arrow_value(env, op, l, r)
    }
}

pub open spec fn like_value(s: ValueV, p: ValueV, negated: bool) -> Result<ValueV, ErrorV> {
    match (s, p) {
        (ValueV::Null, _) => Ok(ValueV::Null),
        (_, ValueV::Null) => Ok(ValueV::Null),
        (ValueV::Text(s), ValueV::Text(p)) => Ok(ValueV::Bool(like(p, s) != negated)),
        _ => Err(
            sql_error("LIKE requiere TEXT, no "@ + kind_name_of(s) + " y "@ + kind_name_of(p)),
        ),
    }
}

pub open spec fn not_value(v: ValueV) -> Result<ValueV, ErrorV> {
    match v {
        ValueV::Null => Ok(ValueV::Null),
        ValueV::Bool(b) => Ok(ValueV::Bool(!b)),
        _ => Err(sql_error("NOT requiere BOOLEAN, no "@ + kind_name_of(v))),
    }
}

// --- full-text columns ---

/// The full-text index on a column of the row: the table, the column in it and the
/// index.
pub open spec fn indexed_column(s: SchemaV, table: Option<Seq<char>>, name: Seq<char>) -> Result<
    (int, int, int),
    ErrorV,
> {
    match located(s, table, name) {
        Err(e) => Err(e),
        Ok((t, c)) => match fts_on(s.tables[t].def.fts_indexes, c, 0) {
            Some(f) => Ok((t, c, f)),
            None => Err(sql_error("la columna «"@ + name + "» no tiene un índice FULLTEXT"@)),
        },
    }
}

/// The part of the combined row that belongs to a table.
pub open spec fn local_row(s: SchemaV, t: int, row: Seq<ValueV>) -> Seq<ValueV> {
    let lo = s.tables[t].offset as int;
    row.subrange(lo, lo + s.tables[t].def.columns.len())
}

/// `column MATCH query` on a row, the query being evaluated already.
#[verifier::opaque]
pub open spec fn match_value(
    env: EnvV,
    column: ExprV,
    query: Result<ValueV, ErrorV>,
    negated: bool,
    row: RowV,
) -> Result<ValueV, ErrorV> {
    match column {
        ExprV::Column { table, name } => match row {
            None => Err(sql_error("MATCH no puede evaluarse fuera de una fila"@)),
            Some((s, values)) => match indexed_column(s, table, name) {
                Err(e) => Err(e),
                Ok((t, _, f)) => match query {
                    Err(e) => Err(e),
                    Ok(ValueV::Null) => Ok(ValueV::Null),
                    Ok(ValueV::Text(q)) => match parsed_query(q) {
                        Err(e) => Err(e),
                        Ok(_) => match settled(
                            known_match(
                                env.reals,
                                RealOpV::Matches(
                                    s.tables[t].def.fts_indexes[f].fts_id,
                                    local_row(s, t, values),
                                    q,
                                ),
                            ),
                        ) {
                            Err(e) => Err(e),
                            Ok(Err(msg)) => Err(sql_error(msg)),
                            Ok(Ok(hit)) => Ok(ValueV::Bool(hit != negated)),
                        },
                    },
                    Ok(_) => Err(sql_error("la consulta MATCH debe ser texto"@)),
                },
            },
        },
        _ => Err(sql_error("MATCH requiere una columna indexada a la izquierda"@)),
    }
}

/// `bm25(column, query)` on a row.
#[verifier::opaque]
pub open spec fn bm25_value(
    env: EnvV,
    args: Seq<ExprV>,
    query: Result<ValueV, ErrorV>,
    row: RowV,
) -> Result<ValueV, ErrorV> {
    match row {
        None => Err(sql_error("bm25() necesita una fila"@)),
        Some((s, values)) => if args.len() != 2 {
            Err(sql_error("bm25(columna, consulta) requiere 2 argumentos"@))
        } else {
            match args[0] {
                ExprV::Column { table, name } => match query {
                    Err(e) => Err(e),
                    Ok(ValueV::Null) => Ok(ValueV::Null),
                    Ok(ValueV::Text(q)) => match indexed_column(s, table, name) {
                        Err(e) => Err(e),
                        Ok((t, _, f)) => {
                            let fts = s.tables[t].def.fts_indexes[f];
                            match rank_named(s.ranks, fts.fts_id, q, 0) {
                                None => Err(
                                    sql_error(
                                        "bm25() solo se admite en un SELECT directo (sin join/subconsulta)"@,
                                    ),
                                ),
                                Some(i) => match counted(fts, local_row(s, t, values), s.ranks[i].stats.terms) {
                                    Err(e) => Err(e),
                                    Ok((counts, len)) => match settled(
                                        known_distance(
                                            env.reals,
                                            RealOpV::Rank(
                                                counts,
                                                len,
                                                s.ranks[i].stats.frequencies,
                                                s.ranks[i].stats.documents,
                                                s.ranks[i].stats.tokens,
                                            ),
                                        ),
                                    ) {
                                        Err(e) => Err(e),
                                        Ok(Err(msg)) => Err(sql_error(msg)),
                                        Ok(Ok(b)) => Ok(ValueV::Real(b)),
                                    },
                                }
                            }
                        },
                    },
                    Ok(_) => Err(sql_error("bm25(): la consulta debe ser texto"@)),
                },
                _ => Err(
                    sql_error("bm25(): el primer argumento debe ser una columna indexada"@),
                ),
            }
        },
    }
}

/// A text argument of `snippet` or `highlight`; `v` is `None` where it is not given.
pub open spec fn text_option(
    name: Seq<char>,
    i: int,
    v: Option<Result<ValueV, ErrorV>>,
    default: Seq<char>,
) -> Result<Seq<char>, ErrorV> {
    match v {
        None => Ok(default),
        Some(Err(e)) => Err(e),
        Some(Ok(ValueV::Text(s))) => Ok(s),
        Some(Ok(_)) => Err(
            sql_error(name + "(): el argumento "@ + int_text(i) + " debe ser texto"@),
        ),
    }
}

/// The number of tokens that `snippet` may show.
pub open spec fn max_option(v: Option<Result<ValueV, ErrorV>>) -> Result<usize, ErrorV> {
    match v {
        None => Ok(15),
        Some(Err(e)) => Err(e),
        Some(Ok(ValueV::Integer(n))) if n > 0 => Ok(n as usize),
        Some(Ok(_)) => Err(sql_error("snippet(): max_tokens debe ser un entero positivo"@)),
    }
}

/// `snippet(column, query, ...)` and `highlight(column, query, ...)` on a row. `vals`
/// are the values of the arguments.
#[verifier::opaque]
pub open spec fn excerpt_value(
    name: Seq<char>,
    args: Seq<ExprV>,
    vals: Seq<Result<ValueV, ErrorV>>,
    row: RowV,
) -> Result<ValueV, ErrorV> {
    let given = |i: int|
        if i < args.len() {
            Some(vals[i])
        } else {
            None
        };
    match row {
        None => Err(sql_error(name + "() necesita una fila"@)),
        Some((s, values)) => if args.len() < 2 {
            Err(
                sql_error(name + "(columna, consulta, …) requiere al menos 2 argumentos"@),
            )
        } else {
            match args[0] {
                ExprV::Column { table, name: col } => match indexed_column(s, table, col) {
                    Err(e) => Err(e),
                    Ok((t, c, f)) => match registered(s.tables[t].def.fts_indexes[f].tokenizer) {
                        Err(e) => Err(e),
                        Ok(tk) => match values[s.tables[t].offset + c] {
                            ValueV::Null => Ok(ValueV::Null),
                            ValueV::Text(text) => match vals[1] {
                                Err(e) => Err(e),
                                Ok(ValueV::Null) => Ok(ValueV::Null),
                                Ok(ValueV::Text(q)) => match parsed_query(q) {
                                    Err(e) => Err(e),
                                    Ok(q) => match text_option(name, 2, given(2), "["@) {
                                        Err(e) => Err(e),
                                        Ok(open_) => match text_option(name, 3, given(3), "]"@) {
                                            Err(e) => Err(e),
                                            Ok(close) => if name == "highlight"@ {
                                                Ok(
                                                    ValueV::Text(
                                                        highlighted(text, q, &tk, open_, close),
                                                    ),
                                                )
                                            } else {
                                                match text_option(name, 4, given(4), "…"@) {
                                                    Err(e) => Err(e),
                                                    Ok(dots) => match max_option(given(5)) {
                                                        Err(e) => Err(e),
                                                        Ok(max) => Ok(
                                                            ValueV::Text(
                                                                snipped(
                                                                    text,
                                                                    q,
                                                                    &tk,
                                                                    open_,
                                                                    close,
                                                                    dots,
                                                                    max as int,
                                                                ),
                                                            ),
                                                        ),
                                                    },
                                                }
                                            },
                                        },
                                    },
                                },
                                Ok(_) => Err(
                                    sql_error(name + "(): la consulta debe ser texto"@),
                                ),
                            },
                            _ => Err(sql_error(name + "() solo aplica a columnas TEXT"@)),
                        },
                    },
                },
                _ => Err(
                    sql_error(name + "(): el primer argumento debe ser una columna indexada"@),
                ),
            }
        },
    }
}

// --- expressions ---

/// The value of an expression on a row, with the values of its parameters.
pub open spec fn value_of(env: EnvV, e: ExprV, row: RowV, params: Seq<ValueV>) -> Result<
    ValueV,
    ErrorV,
>
    decreases e,
{
    match e {
        ExprV::Literal(v) => Ok(v),
        ExprV::Param(n) => if 1 <= n <= params.len() {
            Ok(params[n - 1])
        } else {
            Err(sql_error("falta el parámetro ?"@ + nat_text(n as nat)))
        },
        ExprV::Column { table, name } => match row {
            None => Err(sql_error("aquí no se permiten columnas: "@ + name)),
            Some((s, values)) => match resolved(s, table, name) {
                Ok(i) => Ok(values[i]),
                Err(e) => Err(e),
            },
        },
        ExprV::Aggregate { func: _, arg: _, distinct: _, sep: _ } => Err(
            sql_error("los agregados solo se permiten en la lista del SELECT"@),
        ),
        ExprV::Window { func: _, args: _, partition_by: _, order_by: _, frame: _ } => Err(
            sql_error(
                "las funciones de ventana (OVER) solo se permiten en la lista del SELECT"@,
            ),
        ),
        ExprV::Unary(op, x) => match value_of(env, *x, row, params) {
            Err(e) => Err(e),
            Ok(v) => match op {
                UnOp::Neg => negated_value(v),
                UnOp::Not => not_value(v),
            },
        },
        ExprV::IsNull { expr, negated } => match value_of(env, *expr, row, params) {
            Err(e) => Err(e),
            Ok(v) => Ok(ValueV::Bool((v is Null) != negated)),
        },
        ExprV::Match { column, query, negated } => match_value(
            env,
            *column,
            value_of(env, *query, row, params),
            negated,
            row,
        ),
        ExprV::Like { expr, pattern, negated } => match value_of(branch(env, 0), *expr, row, params) {
            Err(e) => Err(e),
            Ok(s) => match value_of(branch(env, 1), *pattern, row, params) {
                Err(e) => Err(e),
                Ok(p) => like_value(s, p, negated),
            },
        },
        ExprV::Binary(a, op, b) => match value_of(branch(env, 0), *a, row, params) {
            Err(e) => Err(e),
            Ok(l) => {
                let r = value_of(branch(env, 1), *b, row, params);
                match op {
                    BinOp::And => and_value(l, r),
                    BinOp::Or => or_value(l, r),
                    _ => match r {
                        Err(e) => Err(e),
                        Ok(rv) => binary_value(env, op, l, rv),
                    },
                }
            },
        },
        ExprV::Function { name, args } => if name == "snippet"@ || name == "highlight"@ {
            excerpt_value(name, args, each_value(env, args, row, params), row)
        } else if name == "bm25"@ {
            bm25_value(
                env,
                args,
                if args.len() == 2 {
                    value_of(env, args[1], row, params)
                } else {
                    arbitrary()
                },
                row,
            )
        } else {
            match values_of(env, args, row, params) {
                Err(e) => Err(e),
                Ok(vs) => call(env, name, vs),
            }
        },
        ExprV::In { expr, list, negated } => match value_of(branch(env, 0), *expr, row, params) {
            Err(e) => Err(e),
            Ok(v) => if v is Null {
                Ok(ValueV::Null)
            } else {
                in_value(branch(env, 1), v, list, false, negated, row, params)
            },
        },
        ExprV::Cast { expr, to } => match value_of(env, *expr, row, params) {
            Err(e) => Err(e),
            Ok(v) => cast(env, v, to),
        },
        ExprV::Case { operand, whens, else_ } => {
            let subject = match operand {
                Some(o) => match value_of(branch(env, 0), *o, row, params) {
                    Err(e) => Err(e),
                    Ok(v) => Ok(Some(v)),
                },
                None => Ok(None),
            };
            match subject {
                Err(e) => Err(e),
                Ok(sv) => match case_value(branch(env, 1), sv, whens, row, params) {
                    Err(e) => Err(e),
                    Ok(Some(v)) => Ok(v),
                    Ok(None) => match else_ {
                        Some(x) => value_of(branch(env, 2), *x, row, params),
                        None => Ok(ValueV::Null),
                    },
                },
            }
        },
        _ => Err(
            sql_error("subconsulta sin resolver (las correlacionadas no se soportan en v1)"@),
        ),
    }
}

/// What each expression comes to.
pub open spec fn each_value(env: EnvV, s: Seq<ExprV>, row: RowV, params: Seq<ValueV>) -> Seq<
    Result<ValueV, ErrorV>,
>
    decreases s,
{
    if s.len() == 0 {
        Seq::empty()
    } else {
        seq![value_of(branch(env, s.len() as int), s[0], row, params)] + each_value(env, s.drop_first(), row, params)
    }
}

proof fn lemma_each_value(env: EnvV, s: Seq<ExprV>, row: RowV, params: Seq<ValueV>)
    ensures
        each_value(env, s, row, params).len() == s.len(),
        forall|i: int|
            0 <= i < s.len() ==> #[trigger] each_value(env, s, row, params)[i] == value_of(
                branch(env, s.len() - i),
                s[i],
                row,
                params,
            ),
    decreases s.len(),
{
    if s.len() > 0 {
        lemma_each_value(env, s.drop_first(), row, params);
        let rest = each_value(env, s.drop_first(), row, params);
        let all = each_value(env, s, row, params);
        assert forall|i: int| 0 <= i < s.len() implies #[trigger] all[i] == value_of(
            branch(env, s.len() - i),
            s[i],
            row,
            params,
        ) by {
            if i > 0 {
                assert(all[i] == rest[i - 1]);
                assert(s.drop_first()[i - 1] == s[i]);
            }
        }
    }
}

/// The values of expressions, up to the first error.
pub open spec fn values_of(env: EnvV, s: Seq<ExprV>, row: RowV, params: Seq<ValueV>) -> Result<
    Seq<ValueV>,
    ErrorV,
>
    decreases s,
{
    if s.len() == 0 {
        Ok(Seq::empty())
    } else {
        match value_of(branch(env, s.len() as int), s[0], row, params) {
            Err(e) => Err(e),
            Ok(v) => match values_of(env, s.drop_first(), row, params) {
                Err(e) => Err(e),
                Ok(rest) => Ok(seq![v] + rest),
            },
        }
    }
}

/// Whether `v` is in a list. Where it is not found, a NULL among the items leaves it
/// unknown.
pub open spec fn in_value(
    env: EnvV,
    v: ValueV,
    list: Seq<ExprV>,
    saw_null: bool,
    negated: bool,
    row: RowV,
    params: Seq<ValueV>,
) -> Result<ValueV, ErrorV>
    decreases list,
{
    if list.len() == 0 {
        if saw_null {
            Ok(ValueV::Null)
        } else {
            Ok(ValueV::Bool(negated))
        }
    } else {
        match value_of(branch(env, list.len() as int), list[0], row, params) {
            Err(e) => Err(e),
            Ok(item) => match value_order(env, v, item) {
                Err(e) => Err(e),
                Ok(Some(Order::Equal)) => Ok(ValueV::Bool(!negated)),
                Ok(o) => in_value(
                    env,
                    v,
                    list.drop_first(),
                    saw_null || o is None,
                    negated,
                    row,
                    params,
                ),
            },
        }
    }
}

/// The result of the first branch that applies: the first whose condition equals the
/// subject or, without a subject, is true.
pub open spec fn case_value(
    env: EnvV,
    subject: Option<ValueV>,
    whens: Seq<(ExprV, ExprV)>,
    row: RowV,
    params: Seq<ValueV>,
) -> Result<Option<ValueV>, ErrorV>
    decreases whens,
{
    if whens.len() == 0 {
        Ok(None)
    } else {
        match value_of(branch(branch(env, whens.len() as int), 0), whens[0].0, row, params) {
            Err(e) => Err(e),
            Ok(c) => {
                let hit = match subject {
                    Some(s) => match value_order(env, s, c) {
                        Err(e) => Err(e),
                        Ok(o) => Ok(o == Some(Order::Equal)),
                    },
                    None => truth(c),
                };
                match hit {
                    Err(e) => Err(e),
                    Ok(true) => match value_of(branch(branch(env, whens.len() as int), 1), whens[0].1, row, params) {
                        Err(e) => Err(e),
                        Ok(v) => Ok(Some(v)),
                    },
                    Ok(false) => case_value(env, subject, whens.drop_first(), row, params),
                }
            },
        }
    }
}

// --- evaluation ---

fn compare(env: &Env, op: BinOp, l: &Value, r: &Value) -> (v: Result<Value, Error>)
    requires
        is_comparison(op),
    ensures
        gives(v, binary_value(env@, op, l@, r@)),
{
    proof {
        reveal(binary_value);
    }
    match order_values(env, l, r) {
        Err(e) => Err(e),
        Ok(None) => Ok(Value::Null),
        Ok(Some(o)) => Ok(
            Value::Bool(
                match op {
                    BinOp::Eq => o == Order::Equal,
                    BinOp::Ne => o != Order::Equal,
                    BinOp::Lt => o == Order::Less,
                    BinOp::Le => o != Order::Greater,
                    BinOp::Gt => o == Order::Greater,
                    _ => o != Order::Less,
                },
            ),
        ),
    }
}

fn apply_binary(env: &Env, op: BinOp, l: &Value, r: &Value) -> (v: Result<Value, Error>)
    requires
        op != BinOp::And,
        op != BinOp::Or,
    ensures
        gives(v, binary_value(env@, op, l@, r@)),
{
    proof {
        reveal(binary_value);
    }
    match op {
        BinOp::Eq | BinOp::Ne | BinOp::Lt | BinOp::Le | BinOp::Gt | BinOp::Ge => compare(
            env,
            op,
            l,
            r,
        ),
        BinOp::Add | BinOp::Sub | BinOp::Mul | BinOp::Div | BinOp::Mod => arith(env, op, l, r),
        BinOp::Concat => match (l, r) {
            (Value::Null, _) => Ok(Value::Null),
            (_, Value::Null) => Ok(Value::Null),
            (Value::Text(a), Value::Text(b)) => Ok(Value::Text(cat(a.as_str(), b.as_str()))),
            _ => Err(
                sql_err(
                    cat(
                        cat4("|| requiere TEXT, no ", l.kind_name(), " y ", r.kind_name()).as_str(),
                        " (usa CAST)",
                    ),
                ),
            ),
        },
        _ => json_arrow(env, op, l, r),
    }
}

/// The full-text index on a column of the row.
fn find_indexed(s: &QuerySchema, table: &Option<String>, name: &str) -> (r: Result<
    (usize, usize, usize),
    Error,
>)
    ensures
        (match indexed_column(s@, opt_text(*table), name@) {
            Ok((t, c, f)) => r is Ok && (r->Ok_0).0 == t && (r->Ok_0).1 == c && (r->Ok_0).2 == f && 0
                <= t < s.tables@.len() && 0 <= c < s.tables@[t].def.columns@.len() && 0 <= f
                < s.tables@[t].def.fts_indexes@.len(),
            Err(e) => r is Err && r->Err_0@ == e,
        }),
{
    match s.locate(table, name) {
        Err(e) => Err(e),
        Ok((t, c)) => {
            assert(s@.tables[t as int] == s.tables@[t as int]@);
            match find_fts(&s.tables[t].def.fts_indexes, c) {
                Some(f) => Ok((t, c, f)),
                None => Err(sql_err(cat3("la columna «", name, "» no tiene un índice FULLTEXT"))),
            }
        },
    }
}

fn copy_local(s: &QuerySchema, t: usize, row: &Vec<Value>) -> (r: Vec<Value>)
    requires
        s.wf(),
        t < s.tables@.len(),
        row@.len() == row_width(s@.tables),
    ensures
        row_view(r@) == local_row(s@, t as int, row_view(row@)),
{
    proof {
        lemma_laid_out(s@.tables, t as int);
        assert(s@.tables[t as int] == s.tables@[t as int]@);
    }
    let lo: usize = s.tables[t].offset;
    let n: usize = s.tables[t].def.columns.len();
    let total: usize = row.len();
    let mut out: Vec<Value> = Vec::new();
    for i in 0..n
        invariant
            lo + n <= row@.len() <= usize::MAX,
            out@.len() == i,
            forall|k: int| 0 <= k < i ==> (#[trigger] out@[k])@ == row_view(row@)[lo + k],
    {
        out.push(row[lo + i].clone());
    }
    assert(row_view(out@) =~= local_row(s@, t as int, row_view(row@)));
    out
}

fn eval_match(
    env: &Env,
    column: &Expr,
    query: Result<Value, Error>,
    negated: bool,
    row: Option<(&QuerySchema, &Vec<Value>)>,
) -> (r: Result<Value, Error>)
    requires
        row_fits(row),
    ensures
        gives(
            r,
            match_value(
                env@,
                column@,
                match query {
                    Ok(v) => Ok(v@),
                    Err(e) => Err(e@),
                },
                negated,
                row_v(row),
            ),
        ),
{
    proof {
        reveal(match_value);
    }
    match column {
        Expr::Column { table, name } => match row {
            None => Err(sql_lit("MATCH no puede evaluarse fuera de una fila")),
            Some((s, values)) => match find_indexed(s, table, name.as_str()) {
                Err(e) => Err(e),
                Ok((t, _, f)) => {
                    assert(s@.tables[t as int] == s.tables@[t as int]@);
                    match query {
                        Err(e) => Err(e),
                        Ok(Value::Null) => Ok(Value::Null),
                        Ok(Value::Text(q)) => match parse_query(q.as_str()) {
                            Err(e) => Err(e),
                            Ok(_) => {
                                let local = copy_local(s, t, values);
                                match env.reals.matched(
                                    RealOp::Matches(
                                        s.tables[t].def.fts_indexes[f].fts_id,
                                        local,
                                        q,
                                    ),
                                ) {
                                    Err(op) => Err(Error::NeedsReal(op)),
                                    Ok(Err(msg)) => Err(sql_err(msg)),
                                    Ok(Ok(hit)) => Ok(Value::Bool(hit != negated)),
                                }
                            },
                        },
                        Ok(_) => Err(sql_lit("la consulta MATCH debe ser texto")),
                    }
                },
            },
        },
        _ => Err(sql_lit("MATCH requiere una columna indexada a la izquierda")),
    }
}

fn eval_bm25(
    env: &Env,
    args: &Vec<Expr>,
    query: Result<Value, Error>,
    s: &QuerySchema,
    values: &Vec<Value>,
) -> (r: Result<Value, Error>)
    requires
        args@.len() == 2,
        row_fits(Some((s, values))),
    ensures
        gives(
            r,
            bm25_value(
                env@,
                exprs_v(args@),
                match query {
                    Ok(v) => Ok(v@),
                    Err(e) => Err(e@),
                },
                row_v(Some((s, values))),
            ),
        ),
{
    proof {
        reveal(bm25_value);
    }
    assert(exprs_v(args@)[0] == args@[0]@);
    match &args[0] {
        Expr::Column { table, name } => match query {
            Err(e) => Err(e),
            Ok(Value::Null) => Ok(Value::Null),
            Ok(Value::Text(q)) => match find_indexed(s, table, name.as_str()) {
                Err(e) => Err(e),
                Ok((t, _, f)) => {
                    assert(s@.tables[t as int] == s.tables@[t as int]@);
                    let fts = &s.tables[t].def.fts_indexes[f];
                    let stats = match s.rank_of(fts.fts_id, q.as_str()) {
                        Some(x) => x,
                        None => {
                            return Err(
                                sql_lit(
                                    "bm25() solo se admite en un SELECT directo (sin join/subconsulta)",
                                ),
                            );
                        },
                    };
                    let local = copy_local(s, t, values);
                    match term_counts(fts, &local, &stats.terms) {
                        Err(e) => Err(e),
                        Ok((counts, len)) => {
                            let df = copy_numbers(&stats.frequencies);
                            let op = RealOp::Rank(counts, len, df, stats.documents, stats.tokens);
                            match env.reals.distance(op) {
                                Err(op) => Err(Error::NeedsReal(op)),
                                Ok(Err(msg)) => Err(sql_err(msg)),
                                Ok(Ok(b)) => Ok(Value::Real(b)),
                            }
                        },
                    }
                },
            },
            Ok(_) => Err(sql_lit("bm25(): la consulta debe ser texto")),
        },
        _ => Err(sql_lit("bm25(): el primer argumento debe ser una columna indexada")),
    }
}

fn text_arg(name: &str, i: i64, v: Option<Result<Value, Error>>, default: &str) -> (r: Result<
    String,
    Error,
>)
    ensures
        gives(
            r,
            text_option(
                name@,
                i as int,
                match v {
                    None => None,
                    Some(Ok(x)) => Some(Ok(x@)),
                    Some(Err(e)) => Some(Err(e@)),
                },
                default@,
            ),
        ),
{
    match v {
        None => Ok(default.to_owned()),
        Some(Err(e)) => Err(e),
        Some(Ok(Value::Text(s))) => Ok(s),
        Some(Ok(_)) => Err(
            sql_err(cat4(name, "(): el argumento ", i64_text(i).as_str(), " debe ser texto")),
        ),
    }
}

pub fn eval_const(env: &Env, e: &Expr, params: &Vec<Value>) -> (r: Result<Value, Error>)
    ensures
        gives(r, value_of(env@, e@, None, row_view(params@))),
{
    eval(env, e, None, params)
}

/// The value of an argument, where it is given.
fn eval_arg(
    env: &Env,
    args: &Vec<Expr>,
    i: usize,
    row: Option<(&QuerySchema, &Vec<Value>)>,
    params: &Vec<Value>,
) -> (r: Option<Result<Value, Error>>)
    requires
        row_fits(row),
    ensures
        i >= args@.len() ==> r is None,
        i < args@.len() ==> r is Some && gives(
            r->0,
            value_of(branch(env@, args@.len() - i), exprs_v(args@)[i as int], row_v(row), row_view(params@)),
        ),
    decreases args, 0nat,
{
    if i < args.len() {
        assert(exprs_v(args@)[i as int] == args@[i as int]@);
        Some(eval(&env.branch(args.len() - i), &args[i], row, params))
    } else {
        None
    }
}

fn eval_excerpt(
    env: &Env,
    name: &str,
    args: &Vec<Expr>,
    row: Option<(&QuerySchema, &Vec<Value>)>,
    params: &Vec<Value>,
) -> (r: Result<Value, Error>)
    requires
        row_fits(row),
    ensures
        gives(
            r,
            excerpt_value(
                name@,
                exprs_v(args@),
                each_value(env@, exprs_v(args@), row_v(row), row_view(params@)),
                row_v(row),
            ),
        ),
    decreases args, 1nat,
{
    proof {
        reveal(excerpt_value);
        assert(exprs_v(args@).len() == args@.len());
        lemma_each_value(env@, exprs_v(args@), row_v(row), row_view(params@));
    }
    let (s, values) = match row {
        None => {
            return Err(sql_err(cat(name, "() necesita una fila")));
        },
        Some(x) => x,
    };
    if args.len() < 2 {
        return Err(
            sql_err(cat(name, "(columna, consulta, …) requiere al menos 2 argumentos")),
        );
    }
    assert(exprs_v(args@)[0] == args@[0]@);
    let (t, c, f): (usize, usize, usize) = match &args[0] {
        Expr::Column { table, name: col } => match find_indexed(s, table, col.as_str()) {
            Err(e) => {
                return Err(e);
            },
            Ok(x) => x,
        },
        _ => {
            return Err(
                sql_err(
                    cat(name, "(): el primer argumento debe ser una columna indexada"),
                ),
            );
        },
    };
    assert(s@.tables[t as int] == s.tables@[t as int]@);
    proof {
        lemma_laid_out(s@.tables, t as int);
    }
    let tk = match tokenizer_for(s.tables[t].def.fts_indexes[f].tokenizer.as_str()) {
        Err(e) => {
            return Err(e);
        },
        Ok(tk) => tk,
    };
    let text = match &values[s.tables[t].offset + c] {
        Value::Text(x) => x,
        Value::Null => {
            return Ok(Value::Null);
        },
        _ => {
            return Err(sql_err(cat(name, "() solo aplica a columnas TEXT")));
        },
    };
    assert(exprs_v(args@)[1] == args@[1]@);
    let q = match eval(&env.branch(args.len() - 1), &args[1], row, params) {
        Err(e) => {
            return Err(e);
        },
        Ok(Value::Text(x)) => match parse_query(x.as_str()) {
            Err(e) => {
                return Err(e);
            },
            Ok(q) => q,
        },
        Ok(Value::Null) => {
            return Ok(Value::Null);
        },
        Ok(_) => {
            return Err(sql_err(cat(name, "(): la consulta debe ser texto")));
        },
    };
    let open_ = match text_arg(name, 2, eval_arg(env, args, 2, row, params), "[") {
        Err(e) => {
            return Err(e);
        },
        Ok(x) => x,
    };
    let close = match text_arg(name, 3, eval_arg(env, args, 3, row, params), "]") {
        Err(e) => {
            return Err(e);
        },
        Ok(x) => x,
    };
    if str_eq(name, "highlight") {
        return Ok(
            Value::Text(highlight(text.as_str(), &q, &tk, open_.as_str(), close.as_str())),
        );
    }
    let dots = match text_arg(name, 4, eval_arg(env, args, 4, row, params), "…") {
        Err(e) => {
            return Err(e);
        },
        Ok(x) => x,
    };
    let max: usize = match eval_arg(env, args, 5, row, params) {
        None => 15,
        Some(Err(e)) => {
            return Err(e);
        },
        Some(Ok(Value::Integer(n))) if n > 0 => n as usize,
        Some(Ok(_)) => {
            return Err(sql_lit("snippet(): max_tokens debe ser un entero positivo"));
        },
    };
    Ok(
        Value::Text(
            snippet(
                text.as_str(),
                &q,
                &tk,
                open_.as_str(),
                close.as_str(),
                dots.as_str(),
                max,
            ),
        ),
    )
}

/// The values of expressions, up to the first error.
#[verifier::spinoff_prover]
#[verifier::rlimit(50)]
pub fn eval_all(
    env: &Env,
    v: &Vec<Expr>,
    row: Option<(&QuerySchema, &Vec<Value>)>,
    params: &Vec<Value>,
) -> (r: Result<Vec<Value>, Error>)
    requires
        row_fits(row),
    ensures
        (match values_of(env@, exprs_v(v@), row_v(row), row_view(params@)) {
            Ok(vs) => r is Ok && row_view(r->Ok_0@) == vs && vs.len() == v@.len(),
            Err(e) => r is Err && r->Err_0@ == e,
        }),
    decreases v, 0nat,
{
    let ghost es = exprs_v(v@);
    let ghost rv = row_v(row);
    let ghost pv = row_view(params@);
    let ghost all = values_of(env@, es, rv, pv);
    let mut out: Vec<Value> = Vec::new();
    let n: usize = v.len();
    assert(es.skip(0) =~= es);
    assert(all is Ok ==> row_view(out@) + all->Ok_0 =~= all->Ok_0);
    for i in 0..n
        invariant
            n == v@.len(),
            row_fits(row),
            es == exprs_v(v@),
            rv == row_v(row),
            pv == row_view(params@),
            all == values_of(env@, es, rv, pv),
            out@.len() == i,
            (match values_of(env@, es.skip(i as int), rv, pv) {
                Ok(rest) => all == Ok::<Seq<ValueV>, ErrorV>(row_view(out@) + rest),
                Err(e) => all == Err::<Seq<ValueV>, ErrorV>(e),
            }),
        decreases n - i,
    {
        assert(es.skip(i as int)[0] == v@[i as int]@);
        assert(es.skip(i as int).drop_first() =~= es.skip(i + 1));
        let x = match eval(&env.branch(n - i), &v[i], row, params) {
            Err(e) => {
                return Err(e);
            },
            Ok(x) => x,
        };
        let ghost before = row_view(out@);
        let ghost xv = x@;
        out.push(x);
        assert(row_view(out@) =~= before.push(xv));
        proof {
            let rest = values_of(env@, es.skip(i + 1), rv, pv);
            if rest is Ok {
                assert(before + (seq![xv] + rest->Ok_0) =~= row_view(out@) + rest->Ok_0);
            }
        }
    }
    assert(row_view(out@) + Seq::<ValueV>::empty() =~= row_view(out@));
    Ok(out)
}

#[verifier::spinoff_prover]
#[verifier::rlimit(50)]
fn eval_in(
    env: &Env,
    v: &Value,
    list: &Vec<Expr>,
    negated: bool,
    row: Option<(&QuerySchema, &Vec<Value>)>,
    params: &Vec<Value>,
) -> (r: Result<Value, Error>)
    requires
        row_fits(row),
    ensures
        gives(
            r,
            in_value(env@, v@, exprs_v(list@), false, negated, row_v(row), row_view(params@)),
        ),
    decreases list, 0nat,
{
    let ghost es = exprs_v(list@);
    let ghost rv = row_v(row);
    let ghost pv = row_view(params@);
    let ghost all = in_value(env@, v@, es, false, negated, rv, pv);
    let mut saw_null: bool = false;
    let n: usize = list.len();
    assert(es.skip(0) =~= es);
    for i in 0..n
        invariant
            n == list@.len(),
            row_fits(row),
            es == exprs_v(list@),
            rv == row_v(row),
            pv == row_view(params@),
            all == in_value(env@, v@, es, false, negated, rv, pv),
            all == in_value(env@, v@, es.skip(i as int), saw_null, negated, rv, pv),
        decreases n - i,
    {
        assert(es.skip(i as int)[0] == list@[i as int]@);
        assert(es.skip(i as int).drop_first() =~= es.skip(i + 1));
        let item = match eval(&env.branch(n - i), &list[i], row, params) {
            Err(e) => {
                return Err(e);
            },
            Ok(x) => x,
        };
        match order_values(env, v, &item) {
            Err(e) => {
                return Err(e);
            },
            Ok(Some(Order::Equal)) => {
                return Ok(Value::Bool(!negated));
            },
            Ok(Some(_)) => {},
            Ok(None) => {
                saw_null = true;
            },
        }
    }
    if saw_null {
        Ok(Value::Null)
    } else {
        Ok(Value::Bool(negated))
    }
}

pub open spec fn opt_value(o: Option<Value>) -> Option<ValueV> {
    match o {
        Some(v) => Some(v@),
        None => None,
    }
}

#[verifier::spinoff_prover]
#[verifier::rlimit(50)]
fn eval_case(
    env: &Env,
    subject: Option<Value>,
    whens: &Vec<(Expr, Expr)>,
    row: Option<(&QuerySchema, &Vec<Value>)>,
    params: &Vec<Value>,
) -> (r: Result<Option<Value>, Error>)
    requires
        row_fits(row),
    ensures
        (match case_value(
            env@,
            opt_value(subject),
            expr_expr_pairs_v(whens@),
            row_v(row),
            row_view(params@),
        ) {
            Ok(Some(v)) => r is Ok && r->Ok_0 is Some && r->Ok_0->0@ == v,
            Ok(None) => r is Ok && r->Ok_0 is None,
            Err(e) => r is Err && r->Err_0@ == e,
        }),
    decreases whens, 0nat,
{
    let ghost ws = expr_expr_pairs_v(whens@);
    let ghost rv = row_v(row);
    let ghost pv = row_view(params@);
    let ghost sv = opt_value(subject);
    let ghost all = case_value(env@, sv, ws, rv, pv);
    let n: usize = whens.len();
    assert(ws.skip(0) =~= ws);
    for i in 0..n
        invariant
            n == whens@.len(),
            row_fits(row),
            ws == expr_expr_pairs_v(whens@),
            rv == row_v(row),
            pv == row_view(params@),
            sv == opt_value(subject),
            all == case_value(env@, sv, ws, rv, pv),
            all == case_value(env@, sv, ws.skip(i as int), rv, pv),
        decreases n - i,
    {
        assert(ws.skip(i as int)[0] == (whens@[i as int].0@, whens@[i as int].1@));
        assert(ws.skip(i as int).drop_first() =~= ws.skip(i + 1));
        assert(decreases_to!(whens => whens@));
        assert(decreases_to!(whens@ => whens@[i as int]));
        assert(decreases_to!(whens@[i as int] => whens@[i as int].0));
        assert(decreases_to!(whens@[i as int] => whens@[i as int].1));
        let c = match eval(&env.branch(n - i).branch(0), &whens[i].0, row, params) {
            Err(e) => {
                return Err(e);
            },
            Ok(x) => x,
        };
        let hit: bool = match &subject {
            Some(s) => match order_values(env, s, &c) {
                Err(e) => {
                    return Err(e);
                },
                Ok(Some(Order::Equal)) => true,
                Ok(_) => false,
            },
            None => match truthy(&c) {
                Err(e) => {
                    return Err(e);
                },
                Ok(b) => b,
            },
        };
        if hit {
            return match eval(&env.branch(n - i).branch(1), &whens[i].1, row, params) {
                Err(e) => Err(e),
                Ok(v) => Ok(Some(v)),
            };
        }
    }
    Ok(None)
}

fn eval_binary(
    env: &Env,
    a: &Expr,
    op: BinOp,
    b: &Expr,
    row: Option<(&QuerySchema, &Vec<Value>)>,
    params: &Vec<Value>,
    Ghost(whole): Ghost<Expr>,
) -> (r: Result<Value, Error>)
    requires
        row_fits(row),
        whole == Expr::Binary(Box::new(*a), op, Box::new(*b)),
    ensures
        gives(r, value_of(env@, expr_v(whole), row_v(row), row_view(params@))),
    decreases whole, 0nat,
{
    let l = match eval(&env.branch(0), a, row, params) {
        Err(e) => {
            return Err(e);
        },
        Ok(v) => v,
    };
    match op {
        BinOp::And => match truthy3(&l) {
            Err(e) => Err(e),
            Ok(Some(false)) => Ok(Value::Bool(false)),
            Ok(l3) => match eval(&env.branch(1), b, row, params) {
                Err(e) => Err(e),
                Ok(rv) => match truthy3(&rv) {
                    Err(e) => Err(e),
                    Ok(Some(false)) => Ok(Value::Bool(false)),
                    Ok(Some(true)) => if matches!(l3, Some(true)) {
                        Ok(Value::Bool(true))
                    } else {
                        Ok(Value::Null)
                    },
                    Ok(None) => Ok(Value::Null),
                },
            },
        },
        BinOp::Or => match truthy3(&l) {
            Err(e) => Err(e),
            Ok(Some(true)) => Ok(Value::Bool(true)),
            Ok(l3) => match eval(&env.branch(1), b, row, params) {
                Err(e) => Err(e),
                Ok(rv) => match truthy3(&rv) {
                    Err(e) => Err(e),
                    Ok(Some(true)) => Ok(Value::Bool(true)),
                    Ok(Some(false)) => if matches!(l3, Some(false)) {
                        Ok(Value::Bool(false))
                    } else {
                        Ok(Value::Null)
                    },
                    Ok(None) => Ok(Value::Null),
                },
            },
        },
        _ => match eval(&env.branch(1), b, row, params) {
            Err(e) => Err(e),
            Ok(rv) => apply_binary(env, op, &l, &rv),
        },
    }
}

/// The value of an expression on a row, with the values of its parameters.
#[verifier::spinoff_prover]
#[verifier::rlimit(60)]
pub fn eval(
    env: &Env,
    e: &Expr,
    row: Option<(&QuerySchema, &Vec<Value>)>,
    params: &Vec<Value>,
) -> (r: Result<Value, Error>)
    requires
        row_fits(row),
    ensures
        gives(r, value_of(env@, e@, row_v(row), row_view(params@))),
    decreases e, 1nat,
{
    proof {
        reveal(bm25_value);
    }
    match e {
        Expr::Literal(v) => Ok(v.clone()),
        Expr::Param(n) => {
            if *n >= 1 && *n <= params.len() {
                Ok(params[*n - 1].clone())
            } else {
                Err(sql_err(cat("falta el parámetro ?", u64_text(*n as u64).as_str())))
            }
        },
        Expr::Column { table, name } => match row {
            None => Err(sql_err(cat("aquí no se permiten columnas: ", name.as_str()))),
            Some((s, values)) => match s.resolve(table, name.as_str()) {
                Ok(i) => Ok(values[i].clone()),
                Err(e) => Err(e),
            },
        },
        Expr::Aggregate { func: _, arg: _, distinct: _, sep: _ } => Err(
            sql_lit("los agregados solo se permiten en la lista del SELECT"),
        ),
        Expr::Window { func: _, args: _, partition_by: _, order_by: _, frame: _ } => Err(
            sql_lit("las funciones de ventana (OVER) solo se permiten en la lista del SELECT"),
        ),
        Expr::Unary(op, x) => match eval(env, x, row, params) {
            Err(e) => Err(e),
            Ok(v) => match op {
                UnOp::Neg => neg(&v),
                UnOp::Not => match v {
                    Value::Null => Ok(Value::Null),
                    Value::Bool(b) => Ok(Value::Bool(!b)),
                    v => Err(sql_err(cat("NOT requiere BOOLEAN, no ", v.kind_name()))),
                },
            },
        },
        Expr::IsNull { expr, negated } => match eval(env, expr, row, params) {
            Err(e) => Err(e),
            Ok(v) => Ok(Value::Bool(matches!(v, Value::Null) != *negated)),
        },
        Expr::Match { column, query, negated } => {
            let q = eval(env, query, row, params);
            eval_match(env, column, q, *negated, row)
        },
        Expr::Like { expr, pattern, negated } => {
            let s = match eval(&env.branch(0), expr, row, params) {
                Err(e) => {
                    return Err(e);
                },
                Ok(v) => v,
            };
            let p = match eval(&env.branch(1), pattern, row, params) {
                Err(e) => {
                    return Err(e);
                },
                Ok(v) => v,
            };
            match (&s, &p) {
                (Value::Null, _) => Ok(Value::Null),
                (_, Value::Null) => Ok(Value::Null),
                (Value::Text(st), Value::Text(pt)) => {
                    let sc = chars_of(st.as_str());
                    let pc = chars_of(pt.as_str());
                    Ok(Value::Bool(like_match(pc.as_slice(), sc.as_slice()) != *negated))
                },
                _ => Err(
                    sql_err(cat4("LIKE requiere TEXT, no ", s.kind_name(), " y ", p.kind_name())),
                ),
            }
        },
        Expr::Binary(a, op, b) => eval_binary(env, a, *op, b, row, params, Ghost(*e)),
        Expr::Function { name, args } => {
            if str_eq(name.as_str(), "snippet") || str_eq(name.as_str(), "highlight") {
                eval_excerpt(env, name.as_str(), args, row, params)
            } else if str_eq(name.as_str(), "bm25") {
                let (s, values) = match row {
                    None => {
                        return Err(sql_lit("bm25() necesita una fila"));
                    },
                    Some(x) => x,
                };
                assert(exprs_v(args@).len() == args@.len());
                if args.len() != 2 {
                    return Err(sql_lit("bm25(columna, consulta) requiere 2 argumentos"));
                }
                assert(exprs_v(args@)[1] == args@[1]@);
                let q = eval(env, &args[1], row, params);
                eval_bm25(env, args, q, s, values)
            } else {
                match eval_all(env, args, row, params) {
                    Err(e) => Err(e),
                    Ok(vals) => call_function(env, name.as_str(), &vals),
                }
            }
        },
        Expr::In { expr, list, negated } => match eval(&env.branch(0), expr, row, params) {
            Err(e) => Err(e),
            Ok(v) => if matches!(v, Value::Null) {
                Ok(Value::Null)
            } else {
                eval_in(&env.branch(1), &v, list, *negated, row, params)
            },
        },
        Expr::Cast { expr, to } => match eval(env, expr, row, params) {
            Err(e) => Err(e),
            Ok(v) => cast_value(env, &v, *to),
        },
        Expr::Case { operand, whens, else_ } => {
            let subject = match operand {
                Some(o) => match eval(&env.branch(0), o, row, params) {
                    Err(e) => {
                        return Err(e);
                    },
                    Ok(v) => Some(v),
                },
                None => None,
            };
            match eval_case(&env.branch(1), subject, whens, row, params) {
                Err(e) => Err(e),
                Ok(Some(v)) => Ok(v),
                Ok(None) => match else_ {
                    Some(x) => eval(&env.branch(2), x, row, params),
                    None => Ok(Value::Null),
                },
            }
        },
        _ => Err(
            sql_lit("subconsulta sin resolver (las correlacionadas no se soportan en v1)"),
        ),
    }
}

} // verus!
