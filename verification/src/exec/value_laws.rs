//! What the operators of expressions are for: truth, order, arithmetic, membership, choice and
//! conversion.
#[allow(unused_imports)]
use vstd::prelude::*;
#[allow(unused_imports)]
use vstd::utf8::*;

#[allow(unused_imports)]
use crate::bytes::lex_lt;
#[allow(unused_imports)]
use crate::catalog::ColType;
#[allow(unused_imports)]
use crate::error::ErrorV;
#[allow(unused_imports)]
use crate::exec::aggregate_laws::recorded;
#[allow(unused_imports)]
use crate::exec::eval::{binary_value, case_value, in_value, value_of, values_of};
#[allow(unused_imports)]
use crate::exec::ops::{branch, bytes_order_is_key_order, cast, coerced, sort_order, truth, value_order, values_equal, EnvV};
#[allow(unused_imports)]
use crate::exec::pattern::like;
#[allow(unused_imports)]
use crate::exec::schema::{only_column, resolved, table_named, RowV, SchemaTableV, SchemaV};
#[allow(unused_imports)]
use crate::exec::write_laws::names_mean_columns;
#[allow(unused_imports)]
use crate::reals::{answer, is_nan, magnitude, rank, Binary, Order, RealAnswerV, RealOpV};
#[allow(unused_imports)]
use crate::record::ValueV;
#[allow(unused_imports)]
use crate::sql::ast::{BinOp, ExprV, UnOp};
#[allow(unused_imports)]
use crate::text::int_text;

verus! {

/// The values of the two operands.
pub open spec fn operands(env: EnvV, a: ExprV, b: ExprV, row: RowV, params: Seq<ValueV>, l: ValueV, r: ValueV) -> bool {
    &&& value_of(branch(env, 0), a, row, params) == Ok::<ValueV, ErrorV>(l)
    &&& value_of(branch(env, 1), b, row, params) == Ok::<ValueV, ErrorV>(r)
}

/// The value of `a op b`.
pub open spec fn applied(env: EnvV, a: ExprV, op: BinOp, b: ExprV, row: RowV, params: Seq<ValueV>) -> Result<ValueV, ErrorV> {
    value_of(env, ExprV::Binary(Box::new(a), op, Box::new(b)), row, params)
}

// --- truth ---

/// A condition holds only where it is true: NULL does not hold, and anything but a truth value is
/// an error.
pub proof fn only_truth_holds(v: ValueV)
    ensures
        truth(ValueV::Bool(true)) == Ok::<bool, ErrorV>(true),
        truth(ValueV::Bool(false)) == Ok::<bool, ErrorV>(false),
        truth(ValueV::Null) == Ok::<bool, ErrorV>(false),
        !(v is Bool) && !(v is Null) ==> truth(v) is Err,
{
}

/// AND is false where an operand is false, true where both are true, and unknown otherwise; OR is
/// true where an operand is true, false where both are false, and unknown otherwise; NOT turns
/// true and false round and leaves the unknown.
pub proof fn logic_is_three_valued(env: EnvV, a: ExprV, b: ExprV, row: RowV, params: Seq<ValueV>, l: ValueV, r: ValueV)
    requires
        operands(env, a, b, row, params, l, r),
        l is Bool || l is Null,
        r is Bool || r is Null,
    ensures
        applied(env, a, BinOp::And, b, row, params) == Ok::<ValueV, ErrorV>(
            if l == ValueV::Bool(false) || r == ValueV::Bool(false) {
                ValueV::Bool(false)
            } else if l == ValueV::Bool(true) && r == ValueV::Bool(true) {
                ValueV::Bool(true)
            } else {
                ValueV::Null
            },
        ),
        applied(env, a, BinOp::Or, b, row, params) == Ok::<ValueV, ErrorV>(
            if l == ValueV::Bool(true) || r == ValueV::Bool(true) {
                ValueV::Bool(true)
            } else if l == ValueV::Bool(false) && r == ValueV::Bool(false) {
                ValueV::Bool(false)
            } else {
                ValueV::Null
            },
        ),
        value_of(branch(env, 0), ExprV::Unary(UnOp::Not, Box::new(a)), row, params) == Ok::<ValueV, ErrorV>(
            match l {
                ValueV::Bool(x) => ValueV::Bool(!x),
                _ => ValueV::Null,
            },
        ),
{
}

/// What decides alone is not followed by the other operand: false AND anything is false, true OR
/// anything is true, even where the other one is an error.
pub proof fn logic_stops_early(env: EnvV, a: ExprV, b: ExprV, row: RowV, params: Seq<ValueV>)
    ensures
        value_of(branch(env, 0), a, row, params) == Ok::<ValueV, ErrorV>(ValueV::Bool(false)) ==> applied(env, a, BinOp::And, b, row, params) == Ok::<ValueV, ErrorV>(ValueV::Bool(false)),
        value_of(branch(env, 0), a, row, params) == Ok::<ValueV, ErrorV>(ValueV::Bool(true)) ==> applied(env, a, BinOp::Or, b, row, params) == Ok::<ValueV, ErrorV>(ValueV::Bool(true)),
        value_of(branch(env, 0), a, row, params) is Err ==> applied(env, a, BinOp::And, b, row, params) == value_of(branch(env, 0), a, row, params) && applied(env, a, BinOp::Or, b, row, params) == value_of(branch(env, 0), a, row, params),
{
}

/// `IS NULL` tells whether a value is NULL, `IS NOT NULL` the opposite; they are never unknown.
pub proof fn null_tests_are_certain(env: EnvV, x: ExprV, row: RowV, params: Seq<ValueV>, v: ValueV)
    requires
        value_of(env, x, row, params) == Ok::<ValueV, ErrorV>(v),
    ensures
        value_of(env, ExprV::IsNull { expr: Box::new(x), negated: false }, row, params) == Ok::<ValueV, ErrorV>(ValueV::Bool(v == ValueV::Null)),
        value_of(env, ExprV::IsNull { expr: Box::new(x), negated: true }, row, params) == Ok::<ValueV, ErrorV>(ValueV::Bool(v != ValueV::Null)),
{
}

// --- order ---

/// The comparisons hold as their signs say, between integers.
pub proof fn integers_compare(env: EnvV, a: ExprV, b: ExprV, row: RowV, params: Seq<ValueV>, x: i64, y: i64)
    requires
        operands(env, a, b, row, params, ValueV::Integer(x), ValueV::Integer(y)),
    ensures
        applied(env, a, BinOp::Eq, b, row, params) == Ok::<ValueV, ErrorV>(ValueV::Bool(x == y)),
        applied(env, a, BinOp::Ne, b, row, params) == Ok::<ValueV, ErrorV>(ValueV::Bool(x != y)),
        applied(env, a, BinOp::Lt, b, row, params) == Ok::<ValueV, ErrorV>(ValueV::Bool(x < y)),
        applied(env, a, BinOp::Le, b, row, params) == Ok::<ValueV, ErrorV>(ValueV::Bool(x <= y)),
        applied(env, a, BinOp::Gt, b, row, params) == Ok::<ValueV, ErrorV>(ValueV::Bool(x > y)),
        applied(env, a, BinOp::Ge, b, row, params) == Ok::<ValueV, ErrorV>(ValueV::Bool(x >= y)),
{
    reveal(binary_value);
}

/// What the six comparisons come to, where `less` and `same` say how the operands stand.
pub open spec fn compares(env: EnvV, a: ExprV, b: ExprV, row: RowV, params: Seq<ValueV>, less: bool, same: bool) -> bool {
    &&& applied(env, a, BinOp::Eq, b, row, params) == Ok::<ValueV, ErrorV>(ValueV::Bool(same))
    &&& applied(env, a, BinOp::Ne, b, row, params) == Ok::<ValueV, ErrorV>(ValueV::Bool(!same))
    &&& applied(env, a, BinOp::Lt, b, row, params) == Ok::<ValueV, ErrorV>(ValueV::Bool(less))
    &&& applied(env, a, BinOp::Le, b, row, params) == Ok::<ValueV, ErrorV>(ValueV::Bool(less || same))
    &&& applied(env, a, BinOp::Gt, b, row, params) == Ok::<ValueV, ErrorV>(ValueV::Bool(!less && !same))
    &&& applied(env, a, BinOp::Ge, b, row, params) == Ok::<ValueV, ErrorV>(ValueV::Bool(!less))
}

/// Texts compare by the order of their bytes, and are equal where they are the same; so do BLOBs.
/// Of truth values false comes first. Reals compare as numbers, an integer and a real as reals.
pub proof fn values_compare_in_their_order(env: EnvV, a: ExprV, b: ExprV, row: RowV, params: Seq<ValueV>, l: ValueV, r: ValueV, bits: u64)
    requires
        operands(env, a, b, row, params, l, r),
    ensures
        l is Text && r is Text ==> compares(env, a, b, row, params, lex_lt(encode_utf8(l->Text_0), encode_utf8(r->Text_0)), l->Text_0 == r->Text_0),
        l is Blob && r is Blob ==> compares(env, a, b, row, params, lex_lt(l->Blob_0, r->Blob_0), l->Blob_0 == r->Blob_0),
        l is Bool && r is Bool ==> compares(env, a, b, row, params, !l->Bool_0 && r->Bool_0, l == r),
        l is Real && r is Real && !is_nan(l->Real_0) && !is_nan(r->Real_0) ==> compares(env, a, b, row, params, rank(l->Real_0) < rank(r->Real_0), rank(l->Real_0) == rank(r->Real_0)),
        l is Integer && r is Real && recorded(env, RealOpV::FromInt(l->Integer_0), bits) && !is_nan(bits) && !is_nan(r->Real_0) ==> compares(env, a, b, row, params, rank(bits) < rank(r->Real_0), rank(bits) == rank(r->Real_0)),
        l is Real && r is Integer && recorded(env, RealOpV::FromInt(r->Integer_0), bits) && !is_nan(l->Real_0) && !is_nan(bits) ==> compares(env, a, b, row, params, rank(l->Real_0) < rank(bits), rank(l->Real_0) == rank(bits)),
{
    reveal(binary_value);
    crate::exec::ops::places_differ(env, 0, 1, Seq::empty(), Seq::empty());
    if l is Text && r is Text {
        let (x, y) = (encode_utf8(l->Text_0), encode_utf8(r->Text_0));
        bytes_order_is_key_order(x, y);
        encode_utf8_decode_utf8(l->Text_0);
        encode_utf8_decode_utf8(r->Text_0);
    }
    if l is Blob && r is Blob {
        bytes_order_is_key_order(l->Blob_0, r->Blob_0);
    }
}

/// With a NULL every comparison is unknown, and so it is with a NaN; values of different kinds do
/// not compare.
pub proof fn nothing_compares_with_null(env: EnvV, a: ExprV, op: BinOp, b: ExprV, row: RowV, params: Seq<ValueV>, l: ValueV, r: ValueV)
    requires
        operands(env, a, b, row, params, l, r),
        op == BinOp::Eq || op == BinOp::Ne || op == BinOp::Lt || op == BinOp::Le || op == BinOp::Gt || op == BinOp::Ge,
    ensures
        l is Null || r is Null ==> applied(env, a, op, b, row, params) == Ok::<ValueV, ErrorV>(ValueV::Null),
        l is Real && r is Real && (is_nan(l->Real_0) || is_nan(r->Real_0)) ==> applied(env, a, op, b, row, params) == Ok::<ValueV, ErrorV>(ValueV::Null),
        l is Text && (r is Integer || r is Real || r is Blob || r is Bool) ==> applied(env, a, op, b, row, params) is Err,
        l is Blob && (r is Integer || r is Real || r is Text || r is Bool) ==> applied(env, a, op, b, row, params) is Err,
        l is Bool && (r is Integer || r is Real || r is Text || r is Blob) ==> applied(env, a, op, b, row, params) is Err,
{
    reveal(binary_value);
}

/// Sorting puts NULL before everything, and other values in the order in which they compare.
pub proof fn sorting_follows_comparison(env: EnvV, v: ValueV, w: ValueV, x: i64, y: i64)
    ensures
        sort_order(env, ValueV::Null, ValueV::Null) == Ok::<Order, ErrorV>(Order::Equal),
        !(v is Null) ==> sort_order(env, ValueV::Null, v) == Ok::<Order, ErrorV>(Order::Less),
        !(v is Null) ==> sort_order(env, v, ValueV::Null) == Ok::<Order, ErrorV>(Order::Greater),
        sort_order(env, ValueV::Integer(x), ValueV::Integer(y)) == Ok::<Order, ErrorV>(
            if x < y {
                Order::Less
            } else if x == y {
                Order::Equal
            } else {
                Order::Greater
            },
        ),
        !(v is Null) && !(w is Null) ==> (match value_order(env, v, w) {
            Ok(Some(o)) => sort_order(env, v, w) == Ok::<Order, ErrorV>(o),
            Ok(None) => sort_order(env, v, w) == Ok::<Order, ErrorV>(Order::Equal),
            Err(e) => sort_order(env, v, w) == Err::<Order, ErrorV>(e),
        }),
{
}

/// Stored values are equal where they are the same, NULL like any other; reals are where they are
/// the same number, so that the two zeros are equal and a NaN equals nothing.
pub proof fn stored_values_are_equal(a: ValueV, b: ValueV)
    ensures
        !(a is Real) ==> values_equal(a, a),
        a is Real && !is_nan(a->Real_0) ==> values_equal(a, a),
        a is Real && is_nan(a->Real_0) ==> !values_equal(a, b),
        values_equal(a, b) == values_equal(b, a),
        a is Real && b is Real && !is_nan(a->Real_0) && !is_nan(b->Real_0) ==> values_equal(a, b) == (rank(a->Real_0) == rank(b->Real_0)),
        !(a is Real && b is Real) ==> values_equal(a, b) == (a == b),
{
}

// --- arithmetic ---

/// Integer arithmetic is exact: a sum, difference or product that leaves the range is an error.
pub proof fn integers_add_up(env: EnvV, a: ExprV, b: ExprV, row: RowV, params: Seq<ValueV>, x: i64, y: i64)
    requires
        operands(env, a, b, row, params, ValueV::Integer(x), ValueV::Integer(y)),
    ensures
        i64::MIN <= x + y <= i64::MAX ==> applied(env, a, BinOp::Add, b, row, params) == Ok::<ValueV, ErrorV>(ValueV::Integer((x + y) as i64)),
        i64::MIN <= x - y <= i64::MAX ==> applied(env, a, BinOp::Sub, b, row, params) == Ok::<ValueV, ErrorV>(ValueV::Integer((x - y) as i64)),
        i64::MIN <= x * y <= i64::MAX ==> applied(env, a, BinOp::Mul, b, row, params) == Ok::<ValueV, ErrorV>(ValueV::Integer((x * y) as i64)),
        !(i64::MIN <= x + y <= i64::MAX) ==> applied(env, a, BinOp::Add, b, row, params) is Err,
        !(i64::MIN <= x - y <= i64::MAX) ==> applied(env, a, BinOp::Sub, b, row, params) is Err,
        !(i64::MIN <= x * y <= i64::MAX) ==> applied(env, a, BinOp::Mul, b, row, params) is Err,
{
    reveal(binary_value);
}

/// Division of integers cuts towards zero and the remainder has the sign of the dividend: together
/// they give the dividend back. Division by zero is NULL, and the one quotient that leaves the
/// range is an error.
#[verifier::spinoff_prover]
pub proof fn integers_divide(env: EnvV, a: ExprV, b: ExprV, row: RowV, params: Seq<ValueV>, x: i64, y: i64)
    requires
        operands(env, a, b, row, params, ValueV::Integer(x), ValueV::Integer(y)),
    ensures
        y == 0 ==> applied(env, a, BinOp::Div, b, row, params) == Ok::<ValueV, ErrorV>(ValueV::Null) && applied(env, a, BinOp::Mod, b, row, params) == Ok::<ValueV, ErrorV>(ValueV::Null),
        x == i64::MIN && y == -1 ==> applied(env, a, BinOp::Div, b, row, params) is Err && applied(env, a, BinOp::Mod, b, row, params) == Ok::<ValueV, ErrorV>(ValueV::Integer(0)),
        y != 0 && !(x == i64::MIN && y == -1) ==> {
            let q = applied(env, a, BinOp::Div, b, row, params);
            let m = applied(env, a, BinOp::Mod, b, row, params);
            &&& q is Ok && q->Ok_0 is Integer
            &&& m is Ok && m->Ok_0 is Integer
            &&& q->Ok_0->Integer_0 * y + m->Ok_0->Integer_0 == x
            &&& -(if y < 0 { -y } else { y as int }) < m->Ok_0->Integer_0 < (if y < 0 { -y } else { y as int })
            &&& x >= 0 ==> m->Ok_0->Integer_0 >= 0
            &&& x <= 0 ==> m->Ok_0->Integer_0 <= 0
        },
{
    reveal(binary_value);
    let (u, v) = (x as int, y as int);
    if y != 0 && !(x == i64::MIN && y == -1) {
        let p = if u < 0 { -u } else { u };
        let d = if v < 0 { -v } else { v };
        assert(p == d * (p / d) + p % d && 0 <= p % d < d && 0 <= p / d <= p) by (nonlinear_arith)
            requires
                d >= 1,
                p >= 0,
        ;
        let q = p / d;
        let m = p % d;
        assert(u < 0 ==> u * -1 == p);
        assert(v < 0 ==> v * -1 == d);
        assert(q < 0x8000_0000_0000_0000 || (u < 0) != (v < 0)) by {
            if (u < 0) == (v < 0) && q >= 0x8000_0000_0000_0000 {
                assert(d == 1) by (nonlinear_arith)
                    requires
                        d >= 1,
                        q >= 0x8000_0000_0000_0000,
                        p <= 0x8000_0000_0000_0000,
                        p == d * q + m,
                        m >= 0,
                ;
                assert(p == 0x8000_0000_0000_0000) by (nonlinear_arith)
                    requires
                        p == d * q + m,
                        d == 1,
                        0 <= m,
                        q >= 0x8000_0000_0000_0000,
                        p <= 0x8000_0000_0000_0000,
                ;
            }
        }
        assert((q * -1) * d == -(d * q) && q * d == d * q && (q * -1) * (d * -1) == d * q && q * (d * -1) == -(d * q)) by (nonlinear_arith);
        let qv = applied(env, a, BinOp::Div, b, row, params);
        let mv = applied(env, a, BinOp::Mod, b, row, params);
        assert(qv == Ok::<ValueV, ErrorV>(ValueV::Integer((if (u < 0) == (v < 0) || u == 0 { q } else { q * -1 }) as i64)));
        assert(mv == Ok::<ValueV, ErrorV>(ValueV::Integer((if u < 0 { m * -1 } else { m }) as i64)));
        if u == 0 {
            assert(q == 0 && m == 0) by (nonlinear_arith)
                requires
                    0 == d * q + m,
                    d >= 1,
                    q >= 0,
                    m >= 0,
            ;
            assert(0 * v == 0);
        }
    }
}

/// The real that stands for a number.
pub open spec fn as_real(env: EnvV, v: ValueV, b: u64) -> bool {
    match v {
        ValueV::Real(x) => b == x,
        ValueV::Integer(n) => recorded(env, RealOpV::FromInt(n), b),
        _ => false,
    }
}

/// Arithmetic with a real is real arithmetic on both operands, in their order: an outcome that is
/// no number is NULL, and so is division by zero.
pub proof fn reals_calculate(env: EnvV, a: ExprV, b: ExprV, row: RowV, params: Seq<ValueV>, l: ValueV, r: ValueV, x: u64, y: u64, z: u64)
    requires
        operands(env, a, b, row, params, l, r),
        l is Real || r is Real,
        as_real(env, l, x),
        as_real(env, r, y),
    ensures
        recorded(env, RealOpV::Binary(Binary::Add, x, y), z) ==> applied(env, a, BinOp::Add, b, row, params) == Ok::<ValueV, ErrorV>(if is_nan(z) { ValueV::Null } else { ValueV::Real(z) }),
        recorded(env, RealOpV::Binary(Binary::Sub, x, y), z) ==> applied(env, a, BinOp::Sub, b, row, params) == Ok::<ValueV, ErrorV>(if is_nan(z) { ValueV::Null } else { ValueV::Real(z) }),
        recorded(env, RealOpV::Binary(Binary::Mul, x, y), z) ==> applied(env, a, BinOp::Mul, b, row, params) == Ok::<ValueV, ErrorV>(if is_nan(z) { ValueV::Null } else { ValueV::Real(z) }),
        magnitude(y) != 0 && recorded(env, RealOpV::Binary(Binary::Div, x, y), z) ==> applied(env, a, BinOp::Div, b, row, params) == Ok::<ValueV, ErrorV>(if is_nan(z) { ValueV::Null } else { ValueV::Real(z) }),
        magnitude(y) != 0 && recorded(env, RealOpV::Binary(Binary::Rem, x, y), z) ==> applied(env, a, BinOp::Mod, b, row, params) == Ok::<ValueV, ErrorV>(if is_nan(z) { ValueV::Null } else { ValueV::Real(z) }),
        magnitude(y) == 0 ==> applied(env, a, BinOp::Div, b, row, params) == Ok::<ValueV, ErrorV>(ValueV::Null) && applied(env, a, BinOp::Mod, b, row, params) == Ok::<ValueV, ErrorV>(ValueV::Null),
{
    reveal(binary_value);
}

/// NULL spreads through arithmetic and `||`; `||` joins two texts, the left one first; a minus
/// turns the sign of a number round.
pub proof fn null_spreads(env: EnvV, a: ExprV, op: BinOp, b: ExprV, row: RowV, params: Seq<ValueV>, l: ValueV, r: ValueV)
    requires
        operands(env, a, b, row, params, l, r),
    ensures
        (l is Null || r is Null) && (op == BinOp::Add || op == BinOp::Sub || op == BinOp::Mul || op == BinOp::Div || op == BinOp::Mod || op == BinOp::Concat) ==> applied(env, a, op, b, row, params) == Ok::<ValueV, ErrorV>(ValueV::Null),
        l is Text && r is Text ==> applied(env, a, BinOp::Concat, b, row, params) == Ok::<ValueV, ErrorV>(ValueV::Text(l->Text_0 + r->Text_0)),
        l is Null ==> value_of(branch(env, 0), ExprV::Unary(UnOp::Neg, Box::new(a)), row, params) == Ok::<ValueV, ErrorV>(ValueV::Null),
        l is Integer && l->Integer_0 != i64::MIN ==> value_of(branch(env, 0), ExprV::Unary(UnOp::Neg, Box::new(a)), row, params) == Ok::<ValueV, ErrorV>(ValueV::Integer((-l->Integer_0) as i64)),
        l == ValueV::Integer(i64::MIN) ==> value_of(branch(env, 0), ExprV::Unary(UnOp::Neg, Box::new(a)), row, params) is Err,
        l is Real ==> {
            let v = value_of(branch(env, 0), ExprV::Unary(UnOp::Neg, Box::new(a)), row, params);
            v is Ok && v->Ok_0 is Real && rank(v->Ok_0->Real_0) == -rank(l->Real_0) && magnitude(v->Ok_0->Real_0) == magnitude(l->Real_0)
        },
{
    reveal(binary_value);
}

// --- names ---

/// A parameter is the value that was given for it, counted from one; a column is the value of the
/// row at its place.
pub proof fn names_mean_values(env: EnvV, n: usize, params: Seq<ValueV>, s: SchemaV, values: Seq<ValueV>, table: Option<Seq<char>>, name: Seq<char>, i: int, v: ValueV, row: RowV)
    ensures
        value_of(env, ExprV::Literal(v), row, params) == Ok::<ValueV, ErrorV>(v),
        1 <= n <= params.len() ==> value_of(env, ExprV::Param(n), row, params) == Ok::<ValueV, ErrorV>(params[n - 1]),
        n == 0 || n > params.len() ==> value_of(env, ExprV::Param(n), row, params) is Err,
        resolved(s, table, name) == Ok::<int, ErrorV>(i) ==> value_of(env, ExprV::Column { table, name }, Some((s, values)), params) == Ok::<ValueV, ErrorV>(values[i]),
        value_of(env, ExprV::Column { table, name }, None, params) is Err,
{
}

proof fn lemma_table_named(tables: Seq<SchemaTableV>, q: Seq<char>, i: int, t: int)
    requires
        0 <= i <= t < tables.len(),
        tables[t].qualifier == q,
        forall|k: int| 0 <= k < t ==> (#[trigger] tables[k]).qualifier != q,
    ensures
        table_named(tables, q, i) == Some(t),
    decreases t - i,
{
    if i < t {
        assert(tables[i].qualifier != q);
        lemma_table_named(tables, q, i + 1, t);
    }
}

/// The table has a column of that name that is not dropped.
pub open spec fn has_column(t: SchemaTableV, name: Seq<char>) -> bool {
    exists|c: int| 0 <= c < t.def.columns.len() && !(#[trigger] t.def.columns[c]).dropped && t.def.columns[c].name == name
}

proof fn lemma_only_column(tables: Seq<SchemaTableV>, name: Seq<char>, i: int, t: int, c: int, found: Option<(int, int)>)
    requires
        0 <= i <= tables.len(),
        0 <= t < tables.len(),
        0 <= c < tables[t].def.columns.len(),
        !tables[t].def.columns[c].dropped,
        tables[t].def.columns[c].name == name,
        forall|k: int| 0 <= k < c ==> (#[trigger] tables[t].def.columns[k]).dropped || tables[t].def.columns[k].name != name,
        forall|u: int| 0 <= u < tables.len() && u != t ==> !has_column(#[trigger] tables[u], name),
        i <= t ==> found is None,
        i > t ==> found == Some((t, c)),
    ensures
        only_column(tables, name, i, found) == Ok::<(int, int), ErrorV>((t, c)),
    decreases tables.len() - i,
{
    if i < tables.len() {
        names_mean_columns(tables[i].def.columns, name, 0);
        if i == t {
            let d = crate::exec::schema::column_named(tables[i].def.columns, name, 0)->0;
            assert(tables[t].def.columns[c].name == name);
            if d < c {
                assert(tables[t].def.columns[d].dropped || tables[t].def.columns[d].name != name);
            }
            lemma_only_column(tables, name, i + 1, t, c, Some((t, c)));
        } else {
            assert(!has_column(tables[i], name));
            lemma_only_column(tables, name, i + 1, t, c, found);
        }
    }
}

/// A column that is named with its table is that of the first table so called; one that is named
/// alone is that of the only table that has it. Its place in the row is behind the tables before
/// its own.
pub proof fn columns_are_found(s: SchemaV, q: Seq<char>, name: Seq<char>, t: int, c: int)
    requires
        0 <= t < s.tables.len(),
        0 <= c < s.tables[t].def.columns.len(),
        !s.tables[t].def.columns[c].dropped,
        s.tables[t].def.columns[c].name == name,
        forall|k: int| 0 <= k < c ==> (#[trigger] s.tables[t].def.columns[k]).dropped || s.tables[t].def.columns[k].name != name,
    ensures
        s.tables[t].qualifier == q && (forall|k: int| 0 <= k < t ==> (#[trigger] s.tables[k]).qualifier != q) ==> resolved(s, Some(q), name) == Ok::<int, ErrorV>(s.tables[t].offset + c),
        (forall|u: int| 0 <= u < s.tables.len() && u != t ==> !has_column(#[trigger] s.tables[u], name)) ==> resolved(s, None, name) == Ok::<int, ErrorV>(s.tables[t].offset + c),
{
    names_mean_columns(s.tables[t].def.columns, name, 0);
    let d = crate::exec::schema::column_named(s.tables[t].def.columns, name, 0)->0;
    assert(s.tables[t].def.columns[c].name == name);
    if d < c {
        assert(s.tables[t].def.columns[d].dropped || s.tables[t].def.columns[d].name != name);
    }
    if s.tables[t].qualifier == q && (forall|k: int| 0 <= k < t ==> (#[trigger] s.tables[k]).qualifier != q) {
        lemma_table_named(s.tables, q, 0, t);
    }
    if forall|u: int| 0 <= u < s.tables.len() && u != t ==> !has_column(#[trigger] s.tables[u], name) {
        lemma_only_column(s.tables, name, 0, t, c, None);
    }
}

/// The values of a list of expressions are those of its members, in their order.
pub proof fn lists_have_the_values_of_their_members(env: EnvV, es: Seq<ExprV>, row: RowV, params: Seq<ValueV>)
    requires
        values_of(env, es, row, params) is Ok,
    ensures
        values_of(env, es, row, params)->Ok_0.len() == es.len(),
        forall|i: int| 0 <= i < es.len() ==> value_of(branch(env, es.len() - i), #[trigger] es[i], row, params) == Ok::<ValueV, ErrorV>(values_of(env, es, row, params)->Ok_0[i]),
    decreases es.len(),
{
    if es.len() > 0 {
        let rest = es.drop_first();
        lists_have_the_values_of_their_members(env, rest, row, params);
        let vs = values_of(env, es, row, params)->Ok_0;
        assert forall|i: int| 0 <= i < es.len() implies value_of(branch(env, es.len() - i), #[trigger] es[i], row, params) == Ok::<ValueV, ErrorV>(vs[i]) by {
            if i > 0 {
                assert(rest[i - 1] == es[i]);
                assert(rest.len() - (i - 1) == es.len() - i);
            }
        }
    }
}

// --- membership and choice ---

/// Comparing `v` with member `i` of a list comes to `o`.
pub open spec fn compared_at(env: EnvV, v: ValueV, list: Seq<ExprV>, row: RowV, params: Seq<ValueV>, i: int, o: Option<Order>) -> bool {
    let item = value_of(branch(env, list.len() - i), list[i], row, params);
    item is Ok && value_order(env, v, item->Ok_0) == Ok::<Option<Order>, ErrorV>(o)
}

/// The members of a list have values, and comparing `v` with each comes to `orders`.
pub open spec fn compared(env: EnvV, v: ValueV, list: Seq<ExprV>, row: RowV, params: Seq<ValueV>, orders: Seq<Option<Order>>) -> bool {
    orders.len() == list.len() && forall|i: int| 0 <= i < list.len() ==> compared_at(env, v, list, row, params, i, #[trigger] orders[i])
}

proof fn lemma_in(env: EnvV, v: ValueV, list: Seq<ExprV>, saw_null: bool, negated: bool, row: RowV, params: Seq<ValueV>, orders: Seq<Option<Order>>)
    requires
        compared(env, v, list, row, params, orders),
    ensures
        in_value(env, v, list, saw_null, negated, row, params) == Ok::<ValueV, ErrorV>(
            if orders.contains(Some(Order::Equal)) {
                ValueV::Bool(!negated)
            } else if saw_null || orders.contains(None) {
                ValueV::Null
            } else {
                ValueV::Bool(negated)
            },
        ),
    decreases list.len(),
{
    if list.len() > 0 {
        let rest = orders.drop_first();
        assert(compared_at(env, v, list, row, params, 0, orders[0]));
        assert forall|i: int| 0 <= i < list.drop_first().len() implies compared_at(env, v, list.drop_first(), row, params, i, #[trigger] rest[i]) by {
            let o = orders[i + 1];
            assert(rest[i] == o);
            assert(compared_at(env, v, list, row, params, i + 1, o));
            assert(list.drop_first()[i] == list[i + 1]);
            assert(list.drop_first().len() - i == list.len() - (i + 1));
        }
        lemma_in(env, v, list.drop_first(), saw_null || orders[0] is None, negated, row, params, rest);
        assert(orders =~= seq![orders[0]] + rest);
        assert forall|o: Option<Order>| orders.contains(o) == (orders[0] == o || rest.contains(o)) by {
            if rest.contains(o) {
                let k = choose|k: int| 0 <= k < rest.len() && rest[k] == o;
                assert(orders[k + 1] == o);
            }
            if orders.contains(o) && orders[0] != o {
                let k = choose|k: int| 0 <= k < orders.len() && orders[k] == o;
                assert(rest[k - 1] == o);
            }
        }
    } else {
        assert(!orders.contains(Some(Order::Equal)) && !orders.contains(None));
    }
}

/// IN is true where a member of the list equals the value; where none does it is false, or unknown
/// where comparing with one of them is. NOT IN is the opposite, and NULL is in no list for certain.
pub proof fn membership_is_equality_with_a_member(env: EnvV, x: ExprV, list: Seq<ExprV>, row: RowV, params: Seq<ValueV>, v: ValueV, orders: Seq<Option<Order>>)
    requires
        value_of(branch(env, 0), x, row, params) == Ok::<ValueV, ErrorV>(v),
        compared(branch(env, 1), v, list, row, params, orders),
    ensures
        !(v is Null) && orders.contains(Some(Order::Equal)) ==> value_of(env, ExprV::In { expr: Box::new(x), list, negated: false }, row, params) == Ok::<ValueV, ErrorV>(ValueV::Bool(true)) && value_of(env, ExprV::In { expr: Box::new(x), list, negated: true }, row, params) == Ok::<ValueV, ErrorV>(ValueV::Bool(false)),
        !(v is Null) && !orders.contains(Some(Order::Equal)) && !orders.contains(None) ==> value_of(env, ExprV::In { expr: Box::new(x), list, negated: false }, row, params) == Ok::<ValueV, ErrorV>(ValueV::Bool(false)) && value_of(env, ExprV::In { expr: Box::new(x), list, negated: true }, row, params) == Ok::<ValueV, ErrorV>(ValueV::Bool(true)),
        v is Null || !orders.contains(Some(Order::Equal)) && orders.contains(None) ==> value_of(env, ExprV::In { expr: Box::new(x), list, negated: false }, row, params) == Ok::<ValueV, ErrorV>(ValueV::Null) && value_of(env, ExprV::In { expr: Box::new(x), list, negated: true }, row, params) == Ok::<ValueV, ErrorV>(ValueV::Null),
{
    lemma_in(branch(env, 1), v, list, false, false, row, params, orders);
    lemma_in(branch(env, 1), v, list, false, true, row, params, orders);
}

proof fn lemma_case(env: EnvV, subject: Option<ValueV>, whens: Seq<(ExprV, ExprV)>, row: RowV, params: Seq<ValueV>, k: int)
    requires
        0 <= k <= whens.len(),
        forall|i: int| 0 <= i < k ==> !#[trigger] applies(env, subject, whens, row, params, i) && tested(env, subject, whens, row, params, i),
        k < whens.len() ==> tested(env, subject, whens, row, params, k) && applies(env, subject, whens, row, params, k),
    ensures
        k == whens.len() ==> case_value(env, subject, whens, row, params) == Ok::<Option<ValueV>, ErrorV>(None),
        k < whens.len() ==> case_value(env, subject, whens, row, params) == (match value_of(branch(branch(env, whens.len() - k), 1), whens[k].1, row, params) {
            Ok(v) => Ok(Some(v)),
            Err(e) => Err(e),
        }),
    decreases whens.len(),
{
    if whens.len() > 0 && k > 0 {
        let rest = whens.drop_first();
        let first: int = 0;
        assert(!applies(env, subject, whens, row, params, first));
        assert(tested(env, subject, whens, row, params, first));
        assert forall|i: int| 0 <= i < k - 1 implies !#[trigger] applies(env, subject, rest, row, params, i) && tested(env, subject, rest, row, params, i) by {
            assert(rest[i] == whens[i + 1]);
            assert(!applies(env, subject, whens, row, params, i + 1));
        }
        if k < whens.len() {
            assert(rest[k - 1] == whens[k]);
        }
        lemma_case(env, subject, rest, row, params, k - 1);
    }
}

/// The condition of branch `i` has a value that can be tested.
pub open spec fn tested(env: EnvV, subject: Option<ValueV>, whens: Seq<(ExprV, ExprV)>, row: RowV, params: Seq<ValueV>, i: int) -> bool {
    let c = value_of(branch(branch(env, whens.len() - i), 0), whens[i].0, row, params);
    c is Ok && match subject {
        Some(s) => value_order(env, s, c->Ok_0) is Ok,
        None => c->Ok_0 is Bool || c->Ok_0 is Null,
    }
}

/// Branch `i` applies: its condition equals the subject or, without one, is true.
pub open spec fn applies(env: EnvV, subject: Option<ValueV>, whens: Seq<(ExprV, ExprV)>, row: RowV, params: Seq<ValueV>, i: int) -> bool {
    let c = value_of(branch(branch(env, whens.len() - i), 0), whens[i].0, row, params);
    match subject {
        Some(s) => value_order(env, s, c->Ok_0) == Ok::<Option<Order>, ErrorV>(Some(Order::Equal)),
        None => c == Ok::<ValueV, ErrorV>(ValueV::Bool(true)),
    }
}

/// CASE is the result of its first branch that applies; where none does it is what stands behind
/// ELSE, or NULL without one. What stands behind the branch that applies is not evaluated.
pub proof fn case_takes_the_first_branch(env: EnvV, operand: Option<Box<ExprV>>, whens: Seq<(ExprV, ExprV)>, else_: Option<Box<ExprV>>, row: RowV, params: Seq<ValueV>, subject: Option<ValueV>, k: int)
    requires
        operand is None ==> subject is None,
        operand is Some ==> subject is Some && value_of(branch(env, 0), *operand->0, row, params) == Ok::<ValueV, ErrorV>(subject->0),
        0 <= k <= whens.len(),
        forall|i: int| 0 <= i < k ==> !#[trigger] applies(branch(env, 1), subject, whens, row, params, i) && tested(branch(env, 1), subject, whens, row, params, i),
        k < whens.len() ==> tested(branch(env, 1), subject, whens, row, params, k) && applies(branch(env, 1), subject, whens, row, params, k),
    ensures
        k < whens.len() ==> value_of(env, ExprV::Case { operand, whens, else_ }, row, params) == value_of(branch(branch(branch(env, 1), whens.len() - k), 1), whens[k].1, row, params),
        k == whens.len() && else_ is Some ==> value_of(env, ExprV::Case { operand, whens, else_ }, row, params) == value_of(branch(env, 2), *else_->0, row, params),
        k == whens.len() && else_ is None ==> value_of(env, ExprV::Case { operand, whens, else_ }, row, params) == Ok::<ValueV, ErrorV>(ValueV::Null),
{
    lemma_case(branch(env, 1), subject, whens, row, params, k);
}

/// LIKE tells whether a text matches a pattern, NOT LIKE the opposite; with a NULL both are
/// unknown.
pub proof fn like_matches_the_pattern(env: EnvV, x: ExprV, p: ExprV, row: RowV, params: Seq<ValueV>, l: ValueV, r: ValueV, negated: bool)
    requires
        operands(env, x, p, row, params, l, r),
    ensures
        l is Text && r is Text ==> value_of(env, ExprV::Like { expr: Box::new(x), pattern: Box::new(p), negated }, row, params) == Ok::<ValueV, ErrorV>(ValueV::Bool(if negated { !like(r->Text_0, l->Text_0) } else { like(r->Text_0, l->Text_0) })),
        l is Null || r is Null ==> value_of(env, ExprV::Like { expr: Box::new(x), pattern: Box::new(p), negated }, row, params) == Ok::<ValueV, ErrorV>(ValueV::Null),
{
}

/// In a pattern `%` stands for any text, `_` for exactly one character, and any other character
/// for itself.
pub proof fn patterns_match_piece_by_piece(p: Seq<char>, s: Seq<char>, c: char, d: char, any: Seq<char>)
    ensures
        like(Seq::empty(), s) == (s.len() == 0),
        like(p, s) ==> like(seq!['%'] + p, any + s),
        like(seq!['_'] + p, seq![d] + s) == like(p, s),
        !like(seq!['_'] + p, Seq::empty()),
        c != '%' && c != '_' ==> like(seq![c] + p, seq![d] + s) == (c == d && like(p, s)),
        c != '%' && c != '_' ==> !like(seq![c] + p, Seq::empty()),
        like(seq!['%'] + p, s) ==> exists|i: int| 0 <= i <= s.len() && like(p, #[trigger] s.skip(i)),
{
    assert((seq!['%'] + p).drop_first() =~= p);
    assert((seq!['_'] + p).drop_first() =~= p);
    assert((seq![c] + p).drop_first() =~= p);
    assert((seq![d] + s).drop_first() =~= s);
    assert((any + s).skip(any.len() as int) =~= s);
}

// --- conversion ---

/// CAST leaves NULL and a value of its own type alone. A truth value is 1 or 0 as a number; a
/// number is true unless it is zero; an integer is written as its numeral; and the bytes of a text
/// are its UTF-8.
pub proof fn casts_convert(env: EnvV, v: ValueV, n: i64, b: bool, s: Seq<char>, to: ColType, x: u64, y: u64)
    ensures
        cast(env, ValueV::Null, to) == Ok::<ValueV, ErrorV>(ValueV::Null),
        cast(env, ValueV::Integer(n), ColType::Integer) == Ok::<ValueV, ErrorV>(ValueV::Integer(n)),
        cast(env, ValueV::Real(x), ColType::Real) == Ok::<ValueV, ErrorV>(ValueV::Real(x)),
        cast(env, ValueV::Text(s), ColType::Text) == Ok::<ValueV, ErrorV>(ValueV::Text(s)),
        cast(env, ValueV::Bool(b), ColType::Boolean) == Ok::<ValueV, ErrorV>(ValueV::Bool(b)),
        v is Blob ==> cast(env, v, ColType::Blob) == Ok::<ValueV, ErrorV>(v),
        cast(env, ValueV::Bool(b), ColType::Integer) == Ok::<ValueV, ErrorV>(ValueV::Integer(if b { 1 } else { 0 })),
        cast(env, ValueV::Integer(n), ColType::Boolean) == Ok::<ValueV, ErrorV>(ValueV::Bool(n != 0)),
        cast(env, ValueV::Real(x), ColType::Boolean) == Ok::<ValueV, ErrorV>(ValueV::Bool(magnitude(x) != 0)),
        recorded(env, RealOpV::FromInt(n), x) ==> cast(env, ValueV::Integer(n), ColType::Real) == Ok::<ValueV, ErrorV>(ValueV::Real(x)),
        !is_nan(x) && answer(env.reals, RealOpV::ToInt(x)) == Some(RealAnswerV::Int(n)) ==> cast(env, ValueV::Real(x), ColType::Integer) == Ok::<ValueV, ErrorV>(ValueV::Integer(n)),
        cast(env, ValueV::Integer(n), ColType::Text) == Ok::<ValueV, ErrorV>(ValueV::Text(int_text(n as int))),
        answer(env.reals, RealOpV::Show(x)) == Some(RealAnswerV::Text(s)) ==> cast(env, ValueV::Real(x), ColType::Text) == Ok::<ValueV, ErrorV>(ValueV::Text(s)),
        cast(env, ValueV::Text(s), ColType::Blob) == Ok::<ValueV, ErrorV>(ValueV::Blob(encode_utf8(s))),
        cast(env, ValueV::Blob(encode_utf8(s)), ColType::Text) == Ok::<ValueV, ErrorV>(ValueV::Text(s)),
{
    encode_utf8_valid_utf8(s);
    encode_utf8_decode_utf8(s);
}

/// A column stores what is of its type, NULL, and an integer as a real where it is of reals;
/// nothing else fits.
pub proof fn columns_take_their_type(env: EnvV, v: ValueV, t: ColType, x: u64)
    ensures
        coerced(env, ValueV::Null, t) == Ok::<Option<ValueV>, ErrorV>(Some(ValueV::Null)),
        (match (t, v) {
            (ColType::Integer, ValueV::Integer(_)) => coerced(env, v, t) == Ok::<Option<ValueV>, ErrorV>(Some(v)),
            (ColType::Real, ValueV::Real(_)) => coerced(env, v, t) == Ok::<Option<ValueV>, ErrorV>(Some(v)),
            (ColType::Text, ValueV::Text(_)) => coerced(env, v, t) == Ok::<Option<ValueV>, ErrorV>(Some(v)),
            (ColType::Blob, ValueV::Blob(_)) => coerced(env, v, t) == Ok::<Option<ValueV>, ErrorV>(Some(v)),
            (ColType::Boolean, ValueV::Bool(_)) => coerced(env, v, t) == Ok::<Option<ValueV>, ErrorV>(Some(v)),
            (ColType::Real, ValueV::Integer(n)) => recorded(env, RealOpV::FromInt(n), x) ==> coerced(env, v, t) == Ok::<Option<ValueV>, ErrorV>(Some(ValueV::Real(x))),
            (_, ValueV::Null) => true,
            _ => coerced(env, v, t) == Ok::<Option<ValueV>, ErrorV>(None),
        }),
{
}

} // verus!
