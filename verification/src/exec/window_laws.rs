//! What window functions are for: where they look, and what they give on each row.
#[allow(unused_imports)]
use vstd::prelude::*;

#[allow(unused_imports)]
use crate::error::ErrorV;
#[allow(unused_imports)]
use crate::exec::aggregate::real_sum_from;
#[allow(unused_imports)]
use crate::exec::aggregate_laws::{known_values, recorded};
#[allow(unused_imports)]
use crate::exec::eval::value_of;
#[allow(unused_imports)]
use crate::exec::ops::{branch, value_order, EnvV};
#[allow(unused_imports)]
use crate::exec::row_laws::{grouped_by, groups_hold_equal_keys};
#[allow(unused_imports)]
use crate::exec::rows::{groups_of, rows_equal, sorted_items, sorting_permutes};
#[allow(unused_imports)]
use crate::exec::schema::SchemaV;
#[allow(unused_imports)]
use crate::exec::window::{
    arg_on, best_from, cell, cells, dense_rank_at, descents, filled, frame_of, frame_value, key_records, known_from, nulls,
    numbers_from, rank_at, row_keys, scattered, tile_of, window_values, wrapping_sum,
};
#[allow(unused_imports)]
use crate::reals::{Binary, Order, RealOpV};
#[allow(unused_imports)]
use crate::record::ValueV;
#[allow(unused_imports)]
use crate::sql::ast::{ExprV, FrameBound, OrderByV, WindowFrame, WindowFunc};
#[allow(unused_imports)]
use crate::sql::walk::key_exprs;

verus! {

/// The value of an argument on a row of the window.
pub open spec fn on_row(env: EnvV, e: ExprV, s: SchemaV, rows: Seq<Seq<ValueV>>, params: Seq<ValueV>, k: int, i: int) -> Result<ValueV, ErrorV> {
    value_of(branch(branch(branch(env, 1), k), i), e, Some((s, rows[i])), params)
}

// --- looking back and ahead ---

/// LAG of a value without an offset is NULL on the first row of a partition, and on any other row
/// it is the value on the row before it; LEAD is NULL on the last row, and on any other row it is
/// the value on the row after it. The rows are in the order of the window.
pub proof fn lag_looks_back_and_lead_ahead(
    env: EnvV,
    x: ExprV,
    frame: Option<WindowFrame>,
    keys: Seq<Seq<ValueV>>,
    has_order: bool,
    part: Seq<usize>,
    s: SchemaV,
    rows: Seq<Seq<ValueV>>,
    params: Seq<ValueV>,
    k: int,
)
    requires
        0 <= k < part.len(),
    ensures
        cell(env, WindowFunc::Lag, seq![x], frame, keys, has_order, part, s, rows, params, k) == (if k == 0 {
            Ok(ValueV::Null)
        } else {
            on_row(env, x, s, rows, params, k, part[k - 1] as int)
        }),
        cell(env, WindowFunc::Lead, seq![x], frame, keys, has_order, part, s, rows, params, k) == (if k == part.len() - 1 {
            Ok(ValueV::Null)
        } else {
            on_row(env, x, s, rows, params, k, part[k + 1] as int)
        }),
{
}

/// With an offset `d`, LAG looks `d` rows back and LEAD `d` rows ahead; where no row stands there
/// they give the default on the row itself, or NULL where none is given. So LAG by `d` is LEAD by
/// `-d`.
pub proof fn offsets_count_rows(
    env: EnvV,
    args: Seq<ExprV>,
    frame: Option<WindowFrame>,
    keys: Seq<Seq<ValueV>>,
    has_order: bool,
    part: Seq<usize>,
    s: SchemaV,
    rows: Seq<Seq<ValueV>>,
    params: Seq<ValueV>,
    k: int,
    d: i64,
)
    requires
        0 <= k < part.len(),
        2 <= args.len() <= 3,
        value_of(branch(env, 0), args[1], None, params) == Ok::<ValueV, ErrorV>(ValueV::Integer(d)),
    ensures
        ({
            let fallback = if args.len() == 2 {
                Ok(ValueV::Null)
            } else {
                value_of(branch(branch(env, 2), k), args[2], Some((s, rows[part[k] as int])), params)
            };
            &&& cell(env, WindowFunc::Lag, args, frame, keys, has_order, part, s, rows, params, k) == (if 0 <= k - d < part.len() {
                on_row(env, args[0], s, rows, params, k, part[k - d] as int)
            } else {
                fallback
            })
            &&& cell(env, WindowFunc::Lead, args, frame, keys, has_order, part, s, rows, params, k) == (if 0 <= k + d < part.len() {
                on_row(env, args[0], s, rows, params, k, part[k + d] as int)
            } else {
                fallback
            })
        }),
{
}

// --- numbering ---

/// ROW_NUMBER counts the rows of a partition from one.
pub proof fn row_numbers_count(
    env: EnvV,
    args: Seq<ExprV>,
    frame: Option<WindowFrame>,
    keys: Seq<Seq<ValueV>>,
    has_order: bool,
    part: Seq<usize>,
    s: SchemaV,
    rows: Seq<Seq<ValueV>>,
    params: Seq<ValueV>,
    k: int,
)
    requires
        0 <= k < part.len() <= i64::MAX,
    ensures
        cell(env, WindowFunc::RowNumber, args, frame, keys, has_order, part, s, rows, params, k) == Ok::<ValueV, ErrorV>(ValueV::Integer((k + 1) as i64)),
{
}

/// Rows `a` and `b` have the same sort key.
pub open spec fn peers(keys: Seq<Seq<ValueV>>, part: Seq<usize>, a: int, b: int) -> bool {
    rows_equal(keys[part[a] as int], keys[part[b] as int])
}

/// The first row of the run of peers that ends at row `k`.
proof fn lemma_rank(keys: Seq<Seq<ValueV>>, part: Seq<usize>, k: int)
    requires
        0 <= k < part.len(),
    ensures
        ({
            let j = rank_at(keys, part, true, k) - 1;
            &&& 0 <= j <= k
            &&& j > 0 ==> !peers(keys, part, j - 1, j)
            &&& forall|i: int| j < i <= k ==> #[trigger] peers(keys, part, i - 1, i)
        }),
    decreases k,
{
    if k > 0 && rows_equal(keys[part[k - 1] as int], keys[part[k] as int]) {
        lemma_rank(keys, part, k - 1);
    }
}

/// RANK in a window with an order is the number of the first of the rows that are peers of the
/// row: the row at that number begins the run of equal keys in which the row stands. DENSE_RANK
/// goes up by one wherever the key differs from the one before, and stays where it does not.
/// Both start at one. Without an order every row has a rank of its own.
pub proof fn ranks_follow_peers(
    env: EnvV,
    args: Seq<ExprV>,
    frame: Option<WindowFrame>,
    keys: Seq<Seq<ValueV>>,
    part: Seq<usize>,
    s: SchemaV,
    rows: Seq<Seq<ValueV>>,
    params: Seq<ValueV>,
    k: int,
)
    requires
        0 <= k < part.len() <= i64::MAX,
    ensures
        ({
            let rank = cell(env, WindowFunc::Rank, args, frame, keys, true, part, s, rows, params, k);
            &&& rank is Ok && rank->Ok_0 is Integer
            &&& {
                let j = rank->Ok_0->Integer_0 - 1;
                &&& 0 <= j <= k
                &&& j > 0 ==> !peers(keys, part, j - 1, j)
                &&& forall|i: int| j < i <= k ==> #[trigger] peers(keys, part, i - 1, i)
            }
        }),
        ({
            let dense = cell(env, WindowFunc::DenseRank, args, frame, keys, true, part, s, rows, params, k);
            let before = cell(env, WindowFunc::DenseRank, args, frame, keys, true, part, s, rows, params, k - 1);
            &&& dense is Ok && dense->Ok_0 is Integer
            &&& k == 0 ==> dense->Ok_0->Integer_0 == 1
            &&& k > 0 ==> dense->Ok_0->Integer_0 == before->Ok_0->Integer_0 + (if peers(keys, part, k - 1, k) {
                0int
            } else {
                1
            })
        }),
        cell(env, WindowFunc::Rank, args, frame, keys, false, part, s, rows, params, k) == Ok::<ValueV, ErrorV>(ValueV::Integer((k + 1) as i64)),
        cell(env, WindowFunc::DenseRank, args, frame, keys, false, part, s, rows, params, k) == Ok::<ValueV, ErrorV>(ValueV::Integer((k + 1) as i64)),
{
    lemma_rank(keys, part, k);
    lemma_dense(keys, part, true, k);
    lemma_dense(keys, part, true, k - 1);
    lemma_dense(keys, part, false, k);
}

proof fn lemma_dense(keys: Seq<Seq<ValueV>>, part: Seq<usize>, has_order: bool, k: int)
    ensures
        1 <= dense_rank_at(keys, part, has_order, k) <= (if k < 0 { 1 } else { k + 1 }),
        !has_order && k >= 0 ==> dense_rank_at(keys, part, has_order, k) == k + 1,
    decreases k,
{
    if k > 0 {
        lemma_dense(keys, part, has_order, k - 1);
    }
}

/// NTILE deals `m` rows into `n` tiles in their order: tile `t` has one row more than the others
/// where `t` is among the first `m % n`, and the tiles follow one another without a gap.
#[verifier::spinoff_prover]
pub proof fn tiles_are_even(m: int, n: int, p: int)
    requires
        n >= 1,
        0 <= p < m,
    ensures
        ({
            let t = tile_of(m, n, p);
            let first = |u: int| (u - 1) * (m / n) + (if u - 1 < m % n {
                u - 1
            } else {
                m % n
            });
            &&& 1 <= t <= n
            &&& first(t) <= p < first(t + 1)
        }),
{
    let base = m / n;
    let rem = m % n;
    let big = (base + 1) * rem;
    assert(m == n * base + rem && 0 <= rem < n && base >= 0) by (nonlinear_arith)
        requires
            base == m / n,
            rem == m % n,
            n >= 1,
            m > 0,
    ;
    if p < big {
        let q = p / (base + 1);
        assert((base + 1) * q <= p < (base + 1) * (q + 1) && 0 <= q < rem) by (nonlinear_arith)
            requires
                q == p / (base + 1),
                0 <= p < (base + 1) * rem,
                base >= 0,
                rem >= 0,
        ;
        assert(q * base + q == (base + 1) * q) by (nonlinear_arith);
        assert((q + 1) * base + (q + 1) == (base + 1) * (q + 1)) by (nonlinear_arith);
    } else {
        assert(base >= 1) by (nonlinear_arith)
            requires
                m == n * base + rem,
                p < m,
                p >= (base + 1) * rem,
                base >= 0,
                0 <= rem < n,
        ;
        let q = (p - big) / base;
        assert(base * q <= p - big < base * (q + 1) && 0 <= q && q < n - rem) by (nonlinear_arith)
            requires
                q == (p - big) / base,
                base >= 1,
                p >= big,
                big == (base + 1) * rem,
                m == n * base + rem,
                p < m,
        ;
        assert((rem + q) * base + rem == big + base * q) by (nonlinear_arith)
            requires
                big == (base + 1) * rem,
        ;
        assert((rem + q + 1) * base + rem == big + base * (q + 1)) by (nonlinear_arith)
            requires
                big == (base + 1) * rem,
        ;
    }
}

/// NTILE gives the tile of the row, of as many tiles as its argument says.
pub proof fn ntile_gives_the_tile(
    env: EnvV,
    x: ExprV,
    frame: Option<WindowFrame>,
    keys: Seq<Seq<ValueV>>,
    has_order: bool,
    part: Seq<usize>,
    s: SchemaV,
    rows: Seq<Seq<ValueV>>,
    params: Seq<ValueV>,
    k: int,
    n: i64,
)
    requires
        value_of(branch(env, 0), x, None, params) == Ok::<ValueV, ErrorV>(ValueV::Integer(n)),
    ensures
        n >= 1 ==> cell(env, WindowFunc::Ntile, seq![x], frame, keys, has_order, part, s, rows, params, k) == Ok::<ValueV, ErrorV>(
            ValueV::Integer(tile_of(part.len() as int, n as int, k) as i64),
        ),
        n < 1 ==> cell(env, WindowFunc::Ntile, seq![x], frame, keys, has_order, part, s, rows, params, k) is Err,
{
}

// --- frames ---

/// Row `j` is not before where a frame starts.
pub open spec fn after_start(b: FrameBound, k: int, j: int) -> bool {
    match b {
        FrameBound::UnboundedPreceding => true,
        FrameBound::Preceding(n) => j >= k - n,
        FrameBound::CurrentRow => j >= k,
        FrameBound::Following(n) => j >= k + n,
        FrameBound::UnboundedFollowing => false,
    }
}

/// Row `j` is not after where a frame ends.
pub open spec fn before_end(b: FrameBound, k: int, j: int) -> bool {
    match b {
        FrameBound::UnboundedPreceding => false,
        FrameBound::Preceding(n) => j <= k - n,
        FrameBound::CurrentRow => j <= k,
        FrameBound::Following(n) => j <= k + n,
        FrameBound::UnboundedFollowing => true,
    }
}

/// The frame of row `k` holds exactly the rows of the partition between its bounds. Without a
/// frame these are the rows from the first to the row itself, or all of them where there is no
/// order.
pub proof fn frames_lie_between_their_bounds(f: WindowFrame, k: int, m: int, j: int)
    requires
        0 <= k < m,
        0 <= j < m,
    ensures
        (match frame_of(Some(f), k, m, true) {
            Some((lo, hi)) => 0 <= lo <= hi < m && (lo <= j <= hi <==> after_start(f.start, k, j) && before_end(f.end, k, j)),
            None => !(after_start(f.start, k, j) && before_end(f.end, k, j)),
        }),
        frame_of(Some(f), k, m, false) == frame_of(Some(f), k, m, true),
        frame_of(None, k, m, true) == Some((0int, k)),
        frame_of(None, k, m, false) == Some((0int, m - 1)),
{
}

/// FIRST_VALUE is the value on the first row of the frame and LAST_VALUE that on the last; an
/// empty frame has NULL.
pub proof fn first_and_last_of_the_frame(
    env: EnvV,
    x: ExprV,
    frame: Option<WindowFrame>,
    keys: Seq<Seq<ValueV>>,
    has_order: bool,
    part: Seq<usize>,
    s: SchemaV,
    rows: Seq<Seq<ValueV>>,
    params: Seq<ValueV>,
    k: int,
)
    requires
        0 <= k < part.len(),
    ensures
        (match frame_of(frame, k, part.len() as int, has_order) {
            Some((lo, hi)) => {
                &&& cell(env, WindowFunc::FirstValue, seq![x], frame, keys, has_order, part, s, rows, params, k) == on_row(env, x, s, rows, params, k, part[lo] as int)
                &&& cell(env, WindowFunc::LastValue, seq![x], frame, keys, has_order, part, s, rows, params, k) == on_row(env, x, s, rows, params, k, part[hi] as int)
            },
            None => {
                &&& cell(env, WindowFunc::FirstValue, seq![x], frame, keys, has_order, part, s, rows, params, k) == Ok::<ValueV, ErrorV>(ValueV::Null)
                &&& cell(env, WindowFunc::LastValue, seq![x], frame, keys, has_order, part, s, rows, params, k) == Ok::<ValueV, ErrorV>(ValueV::Null)
            },
        }),
        frame is None ==> cell(env, WindowFunc::FirstValue, seq![x], frame, keys, has_order, part, s, rows, params, k) == on_row(env, x, s, rows, params, k, part[0] as int),
        frame is None ==> cell(env, WindowFunc::LastValue, seq![x], frame, keys, has_order, part, s, rows, params, k) == on_row(
            env,
            x,
            s,
            rows,
            params,
            k,
            part[if has_order {
                k
            } else {
                part.len() - 1
            }] as int,
        ),
{
}

// --- aggregates over frames ---

/// The values of an argument on the rows of a frame.
pub open spec fn frame_vals(env: EnvV, x: ExprV, s: SchemaV, rows: Seq<Seq<ValueV>>, params: Seq<ValueV>, frame: Seq<usize>, vals: Seq<ValueV>) -> bool {
    vals.len() == frame.len() && forall|j: int|
        0 <= j < frame.len() ==> value_of(branch(env, frame[j] as int), x, Some((s, rows[frame[j] as int])), params) == Ok::<ValueV, ErrorV>(#[trigger] vals[j])
}

/// How many of the values from `j` on are not NULL, as their number.
proof fn lemma_known(env: EnvV, x: ExprV, s: SchemaV, rows: Seq<Seq<ValueV>>, params: Seq<ValueV>, frame: Seq<usize>, vals: Seq<ValueV>, j: int)
    requires
        frame_vals(env, x, s, rows, params, frame, vals),
        0 <= j <= frame.len(),
    ensures
        known_from(env, seq![x], s, rows, params, frame, j) == Ok::<nat, ErrorV>(known_values(vals.skip(j)).len()),
        (forall|i: int| 0 <= i < vals.len() ==> (#[trigger] vals[i]) is Null || vals[i] is Integer || vals[i] is Real)
            ==> numbers_from(env, seq![x], s, rows, params, frame, j) == Ok::<Seq<ValueV>, ErrorV>(known_values(vals.skip(j))),
    decreases frame.len() - j,
{
    if j == frame.len() {
        reveal(Seq::filter);
        assert(vals.skip(j) =~= Seq::<ValueV>::empty());
        assert(known_values(vals.skip(j)) =~= Seq::<ValueV>::empty());
    } else {
        lemma_known(env, x, s, rows, params, frame, vals, j + 1);
        assert(value_of(branch(env, frame[j] as int), x, Some((s, rows[frame[j] as int])), params) == Ok::<ValueV, ErrorV>(vals[j]));
        assert(vals.skip(j) =~= seq![vals[j]] + vals.skip(j + 1));
        crate::exec::aggregate_laws::lemma_known_first(vals[j], vals.skip(j + 1));
    }
}

/// `COUNT(x)` over a frame counts the rows on which `x` is not NULL, `COUNT(*)` all of them.
pub proof fn frames_are_counted(env: EnvV, x: ExprV, s: SchemaV, rows: Seq<Seq<ValueV>>, params: Seq<ValueV>, frame: Seq<usize>, vals: Seq<ValueV>)
    requires
        frame_vals(env, x, s, rows, params, frame, vals),
    ensures
        frame_value(env, WindowFunc::Count, seq![x], frame, s, rows, params) == Ok::<ValueV, ErrorV>(ValueV::Integer(vals.filter(|v: ValueV| !(v is Null)).len() as i64)),
        frame_value(env, WindowFunc::Count, Seq::empty(), frame, s, rows, params) == Ok::<ValueV, ErrorV>(ValueV::Integer(frame.len() as i64)),
{
    lemma_known(env, x, s, rows, params, frame, vals, 0);
    assert(vals.skip(0) =~= vals);
}

/// The sum of integers.
pub open spec fn total(vs: Seq<ValueV>) -> int
    decreases vs.len(),
{
    if vs.len() == 0 {
        0
    } else {
        total(vs.drop_last()) + vs.last()->Integer_0
    }
}

/// Every prefix sums to an integer of the range.
pub open spec fn totals_fit(vs: Seq<ValueV>) -> bool {
    forall|i: int| 0 <= i <= vs.len() ==> i64::MIN <= #[trigger] total(vs.take(i)) <= i64::MAX
}

proof fn lemma_wrapping(vs: Seq<ValueV>, i: int)
    requires
        0 <= i <= vs.len(),
        totals_fit(vs),
        forall|k: int| 0 <= k < vs.len() ==> #[trigger] vs[k] is Integer,
    ensures
        wrapping_sum(vs, i, total(vs.take(i)) as i64) == total(vs),
    decreases vs.len() - i,
{
    if i < vs.len() {
        assert(vs.take(i + 1).drop_last() =~= vs.take(i));
        assert(i64::MIN <= total(vs.take(i)) <= i64::MAX);
        assert(i64::MIN <= total(vs.take(i + 1)) <= i64::MAX);
        assert(total(vs.take(i + 1)) == total(vs.take(i)) + vs[i]->Integer_0);
        lemma_wrapping(vs, i + 1);
    } else {
        assert(vs.take(i) =~= vs);
    }
}

/// SUM over a frame is the sum of the values that are not NULL: an integer where they are
/// integers (here where no partial sum leaves the range), else the left fold of addition from
/// zero; and AVG divides that fold by how many they are. Without any both are NULL.
pub proof fn frames_are_summed(
    env: EnvV,
    x: ExprV,
    s: SchemaV,
    rows: Seq<Seq<ValueV>>,
    params: Seq<ValueV>,
    frame: Seq<usize>,
    vals: Seq<ValueV>,
    sum: u64,
    n: u64,
    q: u64,
)
    requires
        frame_vals(env, x, s, rows, params, frame, vals),
        forall|i: int| 0 <= i < vals.len() ==> (#[trigger] vals[i]) is Null || vals[i] is Integer || vals[i] is Real,
        known_values(vals).len() <= i64::MAX,
    ensures
        ({
            let known = known_values(vals);
            let sums = frame_value(env, WindowFunc::Sum, seq![x], frame, s, rows, params);
            let means = frame_value(env, WindowFunc::Avg, seq![x], frame, s, rows, params);
            let whole = forall|i: int| 0 <= i < known.len() ==> #[trigger] known[i] is Integer;
            &&& known.len() == 0 ==> sums == Ok::<ValueV, ErrorV>(ValueV::Null) && means == Ok::<ValueV, ErrorV>(ValueV::Null)
            &&& known.len() > 0 && whole && totals_fit(known) ==> sums == Ok::<ValueV, ErrorV>(ValueV::Integer(total(known) as i64))
            &&& known.len() > 0 && !whole && real_sum_from(env, known, 0, 0) == Ok::<u64, ErrorV>(sum) ==> sums == Ok::<ValueV, ErrorV>(ValueV::Real(sum))
            &&& known.len() > 0 && real_sum_from(env, known, 0, 0) == Ok::<u64, ErrorV>(sum) && recorded(env, RealOpV::FromInt(known.len() as i64), n) && recorded(env, RealOpV::Binary(Binary::Div, sum, n), q)
                ==> means == Ok::<ValueV, ErrorV>(ValueV::Real(q))
        }),
{
    lemma_known(env, x, s, rows, params, frame, vals, 0);
    assert(vals.skip(0) =~= vals);
    let known = known_values(vals);
    if totals_fit(known) && (forall|i: int| 0 <= i < known.len() ==> #[trigger] known[i] is Integer) {
        assert(known.take(0) =~= Seq::<ValueV>::empty());
        lemma_wrapping(known, 0);
    }
}

/// The real fold that SUM and AVG make takes the values from the first to the last, each added to
/// the total before it.
pub proof fn real_totals_step(env: EnvV, vs: Seq<ValueV>, reals: Seq<u64>, totals: Seq<u64>)
    requires
        reals.len() == vs.len(),
        totals.len() == vs.len() + 1,
        totals[0] == 0,
        forall|k: int| 0 <= k < vs.len() ==> crate::exec::aggregate_laws::stands_for(env, #[trigger] vs[k], reals[k]) && recorded(env, RealOpV::Binary(Binary::Add, totals[k], reals[k]), totals[k + 1]),
    ensures
        real_sum_from(env, vs, 0, 0) == Ok::<u64, ErrorV>(totals.last()),
{
    assert forall|k: int| 0 <= k < vs.len() implies crate::exec::aggregate_laws::stands_for(env, #[trigger] vs[k], reals[k]) && recorded(env, RealOpV::Binary(Binary::Add, totals[k], reals[k]), totals[k + 1]) by {
        let v = vs[k];
        assert(crate::exec::aggregate_laws::stands_for(env, v, reals[k]));
    }
    crate::exec::aggregate_laws::lemma_real_sum(env, vs, reals, totals, 0);
}

proof fn lemma_best_push(env: EnvV, max: bool, x: ExprV, s: SchemaV, rows: Seq<Seq<ValueV>>, params: Seq<ValueV>, frame: Seq<usize>, r: usize, j: int, best: Option<ValueV>)
    requires
        0 <= j <= frame.len(),
        best is Some ==> !(best->0 is Null),
    ensures
        best_from(env, max, seq![x], s, rows, params, frame.push(r), j, best) == (match best_from(env, max, seq![x], s, rows, params, frame, j, best) {
            Err(e) => Err(e),
            Ok(ValueV::Null) => best_from(env, max, seq![x], s, rows, params, seq![r], 0, None),
            Ok(b) => best_from(env, max, seq![x], s, rows, params, seq![r], 0, Some(b)),
        }),
    decreases frame.len() - j,
{
    reveal_with_fuel(best_from, 3);
    if j < frame.len() {
        assert(frame.push(r)[j] == frame[j]);
        if let Ok(v) = arg_on(env, seq![x], s, rows, params, frame[j] as int) {
            if v is Null {
                lemma_best_push(env, max, x, s, rows, params, frame, r, j + 1, best);
            } else {
                match best {
                    None => {
                        lemma_best_push(env, max, x, s, rows, params, frame, r, j + 1, Some(v));
                    },
                    Some(b) => {
                        if let Ok(o) = value_order(env, v, b) {
                            let next = if o == Some(if max { Order::Greater } else { Order::Less }) { Some(v) } else { Some(b) };
                            lemma_best_push(env, max, x, s, rows, params, frame, r, j + 1, next);
                        }
                    },
                }
            }
        }
    } else {
        assert(frame.push(r)[j] == r);
    }
}

/// MIN over a frame takes the value of another row where it is less than the least so far, MAX
/// where it is greater than the greatest; NULLs do not count, and an empty frame has NULL.
pub proof fn frame_extremes_follow_the_order(env: EnvV, x: ExprV, s: SchemaV, rows: Seq<Seq<ValueV>>, params: Seq<ValueV>, frame: Seq<usize>, r: usize, v: ValueV, m: ValueV)
    requires
        value_of(branch(env, r as int), x, Some((s, rows[r as int])), params) == Ok::<ValueV, ErrorV>(v),
    ensures
        frame_value(env, WindowFunc::Min, seq![x], Seq::empty(), s, rows, params) == Ok::<ValueV, ErrorV>(ValueV::Null),
        frame_value(env, WindowFunc::Max, seq![x], Seq::empty(), s, rows, params) == Ok::<ValueV, ErrorV>(ValueV::Null),
        frame_value(env, WindowFunc::Min, seq![x], frame, s, rows, params) == Ok::<ValueV, ErrorV>(m) ==> frame_value(env, WindowFunc::Min, seq![x], frame.push(r), s, rows, params) == (if v is Null {
            Ok(m)
        } else if m is Null {
            Ok(v)
        } else {
            match value_order(env, v, m) {
                Ok(Some(Order::Less)) => Ok(v),
                Ok(_) => Ok(m),
                Err(e) => Err(e),
            }
        }),
        frame_value(env, WindowFunc::Max, seq![x], frame, s, rows, params) == Ok::<ValueV, ErrorV>(m) ==> frame_value(env, WindowFunc::Max, seq![x], frame.push(r), s, rows, params) == (if v is Null {
            Ok(m)
        } else if m is Null {
            Ok(v)
        } else {
            match value_order(env, v, m) {
                Ok(Some(Order::Greater)) => Ok(v),
                Ok(_) => Ok(m),
                Err(e) => Err(e),
            }
        }),
{
    reveal_with_fuel(best_from, 3);
    lemma_best_push(env, false, x, s, rows, params, frame, r, 0, None);
    lemma_best_push(env, true, x, s, rows, params, frame, r, 0, None);
}

/// An aggregate as a window function is taken over the frame of each row: the rows from its
/// first to its last, in the order of the window.
pub proof fn running_aggregates_see_their_frame(
    env: EnvV,
    func: WindowFunc,
    args: Seq<ExprV>,
    frame: Option<WindowFrame>,
    keys: Seq<Seq<ValueV>>,
    has_order: bool,
    part: Seq<usize>,
    s: SchemaV,
    rows: Seq<Seq<ValueV>>,
    params: Seq<ValueV>,
    k: int,
)
    requires
        0 <= k < part.len(),
        func == WindowFunc::Sum || func == WindowFunc::Avg || func == WindowFunc::Count || func == WindowFunc::Min || func == WindowFunc::Max,
    ensures
        cell(env, func, args, frame, keys, has_order, part, s, rows, params, k) == frame_value(
            branch(branch(env, 1), k),
            func,
            args,
            match frame_of(frame, k, part.len() as int, has_order) {
                Some((lo, hi)) => Seq::new((hi - lo + 1) as nat, |i: int| part[lo + i]),
                None => Seq::empty(),
            },
            s,
            rows,
            params,
        ),
        frame is None && has_order ==> cell(env, func, args, frame, keys, has_order, part, s, rows, params, k) == frame_value(branch(branch(env, 1), k), func, args, part.take(k + 1), s, rows, params),
        frame is None && !has_order ==> cell(env, func, args, frame, keys, has_order, part, s, rows, params, k) == frame_value(branch(branch(env, 1), k), func, args, part, s, rows, params),
{
    if let Some((lo, hi)) = frame_of(frame, k, part.len() as int, has_order) {
        assert(part.subrange(lo, hi + 1) =~= Seq::new((hi - lo + 1) as nat, |i: int| part[lo + i]));
    }
    assert(part.subrange(0, k + 1) =~= part.take(k + 1));
    assert(part.subrange(0, part.len() as int) =~= part);
}

// --- from partitions to rows ---

proof fn lemma_cells(env: EnvV, func: WindowFunc, args: Seq<ExprV>, frame: Option<WindowFrame>, keys: Seq<Seq<ValueV>>, has_order: bool, part: Seq<usize>, s: SchemaV, rows: Seq<Seq<ValueV>>, params: Seq<ValueV>, k: int)
    requires
        0 <= k <= part.len(),
        cells(env, func, args, frame, keys, has_order, part, s, rows, params, k) is Ok,
    ensures
        ({
            let vs = cells(env, func, args, frame, keys, has_order, part, s, rows, params, k)->Ok_0;
            &&& vs.len() == part.len() - k
            &&& forall|j: int| k <= j < part.len() ==> #[trigger] cell(env, func, args, frame, keys, has_order, part, s, rows, params, j) == Ok::<ValueV, ErrorV>(vs[j - k])
        }),
    decreases part.len() - k,
{
    if k < part.len() {
        lemma_cells(env, func, args, frame, keys, has_order, part, s, rows, params, k + 1);
    }
}

proof fn lemma_scattered(result: Seq<ValueV>, part: Seq<usize>, vals: Seq<ValueV>, k: int)
    requires
        0 <= k <= part.len(),
        vals.len() == part.len(),
        forall|j: int| 0 <= j < part.len() ==> #[trigger] part[j] < result.len(),
        part.no_duplicates(),
    ensures
        ({
            let out = scattered(result, part, vals, k);
            &&& out.len() == result.len()
            &&& forall|j: int| k <= j < part.len() ==> out[#[trigger] part[j] as int] == vals[j]
            &&& forall|p: int| 0 <= p < result.len() && (forall|j: int| k <= j < part.len() ==> #[trigger] part[j] != p) ==> #[trigger] out[p] == result[p]
        }),
    decreases part.len() - k,
{
    if k < part.len() {
        let next = result.update(part[k] as int, vals[k]);
        lemma_scattered(next, part, vals, k + 1);
        let out = scattered(result, part, vals, k);
        assert forall|j: int| k <= j < part.len() implies out[#[trigger] part[j] as int] == vals[j] by {
            if j == k {
                assert forall|i: int| k + 1 <= i < part.len() implies #[trigger] part[i] != part[k] by {}
                assert(next[part[k] as int] == vals[k]);
            }
        }
        assert forall|p: int| 0 <= p < result.len() && (forall|j: int| k <= j < part.len() ==> #[trigger] part[j] != p) implies #[trigger] out[p] == result[p] by {
            assert(part[k] != p);
            assert(next[p] == result[p]);
        }
    }
}

/// The rows of a partition in the order of the window.
pub open spec fn ordered(env: EnvV, keys: Seq<Seq<ValueV>>, descs: Seq<bool>, group: Seq<usize>) -> Seq<usize> {
    if descs.len() > 0 {
        sorted_items(env, keys, descs, group)->Ok_0
    } else {
        group
    }
}

/// No position stands in two groups, or twice in one, and all are below `n`.
spec fn apart(groups: Seq<Seq<usize>>, n: int) -> bool {
    &&& forall|g: int| 0 <= g < groups.len() ==> (#[trigger] groups[g]).no_duplicates()
    &&& forall|g: int, a: int| 0 <= g < groups.len() && 0 <= a < groups[g].len() ==> #[trigger] groups[g][a] < n
    &&& forall|g: int, h: int, p: usize| 0 <= g < h < groups.len() && #[trigger] groups[g].contains(p) ==> !#[trigger] groups[h].contains(p)
}

proof fn lemma_apart(keys: Seq<Seq<u8>>, groups: Seq<Seq<usize>>, n: int)
    requires
        grouped_by(keys, groups, n),
    ensures
        apart(groups, n),
{
    assert forall|g: int, h: int, p: usize| 0 <= g < h < groups.len() && #[trigger] groups[g].contains(p) implies !#[trigger] groups[h].contains(p) by {
        if groups[h].contains(p) {
            let a = choose|a: int| 0 <= a < groups[g].len() && groups[g][a] == p;
            let b = choose|b: int| 0 <= b < groups[h].len() && groups[h][b] == p;
            assert(keys[groups[g][a] as int] == keys[groups[g][0] as int]);
            assert(keys[groups[h][b] as int] == keys[groups[h][0] as int]);
        }
    }
}

proof fn lemma_ordered(env: EnvV, keys: Seq<Seq<ValueV>>, descs: Seq<bool>, group: Seq<usize>)
    requires
        descs.len() > 0 ==> sorted_items(env, keys, descs, group) is Ok,
        group.no_duplicates(),
    ensures
        ordered(env, keys, descs, group).no_duplicates(),
        forall|p: usize| #[trigger] ordered(env, keys, descs, group).contains(p) <==> group.contains(p),
{
    let out = ordered(env, keys, descs, group);
    if descs.len() > 0 {
        sorting_permutes(env, keys, descs, group);
        broadcast use vstd::seq_lib::group_to_multiset_ensures;
        group.lemma_multiset_has_no_duplicates();
        out.lemma_multiset_has_no_duplicates_conv();
        assert forall|p: usize| #[trigger] out.contains(p) <==> group.contains(p) by {
            assert(out.contains(p) <==> out.to_multiset().count(p) > 0);
            assert(group.contains(p) <==> group.to_multiset().count(p) > 0);
        }
    }
}

#[verifier::spinoff_prover]
proof fn lemma_filled(env: EnvV, func: WindowFunc, args: Seq<ExprV>, frame: Option<WindowFrame>, keys: Seq<Seq<ValueV>>, descs: Seq<bool>, groups: Seq<Seq<usize>>, s: SchemaV, rows: Seq<Seq<ValueV>>, params: Seq<ValueV>, g: int, result: Seq<ValueV>)
    requires
        0 <= g <= groups.len(),
        apart(groups, result.len() as int),
        filled(env, func, args, frame, keys, descs, groups, s, rows, params, g, result) is Ok,
    ensures
        ({
            let out = filled(env, func, args, frame, keys, descs, groups, s, rows, params, g, result)->Ok_0;
            &&& out.len() == result.len()
            &&& forall|h: int, k: int| g <= h < groups.len() && 0 <= k < ordered(env, keys, descs, groups[h]).len() ==> cell(branch(branch(env, 2), h), func, args, frame, keys, descs.len() > 0, ordered(env, keys, descs, groups[h]), s, rows, params, k) == Ok::<ValueV, ErrorV>(out[#[trigger] ordered(env, keys, descs, groups[h])[k] as int])
            &&& forall|h: int| g <= h < groups.len() && descs.len() > 0 ==> sorted_items(env, keys, descs, #[trigger] groups[h]) is Ok
            &&& forall|p: usize| p < result.len() && (forall|h: int| g <= h < groups.len() ==> !#[trigger] groups[h].contains(p)) ==> #[trigger] out[p as int] == result[p as int]
        }),
    decreases groups.len() - g,
{
    if g < groups.len() {
        let part = ordered(env, keys, descs, groups[g]);
        let here = branch(branch(env, 2), g);
        let vals = cells(here, func, args, frame, keys, descs.len() > 0, part, s, rows, params, 0)->Ok_0;
        lemma_ordered(env, keys, descs, groups[g]);
        lemma_cells(here, func, args, frame, keys, descs.len() > 0, part, s, rows, params, 0);
        assert forall|j: int| 0 <= j < part.len() implies #[trigger] part[j] < result.len() by {
            assert(part.contains(part[j]));
            assert(groups[g].contains(part[j]));
            let a = choose|a: int| 0 <= a < groups[g].len() && groups[g][a] == part[j];
            assert(groups[g][a] < result.len());
        }
        lemma_scattered(result, part, vals, 0);
        let next = scattered(result, part, vals, 0);
        lemma_filled(env, func, args, frame, keys, descs, groups, s, rows, params, g + 1, next);
        let out = filled(env, func, args, frame, keys, descs, groups, s, rows, params, g, result)->Ok_0;
        assert forall|h: int, k: int| g <= h < groups.len() && 0 <= k < ordered(env, keys, descs, groups[h]).len() implies cell(branch(branch(env, 2), h), func, args, frame, keys, descs.len() > 0, ordered(env, keys, descs, groups[h]), s, rows, params, k) == Ok::<ValueV, ErrorV>(out[#[trigger] ordered(env, keys, descs, groups[h])[k] as int]) by {
            if h == g {
                let p = part[k];
                assert(part.contains(p));
                assert(groups[g].contains(p));
                assert forall|i: int| g + 1 <= i < groups.len() implies !#[trigger] groups[i].contains(p) by {}
                assert(next[p as int] == vals[k]);
                assert(out[p as int] == next[p as int]);
            }
        }
        assert forall|p: usize| p < result.len() && (forall|h: int| g <= h < groups.len() ==> !#[trigger] groups[h].contains(p)) implies #[trigger] out[p as int] == result[p as int] by {
            assert(!groups[g].contains(p));
            assert forall|j: int| 0 <= j < part.len() implies #[trigger] part[j] != p by {
                assert(part.contains(part[j]));
            }
            assert(next[p as int] == result[p as int]);
        }
    }
}

/// A window function divides the rows into partitions of equal keys, puts each into the order of
/// the window, and gives every row the value of its place in its own partition.
pub proof fn windows_give_each_row_its_cell(
    env: EnvV,
    func: WindowFunc,
    args: Seq<ExprV>,
    partition_by: Seq<ExprV>,
    order_by: Seq<OrderByV>,
    frame: Option<WindowFrame>,
    s: SchemaV,
    rows: Seq<Seq<ValueV>>,
    params: Seq<ValueV>,
    pk: Seq<Seq<ValueV>>,
    keys: Seq<Seq<ValueV>>,
    vals: Seq<ValueV>,
)
    requires
        rows.len() <= usize::MAX,
        row_keys(branch(env, 0), partition_by, s, rows, params, 0) == Ok::<Seq<Seq<ValueV>>, ErrorV>(pk),
        row_keys(branch(env, 1), key_exprs(order_by), s, rows, params, 0) == Ok::<Seq<Seq<ValueV>>, ErrorV>(keys),
        window_values(env, ExprV::Window { func, args, partition_by, order_by, frame }, s, rows, params) == Ok::<Seq<ValueV>, ErrorV>(vals),
    ensures
        vals.len() == rows.len(),
        ({
            let groups = groups_of(key_records(pk), rows.len());
            let descs = descents(order_by);
            &&& grouped_by(key_records(pk), groups, rows.len() as int)
            &&& forall|g: int, k: int| 0 <= g < groups.len() && 0 <= k < ordered(env, keys, descs, groups[g]).len() ==> cell(branch(branch(env, 2), g), func, args, frame, keys, order_by.len() > 0, ordered(env, keys, descs, groups[g]), s, rows, params, k) == Ok::<ValueV, ErrorV>(vals[#[trigger] ordered(env, keys, descs, groups[g])[k] as int])
            &&& forall|g: int| 0 <= g < groups.len() && order_by.len() > 0 ==> sorted_items(env, keys, descs, #[trigger] groups[g]) is Ok
        }),
{
    let groups = groups_of(key_records(pk), rows.len());
    groups_hold_equal_keys(key_records(pk), rows.len());
    lemma_apart(key_records(pk), groups, rows.len() as int);
    lemma_filled(env, func, args, frame, keys, descents(order_by), groups, s, rows, params, 0, nulls(rows.len()));
}

/// The key of every row is made of the values of its expressions on that very row.
pub proof fn keys_are_of_their_rows(env: EnvV, es: Seq<ExprV>, s: SchemaV, rows: Seq<Seq<ValueV>>, params: Seq<ValueV>, from: int)
    requires
        0 <= from <= rows.len(),
        row_keys(env, es, s, rows, params, from) is Ok,
    ensures
        row_keys(env, es, s, rows, params, from)->Ok_0.len() == rows.len() - from,
        forall|i: int| from <= i < rows.len() ==> #[trigger] crate::exec::eval::values_of(branch(env, i), es, Some((s, rows[i])), params) == Ok::<Seq<ValueV>, ErrorV>(row_keys(env, es, s, rows, params, from)->Ok_0[i - from]),
    decreases rows.len() - from,
{
    if from < rows.len() {
        keys_are_of_their_rows(env, es, s, rows, params, from + 1);
    }
}

/// An order by some keys has as many directions as keys, each that of its key.
pub proof fn directions_are_of_their_keys(order_by: Seq<OrderByV>)
    ensures
        descents(order_by).len() == order_by.len(),
        key_exprs(order_by).len() == order_by.len(),
        forall|i: int| 0 <= i < order_by.len() ==> #[trigger] descents(order_by)[i] == order_by[i].desc,
        forall|i: int| 0 <= i < order_by.len() ==> #[trigger] key_exprs(order_by)[i] == order_by[i].expr,
{
}

} // verus!
