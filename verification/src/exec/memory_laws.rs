//! What the store in memory is for: which rows its lookups find.
#[allow(unused_imports)]
use vstd::prelude::*;

#[allow(unused_imports)]
use crate::bytes::lex_lt;
#[allow(unused_imports)]
use crate::exec::memory::{ids_equal, ids_within, keys_equal, row_with, row_within};
#[allow(unused_imports)]
use crate::exec::row_laws::{keeps, keeps_from, lemma_keeps_step};
#[allow(unused_imports)]
use crate::keyenc::index_key;
#[allow(unused_imports)]
use crate::record::ValueV;

verus! {

proof fn lemma_keys_equal(row: Seq<ValueV>, columns: Seq<usize>, values: Seq<ValueV>, from: int)
    requires
        0 <= from <= columns.len() == values.len(),
    ensures
        keys_equal(row, columns, values, from) <==> forall|k: int| from <= k < columns.len() ==> (#[trigger] columns[k]) < row.len() && index_key(row[columns[k] as int]) == index_key(values[k]),
    decreases columns.len() - from,
{
    if from < columns.len() {
        lemma_keys_equal(row, columns, values, from + 1);
        if keys_equal(row, columns, values, from) {
            assert forall|k: int| from <= k < columns.len() implies (#[trigger] columns[k]) < row.len() && index_key(row[columns[k] as int]) == index_key(values[k]) by {
                if k > from {
                    assert(from + 1 <= k);
                }
            }
        }
    }
}

/// Every indexed column of the row has the key of the value that is looked for.
pub open spec fn has_keys(row: Seq<ValueV>, columns: Seq<usize>, values: Seq<ValueV>) -> bool {
    forall|k: int| 0 <= k < columns.len() ==> (#[trigger] columns[k]) < row.len() && index_key(row[columns[k] as int]) == index_key(values[k])
}

proof fn lemma_ids_equal(rows: Seq<(i64, Seq<ValueV>)>, columns: Seq<usize>, values: Seq<ValueV>, from: int) -> (at: Seq<int>)
    requires
        0 <= from <= rows.len(),
        columns.len() == values.len(),
    ensures
        keeps_from(at, from, rows.len() as int, |i: int| has_keys(rows[i].1, columns, values)),
        ids_equal(rows, columns, values, from) == Seq::new(at.len(), |t: int| rows[at[t]].0),
    decreases rows.len() - from,
{
    let keep = |i: int| has_keys(rows[i].1, columns, values);
    if from == rows.len() {
        let at = Seq::<int>::empty();
        assert(ids_equal(rows, columns, values, from) =~= Seq::new(at.len(), |t: int| rows[at[t]].0));
        at
    } else {
        let rest = lemma_ids_equal(rows, columns, values, from + 1);
        lemma_keys_equal(rows[from].1, columns, values, 0);
        let at = lemma_keeps_step(rest, from, rows.len() as int, keep);
        assert(ids_equal(rows, columns, values, from) =~= Seq::new(at.len(), |t: int| rows[at[t]].0));
        at
    }
}

/// A lookup finds the identifiers of exactly the rows all of whose indexed columns have the keys of
/// the values, in the order of the rows.
pub proof fn lookups_find_equal_keys(rows: Seq<(i64, Seq<ValueV>)>, columns: Seq<usize>, values: Seq<ValueV>) -> (at: Seq<int>)
    requires
        columns.len() == values.len(),
    ensures
        keeps(at, rows.len() as int, |i: int| has_keys(rows[i].1, columns, values)),
        ids_equal(rows, columns, values, 0).len() == at.len(),
        forall|t: int| 0 <= t < at.len() ==> #[trigger] ids_equal(rows, columns, values, 0)[t] == rows[at[t]].0,
{
    lemma_ids_equal(rows, columns, values, 0)
}

/// The first indexed column of the row lies above `lo` and below `hi`, or at an end that counts.
pub open spec fn between(row: Seq<ValueV>, columns: Seq<usize>, lo: Option<(ValueV, bool)>, hi: Option<(ValueV, bool)>) -> bool {
    let key = index_key(row[columns[0] as int]);
    &&& columns[0] < row.len()
    &&& match lo {
        Some((v, true)) => index_key(v) == key || lex_lt(index_key(v), key),
        Some((v, false)) => lex_lt(index_key(v), key),
        None => true,
    }
    &&& match hi {
        Some((v, true)) => index_key(v) == key || lex_lt(key, index_key(v)),
        Some((v, false)) => lex_lt(key, index_key(v)),
        None => true,
    }
}

proof fn lemma_ids_within(rows: Seq<(i64, Seq<ValueV>)>, columns: Seq<usize>, lo: Option<(ValueV, bool)>, hi: Option<(ValueV, bool)>, from: int) -> (at: Seq<int>)
    requires
        0 <= from <= rows.len(),
        columns.len() > 0,
    ensures
        keeps_from(at, from, rows.len() as int, |i: int| between(rows[i].1, columns, lo, hi)),
        ids_within(rows, columns, lo, hi, from) == Seq::new(at.len(), |t: int| rows[at[t]].0),
    decreases rows.len() - from,
{
    let keep = |i: int| between(rows[i].1, columns, lo, hi);
    if from == rows.len() {
        let at = Seq::<int>::empty();
        assert(ids_within(rows, columns, lo, hi, from) =~= Seq::new(at.len(), |t: int| rows[at[t]].0));
        at
    } else {
        let rest = lemma_ids_within(rows, columns, lo, hi, from + 1);
        assert(row_within(rows[from].1, columns, lo, hi) == between(rows[from].1, columns, lo, hi));
        let at = lemma_keeps_step(rest, from, rows.len() as int, keep);
        assert(ids_within(rows, columns, lo, hi, from) =~= Seq::new(at.len(), |t: int| rows[at[t]].0));
        at
    }
}

/// A range finds the identifiers of exactly the rows whose first indexed column lies in it, in the
/// order of the rows.
pub proof fn ranges_find_what_lies_between(rows: Seq<(i64, Seq<ValueV>)>, columns: Seq<usize>, lo: Option<(ValueV, bool)>, hi: Option<(ValueV, bool)>) -> (at: Seq<int>)
    requires
        columns.len() > 0,
    ensures
        keeps(at, rows.len() as int, |i: int| between(rows[i].1, columns, lo, hi)),
        ids_within(rows, columns, lo, hi, 0).len() == at.len(),
        forall|t: int| 0 <= t < at.len() ==> #[trigger] ids_within(rows, columns, lo, hi, 0)[t] == rows[at[t]].0,
{
    lemma_ids_within(rows, columns, lo, hi, 0)
}

/// A row is found by its identifier: the first that has it.
pub proof fn rows_are_found_by_identifier(rows: Seq<(i64, Seq<ValueV>)>, id: i64, from: int, i: int)
    requires
        0 <= from <= i < rows.len(),
        rows[i].0 == id,
        forall|k: int| from <= k < i ==> (#[trigger] rows[k]).0 != id,
    ensures
        row_with(rows, id, from) == Some(rows[i].1),
    decreases i - from,
{
    if from < i {
        rows_are_found_by_identifier(rows, id, from + 1, i);
    }
}

} // verus!
