//! What the expressions on full-text indexes are for: MATCH, `bm25`, `highlight` and `snippet` on a
//! row.
#[allow(unused_imports)]
use vstd::prelude::*;

#[allow(unused_imports)]
use crate::error::ErrorV;
#[allow(unused_imports)]
use crate::exec::eval::{excerpt_value, indexed_column, local_row, match_value, max_option, text_option};
#[allow(unused_imports)]
use crate::exec::ops::EnvV;
#[allow(unused_imports)]
use crate::exec::schema::{fts_on, SchemaV};
#[allow(unused_imports)]
use crate::fts::excerpt::{highlighted, snipped};
#[allow(unused_imports)]
use crate::fts::query::{parsed_query, QueryV};
#[allow(unused_imports)]
use crate::fts::registry::registered;
#[allow(unused_imports)]
use crate::reals::{answer, RealAnswerV, RealOpV};
#[allow(unused_imports)]
use crate::record::ValueV;
#[allow(unused_imports)]
use crate::sql::ast::ExprV;

verus! {

/// MATCH is true where the query matches the part of the row that is the table's, NOT MATCH where
/// it does not, and both are NULL where the query is; outside a row there is no answer.
pub proof fn matches_are_of_the_row(env: EnvV, table: Option<Seq<char>>, name: Seq<char>, s: SchemaV, values: Seq<ValueV>, t: int, c: int, f: int, q: Seq<char>, hit: bool)
    requires
        indexed_column(s, table, name) == Ok::<(int, int, int), ErrorV>((t, c, f)),
        parsed_query(q) is Ok,
        answer(env.reals, RealOpV::Matches(s.tables[t].def.fts_indexes[f].fts_id, local_row(s, t, values), q)) == Some(RealAnswerV::Flag(hit)),
    ensures
        match_value(env, ExprV::Column { table, name }, Ok(ValueV::Text(q)), false, Some((s, values))) == Ok::<ValueV, ErrorV>(ValueV::Bool(hit)),
        match_value(env, ExprV::Column { table, name }, Ok(ValueV::Text(q)), true, Some((s, values))) == Ok::<ValueV, ErrorV>(ValueV::Bool(!hit)),
        match_value(env, ExprV::Column { table, name }, Ok(ValueV::Null), false, Some((s, values))) == Ok::<ValueV, ErrorV>(ValueV::Null),
        match_value(env, ExprV::Column { table, name }, Ok(ValueV::Null), true, Some((s, values))) == Ok::<ValueV, ErrorV>(ValueV::Null),
        match_value(env, ExprV::Column { table, name }, Ok(ValueV::Text(q)), false, None) is Err,
{
    reveal(match_value);
}

/// The part of a row that is a table's starts where the table does and has its columns.
pub proof fn rows_of_a_table_are_cut_out(s: SchemaV, t: int, row: Seq<ValueV>, c: int)
    requires
        0 <= t < s.tables.len(),
        s.tables[t].offset + s.tables[t].def.columns.len() <= row.len(),
        0 <= c < s.tables[t].def.columns.len(),
    ensures
        local_row(s, t, row).len() == s.tables[t].def.columns.len(),
        local_row(s, t, row)[c] == row[s.tables[t].offset + c],
{
}

/// A text column of the row is highlighted with the marks that are given, or with brackets.
pub proof fn highlights_are_of_the_column(args: Seq<ExprV>, vals: Seq<Result<ValueV, ErrorV>>, table: Option<Seq<char>>, col: Seq<char>, s: SchemaV, values: Seq<ValueV>, t: int, c: int, f: int, text: Seq<char>, q: Seq<char>, query: QueryV, a: Seq<char>, b: Seq<char>)
    requires
        args.len() >= 2,
        vals.len() == args.len(),
        args[0] == (ExprV::Column { table, name: col }),
        indexed_column(s, table, col) == Ok::<(int, int, int), ErrorV>((t, c, f)),
        registered(s.tables[t].def.fts_indexes[f].tokenizer) is Ok,
        values[s.tables[t].offset + c] == ValueV::Text(text),
        vals[1] == Ok::<ValueV, ErrorV>(ValueV::Text(q)),
        parsed_query(q) == Ok::<QueryV, ErrorV>(query),
    ensures
        ({
            let tk = registered(s.tables[t].def.fts_indexes[f].tokenizer)->Ok_0;
            &&& args.len() == 2 ==> excerpt_value("highlight"@, args, vals, Some((s, values))) == Ok::<ValueV, ErrorV>(ValueV::Text(highlighted(text, query, &tk, "["@, "]"@)))
            &&& args.len() == 4 && vals[2] == Ok::<ValueV, ErrorV>(ValueV::Text(a)) && vals[3] == Ok::<ValueV, ErrorV>(ValueV::Text(b)) ==> excerpt_value("highlight"@, args, vals, Some((s, values))) == Ok::<ValueV, ErrorV>(ValueV::Text(highlighted(text, query, &tk, a, b)))
            &&& args.len() == 2 ==> excerpt_value("snippet"@, args, vals, Some((s, values))) == Ok::<ValueV, ErrorV>(ValueV::Text(snipped(text, query, &tk, "["@, "]"@, "…"@, 15)))
        }),
{
    reveal(excerpt_value);
    reveal_strlit("highlight");
    reveal_strlit("snippet");
    assert("highlight"@.len() == 9 && "snippet"@.len() == 7);
}

/// What is left out has its default, and what is given stands for itself.
pub proof fn options_have_defaults(name: Seq<char>, i: int, a: Seq<char>, d: Seq<char>, n: i64)
    ensures
        text_option(name, i, None, d) == Ok::<Seq<char>, ErrorV>(d),
        text_option(name, i, Some(Ok(ValueV::Text(a))), d) == Ok::<Seq<char>, ErrorV>(a),
        text_option(name, i, Some(Ok(ValueV::Integer(n))), d) is Err,
        max_option(None) == Ok::<usize, ErrorV>(15),
        0 < n <= usize::MAX ==> max_option(Some(Ok(ValueV::Integer(n)))) == Ok::<usize, ErrorV>(n as usize),
        n <= 0 ==> max_option(Some(Ok(ValueV::Integer(n)))) is Err,
{
}

/// The index of a column is the first that has it.
pub proof fn indexes_are_of_their_columns(indexes: Seq<crate::catalog::FtsIndexDefV>, c: int, from: int)
    requires
        0 <= from,
        fts_on(indexes, c, from) is Some,
    ensures
        ({
            let f = fts_on(indexes, c, from)->0;
            from <= f < indexes.len() && exists|k: int| 0 <= k < indexes[f].columns.len() && #[trigger] indexes[f].columns[k] == c
        }),
    decreases indexes.len() - from,
{
    let here = exists|k: int| 0 <= k < indexes[from].columns.len() && #[trigger] indexes[from].columns[k] == c;
    if !here {
        indexes_are_of_their_columns(indexes, c, from + 1);
    }
}

} // verus!
