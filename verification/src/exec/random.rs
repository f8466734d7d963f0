//! The generator behind `random()`: a 64-bit xorshift. Each draw takes the next number.
use vstd::prelude::*;

use crate::reals::{RealAnswer, RealOp, RealTable};
#[allow(unused_imports)]
use crate::error::ErrorV;
#[allow(unused_imports)]
use crate::exec::eval::{value_of, values_of};
#[allow(unused_imports)]
use crate::exec::functions::{call, func_named, Func};
#[allow(unused_imports)]
use crate::exec::ops::{branch, drawn, places_differ, EnvV};
#[allow(unused_imports)]
use crate::exec::schema::RowV;
#[allow(unused_imports)]
use crate::record::ValueV;
#[allow(unused_imports)]
use crate::sql::ast::ExprV;
#[allow(unused_imports)]
use crate::text::ascii_lower_all;
#[allow(unused_imports)]
use crate::reals::{answer, places_v, RealAnswerV, RealOpV, RealTableV};

verus! {

/// The constant that a seed is mixed with; the golden ratio in 64 bits.
pub const SEED_MIX: u64 = 0x9E37_79B9_7F4A_7C15;

/// The state after a step.
pub open spec fn shifted(x: u64) -> u64 {
    let a = x ^ (x << 13u64);
    let b = a ^ (a >> 7u64);
    b ^ (b << 17u64)
}

/// A first state from a clock.
pub fn seed(nanos: u64) -> (r: u64)
    ensures
        r == (nanos ^ SEED_MIX) | 1,
        r != 0,
{
    let m: u64 = nanos ^ SEED_MIX;
    assert((m | 1u64) != 0) by (bit_vector);
    m | 1
}

/// The next number; its bits are those of the state.
pub fn next_random(state: &mut u64) -> (r: i64)
    ensures
        *final(state) == shifted(*old(state)),
        r == *final(state) as i64,
{
    let x: u64 = *state;
    let a: u64 = x ^ (x << 13u64);
    let b: u64 = a ^ (a >> 7u64);
    *state = b ^ (b << 17u64);
    *state as i64
}

/// A state that is not zero never becomes zero, from where it could not get away, and
/// different states have different successors.
pub proof fn generator_does_not_stall(x: u64, y: u64)
    ensures
        x != 0 ==> shifted(x) != 0,
        shifted(x) == shifted(y) ==> x == y,
{
    let a = x ^ (x << 13u64);
    let b = a ^ (a >> 7u64);
    let c = y ^ (y << 13u64);
    let d = c ^ (c >> 7u64);
    assert(b ^ (b << 17u64) == d ^ (d << 17u64) ==> b == d) by (bit_vector);
    assert(a ^ (a >> 7u64) == c ^ (c >> 7u64) ==> a == c) by (bit_vector);
    assert(x ^ (x << 13u64) == y ^ (y << 13u64) ==> x == y) by (bit_vector);
    assert(x ^ (x << 13u64) == 0 ==> x == 0) by (bit_vector);
    assert(a ^ (a >> 7u64) == 0 ==> a == 0) by (bit_vector);
    assert(b ^ (b << 17u64) == 0 ==> b == 0) by (bit_vector);
}

/// Draws the next number for a place that a statement asks for. A statement that is run again
/// with the number comes to the next place that it asks for: the k-th place in the order of
/// evaluation has the k-th number.
pub fn draw_for(reals: &mut RealTable, state: &mut u64, place: Vec<usize>)
    ensures
        *final(state) == shifted(*old(state)),
        final(reals)@ == old(reals)@.push(
            (RealOpV::Draw(places_v(place@)), RealAnswerV::Int(shifted(*old(state)) as i64)),
        ),
{
    let n: i64 = next_random(state);
    reals.record(RealOp::Draw(place), RealAnswer::Int(n));
}

/// The state after `k` steps.
pub open spec fn state_after(x: u64, k: nat) -> u64
    decreases k,
{
    if k == 0 {
        x
    } else {
        shifted(state_after(x, (k - 1) as nat))
    }
}

/// The table after the places `asked` had their numbers drawn, one after the other.
pub open spec fn draws(t: RealTableV, x: u64, asked: Seq<Seq<int>>) -> RealTableV
    decreases asked.len(),
{
    if asked.len() == 0 {
        t
    } else {
        draws(t, x, asked.drop_last()).push(
            (RealOpV::Draw(asked.last()), RealAnswerV::Int(state_after(x, asked.len()) as i64)),
        )
    }
}

proof fn lemma_answer_push(t: RealTableV, op: RealOpV, a: RealAnswerV, other: RealOpV)
    ensures
        answer(t.push((op, a)), other) == (match answer(t, other) {
            Some(b) => Some(b),
            None => if op == other {
                Some(a)
            } else {
                None
            },
        }),
    decreases t.len(),
{
    let p = t.push((op, a));
    if t.len() == 0 {
        assert(p.drop_first() =~= Seq::empty());
        reveal_with_fuel(answer, 2);
    } else {
        assert(p.drop_first() =~= t.drop_first().push((op, a)));
        if t[0].0 != other {
            lemma_answer_push(t.drop_first(), op, a, other);
        }
    }
}

/// The k-th draw gives the k-th number of the generator, whatever else the table holds. Other
/// outcomes are left as they are.
pub proof fn draws_are_numbered(t: RealTableV, x: u64, asked: Seq<Seq<int>>, k: int, other: RealOpV)
    requires
        forall|i: int, j: int| 0 <= i < j < asked.len() ==> #[trigger] asked[i] != #[trigger] asked[j],
        forall|i: int| 0 <= i < asked.len() ==> answer(t, RealOpV::Draw(#[trigger] asked[i])) is None,
    ensures
        0 <= k < asked.len() ==> answer(draws(t, x, asked), RealOpV::Draw(asked[k])) == Some(
            RealAnswerV::Int(state_after(x, (k + 1) as nat) as i64),
        ),
        answer(t, other) is Some ==> answer(draws(t, x, asked), other) == answer(t, other),
        (forall|i: int| 0 <= i < asked.len() ==> other != RealOpV::Draw(#[trigger] asked[i])) ==> answer(
            draws(t, x, asked),
            other,
        ) == answer(t, other),
    decreases asked.len(),
{
    if asked.len() > 0 {
        let before = asked.drop_last();
        let last = asked.last();
        let a = RealAnswerV::Int(state_after(x, asked.len()) as i64);
        assert forall|i: int, j: int| 0 <= i < j < before.len() implies #[trigger] before[i] != #[trigger] before[j] by {
            assert(asked[i] != asked[j]);
        }
        assert forall|i: int| 0 <= i < before.len() implies answer(t, RealOpV::Draw(#[trigger] before[i])) is None by {
            assert(before[i] == asked[i]);
        }
        draws_are_numbered(t, x, before, k, other);
        draws_are_numbered(t, x, before, k, RealOpV::Draw(last));
        assert(answer(t, RealOpV::Draw(asked[asked.len() - 1])) is None);
        assert forall|i: int| 0 <= i < before.len() implies RealOpV::Draw(last) != RealOpV::Draw(#[trigger] before[i]) by {
            assert(asked[i] != asked[asked.len() - 1]);
        }
        lemma_answer_push(draws(t, x, before), RealOpV::Draw(last), a, other);
        lemma_answer_push(draws(t, x, before), RealOpV::Draw(last), a, RealOpV::Draw(last));
        if 0 <= k < asked.len() {
            lemma_answer_push(draws(t, x, before), RealOpV::Draw(last), a, RealOpV::Draw(asked[k]));
            if k < before.len() {
                assert(before[k] == asked[k]);
            }
        }
        if forall|i: int| 0 <= i < asked.len() ==> other != RealOpV::Draw(#[trigger] asked[i]) {
            assert(other != RealOpV::Draw(asked[asked.len() - 1]));
            assert forall|i: int| 0 <= i < before.len() implies other != RealOpV::Draw(#[trigger] before[i]) by {
                assert(before[i] == asked[i]);
            }
        }
    }
}

/// A number is not drawn twice in a row.
pub proof fn next_number_differs(x: u64)
    requires
        x != 0,
    ensures
        shifted(x) != x,
{
    let a = x ^ (x << 13u64);
    let b = a ^ (a >> 7u64);
    assert(x != 0 && a == x ^ (x << 13u64) && b == a ^ (a >> 7u64) ==> b ^ (b << 17u64) != x) by (bit_vector);
}

/// A call of `random()`, in any case.
pub open spec fn is_random_call(e: ExprV) -> bool {
    match e {
        ExprV::Function { name, args } => ascii_lower_all(name) == "random"@ && args.len() == 0,
        _ => false,
    }
}

/// A call of `random()` gives the number drawn for its place.
pub proof fn random_gives_what_was_drawn(env: EnvV, e: ExprV, row: RowV, params: Seq<ValueV>)
    requires
        is_random_call(e),
    ensures
        value_of(env, e, row, params) == (match drawn(env) {
            Ok(n) => Ok::<ValueV, ErrorV>(ValueV::Integer(n)),
            Err(x) => Err::<ValueV, ErrorV>(x),
        }),
{
    reveal(call);
    reveal_strlit("snippet");
    reveal_strlit("highlight");
    reveal_strlit("bm25");
    reveal_strlit("upper");
    reveal_strlit("lower");
    reveal_strlit("length");
    reveal_strlit("char_length");
    reveal_strlit("trim");
    reveal_strlit("ltrim");
    reveal_strlit("rtrim");
    reveal_strlit("abs");
    reveal_strlit("round");
    reveal_strlit("coalesce");
    reveal_strlit("ifnull");
    reveal_strlit("typeof");
    reveal_strlit("substr");
    reveal_strlit("substring");
    reveal_strlit("nullif");
    reveal_strlit("replace");
    reveal_strlit("instr");
    reveal_strlit("reverse");
    reveal_strlit("hex");
    reveal_strlit("ceil");
    reveal_strlit("ceiling");
    reveal_strlit("floor");
    reveal_strlit("sqrt");
    reveal_strlit("pow");
    reveal_strlit("power");
    reveal_strlit("mod");
    reveal_strlit("sign");
    reveal_strlit("random");
    assert("random"@[0] == 'r' && "random"@[1] == 'a');
    assert("length"@[0] == 'l');
    assert("ifnull"@[0] == 'i');
    assert("typeof"@[0] == 't');
    assert("substr"@[0] == 's');
    assert("nullif"@[0] == 'n');
    if let ExprV::Function { name, args } = e {
        assert(ascii_lower_all(name).len() == name.len());
        assert(func_named("random"@) == Some(Func::Random));
        assert(values_of(env, args, row, params) == Ok::<Seq<ValueV>, ErrorV>(Seq::empty()));
    }
}

/// The places of expressions that are evaluated one after the other.
pub open spec fn places_of(env: EnvV, n: nat) -> Seq<Seq<int>> {
    Seq::new(n, |k: int| branch(env, n - k).place)
}

/// Calls of `random()` that stand side by side are evaluated from the first to the last, and
/// the k-th of them gives the k-th number of the generator; where only some were drawn, it is
/// the next one that is asked for.
pub proof fn random_calls_are_drawn_in_order(
    env: EnvV,
    s: Seq<ExprV>,
    row: RowV,
    params: Seq<ValueV>,
    t: RealTableV,
    x: u64,
    m: int,
)
    requires
        forall|k: int| 0 <= k < s.len() ==> is_random_call(#[trigger] s[k]),
        0 <= m <= s.len(),
        forall|k: int| 0 <= k < s.len() ==> answer(t, RealOpV::Draw(#[trigger] places_of(env, s.len())[k])) is None,
        env.reals == draws(t, x, places_of(env, s.len()).take(m)),
    ensures
        values_of(env, s, row, params) == (if m == s.len() {
            Ok::<Seq<ValueV>, ErrorV>(
                Seq::new(s.len(), |k: int| ValueV::Integer(state_after(x, (k + 1) as nat) as i64)),
            )
        } else {
            Err::<Seq<ValueV>, ErrorV>(ErrorV::NeedsReal(RealOpV::Draw(places_of(env, s.len())[m])))
        }),
{
    let asked = places_of(env, s.len());
    let known = asked.take(m);
    assert forall|i: int, j: int| 0 <= i < j < asked.len() implies #[trigger] asked[i] != #[trigger] asked[j] by {
        reveal(branch);
        assert(asked[i].last() == s.len() - i);
        assert(asked[j].last() == s.len() - j);
    }
    assert forall|k: int| 0 <= k < s.len() implies drawn(#[trigger] branch(env, s.len() - k)) == (if k < m {
        Ok::<i64, ErrorV>(state_after(x, (k + 1) as nat) as i64)
    } else {
        Err::<i64, ErrorV>(ErrorV::NeedsReal(RealOpV::Draw(asked[k])))
    }) by {
        places_differ(env, s.len() - k, 0, Seq::empty(), Seq::empty());
        assert(asked[k] == branch(env, s.len() - k).place);
        assert forall|i: int| 0 <= i < known.len() implies answer(t, RealOpV::Draw(#[trigger] known[i])) is None by {
            assert(known[i] == asked[i]);
        }
        assert forall|i: int, j: int| 0 <= i < j < known.len() implies #[trigger] known[i] != #[trigger] known[j] by {
            assert(asked[i] != asked[j]);
        }
        draws_are_numbered(t, x, known, k, RealOpV::Draw(asked[k]));
        if k < m {
            assert(known[k] == asked[k]);
        } else {
            assert forall|i: int| 0 <= i < known.len() implies RealOpV::Draw(asked[k]) != RealOpV::Draw(#[trigger] known[i]) by {
                assert(known[i] == asked[i]);
            }
        }
    }
    lemma_random_values(env, s, row, params, x, 0, m);
    assert(s.skip(0) =~= s);
    assert(Seq::new(s.len(), |k: int| ValueV::Integer(state_after(x, (0 + k + 1) as nat) as i64))
        =~= Seq::new(s.len(), |k: int| ValueV::Integer(state_after(x, (k + 1) as nat) as i64)));
}

proof fn lemma_random_values(env: EnvV, s: Seq<ExprV>, row: RowV, params: Seq<ValueV>, x: u64, i: int, m: int)
    requires
        0 <= i <= m <= s.len(),
        forall|k: int| 0 <= k < s.len() ==> is_random_call(#[trigger] s[k]),
        forall|k: int| 0 <= k < s.len() ==> drawn(#[trigger] branch(env, s.len() - k)) == (if k < m {
            Ok::<i64, ErrorV>(state_after(x, (k + 1) as nat) as i64)
        } else {
            Err::<i64, ErrorV>(ErrorV::NeedsReal(RealOpV::Draw(places_of(env, s.len())[k])))
        }),
    ensures
        values_of(env, s.skip(i), row, params) == (if m == s.len() {
            Ok::<Seq<ValueV>, ErrorV>(
                Seq::new(
                    (s.len() - i) as nat,
                    |k: int| ValueV::Integer(state_after(x, (i + k + 1) as nat) as i64),
                ),
            )
        } else {
            Err::<Seq<ValueV>, ErrorV>(ErrorV::NeedsReal(RealOpV::Draw(places_of(env, s.len())[m])))
        }),
    decreases s.len() - i,
{
    let rest = s.skip(i);
    let want = |j: int| Seq::new(
        (s.len() - j) as nat,
        |k: int| ValueV::Integer(state_after(x, (j + k + 1) as nat) as i64),
    );
    if i == s.len() {
        assert(want(i) =~= Seq::empty());
    } else {
        assert(rest[0] == s[i]);
        assert(rest.len() == s.len() - i);
        assert(rest.drop_first() =~= s.skip(i + 1));
        let here = branch(env, s.len() - i);
        random_gives_what_was_drawn(here, s[i], row, params);
        if i < m {
            lemma_random_values(env, s, row, params, x, i + 1, m);
            let v = ValueV::Integer(state_after(x, (i + 1) as nat) as i64);
            assert(seq![v] + want(i + 1) =~= want(i));
        }
    }
}

} // verus!
