//! What `printf` is for: what a format keeps, how a conversion is filled up, and how numbers are
//! written in a base.
#[allow(unused_imports)]
use vstd::prelude::*;

#[allow(unused_imports)]
use crate::error::ErrorV;
#[allow(unused_imports)]
use crate::exec::ops::EnvV;
#[allow(unused_imports)]
use crate::exec::printf::{conversion, count_at, filled, flags_at, printed, radix_text, spec_at};
#[allow(unused_imports)]
use crate::record::ValueV;
#[allow(unused_imports)]
use crate::text::{digit_value, hex_char, int_text, is_digit};

verus! {

/// A format without conversions is printed as it stands.
pub proof fn plain_formats_stay(env: EnvV, f: Seq<char>, args: Seq<ValueV>, i: int, ai: int)
    requires
        0 <= i <= f.len(),
        forall|k: int| i <= k < f.len() ==> #[trigger] f[k] != '%',
    ensures
        printed(env, f, args, i, ai) == Ok::<Seq<char>, ErrorV>(f.skip(i)),
    decreases f.len() - i,
{
    if i < f.len() {
        plain_formats_stay(env, f, args, i + 1, ai);
        assert(f.skip(i) =~= seq![f[i]] + f.skip(i + 1));
    } else {
        assert(f.skip(i) =~= Seq::<char>::empty());
    }
}

/// `%%` stands for `%` and takes no argument. Every other conversion takes the next argument; its
/// text, filled up, stands before what is printed of the rest.
pub proof fn conversions_take_their_arguments(env: EnvV, f: Seq<char>, args: Seq<ValueV>, i: int, ai: int, rest: Seq<char>, body: Seq<char>, numeric: bool)
    requires
        0 <= i < f.len(),
        f[i] == '%',
        0 <= ai,
    ensures
        i + 1 < f.len() && f[i + 1] == '%' && printed(env, f, args, i + 2, ai) == Ok::<Seq<char>, ErrorV>(rest) ==> printed(env, f, args, i, ai) == Ok::<Seq<char>, ErrorV>(seq!['%'] + rest),
        ({
            let (left, zero, width, prec, end) = spec_at(f, i + 1);
            (i + 1 >= f.len() || f[i + 1] != '%') && i < end < f.len() ==> {
                &&& ai >= args.len() ==> printed(env, f, args, i, ai) is Err
                &&& ai < args.len() && conversion(env, f[end], args[ai], prec) == Ok::<(Seq<char>, bool), ErrorV>((body, numeric)) && printed(env, f, args, end + 1, ai + 1) == Ok::<Seq<char>, ErrorV>(rest) ==> printed(env, f, args, i, ai) == Ok::<Seq<char>, ErrorV>(filled(body, width as nat, left, zero && numeric) + rest)
            }
        }),
{
}

/// What is filled up is as long as its width, or as it is where that is longer: with `-` it stands
/// first and blanks follow, otherwise it stands last; zeros go behind its sign.
pub proof fn conversions_are_filled_up(body: Seq<char>, width: nat, left: bool, zero: bool)
    ensures
        ({
            let r = filled(body, width, left, zero);
            let n = body.len() as int;
            &&& r.len() == (if n < width {
                width as int
            } else {
                n
            })
            &&& left ==> r.take(n) == body && forall|i: int| n <= i < r.len() ==> #[trigger] r[i] == ' '
            &&& !left && !zero ==> r.skip(r.len() - n) == body && forall|i: int| 0 <= i < r.len() - n ==> #[trigger] r[i] == ' '
            &&& !left && zero && n > 0 && n < width && (body[0] == '-' || body[0] == '+') ==> {
                &&& r[0] == body[0]
                &&& forall|i: int| 1 <= i <= width - n ==> #[trigger] r[i] == '0'
                &&& r.skip(r.len() - (n - 1)) == body.skip(1)
            }
            &&& !left && zero && !(n > 0 && (body[0] == '-' || body[0] == '+')) ==> r.skip(r.len() - n) == body && forall|i: int| 0 <= i < r.len() - n ==> #[trigger] r[i] == '0'
        }),
{
    let r = filled(body, width, left, zero);
    let n = body.len() as int;
    assert(left ==> r.take(n) =~= body);
    assert(!left && !zero ==> r.skip(r.len() - n) =~= body);
    if !left && zero && n < width {
        if n > 0 && (body[0] == '-' || body[0] == '+') {
            assert(r.skip(r.len() - (n - 1)) =~= body.skip(1));
        } else {
            assert(r.skip(r.len() - n) =~= body);
        }
    } else if n >= width {
        assert(r.skip(r.len() - n) =~= body);
    }
}

/// A numeral in a base ends with the digit of the remainder, before which stands the numeral of
/// the quotient; a number below the base is one digit.
pub proof fn numerals_are_written_by_remainders(q: nat, d: nat, base: nat, upper: bool)
    requires
        base >= 2,
        d < base,
    ensures
        radix_text(d, base, upper) == seq![hex_char(d as int, upper)],
        q > 0 ==> radix_text((q * base + d) as nat, base, upper) == radix_text(q, base, upper).push(hex_char(d as int, upper)),
{
    if q > 0 {
        let n = (q * base + d) as nat;
        assert(n / base == q && n % base == d && n >= base) by (nonlinear_arith)
            requires
                n == q * base + d,
                d < base,
                base >= 2,
                q > 0,
        ;
    }
}

/// `%d` writes the integer in decimal, `%x` and `%X` in base sixteen, `%o` in base eight; `%s`
/// with a precision takes that many characters.
pub proof fn conversions_write_their_argument(env: EnvV, n: i64, s: Seq<char>, p: usize)
    requires
        n >= 0,
    ensures
        conversion(env, 'd', ValueV::Integer(n), None) == Ok::<(Seq<char>, bool), ErrorV>((int_text(n as int), true)),
        conversion(env, 'x', ValueV::Integer(n), None) == Ok::<(Seq<char>, bool), ErrorV>((radix_text(n as nat, 16, false), true)),
        conversion(env, 'X', ValueV::Integer(n), None) == Ok::<(Seq<char>, bool), ErrorV>((radix_text(n as nat, 16, true), true)),
        conversion(env, 'o', ValueV::Integer(n), None) == Ok::<(Seq<char>, bool), ErrorV>((radix_text(n as nat, 8, false), true)),
        conversion(env, 's', ValueV::Text(s), None) == Ok::<(Seq<char>, bool), ErrorV>((s, false)),
        p < s.len() ==> conversion(env, 's', ValueV::Text(s), Some(p)) == Ok::<(Seq<char>, bool), ErrorV>((s.take(p as int), false)),
        p >= s.len() ==> conversion(env, 's', ValueV::Text(s), Some(p)) == Ok::<(Seq<char>, bool), ErrorV>((s, false)),
{
}

/// Before a conversion `-` asks for the left side and `0` for zeros; the width is the number
/// behind them, and the precision the number behind a point.
pub proof fn specifications_are_read(f: Seq<char>, i: int, left: bool, zero: bool, n: usize)
    requires
        0 <= i < f.len(),
        n * 10 + 9 <= usize::MAX,
    ensures
        f[i] == '-' ==> flags_at(f, i, left, zero) == flags_at(f, i + 1, true, zero),
        f[i] == '0' ==> flags_at(f, i, left, zero) == flags_at(f, i + 1, left, true),
        f[i] != '-' && f[i] != '0' ==> flags_at(f, i, left, zero) == (left, zero, i),
        is_digit(f[i]) ==> count_at(f, i, n) == count_at(f, i + 1, (n * 10 + digit_value(f[i])) as usize),
        !is_digit(f[i]) ==> count_at(f, i, n) == (n, i),
{
}

} // verus!
