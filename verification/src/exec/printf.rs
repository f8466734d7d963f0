//! `printf`: flags `-` and `0`, width, precision and the conversions
//! `d i s f x X o %`.
use vstd::prelude::*;

use crate::error::{sql_err, sql_lit, Error, ErrorV};
#[allow(unused_imports)]
use crate::error::sql_error;
use crate::exec::ops::{cast_value, num_bits, value_text, Env, EnvV};
#[allow(unused_imports)]
use crate::exec::ops::{cast_to_int, number_bits, settled, text_of};
use crate::catalog::ColType;
use crate::reals::{RealOp, RealOpV};
#[allow(unused_imports)]
use crate::reals::known_text;
use crate::record::{Value, ValueV};
#[allow(unused_imports)]
use crate::record::row_view;
use crate::text::{cat, chars_of, hex_of, i64_text, push_chars, string_of, string_range};
#[allow(unused_imports)]
use crate::text::{digit_value, hex_char, int_text, is_digit};

verus! {

/// The numeral of `n` in a base, without leading zeros.
pub open spec fn radix_text(n: nat, base: nat, upper: bool) -> Seq<char>
    decreases n,
{
    if base < 2 || n < base {
        seq![hex_char(n as int, upper)]
    } else {
        proof {
            assert(n / base < n) by (nonlinear_arith)
                requires
                    n >= base,
                    base >= 2,
            ;
        }
        radix_text(n / base, base, upper).push(hex_char((n % base) as int, upper))
    }
}

fn push_radix(out: &mut Vec<char>, n: u64, base: u64, upper: bool)
    requires
        2 <= base <= 16,
    ensures
        final(out)@ == old(out)@ + radix_text(n as nat, base as nat, upper),
    decreases n,
{
    if n < base {
        out.push(hex_of(n as u8, upper));
        assert(out@ =~= old(out)@ + radix_text(n as nat, base as nat, upper));
    } else {
        assert(n / base < n) by (nonlinear_arith)
            requires
                n >= base,
                base >= 2,
        ;
        push_radix(out, n / base, base, upper);
        out.push(hex_of((n % base) as u8, upper));
        assert(out@ =~= old(out)@ + radix_text(n as nat, base as nat, upper));
    }
}

/// A signed number as the unsigned one with the same bits.
pub open spec fn as_unsigned(n: i64) -> nat {
    if n < 0 {
        (n + 0x1_0000_0000_0000_0000) as nat
    } else {
        n as nat
    }
}

/// The integer that a conversion takes from its argument; zero for NULL.
pub open spec fn int_arg(env: EnvV, v: ValueV) -> Result<i64, ErrorV> {
    match cast_to_int(env, v) {
        Ok(ValueV::Integer(n)) => Ok(n),
        Ok(_) => Ok(0),
        Err(e) => Err(e),
    }
}

fn int_of_arg(env: &Env, v: &Value) -> (r: Result<i64, Error>)
    ensures
        (match int_arg(env@, v@) {
            Ok(n) => r == Ok::<i64, Error>(n),
            Err(e) => r is Err && r->Err_0@ == e,
        }),
{
    match cast_value(env, v, ColType::Integer) {
        Ok(Value::Integer(n)) => Ok(n),
        Ok(_) => Ok(0),
        Err(e) => Err(e),
    }
}

/// The text of one conversion, and whether it is a number.
pub open spec fn conversion(env: EnvV, conv: char, v: ValueV, prec: Option<usize>) -> Result<
    (Seq<char>, bool),
    ErrorV,
> {
    if conv == 'd' || conv == 'i' {
        match int_arg(env, v) {
            Ok(n) => Ok((int_text(n as int), true)),
            Err(e) => Err(e),
        }
    } else if conv == 'x' || conv == 'X' || conv == 'o' {
        match int_arg(env, v) {
            Ok(n) => Ok(
                (
                    radix_text(
                        as_unsigned(n),
                        if conv == 'o' {
                            8
                        } else {
                            16
                        },
                        conv == 'X',
                    ),
                    true,
                ),
            ),
            Err(e) => Err(e),
        }
    } else if conv == 'f' {
        let x = match number_bits(env, v) {
            Some(b) => b,
            None => Ok(0u64),
        };
        match x {
            Err(e) => Err(e),
            Ok(b) => match settled(
                known_text(
                    env.reals,
                    RealOpV::Fixed(
                        b,
                        match prec {
                            Some(p) => p,
                            None => 6,
                        },
                    ),
                ),
            ) {
                Ok(s) => Ok((s, true)),
                Err(e) => Err(e),
            },
        }
    } else if conv == 's' {
        match text_of(env, v) {
            Err(e) => Err(e),
            Ok(t) => {
                let s = match t {
                    Some(x) => x,
                    None => Seq::empty(),
                };
                Ok(
                    (
                        match prec {
                            Some(p) => if p < s.len() {
                                s.take(p as int)
                            } else {
                                s
                            },
                            None => s,
                        },
                        false,
                    ),
                )
            },
        }
    } else {
        Err(sql_error("printf(): conversión desconocida %"@ + seq![conv]))
    }
}

pub fn printf_one(env: &Env, conv: char, v: &Value, prec: Option<usize>) -> (r: Result<
    (String, bool),
    Error,
>)
    ensures
        (match conversion(env@, conv, v@, prec) {
            Ok((s, b)) => r is Ok && r->Ok_0.0@ == s && r->Ok_0.1 == b,
            Err(e) => r is Err && r->Err_0@ == e,
        }),
{
    if conv == 'd' || conv == 'i' {
        match int_of_arg(env, v) {
            Ok(n) => Ok((i64_text(n), true)),
            Err(e) => Err(e),
        }
    } else if conv == 'x' || conv == 'X' || conv == 'o' {
        match int_of_arg(env, v) {
            Ok(n) => {
                let u: u64 = if n < 0 {
                    (n as i128 + 0x1_0000_0000_0000_0000) as u64
                } else {
                    n as u64
                };
                let mut out: Vec<char> = Vec::new();
                let base: u64 = if conv == 'o' {
                    8
                } else {
                    16
                };
                push_radix(&mut out, u, base, conv == 'X');
                assert(out@ =~= radix_text(as_unsigned(n), base as nat, conv == 'X'));
                Ok((string_of(out), true))
            },
            Err(e) => Err(e),
        }
    } else if conv == 'f' {
        let x = match num_bits(env, v) {
            Some(b) => b,
            None => Ok(0u64),
        };
        match x {
            Err(e) => Err(e),
            Ok(b) => {
                let p: usize = match prec {
                    Some(p) => p,
                    None => 6,
                };
                match env.text(RealOp::Fixed(b, p)) {
                    Ok(s) => Ok((s, true)),
                    Err(e) => Err(e),
                }
            },
        }
    } else if conv == 's' {
        match value_text(env, v) {
            Err(e) => Err(e),
            Ok(t) => {
                let s = match t {
                    Some(x) => x,
                    None => String::new(),
                };
                match prec {
                    Some(p) => {
                        let cs = chars_of(s.as_str());
                        if p < cs.len() {
                            assert(cs@.subrange(0, p as int) =~= cs@.take(p as int));
                            Ok((string_range(cs.as_slice(), 0, p), false))
                        } else {
                            Ok((s, false))
                        }
                    },
                    None => Ok((s, false)),
                }
            },
        }
    } else {
        let mut one: Vec<char> = Vec::new();
        one.push(conv);
        assert(one@ =~= seq![conv]);
        Err(sql_err(cat("printf(): conversión desconocida %", string_of(one).as_str())))
    }
}

pub open spec fn repeated(c: char, n: nat) -> Seq<char> {
    Seq::new(n, |i: int| c)
}

/// `body` filled up to a width: behind it, or in front of it with blanks or, behind
/// its sign, with zeros.
pub open spec fn filled(body: Seq<char>, width: nat, left: bool, zero: bool) -> Seq<char> {
    if body.len() >= width {
        body
    } else {
        let fill = (width - body.len()) as nat;
        if left {
            body + repeated(' ', fill)
        } else if zero {
            if body.len() > 0 && (body[0] == '-' || body[0] == '+') {
                seq![body[0]] + repeated('0', fill) + body.drop_first()
            } else {
                repeated('0', fill) + body
            }
        } else {
            repeated(' ', fill) + body
        }
    }
}

fn push_repeated(out: &mut Vec<char>, c: char, n: usize)
    ensures
        final(out)@ == old(out)@ + repeated(c, n as nat),
{
    assert(out@ =~= old(out)@ + repeated(c, 0));
    for i in 0..n
        invariant
            out@ == old(out)@ + repeated(c, i as nat),
    {
        out.push(c);
        assert(repeated(c, (i + 1) as nat) =~= repeated(c, i as nat).push(c));
    }
}

pub fn printf_pad(body: &str, width: usize, left: bool, zero: bool) -> (r: String)
    ensures
        r@ == filled(body@, width as nat, left, zero),
{
    let b = chars_of(body);
    if b.len() >= width {
        return body.to_owned();
    }
    let fill: usize = width - b.len();
    let mut out: Vec<char> = Vec::new();
    if left {
        push_chars(&mut out, b.as_slice());
        push_repeated(&mut out, ' ', fill);
    } else if zero {
        if b.len() > 0 && (b[0] == '-' || b[0] == '+') {
            out.push(b[0]);
            push_repeated(&mut out, '0', fill);
            let rest = vstd::slice::slice_subrange(b.as_slice(), 1, b.len());
            assert(rest@ =~= body@.drop_first());
            push_chars(&mut out, rest);
        } else {
            push_repeated(&mut out, '0', fill);
            push_chars(&mut out, b.as_slice());
        }
    } else {
        push_repeated(&mut out, ' ', fill);
        push_chars(&mut out, b.as_slice());
    }
    assert(out@ =~= filled(body@, width as nat, left, zero));
    string_of(out)
}

/// The flags at `i`: `-` seen, `0` seen, and the position behind them.
pub open spec fn flags_at(f: Seq<char>, i: int, left: bool, zero: bool) -> (bool, bool, int)
    decreases f.len() - i,
{
    if 0 <= i < f.len() && f[i] == '-' {
        flags_at(f, i + 1, true, zero)
    } else if 0 <= i < f.len() && f[i] == '0' {
        flags_at(f, i + 1, left, true)
    } else {
        (left, zero, i)
    }
}

/// The number at `i`, `n` having been read before it, saturated; and the position
/// behind it.
pub open spec fn count_at(f: Seq<char>, i: int, n: usize) -> (usize, int)
    decreases f.len() - i,
{
    if 0 <= i < f.len() && is_digit(f[i]) {
        let m = n * 10 + digit_value(f[i]);
        count_at(
            f,
            i + 1,
            if m > usize::MAX {
                usize::MAX
            } else {
                m as usize
            },
        )
    } else {
        (n, i)
    }
}

/// A conversion specification.
pub struct Spec {
    pub left: bool,
    pub zero: bool,
    pub width: usize,
    pub prec: Option<usize>,
    pub end: usize,
}

/// The specification at `i`, behind the `%`; its conversion character is at `end`.
pub open spec fn spec_at(f: Seq<char>, i: int) -> (bool, bool, usize, Option<usize>, int) {
    let (left, zero, a) = flags_at(f, i, false, false);
    let (width, b) = count_at(f, a, 0);
    if b < f.len() && f[b] == '.' {
        let (p, c) = count_at(f, b + 1, 0);
        (left, zero, width, Some(p), c)
    } else {
        (left, zero, width, None, b)
    }
}

/// The format from `i` on, with the arguments from `ai` on.
pub open spec fn printed(env: EnvV, f: Seq<char>, args: Seq<ValueV>, i: int, ai: int) -> Result<
    Seq<char>,
    ErrorV,
>
    decreases f.len() - i,
{
    if i < 0 || i >= f.len() {
        Ok(Seq::empty())
    } else if f[i] != '%' {
        match printed(env, f, args, i + 1, ai) {
            Ok(rest) => Ok(seq![f[i]] + rest),
            Err(e) => Err(e),
        }
    } else if i + 1 < f.len() && f[i + 1] == '%' {
        match printed(env, f, args, i + 2, ai) {
            Ok(rest) => Ok(seq!['%'] + rest),
            Err(e) => Err(e),
        }
    } else {
        let (left, zero, width, prec, end) = spec_at(f, i + 1);
        if !(i < end < f.len()) {
            Err(sql_error("printf(): especificador incompleto"@))
        } else if ai >= args.len() {
            Err(sql_error("printf(): faltan argumentos para el formato"@))
        } else {
            match conversion(env, f[end], args[ai], prec) {
                Err(e) => Err(e),
                Ok((body, numeric)) => match printed(env, f, args, end + 1, ai + 1) {
                    Err(e) => Err(e),
                    Ok(rest) => Ok(filled(body, width as nat, left, zero && numeric) + rest),
                },
            }
        }
    }
}

fn count_of(f: &Vec<char>, i: usize) -> (r: (usize, usize))
    requires
        i <= f@.len(),
    ensures
        (r.0, r.1 as int) == count_at(f@, i as int, 0),
        i <= r.1 <= f@.len(),
{
    let mut n: usize = 0;
    let mut k: usize = i;
    while k < f.len() && '0' <= f[k] && f[k] <= '9'
        invariant
            i <= k <= f@.len(),
            count_at(f@, i as int, 0) == count_at(f@, k as int, n),
        decreases f@.len() - k,
    {
        let m: u128 = n as u128 * 10 + (f[k] as u8 - 48) as u128;
        n = if m > usize::MAX as u128 {
            usize::MAX
        } else {
            m as usize
        };
        k = k + 1;
    }
    (n, k)
}

fn spec_of(f: &Vec<char>, i: usize) -> (r: Spec)
    requires
        i <= f@.len(),
    ensures
        spec_at(f@, i as int) == (r.left, r.zero, r.width, r.prec, r.end as int),
        i <= r.end <= f@.len(),
{
    let mut left: bool = false;
    let mut zero: bool = false;
    let mut k: usize = i;
    while k < f.len() && (f[k] == '-' || f[k] == '0')
        invariant
            i <= k <= f@.len(),
            flags_at(f@, i as int, false, false) == flags_at(f@, k as int, left, zero),
        decreases f@.len() - k,
    {
        if f[k] == '-' {
            left = true;
        } else {
            zero = true;
        }
        k = k + 1;
    }
    let (width, b): (usize, usize) = count_of(f, k);
    if b < f.len() && f[b] == '.' {
        let (p, c): (usize, usize) = count_of(f, b + 1);
        Spec { left, zero, width, prec: Some(p), end: c }
    } else {
        Spec { left, zero, width, prec: None, end: b }
    }
}

pub fn sql_printf(env: &Env, fmt: &str, args: &Vec<Value>, first: usize) -> (r: Result<String, Error>)
    requires
        first <= args@.len(),
    ensures
        (match printed(env@, fmt@, row_view(args@), 0, first as int) {
            Ok(s) => r is Ok && r->Ok_0@ == s,
            Err(e) => r is Err && r->Err_0@ == e,
        }),
{
    let f = chars_of(fmt);
    let ghost av = row_view(args@);
    let mut out: Vec<char> = Vec::new();
    let mut ai: usize = first;
    let mut i: usize = 0;
    let ghost all = printed(env@, fmt@, av, 0, first as int);
    assert(all is Ok ==> out@ + all->Ok_0 =~= all->Ok_0);
    while i < f.len()
        invariant
            i <= f@.len(),
            ai <= args@.len(),
            f@ == fmt@,
            av == row_view(args@),
            all == printed(env@, fmt@, av, 0, first as int),
            (match printed(env@, f@, av, i as int, ai as int) {
                Ok(rest) => all == Ok::<Seq<char>, ErrorV>(out@ + rest),
                Err(e) => all == Err::<Seq<char>, ErrorV>(e),
            }),
        decreases f@.len() - i,
    {
        let ghost before = out@;
        if f[i] != '%' {
            out.push(f[i]);
            proof {
                let rest = printed(env@, f@, av, i + 1, ai as int);
                if rest is Ok {
                    assert(before + (seq![f@[i as int]] + rest->Ok_0) =~= out@ + rest->Ok_0);
                }
            }
            i = i + 1;
        } else if f.len() - i > 1 && f[i + 1] == '%' {
            out.push('%');
            proof {
                let rest = printed(env@, f@, av, i + 2, ai as int);
                if rest is Ok {
                    assert(before + (seq!['%'] + rest->Ok_0) =~= out@ + rest->Ok_0);
                }
            }
            i = i + 2;
        } else {
            let sp = spec_of(&f, i + 1);
            if sp.end >= f.len() {
                return Err(sql_lit("printf(): especificador incompleto"));
            }
            if ai >= args.len() {
                return Err(sql_lit("printf(): faltan argumentos para el formato"));
            }
            let (body, numeric): (String, bool) = match printf_one(
                env,
                f[sp.end],
                &args[ai],
                sp.prec,
            ) {
                Ok(x) => x,
                Err(e) => {
                    return Err(e);
                },
            };
            let padded = printf_pad(body.as_str(), sp.width, sp.left, sp.zero && numeric);
            let pv = chars_of(padded.as_str());
            push_chars(&mut out, pv.as_slice());
            proof {
                let rest = printed(env@, f@, av, sp.end + 1, ai + 1);
                if rest is Ok {
                    assert(before + (pv@ + rest->Ok_0) =~= out@ + rest->Ok_0);
                }
            }
            ai = ai + 1;
            i = sp.end + 1;
        }
    }
    assert(out@ + Seq::<char>::empty() =~= out@);
    Ok(string_of(out))
}

} // verus!
