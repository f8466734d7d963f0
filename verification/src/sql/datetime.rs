//! Dates and times: RFC 3339 instants to milliseconds since the epoch, civil dates
//! of the proleptic Gregorian calendar, and formatting.
use vstd::prelude::*;
use vstd::utf8::encode_utf8;

use crate::text::{chars_of, push_chars, string_of};
#[allow(unused_imports)]
use crate::text::nat_text;

verus! {

// --- the calendar ---

pub open spec fn is_leap(y: int) -> bool {
    y % 4 == 0 && (y % 100 != 0 || y % 400 == 0)
}

/// Days from 1970-01-01 to the first of January of year `y`.
pub open spec fn year_start(y: int) -> int {
    365 * (y - 1) + (y - 1) / 4 - (y - 1) / 100 + (y - 1) / 400 - 719162
}

/// Days from the first of January to the first of month `m`.
pub open spec fn month_start(y: int, m: int) -> int {
    (if m <= 1 {
        0int
    } else if m == 2 {
        31
    } else if m == 3 {
        59
    } else if m == 4 {
        90
    } else if m == 5 {
        120
    } else if m == 6 {
        151
    } else if m == 7 {
        181
    } else if m == 8 {
        212
    } else if m == 9 {
        243
    } else if m == 10 {
        273
    } else if m == 11 {
        304
    } else {
        334
    }) + (if m > 2 && is_leap(y) {
        1int
    } else {
        0
    })
}

pub open spec fn month_len(y: int, m: int) -> int {
    if m == 2 {
        if is_leap(y) {
            29
        } else {
            28
        }
    } else if m == 4 || m == 6 || m == 9 || m == 11 {
        30
    } else {
        31
    }
}

/// Days from 1970-01-01 to a civil date.
pub open spec fn civil_days(y: int, m: int, d: int) -> int {
    year_start(y) + month_start(y, m) + d - 1
}

pub open spec fn valid_date(y: int, m: int, d: int) -> bool {
    1 <= m <= 12 && 1 <= d <= month_len(y, m)
}

/// The calendar is the one we know: the epoch is day zero, every day of a month
/// is one further, months and years follow each other.
pub proof fn calendar_laws(y: int, m: int, d: int)
    requires
        1 <= m <= 12,
    ensures
        civil_days(1970, 1, 1) == 0,
        civil_days(y, m, d + 1) == civil_days(y, m, d) + 1,
        m < 12 ==> civil_days(y, m, month_len(y, m)) + 1 == civil_days(y, m + 1, 1),
        civil_days(y, 12, 31) + 1 == civil_days(y + 1, 1, 1),
{
    lemma_year_len(y);
}

/// A year has 365 days, a leap year 366.
pub proof fn lemma_year_len(y: int)
    ensures
        year_start(y + 1) - year_start(y) == (if is_leap(y) {
            366int
        } else {
            365
        }),
{
    let k = y - 1;
    assert(y / 4 - k / 4 == (if y % 4 == 0 { 1int } else { 0 }));
    assert(y / 100 - k / 100 == (if y % 100 == 0 { 1int } else { 0 }));
    assert(y / 400 - k / 400 == (if y % 400 == 0 { 1int } else { 0 }));
}

fn floor_div(a: i64, b: i64) -> (r: i64)
    requires
        1 < b,
    ensures
        r == a as int / b as int,
{
    proof {
        vstd::arithmetic::div_mod::lemma_fundamental_div_mod(a as int, b as int);
        assert(i64::MIN <= a as int / b as int <= i64::MAX) by (nonlinear_arith)
            requires
                1 < b,
                i64::MIN <= a <= i64::MAX,
        ;
    }
    match a.checked_div_euclid(b) {
        Some(q) => q,
        None => 0,
    }
}

/// Days from 1970-01-01 to a civil date; the day may run over the end of the month.
pub fn days_from_civil(y: i64, m: i64, d: i64) -> (r: i64)
    requires
        -25_000_000_000_000_000 <= y <= 25_000_000_000_000_000,
        1 <= m <= 12,
        -1_000_000_000_000_000 <= d <= 1_000_000_000_000_000,
    ensures
        r == civil_days(y as int, m as int, d as int),
{
    let y2: i64 = if m <= 2 {
        y - 1
    } else {
        y
    };
    let era: i64 = floor_div(y2, 400);
    let yoe: i64 = y2 - era * 400;
    let mp: i64 = if m > 2 {
        m - 3
    } else {
        m + 9
    };
    let doy: i64 = (153 * mp + 2) / 5 + d - 1;
    let doe: i64 = yoe * 365 + yoe / 4 - yoe / 100 + doy;
    proof {
        assert(y2 as int / 4 == 100 * era + yoe as int / 4);
        assert(y2 as int / 100 == 4 * era + yoe as int / 100);
        lemma_march_days(y as int, m as int, d as int);
    }
    era * 146_097 + doe - 719_468
}

/// Century, span of four years, year and day of a day of an era of 400 years; the
/// last of each span may be one day longer.
fn split_era(doe: i64) -> (r: (i64, i64, i64, i64))
    requires
        0 <= doe < 146_097,
    ensures
        0 <= r.0 <= 3,
        0 <= r.1 <= 24,
        0 <= r.2 <= 3,
        0 <= r.3 <= 365,
        doe == 36_524 * r.0 + 1_461 * r.1 + 365 * r.2 + r.3,
        r.3 == 365 ==> r.2 == 3 && (r.1 == 24 ==> r.0 == 3),
{
    let cent: i64 = if doe / 36_524 < 3 {
        doe / 36_524
    } else {
        3
    };
    let doc: i64 = doe - cent * 36_524;
    let quad: i64 = doc / 1_461;
    let doq: i64 = doc - quad * 1_461;
    let yoq: i64 = if doq / 365 < 3 {
        doq / 365
    } else {
        3
    };
    (cent, quad, yoq, doq - yoq * 365)
}

/// The civil date of a day counted from 1970-01-01.
pub fn civil_from_days(z: i64) -> (r: (i64, u32, u32))
    requires
        z <= i64::MAX - 719_468,
    ensures
        valid_date(r.0 as int, r.1 as int, r.2 as int),
        civil_days(r.0 as int, r.1 as int, r.2 as int) == z,
{
    let z2: i64 = z + 719_468;
    let era: i64 = floor_div(z2, 146_097);
    let doe: i64 = z2 - era * 146_097;
    let (cent, quad, yoq, doy): (i64, i64, i64, i64) = split_era(doe);
    let yoe: i64 = 100 * cent + 4 * quad + yoq;
    let y: i64 = yoe + era * 400;
    let mp: i64 = (5 * doy + 2) / 153;
    let d: i64 = doy - (153 * mp + 2) / 5 + 1;
    let m: i64 = if mp < 10 {
        mp + 3
    } else {
        mp - 9
    };
    let y3: i64 = if m <= 2 {
        y + 1
    } else {
        y
    };
    proof {
        lemma_year_of_era(era as int, cent as int, quad as int, yoq as int);
        lemma_leap_day(era as int, cent as int, quad as int, yoq as int, doy as int);
        lemma_month_split(doy as int);
        lemma_march_days(y3 as int, m as int, d as int);
    }
    (y3, m as u32, d as u32)
}

/// The quotients of a year given by century, span of four years and year.
proof fn lemma_year_of_era(era: int, cent: int, quad: int, yoq: int)
    requires
        0 <= cent <= 3,
        0 <= quad <= 24,
        0 <= yoq <= 3,
    ensures
        ({
            let n = 400 * era + 100 * cent + 4 * quad + yoq;
            &&& n / 4 == 100 * era + 25 * cent + quad
            &&& n / 100 == 4 * era + cent
            &&& n / 400 == era
        }),
{
}

/// The year that starts in March has a day 365 only when the next February has 29
/// days; days are bounded by the spans they are in.
proof fn lemma_leap_day(era: int, cent: int, quad: int, yoq: int, doy: int)
    requires
        0 <= cent <= 3,
        0 <= quad <= 24,
        0 <= yoq <= 3,
        doy == 365 ==> yoq == 3 && (quad == 24 ==> cent == 3),
    ensures
        doy == 365 ==> is_leap(400 * era + 100 * cent + 4 * quad + yoq + 1),
{
    let nx = 400 * era + 100 * cent + 4 * quad + yoq + 1;
    if doy == 365 {
        assert(nx % 4 == 0);
        if quad == 24 {
            assert(nx % 400 == 0);
        } else {
            assert(nx % 100 == 4 * quad + 4);
        }
    }
}

/// Days of a civil date counted in years that start in March.
proof fn lemma_march_days(y: int, m: int, d: int)
    requires
        1 <= m <= 12,
    ensures
        ({
            let n = if m <= 2 {
                y - 1
            } else {
                y
            };
            let mp = if m > 2 {
                m - 3
            } else {
                m + 9
            };
            civil_days(y, m, d) == 365 * n + n / 4 - n / 100 + n / 400 + (153 * mp + 2) / 5 + d - 1
                - 719_468
        }),
{
    let k = y - 1;
    assert(y / 4 - k / 4 == (if y % 4 == 0 { 1int } else { 0 }));
    assert(y / 100 - k / 100 == (if y % 100 == 0 { 1int } else { 0 }));
    assert(y / 400 - k / 400 == (if y % 400 == 0 { 1int } else { 0 }));
}

/// Month and day of a day of the year that starts in March.
proof fn lemma_month_split(doy: int)
    requires
        0 <= doy <= 365,
    ensures
        ({
            let mp = (5 * doy + 2) / 153;
            let d = doy - (153 * mp + 2) / 5 + 1;
            &&& 0 <= mp <= 11
            &&& 1 <= d <= (if mp == 1 || mp == 3 || mp == 6 || mp == 8 {
                30int
            } else if mp == 11 {
                29
            } else {
                31
            })
            &&& mp == 11 && d == 29 ==> doy == 365
        }),
{
}

/// Different valid dates are different days, so a day has one civil date.
pub proof fn civil_date_unique(y1: int, m1: int, d1: int, y2: int, m2: int, d2: int)
    requires
        valid_date(y1, m1, d1),
        valid_date(y2, m2, d2),
        civil_days(y1, m1, d1) == civil_days(y2, m2, d2),
    ensures
        y1 == y2,
        m1 == m2,
        d1 == d2,
{
    lemma_date_in_year(y1, m1, d1);
    lemma_date_in_year(y2, m2, d2);
    if y1 < y2 {
        lemma_year_order(y1 + 1, y2);
    } else if y2 < y1 {
        lemma_year_order(y2 + 1, y1);
    }
}

proof fn lemma_date_in_year(y: int, m: int, d: int)
    requires
        valid_date(y, m, d),
    ensures
        year_start(y) <= civil_days(y, m, d) < year_start(y + 1),
{
    lemma_year_len(y);
}

proof fn lemma_year_order(a: int, b: int)
    requires
        a <= b,
    ensures
        year_start(a) <= year_start(b),
    decreases b - a,
{
    if a < b {
        lemma_year_order(a, b - 1);
        lemma_year_len(b - 1);
    }
}

/// Year, month, day, hour, minute and second of an instant in milliseconds.
pub fn ms_to_parts(ms: i64) -> (r: (i64, u32, u32, u32, u32, u32))
    ensures
        valid_date(r.0 as int, r.1 as int, r.2 as int),
        -1_000_000_000 <= r.0 <= 1_000_000_000,
        r.3 <= 23 && r.4 <= 59 && r.5 <= 59,
        civil_days(r.0 as int, r.1 as int, r.2 as int) * 86_400 + r.3 * 3_600 + r.4 * 60 + r.5
            == ms as int / 1000,
{
    let secs: i64 = floor_div(ms, 1000);
    let days: i64 = floor_div(secs, 86_400);
    let tod: i64 = secs - days * 86_400;
    let (y, mo, d): (i64, u32, u32) = civil_from_days(days);
    proof {
        lemma_year_bound(y as int, mo as int, d as int);
    }
    (y, mo, d, (tod / 3600) as u32, ((tod % 3600) / 60) as u32, (tod % 60) as u32)
}

proof fn lemma_year_bound(y: int, m: int, d: int)
    requires
        valid_date(y, m, d),
        -300_000_000_000 <= civil_days(y, m, d) <= 300_000_000_000,
    ensures
        -1_000_000_000 <= y <= 1_000_000_000,
{
}

// --- formatting ---

/// A numeral padded with zeros to a width; the sign counts and stays in front.
pub open spec fn padded(n: int, width: nat) -> Seq<char> {
    if n < 0 {
        let t = nat_text((-n) as nat);
        seq!['-'] + zeros((width - 1 - t.len()) as int) + t
    } else {
        let t = nat_text(n as nat);
        zeros((width - t.len()) as int) + t
    }
}

/// `n` zeros; none where `n` is negative.
pub open spec fn zeros(n: int) -> Seq<char> {
    Seq::new(
        if n < 0 {
            0
        } else {
            n as nat
        },
        |i: int| '0',
    )
}

fn push_padded(out: &mut Vec<char>, n: i64, width: usize)
    requires
        width <= 100,
    ensures
        final(out)@ == old(out)@ + padded(n as int, width as nat),
{
    let neg: bool = n < 0;
    let m: u64 = if neg {
        (-(n as i128)) as u64
    } else {
        n as u64
    };
    let t = chars_of(crate::text::u64_text(m).as_str());
    let ghost start = out@;
    if neg {
        out.push('-');
    }
    let ghost head = out@;
    let used: usize = if neg {
        1
    } else {
        0
    };
    let mut k: usize = 0;
    let ghost want = (width - used - t@.len()) as int;
    assert(head + zeros(0) =~= head);
    while k + used < width && t.len() < width - used - k
        invariant
            width <= 100,
            used <= 1,
            k <= width,
            out@ == head + zeros(k as int),
            want == width - used - t@.len(),
            k <= want || k == 0,
        decreases width - k,
    {
        out.push('0');
        assert(zeros(k + 1) =~= zeros(k as int).push('0'));
        k = k + 1;
    }
    assert(zeros(k as int) =~= zeros(want));
    push_chars(out, t.as_slice());
    assert(out@ =~= start + padded(n as int, width as nat));
}

/// The parts of an instant.
pub open spec fn instant(ms: i64, p: (i64, u32, u32, u32, u32, u32)) -> bool {
    &&& valid_date(p.0 as int, p.1 as int, p.2 as int)
    &&& p.3 <= 23 && p.4 <= 59 && p.5 <= 59
    &&& civil_days(p.0 as int, p.1 as int, p.2 as int) * 86_400 + p.3 * 3_600 + p.4 * 60 + p.5
        == ms as int / 1000
}

/// What a conversion character stands for; an unknown one for itself behind `%`.
pub open spec fn directive(c: char, p: (i64, u32, u32, u32, u32, u32)) -> Seq<char> {
    if c == 'Y' {
        padded(p.0 as int, 4)
    } else if c == 'm' {
        padded(p.1 as int, 2)
    } else if c == 'd' {
        padded(p.2 as int, 2)
    } else if c == 'H' {
        padded(p.3 as int, 2)
    } else if c == 'M' {
        padded(p.4 as int, 2)
    } else if c == 'S' {
        padded(p.5 as int, 2)
    } else if c == 'j' {
        padded(month_start(p.0 as int, p.1 as int) + p.2, 3)
    } else if c == '%' {
        seq!['%']
    } else {
        seq!['%', c]
    }
}

/// The format from position `i` on.
pub open spec fn formatted(f: Seq<char>, i: int, p: (i64, u32, u32, u32, u32, u32)) -> Seq<char>
    decreases f.len() - i,
{
    if i < 0 || i >= f.len() {
        Seq::empty()
    } else if f[i] != '%' {
        seq![f[i]] + formatted(f, i + 1, p)
    } else if i + 1 >= f.len() {
        seq!['%']
    } else {
        directive(f[i + 1], p) + formatted(f, i + 2, p)
    }
}

/// Year, month, day, hour, minute and second of an instant.
pub open spec fn instant_parts(ms: i64) -> (i64, u32, u32, u32, u32, u32) {
    choose|p: (i64, u32, u32, u32, u32, u32)| instant(ms, p)
}

/// Formats an instant: `%Y %m %d %H %M %S %j %%`.
pub fn strftime(fmt: &str, ms: i64) -> (r: String)
    ensures
        r@ == formatted(fmt@, 0, instant_parts(ms)),
{
    let p: (i64, u32, u32, u32, u32, u32) = ms_to_parts(ms);
    proof {
        assert(instant(ms, p));
        instant_unique(ms, p, instant_parts(ms));
    }
    let f = chars_of(fmt);
    let mut out: Vec<char> = Vec::new();
    let mut i: usize = 0;
    let ghost all = formatted(fmt@, 0, p);
    assert(out@ + all =~= all);
    while i < f.len()
        invariant
            i <= f@.len(),
            f@ == fmt@,
            instant(ms, p),
            p == instant_parts(ms),
            all == formatted(fmt@, 0, p),
            -1_000_000_000 <= p.0 <= 1_000_000_000,
            out@ + formatted(fmt@, i as int, p) == all,
        decreases f@.len() - i,
    {
        let ghost before = out@;
        if f[i] != '%' {
            out.push(f[i]);
            assert(before + formatted(fmt@, i as int, p) =~= out@ + formatted(fmt@, i + 1, p));
            i = i + 1;
        } else if i + 1 >= f.len() {
            out.push('%');
            assert(before + formatted(fmt@, i as int, p) =~= out@ + formatted(fmt@, i + 1, p));
            i = i + 1;
        } else {
            let c: char = f[i + 1];
            if c == 'Y' {
                push_padded(&mut out, p.0, 4);
            } else if c == 'm' {
                push_padded(&mut out, p.1 as i64, 2);
            } else if c == 'd' {
                push_padded(&mut out, p.2 as i64, 2);
            } else if c == 'H' {
                push_padded(&mut out, p.3 as i64, 2);
            } else if c == 'M' {
                push_padded(&mut out, p.4 as i64, 2);
            } else if c == 'S' {
                push_padded(&mut out, p.5 as i64, 2);
            } else if c == 'j' {
                let doy: i64 = days_from_civil(p.0, p.1 as i64, p.2 as i64) - days_from_civil(
                    p.0,
                    1,
                    1,
                );
                push_padded(&mut out, doy + 1, 3);
            } else if c == '%' {
                out.push('%');
                assert(out@ =~= before + directive(c, p));
            } else {
                out.push('%');
                out.push(c);
                assert(out@ =~= before + directive(c, p));
            }
            assert(before + formatted(fmt@, i as int, p) =~= out@ + formatted(fmt@, i + 2, p));
            i = i + 2;
        }
    }
    assert(out@ + Seq::<char>::empty() =~= out@);
    string_of(out)
}

/// The parts of an instant are determined, so formatting has one outcome.
pub proof fn instant_unique(
    ms: i64,
    p: (i64, u32, u32, u32, u32, u32),
    q: (i64, u32, u32, u32, u32, u32),
)
    requires
        instant(ms, p),
        instant(ms, q),
    ensures
        p == q,
{
    let a = civil_days(p.0 as int, p.1 as int, p.2 as int);
    let b = civil_days(q.0 as int, q.1 as int, q.2 as int);
    let t = p.3 * 3_600 + p.4 * 60 + p.5;
    let u = q.3 * 3_600 + q.4 * 60 + q.5;
    assert(0 <= t < 86_400);
    assert(0 <= u < 86_400);
    assert(a == b);
    civil_date_unique(p.0 as int, p.1 as int, p.2 as int, q.0 as int, q.1 as int, q.2 as int);
}

// --- RFC 3339 ---

pub open spec fn digit_byte(b: u8) -> bool {
    0x30 <= b <= 0x39
}

/// The number that a run of decimal digits denotes.
pub open spec fn number(b: Seq<u8>) -> int
    decreases b.len(),
{
    if b.len() == 0 {
        0
    } else {
        10 * number(b.drop_last()) + (b.last() - 0x30)
    }
}

pub open spec fn all_digits(b: Seq<u8>) -> bool {
    forall|i: int| 0 <= i < b.len() ==> digit_byte(#[trigger] b[i])
}

/// The number of a field of digits, if all are digits.
fn parse_n(b: &[u8], lo: usize, hi: usize) -> (r: Option<i64>)
    requires
        lo <= hi <= b@.len(),
        hi - lo <= 4,
    ensures
        r is Some <==> all_digits(b@.subrange(lo as int, hi as int)),
        r is Some ==> r->0 == number(b@.subrange(lo as int, hi as int)) && 0 <= r->0 <= 9999,
{
    let mut n: i64 = 0;
    let mut i: usize = lo;
    let ghost all = b@.subrange(lo as int, hi as int);
    while i < hi
        invariant
            lo <= i <= hi <= b@.len(),
            hi - lo <= 4,
            all == b@.subrange(lo as int, hi as int),
            forall|k: int| lo <= k < i ==> digit_byte(b@[k]),
            n == number(b@.subrange(lo as int, i as int)),
            0 <= n,
            i - lo == 0 ==> n == 0,
            i - lo == 1 ==> n <= 9,
            i - lo == 2 ==> n <= 99,
            i - lo == 3 ==> n <= 999,
            i - lo == 4 ==> n <= 9999,
        decreases hi - i,
    {
        let c: u8 = b[i];
        if c < 0x30 || c > 0x39 {
            assert(!digit_byte(all[i - lo]));
            return None;
        }
        proof {
            let s = b@.subrange(lo as int, i + 1);
            assert(s.drop_last() =~= b@.subrange(lo as int, i as int));
        }
        n = n * 10 + (c - 0x30) as i64;
        i = i + 1;
    }
    Some(n)
}

/// The run of digits that starts at `i` ends before this position.
pub open spec fn digits_end(b: Seq<u8>, i: int) -> int
    decreases b.len() - i,
{
    if i < 0 || i >= b.len() || !digit_byte(b[i]) {
        i
    } else {
        digits_end(b, i + 1)
    }
}

/// Milliseconds of a fraction: its first three digits, filled up with zeros.
pub open spec fn fraction_ms(b: Seq<u8>) -> int {
    if b.len() >= 3 {
        number(b.take(3))
    } else if b.len() == 2 {
        10 * number(b)
    } else if b.len() == 1 {
        100 * number(b)
    } else {
        0
    }
}

/// The zone at `i`: minutes east of Greenwich, where exactly the rest of the text
/// is a zone.
pub open spec fn zone_at(b: Seq<u8>, i: int) -> Option<int> {
    if i >= b.len() {
        None
    } else if b[i] == 0x5A || b[i] == 0x7A {
        if i + 1 == b.len() {
            Some(0)
        } else {
            None
        }
    } else if b[i] == 0x2B || b[i] == 0x2D {
        if i + 6 != b.len() || b[i + 3] != 0x3A {
            None
        } else {
            let h = b.subrange(i + 1, i + 3);
            let m = b.subrange(i + 4, i + 6);
            if !all_digits(h) || !all_digits(m) || number(h) > 23 || number(m) > 59 {
                None
            } else if b[i] == 0x2B {
                Some(number(h) * 60 + number(m))
            } else {
                Some(-(number(h) * 60 + number(m)))
            }
        }
    } else {
        None
    }
}

/// The instant that an RFC 3339 text denotes, in milliseconds since the epoch.
pub open spec fn rfc3339(b: Seq<u8>) -> Option<int> {
    let (y, mo, d) = (b.subrange(0, 4), b.subrange(5, 7), b.subrange(8, 10));
    let (h, mi, s) = (b.subrange(11, 13), b.subrange(14, 16), b.subrange(17, 19));
    if b.len() < 20 || b[4] != 0x2D || b[7] != 0x2D || b[13] != 0x3A || b[16] != 0x3A || !(b[10]
        == 0x54 || b[10] == 0x74 || b[10] == 0x20) {
        None
    } else if !(all_digits(y) && all_digits(mo) && all_digits(d) && all_digits(h) && all_digits(mi)
        && all_digits(s)) {
        None
    } else if !(1 <= number(mo) <= 12 && 1 <= number(d) <= 31 && number(h) <= 23 && number(mi) <= 59
        && number(s) <= 59) {
        None
    } else {
        let dot = b[19] == 0x2E;
        let end = if dot {
            digits_end(b, 20)
        } else {
            19
        };
        if dot && end == 20 {
            None
        } else {
            match zone_at(b, end) {
                None => None,
                Some(zone) => {
                    let secs = civil_days(number(y), number(mo), number(d)) * 86_400 + number(h)
                        * 3_600 + number(mi) * 60 + number(s) - zone * 60;
                    Some(
                        secs * 1_000 + if dot {
                            fraction_ms(b.subrange(20, end))
                        } else {
                            0
                        },
                    )
                },
            }
        }
    }
}

fn zone_of(b: &[u8], i: usize) -> (r: Option<i64>)
    requires
        i <= b@.len(),
    ensures
        (match zone_at(b@, i as int) {
            Some(z) => r is Some && r->0 == z && -1439 <= z <= 1439,
            None => r is None,
        }),
{
    if i >= b.len() {
        return None;
    }
    let c: u8 = b[i];
    if c == 0x5A || c == 0x7A {
        if i + 1 == b.len() {
            Some(0)
        } else {
            None
        }
    } else if c == 0x2B || c == 0x2D {
        if b.len() - i != 6 || b[i + 3] != 0x3A {
            return None;
        }
        let h: i64 = match parse_n(b, i + 1, i + 3) {
            Some(n) => n,
            None => {
                return None;
            },
        };
        let m: i64 = match parse_n(b, i + 4, i + 6) {
            Some(n) => n,
            None => {
                return None;
            },
        };
        if h > 23 || m > 59 {
            return None;
        }
        if c == 0x2B {
            Some(h * 60 + m)
        } else {
            Some(-(h * 60 + m))
        }
    } else {
        None
    }
}

fn digits_end_of(b: &[u8], i: usize) -> (r: usize)
    requires
        i <= b@.len(),
    ensures
        r == digits_end(b@, i as int),
        i <= r <= b@.len(),
        all_digits(b@.subrange(i as int, r as int)),
{
    let mut k: usize = i;
    while k < b.len() && 0x30 <= b[k] && b[k] <= 0x39
        invariant
            i <= k <= b@.len(),
            digits_end(b@, i as int) == digits_end(b@, k as int),
            forall|j: int| i <= j < k ==> digit_byte(b@[j]),
        decreases b@.len() - k,
    {
        k = k + 1;
    }
    k
}

/// Milliseconds since the epoch of an RFC 3339 text
/// (`YYYY-MM-DDTHH:MM:SS[.fff](Z|±HH:MM)`), zero for instants before the epoch;
/// `None` where the text is not of that form.
pub fn parse_rfc3339_ms(s: &str) -> (r: Option<u64>)
    ensures
        (match rfc3339(encode_utf8(s@)) {
            Some(ms) => r is Some && r->0 == (if ms < 0 {
                0
            } else {
                ms
            }),
            None => r is None,
        }),
{
    let b = s.as_bytes();
    if b.len() < 20 {
        return None;
    }
    if b[4] != 0x2D || b[7] != 0x2D || b[13] != 0x3A || b[16] != 0x3A {
        return None;
    }
    if !(b[10] == 0x54 || b[10] == 0x74 || b[10] == 0x20) {
        return None;
    }
    let (year, month, day): (i64, i64, i64) = match (
        parse_n(b, 0, 4),
        parse_n(b, 5, 7),
        parse_n(b, 8, 10),
    ) {
        (Some(x), Some(y), Some(z)) => (x, y, z),
        _ => {
            return None;
        },
    };
    let (hour, min, sec): (i64, i64, i64) = match (
        parse_n(b, 11, 13),
        parse_n(b, 14, 16),
        parse_n(b, 17, 19),
    ) {
        (Some(x), Some(y), Some(z)) => (x, y, z),
        _ => {
            return None;
        },
    };
    if month < 1 || month > 12 || day < 1 || day > 31 || hour > 23 || min > 59 || sec > 59 {
        return None;
    }
    let mut i: usize = 19;
    let mut millis: i64 = 0;
    if b[19] == 0x2E {
        i = digits_end_of(b, 20);
        if i == 20 {
            return None;
        }
        let ghost f = b@.subrange(20, i as int);
        let k: usize = if i - 20 < 3 {
            i
        } else {
            23
        };
        assert forall|j: int| 0 <= j < k - 20 implies digit_byte(#[trigger] b@.subrange(20, k as int)[j]) by {
            assert(digit_byte(f[j]));
        }
        millis = match parse_n(b, 20, k) {
            Some(n) => n,
            None => {
                assert(false);
                0
            },
        };
        proof {
            assert(f.len() >= 3 ==> f.take(3) =~= b@.subrange(20, 23));
            lemma_short_number(b@.subrange(20, k as int));
        }
        if k == 21 {
            millis = millis * 100;
        } else if k == 22 {
            millis = millis * 10;
        }
        assert(millis == fraction_ms(f));
    }
    let zone: i64 = match zone_of(b, i) {
        Some(z) => z,
        None => {
            return None;
        },
    };
    proof {
        lemma_days_bound(year as int, month as int, day as int);
    }
    let days: i64 = days_from_civil(year, month, day);
    let secs: i64 = days * 86_400 + hour * 3_600 + min * 60 + sec - zone * 60;
    let ms: i64 = secs * 1_000 + millis;
    if ms < 0 {
        Some(0)
    } else {
        Some(ms as u64)
    }
}

proof fn lemma_short_number(b: Seq<u8>)
    requires
        all_digits(b),
        b.len() <= 3,
    ensures
        0 <= number(b) <= 999,
        b.len() <= 2 ==> number(b) <= 99,
        b.len() <= 1 ==> number(b) <= 9,
{
    reveal_with_fuel(number, 4);
    if b.len() > 0 {
        assert(digit_byte(b[b.len() - 1]));
        let c = b.drop_last();
        if c.len() > 0 {
            assert(digit_byte(b[b.len() - 2]));
            let d = c.drop_last();
            if d.len() > 0 {
                assert(digit_byte(b[b.len() - 3]));
            }
        }
    }
}

proof fn lemma_days_bound(y: int, m: int, d: int)
    requires
        0 <= y <= 9999,
        1 <= m <= 12,
        1 <= d <= 31,
    ensures
        -1_000_000 <= civil_days(y, m, d) <= 4_000_000,
{
}

} // verus!
