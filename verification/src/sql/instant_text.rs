//! An instant is read back from its text.
use vstd::prelude::*;
#[allow(unused_imports)]
use vstd::utf8::{encode_utf8, is_ascii_chars, is_ascii_chars_encode_utf8};

#[allow(unused_imports)]
use crate::sql::datetime::{all_digits, civil_days, directive, formatted, instant, instant_parts, instant_unique, is_leap, lemma_year_len, month_len, month_start, number, padded, rfc3339, year_start, zone_at};
#[allow(unused_imports)]
use crate::text::{digit_char, nat_text};

verus! {

proof fn lemma_year_of(z: int, lo: int) -> (y: int)
    requires
        lo <= 9999,
        year_start(lo) <= z < year_start(10_000),
    ensures
        lo <= y <= 9999,
        year_start(y) <= z < year_start(y + 1),
    decreases 10_000 - lo,
{
    lemma_year_len(lo);
    if z < year_start(lo + 1) {
        lo
    } else {
        lemma_year_of(z, lo + 1)
    }
}

proof fn lemma_month_of(y: int, k: int) -> (m: int)
    requires
        0 <= k < (if is_leap(y) {
            366int
        } else {
            365
        }),
    ensures
        1 <= m <= 12,
        month_start(y, m) <= k < month_start(y, m) + month_len(y, m),
{
    if k < month_start(y, 2) {
        1
    } else if k < month_start(y, 3) {
        2
    } else if k < month_start(y, 4) {
        3
    } else if k < month_start(y, 5) {
        4
    } else if k < month_start(y, 6) {
        5
    } else if k < month_start(y, 7) {
        6
    } else if k < month_start(y, 8) {
        7
    } else if k < month_start(y, 9) {
        8
    } else if k < month_start(y, 10) {
        9
    } else if k < month_start(y, 11) {
        10
    } else if k < month_start(y, 12) {
        11
    } else {
        12
    }
}

/// The instants of the years 0 to 9999 have parts.
proof fn lemma_parts_of(ms: i64)
    requires
        -62_167_219_200_000 <= ms <= 253_402_300_799_999,
    ensures
        instant(ms, instant_parts(ms)),
        0 <= instant_parts(ms).0 <= 9999,
{
    let secs = ms as int / 1000;
    let z = secs / 86_400;
    let tod = secs % 86_400;
    assert(year_start(0) * 86_400 == -62_167_219_200);
    assert(year_start(10_000) * 86_400 == 253_402_300_800);
    let y = lemma_year_of(z, 0);
    lemma_year_len(y);
    let m = lemma_month_of(y, z - year_start(y));
    let d = z - year_start(y) - month_start(y, m) + 1;
    let p = (
        y as i64,
        m as u32,
        d as u32,
        (tod / 3600) as u32,
        ((tod % 3600) / 60) as u32,
        (tod % 60) as u32,
    );
    assert(civil_days(y, m, d) == z);
    assert((tod / 3600) * 3600 + ((tod % 3600) / 60) * 60 + tod % 60 == tod);
    assert(instant(ms, p));
    instant_unique(ms, p, instant_parts(ms));
}

proof fn lemma_two_digits(n: int)
    requires
        0 <= n <= 99,
    ensures
        padded(n, 2) == seq![digit_char(n / 10), digit_char(n % 10)],
{
    reveal_with_fuel(nat_text, 2);
    if n < 10 {
        assert(padded(n, 2) =~= seq![digit_char(n / 10), digit_char(n % 10)]);
    } else {
        assert(nat_text(n as nat) =~= seq![digit_char(n / 10), digit_char(n % 10)]);
        assert(padded(n, 2) =~= seq![digit_char(n / 10), digit_char(n % 10)]);
    }
}

proof fn lemma_four_digits(n: int)
    requires
        0 <= n <= 9999,
    ensures
        padded(n, 4) == seq![
            digit_char(n / 1000),
            digit_char(n / 100 % 10),
            digit_char(n / 10 % 10),
            digit_char(n % 10),
        ],
{
    reveal_with_fuel(nat_text, 4);
    let want = seq![
        digit_char(n / 1000),
        digit_char(n / 100 % 10),
        digit_char(n / 10 % 10),
        digit_char(n % 10),
    ];
    assert(n / 10 / 10 == n / 100);
    assert(n / 100 / 10 == n / 1000);
    if n < 10 {
        assert(padded(n, 4) =~= want);
    } else if n < 100 {
        assert(nat_text(n as nat) =~= seq![want[2], want[3]]);
        assert(padded(n, 4) =~= want);
    } else if n < 1000 {
        assert(nat_text((n / 10) as nat) =~= seq![want[1], want[2]]);
        assert(nat_text(n as nat) =~= seq![want[1], want[2], want[3]]);
        assert(padded(n, 4) =~= want);
    } else {
        assert(nat_text((n / 100) as nat) =~= seq![want[0], want[1]]);
        assert(nat_text((n / 10) as nat) =~= seq![want[0], want[1], want[2]]);
        assert(nat_text(n as nat) =~= want);
        assert(padded(n, 4) =~= want);
    }
}

proof fn lemma_two_number(b: Seq<u8>, n: int)
    requires
        0 <= n <= 99,
        b.len() == 2,
        b[0] == 0x30 + n / 10,
        b[1] == 0x30 + n % 10,
    ensures
        all_digits(b),
        number(b) == n,
{
    reveal_with_fuel(number, 3);
    assert(b.drop_last().drop_last() =~= Seq::empty());
}

proof fn lemma_four_number(b: Seq<u8>, n: int)
    requires
        0 <= n <= 9999,
        b.len() == 4,
        b[0] == 0x30 + n / 1000,
        b[1] == 0x30 + n / 100 % 10,
        b[2] == 0x30 + n / 10 % 10,
        b[3] == 0x30 + n % 10,
    ensures
        all_digits(b),
        number(b) == n,
{
    let c = b.drop_last().drop_last();
    lemma_two_number(c, n / 100);
    assert(number(b.drop_last()) == 10 * number(c) + (b.drop_last().last() - 0x30));
    assert(number(b) == 10 * number(b.drop_last()) + (b.last() - 0x30));
}

/// A conversion character stands for its part, and any other character for itself.
proof fn lemma_step(f: Seq<char>, i: int, p: (i64, u32, u32, u32, u32, u32))
    requires
        0 <= i < f.len(),
        f[i] == '%' ==> i + 1 < f.len(),
    ensures
        formatted(f, i, p) == (if f[i] == '%' {
            directive(f[i + 1], p) + formatted(f, i + 2, p)
        } else {
            seq![f[i]] + formatted(f, i + 1, p)
        }),
{
}

/// The text of an instant as `YYYY-MM-DDTHH:MM:SSZ`.
proof fn lemma_iso_text(p: (i64, u32, u32, u32, u32, u32))
    ensures
        formatted("%Y-%m-%dT%H:%M:%SZ"@, 0, p) == padded(p.0 as int, 4) + (seq!['-'] + (padded(p.1 as int, 2)
            + (seq!['-'] + (padded(p.2 as int, 2) + (seq!['T'] + (padded(p.3 as int, 2) + (seq![':'] + (padded(
            p.4 as int,
            2,
        ) + (seq![':'] + (padded(p.5 as int, 2) + seq!['Z'])))))))))),
{
    reveal_strlit("%Y-%m-%dT%H:%M:%SZ");
    let f = "%Y-%m-%dT%H:%M:%SZ"@;
    lemma_step(f, 0, p);
    lemma_step(f, 2, p);
    lemma_step(f, 3, p);
    lemma_step(f, 5, p);
    lemma_step(f, 6, p);
    lemma_step(f, 8, p);
    lemma_step(f, 9, p);
    lemma_step(f, 11, p);
    lemma_step(f, 12, p);
    lemma_step(f, 14, p);
    lemma_step(f, 15, p);
    lemma_step(f, 17, p);
    assert(formatted(f, 18, p) =~= Seq::empty());
    assert(formatted(f, 17, p) =~= seq!['Z']);
}

proof fn lemma_digit(d: int)
    requires
        0 <= d <= 9,
    ensures
        '0' <= digit_char(d) <= '9',
        digit_char(d) as u8 == 0x30 + d,
{
}

/// The characters of that text.
proof fn lemma_iso_chars(p: (i64, u32, u32, u32, u32, u32))
    requires
        0 <= p.0 <= 9999,
        p.1 <= 99 && p.2 <= 99 && p.3 <= 99 && p.4 <= 99 && p.5 <= 99,
    ensures
        formatted("%Y-%m-%dT%H:%M:%SZ"@, 0, p) == seq![
            digit_char(p.0 as int / 1000),
            digit_char(p.0 as int / 100 % 10),
            digit_char(p.0 as int / 10 % 10),
            digit_char(p.0 as int % 10),
            '-',
            digit_char(p.1 as int / 10),
            digit_char(p.1 as int % 10),
            '-',
            digit_char(p.2 as int / 10),
            digit_char(p.2 as int % 10),
            'T',
            digit_char(p.3 as int / 10),
            digit_char(p.3 as int % 10),
            ':',
            digit_char(p.4 as int / 10),
            digit_char(p.4 as int % 10),
            ':',
            digit_char(p.5 as int / 10),
            digit_char(p.5 as int % 10),
            'Z',
        ],
{
    lemma_iso_text(p);
    lemma_four_digits(p.0 as int);
    lemma_two_digits(p.1 as int);
    lemma_two_digits(p.2 as int);
    lemma_two_digits(p.3 as int);
    lemma_two_digits(p.4 as int);
    lemma_two_digits(p.5 as int);
}

/// A run of two digits at `i` reads as the number that it writes.
proof fn lemma_two_read(t: Seq<char>, b: Seq<u8>, i: int, n: int)
    requires
        0 <= i && i + 2 <= t.len() && t.len() == b.len(),
        t[i] as u8 == b[i] && t[i + 1] as u8 == b[i + 1],
        0 <= n <= 99,
        t[i] == digit_char(n / 10),
        t[i + 1] == digit_char(n % 10),
    ensures
        all_digits(b.subrange(i, i + 2)),
        number(b.subrange(i, i + 2)) == n,
{
    lemma_digit(n / 10);
    lemma_digit(n % 10);
    lemma_two_number(b.subrange(i, i + 2), n);
}

proof fn lemma_four_read(t: Seq<char>, b: Seq<u8>, n: int)
    requires
        4 <= t.len() && t.len() == b.len(),
        t[0] as u8 == b[0] && t[1] as u8 == b[1] && t[2] as u8 == b[2] && t[3] as u8 == b[3],
        0 <= n <= 9999,
        t[0] == digit_char(n / 1000),
        t[1] == digit_char(n / 100 % 10),
        t[2] == digit_char(n / 10 % 10),
        t[3] == digit_char(n % 10),
    ensures
        all_digits(b.subrange(0, 4)),
        number(b.subrange(0, 4)) == n,
{
    lemma_digit(n / 1000);
    lemma_digit(n / 100 % 10);
    lemma_digit(n / 10 % 10);
    lemma_digit(n % 10);
    lemma_four_number(b.subrange(0, 4), n);
}

proof fn lemma_iso_ascii(p: (i64, u32, u32, u32, u32, u32))
    requires
        0 <= p.0 <= 9999,
        p.1 <= 99 && p.2 <= 99 && p.3 <= 99 && p.4 <= 99 && p.5 <= 99,
    ensures
        is_ascii_chars(formatted("%Y-%m-%dT%H:%M:%SZ"@, 0, p)),
{
    lemma_iso_chars(p);
    assert forall|d: int| 0 <= d <= 9 implies '0' <= #[trigger] digit_char(d) <= '9' by {
        lemma_digit(d);
    }
}

/// An instant of the years 0 to 9999 that is written as `YYYY-MM-DDTHH:MM:SSZ` is read back
/// without its milliseconds.
pub proof fn instant_round_trip(ms: i64)
    requires
        -62_167_219_200_000 <= ms <= 253_402_300_799_999,
    ensures
        rfc3339(encode_utf8(formatted("%Y-%m-%dT%H:%M:%SZ"@, 0, instant_parts(ms)))) == Some(
            ms - ms as int % 1000,
        ),
{
    lemma_parts_of(ms);
    let p = instant_parts(ms);
    let t = formatted("%Y-%m-%dT%H:%M:%SZ"@, 0, p);
    lemma_iso_ascii(p);
    lemma_iso_chars(p);
    is_ascii_chars_encode_utf8(t);
    let b = encode_utf8(t);
    lemma_four_read(t, b, p.0 as int);
    lemma_two_read(t, b, 5, p.1 as int);
    lemma_two_read(t, b, 8, p.2 as int);
    lemma_two_read(t, b, 11, p.3 as int);
    lemma_two_read(t, b, 14, p.4 as int);
    lemma_two_read(t, b, 17, p.5 as int);
    assert(t[4] == '-' && t[7] == '-' && t[10] == 'T' && t[13] == ':' && t[16] == ':' && t[19] == 'Z');
    assert(zone_at(b, 19) == Some(0int));
}

} // verus!
