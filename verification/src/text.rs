//! Text as sequences of characters: conversions between `str`, `String` and
//! `Vec<char>`, ASCII case, decimal numerals and UTF-8 lengths.
use vstd::prelude::*;
use vstd::string::StringExecFns;
#[allow(unused_imports)]
use vstd::utf8::{char_is_scalar, encode_utf8};

verus! {

/// `String::push` appends one character.
pub assume_specification[ String::push ](s: &mut String, c: char)
    ensures
        final(s)@ == old(s)@.push(c),
;

/// `String::from_iter` over characters: the string made of exactly those
/// characters, in order.
#[verifier::external_body]
pub(crate) fn string_of(chars: Vec<char>) -> (r: String)
    ensures
        r@ == chars@,
{
    String::from_iter(chars)
}

/// Equality of string slices (`<str as PartialEq>::eq`): two strings are equal
/// when they hold the same characters.
#[verifier::external_body]
pub(crate) fn str_eq(a: &str, b: &str) -> (r: bool)
    ensures
        r == (a@ == b@),
{
    a == b
}

/// The characters of a string, in order.
pub fn chars_of(s: &str) -> (r: Vec<char>)
    ensures
        r@ == s@,
{
    let mut v: Vec<char> = Vec::new();
    for c in it: s.chars()
        invariant
            v@ == s@.take(it.index()),
            it.seq() == s@,
    {
        v.push(c);
        assert(s@.take(it.index() + 1) =~= s@.take(it.index() as int).push(c));
    }
    assert(s@.take(s@.len() as int) =~= s@);
    v
}

/// The string made of the characters `lo..hi` of `chars`.
pub fn string_range(chars: &[char], lo: usize, hi: usize) -> (r: String)
    requires
        lo <= hi <= chars@.len(),
    ensures
        r@ == chars@.subrange(lo as int, hi as int),
{
    let mut out: Vec<char> = Vec::new();
    let mut i: usize = lo;
    while i < hi
        invariant
            lo <= i <= hi <= chars@.len(),
            out@ == chars@.subrange(lo as int, i as int),
        decreases hi - i,
    {
        out.push(chars[i]);
        assert(chars@.subrange(lo as int, i + 1) =~= chars@.subrange(lo as int, i as int).push(
            chars@[i as int],
        ));
        i = i + 1;
    }
    string_of(out)
}

/// Appends all of `src`.
pub fn push_chars(out: &mut Vec<char>, src: &[char])
    ensures
        final(out)@ == old(out)@ + src@,
{
    let mut i: usize = 0;
    assert(out@ =~= old(out)@ + src@.take(0));
    while i < src.len()
        invariant
            i <= src@.len(),
            out@ == old(out)@ + src@.take(i as int),
        decreases src@.len() - i,
    {
        out.push(src[i]);
        assert(src@.take(i + 1) =~= src@.take(i as int).push(src@[i as int]));
        i = i + 1;
    }
    assert(src@.take(i as int) =~= src@);
}

/// `a` followed by `b`.
pub fn cat(a: &str, b: &str) -> (r: String)
    ensures
        r@ == a@ + b@,
{
    let mut s = a.to_owned();
    s.append(b);
    s
}

/// `a`, `b` and `c` in a row.
pub fn cat3(a: &str, b: &str, c: &str) -> (r: String)
    ensures
        r@ == a@ + b@ + c@,
{
    let mut s = a.to_owned();
    s.append(b);
    s.append(c);
    s
}

/// Four strings in a row.
pub fn cat4(a: &str, b: &str, c: &str, d: &str) -> (r: String)
    ensures
        r@ == a@ + b@ + c@ + d@,
{
    let mut s = cat3(a, b, c);
    s.append(d);
    s
}

// --- ASCII case ---

/// Lower-cases `A`..`Z` and leaves every other character as it is.
pub open spec fn ascii_lower(c: char) -> char {
    if 'A' <= c <= 'Z' {
        ((c as u32) + 32) as char
    } else {
        c
    }
}

pub open spec fn ascii_lower_all(s: Seq<char>) -> Seq<char> {
    Seq::new(s.len(), |i: int| ascii_lower(s[i]))
}

/// Upper-cases `a`..`z` and leaves every other character as it is.
pub open spec fn ascii_upper(c: char) -> char {
    if 'a' <= c <= 'z' {
        ((c as u32) - 32) as char
    } else {
        c
    }
}

pub open spec fn ascii_upper_all(s: Seq<char>) -> Seq<char> {
    Seq::new(s.len(), |i: int| ascii_upper(s[i]))
}

pub fn lower_char(c: char) -> (r: char)
    ensures
        r == ascii_lower(c),
{
    if 'A' <= c && c <= 'Z' {
        (c as u8 + 32) as char
    } else {
        c
    }
}

pub fn upper_char(c: char) -> (r: char)
    ensures
        r == ascii_upper(c),
{
    if 'a' <= c && c <= 'z' {
        (c as u8 - 32) as char
    } else {
        c
    }
}

pub fn lower_ascii(s: &str) -> (r: String)
    ensures
        r@ == ascii_lower_all(s@),
{
    let chars = chars_of(s);
    let mut out: Vec<char> = Vec::new();
    let mut i: usize = 0;
    while i < chars.len()
        invariant
            chars@ == s@,
            i <= chars@.len(),
            out@.len() == i,
            forall|k: int| 0 <= k < i ==> out@[k] == ascii_lower(s@[k]),
        decreases chars@.len() - i,
    {
        out.push(lower_char(chars[i]));
        i = i + 1;
    }
    assert(out@ =~= ascii_lower_all(s@));
    string_of(out)
}

pub fn upper_ascii(s: &str) -> (r: String)
    ensures
        r@ == ascii_upper_all(s@),
{
    let chars = chars_of(s);
    let mut out: Vec<char> = Vec::new();
    let mut i: usize = 0;
    while i < chars.len()
        invariant
            chars@ == s@,
            i <= chars@.len(),
            out@.len() == i,
            forall|k: int| 0 <= k < i ==> out@[k] == ascii_upper(s@[k]),
        decreases chars@.len() - i,
    {
        out.push(upper_char(chars[i]));
        i = i + 1;
    }
    assert(out@ =~= ascii_upper_all(s@));
    string_of(out)
}

// --- decimal numerals ---

/// The decimal digit `d`.
pub open spec fn digit_char(d: int) -> char {
    (('0' as u32) + d) as char
}

/// The decimal numeral of `n`, without leading zeros.
pub open spec fn nat_text(n: nat) -> Seq<char>
    decreases n,
{
    if n < 10 {
        seq![digit_char(n as int)]
    } else {
        nat_text(n / 10).push(digit_char((n % 10) as int))
    }
}

/// The decimal numeral of `n`, with `-` in front of a negative number.
pub open spec fn int_text(n: int) -> Seq<char> {
    if n < 0 {
        seq!['-'] + nat_text((-n) as nat)
    } else {
        nat_text(n as nat)
    }
}

pub open spec fn is_digit(c: char) -> bool {
    '0' <= c <= '9'
}

/// The value of a decimal digit.
pub open spec fn digit_value(c: char) -> nat {
    ((c as u32) - ('0' as u32)) as nat
}

fn push_nat(out: &mut Vec<char>, n: u64)
    ensures
        final(out)@ == old(out)@ + nat_text(n as nat),
    decreases n,
{
    if n < 10 {
        out.push((48u8 + n as u8) as char);
        assert(out@ =~= old(out)@ + nat_text(n as nat));
    } else {
        push_nat(out, n / 10);
        out.push((48u8 + (n % 10) as u8) as char);
        assert(out@ =~= old(out)@ + nat_text(n as nat));
    }
}

/// The decimal numeral of an unsigned number.
pub fn u64_text(n: u64) -> (r: String)
    ensures
        r@ == nat_text(n as nat),
{
    let mut out: Vec<char> = Vec::new();
    push_nat(&mut out, n);
    assert(out@ =~= nat_text(n as nat));
    string_of(out)
}

/// The decimal numeral of a signed number.
pub fn i64_text(n: i64) -> (r: String)
    ensures
        r@ == int_text(n as int),
{
    let mut out: Vec<char> = Vec::new();
    if n < 0 {
        out.push('-');
        let m: u64 = (-(n as i128)) as u64;
        push_nat(&mut out, m);
        assert(out@ =~= int_text(n as int));
    } else {
        push_nat(&mut out, n as u64);
        assert(out@ =~= int_text(n as int));
    }
    string_of(out)
}

/// The number that decimal digits denote.
pub open spec fn digits_value(s: Seq<char>) -> nat
    decreases s.len(),
{
    if s.len() == 0 {
        0
    } else {
        10 * digits_value(s.drop_last()) + digit_value(s.last())
    }
}

pub open spec fn all_digits(s: Seq<char>) -> bool {
    forall|i: int| 0 <= i < s.len() ==> is_digit(#[trigger] s[i])
}

/// The number that a numeral without a sign denotes.
pub open spec fn nat_of(s: Seq<char>) -> Option<nat> {
    if s.len() > 0 && all_digits(s) {
        Some(digits_value(s))
    } else {
        None
    }
}

/// The number that a numeral with an optional sign denotes.
pub open spec fn int_of(s: Seq<char>) -> Option<int> {
    if s.len() > 0 && s[0] == '-' {
        match nat_of(s.drop_first()) {
            Some(n) => Some(-(n as int)),
            None => None,
        }
    } else if s.len() > 0 && s[0] == '+' {
        match nat_of(s.drop_first()) {
            Some(n) => Some(n as int),
            None => None,
        }
    } else {
        match nat_of(s) {
            Some(n) => Some(n as int),
            None => None,
        }
    }
}

/// The `i64` that a text denotes, if it is a numeral in range.
pub open spec fn i64_of(s: Seq<char>) -> Option<i64> {
    match int_of(s) {
        Some(n) => if i64::MIN <= n <= i64::MAX {
            Some(n as i64)
        } else {
            None
        },
        None => None,
    }
}

/// The `usize` that a text denotes, if it is a numeral in range; a minus sign is
/// not accepted.
pub open spec fn usize_of(s: Seq<char>) -> Option<usize> {
    if s.len() > 0 && s[0] == '-' {
        None
    } else {
        match int_of(s) {
            Some(n) => if n <= usize::MAX {
                Some(n as usize)
            } else {
                None
            },
            None => None,
        }
    }
}

proof fn lemma_digits_prefix(s: Seq<char>, i: int)
    requires
        0 <= i <= s.len(),
    ensures
        digits_value(s.take(i)) <= digits_value(s),
    decreases s.len() - i,
{
    if i < s.len() {
        lemma_digits_prefix(s, i + 1);
        assert(s.take(i + 1).drop_last() =~= s.take(i));
    } else {
        assert(s.take(i) =~= s);
    }
}

/// The digits from `lo` on: their value, saturated above `0x1_0000_0000_0000_0000`.
fn digits_from(s: &[char], lo: usize) -> (r: Option<u128>)
    requires
        lo <= s@.len(),
    ensures
        (match nat_of(s@.skip(lo as int)) {
            Some(n) => r is Some && (if n <= 0x1_0000_0000_0000_0000 {
                r->0 == n
            } else {
                r->0 > 0x1_0000_0000_0000_0000
            }),
            None => r is None,
        }),
{
    let ghost t = s@.skip(lo as int);
    if lo == s.len() {
        return None;
    }
    let mut acc: u128 = 0;
    let mut i: usize = lo;
    while i < s.len()
        invariant
            lo <= i <= s@.len(),
            t == s@.skip(lo as int),
            forall|k: int| 0 <= k < i - lo ==> is_digit(t[k]),
            acc <= 0x1_0000_0000_0000_0001,
            acc <= 0x1_0000_0000_0000_0000 ==> acc == digits_value(t.take(i - lo)),
            acc > 0x1_0000_0000_0000_0000 ==> digits_value(t.take(i - lo))
                > 0x1_0000_0000_0000_0000,
        decreases s@.len() - i,
    {
        let c: char = s[i];
        if !('0' <= c && c <= '9') {
            assert(!is_digit(t[i - lo]));
            return None;
        }
        assert(t.take(i - lo + 1).drop_last() =~= t.take(i - lo));
        if acc <= 0x1_0000_0000_0000_0000 {
            acc = acc * 10 + (c as u8 - 48) as u128;
            if acc > 0x1_0000_0000_0000_0000 {
                acc = 0x1_0000_0000_0000_0001;
            }
        }
        i = i + 1;
    }
    assert(t.take(i - lo) =~= t);
    Some(acc)
}

/// Reads a signed numeral (`str::parse::<i64>`).
pub fn parse_i64(s: &[char]) -> (r: Option<i64>)
    ensures
        r == i64_of(s@),
{
    assert(s@.skip(0) =~= s@);
    if s.len() > 0 && s[0] == '-' {
        assert(s@.skip(1) =~= s@.drop_first());
        match digits_from(s, 1) {
            Some(n) => if n <= 0x8000_0000_0000_0000 {
                Some((-(n as i128)) as i64)
            } else {
                None
            },
            None => None,
        }
    } else {
        let lo: usize = if s.len() > 0 && s[0] == '+' {
            1
        } else {
            0
        };
        assert(s@.len() > 0 ==> s@.skip(1) =~= s@.drop_first());
        match digits_from(s, lo) {
            Some(n) => if n <= 0x7FFF_FFFF_FFFF_FFFF {
                Some(n as i64)
            } else {
                None
            },
            None => None,
        }
    }
}

/// Reads an unsigned numeral (`str::parse::<usize>`).
pub fn parse_usize(s: &[char]) -> (r: Option<usize>)
    ensures
        r == usize_of(s@),
{
    assert(s@.skip(0) =~= s@);
    if s.len() > 0 && s[0] == '-' {
        return None;
    }
    let lo: usize = if s.len() > 0 && s[0] == '+' {
        1
    } else {
        0
    };
    assert(s@.len() > 0 ==> s@.skip(1) =~= s@.drop_first());
    match digits_from(s, lo) {
        Some(n) => if n <= usize::MAX as u128 {
            Some(n as usize)
        } else {
            None
        },
        None => None,
    }
}

/// A numeral reads back as the number it was made from.
pub proof fn numeral_round_trip(n: int)
    ensures
        int_of(int_text(n)) == Some(n),
{
    if n < 0 {
        lemma_nat_text((-n) as nat);
        assert(int_text(n).drop_first() =~= nat_text((-n) as nat));
    } else {
        lemma_nat_text(n as nat);
    }
}

pub proof fn lemma_nat_text(n: nat)
    ensures
        nat_text(n).len() > 0,
        all_digits(nat_text(n)),
        digits_value(nat_text(n)) == n,
    decreases n,
{
    if n >= 10 {
        lemma_nat_text(n / 10);
        assert(nat_text(n).drop_last() =~= nat_text(n / 10));
    } else {
        assert(nat_text(n).drop_last() =~= Seq::empty());
        reveal_with_fuel(digits_value, 2);
    }
}

/// `char::from_u32`: the character of a code point, where it is a scalar value.
#[verifier::external_body]
pub(crate) fn char_of_code(code: u32) -> (r: Option<char>)
    ensures
        (match r {
            Some(c) => is_scalar_value(code as int) && c == code as char,
            None => !is_scalar_value(code as int),
        }),
{
    char::from_u32(code)
}

/// Code points that are characters.
pub open spec fn is_scalar_value(code: int) -> bool {
    0 <= code < 0xD800 || 0xE000 <= code <= 0x10FFFF
}

/// The value of a hexadecimal digit.
pub open spec fn hex_value(c: char) -> Option<nat> {
    if '0' <= c <= '9' {
        Some(((c as u32) - ('0' as u32)) as nat)
    } else if 'a' <= c <= 'f' {
        Some(((c as u32) - ('a' as u32) + 10) as nat)
    } else if 'A' <= c <= 'F' {
        Some(((c as u32) - ('A' as u32) + 10) as nat)
    } else {
        None
    }
}

pub fn hex_digit(c: char) -> (r: Option<u32>)
    ensures
        (match hex_value(c) {
            Some(v) => r is Some && r->0 == v && v <= 15,
            None => r is None,
        }),
{
    if '0' <= c && c <= '9' {
        Some(c as u32 - 48)
    } else if 'a' <= c && c <= 'f' {
        Some(c as u32 - 97 + 10)
    } else if 'A' <= c && c <= 'F' {
        Some(c as u32 - 65 + 10)
    } else {
        None
    }
}

/// The hexadecimal digit `d`, in lower or upper case.
pub open spec fn hex_char(d: int, upper: bool) -> char {
    if d < 10 {
        (('0' as u32) + d) as char
    } else if upper {
        (('A' as u32) + d - 10) as char
    } else {
        (('a' as u32) + d - 10) as char
    }
}

pub fn hex_of(d: u8, upper: bool) -> (r: char)
    requires
        d < 16,
    ensures
        r == hex_char(d as int, upper),
{
    if d < 10 {
        (48 + d) as char
    } else if upper {
        (65 + (d - 10)) as char
    } else {
        (97 + (d - 10)) as char
    }
}

// --- white space ---

/// Characters with the Unicode property `White_Space`.
pub open spec fn is_space(c: char) -> bool {
    let n = c as u32;
    (9 <= n <= 13) || n == 0x20 || n == 0x85 || n == 0xA0 || n == 0x1680 || (0x2000 <= n <= 0x200A)
        || n == 0x2028 || n == 0x2029 || n == 0x202F || n == 0x205F || n == 0x3000
}

pub fn space(c: char) -> (r: bool)
    ensures
        r == is_space(c),
{
    let n: u32 = c as u32;
    (9 <= n && n <= 13) || n == 0x20 || n == 0x85 || n == 0xA0 || n == 0x1680 || (0x2000 <= n && n
        <= 0x200A) || n == 0x2028 || n == 0x2029 || n == 0x202F || n == 0x205F || n == 0x3000
}

/// `s` without the white space at its start.
pub open spec fn trim_start(s: Seq<char>) -> Seq<char>
    decreases s.len(),
{
    if s.len() > 0 && is_space(s[0]) {
        trim_start(s.drop_first())
    } else {
        s
    }
}

/// `s` without the white space at its end.
pub open spec fn trim_end(s: Seq<char>) -> Seq<char>
    decreases s.len(),
{
    if s.len() > 0 && is_space(s.last()) {
        trim_end(s.drop_last())
    } else {
        s
    }
}

/// The bounds of `s` trimmed at the start, at the end, or both.
pub fn trim_bounds(s: &[char], start: bool, end: bool) -> (r: (usize, usize))
    ensures
        r.0 <= r.1 <= s@.len(),
        s@.subrange(r.0 as int, r.1 as int) == (match (start, end) {
            (true, true) => trim_end(trim_start(s@)),
            (true, false) => trim_start(s@),
            (false, true) => trim_end(s@),
            (false, false) => s@,
        }),
{
    let mut lo: usize = 0;
    assert(s@.skip(0) =~= s@);
    if start {
        while lo < s.len() && space(s[lo])
            invariant
                lo <= s@.len(),
                trim_start(s@) == trim_start(s@.skip(lo as int)),
            decreases s@.len() - lo,
        {
            assert(s@.skip(lo as int).drop_first() =~= s@.skip(lo + 1));
            lo = lo + 1;
        }
    }
    let mut hi: usize = s.len();
    assert(s@.subrange(lo as int, hi as int) =~= s@.skip(lo as int));
    if end {
        let ghost t = s@.skip(lo as int);
        while lo < hi && space(s[hi - 1])
            invariant
                lo <= hi <= s@.len(),
                t == s@.skip(lo as int),
                trim_end(t) == trim_end(s@.subrange(lo as int, hi as int)),
            decreases hi - lo,
        {
            assert(s@.subrange(lo as int, hi as int).drop_last() =~= s@.subrange(
                lo as int,
                hi - 1,
            ));
            hi = hi - 1;
        }
    }
    (lo, hi)
}

// --- UTF-8 lengths ---

/// The number of bytes of `c` in UTF-8.
pub open spec fn char_width(c: char) -> nat {
    if (c as u32) < 0x80 {
        1
    } else if (c as u32) < 0x800 {
        2
    } else if (c as u32) < 0x1_0000 {
        3
    } else {
        4
    }
}

/// The number of bytes of `s` in UTF-8.
pub open spec fn text_width(s: Seq<char>) -> nat
    decreases s.len(),
{
    if s.len() == 0 {
        0
    } else {
        text_width(s.drop_last()) + char_width(s.last())
    }
}

/// `at` is the byte offset of a character of `s`, or of its end.
pub open spec fn boundary(s: Seq<char>, at: nat) -> bool {
    exists|k: int| 0 <= k <= s.len() && text_width(#[trigger] s.take(k)) == at
}

/// The number of characters of `s` that end at or before the byte offset `at`.
pub open spec fn char_index(s: Seq<char>, at: nat) -> nat
    decreases s.len(),
{
    if s.len() == 0 || text_width(s) <= at {
        s.len()
    } else {
        char_index(s.drop_last(), at)
    }
}

/// The characters of `s` between two byte offsets.
pub open spec fn slice(s: Seq<char>, lo: nat, hi: nat) -> Seq<char> {
    s.subrange(char_index(s, lo) as int, char_index(s, hi) as int)
}

/// `str::get` with a range of byte offsets: the part of the text between them,
/// where both are boundaries of characters and in order.
#[verifier::external_body]
pub(crate) fn slice_of(s: &str, lo: usize, hi: usize) -> (r: Option<&str>)
    ensures
        (match r {
            Some(t) => lo <= hi && boundary(s@, lo as nat) && boundary(s@, hi as nat) && t@ == slice(
                s@,
                lo as nat,
                hi as nat,
            ),
            None => !(lo <= hi && boundary(s@, lo as nat) && boundary(s@, hi as nat)),
        }),
{
    s.get(lo..hi)
}

/// Longer prefixes are wider.
pub proof fn lemma_take_width(s: Seq<char>, i: int, j: int)
    requires
        0 <= i <= j <= s.len(),
    ensures
        text_width(s.take(i)) + (j - i) <= text_width(s.take(j)),
    decreases j - i,
{
    if i < j {
        lemma_take_width(s, i, j - 1);
        assert(s.take(j).drop_last() =~= s.take(j - 1));
    }
}

/// The width of a text is the number of its bytes.
pub proof fn lemma_text_bytes(s: Seq<char>)
    ensures
        encode_utf8(s).len() == text_width(s),
    decreases s.len(),
{
    if s.len() > 0 {
        lemma_text_bytes(s.drop_first());
        lemma_first_width(s);
        char_is_scalar(s[0]);
    }
}

proof fn lemma_first_width(s: Seq<char>)
    requires
        s.len() > 0,
    ensures
        text_width(s) == char_width(s[0]) + text_width(s.drop_first()),
    decreases s.len(),
{
    if s.len() == 1 {
        assert(s.drop_last() =~= Seq::empty());
        assert(s.drop_first() =~= Seq::empty());
    } else {
        lemma_first_width(s.drop_last());
        assert(s.drop_last().drop_first() =~= s.drop_first().drop_last());
    }
}

pub fn utf8_width(c: char) -> (r: usize)
    ensures
        r == char_width(c),
        1 <= r <= 4,
{
    let n: u32 = c as u32;
    if n < 0x80 {
        1
    } else if n < 0x800 {
        2
    } else if n < 0x1_0000 {
        3
    } else {
        4
    }
}

} // verus!
