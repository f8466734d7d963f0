//! Text patterns: `LIKE` and `GLOB`.
use vstd::prelude::*;
use vstd::slice::slice_subrange;

verus! {

/// `s` matches the pattern `p`, where `%` stands for any text and `_` for any
/// character.
pub open spec fn like(p: Seq<char>, s: Seq<char>) -> bool
    decreases p.len(),
{
    if p.len() == 0 {
        s.len() == 0
    } else if p[0] == '%' {
        exists|i: int| 0 <= i <= s.len() && like(p.drop_first(), #[trigger] s.skip(i))
    } else if p[0] == '_' {
        s.len() > 0 && like(p.drop_first(), s.drop_first())
    } else {
        s.len() > 0 && s[0] == p[0] && like(p.drop_first(), s.drop_first())
    }
}

/// `LIKE`, sensitive to case.
pub fn like_match(pattern: &[char], s: &[char]) -> (r: bool)
    ensures
        r == like(pattern@, s@),
    decreases pattern@.len(),
{
    if pattern.len() == 0 {
        return s.len() == 0;
    }
    let rest = slice_subrange(pattern, 1, pattern.len());
    assert(rest@ =~= pattern@.drop_first());
    let c: char = pattern[0];
    if c == '%' {
        let n: usize = s.len();
        let mut i: usize = 0;
        while i <= n
            invariant
                n == s@.len(),
                i <= n + 1,
                pattern@.len() > 0,
                pattern@[0] == '%',
                rest@ == pattern@.drop_first(),
                forall|k: int| 0 <= k < i ==> !like(rest@, #[trigger] s@.skip(k)),
            decreases n + 1 - i,
        {
            let tail = slice_subrange(s, i, n);
            assert(tail@ =~= s@.skip(i as int));
            if like_match(rest, tail) {
                return true;
            }
            if i == n {
                return false;
            }
            i = i + 1;
        }
        false
    } else if c == '_' {
        if s.len() == 0 {
            return false;
        }
        let tail = slice_subrange(s, 1, s.len());
        assert(tail@ =~= s@.drop_first());
        like_match(rest, tail)
    } else {
        if s.len() == 0 || s[0] != c {
            return false;
        }
        let tail = slice_subrange(s, 1, s.len());
        assert(tail@ =~= s@.drop_first());
        like_match(rest, tail)
    }
}

/// A pattern without wildcards matches itself and nothing else.
pub proof fn like_literal(p: Seq<char>, s: Seq<char>)
    requires
        forall|i: int| 0 <= i < p.len() ==> p[i] != '%' && p[i] != '_',
    ensures
        like(p, s) == (p == s),
    decreases p.len(),
{
    if p.len() == 0 {
        assert(s.len() == 0 ==> p =~= s);
    } else if s.len() > 0 {
        like_literal(p.drop_first(), s.drop_first());
        if p[0] == s[0] && p.drop_first() == s.drop_first() {
            assert(p =~= seq![p[0]] + p.drop_first());
            assert(s =~= seq![s[0]] + s.drop_first());
        }
    }
}

/// A `%` in front matches whatever the rest matches at the end of the text.
pub proof fn like_any_prefix(p: Seq<char>, a: Seq<char>, b: Seq<char>)
    requires
        like(p, b),
    ensures
        like(seq!['%'] + p, a + b),
{
    let q = seq!['%'] + p;
    assert(q.drop_first() =~= p);
    assert((a + b).skip(a.len() as int) =~= b);
}

// --- GLOB ---

/// The end of the class that starts at `i`: its closing bracket, or the end of the
/// pattern.
pub open spec fn class_end(p: Seq<char>, i: int) -> int
    decreases p.len() - i,
{
    if i < 0 || i >= p.len() || p[i] == ']' {
        i
    } else if i + 2 < p.len() && p[i + 1] == '-' && p[i + 2] != ']' {
        class_end(p, i + 3)
    } else {
        class_end(p, i + 1)
    }
}

/// A range or a character of the class from `i` on covers `ch`.
pub open spec fn class_covers(p: Seq<char>, i: int, ch: char) -> bool
    decreases p.len() - i,
{
    if i < 0 || i >= p.len() || p[i] == ']' {
        false
    } else if i + 2 < p.len() && p[i + 1] == '-' && p[i + 2] != ']' {
        p[i] <= ch <= p[i + 2] || class_covers(p, i + 3, ch)
    } else {
        p[i] == ch || class_covers(p, i + 1, ch)
    }
}

pub open spec fn class_start(p: Seq<char>) -> int {
    if p.len() > 0 && p[0] == '^' {
        1
    } else {
        0
    }
}

/// Whether the class at the start of `p` (behind its opening bracket) accepts `ch`.
pub open spec fn class_accepts(p: Seq<char>, ch: char) -> bool {
    class_covers(p, class_start(p), ch) != (class_start(p) == 1)
}

/// The pattern behind the class.
pub open spec fn class_rest(p: Seq<char>) -> Seq<char> {
    let e = class_end(p, class_start(p));
    if e < p.len() {
        p.skip(e + 1)
    } else {
        Seq::empty()
    }
}

/// `s` matches the pattern `p`, where `*` stands for any text, `?` for any
/// character and `[...]` for a class of characters.
pub open spec fn glob(p: Seq<char>, s: Seq<char>) -> bool
    decreases p.len(),
{
    if p.len() == 0 {
        s.len() == 0
    } else if p[0] == '*' {
        exists|i: int| 0 <= i <= s.len() && glob(p.drop_first(), #[trigger] s.skip(i))
    } else if p[0] == '?' {
        s.len() > 0 && glob(p.drop_first(), s.drop_first())
    } else if p[0] == '[' {
        let rest = class_rest(p.drop_first());
        s.len() > 0 && class_accepts(p.drop_first(), s[0]) && rest.len() < p.len() && glob(
            rest,
            s.drop_first(),
        )
    } else {
        s.len() > 0 && s[0] == p[0] && glob(p.drop_first(), s.drop_first())
    }
}

/// Decides a class for `ch`; also gives the pattern behind it.
pub fn glob_class(p: &[char], ch: char) -> (r: (bool, &[char]))
    ensures
        r.0 == class_accepts(p@, ch),
        r.1@ == class_rest(p@),
        r.1@.len() <= p@.len(),
{
    let negate: bool = p.len() > 0 && p[0] == '^';
    let mut i: usize = if negate {
        1
    } else {
        0
    };
    let ghost start = class_start(p@);
    let mut matched: bool = false;
    while i < p.len() && p[i] != ']'
        invariant
            start <= i <= p@.len(),
            class_end(p@, start) == class_end(p@, i as int),
            class_covers(p@, start, ch) == (matched || class_covers(p@, i as int, ch)),
        decreases p@.len() - i,
    {
        if p.len() - i > 2 && p[i + 1] == '-' && p[i + 2] != ']' {
            if p[i] <= ch && ch <= p[i + 2] {
                matched = true;
            }
            i = i + 3;
        } else {
            if p[i] == ch {
                matched = true;
            }
            i = i + 1;
        }
    }
    if i < p.len() {
        let rest = slice_subrange(p, i + 1, p.len());
        assert(rest@ =~= p@.skip(i + 1));
        (matched != negate, rest)
    } else {
        let rest = slice_subrange(p, i, p.len());
        assert(rest@ =~= Seq::empty());
        (matched != negate, rest)
    }
}

/// `GLOB`, sensitive to case.
pub fn glob_match(pattern: &[char], s: &[char]) -> (r: bool)
    ensures
        r == glob(pattern@, s@),
    decreases pattern@.len(),
{
    if pattern.len() == 0 {
        return s.len() == 0;
    }
    let rest = slice_subrange(pattern, 1, pattern.len());
    assert(rest@ =~= pattern@.drop_first());
    let c: char = pattern[0];
    if c == '*' {
        let n: usize = s.len();
        let mut i: usize = 0;
        while i <= n
            invariant
                n == s@.len(),
                i <= n + 1,
                pattern@.len() > 0,
                pattern@[0] == '*',
                rest@ == pattern@.drop_first(),
                forall|k: int| 0 <= k < i ==> !glob(rest@, #[trigger] s@.skip(k)),
            decreases n + 1 - i,
        {
            let tail = slice_subrange(s, i, n);
            assert(tail@ =~= s@.skip(i as int));
            if glob_match(rest, tail) {
                return true;
            }
            if i == n {
                return false;
            }
            i = i + 1;
        }
        false
    } else {
        if s.len() == 0 {
            return false;
        }
        let tail = slice_subrange(s, 1, s.len());
        assert(tail@ =~= s@.drop_first());
        if c == '?' {
            glob_match(rest, tail)
        } else if c == '[' {
            let (accepted, after): (bool, &[char]) = glob_class(rest, s[0]);
            accepted && glob_match(after, tail)
        } else {
            s[0] == c && glob_match(rest, tail)
        }
    }
}

} // verus!
