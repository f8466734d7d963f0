//! Product quantisation: the codebooks of the parts of a vector, their bytes, and the code
//! of a vector.
//!
//! The numbers of a centroid are held by the bit patterns of 32-bit reals; distances come
//! from outside in the same form.
use vstd::prelude::*;

use crate::bytes::{push_le, read_le};
#[allow(unused_imports)]
use crate::bytes::{le_bytes, le_value, lemma_le_bytes_len, lemma_le_round_trip, lemma_le_value_bound, lemma_pow256_values};
use crate::ivf::nearest;
#[allow(unused_imports)]
use crate::ivf::nearest_place;

verus! {

/// Centroids of a part, at most: a code has one byte.
pub const CENTROIDS: usize = 256;

/// The codebooks of a quantiser.
#[derive(Debug)]
pub struct Pq {
    /// The number of parts, which is the length of a code.
    pub m: usize,
    /// The length of a whole vector.
    pub dim: usize,
    bounds: Vec<usize>,
    codebooks: Vec<Vec<Vec<u32>>>,
}

/// A quantiser: for each part the centroids, each by its numbers.
#[verifier::ext_equal]
pub ghost struct PqV {
    pub m: usize,
    pub dim: usize,
    pub codebooks: Seq<Seq<Seq<u32>>>,
}

pub open spec fn centroids_v(s: Seq<Vec<u32>>) -> Seq<Seq<u32>> {
    Seq::new(s.len(), |i: int| s[i]@)
}

pub open spec fn codebooks_v(s: Seq<Vec<Vec<u32>>>) -> Seq<Seq<Seq<u32>>> {
    Seq::new(s.len(), |i: int| centroids_v(s[i]@))
}

impl View for Pq {
    type V = PqV;

    closed spec fn view(&self) -> PqV {
        PqV { m: self.m, dim: self.dim, codebooks: codebooks_v(self.codebooks@) }
    }
}

/// Where part `i` starts: the parts are as even as they can be.
pub open spec fn bound(m: int, dim: int, i: int) -> int {
    if m == 0 {
        0
    } else {
        i * dim / m
    }
}

/// The length of part `s`.
pub open spec fn width(m: int, dim: int, s: int) -> int {
    bound(m, dim, s + 1) - bound(m, dim, s)
}

/// The parts of a vector cover it from its start to its end, and none overlaps another.
pub proof fn parts_cover(m: int, dim: int, s: int)
    requires
        0 < m,
        0 <= dim,
        0 <= s < m,
    ensures
        bound(m, dim, 0) == 0,
        bound(m, dim, m) == dim,
        0 <= bound(m, dim, s) <= bound(m, dim, s + 1) <= dim,
{
    assert(0 * dim == 0) by (nonlinear_arith);
    assert(0int / m == 0) by (nonlinear_arith)
        requires
            0 < m,
    ;
    vstd::arithmetic::div_mod::lemma_div_multiples_vanish(dim, m);
    assert(m * dim == dim * m) by (nonlinear_arith);
    assert(0 <= s * dim <= (s + 1) * dim <= m * dim) by (nonlinear_arith)
        requires
            0 <= s < m,
            0 <= dim,
    ;
    vstd::arithmetic::div_mod::lemma_div_is_ordered(s * dim, (s + 1) * dim, m);
    vstd::arithmetic::div_mod::lemma_div_is_ordered((s + 1) * dim, m * dim, m);
    vstd::arithmetic::div_mod::lemma_div_pos_is_pos(s * dim, m);
}

/// The number of parts that a vector is split into when `m` are asked for.
pub open spec fn parts(m: usize, dim: usize) -> usize {
    if m < 1 || dim < 1 {
        1
    } else if m > dim {
        dim
    } else {
        m
    }
}

/// The number of parts, and where they start and end.
pub fn split(m: usize, dim: usize) -> (r: (usize, Vec<usize>))
    requires
        parts(m, dim) * dim <= usize::MAX,
    ensures
        r.0 == parts(m, dim),
        r.1@ == bounds_of(parts(m, dim) as int, dim as int),
{
    let n: usize = if m < 1 || dim < 1 {
        1
    } else if m > dim {
        dim
    } else {
        m
    };
    (n, bounds_list(n, dim))
}

pub open spec fn bounds_of(m: int, dim: int) -> Seq<usize> {
    Seq::new((m + 1) as nat, |i: int| bound(m, dim, i) as usize)
}

fn bounds_list(m: usize, dim: usize) -> (r: Vec<usize>)
    requires
        m * dim <= usize::MAX,
    ensures
        r@ == bounds_of(m as int, dim as int),
{
    let mut out: Vec<usize> = Vec::new();
    out.push(0);
    proof {
        if m > 0 {
            parts_cover(m as int, dim as int, 0);
        }
    }
    for i in 0..m
        invariant
            m * dim <= usize::MAX,
            out@.len() == i + 1,
            forall|x: int| 0 <= x <= i ==> #[trigger] out@[x] == bound(m as int, dim as int, x) as usize,
    {
        assert(0 <= (i + 1) * dim <= m * dim) by (nonlinear_arith)
            requires
                0 <= i < m,
                0 <= dim,
        ;
        out.push((i + 1) * dim / m);
    }
    assert(out@ =~= bounds_of(m as int, dim as int));
    out
}

// --- the bytes ---

pub open spec fn numbers_bytes(c: Seq<u32>) -> Seq<u8>
    decreases c.len(),
{
    if c.len() == 0 {
        Seq::empty()
    } else {
        numbers_bytes(c.drop_last()) + le_bytes(c.last() as nat, 4)
    }
}

pub open spec fn centroids_bytes(s: Seq<Seq<u32>>) -> Seq<u8>
    decreases s.len(),
{
    if s.len() == 0 {
        Seq::empty()
    } else {
        centroids_bytes(s.drop_last()) + numbers_bytes(s.last())
    }
}

pub open spec fn codebooks_bytes(s: Seq<Seq<Seq<u32>>>) -> Seq<u8>
    decreases s.len(),
{
    if s.len() == 0 {
        Seq::empty()
    } else {
        codebooks_bytes(s.drop_last()) + le_bytes(s.last().len() % 65536, 2) + centroids_bytes(s.last())
    }
}

/// The number of parts, the length of a vector, and each codebook behind its size.
pub open spec fn pq_bytes(p: PqV) -> Seq<u8> {
    le_bytes((p.m % 65536) as nat, 2) + le_bytes((p.dim % 65536) as nat, 2) + codebooks_bytes(p.codebooks)
}

/// `n` numbers from the start of some bytes.
pub open spec fn numbers_at(b: Seq<u8>, n: int) -> Seq<u32> {
    Seq::new(n as nat, |j: int| le_value(b.subrange(4 * j, 4 * j + 4)) as u32)
}

/// `nc` centroids of `n` numbers each, and the bytes that follow.
pub open spec fn read_centroids(b: Seq<u8>, n: int, nc: nat) -> Option<(Seq<Seq<u32>>, Seq<u8>)>
    decreases nc,
{
    if nc == 0 {
        Some((Seq::empty(), b))
    } else {
        match read_centroids(b, n, (nc - 1) as nat) {
            None => None,
            Some((s, rest)) => if 4 * n > rest.len() {
                None
            } else {
                Some((s.push(numbers_at(rest, n)), rest.skip(4 * n)))
            },
        }
    }
}

/// The codebooks of the first `s` parts, and the bytes that follow.
pub open spec fn read_codebooks(b: Seq<u8>, m: int, dim: int, s: nat) -> Option<(Seq<Seq<Seq<u32>>>, Seq<u8>)>
    decreases s,
{
    if s == 0 {
        Some((Seq::empty(), b))
    } else {
        match read_codebooks(b, m, dim, (s - 1) as nat) {
            None => None,
            Some((books, rest)) => if rest.len() < 2 {
                None
            } else {
                match read_centroids(rest.skip(2), width(m, dim, s - 1), le_value(rest.take(2))) {
                    None => None,
                    Some((book, after)) => Some((books.push(book), after)),
                }
            },
        }
    }
}

/// The quantiser that some bytes hold; none where they are cut short.
pub open spec fn decoded(b: Seq<u8>) -> Option<PqV> {
    if b.len() < 4 {
        None
    } else {
        let m = le_value(b.subrange(0, 2));
        let dim = le_value(b.subrange(2, 4));
        match read_codebooks(b.skip(4), m as int, dim as int, m) {
            None => None,
            Some((codebooks, _)) => Some(PqV { m: m as usize, dim: dim as usize, codebooks }),
        }
    }
}

/// A quantiser whose sizes fit into their two bytes, with a codebook for each part and
/// centroids as long as their part.
pub open spec fn storable(p: PqV) -> bool {
    &&& p.m < 65536
    &&& p.dim < 65536
    &&& p.codebooks.len() == p.m
    &&& forall|s: int| 0 <= s < p.m ==> (#[trigger] p.codebooks[s]).len() < 65536
    &&& forall|s: int, i: int| 0 <= s < p.m && 0 <= i < p.codebooks[s].len() ==> (#[trigger] p.codebooks[s][i]).len() == width(p.m as int, p.dim as int, s)
}

proof fn lemma_numbers(c: Seq<u32>, tail: Seq<u8>)
    ensures
        numbers_bytes(c).len() == 4 * c.len(),
        numbers_at(numbers_bytes(c) + tail, c.len() as int) == c,
    decreases c.len(),
{
    if c.len() > 0 {
        let e = c.drop_last();
        let x = c.last();
        let last = le_bytes(x as nat, 4);
        lemma_pow256_values();
        lemma_le_bytes_len(x as nat, 4);
        lemma_le_round_trip(x as nat, 4);
        lemma_numbers(e, last + tail);
        let b = numbers_bytes(c) + tail;
        assert(b =~= numbers_bytes(e) + (last + tail));
        let got = numbers_at(b, c.len() as int);
        assert forall|j: int| 0 <= j < c.len() implies #[trigger] got[j] == c[j] by {
            if j < e.len() {
                assert(numbers_at(b, e.len() as int)[j] == e[j]);
            } else {
                assert(b.subrange(4 * j, 4 * j + 4) =~= last);
            }
        }
        assert(got =~= c);
    } else {
        assert(numbers_at(numbers_bytes(c) + tail, 0) =~= c);
    }
}

proof fn lemma_centroids(s: Seq<Seq<u32>>, n: int, tail: Seq<u8>)
    requires
        0 <= n,
        forall|i: int| 0 <= i < s.len() ==> (#[trigger] s[i]).len() == n,
    ensures
        read_centroids(centroids_bytes(s) + tail, n, s.len()) == Some((s, tail)),
    decreases s.len(),
{
    if s.len() == 0 {
        assert(centroids_bytes(s) + tail =~= tail);
        assert(s =~= Seq::empty());
    } else {
        let e = s.drop_last();
        let own = numbers_bytes(s.last());
        assert forall|i: int| 0 <= i < e.len() implies (#[trigger] e[i]).len() == n by {
            assert(e[i] == s[i]);
        }
        lemma_centroids(e, n, own + tail);
        assert(centroids_bytes(s) + tail =~= centroids_bytes(e) + (own + tail));
        assert(s.last() == s[s.len() - 1]);
        lemma_numbers(s.last(), tail);
        assert((own + tail).skip(4 * n) =~= tail);
        assert(e.push(s.last()) =~= s);
    }
}

proof fn lemma_codebooks(p: PqV, s: nat, tail: Seq<u8>)
    requires
        storable(p),
        s <= p.m,
    ensures
        read_codebooks(codebooks_bytes(p.codebooks.take(s as int)) + tail, p.m as int, p.dim as int, s) == Some((p.codebooks.take(s as int), tail)),
    decreases s,
{
    let books = p.codebooks.take(s as int);
    if s == 0 {
        assert(codebooks_bytes(books) + tail =~= tail);
        assert(books =~= Seq::empty());
    } else {
        let e = p.codebooks.take(s - 1);
        let own = p.codebooks[s - 1];
        assert(books.drop_last() =~= e);
        assert(books.last() == own);
        let size = le_bytes(own.len() % 65536, 2);
        let rest = size + centroids_bytes(own) + tail;
        lemma_codebooks(p, (s - 1) as nat, rest);
        assert(codebooks_bytes(books) + tail =~= codebooks_bytes(e) + rest);
        lemma_pow256_values();
        lemma_le_bytes_len(own.len(), 2);
        lemma_le_round_trip(own.len(), 2);
        assert(rest.take(2) =~= size);
        assert(rest.skip(2) =~= centroids_bytes(own) + tail);
        if p.m > 0 {
            parts_cover(p.m as int, p.dim as int, s - 1);
        }
        assert forall|i: int| 0 <= i < own.len() implies (#[trigger] own[i]).len() == width(p.m as int, p.dim as int, s - 1) by {
            assert(p.codebooks[s - 1][i] == own[i]);
        }
        lemma_centroids(own, width(p.m as int, p.dim as int, s - 1), tail);
        assert(e.push(own) =~= books);
    }
}

/// The bytes of a quantiser give it back, whatever follows them.
pub proof fn quantiser_round_trip(p: PqV, tail: Seq<u8>)
    requires
        storable(p),
    ensures
        decoded(pq_bytes(p) + tail) == Some(p),
{
    let b = pq_bytes(p) + tail;
    lemma_pow256_values();
    lemma_le_bytes_len(p.m as nat, 2);
    lemma_le_bytes_len(p.dim as nat, 2);
    lemma_le_round_trip(p.m as nat, 2);
    lemma_le_round_trip(p.dim as nat, 2);
    assert(b.subrange(0, 2) =~= le_bytes(p.m as nat, 2));
    assert(b.subrange(2, 4) =~= le_bytes(p.dim as nat, 2));
    assert(p.codebooks.take(p.m as int) =~= p.codebooks);
    assert(b.skip(4) =~= codebooks_bytes(p.codebooks) + tail);
    lemma_codebooks(p, p.m as nat, tail);
}

impl Pq {
    /// The bounds are those of the parts.
    pub closed spec fn wf(&self) -> bool {
        self.bounds@ == bounds_of(self.m as int, self.dim as int)
    }

    /// A quantiser of `m` parts with the given codebooks.
    pub fn new(m: usize, dim: usize, codebooks: Vec<Vec<Vec<u32>>>) -> (r: Pq)
        requires
            m * dim <= usize::MAX,
        ensures
            r.wf(),
            r@ == (PqV { m, dim, codebooks: codebooks_v(codebooks@) }),
    {
        let bounds = bounds_list(m, dim);
        Pq { m, dim, bounds, codebooks }
    }

    /// Where the parts start and end.
    pub fn bounds(&self) -> (r: &Vec<usize>)
        requires
            self.wf(),
        ensures
            r@ == bounds_of(self@.m as int, self@.dim as int),
    {
        &self.bounds
    }

    /// The centroids of each part.
    pub fn codebooks(&self) -> (r: &Vec<Vec<Vec<u32>>>)
        ensures
            codebooks_v(r@) == self@.codebooks,
    {
        &self.codebooks
    }

    /// The code of a vector, given the distances of each of its parts to the centroids of
    /// the part: the place of the nearest one.
    pub fn encode(&self, distances: &Vec<Vec<u32>>) -> (r: Vec<u8>)
        requires
            distances@.len() == self@.m,
        ensures
            r@ == Seq::new(self@.m as nat, |s: int| (nearest_place(distances@[s]@) % 256) as u8),
    {
        let mut out: Vec<u8> = Vec::new();
        for s in 0..self.m
            invariant
                distances@.len() == self.m,
                out@.len() == s,
                forall|x: int| 0 <= x < s ==> #[trigger] out@[x] == (nearest_place(distances@[x]@) % 256) as u8,
        {
            let c: usize = nearest(&distances[s]);
            out.push((c % 256) as u8);
        }
        assert(out@ =~= Seq::new(self@.m as nat, |s: int| (nearest_place(distances@[s]@) % 256) as u8));
        out
    }

    pub fn to_bytes(&self) -> (r: Vec<u8>)
        ensures
            r@ == pq_bytes(self@),
    {
        let mut out: Vec<u8> = Vec::new();
        push_le(&mut out, (self.m % 65536) as u64, 2);
        push_le(&mut out, (self.dim % 65536) as u64, 2);
        let ghost head = out@;
        let ghost books = codebooks_v(self.codebooks@);
        assert(head =~= le_bytes((self.m % 65536) as nat, 2) + le_bytes((self.dim % 65536) as nat, 2));
        let n: usize = self.codebooks.len();
        assert(out@ =~= head + codebooks_bytes(books.take(0)));
        for s in 0..n
            invariant
                n == self.codebooks@.len(),
                books == codebooks_v(self.codebooks@),
                out@ == head + codebooks_bytes(books.take(s as int)),
        {
            let book: &Vec<Vec<u32>> = &self.codebooks[s];
            let ghost before = out@;
            push_le(&mut out, (book.len() % 65536) as u64, 2);
            push_centroids(&mut out, book);
            proof {
                let t = books.take(s + 1);
                assert(t.drop_last() =~= books.take(s as int));
                assert(t.last() == centroids_v(book@));
                assert(out@ =~= head + codebooks_bytes(t));
            }
        }
        assert(books.take(n as int) =~= books);
        assert(out@ =~= pq_bytes(self@));
        out
    }

    pub fn from_bytes(b: &[u8]) -> (r: Option<Pq>)
        ensures
            (match decoded(b@) {
                Some(p) => r is Some && r->0@ == p && r->0.wf(),
                None => r is None,
            }),
    {
        if b.len() < 4 {
            return None;
        }
        proof {
            lemma_pow256_values();
            lemma_le_value_bound(b@.subrange(0, 2));
            lemma_le_value_bound(b@.subrange(2, 4));
        }
        let m: usize = read_le(b, 0, 2) as usize;
        let dim: usize = read_le(b, 2, 2) as usize;
        assert(m * dim <= 65535 * 65535) by (nonlinear_arith)
            requires
                m <= 65535,
                dim <= 65535,
        ;
        let bounds = bounds_list(m, dim);
        let ghost all = b@.skip(4);
        let mut pos: usize = 4;
        let mut codebooks: Vec<Vec<Vec<u32>>> = Vec::new();
        assert(codebooks_v(codebooks@) =~= Seq::empty());
        for s in 0..m
            invariant
                m <= 65535,
                bounds@ == bounds_of(m as int, dim as int),
                m * dim <= usize::MAX,
                all == b@.skip(4),
                4 <= pos <= b@.len(),
                decoded(b@) == (match read_codebooks(all, m as int, dim as int, m as nat) {
                    None => None,
                    Some((cb, _)) => Some(PqV { m, dim, codebooks: cb }),
                }),
                read_codebooks(all, m as int, dim as int, s as nat) == Some((codebooks_v(codebooks@), b@.skip(pos as int))),
        {
            proof {
                parts_cover(m as int, dim as int, s as int);
            }
            let ghost rest = b@.skip(pos as int);
            let n: usize = bounds[s + 1] - bounds[s];
            assert(n == width(m as int, dim as int, s as int));
            if b.len() - pos < 2 {
                proof {
                    lemma_cut(all, m as int, dim as int, (s + 1) as nat, m as nat);
                }
                return None;
            }
            let nc: usize = read_le(b, pos, 2) as usize;
            proof {
                lemma_pow256_values();
                lemma_le_value_bound(b@.subrange(pos as int, pos + 2));
                assert(rest.take(2) =~= b@.subrange(pos as int, pos + 2));
                assert(rest.skip(2) =~= b@.skip(pos + 2));
            }
            match take_centroids(b, pos + 2, n, nc) {
                None => {
                    proof {
                        lemma_cut(all, m as int, dim as int, (s + 1) as nat, m as nat);
                    }
                    return None;
                },
                Some((book, after)) => {
                    let ghost before = codebooks@;
                    codebooks.push(book);
                    pos = after;
                    assert(codebooks_v(codebooks@) =~= codebooks_v(before).push(centroids_v(book@)));
                },
            }
        }
        Some(Pq { m, dim, bounds, codebooks })
    }
}

/// Once the bytes are cut short, they stay so.
proof fn lemma_cut(b: Seq<u8>, m: int, dim: int, s: nat, t: nat)
    requires
        s <= t,
        read_codebooks(b, m, dim, s) is None,
    ensures
        read_codebooks(b, m, dim, t) is None,
    decreases t,
{
    if s < t {
        lemma_cut(b, m, dim, s, (t - 1) as nat);
    }
}

proof fn lemma_cut_centroids(b: Seq<u8>, n: int, s: nat, t: nat)
    requires
        s <= t,
        read_centroids(b, n, s) is None,
    ensures
        read_centroids(b, n, t) is None,
    decreases t,
{
    if s < t {
        lemma_cut_centroids(b, n, s, (t - 1) as nat);
    }
}

fn push_centroids(out: &mut Vec<u8>, book: &Vec<Vec<u32>>)
    ensures
        final(out)@ == old(out)@ + centroids_bytes(centroids_v(book@)),
{
    let ghost start = out@;
    let ghost all = centroids_v(book@);
    let n: usize = book.len();
    assert(out@ =~= start + centroids_bytes(all.take(0)));
    for i in 0..n
        invariant
            n == book@.len(),
            all == centroids_v(book@),
            out@ == start + centroids_bytes(all.take(i as int)),
    {
        let c: &Vec<u32> = &book[i];
        let ghost before = out@;
        let k: usize = c.len();
        assert(out@ =~= before + numbers_bytes(c@.take(0)));
        for j in 0..k
            invariant
                k == c@.len(),
                out@ == before + numbers_bytes(c@.take(j as int)),
        {
            push_le(out, c[j] as u64, 4);
            proof {
                let t = c@.take(j + 1);
                assert(t.drop_last() =~= c@.take(j as int));
                assert(t.last() == c@[j as int]);
                assert(out@ =~= before + numbers_bytes(t));
            }
        }
        proof {
            assert(c@.take(k as int) =~= c@);
            let t = all.take(i + 1);
            assert(t.drop_last() =~= all.take(i as int));
            assert(t.last() == c@);
            assert(out@ =~= start + centroids_bytes(t));
        }
    }
    assert(all.take(n as int) =~= all);
}

fn take_centroids(b: &[u8], start: usize, n: usize, nc: usize) -> (r: Option<(Vec<Vec<u32>>, usize)>)
    requires
        start <= b@.len(),
    ensures
        (match read_centroids(b@.skip(start as int), n as int, nc as nat) {
            Some((s, rest)) => r is Some && centroids_v((r->0).0@) == s && (r->0).1 <= b@.len() && rest == b@.skip((r->0).1 as int) && start <= (r->0).1,
            None => r is None,
        }),
{
    let ghost all = b@.skip(start as int);
    let mut out: Vec<Vec<u32>> = Vec::new();
    let mut pos: usize = start;
    assert(centroids_v(out@) =~= Seq::empty());
    for i in 0..nc
        invariant
            all == b@.skip(start as int),
            start <= pos <= b@.len(),
            read_centroids(all, n as int, i as nat) == Some((centroids_v(out@), b@.skip(pos as int))),
    {
        let ghost rest = b@.skip(pos as int);
        let len: usize = b.len();
        if n > (len - pos) / 4 {
            proof {
                lemma_cut_centroids(all, n as int, (i + 1) as nat, nc as nat);
            }
            return None;
        }
        let mut c: Vec<u32> = Vec::new();
        for j in 0..n
            invariant
                len == b@.len(),
                pos <= len,
                4 * n <= len - pos,
                rest == b@.skip(pos as int),
                c@.len() == j,
                forall|x: int| 0 <= x < j ==> #[trigger] c@[x] == numbers_at(rest, n as int)[x],
        {
            let x: u64 = read_le(b, pos + 4 * j, 4);
            proof {
                lemma_pow256_values();
                lemma_le_value_bound(b@.subrange(pos + 4 * j, pos + 4 * j + 4));
                assert(rest.subrange(4 * j, 4 * j + 4) =~= b@.subrange(pos + 4 * j, pos + 4 * j + 4));
            }
            c.push(x as u32);
        }
        proof {
            assert(c@ =~= numbers_at(rest, n as int));
            assert(rest.skip(4 * n) =~= b@.skip(pos + 4 * n));
        }
        let ghost before = out@;
        out.push(c);
        pos = pos + 4 * n;
        assert(centroids_v(out@) =~= centroids_v(before).push(c@));
    }
    Some((out, pos))
}

} // verus!
