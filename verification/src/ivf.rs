//! Inverted lists of vectors by cluster, and the approximate search in them.
//!
//! The distances come from outside, by the bit patterns of 32-bit reals: the order of two
//! of them is decided on the bits.
use vstd::prelude::*;

use crate::exec::random::{next_random, SEED_MIX};
#[allow(unused_imports)]
use crate::exec::random::shifted;

verus! {

pub const SIGN_32: u32 = 0x8000_0000;

/// Bits of the positive infinity.
pub const INF_32: u32 = 0x7F80_0000;

/// The bits without the sign.
pub open spec fn magnitude_32(b: u32) -> int {
    if b >= SIGN_32 {
        b - SIGN_32
    } else {
        b as int
    }
}

/// The first real is smaller than the second, and neither is a NaN.
pub open spec fn below(a: u32, b: u32) -> bool {
    &&& magnitude_32(a) <= INF_32
    &&& magnitude_32(b) <= INF_32
    &&& (if a >= SIGN_32 {
        -magnitude_32(a)
    } else {
        magnitude_32(a)
    }) < (if b >= SIGN_32 {
        -magnitude_32(b)
    } else {
        magnitude_32(b)
    })
}

/// Position in the total order of all bit patterns: the negative ones first, the larger
/// magnitude before the smaller.
pub open spec fn total_place(b: u32) -> int {
    if b >= SIGN_32 {
        -1 - (b - SIGN_32)
    } else {
        b as int
    }
}

fn is_below(a: u32, b: u32) -> (r: bool)
    ensures
        r == below(a, b),
{
    let ma: u32 = if a >= SIGN_32 {
        a - SIGN_32
    } else {
        a
    };
    let mb: u32 = if b >= SIGN_32 {
        b - SIGN_32
    } else {
        b
    };
    if ma > INF_32 || mb > INF_32 {
        return false;
    }
    let x: i64 = if a >= SIGN_32 {
        -(ma as i64)
    } else {
        ma as i64
    };
    let y: i64 = if b >= SIGN_32 {
        -(mb as i64)
    } else {
        mb as i64
    };
    x < y
}

fn place_of(b: u32) -> (r: i64)
    ensures
        r == total_place(b),
{
    if b >= SIGN_32 {
        -1 - (b - SIGN_32) as i64
    } else {
        b as i64
    }
}

// --- the nearest cluster ---

/// The smallest of the distances below infinity; infinity where there is none.
pub open spec fn smallest(d: Seq<u32>) -> u32
    decreases d.len(),
{
    if d.len() == 0 {
        INF_32
    } else if below(d.last(), smallest(d.drop_last())) {
        d.last()
    } else {
        smallest(d.drop_last())
    }
}

/// The first place of the smallest distance; the first of all where there is none.
pub open spec fn nearest_place(d: Seq<u32>) -> int
    decreases d.len(),
{
    if d.len() == 0 {
        0
    } else if below(d.last(), smallest(d.drop_last())) {
        d.len() - 1
    } else {
        nearest_place(d.drop_last())
    }
}

/// The cluster with the smallest of the given distances, the first of several.
pub fn nearest(distances: &Vec<u32>) -> (r: usize)
    ensures
        r == nearest_place(distances@),
        distances@.len() > 0 ==> r < distances@.len(),
{
    let n: usize = distances.len();
    let mut best: usize = 0;
    let mut least: u32 = INF_32;
    for i in 0..n
        invariant
            n == distances@.len(),
            best == nearest_place(distances@.take(i as int)),
            least == smallest(distances@.take(i as int)),
            best <= i,
            i > 0 ==> best < i,
    {
        let d: u32 = distances[i];
        assert(distances@.take(i + 1).drop_last() =~= distances@.take(i as int));
        if is_below(d, least) {
            least = d;
            best = i;
        }
    }
    assert(distances@.take(n as int) =~= distances@);
    best
}

/// No distance is below that of the nearest cluster, and none of the clusters before it
/// is as near; but where no distance is below infinity, it is the first cluster.
pub proof fn nearest_is_nearest(d: Seq<u32>)
    requires
        d.len() > 0,
    ensures
        0 <= nearest_place(d) < d.len(),
        forall|j: int| 0 <= j < d.len() ==> !below(#[trigger] d[j], smallest(d)),
        (if exists|j: int| 0 <= j < d.len() && below(#[trigger] d[j], INF_32) {
            &&& d[nearest_place(d)] == smallest(d)
            &&& forall|j: int| 0 <= j < nearest_place(d) ==> below(smallest(d), #[trigger] d[j]) || magnitude_32(d[j]) > INF_32
        } else {
            nearest_place(d) == 0
        }),
    decreases d.len(),
{
    let e = d.drop_last();
    if e.len() > 0 {
        nearest_is_nearest(e);
        assert forall|j: int| 0 <= j < d.len() implies !below(#[trigger] d[j], smallest(d)) by {
            if j < e.len() {
                assert(e[j] == d[j]);
            }
        }
        lemma_smallest_bounded(e);
        let some = exists|j: int| 0 <= j < d.len() && below(#[trigger] d[j], INF_32);
        if below(d.last(), smallest(e)) {
            assert(below(d[d.len() - 1], INF_32));
            assert forall|j: int| 0 <= j < nearest_place(d) implies below(smallest(d), #[trigger] d[j]) || magnitude_32(d[j]) > INF_32 by {
                assert(e[j] == d[j]);
                assert(!below(e[j], smallest(e)));
            }
        } else {
            if exists|j: int| 0 <= j < e.len() && below(#[trigger] e[j], INF_32) {
                let j = choose|j: int| 0 <= j < e.len() && below(#[trigger] e[j], INF_32);
                assert(below(d[j], INF_32));
                assert(d[nearest_place(d)] == e[nearest_place(e)]);
                assert forall|j: int| 0 <= j < nearest_place(d) implies below(smallest(d), #[trigger] d[j]) || magnitude_32(d[j]) > INF_32 by {
                    assert(e[j] == d[j]);
                }
            } else {
                lemma_smallest_infinite(e);
                if some {
                    let j = choose|j: int| 0 <= j < d.len() && below(#[trigger] d[j], INF_32);
                    if j < e.len() {
                        assert(e[j] == d[j]);
                    }
                    assert(false);
                }
            }
        }
    } else {
        assert(smallest(e) == INF_32);
        assert(nearest_place(e) == 0);
        assert(d[0] == d.last());
    }
}

proof fn lemma_smallest_bounded(d: Seq<u32>)
    ensures
        magnitude_32(smallest(d)) <= INF_32,
        smallest(d) == INF_32 || below(smallest(d), INF_32),
    decreases d.len(),
{
    if d.len() > 0 {
        lemma_smallest_bounded(d.drop_last());
    }
}

proof fn lemma_smallest_infinite(d: Seq<u32>)
    requires
        forall|j: int| 0 <= j < d.len() ==> !below(#[trigger] d[j], INF_32),
    ensures
        smallest(d) == INF_32,
    decreases d.len(),
{
    if d.len() > 0 {
        let e = d.drop_last();
        assert forall|j: int| 0 <= j < e.len() implies !below(#[trigger] e[j], INF_32) by {
            assert(e[j] == d[j]);
        }
        lemma_smallest_infinite(e);
        assert(d.last() == d[d.len() - 1]);
    }
}

// --- the inverted lists ---

pub open spec fn lists_v(s: Seq<Vec<usize>>) -> Seq<Seq<usize>> {
    Seq::new(s.len(), |i: int| s[i]@)
}

pub open spec fn distances_v(s: Seq<Vec<u32>>) -> Seq<Seq<u32>> {
    Seq::new(s.len(), |i: int| s[i]@)
}

/// The vectors of cluster `c`, in order; row `i` of `d` holds the distances of vector `i`
/// to the clusters.
pub open spec fn members(d: Seq<Seq<u32>>, c: int) -> Seq<usize>
    decreases d.len(),
{
    if d.len() == 0 {
        Seq::empty()
    } else if nearest_place(d.last()) == c {
        members(d.drop_last(), c).push((d.len() - 1) as usize)
    } else {
        members(d.drop_last(), c)
    }
}

pub open spec fn assigned(d: Seq<Seq<u32>>, k: nat) -> Seq<Seq<usize>> {
    Seq::new(k, |c: int| members(d, c))
}

/// Puts each vector in the list of its nearest cluster, given its distances to all `k`.
pub fn assign(distances: &Vec<Vec<u32>>, k: usize) -> (r: Vec<Vec<usize>>)
    requires
        k > 0 || distances@.len() == 0,
        forall|i: int| 0 <= i < distances@.len() ==> (#[trigger] distances@[i])@.len() == k,
    ensures
        lists_v(r@) == assigned(distances_v(distances@), k as nat),
{
    let ghost d = distances_v(distances@);
    let mut lists: Vec<Vec<usize>> = Vec::new();
    for c in 0..k
        invariant
            lists@.len() == c,
            forall|x: int| 0 <= x < c ==> (#[trigger] lists@[x])@.len() == 0,
    {
        lists.push(Vec::new());
    }
    let n: usize = distances.len();
    assert(lists_v(lists@) =~= assigned(d.take(0), k as nat)) by {
        assert forall|c: int| 0 <= c < k implies lists_v(lists@)[c] =~= #[trigger] assigned(d.take(0), k as nat)[c] by {
            assert(lists@[c]@.len() == 0);
        }
    }
    for i in 0..n
        invariant
            n == distances@.len(),
            d == distances_v(distances@),
            k > 0 || n == 0,
            forall|i: int| 0 <= i < distances@.len() ==> (#[trigger] distances@[i])@.len() == k,
            lists@.len() == k,
            lists_v(lists@) == assigned(d.take(i as int), k as nat),
    {
        let c: usize = nearest(&distances[i]);
        let ghost before = lists@;
        let mut own: Vec<usize> = Vec::new();
        std::mem::swap(&mut lists[c], &mut own);
        own.push(i);
        std::mem::swap(&mut lists[c], &mut own);
        proof {
            let e = d.take(i + 1);
            assert(e.drop_last() =~= d.take(i as int));
            assert(e.last() == distances@[i as int]@);
            assert forall|x: int| 0 <= x < k implies lists_v(lists@)[x] =~= #[trigger] assigned(e, k as nat)[x] by {
                assert(lists_v(before)[x] == assigned(d.take(i as int), k as nat)[x]);
                assert(before[x]@ == members(d.take(i as int), x));
            }
            assert(lists_v(lists@) =~= assigned(e, k as nat));
        }
    }
    assert(d.take(n as int) =~= d);
    lists
}

/// Every vector stands in the list of its nearest cluster, and in no other; a list is in
/// ascending order.
pub proof fn lists_hold_each_vector_once(d: Seq<Seq<u32>>, c: int)
    requires
        d.len() <= usize::MAX,
    ensures
        forall|i: int| 0 <= i < d.len() ==> (nearest_place(#[trigger] d[i]) == c <==> members(d, c).contains(i as usize)),
        forall|p: int| 0 <= p < members(d, c).len() ==> (#[trigger] members(d, c)[p]) < d.len(),
        forall|p: int, q: int| 0 <= p < q < members(d, c).len() ==> (#[trigger] members(d, c)[p]) < (#[trigger] members(d, c)[q]),
    decreases d.len(),
{
    if d.len() > 0 {
        let e = d.drop_last();
        lists_hold_each_vector_once(e, c);
        let m = members(d, c);
        let o = members(e, c);
        assert forall|i: int| 0 <= i < d.len() implies (nearest_place(#[trigger] d[i]) == c <==> m.contains(i as usize)) by {
            if i < e.len() {
                assert(e[i] == d[i]);
                if o.contains(i as usize) {
                    let p = choose|p: int| 0 <= p < o.len() && o[p] == i as usize;
                    assert(m[p] == i as usize);
                }
                if m.contains(i as usize) {
                    let p = choose|p: int| 0 <= p < m.len() && m[p] == i as usize;
                    assert(p < o.len());
                    assert(o[p] == i as usize);
                }
            } else {
                if nearest_place(d.last()) == c {
                    assert(m[m.len() - 1] == i as usize);
                } else if m.contains(i as usize) {
                    let p = choose|p: int| 0 <= p < m.len() && m[p] == i as usize;
                    assert(o[p] < e.len());
                }
            }
        }
        assert forall|p: int, q: int| 0 <= p < q < m.len() implies (#[trigger] m[p]) < (#[trigger] m[q]) by {
            assert(m[p] == o[p]);
            if q < o.len() {
                assert(m[q] == o[q]);
            }
        }
        assert forall|p: int| 0 <= p < m.len() implies (#[trigger] m[p]) < d.len() by {
            if p < o.len() {
                assert(m[p] == o[p]);
            }
        }
    }
}

// --- the search ---

/// `x` put behind everything in `s` that is not farther away.
pub open spec fn inserted(s: Seq<(u32, usize)>, x: (u32, usize)) -> Seq<(u32, usize)>
    decreases s.len(),
{
    if s.len() == 0 || total_place(s.last().0) <= total_place(x.0) {
        s.push(x)
    } else {
        inserted(s.drop_last(), x).push(s.last())
    }
}

/// The pairs by ascending distance; pairs at the same distance keep their order.
pub open spec fn ranked(s: Seq<(u32, usize)>) -> Seq<(u32, usize)>
    decreases s.len(),
{
    if s.len() == 0 {
        s
    } else {
        inserted(ranked(s.drop_last()), s.last())
    }
}

pub open spec fn ascending(s: Seq<(u32, usize)>) -> bool {
    forall|p: int, q: int| 0 <= p < q < s.len() ==> total_place((#[trigger] s[p]).0) <= total_place((#[trigger] s[q]).0)
}

proof fn lemma_inserted(s: Seq<(u32, usize)>, x: (u32, usize))
    requires
        ascending(s),
    ensures
        ascending(inserted(s, x)),
        inserted(s, x).to_multiset() == s.to_multiset().insert(x),
        inserted(s, x).len() == s.len() + 1,
        forall|p: int| 0 <= p < inserted(s, x).len() ==> s.contains(#[trigger] inserted(s, x)[p]) || inserted(s, x)[p] == x,
    decreases s.len(),
{
    broadcast use vstd::seq_lib::group_to_multiset_ensures;
    let t = inserted(s, x);
    if s.len() == 0 || total_place(s.last().0) <= total_place(x.0) {
        assert forall|p: int, q: int| 0 <= p < q < t.len() implies total_place((#[trigger] t[p]).0) <= total_place((#[trigger] t[q]).0) by {
            if q == s.len() {
                if p < s.len() - 1 {
                    assert(total_place(s[p].0) <= total_place(s[s.len() - 1].0));
                }
            } else {
                assert(total_place(s[p].0) <= total_place(s[q].0));
            }
        }
        assert forall|p: int| 0 <= p < t.len() implies s.contains(#[trigger] t[p]) || t[p] == x by {
            if p < s.len() {
                assert(s[p] == t[p]);
            }
        }
    } else {
        let e = s.drop_last();
        let u = inserted(e, x);
        assert(ascending(e)) by {
            assert forall|p: int, q: int| 0 <= p < q < e.len() implies total_place((#[trigger] e[p]).0) <= total_place((#[trigger] e[q]).0) by {
                assert(s[p] == e[p] && s[q] == e[q]);
            }
        }
        lemma_inserted(e, x);
        assert forall|p: int| 0 <= p < u.len() implies total_place((#[trigger] u[p]).0) <= total_place(s.last().0) by {
            if u[p] != x {
                let q = choose|q: int| 0 <= q < e.len() && e[q] == u[p];
                assert(s[q] == e[q]);
                assert(total_place(s[q].0) <= total_place(s[s.len() - 1].0));
            }
        }
        assert forall|p: int, q: int| 0 <= p < q < t.len() implies total_place((#[trigger] t[p]).0) <= total_place((#[trigger] t[q]).0) by {
            if q < u.len() {
                assert(t[p] == u[p] && t[q] == u[q]);
            } else {
                assert(t[p] == u[p]);
            }
        }
        assert(s =~= e.push(s.last()));
        assert(t.to_multiset() =~= s.to_multiset().insert(x));
        assert forall|p: int| 0 <= p < t.len() implies s.contains(#[trigger] t[p]) || t[p] == x by {
            if p < u.len() {
                assert(t[p] == u[p]);
                if u[p] != x {
                    let q = choose|q: int| 0 <= q < e.len() && e[q] == u[p];
                    assert(s[q] == t[p]);
                }
            } else {
                assert(t[p] == s[s.len() - 1]);
            }
        }
    }
}

/// Ranking neither adds nor loses a pair, and the distances ascend.
pub proof fn ranking_sorts(s: Seq<(u32, usize)>)
    ensures
        ascending(ranked(s)),
        ranked(s).to_multiset() == s.to_multiset(),
        ranked(s).len() == s.len(),
    decreases s.len(),
{
    broadcast use vstd::seq_lib::group_to_multiset_ensures;
    if s.len() > 0 {
        ranking_sorts(s.drop_last());
        lemma_inserted(ranked(s.drop_last()), s.last());
        assert(s =~= s.drop_last().push(s.last()));
    }
}

proof fn lemma_same_members(s: Seq<(u32, usize)>, x: (u32, usize))
    ensures
        ranked(s).contains(x) == s.contains(x),
{
    broadcast use vstd::seq_lib::group_to_multiset_ensures;
    ranking_sorts(s);
    assert(ranked(s).contains(x) <==> ranked(s).to_multiset().count(x) > 0);
    assert(s.contains(x) <==> s.to_multiset().count(x) > 0);
}

fn rank(pairs: &Vec<(u32, usize)>) -> (r: Vec<(u32, usize)>)
    ensures
        r@ == ranked(pairs@),
{
    let n: usize = pairs.len();
    let mut out: Vec<(u32, usize)> = Vec::new();
    for i in 0..n
        invariant
            n == pairs@.len(),
            out@ == ranked(pairs@.take(i as int)),
    {
        let x: (u32, usize) = pairs[i];
        let key: i64 = place_of(x.0);
        let ghost s = out@;
        let mut at: usize = out.len();
        assert(s.take(at as int) =~= s);
        assert(inserted(s, x) =~= inserted(s.take(at as int), x) + s.skip(at as int));
        while at > 0 && place_of(out[at - 1].0) > key
            invariant
                at <= out@.len(),
                out@ == s,
                key == total_place(x.0),
                inserted(s, x) == inserted(s.take(at as int), x) + s.skip(at as int),
            decreases at,
        {
            proof {
                let t = s.take(at as int);
                assert(t.drop_last() =~= s.take(at - 1));
                assert(t.last() == s[at - 1]);
                assert(inserted(t, x) == inserted(t.drop_last(), x).push(t.last()));
                assert(inserted(t.drop_last(), x).push(t.last()) + s.skip(at as int) =~= inserted(s.take(at - 1), x) + s.skip(at - 1));
            }
            at = at - 1;
        }
        proof {
            let t = s.take(at as int);
            if at > 0 {
                assert(t.last() == s[at - 1]);
            }
            assert(inserted(t, x) == t.push(x));
            assert(s.insert(at as int, x) =~= t.push(x) + s.skip(at as int));
            assert(pairs@.take(i + 1).drop_last() =~= pairs@.take(i as int));
        }
        out.insert(at, x);
    }
    assert(pairs@.take(n as int) =~= pairs@);
    out
}

/// Numbers with the places that they stand at.
pub open spec fn with_places(d: Seq<u32>) -> Seq<(u32, usize)> {
    Seq::new(d.len(), |i: int| (d[i], i as usize))
}

/// The members of a list with their distances.
pub open spec fn measured(list: Seq<usize>, d: Seq<u32>) -> Seq<(u32, usize)> {
    Seq::new(list.len(), |i: int| (d[list[i] as int], list[i]))
}

/// The members of the lists of the given clusters.
pub open spec fn gathered(clusters: Seq<(u32, usize)>, lists: Seq<Seq<usize>>, d: Seq<u32>) -> Seq<(u32, usize)>
    decreases clusters.len(),
{
    if clusters.len() == 0 {
        Seq::empty()
    } else {
        gathered(clusters.drop_last(), lists, d) + measured(lists[clusters.last().1 as int], d)
    }
}

/// How many of `k` clusters are looked into: at least one, and no more than there are.
pub open spec fn probed(nprobe: usize, k: nat) -> int {
    if k == 0 {
        0
    } else if nprobe < 1 {
        1
    } else if nprobe > k {
        k as int
    } else {
        nprobe as int
    }
}

/// The vectors of the `nprobe` nearest clusters, by ascending distance.
pub open spec fn found(cd: Seq<u32>, lists: Seq<Seq<usize>>, vd: Seq<u32>, nprobe: usize) -> Seq<(u32, usize)> {
    ranked(gathered(ranked(with_places(cd)).take(probed(nprobe, cd.len())), lists, vd))
}

/// The first `top_k` of them.
pub open spec fn search_result(cd: Seq<u32>, lists: Seq<Seq<usize>>, vd: Seq<u32>, nprobe: usize, top_k: usize) -> Seq<usize> {
    let f = found(cd, lists, vd, nprobe);
    Seq::new(if top_k < f.len() { top_k as nat } else { f.len() }, |i: int| f[i].1)
}

/// The vectors of the lists of the given clusters, list after list.
pub open spec fn listed(clusters: Seq<(u32, usize)>, lists: Seq<Seq<usize>>) -> Seq<usize>
    decreases clusters.len(),
{
    if clusters.len() == 0 {
        Seq::empty()
    } else {
        listed(clusters.drop_last(), lists) + lists[clusters.last().1 as int]
    }
}

/// The vectors of the `nprobe` nearest clusters.
pub open spec fn candidates(cd: Seq<u32>, lists: Seq<Seq<usize>>, nprobe: usize) -> Seq<usize> {
    listed(ranked(with_places(cd)).take(probed(nprobe, cd.len())), lists)
}

proof fn lemma_listed(clusters: Seq<(u32, usize)>, lists: Seq<Seq<usize>>, d: Seq<u32>)
    ensures
        gathered(clusters, lists, d) == measured(listed(clusters, lists), d),
    decreases clusters.len(),
{
    if clusters.len() > 0 {
        lemma_listed(clusters.drop_last(), lists, d);
    }
    assert(gathered(clusters, lists, d) =~= measured(listed(clusters, lists), d));
}

/// The vectors that a search looks at: those of the `nprobe` clusters nearest to the
/// query, given its distances to the clusters.
pub fn probe(cluster_distances: &Vec<u32>, lists: &Vec<Vec<usize>>, nprobe: usize) -> (r: Vec<usize>)
    requires
        cluster_distances@.len() <= lists@.len(),
    ensures
        r@ == candidates(cluster_distances@, lists_v(lists@), nprobe),
{
    let ghost cd = cluster_distances@;
    let ghost ls = lists_v(lists@);
    let k: usize = cluster_distances.len();
    let mut clusters: Vec<(u32, usize)> = Vec::new();
    for i in 0..k
        invariant
            k == cd.len(),
            cd == cluster_distances@,
            clusters@ == with_places(cd).take(i as int),
    {
        clusters.push((cluster_distances[i], i));
        assert(with_places(cd).take(i + 1) =~= with_places(cd).take(i as int).push(with_places(cd)[i as int]));
    }
    assert(with_places(cd).take(k as int) =~= with_places(cd));
    let order = rank(&clusters);
    proof {
        ranking_sorts(with_places(cd));
    }
    let n: usize = if k == 0 {
        0
    } else if nprobe < 1 {
        1
    } else if nprobe > k {
        k
    } else {
        nprobe
    };
    let ghost chosen = order@.take(n as int);
    let mut out: Vec<usize> = Vec::new();
    assert(listed(chosen.take(0), ls) =~= out@);
    for i in 0..n
        invariant
            n <= order@.len(),
            order@ == ranked(with_places(cd)),
            chosen == order@.take(n as int),
            cd.len() == k <= lists@.len(),
            ls == lists_v(lists@),
            out@ == listed(chosen.take(i as int), ls),
    {
        let c: usize = order[i].1;
        proof {
            lemma_ranked_places(cd, i as int);
        }
        let list: &Vec<usize> = &lists[c];
        let ghost start = out@;
        let m: usize = list.len();
        assert(start + list@.take(0) =~= start);
        for p in 0..m
            invariant
                m == list@.len(),
                out@ == start + list@.take(p as int),
        {
            out.push(list[p]);
            assert(list@.take(p + 1) =~= list@.take(p as int).push(list@[p as int]));
            assert(out@ =~= start + list@.take(p + 1));
        }
        proof {
            assert(list@.take(m as int) =~= list@);
            assert(chosen.take(i + 1).drop_last() =~= chosen.take(i as int));
            assert(ls[c as int] == list@);
        }
    }
    assert(chosen.take(n as int) =~= chosen);
    out
}

/// Distances with the vectors that they belong to.
pub open spec fn paired(vectors: Seq<usize>, d: Seq<u32>) -> Seq<(u32, usize)> {
    Seq::new(vectors.len(), |i: int| (d[i], vectors[i]))
}

/// The first `top_k` vectors of some, in their order.
pub open spec fn first_of(f: Seq<(u32, usize)>, top_k: usize) -> Seq<usize> {
    Seq::new(if top_k < f.len() { top_k as nat } else { f.len() }, |i: int| f[i].1)
}

/// The `top_k` nearest of some vectors, given the distance of each.
pub fn closest(vectors: &Vec<usize>, distances: &Vec<u32>, top_k: usize) -> (r: Vec<usize>)
    requires
        vectors@.len() == distances@.len(),
    ensures
        r@ == first_of(ranked(paired(vectors@, distances@)), top_k),
{
    let ghost want = paired(vectors@, distances@);
    let m: usize = vectors.len();
    let mut pairs: Vec<(u32, usize)> = Vec::new();
    for i in 0..m
        invariant
            m == vectors@.len() == distances@.len(),
            want == paired(vectors@, distances@),
            pairs@ == want.take(i as int),
    {
        pairs.push((distances[i], vectors[i]));
        assert(want.take(i + 1) =~= want.take(i as int).push(want[i as int]));
    }
    assert(want.take(m as int) =~= want);
    let near = rank(&pairs);
    let n: usize = if top_k < near.len() {
        top_k
    } else {
        near.len()
    };
    let mut out: Vec<usize> = Vec::new();
    for i in 0..n
        invariant
            n <= near@.len(),
            out@.len() == i,
            forall|x: int| 0 <= x < i ==> #[trigger] out@[x] == near@[x].1,
    {
        out.push(near[i].1);
    }
    assert(out@ =~= first_of(ranked(want), top_k));
    out
}

/// Looks into the `nprobe` clusters nearest to a query and gives the `top_k` vectors of
/// them that are nearest, given the distances of the query to the clusters and to the
/// vectors.
pub fn search(cluster_distances: &Vec<u32>, lists: &Vec<Vec<usize>>, vector_distances: &Vec<u32>, nprobe: usize, top_k: usize) -> (r: Vec<usize>)
    requires
        cluster_distances@.len() <= lists@.len(),
        forall|c: int, p: int| 0 <= c < lists@.len() && 0 <= p < lists@[c]@.len() ==> (#[trigger] lists@[c]@[p]) < vector_distances@.len(),
    ensures
        r@ == search_result(cluster_distances@, lists_v(lists@), vector_distances@, nprobe, top_k),
{
    let ghost cd = cluster_distances@;
    let ghost ls = lists_v(lists@);
    let ghost vd = vector_distances@;
    let near = probe(cluster_distances, lists, nprobe);
    let k: usize = cluster_distances.len();
    let ghost chosen = ranked(with_places(cd)).take(probed(nprobe, cd.len()));
    proof {
        assert(k == cd.len());
        ranking_sorts(with_places(cd));
        assert forall|i: int| 0 <= i < chosen.len() implies (#[trigger] chosen[i]).1 < lists@.len() by {
            lemma_ranked_places(cd, i);
        }
        lemma_listed_below(chosen, lists@, vd.len());
        lemma_listed(chosen, ls, vd);
    }
    let n: usize = near.len();
    let mut own: Vec<u32> = Vec::new();
    for i in 0..n
        invariant
            n == near@.len(),
            vd == vector_distances@,
            forall|p: int| 0 <= p < near@.len() ==> (#[trigger] near@[p]) < vd.len(),
            own@.len() == i,
            forall|p: int| 0 <= p < i ==> #[trigger] own@[p] == vd[near@[p] as int],
    {
        own.push(vector_distances[near[i]]);
    }
    assert(paired(near@, own@) =~= measured(near@, vd));
    let out = closest(&near, &own, top_k);
    assert(out@ =~= search_result(cd, ls, vd, nprobe, top_k));
    out
}

proof fn lemma_listed_below(clusters: Seq<(u32, usize)>, lists: Seq<Vec<usize>>, n: nat)
    requires
        forall|i: int| 0 <= i < clusters.len() ==> (#[trigger] clusters[i]).1 < lists.len(),
        forall|c: int, p: int| 0 <= c < lists.len() && 0 <= p < lists[c]@.len() ==> (#[trigger] lists[c]@[p]) < n,
    ensures
        forall|p: int| 0 <= p < listed(clusters, lists_v(lists)).len() ==> (#[trigger] listed(clusters, lists_v(lists))[p]) < n,
    decreases clusters.len(),
{
    if clusters.len() > 0 {
        let rest = clusters.drop_last();
        assert forall|i: int| 0 <= i < rest.len() implies (#[trigger] rest[i]).1 < lists.len() by {
            assert(rest[i] == clusters[i]);
        }
        lemma_listed_below(rest, lists, n);
        let all = listed(clusters, lists_v(lists));
        let h = listed(rest, lists_v(lists));
        let c = clusters[clusters.len() - 1].1 as int;
        assert forall|p: int| 0 <= p < all.len() implies (#[trigger] all[p]) < n by {
            if p < h.len() {
                assert(all[p] == h[p]);
            } else {
                assert(all[p] == lists[c]@[p - h.len()]);
            }
        }
    }
}

proof fn lemma_ranked_places(d: Seq<u32>, i: int)
    requires
        0 <= i < ranked(with_places(d)).len(),
        d.len() <= usize::MAX,
    ensures
        ranked(with_places(d)).len() == d.len(),
        ranked(with_places(d))[i].1 < d.len(),
        ranked(with_places(d))[i].0 == d[ranked(with_places(d))[i].1 as int],
{
    let s = with_places(d);
    let r = ranked(s);
    ranking_sorts(s);
    assert(r.contains(r[i]));
    lemma_same_members(s, r[i]);
    let q = choose|q: int| 0 <= q < s.len() && s[q] == r[i];
    assert(s[q] == (d[q], q as usize));
}

/// Every vector that a list of a gathered cluster holds is gathered.
proof fn lemma_gathered(clusters: Seq<(u32, usize)>, lists: Seq<Seq<usize>>, d: Seq<u32>, i: int, p: int)
    requires
        0 <= i < clusters.len(),
        0 <= p < lists[clusters[i].1 as int].len(),
    ensures
        gathered(clusters, lists, d).contains((d[lists[clusters[i].1 as int][p] as int], lists[clusters[i].1 as int][p])),
    decreases clusters.len(),
{
    let g = gathered(clusters, lists, d);
    let h = gathered(clusters.drop_last(), lists, d);
    let m = measured(lists[clusters.last().1 as int], d);
    let x = (d[lists[clusters[i].1 as int][p] as int], lists[clusters[i].1 as int][p]);
    if i == clusters.len() - 1 {
        assert(m[p] == x);
        assert(g[h.len() + p] == x);
    } else {
        assert(clusters.drop_last()[i] == clusters[i]);
        lemma_gathered(clusters.drop_last(), lists, d, i, p);
        let q = choose|q: int| 0 <= q < h.len() && h[q] == x;
        assert(g[q] == x);
    }
}

/// Everything that is gathered has its own distance.
proof fn lemma_gathered_measured(clusters: Seq<(u32, usize)>, lists: Seq<Seq<usize>>, d: Seq<u32>)
    ensures
        forall|q: int| 0 <= q < gathered(clusters, lists, d).len() ==> (#[trigger] gathered(clusters, lists, d)[q]).0 == d[gathered(clusters, lists, d)[q].1 as int],
    decreases clusters.len(),
{
    if clusters.len() > 0 {
        let g = gathered(clusters, lists, d);
        let h = gathered(clusters.drop_last(), lists, d);
        lemma_gathered_measured(clusters.drop_last(), lists, d);
        assert forall|q: int| 0 <= q < g.len() implies (#[trigger] g[q]).0 == d[g[q].1 as int] by {
            if q < h.len() {
                assert(g[q] == h[q]);
            }
        }
    }
}

/// Looking into all clusters is exact: no vector that is left out is nearer than one that
/// is returned, and none is left out unless `top_k` are returned.
pub proof fn full_probe_is_exact(vectors: Seq<Seq<u32>>, cd: Seq<u32>, vd: Seq<u32>, nprobe: usize, top_k: usize)
    requires
        vd.len() == vectors.len() <= usize::MAX,
        0 < cd.len() <= usize::MAX,
        forall|i: int| 0 <= i < vectors.len() ==> (#[trigger] vectors[i]).len() == cd.len(),
        nprobe >= cd.len(),
    ensures
        ({
            let r = search_result(cd, assigned(vectors, cd.len()), vd, nprobe, top_k);
            &&& forall|p: int, j: int| 0 <= p < r.len() && 0 <= j < vd.len() && !r.contains(j as usize) ==> total_place(vd[(#[trigger] r[p]) as int]) <= total_place(#[trigger] vd[j])
            &&& r.len() == top_k || forall|j: int| 0 <= j < vd.len() ==> r.contains(#[trigger] (j as usize))
        }),
{
    let k = cd.len();
    let lists = assigned(vectors, k);
    let order = ranked(with_places(cd));
    ranking_sorts(with_places(cd));
    let chosen = order.take(probed(nprobe, k));
    assert(chosen =~= order);
    let g = gathered(chosen, lists, vd);
    let f = found(cd, lists, vd, nprobe);
    ranking_sorts(g);
    lemma_gathered_measured(chosen, lists, vd);
    let r = search_result(cd, lists, vd, nprobe, top_k);
    assert forall|q: int| 0 <= q < f.len() implies (#[trigger] f[q]).0 == vd[f[q].1 as int] by {
        assert(f.contains(f[q]));
        lemma_same_members(g, f[q]);
        let x = choose|x: int| 0 <= x < g.len() && g[x] == f[q];
        assert(g[x].0 == vd[g[x].1 as int]);
    }
    assert forall|j: int| 0 <= j < vd.len() implies f.contains((vd[j], #[trigger] (j as usize))) by {
        let c = nearest_place(vectors[j]);
        nearest_is_nearest(vectors[j]);
        lists_hold_each_vector_once(vectors, c);
        let list = members(vectors, c);
        assert(lists[c] == list);
        let p = choose|p: int| 0 <= p < list.len() && list[p] == j as usize;
        let own = (cd[c], c as usize);
        assert(with_places(cd)[c] == own);
        assert(with_places(cd).contains(own));
        lemma_same_members(with_places(cd), own);
        let i = choose|i: int| 0 <= i < order.len() && order[i] == own;
        lemma_gathered(chosen, lists, vd, i, p);
        assert(g.contains((vd[j], j as usize)));
        lemma_same_members(g, (vd[j], j as usize));
    }
    assert forall|p: int, j: int| 0 <= p < r.len() && 0 <= j < vd.len() && !r.contains(j as usize) implies total_place(vd[(#[trigger] r[p]) as int]) <= total_place(#[trigger] vd[j]) by {
        assert(f.contains((vd[j], j as usize)));
        let q = choose|q: int| 0 <= q < f.len() && f[q] == (vd[j], j as usize);
        if q < r.len() {
            assert(r[q] == j as usize);
        }
        assert(p < q);
        assert(f[p].0 == vd[f[p].1 as int]);
    }
    if r.len() != top_k {
        assert forall|j: int| 0 <= j < vd.len() implies r.contains(#[trigger] (j as usize)) by {
            assert(f.contains((vd[j], j as usize)));
            let q = choose|q: int| 0 <= q < f.len() && f[q] == (vd[j], j as usize);
            assert(r[q] == j as usize);
        }
    }
}

// --- what the training looks at ---

/// The state that the training of `k` clusters starts from.
pub open spec fn training_seed(n: u64, k: u64, dim: u64) -> u64 {
    SEED_MIX ^ ((n * 0x0100_0000_01b3) % 0x1_0000_0000_0000_0000) as u64 ^ (k << 40u64) ^ dim
}

/// The seed depends on the shape of the data alone.
pub fn training_state(n: u64, k: u64, dim: u64) -> (r: u64)
    ensures
        r == training_seed(n, k, dim),
{
    let m: u64 = n.wrapping_mul(0x0100_0000_01b3);
    SEED_MIX ^ m ^ (k << 40u64) ^ dim
}

/// How many vectors the training looks at, at most.
pub open spec fn sample_limit(k: int) -> int {
    let wide = if k * 256 > usize::MAX {
        usize::MAX as int
    } else {
        k * 256
    };
    if wide < 4096 {
        4096
    } else {
        wide
    }
}

/// The state after `i` steps.
pub open spec fn state_after(s: u64, i: nat) -> u64
    decreases i,
{
    if i == 0 {
        s
    } else {
        shifted(state_after(s, (i - 1) as nat))
    }
}

/// The vectors that the training of `k` clusters on `n` vectors looks at, from a state:
/// all of them, or one of each stretch.
pub open spec fn sample_places(n: int, k: int, s: u64) -> Seq<usize> {
    let limit = sample_limit(k);
    if n <= limit {
        Seq::new(n as nat, |i: int| i as usize)
    } else {
        let step = n / limit;
        Seq::new(limit as nat, |i: int| ((i * step + (state_after(s, (i + 1) as nat) as usize) as int % step) % n) as usize)
    }
}

/// Chooses the vectors to train on, and gives the state that follows.
pub fn sample(n: usize, k: usize, state: u64) -> (r: (Vec<usize>, u64))
    ensures
        r.0@ == sample_places(n as int, k as int, state),
        r.1 == state_after(state, if n <= sample_limit(k as int) { 0 } else { r.0@.len() }),
{
    let wide: usize = if k > usize::MAX / 256 {
        usize::MAX
    } else {
        k * 256
    };
    let limit: usize = if wide < 4096 {
        4096
    } else {
        wide
    };
    let mut out: Vec<usize> = Vec::new();
    if n <= limit {
        for i in 0..n
            invariant
                out@.len() == i,
                forall|x: int| 0 <= x < i ==> #[trigger] out@[x] == x,
        {
            out.push(i);
        }
        assert(out@ =~= sample_places(n as int, k as int, state));
        return (out, state);
    }
    let step: usize = n / limit;
    let mut s: u64 = state;
    proof {
        vstd::arithmetic::div_mod::lemma_fundamental_div_mod(n as int, limit as int);
        assert(step >= 1) by (nonlinear_arith)
            requires
                step == n as int / limit as int,
                n > limit,
                limit > 0,
        ;
        assert(limit * step <= n) by (nonlinear_arith)
            requires
                n == limit * step + (n as int % limit as int),
                n as int % limit as int >= 0,
        ;
    }
    for i in 0..limit
        invariant
            step >= 1,
            n > limit,
            limit * step <= n,
            step == n as int / limit as int,
            limit == sample_limit(k as int),
            s == state_after(state, i as nat),
            out@.len() == i,
            forall|x: int| 0 <= x < i ==> #[trigger] out@[x] == sample_places(n as int, k as int, state)[x],
    {
        let _ = next_random(&mut s);
        let part: usize = (s as usize) % step;
        assert(i * step + part < n) by (nonlinear_arith)
            requires
                i < limit,
                part < step,
                limit * step <= n,
        ;
        out.push((i * step + part) % n);
    }
    assert(out@ =~= sample_places(n as int, k as int, state));
    (out, s)
}

} // verus!
