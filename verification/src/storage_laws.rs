//! What the stored forms are for: which digit stands in which byte, which meta slot is the one to
//! start from, which pages a cache keeps, and which vectors a search looks at.
#[allow(unused_imports)]
use std::sync::Arc;
#[allow(unused_imports)]
use vstd::arithmetic::div_mod::lemma_div_denominator;
#[allow(unused_imports)]
use vstd::prelude::*;
#[allow(unused_imports)]
use vstd::utf8::encode_utf8;

#[allow(unused_imports)]
use crate::bytes::{be_bytes, le_bytes, pow256};
#[allow(unused_imports)]
use crate::format::{varint, FileHeader, MetaSlot, PageBuf, PageId, FORMAT_VERSION, MAGIC_HEADER, MAGIC_META, PAGE_SIZE};
#[allow(unused_imports)]
use crate::ivf::{candidates, first_of, listed, paired, probed, ranked, ranking_sorts, total_place, with_places};
#[allow(unused_imports)]
use crate::pager::{cached, distinct_pages, entry_of, newest, without_page};
#[allow(unused_imports)]
use crate::record::{payload, payloads, record_bytes, tags, ValueV};

verus! {

// --- numbers in bytes ---

proof fn lemma_pow256(n: nat)
    ensures
        pow256(n) > 0,
    decreases n,
{
    if n > 0 {
        lemma_pow256((n - 1) as nat);
    }
}

/// The byte at place `i` of a number written from its least significant digit is its `i`-th
/// digit in base 256.
pub proof fn digits_from_the_least(v: nat, n: nat, i: nat)
    requires
        i < n,
    ensures
        le_bytes(v, n).len() == n,
        le_bytes(v, n)[i as int] as nat == (v / pow256(i)) % 256,
    decreases n,
{
    let rest = le_bytes(v / 256, (n - 1) as nat);
    if n == 1 {
        assert(rest =~= Seq::<u8>::empty());
    } else {
        digits_from_the_least(v / 256, (n - 1) as nat, 0);
    }
    if i == 0 {
        assert(pow256(0) == 1);
        assert(v / 1 == v);
    } else {
        let k = (i - 1) as nat;
        digits_from_the_least(v / 256, (n - 1) as nat, k);
        lemma_pow256(k);
        lemma_div_denominator(v as int, 256, pow256(k) as int);
        assert(le_bytes(v, n)[i as int] == rest[k as int]);
    }
}

/// The byte at place `i` from the end of a number written from its most significant digit is its
/// `i`-th digit in base 256.
pub proof fn digits_from_the_most(v: nat, n: nat, i: nat)
    requires
        i < n,
    ensures
        be_bytes(v, n).len() == n,
        be_bytes(v, n)[n - 1 - i] as nat == (v / pow256(i)) % 256,
    decreases n,
{
    let rest = be_bytes(v / 256, (n - 1) as nat);
    if n == 1 {
        assert(rest =~= Seq::<u8>::empty());
    } else {
        digits_from_the_most(v / 256, (n - 1) as nat, 0);
    }
    if i == 0 {
        assert(pow256(0) == 1);
        assert(v / 1 == v);
    } else {
        let k = (i - 1) as nat;
        digits_from_the_most(v / 256, (n - 1) as nat, k);
        lemma_pow256(k);
        lemma_div_denominator(v as int, 256, pow256(k) as int);
        assert(be_bytes(v, n)[n - 1 - i] == rest[n - 2 - k]);
    }
}

/// A number of variable length is written by its digits in base 128, the least first, each but the
/// last with the high bit.
pub proof fn varints_are_digits(q: nat, d: nat)
    requires
        d < 128,
    ensures
        varint(d) == seq![d as u8],
        q > 0 ==> varint(128 * q + d) == seq![(128 + d) as u8] + varint(q),
{
    if q > 0 {
        let v = 128 * q + d;
        assert(v % 128 == d && v / 128 == q && v >= 128);
    }
}

/// The fields of a header stand at their places.
pub proof fn header_fields_have_their_places(h: FileHeader)
    ensures
        h.encoded().len() == 53,
        h.encoded().subrange(0, 8) == MAGIC_HEADER@,
        h.encoded().subrange(8, 12) == le_bytes(FORMAT_VERSION as nat, 4),
        h.encoded().subrange(12, 16) == le_bytes(PAGE_SIZE as nat, 4),
        h.encoded().subrange(16, 20) == le_bytes(h.flags as nat, 4),
        h.encoded().subrange(20, 36) == h.file_id@,
        h.encoded().subrange(36, 52) == h.kdf_salt@,
        h.encoded()[52] == h.ecc_nsym,
{
    digits_from_the_least(FORMAT_VERSION as nat, 4, 0);
    digits_from_the_least(PAGE_SIZE as nat, 4, 0);
    digits_from_the_least(h.flags as nat, 4, 0);
    let e = h.encoded();
    assert(e.subrange(0, 8) =~= MAGIC_HEADER@);
    assert(e.subrange(8, 12) =~= le_bytes(FORMAT_VERSION as nat, 4));
    assert(e.subrange(12, 16) =~= le_bytes(PAGE_SIZE as nat, 4));
    assert(e.subrange(16, 20) =~= le_bytes(h.flags as nat, 4));
    assert(e.subrange(20, 36) =~= h.file_id@);
    assert(e.subrange(36, 52) =~= h.kdf_salt@);
}

/// The fields of a meta slot stand at their places.
pub proof fn meta_fields_have_their_places(m: MetaSlot)
    ensures
        m.encoded().len() == 32,
        m.encoded().subrange(0, 8) == MAGIC_META@,
        m.encoded().subrange(8, 16) == le_bytes(m.version as nat, 8),
        m.encoded().subrange(16, 24) == le_bytes(m.last_commit_page.0 as nat, 8),
        m.encoded().subrange(24, 32) == le_bytes(m.n_pages as nat, 8),
{
    digits_from_the_least(m.version as nat, 8, 0);
    digits_from_the_least(m.last_commit_page.0 as nat, 8, 0);
    digits_from_the_least(m.n_pages as nat, 8, 0);
    let e = m.encoded();
    assert(e.subrange(0, 8) =~= MAGIC_META@);
    assert(e.subrange(8, 16) =~= le_bytes(m.version as nat, 8));
    assert(e.subrange(16, 24) =~= le_bytes(m.last_commit_page.0 as nat, 8));
    assert(e.subrange(24, 32) =~= le_bytes(m.n_pages as nat, 8));
}

/// The slot to start from is a valid one, and none has a higher version; there is none only where
/// neither is valid.
pub proof fn the_newest_slot_is_taken(a: Option<MetaSlot>, b: Option<MetaSlot>)
    ensures
        newest(a, b) is None <==> a is None && b is None,
        newest(a, b) is Some ==> newest(a, b) == a || newest(a, b) == b,
        newest(a, b) is Some && a is Some ==> a->0.version <= newest(a, b)->0.version,
        newest(a, b) is Some && b is Some ==> b->0.version <= newest(a, b)->0.version,
{
}

// --- the page cache ---

proof fn lemma_entry_of(s: Seq<(PageId, Arc<PageBuf>)>, id: PageId, from: int)
    requires
        0 <= from <= s.len(),
    ensures
        match entry_of(s, id, from) {
            Some(i) => from <= i < s.len() && s[i].0 == id,
            None => forall|i: int| from <= i < s.len() ==> (#[trigger] s[i]).0 != id,
        },
    decreases s.len() - from,
{
    if from < s.len() && s[from].0 != id {
        lemma_entry_of(s, id, from + 1);
    }
}

/// A page that is put in stands last, the others before it in the order of their last access. Over
/// the limit the oldest go, until three quarters of it are left.
pub proof fn the_oldest_pages_go(s: Seq<(PageId, Arc<PageBuf>)>, id: PageId, page: Arc<PageBuf>, cap: int)
    requires
        distinct_pages(s),
        0 <= cap,
    ensures
        ({
            let others = without_page(s, id);
            let all = others.push((id, page));
            let r = cached(s, id, page, cap);
            &&& forall|i: int| 0 <= i < others.len() ==> (#[trigger] others[i]).0 != id && s.contains(others[i])
            &&& forall|i: int| 0 <= i < s.len() && (#[trigger] s[i]).0 != id ==> others.contains(s[i])
            &&& all.len() <= cap ==> r == all
            &&& all.len() > cap ==> r.len() == cap * 3 / 4 && forall|i: int| 0 <= i < r.len() ==> #[trigger] r[i] == all[all.len() - cap * 3 / 4 + i]
        }),
{
    lemma_entry_of(s, id, 0);
    let others = without_page(s, id);
    match entry_of(s, id, 0) {
        Some(k) => {
            assert forall|i: int| 0 <= i < others.len() implies (#[trigger] others[i]).0 != id && s.contains(others[i]) by {
                let j = if i < k {
                    i
                } else {
                    i + 1
                };
                assert(others[i] == s[j]);
                assert(s[k].0 == id);
            }
            assert forall|i: int| 0 <= i < s.len() && (#[trigger] s[i]).0 != id implies others.contains(s[i]) by {
                let j = if i < k {
                    i
                } else {
                    i - 1
                };
                assert(others[j] == s[i]);
            }
        },
        None => {},
    }
    let all = others.push((id, page));
    if all.len() > cap {
        assert(0 <= cap * 3 / 4 <= cap);
    }
}

// --- the vector index ---

proof fn lemma_listed(clusters: Seq<(u32, usize)>, lists: Seq<Seq<usize>>, v: usize)
    ensures
        listed(clusters, lists).contains(v) <==> exists|c: int| 0 <= c < clusters.len() && lists[(#[trigger] clusters[c]).1 as int].contains(v),
    decreases clusters.len(),
{
    if clusters.len() > 0 {
        let init = clusters.drop_last();
        let last = lists[clusters.last().1 as int];
        lemma_listed(init, lists, v);
        let a = listed(init, lists);
        let all = a + last;
        if all.contains(v) {
            let p = choose|p: int| 0 <= p < all.len() && all[p] == v;
            if p < a.len() {
                assert(a[p] == v);
                let c = choose|c: int| 0 <= c < init.len() && lists[(#[trigger] init[c]).1 as int].contains(v);
                assert(clusters[c] == init[c]);
            } else {
                assert(last[p - a.len()] == v);
                assert(lists[clusters[clusters.len() - 1].1 as int].contains(v));
            }
        }
        if exists|c: int| 0 <= c < clusters.len() && lists[(#[trigger] clusters[c]).1 as int].contains(v) {
            let c = choose|c: int| 0 <= c < clusters.len() && lists[(#[trigger] clusters[c]).1 as int].contains(v);
            if c < init.len() {
                assert(init[c] == clusters[c]);
                let p = choose|p: int| 0 <= p < a.len() && a[p] == v;
                assert(all[p] == v);
            } else {
                let p = choose|p: int| 0 <= p < last.len() && last[p] == v;
                assert(all[a.len() + p] == v);
            }
        }
    }
}

/// A search looks into as many clusters as it is told, at least one and no more than there are, and
/// into none that is farther away than one that it leaves out. Its candidates are the vectors of
/// those clusters and no others.
pub proof fn searches_look_into_the_nearest_clusters(cd: Seq<u32>, lists: Seq<Seq<usize>>, nprobe: usize) -> (chosen: Seq<(u32, usize)>)
    requires
        0 < cd.len() <= usize::MAX,
    ensures
        chosen.len() == (if nprobe == 0 {
            1
        } else if nprobe < cd.len() {
            nprobe as int
        } else {
            cd.len() as int
        }),
        forall|c: int| 0 <= c < chosen.len() ==> (#[trigger] chosen[c]).1 < cd.len() && chosen[c].0 == cd[chosen[c].1 as int],
        forall|c: int, u: int| 0 <= c < chosen.len() && 0 <= u < cd.len() && !chosen.contains((cd[u], u as usize)) ==> total_place((#[trigger] chosen[c]).0) <= total_place(#[trigger] cd[u]),
        forall|v: usize| #[trigger] candidates(cd, lists, nprobe).contains(v) <==> exists|c: int| 0 <= c < chosen.len() && lists[(#[trigger] chosen[c]).1 as int].contains(v),
{
    broadcast use vstd::seq_lib::group_to_multiset_ensures;

    let s = with_places(cd);
    let r = ranked(s);
    ranking_sorts(s);
    let n = probed(nprobe, cd.len());
    let chosen = r.take(n);
    assert forall|c: int| 0 <= c < chosen.len() implies (#[trigger] chosen[c]).1 < cd.len() && chosen[c].0 == cd[chosen[c].1 as int] by {
        assert(r.contains(r[c]));
        assert(r.to_multiset().count(r[c]) > 0);
        assert(s.contains(r[c]));
    }
    assert forall|c: int, u: int| 0 <= c < chosen.len() && 0 <= u < cd.len() && !chosen.contains((cd[u], u as usize)) implies total_place((#[trigger] chosen[c]).0) <= total_place(#[trigger] cd[u]) by {
        let x = (cd[u], u as usize);
        assert(s[u] == x);
        assert(s.contains(x));
        assert(s.to_multiset().count(x) > 0);
        assert(r.contains(x));
        let p = choose|p: int| 0 <= p < r.len() && r[p] == x;
        if p < n {
            assert(chosen[p] == x);
        }
        assert(r[c] == chosen[c]);
    }
    assert forall|v: usize| #[trigger] candidates(cd, lists, nprobe).contains(v) <==> exists|c: int| 0 <= c < chosen.len() && lists[(#[trigger] chosen[c]).1 as int].contains(v) by {
        lemma_listed(chosen, lists, v);
    }
    chosen
}

/// Of some vectors with their distances the nearest come first, as many as are asked for: none that
/// is left out is nearer than one that is given.
pub proof fn the_nearest_vectors_are_given(vectors: Seq<usize>, d: Seq<u32>, top_k: usize) -> (at: Seq<(u32, usize)>)
    requires
        vectors.len() == d.len(),
    ensures
        ({
            let r = first_of(ranked(paired(vectors, d)), top_k);
            &&& at.len() == vectors.len()
            &&& at.to_multiset() == paired(vectors, d).to_multiset()
            &&& r.len() == (if top_k < vectors.len() {
                top_k as int
            } else {
                vectors.len() as int
            })
            &&& forall|i: int| 0 <= i < r.len() ==> #[trigger] r[i] == at[i].1
            &&& forall|i: int, j: int| 0 <= i < j < at.len() ==> total_place((#[trigger] at[i]).0) <= total_place((#[trigger] at[j]).0)
        }),
{
    ranking_sorts(paired(vectors, d));
    ranked(paired(vectors, d))
}

// --- records ---

/// A record starts with the number of its values, then has a tag for each of them, and then what
/// the tags do not say, value after value.
pub proof fn records_are_laid_out(vs: Seq<ValueV>, v: ValueV, i: int)
    requires
        0 <= i < vs.len() < 128,
    ensures
        record_bytes(vs)[0] == vs.len(),
        ({
            let t = record_bytes(vs)[1 + i];
            &&& vs[i] is Null ==> t == 0
            &&& vs[i] == ValueV::Bool(false) ==> t == 1
            &&& vs[i] == ValueV::Bool(true) ==> t == 2
            &&& vs[i] is Integer ==> t == 3
            &&& vs[i] is Real ==> t == 4
            &&& vs[i] is Text ==> t == 5
            &&& vs[i] is Blob ==> t == 6
        }),
        record_bytes(vs).skip(1 + vs.len() as int) == payloads(vs),
        payloads(vs.push(v)) == payloads(vs) + payload(v),
{
    varints_are_digits(0, vs.len());
    assert(varint(vs.len()) == seq![vs.len() as u8]);
    let r = record_bytes(vs);
    assert(r[1 + i] == tags(vs)[i]);
    assert(r.skip(1 + vs.len() as int) =~= payloads(vs));
    assert(vs.push(v).drop_last() =~= vs);
}

/// An integer is written with its sign in the lowest bit, a real by its bits from the least
/// significant byte on, a text and a blob behind their length in bytes.
pub proof fn payloads_are_laid_out(n: i64, b: u64, s: Seq<char>, x: Seq<u8>, i: nat)
    requires
        i < 8,
    ensures
        0 <= n < 64 ==> payload(ValueV::Integer(n)) == seq![(2 * n) as u8],
        -64 <= n < 0 ==> payload(ValueV::Integer(n)) == seq![(-2 * n - 1) as u8],
        payload(ValueV::Real(b)).len() == 8,
        payload(ValueV::Real(b))[i as int] as nat == (b as nat / pow256(i)) % 256,
        x.len() < 128 ==> payload(ValueV::Blob(x)) == seq![x.len() as u8] + x,
        encode_utf8(s).len() < 128 ==> payload(ValueV::Text(s)) == seq![encode_utf8(s).len() as u8] + encode_utf8(s),
        payload(ValueV::Null).len() == 0,
{
    digits_from_the_least(b as nat, 8, i);
    if 0 <= n < 64 {
        varints_are_digits(0, (2 * n) as nat);
    }
    if -64 <= n < 0 {
        varints_are_digits(0, (-2 * n - 1) as nat);
    }
    if x.len() < 128 {
        varints_are_digits(0, x.len());
    }
    if encode_utf8(s).len() < 128 {
        varints_are_digits(0, encode_utf8(s).len());
    }
}

} // verus!
