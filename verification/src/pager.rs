//! Pages and records of the file: the page cache, the directory of the append region,
//! the shape of its records, and what opening a file decides.
//!
//! Pages of the append region never change once they are written, so that a cached page
//! stays valid. Sealing and opening bytes, and the file itself, are the caller's.
use std::collections::HashMap;
use std::sync::Arc;

use getrandom::Error as RandomFailure;
use vstd::prelude::*;

use crate::bytes::{copy_range, overwrite, push_all, push_le};
#[allow(unused_imports)]
use crate::bytes::{le_bytes, le_value, lemma_le_bytes_len, lemma_le_round_trip, lemma_pow256_values};
use crate::error::{Error, ErrorV};
#[allow(unused_imports)]
use crate::error::gives;
use crate::format::{FileHeader, MetaSlot, PageBuf, PageId, BODY_SIZE, CRYPTO_RESERVE, FIRST_DATA_PAGE, FLAG_COMPRESSED, FLAG_ENCRYPTED, LEN_PREFIX_LEN, MAGIC_HEADER, META_PAGE_A, PAGE_SIZE};
#[allow(unused_imports)]
use crate::format::{header_fault, header_readable};

verus! {

/// Method byte of a page of a compressed file: the body as it is.
pub const METHOD_RAW: u8 = 0;

/// Method byte of a page of a compressed file: the body compressed.
pub const METHOD_LZ: u8 = 1;

/// How many pages the cache holds.
pub const CACHE_CAP: usize = 4096;

/// Where the append region starts.
pub const APPEND_START: u64 = 12288;

/// The append region starts behind the structural pages.
pub proof fn append_region_follows()
    ensures
        APPEND_START == FIRST_DATA_PAGE * PAGE_SIZE,
{
}

// --- the page cache ---

/// A cache of pages with a limit: the pages by their numbers, and the numbers in the order of
/// their last access, the oldest first. Where the limit is passed, the oldest go until three
/// quarters of it are left.
pub struct PageCache {
    pages: HashMap<u64, Arc<PageBuf>>,
    order: Vec<PageId>,
    cap: usize,
}

/// The pages with their numbers, in that order.
spec fn ordered(order: Seq<PageId>, pages: Map<u64, Arc<PageBuf>>) -> Seq<(PageId, Arc<PageBuf>)> {
    Seq::new(order.len(), |i: int| (order[i], pages[order[i].0]))
}

/// The order holds the number of every page, and no other number.
spec fn in_step(order: Seq<PageId>, pages: Map<u64, Arc<PageBuf>>) -> bool {
    &&& forall|i: int| 0 <= i < order.len() ==> pages.dom().contains((#[trigger] order[i]).0)
    &&& forall|k: u64| #[trigger] pages.dom().contains(k) ==> exists|i: int| 0 <= i < order.len() && (#[trigger] order[i]).0 == k
}

/// The place of a page among the entries from `i` on.
pub open spec fn entry_of(s: Seq<(PageId, Arc<PageBuf>)>, id: PageId, i: int) -> Option<int>
    decreases s.len() - i,
{
    if i < 0 || i >= s.len() {
        None
    } else if s[i].0 == id {
        Some(i)
    } else {
        entry_of(s, id, i + 1)
    }
}

/// No page stands twice.
pub open spec fn distinct_pages(s: Seq<(PageId, Arc<PageBuf>)>) -> bool {
    forall|i: int, k: int| 0 <= i < k < s.len() ==> (#[trigger] s[i]).0 != (#[trigger] s[k]).0
}

/// The entries without the page.
pub open spec fn without_page(s: Seq<(PageId, Arc<PageBuf>)>, id: PageId) -> Seq<(PageId, Arc<PageBuf>)> {
    match entry_of(s, id, 0) {
        Some(i) => s.remove(i),
        None => s,
    }
}

/// What is left of the entries under a limit.
pub open spec fn within(s: Seq<(PageId, Arc<PageBuf>)>, cap: int) -> Seq<(PageId, Arc<PageBuf>)> {
    if s.len() > cap {
        s.skip(s.len() - cap * 3 / 4)
    } else {
        s
    }
}

/// The entries after a page was put in.
pub open spec fn cached(s: Seq<(PageId, Arc<PageBuf>)>, id: PageId, page: Arc<PageBuf>, cap: int) -> Seq<(PageId, Arc<PageBuf>)> {
    within(without_page(s, id).push((id, page)), cap)
}

proof fn lemma_entry_of(s: Seq<(PageId, Arc<PageBuf>)>, id: PageId, i: int)
    requires
        0 <= i,
    ensures
        (match entry_of(s, id, i) {
                Some(k) => i <= k < s.len() && s[k].0 == id,
                None => forall|k: int| i <= k < s.len() ==> (#[trigger] s[k]).0 != id,
        }),
    decreases s.len() - i,
{
    if i < s.len() {
        lemma_entry_of(s, id, i + 1);
        if s[i].0 != id && entry_of(s, id, i + 1) is None {
            assert forall|k: int| i <= k < s.len() implies (#[trigger] s[k]).0 != id by {
                if k > i {
                    assert(s[k].0 != id);
                }
            }
        }
    }
}

proof fn lemma_within(s: Seq<(PageId, Arc<PageBuf>)>, cap: int)
    requires
        0 <= cap,
        distinct_pages(s),
    ensures
        within(s, cap).len() <= cap,
        distinct_pages(within(s, cap)),
{
    let d = s.len() - cap * 3 / 4;
    if s.len() > cap {
        assert forall|i: int, k: int| 0 <= i < k < within(s, cap).len() implies (#[trigger] within(s, cap)[i]).0 != (#[trigger] within(s, cap)[k]).0 by {
            assert(within(s, cap)[i] == s[i + d]);
            assert(within(s, cap)[k] == s[k + d]);
        }
    }
}

proof fn lemma_moved(s: Seq<(PageId, Arc<PageBuf>)>, id: PageId, page: Arc<PageBuf>)
    requires
        distinct_pages(s),
    ensures
        distinct_pages(without_page(s, id).push((id, page))),
{
    lemma_entry_of(s, id, 0);
    let w = without_page(s, id);
    let t = w.push((id, page));
    assert forall|i: int, k: int| 0 <= i < k < t.len() implies (#[trigger] t[i]).0 != (#[trigger] t[k]).0 by {
        match entry_of(s, id, 0) {
            Some(p) => {
                let a = if i < p {
                    i
                } else {
                    i + 1
                };
                assert(t[i] == s[a]);
                if k < w.len() {
                    let b = if k < p {
                        k
                    } else {
                        k + 1
                    };
                    assert(t[k] == s[b]);
                } else {
                    assert(a != p);
                    if a < p {
                        assert(s[a].0 != s[p].0);
                    } else {
                        assert(s[p].0 != s[a].0);
                    }
                }
            },
            None => {
                assert(t[i] == s[i]);
            },
        }
    }
}

impl PageCache {

    pub closed spec fn entries(&self) -> Seq<(PageId, Arc<PageBuf>)> {
        ordered(self.order@, self.pages@)
    }

    pub closed spec fn limit(&self) -> int {
        self.cap as int
    }

    closed spec fn kept(&self) -> bool {
        in_step(self.order@, self.pages@)
    }

    /// The cache is within its limit, no page stands twice, and every page has its place in
    /// the order.
    pub closed spec fn wf(&self) -> bool {
        &&& self.kept()
        &&& distinct_pages(self.entries())
        &&& self.entries().len() <= self.limit()
        &&& 0 <= self.limit() * 3 <= usize::MAX
    }

    pub fn new(cap: usize) -> (r: PageCache)
        requires
            cap * 3 <= usize::MAX,
        ensures
            r.wf(),
            r.entries().len() == 0,
            r.limit() == cap,
    {
        broadcast use vstd::std_specs::hash::group_hash_axioms;

        PageCache { pages: HashMap::new(), order: Vec::new(), cap }
    }

    /// How many pages are there.
    pub fn len(&self) -> (r: usize)
        ensures
            r == self.entries().len(),
    {
        self.order.len()
    }

    /// The place of a page that is there.
    fn find(&self, id: PageId) -> (r: usize)
        requires
            self.kept(),
            self.pages@.dom().contains(id.0),
        ensures
            entry_of(self.entries(), id, 0) == Some(r as int),
            r < self.order@.len(),
            self.order@[r as int] == id,
    {
        let n: usize = self.order.len();
        let mut i: usize = 0;
        while self.order[i].0 != id.0
            invariant
                n == self.order@.len(),
                i < n,
                self.kept(),
                self.pages@.dom().contains(id.0),
                forall|k: int| 0 <= k < i ==> (#[trigger] self.order@[k]).0 != id.0,
                entry_of(self.entries(), id, 0) == entry_of(self.entries(), id, i as int),
            decreases n - i,
        {
            assert(self.entries()[i as int].0 == self.order@[i as int]);
            proof {
                let k = choose|k: int| 0 <= k < n && (#[trigger] self.order@[k]).0 == id.0;
                assert(k > i);
            }
            i = i + 1;
        }
        assert(self.entries()[i as int].0 == self.order@[i as int]);
        i
    }

    /// The page, which becomes the last one accessed.
    pub fn get(&mut self, id: PageId) -> (r: Option<Arc<PageBuf>>)
        requires
            old(self).wf(),
        ensures
            final(self).wf(),
            final(self).limit() == old(self).limit(),
            (match entry_of(old(self).entries(), id, 0) {
                    Some(i) => r == Some(old(self).entries()[i].1) && final(self).entries() == without_page(old(self).entries(), id).push((id, old(self).entries()[i].1)),
                    None => r is None && final(self).entries() == old(self).entries(),
            }),
    {
        broadcast use vstd::std_specs::hash::group_hash_axioms;

        let ghost s = self.entries();
        let copy = match self.pages.get(&id.0) {
            None => {
                proof {
                    lemma_entry_of(s, id, 0);
                    if entry_of(s, id, 0) is Some {
                        assert(s[entry_of(s, id, 0)->0].0 == self.order@[entry_of(s, id, 0)->0]);
                    }
                }
                return None;
            },
            Some(page) => page.clone(),
        };
        let i: usize = self.find(id);
        let ghost o = self.order@;
        self.order.remove(i);
        self.order.push(id);
        proof {
            lemma_moved(s, id, s[i as int].1);
            assert(self.entries() =~= without_page(s, id).push((id, s[i as int].1)));
            lemma_in_step(o, self.pages@, i as int);
        }
        Some(copy)
    }

    /// Puts a page in; one of the same number is replaced.
    pub fn insert(&mut self, id: PageId, page: Arc<PageBuf>)
        requires
            old(self).wf(),
        ensures
            final(self).wf(),
            final(self).limit() == old(self).limit(),
            final(self).entries() == cached(old(self).entries(), id, page, old(self).limit()),
    {
        broadcast use vstd::std_specs::hash::group_hash_axioms;

        let ghost s = self.entries();
        let ghost o = self.order@;
        let ghost m = self.pages@;
        proof {
            lemma_moved(s, id, page);
            lemma_within(without_page(s, id).push((id, page)), self.cap as int);
            lemma_entry_of(s, id, 0);
        }
        if self.pages.contains_key(&id.0) {
            let i: usize = self.find(id);
            proof {
                lemma_in_step(o, m, i as int);
            }
            self.order.remove(i);
        } else {
            proof {
                if entry_of(s, id, 0) is Some {
                    assert(s[entry_of(s, id, 0)->0].0 == o[entry_of(s, id, 0)->0]);
                }
            }
        }
        self.order.push(id);
        let ghost t = self.order@;
        self.pages.insert(id.0, page);
        proof {
            let next = without_page(s, id).push((id, page));
            assert(distinct_pages(next));
            assert forall|k: int| 0 <= k < t.len() implies ordered(t, self.pages@)[k] == #[trigger] next[k] by {
                if k < t.len() - 1 {
                    assert(next[k].0 != next[next.len() - 1].0);
                    if entry_of(s, id, 0) is Some {
                        let i = entry_of(s, id, 0)->0;
                        let j = if k < i { k } else { k + 1 };
                        assert(t[k] == o[j]);
                        assert(next[k] == s[j]);
                    } else {
                        assert(t[k] == o[k]);
                        assert(next[k] == s[k]);
                    }
                }
            }
            assert(ordered(t, self.pages@) =~= next);
            assert forall|k: u64| #[trigger] self.pages@.dom().contains(k) implies exists|i: int| 0 <= i < t.len() && (#[trigger] t[i]).0 == k by {
                if k == id.0 {
                    assert(t[t.len() - 1].0 == k);
                } else {
                    assert(m.dom().contains(k));
                    let j = choose|j: int| 0 <= j < o.len() && (#[trigger] o[j]).0 == k;
                    if entry_of(s, id, 0) is Some {
                        let i = entry_of(s, id, 0)->0;
                        assert(s[i].0 == o[i]);
                        assert(t[if j < i { j } else { j - 1 }] == o[j]);
                    } else {
                        assert(t[j] == o[j]);
                    }
                }
            }
            assert forall|i: int| 0 <= i < t.len() implies self.pages@.dom().contains((#[trigger] t[i]).0) by {
                if i < t.len() - 1 {
                    assert(o.contains(t[i])) by {
                        if entry_of(s, id, 0) is Some {
                            let p = entry_of(s, id, 0)->0;
                            assert(t[i] == o[if i < p { i } else { i + 1 }]);
                        } else {
                            assert(t[i] == o[i]);
                        }
                    }
                }
            }
            assert(in_step(t, self.pages@));
        }
        if self.order.len() > self.cap {
            self.evict_batch();
        }
    }

    fn evict_batch(&mut self)
        requires
            old(self).kept(),
            distinct_pages(old(self).entries()),
            old(self).order@.len() > old(self).cap,
            old(self).cap * 3 <= usize::MAX,
        ensures
            final(self).cap == old(self).cap,
            final(self).kept(),
            final(self).entries() == within(old(self).entries(), old(self).cap as int),
    {
        broadcast use vstd::std_specs::hash::group_hash_axioms;

        let target: usize = self.cap * 3 / 4;
        let drop_n: usize = self.order.len() - target;
        let ghost s = self.entries();
        let ghost o = self.order@;
        let ghost m = self.pages@;
        proof {
            assert forall|i: int, k: int| 0 <= i < k < o.len() implies (#[trigger] o[i]).0 != (#[trigger] o[k]).0 by {
                assert(s[i].0 != s[k].0);
            }
        }
        for i in 0..drop_n
            invariant
                drop_n <= o.len(),
                self.order@ == o,
                self.cap == old(self).cap,
                forall|k: u64| #[trigger] self.pages@.dom().contains(k) <==> m.dom().contains(k) && forall|j: int| 0 <= j < i ==> (#[trigger] o[j]).0 != k,
                forall|k: u64| #[trigger] self.pages@.dom().contains(k) ==> self.pages@[k] == m[k],
        {
            self.pages.remove(&self.order[i].0);
            assert forall|k: u64| #[trigger] self.pages@.dom().contains(k) implies m.dom().contains(k) && forall|j: int| 0 <= j < i + 1 ==> (#[trigger] o[j]).0 != k by {
                assert(k != o[i as int].0);
            }
        }
        let kept = self.order.split_off(drop_n);
        self.order = kept;
        proof {
            let t = self.order@;
            assert forall|k: int| 0 <= k < t.len() implies self.pages@.dom().contains((#[trigger] t[k]).0) && self.pages@[t[k].0] == m[t[k].0] by {
                assert(t[k] == o[k + drop_n]);
                assert forall|j: int| 0 <= j < drop_n implies (#[trigger] o[j]).0 != t[k].0 by {
                    assert(o[j].0 != o[k + drop_n].0);
                }
            }
            assert(ordered(t, self.pages@) =~= within(s, old(self).cap as int));
            assert forall|k: u64| #[trigger] self.pages@.dom().contains(k) implies exists|i: int| 0 <= i < t.len() && (#[trigger] t[i]).0 == k by {
                let j = choose|j: int| 0 <= j < o.len() && (#[trigger] o[j]).0 == k;
                assert(j >= drop_n);
                assert(t[j - drop_n] == o[j]);
            }
        }
    }

}

/// A number that moves to the end is still in the order, as are the others.
proof fn lemma_in_step(o: Seq<PageId>, m: Map<u64, Arc<PageBuf>>, i: int)
    requires
        in_step(o, m),
        0 <= i < o.len(),
    ensures
        in_step(o.remove(i).push(o[i]), m),
{
    let t = o.remove(i).push(o[i]);
    assert forall|k: int| 0 <= k < t.len() implies m.dom().contains((#[trigger] t[k]).0) by {
        if k < t.len() - 1 {
            assert(t[k] == o[if k < i { k } else { k + 1 }]);
        }
    }
    assert forall|k: u64| #[trigger] m.dom().contains(k) implies exists|j: int| 0 <= j < t.len() && (#[trigger] t[j]).0 == k by {
        let j = choose|j: int| 0 <= j < o.len() && (#[trigger] o[j]).0 == k;
        if j == i {
            assert(t[t.len() - 1] == o[i]);
        } else {
            assert(t[if j < i { j } else { j - 1 }] == o[j]);
        }
    }
}

/// A page that was put in is found, as it was put in, where the limit leaves room for
/// it; and the cache is never over its limit.
pub proof fn cache_keeps_newest(s: Seq<(PageId, Arc<PageBuf>)>, id: PageId, page: Arc<PageBuf>, cap: int)
    requires
        distinct_pages(s),
        s.len() <= cap,
        2 <= cap,
    ensures
        cached(s, id, page, cap).len() <= cap,
        cached(s, id, page, cap).last() == (id, page),
        (match entry_of(cached(s, id, page, cap), id, 0) {
                Some(i) => cached(s, id, page, cap)[i].1 == page,
                None => false,
        }),
{
    lemma_moved(s, id, page);
    let t = without_page(s, id).push((id, page));
    lemma_within(t, cap);
    let c = cached(s, id, page, cap);
    assert(c.last() == t.last());
    lemma_entry_of(c, id, 0);
    assert(c[c.len() - 1].0 == id);
}

// --- records of the append region ---

/// Where a page stands in the append region: its sealed bytes, behind the length.
#[derive(Clone, Copy, Debug, PartialEq, Eq, Structural)]
pub struct PhysLoc {
    pub offset: u64,
    pub len: u32,
}

/// A sealed payload with its length in front.
pub open spec fn framed(payload: Seq<u8>) -> Seq<u8> {
    le_bytes(payload.len() % 0x1_0000_0000, 4) + payload
}

pub fn frame(stored: &[u8]) -> (r: Vec<u8>)
    ensures
        r@ == framed(stored@),
{
    let mut out: Vec<u8> = Vec::new();
    let n: u64 = (stored.len() as u64) % 0x1_0000_0000;
    proof {
        lemma_pow256_values();
    }
    push_le(&mut out, n, 4);
    push_all(&mut out, stored);
    assert(out@ =~= framed(stored@));
    out
}

/// The record of a payload: framed, and followed by its parity where there is one.
pub fn framed_record(stored: &[u8], parity: &[u8]) -> (r: Vec<u8>)
    ensures
        r@ == framed(stored@) + parity@,
{
    let mut out = frame(stored);
    push_all(&mut out, parity);
    out
}

/// Where the bytes that are not zero end.
pub open spec fn nonzero_end(s: Seq<u8>) -> int
    decreases s.len(),
{
    if s.len() == 0 {
        0
    } else if s.last() != 0 {
        s.len() as int
    } else {
        nonzero_end(s.drop_last())
    }
}

/// A body without the zeros at its end.
pub open spec fn trimmed(body: Seq<u8>) -> Seq<u8> {
    body.take(nonzero_end(body))
}

pub open spec fn zeros(n: int) -> Seq<u8> {
    Seq::new(n as nat, |i: int| 0u8)
}

proof fn lemma_nonzero_end(s: Seq<u8>)
    ensures
        0 <= nonzero_end(s) <= s.len(),
        forall|i: int| nonzero_end(s) <= i < s.len() ==> #[trigger] s[i] == 0,
    decreases s.len(),
{
    if s.len() > 0 && s.last() == 0 {
        lemma_nonzero_end(s.drop_last());
        assert forall|i: int| nonzero_end(s) <= i < s.len() implies #[trigger] s[i] == 0 by {
            if i < s.len() - 1 {
                assert(s.drop_last()[i] == s[i]);
            }
        }
    }
}

/// A body comes back from its trimmed form by filling it up with zeros, and the trimmed
/// form does not end in a zero.
pub proof fn trimming_loses_nothing(body: Seq<u8>)
    ensures
        trimmed(body).len() <= body.len(),
        trimmed(body) + zeros(body.len() - trimmed(body).len()) == body,
        trimmed(body).len() > 0 ==> trimmed(body).last() != 0,
{
    lemma_nonzero_end(body);
    assert(trimmed(body) + zeros(body.len() - trimmed(body).len()) =~= body);
    lemma_end_is_nonzero(body);
}

proof fn lemma_end_is_nonzero(s: Seq<u8>)
    ensures
        nonzero_end(s) > 0 ==> s[nonzero_end(s) - 1] != 0,
    decreases s.len(),
{
    lemma_nonzero_end(s);
    if s.len() > 0 && s.last() == 0 {
        lemma_nonzero_end(s.drop_last());
        lemma_end_is_nonzero(s.drop_last());
        if nonzero_end(s) > 0 {
            assert(s.drop_last()[nonzero_end(s) - 1] == s[nonzero_end(s) - 1]);
        }
    }
}

/// A body without the zeros at its end.
pub fn trim_trailing_zeros(body: &[u8]) -> (r: Vec<u8>)
    ensures
        r@ == trimmed(body@),
{
    let mut end: usize = body.len();
    assert(body@.take(end as int) =~= body@);
    while end > 0 && body[end - 1] == 0
        invariant
            end <= body@.len(),
            nonzero_end(body@) == nonzero_end(body@.take(end as int)),
        decreases end,
    {
        assert(body@.take(end as int).drop_last() =~= body@.take(end - 1));
        end = end - 1;
    }
    proof {
        lemma_nonzero_end(body@);
        if end > 0 {
            assert(body@.take(end as int).last() == body@[end - 1]);
        }
    }
    copy_range(body, 0, end)
}

/// A page with a body in front and zeros behind it.
pub fn page_of(body: &[u8]) -> (r: PageBuf)
    requires
        body@.len() <= BODY_SIZE,
    ensures
        r@ == zeros(CRYPTO_RESERVE as int) + body@ + zeros(BODY_SIZE - body@.len()),
{
    let mut page = PageBuf::zeroed();
    let ghost p0 = page@;
    overwrite(page.body_mut(), 0, body);
    assert(page@ =~= zeros(CRYPTO_RESERVE as int) + body@ + zeros(BODY_SIZE - body@.len()));
    page
}

// --- compression ---

/// What is sealed for a body: the body itself in a file without compression, else a
/// method byte in front of it or of its compressed form. `compressed` is that form, where
/// it is shorter.
pub open spec fn sealed_form(body: Seq<u8>, compression: bool, compressed: Option<Seq<u8>>) -> Seq<u8> {
    if !compression {
        body
    } else {
        match compressed {
            Some(c) => seq![METHOD_LZ] + c,
            None => seq![METHOD_RAW] + body,
        }
    }
}

pub fn body_to_seal(body: &[u8], compression: bool, compressed: &Option<Vec<u8>>) -> (r: Vec<u8>)
    ensures
        r@ == sealed_form(body@, compression, (match *compressed {
                    Some(c) => Some(c@),
                    None => None,
        })),
{
    let mut out: Vec<u8> = Vec::new();
    if !compression {
        push_all(&mut out, body);
        assert(out@ =~= body@);
        return out;
    }
    match compressed {
        Some(c) => {
            out.push(METHOD_LZ);
            push_all(&mut out, c.as_slice());
            assert(out@ =~= seq![METHOD_LZ] + c@);
        },
        None => {
            out.push(METHOD_RAW);
            push_all(&mut out, body);
            assert(out@ =~= seq![METHOD_RAW] + body@);
        },
    }
    out
}

/// An opened payload: a body, or bytes that are still to be decompressed.
#[derive(Debug)]
pub enum Opened {
    Body(Vec<u8>),
    Compressed(Vec<u8>),
}

#[verifier::ext_equal]
pub ghost enum OpenedV {
    Body(Seq<u8>),
    Compressed(Seq<u8>),
}

impl View for Opened {
    type V = OpenedV;

    open spec fn view(&self) -> OpenedV {
        match self {
            Opened::Body(b) => OpenedV::Body(b@),
            Opened::Compressed(b) => OpenedV::Compressed(b@),
        }
    }
}

pub open spec fn corrupt(page: u64, reason: Seq<char>) -> ErrorV {
    ErrorV::Corrupt { page, reason }
}

fn corrupt_page(page: u64, reason: &str) -> (r: Error)
    ensures
        r@ == corrupt(page, reason@),
{
    Error::Corrupt { page, reason: reason.to_owned() }
}

/// What an opened payload holds.
pub open spec fn opened_form(opened: Seq<u8>, compression: bool, id: PageId) -> Result<OpenedV, ErrorV> {
    if !compression {
        Ok(OpenedV::Body(opened))
    } else if opened.len() == 0 {
        Err(corrupt(id.0, "página de datos comprimida vacía"@))
    } else if opened[0] == METHOD_RAW {
        Ok(OpenedV::Body(opened.skip(1)))
    } else if opened[0] == METHOD_LZ {
        Ok(OpenedV::Compressed(opened.skip(1)))
    } else {
        Err(corrupt(id.0, "método de compresión desconocido"@))
    }
}

pub fn decode_body(opened: &[u8], compression: bool, id: PageId) -> (r: Result<Opened, Error>)
    ensures
        gives(r, opened_form(opened@, compression, id)),
{
    if !compression {
        let all = copy_range(opened, 0, opened.len());
        assert(all@ =~= opened@);
        return Ok(Opened::Body(all));
    }
    if opened.len() == 0 {
        return Err(corrupt_page(id.0, "página de datos comprimida vacía"));
    }
    let rest = copy_range(opened, 1, opened.len());
    assert(rest@ =~= opened@.skip(1));
    if opened[0] == METHOD_RAW {
        Ok(Opened::Body(rest))
    } else if opened[0] == METHOD_LZ {
        Ok(Opened::Compressed(rest))
    } else {
        Err(corrupt_page(id.0, "método de compresión desconocido"))
    }
}

/// The body that decompression gave.
pub fn decompressed(body: Option<Vec<u8>>, id: PageId) -> (r: Result<Vec<u8>, Error>)
    ensures
        (match body {
                Some(b) => r == Ok::<Vec<u8>, Error>(b),
                None => r is Err && r->Err_0@ == corrupt(id.0, "descompresión de página fallida"@),
        }),
{
    match body {
        Some(b) => Ok(b),
        None => Err(corrupt_page(id.0, "descompresión de página fallida")),
    }
}

/// What is opened of a sealed form is the body, or its compressed form.
pub proof fn sealed_form_opens(body: Seq<u8>, compression: bool, compressed: Option<Seq<u8>>, id: PageId)
    ensures
        opened_form(sealed_form(body, compression, compressed), compression, id) == Ok::<OpenedV, ErrorV>(if compression && compressed is Some {
                OpenedV::Compressed(compressed->0)
            } else {
                OpenedV::Body(body)
        }),
{
    let s = sealed_form(body, compression, compressed);
    if compression {
        match compressed {
            Some(c) => {
                assert(s.skip(1) =~= c);
            },
            None => {
                assert(s.skip(1) =~= body);
            },
        }
    }
}

// --- the directory ---

/// The state of the append region: the directory of its pages in the order of their
/// numbers, and where the next record goes.
#[derive(Debug)]
pub struct AppendState {
    pub next_page: u64,
    /// Counter for the nonces of sealed pages.
    pub nonce_counter: u64,
    pub write_offset: u64,
    pub dir: Vec<PhysLoc>,
}

/// The records of the directory stand one behind the other in the append region, and
/// end before `end`.
pub open spec fn in_order(dir: Seq<PhysLoc>, end: int) -> bool {
    &&& forall|i: int| 0 <= i < dir.len() ==> APPEND_START + LEN_PREFIX_LEN <= (#[trigger] dir[i]).offset && dir[i].offset + dir[i].len <= end
    &&& forall|i: int, k: int| 0 <= i < k < dir.len() ==> (#[trigger] dir[i]).offset + dir[i].len + LEN_PREFIX_LEN <= (#[trigger] dir[k]).offset
}

/// The record at an offset of a file of a length, with that length in its prefix and that
/// much parity; none where it is not whole.
pub open spec fn record_at(file_len: int, offset: int, len: int, parity: int) -> Option<(PhysLoc, int)> {
    let end = offset + LEN_PREFIX_LEN + len + parity;
    if len < CRYPTO_RESERVE || end > file_len {
        None
    } else {
        Some((PhysLoc { offset: (offset + LEN_PREFIX_LEN) as u64, len: len as u32 }, end))
    }
}

/// What the records of a file give from an offset on: their places, and where the first
/// one that is not whole starts. `parity` says how much follows a payload.
pub open spec fn swept(file: Seq<u8>, parity: spec_fn(int) -> nat, offset: int) -> (Seq<PhysLoc>, int)
    decreases file.len() - offset,
{
    if offset < 0 || offset + LEN_PREFIX_LEN > file.len() {
        (Seq::empty(), offset)
    } else {
        let len = le_value(file.subrange(offset, offset + 4)) as int;
        match record_at(file.len() as int, offset, len, parity(len) as int) {
            None => (Seq::empty(), offset),
            Some((loc, end)) => {
                let rest = swept(file, parity, end);
                (seq![loc] + rest.0, rest.1)
            },
        }
    }
}

/// The records of some payloads, one behind the other, each with its parity.
pub open spec fn records(payloads: Seq<Seq<u8>>, parities: Seq<Seq<u8>>) -> Seq<u8>
    decreases payloads.len(),
{
    if payloads.len() == 0 {
        Seq::empty()
    } else {
        framed(payloads[0]) + parities[0] + records(payloads.drop_first(), parities.drop_first())
    }
}

/// The places of those payloads, from an offset on.
pub open spec fn places(payloads: Seq<Seq<u8>>, parities: Seq<Seq<u8>>, offset: int) -> Seq<PhysLoc>
    decreases payloads.len(),
{
    if payloads.len() == 0 {
        Seq::empty()
    } else {
        seq![PhysLoc { offset: (offset + LEN_PREFIX_LEN) as u64, len: payloads[0].len() as u32 }] + places(payloads.drop_first(), parities.drop_first(), offset + LEN_PREFIX_LEN + payloads[0].len() + parities[0].len())
    }
}

/// Opening a file finds every record that was written whole, and stops where a torn one
/// starts: the records from an offset on are found at their places, whatever is left
/// behind them, where that is less than a prefix or names a record that is not whole.
pub proof fn sweep_finds_records(head: Seq<u8>, payloads: Seq<Seq<u8>>, parities: Seq<Seq<u8>>, tail: Seq<u8>, parity: spec_fn(int) -> nat)
    requires
        payloads.len() == parities.len(),
        forall|i: int| 0 <= i < payloads.len() ==> CRYPTO_RESERVE <= (#[trigger] payloads[i]).len() < 0x1_0000_0000 && parities[i].len() == parity(payloads[i].len() as int),
        tail.len() < LEN_PREFIX_LEN || (tail.len() - LEN_PREFIX_LEN) < le_value(tail.take(4)) + parity(le_value(tail.take(4)) as int) || le_value(tail.take(4)) < CRYPTO_RESERVE,
    ensures
        swept(head + records(payloads, parities) + tail, parity, head.len() as int) == (places(payloads, parities, head.len() as int), (head.len() + records(payloads, parities).len()) as int),
    decreases payloads.len(),
{
    let file = head + records(payloads, parities) + tail;
    let at = head.len() as int;
    if payloads.len() == 0 {
        assert(file =~= head + tail);
        if tail.len() >= LEN_PREFIX_LEN {
            assert(file.subrange(at, at + 4) =~= tail.take(4));
        }
    } else {
        let p = payloads[0];
        let q = parities[0];
        let rest = records(payloads.drop_first(), parities.drop_first());
        lemma_pow256_values();
        lemma_le_bytes_len(p.len(), 4);
        lemma_le_round_trip(p.len(), 4);
        assert(p.len() % 0x1_0000_0000 == p.len());
        let one = framed(p) + q;
        let head2 = head + one;
        assert(file =~= head2 + rest + tail);
        assert(file.subrange(at, at + 4) =~= le_bytes(p.len(), 4));
        assert forall|i: int| 0 <= i < payloads.drop_first().len() implies CRYPTO_RESERVE <= (#[trigger] payloads.drop_first()[i]).len() < 0x1_0000_0000 && parities.drop_first()[i].len() == parity(payloads.drop_first()[i].len() as int) by {
            assert(payloads.drop_first()[i] == payloads[i + 1]);
        }
        sweep_finds_records(head2, payloads.drop_first(), parities.drop_first(), tail, parity);
        assert(parities[0].len() == parity(payloads[0].len() as int));
        assert(head2.len() == at + LEN_PREFIX_LEN + p.len() + q.len());
    }
}

impl AppendState {

    /// The directory is in order and ends where the next record goes.
    pub open spec fn wf(&self) -> bool {
        &&& in_order(self.dir@, self.write_offset as int)
        &&& APPEND_START <= self.write_offset
    }

    /// An empty append region.
    pub fn new() -> (r: AppendState)
        ensures
            r.wf(),
            r.next_page == FIRST_DATA_PAGE,
            r.nonce_counter == 0,
            r.write_offset == APPEND_START,
            r.dir@.len() == 0,
    {
        AppendState { next_page: FIRST_DATA_PAGE, nonce_counter: 0, write_offset: APPEND_START, dir: Vec::new() }
    }

    /// Where a page stands; none where the directory does not have it.
    pub open spec fn place(&self, id: PageId) -> Option<PhysLoc> {
        if id.0 < FIRST_DATA_PAGE || id.0 - FIRST_DATA_PAGE >= self.dir@.len() {
            None
        } else {
            Some(self.dir@[id.0 - FIRST_DATA_PAGE])
        }
    }

    pub fn loc(&self, id: PageId) -> (r: Option<PhysLoc>)
        ensures
            r == self.place(id),
    {
        if id.0 < FIRST_DATA_PAGE {
            return None;
        }
        let i: u64 = id.0 - FIRST_DATA_PAGE;
        if i < self.dir.len() as u64 {
            Some(self.dir[i as usize])
        } else {
            None
        }
    }

    /// Where a page is to be read.
    pub fn locate(&self, id: PageId) -> (r: Result<PhysLoc, Error>)
        ensures
            (if id.0 >= self.next_page {
                    r is Err && r->Err_0@ == corrupt(id.0, "página fuera de rango"@)
                } else {
                    match self.place(id) {
                        Some(loc) => r == Ok::<PhysLoc, Error>(loc),
                        None => r is Err && r->Err_0@ == corrupt(id.0, "página sin entrada en el directorio"@),
                    }
            }),
    {
        if id.0 >= self.next_page {
            return Err(corrupt_page(id.0, "página fuera de rango"));
        }
        match self.loc(id) {
            Some(loc) => Ok(loc),
            None => Err(corrupt_page(id.0, "página sin entrada en el directorio")),
        }
    }

    /// Where the next prefix of a file stands, while the records are being found.
    pub fn next_prefix(&self, file_len: u64) -> (r: Option<u64>)
        ensures
            r == (if self.write_offset + LEN_PREFIX_LEN > file_len {
                    None::<u64>
                } else {
                    Some(self.write_offset)
            }),
    {
        if file_len < LEN_PREFIX_LEN as u64 || self.write_offset > file_len - LEN_PREFIX_LEN as u64 {
            None
        } else {
            Some(self.write_offset)
        }
    }

    /// Enters the record whose prefix was read; false where it is not whole.
    pub fn take_record(&mut self, file_len: u64, len: u32, parity: u64) -> (r: bool)
        requires
            old(self).wf(),
            old(self).write_offset + LEN_PREFIX_LEN <= file_len,
            old(self).next_page < u64::MAX,
        ensures
            final(self).wf(),
            final(self).nonce_counter == old(self).nonce_counter,
            (match record_at(file_len as int, old(self).write_offset as int, len as int, parity as int) {
                    Some((loc, end)) => r && final(self).dir@ == old(self).dir@.push(loc) && final(self).write_offset == end && final(self).next_page == old(self).next_page + 1,
                    None => !r && *final(self) == *old(self),
            }),
    {
        let payload: u64 = self.write_offset + LEN_PREFIX_LEN as u64;
        let room: u64 = file_len - payload;
        if (len as u64) < CRYPTO_RESERVE as u64 || len as u64 > room || parity > room - len as u64 {
            return false;
        }
        let ghost d0 = self.dir@;
        self.dir.push(PhysLoc { offset: payload, len });
        self.write_offset = payload + len as u64 + parity;
        self.next_page = self.next_page + 1;
        proof {
            assert forall|i: int, k: int| 0 <= i < k < self.dir@.len() implies (#[trigger] self.dir@[i]).offset + self.dir@[i].len + LEN_PREFIX_LEN <= (#[trigger] self.dir@[k]).offset by {
                assert(self.dir@[i] == d0[i]);
                if k < d0.len() {
                    assert(self.dir@[k] == d0[k]);
                }
            }
            assert forall|i: int| 0 <= i < self.dir@.len() implies APPEND_START + LEN_PREFIX_LEN <= (#[trigger] self.dir@[i]).offset && self.dir@[i].offset + self.dir@[i].len <= self.write_offset by {
                if i < d0.len() {
                    assert(self.dir@[i] == d0[i]);
                }
            }
        }
        true
    }

    /// Enters a record that was written at the end: a payload of a length, in a record of
    /// a length. The page has the next number.
    pub fn append(&mut self, len: u32, record_len: u64) -> (r: PageId)
        requires
            old(self).wf(),
            LEN_PREFIX_LEN + len <= record_len,
            old(self).write_offset + record_len <= u64::MAX,
            old(self).next_page < u64::MAX,
            old(self).nonce_counter < u64::MAX,
        ensures
            final(self).wf(),
            r == PageId(old(self).next_page),
            final(self).dir@ == old(self).dir@.push((PhysLoc { offset: (old(self).write_offset + LEN_PREFIX_LEN) as u64, len })),
            final(self).next_page == old(self).next_page + 1,
            final(self).nonce_counter == old(self).nonce_counter + 1,
            final(self).write_offset == old(self).write_offset + record_len,
    {
        let id: u64 = self.next_page;
        let offset: u64 = self.write_offset;
        let ghost d0 = self.dir@;
        self.dir.push(PhysLoc { offset: offset + LEN_PREFIX_LEN as u64, len });
        self.next_page = id + 1;
        self.nonce_counter = self.nonce_counter + 1;
        self.write_offset = offset + record_len;
        proof {
            assert forall|i: int, k: int| 0 <= i < k < self.dir@.len() implies (#[trigger] self.dir@[i]).offset + self.dir@[i].len + LEN_PREFIX_LEN <= (#[trigger] self.dir@[k]).offset by {
                assert(self.dir@[i] == d0[i]);
                if k < d0.len() {
                    assert(self.dir@[k] == d0[k]);
                }
            }
            assert forall|i: int| 0 <= i < self.dir@.len() implies APPEND_START + LEN_PREFIX_LEN <= (#[trigger] self.dir@[i]).offset && self.dir@[i].offset + self.dir@[i].len <= self.write_offset by {
                if i < d0.len() {
                    assert(self.dir@[i] == d0[i]);
                }
            }
        }
        PageId(id)
    }

    /// The counter for the next sealed page; it is used once.
    pub fn take_nonce(&mut self) -> (r: u64)
        requires
            old(self).nonce_counter < u64::MAX,
        ensures
            r == old(self).nonce_counter,
            final(self).nonce_counter == old(self).nonce_counter + 1,
            final(self).next_page == old(self).next_page,
            final(self).write_offset == old(self).write_offset,
            final(self).dir == old(self).dir,
    {
        let c: u64 = self.nonce_counter;
        self.nonce_counter = c + 1;
        c
    }

    /// Enters the records of a commit at once, after they were made durable.
    pub fn install_commit(&mut self, entries: &Vec<PhysLoc>, write_offset: u64, n_pages: u64)
        ensures
            final(self).dir@ == old(self).dir@ + entries@,
            final(self).write_offset == write_offset,
            final(self).next_page == n_pages,
            final(self).nonce_counter == old(self).nonce_counter,
    {
        let n: usize = entries.len();
        assert(self.dir@ =~= old(self).dir@ + entries@.take(0));
        for i in 0..n
            invariant
                n == entries@.len(),
                self.dir@ == old(self).dir@ + entries@.take(i as int),
                self.nonce_counter == old(self).nonce_counter,
        {
            self.dir.push(entries[i]);
            assert(entries@.take(i + 1) =~= entries@.take(i as int).push(entries@[i as int]));
        }
        assert(entries@.take(n as int) =~= entries@);
        self.write_offset = write_offset;
        self.next_page = n_pages;
    }

    /// How many records a head with that many pages keeps.
    pub open spec fn kept(n_pages: u64) -> int {
        if n_pages < FIRST_DATA_PAGE {
            0
        } else {
            n_pages - FIRST_DATA_PAGE
        }
    }

    /// The last record that a head keeps.
    pub fn last_kept(&self, n_pages: u64) -> (r: Option<PhysLoc>)
        ensures
            r == (if 0 < Self::kept(n_pages) <= self.dir@.len() {
                    Some(self.dir@[Self::kept(n_pages) - 1])
                } else {
                    None::<PhysLoc>
            }),
    {
        if n_pages <= FIRST_DATA_PAGE {
            return None;
        }
        let k: u64 = n_pages - FIRST_DATA_PAGE;
        if k <= self.dir.len() as u64 {
            Some(self.dir[(k - 1) as usize])
        } else {
            None
        }
    }

    /// Goes back to a head: later records are forgotten, and the next one is written
    /// behind the last that is kept. `parity` is how much follows that one.
    pub fn truncate_to_head(&mut self, n_pages: u64, parity: u64)
        requires
            old(self).wf(),
            (match old(self).last(n_pages) {
                    Some(last) => last.offset + last.len + parity <= u64::MAX,
                    None => true,
            }),
        ensures
            final(self).dir@ == (if Self::kept(n_pages) < old(self).dir@.len() {
                    old(self).dir@.take(Self::kept(n_pages))
                } else {
                    old(self).dir@
            }),
            final(self).write_offset == (match old(self).last(n_pages) {
                    Some(last) => last.offset + last.len + parity,
                    None => APPEND_START as int,
            }),
            final(self).next_page == n_pages,
            final(self).nonce_counter == old(self).nonce_counter,
    {
        let last = self.last_kept(n_pages);
        let keep: u64 = if n_pages < FIRST_DATA_PAGE {
            0
        } else {
            n_pages - FIRST_DATA_PAGE
        };
        if keep < self.dir.len() as u64 {
            self.dir.truncate(keep as usize);
            assert(self.dir@ =~= old(self).dir@.take(Self::kept(n_pages)));
        }
        self.write_offset = match last {
            Some(l) => l.offset + l.len as u64 + parity,
            None => APPEND_START,
        };
        self.next_page = n_pages;
    }

    pub open spec fn last(&self, n_pages: u64) -> Option<PhysLoc> {
        if 0 < Self::kept(n_pages) <= self.dir@.len() {
            Some(self.dir@[Self::kept(n_pages) - 1])
        } else {
            None
        }
    }

}

// --- creating and opening ---

/// The flags of a file.
pub open spec fn flags_of(encrypted: bool, compressed: bool) -> u32 {
    (if encrypted {
            FLAG_ENCRYPTED
        } else {
            0
        } + if compressed {
            FLAG_COMPRESSED
        } else {
            0
    }) as u32
}

/// The header of a new file with that identity and that salt.
pub fn header_with(encrypted: bool, compressed: bool, ecc_nsym: u8, file_id: [u8; 16], kdf_salt: [u8; 16]) -> (r: FileHeader)
    ensures
        r == (FileHeader { flags: flags_of(encrypted, compressed), file_id, kdf_salt, ecc_nsym }),
{
    let e: u32 = if encrypted {
        FLAG_ENCRYPTED
    } else {
        0
    };
    let c: u32 = if compressed {
        FLAG_COMPRESSED
    } else {
        0
    };
    FileHeader { flags: e + c, file_id, kdf_salt, ecc_nsym }
}

/// The error of the system's random source.
#[verifier::external_type_specification]
#[verifier::external_body]
pub struct ExRandomFailure(RandomFailure);

/// Sixteen bytes that `getrandom::fill` wrote, or its error. Nothing is claimed of the
/// bytes: they come from the random source of the system.
#[verifier::external_body]
fn random_bytes() -> (r: Result<[u8; 16], RandomFailure>)
{
    let mut bytes = [0u8; 16];
    getrandom::fill(&mut bytes)?;
    Ok(bytes)
}

/// The header of a new file: its identity and its salt are random. It fails only where
/// the random source does.
pub fn new_header(encrypted: bool, compressed: bool, ecc_nsym: u8) -> (r: Result<FileHeader, Error>)
    ensures
        (match r {
                Ok(h) => h.flags == flags_of(encrypted, compressed) && h.ecc_nsym == ecc_nsym,
                Err(e) => e@ == ErrorV::Random,
        }),
{
    let file_id = match random_bytes() {
        Ok(b) => b,
        Err(_) => {
            return Err(Error::Random);
        },
    };
    let kdf_salt = match random_bytes() {
        Ok(b) => b,
        Err(_) => {
            return Err(Error::Random);
        },
    };
    Ok(header_with(encrypted, compressed, ecc_nsym, file_id, kdf_salt))
}

/// The meta slot of a new file.
pub fn first_meta() -> (r: MetaSlot)
    ensures
        r == (MetaSlot { version: 0, last_commit_page: PageId(0), n_pages: FIRST_DATA_PAGE }),
{
    MetaSlot { version: 0, last_commit_page: PageId(0), n_pages: FIRST_DATA_PAGE }
}

/// A flag of a header.
pub open spec fn has_flag(flags: u32, bit: u32) -> bool {
    flags & bit != 0
}

pub fn is_encrypted(header: &FileHeader) -> (r: bool)
    ensures
        r == has_flag(header.flags, FLAG_ENCRYPTED),
{
    header.flags & FLAG_ENCRYPTED != 0
}

pub fn is_compressed(header: &FileHeader) -> (r: bool)
    ensures
        r == has_flag(header.flags, FLAG_COMPRESSED),
{
    header.flags & FLAG_COMPRESSED != 0
}

/// The flags of a new header say what it was made with.
pub proof fn flags_are_read_back(encrypted: bool, compressed: bool)
    ensures
        has_flag(flags_of(encrypted, compressed), FLAG_ENCRYPTED) == encrypted,
        has_flag(flags_of(encrypted, compressed), FLAG_COMPRESSED) == compressed,
{
    assert(0u32 & 1 == 0 && 0u32 & 2 == 0 && 1u32 & 1 != 0 && 1u32 & 2 == 0 && 2u32 & 1 == 0 && 2u32 & 2 != 0 && 3u32 & 1 != 0 && 3u32 & 2 != 0) by (bit_vector);
}

/// The start of a file is one of this format: it has room for the structural pages, and
/// its first page has the magic. This comes before the page is verified, since it says
/// more than that the page is damaged.
pub fn check_start(file_len: u64, body: &[u8]) -> (r: Result<(), Error>)
    requires
        file_len >= APPEND_START ==> body@.len() >= 8,
    ensures
        (if file_len < APPEND_START || body@.take(8) != MAGIC_HEADER@ {
                r is Err && r->Err_0@ == ErrorV::NotADatabase
            } else {
                r is Ok
        }),
{
    if file_len < APPEND_START {
        return Err(Error::NotADatabase);
    }
    for i in 0..8
        invariant
            body@.len() >= 8,
            file_len >= APPEND_START,
            forall|k: int| 0 <= k < i ==> body@[k] == MAGIC_HEADER@[k],
    {
        if body[i] != MAGIC_HEADER[i] {
            assert(body@.take(8)[i as int] != MAGIC_HEADER@[i as int]);
            return Err(Error::NotADatabase);
        }
    }
    assert(body@.take(8) =~= MAGIC_HEADER@);
    Ok(())
}

/// Whether a key is needed and given: a key for a file without encryption is a mistake.
pub open spec fn key_use(flags: u32, has_key: bool) -> Result<bool, ErrorV> {
    if has_flag(flags, FLAG_ENCRYPTED) {
        if has_key {
            Ok(true)
        } else {
            Err(ErrorV::KeyRequired)
        }
    } else if has_key {
        Err(ErrorV::InvalidInput("se proporcionó clave para un archivo sin cifrar"@))
    } else {
        Ok(false)
    }
}

/// The header of a file that is opened, and whether its pages are encrypted.
pub fn open_header(body: &[u8], has_key: bool) -> (r: Result<(FileHeader, bool), Error>)
    requires
        header_readable(body@),
    ensures
        (match header_fault(body@) {
                Some(e) => r is Err && r->Err_0@ == e,
                None => match r {
                    Ok((h, encrypted)) => h.described_by(body@) && key_use(h.flags, has_key) == Ok::<bool, ErrorV>(encrypted),
                    Err(e) => key_use(le_value(body@.subrange(16, 20)) as u32, has_key) == Err::<bool, ErrorV>(e@),
                },
        }),
{
    let header = FileHeader::decode(body)?;
    let encrypted: bool = is_encrypted(&header);
    if encrypted && !has_key {
        return Err(Error::KeyRequired);
    }
    if !encrypted && has_key {
        return Err(Error::InvalidInput("se proporcionó clave para un archivo sin cifrar".to_owned()));
    }
    Ok((header, encrypted))
}

/// The key is tried on the first data page, where there is one.
pub fn key_to_be_tried(encrypted: bool, n_pages: u64) -> (r: bool)
    ensures
        r == (encrypted && n_pages > FIRST_DATA_PAGE),
{
    encrypted && n_pages > FIRST_DATA_PAGE
}

/// The valid slot with the highest version; the second of two that have the same.
pub open spec fn newest(a: Option<MetaSlot>, b: Option<MetaSlot>) -> Option<MetaSlot> {
    match (a, b) {
        (Some(x), Some(y)) => if x.version > y.version {
            Some(x)
        } else {
            Some(y)
        },
        (Some(x), None) => Some(x),
        (None, y) => y,
    }
}

/// The meta slot to start from; one of the two may be damaged.
pub fn read_meta(a: Option<MetaSlot>, b: Option<MetaSlot>) -> (r: Result<MetaSlot, Error>)
    ensures
        (match newest(a, b) {
                Some(m) => r == Ok::<MetaSlot, Error>(m),
                None => r is Err && r->Err_0@ == corrupt(META_PAGE_A, "ningún meta slot válido"@),
        }),
{
    match (a, b) {
        (Some(x), Some(y)) => if x.version > y.version {
            Ok(x)
        } else {
            Ok(y)
        },
        (Some(x), None) => Ok(x),
        (None, Some(y)) => Ok(y),
        (None, None) => Err(corrupt_page(META_PAGE_A, "ningún meta slot válido")),
    }
}

/// The valid meta slots, in the order of their pages.
pub fn meta_slots(a: Option<MetaSlot>, b: Option<MetaSlot>) -> (r: Vec<MetaSlot>)
    ensures
        r@ == (match a {
                Some(x) => seq![x],
                None => Seq::empty(),
        }) + (match b {
                Some(y) => seq![y],
                None => Seq::<MetaSlot>::empty(),
        }),
{
    let mut out: Vec<MetaSlot> = Vec::new();
    if let Some(x) = a {
        out.push(x);
    }
    if let Some(y) = b {
        out.push(y);
    }
    out
}

/// A slot written for the next version does not touch the one to start from, and becomes
/// the one to start from once it is there; until then, and where it is damaged, the other
/// one stays.
pub proof fn writing_a_slot_keeps_the_other(now: MetaSlot, next: MetaSlot)
    requires
        next.version == now.version + 1,
    ensures
        now.version % 2 != next.version % 2,
        newest(Some(now), Some(next)) == Some(next),
        newest(Some(next), Some(now)) == Some(next),
        newest(Some(now), None) == Some(now),
        newest(None, Some(now)) == Some(now),
{
}

} // verus!
