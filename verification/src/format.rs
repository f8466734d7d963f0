//! Constants and binary layouts of the file format.
//!
//! Header integers are little-endian. Every page of the file starts with a
//! cryptographic reserve (nonce and tag) followed by its body.
use vstd::prelude::*;

use crate::bytes::{overwrite, push_all, push_le, read_le};
#[allow(unused_imports)]
use crate::bytes::{le_bytes, le_value, lemma_le_bytes_len, lemma_le_round_trip, lemma_pow256_values};
use crate::error::{Error, ErrorV};

verus! {

/// Size of a structural page (header and meta slots) and of the in-memory body.
pub const PAGE_SIZE: usize = 4096;

/// 96-bit nonce at the start of every page (zeros without encryption).
pub const NONCE_LEN: usize = 12;

/// Integrity tag.
pub const TAG_LEN: usize = 16;

/// Reserve at the start of every page on disk.
pub const CRYPTO_RESERVE: usize = 28;

/// Usable bytes of a page.
pub const BODY_SIZE: usize = 4068;

/// Length prefix of a record of the append region.
pub const LEN_PREFIX_LEN: usize = 4;

/// The smallest record: the prefix and an empty sealed body.
pub const MIN_RECORD_LEN: u64 = 32;

/// Magic of the file header (page 0): `ARKEION1`.
pub const MAGIC_HEADER: [u8; 8] = [65, 82, 75, 69, 73, 79, 78, 49];

/// Magic of the meta slots (pages 1 and 2): `ARKMETA1`.
pub const MAGIC_META: [u8; 8] = [65, 82, 75, 77, 69, 84, 65, 49];

/// Magic of commit pages: `ARKCMT01`.
pub const MAGIC_COMMIT: [u8; 8] = [65, 82, 75, 67, 77, 84, 48, 49];

/// Format version that this library writes.
pub const FORMAT_VERSION: u32 = 4;

/// Header flag: encryption at rest.
pub const FLAG_ENCRYPTED: u32 = 1;

/// Header flag: page compression.
pub const FLAG_COMPRESSED: u32 = 2;

/// Page 0: file header.
pub const HEADER_PAGE: u64 = 0;

/// Page 1: meta slot A.
pub const META_PAGE_A: u64 = 1;

/// Page 2: meta slot B.
pub const META_PAGE_B: u64 = 2;

/// First page of the append region.
pub const FIRST_DATA_PAGE: u64 = 3;

/// The layout constants fit together.
pub proof fn layout_constants_agree()
    ensures
        CRYPTO_RESERVE == NONCE_LEN + TAG_LEN,
        BODY_SIZE == PAGE_SIZE - CRYPTO_RESERVE,
        MIN_RECORD_LEN == LEN_PREFIX_LEN + CRYPTO_RESERVE,
{
}

/// Page identifier: its index from the start of the file.
#[derive(Clone, Copy, PartialEq, Eq, PartialOrd, Ord, Hash, Debug, Structural)]
pub struct PageId(pub u64);

impl PageId {
    /// Byte offset of a fixed-size structural slot.
    pub fn byte_offset(self) -> (r: u64)
        requires
            self.0 * PAGE_SIZE <= u64::MAX,
        ensures
            r == self.0 * PAGE_SIZE,
    {
        self.0 * PAGE_SIZE as u64
    }
}

/// Buffer of a whole page: the cryptographic reserve and the body.
#[derive(Clone, Debug)]
pub struct PageBuf {
    bytes: [u8; PAGE_SIZE],
}

impl View for PageBuf {
    type V = Seq<u8>;

    closed spec fn view(&self) -> Seq<u8> {
        self.bytes@
    }
}

impl PageBuf {
    pub fn zeroed() -> (r: PageBuf)
        ensures
            r@ == Seq::new(PAGE_SIZE as nat, |i: int| 0u8),
    {
        let r = PageBuf { bytes: [0u8; 4096] };
        assert(r@ =~= Seq::new(PAGE_SIZE as nat, |i: int| 0u8));
        r
    }

    pub fn as_bytes(&self) -> (r: &[u8; PAGE_SIZE])
        ensures
            r@ == self@,
    {
        &self.bytes
    }

    pub fn as_bytes_mut(&mut self) -> (r: &mut [u8; PAGE_SIZE])
        ensures
            r@ == old(self)@,
            final(self)@ == final(r)@,
    {
        &mut self.bytes
    }

    pub fn nonce(&self) -> (r: &[u8])
        ensures
            r@ == self@.subrange(0, NONCE_LEN as int),
    {
        vstd::slice::slice_subrange(self.bytes.as_slice(), 0, NONCE_LEN)
    }

    pub fn tag(&self) -> (r: &[u8])
        ensures
            r@ == self@.subrange(NONCE_LEN as int, CRYPTO_RESERVE as int),
    {
        vstd::slice::slice_subrange(self.bytes.as_slice(), NONCE_LEN, CRYPTO_RESERVE)
    }

    pub fn body(&self) -> (r: &[u8])
        ensures
            r@ == self@.subrange(CRYPTO_RESERVE as int, PAGE_SIZE as int),
    {
        vstd::slice::slice_subrange(self.bytes.as_slice(), CRYPTO_RESERVE, PAGE_SIZE)
    }

    pub fn nonce_mut(&mut self) -> (r: &mut [u8])
        ensures
            r@ == old(self)@.subrange(0, NONCE_LEN as int),
            final(self)@ == final(r)@ + old(self)@.subrange(NONCE_LEN as int, PAGE_SIZE as int),
    {
        let all: &mut [u8] = &mut self.bytes;
        let (head, _rest) = all.split_at_mut(NONCE_LEN);
        head
    }

    pub fn tag_mut(&mut self) -> (r: &mut [u8])
        ensures
            r@ == old(self)@.subrange(NONCE_LEN as int, CRYPTO_RESERVE as int),
            final(self)@ == old(self)@.subrange(0, NONCE_LEN as int) + final(r)@ + old(
                self,
            )@.subrange(CRYPTO_RESERVE as int, PAGE_SIZE as int),
    {
        let all: &mut [u8] = &mut self.bytes;
        let (head, _rest) = all.split_at_mut(CRYPTO_RESERVE);
        let (_nonce, tag) = head.split_at_mut(NONCE_LEN);
        tag
    }

    pub fn body_mut(&mut self) -> (r: &mut [u8])
        ensures
            r@ == old(self)@.subrange(CRYPTO_RESERVE as int, PAGE_SIZE as int),
            final(self)@ == old(self)@.subrange(0, CRYPTO_RESERVE as int) + final(r)@,
    {
        let all: &mut [u8] = &mut self.bytes;
        let (_head, body) = all.split_at_mut(CRYPTO_RESERVE);
        body
    }
}

/// File header (body of page 0):
///
/// ```text
/// 0..8    magic               8..12   format version u32
/// 12..16  page size u32       16..20  flags u32
/// 20..36  file id [16]        36..52  KDF salt [16]
/// 52..53  parity bytes per block (0 = no error correction)
/// ```
#[derive(Clone, Debug, PartialEq, Eq)]
pub struct FileHeader {
    pub flags: u32,
    pub file_id: [u8; 16],
    pub kdf_salt: [u8; 16],
    pub ecc_nsym: u8,
}

/// Length of the encoded header.
pub const HEADER_LEN: usize = 53;

impl FileHeader {
    /// The bytes of an encoded header.
    pub open spec fn encoded(&self) -> Seq<u8> {
        MAGIC_HEADER@ + le_bytes(FORMAT_VERSION as nat, 4) + le_bytes(PAGE_SIZE as nat, 4)
            + le_bytes(self.flags as nat, 4) + self.file_id@ + self.kdf_salt@ + seq![self.ecc_nsym]
    }

    /// `self` is what a valid header `body` says.
    pub open spec fn described_by(&self, body: Seq<u8>) -> bool {
        &&& self.flags == le_value(body.subrange(16, 20))
        &&& self.file_id@ == body.subrange(20, 36)
        &&& self.kdf_salt@ == body.subrange(36, 52)
        &&& self.ecc_nsym == body[52]
    }

    /// Writes the header over the start of `body`.
    pub fn encode_into(&self, body: &mut [u8])
        requires
            old(body)@.len() >= HEADER_LEN,
        ensures
            final(body)@ == self.encoded() + old(body)@.skip(HEADER_LEN as int),
    {
        let mut out: Vec<u8> = Vec::new();
        push_all(&mut out, MAGIC_HEADER.as_slice());
        push_le(&mut out, FORMAT_VERSION as u64, 4);
        push_le(&mut out, PAGE_SIZE as u64, 4);
        push_le(&mut out, self.flags as u64, 4);
        push_all(&mut out, self.file_id.as_slice());
        push_all(&mut out, self.kdf_salt.as_slice());
        out.push(self.ecc_nsym);
        proof {
            assert(out@ =~= self.encoded());
            self.lemma_encoded_len();
        }
        overwrite(body, 0, out.as_slice());
        assert(body@ =~= self.encoded() + old(body)@.skip(HEADER_LEN as int));
    }

    pub proof fn lemma_encoded_len(&self)
        ensures
            self.encoded().len() == HEADER_LEN,
    {
        lemma_le_bytes_len(FORMAT_VERSION as nat, 4);
        lemma_le_bytes_len(PAGE_SIZE as nat, 4);
        lemma_le_bytes_len(self.flags as nat, 4);
    }

    /// Reads a header, checking magic, version and page size, in that order. The
    /// bytes that the outcome depends on must be there.
    pub fn decode(body: &[u8]) -> (r: Result<FileHeader, Error>)
        requires
            header_readable(body@),
        ensures
            (match header_fault(body@) {
                Some(e) => r is Err && r->Err_0@ == e,
                None => r is Ok && r->Ok_0.described_by(body@),
            }),
    {
        if !starts_with(body, MAGIC_HEADER.as_slice()) {
            return Err(Error::NotADatabase);
        }
        let version: u32 = le_u32(body, 8);
        if version > FORMAT_VERSION {
            return Err(Error::UnsupportedFormat { version });
        }
        let page_size: u32 = le_u32(body, 12);
        if page_size as usize != PAGE_SIZE {
            return Err(Error::UnsupportedPageSize { page_size });
        }
        let file_id = array16(body, 20);
        let kdf_salt = array16(body, 36);
        Ok(FileHeader { flags: le_u32(body, 16), file_id, kdf_salt, ecc_nsym: body[52] })
    }
}

/// Why `body` is no header of this format, if it is not.
pub open spec fn header_fault(body: Seq<u8>) -> Option<ErrorV> {
    let version = le_value(body.subrange(8, 12));
    let page_size = le_value(body.subrange(12, 16));
    if body.subrange(0, 8) != MAGIC_HEADER@ {
        Some(ErrorV::NotADatabase)
    } else if version > FORMAT_VERSION {
        Some(ErrorV::UnsupportedFormat { version: version as u32 })
    } else if page_size != PAGE_SIZE {
        Some(ErrorV::UnsupportedPageSize { page_size: page_size as u32 })
    } else {
        None
    }
}

/// `body` holds the bytes that decide about it: the magic, and behind each check
/// that passes the bytes of the next one.
pub open spec fn header_readable(body: Seq<u8>) -> bool {
    &&& body.len() >= 8
    &&& body.subrange(0, 8) == MAGIC_HEADER@ ==> body.len() >= 12 && (le_value(
        body.subrange(8, 12),
    ) <= FORMAT_VERSION ==> body.len() >= 16 && (le_value(body.subrange(12, 16)) == PAGE_SIZE
        ==> body.len() >= HEADER_LEN))
}

/// A header survives encoding: whatever follows it in the page, decoding finds no
/// fault and gives back the same fields.
pub proof fn header_round_trip(h: FileHeader, rest: Seq<u8>)
    ensures
        header_readable(h.encoded() + rest),
        header_fault(h.encoded() + rest) is None,
        h.described_by(h.encoded() + rest),
{
    h.lemma_encoded_len();
    let body = h.encoded() + rest;
    lemma_pow256_values();
    lemma_le_bytes_len(FORMAT_VERSION as nat, 4);
    lemma_le_bytes_len(PAGE_SIZE as nat, 4);
    lemma_le_bytes_len(h.flags as nat, 4);
    lemma_le_round_trip(FORMAT_VERSION as nat, 4);
    lemma_le_round_trip(PAGE_SIZE as nat, 4);
    lemma_le_round_trip(h.flags as nat, 4);
    assert(body.subrange(0, 8) =~= MAGIC_HEADER@);
    assert(body.subrange(8, 12) =~= le_bytes(FORMAT_VERSION as nat, 4));
    assert(body.subrange(12, 16) =~= le_bytes(PAGE_SIZE as nat, 4));
    assert(body.subrange(16, 20) =~= le_bytes(h.flags as nat, 4));
    assert(body.subrange(20, 36) =~= h.file_id@);
    assert(body.subrange(36, 52) =~= h.kdf_salt@);
}

/// Meta slot (body of pages 1 and 2): where the last commit is.
///
/// ```text
/// 0..8   magic              8..16   version u64
/// 16..24 last commit page   24..32  number of pages u64
/// ```
#[derive(Clone, Copy, Debug, PartialEq, Eq)]
pub struct MetaSlot {
    pub version: u64,
    pub last_commit_page: PageId,
    pub n_pages: u64,
}

/// Length of an encoded meta slot.
pub const META_LEN: usize = 32;

impl MetaSlot {
    /// The slot of a version: A and B alternate by parity.
    pub fn slot_page(version: u64) -> (r: PageId)
        ensures
            r == PageId(if version % 2 == 0 { META_PAGE_A } else { META_PAGE_B }),
    {
        PageId(META_PAGE_A + version % 2)
    }

    pub open spec fn encoded(&self) -> Seq<u8> {
        MAGIC_META@ + le_bytes(self.version as nat, 8) + le_bytes(
            self.last_commit_page.0 as nat,
            8,
        ) + le_bytes(self.n_pages as nat, 8)
    }

    pub open spec fn described_by(&self, body: Seq<u8>) -> bool {
        &&& self.version == le_value(body.subrange(8, 16))
        &&& self.last_commit_page.0 == le_value(body.subrange(16, 24))
        &&& self.n_pages == le_value(body.subrange(24, 32))
    }

    pub proof fn lemma_encoded_len(&self)
        ensures
            self.encoded().len() == META_LEN,
    {
        lemma_le_bytes_len(self.version as nat, 8);
        lemma_le_bytes_len(self.last_commit_page.0 as nat, 8);
        lemma_le_bytes_len(self.n_pages as nat, 8);
    }

    /// Writes the slot over the start of `body`.
    pub fn encode_into(&self, body: &mut [u8])
        requires
            old(body)@.len() >= META_LEN,
        ensures
            final(body)@ == self.encoded() + old(body)@.skip(META_LEN as int),
    {
        let mut out: Vec<u8> = Vec::new();
        push_all(&mut out, MAGIC_META.as_slice());
        push_le(&mut out, self.version, 8);
        push_le(&mut out, self.last_commit_page.0, 8);
        push_le(&mut out, self.n_pages, 8);
        proof {
            assert(out@ =~= self.encoded());
            self.lemma_encoded_len();
        }
        overwrite(body, 0, out.as_slice());
        assert(body@ =~= self.encoded() + old(body)@.skip(META_LEN as int));
    }

    /// The slot in `body`, or `None` where the magic is not there.
    pub fn decode(body: &[u8]) -> (r: Option<MetaSlot>)
        requires
            body@.len() >= 8,
            body@.subrange(0, 8) == MAGIC_META@ ==> body@.len() >= META_LEN,
        ensures
            r is Some <==> body@.subrange(0, 8) == MAGIC_META@,
            r is Some ==> r->0.described_by(body@),
    {
        if !starts_with(body, MAGIC_META.as_slice()) {
            return None;
        }
        Some(
            MetaSlot {
                version: le_u64(body, 8),
                last_commit_page: PageId(le_u64(body, 16)),
                n_pages: le_u64(body, 24),
            },
        )
    }
}

/// A meta slot survives encoding.
pub proof fn meta_round_trip(m: MetaSlot, rest: Seq<u8>)
    ensures
        (m.encoded() + rest).len() >= META_LEN,
        (m.encoded() + rest).subrange(0, 8) == MAGIC_META@,
        m.described_by(m.encoded() + rest),
{
    m.lemma_encoded_len();
    let body = m.encoded() + rest;
    lemma_pow256_values();
    lemma_le_bytes_len(m.version as nat, 8);
    lemma_le_bytes_len(m.last_commit_page.0 as nat, 8);
    lemma_le_bytes_len(m.n_pages as nat, 8);
    lemma_le_round_trip(m.version as nat, 8);
    lemma_le_round_trip(m.last_commit_page.0 as nat, 8);
    lemma_le_round_trip(m.n_pages as nat, 8);
    assert(body.subrange(0, 8) =~= MAGIC_META@);
    assert(body.subrange(8, 16) =~= le_bytes(m.version as nat, 8));
    assert(body.subrange(16, 24) =~= le_bytes(m.last_commit_page.0 as nat, 8));
    assert(body.subrange(24, 32) =~= le_bytes(m.n_pages as nat, 8));
}

/// Consecutive versions use different meta slots.
pub proof fn meta_slots_alternate(version: u64)
    requires
        version < u64::MAX,
    ensures
        (version % 2 == 0) != ((version + 1) as u64 % 2 == 0),
{
}

fn starts_with(body: &[u8], magic: &[u8]) -> (r: bool)
    requires
        body@.len() >= magic@.len(),
    ensures
        r == (body@.subrange(0, magic@.len() as int) == magic@),
{
    let mut i: usize = 0;
    while i < magic.len()
        invariant
            i <= magic@.len() <= body@.len(),
            forall|k: int| 0 <= k < i ==> body@[k] == magic@[k],
        decreases magic@.len() - i,
    {
        if body[i] != magic[i] {
            assert(body@.subrange(0, magic@.len() as int)[i as int] != magic@[i as int]);
            return false;
        }
        i = i + 1;
    }
    assert(body@.subrange(0, magic@.len() as int) =~= magic@);
    true
}

/// Sixteen bytes from `off`.
fn array16(b: &[u8], off: usize) -> (r: [u8; 16])
    requires
        off + 16 <= b@.len(),
    ensures
        r@ == b@.subrange(off as int, off + 16),
{
    let mut r: [u8; 16] = [0u8; 16];
    let mut i: usize = 0;
    while i < 16
        invariant
            i <= 16,
            off + 16 <= b@.len(),
            forall|k: int| 0 <= k < i ==> r@[k] == b@[off + k],
        decreases 16 - i,
    {
        assert(b.len() == b@.len());
        r[i] = b[off + i];
        i = i + 1;
    }
    assert(r@ =~= b@.subrange(off as int, off + 16));
    r
}

// --- LEB128 varints ---

/// The LEB128 encoding of `v`: base-128 digits, least significant first, all but
/// the last with the continuation bit.
pub open spec fn varint(v: nat) -> Seq<u8>
    decreases v,
{
    if v < 128 {
        seq![v as u8]
    } else {
        seq![(v % 128 + 128) as u8] + varint(v / 128)
    }
}

/// Reads a varint from `pos`, `k` digits of it having been read: the value of the
/// remaining digits and the position behind them. No value where the bytes end, nor
/// where the number takes more than 64 bits: the tenth digit is the last, and 0 or 1.
pub open spec fn varint_at(buf: Seq<u8>, pos: int, k: nat) -> (Option<nat>, int)
    decreases 10 - k,
{
    if pos < 0 || pos >= buf.len() || k >= 10 {
        (None, pos)
    } else if k == 9 {
        if buf[pos] < 2 {
            (Some(buf[pos] as nat), pos + 1)
        } else {
            (None, pos + 1)
        }
    } else if buf[pos] < 128 {
        (Some(buf[pos] as nat), pos + 1)
    } else {
        match varint_at(buf, pos + 1, k + 1) {
            (Some(rest), p) => (Some((buf[pos] - 128) as nat + 128 * rest), p),
            (None, p) => (None, p),
        }
    }
}

/// Bound on the digits behind the `k`-th.
pub open spec fn digits_limit(k: nat) -> nat
    decreases 10 - k,
{
    if k >= 9 {
        2
    } else {
        128 * digits_limit(k + 1)
    }
}

/// Appends the varint of `v`.
pub fn put_varint(out: &mut Vec<u8>, v: u64)
    ensures
        final(out)@ == old(out)@ + varint(v as nat),
{
    let mut v: u64 = v;
    let ghost all = old(out)@ + varint(v as nat);
    while v >= 128
        invariant
            out@ + varint(v as nat) == all,
        decreases v,
    {
        let ghost before = out@;
        out.push((v % 128 + 128) as u8);
        assert(before + varint(v as nat) =~= out@ + varint((v / 128) as nat));
        v = v / 128;
    }
    out.push(v as u8);
    assert(out@ =~= all);
}

/// Length of the varint of `v`.
pub fn varint_len(v: u64) -> (r: usize)
    ensures
        r == varint(v as nat).len(),
{
    let mut v: u64 = v;
    let ghost total = varint(v as nat).len();
    let mut n: usize = 1;
    proof {
        assert(digits_limit(0) == 0x1_0000_0000_0000_0000) by {
            reveal_with_fuel(digits_limit, 11);
        }
        lemma_varint_len(v as nat, 9);
    }
    while v >= 128
        invariant
            n + varint(v as nat).len() == total + 1,
            total <= 10,
        decreases v,
    {
        n = n + 1;
        v = v / 128;
    }
    n
}

/// A number below `digits_limit(9 - n)` has at most `n + 1` digits.
proof fn lemma_varint_len(v: nat, n: nat)
    requires
        n <= 9,
        v < digits_limit((9 - n) as nat),
    ensures
        1 <= varint(v).len() <= n + 1,
    decreases n,
{
    reveal_with_fuel(digits_limit, 2);
    if v >= 128 {
        assert(n > 0) by {
            assert(digits_limit(9) == 2);
        }
        assert(v / 128 < digits_limit((10 - n) as nat)) by (nonlinear_arith)
            requires
                v < 128 * digits_limit((10 - n) as nat),
        ;
        lemma_varint_len(v / 128, (n - 1) as nat);
    }
}

fn take_digits(buf: &[u8], pos: usize, k: usize) -> (r: (Option<u128>, usize))
    requires
        k < 10,
    ensures
        (match varint_at(buf@, pos as int, k as nat) {
            (Some(v), p) => r.0 == Some(v as u128) && v < digits_limit(k as nat) && r.1 == p,
            (None, p) => r.0 is None && r.1 == p,
        }),
    decreases 10 - k,
{
    proof {
        assert(digits_limit(0) == 0x1_0000_0000_0000_0000) by {
            reveal_with_fuel(digits_limit, 11);
        }
        lemma_digits_limit(k as nat);
    }
    if pos >= buf.len() {
        return (None, pos);
    }
    let b: u8 = buf[pos];
    if k == 9 {
        return (if b < 2 {
            Some(b as u128)
        } else {
            None
        }, pos + 1);
    }
    if b < 128 {
        return (Some(b as u128), pos + 1);
    }
    let (rest, p): (Option<u128>, usize) = take_digits(buf, pos + 1, k + 1);
    match rest {
        Some(v) => (Some((b - 128) as u128 + 128 * v), p),
        None => (None, p),
    }
}

proof fn lemma_digits_limit(k: nat)
    requires
        k < 10,
    ensures
        2 <= digits_limit(k) <= digits_limit(0),
        k < 9 ==> 128 <= digits_limit(k) == 128 * digits_limit(k + 1),
    decreases k,
{
    reveal_with_fuel(digits_limit, 11);
}

/// Reads a varint and advances `pos` behind the bytes read. `None` where the
/// buffer ends or the varint exceeds 64 bits.
pub fn take_varint(buf: &[u8], pos: &mut usize) -> (r: Option<u64>)
    ensures
        (match varint_at(buf@, *old(pos) as int, 0) {
            (Some(v), p) => r == Some(v as u64) && v <= u64::MAX && *final(pos) == p,
            (None, p) => r is None && *final(pos) == p,
        }),
{
    let (v, p): (Option<u128>, usize) = take_digits(buf, *pos, 0);
    *pos = p;
    proof {
        assert(digits_limit(0) == 0x1_0000_0000_0000_0000) by {
            reveal_with_fuel(digits_limit, 11);
        }
    }
    match v {
        Some(x) => Some(x as u64),
        None => None,
    }
}

/// Reading a varint where it was put gives the number back and stops right behind
/// it, whatever stands before and after.
pub proof fn varint_round_trip(before: Seq<u8>, v: u64, after: Seq<u8>)
    ensures
        varint_at(before + varint(v as nat) + after, before.len() as int, 0) == (
            Some(v as nat),
            (before.len() + varint(v as nat).len()) as int,
        ),
{
    assert(digits_limit(0) == 0x1_0000_0000_0000_0000) by {
        reveal_with_fuel(digits_limit, 11);
    }
    lemma_varint_at(before, v as nat, after, 0);
}

pub proof fn lemma_varint_at(before: Seq<u8>, v: nat, after: Seq<u8>, k: nat)
    requires
        k < 10,
        v < digits_limit(k),
    ensures
        varint_at(before + varint(v) + after, before.len() as int, k) == (
            Some(v),
            (before.len() + varint(v).len()) as int,
        ),
    decreases 10 - k,
{
    let buf = before + varint(v) + after;
    reveal_with_fuel(digits_limit, 2);
    assert(buf[before.len() as int] == varint(v)[0]);
    if v >= 128 {
        let b = (v % 128 + 128) as u8;
        assert(v / 128 < digits_limit(k + 1)) by (nonlinear_arith)
            requires
                v < 128 * digits_limit(k + 1),
        ;
        assert(before.push(b) + varint(v / 128) + after =~= buf);
        lemma_varint_at(before.push(b), v / 128, after, k + 1);
    }
}

pub fn le_u32(b: &[u8], off: usize) -> (r: u32)
    requires
        off + 4 <= b@.len(),
    ensures
        r == le_value(b@.subrange(off as int, off + 4)),
{
    proof {
        crate::bytes::lemma_le_value_bound(b@.subrange(off as int, off + 4));
        lemma_pow256_values();
    }
    read_le(b, off, 4) as u32
}

pub fn le_u64(b: &[u8], off: usize) -> (r: u64)
    requires
        off + 8 <= b@.len(),
    ensures
        r == le_value(b@.subrange(off as int, off + 8)),
{
    read_le(b, off, 8)
}

} // verus!
