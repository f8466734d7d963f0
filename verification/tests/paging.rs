use std::sync::Arc;

use arkeion::error::Error;
use arkeion::exec::random::{next_random, seed};
use arkeion::format::{
    FileHeader, MetaSlot, PageBuf, PageId, BODY_SIZE, CRYPTO_RESERVE, FIRST_DATA_PAGE,
    FLAG_ENCRYPTED, PAGE_SIZE,
};
use arkeion::pager::{
    body_to_seal, check_start, decode_body, decompressed, first_meta, frame, framed_record,
    header_with, is_compressed, is_encrypted, key_to_be_tried, meta_slots, new_header, open_header,
    page_of, read_meta, trim_trailing_zeros, AppendState, Opened, PageCache, PhysLoc, APPEND_START,
    CACHE_CAP,
};

#[test]
fn page_cache_evicts_oldest_and_stays_bounded() {
    let mut c = PageCache::new(100);
    for i in 0..1000u64 {
        c.insert(PageId(i), Arc::new(PageBuf::zeroed()));
    }
    assert!(c.len() <= 100, "len {} > tope 100", c.len());
    assert!(c.get(PageId(999)).is_some());
    assert!(c.get(PageId(0)).is_none());
}

#[test]
fn page_cache_keeps_what_was_accessed() {
    let mut c = PageCache::new(4);
    for i in 0..4u64 {
        c.insert(PageId(i), Arc::new(PageBuf::zeroed()));
    }
    assert!(c.get(PageId(0)).is_some());
    c.insert(PageId(9), Arc::new(PageBuf::zeroed()));
    assert_eq!(c.len(), 3);
    assert!(c.get(PageId(0)).is_some());
    assert!(c.get(PageId(9)).is_some());
    assert!(c.get(PageId(1)).is_none());
    assert!(c.get(PageId(2)).is_none());
}

#[test]
fn page_cache_replaces_a_page() {
    let mut c = PageCache::new(4);
    c.insert(PageId(1), Arc::new(PageBuf::zeroed()));
    c.insert(PageId(1), Arc::new(page_of(b"x")));
    assert_eq!(c.len(), 1);
    assert_eq!(c.get(PageId(1)).unwrap().body()[0], b'x');
}

#[test]
fn trimmed_body_comes_back() {
    assert_eq!(trim_trailing_zeros(&[1, 0, 2, 0, 0]), vec![1, 0, 2]);
    assert_eq!(trim_trailing_zeros(&[0, 0]), Vec::<u8>::new());
    let mut body = [0u8; BODY_SIZE];
    body[17] = 9;
    let page = page_of(&trim_trailing_zeros(&body));
    assert_eq!(page.body(), &body[..]);
    assert_eq!(&page.as_bytes()[..CRYPTO_RESERVE], &[0u8; CRYPTO_RESERVE][..]);
}

#[test]
fn frames_carry_their_length() {
    assert_eq!(frame(&[7, 8]), vec![2, 0, 0, 0, 7, 8]);
    assert_eq!(framed_record(&[7], &[9, 9]), vec![1, 0, 0, 0, 7, 9, 9]);
}

#[test]
fn sealed_forms_open() {
    let id = PageId(5);
    assert_eq!(body_to_seal(&[1, 2], false, &None), vec![1, 2]);
    assert_eq!(body_to_seal(&[1, 2], true, &None), vec![0, 1, 2]);
    assert_eq!(body_to_seal(&[1, 2], true, &Some(vec![7])), vec![1, 7]);
    assert!(matches!(decode_body(&[1, 2], false, id), Ok(Opened::Body(b)) if b == vec![1, 2]));
    assert!(matches!(decode_body(&[0, 1, 2], true, id), Ok(Opened::Body(b)) if b == vec![1, 2]));
    assert!(matches!(decode_body(&[1, 7], true, id), Ok(Opened::Compressed(b)) if b == vec![7]));
    assert!(matches!(decode_body(&[], true, id), Err(Error::Corrupt { page: 5, .. })));
    assert!(matches!(decode_body(&[9], true, id), Err(Error::Corrupt { page: 5, .. })));
    assert!(matches!(decompressed(None, id), Err(Error::Corrupt { page: 5, .. })));
    assert_eq!(decompressed(Some(vec![3]), id).unwrap(), vec![3]);
}

fn sweep(file: &[u8], parity: u64) -> AppendState {
    let mut s = AppendState::new();
    let len = file.len() as u64;
    while let Some(at) = s.next_prefix(len) {
        let at = at as usize;
        let mut b = [0u8; 4];
        b.copy_from_slice(&file[at..at + 4]);
        if !s.take_record(len, u32::from_le_bytes(b), parity) {
            break;
        }
    }
    s
}

#[test]
fn sweep_finds_records_and_stops_at_the_torn_one() {
    let mut file = vec![0u8; APPEND_START as usize];
    let a = vec![1u8; 30];
    let b = vec![2u8; 28];
    file.extend(framed_record(&a, &[0xFF; 3]));
    file.extend(framed_record(&b, &[0xFF; 3]));
    let whole = file.len() as u64;
    file.extend(frame(&[3u8; 40]));
    file.truncate(file.len() - 1);
    let s = sweep(&file, 3);
    let at = APPEND_START + 4;
    assert_eq!(
        s.dir,
        vec![PhysLoc { offset: at, len: 30 }, PhysLoc { offset: at + 30 + 3 + 4, len: 28 }]
    );
    assert_eq!(s.write_offset, whole);
    assert_eq!(s.next_page, 5);
    assert_eq!(s.locate(PageId(4)).unwrap(), s.dir[1]);
    assert!(matches!(s.locate(PageId(5)), Err(Error::Corrupt { page: 5, .. })));
    assert!(matches!(s.locate(PageId(2)), Err(Error::Corrupt { page: 2, .. })));
}

#[test]
fn sweep_stops_at_an_impossible_length() {
    let mut file = vec![0u8; APPEND_START as usize];
    file.extend(frame(&[1u8; 27]));
    file.extend([0u8; 100]);
    let s = sweep(&file, 0);
    assert!(s.dir.is_empty());
    assert_eq!(s.write_offset, APPEND_START);
}

#[test]
fn appended_records_are_forgotten_behind_a_head() {
    let mut s = AppendState::new();
    assert_eq!(s.append(28, 32), PageId(3));
    assert_eq!(s.append(30, 34), PageId(4));
    assert_eq!(s.append(28, 32), PageId(5));
    assert_eq!(s.nonce_counter, 3);
    assert_eq!(s.take_nonce(), 3);
    assert_eq!(s.last_kept(5).unwrap().len, 30);
    s.truncate_to_head(5, 0);
    assert_eq!((s.next_page, s.dir.len()), (5, 2));
    assert_eq!(s.write_offset, APPEND_START + 32 + 34);
    assert_eq!(s.nonce_counter, 4);
    s.install_commit(&vec![PhysLoc { offset: 1, len: 2 }], 99, 6);
    assert_eq!((s.next_page, s.dir.len(), s.write_offset), (6, 3, 99));
    s.truncate_to_head(0, 0);
    assert_eq!((s.next_page, s.dir.len(), s.write_offset), (0, 0, APPEND_START));
    assert!(s.loc(PageId(3)).is_none());
}

#[test]
fn new_headers_have_their_own_identity() {
    let a = new_header(true, false, 7).unwrap();
    let b = new_header(true, false, 7).unwrap();
    assert!(is_encrypted(&a) && !is_compressed(&a));
    assert_eq!(a.ecc_nsym, 7);
    assert_ne!(a.file_id, b.file_id);
    assert_ne!(a.kdf_salt, a.file_id);
    assert_eq!(
        header_with(false, true, 1, [4; 16], [5; 16]),
        FileHeader { flags: 2, file_id: [4; 16], kdf_salt: [5; 16], ecc_nsym: 1 }
    );
    assert_eq!(first_meta(), MetaSlot { version: 0, last_commit_page: PageId(0), n_pages: 3 });
}

#[test]
fn opening_decides_by_length_magic_and_key() {
    let mut body = vec![0u8; BODY_SIZE];
    assert!(matches!(check_start(10, &[]), Err(Error::NotADatabase)));
    assert!(matches!(check_start(20_000, &body), Err(Error::NotADatabase)));
    header_with(true, false, 0, [0; 16], [0; 16]).encode_into(&mut body);
    assert!(check_start(20_000, &body).is_ok());
    assert!(matches!(open_header(&body, false), Err(Error::KeyRequired)));
    let (h, encrypted) = open_header(&body, true).unwrap();
    assert!(encrypted && is_encrypted(&h));
    header_with(false, false, 0, [0; 16], [0; 16]).encode_into(&mut body);
    assert!(matches!(open_header(&body, true), Err(Error::InvalidInput(_))));
    assert!(!open_header(&body, false).unwrap().1);
    assert!(key_to_be_tried(true, 4) && !key_to_be_tried(true, 3) && !key_to_be_tried(false, 9));
}

#[test]
fn the_newest_valid_slot_wins() {
    let slot = |v: u64| MetaSlot { version: v, last_commit_page: PageId(v), n_pages: 3 + v };
    assert_eq!(read_meta(Some(slot(4)), Some(slot(3))).unwrap(), slot(4));
    assert_eq!(read_meta(Some(slot(4)), Some(slot(5))).unwrap(), slot(5));
    assert_eq!(read_meta(Some(slot(4)), None).unwrap(), slot(4));
    assert_eq!(read_meta(None, Some(slot(5))).unwrap(), slot(5));
    assert!(matches!(read_meta(None, None), Err(Error::Corrupt { page: 1, .. })));
    assert_eq!(meta_slots(None, Some(slot(5))), vec![slot(5)]);
    assert_eq!(meta_slots(Some(slot(1)), Some(slot(0))).len(), 2);
}

#[test]
fn random_numbers_follow_the_state() {
    let mut s = 1u64;
    assert_eq!(next_random(&mut s), 0x0000_0000_4082_2041);
    assert_eq!(s, 0x4082_2041);
    assert_eq!(seed(0), 0x9E37_79B9_7F4A_7C15);
    assert_ne!(seed(0x9E37_79B9_7F4A_7C15), 0);
}

/// A file of structural pages; a slot that was damaged does not decode.
fn slot_at(pages: &[Option<MetaSlot>; 3], id: PageId) -> Option<MetaSlot> {
    pages[id.0 as usize]
}

#[test]
fn meta_slots_alternate_and_newest_valid_wins() {
    let mut pages: [Option<MetaSlot>; 3] = [None; 3];
    let (a, b) = (MetaSlot::slot_page(0), MetaSlot::slot_page(1));
    pages[a.0 as usize] = Some(first_meta());
    pages[b.0 as usize] = Some(first_meta());

    let v1 = MetaSlot { version: 1, last_commit_page: PageId(10), n_pages: 11 };
    pages[MetaSlot::slot_page(v1.version).0 as usize] = Some(v1);
    assert_eq!(read_meta(slot_at(&pages, a), slot_at(&pages, b)).unwrap(), v1);

    let v2 = MetaSlot { version: 2, last_commit_page: PageId(20), n_pages: 21 };
    pages[MetaSlot::slot_page(v2.version).0 as usize] = Some(v2);
    assert_eq!(read_meta(slot_at(&pages, a), slot_at(&pages, b)).unwrap(), v2);

    pages[MetaSlot::slot_page(2).0 as usize] = None;
    assert_eq!(read_meta(slot_at(&pages, a), slot_at(&pages, b)).unwrap(), v1);

    pages[MetaSlot::slot_page(1).0 as usize] = None;
    assert!(matches!(
        read_meta(slot_at(&pages, a), slot_at(&pages, b)),
        Err(Error::Corrupt { .. })
    ));
}

/// A different body for each page, always the same one.
fn pattern(i: u64) -> Vec<u8> {
    (0..BODY_SIZE).map(|j| ((i as usize * 31 + j) % 251) as u8).collect()
}

/// A file in memory, with the state and the cache that its pages are found by.
struct Store {
    bytes: Vec<u8>,
    state: AppendState,
    cache: PageCache,
}

impl Store {
    fn create() -> Store {
        let bytes = vec![0u8; APPEND_START as usize];
        Store { bytes, state: AppendState::new(), cache: PageCache::new(CACHE_CAP) }
    }

    fn open(bytes: Vec<u8>) -> Store {
        let state = sweep(&bytes, 0);
        Store { bytes, state, cache: PageCache::new(CACHE_CAP) }
    }

    fn append_page(&mut self, body: &[u8]) -> PageId {
        let mut stored = vec![0u8; CRYPTO_RESERVE];
        stored.extend(body_to_seal(&trim_trailing_zeros(body), false, &None));
        let record = frame(&stored);
        self.bytes.truncate(self.state.write_offset as usize);
        self.bytes.extend(&record);
        let id = self.state.append(stored.len() as u32, record.len() as u64);
        self.cache.insert(id, Arc::new(page_of(body)));
        id
    }

    fn read_page(&mut self, id: PageId) -> Result<Arc<PageBuf>, Error> {
        if let Some(page) = self.cache.get(id) {
            return Ok(page);
        }
        let loc = self.state.locate(id)?;
        let at = loc.offset as usize;
        let stored = &self.bytes[at..at + loc.len as usize];
        let Opened::Body(body) = decode_body(&stored[CRYPTO_RESERVE..], false, id)? else {
            panic!()
        };
        let page = Arc::new(page_of(&body));
        self.cache.insert(id, page.clone());
        Ok(page)
    }
}

#[test]
fn create_then_reopen_preserves_header() {
    let header = new_header(false, false, 0).unwrap();
    assert_eq!(Store::create().state.next_page, FIRST_DATA_PAGE);
    let mut body = vec![0u8; BODY_SIZE];
    header.encode_into(&mut body);
    let mut slots = Vec::new();
    for _ in 0..2 {
        let mut slot = vec![0u8; BODY_SIZE];
        first_meta().encode_into(&mut slot);
        slots.push(slot);
    }

    check_start(APPEND_START, &body).unwrap();
    let (again, encrypted) = open_header(&body, false).unwrap();
    assert_eq!(again.file_id, header.file_id);
    assert!(!encrypted);
    let meta = read_meta(MetaSlot::decode(&slots[0]), MetaSlot::decode(&slots[1])).unwrap();
    assert_eq!(meta.version, 0);
    assert_eq!(meta.n_pages, FIRST_DATA_PAGE);
}

#[test]
fn append_sync_reopen_read_back() {
    let mut store = Store::create();
    let ids: Vec<PageId> = (0..20).map(|i| store.append_page(&pattern(i))).collect();
    assert_eq!(ids[0], PageId(FIRST_DATA_PAGE));
    assert_eq!(store.state.next_page, FIRST_DATA_PAGE + 20);

    let mut store = Store::open(store.bytes);
    assert_eq!(store.state.next_page, FIRST_DATA_PAGE + 20);
    for (i, id) in ids.iter().enumerate() {
        let page = store.read_page(*id).unwrap();
        assert_eq!(page.body(), &pattern(i as u64)[..], "página {i} difiere tras reabrir");
    }
}

#[test]
fn cache_eviction_preserves_data_end_to_end() {
    let mut store = Store::create();
    let n = CACHE_CAP as u64 + 300;
    let ids: Vec<PageId> = (0..n).map(|i| store.append_page(&pattern(i))).collect();
    assert!(store.cache.len() <= CACHE_CAP);
    for (i, id) in ids.iter().enumerate() {
        let page = store.read_page(*id).unwrap();
        assert_eq!(page.body(), &pattern(i as u64)[..], "página {i} difiere");
    }
    assert!(store.cache.len() <= CACHE_CAP, "la caché no quedó acotada");
}

#[test]
fn torn_tail_is_logically_truncated() {
    let mut store = Store::create();
    for i in 0..5 {
        store.append_page(&pattern(i));
    }
    let mut bytes = store.bytes;
    let full = (FIRST_DATA_PAGE as usize + 5) * PAGE_SIZE;
    bytes.truncate(full - 1000);

    let mut store = Store::open(bytes);
    assert_eq!(store.state.next_page, FIRST_DATA_PAGE + 4);
    for i in 0..4u64 {
        store.read_page(PageId(FIRST_DATA_PAGE + i)).unwrap();
    }
    assert!(store.read_page(PageId(FIRST_DATA_PAGE + 4)).is_err());
    let id = store.append_page(&pattern(99));
    assert_eq!(id, PageId(FIRST_DATA_PAGE + 4));
}

#[test]
fn garbage_file_is_not_a_database() {
    let garbage = vec![0xAAu8; 4 * 4096];
    let len = garbage.len() as u64;
    assert!(matches!(check_start(len, &garbage[..BODY_SIZE]), Err(Error::NotADatabase)));
    assert!(matches!(check_start(1, b"x"), Err(Error::NotADatabase)));
}

#[test]
fn encrypted_flag_requires_key() {
    let mut body = vec![0u8; BODY_SIZE];
    let header =
        FileHeader { flags: FLAG_ENCRYPTED, file_id: [1; 16], kdf_salt: [2; 16], ecc_nsym: 0 };
    header.encode_into(&mut body);
    assert!(matches!(open_header(&body, false), Err(Error::KeyRequired)));
}

#[test]
fn key_on_a_plaintext_file_is_rejected() {
    let mut body = vec![0u8; BODY_SIZE];
    header_with(false, false, 0, [7; 16], [9; 16]).encode_into(&mut body);
    assert!(matches!(open_header(&body, true), Err(Error::InvalidInput(_))));
}
