use arkeion::error::Error;
use arkeion::format::{
    put_varint, take_varint, varint_len, FileHeader, MetaSlot, PageBuf, PageId, BODY_SIZE,
    CRYPTO_RESERVE, META_PAGE_A, META_PAGE_B, NONCE_LEN, PAGE_SIZE, TAG_LEN,
};

#[test]
fn page_id_offset() {
    assert_eq!(PageId(0).byte_offset(), 0);
    assert_eq!(PageId(3).byte_offset(), 3 * 4096);
}

#[test]
fn header_roundtrip() {
    let h = FileHeader { flags: 0, file_id: [7; 16], kdf_salt: [9; 16], ecc_nsym: 16 };
    let mut body = vec![0u8; BODY_SIZE];
    h.encode_into(&mut body);
    assert_eq!(FileHeader::decode(&body).unwrap(), h);
}

#[test]
fn header_rejects_bad_magic() {
    let body = vec![0u8; BODY_SIZE];
    assert!(matches!(FileHeader::decode(&body), Err(Error::NotADatabase)));
}

#[test]
fn header_rejects_future_version() {
    let h = FileHeader { flags: 0, file_id: [0; 16], kdf_salt: [0; 16], ecc_nsym: 0 };
    let mut body = vec![0u8; BODY_SIZE];
    h.encode_into(&mut body);
    body[8..12].copy_from_slice(&99u32.to_le_bytes());
    assert!(matches!(FileHeader::decode(&body), Err(Error::UnsupportedFormat { version: 99 })));
}

#[test]
fn header_rejects_other_page_size() {
    let h = FileHeader { flags: 0, file_id: [0; 16], kdf_salt: [0; 16], ecc_nsym: 0 };
    let mut body = vec![0u8; BODY_SIZE];
    h.encode_into(&mut body);
    body[12..16].copy_from_slice(&8192u32.to_le_bytes());
    assert!(matches!(
        FileHeader::decode(&body),
        Err(Error::UnsupportedPageSize { page_size: 8192 })
    ));
}

#[test]
fn header_bytes_are_as_documented() {
    let h = FileHeader { flags: 3, file_id: [1; 16], kdf_salt: [2; 16], ecc_nsym: 5 };
    let mut body = vec![0xEEu8; 60];
    h.encode_into(&mut body);
    assert_eq!(&body[0..8], b"ARKEION1");
    assert_eq!(&body[8..12], &[4, 0, 0, 0]);
    assert_eq!(&body[12..16], &[0, 16, 0, 0]);
    assert_eq!(&body[16..20], &[3, 0, 0, 0]);
    assert_eq!(&body[20..36], &[1; 16]);
    assert_eq!(&body[36..52], &[2; 16]);
    assert_eq!(body[52], 5);
    assert_eq!(&body[53..], &[0xEE; 7]);
}

#[test]
fn meta_roundtrip_and_alternation() {
    let m = MetaSlot { version: 5, last_commit_page: PageId(42), n_pages: 100 };
    let mut body = vec![0u8; BODY_SIZE];
    m.encode_into(&mut body);
    assert_eq!(MetaSlot::decode(&body), Some(m));

    assert_eq!(MetaSlot::slot_page(0), PageId(META_PAGE_A));
    assert_eq!(MetaSlot::slot_page(1), PageId(META_PAGE_B));
    assert_eq!(MetaSlot::slot_page(2), PageId(META_PAGE_A));
}

#[test]
fn meta_rejects_bad_magic() {
    let body = vec![0u8; BODY_SIZE];
    assert_eq!(MetaSlot::decode(&body), None);
}

#[test]
fn varint_roundtrip() {
    for v in [0u64, 1, 127, 128, 300, u32::MAX as u64, u64::MAX] {
        let mut out = Vec::new();
        put_varint(&mut out, v);
        assert_eq!(out.len(), varint_len(v));
        let mut pos = 0;
        assert_eq!(take_varint(&out, &mut pos), Some(v));
        assert_eq!(pos, out.len());
    }
    assert_eq!(take_varint(&[0x80], &mut 0), None);
    assert_eq!(take_varint(&[0xFF; 11], &mut 0), None);
}

#[test]
fn varint_bytes() {
    let mut out = Vec::new();
    put_varint(&mut out, 300);
    assert_eq!(out, vec![0xAC, 0x02]);
}

#[test]
fn page_parts_lie_side_by_side() {
    let mut p = PageBuf::zeroed();
    p.nonce_mut()[0] = 1;
    p.tag_mut()[0] = 2;
    p.body_mut()[0] = 3;
    assert_eq!(p.as_bytes()[0], 1);
    assert_eq!(p.as_bytes()[NONCE_LEN], 2);
    assert_eq!(p.as_bytes()[CRYPTO_RESERVE], 3);
    assert_eq!((p.nonce().len(), p.tag().len(), p.body().len()), (NONCE_LEN, TAG_LEN, BODY_SIZE));
    p.as_bytes_mut()[PAGE_SIZE - 1] = 9;
    assert_eq!(p.body()[BODY_SIZE - 1], 9);
}

#[test]
fn varints_past_64_bits_are_none() {
    let mut b = vec![0x80u8; 9];
    b.push(0x02);
    assert_eq!(take_varint(&b, &mut 0), None);
    b[9] = 0x01;
    assert_eq!(take_varint(&b, &mut 0), Some(1 << 63));
}
