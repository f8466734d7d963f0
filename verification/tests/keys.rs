use arkeion::keyenc::{decode_oint, encode_bytes, encode_index_value, encode_oint};
use arkeion::error::Error;
use arkeion::record::{
    col_blob_bytes, decode_cols_sorted, decode_values, encode_resolved_into, encode_values,
    rowid_be, rowid_from_be, Value, ValueRef, TAG_TEXT,
};
use std::cell::RefCell;

fn enc(v: &Value) -> Vec<u8> {
    let mut out = Vec::new();
    encode_index_value(v, &mut out);
    out
}

fn of_real(f: f64) -> Value {
    Value::Real(f.to_bits())
}

struct Rng(u64);

impl Rng {
    fn next(&mut self) -> u64 {
        self.0 ^= self.0 << 13;
        self.0 ^= self.0 >> 7;
        self.0 ^= self.0 << 17;
        self.0
    }
}

fn assert_sorted(values: &[Value]) {
    for w in values.windows(2) {
        assert!(
            enc(&w[0]) < enc(&w[1]),
            "orden roto: {:?} debería ir antes que {:?}",
            w[0],
            w[1]
        );
    }
}

#[test]
fn order_preserved_known_sequences() {
    let ints = [i64::MIN, -1_000_000, -1, 0, 1, 42, 1_000_000, i64::MAX].map(Value::Integer);
    assert_sorted(&ints);

    let reals =
        [f64::NEG_INFINITY, -1e9, -1.5, -0.0, 0.0, 1.5, 2.5, 1e9, f64::INFINITY].map(of_real);
    assert_sorted(&reals);

    assert_sorted(&[Value::Bool(false), Value::Bool(true)]);

    let texts = ["", "a", "ab", "abc", "b", "z"].map(|s| Value::Text(s.to_owned()));
    assert_sorted(&texts);

    assert!(enc(&Value::Null) < enc(&Value::Integer(i64::MIN)));
    assert!(enc(&Value::Null) < enc(&Value::Text(String::new())));
}

#[test]
fn order_preserved_random_pairs() {
    let mut rng = Rng(0x1234_5678_9ABC_DEF0);
    for _ in 0..5000 {
        let (a, b) = (rng.next() as i64, rng.next() as i64);
        assert_eq!(
            enc(&Value::Integer(a)).cmp(&enc(&Value::Integer(b))),
            a.cmp(&b),
            "int {a} vs {b}"
        );

        let fa = f64::from_bits(rng.next());
        let fb = f64::from_bits(rng.next());
        if fa.is_finite() && fb.is_finite() {
            assert_eq!(
                enc(&of_real(fa)).cmp(&enc(&of_real(fb))),
                fa.partial_cmp(&fb).unwrap(),
                "real {fa} vs {fb}"
            );
        }

        let sa = rand_bytes(&mut rng);
        let sb = rand_bytes(&mut rng);
        assert_eq!(
            encode_bytes_vec(&sa).cmp(&encode_bytes_vec(&sb)),
            sa.cmp(&sb),
            "bytes {sa:?} vs {sb:?}"
        );
    }
}

fn encode_bytes_vec(b: &[u8]) -> Vec<u8> {
    enc(&Value::Blob(b.to_vec()))
}

fn rand_bytes(rng: &mut Rng) -> Vec<u8> {
    let len = (rng.next() % 6) as usize;
    (0..len).map(|_| (rng.next() % 4) as u8).collect()
}

fn enc_oint(v: i64) -> Vec<u8> {
    let mut o = Vec::new();
    encode_oint(v, &mut o);
    o
}

#[test]
fn oint_order_and_roundtrip() {
    let vals = [
        i64::MIN,
        i64::MIN + 1,
        -4_294_967_296,
        -65_537,
        -65_536,
        -257,
        -256,
        -255,
        -2,
        -1,
        0,
        1,
        2,
        127,
        128,
        255,
        256,
        65_535,
        65_536,
        16_777_215,
        16_777_216,
        4_294_967_295,
        4_294_967_296,
        i64::MAX - 1,
        i64::MAX,
    ];
    for w in vals.windows(2) {
        assert!(
            enc_oint(w[0]) < enc_oint(w[1]),
            "orden roto: {} debería ir antes que {}",
            w[0],
            w[1]
        );
    }
    for &v in &vals {
        let e = enc_oint(v);
        let mut pos = 0;
        assert_eq!(decode_oint(&e, &mut pos), Some(v), "round-trip {v}");
        assert_eq!(pos, e.len(), "self-delimitado: consume exacto, {v}");
        assert!(e.len() <= 9, "máximo 9 bytes (cabecera + 8), {v}");
    }
}

#[test]
fn oint_order_random_pairs() {
    let mut rng = Rng(0x0BAD_F00D_DEAD_BEEF);
    for _ in 0..20_000 {
        let a = rng.next() as i64;
        let b = rng.next() as i64;
        assert_eq!(enc_oint(a).cmp(&enc_oint(b)), a.cmp(&b), "orden roto: {a} vs {b}");
    }
}

#[test]
fn oint_concatenation_orders_lexicographically() {
    let keys = [(1u32, 5i64), (1, 50_000), (1, i64::MAX), (2, -1), (2, 0), (300, 1)];
    let enc_key = |tid: u32, rid: i64| {
        let mut k = Vec::new();
        encode_oint(tid as i64, &mut k);
        encode_oint(rid, &mut k);
        k
    };
    let encoded: Vec<Vec<u8>> = keys.iter().map(|&(t, r)| enc_key(t, r)).collect();
    let sorted = {
        let mut s = encoded.clone();
        s.sort();
        s
    };
    assert_eq!(encoded, sorted, "el orden de bytes debe seguir (tid, rowid)");
}

#[test]
fn oint_malformed_is_none_not_panic() {
    assert_eq!(decode_oint(&[], &mut 0), None);
    assert_eq!(decode_oint(&[0x88], &mut 0), None);
    assert_eq!(decode_oint(&[0x83, 0x01], &mut 0), None);
}

#[test]
fn key_bytes_of_each_type() {
    assert_eq!(enc(&Value::Null), vec![0]);
    assert_eq!(enc(&Value::Integer(0)), vec![1, 0x80, 0, 0, 0, 0, 0, 0, 0]);
    assert_eq!(enc(&Value::Bool(true)), vec![1, 1]);
    assert_eq!(enc(&Value::Text("a\0b".into())), vec![1, b'a', 0, 0xFF, b'b', 0, 0]);
    assert_eq!(enc(&Value::Blob(vec![])), vec![1, 0, 0]);
}

#[test]
fn roundtrip_all_types_and_limits() {
    let values = vec![
        Value::Null,
        Value::Bool(false),
        Value::Bool(true),
        Value::Integer(0),
        Value::Integer(-1),
        Value::Integer(i64::MIN),
        Value::Integer(i64::MAX),
        of_real(0.0),
        of_real(-0.0),
        of_real(f64::INFINITY),
        of_real(f64::NEG_INFINITY),
        Value::Text(String::new()),
        Value::Text("con\0nul y ñ y 🐢".to_owned()),
        Value::Blob(Vec::new()),
        Value::Blob((0..10_000u32).map(|i| (i % 251) as u8).collect()),
    ];
    let decoded = decode_values(&encode_values(&values)).unwrap();
    assert_eq!(decoded, values);

    let nan = encode_values(&[of_real(f64::NAN)]);
    match &decode_values(&nan).unwrap()[0] {
        Value::Real(bits) => assert_eq!(*bits, f64::NAN.to_bits()),
        other => panic!("se esperaba Real, llegó {other:?}"),
    }
}

#[test]
fn small_negative_integers_encode_short() {
    let one = encode_values(&[Value::Integer(-1)]);
    assert_eq!(one.len(), 1 + 1 + 1);
}

#[test]
fn empty_record() {
    assert_eq!(decode_values(&encode_values(&[])).unwrap(), vec![]);
}

#[test]
fn corrupt_records_are_rejected() {
    assert!(decode_values(&[5]).is_err());
    assert!(decode_values(&[1, TAG_TEXT, 200]).is_err());
    assert!(decode_values(&[1, 99]).is_err());
    let mut extra = encode_values(&[Value::Null]);
    extra.push(0xAB);
    assert!(decode_values(&extra).is_err());
    assert!(decode_values(&encode_values(&[Value::Text("ok".into())])[..3]).is_err());
}

#[test]
fn rowid_order_is_memcomparable() {
    let ids = [i64::MIN, -1_000_000, -5, -1, 0, 1, 5, 1_000_000, i64::MAX];
    let encoded: Vec<[u8; 8]> = ids.iter().map(|&i| rowid_be(i)).collect();
    let mut sorted = encoded.clone();
    sorted.sort();
    assert_eq!(encoded, sorted, "el orden de bytes debe seguir el orden numérico");
    for &i in &ids {
        assert_eq!(rowid_from_be(&rowid_be(i)), Some(i));
    }
    assert_eq!(rowid_from_be(&[0; 7]), None);
}

#[test]
fn some_columns_are_decoded_like_all() {
    let values =
        vec![Value::Integer(7), Value::Text("x".into()), Value::Null, Value::Blob(vec![1, 2, 3])];
    let buf = encode_values(&values);
    let mut out = Vec::new();
    decode_cols_sorted(&buf, &[1, 3], &mut out).unwrap();
    assert_eq!(out, vec![Some(Value::Text("x".into())), Some(Value::Blob(vec![1, 2, 3]))]);
    assert_eq!(col_blob_bytes(&buf, 3).unwrap(), Some(&[1u8, 2, 3][..]));
}

#[test]
fn nan_of_either_sign_sorts_last() {
    for nan in [0xFFF8_0000_0000_0000u64, 0x7FF8_0000_0000_0000] {
        for other in [f64::NEG_INFINITY, -1.0, 0.0, 1.0, f64::INFINITY] {
            assert!(enc(&of_real(other)) < enc(&Value::Real(nan)));
        }
    }
}

#[test]
fn each_zero_byte_takes_one_more() {
    let plain = enc(&Value::Blob(vec![1, 2, 3])).len();
    assert_eq!(enc(&Value::Blob(vec![1, 0, 3])).len(), plain + 1);
    assert_eq!(enc(&Value::Blob(vec![0, 0, 0])).len(), plain + 3);
}

#[test]
fn columns_are_resolved_twice_in_order() {
    let row = vec![Value::Integer(-3), Value::Text("hola".to_owned())];
    let asked = RefCell::new(Vec::new());
    let mut out = vec![9u8];
    let r = encode_resolved_into(
        2,
        |i| {
            asked.borrow_mut().push(i);
            Ok(ValueRef::of(&row[i]))
        },
        &mut out,
    );
    assert!(r.is_ok());
    assert_eq!(out, encode_values(&row));
    assert_eq!(*asked.borrow(), [0, 1, 0, 1]);
}

#[test]
fn a_column_that_fails_ends_the_record() {
    let asked = RefCell::new(0usize);
    let mut out = Vec::new();
    let r = encode_resolved_into(
        3,
        |i| {
            *asked.borrow_mut() += 1;
            if i == 1 {
                Err(Error::Store("no".to_owned()))
            } else {
                Ok(ValueRef::Text("x"))
            }
        },
        &mut out,
    );
    assert!(matches!(r, Err(Error::Store(m)) if m == "no"));
    assert_eq!(*asked.borrow(), 2);
    assert_eq!(out, [3, TAG_TEXT]);
}

#[test]
fn escaped_bytes_keep_their_order_before_any_suffix() {
    let escaped = |b: &[u8]| {
        let mut out = Vec::new();
        encode_bytes(b, &mut out);
        out
    };
    assert_eq!(escaped(&[1, 0, 2]), [1, 0, 0xFF, 2, 0, 0]);
    let words: [&[u8]; 6] = [&[], &[0], &[0, 0], &[0, 1], &[1], &[255]];
    for (i, a) in words.iter().enumerate() {
        for b in &words[i + 1..] {
            for (s, t) in [(vec![255u8, 255], vec![]), (vec![], vec![0u8])] {
                let x = [escaped(a), s].concat();
                let y = [escaped(b), t].concat();
                assert!(x < y, "{a:?} {b:?}");
            }
        }
    }
}
