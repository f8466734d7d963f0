use arkeion::sql::datetime::{
    civil_from_days, days_from_civil, ms_to_parts, parse_rfc3339_ms, strftime,
};

#[test]
fn epoch_and_known_instants() {
    assert_eq!(parse_rfc3339_ms("1970-01-01T00:00:00Z"), Some(0));
    assert_eq!(parse_rfc3339_ms("2026-05-01T00:00:00Z"), Some(1_777_593_600_000));
    assert_eq!(parse_rfc3339_ms("2026-05-01T00:00:01Z"), Some(1_777_593_601_000));
}

#[test]
fn fraction_truncates_to_millis() {
    assert_eq!(parse_rfc3339_ms("1970-01-01T00:00:00.5Z"), Some(500));
    assert_eq!(parse_rfc3339_ms("1970-01-01T00:00:00.250Z"), Some(250));
    assert_eq!(parse_rfc3339_ms("1970-01-01T00:00:00.123999Z"), Some(123));
}

#[test]
fn timezone_offsets_apply() {
    assert_eq!(
        parse_rfc3339_ms("1970-01-01T01:00:00+01:00"),
        parse_rfc3339_ms("1970-01-01T00:00:00Z"),
    );
    assert_eq!(parse_rfc3339_ms("1970-01-01T00:00:00-05:00"), Some(5 * 3_600 * 1_000));
}

#[test]
fn separator_variants() {
    let z = parse_rfc3339_ms("2026-05-01T12:30:00Z");
    assert_eq!(parse_rfc3339_ms("2026-05-01t12:30:00Z"), z);
    assert_eq!(parse_rfc3339_ms("2026-05-01 12:30:00Z"), z);
}

#[test]
fn before_epoch_saturates_to_zero() {
    assert_eq!(parse_rfc3339_ms("1969-12-31T23:59:59Z"), Some(0));
}

#[test]
fn rejects_malformed() {
    assert_eq!(parse_rfc3339_ms("2026-05-01"), None);
    assert_eq!(parse_rfc3339_ms("2026-05-01T00:00:00"), None);
    assert_eq!(parse_rfc3339_ms("2026-13-01T00:00:00Z"), None);
    assert_eq!(parse_rfc3339_ms("2026-05-32T00:00:00Z"), None);
    assert_eq!(parse_rfc3339_ms("2026-05-01T24:00:00Z"), None);
    assert_eq!(parse_rfc3339_ms("2026-05-01T00:00:00.Z"), None);
    assert_eq!(parse_rfc3339_ms("2026-05-01T00:00:00Z "), None);
    assert_eq!(parse_rfc3339_ms("not-a-date-at-all!!"), None);
}

#[test]
fn strftime_and_civil_inverse() {
    let ms = 1_777_638_645_000;
    assert_eq!(strftime("%Y-%m-%d %H:%M:%S", ms), "2026-05-01 12:30:45");
    assert_eq!(strftime("%j", ms), "121");
    assert_eq!(strftime("100%% libre", 0), "100% libre");
    assert_eq!(ms_to_parts(0), (1970, 1, 1, 0, 0, 0));
    assert_eq!(civil_from_days(days_from_civil(2024, 2, 29)), (2024, 2, 29));
}

#[test]
fn an_instant_is_read_back_without_its_milliseconds() {
    let iso = |ms: i64| strftime("%Y-%m-%dT%H:%M:%SZ", ms);
    assert_eq!(iso(1_777_593_601_250), "2026-05-01T00:00:01Z");
    for ms in [0, 999, 1_777_593_601_250, 253_402_300_799_999] {
        assert_eq!(parse_rfc3339_ms(&iso(ms)), Some((ms - ms % 1000) as u64));
    }
    assert_eq!(iso(-62_167_219_200_000), "0000-01-01T00:00:00Z");
    assert_eq!(parse_rfc3339_ms(&iso(-62_167_219_200_000)), Some(0));
    assert_eq!(parse_rfc3339_ms(&iso(-1)), Some(0));
}
