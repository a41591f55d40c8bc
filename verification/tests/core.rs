use qxevent::datetime::QxDateTime;
use qxevent::codec::{decode_event_data, encode_event_data, EventData};
use qxevent::text::parse_i64;
use qxevent::token::generate_api_token;

fn dt(y: u16, mo: u8, d: u8, h: u8, mi: u8, s: u8, ms: u16, off: i16) -> QxDateTime {
    QxDateTime::new(y, mo, d, h, mi, s, ms, off).expect("valid date")
}

#[test]
fn test_parse_i64_accepts_plain_numbers() {
    assert_eq!(parse_i64("123"), Some(123));
    assert_eq!(parse_i64("0"), Some(0));
    assert_eq!(parse_i64("-5"), Some(-5));
    assert_eq!(parse_i64("+7"), Some(7));
    assert_eq!(parse_i64("007"), Some(7));
    assert_eq!(parse_i64("9223372036854775807"), Some(i64::MAX));
    assert_eq!(parse_i64("-9223372036854775808"), Some(i64::MIN));
}

#[test]
fn test_parse_i64_rejects_other_shapes() {
    assert_eq!(parse_i64(""), None);
    assert_eq!(parse_i64("-"), None);
    assert_eq!(parse_i64("12a"), None);
    assert_eq!(parse_i64("1 "), None);
    assert_eq!(parse_i64("9223372036854775808"), None);
    assert_eq!(parse_i64("-9223372036854775809"), None);
    assert_eq!(parse_i64("1.5"), None);
}

#[test]
fn test_rfc3339_exact_rendering() {
    let t = dt(1970, 1, 1, 0, 0, 0, 0, 0);
    assert_eq!(qxevent::datetime::to_rfc3339(&t), "1970-01-01T00:00:00.000+00:00");
    let t = dt(2026, 10, 12, 9, 5, 59, 7, 0);
    assert_eq!(qxevent::datetime::to_rfc3339(&t), "2026-10-12T09:05:59.007+00:00");
    let t = dt(999, 12, 31, 23, 59, 59, 999, -90);
    assert_eq!(qxevent::datetime::to_rfc3339(&t), "0999-12-31T23:59:59.999-01:30");
    let t = dt(2000, 2, 29, 1, 2, 3, 40, 330);
    assert_eq!(qxevent::datetime::to_rfc3339(&t), "2000-02-29T01:02:03.040+05:30");
}

use chrono::TimeZone;

#[test]
fn test_rfc3339_matches_chrono() {
    let t = dt(2024, 3, 9, 17, 30, 5, 250, 0);
    let c = chrono::Utc
        .with_ymd_and_hms(2024, 3, 9, 17, 30, 5)
        .unwrap()
        .checked_add_signed(chrono::Duration::milliseconds(250))
        .unwrap();
    assert_eq!(
        qxevent::datetime::to_rfc3339(&t),
        c.to_rfc3339_opts(chrono::SecondsFormat::Millis, false)
    );
}

#[test]
fn test_datetime_rejects_impossible_dates() {
    assert!(QxDateTime::new(2023, 2, 29, 0, 0, 0, 0, 0).is_none());
    assert!(QxDateTime::new(2024, 2, 29, 0, 0, 0, 0, 0).is_some());
    assert!(QxDateTime::new(2024, 13, 1, 0, 0, 0, 0, 0).is_none());
    assert!(QxDateTime::new(2024, 4, 31, 0, 0, 0, 0, 0).is_none());
    assert!(QxDateTime::new(2024, 1, 1, 24, 0, 0, 0, 0).is_none());
    assert!(QxDateTime::new(2024, 1, 1, 0, 0, 0, 0, 24 * 60).is_none());
}

#[test]
fn test_blob_codec_round_trip() {
    let e = EventData {
        name: "Spring Cup | 1:st".to_string(),
        date: dt(2025, 5, 17, 8, 0, 0, 0, 120),
        owner: "alice".to_string(),
        api_token: "bacedifogu".to_string(),
        is_local: true,
    };
    let blob = encode_event_data(&e);
    let d = decode_event_data(&blob).expect("round trip");
    assert_eq!(d.name, e.name);
    assert_eq!(d.date, e.date);
    assert_eq!(d.owner, e.owner);
    assert_eq!(d.api_token, e.api_token);
    assert_eq!(d.is_local, e.is_local);
}

#[test]
fn test_blob_codec_round_trip_remote_empty_fields() {
    let e = EventData {
        name: String::new(),
        date: dt(1999, 1, 2, 3, 4, 5, 6, -7),
        owner: "|:|,|".to_string(),
        api_token: String::new(),
        is_local: false,
    };
    let blob = encode_event_data(&e);
    let d = decode_event_data(&blob).expect("round trip");
    assert_eq!(d.name, e.name);
    assert_eq!(d.owner, e.owner);
    assert_eq!(d.api_token, e.api_token);
    assert!(!d.is_local);
}

#[test]
fn test_blob_codec_rejects_garbage() {
    assert!(decode_event_data("").is_none());
    assert!(decode_event_data("not a blob").is_none());
    assert!(decode_event_data("qxev1|").is_none());
    assert!(decode_event_data("qxev1|5:alice").is_none());
}

#[test]
fn test_api_token_shape() {
    const CONSONANTS: &str = "bcdfghjklmnpqrstvwxz";
    const VOWELS: &str = "aeiouy";
    for _ in 0..20 {
        let t = generate_api_token();
        assert_eq!(t.chars().count(), 10);
        for (n, c) in t.chars().enumerate() {
            if n % 2 == 0 {
                assert!(CONSONANTS.contains(c), "position {} of {}", n, t);
            } else {
                assert!(VOWELS.contains(c), "position {} of {}", n, t);
            }
        }
    }
}
