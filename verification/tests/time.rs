use agent_sessions::json::JsonValue;
use agent_sessions::timestamp::{iso_to_millis, num_to_millis, parse_timestamp};

#[test]
fn timestamp_forms_agree() {
    // One instant in three renderings: an ISO-8601 string, a seconds float,
    // and a milliseconds integer all parse to the same epoch milliseconds.
    let from_iso = iso_to_millis("2021-01-01T00:00:00Z");
    let from_seconds = num_to_millis("1609459200.0");
    let from_millis = num_to_millis("1609459200000");
    assert_eq!(from_iso, Some(1609459200000));
    assert_eq!(from_seconds, from_iso);
    assert_eq!(from_millis, from_iso);
}

#[test]
fn timestamp_fractional_forms_agree() {
    let from_iso = iso_to_millis("2021-01-01T00:00:00.500Z");
    let from_seconds = num_to_millis("1609459200.5");
    let from_millis = num_to_millis("1609459200500");
    assert_eq!(from_iso, Some(1609459200500));
    assert_eq!(from_seconds, from_iso);
    assert_eq!(from_millis, from_iso);
}

#[test]
fn iso_offset_applied() {
    assert_eq!(
        iso_to_millis("2021-01-01T01:00:00+01:00"),
        iso_to_millis("2021-01-01T00:00:00Z")
    );
    assert_eq!(
        iso_to_millis("2020-12-31T23:00:00-01:00"),
        iso_to_millis("2021-01-01T00:00:00Z")
    );
}

#[test]
fn iso_without_offset_is_utc() {
    assert_eq!(iso_to_millis("2021-01-01T00:00:00"), Some(1609459200000));
}

#[test]
fn iso_leap_year_date() {
    // 2024-02-29 exists; 2023-02-29 does not.
    assert_eq!(iso_to_millis("2024-02-29T00:00:00Z"), Some(1709164800000));
    assert_eq!(iso_to_millis("2023-02-29T00:00:00Z"), None);
}

#[test]
fn iso_rejects_garbage() {
    assert_eq!(iso_to_millis("not a date"), None);
    assert_eq!(iso_to_millis("2021-13-01T00:00:00Z"), None);
    assert_eq!(iso_to_millis("2021-01-01T24:00:00Z"), None);
    assert_eq!(iso_to_millis("2021-01-01T00:00:00."), None);
    assert_eq!(iso_to_millis("1969-12-31T23:59:59Z"), None);
}

#[test]
fn integer_seconds_scaled_by_magnitude() {
    // Below 10^11 an integer is seconds; at or above, milliseconds.
    assert_eq!(num_to_millis("1609459200"), Some(1609459200000));
    assert_eq!(num_to_millis("100000000000"), Some(100000000000));
}

#[test]
fn numeric_garbage_rejected() {
    assert_eq!(num_to_millis(""), None);
    assert_eq!(num_to_millis("-5"), None);
    assert_eq!(num_to_millis("12a"), None);
    assert_eq!(num_to_millis("1."), None);
    assert_eq!(num_to_millis("1.5e3"), None);
}

#[test]
fn parse_timestamp_by_value_shape() {
    assert_eq!(
        parse_timestamp(&JsonValue::Str("2021-01-01T00:00:00Z".to_string())),
        Some(1609459200000)
    );
    assert_eq!(
        parse_timestamp(&JsonValue::Num("1609459200.5".to_string())),
        Some(1609459200500)
    );
    assert_eq!(parse_timestamp(&JsonValue::Bool(true)), None);
    assert_eq!(parse_timestamp(&JsonValue::Null), None);
}

#[test]
fn loader_timestamp_unparseable_is_none() {
    let ls = vec![
        r#"{"message":{"role":"user","content":"x"},"timestamp":"someday"}"#.to_string(),
        r#"{"message":{"role":"user","content":"y"},"timestamp":"2024-01-02T03:04:05.678Z"}"#
            .to_string(),
    ];
    let msgs = agent_sessions::scribe::load_messages(&ls);
    assert_eq!(msgs.len(), 2);
    assert_eq!(msgs[0].ts, None);
    assert_eq!(msgs[1].ts, iso_to_millis("2024-01-02T03:04:05.678Z"));
    assert!(msgs[1].ts.is_some());
}
