use betcode_daemon::timestamp::{parse_rfc3339_seconds, parse_timestamp};

#[test]
fn parse_timestamp_iso8601_z() {
    let ts = parse_timestamp("2026-01-15T10:30:00Z").unwrap();
    assert!(ts.seconds > 0);
    assert_eq!(ts.nanos, 0);
}

#[test]
fn parse_timestamp_with_fractional() {
    let ts = parse_timestamp("2026-01-15T10:30:00.123Z").unwrap();
    assert!(ts.seconds > 0);
}

#[test]
fn parse_timestamp_invalid_returns_none() {
    assert!(parse_timestamp("not-a-date").is_none());
    assert!(parse_timestamp("").is_none());
}

// Own tests.

#[test]
fn rfc3339_exact_seconds() {
    assert_eq!(parse_rfc3339_seconds("1970-01-01T00:00:00Z"), Some(0));
    assert_eq!(parse_rfc3339_seconds("2026-01-15T10:30:00Z"), Some(1_768_473_000));
    assert_eq!(parse_rfc3339_seconds("2000-03-01T00:00:00Z"), Some(951_868_800));
    // Leap day of a leap year.
    assert_eq!(parse_rfc3339_seconds("2024-02-29T12:00:00Z"), Some(1_709_208_000));
}

#[test]
fn rfc3339_applies_offset_ignores_fraction_and_whitespace() {
    assert_eq!(parse_rfc3339_seconds("  2026-01-15T10:30:00+02:00 "), Some(1_768_465_800));
    assert_eq!(parse_rfc3339_seconds("2026-01-15T10:30:00.999-05:00"), Some(1_768_491_000));
    assert_eq!(parse_rfc3339_seconds("2026-01-15T10:30:00+00:00"), Some(1_768_473_000));
    assert_eq!(parse_rfc3339_seconds("2026-01-15T10:30:00+0200"), Some(1_768_473_000));
    assert_eq!(parse_rfc3339_seconds("2026-01-15T10:30:00+02"), Some(1_768_473_000));
}

#[test]
fn rfc3339_missing_fields_give_none() {
    assert_eq!(parse_rfc3339_seconds("2026-01T10:30:00Z"), None);
    assert_eq!(parse_rfc3339_seconds("2026-01-15T10:30Z"), None);
    assert_eq!(parse_rfc3339_seconds("2026-01-15 10:30:00"), None);
    assert_eq!(parse_rfc3339_seconds("2026-0x-15T10:30:00Z"), None);
}

#[test]
fn timestamp_fits_tells_which_readings_overflow() {
    assert!(betcode_daemon::timestamp::timestamp_fits("2024-01-15T10:30:00Z"));
    assert!(betcode_daemon::timestamp::timestamp_fits("not a timestamp"));
    assert!(!betcode_daemon::timestamp::timestamp_fits("2024-00-15T10:30:00Z"));
    assert!(!betcode_daemon::timestamp::timestamp_fits("2024-01-15T9223372036854775807:00:00Z"));
}
