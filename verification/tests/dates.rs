use storage_cli::calendar::civil_from_days;
use storage_cli::commands::upload::{compute_expiry_string, format_utc_date, is_rfc3339_time, is_valid_date};
use storage_cli::config::format_utc;
use storage_cli::error::ErrorCode;

#[test]
fn test_date_validation() {
    assert!(is_valid_date("2026-06-01"));
    assert!(is_valid_date("2030-12-31"));
    assert!(!is_valid_date("2026/06/01"));
    assert!(!is_valid_date("invalid"));
    assert!(!is_valid_date("2026-6-1"));
}

#[test]
fn test_format_utc_date() {
    assert_eq!(format_utc_date(0), "1970-01-01");
    assert_eq!(format_utc_date(1_790_000_000), "2026-09-21");
}

#[test]
fn formats_utc() {
    assert_eq!(format_utc(0), "1970-01-01T00:00:00Z");
    assert_eq!(format_utc(1_790_000_000), "2026-09-21T14:13:20Z");
}

#[test]
fn date_shape_ignores_calendar_values() {
    assert!(is_valid_date("2026-13-45"));
    assert!(!is_valid_date("2026-06-0a"));
    assert!(!is_valid_date("２026-06-01"));
    assert!(!is_valid_date("2026-06-011"));
}

#[test]
fn civil_dates_around_leap_days() {
    assert_eq!(civil_from_days(0), (1970, 1, 1));
    assert_eq!(civil_from_days(-1), (1969, 12, 31));
    assert_eq!(civil_from_days(11016), (2000, 2, 29));
    assert_eq!(civil_from_days(11017), (2000, 3, 1));
    assert_eq!(civil_from_days(-25508), (1900, 3, 1));
    assert_eq!(civil_from_days(-25509), (1900, 2, 28));
    assert_eq!(civil_from_days(-719528), (0, 1, 1));
    assert_eq!(civil_from_days(2932896), (9999, 12, 31));
}

#[test]
fn formats_before_the_epoch_and_far_years() {
    assert_eq!(format_utc(-1), "1969-12-31T23:59:59Z");
    assert_eq!(format_utc(951_782_400), "2000-02-29T00:00:00Z");
    assert_eq!(format_utc_date(-62_167_219_200 - 86_400), "-001-12-31");
    assert_eq!(format_utc_date(253_402_300_800), "10000-01-01");
    assert_eq!(format_utc_date(i64::MIN).len() > 10, true);
    assert_eq!(format_utc(i64::MAX), "292277026596-12-04T15:30:07Z");
}

#[test]
fn expiry_from_date_hours_or_default() {
    assert_eq!(compute_expiry_string(Some("2026-12-31"), None, 0).unwrap(), "2026-12-31");
    let err = compute_expiry_string(Some("31-12-2026"), None, 0).unwrap_err();
    assert_eq!(err.code, ErrorCode::InvalidInput);
    assert_eq!(err.message, "Invalid date format: 31-12-2026. Use YYYY-MM-DD.");
    assert_eq!(compute_expiry_string(None, Some(48), 1_790_000_000).unwrap(), "2026-09-23");
    assert_eq!(compute_expiry_string(None, None, 1_790_000_000).unwrap(), "2026-10-21");
    assert_eq!(compute_expiry_string(None, Some(u64::MAX), 3600).unwrap(), "1970-01-01");
    // The computed date is accepted back as an explicit expiry date.
    let d = compute_expiry_string(None, None, 1_790_000_000).unwrap();
    assert!(is_valid_date(&d));
}

#[test]
fn rfc3339_expiry_times_pass_through() {
    assert!(is_rfc3339_time("2026-12-31T00:00:00Z"));
    assert!(is_rfc3339_time("2026-12-31t23:59:59z"));
    assert!(is_rfc3339_time("2026-12-31T23:59:59.123456+02:00"));
    assert!(is_rfc3339_time("2026-12-31T23:59:59-05:30"));
    assert!(!is_rfc3339_time("2026-12-31T23:59:59"));
    assert!(!is_rfc3339_time("2026-12-31 23:59:59Z"));
    assert!(!is_rfc3339_time("2026-12-31T23:59Z"));
    assert!(!is_rfc3339_time("2026-12-31T23:59:59.Z"));
    assert!(!is_rfc3339_time("2026-12-31T23:59:59+0200"));
    assert!(!is_rfc3339_time("2026-12-31"));
    assert_eq!(compute_expiry_string(Some("2026-12-31T00:00:00Z"), None, 0).unwrap(), "2026-12-31T00:00:00Z");
    assert_eq!(
        compute_expiry_string(Some("2026-12-31T08:00:00.5+01:00"), Some(3), 0).unwrap(),
        "2026-12-31T08:00:00.5+01:00"
    );
    let err = compute_expiry_string(Some("2026-12-31T00:00"), None, 0).unwrap_err();
    assert_eq!(err.code, ErrorCode::InvalidInput);
}

#[test]
fn expiry_dates_at_the_edges_of_four_digit_years() {
    assert_eq!(format_utc_date(253_402_300_799), "9999-12-31");
    assert!(is_valid_date(&format_utc_date(253_402_300_799)));
    assert_eq!(format_utc_date(-62_167_219_200), "0000-01-01");
    assert!(is_valid_date(&format_utc_date(-62_167_219_200)));
    assert_eq!(format_utc_date(-1), "1969-12-31");
    let s: i64 = 1_790_000_000;
    assert_eq!(format_utc_date(s), format_utc_date(86_400 * s.div_euclid(86_400)));
}

#[test]
fn timestamps_sort_in_time_order() {
    let seconds: [i64; 9] = [
        -62_167_219_200,
        -1,
        0,
        59,
        3_599,
        86_399,
        951_782_400,
        1_790_000_000,
        253_402_300_799,
    ];
    for w in seconds.windows(2) {
        let (a, b) = (format_utc(w[0]), format_utc(w[1]));
        assert_eq!(a.len(), 20);
        assert_eq!(b.len(), 20);
        assert!(a < b, "{a} < {b}");
    }
    assert_eq!(format_utc(-62_167_219_200), "0000-01-01T00:00:00Z");
    assert_eq!(format_utc(253_402_300_799), "9999-12-31T23:59:59Z");
}
