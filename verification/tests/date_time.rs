use gitgpui_view::date_time::{format_datetime_utc, DateTimeFormat};

#[test]
fn formats_epoch_in_every_format() {
    assert_eq!(format_datetime_utc(0, DateTimeFormat::YmdHm), "1970-01-01 00:00");
    assert_eq!(format_datetime_utc(0, DateTimeFormat::YmdHms), "1970-01-01 00:00:00");
    assert_eq!(format_datetime_utc(0, DateTimeFormat::DmyHm), "01.01.1970 00:00");
    assert_eq!(format_datetime_utc(0, DateTimeFormat::MdyHm), "01/01/1970 00:00");
}

#[test]
fn formats_recent_timestamp() {
    assert_eq!(
        format_datetime_utc(1725029869, DateTimeFormat::YmdHms),
        "2024-08-30 14:57:49"
    );
    assert_eq!(format_datetime_utc(1725029869, DateTimeFormat::MdyHm), "08/30/2024 14:57");
}

#[test]
fn formats_leap_days_and_century_years() {
    assert_eq!(format_datetime_utc(951782400, DateTimeFormat::YmdHm), "2000-02-29 00:00");
    assert_eq!(format_datetime_utc(4102444800, DateTimeFormat::YmdHm), "2100-01-01 00:00");
}

#[test]
fn formats_times_before_the_epoch() {
    assert_eq!(format_datetime_utc(-1, DateTimeFormat::YmdHms), "1969-12-31 23:59:59");
    assert_eq!(format_datetime_utc(-62167219200, DateTimeFormat::YmdHm), "0000-01-01 00:00");
    assert_eq!(format_datetime_utc(-62196595200, DateTimeFormat::YmdHm), "-001-01-26 00:00");
    assert_eq!(format_datetime_utc(-69120000000, DateTimeFormat::DmyHm), "04.09.-221 00:00");
}

#[test]
fn format_keys_round_trip() {
    for f in DateTimeFormat::all() {
        assert_eq!(DateTimeFormat::from_key(f.key()), Some(f));
    }
    assert_eq!(DateTimeFormat::from_key("nope"), None);
    assert_eq!(DateTimeFormat::all().len(), 4);
    assert_eq!(DateTimeFormat::YmdHms.label(), "YYYY-MM-DD HH:MM:SS (UTC)");
}

#[test]
fn seconds_are_negative_before_the_epoch() {
    assert_eq!(gitgpui_view::date_time::unix_seconds_from(true, 86_400), 86_400);
    assert_eq!(gitgpui_view::date_time::unix_seconds_from(false, 60), -60);
    assert_eq!(gitgpui_view::date_time::unix_seconds_from(false, 0), 0);
}
