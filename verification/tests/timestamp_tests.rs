use photosort::timestamp::{destination_for, ExifTime};

fn stamp(year: u16, month: u8, day: u8, hour: u8, minute: u8, second: u8) -> ExifTime {
    ExifTime { year, month, day, hour, minute, second }
}

#[test]
fn parses_a_well_formed_stamp() {
    let t = ExifTime::parse("2021:05:01 14:30:05").expect("well-formed");
    assert_eq!(t, stamp(2021, 5, 1, 14, 30, 5));
}

#[test]
fn scenario_live_photo_destination() {
    let t = ExifTime::parse("2021:05:01 14:30:05").expect("well-formed");
    let dest = destination_for("/sorted", &t, "HEIC");
    assert_eq!(dest.as_str(), "/sorted/2021/05/01/2021-05-01_14.30.05.HEIC");
}

#[test]
fn base_name_is_zero_padded() {
    let t = stamp(2021, 5, 1, 4, 3, 5);
    assert_eq!(t.file_base_name().as_str(), "2021-05-01_04.03.05");
}

#[test]
fn relative_path_is_zero_padded() {
    let t = stamp(2021, 12, 9, 0, 0, 0);
    assert_eq!(t.relative_path().as_str(), "2021/12/09");
}

#[test]
fn wide_fields_keep_their_digits() {
    let t = stamp(999, 11, 28, 23, 59, 58);
    assert_eq!(t.file_base_name().as_str(), "999-11-28_23.59.58");
    assert_eq!(t.relative_path().as_str(), "999/11/28");
}

#[test]
fn parse_accepts_single_digit_components() {
    let t = ExifTime::parse("2021:5:1 4:3:5").expect("well-formed");
    assert_eq!(t, stamp(2021, 5, 1, 4, 3, 5));
    assert_eq!(t.file_base_name().as_str(), "2021-05-01_04.03.05");
}

#[test]
fn parse_keeps_out_of_calendar_components() {
    // components are kept as parsed; calendar validity is not checked
    let t = ExifTime::parse("2021:13:40 25:61:61").expect("well-formed");
    assert_eq!(t, stamp(2021, 13, 40, 25, 61, 61));
}

#[test]
fn parse_rejects_missing_space() {
    assert!(ExifTime::parse("2021:05:01").is_none());
}

#[test]
fn parse_rejects_extra_half() {
    assert!(ExifTime::parse("2021:05:01 14:30:05 junk").is_none());
}

#[test]
fn parse_rejects_short_date() {
    assert!(ExifTime::parse("2021:05 14:30:05").is_none());
}

#[test]
fn parse_rejects_long_time() {
    assert!(ExifTime::parse("2021:05:01 14:30:05:99").is_none());
}

#[test]
fn parse_rejects_non_digit_component() {
    assert!(ExifTime::parse("2021:0a:01 14:30:05").is_none());
}

#[test]
fn parse_rejects_empty_component() {
    assert!(ExifTime::parse("2021::01 14:30:05").is_none());
}

#[test]
fn parse_rejects_overflowing_year() {
    assert!(ExifTime::parse("70000:01:01 14:30:05").is_none());
}

#[test]
fn parse_rejects_overflowing_month() {
    assert!(ExifTime::parse("2021:300:01 14:30:05").is_none());
}

#[test]
fn parse_rejects_empty_string() {
    assert!(ExifTime::parse("").is_none());
}

#[test]
fn destination_preserves_extension() {
    let t = stamp(2021, 5, 1, 14, 30, 5);
    let dest = destination_for("/sorted", &t, "AAE");
    assert_eq!(dest.as_str(), "/sorted/2021/05/01/2021-05-01_14.30.05.AAE");
}
