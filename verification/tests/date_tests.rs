use radio_sync::date::Date;
use radio_sync::fetch::archive_url;

#[test]
fn parses_a_plain_date() {
    let d = Date::from_str("2024-09-01").unwrap();
    assert_eq!(d, Date { year: 2024, month: 9, day: 1 });
}

#[test]
fn round_trips_padded_dates() {
    for s in ["2024-09-01", "0001-01-01", "1999-12-31", "0000-00-00"] {
        let d = Date::from_str(s).unwrap();
        assert_eq!(d.render(), s.to_string());
    }
}

#[test]
fn accepts_unpadded_segments() {
    let d = Date::from_str("24-9-1").unwrap();
    assert_eq!(d, Date { year: 24, month: 9, day: 1 });
    assert_eq!(d.render(), "0024-09-01".to_string());
}

#[test]
fn accepts_leading_plus_as_an_integer_parse_does() {
    let d = Date::from_str("+2024-09-01").unwrap();
    assert_eq!(d, Date { year: 2024, month: 9, day: 1 });
}

#[test]
fn rejects_wrong_segment_counts() {
    assert_eq!(Date::from_str(""), None);
    assert_eq!(Date::from_str("2024"), None);
    assert_eq!(Date::from_str("2024-09"), None);
    assert_eq!(Date::from_str("2024-09-01-05"), None);
    assert_eq!(Date::from_str("-2024-09-01"), None);
    assert_eq!(Date::from_str("--"), None);
}

#[test]
fn rejects_non_numeric_segments() {
    assert_eq!(Date::from_str("abcd-09-01"), None);
    assert_eq!(Date::from_str("2024-9a-01"), None);
    assert_eq!(Date::from_str("2024--01"), None);
    assert_eq!(Date::from_str("2024-09- 1"), None);
}

#[test]
fn rejects_overflowing_segments() {
    assert_eq!(Date::from_str("99999999999-01-01"), None);
    assert_eq!(Date::from_str("2024-4294967296-01"), None);
    assert_eq!(Date::from_str("2024-01-4294967295").unwrap().day, 4294967295);
}

#[test]
fn calendar_invalid_date_passes_structurally() {
    let d = Date::from_str("2024-02-30").unwrap();
    assert_eq!(d, Date { year: 2024, month: 2, day: 30 });
    assert_eq!(d.render(), "2024-02-30".to_string());
    assert_eq!(
        archive_url(&d),
        "https://api.rozhlas.cz/data/v2/playlist/day/2024/02/30/radiowave.json".to_string()
    );
}

#[test]
fn renders_wide_and_negative_values_by_minimum_width() {
    let d = Date { year: -5, month: 2, day: 3 };
    assert_eq!(d.render(), "-005-02-03".to_string());
    let d = Date { year: 123456, month: 13, day: 35 };
    assert_eq!(d.render(), "123456-13-35".to_string());
    let d = Date { year: i32::MIN, month: 0, day: 0 };
    assert_eq!(d.render(), "-2147483648-00-00".to_string());
}

#[test]
fn builds_the_archive_url() {
    let d = Date::from_str("2024-09-01").unwrap();
    assert_eq!(
        archive_url(&d),
        "https://api.rozhlas.cz/data/v2/playlist/day/2024/09/01/radiowave.json".to_string()
    );
}
