use terra::capture::{
    choose_capture_date, exif_date_from_entries, extract_exif_date, parse_exif_datetime, parse_filename_date,
    resolve_capture_date, DATE_TIME_ORIGINAL_TAG, DATE_TIME_TAG,
};

fn tiff_with_date(text: &str) -> Vec<u8> {
    let mut b: Vec<u8> = vec![b'I', b'I', 42, 0, 8, 0, 0, 0];
    b.extend_from_slice(&[1, 0]);
    b.extend_from_slice(&[0x32, 0x01, 2, 0, 20, 0, 0, 0, 26, 0, 0, 0]);
    b.extend_from_slice(&[0, 0, 0, 0]);
    b.extend_from_slice(text.as_bytes());
    b.push(0);
    b
}

#[test]
fn exif_text_parses_to_utc_seconds() {
    assert_eq!(parse_exif_datetime("2023:01:15 14:30:45"), Some(1673793045));
}

#[test]
fn exif_text_with_nul_padding_parses() {
    assert_eq!(parse_exif_datetime("2023:01:15 14:30:45\0\0"), Some(1673793045));
    assert_eq!(parse_exif_datetime("  2023:01:15 14:30:45 \0"), Some(1673793045));
}

#[test]
fn malformed_exif_text_is_absent() {
    assert_eq!(parse_exif_datetime("2023-01-15T14:30:45"), None);
    assert_eq!(parse_exif_datetime("2023:01:15"), None);
    assert_eq!(parse_exif_datetime("2023:01:15  14:30:45"), None);
    assert_eq!(parse_exif_datetime(""), None);
    assert_eq!(parse_exif_datetime("    :  :     :  :  "), None);
}

#[test]
fn exif_text_must_be_colon_delimited_with_fixed_widths() {
    assert_eq!(parse_exif_datetime("2023-01-15 14:30:45"), None);
    assert_eq!(parse_exif_datetime("2023:01:15 14-30-45"), None);
    assert_eq!(parse_exif_datetime("2023:1:15 14:30:45"), None);
    assert_eq!(parse_exif_datetime("2023:01:15 4:30:45"), None);
    assert_eq!(parse_exif_datetime("123:01:15 14:30:45"), None);
    assert_eq!(parse_exif_datetime("02023:01:15 14:30:45"), None);
}

#[test]
fn impossible_exif_date_is_absent() {
    assert_eq!(parse_exif_datetime("2023:02:30 00:00:00"), None);
    assert_eq!(parse_exif_datetime("2023:01:15 24:00:00"), None);
}

#[test]
fn filename_date_with_time_of_day() {
    assert_eq!(parse_filename_date("2017-11-26_030858.jpeg"), Some(1511665738));
}

#[test]
fn filename_date_without_time_is_midnight() {
    assert_eq!(parse_filename_date("IMG_2017_11_26.jpg"), Some(1511654400));
}

#[test]
fn filename_date_out_of_plausible_range_is_absent() {
    assert_eq!(parse_filename_date("1969-12-31.jpg"), None);
    assert_eq!(parse_filename_date("2017-13-01.jpg"), None);
    assert_eq!(parse_filename_date("2017-02-30.jpg"), None);
    assert_eq!(parse_filename_date("holiday.jpg"), None);
}

#[test]
fn recording_date_tag_wins_over_modified_tag() {
    let entries = vec![
        (DATE_TIME_TAG, Some("2020:01:01 00:00:00".to_string())),
        (DATE_TIME_ORIGINAL_TAG, Some("2019:05:05 10:00:00".to_string())),
    ];
    assert_eq!(exif_date_from_entries(&entries), Some(1557050400));
}

#[test]
fn modified_tag_used_when_recording_date_is_malformed() {
    let entries = vec![
        (DATE_TIME_ORIGINAL_TAG, Some("garbage".to_string())),
        (0x010f, Some("Camera".to_string())),
        (DATE_TIME_TAG, Some("2020:01:01 00:00:00".to_string())),
    ];
    assert_eq!(exif_date_from_entries(&entries), Some(1577836800));
    assert_eq!(exif_date_from_entries(&vec![(DATE_TIME_TAG, None)]), None);
}

#[test]
fn embedded_date_read_from_tiff_bytes() {
    let bytes = tiff_with_date("2021:06:01 12:00:00");
    assert_eq!(extract_exif_date(&bytes), Some(1622548800));
    assert_eq!(extract_exif_date(&[1, 2, 3]), None);
}

#[test]
fn fallback_chain_takes_first_available() {
    assert_eq!(choose_capture_date(Some(1), Some(2), Some(3), 4), 1);
    assert_eq!(choose_capture_date(None, Some(2), Some(3), 4), 2);
    assert_eq!(choose_capture_date(None, None, Some(3), 4), 3);
    assert_eq!(choose_capture_date(None, None, None, 4), 4);
}

#[test]
fn embedded_date_beats_name_and_modification_time() {
    let bytes = tiff_with_date("2021:06:01 12:00:00");
    assert_eq!(resolve_capture_date(&bytes, "2017-11-26_030858.jpeg", Some(100), 200), 1622548800);
}

#[test]
fn name_date_used_without_embedded_date() {
    assert_eq!(resolve_capture_date(&[], "2017-11-26_030858.jpeg", Some(100), 200), 1511665738);
}

#[test]
fn modification_time_then_clock_used_last() {
    assert_eq!(resolve_capture_date(&[], "beach.jpg", Some(100), 200), 100);
    assert_eq!(resolve_capture_date(&[], "beach.jpg", None, 200), 200);
}
