use archive_index::calendar::{format_duration, Timestamp};
use archive_index::report::{has_comment, needs_save};
use archive_index::text::prefix_number;

#[test]
fn prefix_number_pads_to_width() {
    assert_eq!(prefix_number(5, 2), "005");
    assert_eq!(prefix_number(0, 0), "0");
    assert_eq!(prefix_number(7, 1), "07");
}

#[test]
fn prefix_number_never_truncates() {
    let s = prefix_number(1234, 1);
    assert_eq!(s, "1234");
    assert_eq!(s.parse::<u32>().unwrap(), 1234);
    let s = prefix_number(42, 5);
    assert_eq!(s.len(), 6);
    assert_eq!(s.parse::<u32>().unwrap(), 42);
    assert_eq!(prefix_number(u32::MAX, 0), "4294967295");
}

#[test]
fn duration_formatting() {
    assert_eq!(format_duration(3661), "1:01:01");
    assert_eq!(format_duration(90061), "1 day, 1:01:01");
    assert_eq!(format_duration(0), "0:00:00");
    assert_eq!(format_duration(2 * 86400 + 59), "2 days, 0:00:59");
}

#[test]
fn timestamp_validation() {
    assert!(Timestamp::new(2021, 2, 29, 0, 0).is_none());
    assert!(Timestamp::new(2020, 2, 29, 0, 0).is_some());
    assert!(Timestamp::new(2021, 4, 31, 0, 0).is_none());
    assert!(Timestamp::new(2021, 4, 30, 24, 0).is_none());
    assert!(Timestamp::new(2021, 4, 30, 23, 60).is_none());
    assert!(Timestamp::new(2021, 13, 1, 0, 0).is_none());
}

#[test]
fn timestamp_epoch_and_format() {
    let t = Timestamp::new(1970, 1, 1, 0, 0).unwrap();
    assert_eq!(t.epoch_secs(), 0);
    let t = Timestamp::new(2021, 3, 4, 12, 34).unwrap();
    assert_eq!(t.epoch_secs(), 1614861240);
    assert_eq!(t.format(), "12:34, 4 March 2021");
    let t = Timestamp::new(1900, 1, 1, 5, 7).unwrap();
    assert_eq!(t.epoch_secs(), -2208988800 + 5 * 3600 + 7 * 60);
    assert_eq!(t.format(), "05:07, 1 January 1900");
}

#[test]
fn safety_marker_detection() {
    let comments = vec![" other ".to_string(), " HBC Archive Indexerbot can blank this ".to_string()];
    assert!(has_comment(&comments));
    assert!(has_comment(&vec!["Legobot can blank this".to_string()]));
    assert!(!has_comment(&vec!["legobot can blank this".to_string()]));
    assert!(!has_comment(&vec![]));
}

#[test]
fn unchanged_text_is_not_saved() {
    assert!(!needs_save("  report\n", "report"));
    assert!(needs_save("report", "report 2"));
}
