use archive_index::error::IndexError;
use archive_index::mask::{Cursor, Expansion, Mask};
use archive_index::parser::parse_mask;
use archive_index::report::prepare_threads;
use archive_index::thread::{extract_threads, Document, Heading, Section};

fn section(level: u32, topic: &str, anchor: &str, text: &str) -> Section {
    Section {
        heading: Some(Heading { level, text: topic.to_string(), anchor: anchor.to_string() }),
        text: text.to_string(),
    }
}

fn page(title: &str, sections: Vec<Section>) -> Document {
    Document { title: title.to_string(), sections }
}

#[test]
fn extraction_takes_extremes_in_any_order() {
    let doc = page(
        "Talk:X",
        vec![
            Section { heading: None, text: "12:00, 1 January 2020 (UTC)".to_string() },
            section(
                2,
                "Topic",
                "Some_topic",
                "b 10:00, 2 March 2021 (UTC) a 09:15, 1 March 2021 (UTC) c 11:30:45, 3 March 2021",
            ),
        ],
    );
    let threads = extract_threads(&doc);
    assert_eq!(threads.len(), 1);
    let t = &threads[0];
    assert_eq!(t.topic, "Topic");
    assert_eq!(t.replies, 3);
    assert_eq!(t.link, "[[Talk:X#Some topic]]");
    assert_eq!(t.first(), "09:15, 1 March 2021");
    assert_eq!(t.last(), "11:30, 3 March 2021");
    assert_eq!(t.duration_secs(), 2 * 86400 + 2 * 3600 + 15 * 60);
    assert_eq!(t.duration(), "2 days, 2:15:00");
}

#[test]
fn extraction_skips_bad_timestamps_and_sections() {
    let doc = page(
        "Talk:X",
        vec![
            section(2, "Bad only", "Bad", "25:00, 1 March 2021 and 12:00, 30 February 2021"),
            section(3, "Nested", "Nested", "12:00, 1 March 2021"),
            section(2, "Mixed", "Mixed", "25:00, 1 March 2021 then 08:05, 29 February 2020"),
        ],
    );
    let threads = extract_threads(&doc);
    assert_eq!(threads.len(), 1);
    assert_eq!(threads[0].topic, "Mixed");
    assert_eq!(threads[0].replies, 1);
    assert_eq!(threads[0].first(), "08:05, 29 February 2020");
    assert_eq!(threads[0].first_epoch(), threads[0].last_epoch());
}

#[test]
fn numerical_expansion_stops_at_first_missing_page() {
    let mask = parse_mask("/Archive <#>", "Talk:X", &vec![]).unwrap();
    let mut e = Expansion::new(&mask).unwrap();
    let pages = vec![
        page("Talk:X/Archive 1", vec![section(2, "One", "One", "12:00, 5 May 2020")]),
        page(
            "Talk:X/Archive 2",
            vec![
                section(2, "Two", "Two", "12:00, 1 May 2020"),
                section(2, "Three", "Three", "12:00, 3 May 2020"),
            ],
        ),
    ];
    let mut asked = vec![];
    while let Some(title) = e.next_title() {
        asked.push(title.clone());
        let found = pages.iter().find(|p| p.title == title);
        e.feed(found);
    }
    assert_eq!(asked, vec!["Talk:X/Archive 1", "Talk:X/Archive 2", "Talk:X/Archive 3"]);
    assert!(e.is_finished());
    let threads = e.into_threads();
    let topics: Vec<&str> = threads.iter().map(|t| t.topic.as_str()).collect();
    assert_eq!(topics, vec!["One", "Two", "Three"]);
    let sorted = prepare_threads(threads).unwrap();
    let topics: Vec<&str> = sorted.iter().map(|t| t.topic.as_str()).collect();
    assert_eq!(topics, vec!["Two", "Three", "One"]);
}

#[test]
fn numerical_titles_are_zero_padded() {
    let mask = Mask::Numerical { mask: "A/<#>".to_string(), leading_zeros: 2 };
    let mut e = Expansion::new(&mask).unwrap();
    assert_eq!(e.next_title().unwrap(), "A/001");
    e.feed(Some(&page("A/001", vec![])));
    assert_eq!(e.next_title().unwrap(), "A/002");
    e.feed(None);
    assert!(e.next_title().is_none());
}

#[test]
fn monthly_expansion_rolls_over_the_year() {
    let mask = Mask::Monthly {
        mask: "Talk:X/Archive <month> <year>".to_string(),
        first_archive: "Talk:X/Archive November 2020".to_string(),
    };
    let mut e = Expansion::new(&mask).unwrap();
    assert!(matches!(e.cursor, Cursor::Monthly { month: 11, year: 2020 }));
    let mut asked = vec![];
    for _ in 0..3 {
        let title = e.next_title().unwrap();
        e.feed(Some(&page(&title, vec![])));
        asked.push(title);
    }
    assert_eq!(
        asked,
        vec!["Talk:X/Archive November 2020", "Talk:X/Archive December 2020", "Talk:X/Archive January 2021"]
    );
}

#[test]
fn yearly_expansion_counts_years() {
    let mask = Mask::Yearly {
        mask: "Talk:X/<year>".to_string(),
        first_archive: "Talk:X/2019".to_string(),
    };
    let mut e = Expansion::new(&mask).unwrap();
    assert_eq!(e.next_title().unwrap(), "Talk:X/2019");
    e.feed(Some(&page("Talk:X/2019", vec![])));
    assert_eq!(e.next_title().unwrap(), "Talk:X/2020");
}

#[test]
fn dated_mask_mismatch_fails_before_any_fetch() {
    let mask = Mask::Monthly {
        mask: "Talk:X/Archive <month> <year>".to_string(),
        first_archive: "Talk:X/Old stuff".to_string(),
    };
    assert!(matches!(Expansion::new(&mask), Err(IndexError::FirstArchiveMismatch)));
    let mask = Mask::Yearly { mask: "Talk:X/<year>".to_string(), first_archive: "Talk:X/20".to_string() };
    assert!(matches!(Expansion::new(&mask), Err(IndexError::FirstArchiveMismatch)));
}

#[test]
fn single_page_missing_is_empty() {
    let mask = Mask::SinglePage { title: "Talk:X".to_string() };
    let mut e = Expansion::new(&mask).unwrap();
    assert_eq!(e.next_title().unwrap(), "Talk:X");
    e.feed(None);
    assert!(e.is_finished());
    assert_eq!(e.into_threads().len(), 0);
}

#[test]
fn zero_threads_is_an_error() {
    assert!(matches!(prepare_threads(vec![]), Err(IndexError::ZeroThreads)));
}

#[test]
fn sorting_keeps_order_of_threads_that_start_together() {
    let doc = page(
        "Talk:Y",
        vec![
            section(2, "Late", "Late", "12:00, 2 May 2020"),
            section(2, "Tie one", "Tie_one", "12:00, 1 May 2020"),
            section(2, "Tie two", "Tie_two", "12:00, 1 May 2020 and 13:00, 1 May 2020"),
        ],
    );
    let sorted = prepare_threads(extract_threads(&doc)).unwrap();
    let topics: Vec<&str> = sorted.iter().map(|t| t.topic.as_str()).collect();
    assert_eq!(topics, vec!["Tie one", "Tie two", "Late"]);
}

#[test]
fn dated_mask_text_matches_itself() {
    let mask = Mask::Monthly {
        mask: "Talk:Foo (band)/Archive <month> <year>".to_string(),
        first_archive: "Talk:Foo (band)/Archive July 2019".to_string(),
    };
    let e = Expansion::new(&mask).unwrap();
    assert!(matches!(e.cursor, Cursor::Monthly { month: 7, year: 2019 }));
    assert_eq!(e.next_title().unwrap(), "Talk:Foo (band)/Archive July 2019");
    let mask = Mask::Yearly {
        mask: "Talk:A.B/<year>".to_string(),
        first_archive: "Talk:AxB/2019".to_string(),
    };
    assert!(matches!(Expansion::new(&mask), Err(IndexError::FirstArchiveMismatch)));
}

#[test]
fn dated_mask_year_before_month() {
    let mask = Mask::Monthly {
        mask: "Talk:X/<year>/<month>".to_string(),
        first_archive: "Talk:X/2018/December".to_string(),
    };
    let mut e = Expansion::new(&mask).unwrap();
    assert!(matches!(e.cursor, Cursor::Monthly { month: 12, year: 2018 }));
    e.feed(Some(&page("Talk:X/2018/December", vec![])));
    assert_eq!(e.next_title().unwrap(), "Talk:X/2019/January");
}

#[test]
fn odd_timestamp_shapes_do_not_stop_extraction() {
    let doc = page(
        "Talk:X",
        vec![section(2, "Odd", "Odd", "12:34:56:78, 1 January 2020 and 07:08, 2 January 2020")],
    );
    let threads = extract_threads(&doc);
    assert_eq!(threads.len(), 1);
    assert_eq!(threads[0].first(), "07:08, 2 January 2020");
}
