use chrono::{TimeZone, Utc};
use porch_camera::api::{time_to_file_basename, Api, LabeledEntry, INTERNAL_SERVER_ERROR};
use porch_camera::store::{FrameMetadata, FrameStore, FrameStoreEntry};
use porch_camera::time::{Timestamp, MAX_SECS, MIN_SECS};
use porch_camera::training::{
    LabelError, LabelFile, LabelStore, LabelingConfig, Labels, TagSet,
};
use porch_camera::webserver::{api_frames, api_frames_latest, FramesBody};
use std::path::PathBuf;
use std::sync::Arc;

fn utc(year: i32, month: u32, day: u32, hour: u32, minute: u32, second: u32) -> Timestamp {
    let dt = Utc
        .with_ymd_and_hms(year, month, day, hour, minute, second)
        .unwrap();
    Timestamp::new(dt.timestamp(), 0, 0).unwrap()
}

#[test]
fn test_timestamp_file_name() {
    let dt = utc(2024, 6, 15, 12, 34, 56);
    let file_name = time_to_file_basename(&dt);
    assert_eq!(file_name, "2024-06-15_12-34-56-000_+0000");
}

#[test]
fn file_names_show_milliseconds_and_offset() {
    let time = Timestamp::from_timestamp_millis(1760397622231).unwrap();
    assert_eq!(time_to_file_basename(&time), "2025-10-13_23-20-22-231_+0000");
    let pacific = Timestamp::new(1760397622, 231_999_999, -7 * 3600).unwrap();
    assert_eq!(
        time_to_file_basename(&pacific),
        "2025-10-13_16-20-22-231_-0700"
    );
    let india = Timestamp::new(1760397622, 0, 19_800).unwrap();
    assert_eq!(time_to_file_basename(&india), "2025-10-14_04-50-22-000_+0530");
    let odd = Timestamp::new(0, 0, -29).unwrap();
    assert_eq!(time_to_file_basename(&odd), "1969-12-31_23-59-31-000_-0000");
    let odd = Timestamp::new(0, 0, 30).unwrap();
    assert_eq!(time_to_file_basename(&odd), "1970-01-01_00-00-30-000_+0001");
}

#[test]
fn file_names_show_leap_seconds() {
    let time = Timestamp::new(1483228799, 1_500_000_000, 0).unwrap();
    assert_eq!(time_to_file_basename(&time), "2016-12-31_23-59-60-500_+0000");
}

#[test]
fn file_names_of_uncommon_years() {
    assert_eq!(
        time_to_file_basename(&Timestamp::new(-62135596801, 0, 0).unwrap()),
        "0000-12-31_23-59-59-000_+0000"
    );
    assert_eq!(
        time_to_file_basename(&Timestamp::new(-62167219201, 0, 0).unwrap()),
        "-0001-12-31_23-59-59-000_+0000"
    );
    assert_eq!(
        time_to_file_basename(&Timestamp::new(253402300800, 0, 0).unwrap()),
        "+10000-01-01_00-00-00-000_+0000"
    );
    assert_eq!(
        time_to_file_basename(&Timestamp::new(MIN_SECS, 0, 0).unwrap()),
        "-262143-01-01_00-00-00-000_+0000"
    );
    assert_eq!(
        time_to_file_basename(&Timestamp::new(MAX_SECS, 999_999_999, 0).unwrap()),
        "+262142-12-31_23-59-59-999_+0000"
    );
    assert_eq!(
        time_to_file_basename(&Timestamp::new(MIN_SECS, 0, -1).unwrap()),
        "-262144-12-31_23-59-59-000_-0000"
    );
    assert_eq!(
        time_to_file_basename(&Timestamp::new(MAX_SECS, 0, 86_399).unwrap()),
        "+262143-01-01_23-59-58-000_+2400"
    );
}

#[test]
fn the_range_of_timestamps_is_that_of_chrono() {
    assert_eq!(chrono::DateTime::<Utc>::MIN_UTC.timestamp(), MIN_SECS);
    assert_eq!(chrono::DateTime::<Utc>::MAX_UTC.timestamp(), MAX_SECS);
    assert!(Timestamp::new(MIN_SECS - 1, 0, 0).is_none());
    assert!(Timestamp::new(MAX_SECS + 1, 0, 0).is_none());
    assert!(Timestamp::new(0, 1_000_000_000, 0).is_none());
    assert!(Timestamp::new(59, 1_000_000_000, 0).is_some());
    assert!(Timestamp::new(59, 2_000_000_000, 0).is_none());
    assert!(Timestamp::new(0, 0, 86_400).is_none());
    assert!(Timestamp::new(0, 0, -86_400).is_none());
}

#[test]
fn milliseconds_round_trip() {
    for millis in [1760397622231, 0, -1, -1000, 999, -999] {
        let time = Timestamp::from_timestamp_millis(millis).unwrap();
        assert_eq!(time.timestamp_millis(), millis);
        let dt = chrono::DateTime::from_timestamp_millis(millis).unwrap();
        assert_eq!(time.secs, dt.timestamp());
        assert_eq!(time.nanos, dt.timestamp_subsec_nanos());
    }
    assert!(Timestamp::from_timestamp_millis(i64::MAX).is_none());
    assert!(Timestamp::from_timestamp_millis(i64::MIN).is_none());
}

#[test]
fn names_sort_by_time() {
    let times = [
        utc(1999, 12, 31, 23, 59, 59),
        utc(2000, 1, 1, 0, 0, 0),
        utc(2000, 2, 29, 0, 0, 0),
        utc(2000, 3, 1, 0, 0, 0),
        utc(2024, 6, 15, 12, 34, 56),
        utc(9999, 12, 31, 23, 59, 59),
    ];
    for pair in times.windows(2) {
        assert!(time_to_file_basename(&pair[0]) < time_to_file_basename(&pair[1]));
        assert!(pair[1].is_not_before(&pair[0]));
        assert!(!pair[0].is_not_before(&pair[1]));
        assert_eq!(time_to_file_basename(&pair[0]).len(), 29);
    }
}

fn make_api() -> Arc<Api> {
    Api::new(
        FrameStore::new(PathBuf::from("frames")),
        LabelStore::new(
            LabelingConfig { tag_sets: vec![] },
            PathBuf::from("labels"),
        ),
    )
}

fn entry(name: &str) -> FrameStoreEntry {
    FrameStoreEntry {
        metadata: FrameMetadata {
            name: name.to_string(),
            timestamp: 1760397622231,
            p_hash: "c41782ed3c9263cd".to_string(),
            p_hash_distance: Some(21),
        },
        inference: None,
    }
}

#[test]
fn api_holds_both_stores() {
    let api = make_api();
    assert_eq!(api.frame_store.image_storage_dir, PathBuf::from("frames"));
    assert_eq!(api.label_store.storage_dir, PathBuf::from("labels"));
}

#[test]
fn a_failed_listing_is_an_internal_error() {
    let error = make_api().frames(Err("disk on fire".to_string())).unwrap_err();
    assert_eq!(error.code, INTERNAL_SERVER_ERROR);
    assert_eq!(error.code, axum::http::StatusCode::INTERNAL_SERVER_ERROR.as_u16());
    assert_eq!(error.message, "disk on fire");

    let (status, body) = api_frames(Err(error));
    assert_eq!(status, 500);
    match body {
        FramesBody::Error(data) => assert_eq!(data.message, "disk on fire"),
        FramesBody::Frames(_) => panic!("no frames were listed"),
    }
}

#[test]
fn an_empty_page_has_no_cursors() {
    let page = make_api().frames(Ok(vec![])).unwrap();
    assert_eq!(page.nodes.len(), 0);
    assert!(!page.has_next_page);
    assert!(!page.has_previous_page);
    assert_eq!(page.start_cursor, None);
    assert_eq!(page.end_cursor, None);
}

#[test]
fn a_page_shows_frames_with_their_labels() {
    let labels = Labels {
        tag_sets: vec![TagSet {
            name: "foo".to_string(),
            tags: vec!["foo1".to_string()],
        }],
    };
    let page = make_api()
        .frames(Ok(vec![
            LabeledEntry {
                entry: entry("b"),
                labels: Ok(labels),
            },
            LabeledEntry {
                entry: entry("a"),
                labels: Err(LabelError::Unparsable),
            },
        ]))
        .unwrap();
    assert_eq!(page.nodes.len(), 2);
    assert_eq!(page.nodes[0].id, "b");
    assert_eq!(page.nodes[0].src, "b.jpg");
    assert_eq!(page.nodes[0].timestamp, 1760397622231);
    assert_eq!(page.nodes[0].p_hash, "c41782ed3c9263cd");
    assert_eq!(page.nodes[0].p_hash_distance, Some(21));
    assert_eq!(page.nodes[0].labels.as_ref().unwrap().tag_sets[0].name, "foo");
    assert_eq!(page.nodes[1].id, "a");
    assert!(page.nodes[1].labels.is_none());
    assert!(!page.has_next_page);
    assert!(page.has_previous_page);
    assert_eq!(page.start_cursor, Some("a.jpg".to_string()));
    assert_eq!(page.end_cursor, Some("b.jpg".to_string()));

    let (status, body) = api_frames(Ok(page));
    assert_eq!(status, 200);
    match body {
        FramesBody::Frames(frames) => assert_eq!(frames.nodes.len(), 2),
        FramesBody::Error(_) => panic!("the listing did not fail"),
    }
}

#[test]
fn start_cursors_lead_through_all_frames() {
    let api = make_api();
    let names: Vec<String> = [3, 1, 4, 0, 2]
        .iter()
        .map(|i| {
            let time = Timestamp::from_timestamp_millis(1760397622231 + i * 1000).unwrap();
            format!("{}.jpg", time_to_file_basename(&time))
        })
        .collect();
    let mut before: Option<String> = None;
    let mut seen: Vec<String> = Vec::new();
    loop {
        let files = api.list(&names, Some(2), &before);
        let entries: Vec<LabeledEntry> = files
            .iter()
            .map(|f| LabeledEntry {
                entry: entry(f.picture.strip_suffix(".jpg").unwrap()),
                labels: Ok(Labels::default()),
            })
            .collect();
        let page = api.frames(Ok(entries)).unwrap();
        if !page.has_previous_page {
            break;
        }
        seen.extend(page.nodes.iter().map(|n| n.src.clone()));
        before = page.start_cursor;
    }
    let mut expected = names.clone();
    expected.sort();
    expected.reverse();
    assert_eq!(seen, expected);
}

#[test]
fn a_cursor_may_be_a_name() {
    let api = make_api();
    let names: Vec<String> = ["a.jpg", "b.jpg", "c.jpg"]
        .iter()
        .map(|s| s.to_string())
        .collect();
    let by_name = api.list(&names, None, &Some("b".to_string()));
    let by_file = api.list(&names, None, &Some("b.jpg".to_string()));
    assert_eq!(by_name.len(), 1);
    assert_eq!(by_name[0].picture, "a.jpg");
    assert_eq!(by_file.len(), 1);
    assert_eq!(by_file[0].picture, "a.jpg");
    assert_eq!(by_file[0].metadata, "a.json");
    assert_eq!(api.list(&names, None, &Some("".to_string())).len(), 0);
    assert_eq!(api.list(&names, None, &Some(".jpg".to_string())).len(), 0);
}

#[test]
fn a_new_frame_is_told_without_labels() {
    let edge = api_frames_latest(entry("x"));
    assert_eq!(edge.cursor, "x");
    assert_eq!(edge.node.id, "x");
    assert_eq!(edge.node.src, "x.jpg");
    assert!(edge.node.labels.is_none());
}

#[test]
fn labels_are_read_by_the_names_of_frames() {
    let api = make_api();
    let entries = vec![entry("b"), entry("a")];
    assert_eq!(
        api.label_files(&entries),
        vec!["b.labels.json", "a.labels.json"]
    );
    let labels = Labels {
        tag_sets: vec![TagSet {
            name: "foo".to_string(),
            tags: vec![],
        }],
    };
    let labeled = api.label_entries(
        entries,
        vec![LabelFile::Unparsable, LabelFile::Parsed(labels)],
    );
    assert_eq!(labeled.len(), 2);
    assert_eq!(labeled[0].entry.metadata.name, "b");
    assert_eq!(
        *labeled[0].labels.as_ref().unwrap_err(),
        LabelError::Unparsable
    );
    assert_eq!(labeled[1].entry.metadata.name, "a");
    assert_eq!(labeled[1].labels.as_ref().unwrap().tag_sets[0].name, "foo");
    let labeled = api.label_entries(vec![entry("c")], vec![LabelFile::Missing]);
    assert_eq!(labeled[0].labels.as_ref().unwrap().tag_sets.len(), 0);
}
