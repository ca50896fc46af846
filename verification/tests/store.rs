use porch_camera::camera::Frame;
use porch_camera::inference::{InferenceOutput, InferenceResult};
use porch_camera::store::{
    FileContent, FileRead, FrameMetadata, FrameRead, FrameStore, FrameStoreEntry,
};
use porch_camera::time::Timestamp;
use porch_camera::writing::{content_of, FrameWriter, WriteProgress};
use std::path::PathBuf;
use std::sync::Arc;

/// What a file of the directory below holds.
#[derive(Clone)]
enum Stored {
    Metadata(FrameMetadata),
    Bytes(Vec<u8>),
    Inference(Vec<InferenceResult>),
}

/// A storage directory in memory, in the order in which the files came.
struct Directory {
    store: Arc<FrameStore>,
    files: Vec<(String, Stored)>,
}

impl Directory {
    fn new() -> Directory {
        Directory {
            store: FrameStore::new(PathBuf::from("frames")),
            files: Vec::new(),
        }
    }

    fn put(&mut self, name: &str, file: Stored) {
        self.files.retain(|(n, _)| n != name);
        self.files.push((name.to_string(), file));
    }

    fn get(&self, name: &str) -> Option<&Stored> {
        self.files.iter().find(|(n, _)| n == name).map(|(_, f)| f)
    }

    fn remove(&mut self, name: &str) -> Result<(), String> {
        let before = self.files.len();
        self.files.retain(|(n, _)| n != name);
        if self.files.len() < before {
            Ok(())
        } else {
            Err(format!("no file {}", name))
        }
    }

    fn names(&self) -> Vec<String> {
        self.files.iter().map(|(n, _)| n.clone()).collect()
    }

    fn write_frame_capture_data(
        &mut self,
        frame: &Frame,
        p_hash_distance: Option<u64>,
        inference: Option<Vec<InferenceResult>>,
    ) -> FrameStoreEntry {
        let captured = self
            .store
            .write_frame_capture_data(frame, p_hash_distance, inference);
        let mut progress: WriteProgress<FrameStoreEntry, String> =
            FrameWriter::start(captured.entry, captured.writes);
        loop {
            progress = match progress {
                WriteProgress::Writing(writer) => {
                    let content = writer.next().content;
                    let file = match (content_of(frame, content), content) {
                        (Some(bytes), _) => Stored::Bytes(bytes),
                        (None, FileContent::Metadata) => {
                            Stored::Metadata(writer.result.metadata.clone())
                        }
                        (None, _) => Stored::Inference(writer.result.inference.clone().unwrap()),
                    };
                    let name = writer.next().file_name.clone();
                    self.put(&name, file);
                    writer.step(Ok(()))
                }
                WriteProgress::Failed(e) => panic!("{}", e),
                WriteProgress::Stored(entry) => return entry,
            };
        }
    }

    fn list_frames(
        &self,
        last: Option<usize>,
        before: Option<String>,
        first: Option<usize>,
        after: Option<String>,
    ) -> Vec<FrameStoreEntry> {
        let files = self
            .store
            .list_frames(&self.names(), last, &before, first, &after);
        let reads = files
            .iter()
            .map(|f| FrameRead {
                metadata: match self.get(&f.metadata) {
                    None => FileRead::Unreadable,
                    Some(Stored::Metadata(m)) => FileRead::Parsed(m.clone()),
                    Some(_) => FileRead::Unparsable,
                },
                inference: match self.get(&f.inference) {
                    None => FileRead::Unreadable,
                    Some(Stored::Inference(i)) => FileRead::Parsed(i.clone()),
                    Some(_) => FileRead::Unparsable,
                },
            })
            .collect();
        self.store.collect_frames(reads)
    }

    fn delete(&mut self, name: &str) -> Result<(), String> {
        let mut results: Vec<Result<(), String>> = Vec::new();
        for file in self.store.delete(name) {
            results.push(self.remove(&file));
        }
        FrameStore::deletion_result(results[0].clone(), results[1].clone())
    }
}

fn frame(millis: i64, jpeg: &[u8], p_hash: &str) -> Frame {
    Frame {
        timestamp: Timestamp::from_timestamp_millis(millis).unwrap(),
        jpeg: jpeg.to_vec(),
        inference_tensor: vec![0],
        inference_jpeg: b"qwer".to_vec(),
        p_hash: p_hash.to_string(),
    }
}

fn names_of(ls: &Vec<FrameStoreEntry>) -> Vec<&str> {
    ls.iter().map(|e| e.metadata.name.as_str()).collect()
}

#[test]
fn test_metadata_file_round_trip() {
    let mut store = Directory::new();

    let stub_frame = frame(1760397622231, b"asdf", "c41782ed3c9263cd");

    let entry = store.write_frame_capture_data(&stub_frame, None, Some(vec![]));
    assert_eq!(entry.metadata.name, "2025-10-13_23-20-22-231_+0000");
    assert_eq!(entry.metadata.p_hash, "c41782ed3c9263cd");
    assert_eq!(entry.metadata.p_hash_distance, None);
}

/// Write five test frames with different times
fn write_test_frames(store: &mut Directory) {
    store.write_frame_capture_data(
        &frame(1760397622231, b"asdf", "c41782ed3c9263cd"),
        None,
        Some(vec![]),
    );
    store.write_frame_capture_data(
        &frame(1760397623231, b"qwer", "cc17c7cd3c9263cd"),
        None,
        Some(vec![]),
    );
    store.write_frame_capture_data(
        &frame(1760397624231, b"zxcv", "ac1387ed3c9463cd"),
        None,
        Some(vec![]),
    );
    store.write_frame_capture_data(
        &frame(1760397626231, b"jkl;", "541783dc1c92638c"),
        None,
        None,
    );
    store.write_frame_capture_data(
        &frame(1760397625231, b"uiop", "4c1787683caa73cc"),
        None,
        None,
    );
}

#[test]
fn test_list_frames() {
    let mut store = Directory::new();
    write_test_frames(&mut store);

    let ls = store.list_frames(Some(5), None, None, None);

    assert_eq!(ls.len(), 5);
    assert_eq!(ls.get(0).unwrap().metadata.name, "2025-10-13_23-20-26-231_+0000");
    assert_eq!(ls.get(1).unwrap().metadata.name, "2025-10-13_23-20-25-231_+0000");
    assert_eq!(ls.get(2).unwrap().metadata.name, "2025-10-13_23-20-24-231_+0000");
    assert_eq!(ls.get(3).unwrap().metadata.name, "2025-10-13_23-20-23-231_+0000");
    assert_eq!(ls.get(4).unwrap().metadata.name, "2025-10-13_23-20-22-231_+0000");
}

#[test]
fn test_list_frames_last_2() {
    let mut store = Directory::new();
    write_test_frames(&mut store);

    let ls = store.list_frames(Some(2), None, None, None);

    assert_eq!(ls.len(), 2);
    // The two most recent ones, per "last: 2"
    assert_eq!(ls.get(0).unwrap().metadata.name, "2025-10-13_23-20-26-231_+0000");
    assert_eq!(ls.get(1).unwrap().metadata.name, "2025-10-13_23-20-25-231_+0000");
}

#[test]
fn test_list_frames_before() {
    let mut store = Directory::new();
    write_test_frames(&mut store);

    let ls = store.list_frames(
        None,
        Some("2025-10-13_23-20-24-231_+0000".to_string()),
        None,
        None,
    );

    assert_eq!(ls.len(), 2);
    assert_eq!(ls.get(0).unwrap().metadata.name, "2025-10-13_23-20-23-231_+0000");
    assert_eq!(ls.get(1).unwrap().metadata.name, "2025-10-13_23-20-22-231_+0000");
}

#[test]
fn test_list_frames_first_before() {
    let mut store = Directory::new();
    write_test_frames(&mut store);

    let ls = store.list_frames(
        Some(1),
        Some("2025-10-13_23-20-24-231_+0000".to_string()),
        None,
        None,
    );

    assert_eq!(ls.len(), 1);
    assert_eq!(ls.get(0).unwrap().metadata.name, "2025-10-13_23-20-23-231_+0000");
}

#[test]
fn test_list_frames_before_first() {
    let mut store = Directory::new();
    write_test_frames(&mut store);

    let ls = store.list_frames(
        None,
        Some("2025-10-13_23-20-22-231_+0000".to_string()),
        None,
        None,
    );

    assert_eq!(ls.len(), 0);
}

#[test]
fn test_list_frames_first_2() {
    let mut store = Directory::new();
    write_test_frames(&mut store);

    let ls = store.list_frames(None, None, Some(2), None);

    assert_eq!(ls.len(), 2);
    // The two oldest ones, per "first: 2"
    assert_eq!(ls.get(0).unwrap().metadata.name, "2025-10-13_23-20-23-231_+0000");
    assert_eq!(ls.get(1).unwrap().metadata.name, "2025-10-13_23-20-22-231_+0000");
}

#[test]
fn test_list_frames_after() {
    let mut store = Directory::new();
    write_test_frames(&mut store);

    let ls = store.list_frames(
        None,
        None,
        None,
        Some("2025-10-13_23-20-24-231_+0000".to_string()),
    );

    assert_eq!(ls.len(), 2);
    assert_eq!(ls.get(0).unwrap().metadata.name, "2025-10-13_23-20-26-231_+0000");
    assert_eq!(ls.get(1).unwrap().metadata.name, "2025-10-13_23-20-25-231_+0000");
}

#[test]
fn test_list_frames_last_after() {
    let mut store = Directory::new();
    write_test_frames(&mut store);

    let ls = store.list_frames(
        None,
        None,
        Some(1),
        Some("2025-10-13_23-20-24-231_+0000".to_string()),
    );

    assert_eq!(ls.len(), 1);
    assert_eq!(ls.get(0).unwrap().metadata.name, "2025-10-13_23-20-25-231_+0000");
}

#[test]
fn test_list_frames_after_last() {
    let mut store = Directory::new();
    write_test_frames(&mut store);

    let ls = store.list_frames(
        None,
        None,
        None,
        Some("2025-10-13_23-20-26-231_+0000".to_string()),
    );

    assert_eq!(ls.len(), 0);
}

#[test]
fn test_list_frames_before_after() {
    let mut store = Directory::new();
    write_test_frames(&mut store);

    let ls = store.list_frames(
        None,
        Some("2025-10-13_23-20-26-231_+0000".to_string()),
        None,
        Some("2025-10-13_23-20-23-231_+0000".to_string()),
    );

    assert_eq!(ls.len(), 2);
    assert_eq!(ls.get(0).unwrap().metadata.name, "2025-10-13_23-20-25-231_+0000");
    assert_eq!(ls.get(1).unwrap().metadata.name, "2025-10-13_23-20-24-231_+0000");
}

#[test]
fn test_list_frames_before_after_not_overlapping() {
    let mut store = Directory::new();
    write_test_frames(&mut store);

    let ls = store.list_frames(
        None,
        Some("2025-10-13_23-20-23-231_+0000".to_string()),
        None,
        Some("2025-10-13_23-20-26-231_+0000".to_string()),
    );

    // after > before, so nothing will match both
    assert_eq!(ls.len(), 0);
}

#[test]
fn store_test_delete() {
    let mut store = Directory::new();
    write_test_frames(&mut store);

    let ls = store.list_frames(Some(5), None, None, None);
    assert_eq!(ls.len(), 5);
    assert_eq!(ls.get(0).unwrap().metadata.name, "2025-10-13_23-20-26-231_+0000");
    assert_eq!(ls.get(1).unwrap().metadata.name, "2025-10-13_23-20-25-231_+0000");
    assert_eq!(ls.get(2).unwrap().metadata.name, "2025-10-13_23-20-24-231_+0000");
    assert_eq!(ls.get(3).unwrap().metadata.name, "2025-10-13_23-20-23-231_+0000");
    assert_eq!(ls.get(4).unwrap().metadata.name, "2025-10-13_23-20-22-231_+0000");

    store.delete("2025-10-13_23-20-24-231_+0000").unwrap();

    let ls = store.list_frames(Some(5), None, None, None);
    assert_eq!(ls.len(), 4);
    assert_eq!(ls.get(0).unwrap().metadata.name, "2025-10-13_23-20-26-231_+0000");
    assert_eq!(ls.get(1).unwrap().metadata.name, "2025-10-13_23-20-25-231_+0000");
    assert_eq!(ls.get(2).unwrap().metadata.name, "2025-10-13_23-20-23-231_+0000");
    assert_eq!(ls.get(3).unwrap().metadata.name, "2025-10-13_23-20-22-231_+0000");
}

#[test]
fn test_stores_inference_none() {
    let mut store = Directory::new();

    let frame = frame(1760397622231, b"asdf", "c41782ed3c9263cd");
    store.write_frame_capture_data(&frame, None, None);

    let ls = store.list_frames(Some(5), None, None, None);

    assert_eq!(ls.len(), 1);
    let actual_frame = ls.get(0).unwrap();
    assert_eq!(actual_frame.metadata.name, "2025-10-13_23-20-22-231_+0000");
    assert_eq!(actual_frame.inference.is_none(), true);
}

#[test]
fn test_stores_inference_empty() {
    let mut store = Directory::new();

    let frame = frame(1760397622231, b"asdf", "c41782ed3c9263cd");
    store.write_frame_capture_data(&frame, None, Some(vec![]));

    let ls = store.list_frames(Some(5), None, None, None);

    assert_eq!(ls.len(), 1);
    let actual_frame = ls.get(0).unwrap();
    assert_eq!(actual_frame.metadata.name, "2025-10-13_23-20-22-231_+0000");
    assert_eq!(actual_frame.inference.is_some(), true);
    let actual_inference = actual_frame.inference.as_ref().unwrap();
    assert_eq!(actual_inference.len(), 0);
}

#[test]
fn test_stores_inference_result_empty_outputs() {
    let mut store = Directory::new();

    let frame = frame(1760397622231, b"asdf", "c41782ed3c9263cd");

    let inference = vec![InferenceResult {
        model: "test-model".to_string(),
        outputs: vec![],
    }];
    store.write_frame_capture_data(&frame, None, Some(inference));

    let ls = store.list_frames(Some(5), None, None, None);

    assert_eq!(ls.len(), 1);
    let actual_frame = ls.get(0).unwrap();
    assert_eq!(actual_frame.metadata.name, "2025-10-13_23-20-22-231_+0000");
    assert_eq!(actual_frame.inference.is_some(), true);
    let actual_inference = actual_frame.inference.as_ref().unwrap();
    assert_eq!(actual_inference.len(), 1);
    let actual_inference_result = actual_inference.get(0).unwrap();
    assert_eq!(actual_inference_result.model, "test-model");
    assert_eq!(actual_inference_result.outputs.len(), 0);
}

#[test]
fn test_stores_inference_result() {
    let mut store = Directory::new();

    let frame = frame(1760397622231, b"asdf", "c41782ed3c9263cd");

    let bits = |values: Vec<f32>| -> Vec<u32> { values.iter().map(|v| v.to_bits()).collect() };
    let inference = vec![InferenceResult {
        model: "test-model".to_string(),
        outputs: vec![InferenceOutput {
            key: "output_key_1".to_string(),
            values: bits(vec![0.95, 0.05]),
            values_softmax: bits(vec![0.95, 0.05]),
        }],
    }];
    store.write_frame_capture_data(&frame, None, Some(inference));

    let ls = store.list_frames(Some(5), None, None, None);

    assert_eq!(ls.len(), 1);
    let actual_frame = ls.get(0).unwrap();
    assert_eq!(actual_frame.metadata.name, "2025-10-13_23-20-22-231_+0000");

    assert_eq!(actual_frame.inference.is_some(), true);
    let actual_inference = actual_frame.inference.as_ref().unwrap();

    assert_eq!(actual_inference.len(), 1);
    let actual_inference_result = actual_inference.get(0).unwrap();
    assert_eq!(actual_inference_result.model, "test-model");

    assert_eq!(actual_inference_result.outputs.len(), 1);
    let actual_inference_output = actual_inference_result.outputs.get(0).unwrap();
    assert_eq!(actual_inference_output.key, "output_key_1");
    assert_eq!(actual_inference_output.values.len(), 2);
    assert_eq!(f32::from_bits(actual_inference_output.values[0]), 0.95);
    assert_eq!(f32::from_bits(actual_inference_output.values[1]), 0.05);
}

#[test]
fn capture_writes_metadata_before_pictures() {
    let store = FrameStore::new(PathBuf::from("frames"));
    let frame = frame(1760397622231, b"asdf", "c41782ed3c9263cd");
    let captured = store.write_frame_capture_data(&frame, Some(31), Some(vec![]));
    let files: Vec<(&str, FileContent)> = captured
        .writes
        .iter()
        .map(|w| (w.file_name.as_str(), w.content))
        .collect();
    assert_eq!(
        files,
        vec![
            ("2025-10-13_23-20-22-231_+0000.json", FileContent::Metadata),
            ("2025-10-13_23-20-22-231_+0000.jpg", FileContent::Picture),
            ("2025-10-13_23-20-22-231_+0000.224.jpg", FileContent::Preview),
            (
                "2025-10-13_23-20-22-231_+0000.inference.json",
                FileContent::Inference
            ),
        ]
    );
    assert_eq!(captured.entry.metadata.timestamp, 1760397622231);
    assert_eq!(captured.entry.metadata.p_hash_distance, Some(31));
}

#[test]
fn capture_without_inference_writes_three_files() {
    let store = FrameStore::new(PathBuf::from("frames"));
    let frame = frame(1760397622231, b"asdf", "c41782ed3c9263cd");
    let captured = store.write_frame_capture_data(&frame, None, None);
    assert_eq!(captured.writes.len(), 3);
    assert_eq!(store.image_storage_dir, PathBuf::from("frames"));
}

#[test]
fn frames_without_metadata_are_left_out() {
    let mut store = Directory::new();
    write_test_frames(&mut store);
    store.remove("2025-10-13_23-20-24-231_+0000.json").unwrap();
    store.put(
        "2025-10-13_23-20-25-231_+0000.json",
        Stored::Bytes(b"{".to_vec()),
    );
    let ls = store.list_frames(None, None, None, None);
    assert_eq!(
        names_of(&ls),
        vec![
            "2025-10-13_23-20-26-231_+0000",
            "2025-10-13_23-20-23-231_+0000",
            "2025-10-13_23-20-22-231_+0000",
        ]
    );
}

#[test]
fn unparsable_inference_counts_as_none() {
    let mut store = Directory::new();
    write_test_frames(&mut store);
    store.put(
        "2025-10-13_23-20-23-231_+0000.inference.json",
        Stored::Bytes(b"{".to_vec()),
    );
    let ls = store.list_frames(None, None, Some(2), None);
    assert!(ls[0].inference.is_none());
    assert!(ls[1].inference.is_some());
}

#[test]
fn deleted_files_are_picture_and_metadata() {
    let store = FrameStore::new(PathBuf::from("frames"));
    assert_eq!(
        store.delete("2025-10-13_23-20-24-231_+0000"),
        vec![
            "2025-10-13_23-20-24-231_+0000.jpg",
            "2025-10-13_23-20-24-231_+0000.json",
            "2025-10-13_23-20-24-231_+0000.json",
            "2025-10-13_23-20-24-231_+0000.json",
        ]
    );

    let mut directory = Directory::new();
    write_test_frames(&mut directory);
    let before = directory.files.len();
    directory.delete("2025-10-13_23-20-24-231_+0000").unwrap();
    assert_eq!(directory.files.len(), before - 2);
}

#[test]
fn files_of_a_frame_hold_its_pictures() {
    let mut directory = Directory::new();
    let frame = frame(1760397622231, b"asdf", "c41782ed3c9263cd");
    directory.write_frame_capture_data(&frame, None, None);
    assert_eq!(directory.files.len(), 3);
    let bytes = |name: &str| match directory.get(name) {
        Some(Stored::Bytes(bytes)) => bytes.clone(),
        _ => panic!("no bytes in {}", name),
    };
    assert_eq!(bytes("2025-10-13_23-20-22-231_+0000.jpg"), b"asdf".to_vec());
    assert_eq!(
        bytes("2025-10-13_23-20-22-231_+0000.224.jpg"),
        b"qwer".to_vec()
    );
    assert_eq!(content_of(&frame, FileContent::Metadata), None);
    assert_eq!(content_of(&frame, FileContent::Inference), None);
}

#[test]
fn writing_ends_with_the_first_failure() {
    let store = FrameStore::new(PathBuf::from("frames"));
    let frame = frame(1760397622231, b"asdf", "c41782ed3c9263cd");
    for failing in 0..3 {
        let captured = store.write_frame_capture_data(&frame, None, None);
        let mut progress = FrameWriter::start(captured.entry, captured.writes);
        let mut tried = 0;
        let error = loop {
            progress = match progress {
                WriteProgress::Writing(writer) => {
                    assert_eq!(writer.written, tried);
                    tried += 1;
                    writer.step(if tried > failing { Err(tried) } else { Ok(()) })
                }
                WriteProgress::Failed(e) => break e,
                WriteProgress::Stored(_) => panic!("a file was not written"),
            };
        };
        assert_eq!(error, failing + 1);
        assert_eq!(tried, failing + 1);
    }
    let nothing: WriteProgress<u8, u8> = FrameWriter::start(7, vec![]);
    assert!(matches!(nothing, WriteProgress::Stored(7)));
}

#[test]
fn deletion_reports_picture_before_metadata() {
    let ok: Result<(), &str> = Ok(());
    assert_eq!(
        FrameStore::deletion_result(Err("picture"), Err("metadata")),
        Err("picture")
    );
    assert_eq!(FrameStore::deletion_result(Err("picture"), ok), Err("picture"));
    assert_eq!(FrameStore::deletion_result(ok, Err("metadata")), Err("metadata"));
    assert_eq!(FrameStore::deletion_result(ok, ok), Ok(()));

    let mut directory = Directory::new();
    assert_eq!(
        directory.delete("missing"),
        Err("no file missing.jpg".to_string())
    );
}

#[test]
fn inference_file_replaces_an_extension() {
    let store = FrameStore::new(PathBuf::from("frames"));
    assert_eq!(store.write_inference("a"), "a.inference.json");
    assert_eq!(store.write_inference("a.b"), "a.inference.json");
    assert_eq!(store.write_inference("d.e/a"), "d.e/a.inference.json");
    assert_eq!(store.write_inference(".a"), ".a.inference.json");
    assert_eq!(store.write_inference("a."), "a.inference.json");
    assert_eq!(store.write_inference("a:b"), "a:b.inference.json");
    assert_eq!(store.write_inference("a\\b.c"), "a\\b.inference.json");
}

#[test]
fn only_pictures_are_listed() {
    let store = FrameStore::new(PathBuf::from("frames"));
    let names: Vec<String> = [
        "b.jpg",
        "a.jpg",
        "a.json",
        "a.224.jpg",
        "a.inference.json",
        "a.labels.json",
        "trace.json",
        "jpg",
        ".jpg",
        "c.JPG",
    ]
    .iter()
    .map(|s| s.to_string())
    .collect();
    let files = store.list_frames(&names, None, &None, None, &None);
    let pictures: Vec<&str> = files.iter().map(|f| f.picture.as_str()).collect();
    assert_eq!(pictures, vec!["b.jpg", "a.jpg", ".jpg"]);
    assert_eq!(files[0].metadata, "b.json");
    assert_eq!(files[0].inference, "b.inference.json");
}

#[test]
fn a_page_holds_a_hundred_frames() {
    let store = FrameStore::new(PathBuf::from("frames"));
    let names: Vec<String> = (0..250).map(|i| format!("{:03}.jpg", i)).collect();
    let files = store.list_frames(&names, None, &None, None, &None);
    assert_eq!(files.len(), 100);
    assert_eq!(files[0].picture, "249.jpg");
    assert_eq!(files[99].picture, "150.jpg");
    let files = store.list_frames(&names, Some(1000), &None, Some(200), &None);
    assert_eq!(files.len(), 100);
    assert_eq!(files[0].picture, "199.jpg");
    let files = store.list_frames(&names, Some(2), &None, Some(7), &None);
    assert_eq!(files.len(), 2);
    assert_eq!(files[0].picture, "006.jpg");
    assert_eq!(files[1].picture, "005.jpg");
}

#[test]
fn frames_do_not_overwrite_each_other() {
    let store = FrameStore::new(PathBuf::from("frames"));
    let mut names: Vec<String> = Vec::new();
    for millis in [1760397622231, 1760397622232] {
        let frame = frame(millis, b"asdf", "c41782ed3c9263cd");
        let captured = store.write_frame_capture_data(&frame, None, Some(vec![]));
        names.extend(captured.writes.into_iter().map(|w| w.file_name));
    }
    assert_eq!(names.len(), 8);
    names.sort();
    names.dedup();
    assert_eq!(names.len(), 8);
}
