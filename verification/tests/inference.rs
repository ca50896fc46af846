use porch_camera::camera::Frame;
use porch_camera::inference::{
    InferenceConfig, InferenceModelConfig, InferenceService, OutputValues, SessionOutput,
};
use porch_camera::pipeline::write_frame_capture_data;
use porch_camera::store::FileContent;
use porch_camera::time::Timestamp;
use porch_camera::webserver::mjpeg_part;
use std::path::PathBuf;
use std::sync::Arc;

fn service() -> Arc<InferenceService> {
    let model = |name: &str| InferenceModelConfig {
        name: name.to_string(),
        onnx_path: PathBuf::from(format!("{}.onnx", name)),
    };
    InferenceService::new(&InferenceConfig {
        models: vec![model("one"), model("two"), model("three")],
    })
}

fn output(key: &str, values: Option<Vec<f32>>) -> SessionOutput {
    SessionOutput {
        key: key.to_string(),
        values: values.map(|v| {
            let bits: Vec<u32> = v.iter().map(|x| x.to_bits()).collect();
            OutputValues {
                values: bits.clone(),
                softmax: bits,
            }
        }),
    }
}

#[test]
fn models_are_those_of_the_configuration() {
    assert_eq!(service().models, vec!["one", "two", "three"]);
}

#[test]
fn failed_models_are_left_out() {
    let results = service().run(vec![
        Some(vec![output("a", Some(vec![0.5]))]),
        None,
        Some(vec![]),
    ]);
    assert_eq!(results.len(), 2);
    assert_eq!(results[0].model, "one");
    assert_eq!(results[0].outputs.len(), 1);
    assert_eq!(results[0].outputs[0].key, "a");
    assert_eq!(f32::from_bits(results[0].outputs[0].values[0]), 0.5);
    assert_eq!(f32::from_bits(results[0].outputs[0].values_softmax[0]), 0.5);
    assert_eq!(results[1].model, "three");
    assert_eq!(results[1].outputs.len(), 0);
}

#[test]
fn outputs_without_floats_are_left_out() {
    let results = service().run(vec![
        None,
        Some(vec![
            output("a", None),
            output("b", Some(vec![1.0, 2.0])),
            output("c", None),
            output("d", Some(vec![])),
        ]),
        None,
    ]);
    assert_eq!(results.len(), 1);
    assert_eq!(results[0].model, "two");
    let keys: Vec<&str> = results[0].outputs.iter().map(|o| o.key.as_str()).collect();
    assert_eq!(keys, vec!["b", "d"]);
}

#[test]
fn nothing_comes_of_failed_models() {
    assert_eq!(service().run(vec![None, None, None]).len(), 0);
}

#[test]
fn a_part_of_a_feed_is_a_picture() {
    let part = mjpeg_part(Frame {
        timestamp: Timestamp::from_timestamp_millis(0).unwrap(),
        jpeg: b"asdf".to_vec(),
        inference_tensor: vec![],
        inference_jpeg: b"qwerty".to_vec(),
        p_hash: "00".to_string(),
    });
    assert_eq!(part.content_type, "image/jpeg");
    assert_eq!(part.content_length, 4);
    assert_eq!(part.body, b"asdf".to_vec());
}

#[test]
fn the_bare_pipeline_writes_the_picture_first() {
    let frame = Frame {
        timestamp: Timestamp::from_timestamp_millis(1760397622231).unwrap(),
        jpeg: b"asdf".to_vec(),
        inference_tensor: vec![0],
        inference_jpeg: b"qwer".to_vec(),
        p_hash: "c41782ed3c9263cd".to_string(),
    };
    let capture = write_frame_capture_data(frame, Some(24));
    assert_eq!(capture.metadata.name, "2025-10-13_23-20-22-231_+0000");
    assert_eq!(capture.metadata.timestamp, 1760397622231);
    assert_eq!(capture.metadata.p_hash, "c41782ed3c9263cd");
    assert_eq!(capture.metadata.p_hash_distance, Some(24));
    let files: Vec<(&str, FileContent)> = capture
        .writes
        .iter()
        .map(|w| (w.file_name.as_str(), w.content))
        .collect();
    assert_eq!(
        files,
        vec![
            ("2025-10-13_23-20-22-231_+0000.jpg", FileContent::Picture),
            ("2025-10-13_23-20-22-231_+0000.json", FileContent::Metadata),
        ]
    );
}
