use porch_camera::camera::format::{cmp_stream_format, FrameFormat, StreamFormat};
use porch_camera::camera::picture::{
    hash_to_hex_string, split_planes, FrameAction, FrameBuilder, FrameOutcome, FrameProgress,
    PICTURE_SIZE, PIXELS,
};
use porch_camera::camera::task::{CameraAction, CameraEvent, CameraTask};
use porch_camera::camera::{wait_for_state, CameraService, StreamCommand};
use porch_camera::time::Timestamp;

#[test]
fn test_cmp_stream_format_pixel_9a() {
    let a = StreamFormat {
        format: FrameFormat::MJPEG,
        width: 640,
        height: 360,
        fps: 30,
    };
    let b = StreamFormat {
        format: FrameFormat::MJPEG,
        width: 640,
        height: 480,
        fps: 30,
    };
    let c = StreamFormat {
        format: FrameFormat::MJPEG,
        width: 1280,
        height: 720,
        fps: 30,
    };
    let d = StreamFormat {
        format: FrameFormat::MJPEG,
        width: 1920,
        height: 1080,
        fps: 30,
    };

    // b beats a because width is larger
    let ab = cmp_stream_format(a, b);
    assert_eq!(ab.height, 480);

    // b beats c because width is <= 800
    let bc = cmp_stream_format(b, c);
    assert_eq!(bc.width, 640);

    // b beats d because width is <= 800
    let bd = cmp_stream_format(b, d);
    assert_eq!(bd.width, 640);
}

fn format(format: FrameFormat, width: u32, height: u32, fps: u32) -> StreamFormat {
    StreamFormat {
        format,
        width,
        height,
        fps,
    }
}

#[test]
fn known_encodings_are_preferred() {
    let raw = format(FrameFormat::Uncompressed, 160, 120, 60);
    let jpeg = format(FrameFormat::MJPEG, 640, 480, 30);
    let other = format(FrameFormat::YUYV, 800, 600, 5);
    assert_eq!(cmp_stream_format(raw, jpeg), raw);
    assert_eq!(cmp_stream_format(jpeg, raw), raw);
    assert_eq!(cmp_stream_format(jpeg, other), jpeg);
    assert_eq!(cmp_stream_format(other, jpeg), jpeg);
    assert_eq!(cmp_stream_format(other, raw), raw);
    let any = format(FrameFormat::Any, 640, 480, 5);
    assert_eq!(cmp_stream_format(any, other), other);
}

#[test]
fn wide_formats_are_compared_by_width() {
    let hd = format(FrameFormat::MJPEG, 1280, 720, 30);
    let full_hd = format(FrameFormat::MJPEG, 1920, 1080, 30);
    assert_eq!(cmp_stream_format(hd, full_hd), full_hd);
    assert_eq!(cmp_stream_format(full_hd, hd), full_hd);
    let limit = format(FrameFormat::MJPEG, 800, 100, 30);
    let above = format(FrameFormat::MJPEG, 801, 600, 30);
    assert_eq!(cmp_stream_format(above, limit), limit);
    assert_eq!(cmp_stream_format(limit, above), limit);
}

#[test]
fn slower_formats_are_preferred() {
    let slow = format(FrameFormat::MJPEG, 640, 480, 5);
    let fast = format(FrameFormat::MJPEG, 640, 480, 30);
    assert_eq!(cmp_stream_format(slow, fast), slow);
    assert_eq!(cmp_stream_format(fast, slow), slow);
}

#[test]
fn higher_formats_are_preferred_in_either_order() {
    let taller = format(FrameFormat::MJPEG, 640, 480, 30);
    let shorter = format(FrameFormat::MJPEG, 640, 360, 15);
    assert_eq!(cmp_stream_format(taller, shorter), taller);
    assert_eq!(cmp_stream_format(shorter, taller), taller);
}

#[test]
fn the_camera_runs_while_watched() {
    let mut service = CameraService::new();
    assert_eq!(service.subscriber_count, 0);
    assert_eq!(service.start(), StreamCommand::Start);
    assert_eq!(service.start(), StreamCommand::Start);
    assert_eq!(service.subscriber_count, 2);
    assert_eq!(service.stop(), None);
    assert_eq!(service.stop(), Some(StreamCommand::Stop));
    assert_eq!(service.subscriber_count, 0);
    assert_eq!(service.start(), StreamCommand::Start);
    assert_eq!(service.stop(), Some(StreamCommand::Stop));
}

#[test]
fn waiting_ends_with_the_desired_command() {
    let mut state = StreamCommand::Stop;
    assert!(wait_for_state(StreamCommand::Stop, &mut state, None));
    assert!(!wait_for_state(StreamCommand::Start, &mut state, None));
    assert!(!wait_for_state(
        StreamCommand::Start,
        &mut state,
        Some(StreamCommand::Stop)
    ));
    assert_eq!(state, StreamCommand::Stop);
    assert!(wait_for_state(
        StreamCommand::Start,
        &mut state,
        Some(StreamCommand::Start)
    ));
    assert_eq!(state, StreamCommand::Start);
}

#[test]
fn the_task_streams_on_command() {
    let chosen = format(FrameFormat::MJPEG, 640, 480, 30);
    let mut task = CameraTask::new();
    assert_eq!(task.action(), CameraAction::CreateContext);
    task.step(CameraEvent::Done);
    assert_eq!(task.action(), CameraAction::ListDevices);
    task.step(CameraEvent::Devices(vec![true, true, false]));
    assert_eq!(task.action(), CameraAction::Sleep(1000));
    task.step(CameraEvent::Done);
    assert_eq!(task.action(), CameraAction::OpenDevice(1));
    task.step(CameraEvent::Done);
    assert_eq!(task.action(), CameraAction::ChooseFormat);
    task.step(CameraEvent::Format(chosen));
    assert_eq!(task.action(), CameraAction::Receive);
    task.step(CameraEvent::Message(Some(StreamCommand::Stop)));
    assert_eq!(task.action(), CameraAction::Receive);
    for _ in 0..2 {
        task.step(CameraEvent::Message(Some(StreamCommand::Start)));
        assert_eq!(task.action(), CameraAction::OpenStream(chosen));
        task.step(CameraEvent::Done);
        assert_eq!(task.action(), CameraAction::StartStream);
        task.step(CameraEvent::Done);
        assert_eq!(task.action(), CameraAction::Sleep(100));
        task.step(CameraEvent::Done);
        assert_eq!(task.action(), CameraAction::Receive);
        task.step(CameraEvent::Message(Some(StreamCommand::Start)));
        assert_eq!(task.action(), CameraAction::Receive);
        task.step(CameraEvent::Message(None));
        assert_eq!(task.action(), CameraAction::Receive);
        task.step(CameraEvent::Message(Some(StreamCommand::Stop)));
        assert_eq!(task.action(), CameraAction::StopStream);
        task.step(CameraEvent::Done);
        assert_eq!(task.action(), CameraAction::Sleep(1000));
        task.step(CameraEvent::Done);
        assert_eq!(task.action(), CameraAction::Receive);
    }
}

#[test]
fn failures_start_the_task_over() {
    let mut task = CameraTask::new();
    task.step(CameraEvent::Failed);
    assert_eq!(task.action(), CameraAction::Sleep(3000));
    task.step(CameraEvent::Done);
    assert_eq!(task.action(), CameraAction::CreateContext);
    task.step(CameraEvent::Done);
    task.step(CameraEvent::Failed);
    assert_eq!(task.action(), CameraAction::Sleep(3000));
    task.step(CameraEvent::Done);
    task.step(CameraEvent::Done);
    for devices in [vec![], vec![false, false]] {
        task.step(CameraEvent::Devices(devices));
        assert_eq!(task.action(), CameraAction::Sleep(10_000));
        task.step(CameraEvent::Done);
        assert_eq!(task.action(), CameraAction::CreateContext);
        task.step(CameraEvent::Done);
    }
    task.step(CameraEvent::Devices(vec![true]));
    task.step(CameraEvent::Done);
    assert_eq!(task.action(), CameraAction::OpenDevice(0));
    task.step(CameraEvent::Failed);
    assert_eq!(task.action(), CameraAction::Sleep(3000));
}

#[test]
fn a_started_camera_streams_again_after_a_failure() {
    let chosen = format(FrameFormat::MJPEG, 640, 480, 30);
    let mut task = CameraTask::new();
    task.step(CameraEvent::Done);
    task.step(CameraEvent::Devices(vec![true]));
    task.step(CameraEvent::Done);
    task.step(CameraEvent::Done);
    task.step(CameraEvent::Format(chosen));
    task.step(CameraEvent::Message(Some(StreamCommand::Start)));
    task.step(CameraEvent::Done);
    assert_eq!(task.action(), CameraAction::StartStream);
    task.step(CameraEvent::Failed);
    assert_eq!(task.action(), CameraAction::Sleep(3000));
    task.step(CameraEvent::Done);
    task.step(CameraEvent::Done);
    task.step(CameraEvent::Devices(vec![true]));
    task.step(CameraEvent::Done);
    task.step(CameraEvent::Done);
    let other = format(FrameFormat::Uncompressed, 320, 240, 30);
    task.step(CameraEvent::Format(other));
    // The command to start was not forgotten
    assert_eq!(task.action(), CameraAction::OpenStream(other));
}

#[test]
fn hashes_are_written_in_hexadecimal() {
    assert_eq!(hash_to_hex_string(&vec![]), "");
    assert_eq!(
        hash_to_hex_string(&vec![0xc4, 0x17, 0x82, 0xed, 0x3c, 0x92, 0x63, 0xcd]),
        "c41782ed3c9263cd"
    );
    assert_eq!(hash_to_hex_string(&vec![0, 9, 10, 255]), "00090aff");
}

#[test]
fn pictures_are_split_by_colour() {
    let rgb: Vec<u8> = (0..PICTURE_SIZE).map(|i| (i % 251) as u8).collect();
    let tensor = split_planes(&rgb);
    assert_eq!(tensor.len(), 224 * 224 * 3);
    assert_eq!(PIXELS, 224 * 224);
    for (pixel, colour) in [(0, 0), (1, 0), (0, 1), (0, 2), (50_175, 2), (224, 1)] {
        assert_eq!(tensor[colour * PIXELS + pixel], rgb[pixel * 3 + colour]);
    }
}

fn working(progress: FrameProgress, action: FrameAction) -> FrameBuilder {
    match progress {
        FrameProgress::Working(builder) => {
            assert_eq!(builder.action, action);
            builder
        }
        _ => panic!("the frame is not in the making"),
    }
}

fn finish(builder: FrameBuilder) -> porch_camera::camera::Frame {
    let b = working(builder.step(FrameOutcome::Done), FrameAction::EncodeJpeg);
    let b = working(b.step(FrameOutcome::Bytes(vec![1])), FrameAction::Resize);
    let b = working(b.step(FrameOutcome::Done), FrameAction::EncodePreview);
    let b = working(
        b.step(FrameOutcome::Bytes(vec![2])),
        FrameAction::ConvertToRgb,
    );
    let mut rgb = vec![0; PICTURE_SIZE];
    rgb[1] = 7;
    let b = working(b.step(FrameOutcome::Bytes(rgb)), FrameAction::ComputeHash);
    match b.step(FrameOutcome::Bytes(vec![0xc4, 0x17])) {
        FrameProgress::Finished(frame) => frame,
        _ => panic!("the frame is not finished"),
    }
}

#[test]
fn a_frame_is_made_in_steps() {
    let timestamp = Timestamp::from_timestamp_millis(1760397622231).unwrap();
    let builder = FrameBuilder::new(timestamp, FrameFormat::YUYV);
    assert_eq!(builder.action, FrameAction::ConvertToBgr);
    let builder = working(builder.step(FrameOutcome::Done), FrameAction::WrapBgr);
    let frame = finish(builder);
    assert_eq!(frame.timestamp, timestamp);
    assert_eq!(frame.jpeg, vec![1]);
    assert_eq!(frame.inference_jpeg, vec![2]);
    assert_eq!(frame.inference_tensor.len(), PICTURE_SIZE);
    assert_eq!(frame.inference_tensor[1], 0);
    assert_eq!(frame.inference_tensor[PIXELS], 7);
    assert_eq!(frame.p_hash, "c417");
}

#[test]
fn an_mjpeg_image_may_be_decoded_instead() {
    let timestamp = Timestamp::from_timestamp_millis(0).unwrap();
    let builder = FrameBuilder::new(timestamp, FrameFormat::MJPEG);
    let builder = working(builder.step(FrameOutcome::Failed), FrameAction::DecodeMjpeg);
    assert_eq!(finish(builder).jpeg, vec![1]);
}

#[test]
fn failed_images_are_dropped() {
    let timestamp = Timestamp::from_timestamp_millis(0).unwrap();
    let builder = FrameBuilder::new(timestamp, FrameFormat::YUYV);
    assert!(matches!(
        builder.step(FrameOutcome::Failed),
        FrameProgress::Dropped
    ));
    let builder = FrameBuilder::new(timestamp, FrameFormat::MJPEG);
    let builder = working(builder.step(FrameOutcome::Failed), FrameAction::DecodeMjpeg);
    assert!(matches!(
        builder.step(FrameOutcome::Failed),
        FrameProgress::Dropped
    ));
    let builder = FrameBuilder::new(timestamp, FrameFormat::MJPEG);
    let builder = working(builder.step(FrameOutcome::Done), FrameAction::WrapBgr);
    let builder = working(builder.step(FrameOutcome::Done), FrameAction::EncodeJpeg);
    assert!(matches!(
        builder.step(FrameOutcome::Failed),
        FrameProgress::Dropped
    ));
}

#[test]
fn the_best_format_is_chosen_of_all() {
    let offered = [
        format(FrameFormat::Any, 800, 600, 30),
        format(FrameFormat::MJPEG, 1920, 1080, 30),
        format(FrameFormat::MJPEG, 640, 480, 30),
        format(FrameFormat::MJPEG, 800, 450, 5),
        format(FrameFormat::MJPEG, 800, 600, 30),
        format(FrameFormat::MJPEG, 800, 600, 15),
        format(FrameFormat::MJPEG, 320, 240, 5),
    ];
    let chosen = offered.iter().copied().reduce(cmp_stream_format).unwrap();
    assert_eq!(chosen, offered[5]);
    let chosen = offered.iter().rev().copied().reduce(cmp_stream_format).unwrap();
    assert_eq!(chosen, offered[5]);
}
