use chrono::{TimeZone, Timelike};
use porch_camera::camera::Frame;
use porch_camera::controller::capture::{
    compare_hashes, start_capture, CaptureAction, CaptureEvent, CapturePhase, CaptureSession,
};
use porch_camera::controller::scheduled::{
    schedule_action, ScheduleAction, ScheduleError, ScheduleEvent, SchedulePhase, ScheduledCapture,
    TimeSpan,
};
use porch_camera::store::FrameStore;
use porch_camera::time::{Timestamp, UtcInstant, MAX_SECS, MIN_SECS};
use porch_camera::trace::{install_tracing, trace_file_name, TraceSetup};
use std::path::PathBuf;
use std::str::FromStr;
use std::sync::Arc;

fn at(secs: i64) -> Timestamp {
    Timestamp::new(secs, 0, 0).unwrap()
}

fn instant(secs: i64, nanos: u32) -> UtcInstant {
    UtcInstant { secs, nanos }
}

fn frame(p_hash: &str) -> Frame {
    Frame {
        timestamp: Timestamp::from_timestamp_millis(1760397622231).unwrap(),
        jpeg: b"asdf".to_vec(),
        inference_tensor: vec![0],
        inference_jpeg: b"qwer".to_vec(),
        p_hash: p_hash.to_string(),
    }
}

fn store() -> Arc<FrameStore> {
    FrameStore::new(PathBuf::from("frames"))
}

#[test]
fn hashes_differ_by_their_bits() {
    let prev = |s: &str| Some(s.to_string());
    assert_eq!(compare_hashes(&None, "c41782ed3c9263cd"), None);
    assert_eq!(
        compare_hashes(&prev("c41782ed3c9263cd"), "c41782ed3c9263cd"),
        Some(0)
    );
    assert_eq!(compare_hashes(&prev("0"), "1"), Some(1));
    assert_eq!(compare_hashes(&prev("00"), "ff"), Some(8));
    assert_eq!(compare_hashes(&prev("ff"), "00"), Some(8));
    assert_eq!(compare_hashes(&prev("@"), "\u{7f}"), Some(6));
}

/// Hands the session a frame, after it looked at the time.
fn offer(session: CaptureSession, p_hash: &str) -> (CaptureSession, CaptureAction) {
    let (session, action) = session.step(CaptureEvent::Time(at(0)), &store());
    assert!(matches!(action, CaptureAction::Receive));
    session.step(CaptureEvent::Frame(frame(p_hash)), &store())
}

/// Has a kept frame stored.
fn keep(session: CaptureSession) -> CaptureSession {
    let (session, action) = session.step(CaptureEvent::Inferred(None), &store());
    assert!(matches!(action, CaptureAction::Store(_)));
    let (session, action) = session.step(CaptureEvent::Stored, &store());
    assert!(matches!(action, CaptureAction::CheckTime));
    session
}

#[test]
fn similar_frames_are_dropped() {
    let session = start_capture(at(100));
    assert_eq!(session.prev_p_hash, None);
    let (session, action) = offer(session, "0000000000000000");
    assert!(matches!(action, CaptureAction::Infer));
    match &session.phase {
        CapturePhase::Inferring(kept, distance) => {
            assert_eq!(kept.p_hash, "0000000000000000");
            assert_eq!(*distance, None);
        }
        _ => panic!("the first frame is kept"),
    }
    let session = keep(session);
    assert_eq!(session.prev_p_hash, Some("0000000000000000".to_string()));

    // The same picture
    let (session, action) = offer(session, "0000000000000000");
    assert!(matches!(action, CaptureAction::CheckTime));

    // 19 bits differ: nine digits by two bits and one by one bit
    let (session, action) = offer(session, "3333333331000000");
    assert!(matches!(action, CaptureAction::CheckTime));
    assert_eq!(session.prev_p_hash, Some("0000000000000000".to_string()));

    // 20 bits differ
    let (session, action) = offer(session, "3333333333000000");
    assert!(matches!(action, CaptureAction::Infer));
    match &session.phase {
        CapturePhase::Inferring(_, distance) => assert_eq!(*distance, Some(20)),
        _ => panic!("a different frame is kept"),
    }
    let session = keep(session);

    // It is compared with the last one kept
    let (session, action) = offer(session, "3333333333000000");
    assert!(matches!(action, CaptureAction::CheckTime));
    let (_, action) = offer(session, "0000000000000000");
    assert!(matches!(action, CaptureAction::Infer));
}

#[test]
fn kept_frames_are_stored_with_their_distance() {
    let (session, _) = offer(start_capture(at(100)), "0000000000000000");
    let session = keep(session);
    let (session, _) = offer(session, "3333333333000000");
    let (_, action) = session.step(CaptureEvent::Inferred(Some(vec![])), &store());
    match action {
        CaptureAction::Store(captured) => {
            assert_eq!(captured.entry.metadata.name, "2025-10-13_23-20-22-231_+0000");
            assert_eq!(captured.entry.metadata.p_hash, "3333333333000000");
            assert_eq!(captured.entry.metadata.p_hash_distance, Some(20));
            assert_eq!(captured.entry.inference.unwrap().len(), 0);
            assert_eq!(captured.writes.len(), 4);
        }
        _ => panic!("a kept frame is stored"),
    }
}

#[test]
fn a_capture_ends_at_its_time() {
    let (session, action) =
        start_capture(at(100)).step(CaptureEvent::Time(at(99)), &store());
    assert!(matches!(action, CaptureAction::Receive));
    let (session, action) = session.step(CaptureEvent::Lagged, &store());
    assert!(matches!(action, CaptureAction::CheckTime));
    let (session, action) = session.step(CaptureEvent::Time(at(100)), &store());
    assert!(matches!(action, CaptureAction::End));
    assert!(matches!(session.phase, CapturePhase::Over));
}

#[test]
fn a_capture_ends_with_the_stream() {
    let (session, _) = start_capture(at(100)).step(CaptureEvent::Time(at(0)), &store());
    let (session, action) = session.step(CaptureEvent::Closed, &store());
    assert!(matches!(action, CaptureAction::End));
    assert!(matches!(session.phase, CapturePhase::Over));
}

fn schedule(expression: &str) -> Result<ScheduledCapture, ScheduleError> {
    let three_hours = TimeSpan {
        secs: 3 * 3600,
        nanos: 0,
    };
    ScheduledCapture::start_with_cron(expression, "America/Los_Angeles", three_hours)
}

#[test]
fn cron_expressions_are_accepted() {
    let expression = "0 0 7 * * Mon,Tue,Wed,Thu,Fri *";
    let capture = schedule(expression).ok().unwrap();
    assert_eq!(capture.cron, expression);
    assert_eq!(capture.timezone, "America/Los_Angeles");
    assert_eq!(capture.duration.secs, 10_800);
    assert_eq!(capture.schedule, cron::Schedule::from_str(expression).unwrap());
    assert!(schedule("0 0 7 * * Sat,Sun *").is_ok());
}

#[test]
fn other_expressions_are_refused() {
    for expression in ["", "every morning", "0 0 25 * * Sat *"] {
        match schedule(expression) {
            Ok(_) => panic!("this is no cron expression"),
            Err(ScheduleError::InvalidCron(e)) => assert_eq!(
                e.to_string(),
                cron::Schedule::from_str(expression).unwrap_err().to_string()
            ),
        }
    }
}

#[test]
fn what_was_parsed_decides() {
    let span = TimeSpan { secs: 1, nanos: 2 };
    let parsed = cron::Schedule::from_str("@daily");
    let capture = ScheduledCapture::with_schedule(parsed, "x", "y", span)
        .ok()
        .unwrap();
    assert_eq!(capture.cron, "x");
    assert_eq!(capture.timezone, "y");
    assert_eq!(capture.duration, span);
    assert_eq!(capture.schedule.source(), "@daily");
    let parsed = cron::Schedule::from_str("@never");
    assert!(ScheduledCapture::with_schedule(parsed, "x", "y", span).is_err());
}

#[test]
fn a_scheduled_capture_is_planned() {
    let capture = schedule("@daily").ok().unwrap();
    let plan = capture.plan(&at(1000), &at(400)).unwrap();
    assert_eq!(plan.delay, Some(600));
    assert_eq!(plan.stop_time, instant(1000 + 10_800, 0));
    assert_eq!(capture.plan(&at(1000), &at(1000)).unwrap().delay, None);
    assert_eq!(capture.plan(&at(1000), &at(2000)).unwrap().delay, None);
    assert!(capture.plan(&at(MAX_SECS), &at(0)).is_none());

    let half = Timestamp::new(10, 500_000_000, -3600).unwrap();
    let mut capture = schedule("@daily").ok().unwrap();
    capture.duration = TimeSpan {
        secs: 1,
        nanos: 700_000_000,
    };
    assert_eq!(
        capture.plan(&half, &at(0)).unwrap().stop_time,
        instant(12, 200_000_000)
    );
    capture.duration = TimeSpan { secs: -1, nanos: 0 };
    assert_eq!(capture.plan(&at(5), &at(0)).unwrap().stop_time, instant(4, 0));
    assert!(capture.plan(&at(MIN_SECS), &at(0)).is_none());
}

#[test]
fn each_scheduled_time_is_captured_once() {
    let capture = schedule("@daily").ok().unwrap();
    let phase = SchedulePhase::Asking;
    assert_eq!(schedule_action(phase), ScheduleAction::Ask);

    // A time that lies ahead is waited for
    let (start, now) = (at(1000), at(400));
    let phase = capture.step(phase, ScheduleEvent::Next { start, now });
    assert_eq!(schedule_action(phase), ScheduleAction::Wait(600));
    let phase = capture.step(phase, ScheduleEvent::Waited);
    assert_eq!(schedule_action(phase), ScheduleAction::Capture(instant(11_800, 0)));
    let phase = capture.step(phase, ScheduleEvent::Captured);
    assert_eq!(schedule_action(phase), ScheduleAction::Ask);

    // One that has passed is not
    let (start, now) = (at(1000), at(1001));
    let phase = capture.step(phase, ScheduleEvent::Next { start, now });
    assert_eq!(schedule_action(phase), ScheduleAction::Capture(instant(11_800, 0)));
    let phase = capture.step(phase, ScheduleEvent::Captured);
    let phase = capture.step(phase, ScheduleEvent::Exhausted);
    assert_eq!(schedule_action(phase), ScheduleAction::End);
}

#[test]
fn a_capture_runs_by_its_expression() {
    let capture = schedule("0 0 7 * * Sat,Sun *").ok().unwrap();
    // A Wednesday
    let from = chrono::Utc.with_ymd_and_hms(2025, 10, 15, 0, 0, 0).unwrap();
    let times: Vec<chrono::DateTime<chrono::Utc>> = capture.schedule.after(&from).take(3).collect();
    let day = |d: u32| chrono::Utc.with_ymd_and_hms(2025, 10, d, 7, 0, 0).unwrap();
    assert_eq!(times, vec![day(18), day(19), day(25)]);
    assert!(times.iter().all(|t| t.nanosecond() == 0));
}

#[test]
fn stop_times_are_those_of_chrono() {
    let capture = schedule("@daily").ok().unwrap();
    let start = chrono::DateTime::from_timestamp(1760397622, 5).unwrap();
    let stop = start + chrono::Duration::seconds(10_800);
    let plan = capture
        .plan(&Timestamp::new(start.timestamp(), 5, 0).unwrap(), &at(0))
        .unwrap();
    assert_eq!(plan.stop_time.secs, stop.timestamp());
    assert_eq!(plan.stop_time.nanos, stop.timestamp_subsec_nanos());
}

#[test]
fn a_scheduled_capture_is_described() {
    let capture = schedule("0 0 7 * * Sat,Sun *").ok().unwrap();
    assert_eq!(
        capture.describe("180"),
        "\"0 0 7 * * Sat,Sun *\" (America/Los_Angeles) for 180 minutes"
    );
}

#[test]
fn traces_are_named_by_time() {
    let time = Timestamp::from_timestamp_millis(1760397622231).unwrap();
    assert_eq!(
        trace_file_name(&time, "capture"),
        "2025-10-13_23-20-22-231_+0000_capture.json"
    );
    assert!(matches!(
        install_tracing(false, false, &time),
        TraceSetup::Disabled
    ));
    assert!(matches!(
        install_tracing(false, true, &time),
        TraceSetup::Disabled
    ));
    assert!(matches!(
        install_tracing(true, true, &time),
        TraceSetup::AlreadyInstalled
    ));
    match install_tracing(true, false, &time) {
        TraceSetup::Install(name) => {
            assert_eq!(name, "2025-10-13_23-20-22-231_+0000_uvc.json")
        }
        _ => panic!("tracing is to be installed"),
    }
}
