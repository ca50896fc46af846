//! Captures that recur by a schedule.

use crate::time::{Timestamp, UtcInstant, MAX_SECS, MIN_SECS, NANOS_PER_SEC};
use std::str::FromStr;
use vstd::prelude::*;
use vstd::string::*;

verus! {

/// `cron::Schedule`, carried through unopened.
#[verifier::external_type_specification]
#[verifier::external_body]
pub struct ExSchedule(cron::Schedule);

/// `cron::error::Error`, carried through unopened.
#[verifier::external_type_specification]
#[verifier::external_body]
pub struct ExCronError(cron::error::Error);

/// What a text means as a cron expression: a schedule, or why it is none.
pub uninterp spec fn parsed_schedule(expression: Seq<char>) -> Result<
    cron::Schedule,
    cron::error::Error,
>;

/// Calls `cron::Schedule::from_str`, and claims of it that what comes out, the
/// schedule or the error, is told by the text alone.
#[verifier::external_body]
fn parse_schedule(expression: &str) -> (r: Result<cron::Schedule, cron::error::Error>)
    ensures
        r == parsed_schedule(expression@),
{
    cron::Schedule::from_str(expression)
}

/// Why a capture cannot be scheduled.
pub enum ScheduleError {
    /// The expression that says when is none.
    InvalidCron(cron::error::Error),
}

/// The most seconds that a length of time can have.
pub const MAX_SPAN_SECS: i64 = 9_223_372_036_854_775;

/// A length of time.
#[derive(Clone, Copy, Debug, PartialEq, Eq, Structural)]
pub struct TimeSpan {
    pub secs: i64,
    pub nanos: u32,
}

impl TimeSpan {
    /// The length can be told.
    pub open spec fn is_valid(self) -> bool {
        &&& -MAX_SPAN_SECS - 1 <= self.secs <= MAX_SPAN_SECS
        &&& self.nanos < NANOS_PER_SEC
    }

    /// The length in nanoseconds.
    pub open spec fn total_nanos(self) -> int {
        self.secs * NANOS_PER_SEC + self.nanos
    }
}

/// Nanoseconds since the first of January 1970, without leap seconds.
pub open spec fn nanos_of(time: Timestamp) -> int {
    time.secs * NANOS_PER_SEC + time.nanos
}

/// Not in a leap second.
pub open spec fn is_regular(time: Timestamp) -> bool {
    time.is_valid() && time.nanos < NANOS_PER_SEC
}

/// A recurring period of time in which the camera is woken up and frames are
/// captured, checked for visual changes, and saved to disk if changed.
pub struct ScheduledCapture {
    /// When the period begins.
    pub schedule: cron::Schedule,
    /// The expression that says so.
    pub cron: String,
    /// The time zone that the expression is meant for.
    pub timezone: String,
    /// How long it lasts.
    pub duration: TimeSpan,
}

/// A capture that is due.
#[derive(Clone, Copy, Debug, PartialEq, Eq, Structural)]
pub struct CapturePlan {
    /// Seconds to wait before it starts, if any.
    pub delay: Option<u64>,
    pub stop_time: UtcInstant,
}

/// How many seconds to wait for a capture that starts at `start`.
pub open spec fn delay_until(start: Timestamp, now: Timestamp) -> Option<u64> {
    if start.secs > now.secs {
        Some((start.secs - now.secs) as u64)
    } else {
        None
    }
}

/// The instant that many nanoseconds after 1970 can be told.
pub open spec fn can_be_told(nanos: int) -> bool {
    MIN_SECS <= nanos / NANOS_PER_SEC as int <= MAX_SECS
}

/// The instant that many nanoseconds after 1970.
pub open spec fn instant_at(nanos: int) -> UtcInstant {
    UtcInstant {
        secs: (nanos / NANOS_PER_SEC as int) as i64,
        nanos: (nanos % NANOS_PER_SEC as int) as u32,
    }
}

/// What to do about a capture that begins at `start`: wait until then, and stop
/// when it has lasted its time.
pub open spec fn plan_of(start: Timestamp, duration: TimeSpan, now: Timestamp) -> Option<
    CapturePlan,
> {
    let stop = nanos_of(start) + duration.total_nanos();
    if can_be_told(stop) {
        Some(
            CapturePlan {
                delay: delay_until(start, now),
                stop_time: instant_at(stop),
            },
        )
    } else {
        None
    }
}

/// What a scheduled capture is waiting for.
#[derive(Clone, Copy, Debug, PartialEq, Eq, Structural)]
pub enum SchedulePhase {
    /// For the schedule to say when it begins next.
    Asking,
    /// For that many seconds to pass, before a capture until the given time.
    Waiting(u64, UtcInstant),
    /// For a capture to end, which lasts until the given time.
    Capturing(UtcInstant),
    /// For nothing: it does not begin again.
    Over,
}

/// What happened.
#[derive(Clone, Copy, Debug, PartialEq, Eq, Structural)]
pub enum ScheduleEvent {
    /// The schedule has it begin at `start`, and it is `now`.
    Next { start: Timestamp, now: Timestamp },
    /// The schedule has no more times.
    Exhausted,
    /// The time to wait has passed.
    Waited,
    /// The capture ended, well or not.
    Captured,
}

/// What is to be done.
#[derive(Clone, Copy, Debug, PartialEq, Eq, Structural)]
pub enum ScheduleAction {
    /// Ask the schedule for the next time.
    Ask,
    /// Wait that many seconds.
    Wait(u64),
    /// Capture frames until that time.
    Capture(UtcInstant),
    /// End.
    End,
}

/// What is to be done in a phase.
pub open spec fn action_in(phase: SchedulePhase) -> ScheduleAction {
    match phase {
        SchedulePhase::Asking => ScheduleAction::Ask,
        SchedulePhase::Waiting(delay, _) => ScheduleAction::Wait(delay),
        SchedulePhase::Capturing(stop_time) => ScheduleAction::Capture(stop_time),
        SchedulePhase::Over => ScheduleAction::End,
    }
}

/// The event can happen in the phase. A time that the schedule gives is regular,
/// and so early that the end of the capture can be told.
pub open spec fn can_see(phase: SchedulePhase, duration: TimeSpan, event: ScheduleEvent) -> bool {
    match phase {
        SchedulePhase::Asking => match event {
            ScheduleEvent::Next { start, now } => is_regular(start) && now.is_valid()
                && can_be_told(nanos_of(start) + duration.total_nanos()),
            ScheduleEvent::Exhausted => true,
            _ => false,
        },
        SchedulePhase::Waiting(_, _) => event is Waited,
        SchedulePhase::Capturing(_) => event is Captured,
        SchedulePhase::Over => false,
    }
}

/// The phase after the event.
pub open spec fn next_phase(
    phase: SchedulePhase,
    duration: TimeSpan,
    event: ScheduleEvent,
) -> SchedulePhase {
    match (phase, event) {
        (SchedulePhase::Asking, ScheduleEvent::Next { start, now }) => {
            let plan = plan_of(start, duration, now)->0;
            match plan.delay {
                Some(delay) => SchedulePhase::Waiting(delay, plan.stop_time),
                None => SchedulePhase::Capturing(plan.stop_time),
            }
        },
        (SchedulePhase::Asking, _) => SchedulePhase::Over,
        (SchedulePhase::Waiting(_, stop_time), _) => SchedulePhase::Capturing(stop_time),
        (SchedulePhase::Capturing(_), _) => SchedulePhase::Asking,
        (SchedulePhase::Over, _) => SchedulePhase::Over,
    }
}

/// What is to be done in a phase.
pub fn schedule_action(phase: SchedulePhase) -> (r: ScheduleAction)
    ensures
        r == action_in(phase),
{
    match phase {
        SchedulePhase::Asking => ScheduleAction::Ask,
        SchedulePhase::Waiting(delay, _) => ScheduleAction::Wait(delay),
        SchedulePhase::Capturing(stop_time) => ScheduleAction::Capture(stop_time),
        SchedulePhase::Over => ScheduleAction::End,
    }
}

impl ScheduledCapture {
    /// Schedules a capture.
    /// Cron format is "sec min hour day month weekday year"
    pub fn start_with_cron(
        start_watching_cron_expression: &str,
        timezone: &str,
        duration: TimeSpan,
    ) -> (r: Result<ScheduledCapture, ScheduleError>)
        ensures
            match parsed_schedule(start_watching_cron_expression@) {
                Ok(schedule) => r matches Ok(capture) && capture.schedule == schedule
                    && capture.cron@ == start_watching_cron_expression@ && capture.timezone@
                    == timezone@ && capture.duration == duration,
                Err(e) => r == Err::<ScheduledCapture, ScheduleError>(
                    ScheduleError::InvalidCron(e),
                ),
            },
    {
        let parsed: Result<cron::Schedule, cron::error::Error> = parse_schedule(
            start_watching_cron_expression,
        );
        ScheduledCapture::with_schedule(parsed, start_watching_cron_expression, timezone, duration)
    }

    /// Schedules a capture by what came of reading the expression.
    pub fn with_schedule(
        parsed: Result<cron::Schedule, cron::error::Error>,
        start_watching_cron_expression: &str,
        timezone: &str,
        duration: TimeSpan,
    ) -> (r: Result<ScheduledCapture, ScheduleError>)
        ensures
            match parsed {
                Ok(schedule) => r matches Ok(capture) && capture.schedule == schedule
                    && capture.cron@ == start_watching_cron_expression@ && capture.timezone@
                    == timezone@ && capture.duration == duration,
                Err(e) => r == Err::<ScheduledCapture, ScheduleError>(
                    ScheduleError::InvalidCron(e),
                ),
            },
    {
        match parsed {
            Ok(schedule) => Ok(
                ScheduledCapture {
                    schedule,
                    cron: start_watching_cron_expression.to_owned(),
                    timezone: timezone.to_owned(),
                    duration,
                },
            ),
            Err(e) => Err(ScheduleError::InvalidCron(e)),
        }
    }

    /// What to do about the capture that the schedule has begin at `start`. There
    /// is no plan where its end cannot be told.
    pub fn plan(&self, start: &Timestamp, now: &Timestamp) -> (r: Option<CapturePlan>)
        requires
            self.duration.is_valid(),
            is_regular(*start),
            now.is_valid(),
        ensures
            r == plan_of(*start, self.duration, *now),
    {
        let mut secs: i64 = start.secs + self.duration.secs;
        let mut nanos: u32 = start.nanos + self.duration.nanos;
        let ghost total = nanos_of(*start) + self.duration.total_nanos();
        assert(total == secs * NANOS_PER_SEC + nanos);
        if nanos >= NANOS_PER_SEC {
            secs = secs + 1;
            nanos = nanos - NANOS_PER_SEC;
        }
        assert(total == secs * NANOS_PER_SEC + nanos);
        assert(total / NANOS_PER_SEC as int == secs && total % NANOS_PER_SEC as int == nanos);
        if secs < MIN_SECS || secs > MAX_SECS {
            return None;
        }
        let delay: Option<u64> = if start.secs > now.secs {
            Some((start.secs - now.secs) as u64)
        } else {
            None
        };
        Some(CapturePlan { delay, stop_time: UtcInstant { secs, nanos } })
    }

    /// Goes on after the event.
    pub fn step(&self, phase: SchedulePhase, event: ScheduleEvent) -> (r: SchedulePhase)
        requires
            self.duration.is_valid(),
            can_see(phase, self.duration, event),
        ensures
            r == next_phase(phase, self.duration, event),
    {
        match (phase, event) {
            (SchedulePhase::Asking, ScheduleEvent::Next { start, now }) => match self.plan(
                &start,
                &now,
            ) {
                Some(plan) => match plan.delay {
                    Some(delay) => SchedulePhase::Waiting(delay, plan.stop_time),
                    None => SchedulePhase::Capturing(plan.stop_time),
                },
                None => SchedulePhase::Over,
            },
            (SchedulePhase::Asking, _) => SchedulePhase::Over,
            (SchedulePhase::Waiting(_, stop_time), _) => SchedulePhase::Capturing(stop_time),
            (SchedulePhase::Capturing(_), _) => SchedulePhase::Asking,
            (SchedulePhase::Over, _) => SchedulePhase::Over,
        }
    }

    /// Describes the capture. `minutes` is its length in minutes, as a decimal
    /// number.
    pub fn describe(&self, minutes: &str) -> (r: String)
        ensures
            r@ == "\""@ + self.cron@ + "\" ("@ + self.timezone@ + ") for "@ + minutes@
                + " minutes"@,
    {
        let mut s: String = "\"".to_owned();
        s.append(&self.cron);
        s.append("\" (");
        s.append(&self.timezone);
        s.append(") for ");
        s.append(minutes);
        s.append(" minutes");
        s
    }
}

/// A planned capture stops its duration after it starts.
pub proof fn law_plan_stops_after_duration(start: Timestamp, duration: TimeSpan, now: Timestamp)
    requires
        is_regular(start),
        duration.is_valid(),
        plan_of(start, duration, now) is Some,
    ensures
        ({
            let stop_time = (plan_of(start, duration, now)->0).stop_time;
            &&& MIN_SECS <= stop_time.secs <= MAX_SECS
            &&& stop_time.nanos < NANOS_PER_SEC
            &&& stop_time.secs * NANOS_PER_SEC + stop_time.nanos == nanos_of(start)
                + duration.total_nanos()
        }),
{
    let stop = nanos_of(start) + duration.total_nanos();
    assert(stop == stop / NANOS_PER_SEC as int * NANOS_PER_SEC + stop % NANOS_PER_SEC as int);
}

/// For each time that the schedule gives there is one capture, after the wait for
/// that time if it lies ahead, and only when it has ended, well or not, is the
/// schedule asked again.
pub proof fn law_each_time_is_captured_once(
    start: Timestamp,
    duration: TimeSpan,
    now: Timestamp,
)
    requires
        can_see(SchedulePhase::Asking, duration, ScheduleEvent::Next { start, now }),
    ensures
        ({
            let plan = plan_of(start, duration, now)->0;
            let told = next_phase(
                SchedulePhase::Asking,
                duration,
                ScheduleEvent::Next { start, now },
            );
            let capturing = match delay_until(start, now) {
                Some(_) => next_phase(told, duration, ScheduleEvent::Waited),
                None => told,
            };
            &&& delay_until(start, now) matches Some(delay) ==> action_in(told)
                == ScheduleAction::Wait(delay)
            &&& action_in(capturing) == ScheduleAction::Capture(plan.stop_time)
            &&& action_in(next_phase(capturing, duration, ScheduleEvent::Captured))
                == ScheduleAction::Ask
        }),
{
}

/// A capture lasts as long as it is meant to: at any regular time it is over
/// exactly if that much time has passed since it began.
pub proof fn law_capture_lasts_for_its_duration(
    start: Timestamp,
    duration: TimeSpan,
    stop_time: Timestamp,
    now: Timestamp,
)
    requires
        is_regular(start),
        is_regular(stop_time),
        is_regular(now),
        nanos_of(stop_time) == nanos_of(start) + duration.total_nanos(),
    ensures
        now.not_before(stop_time) <==> nanos_of(now) - nanos_of(start) >= duration.total_nanos(),
{
}

/// Waiting for a capture, and no longer, brings its first second.
pub proof fn law_delay_brings_the_start(start: Timestamp, now: Timestamp)
    requires
        start.is_valid(),
        now.is_valid(),
    ensures
        delay_until(start, now) matches Some(delay) ==> now.secs + delay == start.secs,
        delay_until(start, now) is None ==> now.secs >= start.secs,
{
}

/// A capture that begins at `start` is waited for by as many seconds as that is ahead
/// of now, if it is, and stops when as much time has passed since as it is meant to
/// last; there is a plan exactly if that is in the range of instants.
pub proof fn law_plan_in_figures(start: Timestamp, duration: TimeSpan, now: Timestamp)
    requires
        start.is_valid(),
        now.is_valid(),
        duration.is_valid(),
        start.nanos < 1_000_000_000,
    ensures
        ({
            let stop = (start.secs + duration.secs) * 1_000_000_000 + start.nanos + duration.nanos;
            &&& plan_of(start, duration, now) is Some <==> -8_334_601_228_800 * 1_000_000_000
                <= stop < 8_210_266_876_800 * 1_000_000_000
            &&& plan_of(start, duration, now) matches Some(plan) ==> {
                &&& plan.stop_time.secs * 1_000_000_000 + plan.stop_time.nanos == stop
                &&& plan.stop_time.nanos < 1_000_000_000
                &&& plan.delay is Some <==> start.secs > now.secs
                &&& plan.delay matches Some(delay) ==> now.secs + delay == start.secs
            }
        }),
{
    if plan_of(start, duration, now) is Some {
        law_plan_stops_after_duration(start, duration, now);
    }
}

/// The way of a scheduled capture, from one time to the next: it waits for the seconds
/// that are left until then, or not at all where none are, captures until its time is
/// up, and asks again; where there is no more time, it ends.
pub proof fn law_way_of_a_schedule(
    asking: SchedulePhase,
    start: Timestamp,
    duration: TimeSpan,
    now: Timestamp,
)
    requires
        action_in(asking) == ScheduleAction::Ask,
        start.is_valid(),
        now.is_valid(),
        duration.is_valid(),
        start.nanos < 1_000_000_000,
        ({
            let stop = (start.secs + duration.secs) * 1_000_000_000 + start.nanos + duration.nanos;
            -8_334_601_228_800 * 1_000_000_000 <= stop < 8_210_266_876_800 * 1_000_000_000
        }),
    ensures
        ({
            let stop = (start.secs + duration.secs) * 1_000_000_000 + start.nanos + duration.nanos;
            let told = next_phase(asking, duration, ScheduleEvent::Next { start, now });
            let capturing = if start.secs > now.secs {
                next_phase(told, duration, ScheduleEvent::Waited)
            } else {
                told
            };
            let again = next_phase(capturing, duration, ScheduleEvent::Captured);
            &&& can_see(asking, duration, ScheduleEvent::Next { start, now })
            &&& start.secs > now.secs ==> action_in(told) is Wait && now.secs + action_in(
                told,
            )->Wait_0 == start.secs
            &&& action_in(capturing) is Capture
            &&& action_in(capturing)->Capture_0.nanos < 1_000_000_000
            &&& action_in(capturing)->Capture_0.secs * 1_000_000_000 + action_in(
                capturing,
            )->Capture_0.nanos == stop
            &&& action_in(again) == ScheduleAction::Ask
            &&& again == asking
            &&& action_in(next_phase(asking, duration, ScheduleEvent::Exhausted))
                == ScheduleAction::End
        }),
{
    law_plan_in_figures(start, duration, now);
}

} // verus!
