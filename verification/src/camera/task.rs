//! The task that runs the camera: what it does next, by what came of the last
//! thing it did.

use crate::camera::format::StreamFormat;
use crate::camera::{wait_for_state, StreamCommand};
use vstd::prelude::*;

verus! {

/// How long to wait after a failure, in milliseconds.
pub const FAILURE_PAUSE: u64 = 3_000;

/// How long to wait where there is no camera.
pub const NO_DEVICE_PAUSE: u64 = 10_000;

/// How long to wait before a camera is opened.
pub const OPENING_PAUSE: u64 = 1_000;

/// How long to wait after a stream was started.
pub const STARTED_PAUSE: u64 = 100;

/// How long to wait after a stream was stopped.
pub const STOPPED_PAUSE: u64 = 1_000;

/// What the task is busy with.
#[derive(Clone, Copy, Debug, PartialEq, Eq, Structural)]
pub enum CameraPhase {
    CreatingContext,
    ListingDevices,
    /// Waiting that many milliseconds before it starts over.
    Retrying(u64),
    /// Waiting before it opens a device.
    BeforeOpening(usize),
    OpeningDevice(usize),
    ChoosingFormat,
    AwaitingStart(StreamFormat),
    OpeningStream(StreamFormat),
    StartingStream(StreamFormat),
    AfterStarting(StreamFormat),
    AwaitingStop(StreamFormat),
    StoppingStream(StreamFormat),
    AfterStopping(StreamFormat),
}

/// What is to be done next.
#[derive(Clone, Copy, Debug, PartialEq, Eq, Structural)]
pub enum CameraAction {
    CreateContext,
    ListDevices,
    /// Wait that many milliseconds.
    Sleep(u64),
    OpenDevice(usize),
    ChooseFormat,
    /// Wait for a message.
    Receive,
    OpenStream(StreamFormat),
    StartStream,
    StopStream,
}

/// What came of an action.
#[derive(Debug)]
pub enum CameraEvent {
    Done,
    Failed,
    /// The devices were listed; for each, whether it could be described.
    Devices(Vec<bool>),
    /// A format was chosen.
    Format(StreamFormat),
    /// A message arrived, or none will any more.
    Message(Option<StreamCommand>),
}

/// The state of the task.
#[derive(Debug)]
pub struct CameraTask {
    pub phase: CameraPhase,
    /// The last command that was obeyed.
    pub command: StreamCommand,
}

/// What is to be done in a phase.
pub open spec fn action_in(phase: CameraPhase) -> CameraAction {
    match phase {
        CameraPhase::CreatingContext => CameraAction::CreateContext,
        CameraPhase::ListingDevices => CameraAction::ListDevices,
        CameraPhase::Retrying(millis) => CameraAction::Sleep(millis),
        CameraPhase::BeforeOpening(_) => CameraAction::Sleep(OPENING_PAUSE),
        CameraPhase::OpeningDevice(device) => CameraAction::OpenDevice(device),
        CameraPhase::ChoosingFormat => CameraAction::ChooseFormat,
        CameraPhase::AwaitingStart(_) => CameraAction::Receive,
        CameraPhase::OpeningStream(format) => CameraAction::OpenStream(format),
        CameraPhase::StartingStream(_) => CameraAction::StartStream,
        CameraPhase::AfterStarting(_) => CameraAction::Sleep(STARTED_PAUSE),
        CameraPhase::AwaitingStop(_) => CameraAction::Receive,
        CameraPhase::StoppingStream(_) => CameraAction::StopStream,
        CameraPhase::AfterStopping(_) => CameraAction::Sleep(STOPPED_PAUSE),
    }
}

/// The action can end with the event.
pub open spec fn can_end_with(action: CameraAction, event: CameraEvent) -> bool {
    match action {
        CameraAction::Sleep(_) | CameraAction::StopStream => event is Done,
        CameraAction::ListDevices => event is Devices || event is Failed,
        CameraAction::ChooseFormat => event is Format || event is Failed,
        CameraAction::Receive => event is Message,
        _ => event is Done || event is Failed,
    }
}

/// The last device that could be described.
pub open spec fn last_described(described: Seq<bool>) -> Option<usize>
    decreases described.len(),
{
    if described.len() == 0 {
        None
    } else if described.last() {
        Some((described.len() - 1) as usize)
    } else {
        last_described(described.drop_last())
    }
}

/// The command that is obeyed after the event, in a phase that waits for
/// `desired`.
pub open spec fn heard(
    desired: StreamCommand,
    command: StreamCommand,
    event: CameraEvent,
) -> StreamCommand {
    match event {
        CameraEvent::Message(Some(message)) => if message == desired {
            desired
        } else {
            command
        },
        _ => command,
    }
}

/// Where the task goes that has a format and waits to be started.
pub open spec fn awaiting_start(command: StreamCommand, format: StreamFormat) -> CameraPhase {
    if command == StreamCommand::Start {
        CameraPhase::OpeningStream(format)
    } else {
        CameraPhase::AwaitingStart(format)
    }
}

/// Where the task goes that streams and waits to be stopped.
pub open spec fn awaiting_stop(command: StreamCommand, format: StreamFormat) -> CameraPhase {
    if command == StreamCommand::Stop {
        CameraPhase::StoppingStream(format)
    } else {
        CameraPhase::AwaitingStop(format)
    }
}

/// The command that is obeyed after the event.
pub open spec fn next_command(task: CameraTask, event: CameraEvent) -> StreamCommand {
    match task.phase {
        CameraPhase::AwaitingStart(_) => heard(StreamCommand::Start, task.command, event),
        CameraPhase::AwaitingStop(_) => heard(StreamCommand::Stop, task.command, event),
        _ => task.command,
    }
}

/// The phase after the event.
pub open spec fn next_phase(task: CameraTask, event: CameraEvent) -> CameraPhase {
    let command = next_command(task, event);
    if event is Failed {
        CameraPhase::Retrying(FAILURE_PAUSE)
    } else {
        match task.phase {
            CameraPhase::CreatingContext => CameraPhase::ListingDevices,
            CameraPhase::ListingDevices => match last_described(event->Devices_0@) {
                Some(device) => CameraPhase::BeforeOpening(device),
                None => CameraPhase::Retrying(NO_DEVICE_PAUSE),
            },
            CameraPhase::Retrying(_) => CameraPhase::CreatingContext,
            CameraPhase::BeforeOpening(device) => CameraPhase::OpeningDevice(device),
            CameraPhase::OpeningDevice(_) => CameraPhase::ChoosingFormat,
            CameraPhase::ChoosingFormat => awaiting_start(command, event->Format_0),
            CameraPhase::AwaitingStart(format) => awaiting_start(command, format),
            CameraPhase::OpeningStream(format) => CameraPhase::StartingStream(format),
            CameraPhase::StartingStream(format) => CameraPhase::AfterStarting(format),
            CameraPhase::AfterStarting(format) => awaiting_stop(command, format),
            CameraPhase::AwaitingStop(format) => awaiting_stop(command, format),
            CameraPhase::StoppingStream(format) => CameraPhase::AfterStopping(format),
            CameraPhase::AfterStopping(format) => awaiting_start(command, format),
        }
    }
}

fn find_last_described(described: &Vec<bool>) -> (r: Option<usize>)
    ensures
        r == last_described(described@),
{
    let mut n: usize = described.len();
    assert(described@.take(n as int) =~= described@);
    while n > 0
        invariant
            n <= described@.len(),
            last_described(described@) == last_described(described@.take(n as int)),
        decreases n,
    {
        proof {
            let front = described@.take(n as int);
            assert(front.last() == described@[n - 1]);
            assert(front.drop_last() =~= described@.take(n - 1));
        }
        if described[n - 1] {
            return Some(n - 1);
        }
        n = n - 1;
    }
    None
}

fn await_start(command: StreamCommand, format: StreamFormat) -> (r: CameraPhase)
    ensures
        r == awaiting_start(command, format),
{
    if command == StreamCommand::Start {
        CameraPhase::OpeningStream(format)
    } else {
        CameraPhase::AwaitingStart(format)
    }
}

fn await_stop(command: StreamCommand, format: StreamFormat) -> (r: CameraPhase)
    ensures
        r == awaiting_stop(command, format),
{
    if command == StreamCommand::Stop {
        CameraPhase::StoppingStream(format)
    } else {
        CameraPhase::AwaitingStop(format)
    }
}

impl CameraTask {
    /// A stream is opened and run only on command, and closed only on command.
    pub open spec fn is_obedient(self) -> bool {
        match self.phase {
            CameraPhase::OpeningStream(_)
            | CameraPhase::StartingStream(_)
            | CameraPhase::AfterStarting(_)
            | CameraPhase::AwaitingStop(_) => self.command == StreamCommand::Start,
            CameraPhase::AwaitingStart(_)
            | CameraPhase::StoppingStream(_)
            | CameraPhase::AfterStopping(_) => self.command == StreamCommand::Stop,
            _ => true,
        }
    }

    /// The task as it begins, with the camera stopped.
    pub fn new() -> (r: CameraTask)
        ensures
            r.phase == CameraPhase::CreatingContext,
            r.command == StreamCommand::Stop,
            r.is_obedient(),
    {
        CameraTask { phase: CameraPhase::CreatingContext, command: StreamCommand::Stop }
    }

    /// What is to be done next.
    pub fn action(&self) -> (r: CameraAction)
        ensures
            r == action_in(self.phase),
    {
        match self.phase {
            CameraPhase::CreatingContext => CameraAction::CreateContext,
            CameraPhase::ListingDevices => CameraAction::ListDevices,
            CameraPhase::Retrying(millis) => CameraAction::Sleep(millis),
            CameraPhase::BeforeOpening(_) => CameraAction::Sleep(OPENING_PAUSE),
            CameraPhase::OpeningDevice(device) => CameraAction::OpenDevice(device),
            CameraPhase::ChoosingFormat => CameraAction::ChooseFormat,
            CameraPhase::AwaitingStart(_) => CameraAction::Receive,
            CameraPhase::OpeningStream(format) => CameraAction::OpenStream(format),
            CameraPhase::StartingStream(_) => CameraAction::StartStream,
            CameraPhase::AfterStarting(_) => CameraAction::Sleep(STARTED_PAUSE),
            CameraPhase::AwaitingStop(_) => CameraAction::Receive,
            CameraPhase::StoppingStream(_) => CameraAction::StopStream,
            CameraPhase::AfterStopping(_) => CameraAction::Sleep(STOPPED_PAUSE),
        }
    }

    /// Goes on after the action ended with the event.
    pub fn step(&mut self, event: CameraEvent)
        requires
            can_end_with(action_in(old(self).phase), event),
        ensures
            final(self).phase == next_phase(*old(self), event),
            final(self).command == next_command(*old(self), event),
            old(self).is_obedient() ==> final(self).is_obedient(),
    {
        match (self.phase, event) {
            (_, CameraEvent::Failed) => {
                self.phase = CameraPhase::Retrying(FAILURE_PAUSE);
            },
            (CameraPhase::CreatingContext, _) => {
                self.phase = CameraPhase::ListingDevices;
            },
            (CameraPhase::ListingDevices, CameraEvent::Devices(described)) => {
                self.phase = match find_last_described(&described) {
                    Some(device) => CameraPhase::BeforeOpening(device),
                    None => CameraPhase::Retrying(NO_DEVICE_PAUSE),
                };
            },
            (CameraPhase::Retrying(_), _) => {
                self.phase = CameraPhase::CreatingContext;
            },
            (CameraPhase::BeforeOpening(device), _) => {
                self.phase = CameraPhase::OpeningDevice(device);
            },
            (CameraPhase::OpeningDevice(_), _) => {
                self.phase = CameraPhase::ChoosingFormat;
            },
            (CameraPhase::ChoosingFormat, CameraEvent::Format(format)) => {
                self.phase = await_start(self.command, format);
            },
            (CameraPhase::AwaitingStart(format), CameraEvent::Message(message)) => {
                wait_for_state(StreamCommand::Start, &mut self.command, message);
                self.phase = await_start(self.command, format);
            },
            (CameraPhase::OpeningStream(format), _) => {
                self.phase = CameraPhase::StartingStream(format);
            },
            (CameraPhase::StartingStream(format), _) => {
                self.phase = CameraPhase::AfterStarting(format);
            },
            (CameraPhase::AfterStarting(format), _) => {
                self.phase = await_stop(self.command, format);
            },
            (CameraPhase::AwaitingStop(format), CameraEvent::Message(message)) => {
                wait_for_state(StreamCommand::Stop, &mut self.command, message);
                self.phase = await_stop(self.command, format);
            },
            (CameraPhase::StoppingStream(format), _) => {
                self.phase = CameraPhase::AfterStopping(format);
            },
            (CameraPhase::AfterStopping(format), _) => {
                self.phase = await_start(self.command, format);
            },
            _ => {},
        }
    }
}

/// The state of the task after the event.
pub open spec fn after(task: CameraTask, event: CameraEvent) -> CameraTask {
    CameraTask { phase: next_phase(task, event), command: next_command(task, event) }
}

/// Streams are opened and started only while the last command was to start, and
/// stopped only after the command to stop.
pub proof fn law_streams_on_command(task: CameraTask, event: CameraEvent)
    requires
        task.is_obedient(),
        can_end_with(action_in(task.phase), event),
    ensures
        after(task, event).is_obedient(),
        match action_in(next_phase(task, event)) {
            CameraAction::OpenStream(_) | CameraAction::StartStream => next_command(task, event)
                == StreamCommand::Start,
            CameraAction::StopStream => next_command(task, event) == StreamCommand::Stop,
            _ => true,
        },
{
}

/// Every message that arrives is obeyed: the command becomes the one in the
/// message, a waiting stream is opened exactly by the message to start, and a
/// running one stopped exactly by the message to stop.
pub proof fn law_messages_are_obeyed(task: CameraTask, message: StreamCommand)
    requires
        task.is_obedient(),
        task.phase is AwaitingStart || task.phase is AwaitingStop,
    ensures
        ({
            let event = CameraEvent::Message(Some(message));
            &&& next_command(task, event) == message
            &&& task.phase is AwaitingStart ==> (message == StreamCommand::Start <==> next_phase(
                task,
                event,
            ) is OpeningStream)
            &&& task.phase is AwaitingStop ==> (message == StreamCommand::Stop <==> next_phase(
                task,
                event,
            ) is StoppingStream)
        }),
{
}

/// Where no message will arrive any more, the task stays as it is.
pub proof fn law_silence_changes_nothing(task: CameraTask)
    requires
        task.is_obedient(),
        task.phase is AwaitingStart || task.phase is AwaitingStop,
    ensures
        after(task, CameraEvent::Message(None)) == task,
{
}

/// After any failure the task waits and then starts over, with the last command
/// in mind.
pub proof fn law_failure_starts_over(task: CameraTask)
    ensures
        action_in(next_phase(task, CameraEvent::Failed)) == CameraAction::Sleep(FAILURE_PAUSE),
        action_in(next_phase(after(task, CameraEvent::Failed), CameraEvent::Done))
            == CameraAction::CreateContext,
        after(after(task, CameraEvent::Failed), CameraEvent::Done).command == task.command,
{
}

/// The format that a phase works with.
pub open spec fn format_in(phase: CameraPhase) -> Option<StreamFormat> {
    match phase {
        CameraPhase::AwaitingStart(format)
        | CameraPhase::OpeningStream(format)
        | CameraPhase::StartingStream(format)
        | CameraPhase::AfterStarting(format)
        | CameraPhase::AwaitingStop(format)
        | CameraPhase::StoppingStream(format)
        | CameraPhase::AfterStopping(format) => Some(format),
        _ => None,
    }
}

/// The format that was chosen is used for every stream until a failure.
pub proof fn law_format_is_kept(task: CameraTask, event: CameraEvent)
    requires
        can_end_with(action_in(task.phase), event),
        !(event is Failed),
    ensures
        format_in(task.phase) is Some ==> format_in(next_phase(task, event)) == format_in(
            task.phase,
        ),
        task.phase is ChoosingFormat ==> format_in(next_phase(task, event)) == Some(
            event->Format_0,
        ),
{
}

/// The device that is opened can be described, and no later one can; where none
/// can, none is opened.
pub proof fn law_last_described(described: Seq<bool>)
    requires
        described.len() <= usize::MAX,
    ensures
        match last_described(described) {
            Some(device) => device < described.len() && described[device as int] && forall|i: int|
                device < i < described.len() ==> !#[trigger] described[i],
            None => forall|i: int| 0 <= i < described.len() ==> !#[trigger] described[i],
        },
    decreases described.len(),
{
    if described.len() > 0 && !described.last() {
        let front = described.drop_last();
        law_last_described(front);
        assert forall|i: int|
            0 <= i < described.len() && (last_described(front) matches Some(d) ==> d
                < i) implies !#[trigger] described[i] by {
            if i < front.len() {
                assert(front[i] == described[i]);
            }
        }
    }
}

/// The state of the task after the events, one after the other.
pub open spec fn after_all(task: CameraTask, events: Seq<CameraEvent>) -> CameraTask
    decreases events.len(),
{
    if events.len() == 0 {
        task
    } else {
        after(after_all(task, events.drop_last()), events.last())
    }
}

/// Each of the events is one with which the action before it can end.
pub open spec fn can_happen(task: CameraTask, events: Seq<CameraEvent>) -> bool
    decreases events.len(),
{
    events.len() == 0 || {
        &&& can_happen(task, events.drop_last())
        &&& can_end_with(action_in(after_all(task, events.drop_last()).phase), events.last())
    }
}

/// The format was the last one chosen, and nothing has failed since.
pub open spec fn was_chosen_last(events: Seq<CameraEvent>, format: StreamFormat) -> bool {
    exists|k: int|
        0 <= k < events.len() && #[trigger] events[k] == CameraEvent::Format(format) && forall|j: int|
            k < j < events.len() ==> !(#[trigger] events[j] is Format) && !(events[j] is Failed)
}

proof fn lemma_format_was_chosen_last(task: CameraTask, events: Seq<CameraEvent>)
    requires
        task.phase is CreatingContext,
        can_happen(task, events),
        format_in(after_all(task, events).phase) is Some,
    ensures
        was_chosen_last(events, format_in(after_all(task, events).phase)->0),
    decreases events.len(),
{
    if events.len() > 0 {
        let earlier = events.drop_last();
        let before = after_all(task, earlier);
        let n = events.len() - 1;
        if format_in(before.phase) is Some {
            lemma_format_was_chosen_last(task, earlier);
            let format = format_in(before.phase)->0;
            let k = choose|k: int|
                0 <= k < earlier.len() && #[trigger] earlier[k] == CameraEvent::Format(format)
                    && forall|j: int|
                    k < j < earlier.len() ==> !(#[trigger] earlier[j] is Format) && !(
                    earlier[j] is Failed);
            assert(events[k] == CameraEvent::Format(format));
            assert forall|j: int| k < j < events.len() implies !(#[trigger] events[j] is Format)
                && !(events[j] is Failed) by {
                if j < n {
                    assert(earlier[j] == events[j]);
                }
            }
        } else {
            assert(events[n] == events.last());
        }
    }
}

/// Whatever has happened since the task began, a stream is opened in exactly the
/// format that was chosen last, and that only while nothing has failed since.
pub proof fn law_stream_opens_in_chosen_format(
    task: CameraTask,
    events: Seq<CameraEvent>,
    format: StreamFormat,
)
    requires
        task.phase is CreatingContext,
        can_happen(task, events),
        action_in(after_all(task, events).phase) == CameraAction::OpenStream(format),
    ensures
        was_chosen_last(events, format),
{
    lemma_format_was_chosen_last(task, events);
}

/// A task that chooses a format opens a stream in the one that was chosen, at
/// once if it was told to start, and otherwise when it is told so.
pub proof fn law_choice_is_opened(
    task: CameraTask,
    format: StreamFormat,
    waits: Seq<Option<StreamCommand>>,
)
    requires
        action_in(task.phase) == CameraAction::ChooseFormat,
        forall|i: int|
            0 <= i < waits.len() ==> #[trigger] waits[i] is None || waits[i] == Some(
                StreamCommand::Stop,
            ),
    ensures
        task.command == StreamCommand::Start ==> action_in(
            after(task, CameraEvent::Format(format)).phase,
        ) == CameraAction::OpenStream(format),
        task.command == StreamCommand::Stop ==> {
            let told = waits.map_values(
                |message: Option<StreamCommand>| CameraEvent::Message(message),
            );
            let waiting = after_all(after(task, CameraEvent::Format(format)), told);
            let started = after(waiting, CameraEvent::Message(Some(StreamCommand::Start)));
            &&& action_in(waiting.phase) == CameraAction::Receive
            &&& waiting.command == StreamCommand::Stop
            &&& action_in(started.phase) == CameraAction::OpenStream(format)
            &&& started.command == StreamCommand::Start
        },
    decreases waits.len(),
{
    let f = |message: Option<StreamCommand>| CameraEvent::Message(message);
    let told = waits.map_values(f);
    if waits.len() > 0 {
        law_choice_is_opened(task, format, waits.drop_last());
        assert(told.drop_last() =~= waits.drop_last().map_values(f));
        assert(told.last() == CameraEvent::Message(waits.last()));
        assert(waits[waits.len() - 1] == waits.last());
        if task.command == StreamCommand::Stop {
            lemma_waits_for_start(task, format, told.drop_last(), waits.last());
        }
    }
}

proof fn lemma_waits_for_start(
    task: CameraTask,
    format: StreamFormat,
    told: Seq<CameraEvent>,
    message: Option<StreamCommand>,
)
    requires
        ({
            let waiting = after_all(after(task, CameraEvent::Format(format)), told);
            let started = after(waiting, CameraEvent::Message(Some(StreamCommand::Start)));
            &&& action_in(waiting.phase) == CameraAction::Receive
            &&& waiting.command == StreamCommand::Stop
            &&& action_in(started.phase) == CameraAction::OpenStream(format)
        }),
        message is None || message == Some(StreamCommand::Stop),
    ensures
        ({
            let waiting = after_all(after(task, CameraEvent::Format(format)), told);
            after(waiting, CameraEvent::Message(message)) == waiting
        }),
{
}

/// From the first action to the choice of a format: the devices are listed, and
/// the last of those that could be described is opened after a second. No step
/// changes the command.
pub proof fn law_way_to_a_device(task: CameraTask, described: Vec<bool>, device: usize)
    requires
        action_in(task.phase) == CameraAction::CreateContext,
        device < described@.len(),
        described@[device as int],
        forall|i: int| device < i < described@.len() ==> !#[trigger] described@[i],
    ensures
        ({
            let listing = after(task, CameraEvent::Done);
            let pausing = after(listing, CameraEvent::Devices(described));
            let opening = after(pausing, CameraEvent::Done);
            let choosing = after(opening, CameraEvent::Done);
            &&& action_in(listing.phase) == CameraAction::ListDevices
            &&& action_in(pausing.phase) == CameraAction::Sleep(1000)
            &&& action_in(opening.phase) == CameraAction::OpenDevice(device)
            &&& action_in(choosing.phase) == CameraAction::ChooseFormat
            &&& listing.command == task.command
            &&& pausing.command == task.command
            &&& opening.command == task.command
            &&& choosing.command == task.command
        }),
{
    assert(described.len() == described@.len());
    law_last_described(described@);
    let found = last_described(described@);
    if found is None {
        assert(!described@[device as int]);
    } else if found->0 < device {
        assert(!described@[device as int]);
    } else if found->0 > device {
        assert(!described@[found->0 as int]);
    }
}

/// Where no device could be described, the task waits ten seconds and begins
/// anew, with the command it had.
pub proof fn law_way_without_device(task: CameraTask, described: Vec<bool>)
    requires
        action_in(task.phase) == CameraAction::ListDevices,
        forall|i: int| 0 <= i < described@.len() ==> !#[trigger] described@[i],
    ensures
        ({
            let pausing = after(task, CameraEvent::Devices(described));
            let again = after(pausing, CameraEvent::Done);
            &&& action_in(pausing.phase) == CameraAction::Sleep(10_000)
            &&& action_in(again.phase) == CameraAction::CreateContext
            &&& pausing.command == task.command
            &&& again.command == task.command
        }),
{
    assert(described.len() == described@.len());
    law_last_described(described@);
}

/// The way of a stream: it is opened and started, runs from a tenth of a second
/// on until the message to stop, is stopped, and after a second the task waits
/// for the message to start, which opens a stream in the same format.
pub proof fn law_way_of_a_stream(task: CameraTask, format: StreamFormat)
    requires
        action_in(task.phase) == CameraAction::OpenStream(format),
        task.command == StreamCommand::Start,
    ensures
        ({
            let start = CameraEvent::Message(Some(StreamCommand::Start));
            let stop = CameraEvent::Message(Some(StreamCommand::Stop));
            let starting = after(task, CameraEvent::Done);
            let pausing = after(starting, CameraEvent::Done);
            let running = after(pausing, CameraEvent::Done);
            let stopping = after(running, stop);
            let resting = after(stopping, CameraEvent::Done);
            let waiting = after(resting, CameraEvent::Done);
            let opening = after(waiting, start);
            &&& action_in(starting.phase) == CameraAction::StartStream
            &&& action_in(pausing.phase) == CameraAction::Sleep(100)
            &&& action_in(running.phase) == CameraAction::Receive
            &&& after(running, start) == running
            &&& after(running, CameraEvent::Message(None)) == running
            &&& action_in(stopping.phase) == CameraAction::StopStream
            &&& stopping.command == StreamCommand::Stop
            &&& action_in(resting.phase) == CameraAction::Sleep(1000)
            &&& action_in(waiting.phase) == CameraAction::Receive
            &&& after(waiting, stop) == waiting
            &&& after(waiting, CameraEvent::Message(None)) == waiting
            &&& action_in(opening.phase) == CameraAction::OpenStream(format)
            &&& opening.command == StreamCommand::Start
        }),
{
}

/// A failure, wherever it comes, is followed by a pause of three seconds and a
/// new beginning.
pub proof fn law_failure_pauses(task: CameraTask)
    ensures
        action_in(after(task, CameraEvent::Failed).phase) == CameraAction::Sleep(3000),
        action_in(after(after(task, CameraEvent::Failed), CameraEvent::Done).phase)
            == CameraAction::CreateContext,
        after(task, CameraEvent::Failed).command == task.command,
        after(after(task, CameraEvent::Failed), CameraEvent::Done).command == task.command,
{
}

} // verus!
