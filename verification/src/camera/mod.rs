//! Access to the camera, which several subscribers can watch at a time.

use crate::time::Timestamp;
use vstd::prelude::*;

pub mod format;
pub mod picture;
pub mod task;

verus! {

/// A picture taken by the camera.
#[derive(Clone, Debug)]
pub struct Frame {
    pub timestamp: Timestamp,
    pub jpeg: Vec<u8>,
    /// The picture in 3 planes, red, green and blue, of 224 rows of 224 pixels.
    /// A byte stands for that many parts in 256.
    pub inference_tensor: Vec<u8>,
    /// JPEG of the above, for debugging
    pub inference_jpeg: Vec<u8>,
    pub p_hash: String,
}

/// What the task that runs the camera is told.
#[derive(Clone, Copy, Debug, PartialEq, Eq, Structural)]
pub enum StreamCommand {
    Start,
    Stop,
}

/// Counts who is watching, to run the camera only as long as someone is.
#[derive(Debug)]
pub struct CameraService {
    pub subscriber_count: usize,
}

/// The command that is due when a subscriber leaves and `remaining` stay.
pub open spec fn command_on_leaving(remaining: int) -> Option<StreamCommand> {
    if remaining == 0 {
        Some(StreamCommand::Stop)
    } else {
        None
    }
}

impl CameraService {
    /// A camera that nobody watches.
    pub fn new() -> (r: CameraService)
        ensures
            r.subscriber_count == 0,
    {
        CameraService { subscriber_count: 0 }
    }

    /// Adds a subscriber. The returned command goes to the camera.
    pub fn start(&mut self) -> (r: StreamCommand)
        requires
            old(self).subscriber_count < usize::MAX,
        ensures
            final(self).subscriber_count == old(self).subscriber_count + 1,
            r == StreamCommand::Start,
    {
        self.subscriber_count = self.subscriber_count + 1;
        StreamCommand::Start
    }

    /// Removes a subscriber. The returned command, if any, goes to the camera.
    pub fn stop(&mut self) -> (r: Option<StreamCommand>)
        requires
            old(self).subscriber_count > 0,
        ensures
            final(self).subscriber_count == old(self).subscriber_count - 1,
            r == command_on_leaving(final(self).subscriber_count as int),
    {
        self.subscriber_count = self.subscriber_count - 1;
        if self.subscriber_count == 0 {
            Some(StreamCommand::Stop)
        } else {
            None
        }
    }
}

/// How many are watching after some subscribers came and some left.
pub open spec fn watching(history: Seq<StreamCommand>) -> int
    decreases history.len(),
{
    if history.len() == 0 {
        0
    } else if history.last() == StreamCommand::Start {
        watching(history.drop_last()) + 1
    } else {
        watching(history.drop_last()) - 1
    }
}

/// Nobody left who had not come.
pub open spec fn is_history(history: Seq<StreamCommand>) -> bool {
    forall|n: int| 0 <= n <= history.len() ==> watching(#[trigger] history.take(n)) >= 0
}

/// The last command that the camera got, which starts out stopped.
pub open spec fn last_command(history: Seq<StreamCommand>) -> StreamCommand
    decreases history.len(),
{
    if history.len() == 0 {
        StreamCommand::Stop
    } else if history.last() == StreamCommand::Start {
        StreamCommand::Start
    } else {
        match command_on_leaving(watching(history)) {
            Some(command) => command,
            None => last_command(history.drop_last()),
        }
    }
}

/// At any time the camera was last told to run exactly if someone is watching.
pub proof fn law_camera_runs_while_watched(history: Seq<StreamCommand>)
    requires
        is_history(history),
    ensures
        last_command(history) == StreamCommand::Start <==> watching(history) > 0,
    decreases history.len(),
{
    assert(history.take(history.len() as int) =~= history);
    if history.len() > 0 {
        let earlier = history.drop_last();
        assert forall|n: int| 0 <= n <= earlier.len() implies watching(#[trigger] earlier.take(n))
            >= 0 by {
            assert(earlier.take(n) =~= history.take(n));
        }
        assert(earlier.take(earlier.len() as int) =~= earlier);
        law_camera_runs_while_watched(earlier);
    }
}

/// Waits for a command: takes note of the message where it is the desired
/// command, and tells whether the wait is over.
pub fn wait_for_state(
    desired: StreamCommand,
    current: &mut StreamCommand,
    message: Option<StreamCommand>,
) -> (r: bool)
    ensures
        r == (*old(current) == desired || message == Some(desired)),
        *final(current) == if r {
            desired
        } else {
            *old(current)
        },
{
    if *current == desired {
        return true;
    }
    match message {
        Some(command) => {
            if command == desired {
                *current = desired;
                true
            } else {
                false
            }
        },
        None => false,
    }
}

} // verus!
