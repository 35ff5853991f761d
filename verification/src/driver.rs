//! The driver of one forwarding invocation.
//!
//! An invocation spawns the child process, connects to the log destination,
//! starts one forwarder for each output stream, joins both, and only then
//! waits for the child to exit. The driver decides; the caller does the work
//! that `next_action` names and reports what happened with `on_event`.

use crate::forwarder::ForwardError;
use crate::record::Origin;
use vstd::prelude::*;

verus! {

/// The program that an invocation runs as its child.
pub const CHILD_PROGRAM: &'static str = "cargo";

/// The one argument of the child: its subcommand.
pub const CHILD_SUBCOMMAND: &'static str = "test";

/// Why an invocation was aborted.
#[derive(Clone, Copy, Debug, PartialEq, Eq, Hash)]
pub enum DriverError {
    /// The child process could not be started.
    Spawn,
    /// An output stream of the child could not be obtained.
    StreamCapture,
    /// The log destination could not be reached.
    Connect,
    /// Waiting for the child to exit failed.
    Wait,
}

/// How far a forwarder has come, as the driver knows it.
#[derive(Clone, Copy, Debug, PartialEq, Eq, Hash)]
pub enum Joined {
    /// The forwarder has not been joined yet.
    Pending,
    /// The forwarder was joined; it had failed if an error is given.
    Done(Option<ForwardError>),
}

/// What a completed invocation reports.
#[derive(Clone, Copy, Debug, PartialEq, Eq, Hash)]
pub struct Outcome {
    /// The exit code of the child, if it exited with one.
    pub exit_code: Option<i32>,
    /// The failure of the forwarder of standard output, if it failed.
    pub stdout_failure: Option<ForwardError>,
    /// The failure of the forwarder of standard error, if it failed.
    pub stderr_failure: Option<ForwardError>,
}

/// Where an invocation stands.
#[derive(Clone, Copy, Debug, PartialEq, Eq, Hash)]
pub enum DriverState {
    /// Nothing has happened yet.
    Idle,
    /// The child runs and both of its streams are in hand.
    Connecting,
    /// The connection stands; no forwarder runs yet.
    Starting,
    /// Both forwarders were started; each is joined or not.
    Forwarding { stdout: Joined, stderr: Joined },
    /// Both forwarders were joined.
    Waiting { stdout_failure: Option<ForwardError>, stderr_failure: Option<ForwardError> },
    /// The child has exited after both forwarders were joined.
    Completed(Outcome),
    /// The invocation was given up.
    Aborted(DriverError),
}

/// What the caller reports to the driver.
#[derive(Clone, Copy, Debug, PartialEq, Eq, Hash)]
pub enum DriverEvent {
    Spawned,
    SpawnFailed,
    StreamCaptureFailed,
    Connected,
    ConnectFailed,
    ForwardersStarted,
    ForwarderJoined { origin: Origin, failure: Option<ForwardError> },
    ChildExited { exit_code: Option<i32> },
    WaitFailed,
}

/// What the caller does next.
#[derive(Clone, Copy, Debug, PartialEq, Eq, Hash)]
pub enum DriverAction {
    /// Spawn the child with both output streams captured.
    SpawnChild,
    /// Connect to the log destination.
    Connect,
    /// Start the two forwarders together.
    StartForwarders,
    /// Join the forwarder of this stream.
    Join(Origin),
    /// Wait for the child to exit.
    WaitForChild,
    /// Report that the invocation is complete.
    Report(Outcome),
    /// Give the invocation up.
    Abort(DriverError),
}

/// The state after one forwarder was joined.
pub open spec fn after_join(stdout: Joined, stderr: Joined) -> DriverState {
    match (stdout, stderr) {
        (Joined::Done(stdout_failure), Joined::Done(stderr_failure)) => DriverState::Waiting {
            stdout_failure,
            stderr_failure,
        },
        _ => DriverState::Forwarding { stdout, stderr },
    }
}

/// The state that follows `state` on `event`. An event that does not belong
/// to the state changes nothing.
pub open spec fn transition(state: DriverState, event: DriverEvent) -> DriverState {
    match (state, event) {
        (DriverState::Idle, DriverEvent::Spawned) => DriverState::Connecting,
        (DriverState::Idle, DriverEvent::SpawnFailed) => DriverState::Aborted(DriverError::Spawn),
        (DriverState::Idle, DriverEvent::StreamCaptureFailed) => DriverState::Aborted(
            DriverError::StreamCapture,
        ),
        (DriverState::Connecting, DriverEvent::Connected) => DriverState::Starting,
        (DriverState::Connecting, DriverEvent::ConnectFailed) => DriverState::Aborted(
            DriverError::Connect,
        ),
        (DriverState::Starting, DriverEvent::ForwardersStarted) => DriverState::Forwarding {
            stdout: Joined::Pending,
            stderr: Joined::Pending,
        },
        (
            DriverState::Forwarding { stdout, stderr },
            DriverEvent::ForwarderJoined { origin, failure },
        ) => match origin {
            Origin::Stdout => if stdout is Pending {
                after_join(Joined::Done(failure), stderr)
            } else {
                state
            },
            Origin::Stderr => if stderr is Pending {
                after_join(stdout, Joined::Done(failure))
            } else {
                state
            },
        },
        (
            DriverState::Waiting { stdout_failure, stderr_failure },
            DriverEvent::ChildExited { exit_code },
        ) => DriverState::Completed(Outcome { exit_code, stdout_failure, stderr_failure }),
        (DriverState::Waiting { .. }, DriverEvent::WaitFailed) => DriverState::Aborted(
            DriverError::Wait,
        ),
        _ => state,
    }
}

/// What is to be done in `state`.
pub open spec fn action_in(state: DriverState) -> DriverAction {
    match state {
        DriverState::Idle => DriverAction::SpawnChild,
        DriverState::Connecting => DriverAction::Connect,
        DriverState::Starting => DriverAction::StartForwarders,
        DriverState::Forwarding { stdout, stderr } => if stdout is Pending {
            DriverAction::Join(Origin::Stdout)
        } else {
            DriverAction::Join(Origin::Stderr)
        },
        DriverState::Waiting { .. } => DriverAction::WaitForChild,
        DriverState::Completed(outcome) => DriverAction::Report(outcome),
        DriverState::Aborted(error) => DriverAction::Abort(error),
    }
}

/// The state of an invocation to which `events` were reported, in order.
pub open spec fn state_after(events: Seq<DriverEvent>) -> DriverState
    decreases events.len(),
{
    if events.len() == 0 {
        DriverState::Idle
    } else {
        transition(state_after(events.drop_last()), events.last())
    }
}

/// `event` reports that the forwarder of `origin` was joined.
pub open spec fn is_join_of(event: DriverEvent, origin: Origin) -> bool {
    event matches DriverEvent::ForwarderJoined { origin: joined, .. } && joined == origin
}

/// Among `events` is the join of the forwarder of `origin`.
pub open spec fn joined(events: Seq<DriverEvent>, origin: Origin) -> bool {
    exists|i: int| 0 <= i < events.len() && is_join_of(#[trigger] events[i], origin)
}

/// Among `events` is an exit of the child that both joins precede.
pub open spec fn exited_after_both_joins(events: Seq<DriverEvent>) -> bool {
    exists|k: int|
        0 <= k < events.len() && (#[trigger] events[k]) is ChildExited && joined(
            events.take(k),
            Origin::Stdout,
        ) && joined(events.take(k), Origin::Stderr)
}

/// What each state says of the events that led to it.
spec fn state_accounts_for(state: DriverState, events: Seq<DriverEvent>) -> bool {
    match state {
        DriverState::Forwarding { stdout, stderr } => {
            &&& stdout is Done ==> joined(events, Origin::Stdout)
            &&& stderr is Done ==> joined(events, Origin::Stderr)
        },
        DriverState::Waiting { .. } => joined(events, Origin::Stdout) && joined(
            events,
            Origin::Stderr,
        ),
        DriverState::Completed(_) => exited_after_both_joins(events),
        _ => true,
    }
}

proof fn lemma_joined_stays(events: Seq<DriverEvent>, origin: Origin)
    requires
        events.len() > 0,
        joined(events.drop_last(), origin),
    ensures
        joined(events, origin),
{
    let i = choose|i: int|
        0 <= i < events.drop_last().len() && is_join_of(#[trigger] events.drop_last()[i], origin);
    assert(is_join_of(events[i], origin));
}

proof fn lemma_state_accounts_for_events(events: Seq<DriverEvent>)
    ensures
        state_accounts_for(state_after(events), events),
    decreases events.len(),
{
    if events.len() > 0 {
        let before = events.drop_last();
        let last = events.len() - 1;
        let event = events[last];
        let previous = state_after(before);
        let state = state_after(events);
        lemma_state_accounts_for_events(before);
        if joined(before, Origin::Stdout) {
            lemma_joined_stays(events, Origin::Stdout);
        }
        if joined(before, Origin::Stderr) {
            lemma_joined_stays(events, Origin::Stderr);
        }
        if is_join_of(event, Origin::Stdout) {
            assert(is_join_of(events[last], Origin::Stdout));
        }
        if is_join_of(event, Origin::Stderr) {
            assert(is_join_of(events[last], Origin::Stderr));
        }
        if state is Completed {
            if previous is Completed {
                let k = choose|k: int|
                    0 <= k < before.len() && (#[trigger] before[k]) is ChildExited && joined(
                        before.take(k),
                        Origin::Stdout,
                    ) && joined(before.take(k), Origin::Stderr);
                assert(events[k] is ChildExited);
                assert(events.take(k) =~= before.take(k));
            } else {
                assert(events[last] is ChildExited);
                assert(events.take(last) =~= before);
            }
        }
    }
}

/// Completion is reported only after both forwarders were joined and the
/// child has then exited: whatever events are reported, and in whatever order,
/// if the driver says to report completion, then the events hold an exit of
/// the child, and before it the join of each forwarder.
pub proof fn lemma_completion_follows_joins_and_exit(events: Seq<DriverEvent>)
    requires
        action_in(state_after(events)) is Report,
    ensures
        exited_after_both_joins(events),
{
    lemma_state_accounts_for_events(events);
}

/// The driver asks to wait for the child only after both forwarders were
/// joined.
pub proof fn lemma_wait_follows_both_joins(events: Seq<DriverEvent>)
    requires
        action_in(state_after(events)) == DriverAction::WaitForChild,
    ensures
        joined(events, Origin::Stdout),
        joined(events, Origin::Stderr),
{
    lemma_state_accounts_for_events(events);
}

/// An invocation that is complete or was given up stays as it is.
pub proof fn lemma_final_states_stay(state: DriverState, event: DriverEvent)
    requires
        state is Completed || state is Aborted,
    ensures
        transition(state, event) == state,
{
}

impl DriverState {
    /// The state of an invocation that has not begun.
    pub fn new() -> (state: DriverState)
        ensures
            state == DriverState::Idle,
            state == state_after(Seq::empty()),
    {
        DriverState::Idle
    }

    /// What the caller is to do in this state.
    pub fn next_action(self) -> (action: DriverAction)
        ensures
            action == action_in(self),
    {
        match self {
            DriverState::Idle => DriverAction::SpawnChild,
            DriverState::Connecting => DriverAction::Connect,
            DriverState::Starting => DriverAction::StartForwarders,
            DriverState::Forwarding { stdout, stderr } => match stdout {
                Joined::Pending => DriverAction::Join(Origin::Stdout),
                Joined::Done(_) => DriverAction::Join(Origin::Stderr),
            },
            DriverState::Waiting { .. } => DriverAction::WaitForChild,
            DriverState::Completed(outcome) => DriverAction::Report(outcome),
            DriverState::Aborted(error) => DriverAction::Abort(error),
        }
    }

    /// The state after `event` was reported.
    pub fn on_event(self, event: DriverEvent) -> (next: DriverState)
        ensures
            next == transition(self, event),
    {
        match self {
            DriverState::Idle => match event {
                DriverEvent::Spawned => DriverState::Connecting,
                DriverEvent::SpawnFailed => DriverState::Aborted(DriverError::Spawn),
                DriverEvent::StreamCaptureFailed => DriverState::Aborted(
                    DriverError::StreamCapture,
                ),
                _ => self,
            },
            DriverState::Connecting => match event {
                DriverEvent::Connected => DriverState::Starting,
                DriverEvent::ConnectFailed => DriverState::Aborted(DriverError::Connect),
                _ => self,
            },
            DriverState::Starting => match event {
                DriverEvent::ForwardersStarted => DriverState::Forwarding {
                    stdout: Joined::Pending,
                    stderr: Joined::Pending,
                },
                _ => self,
            },
            DriverState::Forwarding { stdout, stderr } => match event {
                DriverEvent::ForwarderJoined { origin, failure } => match (origin, stdout, stderr) {
                    (Origin::Stdout, Joined::Pending, Joined::Done(stderr_failure)) => {
                        DriverState::Waiting { stdout_failure: failure, stderr_failure }
                    },
                    (Origin::Stdout, Joined::Pending, Joined::Pending) => DriverState::Forwarding {
                        stdout: Joined::Done(failure),
                        stderr,
                    },
                    (Origin::Stderr, Joined::Done(stdout_failure), Joined::Pending) => {
                        DriverState::Waiting { stdout_failure, stderr_failure: failure }
                    },
                    (Origin::Stderr, Joined::Pending, Joined::Pending) => DriverState::Forwarding {
                        stdout,
                        stderr: Joined::Done(failure),
                    },
                    _ => self,
                },
                _ => self,
            },
            DriverState::Waiting { stdout_failure, stderr_failure } => match event {
                DriverEvent::ChildExited { exit_code } => DriverState::Completed(
                    Outcome { exit_code, stdout_failure, stderr_failure },
                ),
                DriverEvent::WaitFailed => DriverState::Aborted(DriverError::Wait),
                _ => self,
            },
            DriverState::Completed(_) => self,
            DriverState::Aborted(_) => self,
        }
    }
}

impl Outcome {
    /// Whether both forwarders ran to the end of their streams.
    pub open spec fn forwarded_everything_spec(self) -> bool {
        self.stdout_failure is None && self.stderr_failure is None
    }

    /// Whether both forwarders ran to the end of their streams.
    pub fn forwarded_everything(&self) -> (clean: bool)
        ensures
            clean == self.forwarded_everything_spec(),
    {
        self.stdout_failure.is_none() && self.stderr_failure.is_none()
    }
}

} // verus!
