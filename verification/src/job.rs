//! A background job.
//!
//! A job is submitted, runs, and completes. It cannot be cancelled and it
//! cannot fail, and nothing of it is handed back to whoever submitted it.

use vstd::prelude::*;

verus! {

/// For how many seconds a job works. The delay stands for the real test run.
pub const JOB_DURATION_SECS: u64 = 5;

/// Where a job stands.
#[derive(Clone, Copy, Debug, PartialEq, Eq, Hash, Structural)]
pub enum JobState {
    /// The job was handed to the runtime and has not begun.
    Submitted,
    /// The job is at work.
    Running,
    /// The job is done.
    Completed,
}

/// What the runtime reports of a job.
#[derive(Clone, Copy, Debug, PartialEq, Eq, Hash, Structural)]
pub enum JobEvent {
    /// The runtime has begun to run the job.
    Started,
    /// The work of the job is over.
    WorkDone,
}

/// What is to be done with a job.
#[derive(Clone, Copy, Debug, PartialEq, Eq, Hash)]
pub enum JobAction {
    /// Hand the job to the runtime, and do not wait for it.
    Dispatch,
    /// Work for this many seconds.
    Work { seconds: u64 },
    /// Let the job end; nothing is reported to anyone.
    Retire,
}

impl JobState {
    /// How far along the state is.
    pub open spec fn rank(self) -> nat {
        match self {
            JobState::Submitted => 0,
            JobState::Running => 1,
            JobState::Completed => 2,
        }
    }

    /// The state that follows on `event`. An event that does not belong to
    /// the state changes nothing.
    pub open spec fn on(self, event: JobEvent) -> JobState {
        match (self, event) {
            (JobState::Submitted, JobEvent::Started) => JobState::Running,
            (JobState::Running, JobEvent::WorkDone) => JobState::Completed,
            _ => self,
        }
    }

    /// What is to be done in this state.
    pub open spec fn action(self) -> JobAction {
        match self {
            JobState::Submitted => JobAction::Dispatch,
            JobState::Running => JobAction::Work { seconds: JOB_DURATION_SECS },
            JobState::Completed => JobAction::Retire,
        }
    }

    /// The state of a job to which `events` were reported, in order.
    pub open spec fn after(events: Seq<JobEvent>) -> JobState
        decreases events.len(),
    {
        if events.len() == 0 {
            JobState::Submitted
        } else {
            Self::after(events.drop_last()).on(events.last())
        }
    }
}

/// A job moves forward only, one state at a time, and a completed job stays
/// completed.
pub proof fn lemma_job_moves_forward(state: JobState, event: JobEvent)
    ensures
        state.rank() <= state.on(event).rank() <= state.rank() + 1,
        state == JobState::Completed ==> state.on(event) == JobState::Completed,
{
}

/// Whatever is reported of a job, it has completed only if it was started and
/// its work was then done.
pub proof fn lemma_job_completes_after_work(events: Seq<JobEvent>)
    requires
        JobState::after(events) == JobState::Completed,
    ensures
        exists|i: int, j: int|
            0 <= i < j < events.len() && #[trigger] events[i] == JobEvent::Started
                && #[trigger] events[j] == JobEvent::WorkDone,
    decreases events.len(),
{
    let before = events.drop_last();
    let last = events.len() - 1;
    if JobState::after(before) == JobState::Completed {
        lemma_job_completes_after_work(before);
        let (i, j) = choose|i: int, j: int|
            0 <= i < j < before.len() && #[trigger] before[i] == JobEvent::Started
                && #[trigger] before[j] == JobEvent::WorkDone;
        assert(events[i] == JobEvent::Started && events[j] == JobEvent::WorkDone);
    } else {
        assert(JobState::after(before) == JobState::Running);
        lemma_running_job_was_started(before);
        let i = choose|i: int| 0 <= i < before.len() && #[trigger] before[i] == JobEvent::Started;
        assert(events[i] == JobEvent::Started && events[last] == JobEvent::WorkDone);
    }
}

proof fn lemma_running_job_was_started(events: Seq<JobEvent>)
    requires
        JobState::after(events) == JobState::Running,
    ensures
        exists|i: int| 0 <= i < events.len() && #[trigger] events[i] == JobEvent::Started,
    decreases events.len(),
{
    let before = events.drop_last();
    let last = events.len() - 1;
    if JobState::after(before) == JobState::Running {
        lemma_running_job_was_started(before);
        let i = choose|i: int| 0 <= i < before.len() && #[trigger] before[i] == JobEvent::Started;
        assert(events[i] == JobEvent::Started);
    } else {
        assert(events[last] == JobEvent::Started);
    }
}

/// The job that runs the tests of one repository.
#[derive(Clone, Debug, PartialEq, Eq)]
pub struct Job {
    repo_name: String,
    state: JobState,
}

impl Job {
    /// The repository whose tests the job runs.
    pub closed spec fn repo_name_spec(&self) -> Seq<char> {
        self.repo_name@
    }

    /// Where the job stands.
    pub closed spec fn state_spec(&self) -> JobState {
        self.state
    }

    /// A job for `repo_name` that was submitted and has not begun.
    pub fn new(repo_name: String) -> (job: Job)
        ensures
            job.repo_name_spec() == repo_name@,
            job.state_spec() == JobState::Submitted,
    {
        Job { repo_name, state: JobState::Submitted }
    }

    /// The repository whose tests the job runs.
    pub fn repo_name(&self) -> (name: &str)
        ensures
            name@ == self.repo_name_spec(),
    {
        self.repo_name.as_str()
    }

    /// Where the job stands.
    pub fn state(&self) -> (state: JobState)
        ensures
            state == self.state_spec(),
    {
        self.state
    }

    /// What is to be done with the job now.
    pub fn next_action(&self) -> (action: JobAction)
        ensures
            action == self.state_spec().action(),
    {
        match self.state {
            JobState::Submitted => JobAction::Dispatch,
            JobState::Running => JobAction::Work { seconds: JOB_DURATION_SECS },
            JobState::Completed => JobAction::Retire,
        }
    }

    /// Takes note of what the runtime reports.
    pub fn on_event(&mut self, event: JobEvent)
        ensures
            final(self).state_spec() == old(self).state_spec().on(event),
            final(self).repo_name_spec() == old(self).repo_name_spec(),
    {
        match (self.state, event) {
            (JobState::Submitted, JobEvent::Started) => {
                self.state = JobState::Running;
            },
            (JobState::Running, JobEvent::WorkDone) => {
                self.state = JobState::Completed;
            },
            _ => {},
        }
    }
}

} // verus!
