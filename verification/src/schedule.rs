//! The scheduling endpoint.
//!
//! A request names a repository. A valid request is acknowledged at once and
//! a job for the repository is handed over with the acknowledgment, not yet
//! begun: the answer never waits for the job. A request that cannot be read,
//! or that names no repository, is answered with a client error and starts
//! nothing. No request leaves anything behind that a later one could see.

use crate::job::{Job, JobState};
use vstd::prelude::*;
use vstd::string::*;

verus! {

/// The path of the endpoint; it takes `POST`.
pub const SCHEDULE_PATH: &'static str = "/schedule-test";

/// The status of the answer to a valid request.
pub const STATUS_OK: u16 = 200;

/// The status of the answer to a request that is not valid.
pub const STATUS_BAD_REQUEST: u16 = 400;

/// The body of a request, as far as the transport could read it.
#[derive(Clone, Debug, PartialEq, Eq)]
pub enum RequestBody {
    /// The body could not be parsed; `detail` says why.
    Unreadable { detail: String },
    /// The body was parsed; it may or may not name a repository.
    Parsed { repo_name: Option<String> },
}

/// A valid request: run the tests of this repository.
#[derive(Clone, Debug, PartialEq, Eq)]
pub struct JobRequest {
    pub repo_name: String,
}

/// The answer to a valid request.
#[derive(Clone, Debug, PartialEq, Eq)]
pub struct Acknowledgment {
    pub repo_name: String,
}

/// Why a request was turned down.
#[derive(Clone, Debug, PartialEq, Eq)]
pub enum Rejection {
    /// The body could not be parsed.
    UnreadableBody { detail: String },
    /// The body names no repository.
    MissingRepoName,
}

/// What goes back over the wire: a status and a body of plain text.
#[derive(Clone, Debug, PartialEq, Eq)]
pub struct Reply {
    pub status: u16,
    pub body: String,
}

/// Whether `status` is a client error.
pub open spec fn is_client_error(status: u16) -> bool {
    400 <= status < 500
}

/// The text that acknowledges a request for `repo_name`.
pub open spec fn acknowledgment_text(repo_name: Seq<char>) -> Seq<char> {
    "Scheduling test for repo: "@ + repo_name
}

/// The text that turns down a request without a repository.
pub open spec fn missing_repo_name_text() -> Seq<char> {
    "missing field `repo_name`"@
}

/// The address that the service listens on: loopback, and `port` or 8080.
pub open spec fn listen_address_spec(port: Option<Seq<char>>) -> Seq<char> {
    "127.0.0.1:"@ + match port {
        Some(port) => port,
        None => "8080"@,
    }
}

impl RequestBody {
    /// The repository that the body names, if it was parsed and names one.
    pub open spec fn repo_name_spec(self) -> Option<Seq<char>> {
        match self {
            RequestBody::Parsed { repo_name: Some(name) } => Some(name@),
            _ => None,
        }
    }

    /// The status of the answer to this body.
    pub open spec fn reply_status(self) -> u16 {
        if self.repo_name_spec() is Some {
            STATUS_OK
        } else {
            STATUS_BAD_REQUEST
        }
    }

    /// The text of the answer to this body.
    pub open spec fn reply_text(self) -> Seq<char> {
        match self {
            RequestBody::Parsed { repo_name: Some(name) } => acknowledgment_text(name@),
            RequestBody::Parsed { repo_name: None } => missing_repo_name_text(),
            RequestBody::Unreadable { detail } => detail@,
        }
    }
}

/// Two acknowledgments are the same text only if they name the same
/// repository, and the name can be read back from the text.
pub proof fn lemma_acknowledgment_names_its_repository(first: Seq<char>, second: Seq<char>)
    ensures
        acknowledgment_text(first) == acknowledgment_text(second) <==> first == second,
        acknowledgment_text(first).skip("Scheduling test for repo: "@.len() as int) == first,
{
    let prefix = "Scheduling test for repo: "@;
    assert(acknowledgment_text(first).skip(prefix.len() as int) =~= first);
    assert(acknowledgment_text(second).skip(prefix.len() as int) =~= second);
}

/// Two valid requests for different repositories are each acknowledged for
/// their own repository, and the two answers differ: the answer to a request
/// depends on that request alone, whatever else is being served.
pub proof fn lemma_submissions_are_independent(first: RequestBody, second: RequestBody)
    requires
        first.repo_name_spec() is Some,
        second.repo_name_spec() is Some,
        first.repo_name_spec() != second.repo_name_spec(),
    ensures
        first.reply_status() == STATUS_OK,
        second.reply_status() == STATUS_OK,
        first.reply_text() == acknowledgment_text(first.repo_name_spec().unwrap()),
        second.reply_text() == acknowledgment_text(second.repo_name_spec().unwrap()),
        first.reply_text() != second.reply_text(),
{
    lemma_acknowledgment_names_its_repository(
        first.repo_name_spec().unwrap(),
        second.repo_name_spec().unwrap(),
    );
}

/// A request that names no repository is answered with a client error.
pub proof fn lemma_missing_repo_name_is_a_client_error(body: RequestBody)
    requires
        body.repo_name_spec() is None,
    ensures
        is_client_error(body.reply_status()),
{
}

impl Acknowledgment {
    /// The answer that carries this acknowledgment.
    pub fn to_reply(&self) -> (reply: Reply)
        ensures
            reply.status == STATUS_OK,
            reply.body@ == acknowledgment_text(self.repo_name@),
    {
        let mut body = String::from_str("Scheduling test for repo: ");
        body.append(self.repo_name.as_str());
        Reply { status: STATUS_OK, body }
    }
}

impl Rejection {
    /// What the rejection says.
    pub open spec fn text_spec(self) -> Seq<char> {
        match self {
            Rejection::UnreadableBody { detail } => detail@,
            Rejection::MissingRepoName => missing_repo_name_text(),
        }
    }

    /// The answer that carries this rejection: a client error.
    pub fn to_reply(&self) -> (reply: Reply)
        ensures
            reply.status == STATUS_BAD_REQUEST,
            is_client_error(reply.status),
            reply.body@ == self.text_spec(),
    {
        let body = match self {
            Rejection::UnreadableBody { detail } => detail.clone(),
            Rejection::MissingRepoName => String::from_str("missing field `repo_name`"),
        };
        Reply { status: STATUS_BAD_REQUEST, body }
    }
}

/// Checks a request body. It is valid exactly when it was parsed and names a
/// repository.
pub fn validate(body: RequestBody) -> (checked: Result<JobRequest, Rejection>)
    ensures
        match body {
            RequestBody::Parsed { repo_name: Some(name) } => checked matches Ok(request)
                && request.repo_name@ == name@,
            RequestBody::Parsed { repo_name: None } => checked == Err::<JobRequest, Rejection>(
                Rejection::MissingRepoName,
            ),
            RequestBody::Unreadable { detail } => checked matches Err(
                Rejection::UnreadableBody { detail: told },
            ) && told@ == detail@,
        },
{
    match body {
        RequestBody::Parsed { repo_name: Some(name) } => Ok(JobRequest { repo_name: name }),
        RequestBody::Parsed { repo_name: None } => Err(Rejection::MissingRepoName),
        RequestBody::Unreadable { detail } => Err(Rejection::UnreadableBody { detail }),
    }
}

/// Accepts a valid request: the acknowledgment, and with it the job, which
/// was submitted and has not begun.
pub fn submit(request: JobRequest) -> (accepted: (Acknowledgment, Job))
    ensures
        accepted.0.repo_name@ == request.repo_name@,
        accepted.1.repo_name_spec() == request.repo_name@,
        accepted.1.state_spec() == JobState::Submitted,
{
    let acknowledgment = Acknowledgment { repo_name: request.repo_name.clone() };
    let job = Job::new(request.repo_name);
    (acknowledgment, job)
}

/// Answers one request. A valid request gets the acknowledgment for its own
/// repository and a job to dispatch, which has not begun; any other gets a
/// client error and no job.
pub fn respond(body: RequestBody) -> (answer: (Reply, Option<Job>))
    ensures
        answer.0.status == body.reply_status(),
        answer.0.body@ == body.reply_text(),
        match body.repo_name_spec() {
            Some(name) => answer.1 matches Some(job) && job.repo_name_spec() == name
                && job.state_spec() == JobState::Submitted,
            None => answer.1 is None,
        },
{
    match validate(body) {
        Ok(request) => {
            let (acknowledgment, job) = submit(request);
            (acknowledgment.to_reply(), Some(job))
        },
        Err(rejection) => (rejection.to_reply(), None),
    }
}

/// The address to listen on: loopback, and the given port or 8080.
pub fn listen_address(port: Option<String>) -> (address: String)
    ensures
        address@ == listen_address_spec(
            match port {
                Some(port) => Some(port@),
                None => None,
            },
        ),
{
    let mut address = String::from_str("127.0.0.1:");
    match port {
        Some(port) => {
            address.append(port.as_str());
        },
        None => {
            address.append("8080");
        },
    }
    address
}

} // verus!
