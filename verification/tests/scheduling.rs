use test_dispatch::job::{Job, JobAction, JobEvent, JobState, JOB_DURATION_SECS};
use test_dispatch::schedule::{
    listen_address, respond, submit, validate, Acknowledgment, JobRequest, Rejection, Reply,
    RequestBody, SCHEDULE_PATH, STATUS_BAD_REQUEST, STATUS_OK,
};

fn request_for(name: &str) -> RequestBody {
    RequestBody::Parsed { repo_name: Some(name.to_string()) }
}

#[test]
fn endpoint_constants() {
    assert_eq!(SCHEDULE_PATH, "/schedule-test");
    assert_eq!(STATUS_OK, 200);
    assert_eq!(STATUS_BAD_REQUEST, 400);
    assert_eq!(JOB_DURATION_SECS, 5);
}

#[test]
fn valid_request_is_acknowledged_with_its_repo_name() {
    let (reply, job) = respond(request_for("acme/widgets"));
    assert_eq!(
        reply,
        Reply { status: 200, body: "Scheduling test for repo: acme/widgets".to_string() }
    );
    let job = job.unwrap();
    assert_eq!(job.repo_name(), "acme/widgets");
    assert_eq!(job.state(), JobState::Submitted);
}

#[test]
fn acknowledgment_comes_with_a_job_that_has_not_begun() {
    let (acknowledgment, job) = submit(JobRequest { repo_name: "r".to_string() });
    assert_eq!(acknowledgment, Acknowledgment { repo_name: "r".to_string() });
    assert_eq!(job.state(), JobState::Submitted);
    assert_eq!(job.next_action(), JobAction::Dispatch);
    assert_eq!(acknowledgment.to_reply().body, "Scheduling test for repo: r");
}

#[test]
fn empty_repo_name_is_still_a_name() {
    let (reply, job) = respond(request_for(""));
    assert_eq!(reply.status, 200);
    assert_eq!(reply.body, "Scheduling test for repo: ");
    assert_eq!(job.unwrap().repo_name(), "");
}

#[test]
fn request_without_repo_name_is_a_client_error() {
    let (reply, job) = respond(RequestBody::Parsed { repo_name: None });
    assert_eq!(reply.status, 400);
    assert_eq!(reply.body, "missing field `repo_name`");
    assert_eq!(job, None);
}

#[test]
fn unreadable_body_is_a_client_error() {
    let detail = "expected value at line 1 column 1";
    let (reply, job) = respond(RequestBody::Unreadable { detail: detail.to_string() });
    assert_eq!(reply, Reply { status: 400, body: detail.to_string() });
    assert_eq!(job, None);
}

#[test]
fn validate_tells_the_three_cases_apart() {
    assert_eq!(validate(request_for("x")), Ok(JobRequest { repo_name: "x".to_string() }));
    assert_eq!(validate(RequestBody::Parsed { repo_name: None }), Err(Rejection::MissingRepoName));
    assert_eq!(
        validate(RequestBody::Unreadable { detail: "eof".to_string() }),
        Err(Rejection::UnreadableBody { detail: "eof".to_string() })
    );
}

#[test]
fn rejections_answer_with_status_400() {
    assert_eq!(
        Rejection::MissingRepoName.to_reply(),
        Reply { status: 400, body: "missing field `repo_name`".to_string() }
    );
    assert_eq!(
        Rejection::UnreadableBody { detail: "bad".to_string() }.to_reply(),
        Reply { status: 400, body: "bad".to_string() }
    );
}

#[test]
fn two_submissions_get_their_own_acknowledgments() {
    for (first, second) in [("alpha", "beta"), ("beta", "alpha")] {
        let (first_reply, first_job) = respond(request_for(first));
        let (second_reply, second_job) = respond(request_for(second));
        assert_eq!(first_reply.body, format!("Scheduling test for repo: {}", first));
        assert_eq!(second_reply.body, format!("Scheduling test for repo: {}", second));
        assert_ne!(first_reply.body, second_reply.body);
        assert_eq!(first_job.unwrap().repo_name(), first);
        assert_eq!(second_job.unwrap().repo_name(), second);
    }
}

#[test]
fn service_goes_on_after_a_rejected_request() {
    let (rejected, none) = respond(RequestBody::Parsed { repo_name: None });
    assert_eq!(rejected.status, 400);
    assert!(none.is_none());
    let (accepted, job) = respond(request_for("next"));
    assert_eq!(accepted.status, 200);
    assert_eq!(accepted.body, "Scheduling test for repo: next");
    assert!(job.is_some());
    let (again, _) = respond(RequestBody::Unreadable { detail: "x".to_string() });
    assert_eq!(again.status, 400);
    let (after, _) = respond(request_for("last"));
    assert_eq!(after.body, "Scheduling test for repo: last");
}

#[test]
fn listen_address_defaults_to_port_8080() {
    assert_eq!(listen_address(None), "127.0.0.1:8080");
}

#[test]
fn listen_address_takes_the_given_port() {
    assert_eq!(listen_address(Some("9000".to_string())), "127.0.0.1:9000");
}

#[test]
fn job_runs_from_submitted_to_completed() {
    let mut job = Job::new("repo".to_string());
    assert_eq!(job.state(), JobState::Submitted);
    assert_eq!(job.next_action(), JobAction::Dispatch);
    job.on_event(JobEvent::Started);
    assert_eq!(job.state(), JobState::Running);
    assert_eq!(job.next_action(), JobAction::Work { seconds: 5 });
    job.on_event(JobEvent::WorkDone);
    assert_eq!(job.state(), JobState::Completed);
    assert_eq!(job.next_action(), JobAction::Retire);
    assert_eq!(job.repo_name(), "repo");
}

#[test]
fn job_ignores_events_out_of_place() {
    let mut job = Job::new("repo".to_string());
    job.on_event(JobEvent::WorkDone);
    assert_eq!(job.state(), JobState::Submitted);
    job.on_event(JobEvent::Started);
    job.on_event(JobEvent::Started);
    assert_eq!(job.state(), JobState::Running);
    job.on_event(JobEvent::WorkDone);
    job.on_event(JobEvent::Started);
    job.on_event(JobEvent::WorkDone);
    assert_eq!(job.state(), JobState::Completed);
}

#[test]
fn jobs_do_not_share_state() {
    let mut first = Job::new("a".to_string());
    let second = Job::new("b".to_string());
    first.on_event(JobEvent::Started);
    first.on_event(JobEvent::WorkDone);
    assert_eq!(first.state(), JobState::Completed);
    assert_eq!(second.state(), JobState::Submitted);
    assert_eq!(second.repo_name(), "b");
}
