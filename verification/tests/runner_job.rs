use project_handoff::anchor::Host;
use project_handoff::checkpoint::{execute, Project};
use project_handoff::codec::{from_value, to_value};
use project_handoff::digest::root_fingerprint;
use project_handoff::directory::Directory;
use project_handoff::failure::{refuse, revision_conflict, Failure};
use project_handoff::json::Json;
use project_handoff::path::PathPolicy;
use project_handoff::records::ProjectIdentity;
use project_handoff::runner_job::{
    ask_first, bound_task, prepare, record_update, registered_root, registration_id,
    start_record, HandoffTarget, JobContext, JobSnapshot, RecordStep, Recording, Registration,
};
use project_handoff::server::{ask_read, client_key};
use serde_json::Value;
use std::path::Path;

struct Local {
    handoff: Directory,
    project: Project,
    policy: PathPolicy,
    registration: Registration,
}

fn parsed(text: &str) -> Value {
    serde_json::from_str(text).unwrap()
}

fn run(local: &mut Local, request: &Json) -> Result<Json, Failure> {
    execute(&mut local.handoff, &local.project, request, &local.policy, 100)
        .map(|reply| reply.to_json())
}

fn ask(local: &mut Local, request: &str) -> Value {
    let request = from_value(parsed(request));
    to_value(&run(local, &request).unwrap()).unwrap()
}

fn context() -> JobContext {
    JobContext {
        session_id: Some("wc_sess_fixture".to_string()),
        project_id: Some("agent:test:demo.v1".to_string()),
        project_cwd: Some("/work/project".to_string()),
        remote: false,
    }
}

fn job() -> JobSnapshot {
    JobSnapshot {
        context: context(),
        job_id: "job-one".to_string(),
        update_seq: 1,
        status: "runner_queued".to_string(),
        terminal: false,
        exit_code: None,
    }
}

fn fixture() -> Local {
    let mut local = Local {
        handoff: Directory { present: false, files: Vec::new() },
        project: Project {
            root: Ok(ProjectIdentity {
                canonical_root: "/work/project".to_string(),
                device: 1,
                inode: 2,
                root_fingerprint: root_fingerprint("/work/project", 1, 2),
            }),
            host: Host {
                volume: Err(refuse("unsupported_platform", "volume anchoring is supported on macOS only")),
                anchors: false,
            },
        },
        policy: PathPolicy { sensitive: Vec::new() },
        registration: Registration {
            id: "demo.v1".to_string(),
            path: "/work/project".to_string(),
            allow_patch: true,
            disabled: false,
        },
    };
    ask(&mut local, "{\"action\":\"create\",\"task_id\":\"task-a\",\"title\":\"Fixture\"}");
    let actor = client_key("wc_sess_fixture");
    ask(
        &mut local,
        &format!("{{\"action\":\"bind\",\"task_id\":\"task-a\",\"client_id\":\"{actor}\"}}"),
    );
    local
}

fn root_in(id: &str, registration: &Registration, context: &JobContext) -> Option<String> {
    let path = Path::new(&registration.path);
    let at_root = context.project_cwd.as_ref().is_some_and(|cwd| Path::new(cwd) == path);
    registered_root(id, registration, context, path.is_absolute(), at_root)
}

fn root_of(local: &Local, client: &str, context: &JobContext) -> Option<String> {
    let id = registration_id(client, context)?;
    root_in(&id, &local.registration, context)
}

fn prepare_under(
    local: &mut Local,
    client: &str,
    allowed_roots: &[&str],
    context: &JobContext,
) -> Option<HandoffTarget> {
    let root = root_of(local, client, context)?;
    let allowed = allowed_roots.iter().any(|allowed| Path::new(&root).starts_with(allowed));
    let state = run(local, &ask_first(allowed, context)?);
    let task = bound_task(&state)?;
    let current = run(local, &ask_read(&task));
    prepare(&root, allowed, &task, &current)
}

fn prepare_for(local: &mut Local, client: &str, context: &JobContext) -> Option<HandoffTarget> {
    prepare_under(local, client, &["/work/project"], context)
}

fn record(local: &mut Local, target: HandoffTarget, snapshot: &JobSnapshot) -> Result<(), ()> {
    let root = root_of(local, "test", &snapshot.context);
    let at_target =
        root.as_ref().is_some_and(|root| Path::new(root) == Path::new(&target.root));
    let (mut state, mut step) = start_record(target, &root, at_target, snapshot);
    loop {
        let request = match step {
            RecordStep::Done(true) => return Ok(()),
            RecordStep::Done(false) => return Err(()),
            RecordStep::Ask(request) => request,
        };
        let reply = run(local, &request);
        (state, step) = record_update(state, reply);
    }
}

fn events(local: &mut Local, task: &str) -> Vec<Value> {
    let read = ask(local, &format!("{{\"action\":\"read\",\"task_id\":\"{task}\"}}"));
    read["checkpoint"]["events"].as_array().unwrap().clone()
}

#[test]
fn handoff_job_terminal_persists_without_server_or_model_call() {
    let mut local = fixture();
    let mut running = job();
    running.status = "running".to_string();
    running.update_seq = 2;
    let mut terminal = job();
    terminal.status = "failed".to_string();
    terminal.terminal = true;
    terminal.exit_code = Some(7);
    terminal.update_seq = 3;
    // Both updates are committed before either is recorded: each is kept as it
    // was, not as the newest status twice.
    let target = prepare_for(&mut local, "test", &running.context).unwrap();
    record(&mut local, target, &running).unwrap();
    let target = prepare_for(&mut local, "test", &terminal.context).unwrap();
    record(&mut local, target, &terminal).unwrap();
    let target = prepare_for(&mut local, "test", &terminal.context).unwrap();
    record(&mut local, target, &terminal).unwrap();
    let events = events(&mut local, "task-a");
    assert_eq!(events.len(), 2);
    assert_eq!(events[0]["status"], "running");
    assert_eq!(events[1]["job_id"], "job-one");
    assert_eq!(events[1]["status"], "failed");
    assert_eq!(events[1]["exit_code"], 7);
    // A fact names the job, its status and its code, and nothing of its command.
    for event in &events {
        for key in event.as_object().unwrap().keys() {
            assert!(
                ["event_id", "exit_code", "job_id", "job_update_seq", "source", "status", "type"]
                    .contains(&key.as_str()),
                "{key}"
            );
        }
    }
}

#[test]
fn handoff_job_rebinding_cannot_retarget_inflight_job() {
    let mut local = fixture();
    let target = prepare_for(&mut local, "test", &context()).unwrap();
    ask(&mut local, "{\"action\":\"create\",\"task_id\":\"task-b\",\"title\":\"Other\"}");
    let actor = client_key("wc_sess_fixture");
    ask(
        &mut local,
        &format!("{{\"action\":\"bind\",\"task_id\":\"task-b\",\"client_id\":\"{actor}\"}}"),
    );
    assert!(record(&mut local, target, &job()).is_err());
    assert!(events(&mut local, "task-b").is_empty());
}

#[test]
fn handoff_job_revoked_project_write_does_not_save() {
    let mut local = fixture();
    let target = prepare_for(&mut local, "test", &context()).unwrap();
    local.registration.allow_patch = false;
    assert!(record(&mut local, target, &job()).is_err());
    assert!(events(&mut local, "task-a").is_empty());
}

#[test]
fn handoff_job_relative_wire_root_resolves_exact_registration() {
    let mut local = fixture();
    let mut job = job();
    job.context.project_cwd = Some(".".to_string());
    let target = prepare_for(&mut local, "test", &job.context).unwrap();
    job.status = "failed".to_string();
    job.terminal = true;
    job.exit_code = Some(7);
    record(&mut local, target, &job).unwrap();
    let saved = events(&mut local, "task-a");
    assert_eq!(saved[0]["exit_code"], 7);
    assert_eq!(saved[0]["job_id"], job.job_id);
    assert!(prepare_under(&mut local, "other", &[], &job.context).is_none());
    assert!(prepare_under(&mut local, "test", &[], &job.context).is_none());
    for wrong in ["..", "subdir", "/different/project"] {
        job.context.project_cwd = Some(wrong.to_string());
        assert!(prepare_for(&mut local, "test", &job.context).is_none());
    }
}

#[test]
fn handoff_job_relative_root_cannot_follow_registration_retarget() {
    let mut local = fixture();
    let mut job = job();
    job.context.project_cwd = Some(".".to_string());
    let target = prepare_for(&mut local, "test", &job.context).unwrap();
    local.registration.path = "/work/other".to_string();
    let other = Directory { present: false, files: Vec::new() };
    let home = std::mem::replace(&mut local.handoff, other);
    assert!(record(&mut local, target, &job).is_err());
    let other = std::mem::replace(&mut local.handoff, home);
    assert!(!other.present);
    assert!(events(&mut local, "task-a").is_empty());
}

#[test]
fn registrations_must_name_the_project_exactly() {
    let local = fixture();
    let mut wrong = context();
    wrong.remote = true;
    assert!(registration_id("test", &wrong).is_none());
    for id in ["agent:test:", "agent:test:..", "agent:test:.", "agent:test:a/b", "other"] {
        wrong = context();
        wrong.project_id = Some(id.to_string());
        assert!(registration_id("test", &wrong).is_none(), "{id}");
    }
    wrong.project_id = Some(format!("agent:test:{}", "x".repeat(251)));
    assert!(registration_id("test", &wrong).is_none());
    wrong.project_id = None;
    assert!(registration_id("test", &wrong).is_none());
    assert_eq!(registration_id("test", &context()).unwrap(), "demo.v1");
    let mut place = context();
    for cwd in ["/work//project/", "/work/./project"] {
        place.project_cwd = Some(cwd.to_string());
        assert_eq!(
            root_in("demo.v1", &local.registration, &place).unwrap(),
            "/work/project"
        );
    }
    assert!(root_in("demo.v2", &local.registration, &context()).is_none());
    let mut other = fixture().registration;
    other.disabled = true;
    assert!(root_in("demo.v1", &other, &context()).is_none());
    other.disabled = false;
    other.path = "work/project".to_string();
    assert!(root_in("demo.v1", &other, &context()).is_none());
}

#[test]
fn changed_revision_is_tried_once_more() {
    let mut local = fixture();
    let target = prepare_for(&mut local, "test", &context()).unwrap();
    let (state, step) = start_record(target, &Some("/work/project".to_string()), true, &job());
    let RecordStep::Ask(request) = step else { panic!() };
    let (state, step) = record_update(state, run(&mut local, &request));
    let RecordStep::Ask(request) = step else { panic!() };
    let (state, step) = record_update(state, run(&mut local, &request));
    let RecordStep::Ask(append) = step else { panic!() };
    assert!(append.has_text("action", "append"));
    let (state, step) = record_update(state, Err(revision_conflict(1, 2)));
    let RecordStep::Ask(request) = step else { panic!() };
    assert!(request.has_text("action", "read"));
    let (state, step) = record_update(state, run(&mut local, &request));
    assert!(matches!(step, RecordStep::Ask(_)));
    let (state, step) = record_update(state, Err(revision_conflict(1, 2)));
    assert!(matches!(state, Recording::Finished));
    assert!(matches!(step, RecordStep::Done(false)));
}

#[test]
fn update_ids_are_digests_of_job_and_sequence() {
    let event = to_value(&project_handoff::runner_job::update_event(&job())).unwrap();
    assert_eq!(
        event["event_id"],
        format!("runner-job-{}", project_handoff::digest::fingerprint(b"job-one:1"))
    );
    assert_eq!(event["type"], "job_started");
    assert_eq!(project_handoff::text::to_decimal(18446744073709551615), "18446744073709551615");
    assert_eq!(project_handoff::text::to_decimal(0), "0");
}

#[test]
fn nothing_is_asked_for_a_root_outside_the_allowed_ones() {
    assert!(ask_first(false, &context()).is_none());
    assert!(ask_first(true, &context()).is_some());
    let mut local = fixture();
    let current = run(&mut local, &ask_read("task-a"));
    assert!(prepare("/work/project", false, "task-a", &current).is_none());
    assert_eq!(prepare("/work/project", true, "task-a", &current).unwrap().task_id, "task-a");
}
