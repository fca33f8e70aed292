use project_handoff::anchor::Host;
use project_handoff::checkpoint::{execute, execute_from_runner, Project};
use project_handoff::cli::answer_request;
use project_handoff::codec::{from_value, to_text, to_value};
use project_handoff::digest::root_fingerprint;
use project_handoff::directory::Directory;
use project_handoff::dispatch::{
    dispatch_project_handoff, start_dispatch, DispatchEvent, DispatchStep, HandoffCall,
};
use project_handoff::exchange::{no_reply, prepare_exchange, read_response, FileOp, Response};
use project_handoff::failure::refuse;
use project_handoff::flush::{flush_project_handoff, start_flush, FlushEvent, FlushStep};
use project_handoff::json::Json;
use project_handoff::path::PathPolicy;
use project_handoff::records::ProjectIdentity;
use project_handoff::server::{
    ask_status, capture_handoff_fact, check_fence, client_key, handoff_admission,
    project_handoff_for_startup, Tables, ToolCallStart,
};
use project_handoff::store::{Database, HandoffBinding};
use project_handoff::tool::{ResolvedProject, ToolResult};
use serde_json::Value;

const ID: &str = "agent:handoff:p";
const ROOT: &str = "/work/project";

struct Runtime {
    handoff: Directory,
    project: Project,
    policy: PathPolicy,
    tables: Tables,
    /// The replies that are malformed, by their number.
    malformed: Vec<usize>,
    asked: usize,
    gate: bool,
    jobs: u64,
}

fn parsed(text: &str) -> Value {
    serde_json::from_str(text).unwrap()
}

fn json(text: &str) -> Json {
    from_value(parsed(text))
}

fn runtime() -> Runtime {
    Runtime {
        handoff: Directory { present: false, files: Vec::new() },
        project: Project {
            root: Ok(ProjectIdentity {
                canonical_root: ROOT.to_string(),
                device: 1,
                inode: 2,
                root_fingerprint: root_fingerprint(ROOT, 1, 2),
            }),
            host: Host {
                volume: Err(refuse("unsupported_platform", "volume anchoring is supported on macOS only")),
                anchors: false,
            },
        },
        policy: PathPolicy { sensitive: Vec::new() },
        tables: Tables::Open(Database::new()),
        malformed: Vec::new(),
        asked: 0,
        gate: true,
        jobs: 0,
    }
}

fn resolved() -> ResolvedProject {
    ResolvedProject {
        resolved_id: ID.to_string(),
        client_id: "handoff".to_string(),
        path: ROOT.to_string(),
        allow_patch: true,
    }
}

fn local(runtime: &mut Runtime, request: &str) -> Value {
    let request = json(request);
    let reply =
        execute(&mut runtime.handoff, &runtime.project, &request, &runtime.policy, 100).unwrap();
    to_value(&reply.to_json()).unwrap()
}

/// The runner's side of an operation.
fn serve(runtime: &mut Runtime, op: &FileOp) -> Response {
    let number = runtime.asked;
    runtime.asked += 1;
    if runtime.malformed.contains(&number) {
        return Response {
            exit_code: Some(0),
            stdout: Some("{\"success\":true,\"output\":{\"status\":\"saved\",\"task_id\":\"wrong\",\"event_id\":\"wrong\",\"revision\":2}}".to_string()),
            error: None,
        };
    }
    let request = json(&op.content);
    let reply = execute_from_runner(
        &mut runtime.handoff,
        &runtime.project,
        &request,
        &runtime.policy,
        100,
    );
    let (code, output) = answer_request(&reply);
    Response { exit_code: Some(code as i64), stdout: Some(to_text(&output).unwrap()), error: None }
}

fn ask(runtime: &mut Runtime, project: &ResolvedProject, write: bool, request: &Json) -> Result<Json, String> {
    match prepare_exchange(project, write, request) {
        Err(code) => Err(code.to_string()),
        Ok(op) => {
            let response = serve(runtime, &op);
            read_response(write, request, &response)
        },
    }
}

fn dispatch(runtime: &mut Runtime, call: HandoffCall) -> ToolResult {
    let (mut state, mut step) = start_dispatch(call);
    loop {
        let event = match step {
            DispatchStep::Answer(result) => return result,
            DispatchStep::Resolve(project) => {
                assert_eq!(project, ID);
                DispatchEvent::Resolved(Ok(resolved()))
            },
            DispatchStep::Gate => DispatchEvent::Gated(runtime.gate),
            DispatchStep::CountJobs(_) => DispatchEvent::Jobs(runtime.jobs),
            DispatchStep::Ask { project, write, request } => {
                DispatchEvent::Replied(ask(runtime, &project, write, &request))
            },
            DispatchStep::Flush(session) => DispatchEvent::Flushed(flush(runtime, &session)),
        };
        (state, step) = dispatch_project_handoff(state, event, &mut runtime.tables);
    }
}

fn flush(runtime: &mut Runtime, session: &str) -> Json {
    let (mut state, mut step) = start_flush(&runtime.tables, session);
    loop {
        let event = match step {
            FlushStep::Answer(value) => return value,
            FlushStep::Authorize => FlushEvent::Authorized(true),
            FlushStep::Resolve(project) => {
                assert_eq!(project, ID);
                FlushEvent::Resolved(Some(resolved()))
            },
            FlushStep::Ask { project, write, request, in_batch: _ } => {
                FlushEvent::Replied(ask(runtime, &project, write, &request))
            },
        };
        (state, step) = flush_project_handoff(state, event, &mut runtime.tables);
    }
}

fn db(runtime: &mut Runtime) -> &mut Database {
    match &mut runtime.tables {
        Tables::Open(db) => db,
        _ => panic!("tables are open"),
    }
}

fn output(result: &ToolResult) -> Value {
    to_value(&result.output).unwrap()
}

fn binding(session: &str, task: &str) -> HandoffBinding {
    HandoffBinding {
        session_id: session.to_string(),
        project_id: ID.to_string(),
        client_id: "handoff".to_string(),
        project_path: ROOT.to_string(),
        task_id: task.to_string(),
        root_fingerprint: root_fingerprint(ROOT, 1, 2),
    }
}

fn write_call(session: &str, request: &str) -> HandoffCall {
    HandoffCall::Write {
        project: ID.to_string(),
        session_id: session.to_string(),
        request: json(request),
    }
}

fn admission(runtime: &mut Runtime, session: Option<&str>) -> Result<(), ToolResult> {
    check_fence(&runtime.tables, session)?;
    let reply = ask(runtime, &resolved(), false, &ask_status(session));
    handoff_admission(&runtime.tables, &resolved(), session, &reply)
}

#[test]
fn project_handoff_unbound_admission_is_read_only_and_blocks_execution() {
    let mut runtime = runtime();
    local(&mut runtime, "{\"action\":\"create\",\"task_id\":\"a\",\"title\":\"Task\"}");
    let denied = admission(&mut runtime, None).unwrap_err();
    assert_eq!(output(&denied)["execution_state"], "not_started");
    let saved = local(&mut runtime, "{\"action\":\"read\",\"task_id\":\"a\"}");
    assert_eq!(saved["revision"], 1);
}

#[test]
fn project_handoff_disabled_admission_preserves_legacy_behavior() {
    let mut runtime = runtime();
    admission(&mut runtime, None).unwrap();
    assert!(!runtime.handoff.present);
}

#[test]
fn project_handoff_wrong_append_ack_remains_unknown() {
    let mut runtime = runtime();
    runtime.malformed.push(0);
    let result = ask(
        &mut runtime,
        &resolved(),
        true,
        &json("{\"action\":\"append\",\"task_id\":\"a\",\"expected_revision\":1,\"event\":{\"event_id\":\"e\",\"type\":\"note_added\",\"source\":\"gpt\"}}"),
    );
    assert_eq!(result.unwrap_err(), "handoff_save_unknown");
}

#[test]
fn project_handoff_read_does_not_need_old_session_and_exposes_pending() {
    let mut runtime = runtime();
    local(&mut runtime, "{\"action\":\"create\",\"task_id\":\"a\",\"title\":\"Task\"}");
    let result = dispatch(
        &mut runtime,
        HandoffCall::Read {
            project: ID.to_string(),
            task_id: Some("a".to_string()),
            session_id: None,
        },
    );
    assert!(result.success);
    assert_eq!(output(&result)["source_status"]["status"], "unbound");
    assert_eq!(output(&result)["revision"], 1);
}

#[test]
fn project_handoff_malformed_discovery_cannot_disable_admission() {
    let mut runtime = runtime();
    runtime.malformed.push(0);
    assert!(admission(&mut runtime, None).is_err());
    assert!(!runtime.handoff.present);
}

fn start() -> ToolCallStart {
    ToolCallStart {
        session_id: "session".to_string(),
        call_id: "call".to_string(),
        logical_invocation_id: None,
        logical_invocation_role: None,
        tool_name: "apply_text_edits".to_string(),
        write_like: true,
        shell_like: false,
        resolved_project: Some(ID.to_string()),
        changed_paths: Vec::new(),
        started_at: 100,
    }
}

fn captured(runtime: &mut Runtime, start: &ToolCallStart, result: &ToolResult) -> Option<Value> {
    capture_handoff_fact(&mut runtime.tables, Some(start), result)
        .map(|value| to_value(&value).unwrap())
}

#[test]
fn project_handoff_capture_preserves_job_failure_and_marks_partial_paths() {
    let mut runtime = runtime();
    let mut target = binding("session", "task-a");
    target.root_fingerprint = "a".repeat(64);
    db(&mut runtime).handoff_bind(&target).unwrap();
    let mut start = start();
    start.changed_paths = (0..40).map(|i| format!("file-{i}.md")).collect();
    let result = ToolResult::err_with_output(
        "fixture failure",
        json("{\"exit_code\":7,\"job_id\":\"original-job\",\"stdout\":\"do-not-store\"}"),
    );
    assert_eq!(captured(&mut runtime, &start, &result).unwrap()["status"], "pending");
    let saved = db(&mut runtime).handoff_pending("session").unwrap();
    assert_eq!(saved.len(), 1);
    let event = to_value(&saved[0].event).unwrap();
    assert_eq!(event["exit_code"], 7);
    assert_eq!(event["success"], false);
    assert_eq!(event["job_id"], "original-job");
    assert_eq!(event["paths"].as_array().unwrap().len(), 32);
    assert_eq!(event["unknown"], true);
    assert_eq!(event["status"], "partial_path_coverage");
    assert!(!event.to_string().contains("do-not-store"));
    start.logical_invocation_role = Some("recorder".to_string());
    assert!(captured(&mut runtime, &start, &result).is_none());
    assert_eq!(db(&mut runtime).handoff_pending("session").unwrap().len(), 1);
}

#[test]
fn project_handoff_archive_roundtrip_preserves_read_and_retires_binding() {
    let mut runtime = runtime();
    let original = local(&mut runtime, "{\"action\":\"create\",\"task_id\":\"done\",\"title\":\"Done\",\"event\":{\"event_id\":\"finished\",\"type\":\"task_completed\",\"source\":\"gpt\",\"status\":\"completed\"}}");
    assert_eq!(original["revision"], 1);
    let checkpoint = local(&mut runtime, "{\"action\":\"read\",\"task_id\":\"done\"}");
    let b = binding("old", "done");
    assert_eq!(
        checkpoint["checkpoint"]["project_identity"]["root_fingerprint"],
        b.root_fingerprint
    );
    db(&mut runtime).handoff_bind(&b).unwrap();
    local(
        &mut runtime,
        &format!("{{\"action\":\"bind\",\"task_id\":\"done\",\"client_id\":\"{}\"}}", client_key("old")),
    );
    let request = "{\"action\":\"archive\",\"task_id\":\"done\",\"expected_revision\":1}";
    runtime.gate = false;
    let blocked = dispatch(&mut runtime, write_call("old", request));
    assert!(!blocked.success);
    assert!(!db(&mut runtime).handoff_retirement_started(&b));
    runtime.gate = true;
    runtime.malformed.push(runtime.asked + 1);
    let unknown = dispatch(&mut runtime, write_call("old", request));
    assert!(!unknown.success);
    assert_eq!(output(&unknown)["retirement"], "pending");
    assert!(db(&mut runtime).handoff_retirement_started(&b));
    // A definitive read of the state that is not archived lifts the freeze after
    // an uncertain reply, even when the retry has a stale revision.
    let stale = dispatch(
        &mut runtime,
        write_call("old", "{\"action\":\"archive\",\"task_id\":\"done\",\"expected_revision\":99}"),
    );
    assert!(!stale.success);
    assert!(!db(&mut runtime).handoff_retirement_started(&b));
    let result = dispatch(&mut runtime, write_call("old", request));
    assert!(result.success, "{result:?}");
    assert_eq!(output(&result)["retirement"], "retired");
    assert!(db(&mut runtime).handoff_retirement_started(&b));
    assert!(admission(&mut runtime, Some("old")).is_err());
    let read = dispatch(
        &mut runtime,
        HandoffCall::Read {
            project: ID.to_string(),
            session_id: None,
            task_id: Some("done".to_string()),
        },
    );
    assert!(read.success);
    assert_eq!(output(&read)["archived"], true);
    assert_eq!(output(&read)["event_count"], 1);
    assert_eq!(output(&read)["checkpoint"], checkpoint["checkpoint"]);
}

#[test]
fn binding_delivers_what_waits_and_admits_work() {
    let mut runtime = runtime();
    local(&mut runtime, "{\"action\":\"create\",\"task_id\":\"a\",\"title\":\"Task\"}");
    db(&mut runtime).handoff_bind(&binding("earlier", "a")).unwrap();
    let waiting = json("{\"event_id\":\"waits\",\"type\":\"tool_finished\",\"source\":\"webcodex\",\"status\":\"tool_succeeded\"}");
    db(&mut runtime).handoff_enqueue("earlier", &waiting, 1).unwrap();
    let bound = dispatch(&mut runtime, write_call("now", "{\"action\":\"bind\",\"task_id\":\"a\"}"));
    assert!(bound.success, "{bound:?}");
    assert_eq!(output(&bound)["checkpoint_persistence"]["status"], "saved");
    assert_eq!(output(&bound)["source_pending_facts"], 0);
    assert!(db(&mut runtime).handoff_pending("earlier").unwrap().is_empty());
    let read = local(&mut runtime, "{\"action\":\"read\",\"task_id\":\"a\"}");
    assert_eq!(read["checkpoint"]["events"][0]["event_id"], "waits");
    admission(&mut runtime, Some("now")).unwrap();
    assert!(admission(&mut runtime, Some("other")).is_err());
}

#[test]
fn unconfirmed_delivery_keeps_its_event() {
    let mut runtime = runtime();
    local(&mut runtime, "{\"action\":\"create\",\"task_id\":\"a\",\"title\":\"Task\"}");
    dispatch(&mut runtime, write_call("now", "{\"action\":\"bind\",\"task_id\":\"a\"}"));
    let event = json("{\"event_id\":\"waits\",\"type\":\"tool_finished\"}");
    db(&mut runtime).handoff_enqueue("now", &event, 1).unwrap();
    runtime.malformed.push(runtime.asked + 2);
    let value = flush(&mut runtime, "now");
    assert_eq!(to_value(&value).unwrap(), parsed("{\"status\":\"pending\",\"reason\":\"delivery_unconfirmed\"}"));
    assert_eq!(db(&mut runtime).handoff_pending("now").unwrap().len(), 1);
    let value = flush(&mut runtime, "now");
    assert_eq!(to_value(&value).unwrap(), parsed("{\"status\":\"saved\",\"task_id\":\"a\"}"));
    assert!(db(&mut runtime).handoff_pending("now").unwrap().is_empty());
}

#[test]
fn model_entries_are_marked_and_limited() {
    let mut runtime = runtime();
    local(&mut runtime, "{\"action\":\"create\",\"task_id\":\"a\",\"title\":\"Task\"}");
    for (request, error) in [
        ("{\"action\":\"bind\",\"task_id\":\"a\",\"client_id\":\"x\"}", "handoff client identity is Server-owned"),
        ("{\"action\":\"append\",\"event\":1}", "invalid_handoff_event"),
        (
            "{\"action\":\"append\",\"event\":{\"type\":\"job_terminal\"}}",
            "model-authored handoff entries must be notes or explicit task judgments",
        ),
        ("[]", "invalid_handoff_request"),
        ("{\"action\":\"bind\"}", "handoff bind requires exact task_id"),
    ] {
        let refused = dispatch(&mut runtime, write_call("s", request));
        assert_eq!(refused.error.as_deref(), Some(error));
    }
    let saved = dispatch(
        &mut runtime,
        write_call("s", "{\"action\":\"append\",\"task_id\":\"a\",\"expected_revision\":1,\"event\":{\"event_id\":\"n\",\"type\":\"note_added\",\"source\":\"runner\"}}"),
    );
    assert!(saved.success);
    let read = local(&mut runtime, "{\"action\":\"read\",\"task_id\":\"a\"}");
    assert_eq!(read["checkpoint"]["events"][0]["source"], "gpt");
}

#[test]
fn archival_is_refused_while_jobs_run() {
    let mut runtime = runtime();
    local(&mut runtime, "{\"action\":\"create\",\"task_id\":\"a\",\"title\":\"Task\"}");
    runtime.jobs = 1;
    let refused = dispatch(
        &mut runtime,
        write_call("s", "{\"action\":\"archive\",\"task_id\":\"a\",\"expected_revision\":1}"),
    );
    assert_eq!(refused.error.as_deref(), Some("handoff_active_jobs"));
    assert_eq!(runtime.asked, 0);
}

#[test]
fn definite_failure_of_archival_lifts_the_freeze() {
    let mut runtime = runtime();
    local(&mut runtime, "{\"action\":\"create\",\"task_id\":\"a\",\"title\":\"Task\",\"event\":{\"event_id\":\"f\",\"type\":\"task_completed\",\"status\":\"completed\"}}");
    let call = write_call("s", "{\"action\":\"archive\",\"task_id\":\"a\",\"expected_revision\":1}");
    let (mut state, mut step) = start_dispatch(call);
    loop {
        let event = match step {
            DispatchStep::Answer(result) => {
                assert_eq!(result.error.as_deref(), Some("lock_timeout"));
                assert_eq!(output(&result)["retirement"], "not_archived");
                break;
            },
            DispatchStep::Resolve(_) => DispatchEvent::Resolved(Ok(resolved())),
            DispatchStep::Gate => DispatchEvent::Gated(true),
            DispatchStep::CountJobs(_) => DispatchEvent::Jobs(0),
            DispatchStep::Ask { write: true, .. } => {
                assert!(db(&mut runtime).handoff_retirement_started(&binding("", "a")));
                DispatchEvent::Replied(Err("lock_timeout".to_string()))
            },
            DispatchStep::Ask { project, write, request } => {
                DispatchEvent::Replied(ask(&mut runtime, &project, write, &request))
            },
            DispatchStep::Flush(_) => unreachable!(),
        };
        (state, step) = dispatch_project_handoff(state, event, &mut runtime.tables);
    }
    assert!(!db(&mut runtime).handoff_retirement_started(&binding("", "a")));
}

#[test]
fn replies_are_held_to_what_was_asked() {
    let response = |text: &str| Response {
        exit_code: Some(0),
        stdout: Some(text.to_string()),
        error: None,
    };
    let read = json("{\"action\":\"read\",\"task_id\":\"a\"}");
    let good = "{\"success\":true,\"output\":{\"enabled\":true,\"status\":\"ready\",\"task_id\":\"a\",\"revision\":1,\"checkpoint\":{\"task_id\":\"a\"}}}";
    assert!(read_response(false, &read, &response(good)).is_ok());
    assert_eq!(
        read_response(false, &read, &response(&good.replace("\"ready\"", "\"other\""))).unwrap_err(),
        "handoff_invalid_response"
    );
    assert_eq!(
        read_response(false, &read, &response("not JSON")).unwrap_err(),
        "handoff_invalid_response"
    );
    let failed = "{\"success\":false,\"error\":{\"code\":\"lock_timeout\",\"state_changed\":false}}";
    assert_eq!(read_response(true, &read, &response(failed)).unwrap_err(), "lock_timeout");
    let raw = "{\"success\":false,\"error\":{\"code\":\"Raw Output!\",\"state_changed\":false}}";
    assert_eq!(read_response(true, &read, &response(raw)).unwrap_err(), "handoff_save_failed");
    let changed = "{\"success\":false,\"error\":{\"code\":\"io_error\",\"state_changed\":true}}";
    assert_eq!(read_response(true, &read, &response(changed)).unwrap_err(), "handoff_save_unknown");
    assert_eq!(read_response(false, &read, &response(changed)).unwrap_err(), "io_error");
    let mut silent = response(good);
    silent.stdout = None;
    assert_eq!(read_response(true, &read, &silent).unwrap_err(), "handoff_save_unknown");
    let create = json("{\"action\":\"create\",\"task_id\":\"a\"}");
    let created = "{\"success\":true,\"output\":{\"status\":\"saved\",\"task_id\":\"a\",\"revision\":1}}";
    assert!(read_response(true, &create, &response(created)).is_ok());
    assert_eq!(
        read_response(true, &create, &response(&created.replace(":1}", ":0}"))).unwrap_err(),
        "handoff_save_unknown"
    );
    let disable = json("{\"action\":\"disable\"}");
    let disabled = "{\"success\":true,\"output\":{\"status\":\"disabled\",\"enabled\":false}}";
    assert!(read_response(true, &disable, &response(disabled)).is_ok());
    assert_eq!(no_reply(true), "handoff_save_unknown");
    assert_eq!(no_reply(false), "handoff_unavailable");
}

#[test]
fn operations_name_the_exact_project() {
    let op = prepare_exchange(&resolved(), true, &json("{\"action\":\"status\"}")).unwrap();
    assert_eq!(op.op(), "handoff_write");
    assert_eq!(op.agent_project_id, "p");
    assert_eq!(op.cwd, ROOT);
    assert_eq!(op.content, "{\"action\":\"status\"}");
    let mut other = resolved();
    other.client_id = "other".to_string();
    assert_eq!(
        prepare_exchange(&other, false, &json("{}")).unwrap_err(),
        "handoff_invalid_project_identity"
    );
    other.client_id = "handoff".to_string();
    other.resolved_id = "agent:handoff:".to_string();
    assert_eq!(
        prepare_exchange(&other, false, &json("{}")).unwrap_err(),
        "handoff_invalid_project_identity"
    );
    let long = Json::Text("x".repeat(131072));
    assert_eq!(
        prepare_exchange(&resolved(), false, &long).unwrap_err(),
        "handoff_request_too_large"
    );
}

#[test]
fn startup_tells_what_is_known() {
    let mut runtime = runtime();
    let reply = ask(&mut runtime, &resolved(), false, &ask_status(Some("s")));
    assert!(project_handoff_for_startup(&runtime.tables, &resolved(), reply).is_none());
    local(&mut runtime, "{\"action\":\"create\",\"task_id\":\"a\",\"title\":\"Task\"}");
    let reply = ask(&mut runtime, &resolved(), false, &ask_status(Some("s")));
    let notice = project_handoff_for_startup(&runtime.tables, &resolved(), reply).unwrap();
    let notice = to_value(&notice).unwrap();
    assert_eq!(notice["enabled"], true);
    assert_eq!(notice["source_status"]["coverage"], "known_recorded_events_only");
    let notice =
        project_handoff_for_startup(&runtime.tables, &resolved(), Err("x".to_string())).unwrap();
    assert_eq!(to_value(&notice).unwrap()["status"], "unavailable");
}

#[test]
fn unavailable_tables_are_never_passed_over() {
    let mut runtime = runtime();
    runtime.tables = Tables::Failed;
    assert_eq!(
        check_fence(&runtime.tables, Some("s")).unwrap_err().error.as_deref(),
        Some("handoff_binding_unavailable")
    );
    let ok = ToolResult::ok(Json::Null);
    assert_eq!(
        captured(&mut runtime, &start(), &ok).unwrap(),
        parsed("{\"status\":\"failed\",\"reason\":\"outbox_unavailable\"}")
    );
    assert_eq!(
        to_value(&flush(&mut runtime, "s")).unwrap(),
        parsed("{\"status\":\"failed\",\"reason\":\"outbox_unavailable\"}")
    );
    runtime.tables = Tables::Absent;
    assert!(captured(&mut runtime, &start(), &ok).is_none());
    assert_eq!(to_value(&flush(&mut runtime, "s")).unwrap(), parsed("{\"status\":\"disabled\"}"));
}

#[test]
fn facts_that_cannot_be_kept_leave_a_gap() {
    let mut runtime = runtime();
    db(&mut runtime).handoff_bind(&binding("session", "a")).unwrap();
    let ok = ToolResult::ok(Json::Null);
    let mut call = start();
    call.resolved_project = None;
    assert_eq!(captured(&mut runtime, &call, &ok).unwrap()["reason"], "event_project_mismatch");
    call = start();
    call.changed_paths = vec!["x".repeat(513)];
    assert_eq!(captured(&mut runtime, &call, &ok).unwrap()["reason"], "fact_not_saved");
    assert_eq!(db(&mut runtime).gaps.len(), 1);
    call = start();
    call.tool_name = "project_handoff_read".to_string();
    assert!(captured(&mut runtime, &call, &ok).is_none());
    call = start();
    call.write_like = false;
    assert!(captured(&mut runtime, &call, &ok).is_none());
}
