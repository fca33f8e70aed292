use project_handoff::anchor::Host;
use project_handoff::checkpoint::{execute, execute_from_runner, Project};
use project_handoff::checks::{MAX_TASK_BYTES, MAX_TASK_COUNT};
use project_handoff::codec::{from_bytes, from_value, to_value};
use project_handoff::commit::Write;
use project_handoff::digest::{fingerprint, root_fingerprint};
use project_handoff::directory::{load_index, load_task, Directory, Entry};
use project_handoff::failure::{refuse, Failure};
use project_handoff::host::{check_opened, file_missing, OsError};
use project_handoff::jobs::same_terminal_job_fact;
use project_handoff::json::Json;
use project_handoff::markdown::MAX_EVENT_COUNT;
use project_handoff::mutations::plan_markdown;
use project_handoff::path::PathPolicy;
use project_handoff::records::{EventArchive, ProjectIdentity};
use project_handoff::writing::{check_total_capacity, plan_archive, serialize_task, Target};
use serde_json::Value;

struct Root {
    handoff: Directory,
    project: Project,
    policy: PathPolicy,
    now: i64,
}

fn identity(path: &str, device: u64, inode: u64) -> ProjectIdentity {
    ProjectIdentity {
        canonical_root: path.to_string(),
        device,
        inode,
        root_fingerprint: root_fingerprint(path, device, inode),
    }
}

fn no_anchor() -> Host {
    Host {
        volume: Err(refuse("unsupported_platform", "volume anchoring is supported on macOS only")),
        anchors: false,
    }
}

fn root_at(path: &str, inode: u64) -> Root {
    Root {
        handoff: Directory { present: false, files: Vec::new() },
        project: Project { root: Ok(identity(path, 7, inode)), host: no_anchor() },
        policy: PathPolicy { sensitive: Vec::new() },
        now: 1_700_000_000,
    }
}

fn root() -> Root {
    root_at("/work/project", 11)
}

fn parsed(text: &str) -> Value {
    serde_json::from_str(text).unwrap()
}

fn shown(reply: Result<project_handoff::reply::Reply, Failure>) -> Result<Value, Value> {
    match reply {
        Ok(reply) => Ok(to_value(&reply.to_json()).unwrap()),
        Err(failure) => Err(to_value(&failure.to_json()).unwrap()),
    }
}

fn run(root: &mut Root, request: Value) -> Result<Value, Value> {
    root.now += 1;
    let request = from_value(request);
    shown(execute(&mut root.handoff, &root.project, &request, &root.policy, root.now))
}

fn run_from_runner(root: &mut Root, request: Value) -> Result<Value, Value> {
    root.now += 1;
    let request = from_value(request);
    shown(execute_from_runner(&mut root.handoff, &root.project, &request, &root.policy, root.now))
}

fn file(root: &Root, name: &str) -> Option<Vec<u8>> {
    for (found, entry) in &root.handoff.files {
        if found == name {
            if let Entry::File { bytes, .. } = entry {
                return Some(bytes.clone());
            }
        }
    }
    None
}

fn text(root: &Root, name: &str) -> String {
    String::from_utf8(file(root, name).unwrap()).unwrap()
}

fn write(root: &mut Root, name: &str, bytes: &[u8]) {
    root.handoff.present = true;
    root.handoff.insert(name.to_string(), bytes.to_vec());
}

fn refuse_file(root: &mut Root, name: &str, open: Failure) {
    root.handoff.present = true;
    root.handoff.remove(name);
    let entry = Entry::Refused {
        open,
        inspect: Err(refuse("unsafe_path", "handoff target must be a single-link regular file")),
    };
    root.handoff.files.push((name.to_string(), entry));
}

/// The name in the checkpoint of a project-relative path.
fn inside(path: &Value) -> String {
    path.as_str().unwrap().strip_prefix("handoff/").unwrap().to_string()
}

fn create_request(task_id: &str, title: &str) -> Value {
    parsed(&format!("{{\"action\":\"create\",\"task_id\":\"{task_id}\",\"title\":\"{title}\"}}"))
}

fn event(event_id: &str, status: &str) -> Value {
    parsed(&format!(
        "{{\"event_id\":\"{event_id}\",\"type\":\"job_terminal\",\"source\":\"local_codex\",\"job_id\":\"job-1\",\"status\":\"{status}\",\"summary\":\"bounded result\"}}"
    ))
}

fn append_event(task_id: &str, revision: u64, event: &Value) -> Value {
    parsed(&format!(
        "{{\"action\":\"append\",\"task_id\":\"{task_id}\",\"expected_revision\":{revision},\"event\":{event}}}"
    ))
}

fn append_request(task_id: &str, revision: u64, event_id: &str, status: &str) -> Value {
    append_event(task_id, revision, &event(event_id, status))
}

fn read_request(task_id: &str) -> Value {
    parsed(&format!("{{\"action\":\"read\",\"task_id\":\"{task_id}\"}}"))
}

fn status_request() -> Value {
    parsed("{\"action\":\"status\"}")
}

fn code(error: &Value) -> &str {
    error["code"].as_str().expect("stable error code")
}

#[test]
fn duplicate_repairs_stale_markdown_without_losing_human_notes() {
    let mut root = root();
    run(&mut root, create_request("repair", "Repair")).unwrap();
    let old = text(&root, "repair.md");
    let request = append_request("repair", 1, "terminal", "failed");
    run(&mut root, request.clone()).unwrap();
    write(&mut root, "repair.md", format!("{old}\n用户补充：尚待确认。\n").as_bytes());
    let result = run(&mut root, request).unwrap();
    assert_eq!(result["status"], "duplicate");
    let repaired = text(&root, "repair.md");
    assert!(repaired.contains("terminal"));
    assert!(repaired.contains("用户补充：尚待确认。"));
}

#[test]
fn markdown_edit_after_projection_read_is_preserved() {
    let mut root = root();
    run(&mut root, create_request("edit", "Edit")).unwrap();
    let owner = identity("/work/project", 7, 11);
    let task = load_task(&root.handoff, &owner, "edit", &root.policy).unwrap();
    let plan = plan_markdown(&root.handoff, &task).unwrap();
    let user_bytes = b"User changed the existing file after projection read.";
    write(&mut root, "edit.md", user_bytes);
    let change = Write::checked("edit.md".to_string(), plan.bytes.unwrap(), plan.original);
    let failure = root.handoff.atomic_write_checked(&change).unwrap_err();
    assert_eq!(failure.code, "markdown_conflict");
    assert_eq!(file(&root, "edit.md").unwrap(), user_bytes);
}

#[test]
fn status_and_read_without_configuration_are_read_only_disabled() {
    let mut root = root();
    let status = run(&mut root, status_request()).unwrap();
    assert_eq!(status["enabled"], false);
    assert_eq!(status["status"], "disabled");
    let read = run(&mut root, read_request("task-1")).unwrap();
    assert_eq!(read["enabled"], false);
    assert_eq!(read["checkpoint"], Value::Null);
    assert!(!root.handoff.present);
    assert!(root.handoff.files.is_empty());
}

#[test]
fn mutation_without_configuration_does_not_initialize_the_project() {
    let mut root = root();
    let append = run(&mut root, append_request("task-1", 1, "event-1", "completed")).unwrap_err();
    assert_eq!(code(&append), "handoff_disabled");
    let disable = run(&mut root, parsed("{\"action\":\"disable\"}")).unwrap();
    assert_eq!(disable["status"], "disabled");
    assert!(!root.handoff.present);
    assert!(root.handoff.files.is_empty());
}

#[test]
fn create_append_duplicate_and_cas_have_stable_shapes() {
    let mut root = root();
    let created = run(&mut root, create_request("task-1", "Example task")).unwrap();
    assert_eq!(created["status"], "saved");
    assert_eq!(created["revision"], 1);
    assert_eq!(
        run(&mut root, append_request("task-1", 1, "event-1", "completed")).unwrap()["revision"],
        2
    );
    let duplicate = run(&mut root, append_request("task-1", 1, "event-1", "completed")).unwrap();
    assert_eq!(duplicate["status"], "duplicate");
    assert_eq!(duplicate["revision"], 2);
    let stale = run(&mut root, append_request("task-1", 1, "event-2", "completed")).unwrap_err();
    assert_eq!(code(&stale), "revision_conflict");
    assert_eq!(stale["actual_revision"], 2);
    let read = run(&mut root, read_request("task-1")).unwrap();
    assert_eq!(read["revision"], 2);
    assert_eq!(read["checkpoint"]["events"].as_array().unwrap().len(), 1);
}

#[test]
fn runner_and_server_terminal_delivery_share_one_job_fact() {
    let mut root = root();
    run(&mut root, create_request("task-1", "Example task")).unwrap();
    let runner = parsed(
        "{\"event_id\":\"runner-job-abc\",\"type\":\"job_terminal\",\"source\":\"runner\",\"job_id\":\"job-1\",\"job_update_seq\":3,\"status\":\"completed\",\"exit_code\":0}",
    );
    let saved = run(&mut root, append_event("task-1", 1, &runner)).unwrap();
    assert_eq!(saved["status"], "saved");
    let server = parsed(
        "{\"event_id\":\"job-terminal-abc\",\"type\":\"job_terminal\",\"source\":\"webcodex\",\"job_id\":\"job-1\",\"job_update_seq\":3,\"status\":\"completed\",\"exit_code\":0,\"observed_at\":123}",
    );
    let duplicate = run(&mut root, append_event("task-1", 1, &server)).unwrap();
    assert_eq!(duplicate["status"], "duplicate");
    assert_eq!(duplicate["event_id"], "job-terminal-abc");
    assert_eq!(duplicate["revision"], 2);
    let conflicting = parsed(
        "{\"event_id\":\"job-terminal-conflict\",\"type\":\"job_terminal\",\"source\":\"webcodex\",\"job_id\":\"job-1\",\"job_update_seq\":3,\"status\":\"failed\",\"exit_code\":1}",
    );
    run(&mut root, append_event("task-1", 2, &conflicting)).unwrap();
    let read = run(&mut root, read_request("task-1")).unwrap();
    assert_eq!(read["checkpoint"]["events"].as_array().unwrap().len(), 2);
    assert_eq!(read["checkpoint"]["events"][0]["source"], "runner");
    assert_eq!(read["checkpoint"]["events"][1]["status"], "failed");
}

#[test]
fn unknown_and_arbitrary_event_fields_are_preserved_or_rejected() {
    let mut root = root();
    run(&mut root, create_request("task-1", "Example task")).unwrap();
    let unknown = run(
        &mut root,
        parsed("{\"action\":\"append\",\"task_id\":\"task-1\",\"expected_revision\":1,\"event\":{\"event_id\":\"event-unknown\",\"type\":\"job_terminal\",\"status\":\"unknown\",\"unknown\":true}}"),
    )
    .unwrap();
    assert_eq!(unknown["revision"], 2);
    let status = run(&mut root, status_request()).unwrap();
    assert_eq!(status["tasks"][0]["status"], "unknown");
    assert_eq!(status["tasks"][0]["unknown_count"], 1);
    let rejected = run(
        &mut root,
        parsed("{\"action\":\"append\",\"task_id\":\"task-1\",\"expected_revision\":2,\"event\":{\"event_id\":\"event-output\",\"type\":\"job_terminal\",\"output\":{\"stdout\":\"secret\"}}}"),
    )
    .unwrap_err();
    assert_eq!(code(&rejected), "event_field_not_allowed");
}

#[test]
fn old_markdown_is_never_overwritten() {
    let mut root = root();
    let old = "# User notes\n\nKeep this exact text.\n";
    write(&mut root, "task-1.md", old.as_bytes());
    let created = run(&mut root, create_request("task-1", "Example task")).unwrap();
    assert_eq!(created["markdown"], "preserved_unmanaged");
    run(&mut root, append_request("task-1", 1, "event-1", "completed")).unwrap();
    assert_eq!(text(&root, "task-1.md"), old);
}

#[test]
fn copied_project_identity_is_rejected() {
    let mut root = root();
    run(&mut root, create_request("task-1", "Example task")).unwrap();
    let mut copy = root_at("/work/copy", 12);
    for name in ["index.json", "task-1.json", "task-1.md"] {
        let bytes = file(&root, name).unwrap();
        write(&mut copy, name, &bytes);
    }
    let error = run(&mut copy, status_request()).unwrap_err();
    assert_eq!(code(&error), "project_identity_mismatch");
}

#[test]
fn binding_is_explicit_and_status_only_reports_selection() {
    let mut root = root();
    run(&mut root, create_request("task-1", "Example task")).unwrap();
    let binding = run(
        &mut root,
        parsed("{\"action\":\"bind\",\"task_id\":\"task-1\",\"client_id\":\"local:abc123\"}"),
    )
    .unwrap();
    assert_eq!(binding["status"], "bound");
    let status = run(
        &mut root,
        parsed("{\"action\":\"status\",\"client_id\":\"local:abc123\"}"),
    )
    .unwrap();
    assert_eq!(status["bound_task_id"], "task-1");
}

#[test]
fn concurrent_appends_allow_one_cas_winner() {
    let mut root = root();
    run(&mut root, create_request("task-1", "Example task")).unwrap();
    let results = [
        run(&mut root, append_request("task-1", 1, "event-a", "completed")),
        run(&mut root, append_request("task-1", 1, "event-b", "completed")),
    ];
    assert_eq!(results.iter().filter(|result| result.is_ok()).count(), 1);
    assert_eq!(
        results
            .iter()
            .filter(|result| result
                .as_ref()
                .err()
                .is_some_and(|error| code(error) == "revision_conflict"))
            .count(),
        1
    );
}

#[test]
fn symlink_and_hardlink_targets_fail_closed() {
    let mut first = root();
    refuse_file(&mut first, "index.json", file_missing(OsError::Loop, false).unwrap_err());
    let error = run(&mut first, status_request()).unwrap_err();
    assert_eq!(code(&error), "unsafe_path");

    let mut second = root();
    run(&mut second, create_request("task-1", "Example task")).unwrap();
    refuse_file(&mut second, "task-1.json", check_opened(true, 2).unwrap_err());
    let error = run(&mut second, append_request("task-1", 1, "event-1", "completed")).unwrap_err();
    assert_eq!(code(&error), "unsafe_path");
}

#[test]
fn event_capacity_archives_history_and_preserves_binding_unknown_and_dedup() {
    let mut root = root();
    run(&mut root, create_request("task-1", "Example task")).unwrap();
    run(
        &mut root,
        parsed("{\"action\":\"bind\",\"task_id\":\"task-1\",\"client_id\":\"local:one\"}"),
    )
    .unwrap();
    for i in 0..(MAX_EVENT_COUNT * 2 + 1) {
        run(
            &mut root,
            append_request(
                "task-1",
                i as u64 + 1,
                &format!("event-{i}"),
                if i == 0 { "unknown" } else { "completed" },
            ),
        )
        .unwrap();
    }
    let saved = run(&mut root, read_request("task-1")).unwrap();
    assert_eq!(saved["event_count"], 257);
    assert_eq!(saved["history"]["archived_events"], 256);
    assert_eq!(saved["checkpoint"]["unknown_count"], 1);
    assert_eq!(saved["checkpoint"]["events"].as_array().unwrap().len(), 1);
    let files = saved["history"]["files"].as_array().unwrap();
    assert_eq!(files.len(), 2);
    let history = parsed(&text(&root, &inside(&files[0])));
    assert_eq!(history[0]["status"], "unknown");
    assert_eq!(history.as_array().unwrap().len(), 128);
    let duplicate = run(&mut root, append_request("task-1", 1, "event-0", "unknown")).unwrap();
    assert_eq!(duplicate["status"], "duplicate");
    assert_eq!(duplicate["revision"], 258);
    let status = run(
        &mut root,
        parsed("{\"action\":\"status\",\"client_id\":\"local:one\"}"),
    )
    .unwrap();
    assert_eq!(status["bound_task_id"], "task-1");
    assert_eq!(status["tasks"][0]["event_count"], 257);
    run(
        &mut root,
        parsed("{\"action\":\"append\",\"task_id\":\"task-1\",\"expected_revision\":258,\"event\":{\"event_id\":\"stage-end\",\"type\":\"stage_finished\",\"summary\":\"Next: real phone verification\"}}"),
    )
    .unwrap();
    // Corrupt history is neither treated as absent nor silently repaired.
    write(&mut root, &inside(&files[0]), b"[]");
    let error = run(&mut root, read_request("task-1")).unwrap_err();
    assert_eq!(code(&error), "archive_corrupt");
}

#[test]
fn archive_retry_after_segment_commit_preserves_human_notes() {
    let mut root = root();
    run(&mut root, create_request("retry", "Retry")).unwrap();
    for i in 0..MAX_EVENT_COUNT {
        run(
            &mut root,
            append_request("retry", i as u64 + 1, &format!("e{i}"), "completed"),
        )
        .unwrap();
    }
    let owner = identity("/work/project", 7, 11);
    let mut task = load_task(&root.handoff, &owner, "retry", &root.policy).unwrap();
    task.events.push(from_value(event("after", "completed")));
    let (name, bytes) = plan_archive(&mut task).unwrap().unwrap();
    let segment = Write::plain(name, bytes, false, false);
    root.handoff.atomic_write_checked(&segment).unwrap();
    let old = text(&root, "retry.md");
    write(&mut root, "retry.md", format!("{old}\nKeep my note.\n").as_bytes());
    run(&mut root, append_request("retry", 129, "after", "completed")).unwrap();
    let read = run(&mut root, read_request("retry")).unwrap();
    assert_eq!(read["event_count"], 129);
    assert!(text(&root, "retry.md").contains("Keep my note."));
}

#[test]
fn replicated_terminal_dedup_keeps_all_new_evidence_and_both_arrival_orders() {
    let fact = parsed(
        "{\"event_id\":\"runner\",\"source\":\"runner\",\"type\":\"job_terminal\",\"job_id\":\"j\",\"job_update_seq\":3,\"status\":\"completed\",\"exit_code\":0}",
    );
    let mut server = fact.clone();
    server["event_id"] = "server".into();
    server["source"] = "webcodex".into();
    server["observed_at"] = 42.into();
    for reverse in [false, true] {
        let mut root = root();
        run(&mut root, create_request("t", "T")).unwrap();
        let (first, second) = if reverse { (&server, &fact) } else { (&fact, &server) };
        run(&mut root, append_event("t", 1, first)).unwrap();
        assert_eq!(run(&mut root, append_event("t", 1, second)).unwrap()["status"], "duplicate");
    }
    for (field, value) in [
        ("summary", parsed("\"new evidence\"")),
        ("outcome", parsed("\"unknown\"")),
        ("task_status", parsed("\"blocked\"")),
        ("paths", parsed("[\"src/a.rs\"]")),
        ("exit_code", parsed("7")),
    ] {
        let mut root = root();
        run(&mut root, create_request("t", "T")).unwrap();
        run(&mut root, append_event("t", 1, &fact)).unwrap();
        let mut incoming = server.clone();
        incoming[field] = value.clone();
        assert_eq!(run(&mut root, append_event("t", 2, &incoming)).unwrap()["status"], "saved");
        let read = run(&mut root, read_request("t")).unwrap();
        assert_eq!(read["checkpoint"]["events"][1][field], value);
        if field == "outcome" {
            assert_eq!(read["checkpoint"]["unknown_count"], 1);
        }
        if field == "task_status" {
            assert_eq!(read["checkpoint"]["status"], "blocked");
        }
    }
    let mut note = server.clone();
    note["source"] = "gpt".into();
    assert!(!same_terminal_job_fact(&from_value(fact), &from_value(note)));
}

#[test]
fn stale_index_is_readable_and_append_repairs_its_projection() {
    let mut root = root();
    run(&mut root, create_request("task-1", "Example task")).unwrap();
    // A crash after the task file was durably replaced but before the index
    // was. The task remains valid and decides its own revision.
    let mut task = parsed(&text(&root, "task-1.json"));
    task["revision"] = 2.into();
    task["updated_at"] = 2.into();
    write(&mut root, "task-1.json", &serde_json::to_vec_pretty(&task).unwrap());

    let status = run(&mut root, status_request()).unwrap();
    assert_eq!(status["integrity"], "index_stale");
    assert_eq!(status["tasks"][0]["revision"], 2);
    let read = run(&mut root, read_request("task-1")).unwrap();
    assert_eq!(read["integrity"], "index_stale");

    let saved = run(&mut root, append_request("task-1", 2, "event-repair", "completed")).unwrap();
    assert_eq!(saved["revision"], 3);
    let repaired = run(&mut root, status_request()).unwrap();
    assert!(repaired.get("integrity").is_none());
    assert_eq!(repaired["tasks"][0]["revision"], 3);
}

#[test]
fn terminal_projection_survives_late_running_and_lower_sequence() {
    let mut root = root();
    run(&mut root, create_request("ordered", "Ordered")).unwrap();
    for (revision, id, kind, status, seq, exit) in [
        (1, "end", "job_terminal", "failed", 3, Some(7)),
        (2, "late", "job_started", "running", 2, None),
        (3, "old", "job_terminal", "completed", 1, Some(0)),
    ] {
        let mut fact = parsed(&format!(
            "{{\"event_id\":\"{id}\",\"type\":\"{kind}\",\"source\":\"runner\",\"job_id\":\"job-one\",\"status\":\"{status}\",\"job_update_seq\":{seq}}}"
        ));
        if let Some(code) = exit {
            fact["exit_code"] = code.into();
        }
        run(&mut root, append_event("ordered", revision, &fact)).unwrap();
    }
    let saved = run(&mut root, read_request("ordered")).unwrap();
    assert_eq!(saved["jobs"][0]["status"], "failed");
    assert_eq!(saved["jobs"][0]["exit_code"], 7);
    assert_eq!(saved["jobs"][0]["job_update_seq"], 3);
    assert_eq!(saved["checkpoint"]["events"].as_array().unwrap().len(), 3);
}

#[test]
fn archive_byte_rollover_and_history_paths_fail_closed() {
    let mut root = root();
    run(&mut root, create_request("bytes", "Bytes")).unwrap();
    for i in 0..80 {
        let mut request = append_request("bytes", i + 1, &format!("e{i}"), "completed");
        request["event"]["summary"] = "x".repeat(4000).into();
        run(&mut root, request).unwrap();
    }
    let read = run(&mut root, read_request("bytes")).unwrap();
    assert!(read["history"]["archived_events"].as_u64().unwrap() > 0);
    assert_eq!(read["event_count"], 80);
    let name = inside(&read["history"]["files"][0]);
    root.handoff.remove(&name);
    let missing = run(&mut root, read_request("bytes")).unwrap_err();
    assert_eq!(code(&missing), "archive_missing");
    refuse_file(&mut root, &name, file_missing(OsError::Loop, false).unwrap_err());
    let linked = run(&mut root, read_request("bytes")).unwrap_err();
    assert_eq!(code(&linked), "unsafe_path");
}

#[test]
fn archived_bytes_count_towards_project_budget() {
    let mut root = root();
    run(&mut root, create_request("budget", "Budget")).unwrap();
    let owner = identity("/work/project", 7, 11);
    let index = load_index(&root.handoff, &owner).unwrap().unwrap();
    let mut task = load_task(&root.handoff, &owner, "budget", &root.policy).unwrap();
    // A planned segment is counted even before it exists on disk.
    for i in 0..9 {
        let hash = format!("{i:064x}");
        task.archives.push(EventArchive {
            file: format!("budget.events-{hash}.json"),
            sha256: hash,
            event_count: 1,
            bytes: MAX_TASK_BYTES as u64,
        });
        task.events.push(from_value(event(&format!("e{i}"), "completed")));
    }
    let bytes = serialize_task(&task).unwrap();
    let target = Target { task_id: "budget", bytes: &bytes, distinct: true, markdown: None };
    let failure = check_total_capacity(&root.handoff, &index, &target).unwrap_err();
    assert_eq!(failure.code, "capacity_exceeded");
}

#[test]
fn acknowledged_alias_rejects_changed_facts_after_reload_and_archive() {
    for reverse in [false, true] {
        let mut root = root();
        run(&mut root, create_request("aliases", "Aliases")).unwrap();
        let runner = parsed(
            "{\"event_id\":\"runner\",\"source\":\"runner\",\"type\":\"job_terminal\",\"job_id\":\"j\",\"job_update_seq\":3,\"status\":\"completed\",\"exit_code\":0}",
        );
        let mut server = runner.clone();
        server["event_id"] = "server".into();
        server["source"] = "webcodex".into();
        server["observed_at"] = 42.into();
        let (first, alias) = if reverse { (&server, &runner) } else { (&runner, &server) };
        run(&mut root, append_event("aliases", 1, first)).unwrap();
        let request = append_event("aliases", 1, alias);
        let saved = run(&mut root, request.clone()).unwrap();
        assert_eq!(saved["status"], "duplicate");
        assert_eq!(saved["revision"], 2);
        assert_eq!(run(&mut root, request.clone()).unwrap()["status"], "duplicate");
        // The original fact moves into an archive; its alias survives.
        for i in 0..128 {
            run(
                &mut root,
                append_request("aliases", i + 2, &format!("other-{i}"), "completed"),
            )
            .unwrap();
        }
        let read = run(&mut root, read_request("aliases")).unwrap();
        assert_eq!(read["event_count"], 129);
        assert_eq!(read["history"]["archived_events"], 128);
        assert_eq!(run(&mut root, request.clone()).unwrap()["status"], "duplicate");
        let mut changed = request;
        changed["expected_revision"] = 130.into();
        changed["event"]["status"] = "failed".into();
        changed["event"]["exit_code"] = 7.into();
        assert_eq!(code(&run(&mut root, changed.clone()).unwrap_err()), "event_id_conflict");
        // New evidence under a new id is still accepted.
        changed["event"]["event_id"] = "new-evidence".into();
        assert_eq!(run(&mut root, changed).unwrap()["status"], "saved");
    }
}

#[test]
fn alias_capacity_failure_does_not_acknowledge_or_change_task() {
    let mut root = root();
    run(&mut root, create_request("full", "Full")).unwrap();
    let fact = parsed(
        "{\"event_id\":\"runner\",\"source\":\"runner\",\"type\":\"job_terminal\",\"job_id\":\"j\",\"job_update_seq\":3,\"status\":\"completed\",\"exit_code\":0}",
    );
    run(&mut root, append_event("full", 1, &fact)).unwrap();
    let owner = identity("/work/project", 7, 11);
    let mut task = load_task(&root.handoff, &owner, "full", &root.policy).unwrap();
    // The largest number of aliases that fits, by halving.
    let (mut fits, mut overflows) = (0, 4000);
    while overflows - fits > 1 {
        let count = (fits + overflows) / 2;
        task.event_aliases = (0..count).map(|i| (format!("x{i:0127}"), "a".repeat(64))).collect();
        if serialize_task(&task).is_err() {
            overflows = count;
        } else {
            fits = count;
        }
    }
    task.event_aliases = (0..fits).map(|i| (format!("x{i:0127}"), "a".repeat(64))).collect();
    let bytes = serialize_task(&task).unwrap();
    root.handoff
        .atomic_write_checked(&Write::plain("full.json".to_string(), bytes, true, false))
        .unwrap();
    let before = file(&root, "full.json").unwrap();
    let mut alias = fact;
    alias["event_id"] = "z".repeat(128).into();
    alias["source"] = "webcodex".into();
    let error = run(&mut root, append_event("full", 2, &alias)).unwrap_err();
    assert_eq!(code(&error), "capacity_exceeded");
    assert_eq!(before, file(&root, "full.json").unwrap());
}

#[test]
fn status_reports_capacity_usage_without_mutating_history() {
    let mut root = root();
    run(&mut root, create_request("usage", "Usage")).unwrap();
    let before = file(&root, "usage.json").unwrap();
    let status = run(&mut root, status_request()).unwrap();
    assert_eq!(status["usage"]["tasks"], 1);
    assert!(status["usage"]["bytes"].as_u64().unwrap() > before.len() as u64);
    assert_eq!(status["usage"]["near_limit"], false);
    assert_eq!(file(&root, "usage.json").unwrap(), before);
}

#[test]
fn status_warns_before_task_limit_without_removing_tasks() {
    let mut root = root();
    for i in 0..52 {
        run(&mut root, create_request(&format!("task-{i}"), "Capacity fixture")).unwrap();
    }
    let status = run(&mut root, status_request()).unwrap();
    assert_eq!(status["usage"]["tasks"], 52);
    assert_eq!(status["usage"]["near_limit"], true);
    assert_eq!(status["tasks"].as_array().unwrap().len(), 52);
}

#[test]
fn archive_preserves_history_frees_slot_and_rejects_old_session() {
    let mut root = root();
    let mut create = create_request("done", "Done");
    create["client_id"] = "local:old".into();
    run(&mut root, create).unwrap();
    run(
        &mut root,
        parsed("{\"action\":\"append\",\"task_id\":\"done\",\"expected_revision\":1,\"event\":{\"event_id\":\"finish\",\"type\":\"task_completed\",\"source\":\"local_codex\",\"status\":\"completed\"}}"),
    )
    .unwrap();
    let original = file(&root, "done.json").unwrap();
    let markdown = file(&root, "done.md").unwrap();
    for i in 1..MAX_TASK_COUNT {
        run(&mut root, create_request(&format!("task-{i}"), "Active")).unwrap();
    }
    assert!(run(&mut root, create_request("overflow", "Full")).is_err());
    let request = parsed("{\"action\":\"archive\",\"task_id\":\"done\",\"expected_revision\":2}");
    assert_eq!(run(&mut root, request.clone()).unwrap()["duplicate"], false);
    assert_eq!(run(&mut root, request).unwrap()["duplicate"], true);
    assert_eq!(file(&root, "done.json").unwrap(), original);
    assert_eq!(file(&root, "done.md").unwrap(), markdown);
    let read = run(&mut root, read_request("done")).unwrap();
    assert_eq!(read["archived"], true);
    assert_eq!(read["event_count"], 1);
    let status = run(
        &mut root,
        parsed("{\"action\":\"status\",\"client_id\":\"local:old\"}"),
    )
    .unwrap();
    assert_eq!(status["usage"]["tasks"], MAX_TASK_COUNT - 1);
    assert_eq!(status["bound_task_id"], Value::Null);
    run(&mut root, create_request("new", "New")).unwrap();
    assert_eq!(
        code(
            &run(
                &mut root,
                parsed("{\"action\":\"bind\",\"task_id\":\"new\",\"client_id\":\"local:old\"}")
            )
            .unwrap_err()
        ),
        "task_archived"
    );
    assert!(run(&mut root, create_request("done", "Reuse")).is_err());
    assert!(run(&mut root, append_request("done", 2, "late", "completed")).is_err());
}

#[test]
fn archive_rejects_unknown_active_and_server_uncoordinated_tasks() {
    let mut root = root();
    run(&mut root, create_request("task", "Task")).unwrap();
    let mut archive = parsed("{\"action\":\"archive\",\"task_id\":\"task\",\"expected_revision\":1}");
    assert_eq!(code(&run(&mut root, archive.clone()).unwrap_err()), "task_unresolved");
    run(
        &mut root,
        parsed("{\"action\":\"append\",\"task_id\":\"task\",\"expected_revision\":1,\"event\":{\"event_id\":\"finish\",\"type\":\"task_completed\",\"source\":\"gpt\",\"status\":\"completed\"}}"),
    )
    .unwrap();
    archive["expected_revision"] = 2.into();
    run(
        &mut root,
        parsed("{\"action\":\"bind\",\"task_id\":\"task\",\"client_id\":\"webcodex:old\"}"),
    )
    .unwrap();
    assert_eq!(
        code(&run(&mut root, archive.clone()).unwrap_err()),
        "server_retirement_required"
    );
    run_from_runner(&mut root, archive).unwrap();
    run(&mut root, create_request("unknown", "Unknown")).unwrap();
    run(&mut root, append_request("unknown", 1, "uncertain", "unknown")).unwrap();
    assert!(run_from_runner(
        &mut root,
        parsed("{\"action\":\"archive\",\"task_id\":\"unknown\",\"expected_revision\":2}")
    )
    .is_err());
}

#[test]
fn legacy_device_repair_preserves_bytes_and_refuses_stale_or_remote_requests() {
    let uuid = "0123456789abcdef0123456789abcdef";
    let mut root = root();
    root.project.host = Host { volume: Ok(uuid.to_string()), anchors: true };
    run(&mut root, create_request("legacy", "旧任务")).unwrap();
    root.handoff.remove(".volume-anchor.json");
    let old = identity("/work/project", 8, 11);
    for name in ["index.json", "legacy.json"] {
        let mut value = parsed(&text(&root, name));
        value["project_identity"]["device"] = 8.into();
        value["project_identity"]["root_fingerprint"] = old.root_fingerprint.clone().into();
        write(&mut root, name, &serde_json::to_vec(&value).unwrap());
    }
    let names = ["index.json", "legacy.json", "legacy.md"];
    let before: Vec<_> = names.iter().map(|name| file(&root, name).unwrap()).collect();
    assert_eq!(
        run(&mut root, read_request("legacy")).unwrap_err()["code"],
        "project_identity_mismatch"
    );
    let req = parsed(&format!(
        "{{\"action\":\"anchor_identity\",\"expected_index_sha256\":\"{}\",\"confirm\":true}}",
        fingerprint(&before[0])
    ));
    assert_eq!(run_from_runner(&mut root, req.clone()).unwrap_err()["code"], "invalid_action");
    let mut stale = req.clone();
    stale["expected_index_sha256"] = "bad".into();
    assert_eq!(run(&mut root, stale).unwrap_err()["code"], "revision_conflict");
    let mut preview = req.clone();
    preview["confirm"] = false.into();
    assert_eq!(run(&mut root, preview).unwrap()["status"], "reviewed");
    assert!(file(&root, ".volume-anchor.json").is_none());
    assert_eq!(run(&mut root, req).unwrap()["status"], "anchored");
    assert_eq!(run(&mut root, read_request("legacy")).unwrap()["status"], "ready");
    let after: Vec<_> = names.iter().map(|name| file(&root, name).unwrap()).collect();
    assert_eq!(before, after);
    // A copied anchor does not grant continuity to another directory.
    let mut other = root_at("/work/other", 12);
    other.project.host = Host { volume: Ok(uuid.to_string()), anchors: true };
    let anchor = file(&root, ".volume-anchor.json").unwrap();
    write(&mut other, ".volume-anchor.json", &anchor);
    assert_eq!(
        run(&mut other, status_request()).unwrap_err()["code"],
        "project_identity_mismatch"
    );
    // Even the same path and inode are rejected on another volume.
    let mut value = parsed(&text(&root, ".volume-anchor.json"));
    value["volume_uuid"] = "00000000000000000000000000000000".into();
    write(&mut root, ".volume-anchor.json", &serde_json::to_vec(&value).unwrap());
    assert_eq!(
        run(&mut root, status_request()).unwrap_err()["code"],
        "project_identity_mismatch"
    );
}

#[test]
fn saved_event_is_read_back_as_it_was_normalized() {
    let mut root = root();
    run(&mut root, create_request("task-1", "  Example task  ")).unwrap();
    run(
        &mut root,
        parsed("{\"action\":\"append\",\"task_id\":\"task-1\",\"expected_revision\":1,\"event\":{\"event_id\":\"e1\",\"type\":\"note_added\",\"summary\":\"  done  \",\"paths\":[\"src//a.rs\",\"./src\\\\b.rs\"]}}"),
    )
    .unwrap();
    let read = run(&mut root, read_request("task-1")).unwrap();
    assert_eq!(read["checkpoint"]["title"], "Example task");
    assert_eq!(
        read["checkpoint"]["events"][0],
        parsed("{\"event_id\":\"e1\",\"type\":\"note_added\",\"summary\":\"done\",\"paths\":[\"src/a.rs\",\"src/b.rs\"]}")
    );
}

#[test]
fn other_tasks_are_left_alone() {
    let mut root = root();
    run(&mut root, create_request("one", "One")).unwrap();
    run(&mut root, create_request("two", "Two")).unwrap();
    let before = file(&root, "two.json").unwrap();
    run(&mut root, append_request("one", 1, "e1", "completed")).unwrap();
    assert_eq!(file(&root, "two.json").unwrap(), before);
    assert_eq!(run(&mut root, read_request("two")).unwrap()["event_count"], 0);
}

#[test]
fn refused_create_leaves_no_file() {
    let mut root = root();
    run(&mut root, create_request("one", "One")).unwrap();
    let before: Vec<String> = root.handoff.files.iter().map(|(name, _)| name.clone()).collect();
    let refused = run(&mut root, create_request("one", "Again")).unwrap_err();
    assert_eq!(code(&refused), "task_exists");
    assert_eq!(refused["state_changed"], false);
    let after: Vec<String> = root.handoff.files.iter().map(|(name, _)| name.clone()).collect();
    assert_eq!(before, after);
}

#[test]
fn disabled_checkpoint_refuses_events_and_keeps_its_files() {
    let mut root = root();
    run(&mut root, create_request("one", "One")).unwrap();
    let task = file(&root, "one.json").unwrap();
    let disabled = run(&mut root, parsed("{\"action\":\"disable\"}")).unwrap();
    assert_eq!(disabled["enabled"], false);
    assert_eq!(run(&mut root, status_request()).unwrap()["enabled"], false);
    let refused = run(&mut root, append_request("one", 1, "e1", "completed")).unwrap_err();
    assert_eq!(code(&refused), "handoff_disabled");
    assert_eq!(file(&root, "one.json").unwrap(), task);
}

#[test]
fn named_paths_are_refused() {
    let mut root = root();
    root.policy.sensitive.push("secret/key".to_string());
    run(&mut root, create_request("one", "One")).unwrap();
    let refused = run(
        &mut root,
        parsed("{\"action\":\"append\",\"task_id\":\"one\",\"expected_revision\":1,\"event\":{\"event_id\":\"e1\",\"type\":\"note_added\",\"path\":\"secret\\\\key\"}}"),
    )
    .unwrap_err();
    assert_eq!(code(&refused), "invalid_event_path");
    for path in ["/etc/passwd", "../up", "handoff/index.json", "c:/x", "."] {
        let refused = run(
            &mut root,
            parsed(&format!("{{\"action\":\"append\",\"task_id\":\"one\",\"expected_revision\":1,\"event\":{{\"event_id\":\"e1\",\"type\":\"note_added\",\"path\":\"{path}\"}}}}")),
        )
        .unwrap_err();
        assert_eq!(code(&refused), "invalid_event_path");
    }
}

#[test]
fn malformed_requests_are_named() {
    let mut root = root();
    for (request, expected) in [
        ("[]", "invalid_request"),
        ("{}", "invalid_request"),
        ("{\"action\":\"erase\"}", "invalid_action"),
        ("{\"action\":\"status\",\"other\":1}", "invalid_request"),
        ("{\"action\":\"read\"}", "invalid_request"),
        ("{\"action\":\"read\",\"task_id\":\"Upper\"}", "invalid_task_id"),
        ("{\"action\":\"create\",\"task_id\":\"a\"}", "invalid_request"),
        ("{\"action\":\"status\",\"client_id\":\"has space\"}", "invalid_binding"),
        ("{\"action\":\"disable\",\"expected_revision\":-1}", "invalid_revision"),
        (
            "{\"action\":\"bind\",\"task_id\":\"a\",\"binding\":{\"task_id\":\"b\",\"client_id\":\"c\"}}",
            "invalid_binding",
        ),
        (
            "{\"action\":\"append\",\"task_id\":\"a\",\"expected_revision\":1,\"event\":{\"type\":\"note_added\"}}",
            "invalid_event",
        ),
        (
            "{\"action\":\"append\",\"task_id\":\"a\",\"expected_revision\":1,\"event\":{\"event_id\":\"e e\",\"type\":\"note_added\"}}",
            "invalid_event_id",
        ),
    ] {
        let refused = run(&mut root, parsed(request)).unwrap_err();
        assert_eq!(code(&refused), expected, "{request}");
    }
    let long = format!("{{\"action\":\"create\",\"task_id\":\"a\",\"title\":\"{}\"}}", "x".repeat(131072));
    assert_eq!(code(&run(&mut root, parsed(&long)).unwrap_err()), "request_too_large");
}

#[test]
fn index_and_task_files_are_checked_when_read() {
    let mut root = root();
    run(&mut root, create_request("one", "One")).unwrap();
    let index = text(&root, "index.json");
    let task = text(&root, "one.json");
    write(&mut root, "index.json", b"{");
    assert_eq!(code(&run(&mut root, status_request()).unwrap_err()), "malformed_index");
    write(&mut root, "index.json", index.replace("\"webcodex\"", "\"other\"").as_bytes());
    assert_eq!(code(&run(&mut root, status_request()).unwrap_err()), "non_managed_file");
    write(&mut root, "index.json", index.as_bytes());
    root.handoff.remove("one.json");
    assert_eq!(code(&run(&mut root, read_request("one")).unwrap_err()), "task_missing");
    write(&mut root, "one.json", b"{}");
    assert_eq!(code(&run(&mut root, read_request("one")).unwrap_err()), "malformed_task");
    write(&mut root, "one.json", task.as_bytes());
    assert_eq!(run(&mut root, read_request("one")).unwrap()["status"], "ready");
}

#[test]
fn repeated_members_make_a_file_unreadable() {
    let mut root = root();
    run(&mut root, create_request("one", "One")).unwrap();
    let bytes = file(&root, "index.json").unwrap();
    root.handoff.remove("index.json");
    let entry = Entry::File { bytes, distinct: false };
    root.handoff.files.push(("index.json".to_string(), entry));
    assert_eq!(code(&run(&mut root, status_request()).unwrap_err()), "malformed_index");
}

#[test]
fn request_values_keep_their_text() {
    let json: Json = from_bytes("{\"title\":\"é\\u0000\"}".as_bytes()).unwrap();
    assert_eq!(json.text_at("title").unwrap(), "é\u{0}");
}

#[test]
fn remounted_volume_keeps_its_tasks() {
    let uuid = "0123456789abcdef0123456789abcdef";
    let mut root = root();
    root.project.host = Host { volume: Ok(uuid.to_string()), anchors: true };
    run(&mut root, create_request("task-1", "Example task")).unwrap();
    root.project.root = Ok(identity("/work/project", 99, 11));
    assert_eq!(run(&mut root, read_request("task-1")).unwrap()["status"], "ready");
    run(&mut root, append_request("task-1", 1, "event-1", "completed")).unwrap();
    let read = run(&mut root, read_request("task-1")).unwrap();
    assert_eq!(read["checkpoint"]["project_identity"]["device"], 7);
    root.project.host = no_anchor();
    assert_eq!(
        code(&run(&mut root, read_request("task-1")).unwrap_err()),
        "unsupported_platform"
    );
}

#[test]
fn markdown_that_is_not_text_is_a_conflict() {
    let mut root = root();
    write(&mut root, "task-1.md", &[0xff, 0xfe]);
    let error = run(&mut root, create_request("task-1", "Example task")).unwrap_err();
    assert_eq!(code(&error), "markdown_conflict");
    assert_eq!(file(&root, "task-1.md").unwrap(), [0xff, 0xfe]);
    assert!(file(&root, "task-1.json").is_none());
}

#[test]
fn counted_bytes_are_those_of_the_files() {
    let mut root = root();
    run(&mut root, create_request("one", "One")).unwrap();
    run(&mut root, append_request("one", 1, "event-1", "completed")).unwrap();
    write(&mut root, "two.md", b"unmanaged notes");
    run(&mut root, create_request("two", "Two")).unwrap();
    let status = run(&mut root, status_request()).unwrap();
    let mut expected = 0;
    for name in ["index.json", "one.json", "one.md", "two.json"] {
        expected += file(&root, name).unwrap().len() as u64;
    }
    assert_eq!(status["usage"]["bytes"], expected);
}
