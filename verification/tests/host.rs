use project_handoff::anchor::{volume, Host};
use project_handoff::checkpoint::{plan_request, requested, Access, Asked};
use project_handoff::codec::{from_value, to_value};
use project_handoff::commit::{confirm_write, TargetMetadata};
use project_handoff::digest::root_fingerprint;
use project_handoff::directory::Directory;
use project_handoff::failure::{refuse, Failure};
use project_handoff::host::{
    after_lock_attempt, check_opened, check_platform, failed_write, file_missing, handoff_dir_exists,
    handoff_dir_missing, lock_created_elsewhere, now_unix, open_project_root, root_open_failure,
    target_metadata, target_missing, LockStep, OsError, RootProbe,
};
use project_handoff::path::PathPolicy;
use project_handoff::reading::{concerned, needed};
use project_handoff::records::ProjectIdentity;
use serde_json::Value;

fn probe() -> RootProbe {
    RootProbe {
        canonical: Some(Some("/work/project".to_string())),
        found: Some((true, 7, 11)),
        opened: Ok((7, 11)),
    }
}

fn code<T>(result: Result<T, Failure>) -> &'static str {
    match result {
        Ok(_) => "ok",
        Err(failure) => failure.code,
    }
}

#[test]
fn project_root_has_the_identity_of_its_directory() {
    let identity = open_project_root(true, &probe()).unwrap();
    assert_eq!(identity.canonical_root, "/work/project");
    assert_eq!((identity.device, identity.inode), (7, 11));
    assert_eq!(identity.root_fingerprint, root_fingerprint("/work/project", 7, 11));
    assert_eq!(identity.root_fingerprint.len(), 64);
}

#[test]
fn unusable_project_roots_are_named() {
    assert_eq!(code(open_project_root(false, &probe())), "invalid_root");
    let missing = RootProbe { canonical: None, ..probe() };
    assert_eq!(code(open_project_root(true, &missing)), "project_root_unavailable");
    let unseen = RootProbe { found: None, ..probe() };
    assert_eq!(code(open_project_root(true, &unseen)), "project_root_unavailable");
    let file = RootProbe { found: Some((false, 7, 11)), ..probe() };
    assert_eq!(code(open_project_root(true, &file)), "invalid_root");
    let linked = RootProbe { opened: Err(root_open_failure(OsError::Loop)), ..probe() };
    assert_eq!(code(open_project_root(true, &linked)), "unsafe_path");
    let closed = RootProbe { opened: Err(root_open_failure(OsError::Other)), ..probe() };
    assert_eq!(code(open_project_root(true, &closed)), "project_root_unavailable");
    let moved = RootProbe { opened: Ok((7, 12)), ..probe() };
    assert_eq!(code(open_project_root(true, &moved)), "project_root_changed");
    let unreadable = RootProbe { canonical: Some(None), ..probe() };
    assert_eq!(
        open_project_root(true, &unreadable).unwrap_err().message,
        "project root path is not valid UTF-8"
    );
}

#[test]
fn system_errors_are_told_apart() {
    assert_eq!(code(handoff_dir_missing(OsError::NotFound)), "ok");
    assert_eq!(code(handoff_dir_missing(OsError::Loop)), "unsafe_path");
    assert_eq!(code(handoff_dir_missing(OsError::NotDirectory)), "io_error");
    assert_eq!(code(handoff_dir_exists(OsError::AlreadyExists)), "ok");
    assert_eq!(code(handoff_dir_exists(OsError::Loop)), "unsafe_path");
    assert_eq!(code(handoff_dir_exists(OsError::NotFound)), "io_error");
    assert_eq!(code(file_missing(OsError::NotFound, false)), "ok");
    assert_eq!(code(file_missing(OsError::NotFound, true)), "io_error");
    assert_eq!(code(file_missing(OsError::AlreadyExists, true)), "target_exists");
    assert_eq!(code(file_missing(OsError::Loop, true)), "unsafe_path");
    assert_eq!(code(target_missing(OsError::NotFound)), "ok");
    assert_eq!(code(target_missing(OsError::NotDirectory)), "unsafe_path");
    assert_eq!(code(target_missing(OsError::Other)), "io_error");
}

#[test]
fn only_single_link_regular_files_are_used() {
    assert_eq!(code(check_opened(true, 1)), "ok");
    assert_eq!(code(check_opened(true, 2)), "unsafe_path");
    assert_eq!(code(check_opened(false, 1)), "unsafe_path");
    let found = TargetMetadata { device: 7, inode: 20, nlink: 1, size: 3 };
    assert_eq!(target_metadata(true, found).unwrap(), found);
    assert_eq!(code(target_metadata(false, found)), "unsafe_path");
    assert_eq!(code(target_metadata(true, TargetMetadata { nlink: 2, ..found })), "unsafe_path");
}

#[test]
fn lock_is_waited_for_until_it_expires() {
    assert!(matches!(after_lock_attempt(Ok(()), true), LockStep::Held));
    assert!(matches!(after_lock_attempt(Err(OsError::WouldBlock), false), LockStep::Wait));
    match after_lock_attempt(Err(OsError::WouldBlock), true) {
        LockStep::Refused(failure) => assert_eq!(failure.code, "lock_timeout"),
        other => panic!("{other:?}"),
    }
    match after_lock_attempt(Err(OsError::Other), false) {
        LockStep::Refused(failure) => assert_eq!(failure.code, "lock_unavailable"),
        other => panic!("{other:?}"),
    }
    assert!(lock_created_elsewhere(&file_missing(OsError::AlreadyExists, true).unwrap_err()));
    assert!(!lock_created_elsewhere(&file_missing(OsError::Other, true).unwrap_err()));
}

#[test]
fn replaced_target_must_still_be_the_same_file() {
    let file = TargetMetadata { device: 7, inode: 20, nlink: 1, size: 3 };
    let other = TargetMetadata { inode: 21, ..file };
    assert_eq!(code(confirm_write(None, None, true, false)), "ok");
    assert_eq!(code(confirm_write(Some(file), Some(file), true, true)), "ok");
    assert_eq!(code(confirm_write(Some(file), Some(other), true, true)), "unsafe_path");
    assert_eq!(code(confirm_write(Some(file), None, true, true)), "unsafe_path");
    assert_eq!(code(confirm_write(None, Some(file), true, false)), "non_managed_file");
    assert_eq!(code(confirm_write(None, Some(file), true, true)), "unsafe_path");
    assert_eq!(
        code(confirm_write(Some(file), Some(file), false, true)),
        "concurrent_modification"
    );
    let failure = refuse("io_error", "handoff temporary file cannot be written");
    assert!(!failed_write(failure, false).state_changed);
    assert!(failed_write(failure, true).state_changed);
}

#[test]
fn time_is_bounded() {
    assert_eq!(now_unix(None), 0);
    assert_eq!(now_unix(Some(1_700_000_000)), 1_700_000_000);
    assert_eq!(now_unix(Some(u64::MAX)), i64::MAX);
}

#[test]
fn volume_identity_is_sixteen_bytes_in_hexadecimal() {
    let mut uuid = vec![0u8; 16];
    assert_eq!(code(volume(20, &uuid)), "volume_identity_unavailable");
    uuid[0] = 0xab;
    uuid[15] = 0x01;
    assert_eq!(volume(20, &uuid).unwrap(), "ab000000000000000000000000000001");
    assert_eq!(code(volume(4, &uuid)), "volume_identity_unavailable");
}

fn parsed(text: &str) -> Value {
    serde_json::from_str(text).unwrap()
}

#[test]
fn request_decides_how_the_directory_is_held() {
    let policy = PathPolicy { sensitive: Vec::new() };
    let access = |text: &str| {
        requested(&from_value(parsed(text)), &policy, false).map(|asked| asked.access())
    };
    assert_eq!(access(r#"{"action":"status"}"#).unwrap(), Access::Shared);
    assert_eq!(access(r#"{"action":"read","task_id":"one"}"#).unwrap(), Access::Shared);
    assert_eq!(
        access(r#"{"action":"create","task_id":"one","title":"One"}"#)
            .unwrap(),
        Access::Created
    );
    assert_eq!(
        access(r#"{"action":"disable"}"#).unwrap(),
        Access::Exclusive
    );
    assert_eq!(code(access(r#"{"action":"anchor_identity"}"#)), "invalid_request");
    let repair = from_value(parsed(
        r#"{"action":"anchor_identity","expected_index_sha256":"x","confirm":true}"#,
    ));
    assert_eq!(code(requested(&repair, &policy, true)), "invalid_action");
    assert!(matches!(requested(&repair, &policy, false), Ok(Asked::Repair)));
}

#[test]
fn plan_lists_the_files_of_a_new_task_in_order() {
    let policy = PathPolicy { sensitive: Vec::new() };
    let identity = ProjectIdentity {
        canonical_root: "/work/project".to_string(),
        device: 7,
        inode: 11,
        root_fingerprint: root_fingerprint("/work/project", 7, 11),
    };
    let uuid = "ab000000000000000000000000000001".to_string();
    let host = Host { volume: Ok(uuid), anchors: true };
    let directory = Directory { present: true, files: Vec::new() };
    let request = from_value(parsed(
        r#"{"action":"create","task_id":"one","title":"One"}"#,
    ));
    let asked = requested(&request, &policy, false).unwrap();
    let plan =
        plan_request(&directory, &identity, &request, &asked, &policy, 100, &host, false);
    let names: Vec<&str> = plan.writes.iter().map(|write| write.name.as_str()).collect();
    assert_eq!(names, ["one.json", "one.md", "index.json", ".volume-anchor.json"]);
    let anchor: Value = serde_json::from_slice(&plan.writes[3].bytes).unwrap();
    assert_eq!(anchor["volume_uuid"], "ab000000000000000000000000000001");
    assert_eq!(anchor["identity"]["inode"], 11);
    let reply = to_value(&plan.reply.unwrap().to_json()).unwrap();
    assert_eq!(reply["task_id"], "one");
}

#[test]
fn other_platforms_are_refused() {
    assert!(check_platform(true).is_ok());
    let failure = check_platform(false).unwrap_err();
    assert_eq!(failure.code, "unsupported_platform");
    assert_eq!(failure.message, "project handoff checkpoints are supported on Unix only");
}

fn concerned_by(request: &str, directory: &Directory) -> Vec<String> {
    let policy = PathPolicy { sensitive: Vec::new() };
    let asked = requested(&from_value(parsed(request)), &policy, false).unwrap();
    concerned(&asked, directory)
}

#[test]
fn request_reads_the_files_of_the_tasks_it_concerns() {
    let summary = |id: &str| {
        format!(
            "{{\"task_id\":\"{id}\",\"title\":\"T\",\"status\":\"active\",\"revision\":1,\"updated_at\":1,\"event_count\":0,\"unknown_count\":0}}"
        )
    };
    let index = format!(
        "{{\"format\":\"webcodex.handoff.index.v1\",\"version\":2,\"managed_by\":\"webcodex\",\"enabled\":true,\"project_identity\":{{\"canonical_root\":\"/p\",\"device\":1,\"inode\":2,\"root_fingerprint\":\"f\"}},\"revision\":1,\"updated_at\":1,\"tasks\":[{}],\"retired_tasks\":[{}],\"bindings\":{{}}}}",
        summary("active"),
        summary("retired")
    );
    let mut directory = Directory { present: true, files: Vec::new() };
    directory.insert("index.json".to_string(), index.into_bytes());
    let read = r#"{"action":"read","task_id":"own"}"#;
    assert_eq!(concerned_by(read, &directory), ["own"]);
    assert_eq!(concerned_by(r#"{"action":"status"}"#, &directory), ["active"]);
    let archive = r#"{"action":"archive","task_id":"own","expected_revision":1}"#;
    assert_eq!(concerned_by(archive, &directory), ["own", "retired"]);
    let create = r#"{"action":"create","task_id":"own","title":"Own"}"#;
    assert_eq!(concerned_by(create, &directory), ["own", "active"]);
    let repair = r#"{"action":"anchor_identity","expected_index_sha256":"x","confirm":true}"#;
    assert_eq!(concerned_by(repair, &directory), ["active", "retired"]);
    let ids = vec!["own".to_string()];
    for name in ["index.json", ".volume-anchor.json", "own.json", "own.md", "own.events-0.json"] {
        assert!(needed(name, &ids), "{name}");
    }
    for name in [".lock", "owner.json", "other.md", "own", "active.json"] {
        assert!(!needed(name, &ids), "{name}");
    }
}

#[test]
fn files_of_other_tasks_do_not_change_a_plan() {
    let policy = PathPolicy { sensitive: Vec::new() };
    let identity = ProjectIdentity {
        canonical_root: "/work/project".to_string(),
        device: 7,
        inode: 11,
        root_fingerprint: root_fingerprint("/work/project", 7, 11),
    };
    let host = Host {
        volume: Err(refuse("unsupported_platform", "volume anchoring is supported on macOS only")),
        anchors: false,
    };
    let request = from_value(parsed(r#"{"action":"create","task_id":"one","title":"One"}"#));
    let asked = requested(&request, &policy, false).unwrap();
    let bare = Directory { present: true, files: Vec::new() };
    let mut crowded = Directory { present: true, files: Vec::new() };
    crowded.insert("stray.json".to_string(), b"not a task".to_vec());
    crowded.insert("notes.txt".to_string(), b"notes".to_vec());
    let plans: Vec<Vec<(String, Vec<u8>)>> = [bare, crowded]
        .iter()
        .map(|directory| {
            let plan = plan_request(
                directory, &identity, &request, &asked, &policy, 100, &host, false,
            );
            assert!(plan.reply.is_ok());
            plan.writes.into_iter().map(|write| (write.name, write.bytes)).collect()
        })
        .collect();
    assert_eq!(plans[0], plans[1]);
}
