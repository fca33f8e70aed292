use project_handoff::anchor::Host;
use project_handoff::checkpoint::Project;
use project_handoff::cli::{run, Options, MAX_INPUT};
use project_handoff::codec::to_value;
use project_handoff::digest::root_fingerprint;
use project_handoff::directory::Directory;
use project_handoff::failure::refuse;
use project_handoff::path::PathPolicy;
use project_handoff::records::ProjectIdentity;
use serde_json::Value;
use std::path::Path;

fn parse(args: &[String]) -> Result<Options, String> {
    let absolute = args.get(1).is_some_and(|project| Path::new(project).is_absolute());
    project_handoff::cli::parse(args, absolute)
}

fn project() -> Project {
    Project {
        root: Ok(ProjectIdentity {
            canonical_root: "/tmp/fixture".to_string(),
            device: 1,
            inode: 2,
            root_fingerprint: root_fingerprint("/tmp/fixture", 1, 2),
        }),
        host: Host {
            volume: Err(refuse("unsupported_platform", "volume anchoring is supported on macOS only")),
            anchors: false,
        },
    }
}

fn answer(handoff: &mut Directory, input: &[u8]) -> (i32, Value) {
    let policy = PathPolicy { sensitive: Vec::new() };
    let (code, output) = run(handoff, &project(), &input.to_vec(), &policy, 100);
    (code, to_value(&output).unwrap())
}

#[test]
fn handoff_requires_explicit_absolute_project_and_stdin() {
    assert!(parse(&[
        "--project".into(),
        "relative".into(),
        "--request-stdin".into()
    ])
    .is_err());
    assert!(parse(&[
        "--project".into(),
        "/tmp/fixture".into(),
        "--request-stdin".into()
    ])
    .is_ok());
    assert!(parse(&[
        "--project".into(),
        "/tmp/fixture".into(),
        "--request-stdin".into(),
        "ignored".into()
    ])
    .is_err());
}

#[test]
fn handoff_rejects_malformed_or_oversized_input_before_any_write() {
    let mut handoff = Directory { present: false, files: Vec::new() };
    let (code, value) = answer(&mut handoff, &b"not JSON"[..]);
    assert_eq!(code, 1);
    assert_eq!(value["error"]["code"], "invalid_json");
    let oversized = vec![b' '; MAX_INPUT as usize + 1];
    assert_eq!(answer(&mut handoff, oversized.as_slice()).1["error"]["code"], "input_too_large");
    assert!(!handoff.present);
    assert_eq!(handoff.files.len(), 0);
}

#[test]
fn messages_say_what_is_wrong() {
    assert_eq!(
        parse(&["--project".into()]).unwrap_err(),
        "Usage: webcodex handoff --project <absolute-directory> --request-stdin"
    );
    assert_eq!(
        parse(&["--project".into(), "a".into(), "--request-stdin".into()]).unwrap_err(),
        "handoff requires an explicit absolute project directory"
    );
    assert_eq!(
        parse(&["--project".into(), "/a".into(), "--request-stdin".into()]).unwrap().project,
        "/a"
    );
}

#[test]
fn answers_carry_the_exit_code() {
    let mut handoff = Directory { present: false, files: Vec::new() };
    let (code, value) = answer(&mut handoff, b"{\"action\":\"create\",\"task_id\":\"a\",\"title\":\"A\"}");
    assert_eq!(code, 0);
    assert_eq!(value["success"], true);
    assert_eq!(value["output"]["revision"], 1);
    let (code, value) = answer(&mut handoff, b"{\"action\":\"create\",\"task_id\":\"a\",\"title\":\"A\"}");
    assert_eq!(code, 1);
    assert_eq!(value["success"], false);
    assert_eq!(value["error"]["code"], "task_exists");
}
