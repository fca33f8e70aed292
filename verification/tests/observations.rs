use project_handoff::codec::to_value;
use project_handoff::observations::{
    answer_listed, answer_recorded, check_observation, external_observation_tool_name,
    ExternalObservation, ObservationError,
};
use project_handoff::tool::ToolResult;
use serde_json::Value;

fn observation(exit_code: Option<i64>) -> ExternalObservation {
    ExternalObservation {
        adapter_id: "a".repeat(64),
        event_id: "b".repeat(64),
        observed_tool: "Bash".to_string(),
        exit_code,
    }
}

fn output(result: &ToolResult) -> Value {
    to_value(&result.output).unwrap()
}

#[test]
fn external_observations_runtime_scope_replay_unknown_and_readback() {
    let result = answer_recorded("session", "project", &Ok((observation(None), true)));
    assert!(result.success);
    assert_eq!(output(&result)["observation"]["status"], "unknown");
    assert_eq!(output(&result)["provenance"], "external_report");
    assert_eq!(output(&result)["inserted"], true);
    let replay = answer_recorded("session", "project", &Ok((observation(None), false)));
    assert!(replay.success);
    assert_eq!(output(&replay)["inserted"], false);
    let read = answer_listed("session", "project", &Ok(vec![observation(None)]));
    assert!(read.success);
    assert_eq!(output(&read)["observations"].as_array().unwrap().len(), 1);
    assert_eq!(output(&read)["coverage"]["complete"], false);
    assert_eq!(output(&read)["coverage"]["reason"], "source_sequence_unavailable");

    let denied = answer_recorded("session", "project", &Err(ObservationError::Conflict));
    assert!(!denied.success);
    assert_eq!(output(&denied)["error_kind"], "external_observation_conflict");
    assert_eq!(output(&denied)["failure_kind"], "conflict");
    assert_eq!(output(&denied)["state_changed"], false);
    assert_eq!(output(&denied)["recovery_kind"], "fix_input");

    let uncertain = answer_recorded("session", "project", &Err(ObservationError::Storage));
    assert!(!uncertain.success);
    assert_eq!(output(&uncertain)["error_kind"], "external_observation_storage_uncertain");
    assert_eq!(output(&uncertain)["failure_kind"], "outcome_unknown");
    assert!(output(&uncertain)["state_changed"].is_null());
    assert_eq!(output(&uncertain)["recovery_kind"], "retry_same");
    assert_eq!(output(&uncertain)["retry_same_event_identity"], true);

    assert!(check_observation("other", "other", Some("project"), true, true, true).is_err());
    assert!(check_observation("project", "project", Some("project"), true, false, true).is_err());

    let list_failure = answer_listed("session", "project", &Err(ObservationError::Storage));
    assert!(!list_failure.success);
    assert_eq!(output(&list_failure)["error_kind"], "external_observation_store_unavailable");
    assert_eq!(output(&list_failure)["state_changed"], false);
    assert_eq!(output(&list_failure)["recovery_kind"], "reobserve");
    assert!(output(&list_failure).get("retry_same_event_identity").is_none());
}

#[test]
fn scope_of_an_observation_is_the_sessions_project() {
    assert!(check_observation("p", "p", Some("p"), true, true, true).is_ok());
    assert!(check_observation("p", "p", Some("p"), false, false, true).is_ok());
    for denied in [
        check_observation("p", "q", Some("p"), false, true, true),
        check_observation("p", "p", None, false, true, true),
        check_observation("p", "p", Some("q"), false, true, true),
    ] {
        let denied = denied.unwrap_err();
        assert_eq!(output(&denied)["error_kind"], "session_project_mismatch");
        assert_eq!(output(&denied)["state_changed"], false);
    }
    let closed = check_observation("p", "p", Some("p"), true, false, true).unwrap_err();
    assert_eq!(output(&closed)["error_kind"], "session_closed");
    let missing = check_observation("p", "p", Some("p"), false, true, false).unwrap_err();
    assert_eq!(missing.error.unwrap(), "external_observation_store_unavailable");
}

#[test]
fn reports_say_what_was_reported() {
    for (code, status) in [
        (Some(0), "reported_success"),
        (Some(2), "reported_failure"),
        (None, "unknown"),
    ] {
        let result = answer_recorded("s", "p", &Ok((observation(code), true)));
        assert_eq!(output(&result)["observation"]["status"], status);
    }
    assert_eq!(external_observation_tool_name(true), "record_external_observation");
    assert_eq!(external_observation_tool_name(false), "list_external_observations");
    for (error, kind) in [
        (ObservationError::InvalidInput, "invalid_external_observation"),
        (ObservationError::Capacity, "external_observation_capacity"),
    ] {
        let result = answer_recorded("s", "p", &Err(error));
        assert_eq!(result.error.as_deref(), Some(kind));
        assert_eq!(output(&result)["error_kind"], kind);
    }
}
