//! What a caller is told of a refusal, of a request at the command line and of
//! a report from outside.
use vstd::prelude::*;
use crate::cli::{answered_node, exit_code, failed_node, input_request, options_of};
use crate::codec::{json_reading};
use crate::failure::{Failure, failure_node, stale};
use crate::json::{Node, record};
use crate::observations::{
    ObservationError, ObservationView, code_node, listed_answer, listing_coverage,
    observation_check, observation_code, observation_failure, observation_node, observation_nodes,
    observed_status, recorded_answer, recovery_text, unchanged_error,
};
use crate::record_laws::{key_code, lemma_record_absent, lemma_record_member};
use crate::reply::{ReplyView, reply_node};

verus! {

proof fn lemma_failure_codes()
    ensures
        key_code("code"@) == 18848113765,
        key_code("message"@) == 31900136293,
        key_code("state_changed"@) == 57771581796,
        key_code("expected_revision"@) == 74716835950,
        key_code("actual_revision"@) == 66058417262,
        key_code("success"@) == 32001844083,
        key_code("error"@) == 23176835698,
        key_code("output"@) == 27639772276,
{
    reveal_strlit("code");
    reveal_strlit("message");
    reveal_strlit("state_changed");
    reveal_strlit("expected_revision");
    reveal_strlit("actual_revision");
    reveal_strlit("success");
    reveal_strlit("error");
    reveal_strlit("output");
}

/// The JSON object of a refusal gives its code and its message, says whether
/// something may have changed, and gives both revisions where they differ.
pub proof fn law_refusal_says(f: Failure)
    ensures
        failure_node(f).at("code"@) == Node::Text(f.code@),
        failure_node(f).at("message"@) == Node::Text(f.message@),
        failure_node(f).at("state_changed"@) == Node::Bool(f.state_changed),
        f.conflict matches Some((expected, actual)) ==> failure_node(f).at("expected_revision"@)
            == Node::Unsigned(expected) && failure_node(f).at("actual_revision"@) == Node::Unsigned(
            actual,
        ),
        f.conflict is None ==> failure_node(f).member("expected_revision"@) is None && failure_node(
            f,
        ).member("actual_revision"@) is None,
{
    lemma_failure_codes();
    match f.conflict {
        None => {
            let s = seq![
                ("code"@, Node::Text(f.code@)),
                ("message"@, Node::Text(f.message@)),
                ("state_changed"@, Node::Bool(f.state_changed)),
            ];
            lemma_record_member(s, 0);
            lemma_record_member(s, 1);
            lemma_record_member(s, 2);
            lemma_record_absent(s, "expected_revision"@);
            lemma_record_absent(s, "actual_revision"@);
        },
        Some((expected, actual)) => {
            let s = seq![
                ("code"@, Node::Text(f.code@)),
                ("message"@, Node::Text(f.message@)),
                ("state_changed"@, Node::Bool(f.state_changed)),
                ("expected_revision"@, Node::Unsigned(expected)),
                ("actual_revision"@, Node::Unsigned(actual)),
            ];
            lemma_record_member(s, 0);
            lemma_record_member(s, 1);
            lemma_record_member(s, 2);
            lemma_record_member(s, 3);
            lemma_record_member(s, 4);
        },
    }
}

/// A stale revision is refused as a conflict of exactly the two revisions, with
/// nothing changed.
pub proof fn law_stale_revision_says(expected: u64, actual: u64)
    ensures
        failure_node(stale(expected, actual)).at("code"@) == Node::Text("revision_conflict"@),
        failure_node(stale(expected, actual)).at("expected_revision"@) == Node::Unsigned(expected),
        failure_node(stale(expected, actual)).at("actual_revision"@) == Node::Unsigned(actual),
        failure_node(stale(expected, actual)).at("state_changed"@) == Node::Bool(false),
{
    law_refusal_says(stale(expected, actual));
}

/// The command line prints the answer of a request that succeeded and exits
/// with zero, and otherwise prints the refusal and exits with one.
pub proof fn law_command_line_answers(r: Result<ReplyView, Failure>)
    ensures
        r matches Ok(reply) ==> exit_code(r) == 0 && answered_node(r).at("success"@) == Node::Bool(
            true,
        ) && answered_node(r).at("output"@) == reply_node(reply) && answered_node(r).member(
            "error"@,
        ) is None,
        r matches Err(f) ==> exit_code(r) == 1 && answered_node(r).at("success"@) == Node::Bool(
            false,
        ) && answered_node(r).at("error"@).at("code"@) == Node::Text(f.code@) && answered_node(
            r,
        ).at("error"@).at("message"@) == Node::Text(f.message@) && answered_node(r).at(
            "error"@,
        ).at("state_changed"@) == Node::Bool(f.state_changed) && answered_node(r).member("output"@)
            is None,
{
    lemma_failure_codes();
    match r {
        Ok(reply) => {
            let s = seq![("success"@, Node::Bool(true)), ("output"@, reply_node(reply))];
            lemma_record_member(s, 0);
            lemma_record_member(s, 1);
            lemma_record_absent(s, "error"@);
        },
        Err(f) => {
            law_refusal_says(f);
            let s = seq![("success"@, Node::Bool(false)), ("error"@, failure_node(f))];
            lemma_record_member(s, 0);
            lemma_record_member(s, 1);
            lemma_record_absent(s, "output"@);
        },
    }
}

/// An input that is no request is refused under a code of its own: one that is
/// too long, and one that is not JSON.
pub proof fn law_command_line_refuses(bytes: Seq<u8>, code: Seq<char>)
    ensures
        failed_node(code).at("success"@) == Node::Bool(false),
        failed_node(code).at("error"@).at("code"@) == Node::Text(code),
        bytes.len() > 131072 ==> input_request(bytes) == Err::<Node, _>("input_too_large"@),
        bytes.len() <= 131072 && json_reading(bytes) is None ==> input_request(bytes) == Err::<
            Node,
            _,
        >("invalid_json"@),
        bytes.len() <= 131072 ==> (json_reading(bytes) matches Some(n) ==> input_request(bytes)
            == Ok::<_, Seq<char>>(n)),
{
    lemma_failure_codes();
    let e = seq![("code"@, Node::Text(code))];
    lemma_record_member(e, 0);
    let s = seq![("success"@, Node::Bool(false)), ("error"@, record(e))];
    lemma_record_member(s, 0);
    lemma_record_member(s, 1);
}

/// The command line takes one absolute project directory and a request on its
/// input, and nothing else.
pub proof fn law_command_line_arguments(args: Seq<Seq<char>>, absolute: bool, project: Seq<char>)
    ensures
        options_of(args, absolute) == Ok::<_, Seq<char>>(project) <==> absolute && args == seq![
            "--project"@,
            project,
            "--request-stdin"@,
        ],
{
    let wanted = seq!["--project"@, project, "--request-stdin"@];
    if options_of(args, absolute) == Ok::<_, Seq<char>>(project) {
        assert(args =~= wanted);
    }
}

proof fn lemma_observation_codes()
    ensures
        key_code("adapter_id"@) == 44583641444,
        key_code("event_id"@) == 36061996388,
        key_code("observed_tool"@) == 57703297900,
        key_code("exit_code"@) == 40357095781,
        key_code("status"@) == 27706810739,
        key_code("session_id"@) == 44885701476,
        key_code("project"@) == 31951318900,
        key_code("provenance"@) == 44836220773,
        key_code("inserted"@) == 36128584548,
        key_code("observation"@) == 49113363310,
        key_code("observations"@) == 53408330611,
        key_code("coverage"@) == 36027987557,
        key_code("complete"@) == 36027985253,
        key_code("reason"@) == 27689050478,
        key_code("error_kind"@) == 44651672164,
        key_code("state_changed"@) == 57771581796,
        key_code("recovery"@) == 36278985593,
        key_code("failure_kind"@) == 53257267556,
        key_code("recovery_kind"@) == 57753822052,
        key_code("retry_same_event_identity"@) == 109293433977,
{
    reveal_strlit("adapter_id");
    reveal_strlit("event_id");
    reveal_strlit("observed_tool");
    reveal_strlit("exit_code");
    reveal_strlit("status");
    reveal_strlit("session_id");
    reveal_strlit("project");
    reveal_strlit("provenance");
    reveal_strlit("inserted");
    reveal_strlit("observation");
    reveal_strlit("observations");
    reveal_strlit("coverage");
    reveal_strlit("complete");
    reveal_strlit("reason");
    reveal_strlit("error_kind");
    reveal_strlit("state_changed");
    reveal_strlit("recovery");
    reveal_strlit("failure_kind");
    reveal_strlit("recovery_kind");
    reveal_strlit("retry_same_event_identity");
}

/// A report is told as it came: a zero exit code is a reported success, another
/// one a reported failure, and without one nothing is known.
pub proof fn law_report_is_told(o: ObservationView)
    ensures
        observation_node(o).at("adapter_id"@) == Node::Text(o.adapter_id),
        observation_node(o).at("event_id"@) == Node::Text(o.event_id),
        observation_node(o).at("observed_tool"@) == Node::Text(o.observed_tool),
        observation_node(o).at("exit_code"@).signed() == o.exit_code,
        o.exit_code == Some(0i64) ==> observation_node(o).at("status"@) == Node::Text(
            "reported_success"@,
        ),
        o.exit_code is Some && o.exit_code != Some(0i64) ==> observation_node(o).at("status"@)
            == Node::Text("reported_failure"@),
        o.exit_code is None ==> observation_node(o).at("status"@) == Node::Text("unknown"@),
{
    lemma_observation_codes();
    let s = seq![
        ("adapter_id"@, Node::Text(o.adapter_id)),
        ("event_id"@, Node::Text(o.event_id)),
        ("observed_tool"@, Node::Text(o.observed_tool)),
        ("exit_code"@, code_node(o.exit_code)),
        ("status"@, Node::Text(observed_status(o.exit_code))),
    ];
    lemma_record_member(s, 0);
    lemma_record_member(s, 1);
    lemma_record_member(s, 2);
    lemma_record_member(s, 3);
    lemma_record_member(s, 4);
}

/// A report that was taken is answered with what was stored, as a report from
/// outside, and with whether it is new.
pub proof fn law_taken_report_is_answered(
    session: Seq<char>,
    project: Seq<char>,
    o: ObservationView,
    inserted: bool,
)
    ensures
        ({
            let told = recorded_answer(session, project, Ok((o, inserted)));
            &&& told.success
            &&& told.error is None
            &&& told.output.at("session_id"@) == Node::Text(session)
            &&& told.output.at("project"@) == Node::Text(project)
            &&& told.output.at("provenance"@) == Node::Text("external_report"@)
            &&& told.output.at("inserted"@) == Node::Bool(inserted)
            &&& told.output.at("observation"@).at("event_id"@) == Node::Text(o.event_id)
            &&& told.output.at("observation"@).at("adapter_id"@) == Node::Text(o.adapter_id)
            &&& told.output.at("observation"@).at("exit_code"@).signed() == o.exit_code
        }),
{
    lemma_observation_codes();
    law_report_is_told(o);
    let s = seq![
        ("session_id"@, Node::Text(session)),
        ("project"@, Node::Text(project)),
        ("provenance"@, Node::Text("external_report"@)),
        ("inserted"@, Node::Bool(inserted)),
        ("observation"@, observation_node(o)),
    ];
    lemma_record_member(s, 0);
    lemma_record_member(s, 1);
    lemma_record_member(s, 2);
    lemma_record_member(s, 3);
    lemma_record_member(s, 4);
}

/// A listing gives each report in its order and never claims to be complete.
pub proof fn law_listing_is_answered(
    session: Seq<char>,
    project: Seq<char>,
    rows: Seq<ObservationView>,
)
    ensures
        ({
            let told = listed_answer(session, project, Ok(rows));
            &&& told.success
            &&& told.output.at("session_id"@) == Node::Text(session)
            &&& told.output.at("project"@) == Node::Text(project)
            &&& told.output.at("provenance"@) == Node::Text("external_report"@)
            &&& told.output.at("coverage"@).at("complete"@) == Node::Bool(false)
            &&& told.output.at("coverage"@).at("reason"@) == Node::Text(
                "source_sequence_unavailable"@,
            )
            &&& told.output.at("observations"@) matches Node::List(items) && items.len()
                == rows.len() && forall|i: int|
                0 <= i < items.len() ==> (#[trigger] items[i]).at("event_id"@) == Node::Text(
                    rows[i].event_id,
                ) && items[i].at("adapter_id"@) == Node::Text(rows[i].adapter_id) && items[i].at(
                    "exit_code"@,
                ).signed() == rows[i].exit_code
        }),
{
    lemma_observation_codes();
    let c = seq![
        ("complete"@, Node::Bool(false)),
        ("reason"@, Node::Text("source_sequence_unavailable"@)),
    ];
    lemma_record_member(c, 0);
    lemma_record_member(c, 1);
    let s = seq![
        ("session_id"@, Node::Text(session)),
        ("project"@, Node::Text(project)),
        ("provenance"@, Node::Text("external_report"@)),
        ("observations"@, Node::List(observation_nodes(rows))),
        ("coverage"@, listing_coverage()),
    ];
    lemma_record_member(s, 0);
    lemma_record_member(s, 1);
    lemma_record_member(s, 2);
    lemma_record_member(s, 3);
    lemma_record_member(s, 4);
    assert forall|i: int| 0 <= i < rows.len() implies (#[trigger] observation_nodes(rows)[i]).at(
        "event_id"@,
    ) == Node::Text(rows[i].event_id) && observation_nodes(rows)[i].at("adapter_id"@) == Node::Text(
        rows[i].adapter_id,
    ) && observation_nodes(rows)[i].at("exit_code"@).signed() == rows[i].exit_code by {
        law_report_is_told(rows[i]);
    }
}

/// A failed commit of a report is never called unchanged and is retried under
/// the same identity; a conflict changed nothing, and so did a failed listing.
pub proof fn law_failed_report_is_answered(
    session: Seq<char>,
    project: Seq<char>,
    e: ObservationError,
)
    ensures
        ({
            let told = recorded_answer(session, project, Err(e));
            let listed = listed_answer(session, project, Err(e));
            &&& !told.success && !listed.success
            &&& told.error matches Some(code) && told.output.at("error_kind"@) == Node::Text(code)
            &&& listed.error matches Some(code) && listed.output.at("error_kind"@) == Node::Text(
                code,
            )
            &&& e == ObservationError::InvalidInput ==> told.error == Some(
                "invalid_external_observation"@,
            ) && listed.error == told.error
            &&& e == ObservationError::Conflict ==> told.error == Some(
                "external_observation_conflict"@,
            ) && told.output.at("state_changed"@) == Node::Bool(false) && told.output.at(
                "failure_kind"@,
            ) == Node::Text("conflict"@) && told.output.at("recovery_kind"@) == Node::Text(
                "fix_input"@,
            ) && listed.error == told.error
            &&& e == ObservationError::Capacity ==> told.error == Some(
                "external_observation_capacity"@,
            ) && listed.error == told.error
            &&& e == ObservationError::Storage ==> told.error == Some(
                "external_observation_storage_uncertain"@,
            ) && told.output.at("failure_kind"@) == Node::Text("outcome_unknown"@)
                && told.output.member("state_changed"@) is None && told.output.at(
                "retry_same_event_identity"@,
            ) == Node::Bool(true) && told.output.at("recovery_kind"@) == Node::Text("retry_same"@)
            &&& e == ObservationError::Storage ==> listed.error == Some(
                "external_observation_store_unavailable"@,
            ) && listed.output.at("state_changed"@) == Node::Bool(false) && listed.output.at(
                "recovery_kind"@,
            ) == Node::Text("reobserve"@)
        }),
{
    lemma_failed_report(e, true);
    lemma_failed_report(e, false);
}

proof fn lemma_failed_report(e: ObservationError, recording: bool)
    ensures
        ({
            let n = observation_failure(e, recording);
            &&& n.at("error_kind"@) == Node::Text(observation_code(e, recording))
            &&& e == ObservationError::Conflict ==> n.at("state_changed"@) == Node::Bool(false)
                && n.at("failure_kind"@) == Node::Text("conflict"@) && n.at("recovery_kind"@)
                == Node::Text("fix_input"@)
            &&& e == ObservationError::Storage && recording ==> n.at("failure_kind"@) == Node::Text(
                "outcome_unknown"@,
            ) && n.member("state_changed"@) is None && n.at("retry_same_event_identity"@)
                == Node::Bool(true) && n.at("recovery_kind"@) == Node::Text("retry_same"@)
            &&& e == ObservationError::Storage && !recording ==> n.at("state_changed"@)
                == Node::Bool(false) && n.at("recovery_kind"@) == Node::Text("reobserve"@)
        }),
{
    lemma_observation_codes();
    let kind = ("error_kind"@, Node::Text(observation_code(e, recording)));
    let way = ("recovery"@, recovery_text());
    let base = seq![kind, way];
    match e {
        ObservationError::Conflict => {
            let more = seq![
                ("failure_kind"@, Node::Text("conflict"@)),
                ("state_changed"@, Node::Bool(false)),
                ("recovery_kind"@, Node::Text("fix_input"@)),
            ];
            let s = seq![kind, way, more[0], more[1], more[2]];
            assert(base + more =~= s);
            lemma_record_member(s, 0);
            lemma_record_member(s, 1);
            lemma_record_member(s, 2);
            lemma_record_member(s, 3);
            lemma_record_member(s, 4);
        },
        ObservationError::Storage => {
            if recording {
                let more = seq![
                    ("failure_kind"@, Node::Text("outcome_unknown"@)),
                    ("recovery_kind"@, Node::Text("retry_same"@)),
                    ("retry_same_event_identity"@, Node::Bool(true)),
                ];
                let s = seq![kind, way, more[0], more[1], more[2]];
                assert(base + more =~= s);
                lemma_record_member(s, 0);
                lemma_record_member(s, 1);
                lemma_record_member(s, 2);
                lemma_record_member(s, 3);
                lemma_record_member(s, 4);
                lemma_record_absent(s, "state_changed"@);
            } else {
                let more = seq![
                    ("state_changed"@, Node::Bool(false)),
                    ("recovery_kind"@, Node::Text("reobserve"@)),
                ];
                let s = seq![kind, way, more[0], more[1]];
                assert(base + more =~= s);
                lemma_record_member(s, 0);
                lemma_record_member(s, 1);
                lemma_record_member(s, 2);
                lemma_record_member(s, 3);
            }
        },
        _ => {
            lemma_record_member(base, 0);
            lemma_record_member(base, 1);
        },
    }
}

/// A report is taken, and a listing given, only for exactly the project of the
/// session; a report only while the session is open; a refusal says that
/// nothing changed.
pub proof fn law_reports_belong_to_the_session(
    project: Seq<char>,
    resolved: Seq<char>,
    of_session: Option<Seq<char>>,
    recording: bool,
    mutable: bool,
    stored: bool,
)
    ensures
        observation_check(project, resolved, of_session, recording, mutable, stored) is Ok <==> (
        project == resolved && of_session == Some(project) && (mutable || !recording) && stored),
        project != resolved || of_session != Some(project) ==> (observation_check(
            project,
            resolved,
            of_session,
            recording,
            mutable,
            stored,
        ) matches Err(told) && told.output.at("error_kind"@) == Node::Text(
            "session_project_mismatch"@,
        ) && told.output.at("state_changed"@) == Node::Bool(false)),
        project == resolved && of_session == Some(project) && recording && !mutable ==> (
        observation_check(project, resolved, of_session, recording, mutable, stored) matches Err(
            told,
        ) && told.output.at("error_kind"@) == Node::Text("session_closed"@) && told.output.at(
            "state_changed"@,
        ) == Node::Bool(false)),
{
    lemma_unchanged_error("session_project_mismatch"@);
    lemma_unchanged_error("session_closed"@);
}

proof fn lemma_unchanged_error(kind: Seq<char>)
    ensures
        unchanged_error(kind).at("error_kind"@) == Node::Text(kind),
        unchanged_error(kind).at("state_changed"@) == Node::Bool(false),
{
    lemma_observation_codes();
    let s = seq![("error_kind"@, Node::Text(kind)), ("state_changed"@, Node::Bool(false))];
    lemma_record_member(s, 0);
    lemma_record_member(s, 1);
}

} // verus!
