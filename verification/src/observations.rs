//! Reports from outside: kept apart from what the server executed or validated
//! itself.
use vstd::prelude::*;
use crate::failure::{views};
use crate::json::{
    Json, Node, entries, lemma_array_view, nodes, object, record, signed_json, signed_node,
    text_json,
};
use crate::outbox::{optional_text};
use crate::server::{check_view};
use crate::text::{same};
use crate::tool::{ToolResult, ToolView, tool_err, tool_err_with, tool_ok};

verus! {

/// What an adapter outside the server reports of a tool call.
#[derive(Debug)]
pub struct ExternalObservation {
    pub adapter_id: String,
    pub event_id: String,
    pub observed_tool: String,
    pub exit_code: Option<i64>,
}

pub struct ObservationView {
    pub adapter_id: Seq<char>,
    pub event_id: Seq<char>,
    pub observed_tool: Seq<char>,
    pub exit_code: Option<i64>,
}

impl View for ExternalObservation {
    type V = ObservationView;

    open spec fn view(&self) -> ObservationView {
        ObservationView {
            adapter_id: self.adapter_id@,
            event_id: self.event_id@,
            observed_tool: self.observed_tool@,
            exit_code: self.exit_code,
        }
    }
}

/// Why a report could not be kept or listed.
#[derive(Clone, Copy, Debug, PartialEq, Eq, Structural)]
pub enum ObservationError {
    InvalidInput,
    Conflict,
    Capacity,
    Storage,
}

/// What a report says of the call; without an exit code nothing is known.
pub open spec fn observed_status(exit_code: Option<i64>) -> Seq<char> {
    match exit_code {
        Some(code) => if code == 0 {
            "reported_success"@
        } else {
            "reported_failure"@
        },
        None => "unknown"@,
    }
}

pub open spec fn code_node(exit_code: Option<i64>) -> Node {
    match exit_code {
        Some(code) => signed_node(code),
        None => Node::Null,
    }
}

pub open spec fn observation_node(o: ObservationView) -> Node {
    record(
        seq![
            ("adapter_id"@, Node::Text(o.adapter_id)),
            ("event_id"@, Node::Text(o.event_id)),
            ("observed_tool"@, Node::Text(o.observed_tool)),
            ("exit_code"@, code_node(o.exit_code)),
            ("status"@, Node::Text(observed_status(o.exit_code))),
        ],
    )
}

/// A report as it is shown.
pub fn project_observation(value: &ExternalObservation) -> (r: Json)
    ensures
        r@ == observation_node(value@),
{
    let status = match value.exit_code {
        Some(code) => if code == 0 {
            "reported_success"
        } else {
            "reported_failure"
        },
        None => "unknown",
    };
    let code = match value.exit_code {
        Some(code) => signed_json(code),
        None => Json::Null,
    };
    let members = vec![
        ("adapter_id", text_json(value.adapter_id.as_str())),
        ("event_id", text_json(value.event_id.as_str())),
        ("observed_tool", text_json(value.observed_tool.as_str())),
        ("exit_code", code),
        ("status", text_json(status)),
    ];
    proof {
        assert(entries(members@) =~= seq![
            ("adapter_id"@, Node::Text(value@.adapter_id)),
            ("event_id"@, Node::Text(value@.event_id)),
            ("observed_tool"@, Node::Text(value@.observed_tool)),
            ("exit_code"@, code_node(value@.exit_code)),
            ("status"@, Node::Text(observed_status(value@.exit_code))),
        ]);
    }
    object(members)
}

/// The tool that a request is.
pub open spec fn observation_tool(recording: bool) -> Seq<char> {
    if recording {
        "record_external_observation"@
    } else {
        "list_external_observations"@
    }
}

pub fn external_observation_tool_name(recording: bool) -> (r: &'static str)
    ensures
        r@ == observation_tool(recording),
{
    if recording {
        "record_external_observation"
    } else {
        "list_external_observations"
    }
}

pub open spec fn unchanged_error(kind: Seq<char>) -> Node {
    record(
        seq![
            ("error_kind"@, Node::Text(kind)),
            ("state_changed"@, Node::Bool(false)),
        ],
    )
}

fn unchanged(kind: &'static str) -> (r: Json)
    ensures
        r@ == unchanged_error(kind@),
{
    let members = vec![("error_kind", text_json(kind)), ("state_changed", Json::Bool(false))];
    proof {
        assert(entries(members@) =~= seq![
            ("error_kind"@, Node::Text(kind@)),
            ("state_changed"@, Node::Bool(false)),
        ]);
    }
    object(members)
}

/// Whether a request is one for exactly the project of its session; a report is
/// taken only while the session is open, and nothing without a store.
pub open spec fn observation_check(
    project: Seq<char>,
    resolved: Seq<char>,
    of_session: Option<Seq<char>>,
    recording: bool,
    mutable: bool,
    stored: bool,
) -> Result<(), ToolView> {
    if project != resolved || of_session != Some(project) {
        Err(
            tool_err_with(
                "External observations require the exact Session Project"@,
                unchanged_error("session_project_mismatch"@),
            ),
        )
    } else if recording && !mutable {
        Err(tool_err_with("Session is closed"@, unchanged_error("session_closed"@)))
    } else if !stored {
        Err(tool_err("external_observation_store_unavailable"@))
    } else {
        Ok(())
    }
}

/// Whether a request is one for exactly the project of its session.
pub fn check_observation(
    project: &str,
    resolved: &str,
    of_session: Option<&str>,
    recording: bool,
    mutable: bool,
    stored: bool,
) -> (r: Result<(), ToolResult>)
    ensures
        check_view(r) == observation_check(
            project@,
            resolved@,
            optional_text(of_session),
            recording,
            mutable,
            stored,
        ),
{
    let own = match of_session {
        Some(s) => same(s, project),
        None => false,
    };
    if !same(project, resolved) || !own {
        return Err(
            ToolResult::err_with_output(
                "External observations require the exact Session Project",
                unchanged("session_project_mismatch"),
            ),
        );
    }
    if recording && !mutable {
        return Err(ToolResult::err_with_output("Session is closed", unchanged("session_closed")));
    }
    if !stored {
        return Err(ToolResult::err("external_observation_store_unavailable"));
    }
    Ok(())
}

pub open spec fn recovery_text() -> Node {
    Node::Text(
        "Reconcile using the same Session, adapter and event identity; never replay the business operation."@,
    )
}

/// The code of a failure. What a failed commit left is uncertain; a failed
/// listing changed nothing.
pub open spec fn observation_code(e: ObservationError, recording: bool) -> Seq<char> {
    match e {
        ObservationError::InvalidInput => "invalid_external_observation"@,
        ObservationError::Conflict => "external_observation_conflict"@,
        ObservationError::Capacity => "external_observation_capacity"@,
        ObservationError::Storage => if recording {
            "external_observation_storage_uncertain"@
        } else {
            "external_observation_store_unavailable"@
        },
    }
}

/// What a failure tells of the outcome and of the way back. No failed commit is
/// called unchanged, and no fresh identity is ever suggested.
pub open spec fn observation_failure(e: ObservationError, recording: bool) -> Node {
    let base = seq![
        ("error_kind"@, Node::Text(observation_code(e, recording))),
        ("recovery"@, recovery_text()),
    ];
    match e {
        ObservationError::Conflict => record(
            base + seq![
                ("failure_kind"@, Node::Text("conflict"@)),
                ("state_changed"@, Node::Bool(false)),
                ("recovery_kind"@, Node::Text("fix_input"@)),
            ],
        ),
        ObservationError::Storage => if recording {
            record(
                base + seq![
                    ("failure_kind"@, Node::Text("outcome_unknown"@)),
                    ("recovery_kind"@, Node::Text("retry_same"@)),
                    ("retry_same_event_identity"@, Node::Bool(true)),
                ],
            )
        } else {
            record(
                base + seq![
                    ("state_changed"@, Node::Bool(false)),
                    ("recovery_kind"@, Node::Text("reobserve"@)),
                ],
            )
        },
        _ => record(base),
    }
}

fn error_code(e: ObservationError, recording: bool) -> (r: &'static str)
    ensures
        r@ == observation_code(e, recording),
{
    match e {
        ObservationError::InvalidInput => "invalid_external_observation",
        ObservationError::Conflict => "external_observation_conflict",
        ObservationError::Capacity => "external_observation_capacity",
        ObservationError::Storage => if recording {
            "external_observation_storage_uncertain"
        } else {
            "external_observation_store_unavailable"
        },
    }
}

fn report_failure(e: ObservationError, recording: bool) -> (r: ToolResult)
    ensures
        r@ == tool_err_with(observation_code(e, recording), observation_failure(e, recording)),
{
    let code = error_code(e, recording);
    let mut members = vec![
        ("error_kind", text_json(code)),
        (
            "recovery",
            text_json(
                "Reconcile using the same Session, adapter and event identity; never replay the business operation.",
            ),
        ),
    ];
    let ghost base = seq![
        ("error_kind"@, Node::Text(observation_code(e, recording))),
        ("recovery"@, recovery_text()),
    ];
    proof {
        assert(entries(members@) =~= base);
    }
    match e {
        ObservationError::Conflict => {
            members.push(("failure_kind", text_json("conflict")));
            members.push(("state_changed", Json::Bool(false)));
            members.push(("recovery_kind", text_json("fix_input")));
            proof {
                assert(entries(members@) =~= base + seq![
                    ("failure_kind"@, Node::Text("conflict"@)),
                    ("state_changed"@, Node::Bool(false)),
                    ("recovery_kind"@, Node::Text("fix_input"@)),
                ]);
            }
        },
        ObservationError::Storage => {
            if recording {
                members.push(("failure_kind", text_json("outcome_unknown")));
                members.push(("recovery_kind", text_json("retry_same")));
                members.push(("retry_same_event_identity", Json::Bool(true)));
                proof {
                    assert(entries(members@) =~= base + seq![
                        ("failure_kind"@, Node::Text("outcome_unknown"@)),
                        ("recovery_kind"@, Node::Text("retry_same"@)),
                        ("retry_same_event_identity"@, Node::Bool(true)),
                    ]);
                }
            } else {
                members.push(("state_changed", Json::Bool(false)));
                members.push(("recovery_kind", text_json("reobserve")));
                proof {
                    assert(entries(members@) =~= base + seq![
                        ("state_changed"@, Node::Bool(false)),
                        ("recovery_kind"@, Node::Text("reobserve"@)),
                    ]);
                }
            }
        },
        _ => {},
    }
    ToolResult::err_with_output(code, object(members))
}

/// The answer to a report.
pub open spec fn recorded_answer(
    session: Seq<char>,
    project: Seq<char>,
    result: Result<(ObservationView, bool), ObservationError>,
) -> ToolView {
    match result {
        Ok((o, inserted)) => tool_ok(
            record(
                seq![
                    ("session_id"@, Node::Text(session)),
                    ("project"@, Node::Text(project)),
                    ("provenance"@, Node::Text("external_report"@)),
                    ("inserted"@, Node::Bool(inserted)),
                    ("observation"@, observation_node(o)),
                ],
            ),
        ),
        Err(e) => tool_err_with(observation_code(e, true), observation_failure(e, true)),
    }
}

/// The answer to a report: what the store kept, and whether it is new.
pub fn answer_recorded(
    session_id: &str,
    project: &str,
    result: &Result<(ExternalObservation, bool), ObservationError>,
) -> (r: ToolResult)
    ensures
        r@ == recorded_answer(
            session_id@,
            project@,
            match result {
                Ok(pair) => Ok((pair.0@, pair.1)),
                Err(e) => Err(*e),
            },
        ),
{
    match result {
        Ok(pair) => {
            let members = vec![
                ("session_id", text_json(session_id)),
                ("project", text_json(project)),
                ("provenance", text_json("external_report")),
                ("inserted", Json::Bool(pair.1)),
                ("observation", project_observation(&pair.0)),
            ];
            proof {
                assert(entries(members@) =~= seq![
                    ("session_id"@, Node::Text(session_id@)),
                    ("project"@, Node::Text(project@)),
                    ("provenance"@, Node::Text("external_report"@)),
                    ("inserted"@, Node::Bool(pair.1)),
                    ("observation"@, observation_node(pair.0@)),
                ]);
            }
            ToolResult::ok(object(members))
        },
        Err(e) => report_failure(*e, true),
    }
}

pub open spec fn observation_nodes(rows: Seq<ObservationView>) -> Seq<Node> {
    Seq::new(rows.len(), |i: int| observation_node(rows[i]))
}

/// What a listing covers: reports carry no sequence of their source, so it is
/// never complete.
pub open spec fn listing_coverage() -> Node {
    record(
        seq![
            ("complete"@, Node::Bool(false)),
            ("reason"@, Node::Text("source_sequence_unavailable"@)),
        ],
    )
}

/// The answer to a listing.
pub open spec fn listed_answer(
    session: Seq<char>,
    project: Seq<char>,
    result: Result<Seq<ObservationView>, ObservationError>,
) -> ToolView {
    match result {
        Ok(rows) => tool_ok(
            record(
                seq![
                    ("session_id"@, Node::Text(session)),
                    ("project"@, Node::Text(project)),
                    ("provenance"@, Node::Text("external_report"@)),
                    ("observations"@, Node::List(observation_nodes(rows))),
                    ("coverage"@, listing_coverage()),
                ],
            ),
        ),
        Err(e) => tool_err_with(observation_code(e, false), observation_failure(e, false)),
    }
}

#[verifier::loop_isolation(false)]
fn rows_json(rows: &Vec<ExternalObservation>) -> (r: Json)
    ensures
        r@ == Node::List(observation_nodes(views(rows@))),
{
    broadcast use lemma_array_view;

    let ghost goal = observation_nodes(views(rows@));
    let mut out: Vec<Json> = Vec::new();
    let mut i: usize = 0;
    while i < rows.len()
        invariant
            i <= rows@.len(),
            out@.len() == i,
            forall|j: int| 0 <= j < i ==> (#[trigger] out@[j])@ == goal[j],
        decreases rows@.len() - i,
    {
        out.push(project_observation(&rows[i]));
        proof {
            assert(goal[i as int] == observation_node(rows@[i as int]@));
        }
        i += 1;
    }
    proof {
        assert(nodes(out@) =~= goal);
    }
    Json::Array(out)
}

/// The answer to a listing.
pub fn answer_listed(
    session_id: &str,
    project: &str,
    result: &Result<Vec<ExternalObservation>, ObservationError>,
) -> (r: ToolResult)
    ensures
        r@ == listed_answer(
            session_id@,
            project@,
            match result {
                Ok(rows) => Ok(views(rows@)),
                Err(e) => Err(*e),
            },
        ),
{
    match result {
        Ok(rows) => {
            let cover = vec![
                ("complete", Json::Bool(false)),
                ("reason", text_json("source_sequence_unavailable")),
            ];
            proof {
                assert(entries(cover@) =~= seq![
                    ("complete"@, Node::Bool(false)),
                    ("reason"@, Node::Text("source_sequence_unavailable"@)),
                ]);
            }
            let members = vec![
                ("session_id", text_json(session_id)),
                ("project", text_json(project)),
                ("provenance", text_json("external_report")),
                ("observations", rows_json(rows)),
                ("coverage", object(cover)),
            ];
            proof {
                assert(entries(members@) =~= seq![
                    ("session_id"@, Node::Text(session_id@)),
                    ("project"@, Node::Text(project@)),
                    ("provenance"@, Node::Text("external_report"@)),
                    ("observations"@, Node::List(observation_nodes(views(rows@)))),
                    ("coverage"@, listing_coverage()),
                ]);
            }
            ToolResult::ok(object(members))
        },
        Err(e) => report_failure(*e, false),
    }
}

} // verus!
