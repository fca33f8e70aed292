//! The server's side of a handoff: what it knows of deliveries, which facts it
//! records, and which work it lets start. It is neither a session nor an
//! authority to execute or to retry.
use vstd::prelude::*;
use vstd::utf8::*;
use crate::digest::{digest_of, fingerprint};
use crate::event::{MAX_PATHS_PER_EVENT, is_event_id, parse_event_id};
use crate::failure::{content, views};
use crate::json::{
    Json, Node, entries, lemma_array_view, nodes, object, record, signed_json, signed_node,
    text_json,
};
use crate::markdown::{bytes_of};
use crate::outbox::{
    ScopeView, SourceStatus, enqueued, latched, optional_text, scope_bindings, scope_gaps,
    scope_retirements, scope_rows, source_node,
};
use crate::store::{Database, DatabaseView, binding_for, fenced};
use crate::text::{has_prefix, joined, same, starts_with};
use crate::tool::{
    ResolvedProject, ResolvedView, ToolResult, ToolView, checkpoint_fingerprint, fingerprint_in,
    tool_err, tool_err_with, with_member,
};

verus! {

pub const MAX_JOB_ID_CHARS: usize = 128;

/// The name under which a session selects its task.
pub open spec fn key_of(session: Seq<char>) -> Seq<char> {
    "webcodex:"@ + digest_of(encode_utf8(session))
}

/// The name under which a session selects its task.
pub fn client_key(session_id: &str) -> (r: String)
    ensures
        r@ == key_of(session_id@),
{
    joined("webcodex:", fingerprint(bytes_of(session_id).as_slice()).as_str())
}

/// The delivery tables as they could be had: not configured, not readable or
/// not writable, or open.
#[derive(Debug)]
pub enum Tables {
    Absent,
    Failed,
    Open(Database),
}

pub enum TablesView {
    Absent,
    Failed,
    Open(DatabaseView),
}

impl View for Tables {
    type V = TablesView;

    open spec fn view(&self) -> TablesView {
        match self {
            Tables::Absent => TablesView::Absent,
            Tables::Failed => TablesView::Failed,
            Tables::Open(db) => TablesView::Open(db@),
        }
    }
}

// ---------------------------------------------------------------------------
// Requests.
// ---------------------------------------------------------------------------

pub open spec fn status_request(session: Option<Seq<char>>) -> Node {
    match session {
        Some(s) => record(
            seq![("action"@, Node::Text("status"@)), ("client_id"@, Node::Text(key_of(s)))],
        ),
        None => record(seq![("action"@, Node::Text("status"@))]),
    }
}

/// The request for the status, with the selection of a session.
pub fn ask_status(session: Option<&str>) -> (r: Json)
    ensures
        r@ == status_request(optional_text(session)),
{
    match session {
        Some(s) => {
            let members = vec![
                ("action", text_json("status")),
                ("client_id", text_json(client_key(s).as_str())),
            ];
            proof {
                assert(entries(members@) =~= seq![
                    ("action"@, Node::Text("status"@)),
                    ("client_id"@, Node::Text(key_of(s@))),
                ]);
            }
            object(members)
        },
        None => {
            let members = vec![("action", text_json("status"))];
            proof {
                assert(entries(members@) =~= seq![("action"@, Node::Text("status"@))]);
            }
            object(members)
        },
    }
}

pub open spec fn read_request(task: Seq<char>) -> Node {
    record(seq![("action"@, Node::Text("read"@)), ("task_id"@, Node::Text(task))])
}

/// The request for one task.
pub fn ask_read(task_id: &str) -> (r: Json)
    ensures
        r@ == read_request(task_id@),
{
    let members = vec![("action", text_json("read")), ("task_id", text_json(task_id))];
    proof {
        assert(entries(members@) =~= seq![
            ("action"@, Node::Text("read"@)),
            ("task_id"@, Node::Text(task_id@)),
        ]);
    }
    object(members)
}

pub open spec fn append_request(task: Seq<char>, revision: u64, event: Node) -> Node {
    record(
        seq![
            ("action"@, Node::Text("append"@)),
            ("task_id"@, Node::Text(task)),
            ("expected_revision"@, Node::Unsigned(revision)),
            ("event"@, event),
        ],
    )
}

/// The request that appends an event.
pub fn ask_append(task_id: &str, revision: u64, event: Json) -> (r: Json)
    ensures
        r@ == append_request(task_id@, revision, event@),
{
    let ghost fact = event@;
    let members = vec![
        ("action", text_json("append")),
        ("task_id", text_json(task_id)),
        ("expected_revision", Json::Unsigned(revision)),
        ("event", event),
    ];
    proof {
        assert(entries(members@) =~= seq![
            ("action"@, Node::Text("append"@)),
            ("task_id"@, Node::Text(task_id@)),
            ("expected_revision"@, Node::Unsigned(revision)),
            ("event"@, fact),
        ]);
    }
    object(members)
}

// ---------------------------------------------------------------------------
// What is known of the deliveries.
// ---------------------------------------------------------------------------

pub open spec fn unavailable_source() -> Node {
    record(
        seq![
            ("status"@, Node::Text("unavailable"@)),
            ("coverage"@, Node::Text("unknown"@)),
        ],
    )
}

fn source_unavailable() -> (r: Json)
    ensures
        r@ == unavailable_source(),
{
    let members = vec![
        ("status", text_json("unavailable")),
        ("coverage", text_json("unknown")),
    ];
    proof {
        assert(entries(members@) =~= seq![
            ("status"@, Node::Text("unavailable"@)),
            ("coverage"@, Node::Text("unknown"@)),
        ]);
    }
    object(members)
}

/// The counts of a scope.
pub open spec fn counts_of(db: DatabaseView, s: ScopeView) -> SourceStatus {
    SourceStatus {
        bindings: scope_bindings(db.bindings, s, db.bindings.len()) as u64,
        pending: scope_rows(db, s, db.bindings.len()) as u64,
        capture_gaps: scope_gaps(db, s, db.bindings.len()) as u64,
        retiring: scope_retirements(db.retirements, s, db.retirements.len()) as u64,
    }
}

/// What is known of the deliveries in a scope.
pub open spec fn deliveries_of(t: TablesView, s: ScopeView) -> Node {
    match t {
        TablesView::Open(db) => if scope_rows(db, s, db.bindings.len()) > i64::MAX {
            unavailable_source()
        } else {
            source_node(counts_of(db, s))
        },
        _ => unavailable_source(),
    }
}

impl Tables {
    pub fn source(
        &self,
        project: &str,
        path: &str,
        task: Option<&str>,
        fingerprint: Option<&str>,
    ) -> (r: Json)
        ensures
            r@ == deliveries_of(
                self@,
                ScopeView {
                    project: project@,
                    path: path@,
                    task: optional_text(task),
                    fingerprint: optional_text(fingerprint),
                },
            ),
    {
        match self {
            Tables::Open(db) => match db.handoff_source_status(project, path, task, fingerprint) {
                Ok(status) => status.to_json(),
                Err(_) => source_unavailable(),
            },
            _ => source_unavailable(),
        }
    }
}

/// A reply with what is known of the deliveries to exactly the task and the
/// file identity that it names.
pub open spec fn with_source(t: TablesView, p: ResolvedView, value: Node) -> Node {
    let source = deliveries_of(
        t,
        ScopeView {
            project: p.resolved_id,
            path: p.path,
            task: value.at("task_id"@).text(),
            fingerprint: fingerprint_in(value),
        },
    );
    with_member(
        with_member(value, "source_status"@, source),
        "source_pending_facts"@,
        source.at("pending"@),
    )
}

/// Adds to a reply what is known of the deliveries.
pub fn add_handoff_source_status(tables: &Tables, project: &ResolvedProject, value: &mut Json)
    requires
        old(value)@ is Record,
    ensures
        final(value)@ == with_source(tables@, project@, old(value)@),
        final(value)@ is Record,
{
    let source = tables.source(
        project.resolved_id.as_str(),
        project.path.as_str(),
        value.text_at("task_id"),
        checkpoint_fingerprint(&*value),
    );
    let waiting = source.copy_at("pending");
    value.set_member("source_status", source);
    value.set_member("source_pending_facts", waiting);
}

/// What a session learns when it starts on a project with handoffs.
pub open spec fn notice_of(t: TablesView, p: ResolvedView, reply: Result<Node, Seq<char>>) -> Option<
    Node,
> {
    match reply {
        Ok(value) => if value.at("enabled"@) == Node::Bool(true) {
            Some(with_source(t, p, value))
        } else {
            None
        },
        Err(_) => Some(
            record(
                seq![
                    ("status"@, Node::Text("unavailable"@)),
                    ("hint"@, Node::Text("Do not infer that no prior task exists."@)),
                ],
            ),
        ),
    }
}

/// The view of a reply.
pub open spec fn reply_view(r: Result<Json, String>) -> Result<Node, Seq<char>> {
    match r {
        Ok(j) => Ok(j@),
        Err(s) => Err(s@),
    }
}

/// Whether a reply is one that an exchange hands out.
pub open spec fn is_reply(r: Result<Node, Seq<char>>) -> bool {
    r matches Ok(value) ==> value is Record
}

/// What a session learns when it starts on a project with handoffs.
pub fn project_handoff_for_startup(
    tables: &Tables,
    project: &ResolvedProject,
    reply: Result<Json, String>,
) -> (r: Option<Json>)
    requires
        is_reply(reply_view(reply)),
    ensures
        content(r) == notice_of(tables@, project@, reply_view(reply)),
{
    match reply {
        Ok(value) => {
            let mut value = value;
            if value.has_bool("enabled", true) {
                add_handoff_source_status(tables, project, &mut value);
                Some(value)
            } else {
                None
            }
        },
        Err(_) => {
            let members = vec![
                ("status", text_json("unavailable")),
                ("hint", text_json("Do not infer that no prior task exists.")),
            ];
            proof {
                assert(entries(members@) =~= seq![
                    ("status"@, Node::Text("unavailable"@)),
                    ("hint"@, Node::Text("Do not infer that no prior task exists."@)),
                ]);
            }
            Some(object(members))
        },
    }
}

// ---------------------------------------------------------------------------
// Recording the end of a tool call.
// ---------------------------------------------------------------------------

/// A tool call as it was when it started.
#[derive(Debug)]
pub struct ToolCallStart {
    pub session_id: String,
    pub call_id: String,
    pub logical_invocation_id: Option<String>,
    pub logical_invocation_role: Option<String>,
    pub tool_name: String,
    pub write_like: bool,
    pub shell_like: bool,
    pub resolved_project: Option<String>,
    pub changed_paths: Vec<String>,
    pub started_at: i64,
}

pub struct StartView {
    pub session_id: Seq<char>,
    pub call_id: Seq<char>,
    pub logical_invocation_id: Option<Seq<char>>,
    pub logical_invocation_role: Option<Seq<char>>,
    pub tool_name: Seq<char>,
    pub write_like: bool,
    pub shell_like: bool,
    pub resolved_project: Option<Seq<char>>,
    pub changed_paths: Seq<Seq<char>>,
    pub started_at: i64,
}

impl View for ToolCallStart {
    type V = StartView;

    open spec fn view(&self) -> StartView {
        StartView {
            session_id: self.session_id@,
            call_id: self.call_id@,
            logical_invocation_id: content(self.logical_invocation_id),
            logical_invocation_role: content(self.logical_invocation_role),
            tool_name: self.tool_name@,
            write_like: self.write_like,
            shell_like: self.shell_like,
            resolved_project: content(self.resolved_project),
            changed_paths: views(self.changed_paths@),
            started_at: self.started_at,
        }
    }
}

/// Whether a finished call is a fact worth recording: one that may have changed
/// something, and that was started.
pub open spec fn is_fact(start: StartView, result: ToolView) -> bool {
    &&& start.logical_invocation_role != Some("recorder"@)
    &&& result.output.at("execution_state"@) != Node::Text("not_started"@)
    &&& !has_prefix(start.tool_name, "project_handoff_"@)
    &&& start.write_like || start.shell_like
}

/// What identifies a call: its logical invocation where it has one.
pub open spec fn call_identity(start: StartView) -> Seq<char> {
    match start.logical_invocation_id {
        Some(id) => id,
        None => start.call_id,
    }
}

/// The event id of a finished call.
pub open spec fn tool_event_id(start: StartView) -> Seq<char> {
    "tool-"@ + digest_of(
        encode_utf8(start.session_id + seq!['\0'] + call_identity(start)),
    )
}

/// The texts as values.
pub open spec fn text_nodes(s: Seq<Seq<char>>) -> Seq<Node> {
    Seq::new(s.len(), |i: int| Node::Text(s[i]))
}

/// The first paths of a call.
pub open spec fn reported_paths(paths: Seq<Seq<char>>) -> Seq<Seq<char>> {
    if paths.len() > MAX_PATHS_PER_EVENT {
        paths.take(MAX_PATHS_PER_EVENT as int)
    } else {
        paths
    }
}

/// Whether a value is a job id that may be recorded.
pub open spec fn is_job_id(n: Node) -> bool {
    n.text() matches Some(s) && 0 < s.len() <= MAX_JOB_ID_CHARS && is_event_id(s)
}

/// The event with the paths of the call; more than fit are marked as missing.
pub open spec fn with_changed_paths(event: Node, paths: Seq<Seq<char>>) -> Node {
    if paths.len() == 0 {
        event
    } else {
        let named = with_member(event, "paths"@, Node::List(text_nodes(reported_paths(paths))));
        if paths.len() > MAX_PATHS_PER_EVENT {
            with_member(
                with_member(named, "unknown"@, Node::Bool(true)),
                "status"@,
                Node::Text("partial_path_coverage"@),
            )
        } else {
            named
        }
    }
}

/// The fact that a call finished.
pub open spec fn fact_of(start: StartView, result: ToolView) -> Node {
    let base = record(
        seq![
            ("type"@, Node::Text("tool_finished"@)),
            ("source"@, Node::Text("webcodex"@)),
            ("event_id"@, Node::Text(tool_event_id(start))),
            ("tool"@, Node::Text(start.tool_name)),
            ("success"@, Node::Bool(result.success)),
            (
                "status"@,
                Node::Text(
                    if result.success {
                        "tool_succeeded"@
                    } else {
                        "tool_failed"@
                    },
                ),
            ),
            ("observed_at"@, signed_node(start.started_at)),
        ],
    );
    let named = with_changed_paths(base, start.changed_paths);
    let coded = match result.output.at("exit_code"@).signed() {
        Some(code) => with_member(named, "exit_code"@, signed_node(code)),
        None => named,
    };
    if is_job_id(result.output.at("job_id"@)) {
        with_member(coded, "job_id"@, result.output.at("job_id"@))
    } else {
        coded
    }
}

pub open spec fn capture_note(status: Seq<char>, reason: Seq<char>) -> Node {
    record(seq![("status"@, Node::Text(status)), ("reason"@, Node::Text(reason))])
}

pub open spec fn pending_note() -> Node {
    record(seq![("status"@, Node::Text("pending"@))])
}

/// Recording a finished call: the tables afterwards, and what the caller is
/// told.
pub open spec fn fact_captured(t: TablesView, start: Option<StartView>, result: ToolView) -> (
    TablesView,
    Option<Node>,
) {
    match start {
        None => (t, None),
        Some(s) => if !is_fact(s, result) {
            (t, None)
        } else {
            match t {
                TablesView::Absent => (t, None),
                TablesView::Failed => (
                    t,
                    Some(capture_note("failed"@, "outbox_unavailable"@)),
                ),
                TablesView::Open(db) => match binding_for(db.bindings, s.session_id) {
                    None => (t, None),
                    Some(b) => if s.resolved_project != Some(b.project_id) {
                        (t, Some(capture_note("failed"@, "event_project_mismatch"@)))
                    } else {
                        match enqueued(db, s.session_id, fact_of(s, result), s.started_at) {
                            (after, Ok(_)) => (TablesView::Open(after), Some(pending_note())),
                            (after, Err(_)) => (
                                TablesView::Open(
                                    DatabaseView {
                                        gaps: latched(
                                            after.gaps,
                                            s.session_id,
                                            "capture_failed"@,
                                        ),
                                        ..after
                                    },
                                ),
                                Some(capture_note("failed"@, "fact_not_saved"@)),
                            ),
                        }
                    },
                },
            }
        },
    }
}

fn note(status: &'static str, reason: &'static str) -> (r: Json)
    ensures
        r@ == capture_note(status@, reason@),
{
    let members = vec![("status", text_json(status)), ("reason", text_json(reason))];
    proof {
        assert(entries(members@) =~= seq![
            ("status"@, Node::Text(status@)),
            ("reason"@, Node::Text(reason@)),
        ]);
    }
    object(members)
}

/// The answer where the tables could not be saved after all.
pub fn unsaved_fact() -> (r: Json)
    ensures
        r@ == capture_note("failed"@, "fact_not_saved"@),
{
    note("failed", "fact_not_saved")
}

#[verifier::loop_isolation(false)]
fn path_values(paths: &Vec<String>) -> (r: Json)
    ensures
        r@ == Node::List(text_nodes(reported_paths(views(paths@)))),
{
    broadcast use lemma_array_view;

    let ghost all = views(paths@);
    let ghost goal = text_nodes(reported_paths(all));
    let count: usize = if paths.len() > MAX_PATHS_PER_EVENT {
        MAX_PATHS_PER_EVENT
    } else {
        paths.len()
    };
    let mut out: Vec<Json> = Vec::new();
    let mut i: usize = 0;
    proof {
        assert(all.len() == paths@.len());
        assert(goal.len() == count);
    }
    while i < count
        invariant
            i <= count,
            out@.len() == i,
            forall|j: int| 0 <= j < i ==> (#[trigger] out@[j])@ == goal[j],
        decreases count - i,
    {
        out.push(text_json(paths[i].as_str()));
        proof {
            assert(goal[i as int] == Node::Text(all[i as int]));
            assert(all[i as int] == paths@[i as int]@);
        }
        i += 1;
    }
    proof {
        assert(nodes(out@) =~= goal);
    }
    Json::Array(out)
}

/// A job id that may be recorded.
fn job_id_in(output: &Json) -> (r: Option<String>)
    ensures
        match r {
            Some(s) => is_job_id(output@.at("job_id"@)) && output@.at("job_id"@) == Node::Text(s@),
            None => !is_job_id(output@.at("job_id"@)),
        },
{
    match output.get("job_id") {
        Some(v) => match parse_event_id(v) {
            Ok(id) => Some(id),
            Err(_) => None,
        },
        None => None,
    }
}

fn fact(start: &ToolCallStart, result: &ToolResult) -> (r: Json)
    ensures
        r@ == fact_of(start@, result@),
{
    let identity = match &start.logical_invocation_id {
        Some(id) => id.as_str(),
        None => start.call_id.as_str(),
    };
    let mut named = joined(start.session_id.as_str(), "");
    named.push('\0');
    let named = joined(named.as_str(), identity);
    proof {
        reveal_strlit("");
        assert(named@ =~= start@.session_id + seq!['\0'] + call_identity(start@));
    }
    let id = joined("tool-", fingerprint(bytes_of(named.as_str()).as_slice()).as_str());
    let status = if result.success {
        "tool_succeeded"
    } else {
        "tool_failed"
    };
    let members = vec![
        ("type", text_json("tool_finished")),
        ("source", text_json("webcodex")),
        ("event_id", text_json(id.as_str())),
        ("tool", text_json(start.tool_name.as_str())),
        ("success", Json::Bool(result.success)),
        ("status", text_json(status)),
        ("observed_at", signed_json(start.started_at)),
    ];
    proof {
        assert(entries(members@) =~= seq![
            ("type"@, Node::Text("tool_finished"@)),
            ("source"@, Node::Text("webcodex"@)),
            ("event_id"@, Node::Text(tool_event_id(start@))),
            ("tool"@, Node::Text(start@.tool_name)),
            ("success"@, Node::Bool(result@.success)),
            (
                "status"@,
                Node::Text(
                    if result@.success {
                        "tool_succeeded"@
                    } else {
                        "tool_failed"@
                    },
                ),
            ),
            ("observed_at"@, signed_node(start@.started_at)),
        ]);
    }
    let mut event = object(members);
    proof {
        assert(start@.changed_paths.len() == start.changed_paths@.len());
    }
    if start.changed_paths.len() > 0 {
        event.set_member("paths", path_values(&start.changed_paths));
        if start.changed_paths.len() > MAX_PATHS_PER_EVENT {
            event.set_member("unknown", Json::Bool(true));
            event.set_member("status", text_json("partial_path_coverage"));
        }
    }
    let code = match result.output.get("exit_code") {
        Some(v) => v.as_i64(),
        None => None,
    };
    match code {
        Some(n) => event.set_member("exit_code", signed_json(n)),
        None => {},
    }
    match job_id_in(&result.output) {
        Some(id) => event.set_member("job_id", text_json(id.as_str())),
        None => {},
    }
    event
}

/// Records a finished call. What a call admits is no verdict, but the handle of
/// its job must survive a switch before the runner's next callback.
pub fn capture_handoff_fact(
    tables: &mut Tables,
    start: Option<&ToolCallStart>,
    result: &ToolResult,
) -> (r: Option<Json>)
    ensures
        (final(tables)@, content(r)) == fact_captured(
            old(tables)@,
            match start {
                Some(s) => Some(s@),
                None => None,
            },
            result@,
        ),
{
    let start = match start {
        None => {
            return None;
        },
        Some(start) => start,
    };
    let recorder = match &start.logical_invocation_role {
        Some(role) => same(role.as_str(), "recorder"),
        None => false,
    };
    if recorder || result.output.has_text("execution_state", "not_started") || starts_with(
        start.tool_name.as_str(),
        "project_handoff_",
    ) || !(start.write_like || start.shell_like) {
        return None;
    }
    match tables {
        Tables::Absent => None,
        Tables::Failed => Some(note("failed", "outbox_unavailable")),
        Tables::Open(db) => {
            let binding = match db.handoff_binding(start.session_id.as_str()) {
                None => {
                    return None;
                },
                Some(binding) => binding,
            };
            let here = match &start.resolved_project {
                Some(project) => same(project.as_str(), binding.project_id.as_str()),
                None => false,
            };
            if !here {
                return Some(note("failed", "event_project_mismatch"));
            }
            let event = fact(start, result);
            match db.handoff_enqueue(start.session_id.as_str(), &event, start.started_at) {
                Ok(_) => {
                    let members = vec![("status", text_json("pending"))];
                    proof {
                        assert(entries(members@) =~= seq![("status"@, Node::Text("pending"@))]);
                    }
                    Some(object(members))
                },
                Err(_) => {
                    db.handoff_capture_gap(start.session_id.as_str());
                    Some(note("failed", "fact_not_saved"))
                },
            }
        },
    }
}

// ---------------------------------------------------------------------------
// Admission of work.
// ---------------------------------------------------------------------------

pub open spec fn not_started() -> Node {
    record(seq![("execution_state"@, Node::Text("not_started"@))])
}

fn never_started() -> (r: Json)
    ensures
        r@ == not_started(),
{
    let members = vec![("execution_state", text_json("not_started"))];
    proof {
        assert(entries(members@) =~= seq![("execution_state"@, Node::Text("not_started"@))]);
    }
    object(members)
}

/// Whether the tables let work of a session go on.
pub open spec fn fence_check(t: TablesView, session: Option<Seq<char>>) -> Result<(), ToolView> {
    match session {
        None => Ok(()),
        Some(s) => match t {
            TablesView::Absent => Ok(()),
            TablesView::Failed => Err(tool_err("handoff_binding_unavailable"@)),
            TablesView::Open(db) => match binding_for(db.bindings, s) {
                None => Ok(()),
                Some(b) => if fenced(db.retirements, b) {
                    Err(tool_err_with("handoff_task_retired_or_retiring"@, not_started()))
                } else {
                    Ok(())
                },
            },
        },
    }
}

/// The view of a check.
pub open spec fn check_view(r: Result<(), ToolResult>) -> Result<(), ToolView> {
    match r {
        Ok(_) => Ok(()),
        Err(e) => Err(e@),
    }
}

/// Whether the tables let work of a session go on.
pub fn check_fence(tables: &Tables, session: Option<&str>) -> (r: Result<(), ToolResult>)
    ensures
        check_view(r) == fence_check(tables@, optional_text(session)),
{
    let session = match session {
        None => {
            return Ok(());
        },
        Some(session) => session,
    };
    match tables {
        Tables::Absent => Ok(()),
        Tables::Failed => Err(ToolResult::err("handoff_binding_unavailable")),
        Tables::Open(db) => match db.handoff_binding(session) {
            None => Ok(()),
            Some(binding) => if db.handoff_retirement_started(&binding) {
                Err(
                    ToolResult::err_with_output(
                        "handoff_task_retired_or_retiring",
                        never_started(),
                    ),
                )
            } else {
                Ok(())
            },
        },
    }
}

/// Whether the session is bound to the project's selected task.
pub open spec fn selected(
    t: TablesView,
    p: ResolvedView,
    session: Option<Seq<char>>,
    state: Node,
) -> bool {
    match (t, session) {
        (TablesView::Open(db), Some(s)) => match binding_for(db.bindings, s) {
            Some(b) => b.project_id == p.resolved_id && b.project_path == p.path && b.client_id
                == p.client_id && state.at("bound_task_id"@) == Node::Text(b.task_id),
            None => false,
        },
        _ => false,
    }
}

pub open spec fn selection_required() -> ToolView {
    tool_err_with(
        "handoff_task_selection_required: use project_handoff_read and explicitly bind the intended task before retrying"@,
        record(
            seq![
                ("error_kind"@, Node::Text("handoff_task_selection_required"@)),
                ("execution_state"@, Node::Text("not_started"@)),
            ],
        ),
    )
}

/// Whether work may start, once the runner said what is selected.
pub open spec fn admitted(
    t: TablesView,
    p: ResolvedView,
    session: Option<Seq<char>>,
    reply: Result<Node, Seq<char>>,
) -> Result<(), ToolView> {
    match reply {
        Err(_) => Err(
            tool_err(
                "handoff_state_unavailable: cannot confirm task attribution before execution"@,
            ),
        ),
        Ok(state) => if state.at("enabled"@) != Node::Bool(true) {
            Ok(())
        } else if selected(t, p, session, state) {
            Ok(())
        } else {
            Err(selection_required())
        },
    }
}

/// Whether work may start, once the runner said what is selected. The fence is
/// checked first, and a runner without handoffs is not asked.
pub fn handoff_admission(
    tables: &Tables,
    project: &ResolvedProject,
    session: Option<&str>,
    reply: &Result<Json, String>,
) -> (r: Result<(), ToolResult>)
    ensures
        check_view(r) == admitted(
            tables@,
            project@,
            optional_text(session),
            reply_view(*reply),
        ),
{
    let state = match reply {
        Err(_) => {
            return Err(
                ToolResult::err(
                    "handoff_state_unavailable: cannot confirm task attribution before execution",
                ),
            );
        },
        Ok(state) => state,
    };
    if !state.has_bool("enabled", true) {
        return Ok(());
    }
    let binding = match (tables, session) {
        (Tables::Open(db), Some(s)) => db.handoff_binding(s),
        _ => None,
    };
    let chosen = match &binding {
        Some(b) => same(b.project_id.as_str(), project.resolved_id.as_str()) && same(
            b.project_path.as_str(),
            project.path.as_str(),
        ) && same(b.client_id.as_str(), project.client_id.as_str()) && state.has_text(
            "bound_task_id",
            b.task_id.as_str(),
        ),
        None => false,
    };
    if chosen {
        return Ok(());
    }
    let members = vec![
        ("error_kind", text_json("handoff_task_selection_required")),
        ("execution_state", text_json("not_started")),
    ];
    proof {
        assert(entries(members@) =~= seq![
            ("error_kind"@, Node::Text("handoff_task_selection_required"@)),
            ("execution_state"@, Node::Text("not_started"@)),
        ]);
    }
    Err(
        ToolResult::err_with_output(
            "handoff_task_selection_required: use project_handoff_read and explicitly bind the intended task before retrying",
            object(members),
        ),
    )
}

} // verus!
