//! One handoff call of a model: which requests go to the runner, in which order
//! with the delivery tables, and how the call is answered.
use vstd::prelude::*;
use crate::codec::{alike};
use crate::commit::{Write};
use crate::failure::{content};
use crate::flush::{Flush};
use crate::json::{Json, Node, entries, nodes, object, record, text_json};
use crate::outbox::{ScopeView};
use crate::request::{Binding};
use crate::server::{
    Tables, TablesView, add_handoff_source_status, ask_read, ask_status, client_key,
    deliveries_of, is_reply, key_of, not_started, read_request, reply_view, status_request,
    with_source,
};
use crate::store::{BoundView, DatabaseView, HandoffBinding, bound, cancelled, retired};
use crate::table::{assigned, lookup};
use crate::text::{listed, names, owned, same};
use crate::tool::{
    ResolvedProject, ResolvedView, ToolResult, ToolView, checkpoint_fingerprint, fingerprint_in,
    tool_err, tool_err_with, tool_ok, with_member,
};

verus! {

/// A handoff call.
#[allow(inconsistent_fields)]
#[derive(Debug)]
pub enum HandoffCall {
    Read { project: String, task_id: Option<String>, session_id: Option<String> },
    Write { project: String, session_id: String, request: Json },
}

#[allow(inconsistent_fields)]
pub enum CallView {
    Read { project: Seq<char>, task_id: Option<Seq<char>>, session_id: Option<Seq<char>> },
    Write { project: Seq<char>, session_id: Seq<char>, request: Node },
}

impl View for HandoffCall {
    type V = CallView;

    open spec fn view(&self) -> CallView {
        match self {
            HandoffCall::Read { project, task_id, session_id } => CallView::Read {
                project: project@,
                task_id: content(*task_id),
                session_id: content(*session_id),
            },
            HandoffCall::Write { project, session_id, request } => CallView::Write {
                project: project@,
                session_id: session_id@,
                request: request@,
            },
        }
    }
}

/// Where a call stands: what it waits for.
#[allow(inconsistent_fields)]
#[derive(Clone, Debug)]
pub enum Dispatch {
    /// The resolution of its project.
    Resolving { session: Option<String>, write: bool, request: Json },
    /// The checkpoint of the task that a session selects.
    Binding { session: String, project: ResolvedProject, task_id: String, request: Json },
    /// The reply to its request.
    Sending { session: Option<String>, project: ResolvedProject, write: bool, request: Json },
    /// The delivery of what waits for a task that was just selected.
    Flushing { project: ResolvedProject, output: Json },
    /// The exclusive gate of archival.
    Gating { project: ResolvedProject, request: Json },
    /// The number of active jobs.
    Counting { project: ResolvedProject, request: Json, task_id: String },
    /// The checkpoint of the task to archive.
    Reviewing { project: ResolvedProject, request: Json, task_id: String },
    /// The confirmation of the archival.
    Retiring { identity: HandoffBinding, archived: bool },
    /// Nothing more.
    Finished,
}

#[allow(inconsistent_fields)]
pub enum DispatchView {
    Resolving { session: Option<Seq<char>>, write: bool, request: Node },
    Binding { session: Seq<char>, project: ResolvedView, task_id: Seq<char>, request: Node },
    Sending { session: Option<Seq<char>>, project: ResolvedView, write: bool, request: Node },
    Flushing { project: ResolvedView, output: Node },
    Gating { project: ResolvedView, request: Node },
    Counting { project: ResolvedView, request: Node, task_id: Seq<char> },
    Reviewing { project: ResolvedView, request: Node, task_id: Seq<char> },
    Retiring { identity: BoundView, archived: bool },
    Finished,
}

impl View for Dispatch {
    type V = DispatchView;

    open spec fn view(&self) -> DispatchView {
        match self {
            Dispatch::Resolving { session, write, request } => DispatchView::Resolving {
                session: content(*session),
                write: *write,
                request: request@,
            },
            Dispatch::Binding { session, project, task_id, request } => DispatchView::Binding {
                session: session@,
                project: project@,
                task_id: task_id@,
                request: request@,
            },
            Dispatch::Sending { session, project, write, request } => DispatchView::Sending {
                session: content(*session),
                project: project@,
                write: *write,
                request: request@,
            },
            Dispatch::Flushing { project, output } => DispatchView::Flushing {
                project: project@,
                output: output@,
            },
            Dispatch::Gating { project, request } => DispatchView::Gating {
                project: project@,
                request: request@,
            },
            Dispatch::Counting { project, request, task_id } => DispatchView::Counting {
                project: project@,
                request: request@,
                task_id: task_id@,
            },
            Dispatch::Reviewing { project, request, task_id } => DispatchView::Reviewing {
                project: project@,
                request: request@,
                task_id: task_id@,
            },
            Dispatch::Retiring { identity, archived } => DispatchView::Retiring {
                identity: identity@,
                archived: *archived,
            },
            Dispatch::Finished => DispatchView::Finished,
        }
    }
}

/// What has to be done next.
#[derive(Debug)]
pub enum DispatchStep {
    /// Resolve the project for the caller.
    Resolve(String),
    /// Take the exclusive gate of archival, without waiting.
    Gate,
    /// Count the active jobs of the project.
    CountJobs(ResolvedProject),
    /// Send a request to the runner.
    Ask { project: ResolvedProject, write: bool, request: Json },
    /// Deliver what waits for the session's task.
    Flush(String),
    /// Answer the call.
    Answer(ToolResult),
}

pub enum DispatchStepView {
    Resolve(Seq<char>),
    Gate,
    CountJobs(ResolvedView),
    Ask { project: ResolvedView, write: bool, request: Node },
    Flush(Seq<char>),
    Answer(ToolView),
}

impl View for DispatchStep {
    type V = DispatchStepView;

    open spec fn view(&self) -> DispatchStepView {
        match self {
            DispatchStep::Resolve(project) => DispatchStepView::Resolve(project@),
            DispatchStep::Gate => DispatchStepView::Gate,
            DispatchStep::CountJobs(project) => DispatchStepView::CountJobs(project@),
            DispatchStep::Ask { project, write, request } => DispatchStepView::Ask {
                project: project@,
                write: *write,
                request: request@,
            },
            DispatchStep::Flush(session) => DispatchStepView::Flush(session@),
            DispatchStep::Answer(result) => DispatchStepView::Answer(result@),
        }
    }
}

/// What came of it.
#[derive(Debug)]
pub enum DispatchEvent {
    Resolved(Result<ResolvedProject, ToolResult>),
    Gated(bool),
    Jobs(u64),
    Replied(Result<Json, String>),
    Flushed(Json),
}

pub enum DispatchEventView {
    Resolved(Result<ResolvedView, ToolView>),
    Gated(bool),
    Jobs(u64),
    Replied(Result<Node, Seq<char>>),
    Flushed(Node),
}

impl View for DispatchEvent {
    type V = DispatchEventView;

    open spec fn view(&self) -> DispatchEventView {
        match self {
            DispatchEvent::Resolved(r) => DispatchEventView::Resolved(
                match r {
                    Ok(p) => Ok(p@),
                    Err(e) => Err(e@),
                },
            ),
            DispatchEvent::Gated(b) => DispatchEventView::Gated(*b),
            DispatchEvent::Jobs(n) => DispatchEventView::Jobs(*n),
            DispatchEvent::Replied(r) => DispatchEventView::Replied(reply_view(*r)),
            DispatchEvent::Flushed(j) => DispatchEventView::Flushed(j@),
        }
    }
}

// ---------------------------------------------------------------------------
// The call.
// ---------------------------------------------------------------------------

/// The entries that a model may write: notes and explicit judgments.
pub open spec fn authored_types() -> Seq<Seq<char>> {
    seq![
        "note_added"@,
        "stage_started"@,
        "stage_finished"@,
        "task_completed"@,
        "task_blocked"@,
    ]
}

/// An event that a model wrote, with its source.
pub open spec fn authored(event: Node) -> Result<Node, Seq<char>> {
    match event {
        Node::Record(fields) => match lookup(fields, "type"@) {
            Some(Node::Text(t)) => if authored_types().contains(t) {
                Ok(Node::Record(assigned(fields, "source"@, Node::Text("gpt"@))))
            } else {
                Err("model-authored handoff entries must be notes or explicit task judgments"@)
            },
            _ => Err("model-authored handoff entries must be notes or explicit task judgments"@),
        },
        _ => Err("invalid_handoff_event"@),
    }
}

/// The request that goes to the runner for a write: its client is that of the
/// session, and its event is marked as the model's.
pub open spec fn server_request(session: Seq<char>, request: Node) -> Result<Node, Seq<char>> {
    match request {
        Node::Record(fields) => if lookup(fields, "client_id"@) is Some || lookup(
            fields,
            "binding"@,
        ) is Some {
            Err("handoff client identity is Server-owned"@)
        } else {
            let marked = match lookup(fields, "event"@) {
                None => Ok(fields),
                Some(event) => match authored(event) {
                    Err(e) => Err(e),
                    Ok(event) => Ok(assigned(fields, "event"@, event)),
                },
            };
            match marked {
                Err(e) => Err(e),
                Ok(fields) => if lookup(fields, "action"@) == Some(Node::Text("bind"@)) {
                    Ok(
                        Node::Record(
                            assigned(fields, "client_id"@, Node::Text(key_of(session))),
                        ),
                    )
                } else {
                    Ok(Node::Record(fields))
                },
            }
        },
        _ => Err("invalid_handoff_request"@),
    }
}

/// A call at its start.
pub open spec fn started(call: CallView) -> (DispatchView, DispatchStepView) {
    match call {
        CallView::Read { project, task_id, session_id } => (
            DispatchView::Resolving {
                session: session_id,
                write: false,
                request: match task_id {
                    Some(task) => read_request(task),
                    None => status_request(session_id),
                },
            },
            DispatchStepView::Resolve(project),
        ),
        CallView::Write { project, session_id, request } => match server_request(
            session_id,
            request,
        ) {
            Err(e) => (DispatchView::Finished, DispatchStepView::Answer(tool_err(e))),
            Ok(request) => (
                DispatchView::Resolving { session: Some(session_id), write: true, request },
                DispatchStepView::Resolve(project),
            ),
        },
    }
}

fn mark_authored(event: &Json) -> (r: Result<Json, &'static str>)
    ensures
        match r {
            Ok(j) => authored(event@) == Ok::<_, Seq<char>>(j@),
            Err(e) => authored(event@) == Err::<Node, _>(e@),
        },
{
    if event.as_object().is_none() {
        return Err("invalid_handoff_event");
    }
    let allowed = vec![
        "note_added",
        "stage_started",
        "stage_finished",
        "task_completed",
        "task_blocked",
    ];
    proof {
        assert(names(allowed@) =~= authored_types());
    }
    let known = match event.text_at("type") {
        Some(t) => listed(&allowed, t),
        None => false,
    };
    if !known {
        return Err("model-authored handoff entries must be notes or explicit task judgments");
    }
    let mut marked = event.copy();
    marked.set_member("source", text_json("gpt"));
    Ok(marked)
}

fn own_request(session: &str, request: Json) -> (r: Result<Json, &'static str>)
    ensures
        match r {
            Ok(j) => server_request(session@, request@) == Ok::<_, Seq<char>>(j@),
            Err(e) => server_request(session@, request@) == Err::<Node, _>(e@),
        },
{
    let mut request = request;
    if request.as_object().is_none() {
        return Err("invalid_handoff_request");
    }
    if request.get("client_id").is_some() || request.get("binding").is_some() {
        return Err("handoff client identity is Server-owned");
    }
    let marked = match request.get("event") {
        None => None,
        Some(event) => match mark_authored(event) {
            Err(e) => {
                return Err(e);
            },
            Ok(event) => Some(event),
        },
    };
    match marked {
        Some(event) => request.set_member("event", event),
        None => {},
    }
    if request.has_text("action", "bind") {
        request.set_member("client_id", text_json(client_key(session).as_str()));
    }
    Ok(request)
}

/// A call at its start.
pub fn start_dispatch(call: HandoffCall) -> (r: (Dispatch, DispatchStep))
    ensures
        (r.0@, r.1@) == started(call@),
{
    match call {
        HandoffCall::Read { project, task_id, session_id } => {
            let request = match &task_id {
                Some(task) => ask_read(task.as_str()),
                None => ask_status(
                    match &session_id {
                        Some(s) => Some(s.as_str()),
                        None => None,
                    },
                ),
            };
            (
                Dispatch::Resolving { session: session_id, write: false, request },
                DispatchStep::Resolve(project),
            )
        },
        HandoffCall::Write { project, session_id, request } => {
            match own_request(session_id.as_str(), request) {
                Err(e) => (Dispatch::Finished, DispatchStep::Answer(ToolResult::err(e))),
                Ok(request) => (
                    Dispatch::Resolving { session: Some(session_id), write: true, request },
                    DispatchStep::Resolve(project),
                ),
            }
        },
    }
}

// ---------------------------------------------------------------------------
// The steps.
// ---------------------------------------------------------------------------

/// The tables after an attempt to bind, and whether it was saved.
pub open spec fn tables_bound(t: TablesView, b: BoundView) -> (TablesView, bool) {
    match t {
        TablesView::Open(db) => (TablesView::Open(bound(db, b).0), bound(db, b).1 is Ok),
        _ => (t, false),
    }
}

/// The tables after an attempt to freeze or retire, and whether it was saved.
pub open spec fn tables_retired(t: TablesView, b: BoundView, finish: bool) -> (TablesView, bool) {
    match t {
        TablesView::Open(db) => (
            TablesView::Open(retired(db, b, finish).0),
            retired(db, b, finish).1 is Ok,
        ),
        _ => (t, false),
    }
}

/// The tables after an attempt to lift a freeze, and whether it was saved.
pub open spec fn tables_lifted(t: TablesView, b: BoundView) -> (TablesView, bool) {
    match t {
        TablesView::Open(db) => (
            TablesView::Open(
                DatabaseView {
                    retirements: cancelled(db.retirements, b, db.retirements.len()),
                    ..db
                },
            ),
            true,
        ),
        _ => (t, false),
    }
}

impl Tables {
    fn bind(&mut self, b: &HandoffBinding) -> (r: bool)
        ensures
            (final(self)@, r) == tables_bound(old(self)@, b@),
    {
        match self {
            Tables::Open(db) => db.handoff_bind(b).is_ok(),
            _ => false,
        }
    }

    fn retire(&mut self, b: &HandoffBinding, finish: bool) -> (r: bool)
        ensures
            (final(self)@, r) == tables_retired(old(self)@, b@, finish),
    {
        match self {
            Tables::Open(db) => db.handoff_retire(b, finish).is_ok(),
            _ => false,
        }
    }

    fn lift(&mut self, b: &HandoffBinding) -> (r: bool)
        ensures
            (final(self)@, r) == tables_lifted(old(self)@, b@),
    {
        match self {
            Tables::Open(db) => {
                db.handoff_cancel_retirement(b);
                true
            },
            _ => false,
        }
    }
}

/// The delivery target of a task.
pub open spec fn target_identity(
    session: Seq<char>,
    p: ResolvedView,
    task: Seq<char>,
    fingerprint: Seq<char>,
) -> BoundView {
    BoundView {
        session_id: session,
        project_id: p.resolved_id,
        client_id: p.client_id,
        project_path: p.path,
        task_id: task,
        root_fingerprint: fingerprint,
    }
}

fn identity_for(
    session: &str,
    project: &ResolvedProject,
    task_id: &str,
    fingerprint: &str,
) -> (r: HandoffBinding)
    ensures
        r@ == target_identity(session@, project@, task_id@, fingerprint@),
{
    HandoffBinding {
        session_id: owned(session),
        project_id: project.resolved_id.clone(),
        client_id: project.client_id.clone(),
        project_path: project.path.clone(),
        task_id: owned(task_id),
        root_fingerprint: owned(fingerprint),
    }
}

/// Whether a checkpoint is one to archive: at the expected revision, completed,
/// without unknown facts, and with every job ended.
pub open spec fn is_settled(checkpoint: Node, request: Node) -> bool {
    &&& alike(checkpoint.at("revision"@), request.at("expected_revision"@))
    &&& checkpoint.at("checkpoint"@).at("status"@) == Node::Text("completed"@)
    &&& checkpoint.at("checkpoint"@).at("unknown_count"@).signed() == Some(0i64)
    &&& checkpoint.at("jobs_truncated"@) != Node::Bool(true)
    &&& checkpoint.at("jobs"@) matches Node::List(jobs) && forall|i: int|
        0 <= i < jobs.len() ==> (#[trigger] jobs[i]).at("terminal"@) == Node::Bool(true)
}

#[verifier::loop_isolation(false)]
fn all_jobs_ended(checkpoint: &Json) -> (r: bool)
    ensures
        r == (checkpoint@.at("jobs"@) matches Node::List(jobs) && forall|i: int|
            0 <= i < jobs.len() ==> (#[trigger] jobs[i]).at("terminal"@) == Node::Bool(true)),
{
    let jobs = match checkpoint.get("jobs") {
        None => {
            return false;
        },
        Some(v) => match v.as_array() {
            None => {
                return false;
            },
            Some(jobs) => jobs,
        },
    };
    let ghost all = nodes(jobs@);
    let mut i: usize = 0;
    while i < jobs.len()
        invariant
            i <= jobs@.len(),
            forall|j: int| 0 <= j < i ==> (#[trigger] all[j]).at("terminal"@) == Node::Bool(true),
        decreases jobs@.len() - i,
    {
        proof {
            assert(all[i as int] == jobs@[i as int]@);
        }
        if !jobs[i].has_bool("terminal", true) {
            return false;
        }
        i += 1;
    }
    true
}

fn settled_for(checkpoint: &Json, request: &Json) -> (r: bool)
    ensures
        r == is_settled(checkpoint@, request@),
{
    let task = checkpoint.copy_at("checkpoint");
    let unknown = match task.get("unknown_count") {
        Some(v) => v.as_i64(),
        None => None,
    };
    let certain = match unknown {
        Some(n) => n == 0,
        None => false,
    };
    checkpoint.copy_at("revision").equals(&request.copy_at("expected_revision")) && task.has_text(
        "status",
        "completed",
    ) && certain && !checkpoint.has_bool("jobs_truncated", true) && all_jobs_ended(checkpoint)
}

pub open spec fn retry_hint() -> Node {
    Node::Text("read exact task and retry archive; do not replay business work"@)
}

/// A step that ends the call.
pub open spec fn ended(result: ToolView, t: TablesView) -> (
    DispatchView,
    DispatchStepView,
    TablesView,
) {
    (DispatchView::Finished, DispatchStepView::Answer(result), t)
}

/// Once the project is resolved.
pub open spec fn routed(
    session: Option<Seq<char>>,
    write: bool,
    request: Node,
    resolved: Result<ResolvedView, ToolView>,
    t: TablesView,
) -> (DispatchView, DispatchStepView, TablesView) {
    match resolved {
        Err(result) => ended(result, t),
        Ok(p) => if write && !p.allow_patch {
            ended(tool_err("project_handoff_write requires allow_patch=true"@), t)
        } else if write && request.at("action"@) == Node::Text("archive"@) {
            (DispatchView::Gating { project: p, request }, DispatchStepView::Gate, t)
        } else if write && request.at("action"@) == Node::Text("bind"@) {
            if t is Absent {
                ended(tool_err("handoff durable delivery is unavailable"@), t)
            } else {
                match request.at("task_id"@).text() {
                    None => ended(tool_err("handoff bind requires exact task_id"@), t),
                    Some(task_id) => (
                        DispatchView::Binding {
                            session: match session {
                                Some(s) => s,
                                None => ""@,
                            },
                            project: p,
                            task_id,
                            request,
                        },
                        DispatchStepView::Ask {
                            project: p,
                            write: false,
                            request: read_request(task_id),
                        },
                        t,
                    ),
                }
            }
        } else {
            (
                DispatchView::Sending { session, project: p, write, request },
                DispatchStepView::Ask { project: p, write, request },
                t,
            )
        },
    }
}

/// Once the checkpoint of the selected task is read: the binding is saved
/// before the runner is asked to select the task.
pub open spec fn bind_reviewed(
    session: Seq<char>,
    p: ResolvedView,
    task_id: Seq<char>,
    request: Node,
    reply: Result<Node, Seq<char>>,
    t: TablesView,
) -> (DispatchView, DispatchStepView, TablesView) {
    match reply {
        Err(code) => ended(tool_err(code), t),
        Ok(checkpoint) => match fingerprint_in(checkpoint) {
            None => ended(tool_err("handoff project identity unavailable"@), t),
            Some(fingerprint) => {
                let (after, saved) = tables_bound(
                    t,
                    target_identity(session, p, task_id, fingerprint),
                );
                if !saved {
                    ended(tool_err("handoff_binding_not_saved_or_conflicting"@), after)
                } else {
                    (
                        DispatchView::Sending {
                            session: Some(session),
                            project: p,
                            write: true,
                            request,
                        },
                        DispatchStepView::Ask { project: p, write: true, request },
                        after,
                    )
                }
            },
        },
    }
}

/// Once the request is answered.
pub open spec fn sent(
    session: Option<Seq<char>>,
    p: ResolvedView,
    write: bool,
    request: Node,
    reply: Result<Node, Seq<char>>,
    t: TablesView,
) -> (DispatchView, DispatchStepView, TablesView) {
    match reply {
        Ok(output) => if write && request.at("action"@) == Node::Text("bind"@) {
            (
                DispatchView::Flushing { project: p, output },
                DispatchStepView::Flush(
                    match session {
                        Some(s) => s,
                        None => ""@,
                    },
                ),
                t,
            )
        } else {
            ended(tool_ok(with_source(t, p, output)), t)
        },
        Err(code) => ended(
            tool_err_with(
                code,
                record(
                    seq![
                        (
                            "checkpoint_status"@,
                            Node::Text(
                                if code == "handoff_save_unknown"@ {
                                    "unknown"@
                                } else {
                                    "failed"@
                                },
                            ),
                        ),
                        ("error_kind"@, Node::Text(code)),
                    ],
                ),
            ),
            t,
        ),
    }
}

/// Once exclusive access for archival was tried.
pub open spec fn gated(p: ResolvedView, request: Node, taken: bool, t: TablesView) -> (
    DispatchView,
    DispatchStepView,
    TablesView,
) {
    if !taken {
        ended(tool_err_with("handoff_retirement_busy"@, not_started()), t)
    } else if t is Absent {
        ended(tool_err("handoff_delivery_unavailable"@), t)
    } else {
        match request.at("task_id"@).text() {
            None => ended(tool_err("task_id_required"@), t),
            Some(task_id) => (
                DispatchView::Counting { project: p, request, task_id },
                DispatchStepView::CountJobs(p),
                t,
            ),
        }
    }
}

/// Once the active jobs are counted.
pub open spec fn jobs_counted(
    p: ResolvedView,
    request: Node,
    task_id: Seq<char>,
    jobs: u64,
    t: TablesView,
) -> (DispatchView, DispatchStepView, TablesView) {
    if jobs != 0 {
        ended(tool_err("handoff_active_jobs"@), t)
    } else {
        (
            DispatchView::Reviewing { project: p, request, task_id },
            DispatchStepView::Ask { project: p, write: false, request: read_request(task_id) },
            t,
        )
    }
}

/// Once the checkpoint of the task to archive is read: its deliveries are
/// frozen before the runner is asked. A fresh read that proves the task not
/// archived lifts the freeze of an earlier unknown response.
pub open spec fn archive_reviewed(
    p: ResolvedView,
    request: Node,
    task_id: Seq<char>,
    reply: Result<Node, Seq<char>>,
    t: TablesView,
) -> (DispatchView, DispatchStepView, TablesView) {
    match reply {
        Err(code) => ended(tool_err(code), t),
        Ok(checkpoint) => match fingerprint_in(checkpoint) {
            None => ended(tool_err("handoff_identity_unavailable"@), t),
            Some(fingerprint) => {
                let identity = target_identity(""@, p, task_id, fingerprint);
                if !is_settled(checkpoint, request) {
                    if checkpoint.at("archived"@) == Node::Bool(false) {
                        let (after, lifted) = tables_lifted(t, identity);
                        if !lifted {
                            ended(
                                tool_err("handoff_retirement_reconciliation_failed"@),
                                after,
                            )
                        } else {
                            ended(tool_err("handoff_task_unresolved_or_stale"@), after)
                        }
                    } else {
                        ended(tool_err("handoff_task_unresolved_or_stale"@), t)
                    }
                } else {
                    let (after, frozen) = tables_retired(t, identity, false);
                    if !frozen {
                        ended(tool_err("handoff_retirement_unresolved_or_full"@), after)
                    } else {
                        (
                            DispatchView::Retiring {
                                identity,
                                archived: checkpoint.at("archived"@) == Node::Bool(true),
                            },
                            DispatchStepView::Ask { project: p, write: true, request },
                            after,
                        )
                    }
                }
            },
        },
    }
}

/// The scope of one task and file identity.
pub open spec fn identity_scope(b: BoundView) -> ScopeView {
    ScopeView {
        project: b.project_id,
        path: b.project_path,
        task: Some(b.task_id),
        fingerprint: Some(b.root_fingerprint),
    }
}

/// Once the archival is answered. A lost or malformed acknowledgement leaves
/// the freeze; a definite failure of a task that was not archived lifts it.
pub open spec fn archive_answered(
    identity: BoundView,
    archived: bool,
    reply: Result<Node, Seq<char>>,
    t: TablesView,
) -> (DispatchView, DispatchStepView, TablesView) {
    match reply {
        Ok(output) => {
            let (after, done) = tables_retired(t, identity, true);
            if !done {
                ended(
                    tool_err_with(
                        "handoff_retirement_pending"@,
                        record(
                            seq![
                                ("checkpoint"@, output),
                                ("retirement"@, Node::Text("pending"@)),
                                ("retry"@, retry_hint()),
                            ],
                        ),
                    ),
                    after,
                )
            } else {
                let source = deliveries_of(after, identity_scope(identity));
                ended(
                    tool_ok(
                        with_member(
                            with_member(
                                with_member(output, "retirement"@, Node::Text("retired"@)),
                                "source_status"@,
                                source,
                            ),
                            "source_pending_facts"@,
                            source.at("pending"@),
                        ),
                    ),
                    after,
                )
            }
        },
        Err(code) => {
            let definite = code != "handoff_save_unknown"@ && !archived;
            let (after, lifted) = if definite {
                tables_lifted(t, identity)
            } else {
                (t, false)
            };
            ended(
                tool_err_with(
                    code,
                    record(
                        seq![
                            (
                                "retirement"@,
                                Node::Text(
                                    if lifted {
                                        "not_archived"@
                                    } else {
                                        "pending"@
                                    },
                                ),
                            ),
                            ("retry"@, retry_hint()),
                        ],
                    ),
                ),
                after,
            )
        },
    }
}

/// Whether the event is the one that the call waits for.
pub open spec fn awaited(state: DispatchView, event: DispatchEventView) -> bool {
    match (state, event) {
        (DispatchView::Resolving { .. }, DispatchEventView::Resolved(_)) => true,
        (DispatchView::Binding { .. }, DispatchEventView::Replied(r)) => is_reply(r),
        (DispatchView::Sending { .. }, DispatchEventView::Replied(r)) => is_reply(r),
        (DispatchView::Flushing { output, .. }, DispatchEventView::Flushed(_)) => output is Record,
        (DispatchView::Gating { .. }, DispatchEventView::Gated(_)) => true,
        (DispatchView::Counting { .. }, DispatchEventView::Jobs(_)) => true,
        (DispatchView::Reviewing { .. }, DispatchEventView::Replied(r)) => is_reply(r),
        (DispatchView::Retiring { .. }, DispatchEventView::Replied(r)) => is_reply(r),
        _ => false,
    }
}

/// One step of a call: where it stands then, what has to be done, and the
/// tables.
pub open spec fn dispatched(state: DispatchView, event: DispatchEventView, t: TablesView) -> (
    DispatchView,
    DispatchStepView,
    TablesView,
) {
    match (state, event) {
        (
            DispatchView::Resolving { session, write, request },
            DispatchEventView::Resolved(r),
        ) => routed(session, write, request, r, t),
        (
            DispatchView::Binding { session, project, task_id, request },
            DispatchEventView::Replied(r),
        ) => bind_reviewed(session, project, task_id, request, r, t),
        (
            DispatchView::Sending { session, project, write, request },
            DispatchEventView::Replied(r),
        ) => sent(session, project, write, request, r, t),
        (DispatchView::Flushing { project, output }, DispatchEventView::Flushed(persistence)) => ended(
            tool_ok(
                with_source(t, project, with_member(output, "checkpoint_persistence"@, persistence)),
            ),
            t,
        ),
        (DispatchView::Gating { project, request }, DispatchEventView::Gated(taken)) => gated(
            project,
            request,
            taken,
            t,
        ),
        (
            DispatchView::Counting { project, request, task_id },
            DispatchEventView::Jobs(jobs),
        ) => jobs_counted(project, request, task_id, jobs, t),
        (
            DispatchView::Reviewing { project, request, task_id },
            DispatchEventView::Replied(r),
        ) => archive_reviewed(project, request, task_id, r, t),
        (
            DispatchView::Retiring { identity, archived },
            DispatchEventView::Replied(r),
        ) => archive_answered(identity, archived, r, t),
        _ => (DispatchView::Finished, DispatchStepView::Gate, t),
    }
}

impl ResolvedProject {
    pub fn copy(&self) -> (r: ResolvedProject)
        ensures
            r@ == self@,
    {
        ResolvedProject {
            resolved_id: self.resolved_id.clone(),
            client_id: self.client_id.clone(),
            path: self.path.clone(),
            allow_patch: self.allow_patch,
        }
    }
}

fn end(result: ToolResult) -> (r: (Dispatch, DispatchStep))
    ensures
        r.0@ == DispatchView::Finished,
        r.1@ == DispatchStepView::Answer(result@),
{
    (Dispatch::Finished, DispatchStep::Answer(result))
}

fn route(
    session: Option<String>,
    write: bool,
    request: Json,
    resolved: Result<ResolvedProject, ToolResult>,
    tables: &Tables,
) -> (r: (Dispatch, DispatchStep))
    ensures
        (r.0@, r.1@, tables@) == routed(
            content(session),
            write,
            request@,
            match resolved {
                Ok(p) => Ok(p@),
                Err(e) => Err(e@),
            },
            tables@,
        ),
{
    let project = match resolved {
        Err(result) => {
            return end(result);
        },
        Ok(project) => project,
    };
    if write && !project.allow_patch {
        return end(ToolResult::err("project_handoff_write requires allow_patch=true"));
    }
    if write && request.has_text("action", "archive") {
        return (Dispatch::Gating { project, request }, DispatchStep::Gate);
    }
    if write && request.has_text("action", "bind") {
        match tables {
            Tables::Absent => {
                return end(ToolResult::err("handoff durable delivery is unavailable"));
            },
            _ => {},
        }
        let task_id = match request.text_at("task_id") {
            None => {
                return end(ToolResult::err("handoff bind requires exact task_id"));
            },
            Some(task_id) => owned(task_id),
        };
        let asked = project.copy();
        let read = ask_read(task_id.as_str());
        let session = match session {
            Some(s) => s,
            None => owned(""),
        };
        return (
            Dispatch::Binding { session, project, task_id, request },
            DispatchStep::Ask { project: asked, write: false, request: read },
        );
    }
    let asked = project.copy();
    let sending = request.copy();
    (
        Dispatch::Sending { session, project, write, request },
        DispatchStep::Ask { project: asked, write, request: sending },
    )
}

fn review_bind(
    session: String,
    project: ResolvedProject,
    task_id: String,
    request: Json,
    reply: Result<Json, String>,
    tables: &mut Tables,
) -> (r: (Dispatch, DispatchStep))
    ensures
        (r.0@, r.1@, final(tables)@) == bind_reviewed(
            session@,
            project@,
            task_id@,
            request@,
            reply_view(reply),
            old(tables)@,
        ),
{
    let checkpoint = match reply {
        Err(code) => {
            return end(ToolResult::err(code.as_str()));
        },
        Ok(checkpoint) => checkpoint,
    };
    let binding = match checkpoint_fingerprint(&checkpoint) {
        None => {
            return end(ToolResult::err("handoff project identity unavailable"));
        },
        Some(fingerprint) => identity_for(
            session.as_str(),
            &project,
            task_id.as_str(),
            fingerprint,
        ),
    };
    if !tables.bind(&binding) {
        return end(ToolResult::err("handoff_binding_not_saved_or_conflicting"));
    }
    let asked = project.copy();
    let sending = request.copy();
    (
        Dispatch::Sending { session: Some(session), project, write: true, request },
        DispatchStep::Ask { project: asked, write: true, request: sending },
    )
}

fn answer_sent(
    session: Option<String>,
    project: ResolvedProject,
    write: bool,
    request: Json,
    reply: Result<Json, String>,
    tables: &Tables,
) -> (r: (Dispatch, DispatchStep))
    requires
        is_reply(reply_view(reply)),
    ensures
        (r.0@, r.1@, tables@) == sent(
            content(session),
            project@,
            write,
            request@,
            reply_view(reply),
            tables@,
        ),
{
    match reply {
        Ok(output) => {
            if write && request.has_text("action", "bind") {
                let session = match session {
                    Some(s) => s,
                    None => owned(""),
                };
                return (Dispatch::Flushing { project, output }, DispatchStep::Flush(session));
            }
            let mut output = output;
            add_handoff_source_status(tables, &project, &mut output);
            end(ToolResult::ok(output))
        },
        Err(code) => {
            let status = if same(code.as_str(), "handoff_save_unknown") {
                "unknown"
            } else {
                "failed"
            };
            let members = vec![
                ("checkpoint_status", text_json(status)),
                ("error_kind", text_json(code.as_str())),
            ];
            proof {
                assert(entries(members@) =~= seq![
                    (
                        "checkpoint_status"@,
                        Node::Text(
                            if code@ == "handoff_save_unknown"@ {
                                "unknown"@
                            } else {
                                "failed"@
                            },
                        ),
                    ),
                    ("error_kind"@, Node::Text(code@)),
                ]);
            }
            end(ToolResult::err_with_output(code.as_str(), object(members)))
        },
    }
}

fn enter_gate(project: ResolvedProject, request: Json, taken: bool, tables: &Tables) -> (r: (
    Dispatch,
    DispatchStep,
))
    ensures
        (r.0@, r.1@, tables@) == gated(project@, request@, taken, tables@),
{
    if !taken {
        let members = vec![("execution_state", text_json("not_started"))];
        proof {
            assert(entries(members@) =~= seq![("execution_state"@, Node::Text("not_started"@))]);
        }
        return end(ToolResult::err_with_output("handoff_retirement_busy", object(members)));
    }
    match tables {
        Tables::Absent => {
            return end(ToolResult::err("handoff_delivery_unavailable"));
        },
        _ => {},
    }
    let task_id = match request.text_at("task_id") {
        None => {
            return end(ToolResult::err("task_id_required"));
        },
        Some(task_id) => owned(task_id),
    };
    let counted = project.copy();
    (Dispatch::Counting { project, request, task_id }, DispatchStep::CountJobs(counted))
}

fn review_archive(
    project: ResolvedProject,
    request: Json,
    task_id: String,
    reply: Result<Json, String>,
    tables: &mut Tables,
) -> (r: (Dispatch, DispatchStep))
    ensures
        (r.0@, r.1@, final(tables)@) == archive_reviewed(
            project@,
            request@,
            task_id@,
            reply_view(reply),
            old(tables)@,
        ),
{
    let checkpoint = match reply {
        Err(code) => {
            return end(ToolResult::err(code.as_str()));
        },
        Ok(checkpoint) => checkpoint,
    };
    let identity = match checkpoint_fingerprint(&checkpoint) {
        None => {
            return end(ToolResult::err("handoff_identity_unavailable"));
        },
        Some(fingerprint) => identity_for("", &project, task_id.as_str(), fingerprint),
    };
    if !settled_for(&checkpoint, &request) {
        if checkpoint.has_bool("archived", false) {
            if !tables.lift(&identity) {
                return end(ToolResult::err("handoff_retirement_reconciliation_failed"));
            }
        }
        return end(ToolResult::err("handoff_task_unresolved_or_stale"));
    }
    if !tables.retire(&identity, false) {
        return end(ToolResult::err("handoff_retirement_unresolved_or_full"));
    }
    let archived = checkpoint.has_bool("archived", true);
    (
        Dispatch::Retiring { identity, archived },
        DispatchStep::Ask { project, write: true, request },
    )
}

fn answer_archive(
    identity: HandoffBinding,
    archived: bool,
    reply: Result<Json, String>,
    tables: &mut Tables,
) -> (r: (Dispatch, DispatchStep))
    requires
        is_reply(reply_view(reply)),
    ensures
        (r.0@, r.1@, final(tables)@) == archive_answered(
            identity@,
            archived,
            reply_view(reply),
            old(tables)@,
        ),
{
    match reply {
        Ok(output) => {
            let mut output = output;
            let ghost shown = output@;
            if !tables.retire(&identity, true) {
                let members = vec![
                    ("checkpoint", output),
                    ("retirement", text_json("pending")),
                    (
                        "retry",
                        text_json("read exact task and retry archive; do not replay business work"),
                    ),
                ];
                proof {
                    assert(entries(members@) =~= seq![
                        ("checkpoint"@, shown),
                        ("retirement"@, Node::Text("pending"@)),
                        ("retry"@, retry_hint()),
                    ]);
                }
                return end(
                    ToolResult::err_with_output("handoff_retirement_pending", object(members)),
                );
            }
            let source = tables.known_of(&identity);
            let waiting = source.copy_at("pending");
            output.set_member("retirement", text_json("retired"));
            output.set_member("source_status", source);
            output.set_member("source_pending_facts", waiting);
            end(ToolResult::ok(output))
        },
        Err(code) => {
            let definite = !same(code.as_str(), "handoff_save_unknown") && !archived;
            let lifted = if definite {
                tables.lift(&identity)
            } else {
                false
            };
            let state = if lifted {
                "not_archived"
            } else {
                "pending"
            };
            let members = vec![
                ("retirement", text_json(state)),
                (
                    "retry",
                    text_json("read exact task and retry archive; do not replay business work"),
                ),
            ];
            proof {
                assert(entries(members@) =~= seq![
                    (
                        "retirement"@,
                        Node::Text(
                            if lifted {
                                "not_archived"@
                            } else {
                                "pending"@
                            },
                        ),
                    ),
                    ("retry"@, retry_hint()),
                ]);
            }
            end(ToolResult::err_with_output(code.as_str(), object(members)))
        },
    }
}

impl Tables {
    fn known_of(&self, b: &HandoffBinding) -> (r: Json)
        ensures
            r@ == deliveries_of(self@, identity_scope(b@)),
    {
        self.source(
            b.project_id.as_str(),
            b.project_path.as_str(),
            Some(b.task_id.as_str()),
            Some(b.root_fingerprint.as_str()),
        )
    }
}

/// One step of a call.
pub fn dispatch_project_handoff(
    state: Dispatch,
    event: DispatchEvent,
    tables: &mut Tables,
) -> (r: (Dispatch, DispatchStep))
    requires
        awaited(state@, event@),
    ensures
        (r.0@, r.1@, final(tables)@) == dispatched(state@, event@, old(tables)@),
{
    match (state, event) {
        (
            Dispatch::Resolving { session, write, request },
            DispatchEvent::Resolved(resolved),
        ) => route(session, write, request, resolved, tables),
        (
            Dispatch::Binding { session, project, task_id, request },
            DispatchEvent::Replied(reply),
        ) => review_bind(session, project, task_id, request, reply, tables),
        (
            Dispatch::Sending { session, project, write, request },
            DispatchEvent::Replied(reply),
        ) => answer_sent(session, project, write, request, reply, tables),
        (Dispatch::Flushing { project, output }, DispatchEvent::Flushed(persistence)) => {
            let mut output = output;
            output.set_member("checkpoint_persistence", persistence);
            add_handoff_source_status(tables, &project, &mut output);
            end(ToolResult::ok(output))
        },
        (Dispatch::Gating { project, request }, DispatchEvent::Gated(taken)) => enter_gate(
            project,
            request,
            taken,
            tables,
        ),
        (Dispatch::Counting { project, request, task_id }, DispatchEvent::Jobs(jobs)) => {
            if jobs != 0 {
                return end(ToolResult::err("handoff_active_jobs"));
            }
            let asked = project.copy();
            let read = ask_read(task_id.as_str());
            (
                Dispatch::Reviewing { project, request, task_id },
                DispatchStep::Ask { project: asked, write: false, request: read },
            )
        },
        (
            Dispatch::Reviewing { project, request, task_id },
            DispatchEvent::Replied(reply),
        ) => review_archive(project, request, task_id, reply, tables),
        (Dispatch::Retiring { identity, archived }, DispatchEvent::Replied(reply)) => answer_archive(
            identity,
            archived,
            reply,
            tables,
        ),
        _ => (Dispatch::Finished, DispatchStep::Gate),
    }
}

} // verus!
