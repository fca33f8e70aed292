//! Delivering what waits for a task: only while the session, its scope, the
//! project and the local choice still authorize the exact target.
use vstd::prelude::*;
use crate::failure::{content, views};
use crate::json::{Json, Node, entries, object, record, text_json};
use crate::outbox::{acknowledged, pending_for};
use crate::server::{
    Tables, TablesView, append_request, ask_append, ask_read, ask_status, capture_note,
    read_request, reply_view, status_request,
};
use crate::store::{
    BoundView, DatabaseView, HandoffBinding, HandoffPendingEvent, PendingView, binding_for,
};
use crate::text::{owned, same};
use crate::tool::{ResolvedProject, ResolvedView, checkpoint_fingerprint, fingerprint_in};

verus! {

/// Where a delivery stands: what it waits for.
#[derive(Clone, Debug)]
pub enum Flush {
    /// Whether the session may write at all.
    Authorizing { session: String, binding: HandoffBinding },
    /// The resolution of the bound project.
    Resolving { session: String, binding: HandoffBinding },
    /// What the runner says is selected.
    Selecting { binding: HandoffBinding, project: ResolvedProject },
    /// The current checkpoint, for the event at `at`.
    Reading {
        binding: HandoffBinding,
        project: ResolvedProject,
        items: Vec<HandoffPendingEvent>,
        at: usize,
    },
    /// The acknowledgement of the event at `at`.
    Appending {
        binding: HandoffBinding,
        project: ResolvedProject,
        items: Vec<HandoffPendingEvent>,
        at: usize,
    },
    /// Nothing more.
    Finished,
}

pub enum FlushView {
    Authorizing { session: Seq<char>, binding: BoundView },
    Resolving { session: Seq<char>, binding: BoundView },
    Selecting { binding: BoundView, project: ResolvedView },
    Reading { binding: BoundView, project: ResolvedView, items: Seq<PendingView>, at: int },
    Appending { binding: BoundView, project: ResolvedView, items: Seq<PendingView>, at: int },
    Finished,
}

impl View for Flush {
    type V = FlushView;

    open spec fn view(&self) -> FlushView {
        match self {
            Flush::Authorizing { session, binding } => FlushView::Authorizing {
                session: session@,
                binding: binding@,
            },
            Flush::Resolving { session, binding } => FlushView::Resolving {
                session: session@,
                binding: binding@,
            },
            Flush::Selecting { binding, project } => FlushView::Selecting {
                binding: binding@,
                project: project@,
            },
            Flush::Reading { binding, project, items, at } => FlushView::Reading {
                binding: binding@,
                project: project@,
                items: views(items@),
                at: *at as int,
            },
            Flush::Appending { binding, project, items, at } => FlushView::Appending {
                binding: binding@,
                project: project@,
                items: views(items@),
                at: *at as int,
            },
            Flush::Finished => FlushView::Finished,
        }
    }
}

/// What has to be done next. The requests of one batch share one deadline.
#[derive(Debug)]
pub enum FlushStep {
    Authorize,
    Resolve(String),
    Ask { project: ResolvedProject, write: bool, request: Json, in_batch: bool },
    Answer(Json),
}

pub enum FlushStepView {
    Authorize,
    Resolve(Seq<char>),
    Ask { project: ResolvedView, write: bool, request: Node, in_batch: bool },
    Answer(Node),
}

impl View for FlushStep {
    type V = FlushStepView;

    open spec fn view(&self) -> FlushStepView {
        match self {
            FlushStep::Authorize => FlushStepView::Authorize,
            FlushStep::Resolve(project) => FlushStepView::Resolve(project@),
            FlushStep::Ask { project, write, request, in_batch } => FlushStepView::Ask {
                project: project@,
                write: *write,
                request: request@,
                in_batch: *in_batch,
            },
            FlushStep::Answer(value) => FlushStepView::Answer(value@),
        }
    }
}

/// What came of it.
#[derive(Debug)]
pub enum FlushEvent {
    Authorized(bool),
    /// The resolved project, where there is one.
    Resolved(Option<ResolvedProject>),
    Replied(Result<Json, String>),
    /// The deadline of the batch passed.
    Expired,
}

pub enum FlushEventView {
    Authorized(bool),
    Resolved(Option<ResolvedView>),
    Replied(Result<Node, Seq<char>>),
    Expired,
}

impl View for FlushEvent {
    type V = FlushEventView;

    open spec fn view(&self) -> FlushEventView {
        match self {
            FlushEvent::Authorized(b) => FlushEventView::Authorized(*b),
            FlushEvent::Resolved(p) => FlushEventView::Resolved(content(*p)),
            FlushEvent::Replied(r) => FlushEventView::Replied(reply_view(*r)),
            FlushEvent::Expired => FlushEventView::Expired,
        }
    }
}

pub open spec fn disabled_note() -> Node {
    record(seq![("status"@, Node::Text("disabled"@))])
}

pub open spec fn saved_note(task: Seq<char>) -> Node {
    record(seq![("status"@, Node::Text("saved"@)), ("task_id"@, Node::Text(task))])
}

fn report(status: &'static str, reason: &'static str) -> (r: (Flush, FlushStep))
    ensures
        r.0@ == FlushView::Finished,
        r.1@ == FlushStepView::Answer(capture_note(status@, reason@)),
{
    let members = vec![("status", text_json(status)), ("reason", text_json(reason))];
    proof {
        assert(entries(members@) =~= seq![
            ("status"@, Node::Text(status@)),
            ("reason"@, Node::Text(reason@)),
        ]);
    }
    (Flush::Finished, FlushStep::Answer(object(members)))
}

/// The end of a delivery.
pub open spec fn told(note: Node, t: TablesView) -> (FlushView, FlushStepView, TablesView) {
    (FlushView::Finished, FlushStepView::Answer(note), t)
}

/// A delivery at its start.
pub open spec fn flush_started(t: TablesView, session: Seq<char>) -> (FlushView, FlushStepView) {
    match t {
        TablesView::Absent => (FlushView::Finished, FlushStepView::Answer(disabled_note())),
        TablesView::Failed => (
            FlushView::Finished,
            FlushStepView::Answer(capture_note("failed"@, "outbox_unavailable"@)),
        ),
        TablesView::Open(db) => match binding_for(db.bindings, session) {
            None => (FlushView::Finished, FlushStepView::Answer(disabled_note())),
            Some(binding) => (
                FlushView::Authorizing { session, binding },
                FlushStepView::Authorize,
            ),
        },
    }
}

fn report_disabled() -> (r: (Flush, FlushStep))
    ensures
        r.0@ == FlushView::Finished,
        r.1@ == FlushStepView::Answer(disabled_note()),
{
    let members = vec![("status", text_json("disabled"))];
    proof {
        assert(entries(members@) =~= seq![("status"@, Node::Text("disabled"@))]);
    }
    (Flush::Finished, FlushStep::Answer(object(members)))
}

/// A delivery at its start.
pub fn start_flush(tables: &Tables, session_id: &str) -> (r: (Flush, FlushStep))
    ensures
        (r.0@, r.1@) == flush_started(tables@, session_id@),
{
    match tables {
        Tables::Absent => report_disabled(),
        Tables::Failed => report("failed", "outbox_unavailable"),
        Tables::Open(db) => match db.handoff_binding(session_id) {
            None => report_disabled(),
            Some(binding) => (
                Flush::Authorizing { session: owned(session_id), binding },
                FlushStep::Authorize,
            ),
        },
    }
}

/// What waits for the task, where the tables can tell.
pub open spec fn waiting_for(t: TablesView, b: BoundView) -> Option<Seq<PendingView>> {
    match t {
        TablesView::Open(db) => match pending_for(db, b) {
            Ok(items) => Some(items),
            Err(_) => None,
        },
        _ => None,
    }
}

impl Tables {
    fn waiting(&self, b: &HandoffBinding) -> (r: Option<Vec<HandoffPendingEvent>>)
        ensures
            match r {
                Some(v) => waiting_for(self@, b@) == Some(views(v@)),
                None => waiting_for(self@, b@) is None,
            },
    {
        match self {
            Tables::Open(db) => match db.handoff_pending_for_task(b) {
                Ok(items) => Some(items),
                Err(_) => None,
            },
            _ => None,
        }
    }
}

/// The next event of the batch, or the end of it.
pub open spec fn next_event(
    binding: BoundView,
    project: ResolvedView,
    items: Seq<PendingView>,
    at: int,
    t: TablesView,
) -> (FlushView, FlushStepView, TablesView) {
    if at < items.len() {
        (
            FlushView::Reading { binding, project, items, at },
            FlushStepView::Ask {
                project,
                write: false,
                request: read_request(binding.task_id),
                in_batch: true,
            },
            t,
        )
    } else {
        match waiting_for(t, binding) {
            Some(more) => if more.len() == 0 {
                told(saved_note(binding.task_id), t)
            } else {
                told(capture_note("pending"@, "more_pending_facts"@), t)
            },
            None => told(capture_note("pending"@, "more_pending_facts"@), t),
        }
    }
}

/// Once the project is resolved again.
pub open spec fn flush_resolved(
    session: Seq<char>,
    binding: BoundView,
    project: Option<ResolvedView>,
    t: TablesView,
) -> (FlushView, FlushStepView, TablesView) {
    match project {
        Some(p) => if p.allow_patch && p.path == binding.project_path && p.client_id
            == binding.client_id {
            (
                FlushView::Selecting { binding, project: p },
                FlushStepView::Ask {
                    project: p,
                    write: false,
                    request: status_request(Some(session)),
                    in_batch: false,
                },
                t,
            )
        } else {
            told(capture_note("pending"@, "project_authority_changed"@), t)
        },
        None => told(capture_note("pending"@, "project_authority_changed"@), t),
    }
}

/// Once the runner said what is selected.
pub open spec fn flush_selected(
    binding: BoundView,
    project: ResolvedView,
    reply: Result<Node, Seq<char>>,
    t: TablesView,
) -> (FlushView, FlushStepView, TablesView) {
    match reply {
        Err(_) => told(capture_note("pending"@, "runner_unavailable"@), t),
        Ok(selection) => if selection.at("enabled"@) != Node::Bool(true) || selection.at(
            "bound_task_id"@,
        ) != Node::Text(binding.task_id) {
            told(capture_note("pending"@, "local_binding_changed_or_disabled"@), t)
        } else {
            match waiting_for(t, binding) {
                None => told(capture_note("failed"@, "outbox_unavailable"@), t),
                Some(items) => next_event(binding, project, items, 0, t),
            }
        },
    }
}

/// Once the current checkpoint is read.
pub open spec fn flush_read(
    binding: BoundView,
    project: ResolvedView,
    items: Seq<PendingView>,
    at: int,
    reply: Result<Node, Seq<char>>,
    t: TablesView,
) -> (FlushView, FlushStepView, TablesView) {
    match reply {
        Err(_) => told(capture_note("pending"@, "delivery_unconfirmed"@), t),
        Ok(current) => if fingerprint_in(current) != Some(binding.root_fingerprint) {
            told(capture_note("pending"@, "delivery_unconfirmed"@), t)
        } else {
            match current.at("revision"@).unsigned() {
                None => told(capture_note("pending"@, "delivery_unconfirmed"@), t),
                Some(revision) => (
                    FlushView::Appending { binding, project, items, at },
                    FlushStepView::Ask {
                        project,
                        write: true,
                        request: append_request(binding.task_id, revision, items[at].event),
                        in_batch: true,
                    },
                    t,
                ),
            }
        },
    }
}

/// The tables after an event was acknowledged.
pub open spec fn tables_acknowledged(t: TablesView, item: PendingView) -> Option<TablesView> {
    match t {
        TablesView::Open(db) => Some(
            TablesView::Open(
                DatabaseView {
                    outbox: acknowledged(
                        db.outbox,
                        item.session_id,
                        item.event_id,
                        db.outbox.len(),
                    ),
                    ..db
                },
            ),
        ),
        _ => None,
    }
}

/// Once the event is acknowledged.
pub open spec fn flush_appended(
    binding: BoundView,
    project: ResolvedView,
    items: Seq<PendingView>,
    at: int,
    reply: Result<Node, Seq<char>>,
    t: TablesView,
) -> (FlushView, FlushStepView, TablesView) {
    match reply {
        Err(_) => told(capture_note("pending"@, "delivery_unconfirmed"@), t),
        Ok(_) => match tables_acknowledged(t, items[at]) {
            None => told(capture_note("pending"@, "ack_unconfirmed"@), t),
            Some(after) => next_event(binding, project, items, at + 1, after),
        },
    }
}

/// Whether the event is one that the delivery waits for.
pub open spec fn flush_awaits(state: FlushView, event: FlushEventView) -> bool {
    match (state, event) {
        (FlushView::Authorizing { .. }, FlushEventView::Authorized(_)) => true,
        (FlushView::Resolving { .. }, FlushEventView::Resolved(_)) => true,
        (FlushView::Selecting { .. }, FlushEventView::Replied(_)) => true,
        (FlushView::Reading { items, at, .. }, FlushEventView::Replied(_)) => 0 <= at < items.len(),
        (FlushView::Appending { items, at, .. }, FlushEventView::Replied(_)) => 0 <= at
            < items.len(),
        (FlushView::Reading { .. }, FlushEventView::Expired) => true,
        (FlushView::Appending { .. }, FlushEventView::Expired) => true,
        _ => false,
    }
}

/// One step of a delivery: where it stands then, what has to be done, and the
/// tables.
pub open spec fn flushed(state: FlushView, event: FlushEventView, t: TablesView) -> (
    FlushView,
    FlushStepView,
    TablesView,
) {
    match (state, event) {
        (FlushView::Authorizing { session, binding }, FlushEventView::Authorized(may)) => if may {
            (
                FlushView::Resolving { session, binding },
                FlushStepView::Resolve(binding.project_id),
                t,
            )
        } else {
            told(capture_note("pending"@, "write_authority_unavailable"@), t)
        },
        (FlushView::Resolving { session, binding }, FlushEventView::Resolved(p)) => flush_resolved(
            session,
            binding,
            p,
            t,
        ),
        (FlushView::Selecting { binding, project }, FlushEventView::Replied(r)) => flush_selected(
            binding,
            project,
            r,
            t,
        ),
        (
            FlushView::Reading { binding, project, items, at },
            FlushEventView::Replied(r),
        ) => flush_read(binding, project, items, at, r, t),
        (
            FlushView::Appending { binding, project, items, at },
            FlushEventView::Replied(r),
        ) => flush_appended(binding, project, items, at, r, t),
        (FlushView::Reading { .. }, FlushEventView::Expired) => told(
            capture_note("pending"@, "delivery_unconfirmed"@),
            t,
        ),
        (FlushView::Appending { .. }, FlushEventView::Expired) => told(
            capture_note("pending"@, "delivery_unconfirmed"@),
            t,
        ),
        _ => (FlushView::Finished, FlushStepView::Authorize, t),
    }
}

fn take_next(
    binding: HandoffBinding,
    project: ResolvedProject,
    items: Vec<HandoffPendingEvent>,
    at: usize,
    tables: &Tables,
) -> (r: (Flush, FlushStep))
    ensures
        (r.0@, r.1@, tables@) == next_event(
            binding@,
            project@,
            views(items@),
            at as int,
            tables@,
        ),
{
    proof {
        assert(views(items@).len() == items@.len());
    }
    if at < items.len() {
        let asked = project.copy();
        let request = ask_read(binding.task_id.as_str());
        return (
            Flush::Reading { binding, project, items, at },
            FlushStep::Ask { project: asked, write: false, request, in_batch: true },
        );
    }
    match tables.waiting(&binding) {
        Some(more) => {
            proof {
                assert(views(more@).len() == more@.len());
            }
            if more.len() == 0 {
                let members = vec![
                    ("status", text_json("saved")),
                    ("task_id", text_json(binding.task_id.as_str())),
                ];
                proof {
                    assert(entries(members@) =~= seq![
                        ("status"@, Node::Text("saved"@)),
                        ("task_id"@, Node::Text(binding@.task_id)),
                    ]);
                }
                (Flush::Finished, FlushStep::Answer(object(members)))
            } else {
                report("pending", "more_pending_facts")
            }
        },
        None => report("pending", "more_pending_facts"),
    }
}

fn use_project(session: String, binding: HandoffBinding, project: Option<ResolvedProject>) -> (r: (
    Flush,
    FlushStep,
))
    ensures
        forall|t: TablesView|
            (r.0@, r.1@, t) == #[trigger] flush_resolved(session@, binding@, content(project), t),
{
    match project {
        Some(p) => {
            if p.allow_patch && same(p.path.as_str(), binding.project_path.as_str()) && same(
                p.client_id.as_str(),
                binding.client_id.as_str(),
            ) {
                let asked = p.copy();
                let request = ask_status(Some(session.as_str()));
                (
                    Flush::Selecting { binding, project: p },
                    FlushStep::Ask { project: asked, write: false, request, in_batch: false },
                )
            } else {
                report("pending", "project_authority_changed")
            }
        },
        None => report("pending", "project_authority_changed"),
    }
}

fn use_selection(
    binding: HandoffBinding,
    project: ResolvedProject,
    reply: Result<Json, String>,
    tables: &Tables,
) -> (r: (Flush, FlushStep))
    ensures
        (r.0@, r.1@, tables@) == flush_selected(binding@, project@, reply_view(reply), tables@),
{
    let selection = match reply {
        Err(_) => {
            return report("pending", "runner_unavailable");
        },
        Ok(selection) => selection,
    };
    if !selection.has_bool("enabled", true) || !selection.has_text(
        "bound_task_id",
        binding.task_id.as_str(),
    ) {
        return report("pending", "local_binding_changed_or_disabled");
    }
    match tables.waiting(&binding) {
        None => report("failed", "outbox_unavailable"),
        Some(items) => take_next(binding, project, items, 0, tables),
    }
}

fn use_checkpoint(
    binding: HandoffBinding,
    project: ResolvedProject,
    items: Vec<HandoffPendingEvent>,
    at: usize,
    reply: Result<Json, String>,
) -> (r: (Flush, FlushStep))
    requires
        at < items@.len(),
    ensures
        forall|t: TablesView|
            (r.0@, r.1@, t) == #[trigger] flush_read(
                binding@,
                project@,
                views(items@),
                at as int,
                reply_view(reply),
                t,
            ),
{
    let current = match reply {
        Err(_) => {
            return report("pending", "delivery_unconfirmed");
        },
        Ok(current) => current,
    };
    let same_root = match checkpoint_fingerprint(&current) {
        Some(f) => same(f, binding.root_fingerprint.as_str()),
        None => false,
    };
    if !same_root {
        return report("pending", "delivery_unconfirmed");
    }
    let revision = match current.get("revision") {
        Some(v) => v.as_u64(),
        None => None,
    };
    match revision {
        None => report("pending", "delivery_unconfirmed"),
        Some(n) => {
            proof {
                assert(views(items@)[at as int] == items@[at as int]@);
            }
            let request = ask_append(binding.task_id.as_str(), n, items[at].event.copy());
            let asked = project.copy();
            (
                Flush::Appending { binding, project, items, at },
                FlushStep::Ask { project: asked, write: true, request, in_batch: true },
            )
        },
    }
}

fn use_acknowledgement(
    binding: HandoffBinding,
    project: ResolvedProject,
    items: Vec<HandoffPendingEvent>,
    at: usize,
    reply: Result<Json, String>,
    tables: &mut Tables,
) -> (r: (Flush, FlushStep))
    requires
        at < items@.len(),
    ensures
        (r.0@, r.1@, final(tables)@) == flush_appended(
            binding@,
            project@,
            views(items@),
            at as int,
            reply_view(reply),
            old(tables)@,
        ),
{
    match reply {
        Err(_) => {
            return report("pending", "delivery_unconfirmed");
        },
        Ok(_) => {},
    }
    proof {
        assert(views(items@)[at as int] == items@[at as int]@);
    }
    match tables {
        Tables::Open(db) => db.handoff_ack(
            items[at].session_id.as_str(),
            items[at].event_id.as_str(),
        ),
        _ => {
            return report("pending", "ack_unconfirmed");
        },
    }
    let count: usize = items.len();
    proof {
        assert(at + 1 <= count);
    }
    take_next(binding, project, items, at + 1, tables)
}

/// One step of a delivery. An event leaves the outbox only when the runner
/// acknowledged it; a deadline or a cancellation leaves the rest waiting.
pub fn flush_project_handoff(state: Flush, event: FlushEvent, tables: &mut Tables) -> (r: (
    Flush,
    FlushStep,
))
    requires
        flush_awaits(state@, event@),
    ensures
        (r.0@, r.1@, final(tables)@) == flushed(state@, event@, old(tables)@),
{
    match (state, event) {
        (Flush::Authorizing { session, binding }, FlushEvent::Authorized(may)) => {
            if !may {
                return report("pending", "write_authority_unavailable");
            }
            let project = binding.project_id.clone();
            (Flush::Resolving { session, binding }, FlushStep::Resolve(project))
        },
        (Flush::Resolving { session, binding }, FlushEvent::Resolved(project)) => use_project(
            session,
            binding,
            project,
        ),
        (Flush::Selecting { binding, project }, FlushEvent::Replied(reply)) => use_selection(
            binding,
            project,
            reply,
            tables,
        ),
        (Flush::Reading { binding, project, items, at }, FlushEvent::Replied(reply)) => {
            proof {
                assert(views(items@).len() == items@.len());
            }
            use_checkpoint(binding, project, items, at, reply)
        },
        (Flush::Appending { binding, project, items, at }, FlushEvent::Replied(reply)) => {
            proof {
                assert(views(items@).len() == items@.len());
            }
            use_acknowledgement(binding, project, items, at, reply, tables)
        },
        (Flush::Reading { .. }, FlushEvent::Expired) => report("pending", "delivery_unconfirmed"),
        (Flush::Appending { .. }, FlushEvent::Expired) => report("pending", "delivery_unconfirmed"),
        _ => (Flush::Finished, FlushStep::Authorize),
    }
}

} // verus!
