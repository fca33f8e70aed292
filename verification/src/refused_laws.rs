//! What is refused, and under which name.
use vstd::prelude::*;
use crate::capture_laws::{law_notes};
use crate::dispatch::{
    DispatchStepView, DispatchView, archive_reviewed, bind_reviewed, gated, is_settled,
    jobs_counted, tables_retired, target_identity,
};
use crate::exchange::{silence, unconfirmed};
use crate::flush::{FlushStepView, FlushView, flush_appended, flush_started};
use crate::json::{Node};
use crate::message_laws::{law_requests_ask};
use crate::observations::{observation_tool};
use crate::outbox::{acknowledged};
use crate::record_laws::{key_code, lemma_record_member};
use crate::server::{TablesView, admitted, fence_check};
use crate::store::{
    BoundView, DatabaseView, PendingView, RowView, StoreError, binding_for, bound, fenced,
    store_code,
};
use crate::store_laws::{law_only_own_events_are_acknowledged};
use crate::tool::{ResolvedView, fingerprint_in, tool_err};

verus! {

/// Work on a project goes on where it has no handoff, and otherwise only for a
/// session that is bound to the project and to the task that is selected. Where
/// the runner does not answer, nothing goes on.
pub proof fn law_when_work_may_start(
    t: TablesView,
    p: ResolvedView,
    session: Option<Seq<char>>,
    reply: Result<Node, Seq<char>>,
)
    ensures
        admitted(t, p, session, reply) is Ok <==> (reply matches Ok(state) && (state.at("enabled"@)
            != Node::Bool(true) || (t matches TablesView::Open(db) && (session matches Some(s) && (
        binding_for(db.bindings, s) matches Some(b) && b.project_id == p.resolved_id
            && b.project_path == p.path && b.client_id == p.client_id && state.at("bound_task_id"@)
            == Node::Text(b.task_id)))))),
        (reply matches Ok(state) && admitted(t, p, session, reply) is Err) ==> (admitted(
            t,
            p,
            session,
            reply,
        ) matches Err(told) && !told.success && told.output.at("error_kind"@) == Node::Text(
            "handoff_task_selection_required"@,
        ) && told.output.at("execution_state"@) == Node::Text("not_started"@)),
{
    lemma_selection_codes();
    let s = seq![
        ("error_kind"@, Node::Text("handoff_task_selection_required"@)),
        ("execution_state"@, Node::Text("not_started"@)),
    ];
    lemma_record_member(s, 0);
    lemma_record_member(s, 1);
}

proof fn lemma_selection_codes()
    ensures
        key_code("error_kind"@) == 44651672164,
        key_code("execution_state"@) == 66126898533,
{
    reveal_strlit("error_kind");
    reveal_strlit("execution_state");
}

/// Work of a session is stopped exactly where its task is frozen, and where the
/// tables cannot tell; the caller is told that nothing was started.
pub proof fn law_when_work_is_stopped(t: TablesView, session: Option<Seq<char>>)
    ensures
        fence_check(t, session) is Err <==> (session matches Some(s) && (t is Failed || (t
            matches TablesView::Open(db) && (binding_for(db.bindings, s) matches Some(b) && fenced(
            db.retirements,
            b,
        ))))),
        (session is Some && t is Failed) ==> fence_check(t, session)->Err_0.error == Some(
            "handoff_binding_unavailable"@,
        ),
        (fence_check(t, session) is Err && t is Open) ==> fence_check(t, session)->Err_0.error
            == Some("handoff_task_retired_or_retiring"@) && fence_check(
            t,
            session,
        )->Err_0.output.at("execution_state"@) == Node::Text("not_started"@),
{
    law_notes(Seq::empty(), Seq::empty());
}

/// An archival goes on only once it has the project for itself, with tables to
/// freeze the task in, with a task that is named, and with no job running.
pub proof fn law_when_an_archival_goes_on(
    p: ResolvedView,
    request: Node,
    task: Seq<char>,
    taken: bool,
    jobs: u64,
    t: TablesView,
)
    ensures
        ({
            let (state, step, after) = gated(p, request, taken, t);
            &&& after == t
            &&& step is CountJobs <==> taken && !(t is Absent) && request.at("task_id"@) is Text
            &&& step is CountJobs ==> state == (DispatchView::Counting {
                project: p,
                request,
                task_id: request.at("task_id"@)->Text_0,
            })
            &&& !taken ==> (step matches DispatchStepView::Answer(told) && told.error == Some(
                "handoff_retirement_busy"@,
            ))
            &&& taken && t is Absent ==> (step matches DispatchStepView::Answer(told) && told.error
                == Some("handoff_delivery_unavailable"@))
        }),
        ({
            let (state, step, after) = jobs_counted(p, request, task, jobs, t);
            &&& after == t
            &&& jobs == 0 ==> (step matches DispatchStepView::Ask { project, write, request: asked }
                && project == p && !write && asked.at("action"@) == Node::Text("read"@) && asked.at(
                "task_id"@,
            ) == Node::Text(task)) && state == (DispatchView::Reviewing {
                project: p,
                request,
                task_id: task,
            })
            &&& jobs != 0 ==> (step matches DispatchStepView::Answer(told) && !told.success
                && told.error == Some("handoff_active_jobs"@))
        }),
{
    law_requests_ask(Seq::empty(), task, 0, Node::Null);
}

/// A checkpoint to archive is sent on exactly where it is settled and its task
/// could be frozen; the request that goes out is the one that came in.
pub proof fn law_when_an_archival_is_sent(
    p: ResolvedView,
    request: Node,
    task: Seq<char>,
    checkpoint: Node,
    t: TablesView,
)
    ensures
        ({
            let (state, step, after) = archive_reviewed(p, request, task, Ok(checkpoint), t);
            let frozen = fingerprint_in(checkpoint) is Some && tables_retired(
                t,
                target_identity(""@, p, task, fingerprint_in(checkpoint)->0),
                false,
            ).1;
            &&& step is Ask <==> frozen && is_settled(checkpoint, request)
            &&& step is Ask ==> step == (DispatchStepView::Ask { project: p, write: true, request })
                && state == (DispatchView::Retiring {
                identity: target_identity(""@, p, task, fingerprint_in(checkpoint)->0),
                archived: checkpoint.at("archived"@) == Node::Bool(true),
            })
            &&& fingerprint_in(checkpoint) is None ==> (step matches DispatchStepView::Answer(told)
                && told.error == Some("handoff_identity_unavailable"@)) && after == t
            &&& fingerprint_in(checkpoint) is Some && !is_settled(checkpoint, request) ==> (step
                matches DispatchStepView::Answer(told) && !told.success)
        }),
        forall|code: Seq<char>|
            (#[trigger] archive_reviewed(p, request, task, Err(code), t)).1 == DispatchStepView::Answer(
                tool_err(code),
            ),
{
}

/// A selection is sent on exactly where the binding was saved, to the project
/// and under the identity of the checkpoint; otherwise the caller is told why.
pub proof fn law_when_a_selection_is_sent(
    session: Seq<char>,
    p: ResolvedView,
    task: Seq<char>,
    request: Node,
    checkpoint: Node,
    db: DatabaseView,
)
    ensures
        ({
            let (state, step, after) = bind_reviewed(
                session,
                p,
                task,
                request,
                Ok(checkpoint),
                TablesView::Open(db),
            );
            let saved = fingerprint_in(checkpoint) is Some && bound(
                db,
                target_identity(session, p, task, fingerprint_in(checkpoint)->0),
            ).1 is Ok;
            &&& step is Ask <==> saved
            &&& step is Ask ==> step == (DispatchStepView::Ask { project: p, write: true, request })
            &&& !saved ==> after == TablesView::Open(db)
            &&& !saved && fingerprint_in(checkpoint) is Some ==> (step
                matches DispatchStepView::Answer(told) && told.error == Some(
                "handoff_binding_not_saved_or_conflicting"@,
            ))
            &&& fingerprint_in(checkpoint) is None ==> (step matches DispatchStepView::Answer(told)
                && told.error == Some("handoff project identity unavailable"@))
        }),
{
}

/// A reply that does not come, or that confirms nothing, leaves a write unknown
/// and a read without an answer.
pub proof fn law_silence(write: bool)
    ensures
        write ==> silence(write) == "handoff_save_unknown"@ && unconfirmed(write)
            == "handoff_save_unknown"@,
        !write ==> silence(write) == "handoff_unavailable"@ && unconfirmed(write)
            == "handoff_invalid_response"@,
{
}

/// A delivery starts only for a bound session; without tables or without a
/// binding there is nothing to deliver.
pub proof fn law_when_a_delivery_starts(t: TablesView, session: Seq<char>)
    ensures
        flush_started(t, session).1 is Authorize <==> (t matches TablesView::Open(db)
            && binding_for(db.bindings, session) is Some),
        t is Failed ==> (flush_started(t, session).1 matches FlushStepView::Answer(note) && note.at(
            "status"@,
        ) == Node::Text("failed"@) && note.at("reason"@) == Node::Text("outbox_unavailable"@)),
        (t is Absent || (t matches TablesView::Open(db) && binding_for(db.bindings, session)
            is None)) ==> (flush_started(t, session).1 matches FlushStepView::Answer(note)
            && note.at("status"@) == Node::Text("disabled"@)),
{
    law_notes("failed"@, "outbox_unavailable"@);
}

/// An event leaves the outbox once its append was answered, and the delivery
/// goes on with the next one; otherwise it stays and the delivery ends.
pub proof fn law_delivered_event_leaves(
    binding: BoundView,
    project: ResolvedView,
    items: Seq<PendingView>,
    at: int,
    reply: Result<Node, Seq<char>>,
    db: DatabaseView,
)
    requires
        0 <= at < items.len(),
    ensures
        ({
            let (state, step, after) = flush_appended(
                binding,
                project,
                items,
                at,
                reply,
                TablesView::Open(db),
            );
            &&& reply is Err ==> after == TablesView::Open(db) && (step
                matches FlushStepView::Answer(note) && note.at("status"@) == Node::Text("pending"@)
                && note.at("reason"@) == Node::Text("delivery_unconfirmed"@))
            &&& reply is Ok ==> (after matches TablesView::Open(done) && done.bindings
                == db.bindings && done.gaps == db.gaps && done.retirements == db.retirements
                && forall|x: RowView|
                #[trigger] done.outbox.contains(x) <==> db.outbox.contains(x) && !(x.session_id
                    == items[at].session_id && x.event_id == items[at].event_id))
            &&& reply is Ok && at + 1 < items.len() ==> (step matches FlushStepView::Ask {
                project: to,
                write,
                request,
                in_batch,
            } && to == project && !write && request.at("action"@) == Node::Text("read"@)
                && request.at("task_id"@) == Node::Text(binding.task_id)) && state == (
            FlushView::Reading { binding, project, items, at: at + 1 })
        }),
{
    law_notes("pending"@, "delivery_unconfirmed"@);
    law_requests_ask(Seq::empty(), binding.task_id, 0, Node::Null);
    if reply is Ok {
        assert forall|x: RowView|
            #[trigger] acknowledged(
                db.outbox,
                items[at].session_id,
                items[at].event_id,
                db.outbox.len(),
            ).contains(x) <==> db.outbox.contains(x) && !(x.session_id == items[at].session_id
                && x.event_id == items[at].event_id) by {
            law_only_own_events_are_acknowledged(
                db.outbox,
                items[at].session_id,
                items[at].event_id,
                x,
            );
        }
    }
}

/// The names under which the tables refuse.
pub proof fn law_names_of_refusals()
    ensures
        store_code(StoreError::InvalidBinding) == "invalid_handoff_binding"@,
        store_code(StoreError::TaskRetired) == "handoff_task_retired"@,
        store_code(StoreError::BindingConflict) == "handoff_binding_conflict"@,
        store_code(StoreError::BindingHistoryFull) == "handoff_binding_history_capacity_exceeded"@,
        store_code(StoreError::BindingsFull) == "handoff_binding_capacity_exceeded"@,
        store_code(StoreError::InvalidEvent) == "invalid_handoff_event"@,
        store_code(StoreError::MissingEventId) == "missing_event_id"@,
        store_code(StoreError::InvalidEventId) == "invalid_event_id"@,
        store_code(StoreError::FieldNotAllowed) == "event_field_not_allowed"@,
        store_code(StoreError::NestedEvent) == "nested_event_not_allowed"@,
        store_code(StoreError::InvalidPaths) == "invalid_event_paths"@,
        store_code(StoreError::EventTooLarge) == "event_too_large"@,
        store_code(StoreError::EventIdConflict) == "event_id_conflict"@,
        store_code(StoreError::NotBound) == "handoff_not_bound"@,
        store_code(StoreError::OutboxFull) == "handoff_outbox_full"@,
        store_code(StoreError::RetirementUnresolved) == "handoff_retirement_unresolved"@,
        store_code(StoreError::RetirementNotStarted) == "handoff_retirement_not_started"@,
        store_code(StoreError::RetirementsFull) == "handoff_retirement_capacity_exceeded"@,
        observation_tool(true) == "record_external_observation"@,
        observation_tool(false) == "list_external_observations"@,
{
}

} // verus!
