//! What the server promises of calls and deliveries.
use vstd::prelude::*;
use vstd::utf8::*;
use crate::dispatch::{
    DispatchStepView, archive_answered, archive_reviewed, authored, bind_reviewed, ended,
    is_settled, jobs_counted, routed, sent, server_request, target_identity,
};
use crate::flush::{
    FlushEventView, FlushStepView, FlushView, flush_awaits, flushed, next_event, saved_note,
    waiting_for,
};
use crate::json::{Node, gathered_fields};
use crate::outbox::{acknowledged, enqueued};
use crate::server::{
    StartView, TablesView, admitted, capture_note, fact_captured, fact_of, fence_check, is_fact,
    key_of, not_started,
};
use crate::store::{
    BoundView, DatabaseView, PendingView, binding_for, bound, cancelled, fenced, freed, has_gap,
    retired, retirement_of, unresolved,
};
use crate::store_laws::{law_bound_is_found, law_only_confirmation_frees};
use crate::table::{assigned, lemma_assigned_lookup, lemma_put_lookup, lookup, put};
use crate::tool::{ResolvedView, ToolView, fingerprint_in, tool_err, tool_err_with};

verus! {

/// The runner is asked to select a task only once the binding of the session is
/// saved.
pub proof fn law_binding_is_saved_before_it_is_selected(
    session: Seq<char>,
    p: ResolvedView,
    task_id: Seq<char>,
    request: Node,
    reply: Result<Node, Seq<char>>,
    t: TablesView,
)
    ensures
        ({
            let (state, step, after) = bind_reviewed(session, p, task_id, request, reply, t);
            step is Ask ==> (after matches TablesView::Open(db) && binding_for(
                db.bindings,
                session,
            ) == Some(
                target_identity(session, p, task_id, fingerprint_in(reply->Ok_0)->0),
            ))
        }),
{
    if let TablesView::Open(db) = t {
        let b = target_identity(session, p, task_id, fingerprint_in(reply->Ok_0)->0);
        if bound(db, b).1 is Ok {
            law_bound_is_found(db, b);
        }
    }
}

/// The runner is asked to archive a task only once its deliveries are frozen,
/// with none of them open, and only where its checkpoint is settled.
pub proof fn law_archival_is_frozen_first(
    p: ResolvedView,
    request: Node,
    task_id: Seq<char>,
    reply: Result<Node, Seq<char>>,
    t: TablesView,
)
    requires
        archive_reviewed(p, request, task_id, reply, t).1 is Ask,
    ensures
        ({
            let identity = target_identity(""@, p, task_id, fingerprint_in(reply->Ok_0)->0);
            &&& is_settled(reply->Ok_0, request)
            &&& t matches TablesView::Open(before) && !unresolved(before, identity)
            &&& archive_reviewed(p, request, task_id, reply, t).2 matches TablesView::Open(after)
                && fenced(after.retirements, identity)
        }),
{
    let identity = target_identity(""@, p, task_id, fingerprint_in(reply->Ok_0)->0);
    if let TablesView::Open(db) = t {
        let rs = db.retirements;
        if !fenced(rs, identity) {
            let after = retired(db, identity, false).0.retirements;
            assert(after[rs.len() as int] == retirement_of(identity));
        }
    }
}

/// Work of a session whose task is frozen or retired does not start.
pub proof fn law_frozen_work_does_not_start(db: DatabaseView, session: Seq<char>)
    requires
        binding_for(db.bindings, session) matches Some(b) && fenced(db.retirements, b),
    ensures
        fence_check(TablesView::Open(db), Some(session)) == Err::<(), ToolView>(
            tool_err_with("handoff_task_retired_or_retiring"@, not_started()),
        ),
{
}

/// A lost or malformed acknowledgement leaves the freeze, and so does any
/// failure of a task that was archived before.
pub proof fn law_unknown_archival_stays_frozen(
    identity: BoundView,
    archived: bool,
    code: Seq<char>,
    t: TablesView,
)
    requires
        code == "handoff_save_unknown"@ || archived,
    ensures
        archive_answered(identity, archived, Err(code), t).2 == t,
{
}

/// A definite failure of a task that was not archived lifts the freeze.
pub proof fn law_failed_archival_lifts_the_freeze(
    identity: BoundView,
    code: Seq<char>,
    db: DatabaseView,
)
    requires
        code != "handoff_save_unknown"@,
    ensures
        archive_answered(identity, false, Err(code), TablesView::Open(db)).2 == TablesView::Open(
            DatabaseView {
                retirements: cancelled(db.retirements, identity, db.retirements.len()),
                ..db
            },
        ),
{
}

/// A task is reported as retired only where its archival was confirmed and
/// nothing of it waited or was lost.
pub proof fn law_retired_is_confirmed(
    identity: BoundView,
    archived: bool,
    reply: Result<Node, Seq<char>>,
    db: DatabaseView,
)
    ensures
        ({
            let (state, step, after) = archive_answered(
                identity,
                archived,
                reply,
                TablesView::Open(db),
            );
            (step matches DispatchStepView::Answer(result) && result.success) ==> reply is Ok
                && !unresolved(db, identity) && (after matches TablesView::Open(done) && freed(
                done.retirements,
                identity,
            ) && done.bindings == db.bindings)
        }),
{
    law_only_confirmation_frees(db, identity, identity);
}

/// Active jobs refuse archival before anything is frozen or sent.
pub proof fn law_active_jobs_refuse_archival(
    p: ResolvedView,
    request: Node,
    task_id: Seq<char>,
    jobs: u64,
    t: TablesView,
)
    requires
        jobs != 0,
    ensures
        jobs_counted(p, request, task_id, jobs, t) == ended(tool_err("handoff_active_jobs"@), t),
{
}

/// A call that reads changes no table, and sends only reads.
pub proof fn law_reading_call_writes_nothing(
    session: Option<Seq<char>>,
    p: ResolvedView,
    request: Node,
    resolved: Result<ResolvedView, ToolView>,
    reply: Result<Node, Seq<char>>,
    t: TablesView,
)
    ensures
        routed(session, false, request, resolved, t).2 == t,
        routed(session, false, request, resolved, t).1 matches DispatchStepView::Ask {
            write,
            ..
        } ==> !write,
        sent(session, p, false, request, reply, t).2 == t,
        sent(session, p, false, request, reply, t).1 is Answer,
{
}

/// A project that may not be changed is sent no write.
pub proof fn law_protected_project_is_not_written(
    session: Option<Seq<char>>,
    request: Node,
    p: ResolvedView,
    t: TablesView,
)
    requires
        !p.allow_patch,
    ensures
        routed(session, true, request, Ok(p), t) == ended(
            tool_err("project_handoff_write requires allow_patch=true"@),
            t,
        ),
{
}

/// A model cannot choose the client of a request, nor the source of an event.
pub proof fn law_identity_is_the_servers(session: Seq<char>, request: Node)
    requires
        server_request(session, request) is Ok,
    ensures
        request.member("client_id"@) is None,
        request.member("binding"@) is None,
        ({
            let sent = server_request(session, request)->Ok_0;
            &&& sent.at("client_id"@) != Node::Null ==> sent.at("client_id"@) == Node::Text(
                key_of(session),
            )
            &&& sent.member("event"@) is Some ==> sent.at("event"@).at("source"@) == Node::Text(
                "gpt"@,
            )
        }),
{
    reveal_strlit("client_id");
    reveal_strlit("event");
    reveal_strlit("source");
    let fields = request->Record_0;
    assert("client_id"@ != "event"@) by {
        assert("client_id"@.len() != "event"@.len());
    }
    match lookup(fields, "event"@) {
        None => {
            lemma_assigned_lookup(fields, "client_id"@, Node::Text(key_of(session)), "client_id"@);
            lemma_assigned_lookup(fields, "client_id"@, Node::Text(key_of(session)), "event"@);
        },
        Some(event) => {
            let marked = authored(event)->Ok_0;
            let own = event->Record_0;
            lemma_assigned_lookup(own, "source"@, Node::Text("gpt"@), "source"@);
            lemma_assigned_lookup(fields, "event"@, marked, "event"@);
            lemma_assigned_lookup(fields, "event"@, marked, "client_id"@);
            let more = assigned(fields, "event"@, marked);
            lemma_assigned_lookup(more, "client_id"@, Node::Text(key_of(session)), "client_id"@);
            lemma_assigned_lookup(more, "client_id"@, Node::Text(key_of(session)), "event"@);
        },
    }
}

/// An event leaves the outbox only once the runner answered its append, and no
/// step of a delivery changes any other table.
pub proof fn law_only_answered_events_leave(
    state: FlushView,
    event: FlushEventView,
    db: DatabaseView,
)
    requires
        flush_awaits(state, event),
    ensures
        ({
            let after = flushed(state, event, TablesView::Open(db)).2;
            &&& after matches TablesView::Open(done) && done.bindings == db.bindings && done.gaps
                == db.gaps && done.retirements == db.retirements
            &&& after != TablesView::Open(db) ==> (state matches FlushView::Appending {
                items,
                at,
                ..
            } && event matches FlushEventView::Replied(Ok(_)) && after == TablesView::Open(
                DatabaseView {
                    outbox: acknowledged(
                        db.outbox,
                        items[at].session_id,
                        items[at].event_id,
                        db.outbox.len(),
                    ),
                    ..db
                },
            ))
        }),
{
}

/// A delivery is reported as saved only where nothing waits for its task.
pub proof fn law_saved_means_nothing_waits(
    binding: BoundView,
    project: ResolvedView,
    items: Seq<PendingView>,
    at: int,
    t: TablesView,
)
    requires
        next_event(binding, project, items, at, t).1 == FlushStepView::Answer(
            saved_note(binding.task_id),
        ),
    ensures
        waiting_for(t, binding) == Some(Seq::<PendingView>::empty()),
{
    let pending = capture_note("pending"@, "more_pending_facts"@);
    let saved = saved_note(binding.task_id);
    assert(pending != saved) by {
        lemma_notes_differ(binding.task_id);
    }
    if waiting_for(t, binding) is Some {
        assert(waiting_for(t, binding)->0 =~= Seq::<PendingView>::empty());
    }
}

proof fn lemma_notes_differ(task: Seq<char>)
    ensures
        capture_note("pending"@, "more_pending_facts"@) != saved_note(task),
{
    reveal_strlit("pending");
    reveal_strlit("saved");
    reveal_strlit("status");
    reveal_strlit("reason");
    reveal_strlit("task_id");
    let a = seq![
        ("status"@, Node::Text("pending"@)),
        ("reason"@, Node::Text("more_pending_facts"@)),
    ];
    let b = seq![("status"@, Node::Text("saved"@)), ("task_id"@, Node::Text(task))];
    reveal_with_fuel(gathered_fields, 3);
    let empty = Seq::<(Seq<char>, Node)>::empty();
    lemma_put_lookup(empty, "status"@, Node::Text("pending"@), "status"@);
    lemma_put_lookup(
        put(empty, "status"@, Node::Text("pending"@)),
        "reason"@,
        Node::Text("more_pending_facts"@),
        "status"@,
    );
    lemma_put_lookup(empty, "status"@, Node::Text("saved"@), "status"@);
    lemma_put_lookup(
        put(empty, "status"@, Node::Text("saved"@)),
        "task_id"@,
        Node::Text(task),
        "status"@,
    );
    assert("status"@ != "reason"@) by {
        assert("status"@[0] != "reason"@[0]);
    }
    assert("status"@ != "task_id"@) by {
        assert("status"@.len() != "task_id"@.len());
    }
    assert("pending"@ != "saved"@) by {
        assert("pending"@.len() != "saved"@.len());
    }
    assert(capture_note("pending"@, "more_pending_facts"@).at("status"@) == Node::Text("pending"@));
    assert(saved_note(task).at("status"@) == Node::Text("saved"@));
}

/// Work on a project with handoffs starts only for a session that is bound to
/// exactly that project and to the task that the runner says is selected.
pub proof fn law_work_needs_a_selected_task(
    t: TablesView,
    p: ResolvedView,
    session: Option<Seq<char>>,
    state: Node,
)
    requires
        state.at("enabled"@) == Node::Bool(true),
        admitted(t, p, session, Ok(state)) is Ok,
    ensures
        t matches TablesView::Open(db) && session matches Some(s) && binding_for(db.bindings, s)
            matches Some(b) && b.project_id == p.resolved_id && b.project_path == p.path
            && b.client_id == p.client_id && state.at("bound_task_id"@) == Node::Text(b.task_id),
{
}

/// A fact that could not be recorded is never passed over: the session is left
/// with a gap.
pub proof fn law_unrecorded_fact_leaves_a_gap(
    db: DatabaseView,
    start: StartView,
    result: ToolView,
)
    requires
        is_fact(start, result),
        binding_for(db.bindings, start.session_id) matches Some(b) && start.resolved_project
            == Some(b.project_id),
        enqueued(db, start.session_id, fact_of(start, result), start.started_at).1 is Err,
    ensures
        fact_captured(TablesView::Open(db), Some(start), result).0 matches TablesView::Open(after)
            && has_gap(after.gaps, start.session_id) && after.outbox == db.outbox,
{
    let after = fact_captured(TablesView::Open(db), Some(start), result).0->Open_0;
    if !has_gap(db.gaps, start.session_id) {
        assert(after.gaps[db.gaps.len() as int].session_id == start.session_id);
    }
}

} // verus!
