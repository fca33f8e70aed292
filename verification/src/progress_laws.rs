//! How a task moves on, over what is recorded of it.
use vstd::prelude::*;
use crate::actions::{selection, summarized};
use crate::appending::{enabled_index, grown};
use crate::checks::{has_task};
use crate::directory::{DirectoryView, index_at};
use crate::event::{EventView};
use crate::job_laws::{
    last_word, law_job_is_its_last_word, law_jobs_are_those_spoken_of, says_ended, speaks_of,
    tells,
};
use crate::jobs::{jobs_of};
use crate::json::{Node};
use crate::lifecycle::{
    bind_of, disable_of, disabled_index, rebound, resolved, retired_index, without_task,
};
use crate::mutations::{fresh_task};
use crate::records::{IdentityView, IndexView, SummaryView, TaskView};
use crate::reply::{ReplyView};
use crate::request::{RequestView};
use crate::table::{lemma_put_lookup};
use crate::writing::{index_bytes};

verus! {

/// The status of a task after an event: the one that the event gives; else
/// unknown where the event reports an unknown outcome; else completed where the
/// event says that the task is; else the one that it had.
pub proof fn law_status_moves_with_the_event(t: TaskView, e: EventView, now: i64)
    requires
        grown(t, e, now) is Ok,
    ensures
        ({
            let status = grown(t, e, now)->Ok_0.status;
            let done = e.value.at("type"@) == Node::Text("task_completed"@) && e.value.at(
                "status"@,
            ) == Node::Text("completed"@);
            let given = e.value.at("task_status"@);
            &&& given is Text ==> given == Node::Text(status)
            &&& !(given is Text) && e.unknown ==> status == "unknown"@
            &&& !(given is Text) && !e.unknown && done ==> status == "completed"@
            &&& !(given is Text) && !e.unknown && !done ==> status == t.status
        }),
{
}

/// An event is recorded behind the others, with the next revision; an unknown
/// outcome is counted; and nothing else of the task changes.
pub proof fn law_event_is_added(t: TaskView, e: EventView, now: i64)
    ensures
        grown(t, e, now) is Ok <==> t.revision < u64::MAX,
        grown(t, e, now) matches Ok(g) ==> {
            &&& g.revision == t.revision + 1
            &&& g.updated_at == now
            &&& g.events.len() == t.events.len() + 1
            &&& g.events[t.events.len() as int] == e.value
            &&& forall|i: int| 0 <= i < t.events.len() ==> g.events[i] == #[trigger] t.events[i]
            &&& e.unknown && t.unknown_count < u64::MAX ==> g.unknown_count == t.unknown_count + 1
            &&& !e.unknown ==> g.unknown_count == t.unknown_count
            &&& g.task_id == t.task_id
            &&& g.title == t.title
            &&& g.created_at == t.created_at
            &&& g.project_identity == t.project_identity
            &&& g.format == t.format && g.version == t.version && g.managed_by == t.managed_by
            &&& g.archives == t.archives
            &&& g.event_aliases == t.event_aliases
        },
{
}

/// A new task starts active at the first revision, with the event that came
/// with it, if any.
pub proof fn law_new_task_starts(
    identity: IdentityView,
    id: Seq<char>,
    title: Seq<char>,
    e: EventView,
    now: i64,
)
    ensures
        ({
            let t = fresh_task(identity, id, title, None, now);
            &&& t.format == "webcodex.handoff.task.v1"@ && t.version == 1 && t.managed_by
                == "webcodex"@
            &&& t.project_identity == identity && t.task_id == id && t.title == title
            &&& t.status == "active"@
            &&& t.revision == 1
            &&& t.created_at == now && t.updated_at == now
            &&& t.unknown_count == 0
            &&& t.events.len() == 0 && t.archives.len() == 0 && t.event_aliases.len() == 0
        }),
        ({
            let t = fresh_task(identity, id, title, Some(e), now);
            let plain = fresh_task(identity, id, title, None, now);
            &&& t.events.len() == 1 && t.events[0] == e.value
            &&& t.revision == 1
            &&& e.unknown ==> t.unknown_count == 1
            &&& !e.unknown ==> t.unknown_count == 0
            &&& t.status == grown(plain, e, now)->Ok_0.status
            &&& t.project_identity == identity && t.task_id == id && t.title == title
            &&& t.created_at == now && t.updated_at == now
        }),
{
}

/// The summary of a task says what the task does.
pub proof fn law_summary_is_the_tasks(t: TaskView)
    ensures
        summarized(t).task_id == t.task_id,
        summarized(t).title == t.title,
        summarized(t).status == t.status,
        summarized(t).revision == t.revision,
        summarized(t).updated_at == t.updated_at,
        t.events.len() <= u64::MAX ==> summarized(t).event_count == t.events.len(),
        summarized(t).unknown_count == t.unknown_count,
{
}

/// A task is resolved exactly where it is completed, with nothing unknown, and
/// of every job that its events speak of an end is recorded.
pub proof fn law_resolved_over_the_events(t: TaskView)
    ensures
        resolved(t) <==> t.status == "completed"@ && t.unknown_count == 0 && forall|
            i: int,
            id: Seq<char>,
        |
            0 <= i < t.events.len() && #[trigger] speaks_of(t.events[i], id) ==> exists|j: int|
                0 <= j < t.events.len() && #[trigger] speaks_of(t.events[j], id) && says_ended(
                    t.events[j],
                ),
{
    let events = t.events;
    let jobs = jobs_of(events);
    if resolved(t) {
        assert forall|i: int, id: Seq<char>|
            0 <= i < events.len() && #[trigger] speaks_of(events[i], id) implies exists|j: int|
            0 <= j < events.len() && #[trigger] speaks_of(events[j], id) && says_ended(
                events[j],
            ) by {
            law_jobs_are_those_spoken_of(events, id);
            let m = choose|m: int| #[trigger] last_word(events, events.len() as int, id, m);
            law_job_is_its_last_word(events, id, m);
            let p = choose|p: int|
                0 <= p < jobs.len() && tells(events[m], id, #[trigger] jobs[p]);
            assert(jobs[p].terminal);
            assert(speaks_of(events[m], id) && says_ended(events[m]));
        }
    }
    if forall|i: int, id: Seq<char>|
        0 <= i < events.len() && #[trigger] speaks_of(events[i], id) ==> exists|j: int|
            0 <= j < events.len() && #[trigger] speaks_of(events[j], id) && says_ended(events[j]) {
        assert forall|p: int| 0 <= p < jobs.len() implies (#[trigger] jobs[p]).terminal by {
            let id = jobs[p].job_id;
            law_jobs_are_those_spoken_of(events, id);
            let m = choose|m: int| #[trigger] last_word(events, events.len() as int, id, m);
            law_job_is_its_last_word(events, id, m);
            assert(speaks_of(events[m], id));
            let j = choose|j: int|
                0 <= j < events.len() && #[trigger] speaks_of(events[j], id) && says_ended(
                    events[j],
                );
            assert(says_ended(events[m]));
            assert(tells(events[m], id, jobs[p]));
        }
    }
}

/// A client that selects a task changes no selection of another client, no task
/// and nothing of what is retired; the index moves on by one revision.
pub proof fn law_selecting_changes_one_client(
    v: IndexView,
    client: Seq<char>,
    other: Seq<char>,
    id: Seq<char>,
    now: i64,
)
    requires
        rebound(v, client, id, now) is Ok,
        has_task(v.tasks, id),
    ensures
        ({
            let w = rebound(v, client, id, now)->Ok_0;
            &&& selection(w, client) == Some(id)
            &&& other != client ==> selection(w, other) == selection(v, other)
            &&& w.tasks == v.tasks && w.retired_tasks == v.retired_tasks
            &&& w.revision == v.revision + 1
            &&& w.updated_at == now
            &&& w.enabled == v.enabled && w.project_identity == v.project_identity
        }),
{
    lemma_put_lookup(v.bindings, client, id, client);
    lemma_put_lookup(v.bindings, client, id, other);
}

/// What a bind request is answered: the task and the client that it names, at
/// the next revision of the index. The client is the one of the request, be it
/// given by itself or with its binding.
pub proof fn law_bind_is_answered(
    d: DirectoryView,
    identity: IdentityView,
    r: RequestView,
    now: i64,
)
    requires
        r.task_id is Some,
        bind_of(d, identity, r, now).reply is Ok,
    ensures
        enabled_index(d, identity) matches Ok(v) && bind_of(d, identity, r, now).reply matches Ok(
            ReplyView::Bound { task_id, client_id, revision },
        ) && Some(task_id) == r.task_id && revision == v.revision + 1 && (r.client_id matches Some(c)
            ==> client_id == c) && (r.client_id is None ==> (r.binding matches Some(b) ==> client_id
            == b.client_id)) && has_task(v.tasks, task_id) && (r.expected_revision matches Some(n)
            ==> n == v.revision),
{
}

/// A handoff that is turned off keeps its tasks, its history and its
/// selections, and moves on by one revision.
pub proof fn law_disabling_keeps_everything(
    d: DirectoryView,
    identity: IdentityView,
    r: RequestView,
    now: i64,
)
    ensures
        disable_of(d, identity, r, now).reply matches Ok(ReplyView::TurnedOff { revision }) ==> (
        index_at(d, identity) matches Ok(Some(v)) && v.enabled && revision == v.revision + 1 && ({
            let w = disabled_index(v, revision, now);
            !w.enabled && w.tasks == v.tasks && w.retired_tasks == v.retired_tasks && w.bindings
                == v.bindings && w.project_identity == v.project_identity && w.revision == revision
        })),
        (index_at(d, identity) matches Ok(Some(v)) && v.enabled && (r.expected_revision matches Some(
            n,
        ) ==> n == v.revision) && v.revision < u64::MAX && index_bytes(
            disabled_index(v, (v.revision + 1) as u64, now),
        ) is Ok) ==> disable_of(d, identity, r, now).reply is Ok && disable_of(
            d,
            identity,
            r,
            now,
        ).writes.len() == 1,
        (index_at(d, identity) matches Ok(Some(v)) && (r.expected_revision matches Some(n) && n
            != v.revision)) ==> (disable_of(d, identity, r, now).reply matches Err(f) && f.code@
            == "revision_conflict"@ && disable_of(d, identity, r, now).writes.len() == 0),
{
}

/// A task that is archived leaves the active tasks and joins the retired ones;
/// every other task stays where it is, and so do the selections.
pub proof fn law_archiving_moves_one_task(v: IndexView, t: TaskView, now: i64, other: Seq<char>)
    requires
        retired_index(v, t, now) is Ok,
    ensures
        ({
            let w = retired_index(v, t, now)->Ok_0;
            &&& !has_task(w.tasks, t.task_id)
            &&& has_task(w.retired_tasks, t.task_id)
            &&& other != t.task_id ==> has_task(w.tasks, other) == has_task(v.tasks, other)
            &&& other != t.task_id ==> has_task(w.retired_tasks, other) == has_task(
                v.retired_tasks,
                other,
            )
            &&& w.bindings == v.bindings && w.enabled == v.enabled && w.revision == v.revision + 1
            &&& w.retired_tasks.len() == v.retired_tasks.len() + 1 && w.retired_tasks.last()
                == summarized(t)
        }),
{
    let w = retired_index(v, t, now)->Ok_0;
    lemma_left_out(v.tasks, t.task_id, t.task_id);
    lemma_left_out(v.tasks, t.task_id, other);
    let n = v.retired_tasks.len() as int;
    assert(w.retired_tasks[n].task_id == t.task_id);
    if has_task(v.retired_tasks, other) {
        let i = choose|i: int|
            0 <= i < v.retired_tasks.len() && (#[trigger] v.retired_tasks[i]).task_id == other;
        assert(w.retired_tasks[i].task_id == other);
    }
    if other != t.task_id && has_task(w.retired_tasks, other) {
        let i = choose|i: int|
            0 <= i < w.retired_tasks.len() && (#[trigger] w.retired_tasks[i]).task_id == other;
        assert(v.retired_tasks[i].task_id == other);
    }
}

proof fn lemma_left_out(s: Seq<SummaryView>, id: Seq<char>, other: Seq<char>)
    ensures
        has_task(without_task(s, id), other) == (other != id && has_task(s, other)),
    decreases s.len(),
{
    if s.len() > 0 {
        let init = s.drop_last();
        lemma_left_out(init, id, other);
        let kept = without_task(init, id);
        let now = without_task(s, id);
        if has_task(init, other) {
            let i = choose|i: int| 0 <= i < init.len() && (#[trigger] init[i]).task_id == other;
            assert(s[i].task_id == other);
        }
        if has_task(s, other) && s.last().task_id != other {
            let i = choose|i: int| 0 <= i < s.len() && (#[trigger] s[i]).task_id == other;
            assert(init[i].task_id == other);
        }
        if s.last().task_id != id {
            assert(now == kept.push(s.last()));
            assert(now[kept.len() as int] == s.last());
            if has_task(kept, other) {
                let i = choose|i: int| 0 <= i < kept.len() && (#[trigger] kept[i]).task_id == other;
                assert(now[i].task_id == other);
            }
            if has_task(now, other) && s.last().task_id != other {
                let i = choose|i: int| 0 <= i < now.len() && (#[trigger] now[i]).task_id == other;
                assert(kept[i].task_id == other);
            }
            if s.last().task_id == other {
                assert(s[s.len() - 1].task_id == other);
            }
        }
    }
}

} // verus!
