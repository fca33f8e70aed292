//! How the list of tasks moves on.
use vstd::prelude::*;
use crate::actions::{
    by_id, checkpoint_of, overview_of, placed, position_of, selection, summarized, summary_in,
};
use crate::anchor::{HostView};
use crate::appending::{append_of, recorded, with_summary};
use crate::checkpoint::{performed};
use crate::checks::{has_task};
use crate::directory::{DirectoryView, index_at, task_at};
use crate::failure::{Failure, stale};
use crate::index_laws::{lemma_has_concat, lemma_position_valid, lemma_sorted_keeps};
use crate::jobs::{same_end};
use crate::lifecycle::{archive_request_of, bind_of, disable_of, resolved, retirement_check};
use crate::mutations::{bound_index, creation_check, creation_of, fresh_index, with_task};
use crate::records::{IdentityView, IndexView, SummaryView, TaskView};
use crate::reply::{ReplyView};
use crate::request::{Action, RequestView};
use crate::table::{lemma_put_lookup, lookup};
use crate::text::{has_prefix, lemma_lex_irreflexive, lemma_lex_transitive, lex_less};

verus! {

/// Whether summaries stand in the order of their ids.
pub open spec fn in_id_order(s: Seq<SummaryView>) -> bool {
    forall|i: int, j: int|
        0 <= i < j < s.len() ==> !lex_less(
            (#[trigger] s[j]).task_id,
            (#[trigger] s[i]).task_id,
        )
}

proof fn lemma_placed_in_order(s: Seq<SummaryView>, x: SummaryView)
    requires
        in_id_order(s),
    ensures
        in_id_order(placed(s, x)),
        placed(s, x).len() == s.len() + 1,
        forall|i: int|
            0 <= i < placed(s, x).len() ==> #[trigger] placed(s, x)[i] == x || s.contains(
                placed(s, x)[i],
            ),
        placed(s, x).contains(x),
        forall|y: SummaryView| s.contains(y) ==> #[trigger] placed(s, x).contains(y),
    decreases s.len(),
{
    let t = placed(s, x);
    if s.len() == 0 {
        assert(t[0] == x);
    } else if lex_less(x.task_id, s[0].task_id) {
        assert(t[0] == x);
        assert forall|y: SummaryView| s.contains(y) implies #[trigger] t.contains(y) by {
            let i = choose|i: int| 0 <= i < s.len() && s[i] == y;
            assert(t[i + 1] == y);
        }
        assert forall|i: int, j: int| 0 <= i < j < t.len() implies !lex_less(
            (#[trigger] t[j]).task_id,
            (#[trigger] t[i]).task_id,
        ) by {
            assert(t[j] == s[j - 1]);
            if i > 0 {
                assert(t[i] == s[i - 1]);
            } else {
                if lex_less(s[j - 1].task_id, x.task_id) {
                    lemma_lex_transitive(s[j - 1].task_id, x.task_id, s[0].task_id);
                    if j > 1 {
                        assert(!lex_less(s[j - 1].task_id, s[0].task_id));
                    } else {
                        lemma_lex_irreflexive(s[0].task_id);
                    }
                }
            }
        }
    } else {
        let rest = s.drop_first();
        assert forall|i: int, j: int| 0 <= i < j < rest.len() implies !lex_less(
            (#[trigger] rest[j]).task_id,
            (#[trigger] rest[i]).task_id,
        ) by {
            assert(rest[j] == s[j + 1] && rest[i] == s[i + 1]);
        }
        lemma_placed_in_order(rest, x);
        let more = placed(rest, x);
        assert(t =~= seq![s[0]] + more);
        assert forall|i: int, j: int| 0 <= i < j < t.len() implies !lex_less(
            (#[trigger] t[j]).task_id,
            (#[trigger] t[i]).task_id,
        ) by {
            assert(t[j] == more[j - 1]);
            if i > 0 {
                assert(t[i] == more[i - 1]);
            } else if more[j - 1] != x {
                assert(rest.contains(more[j - 1]));
                let m = choose|m: int| 0 <= m < rest.len() && rest[m] == more[j - 1];
                assert(s[m + 1] == more[j - 1]);
            }
        }
        assert forall|i: int| 0 <= i < t.len() implies #[trigger] t[i] == x || s.contains(t[i]) by {
            if i > 0 {
                assert(t[i] == more[i - 1]);
                if more[i - 1] != x {
                    let m = choose|m: int| 0 <= m < rest.len() && rest[m] == more[i - 1];
                    assert(s[m + 1] == t[i]);
                }
            } else {
                assert(s.contains(s[0]));
            }
        }
        let at = choose|i: int| 0 <= i < more.len() && more[i] == x;
        assert(t[at + 1] == x);
        assert forall|y: SummaryView| s.contains(y) implies #[trigger] t.contains(y) by {
            let i = choose|i: int| 0 <= i < s.len() && s[i] == y;
            if i == 0 {
                assert(t[0] == y);
            } else {
                assert(rest[i - 1] == y);
                assert(rest.contains(y));
                assert(more.contains(y));
                let m = choose|m: int| 0 <= m < more.len() && more[m] == y;
                assert(t[m + 1] == y);
            }
        }
    }
}

/// The tasks are listed in the order of their ids, each of them and no other.
pub proof fn law_tasks_are_listed_in_order(s: Seq<SummaryView>)
    ensures
        in_id_order(by_id(s)),
        by_id(s).len() == s.len(),
        forall|x: SummaryView| #[trigger] by_id(s).contains(x) <==> s.contains(x),
    decreases s.len(),
{
    if s.len() > 0 {
        law_tasks_are_listed_in_order(s.drop_last());
        lemma_placed_in_order(by_id(s.drop_last()), s.last());
        lemma_sorted_keeps(s);
    }
}

/// A new task joins the list; the others stay as they are; and the handoff of
/// the project is on from then.
pub proof fn law_new_task_is_listed(v: IndexView, s: SummaryView, now: i64)
    requires
        with_task(v, s, now) is Ok,
    ensures
        ({
            let w = with_task(v, s, now)->Ok_0;
            &&& w.tasks.contains(s)
            &&& forall|x: SummaryView| #[trigger] w.tasks.contains(x) <==> x == s || v.tasks.contains(x)
            &&& w.tasks.len() == v.tasks.len() + 1
            &&& in_id_order(w.tasks)
            &&& w.enabled
            &&& w.revision == v.revision + 1
            &&& w.updated_at == now
            &&& w.retired_tasks == v.retired_tasks && w.bindings == v.bindings
                && w.project_identity == v.project_identity
        }),
{
    let more = v.tasks.push(s);
    law_tasks_are_listed_in_order(more);
    assert(more[v.tasks.len() as int] == s);
    assert forall|x: SummaryView| #[trigger] more.contains(x) <==> x == s || v.tasks.contains(x) by {
        if v.tasks.contains(x) {
            let i = choose|i: int| 0 <= i < v.tasks.len() && v.tasks[i] == x;
            assert(more[i] == x);
        }
        if more.contains(x) && x != s {
            let i = choose|i: int| 0 <= i < more.len() && more[i] == x;
            assert(v.tasks[i] == x);
        }
    }
}

/// A task that moves on is listed as it is now, in its place; the other tasks,
/// the retired ones and the selections stay.
pub proof fn law_moved_task_is_listed(v: IndexView, t: TaskView, now: i64, i: int)
    requires
        with_summary(v, t, now) is Ok,
        has_task(v.tasks, t.task_id),
        0 <= i < v.tasks.len(),
    ensures
        ({
            let w = with_summary(v, t, now)->Ok_0;
            &&& w.tasks.len() == v.tasks.len()
            &&& w.tasks.contains(summarized(t))
            &&& v.tasks[i].task_id != t.task_id ==> w.tasks[i] == v.tasks[i]
            &&& w.revision == v.revision + 1
            &&& w.updated_at == now
            &&& w.retired_tasks == v.retired_tasks && w.bindings == v.bindings && w.enabled
                == v.enabled
        }),
{
    let p = position_of(v.tasks, t.task_id);
    lemma_position_valid(v.tasks, t.task_id);
    let w = with_summary(v, t, now)->Ok_0;
    assert(w.tasks[p] == summarized(t));
}

/// The first index of a project is on, without tasks, before its first
/// revision.
pub proof fn law_first_index(identity: IdentityView, now: i64)
    ensures
        ({
            let v = fresh_index(identity, now);
            &&& v.format == "webcodex.handoff.index.v1"@ && v.version == 1 && v.managed_by
                == "webcodex"@
            &&& v.enabled
            &&& v.project_identity == identity
            &&& v.revision == 0
            &&& v.updated_at == now
            &&& v.tasks.len() == 0 && v.retired_tasks.len() == 0 && v.bindings.len() == 0
        }),
{
}

/// A client that creates a task selects it; one whose task is archived may not;
/// and without a client nothing is selected.
pub proof fn law_creator_selects_the_task(v: IndexView, r: RequestView, id: Seq<char>)
    requires
        has_task(v.tasks, id),
    ensures
        r.client_id is None && r.binding is None ==> bound_index(v, r, id) == Ok::<_, Failure>(v),
        ({
            let client = match r.client_id {
                Some(c) => c,
                None => r.binding->0.client_id,
            };
            r.client_id is Some || r.binding is Some ==> (if (lookup(v.bindings, client) matches Some(
                old_id,
            ) && has_task(v.retired_tasks, old_id)) {
                bound_index(v, r, id) matches Err(f) && f.code@ == "task_archived"@
            } else {
                bound_index(v, r, id) matches Ok(w) && selection(w, client) == Some(id) && w.tasks
                    == v.tasks && w.revision == v.revision
            })
        }),
{
    let client = match r.client_id {
        Some(c) => c,
        None => r.binding->0.client_id,
    };
    lemma_put_lookup(v.bindings, client, id, client);
}

/// Why a task is not created: its id is taken, by an active or by an archived
/// task; there are 64 tasks; the index is at another revision; or a file is
/// where its own would go.
pub proof fn law_task_is_not_created(
    d: DirectoryView,
    v: IndexView,
    id: Seq<char>,
    expected: Option<u64>,
)
    ensures
        ({
            let taken = has_task(v.tasks, id) || has_task(v.retired_tasks, id);
            let full = v.tasks.len() >= 64;
            let other = expected is Some && expected->0 != v.revision;
            let r = creation_check(d, v, id, expected);
            &&& taken ==> (r matches Err(f) && f.code@ == "task_exists"@)
            &&& !taken && full ==> (r matches Err(f) && f.code@ == "capacity_exceeded"@)
            &&& !taken && !full && other ==> r == Err::<(), _>(stale(expected->0, v.revision))
            &&& !taken && !full && !other ==> (match d.inspect(id + ".json"@) {
                Err(f) => r == Err::<(), _>(f),
                Ok(None) => r is Ok,
                Ok(Some(_)) => r is Err,
            })
        }),
{
    lemma_has_concat(v.tasks, v.retired_tasks, id);
}

/// A new event goes to an active task of a project that is on; a known one is
/// answered as repeated; other facts under a known id are refused.
pub proof fn law_event_goes_to_an_active_task(
    d: DirectoryView,
    identity: IdentityView,
    r: RequestView,
    policy: Seq<Seq<char>>,
    now: i64,
)
    requires
        r.task_id is Some,
        r.event is Some,
        r.expected_revision is Some,
    ensures
        ({
            let p = append_of(d, identity, r, policy, now);
            let id = r.task_id->0;
            let e = r.event->0;
            &&& (index_at(d, identity) matches Ok(found) && (found matches Some(v) ==> !v.enabled))
                ==> (p.reply matches Err(f) && f.code@ == "handoff_disabled"@ && p.writes.len()
                == 0)
            &&& (index_at(d, identity) matches Ok(Some(v)) && v.enabled && !has_task(v.tasks, id))
                ==> (p.reply matches Err(f) && f.code@ == "task_not_found"@ && p.writes.len() == 0)
            &&& p.reply matches Ok(ReplyView::Appended { task_id, event_id, .. }) ==> task_id == id
                && event_id == e.id && (index_at(d, identity) matches Ok(Some(v)) && v.enabled
                && has_task(v.tasks, id)) && (task_at(d, identity, id, policy) matches Ok(t)
                && t.revision == r.expected_revision->0 && recorded(t.events, e.id) is None
                && lookup(t.event_aliases, e.id) is None)
            &&& p.reply matches Ok(ReplyView::Duplicate { task_id, event_id, .. }) ==> task_id == id
                && event_id == e.id && (task_at(d, identity, id, policy) matches Ok(t) && (recorded(
                t.events,
                e.id,
            ) is Some || lookup(t.event_aliases, e.id) is Some || exists|i: int|
                0 <= i < t.events.len() && same_end(#[trigger] t.events[i], e.value)))
        }),
{
    let id = r.task_id->0;
    if let Ok(t) = task_at(d, identity, id, policy) {
        assert(t.task_id == id);
    }
}

/// Each action does what it is named after.
pub proof fn law_each_action_is_its_own(
    d: DirectoryView,
    identity: IdentityView,
    r: RequestView,
    policy: Seq<Seq<char>>,
    now: i64,
    host: HostView,
    coordinated: bool,
)
    ensures
        ({
            let p = performed(d, identity, r, policy, now, host, coordinated);
            &&& r.action == Action::Status ==> p.writes.len() == 0 && p.reply == overview_of(
                d,
                identity,
                r.client_id,
                policy,
            )
            &&& r.action == Action::Read ==> p.writes.len() == 0 && p.reply == checkpoint_of(
                d,
                identity,
                r.task_id->0,
                policy,
            )
            &&& r.action == Action::Append ==> p == append_of(d, identity, r, policy, now)
            &&& r.action == Action::Bind ==> p == bind_of(d, identity, r, now)
            &&& r.action == Action::Archive ==> p == archive_request_of(
                d,
                identity,
                r,
                policy,
                now,
                coordinated,
            )
            &&& r.action == Action::Disable ==> p == disable_of(d, identity, r, now)
            &&& r.action == Action::Create && p.reply is Ok ==> p.reply == creation_of(
                d,
                identity,
                r,
                now,
            ).reply && p.writes.len() >= creation_of(d, identity, r, now).writes.len()
        }),
{
}

/// Why a task is not archived: it is at another revision, a session of the
/// server selected it and the server does not ask, or something of it is open.
pub proof fn law_task_is_not_archived(v: IndexView, t: TaskView, expected: u64, coordinated: bool)
    ensures
        ({
            let of_server = exists|i: int|
                0 <= i < v.bindings.len() && (#[trigger] v.bindings[i]).1 == t.task_id && has_prefix(
                    v.bindings[i].0,
                    "webcodex:"@,
                );
            let r = retirement_check(v, t, expected, coordinated);
            &&& t.revision != expected ==> r == Err::<(), _>(stale(expected, t.revision))
            &&& t.revision == expected && !coordinated && of_server ==> (r matches Err(f) && f.code@
                == "server_retirement_required"@)
            &&& t.revision == expected && (coordinated || !of_server) && !resolved(t) ==> (r matches Err(
                f,
            ) && f.code@ == "task_unresolved"@)
            &&& t.revision == expected && (coordinated || !of_server) && resolved(t) ==> r is Ok
        }),
{
}

/// The checkpoint of an active task says that the index lags behind exactly
/// where the summary that the index lists first for it is not that of the task.
pub proof fn law_lagging_index_is_noticed(
    d: DirectoryView,
    identity: IdentityView,
    v: IndexView,
    i: int,
    policy: Seq<Seq<char>>,
)
    requires
        index_at(d, identity) == Ok::<_, Failure>(Some(v)),
        v.enabled,
        0 <= i < v.tasks.len(),
        forall|j: int| 0 <= j < i ==> (#[trigger] v.tasks[j]).task_id != v.tasks[i].task_id,
        task_at(d, identity, v.tasks[i].task_id, policy) is Ok,
    ensures
        checkpoint_of(d, identity, v.tasks[i].task_id, policy) matches Ok(ReplyView::Read(c)) && (
        c.stale <==> summarized(task_at(d, identity, v.tasks[i].task_id, policy)->Ok_0)
            != v.tasks[i]),
{
    lemma_first_summary(v.tasks, v.tasks[i].task_id, i);
    assert(has_task(v.tasks, v.tasks[i].task_id));
}

proof fn lemma_first_summary(tasks: Seq<SummaryView>, id: Seq<char>, i: int)
    requires
        0 <= i < tasks.len(),
        tasks[i].task_id == id,
        forall|j: int| 0 <= j < i ==> (#[trigger] tasks[j]).task_id != id,
    ensures
        summary_in(tasks, id) == Some(tasks[i]),
    decreases tasks.len(),
{
    if i > 0 {
        assert(tasks[0].task_id != id);
        let rest = tasks.drop_first();
        assert forall|j: int| 0 <= j < i - 1 implies (#[trigger] rest[j]).task_id != id by {
            assert(tasks[j + 1].task_id != id);
        }
        lemma_first_summary(rest, id, i - 1);
    }
}

} // verus!
