//! What a request does not read does not matter to it.
use vstd::prelude::*;
use vstd::string::*;
use crate::actions::{by_id, no_target, overview_of, summarized, surveyed};
use crate::anchor::{ANCHOR_FILE_NAME, HostView, all_loadable, anchoring, repair_plan};
use crate::appending::{
    append_of, enabled_index, growth_of, growth_result, identified, remembered, repetition_of,
    segment_write, with_summary,
};
use crate::checkpoint::{AskedView, asked_of, planned};
use crate::checks::{INDEX_FILE_NAME, archive_name, has_task, markdown_name, task_name};
use crate::commit_laws::{lemma_same_task, same_files};
use crate::directory::{DirectoryView, index_at, task_at, task_bytes_at};
use crate::entry_laws::{law_request_is_checked};
use crate::event::{EventView};
use crate::failure::{Failure};
use crate::index_laws::{lemma_position_valid, lemma_sorted_keeps};
use crate::json::{Node};
use crate::lifecycle::{archive_request_of, bind_of, history_index, rebound, retired_index};
use crate::mutations::{
    base_index, bound_index, client_of, creation_of, fresh_task, markdown_in, target_of,
    with_task,
};
use crate::reading::{
    active_ids, belongs, concerned_ids, is_needed, listed_index, named_ids, retired_ids, task_ids,
};
use crate::records::{IdentityView, IndexView, SummaryView, TaskView};
use crate::request::{Action, RequestView};
use crate::writing::{TargetView, after_tasks, capacity_check, capacity_of, index_bytes, task_bytes};

verus! {

/// Whether two directories hold the same files where the given tasks are
/// concerned.
pub open spec fn agree(d: DirectoryView, e: DirectoryView, ids: Seq<Seq<char>>) -> bool {
    &&& e.present == d.present
    &&& forall|q: Seq<char>| is_needed(q, ids) ==> #[trigger] e.entry(q) == d.entry(q)
}

/// Whether the listed tasks are all concerned.
spec fn covered(tasks: Seq<SummaryView>, ids: Seq<Seq<char>>) -> bool {
    forall|i: int| 0 <= i < tasks.len() ==> ids.contains((#[trigger] tasks[i]).task_id)
}

/// The files of a concerned task are the same.
proof fn lemma_own_files(d: DirectoryView, e: DirectoryView, ids: Seq<Seq<char>>, id: Seq<char>)
    requires
        agree(d, e, ids),
        ids.contains(id),
    ensures
        e.entry(task_name(id)) == d.entry(task_name(id)),
        e.entry(markdown_name(id)) == d.entry(markdown_name(id)),
        forall|s: Seq<char>| e.entry(#[trigger] archive_name(id, s)) == d.entry(archive_name(id, s)),
        same_files(d, e, id),
{
    let i = choose|i: int| 0 <= i < ids.len() && ids[i] == id;
    assert(belongs(task_name(id), ids[i]));
    assert(belongs(markdown_name(id), ids[i]));
    assert forall|s: Seq<char>| e.entry(#[trigger] archive_name(id, s)) == d.entry(
        archive_name(id, s),
    ) by {
        let head = id + ".events-"@;
        assert(archive_name(id, s).take(head.len() as int) =~= head);
        assert(belongs(archive_name(id, s), ids[i]));
    }
}

/// The index and the anchor are the same.
proof fn lemma_shared_files(d: DirectoryView, e: DirectoryView, ids: Seq<Seq<char>>)
    requires
        agree(d, e, ids),
    ensures
        e.entry(INDEX_FILE_NAME@) == d.entry(INDEX_FILE_NAME@),
        e.entry(ANCHOR_FILE_NAME@) == d.entry(ANCHOR_FILE_NAME@),
        listed_index(e) == listed_index(d),
        forall|identity: IdentityView| #[trigger] index_at(e, identity) == index_at(d, identity),
        forall|identity: IdentityView| #[trigger]
            enabled_index(e, identity) == enabled_index(d, identity),
        forall|identity: IdentityView, host: HostView| #[trigger]
            anchoring(e, identity, host) == anchoring(d, identity, host),
{
    assert(is_needed(INDEX_FILE_NAME@, ids));
    assert(is_needed(ANCHOR_FILE_NAME@, ids));
}

/// A concerned task is read as the same.
proof fn lemma_read_same(
    d: DirectoryView,
    e: DirectoryView,
    ids: Seq<Seq<char>>,
    identity: IdentityView,
    id: Seq<char>,
    policy: Seq<Seq<char>>,
)
    requires
        agree(d, e, ids),
        ids.contains(id),
    ensures
        task_at(e, identity, id, policy) == task_at(d, identity, id, policy),
        task_bytes_at(e, id) == task_bytes_at(d, id),
        e.distinct(task_name(id)) == d.distinct(task_name(id)),
        forall|t: TaskView| t.task_id == id ==> #[trigger] markdown_in(e, t) == markdown_in(d, t),
{
    lemma_own_files(d, e, ids, id);
    lemma_same_task(d, e, identity, id, policy);
}

proof fn lemma_counted_same(
    d: DirectoryView,
    e: DirectoryView,
    ids: Seq<Seq<char>>,
    tasks: Seq<SummaryView>,
    k: nat,
    target: TargetView,
    base: u64,
)
    requires
        agree(d, e, ids),
        covered(tasks, ids),
    ensures
        after_tasks(e, tasks, k, target, base) == after_tasks(d, tasks, k, target, base),
    decreases k,
{
    if 0 < k <= tasks.len() {
        lemma_counted_same(d, e, ids, tasks, (k - 1) as nat, target, base);
        assert(ids.contains(tasks[k - 1].task_id));
        lemma_own_files(d, e, ids, tasks[k - 1].task_id);
    }
}

/// The listed tasks take the same bytes.
proof fn lemma_capacity_same(
    d: DirectoryView,
    e: DirectoryView,
    ids: Seq<Seq<char>>,
    v: IndexView,
    target: TargetView,
)
    requires
        agree(d, e, ids),
        covered(v.tasks, ids),
    ensures
        capacity_of(e, v, target) == capacity_of(d, v, target),
        capacity_check(e, v, target) == capacity_check(d, v, target),
{
    if index_bytes(v) is Ok {
        lemma_counted_same(
            d,
            e,
            ids,
            v.tasks,
            v.tasks.len(),
            target,
            index_bytes(v)->Ok_0.len() as u64,
        );
    }
}

proof fn lemma_surveyed_same(
    d: DirectoryView,
    e: DirectoryView,
    ids: Seq<Seq<char>>,
    identity: IdentityView,
    tasks: Seq<SummaryView>,
    k: nat,
    policy: Seq<Seq<char>>,
)
    requires
        agree(d, e, ids),
        covered(tasks, ids),
    ensures
        surveyed(e, identity, tasks, k, policy) == surveyed(d, identity, tasks, k, policy),
    decreases k,
{
    if 0 < k <= tasks.len() {
        lemma_surveyed_same(d, e, ids, identity, tasks, (k - 1) as nat, policy);
        assert(ids.contains(tasks[k - 1].task_id));
        lemma_read_same(d, e, ids, identity, tasks[k - 1].task_id, policy);
    }
}

proof fn lemma_loadable_same(
    d: DirectoryView,
    e: DirectoryView,
    ids: Seq<Seq<char>>,
    identity: IdentityView,
    tasks: Seq<SummaryView>,
    k: nat,
    policy: Seq<Seq<char>>,
)
    requires
        agree(d, e, ids),
        covered(tasks, ids),
    ensures
        all_loadable(e, identity, tasks, k, policy) == all_loadable(d, identity, tasks, k, policy),
    decreases k,
{
    if 0 < k <= tasks.len() {
        lemma_loadable_same(d, e, ids, identity, tasks, (k - 1) as nat, policy);
        assert(ids.contains(tasks[k - 1].task_id));
        lemma_read_same(d, e, ids, identity, tasks[k - 1].task_id, policy);
    }
}

/// Listed ids are concerned where they are among the ids.
proof fn lemma_listed_covered(tasks: Seq<SummaryView>, ids: Seq<Seq<char>>)
    requires
        forall|x: Seq<char>| #[trigger] task_ids(tasks).contains(x) ==> ids.contains(x),
    ensures
        covered(tasks, ids),
{
    assert forall|i: int| 0 <= i < tasks.len() implies ids.contains(
        (#[trigger] tasks[i]).task_id,
    ) by {
        assert(task_ids(tasks)[i] == tasks[i].task_id);
        assert(task_ids(tasks).contains(tasks[i].task_id));
    }
}

proof fn lemma_concat_contains(a: Seq<Seq<char>>, b: Seq<Seq<char>>, x: Seq<char>)
    requires
        a.contains(x) || b.contains(x),
    ensures
        (a + b).contains(x),
{
    if a.contains(x) {
        let i = choose|i: int| 0 <= i < a.len() && a[i] == x;
        assert((a + b)[i] == x);
    } else {
        let i = choose|i: int| 0 <= i < b.len() && b[i] == x;
        assert((a + b)[a.len() + i] == x);
    }
}

/// The concerned tasks of a checked request: the named one, and the listed ones
/// that it counts.
proof fn lemma_concerned(d: DirectoryView, identity: IdentityView, r: RequestView)
    ensures
        ({
            let ids = concerned_ids(AskedView::Checked(r), d);
            &&& r.task_id is Some ==> ids.contains(r.task_id->0)
            &&& index_at(d, identity) matches Ok(Some(v)) ==> {
                &&& r.action == Action::Archive ==> covered(v.retired_tasks, ids)
                &&& r.action == Action::Status || r.action == Action::Create || r.action
                    == Action::Append || r.action == Action::Bind ==> covered(v.tasks, ids)
            }
        }),
{
    let ids = concerned_ids(AskedView::Checked(r), d);
    let own = named_ids(r);
    if r.task_id is Some {
        assert(own[0] == r.task_id->0);
        assert(own.contains(r.task_id->0));
        lemma_concat_contains(own, active_ids(d), r.task_id->0);
        lemma_concat_contains(own, retired_ids(d), r.task_id->0);
    }
    if index_at(d, identity) is Ok && index_at(d, identity)->Ok_0 is Some {
        let v = index_at(d, identity)->Ok_0->0;
        assert(listed_index(d) == Some(v));
        if r.action == Action::Archive {
            assert forall|x: Seq<char>| #[trigger]
                task_ids(v.retired_tasks).contains(x) implies ids.contains(x) by {
                lemma_concat_contains(own, retired_ids(d), x);
            }
            lemma_listed_covered(v.retired_tasks, ids);
        } else if r.action != Action::Read && r.action != Action::Disable {
            assert forall|x: Seq<char>| #[trigger] task_ids(v.tasks).contains(x) implies ids.contains(
                x,
            ) by {
                lemma_concat_contains(own, active_ids(d), x);
            }
            lemma_listed_covered(v.tasks, ids);
        }
    }
}

proof fn lemma_status_same(
    d: DirectoryView,
    e: DirectoryView,
    identity: IdentityView,
    r: RequestView,
    policy: Seq<Seq<char>>,
)
    requires
        r.action == Action::Status,
        agree(d, e, concerned_ids(AskedView::Checked(r), d)),
    ensures
        overview_of(e, identity, r.client_id, policy) == overview_of(
            d,
            identity,
            r.client_id,
            policy,
        ),
{
    let ids = concerned_ids(AskedView::Checked(r), d);
    lemma_shared_files(d, e, ids);
    lemma_concerned(d, identity, r);
    if index_at(d, identity) is Ok && index_at(d, identity)->Ok_0 is Some {
        let v = index_at(d, identity)->Ok_0->0;
        lemma_surveyed_same(d, e, ids, identity, v.tasks, v.tasks.len(), policy);
        lemma_capacity_same(d, e, ids, v, no_target());
    }
}

proof fn lemma_create_same(
    d: DirectoryView,
    e: DirectoryView,
    identity: IdentityView,
    r: RequestView,
    policy: Seq<Seq<char>>,
    now: i64,
)
    requires
        r.action == Action::Create,
        r.task_id is Some,
        agree(d, e, concerned_ids(AskedView::Checked(r), d)),
    ensures
        creation_of(e, identity, r, now) == creation_of(d, identity, r, now),
{
    let ids = concerned_ids(AskedView::Checked(r), d);
    let id = r.task_id->0;
    lemma_shared_files(d, e, ids);
    lemma_concerned(d, identity, r);
    lemma_own_files(d, e, ids, id);
    lemma_read_same(d, e, ids, identity, id, policy);
    let v = base_index(d, identity, now);
    let task = fresh_task(identity, id, r.title->0, r.event, now);
    if with_task(v, summarized(task), now) is Ok {
        let listed = with_task(v, summarized(task), now)->Ok_0;
        if bound_index(listed, r, id) is Ok {
            let index = bound_index(listed, r, id)->Ok_0;
            let all = v.tasks.push(summarized(task));
            lemma_sorted_keeps(all);
            assert(covered(index.tasks, ids)) by {
                assert forall|i: int| 0 <= i < index.tasks.len() implies ids.contains(
                    (#[trigger] index.tasks[i]).task_id,
                ) by {
                    assert(by_id(all).contains(index.tasks[i]));
                    assert(all.contains(index.tasks[i]));
                    let j = choose|j: int| 0 <= j < all.len() && all[j] == index.tasks[i];
                    if j < v.tasks.len() {
                        assert(ids.contains(v.tasks[j].task_id));
                    }
                }
            }
            if task_bytes(task) is Ok && markdown_in(d, task) is Ok {
                lemma_capacity_same(
                    d,
                    e,
                    ids,
                    index,
                    target_of(id, task_bytes(task)->Ok_0, markdown_in(d, task)->Ok_0.bytes),
                );
            }
        }
    }
}

/// An index with one summary replaced lists the same tasks.
proof fn lemma_summary_covered(v: IndexView, t: TaskView, now: i64, ids: Seq<Seq<char>>)
    requires
        covered(v.tasks, ids),
        has_task(v.tasks, t.task_id),
        ids.contains(t.task_id),
        with_summary(v, t, now) is Ok,
    ensures
        covered(with_summary(v, t, now)->Ok_0.tasks, ids),
{
    let w = with_summary(v, t, now)->Ok_0;
    lemma_position_valid(v.tasks, t.task_id);
    assert forall|i: int| 0 <= i < w.tasks.len() implies ids.contains(
        (#[trigger] w.tasks[i]).task_id,
    ) by {
        assert(ids.contains(v.tasks[i].task_id));
    }
}

proof fn lemma_repetition_same(
    d: DirectoryView,
    f: DirectoryView,
    ids: Seq<Seq<char>>,
    identity: IdentityView,
    v: IndexView,
    t: TaskView,
    e: EventView,
    digest: Seq<char>,
    policy: Seq<Seq<char>>,
    now: i64,
)
    requires
        agree(d, f, ids),
        covered(v.tasks, ids),
        has_task(v.tasks, t.task_id),
        ids.contains(t.task_id),
    ensures
        repetition_of(f, v, t, e, digest, now) == repetition_of(d, v, t, e, digest, now),
{
    lemma_read_same(d, f, ids, identity, t.task_id, policy);
    let known = remembered(t, e, digest);
    if markdown_in(d, t) is Ok {
        let markdown = markdown_in(d, t)->Ok_0.bytes;
        if task_bytes(known) is Ok {
            let tb = task_bytes(known)->Ok_0;
            lemma_capacity_same(d, f, ids, v, target_of(t.task_id, tb, markdown));
            if with_summary(v, known, now) is Ok {
                lemma_summary_covered(v, known, now, ids);
                lemma_capacity_same(
                    d,
                    f,
                    ids,
                    with_summary(v, known, now)->Ok_0,
                    target_of(t.task_id, tb, None),
                );
            }
        }
    }
}

proof fn lemma_growth_same(
    d: DirectoryView,
    f: DirectoryView,
    ids: Seq<Seq<char>>,
    identity: IdentityView,
    v: IndexView,
    t: TaskView,
    e: EventView,
    expected: u64,
    policy: Seq<Seq<char>>,
    now: i64,
)
    requires
        agree(d, f, ids),
        covered(v.tasks, ids),
        has_task(v.tasks, t.task_id),
        ids.contains(t.task_id),
    ensures
        growth_of(f, v, t, e, expected, now) == growth_of(d, v, t, e, expected, now),
{
    lemma_own_files(d, f, ids, t.task_id);
    lemma_read_same(d, f, ids, identity, t.task_id, policy);
    if growth_result(v, t, e, now) is Some {
        let (index, larger, task, planned) = growth_result(v, t, e, now)->0;
        lemma_summary_covered(v, larger, now, ids);
        if task_bytes(task) is Ok && markdown_in(d, task) is Ok {
            lemma_capacity_same(
                d,
                f,
                ids,
                index,
                target_of(
                    task.task_id,
                    task_bytes(task)->Ok_0,
                    markdown_in(d, task)->Ok_0.bytes,
                ),
            );
        }
        assert(segment_write(f, planned) == segment_write(d, planned));
    }
}

proof fn lemma_append_same(
    d: DirectoryView,
    e: DirectoryView,
    identity: IdentityView,
    r: RequestView,
    policy: Seq<Seq<char>>,
    now: i64,
)
    requires
        r.action == Action::Append,
        r.task_id is Some,
        agree(d, e, concerned_ids(AskedView::Checked(r), d)),
    ensures
        append_of(e, identity, r, policy, now) == append_of(d, identity, r, policy, now),
{
    let ids = concerned_ids(AskedView::Checked(r), d);
    let id = r.task_id->0;
    lemma_shared_files(d, e, ids);
    lemma_concerned(d, identity, r);
    lemma_read_same(d, e, ids, identity, id, policy);
    if enabled_index(d, identity) is Ok && task_at(d, identity, id, policy) is Ok {
        let v = enabled_index(d, identity)->Ok_0;
        let t = task_at(d, identity, id, policy)->Ok_0;
        assert(t.task_id == id);
        if has_task(v.tasks, id) && identified(t, r.event->0) is Ok {
            lemma_repetition_same(
                d,
                e,
                ids,
                identity,
                v,
                t,
                r.event->0,
                identified(t, r.event->0)->Ok_0,
                policy,
                now,
            );
            lemma_growth_same(
                d,
                e,
                ids,
                identity,
                v,
                t,
                r.event->0,
                r.expected_revision->0,
                policy,
                now,
            );
        }
    }
}

proof fn lemma_bind_same(
    d: DirectoryView,
    e: DirectoryView,
    identity: IdentityView,
    r: RequestView,
    policy: Seq<Seq<char>>,
    now: i64,
)
    requires
        r.action == Action::Bind,
        r.task_id is Some,
        agree(d, e, concerned_ids(AskedView::Checked(r), d)),
    ensures
        bind_of(e, identity, r, now) == bind_of(d, identity, r, now),
{
    let ids = concerned_ids(AskedView::Checked(r), d);
    let id = r.task_id->0;
    lemma_shared_files(d, e, ids);
    lemma_concerned(d, identity, r);
    lemma_read_same(d, e, ids, identity, id, policy);
    if enabled_index(d, identity) is Ok {
        let v = enabled_index(d, identity)->Ok_0;
        let index = rebound(v, client_of(r)->0, id, now)->Ok_0;
        if rebound(v, client_of(r)->0, id, now) is Ok && task_bytes_at(d, id) is Ok {
            assert(index.tasks == v.tasks);
            lemma_capacity_same(
                d,
                e,
                ids,
                index,
                TargetView {
                    task_id: id,
                    bytes: task_bytes_at(d, id)->Ok_0,
                    distinct: d.distinct(task_name(id)),
                    markdown: None,
                },
            );
        }
    }
}

proof fn lemma_archive_same(
    d: DirectoryView,
    e: DirectoryView,
    identity: IdentityView,
    r: RequestView,
    policy: Seq<Seq<char>>,
    now: i64,
    coordinated: bool,
)
    requires
        r.action == Action::Archive,
        r.task_id is Some,
        agree(d, e, concerned_ids(AskedView::Checked(r), d)),
    ensures
        archive_request_of(e, identity, r, policy, now, coordinated) == archive_request_of(
            d,
            identity,
            r,
            policy,
            now,
            coordinated,
        ),
{
    let ids = concerned_ids(AskedView::Checked(r), d);
    let id = r.task_id->0;
    lemma_shared_files(d, e, ids);
    lemma_concerned(d, identity, r);
    lemma_read_same(d, e, ids, identity, id, policy);
    if enabled_index(d, identity) is Ok && task_at(d, identity, id, policy) is Ok {
        let v = enabled_index(d, identity)->Ok_0;
        let t = task_at(d, identity, id, policy)->Ok_0;
        assert(t.task_id == id);
        if retired_index(v, t, now) is Ok {
            let index = history_index(retired_index(v, t, now)->Ok_0);
            assert(index.tasks == v.retired_tasks.push(summarized(t)));
            assert forall|i: int| 0 <= i < index.tasks.len() implies ids.contains(
                (#[trigger] index.tasks[i]).task_id,
            ) by {
                if i < v.retired_tasks.len() {
                    assert(ids.contains(v.retired_tasks[i].task_id));
                }
            }
            lemma_capacity_same(d, e, ids, index, no_target());
        }
    }
}

proof fn lemma_repair_same(
    d: DirectoryView,
    e: DirectoryView,
    n: Node,
    current: IdentityView,
    host: HostView,
    policy: Seq<Seq<char>>,
)
    requires
        agree(d, e, concerned_ids(AskedView::Repair, d)),
    ensures
        repair_plan(e, n, current, host, policy) == repair_plan(d, n, current, host, policy),
{
    let ids = concerned_ids(AskedView::Repair, d);
    lemma_shared_files(d, e, ids);
    if listed_index(d) is Some {
        let v = listed_index(d)->0;
        let all = v.tasks + v.retired_tasks;
        assert(task_ids(all) =~= ids);
        lemma_listed_covered(all, ids);
        lemma_loadable_same(d, e, ids, v.project_identity, all, all.len(), policy);
    }
}

/// What a request writes and how it is answered depends on the files that it
/// concerns alone: a directory without the others gives the same.
pub proof fn law_other_files_do_not_matter(
    d: DirectoryView,
    e: DirectoryView,
    identity: IdentityView,
    n: Node,
    a: AskedView,
    policy: Seq<Seq<char>>,
    now: i64,
    host: HostView,
    coordinated: bool,
)
    requires
        asked_of(n, policy, coordinated) == Ok::<_, Failure>(a),
        agree(d, e, concerned_ids(a, d)),
    ensures
        planned(e, identity, n, a, policy, now, host, coordinated) == planned(
            d,
            identity,
            n,
            a,
            policy,
            now,
            host,
            coordinated,
        ),
        concerned_ids(a, e) == concerned_ids(a, d),
{
    let ids = concerned_ids(a, d);
    lemma_shared_files(d, e, ids);
    match a {
        AskedView::Repair => {
            lemma_repair_same(d, e, n, identity, host, policy);
        },
        AskedView::Checked(r) => {
            law_request_is_checked(n, policy);
            match r.action {
                Action::Status => {
                    lemma_status_same(d, e, identity, r, policy);
                },
                Action::Read => {
                    lemma_concerned(d, identity, r);
                    lemma_read_same(d, e, ids, identity, r.task_id->0, policy);
                },
                Action::Create => {
                    lemma_create_same(d, e, identity, r, policy, now);
                },
                Action::Append => {
                    lemma_append_same(d, e, identity, r, policy, now);
                },
                Action::Bind => {
                    lemma_bind_same(d, e, identity, r, policy, now);
                },
                Action::Archive => {
                    lemma_archive_same(d, e, identity, r, policy, now, coordinated);
                },
                Action::Disable => {},
            }
        },
    }
}

} // verus!
