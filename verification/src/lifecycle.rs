//! Binding clients, archiving finished tasks, and turning a checkpoint off.
use vstd::prelude::*;
use crate::actions::{next_revision, no_target, successor, summarized, task_summary_struct};
use crate::appending::{enabled_index, load_enabled};
use crate::checks::{
    INDEX_FILE_NAME, MAX_RETIRED_BYTES, MAX_RETIRED_TASK_COUNT, all_summaries, has_task,
    includes_task, task_file_name, task_name,
};
use crate::commit::{Plan, PlannedView, Write, answer, plain_write, refusal};
use crate::directory::{
    Directory, DirectoryView, index_at, load_index, load_task, read_existing_task_bytes, task_at,
    task_bytes_at,
};
use crate::failure::{Failure, refuse, refused, revision_conflict, stale, views};
use crate::jobs::{all_ended, job_projection, jobs_of};
use crate::mutations::{client_named, client_of, reject_retired_binding, retired_check};
use crate::path::{PathPolicy};
use crate::records::{
    IdentityView, IndexFile, IndexView, ProjectIdentity, SummaryView, TaskFile, TaskSummary,
    TaskView, copy_summaries,
};
use crate::reply::{Reply, ReplyView};
use crate::request::{Request, RequestView};
use crate::table::{assign, lemma_put_ordered, ordered, put};
use crate::text::{has_prefix, owned, same, starts_with};
use crate::writing::{
    Target, TargetView, capacity_check, capacity_of, check_total_capacity, index_back,
    index_bytes, serialize_index, total_capacity_bytes,
};

verus! {

/// The write that commits a new index.
pub open spec fn index_commit(index: Seq<u8>, reply: ReplyView) -> PlannedView {
    PlannedView {
        writes: seq![plain_write(INDEX_FILE_NAME@, index, true, false)],
        reply: Ok(reply),
    }
}

fn commit_index(index_bytes: Vec<u8>, reply: Reply) -> (r: Plan)
    ensures
        r@ == index_commit(index_bytes@, reply@),
{
    let writes = vec![Write::plain(owned(INDEX_FILE_NAME), index_bytes, true, false)];
    proof {
        assert(views(writes@) =~= seq![
            plain_write(INDEX_FILE_NAME@, index_bytes@, true, false),
        ]);
    }
    Plan { writes, reply: Ok(reply) }
}

// ---------------------------------------------------------------------------
// Bind.
// ---------------------------------------------------------------------------

/// The index with a client bound to a task.
pub open spec fn rebound(v: IndexView, client: Seq<char>, id: Seq<char>, now: i64) -> Result<
    IndexView,
    Failure,
> {
    match retired_check(v, client) {
        Err(e) => Err(e),
        Ok(_) => match successor(v.revision) {
            Err(e) => Err(e),
            Ok(revision) => Ok(
                IndexView {
                    bindings: put(v.bindings, client, id),
                    revision,
                    updated_at: now,
                    ..v
                },
            ),
        },
    }
}

/// What a bind request writes and how it is answered.
pub open spec fn bind_of(
    d: DirectoryView,
    identity: IdentityView,
    r: RequestView,
    now: i64,
) -> PlannedView {
    let id = r.task_id->0;
    let client = client_of(r)->0;
    match enabled_index(d, identity) {
        Err(f) => refusal(f),
        Ok(v) => if !has_task(v.tasks, id) {
            refusal(refused("task_not_found", "task does not exist"))
        } else if r.expected_revision is Some && r.expected_revision->0 != v.revision {
            refusal(stale(r.expected_revision->0, v.revision))
        } else {
            match rebound(v, client, id, now) {
                Err(f) => refusal(f),
                Ok(index) => match index_bytes(index) {
                    Err(f) => refusal(f),
                    Ok(ib) => match task_bytes_at(d, id) {
                        Err(f) => refusal(f),
                        Ok(tb) => {
                            let target = TargetView {
                                task_id: id,
                                bytes: tb,
                                distinct: d.distinct(task_name(id)),
                                markdown: None,
                            };
                            match capacity_check(d, index, target) {
                                Err(f) => refusal(f),
                                Ok(_) => index_commit(
                                    ib,
                                    ReplyView::Bound {
                                        task_id: id,
                                        client_id: client,
                                        revision: index.revision,
                                    },
                                ),
                            }
                        },
                    },
                },
            }
        },
    }
}

/// What a bind request writes and how it is answered.
pub fn bind(
    handoff: &Directory,
    identity: &ProjectIdentity,
    request: &Request,
    now: i64,
) -> (r: Plan)
    requires
        request@.task_id is Some,
        client_of(request@) is Some,
    ensures
        r@ == bind_of(handoff@, identity@, request@, now),
        r@.reply is Ok ==> index_back(
            rebound(
                enabled_index(handoff@, identity@)->Ok_0,
                client_of(request@)->0,
                request@.task_id->0,
                now,
            )->Ok_0,
        ),
{
    let task_id = request.task_id.as_ref().unwrap().as_str();
    let client = client_named(request).unwrap();
    let mut index = match load_enabled(handoff, identity) {
        Err(e) => {
            return Plan::refusal(e);
        },
        Ok(index) => index,
    };
    if !includes_task(&index.tasks, task_id) {
        return Plan::refusal(refuse("task_not_found", "task does not exist"));
    }
    match request.expected_revision {
        Some(n) => if n != index.revision {
            return Plan::refusal(revision_conflict(n, index.revision));
        },
        None => {},
    }
    match reject_retired_binding(&index, client.as_str()) {
        Err(e) => {
            return Plan::refusal(e);
        },
        Ok(_) => {},
    }
    let revision: u64 = match next_revision(index.revision) {
        Err(e) => {
            return Plan::refusal(e);
        },
        Ok(n) => n,
    };
    proof {
        lemma_put_ordered(index@.bindings, client@, task_id@);
    }
    assign(&mut index.bindings, client.clone(), owned(task_id));
    index.revision = revision;
    index.updated_at = now;
    let index_bytes = match serialize_index(&index) {
        Err(e) => {
            return Plan::refusal(e);
        },
        Ok(b) => b,
    };
    let task_bytes = match read_existing_task_bytes(handoff, task_id) {
        Err(e) => {
            return Plan::refusal(e);
        },
        Ok(b) => b,
    };
    let target = Target {
        task_id,
        bytes: &task_bytes,
        distinct: handoff.distinct(task_file_name(task_id).as_str()),
        markdown: None,
    };
    match check_total_capacity(handoff, &index, &target) {
        Err(e) => {
            return Plan::refusal(e);
        },
        Ok(_) => {},
    }
    commit_index(
        index_bytes,
        Reply::Bound { task_id: owned(task_id), client_id: client, revision },
    )
}

// ---------------------------------------------------------------------------
// Archive.
// ---------------------------------------------------------------------------

/// Whether a session of the server is bound to the task.
pub open spec fn server_bound(v: IndexView, id: Seq<char>) -> bool {
    exists|i: int|
        0 <= i < v.bindings.len() && (#[trigger] v.bindings[i]).1 == id && has_prefix(
            v.bindings[i].0,
            "webcodex:"@,
        )
}

/// Whether nothing of the task is open: it is completed, with nothing unknown
/// and every job ended.
pub open spec fn resolved(t: TaskView) -> bool {
    &&& t.status == "completed"@
    &&& t.unknown_count == 0
    &&& forall|i: int| 0 <= i < jobs_of(t.events).len() ==> (#[trigger] jobs_of(t.events)[i]).terminal
}

/// The summaries without those of a task.
pub open spec fn without_task(s: Seq<SummaryView>, id: Seq<char>) -> Seq<SummaryView>
    decreases s.len(),
{
    if s.len() == 0 {
        Seq::empty()
    } else {
        let prior = without_task(s.drop_last(), id);
        if s.last().task_id == id {
            prior
        } else {
            prior.push(s.last())
        }
    }
}

/// The index with a task moved to the retired ones.
pub open spec fn retired_index(v: IndexView, t: TaskView, now: i64) -> Result<IndexView, Failure> {
    match successor(v.revision) {
        Err(e) => Err(e),
        Ok(revision) => Ok(
            IndexView {
                tasks: without_task(v.tasks, t.task_id),
                retired_tasks: v.retired_tasks.push(summarized(t)),
                version: 2,
                revision,
                updated_at: now,
                ..v
            },
        ),
    }
}

/// The index whose active tasks are the retired ones, for the accounting of
/// retained history.
pub open spec fn history_index(v: IndexView) -> IndexView {
    IndexView { tasks: v.retired_tasks, ..v }
}

/// Why a task cannot be archived.
pub open spec fn retirement_check(
    v: IndexView,
    t: TaskView,
    expected: u64,
    coordinated: bool,
) -> Result<(), Failure> {
    if t.revision != expected {
        Err(stale(expected, t.revision))
    } else if !coordinated && server_bound(v, t.task_id) {
        Err(
            refused(
                "server_retirement_required",
                "archive the task through its Server to check undelivered facts",
            ),
        )
    } else if !resolved(t) {
        Err(
            refused(
                "task_unresolved",
                "task must be completed with no unknown or nonterminal work",
            ),
        )
    } else {
        Ok(())
    }
}

/// Moving a task to the retired ones. One index replacement is the commit
/// point: the files of the task are not written.
pub open spec fn retirement_in(
    d: DirectoryView,
    v: IndexView,
    t: TaskView,
    now: i64,
) -> PlannedView {
    if v.retired_tasks.len() >= MAX_RETIRED_TASK_COUNT {
        refusal(
            refused("capacity_exceeded", "archived task capacity is full; history was retained"),
        )
    } else {
        match retired_index(v, t, now) {
            Err(f) => refusal(f),
            Ok(index) => match capacity_of(d, history_index(index), no_target()) {
                Err(f) => refusal(f),
                Ok(n) => if n > MAX_RETIRED_BYTES {
                    refusal(
                        refused("capacity_exceeded", "archived history byte capacity is full"),
                    )
                } else {
                    match index_bytes(index) {
                        Err(f) => refusal(f),
                        Ok(ib) => index_commit(
                            ib,
                            ReplyView::Archived {
                                task_id: t.task_id,
                                revision: t.revision,
                                duplicate: false,
                            },
                        ),
                    }
                },
            },
        }
    }
}

/// What an archive request writes and how it is answered.
pub open spec fn archive_request_of(
    d: DirectoryView,
    identity: IdentityView,
    r: RequestView,
    policy: Seq<Seq<char>>,
    now: i64,
    coordinated: bool,
) -> PlannedView {
    let id = r.task_id->0;
    match enabled_index(d, identity) {
        Err(f) => refusal(f),
        Ok(v) => if !has_task(v.tasks + v.retired_tasks, id) {
            refusal(refused("task_not_found", "task does not exist"))
        } else {
            match task_at(d, identity, id, policy) {
                Err(f) => refusal(f),
                Ok(t) => match retirement_check(v, t, r.expected_revision->0, coordinated) {
                    Err(f) => refusal(f),
                    Ok(_) => if has_task(v.retired_tasks, id) {
                        answer(
                            ReplyView::Archived {
                                task_id: id,
                                revision: t.revision,
                                duplicate: true,
                            },
                        )
                    } else {
                        retirement_in(d, v, t, now)
                    },
                },
            }
        },
    }
}

fn bound_by_server(index: &IndexFile, task_id: &str) -> (r: bool)
    ensures
        r == server_bound(index@, task_id@),
{
    let mut i: usize = 0;
    while i < index.bindings.len()
        invariant
            i <= index.bindings@.len(),
            forall|j: int|
                0 <= j < i ==> !((#[trigger] index@.bindings[j]).1 == task_id@ && has_prefix(
                    index@.bindings[j].0,
                    "webcodex:"@,
                )),
        decreases index.bindings@.len() - i,
    {
        proof {
            assert(index@.bindings[i as int] == (
                index.bindings@[i as int].0@,
                index.bindings@[i as int].1@,
            ));
        }
        if same(index.bindings[i].1.as_str(), task_id) && starts_with(
            index.bindings[i].0.as_str(),
            "webcodex:",
        ) {
            return true;
        }
        i += 1;
    }
    false
}

fn drop_task(tasks: &Vec<TaskSummary>, id: &str) -> (r: Vec<TaskSummary>)
    ensures
        views(r@) == without_task(views(tasks@), id@),
{
    let mut out: Vec<TaskSummary> = Vec::new();
    let mut i: usize = 0;
    proof {
        assert(views(tasks@).take(0) =~= Seq::<SummaryView>::empty());
        assert(views(out@) =~= Seq::<SummaryView>::empty());
    }
    while i < tasks.len()
        invariant
            i <= tasks@.len(),
            views(out@) == without_task(views(tasks@).take(i as int), id@),
        decreases tasks@.len() - i,
    {
        let ghost prior = views(out@);
        proof {
            assert(views(tasks@).take(i + 1).drop_last() =~= views(tasks@).take(i as int));
            assert(views(tasks@).take(i + 1).last() == tasks@[i as int]@);
        }
        if !same(tasks[i].task_id.as_str(), id) {
            let kept = tasks[i].copy();
            out.push(kept);
            proof {
                assert(views(out@) =~= prior.push(kept@));
            }
        }
        i += 1;
    }
    proof {
        assert(views(tasks@).take(tasks@.len() as int) =~= views(tasks@));
    }
    out
}

fn check_retirement(index: &IndexFile, task: &TaskFile, expected: u64, coordinated: bool) -> (r:
    Result<(), Failure>)
    ensures
        r == retirement_check(index@, task@, expected, coordinated),
{
    if task.revision != expected {
        return Err(revision_conflict(expected, task.revision));
    }
    if !coordinated && bound_by_server(index, task.task_id.as_str()) {
        return Err(
            refuse(
                "server_retirement_required",
                "archive the task through its Server to check undelivered facts",
            ),
        );
    }
    let jobs = job_projection(&task.events);
    proof {
        assert(views(jobs@).len() == jobs@.len());
    }
    if !same(task.status.as_str(), "completed") || task.unknown_count != 0 || !all_ended(&jobs) {
        return Err(
            refuse("task_unresolved", "task must be completed with no unknown or nonterminal work"),
        );
    }
    Ok(())
}

fn retire_task(handoff: &Directory, index: IndexFile, task: &TaskFile, now: i64) -> (r: Plan)
    ensures
        r@ == retirement_in(handoff@, index@, task@, now),
        r@.reply is Ok && ordered(index@.bindings) ==> index_back(
            retired_index(index@, task@, now)->Ok_0,
        ),
{
    let ghost before = index@;
    proof {
        assert(index@.retired_tasks.len() == index.retired_tasks@.len());
    }
    if index.retired_tasks.len() >= MAX_RETIRED_TASK_COUNT {
        return Plan::refusal(
            refuse("capacity_exceeded", "archived task capacity is full; history was retained"),
        );
    }
    let revision: u64 = match next_revision(index.revision) {
        Err(e) => {
            return Plan::refusal(e);
        },
        Ok(n) => n,
    };
    let mut index = index;
    index.tasks = drop_task(&index.tasks, task.task_id.as_str());
    let summary = task_summary_struct(task);
    let ghost item = summary@;
    index.retired_tasks.push(summary);
    proof {
        assert(views(index.retired_tasks@) =~= before.retired_tasks.push(item));
    }
    index.version = 2;
    index.revision = revision;
    index.updated_at = now;
    let mut history = index.copy();
    history.tasks = copy_summaries(&index.retired_tasks);
    let empty: Vec<u8> = Vec::new();
    let target = Target { task_id: "", bytes: &empty, distinct: true, markdown: None };
    proof {
        reveal_strlit("");
        assert(""@ =~= Seq::<char>::empty());
        assert(target@.bytes =~= Seq::<u8>::empty());
        assert(target@ == no_target());
    }
    match total_capacity_bytes(handoff, &history, &target) {
        Err(e) => {
            return Plan::refusal(e);
        },
        Ok(n) => if n > MAX_RETIRED_BYTES {
            return Plan::refusal(
                refuse("capacity_exceeded", "archived history byte capacity is full"),
            );
        },
    }
    match serialize_index(&index) {
        Err(e) => Plan::refusal(e),
        Ok(b) => commit_index(
            b,
            Reply::Archived {
                task_id: task.task_id.clone(),
                revision: task.revision,
                duplicate: false,
            },
        ),
    }
}

/// What an archive request writes and how it is answered. `coordinated` says
/// that the server has frozen the task and verified its deliveries.
pub fn archive_task(
    handoff: &Directory,
    identity: &ProjectIdentity,
    request: &Request,
    policy: &PathPolicy,
    now: i64,
    coordinated: bool,
) -> (r: Plan)
    requires
        request@.task_id is Some,
        request@.expected_revision is Some,
    ensures
        r@ == archive_request_of(handoff@, identity@, request@, policy@, now, coordinated),
        r@.reply is Ok && r@.writes.len() > 0 ==> index_back(
            retired_index(
                enabled_index(handoff@, identity@)->Ok_0,
                task_at(handoff@, identity@, request@.task_id->0, policy@)->Ok_0,
                now,
            )->Ok_0,
        ),
{
    let task_id = request.task_id.as_ref().unwrap().as_str();
    let expected: u64 = request.expected_revision.unwrap();
    let index = match load_enabled(handoff, identity) {
        Err(e) => {
            return Plan::refusal(e);
        },
        Ok(index) => index,
    };
    if !includes_task(&all_summaries(&index), task_id) {
        return Plan::refusal(refuse("task_not_found", "task does not exist"));
    }
    let task = match load_task(handoff, identity, task_id, policy) {
        Err(e) => {
            return Plan::refusal(e);
        },
        Ok(task) => task,
    };
    match check_retirement(&index, &task, expected, coordinated) {
        Err(e) => {
            return Plan::refusal(e);
        },
        Ok(_) => {},
    }
    if includes_task(&index.retired_tasks, task_id) {
        return Plan::answer(
            Ok(
                Reply::Archived {
                    task_id: owned(task_id),
                    revision: task.revision,
                    duplicate: true,
                },
            ),
        );
    }
    retire_task(handoff, index, &task, now)
}

// ---------------------------------------------------------------------------
// Disable.
// ---------------------------------------------------------------------------

/// The index turned off.
pub open spec fn disabled_index(v: IndexView, revision: u64, now: i64) -> IndexView {
    IndexView { enabled: false, revision, updated_at: now, ..v }
}

/// What a disable request writes and how it is answered.
pub open spec fn disable_of(
    d: DirectoryView,
    identity: IdentityView,
    r: RequestView,
    now: i64,
) -> PlannedView {
    match index_at(d, identity) {
        Err(f) => refusal(f),
        Ok(None) => answer(ReplyView::Disabled),
        Ok(Some(v)) => if r.expected_revision is Some && r.expected_revision->0 != v.revision {
            refusal(stale(r.expected_revision->0, v.revision))
        } else if !v.enabled {
            answer(ReplyView::Disabled)
        } else {
            match successor(v.revision) {
                Err(f) => refusal(f),
                Ok(revision) => match index_bytes(disabled_index(v, revision, now)) {
                    Err(f) => refusal(f),
                    Ok(ib) => index_commit(ib, ReplyView::TurnedOff { revision }),
                },
            }
        },
    }
}

/// What a disable request writes and how it is answered.
pub fn disable(
    handoff: &Directory,
    identity: &ProjectIdentity,
    request: &Request,
    now: i64,
) -> (r: Plan)
    ensures
        r@ == disable_of(handoff@, identity@, request@, now),
        r@.reply matches Ok(ReplyView::TurnedOff { revision }) ==> index_back(
            disabled_index(index_at(handoff@, identity@)->Ok_0->0, revision, now),
        ),
{
    let mut index = match load_index(handoff, identity) {
        Err(e) => {
            return Plan::refusal(e);
        },
        Ok(None) => {
            return Plan::answer(Ok(Reply::Disabled));
        },
        Ok(Some(index)) => index,
    };
    match request.expected_revision {
        Some(n) => if n != index.revision {
            return Plan::refusal(revision_conflict(n, index.revision));
        },
        None => {},
    }
    if !index.enabled {
        return Plan::answer(Ok(Reply::Disabled));
    }
    let revision: u64 = match next_revision(index.revision) {
        Err(e) => {
            return Plan::refusal(e);
        },
        Ok(n) => n,
    };
    index.enabled = false;
    index.revision = revision;
    index.updated_at = now;
    match serialize_index(&index) {
        Err(e) => Plan::refusal(e),
        Ok(b) => commit_index(b, Reply::TurnedOff { revision }),
    }
}

} // verus!
