//! The checkpoint actions: what each reads, what it writes, how it answers.
use vstd::prelude::*;
use vstd::utf8::*;
use crate::checks::{has_task, includes_task};
use crate::directory::{Directory, DirectoryView, index_at, load_index, load_task, task_at};
use crate::failure::{Failure, content, outcome, refuse, refused, views};
use crate::path::{PathPolicy};
use crate::records::{
    IdentityView, IndexFile, IndexView, ProjectIdentity, SummaryView, TaskFile, TaskSummary,
    TaskView,
};
use crate::reply::{
    Checkpoint, CheckpointView, Overview, OverviewView, Reply, ReplyView, renderable,
};
use crate::table::{get, lookup};
use crate::text::{lex_less, precedes, same};
use crate::writing::{Target, TargetView, capacity_of, total_capacity_bytes};

verus! {

/// The summary of a task.
pub open spec fn summarized(t: TaskView) -> SummaryView {
    SummaryView {
        task_id: t.task_id,
        title: t.title,
        status: t.status,
        revision: t.revision,
        updated_at: t.updated_at,
        event_count: t.events.len() as u64,
        unknown_count: t.unknown_count,
    }
}

pub fn task_summary_struct(task: &TaskFile) -> (r: TaskSummary)
    ensures
        r@ == summarized(task@),
{
    proof {
        assert(task@.events.len() == task.events@.len());
    }
    TaskSummary {
        task_id: task.task_id.clone(),
        title: task.title.clone(),
        status: task.status.clone(),
        revision: task.revision,
        updated_at: task.updated_at,
        event_count: task.events.len() as u64,
        unknown_count: task.unknown_count,
    }
}

/// The list with one more summary, put before the first greater id.
pub open spec fn placed(s: Seq<SummaryView>, x: SummaryView) -> Seq<SummaryView>
    decreases s.len(),
{
    if s.len() == 0 {
        seq![x]
    } else if lex_less(x.task_id, s[0].task_id) {
        seq![x] + s
    } else {
        seq![s[0]] + placed(s.drop_first(), x)
    }
}

/// The summaries in the order of their ids; equal ids keep their order.
pub open spec fn by_id(s: Seq<SummaryView>) -> Seq<SummaryView>
    decreases s.len(),
{
    if s.len() == 0 {
        Seq::empty()
    } else {
        placed(by_id(s.drop_last()), s.last())
    }
}

proof fn lemma_placed_at(s: Seq<SummaryView>, x: SummaryView, i: int)
    requires
        0 <= i <= s.len(),
        forall|j: int| 0 <= j < i ==> !lex_less(x.task_id, (#[trigger] s[j]).task_id),
        i < s.len() ==> lex_less(x.task_id, s[i].task_id),
    ensures
        placed(s, x) == s.insert(i, x),
    decreases s.len(),
{
    if s.len() == 0 {
        assert(placed(s, x) =~= s.insert(i, x));
    } else if i == 0 {
        assert(placed(s, x) =~= s.insert(0, x));
    } else {
        assert(!lex_less(x.task_id, s[0].task_id));
        assert forall|j: int| 0 <= j < i - 1 implies !lex_less(
            x.task_id,
            (#[trigger] s.drop_first()[j]).task_id,
        ) by {
            assert(!lex_less(x.task_id, s[j + 1].task_id));
        }
        lemma_placed_at(s.drop_first(), x, i - 1);
        assert(placed(s, x) =~= s.insert(i, x));
    }
}

fn place(list: &mut Vec<TaskSummary>, x: TaskSummary)
    ensures
        views(final(list)@) == placed(views(old(list)@), x@),
{
    let ghost before = views(list@);
    let ghost item = x@;
    let mut i: usize = 0;
    while i < list.len() && !precedes(x.task_id.as_str(), list[i].task_id.as_str())
        invariant
            i <= list@.len(),
            list@ == old(list)@,
            forall|j: int|
                0 <= j < i ==> !lex_less(x@.task_id, (#[trigger] views(list@)[j]).task_id),
        decreases list@.len() - i,
    {
        i += 1;
    }
    proof {
        lemma_placed_at(before, item, i as int);
    }
    list.insert(i, x);
    proof {
        assert(views(list@) =~= before.insert(i as int, item));
    }
}

pub fn sort_by_id(list: Vec<TaskSummary>) -> (r: Vec<TaskSummary>)
    ensures
        views(r@) == by_id(views(list@)),
{
    let ghost all = views(list@);
    let count: usize = list.len();
    let mut rest = list;
    let mut out: Vec<TaskSummary> = Vec::new();
    let mut done: usize = 0;
    proof {
        assert(all.take(0) =~= Seq::<SummaryView>::empty());
        assert(views(out@) =~= Seq::<SummaryView>::empty());
    }
    while done < count
        invariant
            done <= count,
            count == all.len(),
            views(rest@) == all.skip(done as int),
            views(out@) == by_id(all.take(done as int)),
        decreases count - done,
    {
        let ghost prior = views(rest@);
        proof {
            assert(prior.len() == rest@.len());
            assert(prior[0] == all[done as int]);
        }
        let next = rest.remove(0);
        proof {
            assert(views(rest@) =~= prior.skip(1));
            assert(prior.skip(1) =~= all.skip(done + 1));
            assert(all.take(done + 1).drop_last() =~= all.take(done as int));
            assert(all.take(done + 1).last() == next@);
        }
        place(&mut out, next);
        done += 1;
    }
    proof {
        assert(all.take(all.len() as int) =~= all);
    }
    out
}

/// The next revision.
pub open spec fn successor(revision: u64) -> Result<u64, Failure> {
    if revision == u64::MAX {
        Err(refused("revision_exhausted", "revision cannot be incremented"))
    } else {
        Ok((revision + 1) as u64)
    }
}

pub fn next_revision(revision: u64) -> (r: Result<u64, Failure>)
    ensures
        r == successor(revision),
{
    if revision == u64::MAX {
        Err(refuse("revision_exhausted", "revision cannot be incremented"))
    } else {
        Ok(revision + 1)
    }
}

// ---------------------------------------------------------------------------
// Status and read.
// ---------------------------------------------------------------------------

/// The summaries of the first `k` tasks as their files give them, and whether
/// one differs from the index.
pub open spec fn surveyed(
    d: DirectoryView,
    identity: IdentityView,
    tasks: Seq<SummaryView>,
    k: nat,
    policy: Seq<Seq<char>>,
) -> Result<(Seq<SummaryView>, bool), Failure>
    decreases k,
{
    if k == 0 || k > tasks.len() {
        Ok((Seq::empty(), false))
    } else {
        match surveyed(d, identity, tasks, (k - 1) as nat, policy) {
            Err(e) => Err(e),
            Ok((list, stale)) => match task_at(d, identity, tasks[k - 1].task_id, policy) {
                Err(e) => Err(e),
                Ok(t) => Ok((list.push(summarized(t)), stale || summarized(t) != tasks[k - 1])),
            },
        }
    }
}

/// No task is about to be written.
pub open spec fn no_target() -> TargetView {
    TargetView { task_id: Seq::empty(), bytes: Seq::empty(), distinct: true, markdown: None }
}

/// The active task that a client selected.
pub open spec fn selection(v: IndexView, client: Seq<char>) -> Option<Seq<char>> {
    match lookup(v.bindings, client) {
        Some(id) => if has_task(v.tasks, id) {
            Some(id)
        } else {
            None
        },
        None => None,
    }
}

/// What a status request is answered.
pub open spec fn overview_of(
    d: DirectoryView,
    identity: IdentityView,
    client: Option<Seq<char>>,
    policy: Seq<Seq<char>>,
) -> Result<ReplyView, Failure> {
    match index_at(d, identity) {
        Err(e) => Err(e),
        Ok(None) => Ok(ReplyView::Disabled),
        Ok(Some(v)) => if !v.enabled {
            Ok(ReplyView::Disabled)
        } else {
            match surveyed(d, identity, v.tasks, v.tasks.len(), policy) {
                Err(e) => Err(e),
                Ok((list, stale)) => match capacity_of(d, v, no_target()) {
                    Err(e) => Err(e),
                    Ok(used_bytes) => Ok(
                        ReplyView::Status(
                            OverviewView {
                                revision: v.revision,
                                tasks: by_id(list),
                                archived: v.retired_tasks,
                                used_bytes,
                                bound: match client {
                                    Some(c) => Some(selection(v, c)),
                                    None => None,
                                },
                                stale,
                            },
                        ),
                    ),
                },
            }
        },
    }
}

proof fn lemma_surveyed_fail(
    d: DirectoryView,
    identity: IdentityView,
    tasks: Seq<SummaryView>,
    k: nat,
    policy: Seq<Seq<char>>,
)
    requires
        k <= tasks.len(),
        surveyed(d, identity, tasks, k, policy) is Err,
    ensures
        surveyed(d, identity, tasks, tasks.len(), policy) == surveyed(
            d,
            identity,
            tasks,
            k,
            policy,
        ),
    decreases tasks.len() - k,
{
    if k < tasks.len() {
        lemma_surveyed_fail(d, identity, tasks, k + 1, policy);
    }
}

fn survey(
    handoff: &Directory,
    identity: &ProjectIdentity,
    tasks: &Vec<TaskSummary>,
    policy: &PathPolicy,
) -> (r: Result<(Vec<TaskSummary>, bool), Failure>)
    ensures
        match r {
            Ok((list, stale)) => surveyed(
                handoff@,
                identity@,
                views(tasks@),
                views(tasks@).len(),
                policy@,
            ) == Ok::<_, Failure>((views(list@), stale)),
            Err(e) => surveyed(handoff@, identity@, views(tasks@), views(tasks@).len(), policy@)
                == Err::<(Seq<SummaryView>, bool), Failure>(e),
        },
{
    let mut list: Vec<TaskSummary> = Vec::new();
    let mut stale = false;
    let mut i: usize = 0;
    proof {
        assert(views(list@) =~= Seq::<SummaryView>::empty());
    }
    while i < tasks.len()
        invariant
            i <= tasks@.len(),
            surveyed(handoff@, identity@, views(tasks@), i as nat, policy@) == Ok::<_, Failure>(
                (views(list@), stale),
            ),
        decreases tasks@.len() - i,
    {
        let ghost prior = views(list@);
        proof {
            assert(views(tasks@)[i as int] == tasks@[i as int]@);
        }
        match load_task(handoff, identity, tasks[i].task_id.as_str(), policy) {
            Err(e) => {
                proof {
                    lemma_surveyed_fail(
                        handoff@,
                        identity@,
                        views(tasks@),
                        (i + 1) as nat,
                        policy@,
                    );
                }
                return Err(e);
            },
            Ok(task) => {
                let summary = task_summary_struct(&task);
                if !summary.equals(&tasks[i]) {
                    stale = true;
                }
                list.push(summary);
                proof {
                    assert(views(list@) =~= prior.push(summary@));
                }
            },
        }
        i += 1;
    }
    Ok((list, stale))
}

fn select(index: &IndexFile, client: &str) -> (r: Option<String>)
    ensures
        content(r) == selection(index@, client@),
{
    match get(&index.bindings, client) {
        Some(id) => if includes_task(&index.tasks, id.as_str()) {
            Some(id.clone())
        } else {
            None
        },
        None => None,
    }
}

/// What a status request is answered.
pub fn status(
    handoff: &Directory,
    identity: &ProjectIdentity,
    client: Option<&str>,
    policy: &PathPolicy,
) -> (r: Result<Reply, Failure>)
    ensures
        outcome(r) == overview_of(
            handoff@,
            identity@,
            match client {
                Some(c) => Some(c@),
                None => None,
            },
            policy@,
        ),
{
    let index = match load_index(handoff, identity) {
        Err(e) => {
            return Err(e);
        },
        Ok(None) => {
            return Ok(Reply::Disabled);
        },
        Ok(Some(index)) => index,
    };
    if !index.enabled {
        return Ok(Reply::Disabled);
    }
    let (list, stale) = match survey(handoff, identity, &index.tasks, policy) {
        Err(e) => {
            return Err(e);
        },
        Ok(found) => found,
    };
    let empty: Vec<u8> = Vec::new();
    let target = Target { task_id: "", bytes: &empty, distinct: true, markdown: None };
    proof {
        reveal_strlit("");
        assert(""@ =~= Seq::<char>::empty());
        assert(target@.bytes =~= Seq::<u8>::empty());
        assert(target@ == no_target());
    }
    let used_bytes: u64 = match total_capacity_bytes(handoff, &index, &target) {
        Err(e) => {
            return Err(e);
        },
        Ok(n) => n,
    };
    let bound = match client {
        Some(c) => Some(select(&index, c)),
        None => None,
    };
    let revision: u64 = index.revision;
    let tasks = sort_by_id(list);
    Ok(
        Reply::Status(
            Overview { revision, tasks, archived: index.retired_tasks, used_bytes, bound, stale },
        ),
    )
}

/// The summary of a task in the index.
pub open spec fn summary_in(tasks: Seq<SummaryView>, id: Seq<char>) -> Option<SummaryView>
    decreases tasks.len(),
{
    if tasks.len() == 0 {
        None
    } else if tasks[0].task_id == id {
        Some(tasks[0])
    } else {
        summary_in(tasks.drop_first(), id)
    }
}

/// What a read request is answered.
pub open spec fn checkpoint_of(
    d: DirectoryView,
    identity: IdentityView,
    id: Seq<char>,
    policy: Seq<Seq<char>>,
) -> Result<ReplyView, Failure> {
    match index_at(d, identity) {
        Err(e) => Err(e),
        Ok(None) => Ok(ReplyView::Unread),
        Ok(Some(v)) => if !v.enabled {
            Ok(ReplyView::Unread)
        } else if !has_task(v.retired_tasks, id) && !has_task(v.tasks, id) {
            Err(refused("task_not_found", "task does not exist"))
        } else {
            match task_at(d, identity, id, policy) {
                Err(e) => Err(e),
                Ok(task) => Ok(
                    ReplyView::Read(
                        CheckpointView {
                            archived: has_task(v.retired_tasks, id),
                            task,
                            stale: match summary_in(v.tasks, id) {
                                Some(s) => summarized(task) != s,
                                None => false,
                            },
                        },
                    ),
                ),
            }
        },
    }
}

/// The position of a task in the index.
pub open spec fn position_of(tasks: Seq<SummaryView>, id: Seq<char>) -> int
    decreases tasks.len(),
{
    if tasks.len() == 0 || tasks[0].task_id == id {
        0
    } else {
        1 + position_of(tasks.drop_first(), id)
    }
}

pub proof fn lemma_position(tasks: Seq<SummaryView>, id: Seq<char>, i: int)
    requires
        0 <= i < tasks.len(),
        tasks[i].task_id == id,
        forall|j: int| 0 <= j < i ==> (#[trigger] tasks[j]).task_id != id,
    ensures
        position_of(tasks, id) == i,
        summary_in(tasks, id) == Some(tasks[i]),
    decreases tasks.len(),
{
    if i > 0 {
        assert(tasks[0].task_id != id);
        assert forall|j: int| 0 <= j < i - 1 implies (#[trigger] tasks.drop_first()[j]).task_id
            != id by {
            assert(tasks[j + 1].task_id != id);
        }
        lemma_position(tasks.drop_first(), id, i - 1);
    }
}

pub proof fn lemma_no_position(tasks: Seq<SummaryView>, id: Seq<char>)
    requires
        !has_task(tasks, id),
    ensures
        summary_in(tasks, id) is None,
    decreases tasks.len(),
{
    if tasks.len() > 0 {
        assert(tasks[0].task_id != id);
        assert(!has_task(tasks.drop_first(), id)) by {
            if has_task(tasks.drop_first(), id) {
                let j = choose|j: int|
                    0 <= j < tasks.drop_first().len() && (#[trigger] tasks.drop_first()[j]).task_id
                        == id;
                assert(tasks[j + 1].task_id == id);
            }
        }
        lemma_no_position(tasks.drop_first(), id);
    }
}

pub fn find_task(tasks: &Vec<TaskSummary>, id: &str) -> (r: Option<usize>)
    ensures
        match r {
            Some(i) => i < tasks@.len() && position_of(views(tasks@), id@) == i && summary_in(
                views(tasks@),
                id@,
            ) == Some(views(tasks@)[i as int]) && has_task(views(tasks@), id@),
            None => !has_task(views(tasks@), id@) && summary_in(views(tasks@), id@) is None,
        },
{
    let mut i: usize = 0;
    while i < tasks.len()
        invariant
            i <= tasks@.len(),
            forall|j: int| 0 <= j < i ==> (#[trigger] views(tasks@)[j]).task_id != id@,
        decreases tasks@.len() - i,
    {
        if same(tasks[i].task_id.as_str(), id) {
            proof {
                assert(views(tasks@)[i as int].task_id == id@);
                lemma_position(views(tasks@), id@, i as int);
            }
            return Some(i);
        }
        i += 1;
    }
    proof {
        assert(!has_task(views(tasks@), id@));
        lemma_no_position(views(tasks@), id@);
    }
    None
}

/// What a read request is answered.
pub fn read(
    handoff: &Directory,
    identity: &ProjectIdentity,
    task_id: &str,
    policy: &PathPolicy,
) -> (r: Result<Reply, Failure>)
    ensures
        outcome(r) == checkpoint_of(handoff@, identity@, task_id@, policy@),
        r matches Ok(reply) ==> renderable(reply@),
{
    let index = match load_index(handoff, identity) {
        Err(e) => {
            return Err(e);
        },
        Ok(None) => {
            return Ok(Reply::Unread);
        },
        Ok(Some(index)) => index,
    };
    if !index.enabled {
        return Ok(Reply::Unread);
    }
    let archived = includes_task(&index.retired_tasks, task_id);
    if !archived && !includes_task(&index.tasks, task_id) {
        return Err(refuse("task_not_found", "task does not exist"));
    }
    let task = match load_task(handoff, identity, task_id, policy) {
        Err(e) => {
            return Err(e);
        },
        Ok(task) => task,
    };
    let stale = match find_task(&index.tasks, task_id) {
        Some(i) => !task_summary_struct(&task).equals(&index.tasks[i]),
        None => false,
    };
    Ok(Reply::Read(Checkpoint { archived, task, stale }))
}

} // verus!
