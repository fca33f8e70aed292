//! The actions that change a checkpoint: each yields the files to write and the
//! answer that follows once they are written.
use vstd::prelude::*;
use vstd::utf8::*;
use crate::actions::{by_id, next_revision, sort_by_id, successor, summarized, task_summary_struct};
use crate::checks::{
    INDEX_FILE_NAME, INDEX_FORMAT, MANAGED_BY, MAX_TASK_BYTES, MAX_TASK_COUNT, TASK_FORMAT,
    all_summaries, has_task, includes_task, markdown_file_name, markdown_name, task_file_name,
    task_name,
};
use crate::commit::{Plan, PlannedView, Write, WriteView, plain_write, refusal};
use crate::directory::{Directory, DirectoryView, all_tidy, index_at, load_index};
use crate::event::{EventView, NormalizedEvent};
use crate::failure::{Failure, content, outcome, refuse, refused, revision_conflict, stale, views};
use crate::json::{Json, Node, nodes};
use crate::markdown::{MAX_MARKDOWN_BYTES, MarkdownPlan, PlanView, markdown_plan, plan_of};
use crate::records::{
    ArchiveView, EventArchive, IdentityView, IndexFile, IndexView, ProjectIdentity, SummaryView,
    TaskFile, TaskSummary, TaskView, copy_summaries,
};
use crate::reply::{Reply, ReplyView};
use crate::request::{Request, RequestView};
use crate::table::{assign, get, lemma_put_ordered, lookup, ordered, pairs, put};
use crate::text::{owned};
use crate::writing::{
    Target, TargetView, all_readable, capacity_check, check_total_capacity, index_back,
    index_bytes, serialize_index, serialize_task, task_back, task_bytes,
};

verus! {

/// The task status after an event.
pub open spec fn status_after(current: Seq<char>, e: EventView) -> Seq<char> {
    match e.value.at("task_status"@).text() {
        Some(s) => s,
        None => if e.unknown {
            "unknown"@
        } else if e.value.at("type"@) == Node::Text("task_completed"@) && e.value.at("status"@)
            == Node::Text("completed"@) {
            "completed"@
        } else {
            current
        },
    }
}

pub fn next_task_status(current: &str, event: &NormalizedEvent) -> (r: String)
    ensures
        r@ == status_after(current@, event@),
{
    match event.value.text_at("task_status") {
        Some(s) => owned(s),
        None => if event.unknown {
            owned("unknown")
        } else if event.value.has_text("type", "task_completed") && event.value.has_text(
            "status",
            "completed",
        ) {
            owned("completed")
        } else {
            owned(current)
        },
    }
}

/// A new task, with its first event where there is one.
pub open spec fn fresh_task(
    identity: IdentityView,
    id: Seq<char>,
    title: Seq<char>,
    event: Option<EventView>,
    now: i64,
) -> TaskView {
    TaskView {
        format: TASK_FORMAT@,
        version: 1,
        managed_by: MANAGED_BY@,
        project_identity: identity,
        task_id: id,
        title,
        status: match event {
            Some(e) => status_after("active"@, e),
            None => "active"@,
        },
        revision: 1,
        created_at: now,
        updated_at: now,
        unknown_count: match event {
            Some(e) => if e.unknown {
                1
            } else {
                0
            },
            None => 0,
        },
        events: match event {
            Some(e) => seq![e.value],
            None => Seq::empty(),
        },
        archives: Seq::empty(),
        event_aliases: Seq::empty(),
    }
}

/// A new task, with its first event where there is one.
pub fn new_task(
    identity: &ProjectIdentity,
    task_id: &str,
    title: &str,
    event: &Option<NormalizedEvent>,
    now: i64,
) -> (r: TaskFile)
    ensures
        r@ == fresh_task(identity@, task_id@, title@, content(*event), now),
{
    let mut events: Vec<Json> = Vec::new();
    let mut unknown_count: u64 = 0;
    let mut status = owned("active");
    proof {
        assert(nodes(events@) =~= Seq::<Node>::empty());
    }
    match event {
        Some(e) => {
            events.push(e.value.copy());
            proof {
                assert(nodes(events@) =~= seq![e@.value]);
            }
            if e.unknown {
                unknown_count = 1;
            }
            status = next_task_status("active", e);
        },
        None => {},
    }
    let archives: Vec<EventArchive> = Vec::new();
    let event_aliases: Vec<(String, String)> = Vec::new();
    proof {
        assert(views(archives@) =~= Seq::<ArchiveView>::empty());
        assert(pairs(event_aliases@) =~= Seq::<(Seq<char>, Seq<char>)>::empty());
    }
    TaskFile {
        format: owned(TASK_FORMAT),
        version: 1,
        managed_by: owned(MANAGED_BY),
        project_identity: identity.copy(),
        task_id: owned(task_id),
        title: owned(title),
        status,
        revision: 1,
        created_at: now,
        updated_at: now,
        unknown_count,
        events,
        archives,
        event_aliases,
    }
}

/// An index without tasks.
pub open spec fn fresh_index(identity: IdentityView, now: i64) -> IndexView {
    IndexView {
        format: INDEX_FORMAT@,
        version: 1,
        managed_by: MANAGED_BY@,
        enabled: true,
        project_identity: identity,
        revision: 0,
        updated_at: now,
        tasks: Seq::empty(),
        retired_tasks: Seq::empty(),
        bindings: Seq::empty(),
    }
}

fn new_index(identity: &ProjectIdentity, now: i64) -> (r: IndexFile)
    ensures
        r@ == fresh_index(identity@, now),
{
    let tasks: Vec<TaskSummary> = Vec::new();
    let retired_tasks: Vec<TaskSummary> = Vec::new();
    let bindings: Vec<(String, String)> = Vec::new();
    proof {
        assert(views(tasks@) =~= Seq::<SummaryView>::empty());
        assert(views(retired_tasks@) =~= Seq::<SummaryView>::empty());
        assert(pairs(bindings@) =~= Seq::<(Seq<char>, Seq<char>)>::empty());
    }
    IndexFile {
        format: owned(INDEX_FORMAT),
        version: 1,
        managed_by: owned(MANAGED_BY),
        enabled: true,
        project_identity: identity.copy(),
        revision: 0,
        updated_at: now,
        tasks,
        retired_tasks,
        bindings,
    }
}

/// Whether a client selected a task that is archived by now.
pub open spec fn bound_to_retired(v: IndexView, client: Seq<char>) -> bool {
    match lookup(v.bindings, client) {
        Some(id) => has_task(v.retired_tasks, id),
        None => false,
    }
}

/// The refusal of a client that belongs to an archived task.
pub open spec fn retired_check(v: IndexView, client: Seq<char>) -> Result<(), Failure> {
    if bound_to_retired(v, client) {
        Err(refused("task_archived", "this client belongs to an archived task; use a new session"))
    } else {
        Ok(())
    }
}

pub fn reject_retired_binding(index: &IndexFile, client_id: &str) -> (r: Result<(), Failure>)
    ensures
        r == retired_check(index@, client_id@),
{
    let retired = match get(&index.bindings, client_id) {
        Some(id) => includes_task(&index.retired_tasks, id.as_str()),
        None => false,
    };
    if retired {
        return Err(
            refuse("task_archived", "this client belongs to an archived task; use a new session"),
        );
    }
    Ok(())
}

/// The client that a request names.
pub open spec fn client_of(r: RequestView) -> Option<Seq<char>> {
    match r.client_id {
        Some(c) => Some(c),
        None => match r.binding {
            Some(b) => Some(b.client_id),
            None => None,
        },
    }
}

pub fn client_named(request: &Request) -> (r: Option<String>)
    ensures
        content(r) == client_of(request@),
{
    match &request.client_id {
        Some(c) => Some(c.clone()),
        None => match &request.binding {
            Some(b) => Some(b.client_id.clone()),
            None => None,
        },
    }
}

/// The index with the client of the request bound to the task.
pub open spec fn bound_index(v: IndexView, r: RequestView, id: Seq<char>) -> Result<
    IndexView,
    Failure,
> {
    match client_of(r) {
        None => Ok(v),
        Some(c) => match retired_check(v, c) {
            Err(e) => Err(e),
            Ok(_) => Ok(IndexView { bindings: put(v.bindings, c, id), ..v }),
        },
    }
}

pub fn apply_binding(index: &mut IndexFile, request: &Request, task_id: &str) -> (r: Result<
    (),
    Failure,
>)
    ensures
        match r {
            Ok(_) => bound_index(old(index)@, request@, task_id@) == Ok::<_, Failure>(
                final(index)@,
            ),
            Err(e) => bound_index(old(index)@, request@, task_id@) == Err::<IndexView, Failure>(e),
        },
        r is Ok && ordered(old(index)@.bindings) ==> ordered(final(index)@.bindings),
{
    let ghost before = index@;
    match client_named(request) {
        None => {},
        Some(client) => {
            match reject_retired_binding(index, client.as_str()) {
                Err(e) => {
                    return Err(e);
                },
                Ok(_) => {},
            }
            assign(&mut index.bindings, client, owned(task_id));
            proof {
                if ordered(before.bindings) {
                    lemma_put_ordered(before.bindings, client@, task_id@);
                }
            }
        },
    }
    Ok(())
}

/// What the Markdown file of a task becomes in the directory.
pub open spec fn markdown_in(d: DirectoryView, t: TaskView) -> Result<PlanView, Failure> {
    match d.read(markdown_name(t.task_id), MAX_MARKDOWN_BYTES as int) {
        Err(e) => Err(e),
        Ok(existing) => plan_of(existing, t),
    }
}

pub fn plan_markdown(handoff: &Directory, task: &TaskFile) -> (r: Result<MarkdownPlan, Failure>)
    ensures
        outcome(r) == markdown_in(handoff@, task@),
{
    match handoff.read_file_bounded(
        markdown_file_name(task.task_id.as_str()).as_str(),
        MAX_MARKDOWN_BYTES,
    ) {
        Err(e) => Err(e),
        Ok(existing) => markdown_plan(existing, task),
    }
}

// ---------------------------------------------------------------------------
// Create.
// ---------------------------------------------------------------------------

/// The index with one more task.
pub open spec fn with_task(v: IndexView, s: SummaryView, now: i64) -> Result<IndexView, Failure> {
    match successor(v.revision) {
        Err(e) => Err(e),
        Ok(revision) => Ok(
            IndexView {
                tasks: by_id(v.tasks.push(s)),
                enabled: true,
                revision,
                updated_at: now,
                ..v
            },
        ),
    }
}

/// Why a task cannot be added to an index.
pub open spec fn creation_check(
    d: DirectoryView,
    v: IndexView,
    id: Seq<char>,
    expected: Option<u64>,
) -> Result<(), Failure> {
    if has_task(v.tasks + v.retired_tasks, id) {
        Err(refused("task_exists", "task already exists"))
    } else if v.tasks.len() >= MAX_TASK_COUNT {
        Err(refused("capacity_exceeded", "task count capacity is full"))
    } else if expected is Some && expected->0 != v.revision {
        Err(stale(expected->0, v.revision))
    } else {
        match d.inspect(task_name(id)) {
            Err(e) => Err(e),
            Ok(None) => Ok(()),
            Ok(Some(size)) => if size > MAX_TASK_BYTES {
                Err(refused("capacity_exceeded", "task file exceeds its capacity limit"))
            } else {
                Err(refused("non_managed_file", "task path already contains a file"))
            },
        }
    }
}

/// The files of a new task, in the order in which they are written. A failure
/// takes the earlier ones back, unless the index may already name them.
pub open spec fn creation_writes(
    id: Seq<char>,
    task: Seq<u8>,
    markdown: Option<Seq<u8>>,
    index: Seq<u8>,
    replace_index: bool,
) -> Seq<WriteView> {
    let first = plain_write(task_name(id), task, false, false);
    let last = WriteView {
        undo: match markdown {
            Some(_) => seq![task_name(id), markdown_name(id)],
            None => seq![task_name(id)],
        },
        ..plain_write(INDEX_FILE_NAME@, index, replace_index, false)
    };
    match markdown {
        Some(b) => seq![
            first,
            WriteView {
                undo: seq![task_name(id)],
                undo_always: true,
                ..plain_write(markdown_name(id), b, false, false)
            },
            last,
        ],
        None => seq![first, last],
    }
}

/// The target of the accounting for a new or changed task.
pub open spec fn target_of(id: Seq<char>, bytes: Seq<u8>, markdown: Option<Seq<u8>>) -> TargetView {
    TargetView { task_id: id, bytes, distinct: true, markdown }
}

/// Adding a task to an index.
pub open spec fn creation_in(
    d: DirectoryView,
    identity: IdentityView,
    r: RequestView,
    now: i64,
    v: IndexView,
    replace_index: bool,
) -> PlannedView {
    let id = r.task_id->0;
    let task = fresh_task(identity, id, r.title->0, r.event, now);
    match creation_check(d, v, id, r.expected_revision) {
        Err(e) => refusal(e),
        Ok(_) => match markdown_in(d, task) {
            Err(e) => refusal(e),
            Ok(markdown) => match with_task(v, summarized(task), now) {
                Err(e) => refusal(e),
                Ok(listed) => match bound_index(listed, r, id) {
                    Err(e) => refusal(e),
                    Ok(index) => match index_bytes(index) {
                        Err(e) => refusal(e),
                        Ok(ib) => match task_bytes(task) {
                            Err(e) => refusal(e),
                            Ok(tb) => match capacity_check(
                                d,
                                index,
                                target_of(id, tb, markdown.bytes),
                            ) {
                                Err(e) => refusal(e),
                                Ok(_) => PlannedView {
                                    writes: creation_writes(
                                        id,
                                        tb,
                                        markdown.bytes,
                                        ib,
                                        replace_index,
                                    ),
                                    reply: Ok(
                                        ReplyView::Created {
                                            task_id: id,
                                            revision: task.revision,
                                            index_revision: index.revision,
                                            markdown: markdown.state,
                                        },
                                    ),
                                },
                            },
                        },
                    },
                },
            },
        },
    }
}

/// What a create request writes and how it is answered.
pub open spec fn creation_of(
    d: DirectoryView,
    identity: IdentityView,
    r: RequestView,
    now: i64,
) -> PlannedView {
    match index_at(d, identity) {
        Err(e) => refusal(e),
        Ok(Some(v)) => creation_in(d, identity, r, now, v, true),
        Ok(None) => creation_in(d, identity, r, now, fresh_index(identity, now), false),
    }
}

fn check_creation(handoff: &Directory, index: &IndexFile, task_id: &str, expected: Option<u64>) -> (r:
    Result<(), Failure>)
    ensures
        r == creation_check(handoff@, index@, task_id@, expected),
{
    if includes_task(&all_summaries(index), task_id) {
        return Err(refuse("task_exists", "task already exists"));
    }
    proof {
        assert(index@.tasks.len() == index.tasks@.len());
    }
    if index.tasks.len() >= MAX_TASK_COUNT {
        return Err(refuse("capacity_exceeded", "task count capacity is full"));
    }
    match expected {
        Some(n) => if n != index.revision {
            return Err(revision_conflict(n, index.revision));
        },
        None => {},
    }
    match handoff.target_length(task_file_name(task_id).as_str()) {
        Err(e) => Err(e),
        Ok(None) => Ok(()),
        Ok(Some(size)) => if size > MAX_TASK_BYTES as u64 {
            Err(refuse("capacity_exceeded", "task file exceeds its capacity limit"))
        } else {
            Err(refuse("non_managed_file", "task path already contains a file"))
        },
    }
}

fn add_summary(index: &mut IndexFile, summary: TaskSummary, now: i64) -> (r: Result<(), Failure>)
    ensures
        match r {
            Ok(_) => with_task(old(index)@, summary@, now) == Ok::<_, Failure>(final(index)@),
            Err(e) => with_task(old(index)@, summary@, now) == Err::<IndexView, Failure>(e),
        },
{
    let ghost before = index@;
    let ghost item = summary@;
    let revision: u64 = match next_revision(index.revision) {
        Err(e) => {
            return Err(e);
        },
        Ok(n) => n,
    };
    let mut tasks = copy_summaries(&index.tasks);
    tasks.push(summary);
    proof {
        assert(views(tasks@) =~= before.tasks.push(item));
    }
    index.tasks = sort_by_id(tasks);
    index.enabled = true;
    index.revision = revision;
    index.updated_at = now;
    Ok(())
}

fn creation_steps(
    task_id: &str,
    task_bytes: Vec<u8>,
    markdown: Option<Vec<u8>>,
    index_bytes: Vec<u8>,
    replace_index: bool,
) -> (r: Vec<Write>)
    ensures
        views(r@) == creation_writes(
            task_id@,
            task_bytes@,
            content(markdown),
            index_bytes@,
            replace_index,
        ),
{
    let first = Write::plain(task_file_name(task_id), task_bytes, false, false);
    let mut undo: Vec<String> = Vec::new();
    undo.push(task_file_name(task_id));
    let mut last = Write::plain(owned(INDEX_FILE_NAME), index_bytes, replace_index, false);
    match markdown {
        Some(bytes) => {
            let mut second = Write::plain(markdown_file_name(task_id), bytes, false, false);
            let mut earlier: Vec<String> = Vec::new();
            earlier.push(task_file_name(task_id));
            proof {
                assert(views(earlier@) =~= seq![task_name(task_id@)]);
            }
            second.undo = earlier;
            second.undo_always = true;
            undo.push(markdown_file_name(task_id));
            proof {
                assert(views(undo@) =~= seq![task_name(task_id@), markdown_name(task_id@)]);
            }
            last.undo = undo;
            let steps = vec![first, second, last];
            proof {
                assert(views(steps@) =~= creation_writes(
                    task_id@,
                    task_bytes@,
                    Some(bytes@),
                    index_bytes@,
                    replace_index,
                ));
            }
            steps
        },
        None => {
            proof {
                assert(views(undo@) =~= seq![task_name(task_id@)]);
            }
            last.undo = undo;
            let steps = vec![first, last];
            proof {
                assert(views(steps@) =~= creation_writes(
                    task_id@,
                    task_bytes@,
                    None,
                    index_bytes@,
                    replace_index,
                ));
            }
            steps
        },
    }
}

/// The index that a new task is added to.
pub open spec fn base_index(d: DirectoryView, identity: IdentityView, now: i64) -> IndexView {
    match index_at(d, identity) {
        Ok(Some(v)) => v,
        _ => fresh_index(identity, now),
    }
}

/// The index with the new task of a create request.
pub open spec fn creation_index(
    d: DirectoryView,
    identity: IdentityView,
    r: RequestView,
    now: i64,
) -> IndexView {
    let task = fresh_task(identity, r.task_id->0, r.title->0, r.event, now);
    let listed = with_task(base_index(d, identity, now), summarized(task), now)->Ok_0;
    bound_index(listed, r, r.task_id->0)->Ok_0
}

/// What a create request prints is read back.
pub open spec fn creation_back(
    d: DirectoryView,
    identity: IdentityView,
    r: RequestView,
    now: i64,
) -> bool {
    let task = fresh_task(identity, r.task_id->0, r.title->0, r.event, now);
    creation_of(d, identity, r, now).reply is Ok && all_tidy(task.events) && all_readable(
        task.events,
    ) ==> {
        &&& index_back(creation_index(d, identity, r, now))
        &&& ordered(creation_index(d, identity, r, now).bindings)
        &&& task_back(task)
    }
}

/// What a create request writes and how it is answered.
pub fn create(
    handoff: &Directory,
    identity: &ProjectIdentity,
    request: &Request,
    now: i64,
) -> (r: Plan)
    requires
        request@.task_id is Some,
        request@.title is Some,
    ensures
        r@ == creation_of(handoff@, identity@, request@, now),
        creation_back(handoff@, identity@, request@, now),
{
    let task_id = request.task_id.as_ref().unwrap().as_str();
    let title = request.title.as_ref().unwrap().as_str();
    let (mut index, replace_index) = match load_index(handoff, identity) {
        Err(e) => {
            return Plan::refusal(e);
        },
        Ok(Some(index)) => (index, true),
        Ok(None) => (new_index(identity, now), false),
    };
    let ghost base = index@;
    proof {
        assert(ordered(base.bindings));
    }
    match check_creation(handoff, &index, task_id, request.expected_revision) {
        Err(e) => {
            return Plan::refusal(e);
        },
        Ok(_) => {},
    }
    let task = new_task(identity, task_id, title, &request.event, now);
    let markdown = match plan_markdown(handoff, &task) {
        Err(e) => {
            return Plan::refusal(e);
        },
        Ok(plan) => plan,
    };
    match add_summary(&mut index, task_summary_struct(&task), now) {
        Err(e) => {
            return Plan::refusal(e);
        },
        Ok(_) => {},
    }
    match apply_binding(&mut index, request, task_id) {
        Err(e) => {
            return Plan::refusal(e);
        },
        Ok(_) => {},
    }
    let index_bytes = match serialize_index(&index) {
        Err(e) => {
            return Plan::refusal(e);
        },
        Ok(b) => b,
    };
    let task_bytes = match serialize_task(&task) {
        Err(e) => {
            return Plan::refusal(e);
        },
        Ok(b) => b,
    };
    let target = Target {
        task_id,
        bytes: &task_bytes,
        distinct: true,
        markdown: markdown.bytes.as_ref(),
    };
    match check_total_capacity(handoff, &index, &target) {
        Err(e) => {
            return Plan::refusal(e);
        },
        Ok(_) => {},
    }
    let state = markdown.state;
    let writes = creation_steps(task_id, task_bytes, markdown.bytes, index_bytes, replace_index);
    Plan {
        writes,
        reply: Ok(
            Reply::Created {
                task_id: owned(task_id),
                revision: task.revision,
                index_revision: index.revision,
                markdown: state,
            },
        ),
    }
}

} // verus!
