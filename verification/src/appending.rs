//! Recording an event: once, whatever the transport repeats.
use vstd::prelude::*;
use vstd::utf8::*;
use crate::actions::{
    find_task, next_revision, position_of, successor, summarized, task_summary_struct,
};
use crate::checks::{
    INDEX_FILE_NAME, MAX_TASK_BYTES, has_task, includes_task, is_digest, markdown_file_name,
    markdown_name, task_file_name, task_name,
};
use crate::codec::{alike, json_text, readable, tidy, to_text};
use crate::commit::{Plan, PlannedView, Write, WriteView, checked_write, plain_write, refusal};
use crate::digest::{digest_of, fingerprint};
use crate::directory::{Directory, DirectoryView, index_at, load_index, load_task, task_at};
use crate::event::{EventView, NormalizedEvent, event_of};
use crate::failure::{
    Failure, changed, mark_state_changed, outcome, refuse, refused, revision_conflict, stale,
    views,
};
use crate::jobs::{same_end, same_terminal_job_fact};
use crate::json::{Json, Node, nodes};
use crate::markdown::{PlanView};
use crate::mutations::{markdown_in, next_task_status, plan_markdown, status_after, target_of};
use crate::normal_form::{law_event_tidy, lemma_event_readable};
use crate::path::{PathPolicy};
use crate::records::{IdentityView, IndexFile, IndexView, ProjectIdentity, TaskFile, TaskView};
use crate::reply::{Reply, ReplyView};
use crate::request::{Request, RequestView};
use crate::table::{assign, get, lemma_put_ordered, lookup, ordered, put};
use crate::task_laws::{lemma_valid_readable};
use crate::text::{owned, same, same_bytes};
use crate::writing::{
    Target, archive_plan, capacity_check, capped, check_total_capacity, index_back, index_bytes,
    plan_archive, plan_content, printable, segment_back, serialize_index, serialize_task,
    task_back, task_bytes, whole,
};

verus! {

/// The first recorded event with the id.
pub open spec fn recorded(events: Seq<Node>, id: Seq<char>) -> Option<Node>
    decreases events.len(),
{
    if events.len() == 0 {
        None
    } else if events[0].at("event_id"@) == Node::Text(id) {
        Some(events[0])
    } else {
        recorded(events.drop_first(), id)
    }
}

/// Whether some recorded event reports the same end of a job.
pub open spec fn already_ended(events: Seq<Node>, value: Node) -> bool {
    exists|i: int| 0 <= i < events.len() && same_end(#[trigger] events[i], value)
}

/// The fingerprint of an event.
pub open spec fn event_digest(value: Node) -> Result<Seq<char>, Failure> {
    match json_text(value) {
        None => Err(refused("invalid_event", "event cannot be fingerprinted")),
        Some(t) => Ok(digest_of(encode_utf8(t))),
    }
}

/// The refusal of other facts under a known id.
pub open spec fn id_conflict() -> Failure {
    refused("event_id_conflict", "event_id already has different facts")
}

/// The fingerprint of an event whose id is new or known with the same facts.
pub open spec fn identified(t: TaskView, e: EventView) -> Result<Seq<char>, Failure> {
    match recorded(t.events, e.id) {
        Some(known) if !alike(known, e.value) => Err(id_conflict()),
        _ => match event_digest(e.value) {
            Err(f) => Err(f),
            Ok(digest) => match lookup(t.event_aliases, e.id) {
                Some(saved) if saved != digest => Err(id_conflict()),
                _ => Ok(digest),
            },
        },
    }
}

/// Whether an event is known: by its id, as an alias, or as the same end of a
/// job.
pub open spec fn is_known(t: TaskView, e: EventView) -> bool {
    ||| lookup(t.event_aliases, e.id) is Some
    ||| recorded(t.events, e.id) is Some
    ||| already_ended(t.events, e.value)
}

/// Whether the id of a known event still has to be remembered.
pub open spec fn needs_alias(t: TaskView, e: EventView) -> bool {
    lookup(t.event_aliases, e.id) is None && recorded(t.events, e.id) is None
}

/// The task that remembers the id of a repeated event.
pub open spec fn with_alias(t: TaskView, id: Seq<char>, digest: Seq<char>) -> TaskView {
    TaskView { event_aliases: put(t.event_aliases, id, digest), ..t }
}

/// The task once a repeated event is known by its id.
pub open spec fn remembered(t: TaskView, e: EventView, digest: Seq<char>) -> TaskView {
    if needs_alias(t, e) {
        with_alias(t, e.id, digest)
    } else {
        t
    }
}

/// The index with the summary of a task replaced.
pub open spec fn with_summary(v: IndexView, t: TaskView, now: i64) -> Result<IndexView, Failure> {
    match successor(v.revision) {
        Err(e) => Err(e),
        Ok(revision) => Ok(
            IndexView {
                tasks: v.tasks.update(position_of(v.tasks, t.task_id), summarized(t)),
                revision,
                updated_at: now,
                ..v
            },
        ),
    }
}

/// The index bytes that bring a stale summary up to date; nothing where it is
/// not stale.
pub open spec fn repair_of(d: DirectoryView, v: IndexView, t: TaskView, now: i64) -> Result<
    Option<(IndexView, Seq<u8>)>,
    Failure,
> {
    if v.tasks[position_of(v.tasks, t.task_id)] == summarized(t) {
        Ok(None)
    } else {
        match with_summary(v, t, now) {
            Err(e) => Err(e),
            Ok(index) => match index_bytes(index) {
                Err(e) => Err(e),
                Ok(ib) => match task_bytes(t) {
                    Err(e) => Err(e),
                    Ok(tb) => match capacity_check(d, index, target_of(t.task_id, tb, None)) {
                        Err(e) => Err(e),
                        Ok(_) => Ok(Some((index, ib))),
                    },
                },
            },
        }
    }
}

/// The write that remembers an alias, where one is needed.
pub open spec fn alias_write(
    d: DirectoryView,
    v: IndexView,
    t: TaskView,
    e: EventView,
    digest: Seq<char>,
    markdown: Option<Seq<u8>>,
) -> Result<(TaskView, Seq<WriteView>), Failure> {
    if needs_alias(t, e) {
        let known = with_alias(t, e.id, digest);
        match task_bytes(known) {
            Err(f) => Err(f),
            Ok(tb) => match capacity_check(d, v, target_of(t.task_id, tb, markdown)) {
                Err(f) => Err(f),
                Ok(_) => Ok((known, seq![plain_write(task_name(t.task_id), tb, true, false)])),
            },
        }
    } else {
        Ok((t, Seq::empty()))
    }
}

/// The Markdown write of a changed task, where there is one.
pub open spec fn markdown_write(id: Seq<char>, plan: PlanView) -> Seq<WriteView> {
    match plan.bytes {
        Some(b) => seq![checked_write(markdown_name(id), b, plan.original)],
        None => Seq::empty(),
    }
}

/// A repeated event: nothing new is recorded, the id is remembered, and both
/// projections are repaired.
pub open spec fn repetition_of(
    d: DirectoryView,
    v: IndexView,
    t: TaskView,
    e: EventView,
    digest: Seq<char>,
    now: i64,
) -> PlannedView {
    match markdown_in(d, t) {
        Err(f) => refusal(f),
        Ok(markdown) => match alias_write(d, v, t, e, digest, markdown.bytes) {
            Err(f) => refusal(f),
            Ok((known, alias)) => {
                let writes = alias + markdown_write(t.task_id, markdown);
                match repair_of(d, v, known, now) {
                    Err(f) => PlannedView { writes, reply: Err(changed(f)) },
                    Ok(None) => PlannedView {
                        writes,
                        reply: Ok(
                            ReplyView::Duplicate {
                                task_id: t.task_id,
                                revision: t.revision,
                                event_id: e.id,
                                index_revision: v.revision,
                                index_repaired: false,
                            },
                        ),
                    },
                    Ok(Some((index, ib))) => PlannedView {
                        writes: writes + seq![plain_write(INDEX_FILE_NAME@, ib, true, true)],
                        reply: Ok(
                            ReplyView::Duplicate {
                                task_id: t.task_id,
                                revision: t.revision,
                                event_id: e.id,
                                index_revision: index.revision,
                                index_repaired: true,
                            },
                        ),
                    },
                }
            },
        },
    }
}

/// The task with one more event.
pub open spec fn grown(t: TaskView, e: EventView, now: i64) -> Result<TaskView, Failure> {
    match successor(t.revision) {
        Err(f) => Err(f),
        Ok(revision) => Ok(
            TaskView {
                events: t.events.push(e.value),
                unknown_count: if e.unknown {
                    capped(t.unknown_count + 1)
                } else {
                    t.unknown_count
                },
                status: status_after(t.status, e),
                revision,
                updated_at: now,
                ..t
            },
        ),
    }
}

/// The write of a new archive segment, where one is planned: a segment that is
/// already there with the same content is kept.
pub open spec fn segment_write(d: DirectoryView, planned: Option<(Seq<char>, Seq<u8>)>) -> Result<
    Seq<WriteView>,
    Failure,
> {
    match planned {
        None => Ok(Seq::empty()),
        Some((name, bytes)) => match d.read(name, MAX_TASK_BYTES as int) {
            Err(e) => Err(e),
            Ok(Some(existing)) => if existing == bytes {
                Ok(Seq::empty())
            } else {
                Err(refused("archive_conflict", "archive path has different content"))
            },
            Ok(None) => Ok(seq![plain_write(name, bytes, false, false)]),
        },
    }
}

/// The files of a task with one more event, once it is archived as needed.
pub open spec fn growth_in(
    d: DirectoryView,
    index: IndexView,
    t: TaskView,
    planned: Option<(Seq<char>, Seq<u8>)>,
    e: EventView,
) -> PlannedView {
    match task_bytes(t) {
        Err(f) => refusal(f),
        Ok(tb) => match markdown_in(d, t) {
            Err(f) => refusal(f),
            Ok(markdown) => match index_bytes(index) {
                Err(f) => refusal(f),
                Ok(ib) => match capacity_check(
                    d,
                    index,
                    target_of(t.task_id, tb, markdown.bytes),
                ) {
                    Err(f) => refusal(f),
                    Ok(_) => match segment_write(d, planned) {
                        Err(f) => refusal(f),
                        Ok(archive) => PlannedView {
                            writes: archive + seq![
                                plain_write(task_name(t.task_id), tb, true, false),
                            ] + markdown_write(t.task_id, markdown) + seq![
                                plain_write(INDEX_FILE_NAME@, ib, true, true),
                            ],
                            reply: Ok(
                                ReplyView::Appended {
                                    task_id: t.task_id,
                                    revision: t.revision,
                                    index_revision: index.revision,
                                    event_id: e.id,
                                    markdown: markdown.state,
                                },
                            ),
                        },
                    },
                },
            },
        },
    }
}

/// A new event: the task grows by it, at the expected revision only.
pub open spec fn growth_of(
    d: DirectoryView,
    v: IndexView,
    t: TaskView,
    e: EventView,
    expected: u64,
    now: i64,
) -> PlannedView {
    if t.revision != expected {
        refusal(stale(expected, t.revision))
    } else {
        match grown(t, e, now) {
            Err(f) => refusal(f),
            Ok(larger) => match with_summary(v, larger, now) {
                Err(f) => refusal(f),
                Ok(index) => match archive_plan(larger) {
                    Err(f) => refusal(f),
                    Ok((task, planned)) => growth_in(d, index, task, planned, e),
                },
            },
        }
    }
}

/// The enabled index.
pub open spec fn enabled_index(d: DirectoryView, identity: IdentityView) -> Result<
    IndexView,
    Failure,
> {
    match index_at(d, identity) {
        Err(e) => Err(e),
        Ok(None) => Err(refused("handoff_disabled", "handoff is not enabled")),
        Ok(Some(v)) => if !v.enabled {
            Err(refused("handoff_disabled", "handoff is not enabled"))
        } else {
            Ok(v)
        },
    }
}

/// What an append request writes and how it is answered.
pub open spec fn append_of(
    d: DirectoryView,
    identity: IdentityView,
    r: RequestView,
    policy: Seq<Seq<char>>,
    now: i64,
) -> PlannedView {
    let id = r.task_id->0;
    let e = r.event->0;
    match enabled_index(d, identity) {
        Err(f) => refusal(f),
        Ok(v) => if !has_task(v.tasks, id) {
            refusal(refused("task_not_found", "task does not exist"))
        } else {
            match task_at(d, identity, id, policy) {
                Err(f) => refusal(f),
                Ok(t) => match identified(t, e) {
                    Err(f) => refusal(f),
                    Ok(digest) => if is_known(t, e) {
                        repetition_of(d, v, t, e, digest, now)
                    } else {
                        growth_of(d, v, t, e, r.expected_revision->0, now)
                    },
                },
            }
        },
    }
}

/// The index, the task and the planned segment after a new event.
pub open spec fn growth_result(v: IndexView, t: TaskView, e: EventView, now: i64) -> Option<
    (IndexView, TaskView, TaskView, Option<(Seq<char>, Seq<u8>)>),
> {
    match grown(t, e, now) {
        Err(_) => None,
        Ok(larger) => match with_summary(v, larger, now) {
            Err(_) => None,
            Ok(index) => match archive_plan(larger) {
                Err(_) => None,
                Ok((task, planned)) => Some((index, larger, task, planned)),
            },
        },
    }
}

/// What is printed for a new event is read back.
pub open spec fn growth_back(v: IndexView, t: TaskView, e: EventView, now: i64) -> bool {
    growth_result(v, t, e, now) matches Some((index, larger, task, planned)) ==> index_back(index)
        && task_back(task) && segment_back(larger, planned)
}

/// What an append request prints for a new event is read back.
pub open spec fn append_back(
    d: DirectoryView,
    identity: IdentityView,
    r: RequestView,
    policy: Seq<Seq<char>>,
    now: i64,
) -> bool {
    let id = r.task_id->0;
    let e = r.event->0;
    let v = enabled_index(d, identity)->Ok_0;
    let t = task_at(d, identity, id, policy)->Ok_0;
    append_of(d, identity, r, policy, now).reply is Ok && event_of(e.value, policy) == Ok::<
        _,
        Failure,
    >(e) ==> {
        &&& !is_known(t, e) ==> growth_back(v, t, e, now)
        &&& is_known(t, e) ==> repetition_back(d, v, t, e, identified(t, e)->Ok_0, now)
    }
}

/// What a repeated event prints is read back.
pub open spec fn repetition_back(
    d: DirectoryView,
    v: IndexView,
    t: TaskView,
    e: EventView,
    digest: Seq<char>,
    now: i64,
) -> bool {
    let known = if needs_alias(t, e) {
        with_alias(t, e.id, digest)
    } else {
        t
    };
    &&& is_digest(digest)
    &&& needs_alias(t, e) ==> task_back(known)
    &&& repair_of(d, v, known, now) matches Ok(Some((index, _))) ==> index_back(index)
}

fn find_event<'a>(events: &'a Vec<Json>, id: &str) -> (r: Option<&'a Json>)
    ensures
        match r {
            Some(e) => recorded(nodes(events@), id@) == Some(e@),
            None => recorded(nodes(events@), id@) is None,
        },
{
    let mut i: usize = 0;
    proof {
        assert(nodes(events@).skip(0) =~= nodes(events@));
    }
    while i < events.len()
        invariant
            i <= events@.len(),
            recorded(nodes(events@), id@) == recorded(nodes(events@).skip(i as int), id@),
        decreases events@.len() - i,
    {
        proof {
            assert(nodes(events@).skip(i as int)[0] == events@[i as int]@);
            assert(nodes(events@).skip(i as int).drop_first() =~= nodes(events@).skip(i + 1));
        }
        if events[i].has_text("event_id", id) {
            return Some(&events[i]);
        }
        i += 1;
    }
    None
}

fn ended_before(events: &Vec<Json>, value: &Json) -> (r: bool)
    ensures
        r == already_ended(nodes(events@), value@),
{
    let mut i: usize = 0;
    while i < events.len()
        invariant
            i <= events@.len(),
            forall|j: int| 0 <= j < i ==> !same_end(#[trigger] nodes(events@)[j], value@),
        decreases events@.len() - i,
    {
        if same_terminal_job_fact(&events[i], value) {
            proof {
                assert(same_end(nodes(events@)[i as int], value@));
            }
            return true;
        }
        i += 1;
    }
    false
}

fn identify(task: &TaskFile, event: &NormalizedEvent) -> (r: Result<String, Failure>)
    ensures
        outcome(r) == identified(task@, event@),
        r matches Ok(d) ==> is_digest(d@),
{
    match find_event(&task.events, event.id.as_str()) {
        Some(known) => if !known.equals(&event.value) {
            return Err(refuse("event_id_conflict", "event_id already has different facts"));
        },
        None => {},
    }
    let digest = match to_text(&event.value) {
        None => {
            return Err(refuse("invalid_event", "event cannot be fingerprinted"));
        },
        Some(t) => fingerprint(t.as_str().as_bytes()),
    };
    match get(&task.event_aliases, event.id.as_str()) {
        Some(saved) => if !same(saved.as_str(), digest.as_str()) {
            return Err(refuse("event_id_conflict", "event_id already has different facts"));
        },
        None => {},
    }
    Ok(digest)
}

fn replace_summary(index: &mut IndexFile, task: &TaskFile, now: i64) -> (r: Result<(), Failure>)
    requires
        has_task(old(index)@.tasks, task@.task_id),
    ensures
        match r {
            Ok(_) => with_summary(old(index)@, task@, now) == Ok::<_, Failure>(final(index)@),
            Err(e) => with_summary(old(index)@, task@, now) == Err::<IndexView, Failure>(e),
        },
{
    let ghost before = index@;
    let revision: u64 = match next_revision(index.revision) {
        Err(e) => {
            return Err(e);
        },
        Ok(n) => n,
    };
    match find_task(&index.tasks, task.task_id.as_str()) {
        Some(i) => {
            let summary = task_summary_struct(task);
            let ghost item = summary@;
            index.tasks.set(i, summary);
            proof {
                assert(views(index.tasks@) =~= before.tasks.update(i as int, item));
            }
        },
        None => {},
    }
    index.revision = revision;
    index.updated_at = now;
    Ok(())
}

/// The index bytes that bring a stale summary up to date.
pub fn repair_index_projection(
    handoff: &Directory,
    index: &mut IndexFile,
    task: &TaskFile,
    now: i64,
) -> (r: Result<Option<Vec<u8>>, Failure>)
    requires
        has_task(old(index)@.tasks, task@.task_id),
        whole(task@),
    ensures
        match r {
            Ok(None) => repair_of(handoff@, old(index)@, task@, now) == Ok::<
                Option<(IndexView, Seq<u8>)>,
                Failure,
            >(None) && final(index)@ == old(index)@,
            Ok(Some(b)) => repair_of(handoff@, old(index)@, task@, now) == Ok::<_, Failure>(
                Some((final(index)@, b@)),
            ),
            Err(e) => repair_of(handoff@, old(index)@, task@, now) == Err::<
                Option<(IndexView, Seq<u8>)>,
                Failure,
            >(e),
        },
        r matches Ok(Some(_)) ==> ordered(old(index)@.bindings) ==> index_back(final(index)@),
{
    match find_task(&index.tasks, task.task_id.as_str()) {
        Some(i) => {
            proof {
                assert(index@.tasks[i as int] == index.tasks@[i as int]@);
            }
            if index.tasks[i].equals(&task_summary_struct(task)) {
                return Ok(None);
            }
        },
        None => {},
    }
    match replace_summary(index, task, now) {
        Err(e) => {
            return Err(e);
        },
        Ok(_) => {},
    }
    let index_bytes = match serialize_index(index) {
        Err(e) => {
            return Err(e);
        },
        Ok(b) => b,
    };
    let task_bytes = match serialize_task(task) {
        Err(e) => {
            return Err(e);
        },
        Ok(b) => b,
    };
    let target = Target {
        task_id: task.task_id.as_str(),
        bytes: &task_bytes,
        distinct: true,
        markdown: None,
    };
    match check_total_capacity(handoff, index, &target) {
        Err(e) => Err(e),
        Ok(_) => Ok(Some(index_bytes)),
    }
}

fn repeat(
    handoff: &Directory,
    index: IndexFile,
    task: TaskFile,
    event: &NormalizedEvent,
    digest: String,
    now: i64,
) -> (r: Plan)
    requires
        has_task(index@.tasks, task@.task_id),
        whole(task@),
    ensures
        r@ == repetition_of(handoff@, index@, task@, event@, digest@, now),
        r@.reply is Ok && ordered(index@.bindings) && printable(task@) && is_digest(digest@)
            ==> repetition_back(handoff@, index@, task@, event@, digest@, now),
{
    let mut index = index;
    let mut task = task;
    let ghost before = task@;
    let markdown = match plan_markdown(handoff, &task) {
        Err(e) => {
            return Plan::refusal(e);
        },
        Ok(plan) => plan,
    };
    let ghost projection = markdown@;
    let mut writes: Vec<Write> = Vec::new();
    proof {
        assert(views(writes@) =~= Seq::<WriteView>::empty());
    }
    let known = find_event(&task.events, event.id.as_str()).is_some();
    let aliased = get(&task.event_aliases, event.id.as_str()).is_some();
    if !aliased && !known {
        assign(&mut task.event_aliases, event.id.clone(), digest);
        proof {
            assert(task@ == with_alias(before, event@.id, digest@));
            if ordered(before.event_aliases) {
                lemma_put_ordered(before.event_aliases, event@.id, digest@);
            }
        }
        let bytes = match serialize_task(&task) {
            Err(e) => {
                return Plan::refusal(e);
            },
            Ok(b) => b,
        };
        let target = Target {
            task_id: task.task_id.as_str(),
            bytes: &bytes,
            distinct: true,
            markdown: markdown.bytes.as_ref(),
        };
        match check_total_capacity(handoff, &index, &target) {
            Err(e) => {
                return Plan::refusal(e);
            },
            Ok(_) => {},
        }
        writes.push(Write::plain(task_file_name(task.task_id.as_str()), bytes, true, false));
        proof {
            assert(views(writes@) =~= seq![
                plain_write(task_name(before.task_id), bytes@, true, false),
            ]);
        }
    }
    let ghost alias = views(writes@);
    match markdown.bytes {
        Some(bytes) => {
            writes.push(
                Write::checked(
                    markdown_file_name(task.task_id.as_str()),
                    bytes,
                    markdown.original,
                ),
            );
        },
        None => {},
    }
    proof {
        assert(views(writes@) =~= alias + markdown_write(before.task_id, projection));
    }
    let ghost steps = views(writes@);
    let repaired = match repair_index_projection(handoff, &mut index, &task, now) {
        Err(e) => {
            return Plan { writes, reply: Err(mark_state_changed(e)) };
        },
        Ok(None) => false,
        Ok(Some(bytes)) => {
            writes.push(Write::plain(owned(INDEX_FILE_NAME), bytes, true, true));
            proof {
                assert(views(writes@) =~= steps + seq![
                    plain_write(INDEX_FILE_NAME@, bytes@, true, true),
                ]);
            }
            true
        },
    };
    Plan {
        writes,
        reply: Ok(
            Reply::Duplicate {
                task_id: task.task_id.clone(),
                revision: task.revision,
                event_id: event.id.clone(),
                index_revision: index.revision,
                index_repaired: repaired,
            },
        ),
    }
}

fn grow(task: &mut TaskFile, event: &NormalizedEvent, now: i64) -> (r: Result<(), Failure>)
    ensures
        match r {
            Ok(_) => grown(old(task)@, event@, now) == Ok::<_, Failure>(final(task)@),
            Err(e) => grown(old(task)@, event@, now) == Err::<TaskView, Failure>(e),
        },
{
    let ghost before = task@;
    let revision: u64 = match next_revision(task.revision) {
        Err(e) => {
            return Err(e);
        },
        Ok(n) => n,
    };
    task.events.push(event.value.copy());
    proof {
        assert(nodes(task.events@) =~= before.events.push(event@.value));
    }
    if event.unknown {
        task.unknown_count = task.unknown_count.saturating_add(1);
    }
    task.status = next_task_status(task.status.as_str(), event);
    task.revision = revision;
    task.updated_at = now;
    Ok(())
}

fn plan_segment(handoff: &Directory, planned: Option<(String, Vec<u8>)>) -> (r: Result<
    Vec<Write>,
    Failure,
>)
    ensures
        match r {
            Ok(w) => segment_write(handoff@, plan_content(planned)) == Ok::<_, Failure>(views(w@)),
            Err(e) => segment_write(handoff@, plan_content(planned)) == Err::<
                Seq<WriteView>,
                Failure,
            >(e),
        },
{
    let mut writes: Vec<Write> = Vec::new();
    proof {
        assert(views(writes@) =~= Seq::<WriteView>::empty());
    }
    match planned {
        None => {},
        Some((name, bytes)) => match handoff.read_file_bounded(name.as_str(), MAX_TASK_BYTES) {
            Err(e) => {
                return Err(e);
            },
            Ok(Some(existing)) => if !same_bytes(existing.as_slice(), bytes.as_slice()) {
                return Err(refuse("archive_conflict", "archive path has different content"));
            },
            Ok(None) => {
                writes.push(Write::plain(name, bytes, false, false));
                proof {
                    assert(views(writes@) =~= seq![plain_write(name@, bytes@, false, false)]);
                }
            },
        },
    }
    Ok(writes)
}

fn finish_growth(
    handoff: &Directory,
    index: &IndexFile,
    task: &TaskFile,
    planned: Option<(String, Vec<u8>)>,
    event: &NormalizedEvent,
) -> (r: Plan)
    requires
        whole(task@),
    ensures
        r@ == growth_in(handoff@, index@, task@, plan_content(planned), event@),
        r@.reply is Ok && ordered(index@.bindings) ==> index_back(index@),
        r@.reply is Ok && printable(task@) ==> task_back(task@),
{
    let task_bytes = match serialize_task(task) {
        Err(e) => {
            return Plan::refusal(e);
        },
        Ok(b) => b,
    };
    let markdown = match plan_markdown(handoff, task) {
        Err(e) => {
            return Plan::refusal(e);
        },
        Ok(plan) => plan,
    };
    let ghost projection = markdown@;
    let index_bytes = match serialize_index(index) {
        Err(e) => {
            return Plan::refusal(e);
        },
        Ok(b) => b,
    };
    let target = Target {
        task_id: task.task_id.as_str(),
        bytes: &task_bytes,
        distinct: true,
        markdown: markdown.bytes.as_ref(),
    };
    match check_total_capacity(handoff, index, &target) {
        Err(e) => {
            return Plan::refusal(e);
        },
        Ok(_) => {},
    }
    let mut writes = match plan_segment(handoff, planned) {
        Err(e) => {
            return Plan::refusal(e);
        },
        Ok(w) => w,
    };
    let ghost archive = views(writes@);
    let ghost tb = task_bytes@;
    let ghost ib = index_bytes@;
    let state = markdown.state;
    writes.push(Write::plain(task_file_name(task.task_id.as_str()), task_bytes, true, false));
    proof {
        assert(views(writes@) =~= archive + seq![
            plain_write(task_name(task@.task_id), tb, true, false),
        ]);
    }
    let ghost two = views(writes@);
    match markdown.bytes {
        Some(bytes) => {
            writes.push(
                Write::checked(
                    markdown_file_name(task.task_id.as_str()),
                    bytes,
                    markdown.original,
                ),
            );
        },
        None => {},
    }
    proof {
        assert(views(writes@) =~= two + markdown_write(task@.task_id, projection));
    }
    let ghost three = views(writes@);
    writes.push(Write::plain(owned(INDEX_FILE_NAME), index_bytes, true, true));
    proof {
        assert(views(writes@) =~= three + seq![plain_write(INDEX_FILE_NAME@, ib, true, true)]);
    }
    Plan {
        writes,
        reply: Ok(
            Reply::Appended {
                task_id: task.task_id.clone(),
                revision: task.revision,
                index_revision: index.revision,
                event_id: event.id.clone(),
                markdown: state,
            },
        ),
    }
}

fn record_new(
    handoff: &Directory,
    index: IndexFile,
    task: TaskFile,
    event: &NormalizedEvent,
    expected: u64,
    now: i64,
) -> (r: Plan)
    requires
        has_task(index@.tasks, task@.task_id),
        whole(task@),
    ensures
        r@ == growth_of(handoff@, index@, task@, event@, expected, now),
        r@.reply is Ok && ordered(index@.bindings) && printable(task@) && tidy(event@.value)
            && readable(event@.value, 2) ==> growth_back(index@, task@, event@, now),
{
    if task.revision != expected {
        return Plan::refusal(revision_conflict(expected, task.revision));
    }
    let mut index = index;
    let mut task = task;
    let ghost before = task@;
    match grow(&mut task, event, now) {
        Err(e) => {
            return Plan::refusal(e);
        },
        Ok(_) => {},
    }
    proof {
        if printable(before) && tidy(event@.value) && readable(event@.value, 2) {
            assert forall|i: int| 0 <= i < task@.events.len() implies tidy(
                #[trigger] task@.events[i],
            ) && readable(task@.events[i], 2) by {
                if i < before.events.len() {
                    assert(task@.events[i] == before.events[i]);
                }
            }
            assert(printable(task@));
        }
    }
    match replace_summary(&mut index, &task, now) {
        Err(e) => {
            return Plan::refusal(e);
        },
        Ok(_) => {},
    }
    let planned = match plan_archive(&mut task) {
        Err(e) => {
            return Plan::refusal(e);
        },
        Ok(planned) => planned,
    };
    finish_growth(handoff, &index, &task, planned, event)
}

/// The enabled index.
pub fn load_enabled(handoff: &Directory, identity: &ProjectIdentity) -> (r: Result<
    IndexFile,
    Failure,
>)
    ensures
        outcome(r) == enabled_index(handoff@, identity@),
        r matches Ok(v) ==> ordered(v@.bindings),
{
    match load_index(handoff, identity) {
        Err(e) => Err(e),
        Ok(None) => Err(refuse("handoff_disabled", "handoff is not enabled")),
        Ok(Some(index)) => if !index.enabled {
            Err(refuse("handoff_disabled", "handoff is not enabled"))
        } else {
            Ok(index)
        },
    }
}

/// What an append request writes and how it is answered.
pub fn append(
    handoff: &Directory,
    identity: &ProjectIdentity,
    request: &Request,
    policy: &PathPolicy,
    now: i64,
) -> (r: Plan)
    requires
        request@.task_id is Some,
        request@.expected_revision is Some,
        request@.event is Some,
    ensures
        r@ == append_of(handoff@, identity@, request@, policy@, now),
        append_back(handoff@, identity@, request@, policy@, now),
{
    let task_id = request.task_id.as_ref().unwrap().as_str();
    let expected: u64 = request.expected_revision.unwrap();
    let event = request.event.as_ref().unwrap();
    let index = match load_enabled(handoff, identity) {
        Err(e) => {
            return Plan::refusal(e);
        },
        Ok(index) => index,
    };
    if !includes_task(&index.tasks, task_id) {
        return Plan::refusal(refuse("task_not_found", "task does not exist"));
    }
    let task = match load_task(handoff, identity, task_id, policy) {
        Err(e) => {
            return Plan::refusal(e);
        },
        Ok(task) => task,
    };
    let digest = match identify(&task, event) {
        Err(e) => {
            return Plan::refusal(e);
        },
        Ok(digest) => digest,
    };
    let known = get(&task.event_aliases, event.id.as_str()).is_some() || find_event(
        &task.events,
        event.id.as_str(),
    ).is_some() || ended_before(&task.events, &event.value);
    proof {
        lemma_valid_readable(task@, identity@, policy@);
        if event_of(event@.value, policy@) == Ok::<_, Failure>(event@) {
            law_event_tidy(event@.value, policy@);
            lemma_event_readable(event@.value, policy@);
        }
    }
    if known {
        repeat(handoff, index, task, event, digest, now)
    } else {
        record_new(handoff, index, task, event, expected, now)
    }
}

} // verus!
