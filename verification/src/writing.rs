//! The bytes of the managed files: printing, archiving and accounting.
use vstd::prelude::*;
use vstd::utf8::*;
use crate::checks::{
    MAX_ARCHIVE_COUNT, MAX_INDEX_BYTES, MAX_TASK_BYTES, MAX_TOTAL_BYTES, archive_file_name,
    archive_name, is_digest, markdown_file_name, markdown_name, reference_check, task_file_name,
    task_name, validate_archive_reference,
};
use crate::codec::{json_pretty, lemma_tidy_arranged, readable, tidy, to_pretty};
use crate::digest::{digest_of, fingerprint};
use crate::directory::{
    Directory, DirectoryView, all_tidy, archived_total, events_reading, index_reading, parse_task,
    read_existing_task_bytes, task_bytes_at, task_reading,
};
use crate::failure::{Failure, outcome, refuse, refused, views};
use crate::json::{Json, Node, copy_all, lemma_array_view, nodes};
use crate::markdown::{MAX_EVENT_COUNT, MAX_MARKDOWN_BYTES, is_managed, managed, text_of_utf8};
use crate::records::{
    ArchiveView, EventArchive, IndexFile, IndexView, SummaryView, TaskFile, TaskView,
    copy_archives, copy_pairs, index_node, task_node,
};
use crate::round_trip::{
    lemma_index_round, lemma_readable_more, lemma_task_readable, lemma_task_round,
};
use crate::table::{ordered};
use crate::text::{copy_bytes, same};

verus! {

/// The number of archived events.
pub open spec fn archived(t: TaskView) -> int {
    archived_total(t.archives, t.archives.len())
}

/// Whether the history holds at least the archived events.
pub open spec fn whole(t: TaskView) -> bool {
    archived(t) <= t.events.len()
}

/// The task as its file holds it: without the archived events.
pub open spec fn disk_view(t: TaskView) -> TaskView {
    TaskView { events: t.events.skip(archived(t)), ..t }
}

/// Whether all events can be printed and read again.
pub open spec fn all_readable(s: Seq<Node>) -> bool {
    forall|i: int| 0 <= i < s.len() ==> readable(#[trigger] s[i], 2)
}

/// The printed index is read back.
pub open spec fn index_back(v: IndexView) -> bool {
    index_bytes(v) matches Ok(b) ==> index_reading(b, true) == Some(v)
}

/// The printed task is read back.
pub open spec fn task_back(t: TaskView) -> bool {
    task_bytes(t) matches Ok(b) ==> task_reading(b, true) == Some(disk_view(t))
}

/// The printed segment of archived events is read back.
pub open spec fn segment_back(t: TaskView, planned: Option<(Seq<char>, Seq<u8>)>) -> bool {
    planned matches Some((_, b)) ==> events_reading(b) == Some(segment(t)) && is_digest(
        digest_of(b),
    )
}

/// Whether a task with its whole history can be printed and read again.
pub open spec fn printable(t: TaskView) -> bool {
    ordered(t.event_aliases) && all_tidy(t.events) && all_readable(t.events)
}

proof fn lemma_archived_monotone(archives: Seq<ArchiveView>, k: nat, m: nat)
    requires
        k <= m <= archives.len(),
    ensures
        0 <= archived_total(archives, k) <= archived_total(archives, m),
    decreases m,
{
    if k < m {
        lemma_archived_monotone(archives, k, (m - 1) as nat);
    } else if m > 0 {
        lemma_archived_monotone(archives, (k - 1) as nat, (m - 1) as nat);
    }
}

/// The number of archived events.
pub fn archived_count(task: &TaskFile) -> (r: usize)
    requires
        whole(task@),
    ensures
        r == archived(task@),
{
    let mut sum: usize = 0;
    let mut i: usize = 0;
    let events: usize = task.events.len();
    proof {
        assert(task@.events.len() == events);
        assert(task@.archives.len() == task.archives@.len());
    }
    while i < task.archives.len()
        invariant
            i <= task.archives@.len(),
            task@.archives.len() == task.archives@.len(),
            archived(task@) <= events,
            sum == archived_total(task@.archives, i as nat),
        decreases task.archives@.len() - i,
    {
        proof {
            lemma_archived_monotone(task@.archives, (i + 1) as nat, task@.archives.len());
            assert(task@.archives[i as int] == task.archives@[i as int]@);
        }
        sum = sum + task.archives[i].event_count as usize;
        i += 1;
    }
    sum
}

/// The task as its file holds it: without the archived events.
pub fn task_disk_view(task: &TaskFile) -> (r: TaskFile)
    requires
        whole(task@),
    ensures
        r@ == disk_view(task@),
{
    let from: usize = archived_count(task);
    let mut events = copy_all(&task.events);
    let ghost full = nodes(events@);
    proof {
        assert(full.len() == events@.len());
        lemma_archived_monotone(task@.archives, 0, task@.archives.len());
    }
    let tail = events.split_off(from);
    proof {
        assert(nodes(tail@) =~= full.skip(from as int));
    }
    TaskFile {
        format: task.format.clone(),
        version: task.version,
        managed_by: task.managed_by.clone(),
        project_identity: task.project_identity.copy(),
        task_id: task.task_id.clone(),
        title: task.title.clone(),
        status: task.status.clone(),
        revision: task.revision,
        created_at: task.created_at,
        updated_at: task.updated_at,
        unknown_count: task.unknown_count,
        events: tail,
        archives: copy_archives(&task.archives),
        event_aliases: copy_pairs(&task.event_aliases),
    }
}

/// The bytes of an index.
pub open spec fn index_bytes(v: IndexView) -> Result<Seq<u8>, Failure> {
    match json_pretty(index_node(v)) {
        None => Err(refused("io_error", "handoff index cannot be serialized")),
        Some(b) => if b.len() > MAX_INDEX_BYTES {
            Err(refused("capacity_exceeded", "handoff index exceeds its capacity limit"))
        } else {
            Ok(b)
        },
    }
}

/// The bytes of a task file.
pub open spec fn task_bytes(t: TaskView) -> Result<Seq<u8>, Failure> {
    match json_pretty(task_node(disk_view(t))) {
        None => Err(refused("io_error", "task cannot be serialized")),
        Some(b) => if b.len() > MAX_TASK_BYTES {
            Err(refused("capacity_exceeded", "task exceeds its capacity limit"))
        } else {
            Ok(b)
        },
    }
}

/// The bytes of an index. Reading them gives the index back.
pub fn serialize_index(index: &IndexFile) -> (r: Result<Vec<u8>, Failure>)
    ensures
        outcome(r) == index_bytes(index@),
        r matches Ok(b) ==> ordered(index@.bindings) ==> index_reading(b@, true) == Some(index@),
{
    proof {
        if ordered(index@.bindings) {
            lemma_index_round(index@);
            lemma_readable_more(index_node(index@), 4, 100);
        }
    }
    match to_pretty(&index.to_json()) {
        None => Err(refuse("io_error", "handoff index cannot be serialized")),
        Some(b) => if b.len() > MAX_INDEX_BYTES {
            Err(refuse("capacity_exceeded", "handoff index exceeds its capacity limit"))
        } else {
            Ok(b)
        },
    }
}

proof fn lemma_disk_printable(t: TaskView)
    requires
        whole(t),
        printable(t),
    ensures
        printable(disk_view(t)),
{
    lemma_archived_monotone(t.archives, 0, t.archives.len());
    let d = disk_view(t);
    let from = archived(t);
    assert forall|i: int| 0 <= i < d.events.len() implies tidy(#[trigger] d.events[i]) && readable(
        d.events[i],
        2,
    ) by {
        assert(d.events[i] == t.events[i + from]);
    }
}

/// The bytes of a task file. Reading them gives the task back, without its
/// archived events.
pub fn serialize_task(task: &TaskFile) -> (r: Result<Vec<u8>, Failure>)
    requires
        whole(task@),
    ensures
        outcome(r) == task_bytes(task@),
        r matches Ok(b) ==> printable(task@) ==> task_reading(b@, true) == Some(disk_view(task@)),
{
    let disk = task_disk_view(task);
    proof {
        if printable(task@) {
            lemma_disk_printable(task@);
            lemma_task_round(disk@);
            lemma_task_readable(disk@);
            lemma_readable_more(task_node(disk@), 4, 100);
        }
    }
    match to_pretty(&disk.to_json()) {
        None => Err(refuse("io_error", "task cannot be serialized")),
        Some(b) => if b.len() > MAX_TASK_BYTES {
            Err(refuse("capacity_exceeded", "task exceeds its capacity limit"))
        } else {
            Ok(b)
        },
    }
}

/// The events that an archive would take: all but the last one.
pub open spec fn segment(t: TaskView) -> Seq<Node> {
    t.events.subrange(archived(t), t.events.len() - 1)
}

/// The task after its events were archived in a segment with these bytes.
pub open spec fn with_segment(t: TaskView, bytes: Seq<u8>) -> TaskView {
    let sha256 = digest_of(bytes);
    TaskView {
        archives: t.archives.push(
            ArchiveView {
                file: archive_name(t.task_id, sha256),
                sha256,
                event_count: segment(t).len() as u64,
                bytes: bytes.len() as u64,
            },
        ),
        ..t
    }
}

/// The task after the archiving that its size calls for, and the segment that
/// has to be written for it. Only events that were recorded before are
/// archived, so the name of the segment does not depend on the newest one.
pub open spec fn archive_plan(t: TaskView) -> Result<
    (TaskView, Option<(Seq<char>, Seq<u8>)>),
    Failure,
> {
    if t.events.len() - archived(t) <= MAX_EVENT_COUNT && task_bytes(t) is Ok {
        Ok((t, None))
    } else if t.archives.len() >= MAX_ARCHIVE_COUNT || t.events.len() <= archived(t) + 1 {
        Err(
            refused(
                "capacity_exceeded",
                "archive capacity reached; retain history and start a successor task",
            ),
        )
    } else {
        match json_pretty(Node::List(segment(t))) {
            None => Err(refused("io_error", "archive cannot be serialized")),
            Some(b) => if b.len() > MAX_TASK_BYTES {
                Err(refused("capacity_exceeded", "archive exceeds byte limit"))
            } else {
                Ok((with_segment(t, b), Some((archive_name(t.task_id, digest_of(b)), b))))
            },
        }
    }
}

/// What an archive plan holds, with its values taken by their views.
pub open spec fn plan_content(p: Option<(String, Vec<u8>)>) -> Option<(Seq<char>, Seq<u8>)> {
    match p {
        Some((name, bytes)) => Some((name@, bytes@)),
        None => None,
    }
}

proof fn lemma_archived_push(archives: Seq<ArchiveView>, a: ArchiveView, k: nat)
    requires
        k <= archives.len(),
    ensures
        archived_total(archives.push(a), k) == archived_total(archives, k),
    decreases k,
{
    if k > 0 {
        lemma_archived_push(archives, a, (k - 1) as nat);
    }
}

/// One more archive counts its events.
pub proof fn lemma_archived_pushed(archives: Seq<ArchiveView>, a: ArchiveView)
    ensures
        archived_total(archives.push(a), archives.push(a).len()) == archived_total(
            archives,
            archives.len(),
        ) + a.event_count,
        archived_total(archives, archives.len()) >= 0,
{
    lemma_archived_push(archives, a, archives.len());
    lemma_archived_monotone(archives, 0, archives.len());
}

/// Archives all but the newest event where the size of the task calls for it.
pub fn plan_archive(task: &mut TaskFile) -> (r: Result<Option<(String, Vec<u8>)>, Failure>)
    requires
        whole(old(task)@),
    ensures
        match r {
            Ok(p) => archive_plan(old(task)@) == Ok::<_, Failure>(
                (final(task)@, plan_content(p)),
            ),
            Err(e) => archive_plan(old(task)@) == Err::<
                (TaskView, Option<(Seq<char>, Seq<u8>)>),
                Failure,
            >(e) && final(task)@ == old(task)@,
        },
        whole(final(task)@),
        r matches Ok(Some((_, b))) ==> printable(old(task)@) ==> events_reading(b@) == Some(
            segment(old(task)@),
        ),
        r matches Ok(Some((_, b))) ==> is_digest(digest_of(b@)),
{
    let ghost before = task@;
    let start: usize = archived_count(task);
    let total: usize = task.events.len();
    proof {
        assert(task@.events.len() == total);
        assert(task@.archives.len() == task.archives@.len());
        lemma_archived_monotone(task@.archives, 0, task@.archives.len());
    }
    if total - start <= MAX_EVENT_COUNT && serialize_task(task).is_ok() {
        return Ok(None);
    }
    if task.archives.len() >= MAX_ARCHIVE_COUNT || total - start <= 1 {
        return Err(
            refuse(
                "capacity_exceeded",
                "archive capacity reached; retain history and start a successor task",
            ),
        );
    }
    let mut events = copy_all(&task.events);
    let ghost full = nodes(events@);
    let _ = events.pop();
    let part = events.split_off(start);
    proof {
        assert(nodes(part@) =~= segment(before));
        lemma_array_view(part);
        if printable(before) {
            let s = segment(before);
            assert forall|i: int| 0 <= i < s.len() implies tidy(#[trigger] s[i]) && readable(
                s[i],
                2,
            ) by {
                assert(s[i] == before.events[i + start]);
            }
            assert(readable(Node::List(s), 3));
            lemma_readable_more(Node::List(s), 3, 100);
            assert(tidy(Node::List(s)));
            lemma_tidy_arranged(Node::List(s));
        }
    }
    let count: usize = part.len();
    let bytes = match to_pretty(&Json::Array(part)) {
        None => {
            return Err(refuse("io_error", "archive cannot be serialized"));
        },
        Some(bytes) => bytes,
    };
    if bytes.len() > MAX_TASK_BYTES {
        return Err(refuse("capacity_exceeded", "archive exceeds byte limit"));
    }
    let sha256 = fingerprint(bytes.as_slice());
    let file = archive_file_name(task.task_id.as_str(), sha256.as_str());
    let reference = EventArchive {
        file: file.clone(),
        sha256,
        event_count: count as u64,
        bytes: bytes.len() as u64,
    };
    let ghost a = reference@;
    task.archives.push(reference);
    proof {
        assert(views(task.archives@) =~= before.archives.push(a));
        lemma_archived_pushed(before.archives, a);
    }
    Ok(Some((file, bytes)))
}

/// A sum that stays within 64 bits.
pub open spec fn capped(n: int) -> u64 {
    if n > u64::MAX {
        u64::MAX
    } else {
        n as u64
    }
}

fn sum(a: u64, b: u64) -> (r: u64)
    ensures
        r == capped(a + b),
{
    a.saturating_add(b)
}

/// A task file that is about to be written: its id, its bytes, whether no
/// record in them gives a member twice, and the Markdown beside it.
pub struct Target<'a> {
    pub task_id: &'a str,
    pub bytes: &'a Vec<u8>,
    pub distinct: bool,
    pub markdown: Option<&'a Vec<u8>>,
}

pub struct TargetView {
    pub task_id: Seq<char>,
    pub bytes: Seq<u8>,
    pub distinct: bool,
    pub markdown: Option<Seq<u8>>,
}

impl<'a> View for Target<'a> {
    type V = TargetView;

    open spec fn view(&self) -> TargetView {
        TargetView {
            task_id: self.task_id@,
            bytes: self.bytes@,
            distinct: self.distinct,
            markdown: match self.markdown {
                Some(b) => Some(b@),
                None => None,
            },
        }
    }
}

/// The sum after the first `k` archives, each of which must be valid.
pub open spec fn after_archives(
    archives: Seq<ArchiveView>,
    id: Seq<char>,
    k: nat,
    base: u64,
) -> Result<u64, Failure>
    decreases k,
{
    if k == 0 || k > archives.len() {
        Ok(base)
    } else {
        match after_archives(archives, id, (k - 1) as nat, base) {
            Err(e) => Err(e),
            Ok(n) => match reference_check(archives[k - 1], id) {
                Err(e) => Err(e),
                Ok(_) => Ok(capped(n + archives[k - 1].bytes)),
            },
        }
    }
}

/// The sum after the Markdown of a task: only managed Markdown counts.
pub open spec fn after_markdown(
    d: DirectoryView,
    id: Seq<char>,
    target: TargetView,
    base: u64,
) -> Result<u64, Failure> {
    if id == target.task_id {
        match target.markdown {
            Some(b) => Ok(capped(base + b.len())),
            None => Ok(base),
        }
    } else {
        match d.read(markdown_name(id), MAX_MARKDOWN_BYTES as int) {
            Err(e) => Err(e),
            Ok(None) => Ok(base),
            Ok(Some(b)) => if !valid_utf8(b) {
                Err(refused("markdown_conflict", "managed Markdown is not UTF-8"))
            } else if is_managed(decode_utf8(b)) {
                Ok(capped(base + b.len()))
            } else {
                Ok(base)
            },
        }
    }
}

/// The bytes of a task file, taken from the target where it is the target.
pub open spec fn stored_at(d: DirectoryView, id: Seq<char>, target: TargetView) -> Result<
    (Seq<u8>, bool),
    Failure,
> {
    if id == target.task_id {
        Ok((target.bytes, target.distinct))
    } else {
        match task_bytes_at(d, id) {
            Err(e) => Err(e),
            Ok(b) => Ok((b, d.distinct(task_name(id)))),
        }
    }
}

/// The sum after one task: its archives, its file and its Markdown.
pub open spec fn after_task(
    d: DirectoryView,
    id: Seq<char>,
    target: TargetView,
    base: u64,
) -> Result<u64, Failure> {
    match stored_at(d, id, target) {
        Err(e) => Err(e),
        Ok((b, distinct)) => match task_reading(b, distinct) {
            None => Err(refused("malformed_task", "task cannot be counted")),
            Some(t) => match after_archives(t.archives, id, t.archives.len(), base) {
                Err(e) => Err(e),
                Ok(n) => after_markdown(d, id, target, capped(n + b.len())),
            },
        },
    }
}

/// The sum after the first `k` tasks.
pub open spec fn after_tasks(
    d: DirectoryView,
    tasks: Seq<SummaryView>,
    k: nat,
    target: TargetView,
    base: u64,
) -> Result<u64, Failure>
    decreases k,
{
    if k == 0 || k > tasks.len() {
        Ok(base)
    } else {
        match after_tasks(d, tasks, (k - 1) as nat, target, base) {
            Err(e) => Err(e),
            Ok(n) => after_task(d, tasks[k - 1].task_id, target, n),
        }
    }
}

/// The bytes that an index and the tasks it lists take.
pub open spec fn capacity_of(d: DirectoryView, v: IndexView, target: TargetView) -> Result<
    u64,
    Failure,
> {
    match index_bytes(v) {
        Err(e) => Err(e),
        Ok(b) => after_tasks(d, v.tasks, v.tasks.len(), target, b.len() as u64),
    }
}

/// Whether the checkpoint stays within its total capacity.
pub open spec fn capacity_check(d: DirectoryView, v: IndexView, target: TargetView) -> Result<
    (),
    Failure,
> {
    match capacity_of(d, v, target) {
        Err(e) => Err(e),
        Ok(n) => if n > MAX_TOTAL_BYTES {
            Err(refused("capacity_exceeded", "handoff storage exceeds its total capacity"))
        } else {
            Ok(())
        },
    }
}

proof fn lemma_after_archives_fail(archives: Seq<ArchiveView>, id: Seq<char>, k: nat, base: u64)
    requires
        k <= archives.len(),
        after_archives(archives, id, k, base) is Err,
    ensures
        after_archives(archives, id, archives.len(), base) == after_archives(
            archives,
            id,
            k,
            base,
        ),
    decreases archives.len() - k,
{
    if k < archives.len() {
        lemma_after_archives_fail(archives, id, k + 1, base);
    }
}

fn add_archives(archives: &Vec<EventArchive>, id: &str, base: u64) -> (r: Result<u64, Failure>)
    ensures
        r == after_archives(views(archives@), id@, views(archives@).len(), base),
{
    let mut total: u64 = base;
    let mut i: usize = 0;
    while i < archives.len()
        invariant
            i <= archives@.len(),
            after_archives(views(archives@), id@, i as nat, base) == Ok::<_, Failure>(total),
        decreases archives@.len() - i,
    {
        proof {
            assert(views(archives@)[i as int] == archives@[i as int]@);
        }
        match validate_archive_reference(&archives[i], id) {
            Err(e) => {
                proof {
                    lemma_after_archives_fail(views(archives@), id@, (i + 1) as nat, base);
                }
                return Err(e);
            },
            Ok(_) => {},
        }
        total = sum(total, archives[i].bytes);
        i += 1;
    }
    Ok(total)
}

fn add_markdown(handoff: &Directory, id: &str, target: &Target, base: u64) -> (r: Result<
    u64,
    Failure,
>)
    ensures
        r == after_markdown(handoff@, id@, target@, base),
{
    if same(id, target.task_id) {
        return match target.markdown {
            Some(b) => Ok(sum(base, b.len() as u64)),
            None => Ok(base),
        };
    }
    match handoff.read_file_bounded(markdown_file_name(id).as_str(), MAX_MARKDOWN_BYTES) {
        Err(e) => Err(e),
        Ok(None) => Ok(base),
        Ok(Some(b)) => {
            let size: u64 = b.len() as u64;
            match text_of_utf8(b) {
                None => Err(refuse("markdown_conflict", "managed Markdown is not UTF-8")),
                Some(text) => if managed(text.as_str()) {
                    Ok(sum(base, size))
                } else {
                    Ok(base)
                },
            }
        },
    }
}

fn add_task(handoff: &Directory, id: &str, target: &Target, base: u64) -> (r: Result<u64, Failure>)
    ensures
        r == after_task(handoff@, id@, target@, base),
{
    let (bytes, distinct) = if same(id, target.task_id) {
        (copy_bytes(target.bytes), target.distinct)
    } else {
        match read_existing_task_bytes(handoff, id) {
            Err(e) => {
                return Err(e);
            },
            Ok(b) => (b, handoff.distinct(task_file_name(id).as_str())),
        }
    };
    let task = match parse_task(&bytes, distinct) {
        None => {
            return Err(refuse("malformed_task", "task cannot be counted"));
        },
        Some(task) => task,
    };
    match add_archives(&task.archives, id, base) {
        Err(e) => Err(e),
        Ok(n) => add_markdown(handoff, id, target, sum(n, bytes.len() as u64)),
    }
}

pub proof fn lemma_after_tasks_fail(
    d: DirectoryView,
    tasks: Seq<SummaryView>,
    k: nat,
    target: TargetView,
    base: u64,
)
    requires
        k <= tasks.len(),
        after_tasks(d, tasks, k, target, base) is Err,
    ensures
        after_tasks(d, tasks, tasks.len(), target, base) == after_tasks(
            d,
            tasks,
            k,
            target,
            base,
        ),
    decreases tasks.len() - k,
{
    if k < tasks.len() {
        lemma_after_tasks_fail(d, tasks, k + 1, target, base);
    }
}

/// The bytes that an index and the tasks it lists take.
pub fn total_capacity_bytes(handoff: &Directory, index: &IndexFile, target: &Target) -> (r: Result<
    u64,
    Failure,
>)
    ensures
        r == capacity_of(handoff@, index@, target@),
{
    let own = match serialize_index(index) {
        Err(e) => {
            return Err(e);
        },
        Ok(b) => b,
    };
    let base: u64 = own.len() as u64;
    let mut total: u64 = base;
    let mut i: usize = 0;
    while i < index.tasks.len()
        invariant
            i <= index.tasks@.len(),
            index@.tasks.len() == index.tasks@.len(),
            index_bytes(index@) == Ok::<_, Failure>(own@),
            base == own@.len(),
            after_tasks(handoff@, index@.tasks, i as nat, target@, base) == Ok::<_, Failure>(
                total,
            ),
        decreases index.tasks@.len() - i,
    {
        proof {
            assert(index@.tasks[i as int] == index.tasks@[i as int]@);
        }
        match add_task(handoff, index.tasks[i].task_id.as_str(), target, total) {
            Err(e) => {
                proof {
                    lemma_after_tasks_fail(handoff@, index@.tasks, (i + 1) as nat, target@, base);
                }
                return Err(e);
            },
            Ok(n) => {
                total = n;
            },
        }
        i += 1;
    }
    Ok(total)
}

/// Whether the checkpoint stays within its total capacity.
pub fn check_total_capacity(handoff: &Directory, index: &IndexFile, target: &Target) -> (r: Result<
    (),
    Failure,
>)
    ensures
        r == capacity_check(handoff@, index@, target@),
{
    match total_capacity_bytes(handoff, index, target) {
        Err(e) => Err(e),
        Ok(n) => if n > MAX_TOTAL_BYTES {
            Err(refuse("capacity_exceeded", "handoff storage exceeds its total capacity"))
        } else {
            Ok(())
        },
    }
}

} // verus!
