//! A recorded event is read back, and nothing else changes.
use vstd::prelude::*;
use vstd::string::*;
use crate::actions::{checkpoint_of, position_of, summarized};
use crate::appending::{
    grown, growth_back, growth_in, growth_of, growth_result, is_known, markdown_write,
    segment_write,
};
use crate::checks::{
    INDEX_FILE_NAME, MAX_ARCHIVE_COUNT, MAX_HISTORY_COUNT, MAX_INDEX_BYTES, MAX_TASK_BYTES,
    MAX_TOTAL_BYTES, archive_name, has_task, markdown_name, reference_check, task_check,
    task_name,
};
use crate::commit::{WriteView, checked_write, committed, plain_write};
use crate::commit_laws::{
    different_names, good_write, lemma_archived_bound, lemma_archives_fit, lemma_history_kept,
    lemma_latest_at, lemma_latest_none, lemma_read_more, lemma_task_is_not_index,
    lemma_written_all, only_task_changed,
};
use crate::directory::{
    DirectoryView, EntryView, archive_bytes, history_of, index_at, lemma_history_count,
    segment_of, task_at, task_reading,
};
use crate::event::{EventView, event_of, is_slug};
use crate::failure::{Failure};
use crate::file_names::{lemma_own_names};
use crate::index_laws::{
    law_retired_is_not_active, law_valid_index_is_sound, lemma_position_valid, lemma_update_sound,
};
use crate::markdown::{MAX_EVENT_COUNT, MAX_MARKDOWN_BYTES};
use crate::mutations::{markdown_in, target_of};
use crate::records::{IdentityView, IndexView, TaskView};
use crate::reply::{CheckpointView, ReplyView};
use crate::task_laws::{lemma_grown_valid};
use crate::writing::{
    archive_plan, archived, disk_view, index_bytes, lemma_archived_pushed, segment, segment_back,
    task_bytes,
};

verus! {

/// The files that a new event writes are all admitted.
pub proof fn lemma_growth_writes(
    d: DirectoryView,
    index: IndexView,
    t: TaskView,
    planned: Option<(Seq<char>, Seq<u8>)>,
    e: EventView,
)
    requires
        d.present,
        t.task_id.len() > 0,
        task_name(t.task_id) != INDEX_FILE_NAME@,
        d.read(task_name(t.task_id), MAX_TASK_BYTES as int) matches Ok(Some(_)),
        d.read(INDEX_FILE_NAME@, MAX_INDEX_BYTES as int) matches Ok(Some(_)),
        growth_in(d, index, t, planned, e).reply is Ok,
        planned matches Some((name, b)) ==> b.len() <= MAX_TASK_BYTES && exists|s: Seq<char>|
            name == #[trigger] archive_name(t.task_id, s),
    ensures
        ({
            let p = growth_in(d, index, t, planned, e);
            let after = committed(d, p).0;
            &&& committed(d, p).1 == p.reply
            &&& only_task_changed(d, after, t.task_id)
            &&& after.entry(task_name(t.task_id)) == Some(
                EntryView::File { bytes: task_bytes(t)->Ok_0, distinct: true },
            )
            &&& after.entry(INDEX_FILE_NAME@) == Some(
                EntryView::File { bytes: index_bytes(index)->Ok_0, distinct: true },
            )
            &&& planned matches Some((name, b)) ==> after.read(name, MAX_TASK_BYTES as int) == Ok::<
                _,
                Failure,
            >(Some(b))
            &&& after.entry(markdown_name(t.task_id)) == (match markdown_in(d, t)->Ok_0.bytes {
                Some(b) => Some(EntryView::File { bytes: b, distinct: true }),
                None => d.entry(markdown_name(t.task_id)),
            })
            &&& forall|q: Seq<char>|
                q != task_name(t.task_id) && q != markdown_name(t.task_id) && q != INDEX_FILE_NAME@
                    && !(planned matches Some((name, _)) && q == name) ==> #[trigger] after.entry(q)
                    == d.entry(q)
        }),
{
    let id = t.task_id;
    let p = growth_in(d, index, t, planned, e);
    let tb = task_bytes(t)->Ok_0;
    let ib = index_bytes(index)->Ok_0;
    let markdown = markdown_in(d, t)->Ok_0;
    let archive = segment_write(d, planned)->Ok_0;
    let first = plain_write(task_name(id), tb, true, false);
    let md = markdown_write(id, markdown);
    let last = plain_write(INDEX_FILE_NAME@, ib, true, true);
    let w = p.writes;
    assert(w == archive + seq![first] + md + seq![last]);
    lemma_read_more(d, INDEX_FILE_NAME@, MAX_INDEX_BYTES as int, MAX_TASK_BYTES as int);
    lemma_read_more(d, markdown_name(id), MAX_MARKDOWN_BYTES as int, MAX_TASK_BYTES as int);
    let name = (planned->0).0;
    if planned is Some {
        let s = choose|s: Seq<char>| name == #[trigger] archive_name(id, s);
        lemma_own_names(id, s);
    } else {
        lemma_own_names(id, Seq::empty());
    }
    assert(good_write(d, first));
    assert(good_write(d, last));
    if archive.len() > 0 {
        let a = plain_write(name, (planned->0).1, false, false);
        assert(archive =~= seq![a]);
        assert(good_write(d, a));
        if md.len() > 0 {
            let m = checked_write(markdown_name(id), markdown.bytes->0, markdown.original);
            assert(md =~= seq![m]);
            assert(good_write(d, m));
            assert(w =~= seq![a, first, m, last]);
        } else {
            assert(w =~= seq![a, first, last]);
        }
        assert(w[0] == a && w[1] == first);
    } else if md.len() > 0 {
        let m = checked_write(markdown_name(id), markdown.bytes->0, markdown.original);
        assert(md =~= seq![m]);
        assert(good_write(d, m));
        assert(w =~= seq![first, m, last]);
    } else {
        assert(w =~= seq![first, last]);
    }
    assert(different_names(w));
    lemma_written_all(d, w, w.len());
    let after = committed(d, p).0;
    let at = archive.len() as int;
    assert(w[at] == first);
    lemma_latest_at(w, w.len(), at);
    assert(after.entry(task_name(id)) == Some(EntryView::File { bytes: tb, distinct: true }));
    assert(w[w.len() - 1] == last);
    lemma_latest_at(w, w.len(), w.len() - 1);
    assert(after.entry(INDEX_FILE_NAME@) == Some(EntryView::File { bytes: ib, distinct: true }));
    if md.len() > 0 {
        lemma_latest_at(w, w.len(), at + 1);
    } else {
        lemma_latest_none(w, markdown_name(id));
    }
    assert forall|q: Seq<char>|
        q != task_name(id) && q != markdown_name(id) && q != INDEX_FILE_NAME@ && !(
        planned matches Some((n, _)) && q == n) implies #[trigger] after.entry(q) == d.entry(q) by {
        lemma_latest_none(w, q);
    }
    if planned is Some {
        if archive.len() > 0 {
            lemma_latest_at(w, w.len(), 0);
            assert(after.entry(name) == Some(
                EntryView::File { bytes: (planned->0).1, distinct: true },
            ));
        } else {
            lemma_latest_none(w, name);
            assert(after.entry(name) == d.entry(name));
        }
    }
    assert forall|q: Seq<char>|
        q != task_name(id) && q != markdown_name(id) && q != INDEX_FILE_NAME@ && d.entry(q) is Some
        implies #[trigger] after.entry(q) == d.entry(q) by {
        if planned is Some && q == name {
            if archive.len() > 0 {
                assert(d.entry(name) is None);
            }
        }
    }
}

/// How a task file and its archives make up the loaded task.
pub proof fn lemma_loaded_parts(
    d: DirectoryView,
    identity: IdentityView,
    t: TaskView,
    policy: Seq<Seq<char>>,
)
    requires
        task_at(d, identity, t.task_id, policy) == Ok::<_, Failure>(t),
    ensures
        d.present,
        d.read(task_name(t.task_id), MAX_TASK_BYTES as int) matches Ok(Some(_)),
        t.task_id.len() > 0,
        is_slug(t.task_id),
        task_check(t, identity, policy) is Ok,
        t.archives.len() <= MAX_ARCHIVE_COUNT,
        history_of(d, t.archives, t.task_id, t.archives.len()) matches Ok(h) && h.len() == archived(
            t,
        ) && h == t.events.take(archived(t)),
        0 <= archived(t) <= t.events.len(),
        t.events.len() - archived(t) <= MAX_EVENT_COUNT,
        archived(t) <= t.archives.len() * MAX_EVENT_COUNT,
{
    let bytes = d.read(task_name(t.task_id), MAX_TASK_BYTES as int)->Ok_0->0;
    let disk = task_reading(bytes, d.distinct(task_name(t.task_id)))->0;
    let h = history_of(d, disk.archives, t.task_id, disk.archives.len())->Ok_0;
    assert(t.archives == disk.archives);
    assert(t.events == h + disk.events);
    lemma_history_count(d, t.archives, t.task_id, t.archives.len());
    lemma_archived_bound(d, t.archives, t.task_id, t.archives.len());
    assert((h + disk.events).take(h.len() as int) =~= h);
}

/// The task that is loaded after its new files were written.
#[verifier::rlimit(40)]
proof fn lemma_growth_loaded(
    d: DirectoryView,
    after: DirectoryView,
    identity: IdentityView,
    index: IndexView,
    t: TaskView,
    larger: TaskView,
    task: TaskView,
    planned: Option<(Seq<char>, Seq<u8>)>,
    policy: Seq<Seq<char>>,
)
    requires
        task_at(d, identity, t.task_id, policy) == Ok::<_, Failure>(t),
        larger.task_id == t.task_id,
        larger.archives == t.archives,
        larger.events.len() == t.events.len() + 1,
        larger.events.take(t.events.len() as int) == t.events,
        task_check(larger, identity, policy) is Ok,
        archive_plan(larger) == Ok::<_, Failure>((task, planned)),
        only_task_changed(d, after, t.task_id),
        task_bytes(task) is Ok,
        task_reading(task_bytes(task)->Ok_0, true) == Some(disk_view(task)),
        segment_back(larger, planned),
        after.entry(task_name(t.task_id)) == Some(
            EntryView::File { bytes: task_bytes(task)->Ok_0, distinct: true },
        ),
        planned matches Some((name, b)) ==> after.read(name, MAX_TASK_BYTES as int) == Ok::<
            _,
            Failure,
        >(Some(b)),
        archive_bytes(task.archives, task.archives.len()) <= MAX_TOTAL_BYTES,
    ensures
        task_at(after, identity, t.task_id, policy) == Ok::<_, Failure>(task),
        task.events == larger.events,
{
    let id = t.task_id;
    lemma_loaded_parts(d, identity, t, policy);
    let n = t.archives.len();
    let disk = disk_view(task);
    let from = archived(t);
    lemma_history_kept(d, after, t.archives, task.archives, id, n);
    match planned {
        None => {
            assert(task == larger);
            assert(disk.archives == t.archives);
            assert(t.events.take(from) + larger.events.skip(from) =~= larger.events) by {
                assert(larger.events.take(t.events.len() as int).take(from) =~= larger.events.take(
                    from,
                ));
            }
            assert(history_of(after, disk.archives, id, disk.archives.len()) == Ok::<_, Failure>(
                t.events.take(from),
            ));
            assert(TaskView { events: t.events.take(from) + disk.events, ..disk } == task);
        },
        Some((name, b)) => {
            let a = task.archives[n as int];
            assert(task.archives == t.archives.push(a));
            let s = segment(larger);
            assert(s.len() == larger.events.len() - 1 - from);
            assert(s =~= t.events.skip(from)) by {
                assert(larger.events.take(t.events.len() as int) =~= t.events);
                assert forall|i: int| 0 <= i < s.len() implies s[i] == t.events[i + from] by {
                    assert(s[i] == larger.events[i + from]);
                    assert(larger.events.take(t.events.len() as int)[i + from] == larger.events[i
                        + from]);
                }
            }
            assert(a.event_count == s.len());
            assert(1 <= a.event_count <= MAX_EVENT_COUNT);
            assert(reference_check(a, id) is Ok);
            assert(segment_of(after, a) == Ok::<_, Failure>(s));
            lemma_archived_pushed(t.archives, a);
            assert(archived(task) == larger.events.len() - 1);
            assert(archive_bytes(task.archives, (n + 1) as nat) <= MAX_TOTAL_BYTES);
            assert(t.events.take(from) + s =~= t.events);
            assert(history_of(after, task.archives, id, (n + 1) as nat) == Ok::<_, Failure>(
                t.events.take(from) + s,
            ));
            assert(disk.events =~= seq![larger.events.last()]);
            assert(t.events + disk.events =~= larger.events) by {
                assert(larger.events.take(t.events.len() as int) =~= t.events);
                assert forall|i: int| 0 <= i < t.events.len() implies t.events[i]
                    == larger.events[i] by {
                    assert(larger.events.take(t.events.len() as int)[i] == larger.events[i]);
                }
            }
            assert(TaskView { events: t.events + disk.events, ..disk } == task);
        },
    }
    assert(task_check(task, identity, policy) is Ok);
}

/// A new event that was saved is read back: the task is the old one with the
/// event at its end and the next revision, and no other file changed.
pub proof fn law_saved_event_is_read(
    d: DirectoryView,
    identity: IdentityView,
    v: IndexView,
    t: TaskView,
    e: EventView,
    expected: u64,
    policy: Seq<Seq<char>>,
    now: i64,
)
    requires
        index_at(d, identity) == Ok::<_, Failure>(Some(v)),
        v.enabled,
        has_task(v.tasks, t.task_id),
        task_at(d, identity, t.task_id, policy) == Ok::<_, Failure>(t),
        event_of(e.value, policy) == Ok::<_, Failure>(e),
        !is_known(t, e),
        growth_of(d, v, t, e, expected, now).reply is Ok,
        growth_back(v, t, e, now),
    ensures
        ({
            let p = growth_of(d, v, t, e, expected, now);
            let after = committed(d, p).0;
            let (index, larger, task, planned) = growth_result(v, t, e, now)->0;
            &&& committed(d, p).1 == p.reply
            &&& index_at(after, identity) == Ok::<_, Failure>(Some(index))
            &&& task_at(after, identity, t.task_id, policy) == Ok::<_, Failure>(task)
            &&& task.events == t.events.push(e.value)
            &&& task.revision == t.revision + 1
            &&& checkpoint_of(after, identity, t.task_id, policy) == Ok::<_, Failure>(
                ReplyView::Read(CheckpointView { archived: false, task, stale: false }),
            )
            &&& only_task_changed(d, after, t.task_id)
            &&& markdown_in(d, task) is Ok
            &&& after.entry(markdown_name(t.task_id)) == (match markdown_in(d, task)->Ok_0.bytes {
                Some(b) => Some(EntryView::File { bytes: b, distinct: true }),
                None => d.entry(markdown_name(t.task_id)),
            })
        }),
{
    let id = t.task_id;
    let p = growth_of(d, v, t, e, expected, now);
    let (index, larger, task, planned) = growth_result(v, t, e, now)->0;
    lemma_loaded_parts(d, identity, t, policy);
    lemma_task_is_not_index(d, identity, id, policy);
    // The history has room for one more event.
    if t.archives.len() >= MAX_ARCHIVE_COUNT {
        assert(planned is None);
        assert(larger.events.len() - archived(larger) <= MAX_EVENT_COUNT);
    }
    assert(t.events.len() < MAX_HISTORY_COUNT);
    lemma_grown_valid(t, e, identity, policy, now);
    law_valid_index_is_sound(v, identity);
    lemma_update_sound(v, identity, larger, now);
    law_valid_index_is_sound(index, identity);
    law_retired_is_not_active(v, identity, id);
    assert(task.task_id == id);
    assert(p == growth_in(d, index, task, planned, e));
    lemma_growth_writes(d, index, task, planned, e);
    let after = committed(d, p).0;
    // The accounting covers all archives.
    lemma_position_valid(index.tasks, id);
    lemma_archives_fit(
        d,
        index,
        target_of(id, task_bytes(task)->Ok_0, markdown_in(d, task)->Ok_0.bytes),
        position_of(index.tasks, id),
    );
    assert(disk_view(task).archives == task.archives);
    assert(larger.events.take(t.events.len() as int) =~= t.events);
    lemma_growth_loaded(d, after, identity, index, t, larger, task, planned, policy);
    assert(index_bytes(index)->Ok_0.len() <= MAX_INDEX_BYTES);
    assert(index_at(after, identity) == Ok::<_, Failure>(Some(index)));
    assert(summarized(task) == summarized(larger));
}

/// A rollover that stopped after its segment was written is repeated with the
/// same segment, whatever event comes next, and the segment is then not written
/// again.
pub proof fn law_rollover_is_repeatable(
    d: DirectoryView,
    t: TaskView,
    first: EventView,
    next: EventView,
    now: i64,
    later: i64,
)
    requires
        grown(t, first, now) matches Ok(a) && archive_plan(a) matches Ok((_, Some(_))),
        grown(t, next, later) matches Ok(b) && archive_plan(b) matches Ok((_, Some(_))),
    ensures
        ({
            let begun = (archive_plan(grown(t, first, now)->Ok_0)->Ok_0).1;
            let (name, bytes) = begun->0;
            &&& (archive_plan(grown(t, next, later)->Ok_0)->Ok_0).1 == begun
            &&& d.read(name, MAX_TASK_BYTES as int) == Ok::<_, Failure>(Some(bytes))
                ==> segment_write(d, begun) == Ok::<_, Failure>(Seq::<WriteView>::empty())
        }),
{
    let a = grown(t, first, now)->Ok_0;
    let b = grown(t, next, later)->Ok_0;
    lemma_archived_pushed(t.archives, (archive_plan(a)->Ok_0).0.archives.last());
    assert(segment(a) =~= segment(b));
}

} // verus!
