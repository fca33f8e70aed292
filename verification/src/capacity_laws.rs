//! What is saved stays within the limits of a project.
use vstd::prelude::*;
use vstd::string::*;
use vstd::utf8::*;
use crate::actions::{by_id, no_target, summarized};
use crate::append_laws::{law_saved_event_is_read, lemma_growth_writes, lemma_loaded_parts};
use crate::appending::{growth_back, growth_in, growth_of, growth_result, is_known};
use crate::checks::{
    INDEX_FILE_NAME, MAX_INDEX_BYTES, MAX_TASK_BYTES, MAX_TASK_COUNT, MAX_TOTAL_BYTES,
    archive_name, has_task, is_digest, markdown_name, task_name,
};
use crate::codec::{json_reading};
use crate::commit::{all_written, committed};
use crate::commit_laws::{lemma_read_more, lemma_shapes_differ, lemma_task_is_not_index};
use crate::digest::{digest_of};
use crate::directory::{DirectoryView, EntryView, index_at, task_at, task_reading};
use crate::event::{
    EventView, MAX_TASK_ID_CHARS, MAX_TITLE_CHARS, actor_of, event_of, is_slug, slug_of, text_of,
};
use crate::failure::{Failure};
use crate::file_names::{lemma_other_names, lemma_own_names};
use crate::index_laws::{good_summary, law_valid_index_is_sound, sound_index};
use crate::json::{Node};
use crate::markdown::{
    MACHINE_END, MACHINE_START, MAX_MARKDOWN_BYTES, NOTES_END, NOTES_START, first_at,
    fresh_markdown, is_managed, lemma_occurs, region,
};
use crate::mutations::{
    client_of, creation_back, creation_index, creation_of, creation_writes, fresh_task,
    markdown_in, target_of,
};
use crate::records::{IdentityView, IndexView, SummaryView, TaskView};
use crate::request::{RequestView};
use crate::saved_laws::{law_created_is_read, lemma_creation_index, lemma_creation_written};
use crate::writing::{
    TargetView, after_archives, after_markdown, after_task, after_tasks, capacity_of, capped,
    index_bytes, task_bytes,
};

verus! {

/// A text in which a marker stands has a first place of it.
proof fn lemma_found(s: Seq<char>, m: Seq<char>, i: int)
    requires
        0 <= i,
        i + m.len() <= s.len(),
        s.subrange(i, i + m.len()) == m,
    ensures
        first_at(s, m) is Some,
    decreases s.len(),
{
    if i == 0 {
        assert(s.take(m.len() as int) =~= s.subrange(0, m.len() as int));
    } else {
        assert(s.drop_first().subrange(i - 1, i - 1 + m.len()) =~= s.subrange(i, i + m.len()));
        lemma_found(s.drop_first(), m, i - 1);
    }
}

/// A text around the machine region is managed.
proof fn lemma_region_managed(before: Seq<char>, t: TaskView, after: Seq<char>)
    ensures
        is_managed(before + region(t) + after),
{
    let s = before + region(t) + after;
    let n = before.len() as int;
    let m = region(t).len() as int;
    let first = MACHINE_START@.len() as int;
    let last = MACHINE_END@.len() as int;
    assert(s.subrange(n, n + first) =~= MACHINE_START@);
    lemma_found(s, MACHINE_START@, n);
    assert(s.subrange(n + m - last, n + m) =~= MACHINE_END@);
    lemma_found(s, MACHINE_END@, n + m - last);
}

/// The Markdown of a task counts in the directory as it was planned.
proof fn lemma_markdown_counts(d: DirectoryView, e: DirectoryView, t: TaskView, base: u64)
    requires
        t.task_id.len() > 0,
        markdown_in(d, t) matches Ok(p) && (p.bytes matches Some(b) ==> b.len()
            <= MAX_MARKDOWN_BYTES),
        e.entry(markdown_name(t.task_id)) == (match markdown_in(d, t)->Ok_0.bytes {
            Some(b) => Some(EntryView::File { bytes: b, distinct: true }),
            None => d.entry(markdown_name(t.task_id)),
        }),
    ensures
        after_markdown(e, t.task_id, no_target(), base) == Ok::<_, Failure>(
            match markdown_in(d, t)->Ok_0.bytes {
                Some(b) => capped(base + b.len()),
                None => base,
            },
        ),
{
    broadcast use encode_utf8_valid_utf8, encode_utf8_decode_utf8;

    let name = markdown_name(t.task_id);
    reveal_strlit("<!-- webcodex-handoff:machine:start -->");
    reveal_strlit("<!-- webcodex-handoff:machine:end -->");
    match d.read(name, MAX_MARKDOWN_BYTES as int)->Ok_0 {
        None => {
            let text = fresh_markdown(t);
            let head = "# "@ + t.title + "\n\n"@;
            let tail = "\n\n"@ + NOTES_START@
                + "\n\nHuman or agent notes go between the notes markers. They are preserved by WebCodex.\n"@
                + NOTES_END@ + "\n"@;
            assert(text =~= head + region(t) + tail);
            lemma_region_managed(head, t, tail);
        },
        Some(bytes) => {
            let text = decode_utf8(bytes);
            lemma_occurs(text, MACHINE_START@);
            lemma_occurs(text, MACHINE_END@);
            if markdown_in(d, t)->Ok_0.bytes is Some {
                let start = first_at(text, MACHINE_START@)->0;
                let end = first_at(text, MACHINE_END@)->0 + MACHINE_END@.len();
                lemma_region_managed(text.take(start as int), t, text.skip(end as int));
            }
        },
    }
}

/// A file that is counted as a task is not the index.
proof fn lemma_counted_is_not_index(
    d: DirectoryView,
    identity: IdentityView,
    other: Seq<char>,
    target: TargetView,
    base: u64,
)
    requires
        index_at(d, identity) matches Ok(Some(_)),
        other != target.task_id,
        after_task(d, other, target, base) is Ok,
    ensures
        other != "index"@,
{
    if other == "index"@ {
        reveal_strlit("index.json");
        reveal_strlit("index");
        reveal_strlit(".json");
        assert(INDEX_FILE_NAME@ =~= task_name("index"@));
        lemma_read_more(d, INDEX_FILE_NAME@, MAX_INDEX_BYTES as int, MAX_TASK_BYTES as int);
        let bytes = d.read(INDEX_FILE_NAME@, MAX_INDEX_BYTES as int)->Ok_0->0;
        lemma_shapes_differ(json_reading(bytes)->0);
    }
}

/// Whether only the files of one task, and the index, may differ.
spec fn others_kept(d: DirectoryView, e: DirectoryView, id: Seq<char>) -> bool {
    forall|q: Seq<char>|
        q != task_name(id) && q != markdown_name(id) && q != INDEX_FILE_NAME@ && !(exists|
            s: Seq<char>,
        |
            is_digest(s) && q == #[trigger] archive_name(id, s)) ==> #[trigger] e.entry(q)
            == d.entry(q)
}

/// Another task counts as before.
proof fn lemma_other_counts(
    d: DirectoryView,
    e: DirectoryView,
    id: Seq<char>,
    other: Seq<char>,
    target: TargetView,
    base: u64,
)
    requires
        others_kept(d, e, id),
        target.task_id == id,
        is_slug(id),
        is_slug(other),
        id.len() > 0,
        other.len() > 0,
        other != id,
        other != "index"@,
    ensures
        after_task(e, other, no_target(), base) == after_task(d, other, target, base),
{
    let zeros = Seq::new(64, |i: int| '0');
    assert(is_digest(zeros));
    lemma_own_names(other, zeros);
    lemma_other_names(id, zeros, other, zeros);
    assert forall|s: Seq<char>| is_digest(s) implies task_name(other) != #[trigger] archive_name(
        id,
        s,
    ) && markdown_name(other) != archive_name(id, s) by {
        lemma_other_names(id, s, other, zeros);
    }
    assert(e.entry(task_name(other)) == d.entry(task_name(other)));
    assert(e.entry(markdown_name(other)) == d.entry(markdown_name(other)));
}

/// The first tasks count as planned.
proof fn lemma_tasks_count(
    d: DirectoryView,
    e: DirectoryView,
    identity: IdentityView,
    index: IndexView,
    t: TaskView,
    tb: Seq<u8>,
    base: u64,
    k: nat,
)
    requires
        sound_index(index, identity),
        k <= index.tasks.len(),
        is_slug(t.task_id),
        t.task_id.len() > 0,
        index_at(d, identity) matches Ok(Some(_)) || forall|i: int|
            0 <= i < index.tasks.len() ==> (#[trigger] index.tasks[i]).task_id == t.task_id,
        others_kept(d, e, t.task_id),
        e.entry(task_name(t.task_id)) == Some(EntryView::File { bytes: tb, distinct: true }),
        tb.len() <= MAX_TASK_BYTES,
        markdown_in(d, t) matches Ok(p) && (p.bytes matches Some(b) ==> b.len()
            <= MAX_MARKDOWN_BYTES),
        e.entry(markdown_name(t.task_id)) == (match markdown_in(d, t)->Ok_0.bytes {
            Some(b) => Some(EntryView::File { bytes: b, distinct: true }),
            None => d.entry(markdown_name(t.task_id)),
        }),
        after_tasks(
            d,
            index.tasks,
            k,
            target_of(t.task_id, tb, markdown_in(d, t)->Ok_0.bytes),
            base,
        ) is Ok,
    ensures
        after_tasks(e, index.tasks, k, no_target(), base) == after_tasks(
            d,
            index.tasks,
            k,
            target_of(t.task_id, tb, markdown_in(d, t)->Ok_0.bytes),
            base,
        ),
    decreases k,
{
    if k > 0 {
        let target = target_of(t.task_id, tb, markdown_in(d, t)->Ok_0.bytes);
        let other = index.tasks[k - 1].task_id;
        let prior = after_tasks(d, index.tasks, (k - 1) as nat, target, base)->Ok_0;
        lemma_tasks_count(d, e, identity, index, t, tb, base, (k - 1) as nat);
        assert(good_summary((index.tasks + index.retired_tasks)[k - 1]));
        if other == t.task_id {
            let read = task_reading(tb, true)->0;
            let n = after_archives(read.archives, other, read.archives.len(), prior)->Ok_0;
            lemma_markdown_counts(d, e, t, capped(n + tb.len()));
        } else {
            lemma_counted_is_not_index(d, identity, other, target, prior);
            lemma_other_counts(d, e, t.task_id, other, target, prior);
        }
    }
}

/// A new event leaves the project within its total capacity, as its status
/// counts it, where a Markdown file that is made for the task is one that can be
/// read again.
pub proof fn law_new_event_stays_within_capacity(
    d: DirectoryView,
    identity: IdentityView,
    v: IndexView,
    t: TaskView,
    e: EventView,
    expected: u64,
    policy: Seq<Seq<char>>,
    now: i64,
)
    requires
        index_at(d, identity) == Ok::<_, Failure>(Some(v)),
        v.enabled,
        has_task(v.tasks, t.task_id),
        task_at(d, identity, t.task_id, policy) == Ok::<_, Failure>(t),
        event_of(e.value, policy) == Ok::<_, Failure>(e),
        !is_known(t, e),
        growth_of(d, v, t, e, expected, now).reply is Ok,
        growth_back(v, t, e, now),
        ({
            let (_, _, task, _) = growth_result(v, t, e, now)->0;
            markdown_in(d, task)->Ok_0.bytes matches Some(b) ==> b.len() <= MAX_MARKDOWN_BYTES
        }),
    ensures
        ({
            let after = committed(d, growth_of(d, v, t, e, expected, now)).0;
            index_at(after, identity) matches Ok(Some(index)) && capacity_of(
                after,
                index,
                no_target(),
            ) matches Ok(used) && used <= MAX_TOTAL_BYTES && index.tasks.len() <= MAX_TASK_COUNT
        }),
{
    let p = growth_of(d, v, t, e, expected, now);
    let (index, larger, task, planned) = growth_result(v, t, e, now)->0;
    law_saved_event_is_read(d, identity, v, t, e, expected, policy, now);
    lemma_loaded_parts(d, identity, t, policy);
    lemma_task_is_not_index(d, identity, t.task_id, policy);
    assert(task.task_id == t.task_id);
    assert(p == growth_in(d, index, task, planned, e));
    lemma_growth_writes(d, index, task, planned, e);
    let after = committed(d, p).0;
    law_valid_index_is_sound(index, identity);
    assert(others_kept(d, after, t.task_id)) by {
        assert forall|q: Seq<char>|
            q != task_name(t.task_id) && q != markdown_name(t.task_id) && q != INDEX_FILE_NAME@
                && !(exists|s: Seq<char>| is_digest(s) && q == #[trigger] archive_name(t.task_id, s))
            implies #[trigger] after.entry(q) == d.entry(q) by {
            if planned is Some {
                assert(is_digest(digest_of((planned->0).1)));
            }
        }
    }
    let tb = task_bytes(task)->Ok_0;
    lemma_tasks_count(
        d,
        after,
        identity,
        index,
        task,
        tb,
        index_bytes(index)->Ok_0.len() as u64,
        index.tasks.len(),
    );
}

/// Without an index a new task is the only one.
proof fn lemma_first_task(d: DirectoryView, identity: IdentityView, r: RequestView, now: i64)
    requires
        !(index_at(d, identity) matches Ok(Some(_))),
        creation_of(d, identity, r, now).reply is Ok,
    ensures
        forall|i: int|
            0 <= i < creation_index(d, identity, r, now).tasks.len() ==> (
            #[trigger] creation_index(d, identity, r, now).tasks[i]).task_id == r.task_id->0,
{
    let task = fresh_task(identity, r.task_id->0, r.title->0, r.event, now);
    let one = Seq::<SummaryView>::empty().push(summarized(task));
    reveal_with_fuel(by_id, 2);
    assert(one.drop_last() =~= Seq::empty());
    assert(by_id(one) =~= one);
}

/// A new task leaves the project within its total capacity, as its status counts
/// it, where a Markdown file that is made for the task is one that can be read
/// again.
pub proof fn law_new_task_stays_within_capacity(
    d: DirectoryView,
    identity: IdentityView,
    r: RequestView,
    now: i64,
    policy: Seq<Seq<char>>,
)
    requires
        r.task_id is Some,
        r.title is Some,
        slug_of(Node::Text(r.task_id->0), MAX_TASK_ID_CHARS as int) is Ok,
        text_of(Node::Text(r.title->0), MAX_TITLE_CHARS as int, false) is Ok,
        r.event is Some ==> event_of(r.event->0.value, policy) == Ok::<_, Failure>(r.event->0),
        client_of(r) is Some ==> actor_of(Node::Text(client_of(r)->0)) is Ok,
        creation_back(d, identity, r, now),
        creation_of(d, identity, r, now).reply is Ok,
        committed(d, creation_of(d, identity, r, now)).1 is Ok,
        markdown_in(
            d,
            fresh_task(identity, r.task_id->0, r.title->0, r.event, now),
        )->Ok_0.bytes matches Some(b) ==> b.len() <= MAX_MARKDOWN_BYTES,
    ensures
        ({
            let after = committed(d, creation_of(d, identity, r, now)).0;
            index_at(after, identity) matches Ok(Some(index)) && capacity_of(
                after,
                index,
                no_target(),
            ) matches Ok(used) && used <= MAX_TOTAL_BYTES && index.tasks.len() <= MAX_TASK_COUNT
        }),
{
    let id = r.task_id->0;
    let task = fresh_task(identity, id, r.title->0, r.event, now);
    let index = creation_index(d, identity, r, now);
    let replace = index_at(d, identity) matches Ok(Some(_));
    let p = creation_of(d, identity, r, now);
    let tb = task_bytes(task)->Ok_0;
    let ib = index_bytes(index)->Ok_0;
    let md = markdown_in(d, task)->Ok_0.bytes;
    law_created_is_read(d, identity, r, now, policy);
    lemma_creation_index(d, identity, r, now, policy);
    if !replace {
        lemma_first_task(d, identity, r, now);
    }
    assert(others_kept(d, committed(d, p).0, id));
    assert(p.writes == creation_writes(id, tb, md, ib, replace));
    lemma_creation_written(d, id, tb, md, ib, replace);
    let after = committed(d, p).0;
    assert(after == all_written(d, p.writes, p.writes.len()).0);
    lemma_tasks_count(d, after, identity, index, task, tb, ib.len() as u64, index.tasks.len());
}

} // verus!
