//! What was saved is read back, and what was refused changed nothing.
use vstd::prelude::*;
use vstd::string::*;
use crate::actions::{checkpoint_of, lemma_position, summarized, summary_in};
use crate::anchor::{HostView, anchor_write, anchoring};
use crate::append_laws::{lemma_growth_writes, lemma_loaded_parts};
use crate::appending::{
    alias_write, enabled_index, growth_in, growth_result, identified, is_known, markdown_write,
    needs_alias, remembered, repair_of, repetition_back, repetition_of, with_alias,
};
use crate::checkpoint::{performed};
use crate::checks::{
    INDEX_FILE_NAME, MAX_INDEX_BYTES, MAX_TASK_BYTES, archive_name, has_task, is_digest,
    markdown_name, task_name,
};
use crate::commit::{
    PlannedView, all_written, checked_write, cleaned, committed, plain_write, undoes, write_check,
    written,
};
use crate::commit_laws::{
    different_names, good_write, lemma_entry_written, lemma_history_kept, lemma_latest_at,
    lemma_latest_none, lemma_read_more, lemma_same_task, lemma_task_is_not_index,
    lemma_written_all, lemma_written_concat, lemma_written_one, only_task_changed,
};
use crate::directory::{DirectoryView, EntryView, history_of, index_at, task_at, task_reading};
use crate::event::{
    EventView, MAX_TASK_ID_CHARS, MAX_TITLE_CHARS, actor_of, event_of, slug_of, text_of,
};
use crate::failure::{Failure};
use crate::file_names::{lemma_own_names};
use crate::index_laws::{
    distinct_ids, law_retired_is_not_active, law_valid_index_is_sound, lemma_added_sound,
    lemma_bound_sound, lemma_update_sound, sound_index,
};
use crate::json::{Node};
use crate::markdown::{MAX_MARKDOWN_BYTES};
use crate::mutations::{
    base_index, client_of, creation_back, creation_index, creation_of, creation_writes,
    fresh_task, markdown_in, with_task,
};
use crate::records::{IdentityView, IndexView, SummaryView, TaskView};
use crate::reply::{CheckpointView, ReplyView};
use crate::request::{Action, RequestView, admissible};
use crate::table::{lemma_put_lookup, lemma_removed_lookup, lookup};
use crate::task_laws::{
    lemma_aliased_valid, lemma_fresh_valid, lemma_task_summary, lemma_valid_readable,
};
use crate::writing::{archived, disk_view, index_bytes, task_bytes};

verus! {

/// A listed summary is the one that is found under its id.
proof fn lemma_summary_found(tasks: Seq<SummaryView>, s: SummaryView)
    requires
        distinct_ids(tasks),
        tasks.contains(s),
    ensures
        summary_in(tasks, s.task_id) == Some(s),
{
    let i = choose|i: int| 0 <= i < tasks.len() && tasks[i] == s;
    assert forall|j: int| 0 <= j < i implies (#[trigger] tasks[j]).task_id != s.task_id by {
        assert(tasks[j].task_id != tasks[i].task_id);
    }
    lemma_position(tasks, s.task_id, i);
}

/// The index of a create request is sound and lists the new task.
pub proof fn lemma_creation_index(
    d: DirectoryView,
    identity: IdentityView,
    r: RequestView,
    now: i64,
    policy: Seq<Seq<char>>,
)
    requires
        r.task_id is Some,
        r.title is Some,
        slug_of(Node::Text(r.task_id->0), MAX_TASK_ID_CHARS as int) is Ok,
        text_of(Node::Text(r.title->0), MAX_TITLE_CHARS as int, false) is Ok,
        r.event is Some ==> event_of(r.event->0.value, policy) == Ok::<_, Failure>(r.event->0),
        client_of(r) is Some ==> actor_of(Node::Text(client_of(r)->0)) is Ok,
        creation_of(d, identity, r, now).reply is Ok,
    ensures
        sound_index(creation_index(d, identity, r, now), identity),
        creation_index(d, identity, r, now).enabled,
        has_task(creation_index(d, identity, r, now).tasks, r.task_id->0),
        summary_in(creation_index(d, identity, r, now).tasks, r.task_id->0) == Some(
            summarized(fresh_task(identity, r.task_id->0, r.title->0, r.event, now)),
        ),
{
    let id = r.task_id->0;
    let task = fresh_task(identity, id, r.title->0, r.event, now);
    let v = base_index(d, identity, now);
    let s = summarized(task);
    let listed = with_task(v, s, now)->Ok_0;
    let index = creation_index(d, identity, r, now);
    lemma_fresh_valid(identity, id, r.title->0, r.event, now, policy);
    lemma_task_summary(task, identity, policy);
    if index_at(d, identity) matches Ok(Some(_)) {
        law_valid_index_is_sound(v, identity);
    }
    lemma_added_sound(v, identity, s, now);
    if client_of(r) is Some {
        lemma_bound_sound(listed, identity, client_of(r)->0, id);
    }
    assert(index.tasks == listed.tasks);
    assert(sound_index(index, identity));
    let all = index.tasks + index.retired_tasks;
    assert forall|i: int, j: int| 0 <= i < j < index.tasks.len() implies (
    #[trigger] index.tasks[i]).task_id != (#[trigger] index.tasks[j]).task_id by {
        assert(all[i].task_id != all[j].task_id);
    }
    lemma_summary_found(index.tasks, s);
}

/// What the writes of a create request leave, where they all succeed.
pub proof fn lemma_creation_written(
    d: DirectoryView,
    id: Seq<char>,
    tb: Seq<u8>,
    md: Option<Seq<u8>>,
    ib: Seq<u8>,
    replace: bool,
)
    requires
        d.present,
        id.len() > 0,
        d.entry(task_name(id)) is None,
        replace ==> d.entry(INDEX_FILE_NAME@) is Some,
    ensures
        ({
            let w = creation_writes(id, tb, md, ib, replace);
            let (after, r) = all_written(d, w, w.len());
            &&& after.present
            &&& r is Ok ==> {
                &&& task_name(id) != INDEX_FILE_NAME@
                &&& after.entry(task_name(id)) == Some(
                    EntryView::File { bytes: tb, distinct: true },
                )
                &&& after.entry(markdown_name(id)) == (match md {
                    Some(b) => Some(EntryView::File { bytes: b, distinct: true }),
                    None => d.entry(markdown_name(id)),
                })
                &&& after.entry(INDEX_FILE_NAME@) == Some(
                    EntryView::File { bytes: ib, distinct: true },
                )
                &&& forall|q: Seq<char>|
                    q != task_name(id) && q != markdown_name(id) && q != INDEX_FILE_NAME@
                        ==> #[trigger] after.entry(q) == d.entry(q)
            }
            &&& r matches Err(f) ==> !f.state_changed ==> forall|q: Seq<char>|
                #[trigger] after.entry(q) == d.entry(q)
        }),
{
    let w = creation_writes(id, tb, md, ib, replace);
    let first = w[0];
    let last = w.last();
    lemma_own_names(id, Seq::empty());
    reveal_with_fuel(all_written, 4);
    let d1 = d.with_file(task_name(id), tb);
    assert forall|q: Seq<char>| #[trigger] d1.entry(q) == (if q == task_name(id) {
        Some(EntryView::File { bytes: tb, distinct: true })
    } else {
        d.entry(q)
    }) by {
        lemma_entry_written(d, task_name(id), tb, q);
    }
    if write_check(d, first) is Err {
        assert(all_written(d, w, 1) == (d, Err::<(), Failure>(write_check(d, first)->Err_0)));
    } else {
        assert(all_written(d, w, 1) == (d1, Ok::<(), Failure>(())));
        match md {
            None => {
                assert(w.len() == 2);
                lemma_creation_last(d, d1, d1, id, None, ib, replace);
            },
            Some(b) => {
                assert(w.len() == 3);
                let second = w[1];
                let d2 = d1.with_file(markdown_name(id), b);
                if write_check(d1, second) is Err {
                    let f = write_check(d1, second)->Err_0;
                    let back = cleaned(d1, second.undo, second.undo.len());
                    reveal_with_fuel(cleaned, 2);
                    assert(back == d1.without(task_name(id)));
                    assert forall|q: Seq<char>| #[trigger] back.entry(q) == d.entry(q) by {
                        lemma_removed_lookup(d1.files, task_name(id), q);
                        assert(d1.entry(q) == lookup(d1.files, q));
                    }
                    assert(all_written(d, w, 2) == (back, Err::<(), Failure>(f)));
                } else {
                    assert(d1.entry(markdown_name(id)) is None) by {
                        assert(second.replace == false);
                    }
                    assert forall|q: Seq<char>| #[trigger] d2.entry(q) == (if q == markdown_name(
                        id,
                    ) {
                        Some(EntryView::File { bytes: b, distinct: true })
                    } else {
                        d1.entry(q)
                    }) by {
                        lemma_entry_written(d1, markdown_name(id), b, q);
                    }
                    assert(all_written(d, w, 2) == (d2, Ok::<(), Failure>(())));
                    lemma_creation_last(d, d1, d2, id, Some(b), ib, replace);
                }
            },
        }
    }
}

/// The last write of a create request.
proof fn lemma_creation_last(
    d: DirectoryView,
    d1: DirectoryView,
    d2: DirectoryView,
    id: Seq<char>,
    md: Option<Seq<u8>>,
    ib: Seq<u8>,
    replace: bool,
)
    requires
        d.present,
        d1.present,
        d2.present,
        id.len() > 0,
        d.entry(task_name(id)) is None,
        replace ==> d.entry(INDEX_FILE_NAME@) is Some,
        d1.entry(task_name(id)) is Some,
        md is Some ==> d1.entry(markdown_name(id)) is None,
        forall|q: Seq<char>| q != task_name(id) ==> #[trigger] d1.entry(q) == d.entry(q),
        md is Some ==> forall|q: Seq<char>|
            q != markdown_name(id) ==> #[trigger] d2.entry(q) == d1.entry(q),
        md is None ==> d2 == d1,
    ensures
        ({
            let tb = Seq::<u8>::empty();
            let last = creation_writes(id, tb, md, ib, replace).last();
            let (after, r) = written(d2, last);
            &&& after.present
            &&& r is Ok ==> {
                &&& task_name(id) != INDEX_FILE_NAME@
                &&& after.entry(task_name(id)) == d1.entry(task_name(id))
                &&& after.entry(markdown_name(id)) == d2.entry(markdown_name(id))
                &&& after.entry(INDEX_FILE_NAME@) == Some(
                    EntryView::File { bytes: ib, distinct: true },
                )
                &&& forall|q: Seq<char>|
                    q != task_name(id) && q != markdown_name(id) && q != INDEX_FILE_NAME@
                        ==> #[trigger] after.entry(q) == d.entry(q)
            }
            &&& r matches Err(f) ==> !f.state_changed ==> forall|q: Seq<char>|
                #[trigger] after.entry(q) == d.entry(q)
        }),
{
    let last = creation_writes(id, Seq::<u8>::empty(), md, ib, replace).last();
    lemma_own_names(id, Seq::empty());
    assert(d2.entry(task_name(id)) == d1.entry(task_name(id)));
    match write_check(d2, last) {
        Ok(_) => {
            let after = d2.with_file(INDEX_FILE_NAME@, ib);
            assert forall|q: Seq<char>| #[trigger] after.entry(q) == (if q == INDEX_FILE_NAME@ {
                Some(EntryView::File { bytes: ib, distinct: true })
            } else {
                d2.entry(q)
            }) by {
                lemma_entry_written(d2, INDEX_FILE_NAME@, ib, q);
            }
            if task_name(id) == INDEX_FILE_NAME@ {
                assert(!replace);
                assert(d2.entry(INDEX_FILE_NAME@) is Some);
            }
            assert forall|q: Seq<char>|
                q != task_name(id) && q != markdown_name(id) && q != INDEX_FILE_NAME@ implies
                #[trigger] after.entry(q) == d.entry(q) by {
                assert(d2.entry(q) == d1.entry(q));
                assert(d1.entry(q) == d.entry(q));
            }
        },
        Err(f) => {
            if !f.state_changed {
            assert(undoes(last, f));
            let after = cleaned(d2, last.undo, last.undo.len());
            reveal_with_fuel(cleaned, 3);
            assert forall|q: Seq<char>| #[trigger] after.entry(q) == d.entry(q) by {
                let step = d2.without(task_name(id));
                lemma_removed_lookup(d2.files, task_name(id), q);
                assert(d2.entry(q) == lookup(d2.files, q));
                assert(step.entry(q) == (if q == task_name(id) {
                    None
                } else {
                    d2.entry(q)
                }));
                if md is Some {
                    assert(after == step.without(markdown_name(id)));
                    lemma_removed_lookup(step.files, markdown_name(id), q);
                    assert(step.entry(q) == lookup(step.files, q));
                    if q != markdown_name(id) {
                        assert(d2.entry(q) == d1.entry(q));
                    } else {
                        assert(d1.entry(q) is None);
                        assert(d1.entry(q) == d.entry(q));
                    }
                } else {
                    assert(after == step);
                }
                if q != task_name(id) {
                    assert(d1.entry(q) == d.entry(q));
                }
            }
            }
        },
    }
}

/// A task that was created is read back as it was given, and no file outside
/// the new task and the index changed.
pub proof fn law_created_is_read(
    d: DirectoryView,
    identity: IdentityView,
    r: RequestView,
    now: i64,
    policy: Seq<Seq<char>>,
)
    requires
        r.task_id is Some,
        r.title is Some,
        slug_of(Node::Text(r.task_id->0), MAX_TASK_ID_CHARS as int) is Ok,
        text_of(Node::Text(r.title->0), MAX_TITLE_CHARS as int, false) is Ok,
        r.event is Some ==> event_of(r.event->0.value, policy) == Ok::<_, Failure>(r.event->0),
        client_of(r) is Some ==> actor_of(Node::Text(client_of(r)->0)) is Ok,
        creation_back(d, identity, r, now),
        creation_of(d, identity, r, now).reply is Ok,
        committed(d, creation_of(d, identity, r, now)).1 is Ok,
    ensures
        ({
            let id = r.task_id->0;
            let after = committed(d, creation_of(d, identity, r, now)).0;
            let task = fresh_task(identity, id, r.title->0, r.event, now);
            &&& index_at(after, identity) == Ok::<_, Failure>(
                Some(creation_index(d, identity, r, now)),
            )
            &&& checkpoint_of(after, identity, id, policy) == Ok::<_, Failure>(
                ReplyView::Read(CheckpointView { archived: false, task, stale: false }),
            )
            &&& forall|q: Seq<char>|
                q != task_name(id) && q != markdown_name(id) && q != INDEX_FILE_NAME@
                    ==> #[trigger] after.entry(q) == d.entry(q)
        }),
{
    let id = r.task_id->0;
    let task = fresh_task(identity, id, r.title->0, r.event, now);
    let index = creation_index(d, identity, r, now);
    let replace = index_at(d, identity) matches Ok(Some(_));
    let p = creation_of(d, identity, r, now);
    let tb = task_bytes(task)->Ok_0;
    let ib = index_bytes(index)->Ok_0;
    let md = markdown_in(d, task)->Ok_0.bytes;
    lemma_creation_index(d, identity, r, now, policy);
    lemma_fresh_valid(identity, id, r.title->0, r.event, now, policy);
    lemma_valid_readable(task, identity, policy);
    law_valid_index_is_sound(index, identity);
    law_retired_is_not_active(index, identity, id);
    assert(p.writes == creation_writes(id, tb, md, ib, replace));
    lemma_creation_written(d, id, tb, md, ib, replace);
    let after = committed(d, p).0;
    assert(after == all_written(d, p.writes, p.writes.len()).0);
    assert(index_at(after, identity) == Ok::<_, Failure>(Some(index)));
    let disk = disk_view(task);
    assert(disk.events =~= task.events);
    assert(task_reading(tb, true) == Some(task));
    assert(history_of(after, task.archives, id, 0) == Ok::<_, Failure>(Seq::<Node>::empty()));
    assert(Seq::<Node>::empty() + task.events =~= task.events);
    assert(task_at(after, identity, id, policy) == Ok::<_, Failure>(task));
}

/// The files that a repeated event writes are all admitted.
proof fn lemma_repetition_writes(
    d: DirectoryView,
    v: IndexView,
    t: TaskView,
    e: EventView,
    digest: Seq<char>,
    now: i64,
)
    requires
        d.present,
        t.task_id.len() > 0,
        task_name(t.task_id) != INDEX_FILE_NAME@,
        d.read(task_name(t.task_id), MAX_TASK_BYTES as int) matches Ok(Some(_)),
        d.read(INDEX_FILE_NAME@, MAX_INDEX_BYTES as int) matches Ok(Some(_)),
    ensures
        ({
            let p = repetition_of(d, v, t, e, digest, now);
            let after = committed(d, p).0;
            let known = if needs_alias(t, e) {
                with_alias(t, e.id, digest)
            } else {
                t
            };
            &&& committed(d, p).1 == p.reply
            &&& after.present
            &&& p.reply is Ok ==> {
                &&& after.entry(task_name(t.task_id)) == (if needs_alias(t, e) {
                    Some(EntryView::File { bytes: task_bytes(known)->Ok_0, distinct: true })
                } else {
                    d.entry(task_name(t.task_id))
                })
                &&& after.entry(INDEX_FILE_NAME@) == (match repair_of(d, v, known, now) {
                    Ok(Some((_, ib))) => Some(EntryView::File { bytes: ib, distinct: true }),
                    _ => d.entry(INDEX_FILE_NAME@),
                })
            }
            &&& forall|q: Seq<char>|
                q != task_name(t.task_id) && q != markdown_name(t.task_id) && q != INDEX_FILE_NAME@
                    ==> #[trigger] after.entry(q) == d.entry(q)
            &&& p.reply matches Err(f) ==> f.state_changed || p.writes.len() == 0
        }),
{
    let id = t.task_id;
    let p = repetition_of(d, v, t, e, digest, now);
    let w = p.writes;
    lemma_own_names(id, Seq::empty());
    lemma_read_more(d, INDEX_FILE_NAME@, MAX_INDEX_BYTES as int, MAX_TASK_BYTES as int);
    if markdown_in(d, t) is Err || alias_write(
        d,
        v,
        t,
        e,
        digest,
        markdown_in(d, t)->Ok_0.bytes,
    ) is Err {
        assert(w.len() == 0);
        assert(committed(d, p) == (d, p.reply));
    } else {
        lemma_read_more(d, markdown_name(id), MAX_MARKDOWN_BYTES as int, MAX_TASK_BYTES as int);
        let markdown = markdown_in(d, t)->Ok_0;
        let (known, alias) = alias_write(d, v, t, e, digest, markdown.bytes)->Ok_0;
        let md = markdown_write(id, markdown);
        let first = plain_write(task_name(id), task_bytes(known)->Ok_0, true, false);
        let m = checked_write(markdown_name(id), markdown.bytes->0, markdown.original);
        if alias.len() > 0 {
            assert(alias =~= seq![first]);
            assert(good_write(d, first));
        }
        if md.len() > 0 {
            assert(md =~= seq![m]);
            assert(good_write(d, m));
        }
        let tail = match repair_of(d, v, known, now) {
            Ok(Some((index, ib))) => seq![plain_write(INDEX_FILE_NAME@, ib, true, true)],
            _ => Seq::empty(),
        };
        assert(w =~= alias + md + tail);
        if tail.len() > 0 {
            assert(good_write(d, tail[0]));
        }
        assert forall|i: int| 0 <= i < w.len() implies good_write(d, #[trigger] w[i]) by {
            if i < alias.len() {
                assert(w[i] == first);
            } else if i < alias.len() + md.len() {
                assert(w[i] == m);
            } else {
                assert(w[i] == tail[0]);
            }
        }
        assert(different_names(w)) by {
            assert forall|i: int, j: int| 0 <= i < j < w.len() implies (#[trigger] w[i]).name != (
            #[trigger] w[j]).name by {
                assert(i < alias.len() ==> w[i] == first);
                assert(alias.len() <= i < alias.len() + md.len() ==> w[i] == m);
                assert(i >= alias.len() + md.len() ==> w[i] == tail[0]);
                assert(j < alias.len() ==> w[j] == first);
                assert(alias.len() <= j < alias.len() + md.len() ==> w[j] == m);
                assert(j >= alias.len() + md.len() ==> w[j] == tail[0]);
            }
        }
        lemma_written_all(d, w, w.len());
        let after = committed(d, p).0;
        assert forall|q: Seq<char>|
            q != task_name(id) && q != markdown_name(id) && q != INDEX_FILE_NAME@ implies
            #[trigger] after.entry(q) == d.entry(q) by {
            assert forall|i: int| 0 <= i < w.len() implies (#[trigger] w[i]).name != q by {
                assert(i < alias.len() ==> w[i] == first);
                assert(alias.len() <= i < alias.len() + md.len() ==> w[i] == m);
                assert(i >= alias.len() + md.len() ==> w[i] == tail[0]);
            }
            lemma_latest_none(w, q);
        }
        if alias.len() > 0 {
            assert(w[0] == first);
            lemma_latest_at(w, w.len(), 0);
            assert(after.entry(task_name(id)) == Some(
                EntryView::File { bytes: first.bytes, distinct: true },
            ));
        } else {
            assert forall|i: int| 0 <= i < w.len() implies (#[trigger] w[i]).name != task_name(
                id,
            ) by {
                assert(i < md.len() ==> w[i] == m);
                assert(i >= md.len() ==> w[i] == tail[0]);
            }
            lemma_latest_none(w, task_name(id));
            assert(after.entry(task_name(id)) == d.entry(task_name(id)));
        }
        if tail.len() > 0 {
            assert(w[w.len() - 1] == tail[0]);
            lemma_latest_at(w, w.len(), w.len() - 1);
            assert(after.entry(INDEX_FILE_NAME@) == Some(
                EntryView::File { bytes: tail[0].bytes, distinct: true },
            ));
        } else {
            assert forall|i: int| 0 <= i < w.len() implies (#[trigger] w[i]).name
                != INDEX_FILE_NAME@ by {
                assert(i < alias.len() ==> w[i] == first);
                assert(i >= alias.len() ==> w[i] == m);
            }
            lemma_latest_none(w, INDEX_FILE_NAME@);
            assert(after.entry(INDEX_FILE_NAME@) == d.entry(INDEX_FILE_NAME@));
        }
    }
}

/// A repeated event leaves the task as it was but for its id, which is known from
/// then on.
pub proof fn law_repeated_is_remembered(
    d: DirectoryView,
    identity: IdentityView,
    v: IndexView,
    t: TaskView,
    e: EventView,
    policy: Seq<Seq<char>>,
    now: i64,
)
    requires
        index_at(d, identity) == Ok::<_, Failure>(Some(v)),
        v.enabled,
        has_task(v.tasks, t.task_id),
        task_at(d, identity, t.task_id, policy) == Ok::<_, Failure>(t),
        event_of(e.value, policy) == Ok::<_, Failure>(e),
        identified(t, e) is Ok,
        is_known(t, e),
        repetition_of(d, v, t, e, identified(t, e)->Ok_0, now).reply is Ok,
        repetition_back(d, v, t, e, identified(t, e)->Ok_0, now),
    ensures
        ({
            let p = repetition_of(d, v, t, e, identified(t, e)->Ok_0, now);
            let after = committed(d, p).0;
            &&& committed(d, p).1 == p.reply
            &&& only_task_changed(d, after, t.task_id)
            &&& enabled_index(after, identity) is Ok
            &&& task_at(after, identity, t.task_id, policy) == Ok::<_, Failure>(
                remembered(t, e, identified(t, e)->Ok_0),
            )
            &&& !needs_alias(remembered(t, e, identified(t, e)->Ok_0), e)
            &&& !has_task(enabled_index(after, identity)->Ok_0.retired_tasks, t.task_id)
            &&& has_task(enabled_index(after, identity)->Ok_0.tasks, t.task_id)
        }),
{
    let id = t.task_id;
    let digest = identified(t, e)->Ok_0;
    let p = repetition_of(d, v, t, e, digest, now);
    let after = committed(d, p).0;
    let known = remembered(t, e, digest);
    lemma_loaded_parts(d, identity, t, policy);
    lemma_task_is_not_index(d, identity, id, policy);
    lemma_repetition_writes(d, v, t, e, digest, now);
    lemma_own_names(id, Seq::empty());
    assert(only_task_changed(d, after, id));
    law_valid_index_is_sound(v, identity);
    law_retired_is_not_active(v, identity, id);
    if needs_alias(t, e) {
        lemma_aliased_valid(t, e, digest, identity, policy);
        lemma_put_lookup(t.event_aliases, e.id, digest, e.id);
        let n = t.archives.len();
        lemma_history_kept(d, after, t.archives, known.archives, id, n);
        let disk = disk_view(known);
        assert(t.events.take(archived(t)) + t.events.skip(archived(t)) =~= t.events);
        assert(TaskView { events: t.events.take(archived(t)) + disk.events, ..disk } == known);
        assert(task_at(after, identity, id, policy) == Ok::<_, Failure>(known));
    } else {
        assert forall|s: Seq<char>| is_digest(s) implies d.entry(#[trigger] archive_name(id, s))
            == after.entry(archive_name(id, s)) by {
            lemma_own_names(id, s);
        }
        lemma_same_task(d, after, identity, id, policy);
    }
    match repair_of(d, v, known, now) {
        Ok(Some((index, ib))) => {
            lemma_task_summary(known, identity, policy);
            lemma_update_sound(v, identity, known, now);
            law_valid_index_is_sound(index, identity);
            law_retired_is_not_active(index, identity, id);
            assert(index_at(after, identity) == Ok::<_, Failure>(Some(index)));
        },
        _ => {
            assert(index_at(after, identity) == index_at(d, identity));
        },
    }
}

/// Whether every name stands for what it stood for.
pub open spec fn same_entries(d: DirectoryView, e: DirectoryView) -> bool {
    forall|q: Seq<char>| #[trigger] e.entry(q) == d.entry(q)
}

/// A plan of at most one write without removals, which answers only once it is
/// written: where it is refused, nothing was written.
pub proof fn lemma_single_refused(d: DirectoryView, p: PlannedView)
    requires
        p.writes.len() <= 1,
        p.writes.len() == 1 ==> p.reply is Ok && p.writes[0].undo.len() == 0,
        committed(d, p).1 is Err,
    ensures
        committed(d, p).0 == d,
{
    if p.writes.len() == 1 {
        assert(p.writes =~= seq![p.writes[0]]);
        lemma_written_one(d, p.writes[0]);
    }
}

/// A refusal that says that nothing changed leaves every file as it was.
pub proof fn law_refusal_changes_nothing(
    d: DirectoryView,
    identity: IdentityView,
    r: RequestView,
    policy: Seq<Seq<char>>,
    now: i64,
    host: HostView,
    coordinated: bool,
)
    requires
        admissible(r) is Ok,
        r.action == Action::Create ==> slug_of(
            Node::Text(r.task_id->0),
            MAX_TASK_ID_CHARS as int,
        ) is Ok,
        committed(d, performed(d, identity, r, policy, now, host, coordinated)).1 matches Err(f)
            && !f.state_changed,
    ensures
        same_entries(
            d,
            committed(d, performed(d, identity, r, policy, now, host, coordinated)).0,
        ),
{
    let p = performed(d, identity, r, policy, now, host, coordinated);
    match r.action {
        Action::Create => {
            let c = creation_of(d, identity, r, now);
            if c.reply is Err {
                assert(p == c);
                assert(c.writes.len() == 0);
                lemma_single_refused(d, p);
            } else {
                let id = r.task_id->0;
                let task = fresh_task(identity, id, r.title->0, r.event, now);
                let index = creation_index(d, identity, r, now);
                let replace = index_at(d, identity) matches Ok(Some(_));
                let tb = task_bytes(task)->Ok_0;
                let ib = index_bytes(index)->Ok_0;
                let md = markdown_in(d, task)->Ok_0.bytes;
                assert(c.writes == creation_writes(id, tb, md, ib, replace));
                lemma_creation_written(d, id, tb, md, ib, replace);
                match anchoring(d, identity, host) {
                    Ok(Some(b)) => {
                        let w = anchor_write(b, true);
                        assert(p.writes == c.writes.push(w));
                        assert(p.writes =~= c.writes + seq![w]);
                        lemma_written_concat(d, c.writes, seq![w], 1);
                        let mid = all_written(d, c.writes, c.writes.len()).0;
                        lemma_written_one(mid, w);
                    },
                    _ => {
                        assert(p.writes == c.writes);
                    },
                }
            }
        },
        Action::Append => {
            let id = r.task_id->0;
            let e = r.event->0;
            if p.writes.len() > 0 {
                let v = enabled_index(d, identity)->Ok_0;
                let t = task_at(d, identity, id, policy)->Ok_0;
                assert(t.task_id == id);
                lemma_loaded_parts(d, identity, t, policy);
                lemma_task_is_not_index(d, identity, id, policy);
                if is_known(t, e) {
                    lemma_repetition_writes(d, v, t, e, identified(t, e)->Ok_0, now);
                } else {
                    let (index, larger, task, planned) = growth_result(v, t, e, now)->0;
                    assert(p == growth_in(d, index, task, planned, e));
                    lemma_growth_writes(d, index, task, planned, e);
                }
            } else {
                lemma_single_refused(d, p);
            }
        },
        _ => {
            lemma_single_refused(d, p);
        },
    }
}

} // verus!
