//! What writing files leaves in the directory.
use vstd::prelude::*;
use vstd::string::*;
use crate::checks::{
    INDEX_FILE_NAME, MAX_INDEX_BYTES, MAX_TASK_BYTES, MAX_TOTAL_BYTES, archive_name, is_digest,
    markdown_name, reference_check, task_name,
};
use crate::codec::{json_reading};
use crate::commit::{WriteView, admission, all_written, size_check, write_check, written};
use crate::decode::{index_keys, index_of, slot_bool, slot_identity, task_keys, task_of};
use crate::directory::{
    DirectoryView, EntryView, archive_bytes, archived_total, history_of, index_at, task_at,
    task_reading,
};
use crate::failure::{Failure};
use crate::file_names::{lemma_own_names};
use crate::json::{Node};
use crate::markdown::{MAX_EVENT_COUNT};
use crate::records::{ArchiveView, IdentityView, IndexView, SummaryView};
use crate::table::{lemma_lookup_position, lemma_put_lookup};
use crate::writing::{
    TargetView, after_archives, after_task, after_tasks, capacity_check, capped, index_bytes,
    stored_at,
};

verus! {

/// What is found after a file was written.
pub proof fn lemma_entry_written(d: DirectoryView, name: Seq<char>, bytes: Seq<u8>, q: Seq<char>)
    requires
        d.present,
    ensures
        d.with_file(name, bytes).entry(q) == if q == name {
            Some(EntryView::File { bytes, distinct: true })
        } else {
            d.entry(q)
        },
        d.with_file(name, bytes).present,
{
    lemma_put_lookup(d.files, name, EntryView::File { bytes, distinct: true }, q);
}

/// A larger limit reads the same.
pub proof fn lemma_read_more(d: DirectoryView, name: Seq<char>, a: int, b: int)
    requires
        a <= b,
        d.read(name, a) is Ok,
    ensures
        d.read(name, b) == d.read(name, a),
{
}

/// Writing two lists one after the other.
pub proof fn lemma_written_concat(d: DirectoryView, a: Seq<WriteView>, b: Seq<WriteView>, k: nat)
    requires
        k <= b.len(),
    ensures
        all_written(d, a + b, a.len() + k) == match all_written(d, a, a.len()) {
            (after, Ok(_)) => all_written(after, b, k),
            (after, Err(f)) => (after, Err(f)),
        },
    decreases k,
{
    if k > 0 {
        lemma_written_concat(d, a, b, (k - 1) as nat);
        assert((a + b)[a.len() + k - 1] == b[k - 1]);
    } else {
        lemma_written_prefix(d, a, b, a.len());
    }
}

proof fn lemma_written_prefix(d: DirectoryView, a: Seq<WriteView>, b: Seq<WriteView>, k: nat)
    requires
        k <= a.len(),
    ensures
        all_written(d, a + b, k) == all_written(d, a, k),
    decreases k,
{
    if k > 0 {
        lemma_written_prefix(d, a, b, (k - 1) as nat);
        assert((a + b)[k - 1] == a[k - 1]);
    }
}

/// Writing one file.
pub proof fn lemma_written_one(d: DirectoryView, w: WriteView)
    ensures
        all_written(d, seq![w], 1) == written(d, w),
{
    reveal_with_fuel(all_written, 2);
}

/// A write that is admitted where the directory is as it was.
pub open spec fn good_write(d: DirectoryView, w: WriteView) -> bool {
    &&& size_check(w) is Ok
    &&& d.read(w.name, MAX_TASK_BYTES as int) is Ok
    &&& admission(w, d.entry(w.name) is Some, d.read(w.name, MAX_TASK_BYTES as int)->Ok_0) is Ok
}

/// What the first `k` writes put under a name.
pub open spec fn latest(writes: Seq<WriteView>, k: nat, q: Seq<char>) -> Option<Seq<u8>>
    decreases k,
{
    if k == 0 || k > writes.len() {
        None
    } else if writes[k - 1].name == q {
        Some(writes[k - 1].bytes)
    } else {
        latest(writes, (k - 1) as nat, q)
    }
}

/// Writes under different names are written.
pub open spec fn different_names(writes: Seq<WriteView>) -> bool {
    forall|i: int, j: int|
        0 <= i < j < writes.len() ==> (#[trigger] writes[i]).name != (#[trigger] writes[j]).name
}

proof fn lemma_not_latest(writes: Seq<WriteView>, k: nat, q: Seq<char>)
    requires
        k <= writes.len(),
        forall|i: int| 0 <= i < k ==> (#[trigger] writes[i]).name != q,
    ensures
        latest(writes, k, q) is None,
    decreases k,
{
    if k > 0 {
        lemma_not_latest(writes, (k - 1) as nat, q);
        assert(writes[k - 1].name != q);
    }
}

/// Admitted writes under different names all succeed.
pub proof fn lemma_written_all(d: DirectoryView, writes: Seq<WriteView>, k: nat)
    requires
        d.present,
        k <= writes.len(),
        different_names(writes),
        forall|i: int| 0 <= i < writes.len() ==> good_write(d, #[trigger] writes[i]),
    ensures
        all_written(d, writes, k).1 is Ok,
        all_written(d, writes, k).0.present,
        forall|q: Seq<char>| #[trigger]
            all_written(d, writes, k).0.entry(q) == match latest(writes, k, q) {
                Some(bytes) => Some(EntryView::File { bytes, distinct: true }),
                None => d.entry(q),
            },
    decreases k,
{
    if k > 0 {
        lemma_written_all(d, writes, (k - 1) as nat);
        let before = all_written(d, writes, (k - 1) as nat).0;
        let w = writes[k - 1];
        assert(good_write(d, w));
        assert forall|i: int| 0 <= i < k - 1 implies (#[trigger] writes[i]).name != w.name by {
            assert(writes[i].name != writes[k - 1].name);
        }
        lemma_not_latest(writes, (k - 1) as nat, w.name);
        assert(before.entry(w.name) == d.entry(w.name));
        assert(write_check(before, w) is Ok);
        let after = before.with_file(w.name, w.bytes);
        assert(all_written(d, writes, k) == (after, Ok::<(), Failure>(())));
        assert forall|q: Seq<char>| #[trigger] after.entry(q) == match latest(writes, k, q) {
            Some(bytes) => Some(EntryView::File { bytes, distinct: true }),
            None => d.entry(q),
        } by {
            lemma_entry_written(before, w.name, w.bytes, q);
        }
    }
}

/// What the last write under a name put there, seen from its place.
pub proof fn lemma_latest_at(writes: Seq<WriteView>, k: nat, i: int)
    requires
        0 <= i < k <= writes.len(),
        different_names(writes),
    ensures
        latest(writes, k, writes[i].name) == Some(writes[i].bytes),
    decreases k,
{
    if i < k - 1 {
        assert(writes[i].name != writes[k - 1].name);
        lemma_latest_at(writes, (k - 1) as nat, i);
    }
}

/// A name that no write has.
pub proof fn lemma_latest_none(writes: Seq<WriteView>, q: Seq<char>)
    requires
        forall|i: int| 0 <= i < writes.len() ==> (#[trigger] writes[i]).name != q,
    ensures
        latest(writes, writes.len(), q) is None,
{
    lemma_not_latest(writes, writes.len(), q);
}

/// The values of an index and of a task file have different shapes.
pub proof fn lemma_shapes_differ(n: Node)
    requires
        index_of(n) is Some,
    ensures
        task_of(n) is None,
{
    match n {
        Node::Record(fields) => {
            let i = lemma_lookup_position(fields, index_keys()[3]);
            assert(fields[i].0 == "enabled"@);
            reveal_strlit("enabled");
            reveal_strlit("format");
            reveal_strlit("version");
            reveal_strlit("managed_by");
            reveal_strlit("project_identity");
            reveal_strlit("task_id");
            reveal_strlit("title");
            reveal_strlit("status");
            reveal_strlit("revision");
            reveal_strlit("created_at");
            reveal_strlit("updated_at");
            reveal_strlit("unknown_count");
            reveal_strlit("events");
            reveal_strlit("archives");
            reveal_strlit("event_aliases");
            if task_keys().contains("enabled"@) {
                let k = choose|k: int|
                    0 <= k < task_keys().len() && task_keys()[k] == "enabled"@;
                assert("enabled"@.len() == 7 && "enabled"@[0] == 'e');
                if k < 7 {
                    if k == 0 {
                        assert("format"@.len() == 6);
                    } else if k == 1 {
                        assert("version"@[0] == 'v');
                    } else if k == 2 {
                        assert("managed_by"@.len() == 10);
                    } else if k == 3 {
                        assert("project_identity"@.len() == 16);
                    } else if k == 4 {
                        assert("task_id"@[0] == 't');
                    } else if k == 5 {
                        assert("title"@.len() == 5);
                    } else {
                        assert("status"@.len() == 6);
                    }
                } else {
                    if k == 7 {
                        assert("revision"@.len() == 8);
                    } else if k == 8 {
                        assert("created_at"@.len() == 10);
                    } else if k == 9 {
                        assert("updated_at"@.len() == 10);
                    } else if k == 10 {
                        assert("unknown_count"@.len() == 13);
                    } else if k == 11 {
                        assert("events"@.len() == 6);
                    } else if k == 12 {
                        assert("archives"@.len() == 8);
                    } else {
                        assert("event_aliases"@.len() == 13);
                    }
                }
            }
            assert(!task_keys().contains(fields[i].0));
        },
        Node::List(items) => {
            assert(slot_bool(n, index_keys(), 3) is Some);
            assert(items[3] is Bool);
            assert(slot_identity(n, task_keys(), 3) is None);
        },
        _ => {},
    }
}

/// No task is stored under the name of the index.
pub proof fn lemma_task_is_not_index(
    d: DirectoryView,
    identity: IdentityView,
    id: Seq<char>,
    policy: Seq<Seq<char>>,
)
    requires
        index_at(d, identity) matches Ok(Some(_)),
        task_at(d, identity, id, policy) is Ok,
    ensures
        id != "index"@,
        task_name(id) != INDEX_FILE_NAME@,
{
    reveal_strlit("index.json");
    reveal_strlit("index");
    reveal_strlit(".json");
    assert(INDEX_FILE_NAME@ =~= task_name("index"@));
    if task_name(id) == INDEX_FILE_NAME@ {
        lemma_read_more(d, INDEX_FILE_NAME@, MAX_INDEX_BYTES as int, MAX_TASK_BYTES as int);
        let bytes = d.read(INDEX_FILE_NAME@, MAX_INDEX_BYTES as int)->Ok_0->0;
        lemma_shapes_differ(json_reading(bytes)->0);
    }
}

/// The two directories hold the same files of a task.
pub open spec fn same_files(d: DirectoryView, e: DirectoryView, id: Seq<char>) -> bool {
    &&& d.entry(task_name(id)) == e.entry(task_name(id))
    &&& forall|s: Seq<char>|
        is_digest(s) ==> d.entry(#[trigger] archive_name(id, s)) == e.entry(archive_name(id, s))
}

proof fn lemma_same_history(
    d: DirectoryView,
    e: DirectoryView,
    archives: Seq<ArchiveView>,
    id: Seq<char>,
    k: nat,
)
    requires
        same_files(d, e, id),
    ensures
        history_of(d, archives, id, k) == history_of(e, archives, id, k),
    decreases k,
{
    if k > 0 && k <= archives.len() {
        lemma_same_history(d, e, archives, id, (k - 1) as nat);
        let a = archives[k - 1];
        if reference_check(a, id) is Ok {
            assert(a.file == archive_name(id, a.sha256));
            assert(d.entry(archive_name(id, a.sha256)) == e.entry(archive_name(id, a.sha256)));
        }
    }
}

/// The same files give the same task.
pub proof fn lemma_same_task(
    d: DirectoryView,
    e: DirectoryView,
    identity: IdentityView,
    id: Seq<char>,
    policy: Seq<Seq<char>>,
)
    requires
        same_files(d, e, id),
    ensures
        task_at(d, identity, id, policy) == task_at(e, identity, id, policy),
{
    match d.read(task_name(id), MAX_TASK_BYTES as int) {
        Ok(Some(bytes)) => {
            match task_reading(bytes, d.distinct(task_name(id))) {
                Some(t) => {
                    lemma_same_history(d, e, t.archives, id, t.archives.len());
                },
                None => {},
            }
        },
        _ => {},
    }
}

/// Every file but those of one task and the index is as it was.
pub open spec fn only_task_changed(d: DirectoryView, e: DirectoryView, id: Seq<char>) -> bool {
    &&& e.present == d.present
    &&& forall|q: Seq<char>|
        q != task_name(id) && q != markdown_name(id) && q != INDEX_FILE_NAME@ && d.entry(q) is Some
            ==> #[trigger] e.entry(q) == d.entry(q)
}

/// The archived history is loaded as before where its files are as before.
pub proof fn lemma_history_kept(
    d: DirectoryView,
    e: DirectoryView,
    old: Seq<ArchiveView>,
    new: Seq<ArchiveView>,
    id: Seq<char>,
    k: nat,
)
    requires
        only_task_changed(d, e, id),
        id.len() > 0,
        k <= old.len(),
        k <= new.len(),
        forall|i: int| 0 <= i < k ==> #[trigger] new[i] == old[i],
        history_of(d, old, id, k) is Ok,
    ensures
        history_of(e, new, id, k) == history_of(d, old, id, k),
        archive_bytes(new, k) == archive_bytes(old, k),
    decreases k,
{
    if k > 0 {
        lemma_history_kept(d, e, old, new, id, (k - 1) as nat);
        let a = old[k - 1];
        assert(new[k - 1] == a);
        lemma_own_names(id, a.sha256);
        assert(d.entry(a.file) is Some);
        assert(e.entry(a.file) == d.entry(a.file));
    }
}

proof fn lemma_after_archives_ge(archives: Seq<ArchiveView>, id: Seq<char>, k: nat, base: u64)
    requires
        k <= archives.len(),
        after_archives(archives, id, k, base) is Ok,
    ensures
        after_archives(archives, id, k, base)->Ok_0 >= capped(base + archive_bytes(archives, k)),
        after_archives(archives, id, k, base)->Ok_0 >= base,
        archive_bytes(archives, k) >= 0,
    decreases k,
{
    if k > 0 {
        lemma_after_archives_ge(archives, id, (k - 1) as nat, base);
    }
}

proof fn lemma_after_task_ge(d: DirectoryView, id: Seq<char>, target: TargetView, base: u64)
    requires
        after_task(d, id, target, base) is Ok,
    ensures
        after_task(d, id, target, base)->Ok_0 >= base,
        ({
            let stored = stored_at(d, id, target)->Ok_0;
            let t = task_reading(stored.0, stored.1)->0;
            after_task(d, id, target, base)->Ok_0 >= capped(
                archive_bytes(t.archives, t.archives.len()),
            )
        }),
{
    let stored = stored_at(d, id, target)->Ok_0;
    let t = task_reading(stored.0, stored.1)->0;
    lemma_after_archives_ge(t.archives, id, t.archives.len(), base);
}

pub proof fn lemma_after_tasks_ge(
    d: DirectoryView,
    tasks: Seq<SummaryView>,
    k: nat,
    m: nat,
    target: TargetView,
    base: u64,
)
    requires
        k <= m <= tasks.len(),
        after_tasks(d, tasks, m, target, base) is Ok,
    ensures
        after_tasks(d, tasks, k, target, base) is Ok,
        after_tasks(d, tasks, k, target, base)->Ok_0 <= after_tasks(
            d,
            tasks,
            m,
            target,
            base,
        )->Ok_0,
    decreases m - k,
{
    if k < m {
        lemma_after_tasks_ge(d, tasks, k, (m - 1) as nat, target, base);
        lemma_after_task_ge(
            d,
            tasks[m - 1].task_id,
            target,
            after_tasks(d, tasks, (m - 1) as nat, target, base)->Ok_0,
        );
    }
}

/// The archives of a task that fits the total capacity fit it too.
pub proof fn lemma_archives_fit(d: DirectoryView, v: IndexView, target: TargetView, i: int)
    requires
        capacity_check(d, v, target) is Ok,
        0 <= i < v.tasks.len(),
        v.tasks[i].task_id == target.task_id,
        task_reading(target.bytes, target.distinct) is Some,
    ensures
        ({
            let t = task_reading(target.bytes, target.distinct)->0;
            archive_bytes(t.archives, t.archives.len()) <= MAX_TOTAL_BYTES
        }),
{
    let base = index_bytes(v)->Ok_0.len() as u64;
    lemma_after_tasks_ge(d, v.tasks, (i + 1) as nat, v.tasks.len(), target, base);
    let before = after_tasks(d, v.tasks, i as nat, target, base)->Ok_0;
    lemma_after_tasks_ge(d, v.tasks, i as nat, v.tasks.len(), target, base);
    lemma_after_task_ge(d, v.tasks[i].task_id, target, before);
}

/// Valid archives count at most a full segment each.
pub proof fn lemma_archived_bound(
    d: DirectoryView,
    archives: Seq<ArchiveView>,
    id: Seq<char>,
    k: nat,
)
    requires
        k <= archives.len(),
        history_of(d, archives, id, k) is Ok,
    ensures
        0 <= archived_total(archives, k) <= k * MAX_EVENT_COUNT,
    decreases k,
{
    if k > 0 {
        lemma_archived_bound(d, archives, id, (k - 1) as nat);
    }
}

} // verus!
