//! What holds across checkpoint requests.
use vstd::prelude::*;
use vstd::string::*;
use crate::actions::{checkpoint_of, lemma_no_position, overview_of, selection, successor};
use crate::anchor::{HostView};
use crate::append_laws::{lemma_loaded_parts};
use crate::appending::{
    append_of, enabled_index, event_digest, id_conflict, identified, is_known, recorded,
};
use crate::checkpoint::{performed};
use crate::checks::{
    INDEX_FILE_NAME, MAX_INDEX_BYTES, MAX_TASK_BYTES, archive_name, has_task, index_bounded,
    is_digest,
};
use crate::codec::{alike};
use crate::commit::{committed, plain_write, refusal};
use crate::commit_laws::{
    lemma_entry_written, lemma_read_more, lemma_same_task, lemma_task_is_not_index,
    lemma_written_one,
};
use crate::directory::{DirectoryView, EntryView, index_at, task_at};
use crate::event::{EventView, actor_of};
use crate::failure::{Failure, refused, stale};
use crate::file_names::{lemma_own_names};
use crate::index_laws::{
    good_binding, law_retired_is_not_active, law_valid_index_is_sound, lemma_bound_sound,
    lemma_has_concat, lemma_retired_sound, sound_index,
};
use crate::json::{Node};
use crate::lifecycle::{
    archive_request_of, bind_of, disable_of, disabled_index, index_commit, rebound, resolved,
    retired_index, retirement_check, server_bound,
};
use crate::mutations::{bound_to_retired, client_of, creation_of};
use crate::records::{IdentityView, IndexView, TaskView};
use crate::reply::{CheckpointView, ReplyView};
use crate::request::{Action, RequestView};
use crate::table::{lemma_put_lookup, lookup, put};
use crate::task_laws::{lemma_task_summary};
use crate::writing::{index_back, index_bytes};

verus! {

/// Every file but the index is as it was.
pub open spec fn only_index_changed(d: DirectoryView, e: DirectoryView) -> bool {
    &&& e.present == d.present
    &&& forall|q: Seq<char>| q != INDEX_FILE_NAME@ ==> #[trigger] e.entry(q) == d.entry(q)
}

/// An index replacement is admitted and read back, and changes no other file.
proof fn lemma_index_committed(
    d: DirectoryView,
    identity: IdentityView,
    index: IndexView,
    reply: ReplyView,
)
    requires
        index_at(d, identity) matches Ok(Some(_)),
        index_bytes(index) is Ok,
        index_back(index),
        sound_index(index, identity),
    ensures
        ({
            let p = index_commit(index_bytes(index)->Ok_0, reply);
            let after = committed(d, p).0;
            &&& committed(d, p).1 == Ok::<_, Failure>(reply)
            &&& only_index_changed(d, after)
            &&& index_at(after, identity) == Ok::<_, Failure>(Some(index))
        }),
{
    let ib = index_bytes(index)->Ok_0;
    let p = index_commit(ib, reply);
    let w = plain_write(INDEX_FILE_NAME@, ib, true, false);
    assert(d.present);
    lemma_read_more(d, INDEX_FILE_NAME@, MAX_INDEX_BYTES as int, MAX_TASK_BYTES as int);
    assert(p.writes =~= seq![w]);
    lemma_written_one(d, w);
    let after = d.with_file(INDEX_FILE_NAME@, ib);
    assert(committed(d, p) == (after, Ok::<_, Failure>(reply)));
    assert forall|q: Seq<char>| #[trigger] after.entry(q) == (if q == INDEX_FILE_NAME@ {
        Some(EntryView::File { bytes: ib, distinct: true })
    } else {
        d.entry(q)
    }) by {
        lemma_entry_written(d, INDEX_FILE_NAME@, ib, q);
    }
    lemma_entry_written(d, INDEX_FILE_NAME@, ib, INDEX_FILE_NAME@);
    law_valid_index_is_sound(index, identity);
}

/// A change of the index alone leaves every task as it was.
pub proof fn lemma_tasks_kept(
    d: DirectoryView,
    e: DirectoryView,
    identity: IdentityView,
    id: Seq<char>,
    policy: Seq<Seq<char>>,
)
    requires
        only_index_changed(d, e),
        id.len() > 0,
        id != "index"@,
    ensures
        task_at(e, identity, id, policy) == task_at(d, identity, id, policy),
{
    let zeros = Seq::new(64, |i: int| '0');
    assert(is_digest(zeros));
    lemma_own_names(id, zeros);
    assert forall|s: Seq<char>| is_digest(s) implies d.entry(#[trigger] archive_name(id, s))
        == e.entry(archive_name(id, s)) by {
        lemma_own_names(id, s);
    }
    lemma_same_task(d, e, identity, id, policy);
}

/// A client that was bound is reported with the task that it selected, and no
/// file but the index changes.
pub proof fn law_bound_client_is_reported(
    d: DirectoryView,
    identity: IdentityView,
    r: RequestView,
    now: i64,
)
    requires
        bind_of(d, identity, r, now).reply is Ok,
        r.task_id is Some,
        client_of(r) is Some,
        actor_of(Node::Text(client_of(r)->0)) is Ok,
        index_back(
            rebound(enabled_index(d, identity)->Ok_0, client_of(r)->0, r.task_id->0, now)->Ok_0,
        ),
    ensures
        ({
            let p = bind_of(d, identity, r, now);
            let after = committed(d, p).0;
            &&& committed(d, p).1 == p.reply
            &&& only_index_changed(d, after)
            &&& enabled_index(after, identity) == rebound(
                enabled_index(d, identity)->Ok_0,
                client_of(r)->0,
                r.task_id->0,
                now,
            )
            &&& selection(enabled_index(after, identity)->Ok_0, client_of(r)->0) == r.task_id
        }),
{
    let v = enabled_index(d, identity)->Ok_0;
    let client = client_of(r)->0;
    let id = r.task_id->0;
    let index = rebound(v, client, id, now)->Ok_0;
    law_valid_index_is_sound(v, identity);
    lemma_bound_sound(v, identity, client, id);
    assert(sound_index(index, identity)) by {
        let w = IndexView { bindings: put(v.bindings, client, id), ..v };
        assert(sound_index(w, identity));
        let all = w.tasks + w.retired_tasks;
        assert(index.tasks + index.retired_tasks == all);
        assert(index.revision != 0);
        assert(index_bounded(index));
        assert forall|i: int| 0 <= i < index.bindings.len() implies good_binding(
            #[trigger] index.bindings[i],
        ) && has_task(all, index.bindings[i].1) by {
            assert(good_binding(w.bindings[i]));
        }
    }
    lemma_put_lookup(v.bindings, client, id, client);
    let reply = ReplyView::Bound { task_id: id, client_id: client, revision: index.revision };
    lemma_index_committed(d, identity, index, reply);
}

/// An archived task keeps its files and its history, is read as archived, and
/// gives its place among the active tasks free.
pub proof fn law_archived_is_kept(
    d: DirectoryView,
    identity: IdentityView,
    r: RequestView,
    policy: Seq<Seq<char>>,
    now: i64,
    coordinated: bool,
)
    requires
        r.task_id is Some,
        archive_request_of(d, identity, r, policy, now, coordinated).reply is Ok,
        archive_request_of(d, identity, r, policy, now, coordinated).writes.len() > 0,
        index_back(
            retired_index(
                enabled_index(d, identity)->Ok_0,
                task_at(d, identity, r.task_id->0, policy)->Ok_0,
                now,
            )->Ok_0,
        ),
    ensures
        ({
            let p = archive_request_of(d, identity, r, policy, now, coordinated);
            let id = r.task_id->0;
            let after = committed(d, p).0;
            let task = task_at(d, identity, id, policy)->Ok_0;
            let old = enabled_index(d, identity)->Ok_0;
            let index = enabled_index(after, identity)->Ok_0;
            &&& committed(d, p).1 == p.reply
            &&& only_index_changed(d, after)
            &&& enabled_index(after, identity) == retired_index(old, task, now)
            &&& index.bindings == old.bindings
            &&& index.tasks.len() < old.tasks.len()
            &&& !has_task(index.tasks, id)
            &&& has_task(index.retired_tasks, id)
            &&& checkpoint_of(after, identity, id, policy) == Ok::<_, Failure>(
                ReplyView::Read(CheckpointView { archived: true, task, stale: false }),
            )
        }),
{
    let id = r.task_id->0;
    let v = enabled_index(d, identity)->Ok_0;
    let t = task_at(d, identity, id, policy)->Ok_0;
    assert(t.task_id == id);
    let index = retired_index(v, t, now)->Ok_0;
    assert(!has_task(v.retired_tasks, id));
    lemma_has_concat(v.tasks, v.retired_tasks, id);
    law_valid_index_is_sound(v, identity);
    lemma_loaded_parts(d, identity, t, policy);
    lemma_task_summary(t, identity, policy);
    lemma_retired_sound(v, identity, t, now);
    let reply = ReplyView::Archived { task_id: id, revision: t.revision, duplicate: false };
    lemma_index_committed(d, identity, index, reply);
    lemma_task_is_not_index(d, identity, id, policy);
    let p = archive_request_of(d, identity, r, policy, now, coordinated);
    let after = committed(d, p).0;
    lemma_tasks_kept(d, after, identity, id, policy);
    lemma_no_position(index.tasks, id);
}

/// Archiving an archived task again answers so and writes nothing.
pub proof fn law_archive_is_idempotent(
    d: DirectoryView,
    identity: IdentityView,
    r: RequestView,
    policy: Seq<Seq<char>>,
    now: i64,
    coordinated: bool,
)
    requires
        r.task_id is Some,
        r.expected_revision is Some,
        enabled_index(d, identity) matches Ok(v) && has_task(v.retired_tasks, r.task_id->0),
        task_at(d, identity, r.task_id->0, policy) matches Ok(t) && retirement_check(
            enabled_index(d, identity)->Ok_0,
            t,
            r.expected_revision->0,
            coordinated,
        ) is Ok,
    ensures
        ({
            let p = archive_request_of(d, identity, r, policy, now, coordinated);
            &&& p.writes.len() == 0
            &&& p.reply == Ok::<_, Failure>(
                ReplyView::Archived {
                    task_id: r.task_id->0,
                    revision: r.expected_revision->0,
                    duplicate: true,
                },
            )
        }),
{
    let v = enabled_index(d, identity)->Ok_0;
    lemma_has_concat(v.tasks, v.retired_tasks, r.task_id->0);
}

/// Nothing can be appended to an archived task.
pub proof fn law_archived_refuses_events(
    d: DirectoryView,
    identity: IdentityView,
    r: RequestView,
    policy: Seq<Seq<char>>,
    now: i64,
)
    requires
        r.task_id is Some,
        enabled_index(d, identity) matches Ok(v) && has_task(v.retired_tasks, r.task_id->0),
    ensures
        append_of(d, identity, r, policy, now) == refusal(
            refused("task_not_found", "task does not exist"),
        ),
{
    let v = enabled_index(d, identity)->Ok_0;
    if has_task(v.tasks, r.task_id->0) {
        law_retired_is_not_active(v, identity, r.task_id->0);
    }
}

/// The id of an archived task cannot be used again.
pub proof fn law_archived_id_is_taken(
    d: DirectoryView,
    identity: IdentityView,
    r: RequestView,
    now: i64,
)
    requires
        r.task_id is Some,
        index_at(d, identity) matches Ok(Some(v)) && has_task(v.retired_tasks, r.task_id->0),
    ensures
        creation_of(d, identity, r, now) == refusal(
            refused("task_exists", "task already exists"),
        ),
{
    let v = index_at(d, identity)->Ok_0->0;
    lemma_has_concat(v.tasks, v.retired_tasks, r.task_id->0);
}

/// A client of an archived task cannot be bound again, neither to a task that is
/// there nor to a new one.
pub proof fn law_archived_client_is_refused(
    d: DirectoryView,
    identity: IdentityView,
    r: RequestView,
    now: i64,
)
    requires
        r.task_id is Some,
        client_of(r) is Some,
        enabled_index(d, identity) matches Ok(v) && bound_to_retired(v, client_of(r)->0),
    ensures
        bind_of(d, identity, r, now).reply is Err,
        bind_of(d, identity, r, now).writes.len() == 0,
        creation_of(d, identity, r, now).reply is Err,
        creation_of(d, identity, r, now).writes.len() == 0,
        ({
            let v = enabled_index(d, identity)->Ok_0;
            has_task(v.tasks, r.task_id->0) && (r.expected_revision is Some
                ==> r.expected_revision->0 == v.revision) ==> bind_of(d, identity, r, now)
                == refusal(
                refused(
                    "task_archived",
                    "this client belongs to an archived task; use a new session",
                ),
            )
        }),
{
}

/// A task with anything unknown or unfinished is not archived.
pub proof fn law_unresolved_is_not_archived(
    d: DirectoryView,
    identity: IdentityView,
    r: RequestView,
    policy: Seq<Seq<char>>,
    now: i64,
    coordinated: bool,
)
    requires
        r.task_id is Some,
        archive_request_of(d, identity, r, policy, now, coordinated).reply is Ok,
    ensures
        task_at(d, identity, r.task_id->0, policy) matches Ok(t) && resolved(t) && t.revision
            == r.expected_revision->0 && (coordinated || !server_bound(
            enabled_index(d, identity)->Ok_0,
            t.task_id,
        )),
{
}

/// A checkpoint that was turned off answers so.
pub proof fn law_disabled_is_reported(
    d: DirectoryView,
    identity: IdentityView,
    r: RequestView,
    client: Option<Seq<char>>,
    id: Seq<char>,
    policy: Seq<Seq<char>>,
    now: i64,
)
    requires
        disable_of(d, identity, r, now).reply matches Ok(ReplyView::TurnedOff { revision })
            && index_back(
            disabled_index(index_at(d, identity)->Ok_0->0, revision, now),
        ),
    ensures
        ({
            let p = disable_of(d, identity, r, now);
            let after = committed(d, p).0;
            &&& committed(d, p).1 == p.reply
            &&& only_index_changed(d, after)
            &&& index_at(after, identity) == Ok::<_, Failure>(
                Some(
                    disabled_index(
                        index_at(d, identity)->Ok_0->0,
                        (p.reply->Ok_0)->TurnedOff_revision,
                        now,
                    ),
                ),
            )
            &&& overview_of(after, identity, client, policy) == Ok::<_, Failure>(
                ReplyView::Disabled,
            )
            &&& checkpoint_of(after, identity, id, policy) == Ok::<_, Failure>(ReplyView::Unread)
            &&& enabled_index(after, identity) == Err::<IndexView, Failure>(
                refused("handoff_disabled", "handoff is not enabled"),
            )
        }),
{
    let v = index_at(d, identity)->Ok_0->0;
    let revision = successor(v.revision)->Ok_0;
    let index = disabled_index(v, revision, now);
    law_valid_index_is_sound(v, identity);
    assert(index.tasks + index.retired_tasks == v.tasks + v.retired_tasks);
    assert(sound_index(index, identity));
    lemma_index_committed(d, identity, index, ReplyView::TurnedOff { revision });
}

/// Status and read requests write nothing.
pub proof fn law_reading_writes_nothing(
    d: DirectoryView,
    identity: IdentityView,
    r: RequestView,
    policy: Seq<Seq<char>>,
    now: i64,
    host: HostView,
    coordinated: bool,
)
    requires
        r.action == Action::Status || r.action == Action::Read,
    ensures
        committed(d, performed(d, identity, r, policy, now, host, coordinated)).0 == d,
{
}

/// Without a checkpoint directory nothing but a create request makes one:
/// other changes are refused or have nothing to do.
pub proof fn law_nothing_is_initialized(
    d: DirectoryView,
    identity: IdentityView,
    r: RequestView,
    policy: Seq<Seq<char>>,
    now: i64,
    host: HostView,
    coordinated: bool,
)
    requires
        !d.present,
        r.action != Action::Create,
    ensures
        ({
            let p = performed(d, identity, r, policy, now, host, coordinated);
            &&& committed(d, p) == (d, p.reply)
            &&& r.action == Action::Status || r.action == Action::Disable ==> p.reply == Ok::<
                _,
                Failure,
            >(ReplyView::Disabled)
            &&& r.action == Action::Read ==> p.reply == Ok::<_, Failure>(ReplyView::Unread)
            &&& r.action == Action::Append || r.action == Action::Bind || r.action
                == Action::Archive ==> p.reply == Err::<ReplyView, Failure>(
                refused("handoff_disabled", "handoff is not enabled"),
            )
        }),
{
}

/// A new event at another than the current revision is refused with both
/// revisions, and nothing is written.
pub proof fn law_stale_revision_is_refused(
    d: DirectoryView,
    identity: IdentityView,
    r: RequestView,
    policy: Seq<Seq<char>>,
    now: i64,
)
    requires
        r.task_id is Some,
        r.event is Some,
        r.expected_revision is Some,
        enabled_index(d, identity) matches Ok(v) && has_task(v.tasks, r.task_id->0),
        task_at(d, identity, r.task_id->0, policy) matches Ok(t) && identified(t, r.event->0) is Ok
            && !is_known(t, r.event->0) && t.revision != r.expected_revision->0,
    ensures
        append_of(d, identity, r, policy, now) == refusal(
            stale(
                r.expected_revision->0,
                task_at(d, identity, r.task_id->0, policy)->Ok_0.revision,
            ),
        ),
{
}

/// An id under which other facts are known is refused: as a recorded event, or
/// as an acknowledged alias with another fingerprint.
pub proof fn law_changed_facts_are_refused(t: TaskView, e: EventView)
    requires
        ({
            ||| recorded(t.events, e.id) matches Some(known) && !alike(known, e.value)
            ||| recorded(t.events, e.id) is None && lookup(t.event_aliases, e.id) is Some
                && event_digest(e.value) is Ok && event_digest(e.value)->Ok_0 != lookup(
                t.event_aliases,
                e.id,
            )->0
        }),
    ensures
        identified(t, e) == Err::<Seq<char>, Failure>(id_conflict()),
{
}

} // verus!
