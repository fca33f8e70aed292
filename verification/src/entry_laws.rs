//! What an accepted request leaves behind.
use vstd::prelude::*;
use vstd::string::*;
use crate::actions::{checkpoint_of, overview_of, selection};
use crate::anchor::{ANCHOR_FILE_NAME, HostView, anchor_write, anchoring};
use crate::append_laws::{law_saved_event_is_read};
use crate::appending::{enabled_index, growth_result, identified, is_known, remembered};
use crate::checkpoint::{performed, saved_back};
use crate::checkpoint_laws::{
    law_archived_is_kept, law_bound_client_is_reported, law_disabled_is_reported,
    only_index_changed,
};
use crate::checks::{MAX_TASK_BYTES, archive_name, has_task, is_digest, task_name};
use crate::commit::{all_written, committed};
use crate::commit_laws::{
    lemma_entry_written, lemma_same_task, lemma_written_concat, lemma_written_one,
    only_task_changed,
};
use crate::directory::{DirectoryView, history_of, index_at, task_at, task_reading};
use crate::event::{
    MAX_TASK_ID_CHARS, MAX_TITLE_CHARS, actor_of, event_of, is_slug, slug_of, text_of,
};
use crate::failure::{Failure};
use crate::file_names::{lemma_anchor_name, lemma_other_names, lemma_own_names};
use crate::json::{Node};
use crate::lifecycle::{archive_request_of, bind_of, disable_of, rebound};
use crate::mutations::{client_of, creation_index, creation_of, fresh_task};
use crate::normal_form::{law_event_stable, lemma_trim_stable, unnamed};
use crate::records::{ArchiveView, IdentityView};
use crate::reply::{CheckpointView, ReplyView};
use crate::request::{Action, RequestView, admissible, request_of};
use crate::saved_laws::{law_created_is_read, law_repeated_is_remembered};
use crate::table::{lookup};

verus! {

/// The parts of an accepted request are in their checked form.
pub proof fn law_request_is_checked(n: Node, policy: Seq<Seq<char>>)
    requires
        request_of(n, policy) is Ok,
    ensures
        ({
            let r = request_of(n, policy)->Ok_0;
            &&& admissible(r) is Ok
            &&& r.task_id is Some ==> slug_of(
                Node::Text(r.task_id->0),
                MAX_TASK_ID_CHARS as int,
            ) == Ok::<_, Failure>(r.task_id->0)
            &&& r.title is Some ==> text_of(
                Node::Text(r.title->0),
                MAX_TITLE_CHARS as int,
                false,
            ) == Ok::<_, Failure>(r.title->0)
            &&& client_of(r) is Some ==> actor_of(Node::Text(client_of(r)->0)) == Ok::<_, Failure>(
                client_of(r)->0,
            )
            &&& r.event is Some && unnamed(r.event->0.value, policy) ==> event_of(
                r.event->0.value,
                policy,
            ) == Ok::<_, Failure>(r.event->0)
        }),
{
    let r = request_of(n, policy)->Ok_0;
    let fields = n->Record_0;
    if r.title is Some {
        lemma_trim_stable(lookup(fields, "title"@)->0.text()->0);
    }
    if r.event is Some && unnamed(r.event->0.value, policy) {
        law_event_stable(lookup(fields, "event"@)->0, policy);
    }
}

proof fn lemma_other_history(
    d: DirectoryView,
    e: DirectoryView,
    archives: Seq<ArchiveView>,
    id: Seq<char>,
    other: Seq<char>,
    k: nat,
)
    requires
        only_task_changed(d, e, id),
        is_slug(id),
        is_slug(other),
        id.len() > 0,
        other.len() > 0,
        id != other,
        k <= archives.len(),
        history_of(d, archives, other, k) is Ok,
    ensures
        history_of(e, archives, other, k) == history_of(d, archives, other, k),
    decreases k,
{
    if k > 0 {
        lemma_other_history(d, e, archives, id, other, (k - 1) as nat);
        let a = archives[k - 1];
        lemma_own_names(other, a.sha256);
        lemma_other_names(id, a.sha256, other, a.sha256);
        assert(d.entry(a.file) is Some);
        assert(e.entry(a.file) == d.entry(a.file));
    }
}

/// Every other task is read as before.
pub proof fn law_other_tasks_are_kept(
    d: DirectoryView,
    e: DirectoryView,
    identity: IdentityView,
    id: Seq<char>,
    other: Seq<char>,
    policy: Seq<Seq<char>>,
)
    requires
        only_task_changed(d, e, id),
        is_slug(id),
        is_slug(other),
        id.len() > 0,
        other.len() > 0,
        other != "index"@,
        id != other,
        task_at(d, identity, other, policy) is Ok,
    ensures
        task_at(e, identity, other, policy) == task_at(d, identity, other, policy),
{
    let zeros = Seq::new(64, |i: int| '0');
    assert(is_digest(zeros));
    lemma_own_names(other, zeros);
    lemma_other_names(id, zeros, other, zeros);
    assert(d.entry(task_name(other)) is Some);
    assert(e.entry(task_name(other)) == d.entry(task_name(other)));
    let t = task_reading(
        d.read(task_name(other), MAX_TASK_BYTES as int)->Ok_0->0,
        d.distinct(task_name(other)),
    )->0;
    lemma_other_history(d, e, t.archives, id, other, t.archives.len());
}

/// What an accepted request leaves behind, read again.
pub open spec fn recalled(
    d: DirectoryView,
    e: DirectoryView,
    identity: IdentityView,
    r: RequestView,
    policy: Seq<Seq<char>>,
    now: i64,
) -> bool {
    let id = r.task_id->0;
    let before = task_at(d, identity, id, policy)->Ok_0;
    match r.action {
        Action::Create => {
            &&& index_at(e, identity) == Ok::<_, Failure>(
                Some(creation_index(d, identity, r, now)),
            )
            &&& checkpoint_of(e, identity, id, policy) == Ok::<_, Failure>(
                ReplyView::Read(
                    CheckpointView {
                        archived: false,
                        task: fresh_task(identity, id, r.title->0, r.event, now),
                        stale: false,
                    },
                ),
            )
            &&& only_task_changed(d, e, id)
        },
        Action::Append => {
            &&& only_task_changed(d, e, id)
            &&& if is_known(before, r.event->0) {
                task_at(e, identity, id, policy) == Ok::<_, Failure>(
                    remembered(before, r.event->0, identified(before, r.event->0)->Ok_0),
                )
            } else {
                let (index, _, task, _) = growth_result(
                    enabled_index(d, identity)->Ok_0,
                    before,
                    r.event->0,
                    now,
                )->0;
                &&& index_at(e, identity) == Ok::<_, Failure>(Some(index))
                &&& checkpoint_of(e, identity, id, policy) == Ok::<_, Failure>(
                    ReplyView::Read(CheckpointView { archived: false, task, stale: false }),
                )
                &&& task.events == before.events.push(r.event->0.value)
                &&& task.revision == before.revision + 1
            }
        },
        Action::Bind => {
            &&& only_index_changed(d, e)
            &&& enabled_index(e, identity) == rebound(
                enabled_index(d, identity)->Ok_0,
                client_of(r)->0,
                id,
                now,
            )
            &&& selection(enabled_index(e, identity)->Ok_0, client_of(r)->0) == r.task_id
        },
        Action::Archive => {
            &&& only_index_changed(d, e)
            &&& checkpoint_of(e, identity, id, policy) matches Ok(ReplyView::Read(c))
                && c.archived && c.task == before
        },
        Action::Disable => {
            &&& only_index_changed(d, e)
            &&& overview_of(e, identity, r.client_id, policy) == Ok::<_, Failure>(
                ReplyView::Disabled,
            )
        },
        Action::Status => e == d,
        Action::Read => e == d,
    }
}

/// A directory that differs by a new anchor holds the same records.
proof fn lemma_anchored_same(
    d: DirectoryView,
    e: DirectoryView,
    identity: IdentityView,
    id: Seq<char>,
    policy: Seq<Seq<char>>,
)
    requires
        is_slug(id),
        id.len() > 0,
        forall|q: Seq<char>| q != ANCHOR_FILE_NAME@ ==> #[trigger] e.entry(q) == d.entry(q),
    ensures
        index_at(e, identity) == index_at(d, identity),
        task_at(e, identity, id, policy) == task_at(d, identity, id, policy),
{
    let zeros = Seq::new(64, |i: int| '0');
    assert(is_digest(zeros));
    lemma_anchor_name(id, zeros);
    assert forall|s: Seq<char>| is_digest(s) implies d.entry(#[trigger] archive_name(id, s))
        == e.entry(archive_name(id, s)) by {
        lemma_anchor_name(id, s);
    }
    lemma_same_task(d, e, identity, id, policy);
}

/// What an accepted bind request leaves behind.
proof fn lemma_bind_recalled(
    d: DirectoryView,
    identity: IdentityView,
    r: RequestView,
    policy: Seq<Seq<char>>,
    now: i64,
)
    requires
        r.action == Action::Bind,
        r.task_id is Some,
        client_of(r) is Some,
        actor_of(Node::Text(client_of(r)->0)) is Ok,
        saved_back(d, identity, r, policy, now, false),
        committed(d, bind_of(d, identity, r, now)).1 is Ok,
    ensures
        recalled(d, committed(d, bind_of(d, identity, r, now)).0, identity, r, policy, now),
{
    law_bound_client_is_reported(d, identity, r, now);
}

/// What an accepted archive request leaves behind.
proof fn lemma_archive_recalled(
    d: DirectoryView,
    identity: IdentityView,
    r: RequestView,
    policy: Seq<Seq<char>>,
    now: i64,
    coordinated: bool,
)
    requires
        r.action == Action::Archive,
        r.task_id is Some,
        saved_back(d, identity, r, policy, now, coordinated),
        committed(d, archive_request_of(d, identity, r, policy, now, coordinated)).1 is Ok,
    ensures
        recalled(
            d,
            committed(d, archive_request_of(d, identity, r, policy, now, coordinated)).0,
            identity,
            r,
            policy,
            now,
        ),
{
    let p = archive_request_of(d, identity, r, policy, now, coordinated);
    if p.writes.len() > 0 {
        law_archived_is_kept(d, identity, r, policy, now, coordinated);
    } else {
        assert(committed(d, p) == (d, p.reply));
        let v = enabled_index(d, identity)->Ok_0;
        assert(has_task(v.retired_tasks, r.task_id->0));
    }
}

/// What an accepted disable request leaves behind.
proof fn lemma_disable_recalled(
    d: DirectoryView,
    identity: IdentityView,
    r: RequestView,
    policy: Seq<Seq<char>>,
    now: i64,
)
    requires
        r.action == Action::Disable,
        saved_back(d, identity, r, policy, now, false),
        committed(d, disable_of(d, identity, r, now)).1 is Ok,
    ensures
        recalled(d, committed(d, disable_of(d, identity, r, now)).0, identity, r, policy, now),
{
    let p = disable_of(d, identity, r, now);
    if p.writes.len() > 0 {
        law_disabled_is_reported(d, identity, r, r.client_id, ""@, policy, now);
    } else {
        assert(committed(d, p) == (d, p.reply));
    }
}

/// What was saved is read back: a created task, a new event, the facts that a
/// repeated event names, the task that a client selected, an archived task as it
/// was, and a checkpoint that was turned off. Reading changes nothing.
pub proof fn law_saved_is_read(
    d: DirectoryView,
    identity: IdentityView,
    n: Node,
    policy: Seq<Seq<char>>,
    now: i64,
    host: HostView,
    coordinated: bool,
)
    requires
        request_of(n, policy) is Ok,
        ({
            let r = request_of(n, policy)->Ok_0;
            &&& r.event is Some ==> unnamed(r.event->0.value, policy)
            &&& saved_back(d, identity, r, policy, now, coordinated)
            &&& committed(d, performed(d, identity, r, policy, now, host, coordinated)).1 is Ok
        }),
    ensures
        ({
            let r = request_of(n, policy)->Ok_0;
            recalled(
                d,
                committed(d, performed(d, identity, r, policy, now, host, coordinated)).0,
                identity,
                r,
                policy,
                now,
            )
        }),
{
    let r = request_of(n, policy)->Ok_0;
    let p = performed(d, identity, r, policy, now, host, coordinated);
    let e = committed(d, p).0;
    law_request_is_checked(n, policy);
    match r.action {
        Action::Create => {
            let id = r.task_id->0;
            let c = creation_of(d, identity, r, now);
            match anchoring(d, identity, host) {
                Ok(Some(b)) => {
                    let w = anchor_write(b, true);
                    assert(p.writes =~= c.writes + seq![w]);
                    lemma_written_concat(d, c.writes, seq![w], 1);
                    let mid = all_written(d, c.writes, c.writes.len()).0;
                    lemma_written_one(mid, w);
                    law_created_is_read(d, identity, r, now, policy);
                    assert(mid == committed(d, c).0);
                    assert(e == mid.with_file(ANCHOR_FILE_NAME@, b));
                    assert forall|q: Seq<char>| q != ANCHOR_FILE_NAME@ implies #[trigger] e.entry(
                        q,
                    ) == mid.entry(q) by {
                        lemma_entry_written(mid, ANCHOR_FILE_NAME@, b, q);
                    }
                    lemma_anchored_same(mid, e, identity, id, policy);
                    let zeros = Seq::new(64, |i: int| '0');
                    assert(is_digest(zeros));
                    lemma_anchor_name(id, zeros);
                    assert(mid.entry(ANCHOR_FILE_NAME@) == d.entry(ANCHOR_FILE_NAME@));
                    assert(d.entry(ANCHOR_FILE_NAME@) is None);
                },
                _ => {
                    assert(p.writes == c.writes);
                    law_created_is_read(d, identity, r, now, policy);
                },
            }
        },
        Action::Append => {
            let id = r.task_id->0;
            let ev = r.event->0;
            let v = enabled_index(d, identity)->Ok_0;
            let t = task_at(d, identity, id, policy)->Ok_0;
            if is_known(t, ev) {
                law_repeated_is_remembered(d, identity, v, t, ev, policy, now);
            } else {
                law_saved_event_is_read(d, identity, v, t, ev, r.expected_revision->0, policy, now);
            }
        },
        Action::Bind => {
            lemma_bind_recalled(d, identity, r, policy, now);
        },
        Action::Archive => {
            lemma_archive_recalled(d, identity, r, policy, now, coordinated);
        },
        Action::Disable => {
            lemma_disable_recalled(d, identity, r, policy, now);
        },
        _ => {},
    }
}

} // verus!
