//! What is read of a project, and what keeps a foreign or a broken record out.
use vstd::prelude::*;
use vstd::utf8::*;
use crate::anchor::{AnchorView, HostView, MAX_ANCHOR_BYTES, anchor_node, anchoring, resolution};
use crate::checkpoint::{AskedView, asked_of};
use crate::checks::{index_check, reference_check, task_check};
use crate::codec::{json_reading, json_text};
use crate::directory::{
    DirectoryView, EntryView, history_of, index_at, segment_of, task_at, task_reading,
};
use crate::failure::{Failure};
use crate::json::{Node};
use crate::records::{ArchiveView, IdentityView, IndexView, TaskView};
use crate::request::{request_of};
use crate::table::{lemma_put_lookup, lemma_removed_lookup};

verus! {

/// A file is read whole or not at all: as it is, up to the limit; one that is
/// longer is refused; one that is not there, and all of a directory that is not
/// there, gives nothing.
pub proof fn law_files_are_read_whole(d: DirectoryView, name: Seq<char>, limit: int, bytes: Seq<u8>)
    ensures
        d.read(name, limit) == Ok::<_, Failure>(Some(bytes)) ==> bytes.len() <= limit && d.present,
        (d.entry(name) matches Some(EntryView::File { bytes: b, distinct }) && b == bytes) ==> (
        bytes.len() <= limit ==> d.read(name, limit) == Ok::<_, Failure>(Some(bytes))) && (
        bytes.len() > limit ==> (d.read(name, limit) matches Err(f) && f.code@
            == "capacity_exceeded"@ && !f.state_changed)),
        (d.entry(name) matches Some(EntryView::Refused { open, inspect })) ==> d.read(name, limit)
            is Err,
        !d.present ==> d.read(name, limit) == Ok::<_, Failure>(None::<Seq<u8>>),
{
}

/// What was written is there, and every other name stands for what it did; what
/// was removed is gone.
pub proof fn law_directory_keeps_the_rest(
    d: DirectoryView,
    name: Seq<char>,
    bytes: Seq<u8>,
    other: Seq<char>,
)
    requires
        d.present,
    ensures
        d.with_file(name, bytes).entry(name) == Some(EntryView::File { bytes, distinct: true }),
        other != name ==> d.with_file(name, bytes).entry(other) == d.entry(other),
        d.without(name).entry(name) is None,
        other != name ==> d.without(name).entry(other) == d.entry(other),
{
    lemma_put_lookup(d.files, name, EntryView::File { bytes, distinct: true }, name);
    lemma_put_lookup(d.files, name, EntryView::File { bytes, distinct: true }, other);
    lemma_removed_lookup(d.files, name, name);
    lemma_removed_lookup(d.files, name, other);
}

/// A record of another tool and a record of another directory are refused under
/// names of their own, and nothing is changed.
pub proof fn law_foreign_records_are_refused(
    v: IndexView,
    t: TaskView,
    identity: IdentityView,
    policy: Seq<Seq<char>>,
)
    ensures
        v.managed_by != "webcodex"@ ==> (index_check(v, identity) matches Err(f) && f.code@
            == "non_managed_file"@ && !f.state_changed),
        v.format == "webcodex.handoff.index.v1"@ && v.managed_by == "webcodex"@ && (v.version == 1
            || v.version == 2) && v.project_identity != identity ==> (index_check(v, identity)
            matches Err(f) && f.code@ == "project_identity_mismatch"@ && !f.state_changed),
        t.managed_by != "webcodex"@ ==> (task_check(t, identity, policy) matches Err(f) && f.code@
            == "non_managed_file"@ && !f.state_changed),
        t.project_identity != identity ==> task_check(t, identity, policy) is Err,
{
}

/// A broken index, a missing task file and a broken one are refused; they never
/// pass for a project without handoffs.
pub proof fn law_broken_records_are_refused(
    d: DirectoryView,
    identity: IdentityView,
    id: Seq<char>,
    policy: Seq<Seq<char>>,
    b: Seq<u8>,
)
    ensures
        d.read("index.json"@, 65536) == Ok::<_, Failure>(Some(b)) && (json_reading(b) is None
            || !d.distinct("index.json"@)) ==> (index_at(d, identity) matches Err(f) && f.code@
            == "malformed_index"@),
        d.read("index.json"@, 65536) == Ok::<_, Failure>(None::<Seq<u8>>) ==> index_at(
            d,
            identity,
        ) == Ok::<_, Failure>(None::<IndexView>),
        d.read(id + ".json"@, 262144) == Ok::<_, Failure>(None::<Seq<u8>>) ==> (task_at(
            d,
            identity,
            id,
            policy,
        ) matches Err(f) && f.code@ == "task_missing"@),
        d.read(id + ".json"@, 262144) == Ok::<_, Failure>(Some(b)) && (json_reading(b) is None
            || !d.distinct(id + ".json"@)) ==> (task_at(d, identity, id, policy) matches Err(f)
            && f.code@ == "malformed_task"@),
{
}

/// A task is read with its whole history: what its archives hold, in their
/// order, and then what its own file holds.
pub proof fn law_task_is_read_whole(
    d: DirectoryView,
    identity: IdentityView,
    id: Seq<char>,
    policy: Seq<Seq<char>>,
)
    requires
        task_at(d, identity, id, policy) is Ok,
    ensures
        ({
            let t = task_at(d, identity, id, policy)->Ok_0;
            &&& t.task_id == id
            &&& t.project_identity == identity
            &&& history_of(d, t.archives, id, t.archives.len()) matches Ok(history) && (d.read(
                id + ".json"@,
                262144,
            ) matches Ok(Some(b)) && (task_reading(b, d.distinct(id + ".json"@)) matches Some(own)
                && t.events == history + own.events && t.archives == own.archives && t.revision
                == own.revision && t.status == own.status && t.unknown_count == own.unknown_count
                && t.event_aliases == own.event_aliases && t.title == own.title))
        }),
{
}

/// The history goes on with each archive: its events follow those of the
/// archives before it.
pub proof fn law_history_goes_on(
    d: DirectoryView,
    archives: Seq<ArchiveView>,
    id: Seq<char>,
    k: nat,
)
    requires
        k < archives.len(),
        history_of(d, archives, id, k + 1) is Ok,
    ensures
        history_of(d, archives, id, 0) == Ok::<_, Failure>(Seq::<Node>::empty()),
        history_of(d, archives, id, k) is Ok,
        segment_of(d, archives[k as int]) is Ok,
        history_of(d, archives, id, k + 1)->Ok_0 == history_of(d, archives, id, k)->Ok_0
            + segment_of(d, archives[k as int])->Ok_0,
        reference_check(archives[k as int], id) is Ok,
{
}

/// A new anchor keeps the identity that the directory has, for the volume that
/// it is on; where the host does not anchor, none is written.
pub proof fn law_anchor_keeps_the_identity(d: DirectoryView, identity: IdentityView, host: HostView)
    ensures
        !host.anchors ==> anchoring(d, identity, host) == Ok::<_, Failure>(None::<Seq<u8>>),
        anchoring(d, identity, host) matches Ok(Some(b)) ==> host.anchors && (host.volume
            matches Ok(uuid) && (json_text(
            anchor_node(AnchorView { version: 1, volume_uuid: uuid, identity }),
        ) matches Some(text) && b == encode_utf8(text))) && d.read(
            ".volume-anchor.json"@,
            MAX_ANCHOR_BYTES as int,
        ) == Ok::<_, Failure>(None::<Seq<u8>>),
        host.anchors && host.volume is Err ==> anchoring(d, identity, host) is Err,
{
}

/// A directory without an anchor is known under what it is now.
pub proof fn law_unanchored_directory_is_itself(
    d: DirectoryView,
    current: IdentityView,
    host: HostView,
)
    requires
        d.read(".volume-anchor.json"@, MAX_ANCHOR_BYTES as int) == Ok::<_, Failure>(
            None::<Seq<u8>>,
        ),
    ensures
        resolution(d, current, host) == Ok::<_, Failure>(current),
{
}

/// A request is asked of the project only once it is well-formed; what asks for
/// the repair of the identity is for the local operator alone.
pub proof fn law_who_may_ask(n: Node, policy: Seq<Seq<char>>, coordinated: bool)
    ensures
        n.at("action"@) == Node::Text("anchor_identity"@) && coordinated ==> (asked_of(
            n,
            policy,
            coordinated,
        ) matches Err(f) && f.code@ == "invalid_action"@),
        n.at("action"@) == Node::Text("anchor_identity"@) && !coordinated ==> (asked_of(
            n,
            policy,
            coordinated,
        ) matches Ok(a) ==> a is Repair),
        n.at("action"@) != Node::Text("anchor_identity"@) ==> (match request_of(n, policy) {
            Ok(r) => asked_of(n, policy, coordinated) == Ok::<_, Failure>(AskedView::Checked(r)),
            Err(f) => asked_of(n, policy, coordinated) == Err::<AskedView, _>(f),
        }),
{
}

} // verus!
