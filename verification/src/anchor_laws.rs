//! What an anchor and its repair promise.
use vstd::prelude::*;
use crate::anchor::{
    ANCHOR_FILE_NAME, HostView, MAX_ANCHOR_BYTES, anchor_back, anchoring, repair_plan,
    repair_request, resolution,
};
use crate::appending::{enabled_index};
use crate::checks::{INDEX_FILE_NAME, MAX_INDEX_BYTES, has_task};
use crate::commit::{committed, write_check};
use crate::commit_laws::{lemma_entry_written, lemma_written_one};
use crate::digest::{digest_of, root_bytes};
use crate::directory::{DirectoryView, index_reading};
use crate::failure::{Failure};
use crate::json::{Node};
use crate::lifecycle::{archive_request_of, server_bound};
use crate::records::{IdentityView, IndexView};
use crate::request::{RequestView};

verus! {

/// An anchor is honoured only for the directory and the volume that it names:
/// a copy elsewhere, another directory at the path, or another volume is
/// refused.
pub proof fn law_anchor_is_for_its_directory(
    d: DirectoryView,
    current: IdentityView,
    host: HostView,
)
    requires
        d.read(ANCHOR_FILE_NAME@, MAX_ANCHOR_BYTES as int) matches Ok(Some(_)),
        resolution(d, current, host) is Ok,
    ensures
        ({
            let found = resolution(d, current, host)->Ok_0;
            &&& found.canonical_root == current.canonical_root
            &&& found.inode == current.inode
            &&& found.root_fingerprint == digest_of(
                root_bytes(found.canonical_root, found.device, found.inode),
            )
        }),
{
}

/// A volume that was mounted again under another device leaves an anchored
/// project what it was.
pub proof fn law_remounted_project_is_found(
    d: DirectoryView,
    identity: IdentityView,
    current: IdentityView,
    host: HostView,
    bytes: Seq<u8>,
)
    requires
        anchoring(d, identity, host) == Ok::<_, Failure>(Some(bytes)),
        anchor_back(d, identity, host),
        d.present,
        bytes.len() <= MAX_ANCHOR_BYTES,
        identity.root_fingerprint == digest_of(
            root_bytes(identity.canonical_root, identity.device, identity.inode),
        ),
        current.canonical_root == identity.canonical_root,
        current.inode == identity.inode,
    ensures
        resolution(d.with_file(ANCHOR_FILE_NAME@, bytes), current, host) == Ok::<_, Failure>(
            identity,
        ),
{
    lemma_entry_written(d, ANCHOR_FILE_NAME@, bytes, ANCHOR_FILE_NAME@);
}

/// A repair rewrites nothing: no file but the anchor changes, and nothing at
/// all without the operator's confirmation.
pub proof fn law_repair_keeps_every_record(
    d: DirectoryView,
    n: Node,
    current: IdentityView,
    host: HostView,
    policy: Seq<Seq<char>>,
)
    ensures
        ({
            let after = committed(d, repair_plan(d, n, current, host, policy)).0;
            &&& forall|q: Seq<char>|
                q != ANCHOR_FILE_NAME@ ==> #[trigger] after.entry(q) == d.entry(q)
            &&& repair_request(n) matches Some((_, confirm)) ==> !confirm ==> after == d
        }),
{
    let p = repair_plan(d, n, current, host, policy);
    let after = committed(d, p).0;
    if p.writes.len() > 0 {
        let w = p.writes[0];
        assert(p.writes =~= seq![w]);
        lemma_written_one(d, w);
        if write_check(d, w) is Ok {
            assert forall|q: Seq<char>| q != ANCHOR_FILE_NAME@ implies #[trigger] after.entry(q)
                == d.entry(q) by {
                lemma_entry_written(d, ANCHOR_FILE_NAME@, w.bytes, q);
            }
        }
    }
}

/// A repair is accepted only for the very index that the operator reviewed, in
/// the directory that its records name by path and inode.
pub proof fn law_repair_needs_the_reviewed_index(
    d: DirectoryView,
    n: Node,
    current: IdentityView,
    host: HostView,
    policy: Seq<Seq<char>>,
)
    requires
        repair_plan(d, n, current, host, policy).reply is Ok,
    ensures
        ({
            let read = d.read(INDEX_FILE_NAME@, MAX_INDEX_BYTES as int);
            let index = index_reading(read->Ok_0->0, d.distinct(INDEX_FILE_NAME@));
            &&& repair_request(n) matches Some((digest, _)) && digest_of(read->Ok_0->0) == digest
            &&& read is Ok && read->Ok_0 is Some
            &&& index matches Some(v) && v.project_identity.canonical_root
                == current.canonical_root && v.project_identity.inode == current.inode
        }),
{
}

/// A local request does not archive a task that a server session is bound to,
/// whatever it claims.
pub proof fn law_local_request_does_not_archive_for_the_server(
    d: DirectoryView,
    identity: IdentityView,
    r: RequestView,
    policy: Seq<Seq<char>>,
    now: i64,
    v: IndexView,
)
    requires
        enabled_index(d, identity) == Ok::<_, Failure>(v),
        !has_task(v.retired_tasks, r.task_id->0),
        server_bound(v, r.task_id->0),
    ensures
        archive_request_of(d, identity, r, policy, now, false).writes.len() == 0,
        archive_request_of(d, identity, r, policy, now, false).reply is Err,
{
}

} // verus!
