//! A stable volume identity that keeps the fingerprints of older records valid.
//! It says where a directory comes from, never what may be done in it.
use vstd::prelude::*;
use vstd::utf8::*;
use crate::checks::{INDEX_FILE_NAME, MAX_INDEX_BYTES, all_summaries, index_check, validate_index};
use crate::codec::{arranged, from_bytes, json_reading, json_text, readable, to_text};
use crate::commit::{Plan, PlannedView, Write, WriteView, answer, plain_write, refusal};
use crate::decode::{
    check_shape, shaped, slot_bool, slot_identity, slot_text, slot_version, take_bool,
    take_identity, take_text, take_version,
};
use crate::digest::{digest_of, fingerprint, root_bytes, root_fingerprint};
use crate::directory::{Directory, DirectoryView, index_reading, load_task, parse_index, task_at};
use crate::failure::{
    Failure, changed, content, mark_state_changed, outcome, outcome_option, refuse, refused,
    views,
};
use crate::json::{Json, Node, entries, text_json};
use crate::markdown::{bytes_of};
use crate::path::{PathPolicy};
use crate::records::{
    IdentityView, IndexFile, IndexView, ProjectIdentity, SummaryView, TaskSummary, identity_node,
    in_order,
};
use crate::reply::{Reply, ReplyView};
use crate::round_trip::{lemma_identity_round, lemma_readable_more, lemma_record};
use crate::table::{lookup};
use crate::text::{hex, names, owned, same, to_hex};

verus! {

pub const ANCHOR_FILE_NAME: &'static str = ".volume-anchor.json";

pub const MAX_ANCHOR_BYTES: usize = 4096;

/// The volume that a project identity was recorded on.
#[derive(Debug)]
pub struct Anchor {
    pub version: u32,
    pub volume_uuid: String,
    pub identity: ProjectIdentity,
}

pub struct AnchorView {
    pub version: u32,
    pub volume_uuid: Seq<char>,
    pub identity: IdentityView,
}

impl View for Anchor {
    type V = AnchorView;

    open spec fn view(&self) -> AnchorView {
        AnchorView {
            version: self.version,
            volume_uuid: self.volume_uuid@,
            identity: self.identity@,
        }
    }
}

/// What the host can say of the volume, and whether it anchors checkpoints.
#[derive(Debug)]
pub struct Host {
    pub volume: Result<String, Failure>,
    pub anchors: bool,
}

pub struct HostView {
    pub volume: Result<Seq<char>, Failure>,
    pub anchors: bool,
}

impl View for Host {
    type V = HostView;

    open spec fn view(&self) -> HostView {
        HostView { volume: outcome(self.volume), anchors: self.anchors }
    }
}

/// The volume id that the host answered: sixteen bytes that are not all zero,
/// with the length of the whole answer before them.
pub open spec fn volume_of(length: u32, uuid: Seq<u8>) -> Result<Seq<char>, Failure> {
    if length != 20 || forall|i: int| 0 <= i < uuid.len() ==> #[trigger] uuid[i] == 0 {
        Err(refused("volume_identity_unavailable", "stable volume identity is unavailable"))
    } else {
        Ok(hex(uuid))
    }
}

pub fn volume(length: u32, uuid: &Vec<u8>) -> (r: Result<String, Failure>)
    ensures
        outcome(r) == volume_of(length, uuid@),
{
    let mut blank = true;
    let mut i: usize = 0;
    while i < uuid.len()
        invariant
            i <= uuid@.len(),
            blank == forall|j: int| 0 <= j < i ==> #[trigger] uuid@[j] == 0,
        decreases uuid@.len() - i,
    {
        if uuid[i] != 0 {
            blank = false;
        }
        i += 1;
    }
    if length != 20 || blank {
        return Err(
            refuse("volume_identity_unavailable", "stable volume identity is unavailable"),
        );
    }
    Ok(to_hex(uuid))
}

/// Whether an anchor speaks of the current directory and volume.
pub open spec fn anchor_check(a: AnchorView, current: IdentityView, uuid: Seq<char>) -> Result<
    (),
    Failure,
> {
    let saved = a.identity;
    if a.version != 1 || a.volume_uuid != uuid || saved.canonical_root != current.canonical_root
        || saved.inode != current.inode || saved.root_fingerprint != digest_of(
        root_bytes(saved.canonical_root, saved.device, saved.inode),
    ) {
        Err(refused("project_identity_mismatch", "volume anchor belongs to another directory"))
    } else {
        Ok(())
    }
}

/// Whether an anchor speaks of the current directory and volume.
pub fn validate(anchor: &Anchor, current: &ProjectIdentity, uuid: &str) -> (r: Result<(), Failure>)
    ensures
        r == anchor_check(anchor@, current@, uuid@),
{
    let saved = &anchor.identity;
    if anchor.version != 1 || !same(anchor.volume_uuid.as_str(), uuid) || !same(
        saved.canonical_root.as_str(),
        current.canonical_root.as_str(),
    ) || saved.inode != current.inode || !same(
        saved.root_fingerprint.as_str(),
        root_fingerprint(saved.canonical_root.as_str(), saved.device, saved.inode).as_str(),
    ) {
        return Err(
            refuse("project_identity_mismatch", "volume anchor belongs to another directory"),
        );
    }
    Ok(())
}

pub open spec fn anchor_keys() -> Seq<Seq<char>> {
    seq!["version"@, "volume_uuid"@, "identity"@]
}

pub open spec fn anchor_of(n: Node) -> Option<AnchorView> {
    let keys = anchor_keys();
    match (slot_version(n, keys, 0), slot_text(n, keys, 1), slot_identity(n, keys, 2)) {
        (Some(version), Some(volume_uuid), Some(identity)) => if shaped(n, keys) {
            Some(AnchorView { version, volume_uuid, identity })
        } else {
            None
        },
        _ => None,
    }
}

/// The anchor that the bytes of a file give.
pub open spec fn anchor_reading(bytes: Seq<u8>, distinct: bool) -> Option<AnchorView> {
    if !distinct {
        None
    } else {
        match json_reading(bytes) {
            Some(n) => anchor_of(n),
            None => None,
        }
    }
}

fn parse_anchor(bytes: &Vec<u8>, distinct: bool) -> (r: Option<Anchor>)
    ensures
        content(r) == anchor_reading(bytes@, distinct),
{
    if !distinct {
        return None;
    }
    let j = match from_bytes(bytes.as_slice()) {
        None => {
            return None;
        },
        Some(j) => j,
    };
    let keys = vec!["version", "volume_uuid", "identity"];
    proof {
        assert(names(keys@) =~= anchor_keys());
    }
    match (take_version(&j, &keys, 0), take_text(&j, &keys, 1), take_identity(&j, &keys, 2)) {
        (Some(version), Some(volume_uuid), Some(identity)) => if check_shape(&j, &keys) {
            Some(Anchor { version, volume_uuid, identity })
        } else {
            None
        },
        _ => None,
    }
}

pub open spec fn anchor_node(a: AnchorView) -> Node {
    Node::Record(
        seq![
            ("version"@, Node::Unsigned(a.version as u64)),
            ("volume_uuid"@, Node::Text(a.volume_uuid)),
            ("identity"@, identity_node(a.identity)),
        ],
    )
}

impl Anchor {
    pub fn to_json(&self) -> (r: Json)
        ensures
            r@ == anchor_node(self@),
    {
        let members = vec![
            ("version", Json::Unsigned(self.version as u64)),
            ("volume_uuid", text_json(self.volume_uuid.as_str())),
            ("identity", self.identity.to_json()),
        ];
        proof {
            assert(entries(members@) =~= anchor_node(self@)->Record_0);
        }
        in_order(members)
    }
}

/// The identity that the directory is known under: the anchored one where
/// there is an anchor.
pub open spec fn resolution(d: DirectoryView, current: IdentityView, host: HostView) -> Result<
    IdentityView,
    Failure,
> {
    match d.read(ANCHOR_FILE_NAME@, MAX_ANCHOR_BYTES as int) {
        Err(e) => Err(e),
        Ok(None) => Ok(current),
        Ok(Some(b)) => match anchor_reading(b, d.distinct(ANCHOR_FILE_NAME@)) {
            None => Err(refused("invalid_volume_anchor", "volume anchor is malformed")),
            Some(a) => match host.volume {
                Err(e) => Err(e),
                Ok(uuid) => match anchor_check(a, current, uuid) {
                    Err(e) => Err(e),
                    Ok(_) => Ok(a.identity),
                },
            },
        },
    }
}

pub fn resolve(handoff: &Directory, current: &ProjectIdentity, host: &Host) -> (r: Result<
    ProjectIdentity,
    Failure,
>)
    ensures
        outcome(r) == resolution(handoff@, current@, host@),
{
    let bytes = match handoff.read_file_bounded(ANCHOR_FILE_NAME, MAX_ANCHOR_BYTES) {
        Err(e) => {
            return Err(e);
        },
        Ok(None) => {
            return Ok(current.copy());
        },
        Ok(Some(b)) => b,
    };
    let anchor = match parse_anchor(&bytes, handoff.distinct(ANCHOR_FILE_NAME)) {
        None => {
            return Err(refuse("invalid_volume_anchor", "volume anchor is malformed"));
        },
        Some(anchor) => anchor,
    };
    match &host.volume {
        Err(e) => Err(*e),
        Ok(uuid) => match validate(&anchor, current, uuid.as_str()) {
            Err(e) => Err(e),
            Ok(_) => Ok(anchor.identity),
        },
    }
}

/// The anchor that has to be written: none where the host does not anchor, or
/// where a valid one is there.
pub open spec fn anchoring(d: DirectoryView, identity: IdentityView, host: HostView) -> Result<
    Option<Seq<u8>>,
    Failure,
> {
    if !host.anchors {
        Ok(None)
    } else {
        match host.volume {
            Err(e) => Err(e),
            Ok(uuid) => match d.read(ANCHOR_FILE_NAME@, MAX_ANCHOR_BYTES as int) {
                Err(e) => Err(e),
                Ok(Some(b)) => match anchor_reading(b, d.distinct(ANCHOR_FILE_NAME@)) {
                    None => Err(refused("invalid_volume_anchor", "volume anchor is malformed")),
                    Some(a) => match anchor_check(a, identity, uuid) {
                        Err(e) => Err(e),
                        Ok(_) => Ok(None),
                    },
                },
                Ok(None) => match json_text(
                    anchor_node(AnchorView { version: 1, volume_uuid: uuid, identity }),
                ) {
                    None => Err(
                        refused("invalid_volume_anchor", "volume anchor cannot be serialized"),
                    ),
                    Some(t) => Ok(Some(encode_utf8(t))),
                },
            },
        }
    }
}

/// What is printed of a new anchor is read back.
pub open spec fn anchor_back(d: DirectoryView, identity: IdentityView, host: HostView) -> bool {
    anchoring(d, identity, host) matches Ok(Some(b)) ==> anchor_reading(b, true) == Some(
        AnchorView { version: 1, volume_uuid: host.volume->Ok_0, identity },
    )
}

/// An anchor is read back from what is printed of it.
proof fn lemma_anchor_round(a: AnchorView)
    ensures
        anchor_of(arranged(anchor_node(a))) == Some(a),
        readable(anchor_node(a), 100),
{
    let f = anchor_node(a)->Record_0;
    let keys = anchor_keys();
    reveal_strlit("version");
    reveal_strlit("volume_uuid");
    reveal_strlit("identity");
    assert("version"@.len() == 7 && "volume_uuid"@.len() == 11 && "identity"@.len() == 8);
    assert forall|i: int| 0 <= i < f.len() implies keys.contains(#[trigger] f[i].0) by {
        assert(f[i].0 == keys[i]);
    }
    lemma_record(f, keys);
    lemma_identity_round(a.identity);
    lemma_readable_more(identity_node(a.identity), 1, 99);
    reveal_with_fuel(readable, 2);
    assert forall|i: int| 0 <= i < f.len() implies readable((#[trigger] f[i]).1, 99) by {
        assert(f[2].1 == identity_node(a.identity));
    }
    let n = arranged(Node::Record(f));
    assert(f[0].0 == keys[0] && f[1].0 == keys[1] && f[2].0 == keys[2]);
    assert(lookup(n->Record_0, keys[0]) == Some(Node::Unsigned(a.version as u64)));
    assert(lookup(n->Record_0, keys[1]) == Some(Node::Text(a.volume_uuid)));
    assert(lookup(n->Record_0, keys[2]) == Some(arranged(identity_node(a.identity))));
}

/// The write of an anchor where none was.
pub open spec fn anchor_write(bytes: Seq<u8>, blame: bool) -> WriteView {
    WriteView {
        expected: Some(None),
        ..plain_write(ANCHOR_FILE_NAME@, bytes, false, blame)
    }
}

pub fn plan_anchor(handoff: &Directory, identity: &ProjectIdentity, host: &Host) -> (r: Result<
    Option<Vec<u8>>,
    Failure,
>)
    ensures
        outcome_option(r) == anchoring(handoff@, identity@, host@),
        anchor_back(handoff@, identity@, host@),
{
    if !host.anchors {
        return Ok(None);
    }
    let uuid = match &host.volume {
        Err(e) => {
            return Err(*e);
        },
        Ok(uuid) => uuid.as_str(),
    };
    match handoff.read_file_bounded(ANCHOR_FILE_NAME, MAX_ANCHOR_BYTES) {
        Err(e) => Err(e),
        Ok(Some(b)) => match parse_anchor(&b, handoff.distinct(ANCHOR_FILE_NAME)) {
            None => Err(refuse("invalid_volume_anchor", "volume anchor is malformed")),
            Some(anchor) => match validate(&anchor, identity, uuid) {
                Err(e) => Err(e),
                Ok(_) => Ok(None),
            },
        },
        Ok(None) => {
            let anchor = Anchor {
                version: 1,
                volume_uuid: owned(uuid),
                identity: identity.copy(),
            };
            proof {
                lemma_anchor_round(anchor@);
            }
            match to_text(&anchor.to_json()) {
                None => Err(refuse("invalid_volume_anchor", "volume anchor cannot be serialized")),
                Some(t) => Ok(Some(bytes_of(t.as_str()))),
            }
        },
    }
}

pub fn write_anchor(bytes: Vec<u8>, blame: bool) -> (r: Write)
    ensures
        r@ == anchor_write(bytes@, blame),
{
    let mut w = Write::plain(owned(ANCHOR_FILE_NAME), bytes, false, blame);
    w.expected = Some(None);
    w
}

/// A plan followed by the anchoring of the directory. Its failure comes after
/// writes that are durable.
pub open spec fn then_anchored(p: PlannedView, anchor: Result<Option<Seq<u8>>, Failure>) -> PlannedView {
    match p.reply {
        Err(_) => p,
        Ok(_) => match anchor {
            Ok(None) => p,
            Ok(Some(b)) => PlannedView { writes: p.writes.push(anchor_write(b, true)), ..p },
            Err(f) => PlannedView { reply: Err(changed(f)), ..p },
        },
    }
}

pub fn anchor_after(plan: Plan, anchor: Result<Option<Vec<u8>>, Failure>) -> (r: Plan)
    ensures
        r@ == then_anchored(plan@, outcome_option(anchor)),
{
    if plan.reply.is_err() {
        return plan;
    }
    let ghost before = views(plan.writes@);
    let mut plan = plan;
    match anchor {
        Ok(None) => plan,
        Ok(Some(b)) => {
            plan.writes.push(write_anchor(b, true));
            proof {
                assert(views(plan.writes@) =~= before.push(anchor_write(b@, true)));
            }
            plan
        },
        Err(f) => Plan { writes: plan.writes, reply: Err(mark_state_changed(f)) },
    }
}

// ---------------------------------------------------------------------------
// The explicit repair by a local operator.
// ---------------------------------------------------------------------------

pub open spec fn repair_keys() -> Seq<Seq<char>> {
    seq!["action"@, "expected_index_sha256"@, "confirm"@]
}

/// The digest that the operator reviewed, and whether it is confirmed.
pub open spec fn repair_request(n: Node) -> Option<(Seq<char>, bool)> {
    let keys = repair_keys();
    match (slot_text(n, keys, 0), slot_text(n, keys, 1), slot_bool(n, keys, 2)) {
        (Some(_), Some(digest), Some(confirm)) => if shaped(n, keys) {
            Some((digest, confirm))
        } else {
            None
        },
        _ => None,
    }
}

/// The refusal of a repair that was not asked for properly.
pub open spec fn malformed_repair() -> Failure {
    refused("invalid_request", "exact index digest and explicit confirmation are required")
}

/// The first `k` tasks can be loaded under the identity.
pub open spec fn all_loadable(
    d: DirectoryView,
    identity: IdentityView,
    tasks: Seq<SummaryView>,
    k: nat,
    policy: Seq<Seq<char>>,
) -> Result<(), Failure>
    decreases k,
{
    if k == 0 || k > tasks.len() {
        Ok(())
    } else {
        match all_loadable(d, identity, tasks, (k - 1) as nat, policy) {
            Err(e) => Err(e),
            Ok(_) => match task_at(d, identity, tasks[k - 1].task_id, policy) {
                Err(e) => Err(e),
                Ok(_) => Ok(()),
            },
        }
    }
}

/// The index whose records the anchor would keep valid.
pub open spec fn reviewed_index(
    d: DirectoryView,
    current: IdentityView,
    digest: Seq<char>,
    uuid: Seq<char>,
    policy: Seq<Seq<char>>,
) -> Result<IndexView, Failure> {
    match d.read(INDEX_FILE_NAME@, MAX_INDEX_BYTES as int) {
        Err(e) => Err(e),
        Ok(None) => Err(refused("missing_index", "existing managed index is required")),
        Ok(Some(b)) => if digest_of(b) != digest {
            Err(refused("revision_conflict", "index changed since operator review"))
        } else {
            match index_reading(b, d.distinct(INDEX_FILE_NAME@)) {
                None => Err(refused("malformed_index", "managed index is invalid")),
                Some(v) => match anchor_check(
                    AnchorView { version: 1, volume_uuid: uuid, identity: v.project_identity },
                    current,
                    uuid,
                ) {
                    Err(e) => Err(e),
                    Ok(_) => match index_check(v, v.project_identity) {
                        Err(e) => Err(e),
                        Ok(_) => {
                            let all = v.tasks + v.retired_tasks;
                            match all_loadable(d, v.project_identity, all, all.len(), policy) {
                                Err(e) => Err(e),
                                Ok(_) => Ok(v),
                            }
                        },
                    },
                },
            }
        },
    }
}

/// What a repair writes and how it is answered. Existing records are never
/// rewritten.
pub open spec fn repair_plan(
    d: DirectoryView,
    n: Node,
    current: IdentityView,
    host: HostView,
    policy: Seq<Seq<char>>,
) -> PlannedView {
    match repair_request(n) {
        None => refusal(malformed_repair()),
        Some((digest, confirm)) => match host.volume {
            Err(e) => refusal(e),
            Ok(uuid) => match reviewed_index(d, current, digest, uuid, policy) {
                Err(e) => refusal(e),
                Ok(v) => if !confirm {
                    answer(ReplyView::Reviewed { volume: uuid, identity: v.project_identity })
                } else {
                    match anchoring(d, v.project_identity, host) {
                        Err(e) => refusal(e),
                        Ok(None) => answer(ReplyView::Anchored),
                        Ok(Some(b)) => PlannedView {
                            writes: seq![anchor_write(b, false)],
                            reply: Ok(ReplyView::Anchored),
                        },
                    }
                },
            },
        },
    }
}

proof fn lemma_loadable_fail(
    d: DirectoryView,
    identity: IdentityView,
    tasks: Seq<SummaryView>,
    k: nat,
    policy: Seq<Seq<char>>,
)
    requires
        k <= tasks.len(),
        all_loadable(d, identity, tasks, k, policy) is Err,
    ensures
        all_loadable(d, identity, tasks, tasks.len(), policy) == all_loadable(
            d,
            identity,
            tasks,
            k,
            policy,
        ),
    decreases tasks.len() - k,
{
    if k < tasks.len() {
        lemma_loadable_fail(d, identity, tasks, k + 1, policy);
    }
}

fn load_all(
    handoff: &Directory,
    identity: &ProjectIdentity,
    tasks: &Vec<TaskSummary>,
    policy: &PathPolicy,
) -> (r: Result<(), Failure>)
    ensures
        r == all_loadable(handoff@, identity@, views(tasks@), views(tasks@).len(), policy@),
{
    let mut i: usize = 0;
    while i < tasks.len()
        invariant
            i <= tasks@.len(),
            all_loadable(handoff@, identity@, views(tasks@), i as nat, policy@) is Ok,
        decreases tasks@.len() - i,
    {
        proof {
            assert(views(tasks@)[i as int] == tasks@[i as int]@);
        }
        match load_task(handoff, identity, tasks[i].task_id.as_str(), policy) {
            Err(e) => {
                proof {
                    lemma_loadable_fail(
                        handoff@,
                        identity@,
                        views(tasks@),
                        (i + 1) as nat,
                        policy@,
                    );
                }
                return Err(e);
            },
            Ok(_) => {},
        }
        i += 1;
    }
    Ok(())
}

fn parse_repair(request: &Json) -> (r: Option<(String, bool)>)
    ensures
        match r {
            Some((digest, confirm)) => repair_request(request@) == Some((digest@, confirm)),
            None => repair_request(request@) is None,
        },
{
    let keys = vec!["action", "expected_index_sha256", "confirm"];
    proof {
        assert(names(keys@) =~= repair_keys());
    }
    match (take_text(request, &keys, 0), take_text(request, &keys, 1), take_bool(request, &keys, 2)) {
        (Some(_), Some(digest), Some(confirm)) => if check_shape(request, &keys) {
            Some((digest, confirm))
        } else {
            None
        },
        _ => None,
    }
}

/// Whether a repair gives a digest and says whether it is confirmed.
pub fn asks_properly(request: &Json) -> (r: bool)
    ensures
        r == repair_request(request@) is Some,
{
    parse_repair(request).is_some()
}

fn review_index(
    handoff: &Directory,
    current: &ProjectIdentity,
    digest: &str,
    uuid: &str,
    policy: &PathPolicy,
) -> (r: Result<IndexFile, Failure>)
    ensures
        outcome(r) == reviewed_index(handoff@, current@, digest@, uuid@, policy@),
{
    let bytes = match handoff.read_file_bounded(INDEX_FILE_NAME, MAX_INDEX_BYTES) {
        Err(e) => {
            return Err(e);
        },
        Ok(None) => {
            return Err(refuse("missing_index", "existing managed index is required"));
        },
        Ok(Some(b)) => b,
    };
    if !same(fingerprint(bytes.as_slice()).as_str(), digest) {
        return Err(refuse("revision_conflict", "index changed since operator review"));
    }
    let index = match parse_index(&bytes, handoff.distinct(INDEX_FILE_NAME)) {
        None => {
            return Err(refuse("malformed_index", "managed index is invalid"));
        },
        Some(index) => index,
    };
    let anchor = Anchor {
        version: 1,
        volume_uuid: owned(uuid),
        identity: index.project_identity.copy(),
    };
    match validate(&anchor, current, uuid) {
        Err(e) => {
            return Err(e);
        },
        Ok(_) => {},
    }
    match validate_index(&index, &index.project_identity) {
        Err(e) => {
            return Err(e);
        },
        Ok(_) => {},
    }
    match load_all(handoff, &index.project_identity, &all_summaries(&index), policy) {
        Err(e) => Err(e),
        Ok(_) => Ok(index),
    }
}

/// What a repair writes and how it is answered.
pub fn repair(
    handoff: &Directory,
    request: &Json,
    current: &ProjectIdentity,
    host: &Host,
    policy: &PathPolicy,
) -> (r: Plan)
    ensures
        r@ == repair_plan(handoff@, request@, current@, host@, policy@),
{
    let (digest, confirm) = match parse_repair(request) {
        None => {
            return Plan::refusal(
                refuse(
                    "invalid_request",
                    "exact index digest and explicit confirmation are required",
                ),
            );
        },
        Some(parsed) => parsed,
    };
    let uuid = match &host.volume {
        Err(e) => {
            return Plan::refusal(*e);
        },
        Ok(uuid) => uuid.as_str(),
    };
    let index = match review_index(handoff, current, digest.as_str(), uuid, policy) {
        Err(e) => {
            return Plan::refusal(e);
        },
        Ok(index) => index,
    };
    if !confirm {
        return Plan::answer(
            Ok(Reply::Reviewed { volume: owned(uuid), identity: index.project_identity }),
        );
    }
    match plan_anchor(handoff, &index.project_identity, host) {
        Err(e) => Plan::refusal(e),
        Ok(None) => Plan::answer(Ok(Reply::Anchored)),
        Ok(Some(b)) => {
            let writes = vec![write_anchor(b, false)];
            proof {
                assert(views(writes@) =~= seq![anchor_write(b@, false)]);
            }
            Plan { writes, reply: Ok(Reply::Anchored) }
        },
    }
}

} // verus!
