//! Reading the managed records out of JSON values. A record is an object with
//! known members, or an array that gives them by position.
use vstd::prelude::*;
use crate::failure::{content, views};
use crate::json::{Json, Node, copy_all, nodes};
use crate::records::{
    ArchiveView, EventArchive, IdentityView, IndexFile, IndexView, ProjectIdentity, SummaryView,
    TaskFile, TaskSummary, TaskView,
};
use crate::table::{get, lookup, pairs};
use crate::text::{listed, names, owned};

verus! {

/// Whether the value can be a record with the given members.
pub open spec fn shaped(n: Node, keys: Seq<Seq<char>>) -> bool {
    match n {
        Node::Record(fields) => forall|i: int|
            0 <= i < fields.len() ==> keys.contains(#[trigger] fields[i].0),
        Node::List(items) => items.len() <= keys.len(),
        _ => false,
    }
}

/// The member number `i` of a record.
pub open spec fn slot(n: Node, keys: Seq<Seq<char>>, i: int) -> Option<Node> {
    match n {
        Node::Record(fields) => lookup(fields, keys[i]),
        Node::List(items) => if i < items.len() {
            Some(items[i])
        } else {
            None
        },
        _ => None,
    }
}

pub open spec fn slot_text(n: Node, keys: Seq<Seq<char>>, i: int) -> Option<Seq<char>> {
    match slot(n, keys, i) {
        Some(v) => v.text(),
        None => None,
    }
}

pub open spec fn slot_unsigned(n: Node, keys: Seq<Seq<char>>, i: int) -> Option<u64> {
    match slot(n, keys, i) {
        Some(v) => v.unsigned(),
        None => None,
    }
}

pub open spec fn slot_signed(n: Node, keys: Seq<Seq<char>>, i: int) -> Option<i64> {
    match slot(n, keys, i) {
        Some(v) => v.signed(),
        None => None,
    }
}

/// A member that counts; none means zero.
pub open spec fn slot_count(n: Node, keys: Seq<Seq<char>>, i: int) -> Option<u64> {
    match slot(n, keys, i) {
        Some(v) => v.unsigned(),
        None => Some(0),
    }
}

/// A number that fits in 32 bits.
pub open spec fn slot_version(n: Node, keys: Seq<Seq<char>>, i: int) -> Option<u32> {
    match slot(n, keys, i) {
        Some(Node::Unsigned(v)) => if v <= u32::MAX {
            Some(v as u32)
        } else {
            None
        },
        _ => None,
    }
}

pub open spec fn identity_keys() -> Seq<Seq<char>> {
    seq!["canonical_root"@, "device"@, "inode"@, "root_fingerprint"@]
}

pub open spec fn summary_keys() -> Seq<Seq<char>> {
    seq![
        "task_id"@,
        "title"@,
        "status"@,
        "revision"@,
        "updated_at"@,
        "event_count"@,
        "unknown_count"@,
    ]
}

pub open spec fn archive_keys() -> Seq<Seq<char>> {
    seq!["file"@, "sha256"@, "event_count"@, "bytes"@]
}

pub open spec fn index_keys() -> Seq<Seq<char>> {
    seq![
        "format"@,
        "version"@,
        "managed_by"@,
        "enabled"@,
        "project_identity"@,
        "revision"@,
        "updated_at"@,
        "tasks"@,
        "retired_tasks"@,
        "bindings"@,
    ]
}

pub open spec fn task_keys() -> Seq<Seq<char>> {
    seq![
        "format"@,
        "version"@,
        "managed_by"@,
        "project_identity"@,
        "task_id"@,
        "title"@,
        "status"@,
        "revision"@,
        "created_at"@,
        "updated_at"@,
        "unknown_count"@,
        "events"@,
        "archives"@,
        "event_aliases"@,
    ]
}

pub open spec fn identity_of(n: Node) -> Option<IdentityView> {
    let keys = identity_keys();
    match (
        slot_text(n, keys, 0),
        slot_unsigned(n, keys, 1),
        slot_unsigned(n, keys, 2),
        slot_text(n, keys, 3),
    ) {
        (Some(canonical_root), Some(device), Some(inode), Some(root_fingerprint)) => if shaped(
            n,
            keys,
        ) {
            Some(IdentityView { canonical_root, device, inode, root_fingerprint })
        } else {
            None
        },
        _ => None,
    }
}

pub open spec fn summary_of(n: Node) -> Option<SummaryView> {
    let keys = summary_keys();
    match (
        slot_text(n, keys, 0),
        slot_text(n, keys, 1),
        slot_text(n, keys, 2),
        slot_unsigned(n, keys, 3),
        slot_signed(n, keys, 4),
        slot_unsigned(n, keys, 5),
        slot_unsigned(n, keys, 6),
    ) {
        (
            Some(task_id),
            Some(title),
            Some(status),
            Some(revision),
            Some(updated_at),
            Some(event_count),
            Some(unknown_count),
        ) => if shaped(n, keys) {
            Some(
                SummaryView {
                    task_id,
                    title,
                    status,
                    revision,
                    updated_at,
                    event_count,
                    unknown_count,
                },
            )
        } else {
            None
        },
        _ => None,
    }
}

pub open spec fn archive_of(n: Node) -> Option<ArchiveView> {
    let keys = archive_keys();
    match (
        slot_text(n, keys, 0),
        slot_text(n, keys, 1),
        slot_unsigned(n, keys, 2),
        slot_unsigned(n, keys, 3),
    ) {
        (Some(file), Some(sha256), Some(event_count), Some(bytes)) => if shaped(n, keys) {
            Some(ArchiveView { file, sha256, event_count, bytes })
        } else {
            None
        },
        _ => None,
    }
}

/// The first `k` summaries.
pub open spec fn summaries_of(items: Seq<Node>, k: nat) -> Option<Seq<SummaryView>>
    decreases k,
{
    if k == 0 || k > items.len() {
        Some(Seq::empty())
    } else {
        match (summaries_of(items, (k - 1) as nat), summary_of(items[k - 1])) {
            (Some(s), Some(v)) => Some(s.push(v)),
            _ => None,
        }
    }
}

/// The first `k` archive references.
pub open spec fn archives_of(items: Seq<Node>, k: nat) -> Option<Seq<ArchiveView>>
    decreases k,
{
    if k == 0 || k > items.len() {
        Some(Seq::empty())
    } else {
        match (archives_of(items, (k - 1) as nat), archive_of(items[k - 1])) {
            (Some(s), Some(v)) => Some(s.push(v)),
            _ => None,
        }
    }
}

/// The first `k` pairs of texts.
pub open spec fn texts_of(fields: Seq<(Seq<char>, Node)>, k: nat) -> Option<
    Seq<(Seq<char>, Seq<char>)>,
>
    decreases k,
{
    if k == 0 || k > fields.len() {
        Some(Seq::empty())
    } else {
        match (texts_of(fields, (k - 1) as nat), fields[k - 1].1.text()) {
            (Some(s), Some(v)) => Some(s.push((fields[k - 1].0, v))),
            _ => None,
        }
    }
}

pub open spec fn slot_summaries(n: Node, keys: Seq<Seq<char>>, i: int) -> Option<
    Seq<SummaryView>,
> {
    match slot(n, keys, i) {
        None => Some(Seq::empty()),
        Some(Node::List(items)) => summaries_of(items, items.len()),
        Some(_) => None,
    }
}

pub open spec fn slot_archives(n: Node, keys: Seq<Seq<char>>, i: int) -> Option<Seq<ArchiveView>> {
    match slot(n, keys, i) {
        None => Some(Seq::empty()),
        Some(Node::List(items)) => archives_of(items, items.len()),
        Some(_) => None,
    }
}

pub open spec fn slot_map(n: Node, keys: Seq<Seq<char>>, i: int) -> Option<
    Seq<(Seq<char>, Seq<char>)>,
> {
    match slot(n, keys, i) {
        None => Some(Seq::empty()),
        Some(Node::Record(fields)) => texts_of(fields, fields.len()),
        Some(_) => None,
    }
}

pub open spec fn slot_events(n: Node, keys: Seq<Seq<char>>, i: int) -> Option<Seq<Node>> {
    match slot(n, keys, i) {
        None => Some(Seq::empty()),
        Some(Node::List(items)) => Some(items),
        Some(_) => None,
    }
}

pub open spec fn slot_identity(n: Node, keys: Seq<Seq<char>>, i: int) -> Option<IdentityView> {
    match slot(n, keys, i) {
        None => None,
        Some(v) => identity_of(v),
    }
}

pub open spec fn slot_bool(n: Node, keys: Seq<Seq<char>>, i: int) -> Option<bool> {
    match slot(n, keys, i) {
        None => None,
        Some(v) => v.boolean(),
    }
}

/// The index that a value gives.
pub open spec fn index_of(n: Node) -> Option<IndexView> {
    let keys = index_keys();
    if !shaped(n, keys) {
        None
    } else {
        match (
            slot_text(n, keys, 0),
            slot_version(n, keys, 1),
            slot_text(n, keys, 2),
            slot_bool(n, keys, 3),
            slot_identity(n, keys, 4),
            slot_unsigned(n, keys, 5),
            slot_signed(n, keys, 6),
            slot_summaries(n, keys, 7),
            slot_summaries(n, keys, 8),
            slot_map(n, keys, 9),
        ) {
            (
                Some(format),
                Some(version),
                Some(managed_by),
                Some(enabled),
                Some(project_identity),
                Some(revision),
                Some(updated_at),
                Some(tasks),
                Some(retired_tasks),
                Some(bindings),
            ) => Some(
                IndexView {
                    format,
                    version,
                    managed_by,
                    enabled,
                    project_identity,
                    revision,
                    updated_at,
                    tasks,
                    retired_tasks,
                    bindings,
                },
            ),
            _ => None,
        }
    }
}

/// The task file that a value gives.
pub open spec fn task_of(n: Node) -> Option<TaskView> {
    let keys = task_keys();
    if !shaped(n, keys) {
        None
    } else {
        match (
            (
                slot_text(n, keys, 0),
                slot_version(n, keys, 1),
                slot_text(n, keys, 2),
                slot_identity(n, keys, 3),
                slot_text(n, keys, 4),
                slot_text(n, keys, 5),
                slot_text(n, keys, 6),
            ),
            (
                slot_unsigned(n, keys, 7),
                slot_signed(n, keys, 8),
                slot_signed(n, keys, 9),
                slot_count(n, keys, 10),
                slot_events(n, keys, 11),
                slot_archives(n, keys, 12),
                slot_map(n, keys, 13),
            ),
        ) {
            (
                (
                    Some(format),
                    Some(version),
                    Some(managed_by),
                    Some(project_identity),
                    Some(task_id),
                    Some(title),
                    Some(status),
                ),
                (
                    Some(revision),
                    Some(created_at),
                    Some(updated_at),
                    Some(unknown_count),
                    Some(events),
                    Some(archives),
                    Some(event_aliases),
                ),
            ) => Some(
                TaskView {
                    format,
                    version,
                    managed_by,
                    project_identity,
                    task_id,
                    title,
                    status,
                    revision,
                    created_at,
                    updated_at,
                    unknown_count,
                    events,
                    archives,
                    event_aliases,
                },
            ),
            _ => None,
        }
    }
}

pub fn check_shape(j: &Json, keys: &Vec<&'static str>) -> (r: bool)
    ensures
        r == shaped(j@, names(keys@)),
{
    match j.as_object() {
        Some(fields) => {
            let mut i: usize = 0;
            while i < fields.len()
                invariant
                    i <= fields@.len(),
                    j@ == Node::Record(pairs(fields@)),
                    forall|k: int|
                        0 <= k < i ==> names(keys@).contains(#[trigger] pairs(fields@)[k].0),
                decreases fields@.len() - i,
            {
                if !listed(keys, fields[i].0.as_str()) {
                    proof {
                        let all = j@->Record_0;
                        assert(!names(keys@).contains(all[i as int].0));
                    }
                    return false;
                }
                i += 1;
            }
            true
        },
        None => match j.as_array() {
            Some(items) => items.len() <= keys.len(),
            None => false,
        },
    }
}

fn take_slot<'a>(j: &'a Json, keys: &Vec<&'static str>, i: usize) -> (r: Option<&'a Json>)
    requires
        i < keys@.len(),
    ensures
        match r {
            Some(v) => slot(j@, names(keys@), i as int) == Some(v@),
            None => slot(j@, names(keys@), i as int) is None,
        },
{
    match j.as_object() {
        Some(fields) => get(fields, keys[i]),
        None => match j.as_array() {
            Some(items) => if i < items.len() {
                Some(&items[i])
            } else {
                None
            },
            None => None,
        },
    }
}

pub fn take_text(j: &Json, keys: &Vec<&'static str>, i: usize) -> (r: Option<String>)
    requires
        i < keys@.len(),
    ensures
        content(r) == slot_text(j@, names(keys@), i as int),
{
    match take_slot(j, keys, i) {
        Some(v) => match v.as_str() {
            Some(s) => Some(owned(s)),
            None => None,
        },
        None => None,
    }
}

fn take_unsigned(j: &Json, keys: &Vec<&'static str>, i: usize) -> (r: Option<u64>)
    requires
        i < keys@.len(),
    ensures
        r == slot_unsigned(j@, names(keys@), i as int),
{
    match take_slot(j, keys, i) {
        Some(v) => v.as_u64(),
        None => None,
    }
}

fn take_signed(j: &Json, keys: &Vec<&'static str>, i: usize) -> (r: Option<i64>)
    requires
        i < keys@.len(),
    ensures
        r == slot_signed(j@, names(keys@), i as int),
{
    match take_slot(j, keys, i) {
        Some(v) => v.as_i64(),
        None => None,
    }
}

fn take_count(j: &Json, keys: &Vec<&'static str>, i: usize) -> (r: Option<u64>)
    requires
        i < keys@.len(),
    ensures
        r == slot_count(j@, names(keys@), i as int),
{
    match take_slot(j, keys, i) {
        Some(v) => v.as_u64(),
        None => Some(0),
    }
}

pub fn take_version(j: &Json, keys: &Vec<&'static str>, i: usize) -> (r: Option<u32>)
    requires
        i < keys@.len(),
    ensures
        r == slot_version(j@, names(keys@), i as int),
{
    match take_slot(j, keys, i) {
        Some(v) => match v.as_u64() {
            Some(n) => if n <= u32::MAX as u64 {
                Some(n as u32)
            } else {
                None
            },
            None => None,
        },
        None => None,
    }
}

pub fn take_bool(j: &Json, keys: &Vec<&'static str>, i: usize) -> (r: Option<bool>)
    requires
        i < keys@.len(),
    ensures
        r == slot_bool(j@, names(keys@), i as int),
{
    match take_slot(j, keys, i) {
        Some(v) => v.as_bool(),
        None => None,
    }
}

fn take_events(j: &Json, keys: &Vec<&'static str>, i: usize) -> (r: Option<Vec<Json>>)
    requires
        i < keys@.len(),
    ensures
        match r {
            Some(v) => slot_events(j@, names(keys@), i as int) == Some(nodes(v@)),
            None => slot_events(j@, names(keys@), i as int) is None,
        },
{
    match take_slot(j, keys, i) {
        Some(v) => match v.as_array() {
            Some(items) => Some(copy_all(items)),
            None => None,
        },
        None => {
            let empty: Vec<Json> = Vec::new();
            proof {
                assert(nodes(empty@) =~= Seq::<Node>::empty());
            }
            Some(empty)
        },
    }
}

proof fn lemma_texts_fail(fields: Seq<(Seq<char>, Node)>, k: nat)
    requires
        k <= fields.len(),
        texts_of(fields, k) is None,
    ensures
        texts_of(fields, fields.len()) is None,
    decreases fields.len() - k,
{
    if k < fields.len() {
        lemma_texts_fail(fields, k + 1);
    }
}

#[verifier::loop_isolation(false)]
fn take_map(j: &Json, keys: &Vec<&'static str>, i: usize) -> (r: Option<Vec<(String, String)>>)
    requires
        i < keys@.len(),
    ensures
        match r {
            Some(v) => slot_map(j@, names(keys@), i as int) == Some(pairs(v@)),
            None => slot_map(j@, names(keys@), i as int) is None,
        },
{
    let mut out: Vec<(String, String)> = Vec::new();
    proof {
        assert(pairs(out@) =~= Seq::<(Seq<char>, Seq<char>)>::empty());
    }
    match take_slot(j, keys, i) {
        Some(v) => match v.as_object() {
            Some(fields) => {
                let mut k: usize = 0;
                while k < fields.len()
                    invariant
                        k <= fields@.len(),
                        texts_of(pairs(fields@), k as nat) == Some(pairs(out@)),
                    decreases fields@.len() - k,
                {
                    let ghost prior = pairs(out@);
                    proof {
                        assert(pairs(fields@)[k as int] == (
                            fields@[k as int].0@,
                            fields@[k as int].1@,
                        ));
                    }
                    match fields[k].1.as_str() {
                        Some(s) => {
                            out.push((fields[k].0.clone(), owned(s)));
                            proof {
                                assert(pairs(out@) =~= prior.push((fields@[k as int].0@, s@)));
                            }
                        },
                        None => {
                            proof {
                                lemma_texts_fail(pairs(fields@), (k + 1) as nat);
                            }
                            return None;
                        },
                    }
                    k += 1;
                }
                Some(out)
            },
            None => None,
        },
        None => Some(out),
    }
}

fn identity_list() -> (r: Vec<&'static str>)
    ensures
        names(r@) == identity_keys(),
{
    let r = vec!["canonical_root", "device", "inode", "root_fingerprint"];
    proof {
        assert(names(r@) =~= identity_keys());
    }
    r
}

/// The identity that a value gives.
pub fn read_identity(j: &Json) -> (r: Option<ProjectIdentity>)
    ensures
        content(r) == identity_of(j@),
{
    let keys = identity_list();
    proof {
        assert(names(keys@).len() == 4);
    }
    match (
        take_text(j, &keys, 0),
        take_unsigned(j, &keys, 1),
        take_unsigned(j, &keys, 2),
        take_text(j, &keys, 3),
    ) {
        (Some(canonical_root), Some(device), Some(inode), Some(root_fingerprint)) => if check_shape(
            j,
            &keys,
        ) {
            Some(ProjectIdentity { canonical_root, device, inode, root_fingerprint })
        } else {
            None
        },
        _ => None,
    }
}

fn summary_list() -> (r: Vec<&'static str>)
    ensures
        names(r@) == summary_keys(),
{
    let r = vec![
        "task_id",
        "title",
        "status",
        "revision",
        "updated_at",
        "event_count",
        "unknown_count",
    ];
    proof {
        assert(names(r@) =~= summary_keys());
    }
    r
}

/// The summary that a value gives.
pub fn read_summary(j: &Json) -> (r: Option<TaskSummary>)
    ensures
        content(r) == summary_of(j@),
{
    let keys = summary_list();
    proof {
        assert(names(keys@).len() == 7);
    }
    match (
        take_text(j, &keys, 0),
        take_text(j, &keys, 1),
        take_text(j, &keys, 2),
        take_unsigned(j, &keys, 3),
        take_signed(j, &keys, 4),
        take_unsigned(j, &keys, 5),
        take_unsigned(j, &keys, 6),
    ) {
        (
            Some(task_id),
            Some(title),
            Some(status),
            Some(revision),
            Some(updated_at),
            Some(event_count),
            Some(unknown_count),
        ) => if check_shape(j, &keys) {
            Some(
                TaskSummary {
                    task_id,
                    title,
                    status,
                    revision,
                    updated_at,
                    event_count,
                    unknown_count,
                },
            )
        } else {
            None
        },
        _ => None,
    }
}

fn archive_list() -> (r: Vec<&'static str>)
    ensures
        names(r@) == archive_keys(),
{
    let r = vec!["file", "sha256", "event_count", "bytes"];
    proof {
        assert(names(r@) =~= archive_keys());
    }
    r
}

/// The archive reference that a value gives.
pub fn read_archive(j: &Json) -> (r: Option<EventArchive>)
    ensures
        content(r) == archive_of(j@),
{
    let keys = archive_list();
    proof {
        assert(names(keys@).len() == 4);
    }
    match (
        take_text(j, &keys, 0),
        take_text(j, &keys, 1),
        take_unsigned(j, &keys, 2),
        take_unsigned(j, &keys, 3),
    ) {
        (Some(file), Some(sha256), Some(event_count), Some(bytes)) => if check_shape(j, &keys) {
            Some(EventArchive { file, sha256, event_count, bytes })
        } else {
            None
        },
        _ => None,
    }
}

proof fn lemma_summaries_fail(items: Seq<Node>, k: nat)
    requires
        k <= items.len(),
        summaries_of(items, k) is None,
    ensures
        summaries_of(items, items.len()) is None,
    decreases items.len() - k,
{
    if k < items.len() {
        lemma_summaries_fail(items, k + 1);
    }
}

#[verifier::loop_isolation(false)]
fn take_summaries(j: &Json, keys: &Vec<&'static str>, i: usize) -> (r: Option<Vec<TaskSummary>>)
    requires
        i < keys@.len(),
    ensures
        match r {
            Some(v) => slot_summaries(j@, names(keys@), i as int) == Some(views(v@)),
            None => slot_summaries(j@, names(keys@), i as int) is None,
        },
{
    let mut out: Vec<TaskSummary> = Vec::new();
    proof {
        assert(views(out@) =~= Seq::<SummaryView>::empty());
    }
    match take_slot(j, keys, i) {
        Some(v) => match v.as_array() {
            Some(items) => {
                let mut k: usize = 0;
                while k < items.len()
                    invariant
                        k <= items@.len(),
                        summaries_of(nodes(items@), k as nat) == Some(views(out@)),
                    decreases items@.len() - k,
                {
                    let ghost prior = views(out@);
                    proof {
                        assert(nodes(items@)[k as int] == items@[k as int]@);
                    }
                    match read_summary(&items[k]) {
                        Some(s) => {
                            out.push(s);
                            proof {
                                assert(views(out@) =~= prior.push(s@));
                            }
                        },
                        None => {
                            proof {
                                lemma_summaries_fail(nodes(items@), (k + 1) as nat);
                            }
                            return None;
                        },
                    }
                    k += 1;
                }
                Some(out)
            },
            None => None,
        },
        None => Some(out),
    }
}

proof fn lemma_archives_fail(items: Seq<Node>, k: nat)
    requires
        k <= items.len(),
        archives_of(items, k) is None,
    ensures
        archives_of(items, items.len()) is None,
    decreases items.len() - k,
{
    if k < items.len() {
        lemma_archives_fail(items, k + 1);
    }
}

#[verifier::loop_isolation(false)]
fn take_archives(j: &Json, keys: &Vec<&'static str>, i: usize) -> (r: Option<Vec<EventArchive>>)
    requires
        i < keys@.len(),
    ensures
        match r {
            Some(v) => slot_archives(j@, names(keys@), i as int) == Some(views(v@)),
            None => slot_archives(j@, names(keys@), i as int) is None,
        },
{
    let mut out: Vec<EventArchive> = Vec::new();
    proof {
        assert(views(out@) =~= Seq::<ArchiveView>::empty());
    }
    match take_slot(j, keys, i) {
        Some(v) => match v.as_array() {
            Some(items) => {
                let mut k: usize = 0;
                while k < items.len()
                    invariant
                        k <= items@.len(),
                        archives_of(nodes(items@), k as nat) == Some(views(out@)),
                    decreases items@.len() - k,
                {
                    let ghost prior = views(out@);
                    proof {
                        assert(nodes(items@)[k as int] == items@[k as int]@);
                    }
                    match read_archive(&items[k]) {
                        Some(s) => {
                            out.push(s);
                            proof {
                                assert(views(out@) =~= prior.push(s@));
                            }
                        },
                        None => {
                            proof {
                                lemma_archives_fail(nodes(items@), (k + 1) as nat);
                            }
                            return None;
                        },
                    }
                    k += 1;
                }
                Some(out)
            },
            None => None,
        },
        None => Some(out),
    }
}

pub fn take_identity(j: &Json, keys: &Vec<&'static str>, i: usize) -> (r: Option<ProjectIdentity>)
    requires
        i < keys@.len(),
    ensures
        content(r) == slot_identity(j@, names(keys@), i as int),
{
    match take_slot(j, keys, i) {
        Some(v) => read_identity(v),
        None => None,
    }
}

fn index_list() -> (r: Vec<&'static str>)
    ensures
        names(r@) == index_keys(),
{
    let r = vec![
        "format",
        "version",
        "managed_by",
        "enabled",
        "project_identity",
        "revision",
        "updated_at",
        "tasks",
        "retired_tasks",
        "bindings",
    ];
    proof {
        assert(names(r@) =~= index_keys());
    }
    r
}

/// The index that a value gives.
pub fn read_index(j: &Json) -> (r: Option<IndexFile>)
    ensures
        content(r) == index_of(j@),
{
    let keys = index_list();
    proof {
        assert(names(keys@).len() == 10);
    }
    if !check_shape(j, &keys) {
        return None;
    }
    match (
        take_text(j, &keys, 0),
        take_version(j, &keys, 1),
        take_text(j, &keys, 2),
        take_bool(j, &keys, 3),
        take_identity(j, &keys, 4),
        take_unsigned(j, &keys, 5),
        take_signed(j, &keys, 6),
        take_summaries(j, &keys, 7),
        take_summaries(j, &keys, 8),
        take_map(j, &keys, 9),
    ) {
        (
            Some(format),
            Some(version),
            Some(managed_by),
            Some(enabled),
            Some(project_identity),
            Some(revision),
            Some(updated_at),
            Some(tasks),
            Some(retired_tasks),
            Some(bindings),
        ) => Some(
            IndexFile {
                format,
                version,
                managed_by,
                enabled,
                project_identity,
                revision,
                updated_at,
                tasks,
                retired_tasks,
                bindings,
            },
        ),
        _ => None,
    }
}

fn task_list() -> (r: Vec<&'static str>)
    ensures
        names(r@) == task_keys(),
{
    let r = vec![
        "format",
        "version",
        "managed_by",
        "project_identity",
        "task_id",
        "title",
        "status",
        "revision",
        "created_at",
        "updated_at",
        "unknown_count",
        "events",
        "archives",
        "event_aliases",
    ];
    proof {
        assert(names(r@) =~= task_keys());
    }
    r
}

/// The task file that a value gives.
pub fn read_task(j: &Json) -> (r: Option<TaskFile>)
    ensures
        content(r) == task_of(j@),
{
    let keys = task_list();
    proof {
        assert(names(keys@).len() == 14);
    }
    if !check_shape(j, &keys) {
        return None;
    }
    let format = match take_text(j, &keys, 0) {
        Some(v) => v,
        None => {
            return None;
        },
    };
    let version: u32 = match take_version(j, &keys, 1) {
        Some(v) => v,
        None => {
            return None;
        },
    };
    let managed_by = match take_text(j, &keys, 2) {
        Some(v) => v,
        None => {
            return None;
        },
    };
    let project_identity = match take_identity(j, &keys, 3) {
        Some(v) => v,
        None => {
            return None;
        },
    };
    let task_id = match take_text(j, &keys, 4) {
        Some(v) => v,
        None => {
            return None;
        },
    };
    let title = match take_text(j, &keys, 5) {
        Some(v) => v,
        None => {
            return None;
        },
    };
    let status = match take_text(j, &keys, 6) {
        Some(v) => v,
        None => {
            return None;
        },
    };
    let revision: u64 = match take_unsigned(j, &keys, 7) {
        Some(v) => v,
        None => {
            return None;
        },
    };
    let created_at: i64 = match take_signed(j, &keys, 8) {
        Some(v) => v,
        None => {
            return None;
        },
    };
    let updated_at: i64 = match take_signed(j, &keys, 9) {
        Some(v) => v,
        None => {
            return None;
        },
    };
    let unknown_count: u64 = match take_count(j, &keys, 10) {
        Some(v) => v,
        None => {
            return None;
        },
    };
    let events = match take_events(j, &keys, 11) {
        Some(v) => v,
        None => {
            return None;
        },
    };
    let archives = match take_archives(j, &keys, 12) {
        Some(v) => v,
        None => {
            return None;
        },
    };
    let event_aliases = match take_map(j, &keys, 13) {
        Some(v) => v,
        None => {
            return None;
        },
    };
    Some(
        TaskFile {
            format,
            version,
            managed_by,
            project_identity,
            task_id,
            title,
            status,
            revision,
            created_at,
            updated_at,
            unknown_count,
            events,
            archives,
            event_aliases,
        },
    )
}

} // verus!
