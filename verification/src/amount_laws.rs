//! What is counted, and what is kept open by it.
use vstd::prelude::*;
use vstd::utf8::*;
use crate::actions::{no_target};
use crate::checks::{MAX_TASK_BYTES, is_digest, reference_check, task_name};
use crate::codec::{json_reading};
use crate::digest::{digest_of};
use crate::directory::{DirectoryView, archive_bytes, segment_of, task_reading};
use crate::failure::{Failure};
use crate::json::{Node};
use crate::markdown::{MAX_MARKDOWN_BYTES, is_managed};
use crate::outbox::{latched, project_rows};
use crate::records::{ArchiveView, IndexView};
use crate::store::{
    BoundView, DatabaseView, GapView, RetirementView, RowView, StoreError, active_bindings,
    binding_for, fenced, freed, has_event, has_gap, retired, retirement_count, retires,
    same_target, unresolved,
};
use crate::text::{is_lower_hex};
use crate::writing::{TargetView, after_archives, after_task, capacity_check, capacity_of};

verus! {

/// A task is unresolved for the server exactly where a session that delivers to
/// it has an event in the outbox or a fact that was lost.
pub proof fn law_open_deliveries(db: DatabaseView, b: BoundView)
    ensures
        unresolved(db, b) <==> exists|i: int|
            0 <= i < db.bindings.len() && (#[trigger] db.bindings[i]).project_id == b.project_id
                && db.bindings[i].client_id == b.client_id && db.bindings[i].project_path
                == b.project_path && db.bindings[i].task_id == b.task_id
                && db.bindings[i].root_fingerprint == b.root_fingerprint && ((exists|j: int|
                0 <= j < db.outbox.len() && (#[trigger] db.outbox[j]).session_id
                    == db.bindings[i].session_id) || (exists|j: int|
                0 <= j < db.gaps.len() && (#[trigger] db.gaps[j]).session_id
                    == db.bindings[i].session_id)),
{
    if unresolved(db, b) {
        let i = choose|i: int|
            0 <= i < db.bindings.len() && same_target(#[trigger] db.bindings[i], b) && (has_event(
                db.outbox,
                db.bindings[i].session_id,
            ) || has_gap(db.gaps, db.bindings[i].session_id));
        assert(db.bindings[i].project_id == b.project_id);
    }
    if exists|i: int|
        0 <= i < db.bindings.len() && (#[trigger] db.bindings[i]).project_id == b.project_id
            && db.bindings[i].client_id == b.client_id && db.bindings[i].project_path
            == b.project_path && db.bindings[i].task_id == b.task_id
            && db.bindings[i].root_fingerprint == b.root_fingerprint && ((exists|j: int|
            0 <= j < db.outbox.len() && (#[trigger] db.outbox[j]).session_id
                == db.bindings[i].session_id) || (exists|j: int|
            0 <= j < db.gaps.len() && (#[trigger] db.gaps[j]).session_id
                == db.bindings[i].session_id)) {
        let i = choose|i: int|
            0 <= i < db.bindings.len() && (#[trigger] db.bindings[i]).project_id == b.project_id
                && db.bindings[i].client_id == b.client_id && db.bindings[i].project_path
                == b.project_path && db.bindings[i].task_id == b.task_id
                && db.bindings[i].root_fingerprint == b.root_fingerprint && ((exists|j: int|
                0 <= j < db.outbox.len() && (#[trigger] db.outbox[j]).session_id
                    == db.bindings[i].session_id) || (exists|j: int|
                0 <= j < db.gaps.len() && (#[trigger] db.gaps[j]).session_id
                    == db.bindings[i].session_id));
        assert(same_target(db.bindings[i], b));
    }
}

/// When the deliveries of a task are frozen and when its archival is confirmed:
/// with nothing open; frozen where there is room; confirmed where exactly one
/// freeze is there.
pub proof fn law_when_a_task_is_retired(db: DatabaseView, b: BoundView)
    ensures
        unresolved(db, b) ==> retired(db, b, false) == (
            db,
            Err::<(), StoreError>(StoreError::RetirementUnresolved),
        ) && retired(db, b, true) == (
            db,
            Err::<(), StoreError>(StoreError::RetirementUnresolved),
        ),
        retired(db, b, false).1 is Ok <==> !unresolved(db, b) && (fenced(db.retirements, b)
            || db.retirements.len() < 4096),
        retired(db, b, true).1 is Ok <==> !unresolved(db, b) && retirement_count(
            db.retirements,
            b,
            db.retirements.len(),
        ) == 1,
{
}

proof fn lemma_active_prefix(
    bs: Seq<BoundView>,
    b: BoundView,
    rs: Seq<RetirementView>,
    k: nat,
)
    requires
        k <= bs.len(),
    ensures
        active_bindings(bs.push(b), rs, k) == active_bindings(bs, rs, k),
    decreases k,
{
    if k > 0 {
        lemma_active_prefix(bs, b, rs, (k - 1) as nat);
    }
}

/// A binding is active until the archival of its task is confirmed.
pub proof fn law_active_bindings_are_counted(
    bs: Seq<BoundView>,
    b: BoundView,
    rs: Seq<RetirementView>,
)
    ensures
        active_bindings(Seq::empty(), rs, 0) == 0,
        active_bindings(bs.push(b), rs, bs.push(b).len()) == active_bindings(bs, rs, bs.len()) + (
        if exists|i: int|
            0 <= i < rs.len() && (#[trigger] rs[i]).retired && rs[i].project_id == b.project_id
                && rs[i].client_id == b.client_id && rs[i].project_path == b.project_path
                && rs[i].task_id == b.task_id && rs[i].root_fingerprint == b.root_fingerprint {
            0nat
        } else {
            1nat
        }),
{
    lemma_active_prefix(bs, b, rs, bs.len());
    if freed(rs, b) {
        let i = choose|i: int| 0 <= i < rs.len() && retires(#[trigger] rs[i], b) && rs[i].retired;
        assert(rs[i].retired);
    }
    if exists|i: int|
        0 <= i < rs.len() && (#[trigger] rs[i]).retired && rs[i].project_id == b.project_id
            && rs[i].client_id == b.client_id && rs[i].project_path == b.project_path
            && rs[i].task_id == b.task_id && rs[i].root_fingerprint == b.root_fingerprint {
        let i = choose|i: int|
            0 <= i < rs.len() && (#[trigger] rs[i]).retired && rs[i].project_id == b.project_id
                && rs[i].client_id == b.client_id && rs[i].project_path == b.project_path
                && rs[i].task_id == b.task_id && rs[i].root_fingerprint == b.root_fingerprint;
        assert(retires(rs[i], b));
    }
}

/// A session that lost a fact has one gap from then on, with its reason; no
/// other session gets one.
pub proof fn law_gap_is_kept_once(
    gaps: Seq<GapView>,
    session: Seq<char>,
    other: Seq<char>,
    reason: Seq<char>,
)
    ensures
        has_gap(latched(gaps, session, reason), session),
        other != session ==> has_gap(latched(gaps, session, reason), other) == has_gap(gaps, other),
        latched(latched(gaps, session, reason), session, reason) == latched(gaps, session, reason),
        !has_gap(gaps, session) ==> latched(gaps, session, reason).len() == gaps.len() + 1
            && latched(gaps, session, reason).last().reason == reason,
{
    let now = latched(gaps, session, reason);
    if !has_gap(gaps, session) {
        assert(now[gaps.len() as int].session_id == session);
    }
    if has_gap(gaps, other) {
        let i = choose|i: int| 0 <= i < gaps.len() && (#[trigger] gaps[i]).session_id == other;
        assert(now[i].session_id == other);
    }
    if other != session && has_gap(now, other) {
        let i = choose|i: int| 0 <= i < now.len() && (#[trigger] now[i]).session_id == other;
        assert(gaps[i].session_id == other);
    }
}

proof fn lemma_project_prefix(
    bs: Seq<BoundView>,
    rows: Seq<RowView>,
    x: RowView,
    project: Seq<char>,
    path: Seq<char>,
    k: nat,
)
    requires
        k <= rows.len(),
    ensures
        project_rows(bs, rows.push(x), project, path, k) == project_rows(bs, rows, project, path, k),
    decreases k,
{
    if k > 0 {
        lemma_project_prefix(bs, rows, x, project, path, (k - 1) as nat);
    }
}

/// A waiting event counts for the project and the path that its session is
/// bound to.
pub proof fn law_waiting_events_of_a_project(
    bs: Seq<BoundView>,
    rows: Seq<RowView>,
    x: RowView,
    project: Seq<char>,
    path: Seq<char>,
)
    ensures
        project_rows(bs, Seq::empty(), project, path, 0) == 0,
        project_rows(bs, rows.push(x), project, path, rows.push(x).len()) == project_rows(
            bs,
            rows,
            project,
            path,
            rows.len(),
        ) + (if (binding_for(bs, x.session_id) matches Some(b) && b.project_id == project
            && b.project_path == path) {
            1nat
        } else {
            0nat
        }),
{
    lemma_project_prefix(bs, rows, x, project, path, rows.len());
}

proof fn lemma_archives_summed(archives: Seq<ArchiveView>, id: Seq<char>, k: nat, base: u64)
    requires
        k <= archives.len(),
        after_archives(archives, id, k, base) is Ok,
        base + archive_bytes(archives, k) <= u64::MAX,
    ensures
        after_archives(archives, id, k, base)->Ok_0 == base + archive_bytes(archives, k),
        archive_bytes(archives, k) >= 0,
    decreases k,
{
    if k > 0 {
        lemma_archive_bytes(archives, (k - 1) as nat);
        lemma_archives_summed(archives, id, (k - 1) as nat, base);
    }
}

proof fn lemma_archive_bytes(archives: Seq<ArchiveView>, k: nat)
    ensures
        archive_bytes(archives, k) >= 0,
    decreases k,
{
    if k > 0 && k <= archives.len() {
        lemma_archive_bytes(archives, (k - 1) as nat);
    }
}

/// What a task takes: its file, all of its archived history and its managed
/// Markdown; Markdown that is not managed takes nothing.
pub proof fn law_task_takes_all_its_bytes(d: DirectoryView, id: Seq<char>, base: u64, b: Seq<u8>)
    requires
        id.len() > 0,
        after_task(d, id, no_target(), base) is Ok,
        d.read(id + ".json"@, MAX_TASK_BYTES as int) == Ok::<_, Failure>(Some(b)),
        ({
            let t = task_reading(b, d.distinct(id + ".json"@))->0;
            base + archive_bytes(t.archives, t.archives.len()) + b.len() + MAX_MARKDOWN_BYTES
                <= u64::MAX
        }),
        d.read(id + ".md"@, MAX_MARKDOWN_BYTES as int) matches Ok(Some(m)) ==> m.len()
            <= MAX_MARKDOWN_BYTES,
    ensures
        ({
            let t = task_reading(b, d.distinct(id + ".json"@))->0;
            let markdown = match d.read(id + ".md"@, MAX_MARKDOWN_BYTES as int) {
                Ok(Some(m)) => if is_managed(decode_utf8(m)) {
                    m.len()
                } else {
                    0nat
                },
                _ => 0nat,
            };
            after_task(d, id, no_target(), base)->Ok_0 == base + archive_bytes(
                t.archives,
                t.archives.len(),
            ) + b.len() + markdown
        }),
{
    let t = task_reading(b, d.distinct(task_name(id)))->0;
    lemma_archives_summed(t.archives, id, t.archives.len(), base);
}

/// The status of a project is within its capacity up to two mebibytes.
pub proof fn law_capacity_limit(d: DirectoryView, v: IndexView, target: TargetView)
    ensures
        capacity_check(d, v, target) is Ok <==> (capacity_of(d, v, target) matches Ok(n) && n
            <= 2 * 1024 * 1024),
        (capacity_of(d, v, target) matches Ok(n) && n > 2 * 1024 * 1024) ==> (capacity_check(
            d,
            v,
            target,
        ) matches Err(f) && f.code@ == "capacity_exceeded"@ && !f.state_changed),
{
}

/// Which references to archived history are valid: under the name of the task
/// and the digest, with 1 to 128 events in at most 256 kibibytes.
pub proof fn law_archive_reference(a: ArchiveView, id: Seq<char>)
    ensures
        reference_check(a, id) is Ok <==> a.sha256.len() == 64 && (forall|i: int|
            0 <= i < a.sha256.len() ==> '0' <= #[trigger] a.sha256[i] <= '9' || 'a' <= a.sha256[i]
                <= 'f') && a.file == id + ".events-"@ + a.sha256 + ".json"@ && 0 < a.event_count
            <= 128 && a.bytes <= 256 * 1024,
{
    let s = a.sha256;
    if is_digest(s) {
        assert forall|i: int| 0 <= i < s.len() implies '0' <= #[trigger] s[i] <= '9' || 'a' <= s[i]
            <= 'f' by {
            assert(is_lower_hex(s[i]));
        }
    }
    if s.len() == 64 && forall|i: int|
        0 <= i < s.len() ==> '0' <= #[trigger] s[i] <= '9' || 'a' <= s[i] <= 'f' {
        assert forall|i: int| 0 <= i < s.len() implies is_lower_hex(#[trigger] s[i]) by {
        }
    }
}

/// A segment of archived history is read only as it was written: of its size,
/// its digest and its number of events.
pub proof fn law_segment_is_read_as_written(d: DirectoryView, a: ArchiveView)
    ensures
        segment_of(d, a) matches Ok(events) ==> (d.read(a.file, MAX_TASK_BYTES as int) matches Ok(
            Some(b),
        ) && b.len() == a.bytes && digest_of(b) == a.sha256 && json_reading(b) == Some(
            Node::List(events),
        ) && events.len() == a.event_count),
        (d.read(a.file, MAX_TASK_BYTES as int) matches Ok(None)) ==> (segment_of(d, a) matches Err(f)
            && f.code@ == "archive_missing"@),
        (d.read(a.file, MAX_TASK_BYTES as int) matches Ok(Some(b)) && (b.len() != a.bytes
            || digest_of(b) != a.sha256)) ==> (segment_of(d, a) matches Err(f) && f.code@
            == "archive_corrupt"@),
{
}

} // verus!
