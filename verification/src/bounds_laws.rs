//! The limits of the records, and what a failed write leaves.
use vstd::prelude::*;
use crate::anchor::{then_anchored};
use crate::codec::{json_pretty};
use crate::commit::{PlannedView, WriteView, reported};
use crate::failure::{Failure};
use crate::markdown::{plan_of};
use crate::outbox::{ScopeView, scope_bindings, scope_gaps, scope_retirements, scope_rows};
use crate::queue_laws::{is_counted};
use crate::records::{IndexView, TaskView, index_node, task_node};
use crate::server::{counts_of};
use crate::store::{BoundView, DatabaseView, RetirementView, retirement_count};
use crate::writing::{disk_view, index_bytes, task_bytes};

verus! {

/// An index is written up to 64 kibibytes, a task up to 256, and a Markdown
/// file is replaced up to 128.
pub proof fn law_records_are_bounded(v: IndexView, t: TaskView, existing: Seq<u8>)
    ensures
        index_bytes(v) is Ok <==> (json_pretty(index_node(v)) matches Some(b) && b.len() <= 64
            * 1024),
        index_bytes(v) matches Ok(b) ==> json_pretty(index_node(v)) == Some(b),
        task_bytes(t) is Ok <==> (json_pretty(task_node(disk_view(t))) matches Some(b) && b.len()
            <= 256 * 1024),
        task_bytes(t) matches Ok(b) ==> json_pretty(task_node(disk_view(t))) == Some(b),
        plan_of(Some(existing), t) matches Ok(p) ==> (p.bytes matches Some(b) ==> b.len() <= 128
            * 1024) && p.original == Some(existing),
{
}

/// A failed write is reported as one that changed something exactly where it
/// did so itself, where earlier writes of the request are durable, or where
/// what it left could not be removed.
pub proof fn law_failed_write_is_blamed(w: WriteView, f: Failure, cleanup_failed: bool)
    ensures
        reported(w, f, cleanup_failed).code == f.code,
        reported(w, f, cleanup_failed).message == f.message,
        w.undo.len() > 0 && (w.undo_always || !f.state_changed) ==> reported(
            w,
            f,
            cleanup_failed,
        ).state_changed == (f.state_changed || cleanup_failed),
        !(w.undo.len() > 0 && (w.undo_always || !f.state_changed)) ==> reported(
            w,
            f,
            cleanup_failed,
        ).state_changed == (f.state_changed || w.blame),
{
}

/// A directory that could not be anchored after its task was created is
/// reported as changed: the task is there.
pub proof fn law_late_failure_is_blamed(p: PlannedView, anchor: Result<Option<Seq<u8>>, Failure>)
    ensures
        p.reply is Err ==> then_anchored(p, anchor) == p,
        p.reply is Ok ==> (anchor matches Err(f) ==> (then_anchored(p, anchor).reply matches Err(g)
            && g.code == f.code && g.state_changed && then_anchored(p, anchor).writes == p.writes)),
        p.reply is Ok ==> (anchor matches Ok(None) ==> then_anchored(p, anchor) == p),
        p.reply is Ok ==> (anchor matches Ok(Some(b)) ==> ({
            let q = then_anchored(p, anchor);
            &&& q.reply == p.reply
            &&& q.writes.len() == p.writes.len() + 1
            &&& q.writes.last().name == ".volume-anchor.json"@
            &&& q.writes.last().bytes == b
            &&& !q.writes.last().replace
        })),
{
}

proof fn lemma_gaps_prefix(db: DatabaseView, b: BoundView, s: ScopeView, k: nat)
    requires
        k <= db.bindings.len(),
    ensures
        scope_gaps((DatabaseView { bindings: db.bindings.push(b), ..db }), s, k) == scope_gaps(
            db,
            s,
            k,
        ),
    decreases k,
{
    if k > 0 {
        lemma_gaps_prefix(db, b, s, (k - 1) as nat);
    }
}

/// What is counted of the deliveries in a scope: its bindings, their waiting
/// events, their gaps, and its open retirements. A gap counts where its session
/// is bound in the scope.
pub proof fn law_counts_of_a_scope(db: DatabaseView, b: BoundView, s: ScopeView)
    ensures
        ({
            let n = db.bindings.len();
            let c = counts_of(db, s);
            &&& scope_bindings(db.bindings, s, n) <= u64::MAX ==> c.bindings == scope_bindings(
                db.bindings,
                s,
                n,
            )
            &&& scope_rows(db, s, n) <= u64::MAX ==> c.pending == scope_rows(db, s, n)
            &&& scope_gaps(db, s, n) <= u64::MAX ==> c.capture_gaps == scope_gaps(db, s, n)
            &&& scope_retirements(db.retirements, s, db.retirements.len()) <= u64::MAX
                ==> c.retiring == scope_retirements(db.retirements, s, db.retirements.len())
        }),
        scope_gaps(
            (DatabaseView { bindings: db.bindings.push(b), ..db }),
            s,
            db.bindings.push(b).len(),
        ) == scope_gaps(db, s, db.bindings.len()) + (if is_counted(
            s,
            b.project_id,
            b.project_path,
            b.task_id,
            b.root_fingerprint,
        ) && (exists|j: int|
            0 <= j < db.gaps.len() && (#[trigger] db.gaps[j]).session_id == b.session_id) {
            1nat
        } else {
            0nat
        }),
{
    lemma_gaps_prefix(db, b, s, db.bindings.len());
}

proof fn lemma_retirement_prefix(
    rs: Seq<RetirementView>,
    r: RetirementView,
    b: BoundView,
    k: nat,
)
    requires
        k <= rs.len(),
    ensures
        retirement_count(rs.push(r), b, k) == retirement_count(rs, b, k),
    decreases k,
{
    if k > 0 {
        lemma_retirement_prefix(rs, r, b, (k - 1) as nat);
    }
}

/// The freezes of a task are counted one by one.
pub proof fn law_freezes_are_counted(rs: Seq<RetirementView>, r: RetirementView, b: BoundView)
    ensures
        retirement_count(Seq::empty(), b, 0) == 0,
        retirement_count(rs.push(r), b, rs.push(r).len()) == retirement_count(rs, b, rs.len()) + (
        if r.project_id == b.project_id && r.client_id == b.client_id && r.project_path
            == b.project_path && r.task_id == b.task_id && r.root_fingerprint
            == b.root_fingerprint {
            1nat
        } else {
            0nat
        }),
{
    lemma_retirement_prefix(rs, r, b, rs.len());
}

} // verus!
