//! The bounded delivery outbox of the server: which session delivers to which
//! task, which events wait, and which tasks are being retired. No command
//! bodies, credentials, output streams or task lifecycles are kept here.
use vstd::prelude::*;
use vstd::utf8::*;
use crate::failure::{content, views};
use crate::json::{Json, Node};
use crate::markdown::{bytes_of};
use crate::text::{has_char, length, same};

verus! {

pub const MAX_BINDING_FIELD_BYTES: usize = 4096;

pub const MAX_ACTIVE_BINDINGS: usize = 1024;

pub const MAX_BINDING_HISTORY: usize = 65536;

pub const MAX_RETIREMENTS: usize = 4096;

pub const MAX_OUTBOX_EVENTS: usize = 4096;

pub const MAX_PENDING_BATCH: usize = 32;

pub const MAX_OUTBOX_PATH_BYTES: usize = 512;

/// The delivery target of one session.
#[derive(Clone, Debug, PartialEq, Eq)]
pub struct HandoffBinding {
    pub session_id: String,
    pub project_id: String,
    pub client_id: String,
    pub project_path: String,
    pub task_id: String,
    pub root_fingerprint: String,
}

pub struct BoundView {
    pub session_id: Seq<char>,
    pub project_id: Seq<char>,
    pub client_id: Seq<char>,
    pub project_path: Seq<char>,
    pub task_id: Seq<char>,
    pub root_fingerprint: Seq<char>,
}

impl View for HandoffBinding {
    type V = BoundView;

    open spec fn view(&self) -> BoundView {
        BoundView {
            session_id: self.session_id@,
            project_id: self.project_id@,
            client_id: self.client_id@,
            project_path: self.project_path@,
            task_id: self.task_id@,
            root_fingerprint: self.root_fingerprint@,
        }
    }
}

/// An event that waits for its delivery.
#[derive(Clone, Debug)]
pub struct HandoffPendingEvent {
    pub session_id: String,
    pub event_id: String,
    pub event: Json,
}

pub struct PendingView {
    pub session_id: Seq<char>,
    pub event_id: Seq<char>,
    pub event: Node,
}

impl View for HandoffPendingEvent {
    type V = PendingView;

    open spec fn view(&self) -> PendingView {
        PendingView {
            session_id: self.session_id@,
            event_id: self.event_id@,
            event: self.event@,
        }
    }
}

/// A row of the outbox.
#[derive(Clone, Debug, PartialEq, Eq)]
pub struct OutboxRow {
    pub event_id: String,
    pub session_id: String,
    pub payload: String,
    pub created_at: i64,
}

pub struct RowView {
    pub event_id: Seq<char>,
    pub session_id: Seq<char>,
    pub payload: Seq<char>,
    pub created_at: i64,
}

impl View for OutboxRow {
    type V = RowView;

    open spec fn view(&self) -> RowView {
        RowView {
            event_id: self.event_id@,
            session_id: self.session_id@,
            payload: self.payload@,
            created_at: self.created_at,
        }
    }
}

/// A task whose deliveries are frozen, and whether its archival is confirmed.
#[derive(Clone, Debug, PartialEq, Eq)]
pub struct Retirement {
    pub project_id: String,
    pub client_id: String,
    pub project_path: String,
    pub task_id: String,
    pub root_fingerprint: String,
    pub retired: bool,
}

pub struct RetirementView {
    pub project_id: Seq<char>,
    pub client_id: Seq<char>,
    pub project_path: Seq<char>,
    pub task_id: Seq<char>,
    pub root_fingerprint: Seq<char>,
    pub retired: bool,
}

impl View for Retirement {
    type V = RetirementView;

    open spec fn view(&self) -> RetirementView {
        RetirementView {
            project_id: self.project_id@,
            client_id: self.client_id@,
            project_path: self.project_path@,
            task_id: self.task_id@,
            root_fingerprint: self.root_fingerprint@,
            retired: self.retired,
        }
    }
}

/// A session of which some event could not be recorded, with the reason.
#[derive(Clone, Debug, PartialEq, Eq)]
pub struct CaptureGap {
    pub session_id: String,
    pub reason: String,
}

pub struct GapView {
    pub session_id: Seq<char>,
    pub reason: Seq<char>,
}

impl View for CaptureGap {
    type V = GapView;

    open spec fn view(&self) -> GapView {
        GapView { session_id: self.session_id@, reason: self.reason@ }
    }
}

/// The delivery tables. A session has one binding and at most one gap, an event
/// id names one row of the outbox, and a target is retired at most once.
#[derive(Clone, Debug)]
pub struct Database {
    pub bindings: Vec<HandoffBinding>,
    pub outbox: Vec<OutboxRow>,
    pub gaps: Vec<CaptureGap>,
    pub retirements: Vec<Retirement>,
}

pub struct DatabaseView {
    pub bindings: Seq<BoundView>,
    pub outbox: Seq<RowView>,
    pub gaps: Seq<GapView>,
    pub retirements: Seq<RetirementView>,
}

impl View for Database {
    type V = DatabaseView;

    open spec fn view(&self) -> DatabaseView {
        DatabaseView {
            bindings: views(self.bindings@),
            outbox: views(self.outbox@),
            gaps: views(self.gaps@),
            retirements: views(self.retirements@),
        }
    }
}

/// Why the tables refuse a request.
#[derive(Clone, Copy, Debug, PartialEq, Eq, Structural)]
pub enum StoreError {
    InvalidBinding,
    TaskRetired,
    BindingConflict,
    BindingHistoryFull,
    BindingsFull,
    InvalidEvent,
    MissingEventId,
    InvalidEventId,
    FieldNotAllowed,
    NestedEvent,
    InvalidPaths,
    UnprintableEvent,
    EventTooLarge,
    EventIdConflict,
    NotBound,
    OutboxFull,
    MalformedPayload,
    RetirementUnresolved,
    RetirementNotStarted,
    RetirementsFull,
    CountOverflow,
}

pub open spec fn store_code(e: StoreError) -> Seq<char> {
    match e {
        StoreError::InvalidBinding => "invalid_handoff_binding"@,
        StoreError::TaskRetired => "handoff_task_retired"@,
        StoreError::BindingConflict => "handoff_binding_conflict"@,
        StoreError::BindingHistoryFull => "handoff_binding_history_capacity_exceeded"@,
        StoreError::BindingsFull => "handoff_binding_capacity_exceeded"@,
        StoreError::InvalidEvent => "invalid_handoff_event"@,
        StoreError::MissingEventId => "missing_event_id"@,
        StoreError::InvalidEventId => "invalid_event_id"@,
        StoreError::FieldNotAllowed => "event_field_not_allowed"@,
        StoreError::NestedEvent => "nested_event_not_allowed"@,
        StoreError::InvalidPaths => "invalid_event_paths"@,
        StoreError::UnprintableEvent => "unprintable_event"@,
        StoreError::EventTooLarge => "event_too_large"@,
        StoreError::EventIdConflict => "event_id_conflict"@,
        StoreError::NotBound => "handoff_not_bound"@,
        StoreError::OutboxFull => "handoff_outbox_full"@,
        StoreError::MalformedPayload => "malformed_event_payload"@,
        StoreError::RetirementUnresolved => "handoff_retirement_unresolved"@,
        StoreError::RetirementNotStarted => "handoff_retirement_not_started"@,
        StoreError::RetirementsFull => "handoff_retirement_capacity_exceeded"@,
        StoreError::CountOverflow => "integer_overflow"@,
    }
}

impl StoreError {
    pub fn as_str(self) -> (r: &'static str)
        ensures
            r@ == store_code(self),
    {
        match self {
            StoreError::InvalidBinding => "invalid_handoff_binding",
            StoreError::TaskRetired => "handoff_task_retired",
            StoreError::BindingConflict => "handoff_binding_conflict",
            StoreError::BindingHistoryFull => "handoff_binding_history_capacity_exceeded",
            StoreError::BindingsFull => "handoff_binding_capacity_exceeded",
            StoreError::InvalidEvent => "invalid_handoff_event",
            StoreError::MissingEventId => "missing_event_id",
            StoreError::InvalidEventId => "invalid_event_id",
            StoreError::FieldNotAllowed => "event_field_not_allowed",
            StoreError::NestedEvent => "nested_event_not_allowed",
            StoreError::InvalidPaths => "invalid_event_paths",
            StoreError::UnprintableEvent => "unprintable_event",
            StoreError::EventTooLarge => "event_too_large",
            StoreError::EventIdConflict => "event_id_conflict",
            StoreError::NotBound => "handoff_not_bound",
            StoreError::OutboxFull => "handoff_outbox_full",
            StoreError::MalformedPayload => "malformed_event_payload",
            StoreError::RetirementUnresolved => "handoff_retirement_unresolved",
            StoreError::RetirementNotStarted => "handoff_retirement_not_started",
            StoreError::RetirementsFull => "handoff_retirement_capacity_exceeded",
            StoreError::CountOverflow => "integer_overflow",
        }
    }
}

// ---------------------------------------------------------------------------
// Targets.
// ---------------------------------------------------------------------------

/// Whether two sessions deliver to the same task.
pub open spec fn same_target(a: BoundView, b: BoundView) -> bool {
    a.project_id == b.project_id && a.client_id == b.client_id && a.project_path == b.project_path
        && a.task_id == b.task_id && a.root_fingerprint == b.root_fingerprint
}

/// Whether a retirement is that of the task.
pub open spec fn retires(r: RetirementView, b: BoundView) -> bool {
    r.project_id == b.project_id && r.client_id == b.client_id && r.project_path == b.project_path
        && r.task_id == b.task_id && r.root_fingerprint == b.root_fingerprint
}

/// Whether the task is frozen.
pub open spec fn fenced(rs: Seq<RetirementView>, b: BoundView) -> bool {
    exists|i: int| 0 <= i < rs.len() && retires(#[trigger] rs[i], b)
}

/// Whether the archival of the task is confirmed.
pub open spec fn freed(rs: Seq<RetirementView>, b: BoundView) -> bool {
    exists|i: int| 0 <= i < rs.len() && retires(#[trigger] rs[i], b) && rs[i].retired
}

/// The binding of a session.
pub open spec fn binding_for(bs: Seq<BoundView>, session: Seq<char>) -> Option<BoundView>
    decreases bs.len(),
{
    if bs.len() == 0 {
        None
    } else if bs[0].session_id == session {
        Some(bs[0])
    } else {
        binding_for(bs.drop_first(), session)
    }
}

/// Whether some event of the session waits.
pub open spec fn has_event(outbox: Seq<RowView>, session: Seq<char>) -> bool {
    exists|i: int| 0 <= i < outbox.len() && (#[trigger] outbox[i]).session_id == session
}

/// Whether some event of the session could not be recorded.
pub open spec fn has_gap(gaps: Seq<GapView>, session: Seq<char>) -> bool {
    exists|i: int| 0 <= i < gaps.len() && (#[trigger] gaps[i]).session_id == session
}

/// Whether a session of the task has events that wait or that were lost.
pub open spec fn unresolved(db: DatabaseView, b: BoundView) -> bool {
    exists|i: int|
        0 <= i < db.bindings.len() && same_target(#[trigger] db.bindings[i], b) && (has_event(
            db.outbox,
            db.bindings[i].session_id,
        ) || has_gap(db.gaps, db.bindings[i].session_id))
}

impl HandoffBinding {
    pub fn copy(&self) -> (r: HandoffBinding)
        ensures
            r@ == self@,
    {
        HandoffBinding {
            session_id: self.session_id.clone(),
            project_id: self.project_id.clone(),
            client_id: self.client_id.clone(),
            project_path: self.project_path.clone(),
            task_id: self.task_id.clone(),
            root_fingerprint: self.root_fingerprint.clone(),
        }
    }

    /// Whether both deliver to the same task.
    pub fn shares_target(&self, other: &HandoffBinding) -> (r: bool)
        ensures
            r == same_target(self@, other@),
    {
        same(self.project_id.as_str(), other.project_id.as_str()) && same(
            self.client_id.as_str(),
            other.client_id.as_str(),
        ) && same(self.project_path.as_str(), other.project_path.as_str()) && same(
            self.task_id.as_str(),
            other.task_id.as_str(),
        ) && same(self.root_fingerprint.as_str(), other.root_fingerprint.as_str())
    }

    pub fn equals(&self, other: &HandoffBinding) -> (r: bool)
        ensures
            r == (self@ == other@),
    {
        same(self.session_id.as_str(), other.session_id.as_str()) && self.shares_target(other)
    }
}

impl Retirement {
    fn is_of(&self, b: &HandoffBinding) -> (r: bool)
        ensures
            r == retires(self@, b@),
    {
        same(self.project_id.as_str(), b.project_id.as_str()) && same(
            self.client_id.as_str(),
            b.client_id.as_str(),
        ) && same(self.project_path.as_str(), b.project_path.as_str()) && same(
            self.task_id.as_str(),
            b.task_id.as_str(),
        ) && same(self.root_fingerprint.as_str(), b.root_fingerprint.as_str())
    }
}

proof fn lemma_binding_skip(bs: Seq<BoundView>, session: Seq<char>, i: int)
    requires
        0 <= i < bs.len(),
    ensures
        binding_for(bs.skip(i), session) == (if bs[i].session_id == session {
            Some(bs[i])
        } else {
            binding_for(bs.skip(i + 1), session)
        }),
{
    assert(bs.skip(i)[0] == bs[i]);
    assert(bs.skip(i).drop_first() =~= bs.skip(i + 1));
}

fn find_binding<'a>(bindings: &'a Vec<HandoffBinding>, session: &str) -> (r: Option<
    &'a HandoffBinding,
>)
    ensures
        match r {
            Some(b) => binding_for(views(bindings@), session@) == Some(b@),
            None => binding_for(views(bindings@), session@) is None,
        },
{
    let ghost bs = views(bindings@);
    let mut i: usize = 0;
    proof {
        assert(bs.skip(0) =~= bs);
    }
    while i < bindings.len()
        invariant
            bs == views(bindings@),
            i <= bindings@.len(),
            binding_for(bs, session@) == binding_for(bs.skip(i as int), session@),
        decreases bindings@.len() - i,
    {
        proof {
            lemma_binding_skip(bs, session@, i as int);
        }
        if same(bindings[i].session_id.as_str(), session) {
            return Some(&bindings[i]);
        }
        i += 1;
    }
    None
}

fn is_fenced(retirements: &Vec<Retirement>, b: &HandoffBinding) -> (r: bool)
    ensures
        r == fenced(views(retirements@), b@),
{
    let ghost rs = views(retirements@);
    let mut i: usize = 0;
    while i < retirements.len()
        invariant
            rs == views(retirements@),
            i <= retirements@.len(),
            forall|j: int| 0 <= j < i ==> !retires(#[trigger] rs[j], b@),
        decreases retirements@.len() - i,
    {
        if retirements[i].is_of(b) {
            proof {
                assert(retires(rs[i as int], b@));
            }
            return true;
        }
        i += 1;
    }
    false
}

fn is_freed(retirements: &Vec<Retirement>, b: &HandoffBinding) -> (r: bool)
    ensures
        r == freed(views(retirements@), b@),
{
    let ghost rs = views(retirements@);
    let mut i: usize = 0;
    while i < retirements.len()
        invariant
            rs == views(retirements@),
            i <= retirements@.len(),
            forall|j: int| 0 <= j < i ==> !(retires(#[trigger] rs[j], b@) && rs[j].retired),
        decreases retirements@.len() - i,
    {
        if retirements[i].retired && retirements[i].is_of(b) {
            proof {
                assert(retires(rs[i as int], b@) && rs[i as int].retired);
            }
            return true;
        }
        i += 1;
    }
    false
}

fn awaits_delivery(outbox: &Vec<OutboxRow>, session: &str) -> (r: bool)
    ensures
        r == has_event(views(outbox@), session@),
{
    let ghost rows = views(outbox@);
    let mut i: usize = 0;
    while i < outbox.len()
        invariant
            rows == views(outbox@),
            i <= outbox@.len(),
            forall|j: int| 0 <= j < i ==> (#[trigger] rows[j]).session_id != session@,
        decreases outbox@.len() - i,
    {
        if same(outbox[i].session_id.as_str(), session) {
            proof {
                assert(rows[i as int].session_id == session@);
            }
            return true;
        }
        i += 1;
    }
    false
}

fn lost_events(gaps: &Vec<CaptureGap>, session: &str) -> (r: bool)
    ensures
        r == has_gap(views(gaps@), session@),
{
    let ghost all = views(gaps@);
    let mut i: usize = 0;
    while i < gaps.len()
        invariant
            all == views(gaps@),
            i <= gaps@.len(),
            forall|j: int| 0 <= j < i ==> (#[trigger] all[j]).session_id != session@,
        decreases gaps@.len() - i,
    {
        if same(gaps[i].session_id.as_str(), session) {
            proof {
                assert(all[i as int].session_id == session@);
            }
            return true;
        }
        i += 1;
    }
    false
}

// ---------------------------------------------------------------------------
// Retirement.
// ---------------------------------------------------------------------------

/// The number of retirements of the task among the first `k`.
pub open spec fn retirement_count(rs: Seq<RetirementView>, b: BoundView, k: nat) -> nat
    decreases k,
{
    if k == 0 || k > rs.len() {
        0
    } else {
        retirement_count(rs, b, (k - 1) as nat) + if retires(rs[k - 1], b) {
            1nat
        } else {
            0nat
        }
    }
}

/// The retirements after the archival of the task was confirmed.
pub open spec fn confirmed(rs: Seq<RetirementView>, b: BoundView) -> Seq<RetirementView> {
    Seq::new(
        rs.len(),
        |i: int|
            if retires(rs[i], b) {
                RetirementView { retired: true, ..rs[i] }
            } else {
                rs[i]
            },
    )
}

/// The first `k` retirements without those of the task that are not confirmed.
pub open spec fn cancelled(rs: Seq<RetirementView>, b: BoundView, k: nat) -> Seq<RetirementView>
    decreases k,
{
    if k == 0 || k > rs.len() {
        Seq::empty()
    } else {
        let rest = cancelled(rs, b, (k - 1) as nat);
        if retires(rs[k - 1], b) && !rs[k - 1].retired {
            rest
        } else {
            rest.push(rs[k - 1])
        }
    }
}

/// The fence around the task.
pub open spec fn retirement_of(b: BoundView) -> RetirementView {
    RetirementView {
        project_id: b.project_id,
        client_id: b.client_id,
        project_path: b.project_path,
        task_id: b.task_id,
        root_fingerprint: b.root_fingerprint,
        retired: false,
    }
}

/// Freezing the deliveries of a task, or confirming its archival.
pub open spec fn retired(db: DatabaseView, b: BoundView, finish: bool) -> (
    DatabaseView,
    Result<(), StoreError>,
) {
    let rs = db.retirements;
    if unresolved(db, b) {
        (db, Err(StoreError::RetirementUnresolved))
    } else if finish {
        if retirement_count(rs, b, rs.len()) != 1 {
            (db, Err(StoreError::RetirementNotStarted))
        } else {
            (DatabaseView { retirements: confirmed(rs, b), ..db }, Ok(()))
        }
    } else if fenced(rs, b) {
        (db, Ok(()))
    } else if rs.len() >= MAX_RETIREMENTS {
        (db, Err(StoreError::RetirementsFull))
    } else {
        (DatabaseView { retirements: rs.push(retirement_of(b)), ..db }, Ok(()))
    }
}

impl Database {
    /// Whether the deliveries of the task are frozen. The freeze survives an
    /// ambiguous response of the runner and a restart of the server.
    pub fn handoff_retirement_started(&self, b: &HandoffBinding) -> (r: bool)
        ensures
            r == fenced(self@.retirements, b@),
    {
        is_fenced(&self.retirements, b)
    }

    /// Lifts a freeze whose archival was definitely not written.
    pub fn handoff_cancel_retirement(&mut self, b: &HandoffBinding)
        ensures
            final(self)@ == (DatabaseView {
                retirements: cancelled(old(self)@.retirements, b@, old(self)@.retirements.len()),
                ..old(self)@
            }),
    {
        let ghost rs = self@.retirements;
        let ghost before = self@;
        let mut kept: Vec<Retirement> = Vec::new();
        let mut i: usize = 0;
        let count: usize = self.retirements.len();
        proof {
            assert(views(kept@) =~= Seq::<RetirementView>::empty());
        }
        while i < count
            invariant
                rs == views(self.retirements@),
                self@ == before,
                before.retirements == rs,
                count == self.retirements@.len(),
                i <= count,
                views(kept@) == cancelled(rs, b@, i as nat),
            decreases count - i,
        {
            let ghost prior = views(kept@);
            let row = &self.retirements[i];
            proof {
                assert(rs[i as int] == row@);
            }
            if row.retired || !row.is_of(b) {
                let copy = Retirement {
                    project_id: row.project_id.clone(),
                    client_id: row.client_id.clone(),
                    project_path: row.project_path.clone(),
                    task_id: row.task_id.clone(),
                    root_fingerprint: row.root_fingerprint.clone(),
                    retired: row.retired,
                };
                kept.push(copy);
                proof {
                    assert(views(kept@) =~= prior.push(rs[i as int]));
                }
            }
            i += 1;
        }
        self.retirements = kept;
    }

    fn is_unresolved(&self, b: &HandoffBinding) -> (r: bool)
        ensures
            r == unresolved(self@, b@),
    {
        let ghost bs = self@.bindings;
        let mut i: usize = 0;
        while i < self.bindings.len()
            invariant
                bs == views(self.bindings@),
                bs == self@.bindings,
                i <= self.bindings@.len(),
                forall|j: int|
                    0 <= j < i ==> !(same_target(#[trigger] bs[j], b@) && (has_event(
                        self@.outbox,
                        bs[j].session_id,
                    ) || has_gap(self@.gaps, bs[j].session_id))),
            decreases self.bindings@.len() - i,
        {
            let row = &self.bindings[i];
            proof {
                assert(bs[i as int] == row@);
            }
            if row.shares_target(b) && (awaits_delivery(&self.outbox, row.session_id.as_str())
                || lost_events(&self.gaps, row.session_id.as_str())) {
                return true;
            }
            i += 1;
        }
        false
    }

    /// Freezes the deliveries of a task, or confirms its archival. Neither is
    /// done while one of its sessions has events that wait or were lost.
    pub fn handoff_retire(&mut self, b: &HandoffBinding, finish: bool) -> (r: Result<
        (),
        StoreError,
    >)
        ensures
            (final(self)@, r) == retired(old(self)@, b@, finish),
    {
        let ghost before = self@;
        let ghost rs = self@.retirements;
        if self.is_unresolved(b) {
            return Err(StoreError::RetirementUnresolved);
        }
        let count: usize = self.retirements.len();
        proof {
            assert(rs.len() == count);
        }
        if finish {
            let mut found: usize = 0;
            let mut i: usize = 0;
            while i < count
                invariant
                    rs == views(self.retirements@),
                    count == self.retirements@.len(),
                    i <= count,
                    found <= i,
                    found == retirement_count(rs, b@, i as nat),
                decreases count - i,
            {
                proof {
                    assert(rs[i as int] == self.retirements@[i as int]@);
                }
                if self.retirements[i].is_of(b) {
                    found += 1;
                }
                i += 1;
            }
            if found != 1 {
                return Err(StoreError::RetirementNotStarted);
            }
            let ghost goal = confirmed(rs, b@);
            let mut k: usize = 0;
            while k < count
                invariant
                    count == self.retirements@.len(),
                    count == rs.len(),
                    goal == confirmed(rs, b@),
                    k <= count,
                    self@.bindings == before.bindings,
                    self@.outbox == before.outbox,
                    self@.gaps == before.gaps,
                    forall|j: int| 0 <= j < k ==> views(self.retirements@)[j] == #[trigger] goal[j],
                    forall|j: int|
                        k <= j < count ==> views(self.retirements@)[j] == #[trigger] rs[j],
                decreases count - k,
            {
                let ghost prior = views(self.retirements@);
                proof {
                    assert(prior[k as int] == rs[k as int]);
                    assert(goal[k as int] == goal[k as int]);
                }
                if self.retirements[k].is_of(b) {
                    let row = &self.retirements[k];
                    let copy = Retirement {
                        project_id: row.project_id.clone(),
                        client_id: row.client_id.clone(),
                        project_path: row.project_path.clone(),
                        task_id: row.task_id.clone(),
                        root_fingerprint: row.root_fingerprint.clone(),
                        retired: true,
                    };
                    self.retirements.set(k, copy);
                    proof {
                        assert(views(self.retirements@) =~= prior.update(k as int, copy@));
                    }
                }
                k += 1;
            }
            proof {
                assert(views(self.retirements@) =~= goal);
            }
            return Ok(());
        }
        if is_fenced(&self.retirements, b) {
            return Ok(());
        }
        if count >= MAX_RETIREMENTS {
            return Err(StoreError::RetirementsFull);
        }
        let row = Retirement {
            project_id: b.project_id.clone(),
            client_id: b.client_id.clone(),
            project_path: b.project_path.clone(),
            task_id: b.task_id.clone(),
            root_fingerprint: b.root_fingerprint.clone(),
            retired: false,
        };
        self.retirements.push(row);
        proof {
            assert(views(self.retirements@) =~= rs.push(retirement_of(b@)));
        }
        Ok(())
    }
}

// ---------------------------------------------------------------------------
// Binding.
// ---------------------------------------------------------------------------

/// Whether a field of a binding is acceptable.
pub open spec fn bindable_field(s: Seq<char>) -> bool {
    s.len() > 0 && encode_utf8(s).len() <= MAX_BINDING_FIELD_BYTES && !s.contains('\0')
}

pub open spec fn bindable(b: BoundView) -> bool {
    bindable_field(b.session_id) && bindable_field(b.project_id) && bindable_field(b.client_id)
        && bindable_field(b.project_path) && bindable_field(b.task_id) && bindable_field(
        b.root_fingerprint,
    )
}

/// The number of bindings among the first `k` whose task is not archived.
pub open spec fn active_bindings(bs: Seq<BoundView>, rs: Seq<RetirementView>, k: nat) -> nat
    decreases k,
{
    if k == 0 || k > bs.len() {
        0
    } else {
        active_bindings(bs, rs, (k - 1) as nat) + if freed(rs, bs[k - 1]) {
            0nat
        } else {
            1nat
        }
    }
}

/// Binding a session to its delivery target.
pub open spec fn bound(db: DatabaseView, b: BoundView) -> (DatabaseView, Result<(), StoreError>) {
    let bs = db.bindings;
    if !bindable(b) {
        (db, Err(StoreError::InvalidBinding))
    } else if fenced(db.retirements, b) {
        (db, Err(StoreError::TaskRetired))
    } else if binding_for(bs, b.session_id) is Some {
        if binding_for(bs, b.session_id) == Some(b) {
            (db, Ok(()))
        } else {
            (db, Err(StoreError::BindingConflict))
        }
    } else if bs.len() >= MAX_BINDING_HISTORY {
        (db, Err(StoreError::BindingHistoryFull))
    } else if active_bindings(bs, db.retirements, bs.len()) >= MAX_ACTIVE_BINDINGS {
        (db, Err(StoreError::BindingsFull))
    } else {
        (DatabaseView { bindings: bs.push(b), ..db }, Ok(()))
    }
}

fn can_bind(field: &str) -> (r: bool)
    ensures
        r == bindable_field(field@),
{
    let bytes = bytes_of(field);
    length(field) > 0 && bytes.len() <= MAX_BINDING_FIELD_BYTES && !has_char(field, '\0')
}

impl Database {
    /// Tables without rows.
    pub fn new() -> (r: Database)
        ensures
            r@ == (DatabaseView {
                bindings: Seq::empty(),
                outbox: Seq::empty(),
                gaps: Seq::empty(),
                retirements: Seq::empty(),
            }),
    {
        let r = Database {
            bindings: Vec::new(),
            outbox: Vec::new(),
            gaps: Vec::new(),
            retirements: Vec::new(),
        };
        proof {
            assert(r@.bindings =~= Seq::empty());
            assert(r@.outbox =~= Seq::empty());
            assert(r@.gaps =~= Seq::empty());
            assert(r@.retirements =~= Seq::empty());
        }
        r
    }

    /// The binding of a session.
    pub fn handoff_binding(&self, session_id: &str) -> (r: Option<HandoffBinding>)
        ensures
            content(r) == binding_for(self@.bindings, session_id@),
    {
        match find_binding(&self.bindings, session_id) {
            Some(b) => Some(b.copy()),
            None => None,
        }
    }

    /// Binds a session. A binding is immutable: a new task takes a fresh
    /// session, so waiting events are never silently retargeted.
    pub fn handoff_bind(&mut self, binding: &HandoffBinding) -> (r: Result<(), StoreError>)
        ensures
            (final(self)@, r) == bound(old(self)@, binding@),
    {
        if !can_bind(binding.session_id.as_str()) || !can_bind(binding.project_id.as_str())
            || !can_bind(binding.client_id.as_str()) || !can_bind(binding.project_path.as_str())
            || !can_bind(binding.task_id.as_str()) || !can_bind(binding.root_fingerprint.as_str()) {
            return Err(StoreError::InvalidBinding);
        }
        if is_fenced(&self.retirements, binding) {
            return Err(StoreError::TaskRetired);
        }
        match find_binding(&self.bindings, binding.session_id.as_str()) {
            Some(existing) => {
                if existing.equals(binding) {
                    return Ok(());
                }
                return Err(StoreError::BindingConflict);
            },
            None => {},
        }
        let ghost bs = self@.bindings;
        let ghost rs = self@.retirements;
        let total: usize = self.bindings.len();
        let mut active: usize = 0;
        let mut i: usize = 0;
        while i < total
            invariant
                bs == views(self.bindings@),
                rs == views(self.retirements@),
                total == self.bindings@.len(),
                i <= total,
                active <= i,
                active == active_bindings(bs, rs, i as nat),
            decreases total - i,
        {
            proof {
                assert(bs[i as int] == self.bindings@[i as int]@);
            }
            if !is_freed(&self.retirements, &self.bindings[i]) {
                active += 1;
            }
            i += 1;
        }
        if total >= MAX_BINDING_HISTORY {
            return Err(StoreError::BindingHistoryFull);
        }
        if active >= MAX_ACTIVE_BINDINGS {
            return Err(StoreError::BindingsFull);
        }
        self.bindings.push(binding.copy());
        proof {
            assert(views(self.bindings@) =~= bs.push(binding@));
        }
        Ok(())
    }
}

} // verus!
