//! Events on their way to a checkpoint: what is accepted, in which order it is
//! delivered, and what is known of it.
use vstd::prelude::*;
use vstd::utf8::*;
use crate::codec::{from_bytes, json_reading, json_text, parsed_value, readable, to_text};
use crate::digest::{digest_of, fingerprint};
use crate::event::{MAX_EVENT_BYTES, MAX_PATHS_PER_EVENT, event_id_of, parse_event_id};
use crate::failure::{content, views};
use crate::json::{Json, Node, entries, nodes, object, record, signed_json, signed_node, text_json};
use crate::markdown::{bytes_of};
use crate::store::{
    BoundView, CaptureGap, Database, DatabaseView, GapView, HandoffBinding, HandoffPendingEvent,
    MAX_OUTBOX_EVENTS, MAX_OUTBOX_PATH_BYTES, MAX_PENDING_BATCH, OutboxRow, PendingView,
    RetirementView, RowView, StoreError, binding_for, has_gap, same_target,
};
use crate::table::{get, lookup, pairs};
use crate::text::{joined, lex_less, listed, names, owned, precedes, same};

verus! {

/// The members that a waiting event may have: facts of the runtime only. Human
/// text belongs in the checkpoint itself.
pub open spec fn outbox_keys() -> Seq<Seq<char>> {
    seq![
        "event_id"@,
        "type"@,
        "source"@,
        "observed_at"@,
        "job_id"@,
        "tool"@,
        "status"@,
        "exit_code"@,
        "success"@,
        "unknown"@,
        "paths"@,
    ]
}

/// Whether a list is one of short paths.
pub open spec fn short_paths(items: Seq<Node>) -> bool {
    items.len() <= MAX_PATHS_PER_EVENT && forall|i: int|
        0 <= i < items.len() ==> ((#[trigger] items[i]).text() matches Some(s) && encode_utf8(
            s,
        ).len() <= MAX_OUTBOX_PATH_BYTES)
}

/// Whether a member of an event is a plain fact.
pub open spec fn fact_check(key: Seq<char>, value: Node) -> Result<(), StoreError> {
    if !outbox_keys().contains(key) {
        Err(StoreError::FieldNotAllowed)
    } else {
        match value {
            Node::Record(_) => Err(StoreError::NestedEvent),
            Node::List(items) => if key == "paths"@ && short_paths(items) {
                Ok(())
            } else {
                Err(StoreError::InvalidPaths)
            },
            _ => Ok(()),
        }
    }
}

/// Whether the first `k` members are plain facts.
pub open spec fn facts_check(fields: Seq<(Seq<char>, Node)>, k: nat) -> Result<(), StoreError>
    decreases k,
{
    if k == 0 || k > fields.len() {
        Ok(())
    } else {
        match facts_check(fields, (k - 1) as nat) {
            Err(e) => Err(e),
            Ok(_) => fact_check(fields[k - 1].0, fields[k - 1].1),
        }
    }
}

/// The id and the text of an acceptable event.
pub open spec fn payload_of(n: Node) -> Result<(Seq<char>, Seq<char>), StoreError> {
    match n {
        Node::Record(fields) => match lookup(fields, "event_id"@) {
            Some(Node::Text(id)) => if event_id_of(Node::Text(id)) is Err {
                Err(StoreError::InvalidEventId)
            } else {
                match facts_check(fields, fields.len()) {
                    Err(e) => Err(e),
                    Ok(_) => match json_text(n) {
                        None => Err(StoreError::UnprintableEvent),
                        Some(t) => if encode_utf8(t).len() > MAX_EVENT_BYTES {
                            Err(StoreError::EventTooLarge)
                        } else {
                            Ok((id, t))
                        },
                    },
                }
            },
            _ => Err(StoreError::MissingEventId),
        },
        _ => Err(StoreError::InvalidEvent),
    }
}

/// The row of an event id.
pub open spec fn row_for(outbox: Seq<RowView>, id: Seq<char>) -> Option<RowView>
    decreases outbox.len(),
{
    if outbox.len() == 0 {
        None
    } else if outbox[0].event_id == id {
        Some(outbox[0])
    } else {
        row_for(outbox.drop_first(), id)
    }
}

/// Putting an event into the outbox.
pub open spec fn enqueued(db: DatabaseView, session: Seq<char>, n: Node, now: i64) -> (
    DatabaseView,
    Result<(), StoreError>,
) {
    match payload_of(n) {
        Err(e) => (db, Err(e)),
        Ok((id, payload)) => match row_for(db.outbox, id) {
            Some(row) => if row.session_id == session && row.payload == payload {
                (db, Ok(()))
            } else {
                (db, Err(StoreError::EventIdConflict))
            },
            None => if binding_for(db.bindings, session) is None {
                (db, Err(StoreError::NotBound))
            } else if db.outbox.len() >= MAX_OUTBOX_EVENTS {
                (db, Err(StoreError::OutboxFull))
            } else {
                (
                    DatabaseView {
                        outbox: db.outbox.push(
                            RowView { event_id: id, session_id: session, payload, created_at: now },
                        ),
                        ..db
                    },
                    Ok(()),
                )
            },
        },
    }
}

fn key_allowed(key: &str) -> (r: bool)
    ensures
        r == outbox_keys().contains(key@),
{
    let keys = vec![
        "event_id",
        "type",
        "source",
        "observed_at",
        "job_id",
        "tool",
        "status",
        "exit_code",
        "success",
        "unknown",
        "paths",
    ];
    proof {
        assert(names(keys@) =~= outbox_keys());
    }
    listed(&keys, key)
}

#[verifier::loop_isolation(false)]
fn paths_are_short(items: &Vec<Json>) -> (r: bool)
    ensures
        r == short_paths(nodes(items@)),
{
    let ghost all = nodes(items@);
    if items.len() > MAX_PATHS_PER_EVENT {
        return false;
    }
    let mut i: usize = 0;
    while i < items.len()
        invariant
            i <= items@.len(),
            forall|j: int|
                0 <= j < i ==> ((#[trigger] all[j]).text() matches Some(s) && encode_utf8(s).len()
                    <= MAX_OUTBOX_PATH_BYTES),
        decreases items@.len() - i,
    {
        proof {
            assert(all[i as int] == items@[i as int]@);
        }
        match items[i].as_str() {
            None => {
                return false;
            },
            Some(s) => if bytes_of(s).len() > MAX_OUTBOX_PATH_BYTES {
                return false;
            },
        }
        i += 1;
    }
    true
}

fn check_fact(key: &str, value: &Json) -> (r: Result<(), StoreError>)
    ensures
        r == fact_check(key@, value@),
{
    if !key_allowed(key) {
        return Err(StoreError::FieldNotAllowed);
    }
    if value.as_object().is_some() {
        return Err(StoreError::NestedEvent);
    }
    match value.as_array() {
        Some(items) => if !(same(key, "paths") && paths_are_short(items)) {
            return Err(StoreError::InvalidPaths);
        },
        None => {},
    }
    Ok(())
}

proof fn lemma_facts_fail(fields: Seq<(Seq<char>, Node)>, k: nat)
    requires
        k <= fields.len(),
        facts_check(fields, k) is Err,
    ensures
        facts_check(fields, fields.len()) == facts_check(fields, k),
    decreases fields.len() - k,
{
    if k < fields.len() {
        lemma_facts_fail(fields, k + 1);
    }
}

#[verifier::loop_isolation(false)]
fn check_facts(fields: &Vec<(String, Json)>) -> (r: Result<(), StoreError>)
    ensures
        r == facts_check(pairs(fields@), pairs(fields@).len()),
{
    let ghost all = pairs(fields@);
    let mut i: usize = 0;
    while i < fields.len()
        invariant
            i <= fields@.len(),
            facts_check(all, i as nat) == Ok::<(), StoreError>(()),
        decreases fields@.len() - i,
    {
        proof {
            assert(all[i as int] == (fields@[i as int].0@, fields@[i as int].1@));
        }
        match check_fact(fields[i].0.as_str(), &fields[i].1) {
            Err(e) => {
                proof {
                    lemma_facts_fail(all, (i + 1) as nat);
                }
                return Err(e);
            },
            Ok(_) => {},
        }
        i += 1;
    }
    Ok(())
}

/// The id and the text of an acceptable event.
pub fn event_payload(event: &Json) -> (r: Result<(String, String), StoreError>)
    ensures
        match r {
            Ok((id, payload)) => payload_of(event@) == Ok::<_, StoreError>((id@, payload@)),
            Err(e) => payload_of(event@) == Err::<(Seq<char>, Seq<char>), _>(e),
        },
        r matches Ok((_, payload)) ==> readable(event@, 100) ==> parsed_value(
            encode_utf8(payload@),
        ) == Some(event@),
{
    let fields = match event.as_object() {
        None => {
            return Err(StoreError::InvalidEvent);
        },
        Some(fields) => fields,
    };
    let id = match get(fields, "event_id") {
        None => {
            return Err(StoreError::MissingEventId);
        },
        Some(value) => match value.as_str() {
            None => {
                return Err(StoreError::MissingEventId);
            },
            Some(_) => match parse_event_id(value) {
                Err(_) => {
                    return Err(StoreError::InvalidEventId);
                },
                Ok(id) => id,
            },
        },
    };
    match check_facts(fields) {
        Err(e) => {
            return Err(e);
        },
        Ok(_) => {},
    }
    match to_text(event) {
        None => Err(StoreError::UnprintableEvent),
        Some(payload) => if bytes_of(payload.as_str()).len() > MAX_EVENT_BYTES {
            Err(StoreError::EventTooLarge)
        } else {
            Ok((id, payload))
        },
    }
}

proof fn lemma_row_skip(rows: Seq<RowView>, id: Seq<char>, i: int)
    requires
        0 <= i < rows.len(),
    ensures
        row_for(rows.skip(i), id) == (if rows[i].event_id == id {
            Some(rows[i])
        } else {
            row_for(rows.skip(i + 1), id)
        }),
{
    assert(rows.skip(i)[0] == rows[i]);
    assert(rows.skip(i).drop_first() =~= rows.skip(i + 1));
}

fn find_row<'a>(outbox: &'a Vec<OutboxRow>, id: &str) -> (r: Option<&'a OutboxRow>)
    ensures
        match r {
            Some(row) => row_for(views(outbox@), id@) == Some(row@),
            None => row_for(views(outbox@), id@) is None,
        },
{
    let ghost rows = views(outbox@);
    let mut i: usize = 0;
    proof {
        assert(rows.skip(0) =~= rows);
    }
    while i < outbox.len()
        invariant
            rows == views(outbox@),
            i <= outbox@.len(),
            row_for(rows, id@) == row_for(rows.skip(i as int), id@),
        decreases outbox@.len() - i,
    {
        proof {
            lemma_row_skip(rows, id@, i as int);
        }
        if same(outbox[i].event_id.as_str(), id) {
            return Some(&outbox[i]);
        }
        i += 1;
    }
    None
}

impl Database {
    /// Puts an event into the outbox. The same event of the same session is
    /// kept once; another event under its id is refused.
    pub fn handoff_enqueue(&mut self, session_id: &str, event: &Json, now: i64) -> (r: Result<
        (),
        StoreError,
    >)
        ensures
            (final(self)@, r) == enqueued(old(self)@, session_id@, event@, now),
            payload_of(event@) matches Ok((_, payload)) ==> readable(event@, 100) ==> parsed_value(
                encode_utf8(payload),
            ) == Some(event@),
    {
        let (id, payload) = match event_payload(event) {
            Err(e) => {
                return Err(e);
            },
            Ok(pair) => pair,
        };
        match find_row(&self.outbox, id.as_str()) {
            Some(row) => {
                if same(row.session_id.as_str(), session_id) && same(
                    row.payload.as_str(),
                    payload.as_str(),
                ) {
                    return Ok(());
                }
                return Err(StoreError::EventIdConflict);
            },
            None => {},
        }
        if self.handoff_binding(session_id).is_none() {
            return Err(StoreError::NotBound);
        }
        let ghost rows = self@.outbox;
        if self.outbox.len() >= MAX_OUTBOX_EVENTS {
            return Err(StoreError::OutboxFull);
        }
        let row = OutboxRow {
            event_id: id,
            session_id: owned(session_id),
            payload,
            created_at: now,
        };
        let ghost added = row@;
        self.outbox.push(row);
        proof {
            assert(views(self.outbox@) =~= rows.push(added));
        }
        Ok(())
    }
}

// ---------------------------------------------------------------------------
// Delivery.
// ---------------------------------------------------------------------------

/// Whether one row is delivered before another.
pub open spec fn sooner(a: RowView, b: RowView) -> bool {
    a.created_at < b.created_at || (a.created_at == b.created_at && lex_less(
        a.event_id,
        b.event_id,
    ))
}

/// A row at its place among rows in the order of delivery.
pub open spec fn queued(s: Seq<RowView>, x: RowView) -> Seq<RowView>
    decreases s.len(),
{
    if s.len() == 0 {
        seq![x]
    } else if sooner(x, s[0]) {
        seq![x] + s
    } else {
        seq![s[0]] + queued(s.drop_first(), x)
    }
}

/// The rows in the order of delivery.
pub open spec fn in_turn(s: Seq<RowView>) -> Seq<RowView>
    decreases s.len(),
{
    if s.len() == 0 {
        Seq::empty()
    } else {
        queued(in_turn(s.drop_last()), s.last())
    }
}

/// The rows of a session among the first `k`.
pub open spec fn session_rows(rows: Seq<RowView>, session: Seq<char>, k: nat) -> Seq<RowView>
    decreases k,
{
    if k == 0 || k > rows.len() {
        Seq::empty()
    } else {
        let rest = session_rows(rows, session, (k - 1) as nat);
        if rows[k - 1].session_id == session {
            rest.push(rows[k - 1])
        } else {
            rest
        }
    }
}

/// Whether a row is delivered to the task.
pub open spec fn for_task(bs: Seq<BoundView>, row: RowView, b: BoundView) -> bool {
    match binding_for(bs, row.session_id) {
        Some(x) => same_target(x, b),
        None => false,
    }
}

/// The rows for the task among the first `k`.
pub open spec fn task_rows(
    bs: Seq<BoundView>,
    rows: Seq<RowView>,
    b: BoundView,
    k: nat,
) -> Seq<RowView>
    decreases k,
{
    if k == 0 || k > rows.len() {
        Seq::empty()
    } else {
        let rest = task_rows(bs, rows, b, (k - 1) as nat);
        if for_task(bs, rows[k - 1], b) {
            rest.push(rows[k - 1])
        } else {
            rest
        }
    }
}

/// The rows of one batch.
pub open spec fn batch(rows: Seq<RowView>) -> Seq<RowView> {
    if rows.len() > MAX_PENDING_BATCH {
        rows.take(MAX_PENDING_BATCH as int)
    } else {
        rows
    }
}

/// The events that the first `k` rows hold.
pub open spec fn opened_rows(rows: Seq<RowView>, k: nat) -> Result<Seq<PendingView>, StoreError>
    decreases k,
{
    if k == 0 || k > rows.len() {
        Ok(Seq::empty())
    } else {
        match opened_rows(rows, (k - 1) as nat) {
            Err(e) => Err(e),
            Ok(rest) => match json_reading(encode_utf8(rows[k - 1].payload)) {
                None => Err(StoreError::MalformedPayload),
                Some(event) => Ok(
                    rest.push(
                        PendingView {
                            session_id: rows[k - 1].session_id,
                            event_id: rows[k - 1].event_id,
                            event,
                        },
                    ),
                ),
            },
        }
    }
}

/// The next events of a session.
pub open spec fn pending(db: DatabaseView, session: Seq<char>) -> Result<
    Seq<PendingView>,
    StoreError,
> {
    let rows = batch(in_turn(session_rows(db.outbox, session, db.outbox.len())));
    opened_rows(rows, rows.len())
}

/// The next events for a task, whichever session they came from.
pub open spec fn pending_for(db: DatabaseView, b: BoundView) -> Result<
    Seq<PendingView>,
    StoreError,
> {
    let rows = batch(in_turn(task_rows(db.bindings, db.outbox, b, db.outbox.len())));
    opened_rows(rows, rows.len())
}

/// The number of waiting events for a project among the first `k`.
pub open spec fn project_rows(
    bs: Seq<BoundView>,
    rows: Seq<RowView>,
    project: Seq<char>,
    path: Seq<char>,
    k: nat,
) -> nat
    decreases k,
{
    if k == 0 || k > rows.len() {
        0
    } else {
        project_rows(bs, rows, project, path, (k - 1) as nat) + match binding_for(
            bs,
            rows[k - 1].session_id,
        ) {
            Some(x) => if x.project_id == project && x.project_path == path {
                1nat
            } else {
                0nat
            },
            None => 0nat,
        }
    }
}

/// The first `k` rows without the acknowledged event.
pub open spec fn acknowledged(
    rows: Seq<RowView>,
    session: Seq<char>,
    id: Seq<char>,
    k: nat,
) -> Seq<RowView>
    decreases k,
{
    if k == 0 || k > rows.len() {
        Seq::empty()
    } else {
        let rest = acknowledged(rows, session, id, (k - 1) as nat);
        if rows[k - 1].session_id == session && rows[k - 1].event_id == id {
            rest
        } else {
            rest.push(rows[k - 1])
        }
    }
}

proof fn lemma_queued_at(s: Seq<RowView>, x: RowView, i: int)
    requires
        0 <= i <= s.len(),
        forall|j: int| 0 <= j < i ==> !sooner(x, #[trigger] s[j]),
        i < s.len() ==> sooner(x, s[i]),
    ensures
        queued(s, x) == s.insert(i, x),
    decreases s.len(),
{
    if s.len() == 0 {
        assert(queued(s, x) =~= s.insert(i, x));
    } else if i == 0 {
        assert(queued(s, x) =~= s.insert(0, x));
    } else {
        assert(!sooner(x, s[0]));
        assert forall|j: int| 0 <= j < i - 1 implies !sooner(x, #[trigger] s.drop_first()[j]) by {
            assert(!sooner(x, s[j + 1]));
        }
        lemma_queued_at(s.drop_first(), x, i - 1);
        assert(queued(s, x) =~= s.insert(i, x));
    }
}

impl OutboxRow {
    fn copy(&self) -> (r: OutboxRow)
        ensures
            r@ == self@,
    {
        OutboxRow {
            event_id: self.event_id.clone(),
            session_id: self.session_id.clone(),
            payload: self.payload.clone(),
            created_at: self.created_at,
        }
    }

    fn is_sooner(&self, other: &OutboxRow) -> (r: bool)
        ensures
            r == sooner(self@, other@),
    {
        self.created_at < other.created_at || (self.created_at == other.created_at && precedes(
            self.event_id.as_str(),
            other.event_id.as_str(),
        ))
    }
}

fn enter_queue(list: &mut Vec<OutboxRow>, x: OutboxRow)
    ensures
        views(final(list)@) == queued(views(old(list)@), x@),
{
    let ghost before = views(list@);
    let ghost item = x@;
    let mut i: usize = 0;
    while i < list.len() && !x.is_sooner(&list[i])
        invariant
            i <= list@.len(),
            list@ == old(list)@,
            forall|j: int| 0 <= j < i ==> !sooner(x@, #[trigger] views(list@)[j]),
        decreases list@.len() - i,
    {
        i += 1;
    }
    proof {
        lemma_queued_at(before, item, i as int);
    }
    list.insert(i, x);
    proof {
        assert(views(list@) =~= before.insert(i as int, item));
    }
}

proof fn lemma_in_turn_push(s: Seq<RowView>, x: RowView)
    ensures
        in_turn(s.push(x)) == queued(in_turn(s), x),
{
    assert(s.push(x).drop_last() =~= s);
}

proof fn lemma_opened_fail(rows: Seq<RowView>, k: nat)
    requires
        k <= rows.len(),
        opened_rows(rows, k) is Err,
    ensures
        opened_rows(rows, rows.len()) == opened_rows(rows, k),
    decreases rows.len() - k,
{
    if k < rows.len() {
        lemma_opened_fail(rows, k + 1);
    }
}

#[verifier::loop_isolation(false)]
fn open_batch(rows: &Vec<OutboxRow>) -> (r: Result<Vec<HandoffPendingEvent>, StoreError>)
    ensures
        ({
            let some = batch(views(rows@));
            match r {
                Ok(v) => opened_rows(some, some.len()) == Ok::<_, StoreError>(views(v@)),
                Err(e) => opened_rows(some, some.len()) == Err::<Seq<PendingView>, _>(e),
            }
        }),
{
    let ghost all = views(rows@);
    let ghost some = batch(all);
    let count: usize = if rows.len() > MAX_PENDING_BATCH {
        MAX_PENDING_BATCH
    } else {
        rows.len()
    };
    let mut out: Vec<HandoffPendingEvent> = Vec::new();
    let mut i: usize = 0;
    proof {
        assert(all.len() == rows@.len());
        assert(some.len() == count);
        assert(views(out@) =~= Seq::<PendingView>::empty());
    }
    while i < count
        invariant
            i <= count,
            opened_rows(some, i as nat) == Ok::<_, StoreError>(views(out@)),
        decreases count - i,
    {
        let ghost prior = views(out@);
        proof {
            assert(some[i as int] == all[i as int]);
            assert(all[i as int] == rows@[i as int]@);
        }
        match from_bytes(bytes_of(rows[i].payload.as_str()).as_slice()) {
            None => {
                proof {
                    lemma_opened_fail(some, (i + 1) as nat);
                }
                return Err(StoreError::MalformedPayload);
            },
            Some(event) => {
                let next = HandoffPendingEvent {
                    session_id: rows[i].session_id.clone(),
                    event_id: rows[i].event_id.clone(),
                    event,
                };
                let ghost shown = next@;
                out.push(next);
                proof {
                    assert(views(out@) =~= prior.push(shown));
                }
            },
        }
        i += 1;
    }
    Ok(out)
}

impl Database {
    /// The next events of a session in the order of delivery.
    #[verifier::loop_isolation(false)]
    pub fn handoff_pending(&self, session_id: &str) -> (r: Result<
        Vec<HandoffPendingEvent>,
        StoreError,
    >)
        ensures
            match r {
                Ok(v) => pending(self@, session_id@) == Ok::<_, StoreError>(views(v@)),
                Err(e) => pending(self@, session_id@) == Err::<Seq<PendingView>, _>(e),
            },
    {
        let ghost rows = self@.outbox;
        let mut list: Vec<OutboxRow> = Vec::new();
        let mut i: usize = 0;
        proof {
            assert(views(list@) =~= Seq::<RowView>::empty());
        }
        while i < self.outbox.len()
            invariant
                i <= self.outbox@.len(),
                views(list@) == in_turn(session_rows(rows, session_id@, i as nat)),
            decreases self.outbox@.len() - i,
        {
            proof {
                assert(rows[i as int] == self.outbox@[i as int]@);
                lemma_in_turn_push(session_rows(rows, session_id@, i as nat), rows[i as int]);
            }
            if same(self.outbox[i].session_id.as_str(), session_id) {
                enter_queue(&mut list, self.outbox[i].copy());
            }
            i += 1;
        }
        open_batch(&list)
    }

    /// The next events for the task of a binding in the order of delivery.
    #[verifier::loop_isolation(false)]
    pub fn handoff_pending_for_task(&self, binding: &HandoffBinding) -> (r: Result<
        Vec<HandoffPendingEvent>,
        StoreError,
    >)
        ensures
            match r {
                Ok(v) => pending_for(self@, binding@) == Ok::<_, StoreError>(views(v@)),
                Err(e) => pending_for(self@, binding@) == Err::<Seq<PendingView>, _>(e),
            },
    {
        let ghost rows = self@.outbox;
        let ghost bs = self@.bindings;
        let mut list: Vec<OutboxRow> = Vec::new();
        let mut i: usize = 0;
        proof {
            assert(views(list@) =~= Seq::<RowView>::empty());
        }
        while i < self.outbox.len()
            invariant
                i <= self.outbox@.len(),
                views(list@) == in_turn(task_rows(bs, rows, binding@, i as nat)),
            decreases self.outbox@.len() - i,
        {
            proof {
                assert(rows[i as int] == self.outbox@[i as int]@);
                lemma_in_turn_push(task_rows(bs, rows, binding@, i as nat), rows[i as int]);
            }
            let wanted = match self.handoff_binding(self.outbox[i].session_id.as_str()) {
                Some(x) => x.shares_target(binding),
                None => false,
            };
            if wanted {
                enter_queue(&mut list, self.outbox[i].copy());
            }
            i += 1;
        }
        open_batch(&list)
    }

    /// The number of events that wait for a project.
    #[verifier::loop_isolation(false)]
    pub fn handoff_pending_count(&self, project_id: &str, project_path: &str) -> (r: u64)
        ensures
            r == project_rows(
                self@.bindings,
                self@.outbox,
                project_id@,
                project_path@,
                self@.outbox.len(),
            ),
    {
        let ghost rows = self@.outbox;
        let ghost bs = self@.bindings;
        let mut count: usize = 0;
        let mut i: usize = 0;
        while i < self.outbox.len()
            invariant
                i <= self.outbox@.len(),
                count <= i,
                count == project_rows(bs, rows, project_id@, project_path@, i as nat),
            decreases self.outbox@.len() - i,
        {
            proof {
                assert(rows[i as int] == self.outbox@[i as int]@);
            }
            match self.handoff_binding(self.outbox[i].session_id.as_str()) {
                Some(x) => if same(x.project_id.as_str(), project_id) && same(
                    x.project_path.as_str(),
                    project_path,
                ) {
                    count += 1;
                },
                None => {},
            }
            i += 1;
        }
        count as u64
    }

    /// Removes an event that its own session saved.
    pub fn handoff_ack(&mut self, session_id: &str, event_id: &str)
        ensures
            final(self)@ == (DatabaseView {
                outbox: acknowledged(
                    old(self)@.outbox,
                    session_id@,
                    event_id@,
                    old(self)@.outbox.len(),
                ),
                ..old(self)@
            }),
    {
        let ghost rows = self@.outbox;
        let mut kept: Vec<OutboxRow> = Vec::new();
        let mut i: usize = 0;
        let count: usize = self.outbox.len();
        proof {
            assert(views(kept@) =~= Seq::<RowView>::empty());
        }
        while i < count
            invariant
                rows == views(self.outbox@),
                self@ == old(self)@,
                count == self.outbox@.len(),
                i <= count,
                views(kept@) == acknowledged(rows, session_id@, event_id@, i as nat),
            decreases count - i,
        {
            let ghost prior = views(kept@);
            proof {
                assert(rows[i as int] == self.outbox@[i as int]@);
            }
            if !(same(self.outbox[i].session_id.as_str(), session_id) && same(
                self.outbox[i].event_id.as_str(),
                event_id,
            )) {
                kept.push(self.outbox[i].copy());
                proof {
                    assert(views(kept@) =~= prior.push(rows[i as int]));
                }
            }
            i += 1;
        }
        self.outbox = kept;
    }
}

// ---------------------------------------------------------------------------
// Terminal facts and gaps.
// ---------------------------------------------------------------------------

/// What a receipt says of a job that ended.
#[derive(Debug, PartialEq, Eq)]
pub struct TerminalReceipt {
    pub client_id: String,
    pub session_id: Option<String>,
    pub project_id: Option<String>,
    pub project_cwd: Option<String>,
    pub job_id: String,
    pub update_seq: u64,
    pub status: String,
    pub exit_code: Option<i64>,
    pub observed_at: i64,
}

pub struct ReceiptView {
    pub client_id: Seq<char>,
    pub session_id: Option<Seq<char>>,
    pub project_id: Option<Seq<char>>,
    pub project_cwd: Option<Seq<char>>,
    pub job_id: Seq<char>,
    pub update_seq: u64,
    pub status: Seq<char>,
    pub exit_code: Option<i64>,
    pub observed_at: i64,
}

impl View for TerminalReceipt {
    type V = ReceiptView;

    open spec fn view(&self) -> ReceiptView {
        ReceiptView {
            client_id: self.client_id@,
            session_id: content(self.session_id),
            project_id: content(self.project_id),
            project_cwd: content(self.project_cwd),
            job_id: self.job_id@,
            update_seq: self.update_seq,
            status: self.status@,
            exit_code: self.exit_code,
            observed_at: self.observed_at,
        }
    }
}

/// The event id of a job that ended.
pub open spec fn terminal_id(job_id: Seq<char>) -> Seq<char> {
    "job-terminal-"@ + digest_of(encode_utf8(job_id))
}

/// The fact that a job ended.
pub open spec fn terminal_node(r: ReceiptView) -> Node {
    let base = seq![
        ("event_id"@, Node::Text(terminal_id(r.job_id))),
        ("type"@, Node::Text("job_terminal"@)),
        ("source"@, Node::Text("webcodex"@)),
        ("job_id"@, Node::Text(r.job_id)),
        ("job_update_seq"@, Node::Unsigned(r.update_seq)),
        ("status"@, Node::Text(r.status)),
        ("observed_at"@, signed_node(r.observed_at)),
    ];
    match r.exit_code {
        Some(code) => record(base.push(("exit_code"@, signed_node(code)))),
        None => record(base),
    }
}

/// Whether the receipt is one of the bound project root. A "." stands for the
/// registered root; the delivery checks the path and the fingerprint again.
pub open spec fn at_root(b: BoundView, r: ReceiptView) -> bool {
    b.client_id == r.client_id && r.project_id == Some(b.project_id) && (r.project_cwd == Some(
        "."@,
    ) || r.project_cwd == Some(b.project_path))
}

/// A gap that stays: a session has at most one.
pub open spec fn latched(gaps: Seq<GapView>, session: Seq<char>, reason: Seq<char>) -> Seq<
    GapView,
> {
    if has_gap(gaps, session) {
        gaps
    } else {
        gaps.push(GapView { session_id: session, reason })
    }
}

/// The tables after the end of a job was captured. A full outbox leaves a gap,
/// so that neither condition can pass for a complete delivery.
pub open spec fn captured(db: DatabaseView, r: ReceiptView) -> (
    DatabaseView,
    Result<(), StoreError>,
) {
    match r.session_id {
        None => (db, Ok(())),
        Some(session) => match binding_for(db.bindings, session) {
            None => (db, Ok(())),
            Some(b) => if !at_root(b, r) {
                (db, Ok(()))
            } else if db.outbox.len() >= MAX_OUTBOX_EVENTS {
                (
                    DatabaseView {
                        gaps: latched(db.gaps, session, "outbox_capacity"@),
                        ..db
                    },
                    Ok(()),
                )
            } else {
                match json_text(terminal_node(r)) {
                    None => (db, Err(StoreError::UnprintableEvent)),
                    Some(payload) => if row_for(db.outbox, terminal_id(r.job_id)) is Some {
                        (db, Ok(()))
                    } else {
                        (
                            DatabaseView {
                                outbox: db.outbox.push(
                                    RowView {
                                        event_id: terminal_id(r.job_id),
                                        session_id: session,
                                        payload,
                                        created_at: r.observed_at,
                                    },
                                ),
                                ..db
                            },
                            Ok(()),
                        )
                    },
                }
            },
        },
    }
}

impl TerminalReceipt {
    fn event(&self) -> (r: Json)
        ensures
            r@ == terminal_node(self@),
    {
        let id = joined(
            "job-terminal-",
            fingerprint(bytes_of(self.job_id.as_str()).as_slice()).as_str(),
        );
        let mut members = vec![
            ("event_id", text_json(id.as_str())),
            ("type", text_json("job_terminal")),
            ("source", text_json("webcodex")),
            ("job_id", text_json(self.job_id.as_str())),
            ("job_update_seq", Json::Unsigned(self.update_seq)),
            ("status", text_json(self.status.as_str())),
            ("observed_at", signed_json(self.observed_at)),
        ];
        let ghost base = seq![
            ("event_id"@, Node::Text(terminal_id(self@.job_id))),
            ("type"@, Node::Text("job_terminal"@)),
            ("source"@, Node::Text("webcodex"@)),
            ("job_id"@, Node::Text(self@.job_id)),
            ("job_update_seq"@, Node::Unsigned(self@.update_seq)),
            ("status"@, Node::Text(self@.status)),
            ("observed_at"@, signed_node(self@.observed_at)),
        ];
        proof {
            assert(entries(members@) =~= base);
        }
        match self.exit_code {
            Some(code) => {
                members.push(("exit_code", signed_json(code)));
                proof {
                    assert(entries(members@) =~= base.push(("exit_code"@, signed_node(code))));
                }
            },
            None => {},
        }
        object(members)
    }
}

impl Database {
    fn latch_gap(&mut self, session: &str, reason: &str)
        ensures
            final(self)@ == (DatabaseView {
                gaps: latched(old(self)@.gaps, session@, reason@),
                ..old(self)@
            }),
    {
        let ghost before = self@.gaps;
        let mut i: usize = 0;
        while i < self.gaps.len()
            invariant
                self@ == old(self)@,
                before == views(self.gaps@),
                i <= self.gaps@.len(),
                forall|j: int| 0 <= j < i ==> (#[trigger] before[j]).session_id != session@,
            decreases self.gaps@.len() - i,
        {
            if same(self.gaps[i].session_id.as_str(), session) {
                proof {
                    assert(before[i as int].session_id == session@);
                }
                return;
            }
            i += 1;
        }
        let gap = CaptureGap { session_id: owned(session), reason: owned(reason) };
        let ghost added = gap@;
        self.gaps.push(gap);
        proof {
            assert(views(self.gaps@) =~= before.push(added));
        }
    }

    /// Records the end of a job for the session that started it.
    pub fn capture_terminal(&mut self, receipt: &TerminalReceipt) -> (r: Result<(), StoreError>)
        ensures
            (final(self)@, r) == captured(old(self)@, receipt@),
    {
        let session = match &receipt.session_id {
            None => {
                return Ok(());
            },
            Some(session) => session.as_str(),
        };
        let binding = match self.handoff_binding(session) {
            None => {
                return Ok(());
            },
            Some(binding) => binding,
        };
        let project = match &receipt.project_id {
            Some(p) => same(p.as_str(), binding.project_id.as_str()),
            None => false,
        };
        let place = match &receipt.project_cwd {
            Some(c) => same(c.as_str(), ".") || same(c.as_str(), binding.project_path.as_str()),
            None => false,
        };
        if !same(binding.client_id.as_str(), receipt.client_id.as_str()) || !project || !place {
            return Ok(());
        }
        if self.outbox.len() >= MAX_OUTBOX_EVENTS {
            self.latch_gap(session, "outbox_capacity");
            return Ok(());
        }
        let ghost rows = self@.outbox;
        let id = joined(
            "job-terminal-",
            fingerprint(bytes_of(receipt.job_id.as_str()).as_slice()).as_str(),
        );
        let payload = match to_text(&receipt.event()) {
            None => {
                return Err(StoreError::UnprintableEvent);
            },
            Some(payload) => payload,
        };
        if find_row(&self.outbox, id.as_str()).is_some() {
            return Ok(());
        }
        let row = OutboxRow {
            event_id: id,
            session_id: owned(session),
            payload,
            created_at: receipt.observed_at,
        };
        let ghost added = row@;
        self.outbox.push(row);
        proof {
            assert(views(self.outbox@) =~= rows.push(added));
        }
        Ok(())
    }

    /// Notes that an event of a bound session could not be recorded.
    pub fn handoff_capture_gap(&mut self, session: &str)
        ensures
            final(self)@ == (if binding_for(old(self)@.bindings, session@) is Some {
                DatabaseView {
                    gaps: latched(old(self)@.gaps, session@, "capture_failed"@),
                    ..old(self)@
                }
            } else {
                old(self)@
            }),
    {
        if self.handoff_binding(session).is_some() {
            self.latch_gap(session, "capture_failed");
        }
    }
}

// ---------------------------------------------------------------------------
// What is known of the deliveries.
// ---------------------------------------------------------------------------

/// What is known of the deliveries to a project, or to one of its tasks. No
/// pending event is never a guarantee of full coverage.
#[derive(Clone, Copy, Debug, PartialEq, Eq, Structural)]
pub struct SourceStatus {
    pub bindings: u64,
    pub pending: u64,
    pub capture_gaps: u64,
    pub retiring: u64,
}

pub open spec fn source_state(s: SourceStatus) -> Seq<char> {
    if s.capture_gaps > 0 {
        "incomplete"@
    } else if s.pending > 0 {
        "pending"@
    } else if s.retiring > 0 {
        "retiring"@
    } else if s.bindings == 0 {
        "unbound"@
    } else {
        "caught_up"@
    }
}

pub open spec fn source_node(s: SourceStatus) -> Node {
    record(
        seq![
            ("bindings"@, Node::Unsigned(s.bindings)),
            ("pending"@, Node::Unsigned(s.pending)),
            ("capture_gaps"@, Node::Unsigned(s.capture_gaps)),
            ("retiring"@, Node::Unsigned(s.retiring)),
            ("status"@, Node::Text(source_state(s))),
            ("coverage"@, Node::Text("known_recorded_events_only"@)),
        ],
    )
}

impl SourceStatus {
    pub fn status(&self) -> (r: &'static str)
        ensures
            r@ == source_state(*self),
    {
        if self.capture_gaps > 0 {
            "incomplete"
        } else if self.pending > 0 {
            "pending"
        } else if self.retiring > 0 {
            "retiring"
        } else if self.bindings == 0 {
            "unbound"
        } else {
            "caught_up"
        }
    }

    pub fn to_json(&self) -> (r: Json)
        ensures
            r@ == source_node(*self),
    {
        let members = vec![
            ("bindings", Json::Unsigned(self.bindings)),
            ("pending", Json::Unsigned(self.pending)),
            ("capture_gaps", Json::Unsigned(self.capture_gaps)),
            ("retiring", Json::Unsigned(self.retiring)),
            ("status", text_json(self.status())),
            ("coverage", text_json("known_recorded_events_only")),
        ];
        proof {
            assert(entries(members@) =~= seq![
                ("bindings"@, Node::Unsigned(self.bindings)),
                ("pending"@, Node::Unsigned(self.pending)),
                ("capture_gaps"@, Node::Unsigned(self.capture_gaps)),
                ("retiring"@, Node::Unsigned(self.retiring)),
                ("status"@, Node::Text(source_state(*self))),
                ("coverage"@, Node::Text("known_recorded_events_only"@)),
            ]);
        }
        object(members)
    }
}

/// What a status is asked of: a project at a path, and where given one task
/// and one file identity.
pub struct ScopeView {
    pub project: Seq<char>,
    pub path: Seq<char>,
    pub task: Option<Seq<char>>,
    pub fingerprint: Option<Seq<char>>,
}

pub open spec fn in_scope(
    s: ScopeView,
    project: Seq<char>,
    path: Seq<char>,
    task: Seq<char>,
    fingerprint: Seq<char>,
) -> bool {
    project == s.project && path == s.path && (s.task is None || s.task == Some(task)) && (
    s.fingerprint is None || s.fingerprint == Some(fingerprint))
}

pub open spec fn binding_in_scope(s: ScopeView, b: BoundView) -> bool {
    in_scope(s, b.project_id, b.project_path, b.task_id, b.root_fingerprint)
}

/// The number of bindings in the scope among the first `k`.
pub open spec fn scope_bindings(bs: Seq<BoundView>, s: ScopeView, k: nat) -> nat
    decreases k,
{
    if k == 0 || k > bs.len() {
        0
    } else {
        scope_bindings(bs, s, (k - 1) as nat) + if binding_in_scope(s, bs[k - 1]) {
            1nat
        } else {
            0nat
        }
    }
}

/// The number of rows of the first `k` bindings in the scope.
pub open spec fn scope_rows(db: DatabaseView, s: ScopeView, k: nat) -> nat
    decreases k,
{
    if k == 0 || k > db.bindings.len() {
        0
    } else {
        scope_rows(db, s, (k - 1) as nat) + if binding_in_scope(s, db.bindings[k - 1]) {
            session_rows(db.outbox, db.bindings[k - 1].session_id, db.outbox.len()).len()
        } else {
            0nat
        }
    }
}

/// The number of gaps of the first `k` bindings in the scope.
pub open spec fn scope_gaps(db: DatabaseView, s: ScopeView, k: nat) -> nat
    decreases k,
{
    if k == 0 || k > db.bindings.len() {
        0
    } else {
        scope_gaps(db, s, (k - 1) as nat) + if binding_in_scope(s, db.bindings[k - 1]) && has_gap(
            db.gaps,
            db.bindings[k - 1].session_id,
        ) {
            1nat
        } else {
            0nat
        }
    }
}

/// The number of frozen tasks in the scope among the first `k` retirements.
pub open spec fn scope_retirements(rs: Seq<RetirementView>, s: ScopeView, k: nat) -> nat
    decreases k,
{
    if k == 0 || k > rs.len() {
        0
    } else {
        scope_retirements(rs, s, (k - 1) as nat) + if !rs[k - 1].retired && in_scope(
            s,
            rs[k - 1].project_id,
            rs[k - 1].project_path,
            rs[k - 1].task_id,
            rs[k - 1].root_fingerprint,
        ) {
            1nat
        } else {
            0nat
        }
    }
}

fn fits(wanted: Option<&str>, found: &str) -> (r: bool)
    ensures
        r == (wanted is None || wanted->0@ == found@),
{
    match wanted {
        Some(w) => same(w, found),
        None => true,
    }
}

/// The view of an optional text.
pub open spec fn optional_text(o: Option<&str>) -> Option<Seq<char>> {
    match o {
        Some(s) => Some(s@),
        None => None,
    }
}

proof fn lemma_scope_rows_grow(db: DatabaseView, s: ScopeView, k: nat)
    requires
        k <= db.bindings.len(),
    ensures
        scope_rows(db, s, k) <= scope_rows(db, s, db.bindings.len()),
    decreases db.bindings.len() - k,
{
    if k < db.bindings.len() {
        lemma_scope_rows_grow(db, s, k + 1);
    }
}

impl Database {
    #[verifier::loop_isolation(false)]
    fn rows_of(&self, session: &str) -> (r: usize)
        ensures
            r == session_rows(self@.outbox, session@, self@.outbox.len()).len(),
    {
        let ghost rows = self@.outbox;
        let mut count: usize = 0;
        let mut i: usize = 0;
        while i < self.outbox.len()
            invariant
                i <= self.outbox@.len(),
                count <= i,
                count == session_rows(rows, session@, i as nat).len(),
            decreases self.outbox@.len() - i,
        {
            proof {
                assert(rows[i as int] == self.outbox@[i as int]@);
            }
            if same(self.outbox[i].session_id.as_str(), session) {
                count += 1;
            }
            i += 1;
        }
        count
    }

    /// What is known of the deliveries to exactly the file identity that an
    /// authorized caller read. A sum that leaves the range of the database's
    /// integers is an error.
    #[verifier::loop_isolation(false)]
    pub fn handoff_source_status(
        &self,
        project: &str,
        path: &str,
        task: Option<&str>,
        fingerprint: Option<&str>,
    ) -> (r: Result<SourceStatus, StoreError>)
        ensures
            ({
                let s = ScopeView {
                    project: project@,
                    path: path@,
                    task: optional_text(task),
                    fingerprint: optional_text(fingerprint),
                };
                let n = self@.bindings.len();
                match r {
                    Ok(v) => v.bindings == scope_bindings(self@.bindings, s, n) && v.pending
                        == scope_rows(self@, s, n) && v.pending <= i64::MAX && v.capture_gaps == scope_gaps(self@, s, n)
                        && v.retiring == scope_retirements(
                        self@.retirements,
                        s,
                        self@.retirements.len(),
                    ),
                    Err(e) => e == StoreError::CountOverflow && scope_rows(self@, s, n) > i64::MAX,
                }
            }),
    {
        let ghost s = ScopeView {
            project: project@,
            path: path@,
            task: optional_text(task),
            fingerprint: optional_text(fingerprint),
        };
        let mut bindings: usize = 0;
        let mut gaps: usize = 0;
        let mut waiting: u64 = 0;
        let mut i: usize = 0;
        while i < self.bindings.len()
            invariant
                i <= self.bindings@.len(),
                bindings <= i,
                gaps <= i,
                bindings == scope_bindings(self@.bindings, s, i as nat),
                gaps == scope_gaps(self@, s, i as nat),
                waiting == scope_rows(self@, s, i as nat),
                waiting <= i64::MAX,
            decreases self.bindings@.len() - i,
        {
            let b = &self.bindings[i];
            proof {
                assert(self@.bindings[i as int] == b@);
            }
            if same(b.project_id.as_str(), project) && same(b.project_path.as_str(), path) && fits(
                task,
                b.task_id.as_str(),
            ) && fits(fingerprint, b.root_fingerprint.as_str()) {
                bindings += 1;
                let more: usize = self.rows_of(b.session_id.as_str());
                if more as u64 > i64::MAX as u64 - waiting {
                    proof {
                        lemma_scope_rows_grow(self@, s, (i + 1) as nat);
                    }
                    return Err(StoreError::CountOverflow);
                }
                waiting += more as u64;
                let mut j: usize = 0;
                let mut lost = false;
                while j < self.gaps.len()
                    invariant
                        j <= self.gaps@.len(),
                        lost == exists|m: int|
                            0 <= m < j && (#[trigger] self@.gaps[m]).session_id == b@.session_id,
                    decreases self.gaps@.len() - j,
                {
                    proof {
                        assert(self@.gaps[j as int] == self.gaps@[j as int]@);
                    }
                    if same(self.gaps[j].session_id.as_str(), b.session_id.as_str()) {
                        lost = true;
                    }
                    j += 1;
                }
                if lost {
                    gaps += 1;
                }
            }
            i += 1;
        }
        let mut retiring: usize = 0;
        let mut k: usize = 0;
        while k < self.retirements.len()
            invariant
                k <= self.retirements@.len(),
                retiring <= k,
                retiring == scope_retirements(self@.retirements, s, k as nat),
            decreases self.retirements@.len() - k,
        {
            let row = &self.retirements[k];
            proof {
                assert(self@.retirements[k as int] == row@);
            }
            if !row.retired && same(row.project_id.as_str(), project) && same(
                row.project_path.as_str(),
                path,
            ) && fits(task, row.task_id.as_str()) && fits(
                fingerprint,
                row.root_fingerprint.as_str(),
            ) {
                retiring += 1;
            }
            k += 1;
        }
        Ok(
            SourceStatus {
                bindings: bindings as u64,
                pending: waiting,
                capture_gaps: gaps as u64,
                retiring: retiring as u64,
            },
        )
    }
}

} // verus!
