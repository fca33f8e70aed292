//! What the delivery tables promise over several requests.
use vstd::prelude::*;
use vstd::utf8::*;
use crate::codec::{json_reading, lemma_tidy_arranged, parsed_value, tidy};
use crate::json::{Node};
use crate::outbox::{
    ReceiptView, ScopeView, SourceStatus, acknowledged, at_root, batch, binding_in_scope,
    captured, enqueued, for_task, in_turn, latched, opened_rows, payload_of, pending, pending_for,
    queued, row_for, scope_gaps, scope_rows, session_rows, sooner, source_state, task_rows,
    terminal_id,
};
use crate::store::{
    BoundView, DatabaseView, MAX_ACTIVE_BINDINGS, MAX_BINDING_HISTORY, MAX_OUTBOX_EVENTS,
    MAX_PENDING_BATCH, MAX_RETIREMENTS, PendingView, RetirementView, RowView, StoreError,
    active_bindings, bindable, binding_for, bound, cancelled, confirmed, fenced, freed, has_event,
    has_gap, retired, retirement_count, retirement_of, retires, same_target, unresolved,
};
use crate::text::{lemma_lex_irreflexive, lemma_lex_transitive};

verus! {

proof fn lemma_binding_push(bs: Seq<BoundView>, b: BoundView, session: Seq<char>)
    ensures
        binding_for(bs.push(b), session) == (match binding_for(bs, session) {
            Some(x) => Some(x),
            None => if b.session_id == session {
                Some(b)
            } else {
                None
            },
        }),
    decreases bs.len(),
{
    if bs.len() == 0 {
        assert(bs.push(b).drop_first() =~= Seq::<BoundView>::empty());
        reveal_with_fuel(binding_for, 2);
    } else {
        assert(bs.push(b)[0] == bs[0]);
        assert(bs.push(b).drop_first() =~= bs.drop_first().push(b));
        lemma_binding_push(bs.drop_first(), b, session);
    }
}

proof fn lemma_row_push(rows: Seq<RowView>, x: RowView, id: Seq<char>)
    ensures
        row_for(rows.push(x), id) == (match row_for(rows, id) {
            Some(r) => Some(r),
            None => if x.event_id == id {
                Some(x)
            } else {
                None
            },
        }),
    decreases rows.len(),
{
    if rows.len() == 0 {
        assert(rows.push(x).drop_first() =~= Seq::<RowView>::empty());
        reveal_with_fuel(row_for, 2);
    } else {
        assert(rows.push(x)[0] == rows[0]);
        assert(rows.push(x).drop_first() =~= rows.drop_first().push(x));
        lemma_row_push(rows.drop_first(), x, id);
    }
}

proof fn lemma_binding_absent(bs: Seq<BoundView>, session: Seq<char>, i: int)
    requires
        binding_for(bs, session) is None,
        0 <= i < bs.len(),
    ensures
        bs[i].session_id != session,
    decreases bs.len(),
{
    if i > 0 {
        lemma_binding_absent(bs.drop_first(), session, i - 1);
    }
}

proof fn lemma_row_absent(rows: Seq<RowView>, id: Seq<char>, i: int)
    requires
        row_for(rows, id) is None,
        0 <= i < rows.len(),
    ensures
        rows[i].event_id != id,
    decreases rows.len(),
{
    if i > 0 {
        lemma_row_absent(rows.drop_first(), id, i - 1);
    }
}

proof fn lemma_row_present(rows: Seq<RowView>, id: Seq<char>) -> (i: int)
    requires
        row_for(rows, id) is Some,
    ensures
        0 <= i < rows.len(),
        rows[i] == row_for(rows, id)->0,
        rows[i].event_id == id,
    decreases rows.len(),
{
    if rows[0].event_id == id {
        0
    } else {
        1 + lemma_row_present(rows.drop_first(), id)
    }
}

// ---------------------------------------------------------------------------
// Bindings.
// ---------------------------------------------------------------------------

/// A binding is immutable: no request to bind changes that of a session.
pub proof fn law_binding_is_immutable(db: DatabaseView, b: BoundView, session: Seq<char>)
    requires
        binding_for(db.bindings, session) is Some,
    ensures
        binding_for(bound(db, b).0.bindings, session) == binding_for(db.bindings, session),
{
    lemma_binding_push(db.bindings, b, session);
}

/// A session that was bound has exactly the binding that was asked for.
pub proof fn law_bound_is_found(db: DatabaseView, b: BoundView)
    requires
        bound(db, b).1 is Ok,
    ensures
        binding_for(bound(db, b).0.bindings, b.session_id) == Some(b),
{
    lemma_binding_push(db.bindings, b, b.session_id);
}

/// No other request changes a binding: events, captured facts and retirements
/// leave them all as they were.
pub proof fn law_bindings_are_kept(
    db: DatabaseView,
    session: Seq<char>,
    n: Node,
    now: i64,
    receipt: ReceiptView,
    b: BoundView,
    finish: bool,
)
    ensures
        enqueued(db, session, n, now).0.bindings == db.bindings,
        captured(db, receipt).0.bindings == db.bindings,
        retired(db, b, finish).0.bindings == db.bindings,
{
}

/// A request that is refused changes nothing.
pub proof fn law_refusals_change_nothing(
    db: DatabaseView,
    session: Seq<char>,
    n: Node,
    now: i64,
    receipt: ReceiptView,
    b: BoundView,
    finish: bool,
)
    ensures
        bound(db, b).1 is Err ==> bound(db, b).0 == db,
        enqueued(db, session, n, now).1 is Err ==> enqueued(db, session, n, now).0 == db,
        captured(db, receipt).1 is Err ==> captured(db, receipt).0 == db,
        retired(db, b, finish).1 is Err ==> retired(db, b, finish).0 == db,
{
}

// ---------------------------------------------------------------------------
// Events.
// ---------------------------------------------------------------------------

/// An event that was put into the outbox has its row, and putting it there
/// again, at whatever time, changes nothing.
pub proof fn law_repeated_event_is_kept_once(
    db: DatabaseView,
    session: Seq<char>,
    n: Node,
    now: i64,
    later: i64,
)
    requires
        enqueued(db, session, n, now).1 is Ok,
    ensures
        ({
            let after = enqueued(db, session, n, now).0;
            let (id, payload) = payload_of(n)->Ok_0;
            &&& row_for(after.outbox, id) matches Some(row) && row.session_id == session
                && row.payload == payload
            &&& enqueued(after, session, n, later) == (after, Ok::<(), StoreError>(()))
        }),
{
    let (id, payload) = payload_of(n)->Ok_0;
    lemma_row_push(
        db.outbox,
        RowView { event_id: id, session_id: session, payload, created_at: now },
        id,
    );
}

/// Another event under a known id, or the same one of another session, is
/// refused and changes nothing.
pub proof fn law_changed_event_is_refused(
    db: DatabaseView,
    session: Seq<char>,
    n: Node,
    now: i64,
)
    requires
        payload_of(n) is Ok,
        row_for(db.outbox, payload_of(n)->Ok_0.0) matches Some(row) && (row.session_id != session
            || row.payload != payload_of(n)->Ok_0.1),
    ensures
        enqueued(db, session, n, now) == (db, Err::<(), StoreError>(StoreError::EventIdConflict)),
{
}

/// A session without a binding delivers nothing.
pub proof fn law_unbound_session_is_refused(
    db: DatabaseView,
    session: Seq<char>,
    n: Node,
    now: i64,
)
    requires
        binding_for(db.bindings, session) is None,
        payload_of(n) is Ok ==> row_for(db.outbox, payload_of(n)->Ok_0.0) is None,
    ensures
        enqueued(db, session, n, now).0 == db,
        enqueued(db, session, n, now).1 is Err,
{
}

proof fn lemma_session_rows_hold(rows: Seq<RowView>, session: Seq<char>, k: nat, i: int) -> (j: int)
    requires
        0 <= i < k <= rows.len(),
        rows[i].session_id == session,
    ensures
        0 <= j < session_rows(rows, session, k).len(),
        session_rows(rows, session, k)[j] == rows[i],
    decreases k,
{
    if i == k - 1 {
        session_rows(rows, session, k).len() - 1
    } else {
        lemma_session_rows_hold(rows, session, (k - 1) as nat, i)
    }
}

proof fn lemma_queued_holds(s: Seq<RowView>, x: RowView)
    ensures
        queued(s, x).len() == s.len() + 1,
        queued(s, x).contains(x),
        forall|y: RowView| s.contains(y) ==> #[trigger] queued(s, x).contains(y),
        forall|y: RowView| #[trigger] queued(s, x).contains(y) ==> y == x || s.contains(y),
        queued(s, x).to_multiset() == s.to_multiset().insert(x),
    decreases s.len(),
{
    broadcast use vstd::seq_lib::group_to_multiset_ensures;

    let q = queued(s, x);
    if s.len() == 0 {
        assert(q[0] == x);
        assert(s =~= Seq::<RowView>::empty());
        assert(q =~= s.push(x));
    } else if sooner(x, s[0]) {
        assert(q[0] == x);
        assert forall|y: RowView| s.contains(y) implies #[trigger] q.contains(y) by {
            let i = choose|i: int| 0 <= i < s.len() && s[i] == y;
            assert(q[i + 1] == y);
        }
        assert forall|y: RowView| #[trigger] q.contains(y) implies y == x || s.contains(y) by {
            let i = choose|i: int| 0 <= i < q.len() && q[i] == y;
            if i > 0 {
                assert(s[i - 1] == y);
            }
        }
        assert(q =~= s.insert(0, x));
        vstd::seq_lib::lemma_multiset_commutative(seq![x], s);
        assert(seq![x] =~= Seq::<RowView>::empty().push(x));
        assert(q.to_multiset() =~= s.to_multiset().insert(x));
    } else {
        let t = s.drop_first();
        let r = queued(t, x);
        lemma_queued_holds(t, x);
        assert(q =~= seq![s[0]] + r);
        assert forall|y: RowView| s.contains(y) implies #[trigger] q.contains(y) by {
            let i = choose|i: int| 0 <= i < s.len() && s[i] == y;
            if i == 0 {
                assert(q[0] == y);
            } else {
                assert(t[i - 1] == y);
                assert(r.contains(y));
                let j = choose|j: int| 0 <= j < r.len() && r[j] == y;
                assert(q[j + 1] == y);
            }
        }
        assert forall|y: RowView| #[trigger] q.contains(y) implies y == x || s.contains(y) by {
            let i = choose|i: int| 0 <= i < q.len() && q[i] == y;
            if i == 0 {
                assert(s[0] == y);
            } else {
                assert(r[i - 1] == y);
                assert(r.contains(y));
                if y != x {
                    let j = choose|j: int| 0 <= j < t.len() && t[j] == y;
                    assert(s[j + 1] == y);
                }
            }
        }
        assert(r.contains(x));
        let j = choose|j: int| 0 <= j < r.len() && r[j] == x;
        assert(q[j + 1] == x);
        vstd::seq_lib::lemma_multiset_commutative(seq![s[0]], r);
        vstd::seq_lib::lemma_multiset_commutative(seq![s[0]], t);
        assert(seq![s[0]] + t =~= s);
        assert(q.to_multiset() =~= s.to_multiset().insert(x));
    }
}

/// The rows in the order of delivery are the rows.
pub proof fn law_delivery_loses_nothing(s: Seq<RowView>)
    ensures
        in_turn(s).to_multiset() == s.to_multiset(),
        in_turn(s).len() == s.len(),
        forall|y: RowView| #[trigger] in_turn(s).contains(y) <==> s.contains(y),
    decreases s.len(),
{
    broadcast use vstd::seq_lib::group_to_multiset_ensures;

    if s.len() == 0 {
        assert(s =~= Seq::<RowView>::empty());
    } else {
        let t = s.drop_last();
        let x = s.last();
        law_delivery_loses_nothing(t);
        lemma_queued_holds(in_turn(t), x);
        assert(t.push(x) =~= s);
        assert forall|y: RowView| #[trigger] in_turn(s).contains(y) <==> s.contains(y) by {
            if s.contains(y) {
                let i = choose|i: int| 0 <= i < s.len() && s[i] == y;
                if i < t.len() {
                    assert(t[i] == y);
                    assert(t.contains(y));
                    assert(in_turn(t).contains(y));
                }
            }
            if in_turn(s).contains(y) && y != x {
                assert(in_turn(t).contains(y));
                let i = choose|i: int| 0 <= i < t.len() && t[i] == y;
                assert(s[i] == y);
            }
            if y == x {
                assert(s[s.len() - 1] == x);
            }
        }
    }
}

proof fn lemma_sooner_total(a: RowView, b: RowView)
    ensures
        sooner(a, b) ==> !sooner(b, a),
{
    if sooner(a, b) && sooner(b, a) {
        lemma_lex_transitive(a.event_id, b.event_id, a.event_id);
        lemma_lex_irreflexive(a.event_id);
    }
}

proof fn lemma_sooner_through(a: RowView, b: RowView, c: RowView)
    requires
        sooner(a, b),
        !sooner(c, b),
    ensures
        !sooner(c, a),
{
    if sooner(c, a) {
        if a.created_at == b.created_at && c.created_at == a.created_at {
            lemma_lex_transitive(c.event_id, a.event_id, b.event_id);
        }
    }
}

proof fn lemma_queued_ordered(s: Seq<RowView>, x: RowView)
    requires
        forall|i: int, j: int| 0 <= i < j < s.len() ==> !sooner(#[trigger] s[j], #[trigger] s[i]),
    ensures
        forall|i: int, j: int|
            0 <= i < j < queued(s, x).len() ==> !sooner(
                #[trigger] queued(s, x)[j],
                #[trigger] queued(s, x)[i],
            ),
    decreases s.len(),
{
    let q = queued(s, x);
    if s.len() == 0 {
    } else if sooner(x, s[0]) {
        assert forall|i: int, j: int| 0 <= i < j < q.len() implies !sooner(
            #[trigger] q[j],
            #[trigger] q[i],
        ) by {
            assert(q[j] == s[j - 1]);
            if i == 0 {
                if j == 1 {
                    lemma_sooner_total(x, s[0]);
                } else {
                    assert(!sooner(s[j - 1], s[0]));
                    lemma_sooner_through(x, s[0], s[j - 1]);
                }
            } else {
                assert(q[i] == s[i - 1]);
            }
        }
    } else {
        let t = s.drop_first();
        let r = queued(t, x);
        assert forall|i: int, j: int| 0 <= i < j < t.len() implies !sooner(
            #[trigger] t[j],
            #[trigger] t[i],
        ) by {
            assert(!sooner(s[j + 1], s[i + 1]));
        }
        lemma_queued_ordered(t, x);
        lemma_queued_holds(t, x);
        assert forall|i: int, j: int| 0 <= i < j < q.len() implies !sooner(
            #[trigger] q[j],
            #[trigger] q[i],
        ) by {
            assert(q[j] == r[j - 1]);
            if i == 0 {
                assert(r.contains(r[j - 1]));
                if r[j - 1] != x {
                    let m = choose|m: int| 0 <= m < t.len() && t[m] == r[j - 1];
                    assert(s[m + 1] == r[j - 1]);
                    assert(!sooner(s[m + 1], s[0]));
                }
            } else {
                assert(q[i] == r[i - 1]);
            }
        }
    }
}

/// Events are delivered in the order of their time, and of their ids where the
/// time is the same.
pub proof fn law_delivery_is_ordered(s: Seq<RowView>)
    ensures
        forall|i: int, j: int|
            0 <= i < j < in_turn(s).len() ==> !sooner(
                #[trigger] in_turn(s)[j],
                #[trigger] in_turn(s)[i],
            ),
    decreases s.len(),
{
    if s.len() > 0 {
        law_delivery_is_ordered(s.drop_last());
        lemma_queued_ordered(in_turn(s.drop_last()), s.last());
    }
}

pub proof fn lemma_opened_at(rows: Seq<RowView>, k: nat, i: int)
    requires
        0 <= i < k <= rows.len(),
        opened_rows(rows, k) is Ok,
    ensures
        opened_rows(rows, k)->Ok_0.len() == k,
        json_reading(encode_utf8(rows[i].payload)) is Some,
        opened_rows(rows, k)->Ok_0[i] == (PendingView {
            session_id: rows[i].session_id,
            event_id: rows[i].event_id,
            event: json_reading(encode_utf8(rows[i].payload))->0,
        }),
    decreases k,
{
    if i < k - 1 {
        lemma_opened_at(rows, (k - 1) as nat, i);
    } else if k > 1 {
        lemma_opened_at(rows, (k - 1) as nat, 0);
    }
}

/// An event that was put into the outbox is handed out as it was given, as long
/// as no more than one batch of its session waits.
pub proof fn law_waiting_event_is_handed_out(
    db: DatabaseView,
    session: Seq<char>,
    n: Node,
    now: i64,
)
    requires
        enqueued(db, session, n, now).1 is Ok,
        tidy(n),
        parsed_value(encode_utf8(payload_of(n)->Ok_0.1)) == Some(n),
        ({
            let rows = enqueued(db, session, n, now).0.outbox;
            session_rows(rows, session, rows.len()).len() <= MAX_PENDING_BATCH
        }),
        pending(enqueued(db, session, n, now).0, session) is Ok,
    ensures
        pending(enqueued(db, session, n, now).0, session)->Ok_0.contains(
            PendingView { session_id: session, event_id: payload_of(n)->Ok_0.0, event: n },
        ),
{
    let after = enqueued(db, session, n, now).0;
    let (id, payload) = payload_of(n)->Ok_0;
    law_repeated_event_is_kept_once(db, session, n, now, now);
    let i = lemma_row_present(after.outbox, id);
    let own = session_rows(after.outbox, session, after.outbox.len());
    let j = lemma_session_rows_hold(after.outbox, session, after.outbox.len(), i);
    law_delivery_loses_nothing(own);
    let turn = in_turn(own);
    assert(own.contains(own[j]));
    assert(turn.contains(own[j]));
    let m = choose|m: int| 0 <= m < turn.len() && turn[m] == own[j];
    lemma_opened_at(turn, turn.len(), m);
    lemma_tidy_arranged(n);
    assert(pending(after, session)->Ok_0[m] == (PendingView {
        session_id: session,
        event_id: id,
        event: n,
    }));
}

proof fn lemma_acknowledged(rows: Seq<RowView>, session: Seq<char>, id: Seq<char>, k: nat)
    requires
        k <= rows.len(),
    ensures
        acknowledged(rows, session, id, k).len() <= k,
        forall|x: RowView| #[trigger]
            acknowledged(rows, session, id, k).contains(x) <==> (rows.take(k as int).contains(x)
                && !(x.session_id == session && x.event_id == id)),
    decreases k,
{
    if k == 0 {
        assert(rows.take(0) =~= Seq::<RowView>::empty());
    } else {
        let rest = acknowledged(rows, session, id, (k - 1) as nat);
        let all = acknowledged(rows, session, id, k);
        let last = rows[k - 1];
        lemma_acknowledged(rows, session, id, (k - 1) as nat);
        assert(rows.take(k as int) =~= rows.take(k - 1).push(last));
        assert forall|x: RowView| #[trigger] all.contains(x) <==> (rows.take(k as int).contains(x)
            && !(x.session_id == session && x.event_id == id)) by {
            let t = rows.take(k - 1);
            if rows.take(k as int).contains(x) {
                let i = choose|i: int| 0 <= i < k && rows.take(k as int)[i] == x;
                if i < k - 1 {
                    assert(t[i] == x);
                    assert(t.contains(x));
                    if !(x.session_id == session && x.event_id == id) {
                        assert(rest.contains(x));
                        let j = choose|j: int| 0 <= j < rest.len() && rest[j] == x;
                        assert(all[j] == x);
                    }
                } else if !(x.session_id == session && x.event_id == id) {
                    assert(all[all.len() - 1] == x);
                }
            }
            if all.contains(x) {
                let j = choose|j: int| 0 <= j < all.len() && all[j] == x;
                if j < rest.len() {
                    assert(rest[j] == x);
                    assert(rest.contains(x));
                    let i = choose|i: int| 0 <= i < t.len() && t[i] == x;
                    assert(rows.take(k as int)[i] == x);
                } else {
                    assert(rows.take(k as int)[k - 1] == x);
                }
            }
        }
    }
}

/// An acknowledgement removes exactly the event of its own session.
pub proof fn law_only_own_events_are_acknowledged(
    rows: Seq<RowView>,
    session: Seq<char>,
    id: Seq<char>,
    x: RowView,
)
    ensures
        acknowledged(rows, session, id, rows.len()).contains(x) <==> (rows.contains(x) && !(
        x.session_id == session && x.event_id == id)),
{
    lemma_acknowledged(rows, session, id, rows.len());
    assert(rows.take(rows.len() as int) =~= rows);
}

proof fn lemma_task_rows_same(
    bs: Seq<BoundView>,
    rows: Seq<RowView>,
    a: BoundView,
    b: BoundView,
    k: nat,
)
    requires
        same_target(a, b),
        k <= rows.len(),
    ensures
        task_rows(bs, rows, a, k) == task_rows(bs, rows, b, k),
    decreases k,
{
    if k > 0 {
        lemma_task_rows_same(bs, rows, a, b, (k - 1) as nat);
    }
}

/// A fresh session of the same task is handed the events of all its sessions,
/// as any other session of it is.
pub proof fn law_sessions_of_a_task_share_its_events(db: DatabaseView, a: BoundView, b: BoundView)
    requires
        same_target(a, b),
    ensures
        pending_for(db, a) == pending_for(db, b),
{
    lemma_task_rows_same(db.bindings, db.outbox, a, b, db.outbox.len());
}

proof fn lemma_task_rows_own(
    bs: Seq<BoundView>,
    rows: Seq<RowView>,
    b: BoundView,
    k: nat,
    x: RowView,
)
    requires
        k <= rows.len(),
        task_rows(bs, rows, b, k).contains(x),
    ensures
        for_task(bs, x, b),
    decreases k,
{
    let all = task_rows(bs, rows, b, k);
    let i = choose|i: int| 0 <= i < all.len() && all[i] == x;
    if k > 0 {
        let rest = task_rows(bs, rows, b, (k - 1) as nat);
        if i < rest.len() {
            assert(rest[i] == x);
            lemma_task_rows_own(bs, rows, b, (k - 1) as nat, x);
        }
    }
}

/// No event is handed out for another task than that of its session.
pub proof fn law_events_do_not_cross_tasks(db: DatabaseView, b: BoundView, i: int)
    requires
        pending_for(db, b) is Ok,
        0 <= i < pending_for(db, b)->Ok_0.len(),
    ensures
        binding_for(db.bindings, pending_for(db, b)->Ok_0[i].session_id) matches Some(x)
            && same_target(x, b),
{
    let own = task_rows(db.bindings, db.outbox, b, db.outbox.len());
    let turn = in_turn(own);
    let some = batch(turn);
    if some.len() > 0 {
        lemma_opened_at(some, some.len(), 0);
    }
    lemma_opened_at(some, some.len(), i);
    assert(turn[i] == some[i]);
    assert(turn.contains(some[i]));
    law_delivery_loses_nothing(own);
    lemma_task_rows_own(db.bindings, db.outbox, b, db.outbox.len(), some[i]);
}

// ---------------------------------------------------------------------------
// Retirement.
// ---------------------------------------------------------------------------

/// A task is neither frozen nor retired while events of it wait or were lost.
pub proof fn law_unresolved_task_is_not_retired(db: DatabaseView, b: BoundView, finish: bool)
    requires
        unresolved(db, b),
    ensures
        retired(db, b, finish) == (db, Err::<(), StoreError>(StoreError::RetirementUnresolved)),
{
}

/// A frozen task takes no binding, not even of a session that had one.
pub proof fn law_frozen_task_takes_no_binding(db: DatabaseView, b: BoundView, other: BoundView)
    requires
        retired(db, b, false).1 is Ok,
        same_target(other, b),
        bindable(other),
    ensures
        fenced(retired(db, b, false).0.retirements, b),
        bound(retired(db, b, false).0, other) == (
            retired(db, b, false).0,
            Err::<(), StoreError>(StoreError::TaskRetired),
        ),
{
    let rs = db.retirements;
    let after = retired(db, b, false).0.retirements;
    if !fenced(rs, b) {
        assert(after[rs.len() as int] == retirement_of(b));
    }
    let i = choose|i: int| 0 <= i < after.len() && retires(#[trigger] after[i], b);
    assert(retires(after[i], other));
}

/// Late facts of a frozen or retired task are still recorded: what an event or
/// a receipt leaves in the outbox does not depend on the retirements.
pub proof fn law_late_facts_are_recorded(
    db: DatabaseView,
    rs: Seq<RetirementView>,
    session: Seq<char>,
    n: Node,
    now: i64,
    receipt: ReceiptView,
)
    ensures
        ({
            let other = DatabaseView { retirements: rs, ..db };
            &&& enqueued(other, session, n, now).1 == enqueued(db, session, n, now).1
            &&& enqueued(other, session, n, now).0.outbox == enqueued(db, session, n, now).0.outbox
            &&& captured(other, receipt).1 == captured(db, receipt).1
            &&& captured(other, receipt).0.outbox == captured(db, receipt).0.outbox
            &&& captured(other, receipt).0.gaps == captured(db, receipt).0.gaps
        }),
{
}

proof fn lemma_cancelled_none(rs: Seq<RetirementView>, b: BoundView, k: nat)
    requires
        k <= rs.len(),
        forall|i: int| 0 <= i < rs.len() ==> !retires(#[trigger] rs[i], b),
    ensures
        cancelled(rs, b, k) == rs.take(k as int),
    decreases k,
{
    if k > 0 {
        lemma_cancelled_none(rs, b, (k - 1) as nat);
        assert(!retires(rs[k - 1], b));
        assert(rs.take(k - 1).push(rs[k - 1]) =~= rs.take(k as int));
    } else {
        assert(rs.take(0) =~= Seq::<RetirementView>::empty());
    }
}

proof fn lemma_cancelled_push(rs: Seq<RetirementView>, x: RetirementView, b: BoundView, k: nat)
    requires
        k <= rs.len(),
    ensures
        cancelled(rs.push(x), b, k) == cancelled(rs, b, k),
    decreases k,
{
    if k > 0 {
        lemma_cancelled_push(rs, x, b, (k - 1) as nat);
        assert(rs.push(x)[k - 1] == rs[k - 1]);
    }
}

/// Lifting a fresh freeze restores the tables.
pub proof fn law_cancel_lifts_the_freeze(db: DatabaseView, b: BoundView)
    requires
        !fenced(db.retirements, b),
        retired(db, b, false).1 is Ok,
    ensures
        ({
            let rs = retired(db, b, false).0.retirements;
            cancelled(rs, b, rs.len()) == db.retirements
        }),
{
    let rs = db.retirements;
    let x = retirement_of(b);
    assert forall|i: int| 0 <= i < rs.len() implies !retires(#[trigger] rs[i], b) by {}
    lemma_cancelled_push(rs, x, b, rs.len());
    lemma_cancelled_none(rs, b, rs.len());
    assert(rs.take(rs.len() as int) =~= rs);
    assert(rs.push(x)[rs.len() as int] == x);
}

proof fn lemma_cancelled_keeps(rs: Seq<RetirementView>, b: BoundView, k: nat, x: RetirementView)
    requires
        k <= rs.len(),
    ensures
        cancelled(rs, b, k).len() <= k,
        cancelled(rs, b, k).contains(x) <==> (rs.take(k as int).contains(x) && !(retires(x, b)
            && !x.retired)),
    decreases k,
{
    let all = cancelled(rs, b, k);
    if k == 0 {
        assert(rs.take(0) =~= Seq::<RetirementView>::empty());
    } else {
        let rest = cancelled(rs, b, (k - 1) as nat);
        let last = rs[k - 1];
        let t = rs.take(k - 1);
        lemma_cancelled_keeps(rs, b, (k - 1) as nat, x);
        assert(rs.take(k as int) =~= t.push(last));
        if rs.take(k as int).contains(x) {
            let i = choose|i: int| 0 <= i < k && rs.take(k as int)[i] == x;
            if i < k - 1 {
                assert(t[i] == x);
                if !(retires(x, b) && !x.retired) {
                    let j = choose|j: int| 0 <= j < rest.len() && rest[j] == x;
                    assert(all[j] == x);
                }
            } else if !(retires(x, b) && !x.retired) {
                assert(all[all.len() - 1] == x);
            }
        }
        if all.contains(x) {
            let j = choose|j: int| 0 <= j < all.len() && all[j] == x;
            if j < rest.len() {
                assert(rest[j] == x);
                let i = choose|i: int| 0 <= i < t.len() && t[i] == x;
                assert(rs.take(k as int)[i] == x);
            } else {
                assert(rs.take(k as int)[k - 1] == x);
            }
        }
    }
}

/// A confirmed retirement cannot be lifted, nor can that of another task.
pub proof fn law_cancel_keeps_other_retirements(
    rs: Seq<RetirementView>,
    b: BoundView,
    x: RetirementView,
)
    ensures
        cancelled(rs, b, rs.len()).contains(x) <==> (rs.contains(x) && !(retires(x, b)
            && !x.retired)),
{
    lemma_cancelled_keeps(rs, b, rs.len(), x);
    assert(rs.take(rs.len() as int) =~= rs);
}

proof fn lemma_counted(rs: Seq<RetirementView>, b: BoundView, k: nat)
    requires
        k <= rs.len(),
        retirement_count(rs, b, k) > 0,
    ensures
        exists|i: int| 0 <= i < k && retires(#[trigger] rs[i], b),
    decreases k,
{
    if !retires(rs[k - 1], b) {
        lemma_counted(rs, b, (k - 1) as nat);
    }
}

/// A confirmed archival frees the bindings of the task, and only it does.
pub proof fn law_only_confirmation_frees(db: DatabaseView, b: BoundView, other: BoundView)
    ensures
        retired(db, b, true).1 is Ok ==> freed(retired(db, b, true).0.retirements, b),
        retired(db, b, true).1 is Ok && !same_target(other, b) ==> freed(
            retired(db, b, true).0.retirements,
            other,
        ) == freed(db.retirements, other),
        freed(retired(db, b, false).0.retirements, other) == freed(db.retirements, other),
{
    let rs = db.retirements;
    if retired(db, b, true).1 is Ok {
        let after = confirmed(rs, b);
        lemma_counted(rs, b, rs.len());
        let i = choose|i: int| 0 <= i < rs.len() && retires(#[trigger] rs[i], b);
        assert(retires(after[i], b) && after[i].retired);
        if !same_target(other, b) {
            if freed(rs, other) {
                let j = choose|j: int|
                    0 <= j < rs.len() && retires(#[trigger] rs[j], other) && rs[j].retired;
                assert(after[j] == rs[j]);
                assert(retires(after[j], other) && after[j].retired);
            }
            if freed(after, other) {
                let j = choose|j: int|
                    0 <= j < after.len() && retires(#[trigger] after[j], other) && after[j].retired;
                assert(retires(rs[j], other) && rs[j].retired);
            }
        }
    }
    let begun = retired(db, b, false).0.retirements;
    if begun != rs {
        assert(begun == rs.push(retirement_of(b)));
        if freed(rs, other) {
            let j = choose|j: int|
                0 <= j < rs.len() && retires(#[trigger] rs[j], other) && rs[j].retired;
            assert(retires(begun[j], other) && begun[j].retired);
        }
        if freed(begun, other) {
            let j = choose|j: int|
                0 <= j < begun.len() && retires(#[trigger] begun[j], other) && begun[j].retired;
            assert(j < rs.len());
            assert(retires(rs[j], other) && rs[j].retired);
        }
    }
}

// ---------------------------------------------------------------------------
// Keys and limits.
// ---------------------------------------------------------------------------

/// A session has one binding and at most one gap, an event id names one row,
/// and a task is retired at most once.
pub open spec fn keyed(db: DatabaseView) -> bool {
    &&& forall|i: int, j: int|
        0 <= i < j < db.bindings.len() ==> (#[trigger] db.bindings[i]).session_id != (
        #[trigger] db.bindings[j]).session_id
    &&& forall|i: int, j: int|
        0 <= i < j < db.outbox.len() ==> (#[trigger] db.outbox[i]).event_id != (
        #[trigger] db.outbox[j]).event_id
    &&& forall|i: int, j: int|
        0 <= i < j < db.gaps.len() ==> (#[trigger] db.gaps[i]).session_id != (
        #[trigger] db.gaps[j]).session_id
    &&& forall|i: int, j: int|
        0 <= i < j < db.retirements.len() ==> !same_task(
            #[trigger] db.retirements[i],
            #[trigger] db.retirements[j],
        )
}

/// Whether two retirements are those of one task.
pub open spec fn same_task(a: RetirementView, b: RetirementView) -> bool {
    a.project_id == b.project_id && a.client_id == b.client_id && a.project_path == b.project_path
        && a.task_id == b.task_id && a.root_fingerprint == b.root_fingerprint
}

proof fn lemma_acknowledged_keyed(rows: Seq<RowView>, session: Seq<char>, id: Seq<char>, k: nat)
    requires
        k <= rows.len(),
        forall|i: int, j: int|
            0 <= i < j < rows.len() ==> (#[trigger] rows[i]).event_id != (
            #[trigger] rows[j]).event_id,
    ensures
        forall|i: int, j: int|
            0 <= i < j < acknowledged(rows, session, id, k).len() ==> (#[trigger] acknowledged(
                rows,
                session,
                id,
                k,
            )[i]).event_id != (#[trigger] acknowledged(rows, session, id, k)[j]).event_id,
    decreases k,
{
    if k > 0 {
        let rest = acknowledged(rows, session, id, (k - 1) as nat);
        let all = acknowledged(rows, session, id, k);
        lemma_acknowledged_keyed(rows, session, id, (k - 1) as nat);
        lemma_acknowledged(rows, session, id, (k - 1) as nat);
        assert forall|i: int, j: int| 0 <= i < j < all.len() implies (#[trigger] all[i]).event_id
            != (#[trigger] all[j]).event_id by {
            if j < rest.len() {
                assert(all[i] == rest[i] && all[j] == rest[j]);
            } else {
                assert(all[j] == rows[k - 1]);
                assert(all[i] == rest[i]);
                assert(rest.contains(rest[i]));
                let t = rows.take(k - 1);
                let m = choose|m: int| 0 <= m < t.len() && t[m] == rest[i];
                assert(rows[m] == rest[i]);
            }
        }
    }
}

proof fn lemma_cancelled_keyed(rs: Seq<RetirementView>, b: BoundView, k: nat)
    requires
        k <= rs.len(),
        forall|i: int, j: int|
            0 <= i < j < rs.len() ==> !same_task(#[trigger] rs[i], #[trigger] rs[j]),
    ensures
        forall|i: int, j: int|
            0 <= i < j < cancelled(rs, b, k).len() ==> !same_task(
                #[trigger] cancelled(rs, b, k)[i],
                #[trigger] cancelled(rs, b, k)[j],
            ),
    decreases k,
{
    if k > 0 {
        let rest = cancelled(rs, b, (k - 1) as nat);
        let all = cancelled(rs, b, k);
        lemma_cancelled_keyed(rs, b, (k - 1) as nat);
        assert forall|i: int, j: int| 0 <= i < j < all.len() implies !same_task(
            #[trigger] all[i],
            #[trigger] all[j],
        ) by {
            if j < rest.len() {
                assert(all[i] == rest[i] && all[j] == rest[j]);
            } else {
                assert(all[j] == rs[k - 1]);
                assert(all[i] == rest[i]);
                lemma_cancelled_keeps(rs, b, (k - 1) as nat, rest[i]);
                assert(rest.contains(rest[i]));
                let t = rs.take(k - 1);
                let m = choose|m: int| 0 <= m < t.len() && t[m] == rest[i];
                assert(rs[m] == rest[i]);
            }
        }
    }
}

/// Every request keeps the keys of the tables.
pub proof fn law_keys_are_kept(
    db: DatabaseView,
    session: Seq<char>,
    n: Node,
    now: i64,
    id: Seq<char>,
    receipt: ReceiptView,
    b: BoundView,
    finish: bool,
)
    requires
        keyed(db),
    ensures
        keyed(bound(db, b).0),
        keyed(enqueued(db, session, n, now).0),
        keyed(captured(db, receipt).0),
        keyed(retired(db, b, finish).0),
        keyed(
            (DatabaseView {
                outbox: acknowledged(db.outbox, session, id, db.outbox.len()),
                ..db
            }),
        ),
        keyed(
            (DatabaseView {
                retirements: cancelled(db.retirements, b, db.retirements.len()),
                ..db
            }),
        ),
        keyed((DatabaseView { gaps: latched(db.gaps, session, "capture_failed"@), ..db })),
{
    if binding_for(db.bindings, b.session_id) is None {
        assert forall|i: int| 0 <= i < db.bindings.len() implies (
        #[trigger] db.bindings[i]).session_id != b.session_id by {
            lemma_binding_absent(db.bindings, b.session_id, i);
        }
    }
    if payload_of(n) is Ok && row_for(db.outbox, payload_of(n)->Ok_0.0) is None {
        assert forall|i: int| 0 <= i < db.outbox.len() implies (#[trigger] db.outbox[i]).event_id
            != payload_of(n)->Ok_0.0 by {
            lemma_row_absent(db.outbox, payload_of(n)->Ok_0.0, i);
        }
    }
    let ended = terminal_id(receipt.job_id);
    if row_for(db.outbox, ended) is None {
        assert forall|i: int| 0 <= i < db.outbox.len() implies (#[trigger] db.outbox[i]).event_id
            != ended by {
            lemma_row_absent(db.outbox, ended, i);
        }
    }
    let after = retired(db, b, finish).0.retirements;
    assert forall|i: int, j: int| 0 <= i < j < after.len() implies !same_task(
        #[trigger] after[i],
        #[trigger] after[j],
    ) by {
        if j < db.retirements.len() {
            assert(!same_task(db.retirements[i], db.retirements[j]));
        } else {
            assert(!retires(db.retirements[i], b));
        }
    }
    lemma_acknowledged_keyed(db.outbox, session, id, db.outbox.len());
    lemma_cancelled_keyed(db.retirements, b, db.retirements.len());
}

/// The tables keep within their limits.
pub open spec fn bounded(db: DatabaseView) -> bool {
    &&& db.outbox.len() <= MAX_OUTBOX_EVENTS
    &&& db.bindings.len() <= MAX_BINDING_HISTORY
    &&& db.retirements.len() <= MAX_RETIREMENTS
    &&& active_bindings(db.bindings, db.retirements, db.bindings.len()) <= MAX_ACTIVE_BINDINGS
}

/// Where no task is freed less, no more bindings are active.
proof fn lemma_active_less(
    bs: Seq<BoundView>,
    a: Seq<RetirementView>,
    b: Seq<RetirementView>,
    k: nat,
)
    requires
        k <= bs.len(),
        forall|i: int| 0 <= i < bs.len() ==> (freed(a, #[trigger] bs[i]) ==> freed(b, bs[i])),
    ensures
        active_bindings(bs, b, k) <= active_bindings(bs, a, k),
    decreases k,
{
    if k > 0 {
        lemma_active_less(bs, a, b, (k - 1) as nat);
        assert(freed(a, bs[k - 1]) ==> freed(b, bs[k - 1]));
    }
}

proof fn lemma_active_push(bs: Seq<BoundView>, b: BoundView, rs: Seq<RetirementView>, k: nat)
    requires
        k <= bs.len(),
    ensures
        active_bindings(bs.push(b), rs, k) == active_bindings(bs, rs, k),
    decreases k,
{
    if k > 0 {
        lemma_active_push(bs, b, rs, (k - 1) as nat);
        assert(bs.push(b)[k - 1] == bs[k - 1]);
    }
}

/// Every request keeps the tables within their limits.
pub proof fn law_limits_are_kept(
    db: DatabaseView,
    session: Seq<char>,
    n: Node,
    now: i64,
    id: Seq<char>,
    receipt: ReceiptView,
    b: BoundView,
    finish: bool,
)
    requires
        bounded(db),
    ensures
        bounded(bound(db, b).0),
        bounded(enqueued(db, session, n, now).0),
        bounded(captured(db, receipt).0),
        bounded(retired(db, b, finish).0),
        bounded(
            (DatabaseView {
                outbox: acknowledged(db.outbox, session, id, db.outbox.len()),
                ..db
            }),
        ),
        bounded(
            (DatabaseView {
                retirements: cancelled(db.retirements, b, db.retirements.len()),
                ..db
            }),
        ),
{
    let bs = db.bindings;
    let rs = db.retirements;
    lemma_active_push(bs, b, rs, bs.len());
    lemma_acknowledged(db.outbox, session, id, db.outbox.len());
    lemma_cancelled_keeps(rs, b, rs.len(), retirement_of(b));
    let after = retired(db, b, finish).0.retirements;
    assert forall|i: int| 0 <= i < bs.len() && freed(rs, #[trigger] bs[i]) implies freed(
        after,
        bs[i],
    ) by {
        law_only_confirmation_frees(db, b, bs[i]);
        if freed(rs, bs[i]) && same_target(bs[i], b) && finish && retired(db, b, true).1 is Ok {
            let m = choose|m: int| 0 <= m < after.len() && retires(#[trigger] after[m], b)
                && after[m].retired;
            assert(retires(after[m], bs[i]));
        }
    }
    lemma_active_less(bs, rs, after, bs.len());
    let lifted = cancelled(rs, b, rs.len());
    assert forall|i: int| 0 <= i < bs.len() && freed(rs, #[trigger] bs[i]) implies freed(
        lifted,
        bs[i],
    ) by {
        if freed(rs, bs[i]) {
            let m = choose|m: int|
                0 <= m < rs.len() && retires(#[trigger] rs[m], bs[i]) && rs[m].retired;
            law_cancel_keeps_other_retirements(rs, b, rs[m]);
            assert(rs.contains(rs[m]));
            let q = choose|q: int| 0 <= q < lifted.len() && lifted[q] == rs[m];
            assert(retires(lifted[q], bs[i]) && lifted[q].retired);
        }
    }
    lemma_active_less(bs, rs, lifted, bs.len());
}

// ---------------------------------------------------------------------------
// Coverage.
// ---------------------------------------------------------------------------

/// A full outbox leaves a gap for the session whose fact was not recorded.
pub proof fn law_lost_fact_leaves_a_gap(db: DatabaseView, r: ReceiptView)
    requires
        r.session_id is Some,
        binding_for(db.bindings, r.session_id->0) matches Some(b) && at_root(b, r),
        db.outbox.len() >= MAX_OUTBOX_EVENTS,
    ensures
        has_gap(captured(db, r).0.gaps, r.session_id->0),
        captured(db, r).0.outbox == db.outbox,
{
    let gaps = captured(db, r).0.gaps;
    if !has_gap(db.gaps, r.session_id->0) {
        assert(gaps[db.gaps.len() as int].session_id == r.session_id->0);
    }
}

/// A gap stays.
pub proof fn law_gap_stays(
    db: DatabaseView,
    session: Seq<char>,
    n: Node,
    now: i64,
    receipt: ReceiptView,
    b: BoundView,
    finish: bool,
    lost: Seq<char>,
)
    requires
        has_gap(db.gaps, lost),
    ensures
        has_gap(bound(db, b).0.gaps, lost),
        has_gap(enqueued(db, session, n, now).0.gaps, lost),
        has_gap(retired(db, b, finish).0.gaps, lost),
        has_gap(captured(db, receipt).0.gaps, lost),
        has_gap(latched(db.gaps, session, "capture_failed"@), lost),
{
    let i = choose|i: int| 0 <= i < db.gaps.len() && (#[trigger] db.gaps[i]).session_id == lost;
    assert(captured(db, receipt).0.gaps[i] == db.gaps[i]);
    assert(latched(db.gaps, session, "capture_failed"@)[i] == db.gaps[i]);
}

proof fn lemma_gap_counted(db: DatabaseView, s: ScopeView, k: nat, i: int)
    requires
        0 <= i < k <= db.bindings.len(),
        binding_in_scope(s, db.bindings[i]),
        has_gap(db.gaps, db.bindings[i].session_id),
    ensures
        scope_gaps(db, s, k) > 0,
    decreases k,
{
    if i < k - 1 {
        lemma_gap_counted(db, s, (k - 1) as nat, i);
    }
}

proof fn lemma_rows_counted(db: DatabaseView, s: ScopeView, k: nat, i: int)
    requires
        0 <= i < k <= db.bindings.len(),
        binding_in_scope(s, db.bindings[i]),
        has_event(db.outbox, db.bindings[i].session_id),
    ensures
        scope_rows(db, s, k) > 0,
    decreases k,
{
    if i < k - 1 {
        lemma_rows_counted(db, s, (k - 1) as nat, i);
    } else {
        let session = db.bindings[i].session_id;
        let m = choose|m: int|
            0 <= m < db.outbox.len() && (#[trigger] db.outbox[m]).session_id == session;
        let j = lemma_session_rows_hold(db.outbox, session, db.outbox.len(), m);
    }
}

/// A scope with a waiting or a lost event is never reported as caught up.
pub proof fn law_open_delivery_is_not_caught_up(
    db: DatabaseView,
    s: ScopeView,
    status: SourceStatus,
    i: int,
)
    requires
        0 <= i < db.bindings.len(),
        binding_in_scope(s, db.bindings[i]),
        has_event(db.outbox, db.bindings[i].session_id) || has_gap(
            db.gaps,
            db.bindings[i].session_id,
        ),
        status.pending == scope_rows(db, s, db.bindings.len()),
        status.capture_gaps == scope_gaps(db, s, db.bindings.len()),
    ensures
        source_state(status) == "incomplete"@ || source_state(status) == "pending"@,
        has_gap(db.gaps, db.bindings[i].session_id) ==> source_state(status) == "incomplete"@,
{
    if has_gap(db.gaps, db.bindings[i].session_id) {
        lemma_gap_counted(db, s, db.bindings.len(), i);
    } else {
        lemma_rows_counted(db, s, db.bindings.len(), i);
    }
}

} // verus!
