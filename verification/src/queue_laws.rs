//! What the tables of the server take, count and hand out.
use vstd::prelude::*;
use vstd::utf8::*;
use crate::accepted_laws::{is_id_text, lemma_id_text};
use crate::codec::{json_reading, json_text};
use crate::json::{Node};
use crate::outbox::{
    ScopeView, batch, enqueued, fact_check, facts_check, in_turn, opened_rows, outbox_keys,
    payload_of, pending, pending_for, row_for, scope_bindings, scope_retirements, scope_rows,
    session_rows, short_paths, sooner, task_rows,
};
use crate::store::{
    BoundView, DatabaseView, MAX_OUTBOX_PATH_BYTES, RetirementView, RowView, StoreError,
    active_bindings, binding_for, bound, fenced, retired, retirement_of, retires,
};
use crate::store_laws::{law_delivery_is_ordered, lemma_opened_at};
use crate::text::{lex_less};

verus! {

/// Whether a waiting event may have the field.
pub open spec fn may_wait(k: Seq<char>) -> bool {
    k == "event_id"@ || k == "type"@ || k == "source"@ || k == "observed_at"@ || k == "job_id"@ || k
        == "tool"@ || k == "status"@ || k == "exit_code"@ || k == "success"@ || k == "unknown"@ || k
        == "paths"@
}

/// Whether a field of a waiting event is a plain fact: no object, and a list
/// only of at most 32 short paths.
pub open spec fn is_plain_fact(k: Seq<char>, n: Node) -> bool {
    &&& may_wait(k)
    &&& !(n is Record)
    &&& n matches Node::List(items) ==> k == "paths"@ && items.len() <= 32 && forall|i: int|
        0 <= i < items.len() ==> ((#[trigger] items[i]) matches Node::Text(s) && encode_utf8(
            s,
        ).len() <= 512)
}

proof fn lemma_plain_fact(k: Seq<char>, n: Node)
    ensures
        fact_check(k, n) is Ok <==> is_plain_fact(k, n),
{
    let keys = outbox_keys();
    assert(keys[0] == "event_id"@ && keys[1] == "type"@ && keys[2] == "source"@ && keys[3]
        == "observed_at"@ && keys[4] == "job_id"@ && keys[5] == "tool"@);
    assert(keys[6] == "status"@ && keys[7] == "exit_code"@ && keys[8] == "success"@ && keys[9]
        == "unknown"@ && keys[10] == "paths"@);
    assert(keys.len() == 11);
    assert(keys.contains(k) <==> may_wait(k));
    if n is List {
        let items = n->List_0;
        if short_paths(items) {
            assert forall|i: int| 0 <= i < items.len() implies ((#[trigger] items[i]) matches Node::Text(
                s,
            ) && encode_utf8(s).len() <= 512) by {
                assert(items[i].text() is Some);
            }
        }
        if is_plain_fact(k, n) {
            assert forall|i: int| 0 <= i < items.len() implies ((#[trigger] items[i]).text()
                matches Some(s) && encode_utf8(s).len() <= MAX_OUTBOX_PATH_BYTES) by {
                assert(items[i] is Text);
            }
        }
    }
}

proof fn lemma_plain_facts(fields: Seq<(Seq<char>, Node)>, k: nat)
    requires
        k <= fields.len(),
    ensures
        facts_check(fields, k) is Ok <==> forall|i: int|
            0 <= i < k ==> is_plain_fact((#[trigger] fields[i]).0, fields[i].1),
    decreases k,
{
    if k > 0 {
        lemma_plain_facts(fields, (k - 1) as nat);
        lemma_plain_fact(fields[k - 1].0, fields[k - 1].1);
        if forall|i: int| 0 <= i < k ==> is_plain_fact((#[trigger] fields[i]).0, fields[i].1) {
            assert(is_plain_fact(fields[k - 1].0, fields[k - 1].1));
        }
    }
}

/// Which events wait: objects of plain facts with an id, not too large; and an
/// event waits under its own id, as its own text.
pub proof fn law_plain_facts_wait(n: Node)
    ensures
        payload_of(n) is Ok <==> (n matches Node::Record(fields) && forall|i: int|
            0 <= i < fields.len() ==> is_plain_fact((#[trigger] fields[i]).0, fields[i].1))
            && is_id_text(n.at("event_id"@)) && (json_text(n) matches Some(t) && encode_utf8(
            t,
        ).len() <= 16384),
        payload_of(n) matches Ok((id, text)) ==> n.at("event_id"@) == Node::Text(id) && json_text(n)
            == Some(text),
{
    if n is Record {
        let fields = n->Record_0;
        lemma_plain_facts(fields, fields.len());
        if n.at("event_id"@) is Text {
            lemma_id_text(n.at("event_id"@)->Text_0);
        }
    }
}

/// A new event of a bound session is put behind the others with its session,
/// its text and its time, where there is room; nothing else changes.
pub proof fn law_new_event_waits(db: DatabaseView, session: Seq<char>, n: Node, now: i64)
    requires
        payload_of(n) is Ok,
        row_for(db.outbox, n.at("event_id"@)->Text_0) is None,
        binding_for(db.bindings, session) is Some,
    ensures
        db.outbox.len() >= 4096 ==> enqueued(db, session, n, now) == (
            db,
            Err::<(), StoreError>(StoreError::OutboxFull),
        ),
        db.outbox.len() < 4096 ==> ({
            let (after, r) = enqueued(db, session, n, now);
            &&& r is Ok
            &&& after.outbox.len() == db.outbox.len() + 1
            &&& after.outbox.last().event_id == n.at("event_id"@)->Text_0
            &&& after.outbox.last().session_id == session
            &&& json_text(n) == Some(after.outbox.last().payload)
            &&& after.outbox.last().created_at == now
            &&& after.bindings == db.bindings && after.gaps == db.gaps && after.retirements
                == db.retirements
            &&& forall|i: int| 0 <= i < db.outbox.len() ==> after.outbox[i] == #[trigger] db.outbox[i]
        }),
{
    law_plain_facts_wait(n);
}

/// Whether two texts agree before the place `i`.
pub open spec fn agree_before(a: Seq<char>, b: Seq<char>, i: int) -> bool {
    0 <= i <= a.len() && i <= b.len() && forall|j: int| 0 <= j < i ==> a[j] == b[j]
}

/// The order of texts is decided by the first place where they differ; a text
/// comes before its continuations.
pub proof fn law_text_order(a: Seq<char>, b: Seq<char>)
    ensures
        lex_less(a, b) <==> exists|i: int|
            #[trigger] agree_before(a, b, i) && i < b.len() && (i == a.len() || (a[i] as int) < (
            b[i] as int)),
    decreases a.len(),
{
    if a.len() > 0 && b.len() > 0 && a[0] == b[0] {
        let x = a.drop_first();
        let y = b.drop_first();
        law_text_order(x, y);
        if lex_less(x, y) {
            let i = choose|i: int|
                #[trigger] agree_before(x, y, i) && i < y.len() && (i == x.len() || (x[i] as int)
                    < (y[i] as int));
            assert forall|j: int| 0 <= j < i + 1 implies a[j] == b[j] by {
                if j > 0 {
                    assert(x[j - 1] == y[j - 1]);
                }
            }
            assert(agree_before(a, b, i + 1));
        }
        if exists|i: int|
            #[trigger] agree_before(a, b, i) && i < b.len() && (i == a.len() || (a[i] as int) < (
            b[i] as int)) {
            let i = choose|i: int|
                #[trigger] agree_before(a, b, i) && i < b.len() && (i == a.len() || (a[i] as int)
                    < (b[i] as int));
            assert(i > 0);
            assert forall|j: int| 0 <= j < i - 1 implies x[j] == y[j] by {
                assert(a[j + 1] == b[j + 1]);
            }
            assert(agree_before(x, y, i - 1));
        }
    } else if b.len() > 0 {
        assert(agree_before(a, b, 0));
    }
}

/// The oldest event is handed out first; of two that are as old, the one whose
/// id comes first.
pub proof fn law_oldest_is_handed_out_first(s: Seq<RowView>, i: int, j: int)
    requires
        0 <= i < j < in_turn(s).len(),
    ensures
        in_turn(s)[i].created_at <= in_turn(s)[j].created_at,
        in_turn(s)[i].created_at == in_turn(s)[j].created_at ==> !lex_less(
            in_turn(s)[j].event_id,
            in_turn(s)[i].event_id,
        ),
{
    law_delivery_is_ordered(s);
    assert(!sooner(in_turn(s)[j], in_turn(s)[i]));
}

/// What is handed out of the outbox is the first of what waits, up to 32
/// events, each under its own id and session and as its text reads.
pub proof fn law_batch_is_handed_out(db: DatabaseView, session: Seq<char>, b: BoundView)
    ensures
        pending(db, session) matches Ok(items) ==> ({
            let rows = in_turn(session_rows(db.outbox, session, db.outbox.len()));
            &&& items.len() == (if rows.len() <= 32 {
                rows.len()
            } else {
                32
            })
            &&& forall|i: int|
                0 <= i < items.len() ==> (#[trigger] items[i]).event_id == rows[i].event_id
                    && items[i].session_id == rows[i].session_id && json_reading(
                    encode_utf8(rows[i].payload),
                ) == Some(items[i].event)
        }),
        pending_for(db, b) matches Ok(items) ==> ({
            let rows = in_turn(task_rows(db.bindings, db.outbox, b, db.outbox.len()));
            &&& items.len() == (if rows.len() <= 32 {
                rows.len()
            } else {
                32
            })
            &&& forall|i: int|
                0 <= i < items.len() ==> (#[trigger] items[i]).event_id == rows[i].event_id
                    && items[i].session_id == rows[i].session_id && json_reading(
                    encode_utf8(rows[i].payload),
                ) == Some(items[i].event)
        }),
{
    let own = in_turn(session_rows(db.outbox, session, db.outbox.len()));
    if pending(db, session) is Ok {
        lemma_opened(own);
    }
    let all = in_turn(task_rows(db.bindings, db.outbox, b, db.outbox.len()));
    if pending_for(db, b) is Ok {
        lemma_opened(all);
    }
}

proof fn lemma_opened(rows: Seq<RowView>)
    requires
        opened_rows(batch(rows), batch(rows).len()) is Ok,
    ensures
        ({
            let items = opened_rows(batch(rows), batch(rows).len())->Ok_0;
            &&& items.len() == (if rows.len() <= 32 {
                rows.len()
            } else {
                32
            })
            &&& forall|i: int|
                0 <= i < items.len() ==> (#[trigger] items[i]).event_id == rows[i].event_id
                    && items[i].session_id == rows[i].session_id && json_reading(
                    encode_utf8(rows[i].payload),
                ) == Some(items[i].event)
        }),
{
    let some = batch(rows);
    let items = opened_rows(some, some.len())->Ok_0;
    if some.len() > 0 {
        lemma_opened_at(some, some.len(), 0);
        assert forall|i: int| 0 <= i < items.len() implies (#[trigger] items[i]).event_id
            == rows[i].event_id && items[i].session_id == rows[i].session_id && json_reading(
            encode_utf8(rows[i].payload),
        ) == Some(items[i].event) by {
            lemma_opened_at(some, some.len(), i);
        }
    }
}

/// Whether a text can be a part of a binding.
pub open spec fn is_bindable_text(s: Seq<char>) -> bool {
    s.len() > 0 && encode_utf8(s).len() <= 4096 && !s.contains('\0')
}

/// When a session is bound: with proper texts, to a task that is not frozen,
/// and where it has no other binding and there is room.
pub proof fn law_when_a_session_is_bound(db: DatabaseView, b: BoundView)
    ensures
        bound(db, b).1 is Ok <==> is_bindable_text(b.session_id) && is_bindable_text(b.project_id)
            && is_bindable_text(b.client_id) && is_bindable_text(b.project_path)
            && is_bindable_text(b.task_id) && is_bindable_text(b.root_fingerprint) && !fenced(
            db.retirements,
            b,
        ) && (binding_for(db.bindings, b.session_id) == Some(b) || (binding_for(
            db.bindings,
            b.session_id,
        ) is None && db.bindings.len() < 65536 && active_bindings(
            db.bindings,
            db.retirements,
            db.bindings.len(),
        ) < 1024)),
        bound(db, b).1 is Ok && binding_for(db.bindings, b.session_id) is None ==> bound(
            db,
            b,
        ).0.bindings == db.bindings.push(b),
        bound(db, b).0.outbox == db.outbox && bound(db, b).0.gaps == db.gaps && bound(
            db,
            b,
        ).0.retirements == db.retirements,
{
}

/// A task is frozen exactly where a retirement names its project, its path, its
/// client, its task and its file identity.
pub proof fn law_fence_is_for_the_task(rs: Seq<RetirementView>, b: BoundView)
    ensures
        fenced(rs, b) <==> exists|i: int|
            0 <= i < rs.len() && (#[trigger] rs[i]).project_id == b.project_id && rs[i].client_id
                == b.client_id && rs[i].project_path == b.project_path && rs[i].task_id == b.task_id
                && rs[i].root_fingerprint == b.root_fingerprint,
{
    if fenced(rs, b) {
        let i = choose|i: int| 0 <= i < rs.len() && retires(#[trigger] rs[i], b);
        assert(rs[i].project_id == b.project_id);
    }
    if exists|i: int|
        0 <= i < rs.len() && (#[trigger] rs[i]).project_id == b.project_id && rs[i].client_id
            == b.client_id && rs[i].project_path == b.project_path && rs[i].task_id == b.task_id
            && rs[i].root_fingerprint == b.root_fingerprint {
        let i = choose|i: int|
            0 <= i < rs.len() && (#[trigger] rs[i]).project_id == b.project_id && rs[i].client_id
                == b.client_id && rs[i].project_path == b.project_path && rs[i].task_id == b.task_id
                && rs[i].root_fingerprint == b.root_fingerprint;
        assert(retires(rs[i], b));
    }
}

/// Freezing a task leaves it frozen and not yet retired; confirming it retires
/// it. Both change no other retirement.
pub proof fn law_retirement_has_two_steps(db: DatabaseView, b: BoundView, i: int)
    ensures
        retired(db, b, false).1 is Ok ==> fenced(retired(db, b, false).0.retirements, b),
        retired(db, b, false).1 is Ok && !fenced(db.retirements, b) ==> retired(
            db,
            b,
            false,
        ).0.retirements.len() == db.retirements.len() + 1 && !retired(
            db,
            b,
            false,
        ).0.retirements.last().retired && retired(db, b, false).0.retirements.last().task_id
            == b.task_id,
        0 <= i < db.retirements.len() ==> retired(db, b, false).0.retirements[i]
            == db.retirements[i],
        retired(db, b, true).1 is Ok ==> retired(db, b, true).0.retirements.len()
            == db.retirements.len() && (0 <= i < db.retirements.len() && retires(
            db.retirements[i],
            b,
        ) ==> retired(db, b, true).0.retirements[i].retired) && (0 <= i < db.retirements.len()
            && !retires(db.retirements[i], b) ==> retired(db, b, true).0.retirements[i]
            == db.retirements[i]),
{
    let rs = db.retirements;
    if retired(db, b, false).1 is Ok && !fenced(rs, b) {
        assert(retired(db, b, false).0.retirements[rs.len() as int] == retirement_of(b));
        assert(retires(retirement_of(b), b));
    }
}

/// Whether a binding is one of the project, and of the task and the file
/// identity where the scope names them.
pub open spec fn is_counted(
    s: ScopeView,
    project: Seq<char>,
    path: Seq<char>,
    task: Seq<char>,
    fingerprint: Seq<char>,
) -> bool {
    &&& project == s.project
    &&& path == s.path
    &&& s.task matches Some(t) ==> t == task
    &&& s.fingerprint matches Some(f) ==> f == fingerprint
}

proof fn lemma_bindings_prefix(bs: Seq<BoundView>, b: BoundView, s: ScopeView, k: nat)
    requires
        k <= bs.len(),
    ensures
        scope_bindings(bs.push(b), s, k) == scope_bindings(bs, s, k),
    decreases k,
{
    if k > 0 {
        lemma_bindings_prefix(bs, b, s, (k - 1) as nat);
    }
}

proof fn lemma_retirements_prefix(rs: Seq<RetirementView>, r: RetirementView, s: ScopeView, k: nat)
    requires
        k <= rs.len(),
    ensures
        scope_retirements(rs.push(r), s, k) == scope_retirements(rs, s, k),
    decreases k,
{
    if k > 0 {
        lemma_retirements_prefix(rs, r, s, (k - 1) as nat);
    }
}

/// The bindings and the retirements of a scope are counted one by one: each is
/// counted where it is in the scope, and a retirement only until it is
/// confirmed.
pub proof fn law_counts_go_one_by_one(
    bs: Seq<BoundView>,
    b: BoundView,
    rs: Seq<RetirementView>,
    r: RetirementView,
    s: ScopeView,
)
    ensures
        scope_bindings(Seq::empty(), s, 0) == 0,
        scope_bindings(bs.push(b), s, bs.push(b).len()) == scope_bindings(bs, s, bs.len()) + (
        if is_counted(s, b.project_id, b.project_path, b.task_id, b.root_fingerprint) {
            1nat
        } else {
            0nat
        }),
        scope_retirements(Seq::empty(), s, 0) == 0,
        scope_retirements(rs.push(r), s, rs.push(r).len()) == scope_retirements(rs, s, rs.len()) + (
        if !r.retired && is_counted(s, r.project_id, r.project_path, r.task_id, r.root_fingerprint) {
            1nat
        } else {
            0nat
        }),
{
    lemma_bindings_prefix(bs, b, s, bs.len());
    lemma_retirements_prefix(rs, r, s, rs.len());
}

proof fn lemma_session_prefix(rows: Seq<RowView>, x: RowView, session: Seq<char>, k: nat)
    requires
        k <= rows.len(),
    ensures
        session_rows(rows.push(x), session, k) == session_rows(rows, session, k),
    decreases k,
{
    if k > 0 {
        lemma_session_prefix(rows, x, session, (k - 1) as nat);
    }
}

/// The number of bindings of the session in the scope among the first `k`.
pub open spec fn counted_sessions(
    bs: Seq<BoundView>,
    s: ScopeView,
    session: Seq<char>,
    k: nat,
) -> nat
    decreases k,
{
    if k == 0 || k > bs.len() {
        0
    } else {
        counted_sessions(bs, s, session, (k - 1) as nat) + if bs[k - 1].session_id == session
            && is_counted(
            s,
            bs[k - 1].project_id,
            bs[k - 1].project_path,
            bs[k - 1].task_id,
            bs[k - 1].root_fingerprint,
        ) {
            1nat
        } else {
            0nat
        }
    }
}

proof fn lemma_row_counted(db: DatabaseView, x: RowView, s: ScopeView, k: nat)
    requires
        k <= db.bindings.len(),
    ensures
        scope_rows((DatabaseView { outbox: db.outbox.push(x), ..db }), s, k) == scope_rows(
            db,
            s,
            k,
        ) + counted_sessions(db.bindings, s, x.session_id, k),
    decreases k,
{
    if k > 0 {
        lemma_row_counted(db, x, s, (k - 1) as nat);
        lemma_session_prefix(
            db.outbox,
            x,
            db.bindings[k - 1].session_id,
            db.outbox.len(),
        );
    }
}

/// One more waiting event is counted as pending where its session is bound in
/// the scope, and nowhere else; in an empty outbox nothing is pending.
pub proof fn law_waiting_events_are_counted(db: DatabaseView, x: RowView, s: ScopeView)
    ensures
        scope_rows(
            (DatabaseView { outbox: db.outbox.push(x), ..db }),
            s,
            db.bindings.len(),
        ) == scope_rows(db, s, db.bindings.len()) + counted_sessions(
            db.bindings,
            s,
            x.session_id,
            db.bindings.len(),
        ),
        db.outbox.len() == 0 ==> scope_rows(db, s, db.bindings.len()) == 0,
{
    lemma_row_counted(db, x, s, db.bindings.len());
    if db.outbox.len() == 0 {
        lemma_nothing_counted(db, s, db.bindings.len());
    }
}

proof fn lemma_nothing_counted(db: DatabaseView, s: ScopeView, k: nat)
    requires
        db.outbox.len() == 0,
    ensures
        scope_rows(db, s, k) == 0,
    decreases k,
{
    if k > 0 && k <= db.bindings.len() {
        lemma_nothing_counted(db, s, (k - 1) as nat);
    }
}

} // verus!
