//! What the jobs of a task are said to be, over the list of its events.
use vstd::prelude::*;
use crate::jobs::{JobView, job_node, job_of, jobs_after, jobs_of, law_jobs_ordered, supersedes};
use crate::json::{Node};
use crate::record_laws::{key_code, lemma_record_member};
use crate::table::{lemma_lookup_position, lemma_put_lookup, lookup};
use crate::text::{lemma_lex_irreflexive, lex_less};

verus! {

/// Whether an event speaks of the job.
pub open spec fn speaks_of(event: Node, id: Seq<char>) -> bool {
    event.at("job_id"@) == Node::Text(id)
}

/// Whether an event says that its job has ended.
pub open spec fn says_ended(event: Node) -> bool {
    event.at("type"@) == Node::Text("job_terminal"@)
}

/// The number of an update; zero where it has none.
pub open spec fn update_number(event: Node) -> int {
    match event.at("job_update_seq"@) {
        Node::Unsigned(v) => v as int,
        _ => 0,
    }
}

/// Whether the event at `i` is the last word on the job among the first `k`: no
/// end of the job is passed over, and of what is left it is the last one with
/// the greatest number.
pub open spec fn last_word(events: Seq<Node>, k: int, id: Seq<char>, i: int) -> bool {
    &&& 0 <= i < k <= events.len()
    &&& speaks_of(events[i], id)
    &&& forall|j: int|
        0 <= j < k && #[trigger] speaks_of(events[j], id) ==> (says_ended(events[j]) ==> says_ended(
            events[i],
        )) && (says_ended(events[j]) == says_ended(events[i]) ==> update_number(events[j])
            < update_number(events[i]) || (update_number(events[j]) == update_number(events[i]) && j
            <= i))
}

/// Whether the job is shown as the event tells it.
pub open spec fn tells(event: Node, id: Seq<char>, job: JobView) -> bool {
    &&& job.job_id == id
    &&& job.status == event.at("status"@)
    &&& job.exit_code == event.at("exit_code"@)
    &&& job.job_update_seq == event.at("job_update_seq"@)
    &&& job.source == event.at("source"@)
    &&& job.terminal == says_ended(event)
}

proof fn lemma_last_word(events: Seq<Node>, k: nat, id: Seq<char>)
    requires
        k <= events.len(),
    ensures
        match lookup(jobs_after(events, k), id) {
            None => forall|j: int| 0 <= j < k ==> !#[trigger] speaks_of(events[j], id),
            Some(job) => exists|i: int|
                #[trigger] last_word(events, k as int, id, i) && tells(events[i], id, job),
        },
    decreases k,
{
    if k > 0 {
        lemma_last_word(events, (k - 1) as nat, id);
        let prior = jobs_after(events, (k - 1) as nat);
        let e = events[k - 1];
        let now = jobs_after(events, k);
        if let Node::Text(q) = e.at("job_id"@) {
            lemma_put_lookup(prior, q, job_of(q, e), id);
        }
        if speaks_of(e, id) {
            match lookup(prior, id) {
                None => {
                    assert(last_word(events, k as int, id, k - 1));
                },
                Some(job) => {
                    let i = choose|i: int|
                        #[trigger] last_word(events, k - 1, id, i) && tells(events[i], id, job);
                    if supersedes(Some(job), e) {
                        assert(last_word(events, k as int, id, k - 1));
                    } else {
                        assert(last_word(events, k as int, id, i));
                    }
                },
            }
        } else {
            if lookup(prior, id) is Some {
                let job = lookup(prior, id)->0;
                let i = choose|i: int|
                    #[trigger] last_word(events, k - 1, id, i) && tells(events[i], id, job);
                assert(last_word(events, k as int, id, i));
            }
        }
    }
}

/// There is one last word on a job.
proof fn lemma_one_last_word(events: Seq<Node>, id: Seq<char>, i: int, j: int)
    requires
        last_word(events, events.len() as int, id, i),
        last_word(events, events.len() as int, id, j),
    ensures
        i == j,
{
    assert(speaks_of(events[i], id) && speaks_of(events[j], id));
}

/// A job is shown as the last word on it tells it: where an end of the job is
/// recorded, the last end with the greatest number; where none is, the last
/// event of the job with the greatest number. It is shown once.
pub proof fn law_job_is_its_last_word(events: Seq<Node>, id: Seq<char>, i: int)
    requires
        last_word(events, events.len() as int, id, i),
    ensures
        exists|p: int|
            0 <= p < jobs_of(events).len() && tells(events[i], id, #[trigger] jobs_of(events)[p]),
        forall|p: int|
            0 <= p < jobs_of(events).len() && (#[trigger] jobs_of(events)[p]).job_id == id
                ==> tells(events[i], id, jobs_of(events)[p]),
        forall|p: int, q: int|
            0 <= p < q < jobs_of(events).len() ==> (#[trigger] jobs_of(events)[p]).job_id != (
            #[trigger] jobs_of(events)[q]).job_id,
{
    let table = jobs_after(events, events.len());
    lemma_last_word(events, events.len(), id);
    law_jobs_ordered(events, events.len());
    assert(speaks_of(events[i], id));
    let job = lookup(table, id)->0;
    let m = choose|m: int|
        #[trigger] last_word(events, events.len() as int, id, m) && tells(events[m], id, job);
    lemma_one_last_word(events, id, i, m);
    let at = lemma_lookup_position(table, id);
    assert(jobs_of(events)[at] == job);
    assert forall|p: int, q: int| 0 <= p < q < jobs_of(events).len() implies (
    #[trigger] jobs_of(events)[p]).job_id != (#[trigger] jobs_of(events)[q]).job_id by {
        assert(lex_less(table[p].0, table[q].0));
        lemma_lex_irreflexive(table[p].0);
        assert(table[p].1.job_id == table[p].0 && table[q].1.job_id == table[q].0);
    }
    assert forall|p: int| 0 <= p < jobs_of(events).len() && (#[trigger] jobs_of(events)[p]).job_id
        == id implies tells(events[i], id, jobs_of(events)[p]) by {
        if p != at {
            assert(jobs_of(events)[at].job_id == id);
        }
    }
}

/// A job is shown exactly where an event speaks of it, and there is a last word
/// on each such job.
pub proof fn law_jobs_are_those_spoken_of(events: Seq<Node>, id: Seq<char>)
    ensures
        (exists|p: int|
            0 <= p < jobs_of(events).len() && (#[trigger] jobs_of(events)[p]).job_id == id) <==> (
        exists|j: int| 0 <= j < events.len() && #[trigger] speaks_of(events[j], id)),
        (exists|j: int| 0 <= j < events.len() && #[trigger] speaks_of(events[j], id)) ==> exists|
            i: int,
        | #[trigger] last_word(events, events.len() as int, id, i),
{
    let table = jobs_after(events, events.len());
    lemma_last_word(events, events.len(), id);
    law_jobs_ordered(events, events.len());
    if exists|j: int| 0 <= j < events.len() && #[trigger] speaks_of(events[j], id) {
        let job = lookup(table, id)->0;
        let i = choose|i: int|
            #[trigger] last_word(events, events.len() as int, id, i) && tells(events[i], id, job);
        law_job_is_its_last_word(events, id, i);
    }
    if exists|p: int| 0 <= p < jobs_of(events).len() && (#[trigger] jobs_of(events)[p]).job_id
        == id {
        let p = choose|p: int|
            0 <= p < jobs_of(events).len() && (#[trigger] jobs_of(events)[p]).job_id == id;
        assert(table[p].0 == id);
        if lookup(table, id) is None {
            lemma_present(table, id, p);
        }
        let job = lookup(table, id)->0;
        let i = choose|i: int|
            #[trigger] last_word(events, events.len() as int, id, i) && tells(events[i], id, job);
        assert(speaks_of(events[i], id));
    }
}

proof fn lemma_present(s: Seq<(Seq<char>, JobView)>, k: Seq<char>, p: int)
    requires
        0 <= p < s.len(),
        s[p].0 == k,
    ensures
        lookup(s, k) is Some,
    decreases s.len(),
{
    if s[0].0 != k {
        assert(s.drop_first()[p - 1] == s[p]);
        lemma_present(s.drop_first(), k, p - 1);
    }
}

/// What is recorded of a job later with a greater number, or with the same one,
/// is shown, unless the job has ended and the later event does not say so.
pub proof fn law_newer_report_is_shown(events: Seq<Node>, event: Node, id: Seq<char>)
    requires
        speaks_of(event, id),
        forall|j: int|
            0 <= j < events.len() && #[trigger] speaks_of(events[j], id) ==> (says_ended(events[j])
                ==> says_ended(event)) && (says_ended(event) && !says_ended(events[j])
                || update_number(events[j]) <= update_number(event)),
    ensures
        exists|p: int|
            0 <= p < jobs_of(events.push(event)).len() && tells(
                event,
                id,
                #[trigger] jobs_of(events.push(event))[p],
            ),
{
    let all = events.push(event);
    let last = events.len() as int;
    assert forall|j: int| 0 <= j < all.len() && #[trigger] speaks_of(all[j], id) implies (
    says_ended(all[j]) ==> says_ended(all[last])) && (says_ended(all[j]) == says_ended(all[last])
        ==> update_number(all[j]) < update_number(all[last]) || (update_number(all[j])
        == update_number(all[last]) && j <= last)) by {
        if j < last {
            assert(all[j] == events[j]);
            assert(speaks_of(events[j], id));
        }
    }
    assert(last_word(all, all.len() as int, id, last));
    law_job_is_its_last_word(all, id, last);
}

/// A job whose end is recorded is shown as ended, whatever was recorded before
/// and whatever is recorded after.
pub proof fn law_recorded_end_is_shown(events: Seq<Node>, id: Seq<char>, j: int)
    requires
        0 <= j < events.len(),
        speaks_of(events[j], id),
        says_ended(events[j]),
    ensures
        exists|p: int|
            0 <= p < jobs_of(events).len() && (#[trigger] jobs_of(events)[p]).job_id == id
                && jobs_of(events)[p].terminal,
{
    law_jobs_are_those_spoken_of(events, id);
    let i = choose|i: int| #[trigger] last_word(events, events.len() as int, id, i);
    law_job_is_its_last_word(events, id, i);
    let p = choose|p: int|
        0 <= p < jobs_of(events).len() && tells(events[i], id, #[trigger] jobs_of(events)[p]);
    assert(jobs_of(events)[p].job_id == id);
}

proof fn lemma_job_codes()
    ensures
        key_code("job_id"@) == 27555488356,
        key_code("status"@) == 27706810739,
        key_code("terminal"@) == 36312543852,
        key_code("exit_code"@) == 40357095781,
        key_code("job_update_seq"@) == 61915226737,
        key_code("source"@) == 27706488165,
{
    reveal_strlit("job_id");
    reveal_strlit("status");
    reveal_strlit("terminal");
    reveal_strlit("exit_code");
    reveal_strlit("job_update_seq");
    reveal_strlit("source");
}

/// The JSON object of a job says what is known of it.
pub proof fn law_job_object(job: JobView)
    ensures
        job_node(job).at("job_id"@) == Node::Text(job.job_id),
        job_node(job).at("status"@) == job.status,
        job_node(job).at("terminal"@) == Node::Bool(job.terminal),
        job_node(job).at("exit_code"@) == job.exit_code,
        job_node(job).at("job_update_seq"@) == job.job_update_seq,
        job_node(job).at("source"@) == job.source,
{
    lemma_job_codes();
    let s = seq![
        ("job_id"@, Node::Text(job.job_id)),
        ("status"@, job.status),
        ("terminal"@, Node::Bool(job.terminal)),
        ("exit_code"@, job.exit_code),
        ("job_update_seq"@, job.job_update_seq),
        ("source"@, job.source),
    ];
    lemma_record_member(s, 0);
    lemma_record_member(s, 1);
    lemma_record_member(s, 2);
    lemma_record_member(s, 3);
    lemma_record_member(s, 4);
    lemma_record_member(s, 5);
}

} // verus!
