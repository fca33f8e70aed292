//! What the recorded events say of the jobs of a task.
use vstd::prelude::*;
use crate::codec::{alike, lemma_alike_member};
use crate::failure::{views};
use crate::json::{
    Json, Node, entries, lemma_array_view, lemma_object_view, nodes, object, record, text_json,
};
use crate::normal_form::{lemma_ranks};
use crate::table::{
    assign, get, lemma_lookup_end, lemma_put_keys, lemma_put_lookup, lemma_put_ordered, lookup,
    ordered, pairs, put,
};
use crate::text::{length, owned, same};

verus! {

/// The latest state of one job.
#[derive(Debug)]
pub struct Job {
    pub job_id: String,
    pub status: Json,
    pub terminal: bool,
    pub exit_code: Json,
    pub job_update_seq: Json,
    pub source: Json,
}

pub struct JobView {
    pub job_id: Seq<char>,
    pub status: Node,
    pub terminal: bool,
    pub exit_code: Node,
    pub job_update_seq: Node,
    pub source: Node,
}

impl View for Job {
    type V = JobView;

    open spec fn view(&self) -> JobView {
        JobView {
            job_id: self.job_id@,
            status: self.status@,
            terminal: self.terminal,
            exit_code: self.exit_code@,
            job_update_seq: self.job_update_seq@,
            source: self.source@,
        }
    }
}

/// The JSON object of a job.
pub open spec fn job_node(j: JobView) -> Node {
    record(
        seq![
            ("job_id"@, Node::Text(j.job_id)),
            ("status"@, j.status),
            ("terminal"@, Node::Bool(j.terminal)),
            ("exit_code"@, j.exit_code),
            ("job_update_seq"@, j.job_update_seq),
            ("source"@, j.source),
        ],
    )
}

impl Job {
    pub fn to_json(&self) -> (r: Json)
        ensures
            r@ == job_node(self@),
    {
        let members = vec![
            ("job_id", text_json(self.job_id.as_str())),
            ("status", self.status.copy()),
            ("terminal", Json::Bool(self.terminal)),
            ("exit_code", self.exit_code.copy()),
            ("job_update_seq", self.job_update_seq.copy()),
            ("source", self.source.copy()),
        ];
        proof {
            assert(entries(members@) =~= seq![
                ("job_id"@, Node::Text(self@.job_id)),
                ("status"@, self@.status),
                ("terminal"@, Node::Bool(self@.terminal)),
                ("exit_code"@, self@.exit_code),
                ("job_update_seq"@, self@.job_update_seq),
                ("source"@, self@.source),
            ]);
        }
        object(members)
    }
}

/// Whether an event reports the end of a job.
pub open spec fn is_terminal(event: Node) -> bool {
    event.at("type"@) == Node::Text("job_terminal"@)
}

/// The state of a job that an event reports.
pub open spec fn job_of(id: Seq<char>, event: Node) -> JobView {
    JobView {
        job_id: id,
        status: event.at("status"@),
        terminal: is_terminal(event),
        exit_code: event.at("exit_code"@),
        job_update_seq: event.at("job_update_seq"@),
        source: event.at("source"@),
    }
}

/// The sequence number that a value gives; zero where it gives none.
pub open spec fn sequence(n: Node) -> u64 {
    match n.unsigned() {
        Some(v) => v,
        None => 0,
    }
}

/// Whether an event takes the place of what is known of its job: the end of a
/// job is never replaced by an earlier state, and replaces any such state;
/// otherwise the sequence number must not be lower.
pub open spec fn supersedes(known: Option<JobView>, event: Node) -> bool {
    match known {
        None => true,
        Some(j) => if j.terminal && !is_terminal(event) {
            false
        } else {
            (is_terminal(event) && !j.terminal) || sequence(event.at("job_update_seq"@))
                >= sequence(j.job_update_seq)
        },
    }
}

/// The jobs after one more event.
pub open spec fn absorbed(jobs: Seq<(Seq<char>, JobView)>, event: Node) -> Seq<
    (Seq<char>, JobView),
> {
    match event.at("job_id"@).text() {
        None => jobs,
        Some(id) => if supersedes(lookup(jobs, id), event) {
            put(jobs, id, job_of(id, event))
        } else {
            jobs
        },
    }
}

/// The jobs after the first `k` events, by job id.
pub open spec fn jobs_after(events: Seq<Node>, k: nat) -> Seq<(Seq<char>, JobView)>
    decreases k,
{
    if k == 0 || k > events.len() {
        Seq::empty()
    } else {
        absorbed(jobs_after(events, (k - 1) as nat), events[k - 1])
    }
}

/// The jobs that the events report, in the order of their ids.
pub open spec fn jobs_of(events: Seq<Node>) -> Seq<JobView> {
    let table = jobs_after(events, events.len());
    Seq::new(table.len(), |i: int| table[i].1)
}

/// The jobs that the events report, in the order of their ids.
pub fn job_projection(events: &Vec<Json>) -> (r: Vec<Job>)
    ensures
        views(r@) == jobs_of(nodes(events@)),
{
    let mut table: Vec<(String, Job)> = Vec::new();
    proof {
        assert(pairs(table@) =~= Seq::<(Seq<char>, JobView)>::empty());
    }
    let mut i: usize = 0;
    while i < events.len()
        invariant
            i <= events@.len(),
            pairs(table@) == jobs_after(nodes(events@), i as nat),
        decreases events@.len() - i,
    {
        let event = &events[i];
        proof {
            assert(nodes(events@)[i as int] == event@);
        }
        match event.text_at("job_id") {
            None => {},
            Some(id) => {
                let terminal = event.has_text("type", "job_terminal");
                let replace = match get(&table, id) {
                    None => true,
                    Some(known) => if known.terminal && !terminal {
                        false
                    } else {
                        (terminal && !known.terminal) || number_at(event) >= number_of(
                            &known.job_update_seq,
                        )
                    },
                };
                if replace {
                    let job = Job {
                        job_id: owned(id),
                        status: event.copy_at("status"),
                        terminal,
                        exit_code: event.copy_at("exit_code"),
                        job_update_seq: event.copy_at("job_update_seq"),
                        source: event.copy_at("source"),
                    };
                    assign(&mut table, owned(id), job);
                }
            },
        }
        i += 1;
    }
    let ghost all = pairs(table@);
    let mut rest = table;
    let mut out: Vec<Job> = Vec::new();
    let count: usize = rest.len();
    while out.len() < count
        invariant
            count == all.len(),
            out@.len() <= count,
            pairs(rest@) == all.skip(out@.len() as int),
            forall|k: int| 0 <= k < out@.len() ==> (#[trigger] out@[k])@ == all[k].1,
        decreases count - out@.len(),
    {
        let ghost done = out@.len() as int;
        let ghost prior = pairs(rest@);
        proof {
            assert(prior.len() == rest@.len());
            assert(prior[0] == all[done]);
        }
        let (_key, job) = rest.remove(0);
        proof {
            assert(pairs(rest@) =~= prior.skip(1));
            assert(prior.skip(1) =~= all.skip(done + 1));
        }
        out.push(job);
    }
    proof {
        assert(views(out@) =~= jobs_of(nodes(events@)));
    }
    out
}

fn number_of(value: &Json) -> (r: u64)
    ensures
        r == sequence(value@),
{
    match value.as_u64() {
        Some(v) => v,
        None => 0,
    }
}

fn number_at(event: &Json) -> (r: u64)
    ensures
        r == sequence(event@.at("job_update_seq"@)),
{
    match event.get("job_update_seq") {
        Some(v) => number_of(v),
        None => 0,
    }
}

/// Whether every job has ended.
pub fn all_ended(jobs: &Vec<Job>) -> (r: bool)
    ensures
        r == forall|i: int| 0 <= i < jobs@.len() ==> (#[trigger] views(jobs@)[i]).terminal,
{
    let mut i: usize = 0;
    while i < jobs.len()
        invariant
            i <= jobs@.len(),
            forall|k: int| 0 <= k < i ==> (#[trigger] views(jobs@)[k]).terminal,
        decreases jobs@.len() - i,
    {
        if !jobs[i].terminal {
            proof {
                assert(!views(jobs@)[i as int].terminal);
            }
            return false;
        }
        i += 1;
    }
    true
}

/// The JSON objects of the first `limit` jobs.
pub open spec fn job_nodes(jobs: Seq<JobView>, limit: int) -> Node {
    let shown = if jobs.len() <= limit {
        jobs
    } else {
        jobs.take(limit)
    };
    Node::List(Seq::new(shown.len(), |i: int| job_node(shown[i])))
}

pub fn jobs_json(jobs: &Vec<Job>, limit: usize) -> (r: Json)
    ensures
        r@ == job_nodes(views(jobs@), limit as int),
{
    let count: usize = if jobs.len() <= limit {
        jobs.len()
    } else {
        limit
    };
    let ghost want = job_nodes(views(jobs@), limit as int)->List_0;
    proof {
        assert(views(jobs@).len() == jobs@.len());
    }
    let mut out: Vec<Json> = Vec::new();
    let mut i: usize = 0;
    while i < count
        invariant
            i <= count <= jobs@.len(),
            want.len() == count,
            forall|k: int| 0 <= k < count ==> #[trigger] want[k] == job_node(views(jobs@)[k]),
            nodes(out@) == want.take(i as int),
        decreases count - i,
    {
        let ghost prior = nodes(out@);
        let c = jobs[i].to_json();
        out.push(c);
        proof {
            assert(nodes(out@) =~= prior.push(c@));
            assert(want[i as int] == c@);
            assert(nodes(out@) =~= want.take(i + 1));
        }
        i += 1;
    }
    proof {
        lemma_array_view(out);
        assert(nodes(out@) =~= want);
    }
    Json::Array(out)
}

/// Whether a field only says how an event was delivered.
pub open spec fn is_transport(k: Seq<char>) -> bool {
    k == "event_id"@ || k == "source"@ || k == "observed_at"@
}

/// The fields that say what happened.
pub open spec fn substance(s: Seq<(Seq<char>, Node)>) -> Seq<(Seq<char>, Node)>
    decreases s.len(),
{
    if s.len() == 0 {
        Seq::empty()
    } else {
        let prior = substance(s.drop_last());
        if is_transport(s.last().0) {
            prior
        } else {
            prior.push(s.last())
        }
    }
}

/// Whether the two sources are the runner and the server, in either order.
pub open spec fn replicated(a: Node, b: Node) -> bool {
    ||| (a == Node::Text("runner"@) && b == Node::Text("webcodex"@))
    ||| (a == Node::Text("webcodex"@) && b == Node::Text("runner"@))
}

/// Whether two events report the same end of a job, one through the runner and
/// one through the server.
pub open spec fn same_end(existing: Node, incoming: Node) -> bool {
    &&& replicated(existing.at("source"@), incoming.at("source"@))
    &&& is_terminal(existing)
    &&& is_terminal(incoming)
    &&& (existing.at("job_id"@) matches Node::Text(s) && s.len() > 0)
    &&& existing.at("job_update_seq"@) is Unsigned
    &&& existing.at("status"@) is Text
    &&& alike(
        Node::Record(substance(existing->Record_0)),
        Node::Record(substance(incoming->Record_0)),
    )
}

/// A copy of the fields that say what happened.
fn copy_substance(fields: &Vec<(String, Json)>) -> (r: Json)
    ensures
        r@ == Node::Record(substance(pairs(fields@))),
{
    let mut out: Vec<(String, Json)> = Vec::new();
    let mut i: usize = 0;
    proof {
        assert(pairs(fields@).take(0) =~= Seq::<(Seq<char>, Node)>::empty());
        assert(pairs(out@) =~= Seq::<(Seq<char>, Node)>::empty());
    }
    while i < fields.len()
        invariant
            i <= fields@.len(),
            pairs(out@) == substance(pairs(fields@).take(i as int)),
        decreases fields@.len() - i,
    {
        let ghost prior = pairs(out@);
        let ghost now = pairs(fields@).take(i + 1);
        proof {
            assert(now.drop_last() =~= pairs(fields@).take(i as int));
            assert(now.last() == (fields@[i as int].0@, fields@[i as int].1@));
        }
        let key = fields[i].0.as_str();
        if !(same(key, "event_id") || same(key, "source") || same(key, "observed_at")) {
            let c = fields[i].1.copy();
            out.push((fields[i].0.clone(), c));
            proof {
                assert(pairs(out@) =~= prior.push(now.last()));
            }
        }
        i += 1;
    }
    proof {
        assert(pairs(fields@).take(fields@.len() as int) =~= pairs(fields@));
        lemma_object_view(out);
    }
    Json::Object(out)
}

/// Whether two events report the same end of a job. Only transport metadata may
/// differ: notes and added fields are distinct evidence.
pub fn same_terminal_job_fact(existing: &Json, incoming: &Json) -> (r: bool)
    ensures
        r == same_end(existing@, incoming@),
{
    let crossed = (existing.has_text("source", "runner") && incoming.has_text(
        "source",
        "webcodex",
    )) || (existing.has_text("source", "webcodex") && incoming.has_text("source", "runner"));
    if !crossed || !existing.has_text("type", "job_terminal") || !incoming.has_text(
        "type",
        "job_terminal",
    ) {
        return false;
    }
    let named = match existing.text_at("job_id") {
        Some(s) => length(s) > 0,
        None => false,
    };
    let numbered = match existing.get("job_update_seq") {
        Some(v) => v.as_u64().is_some(),
        None => false,
    };
    let stated = existing.text_at("status").is_some();
    if !named || !numbered || !stated {
        return false;
    }
    match (existing.as_object(), incoming.as_object()) {
        (Some(a), Some(b)) => copy_substance(a).equals(&copy_substance(b)),
        _ => false,
    }
}

/// The fields that say what happened are still found.
pub proof fn lemma_substance_lookup(s: Seq<(Seq<char>, Node)>, k: Seq<char>)
    requires
        !is_transport(k),
    ensures
        lookup(substance(s), k) == lookup(s, k),
    decreases s.len(),
{
    if s.len() > 0 {
        let init = s.drop_last();
        lemma_substance_lookup(init, k);
        lemma_lookup_end(init, s.last(), k);
        assert(init.push(s.last()) =~= s);
        if !is_transport(s.last().0) {
            lemma_lookup_end(substance(init), s.last(), k);
        }
    } else {
        assert(substance(s) =~= s);
    }
}

/// That two events report the same end of a job does not depend on which came
/// first.
pub proof fn law_same_end_symmetric(a: Node, b: Node)
    requires
        same_end(a, b),
    ensures
        same_end(b, a),
{
    lemma_ranks();
    lemma_substance_lookup(a->Record_0, "job_id"@);
    lemma_substance_lookup(b->Record_0, "job_id"@);
    lemma_substance_lookup(a->Record_0, "job_update_seq"@);
    lemma_substance_lookup(b->Record_0, "job_update_seq"@);
    lemma_substance_lookup(a->Record_0, "status"@);
    lemma_substance_lookup(b->Record_0, "status"@);
    let x = substance(a->Record_0);
    let y = substance(b->Record_0);
    lemma_alike_member(x, y, "job_id"@);
    lemma_alike_member(x, y, "job_update_seq"@);
    lemma_alike_member(x, y, "status"@);
}

/// A job that has ended stays ended whatever is recorded later, and the
/// sequence number of its end never goes down.
pub proof fn law_end_is_kept(events: Seq<Node>, k: nat, m: nat, id: Seq<char>)
    requires
        k <= m <= events.len(),
        lookup(jobs_after(events, k), id) matches Some(j) && j.terminal,
    ensures
        lookup(jobs_after(events, m), id) matches Some(j) && j.terminal && sequence(
            j.job_update_seq,
        ) >= sequence(lookup(jobs_after(events, k), id)->0.job_update_seq),
    decreases m - k,
{
    if k < m {
        law_end_is_kept(events, k, (m - 1) as nat, id);
        let prior = jobs_after(events, (m - 1) as nat);
        let event = events[m - 1];
        match event.at("job_id"@).text() {
            None => {},
            Some(q) => {
                if supersedes(lookup(prior, q), event) {
                    lemma_put_lookup(prior, q, job_of(q, event), id);
                }
            },
        }
    }
}

/// Every job of the projection is named by an event, and none is named twice.
pub proof fn law_jobs_ordered(events: Seq<Node>, k: nat)
    requires
        k <= events.len(),
    ensures
        ordered(jobs_after(events, k)),
        forall|i: int|
            0 <= i < jobs_after(events, k).len() ==> (#[trigger] jobs_after(events, k)[i]).1.job_id
                == jobs_after(events, k)[i].0,
    decreases k,
{
    if k > 0 {
        law_jobs_ordered(events, (k - 1) as nat);
        let prior = jobs_after(events, (k - 1) as nat);
        let event = events[k - 1];
        match event.at("job_id"@).text() {
            None => {},
            Some(q) => {
                if supersedes(lookup(prior, q), event) {
                    let v = job_of(q, event);
                    lemma_put_ordered(prior, q, v);
                    let now = put(prior, q, v);
                    assert forall|i: int| 0 <= i < now.len() implies (#[trigger] now[i]).1.job_id
                        == now[i].0 by {
                        lemma_put_keys(prior, q, v, i);
                        if now[i] != (q, v) {
                            let j = choose|j: int|
                                0 <= j < prior.len() && #[trigger] prior[j] == now[i];
                            assert(prior[j].1.job_id == prior[j].0);
                        }
                    }
                }
            },
        }
    }
}

} // verus!
