//! What is recorded of the calls and the jobs of a session.
use vstd::prelude::*;
use vstd::utf8::*;
use crate::accepted_laws::{is_id_text, lemma_id_text};
use crate::codec::{json_text};
use crate::digest::{digest_of};
use crate::event::{event_of};
use crate::fact_laws::{law_facts_are_kept, law_numbers_are_kept};
use crate::flush::{disabled_note, saved_note};
use crate::job_laws::{
    law_newer_report_is_shown, law_recorded_end_is_shown, says_ended, speaks_of, tells,
    update_number,
};
use crate::jobs::{is_terminal, jobs_of};
use crate::json::{Node, record, signed_node};
use crate::normal_form::{lemma_ranks};
use crate::outbox::{
    ReceiptView, SourceStatus, captured, payload_of, row_for, source_node, source_state,
    terminal_id, terminal_node,
};
use crate::record_laws::{key_code, lemma_record_absent, lemma_record_member, lemma_set_member};
use crate::runner_job::{SnapshotView, update_id, update_node};
use crate::server::{
    StartView, TablesView, capture_note, fact_captured, fact_of, is_job_id, not_started,
    pending_note, reported_paths, text_nodes, tool_event_id, with_changed_paths,
};
use crate::store::{BoundView, DatabaseView, binding_for, has_gap};
use crate::text::{decimal, has_prefix};
use crate::tool::{ToolView, with_member};

verus! {

proof fn lemma_fact_codes()
    ensures
        key_code("type"@) == 19133984869,
        key_code("source"@) == 27706488165,
        key_code("event_id"@) == 36061996388,
        key_code("tool"@) == 19133329260,
        key_code("success"@) == 32001844083,
        key_code("status"@) == 27706810739,
        key_code("observed_at"@) == 49113363316,
        key_code("paths"@) == 23360271475,
        key_code("unknown"@) == 32034941806,
        key_code("exit_code"@) == 40357095781,
        key_code("job_id"@) == 27555488356,
        key_code("job_update_seq"@) == 61915226737,
{
    reveal_strlit("type");
    reveal_strlit("source");
    reveal_strlit("event_id");
    reveal_strlit("tool");
    reveal_strlit("success");
    reveal_strlit("status");
    reveal_strlit("observed_at");
    reveal_strlit("paths");
    reveal_strlit("unknown");
    reveal_strlit("exit_code");
    reveal_strlit("job_id");
    reveal_strlit("job_update_seq");
}

/// The texts as values, as far as a list of paths goes.
pub open spec fn first_paths(paths: Seq<Seq<char>>) -> Node {
    Node::List(
        Seq::new(
            if paths.len() <= 32 {
                paths.len()
            } else {
                32
            },
            |i: int| Node::Text(paths[i]),
        ),
    )
}

/// The fact of a finished call says whether it succeeded, in its status too
/// unless paths had to be left out; which tool it was; when it started; which
/// paths it changed; and the exit code and the job that it gave.
pub proof fn law_call_fact_says_what_happened(start: StartView, result: ToolView)
    ensures
        ({
            let f = fact_of(start, result);
            let paths = start.changed_paths;
            &&& f.at("type"@) == Node::Text("tool_finished"@)
            &&& f.at("source"@) == Node::Text("webcodex"@)
            &&& f.at("event_id"@) == Node::Text(
                "tool-"@ + digest_of(
                    encode_utf8(
                        start.session_id + seq!['\0'] + (match start.logical_invocation_id {
                            Some(id) => id,
                            None => start.call_id,
                        }),
                    ),
                ),
            )
            &&& f.at("tool"@) == Node::Text(start.tool_name)
            &&& f.at("success"@) == Node::Bool(result.success)
            &&& f.at("observed_at"@).signed() == Some(start.started_at)
            &&& paths.len() <= 32 && result.success ==> f.at("status"@) == Node::Text(
                "tool_succeeded"@,
            )
            &&& paths.len() <= 32 && !result.success ==> f.at("status"@) == Node::Text(
                "tool_failed"@,
            )
            &&& paths.len() <= 32 ==> f.member("unknown"@) is None
            &&& paths.len() > 32 ==> f.at("status"@) == Node::Text("partial_path_coverage"@) && f.at(
                "unknown"@,
            ) == Node::Bool(true)
            &&& paths.len() == 0 ==> f.member("paths"@) is None
            &&& paths.len() > 0 ==> f.at("paths"@) == first_paths(paths)
            &&& f.at("exit_code"@).signed() == result.output.at("exit_code"@).signed()
            &&& result.output.at("exit_code"@).signed() is None ==> f.member("exit_code"@) is None
            &&& f.member("job_id"@) matches Some(id) ==> id == result.output.at("job_id"@)
            &&& result.output.at("job_id"@) matches Node::Text(id) ==> (f.at("job_id"@)
                == Node::Text(id) <==> is_id_text(Node::Text(id)))
            &&& f.member("job_update_seq"@) is None
        }),
{
    lemma_fact_codes();
    let s = seq![
        ("type"@, Node::Text("tool_finished"@)),
        ("source"@, Node::Text("webcodex"@)),
        ("event_id"@, Node::Text(tool_event_id(start))),
        ("tool"@, Node::Text(start.tool_name)),
        ("success"@, Node::Bool(result.success)),
        (
            "status"@,
            Node::Text(
                if result.success {
                    "tool_succeeded"@
                } else {
                    "tool_failed"@
                },
            ),
        ),
        ("observed_at"@, signed_node(start.started_at)),
    ];
    let base = record(s);
    lemma_record_member(s, 0);
    lemma_record_member(s, 1);
    lemma_record_member(s, 2);
    lemma_record_member(s, 3);
    lemma_record_member(s, 4);
    lemma_record_member(s, 5);
    lemma_record_member(s, 6);
    lemma_record_absent(s, "paths"@);
    lemma_record_absent(s, "unknown"@);
    lemma_record_absent(s, "exit_code"@);
    lemma_record_absent(s, "job_id"@);
    lemma_record_absent(s, "job_update_seq"@);
    let paths = start.changed_paths;
    let list = Node::List(text_nodes(reported_paths(paths)));
    assert(paths.len() > 0 ==> list == first_paths(paths)) by {
        assert(text_nodes(reported_paths(paths)) =~= first_paths(paths)->List_0);
    }
    let named = with_changed_paths(base, paths);
    let one = with_member(base, "paths"@, list);
    let two = with_member(one, "unknown"@, Node::Bool(true));
    assert forall|q: Seq<char>| #[trigger] named.member(q) == (if paths.len() == 0 {
        base.member(q)
    } else if q == "paths"@ {
        Some(list)
    } else if paths.len() > 32 && q == "unknown"@ {
        Some(Node::Bool(true))
    } else if paths.len() > 32 && q == "status"@ {
        Some(Node::Text("partial_path_coverage"@))
    } else {
        base.member(q)
    }) by {
        lemma_set_member(base, "paths"@, list, q);
        lemma_set_member(one, "unknown"@, Node::Bool(true), q);
        lemma_set_member(two, "status"@, Node::Text("partial_path_coverage"@), q);
    }
    let given = result.output.at("exit_code"@).signed();
    let coded = match given {
        Some(code) => with_member(named, "exit_code"@, signed_node(code)),
        None => named,
    };
    assert(named is Record);
    assert forall|q: Seq<char>| #[trigger] coded.member(q) == (if q == "exit_code"@ && given is Some {
        Some(signed_node(given->0))
    } else {
        named.member(q)
    }) by {
        if given is Some {
            lemma_set_member(named, "exit_code"@, signed_node(given->0), q);
        }
    }
    let job = result.output.at("job_id"@);
    if job is Text {
        lemma_id_text(job->Text_0);
    }
    let f = fact_of(start, result);
    assert forall|q: Seq<char>| #[trigger] f.member(q) == (if q == "job_id"@ && is_job_id(job) {
        Some(job)
    } else {
        coded.member(q)
    }) by {
        lemma_set_member(coded, "job_id"@, job, q);
    }
}

/// What is queued for a finished call, if anything is, is one event of the
/// session that says whether the call succeeded: with at most 32 changed paths
/// its status is `tool_succeeded` where it did and `tool_failed` where it did
/// not.
pub proof fn law_queued_call_says_whether_it_succeeded(
    db: DatabaseView,
    start: StartView,
    result: ToolView,
)
    requires
        fact_captured(TablesView::Open(db), Some(start), result).0->Open_0.outbox != db.outbox,
    ensures
        ({
            let after = fact_captured(TablesView::Open(db), Some(start), result).0;
            &&& after matches TablesView::Open(done) && done.outbox == db.outbox.push(
                done.outbox.last(),
            ) && done.bindings == db.bindings && done.gaps == db.gaps && done.retirements
                == db.retirements
            &&& exists|f: Node|
                #![trigger json_text(f)]
                {
                    let row = after->Open_0.outbox.last();
                    &&& json_text(f) == Some(row.payload)
                    &&& f.at("event_id"@) == Node::Text(row.event_id)
                    &&& row.session_id == start.session_id
                    &&& row.created_at == start.started_at
                    &&& f.at("success"@) == Node::Bool(result.success)
                    &&& start.changed_paths.len() <= 32 && result.success ==> f.at("status"@)
                        == Node::Text("tool_succeeded"@)
                    &&& start.changed_paths.len() <= 32 && !result.success ==> f.at("status"@)
                        == Node::Text("tool_failed"@)
                    &&& start.changed_paths.len() > 32 ==> f.at("status"@) == Node::Text(
                        "partial_path_coverage"@,
                    )
                }
            &&& fact_captured(TablesView::Open(db), Some(start), result).1 matches Some(note)
                && note.at("status"@) == Node::Text("pending"@)
        }),
{
    let f = fact_of(start, result);
    law_call_fact_says_what_happened(start, result);
    assert(json_text(f) is Some);
    law_notes("pending"@, ""@);
    let done = fact_captured(TablesView::Open(db), Some(start), result).0->Open_0;
    assert(done.outbox =~= db.outbox.push(done.outbox.last()));
}

/// What the caller is told is the status and the reason.
pub proof fn law_notes(status: Seq<char>, reason: Seq<char>)
    ensures
        capture_note(status, reason).at("status"@) == Node::Text(status),
        capture_note(status, reason).at("reason"@) == Node::Text(reason),
        pending_note().at("status"@) == Node::Text("pending"@),
        disabled_note().at("status"@) == Node::Text("disabled"@),
        saved_note(reason).at("status"@) == Node::Text("saved"@),
        saved_note(reason).at("task_id"@) == Node::Text(reason),
        not_started().at("execution_state"@) == Node::Text("not_started"@),
{
    lemma_note_codes();
    let s = seq![("status"@, Node::Text(status)), ("reason"@, Node::Text(reason))];
    lemma_record_member(s, 0);
    lemma_record_member(s, 1);
    lemma_record_member(seq![("status"@, Node::Text("pending"@))], 0);
    lemma_record_member(seq![("status"@, Node::Text("disabled"@))], 0);
    let t = seq![("status"@, Node::Text("saved"@)), ("task_id"@, Node::Text(reason))];
    lemma_record_member(t, 0);
    lemma_record_member(t, 1);
    lemma_record_member(seq![("execution_state"@, Node::Text("not_started"@))], 0);
}

proof fn lemma_note_codes()
    ensures
        key_code("status"@) == 27706810739,
        key_code("reason"@) == 27689050478,
        key_code("task_id"@) == 32017314660,
{
    reveal_strlit("status");
    reveal_strlit("reason");
    reveal_strlit("task_id");
}

/// A call of the recorder itself, one that did not start, one of the handoff
/// tools and one that can change nothing are not recorded; nor is one of a
/// session without a binding.
pub proof fn law_other_calls_are_not_recorded(t: TablesView, start: StartView, result: ToolView)
    requires
        start.logical_invocation_role == Some("recorder"@) || result.output.at("execution_state"@)
            == Node::Text("not_started"@) || (exists|rest: Seq<char>|
            start.tool_name == #[trigger] ("project_handoff_"@ + rest)) || (!start.write_like
            && !start.shell_like) || (t matches TablesView::Open(db) && binding_for(
            db.bindings,
            start.session_id,
        ) is None),
    ensures
        fact_captured(t, Some(start), result) == (t, None::<Node>),
{
    if exists|rest: Seq<char>| start.tool_name == #[trigger] ("project_handoff_"@ + rest) {
        let rest = choose|rest: Seq<char>| start.tool_name == #[trigger] ("project_handoff_"@ + rest);
        let prefix = "project_handoff_"@;
        assert((prefix + rest).take(prefix.len() as int) =~= prefix);
    }
}

/// Every other call of a bound session is recorded, where its fact can be
/// printed, is not yet there and the outbox has room.
pub proof fn law_working_calls_are_recorded(
    db: DatabaseView,
    b: BoundView,
    start: StartView,
    result: ToolView,
)
    requires
        start.logical_invocation_role != Some("recorder"@),
        result.output.at("execution_state"@) != Node::Text("not_started"@),
        forall|rest: Seq<char>| start.tool_name != #[trigger] ("project_handoff_"@ + rest),
        start.write_like || start.shell_like,
        binding_for(db.bindings, start.session_id) == Some(b),
        start.resolved_project == Some(b.project_id),
        payload_of(fact_of(start, result)) is Ok,
        row_for(db.outbox, tool_event_id(start)) is None,
        db.outbox.len() < 4096,
    ensures
        ({
            let (after, note) = fact_captured(TablesView::Open(db), Some(start), result);
            &&& after->Open_0.outbox.len() == db.outbox.len() + 1
            &&& after->Open_0.outbox.last().session_id == start.session_id
            &&& after->Open_0.outbox.last().event_id == tool_event_id(start)
            &&& note matches Some(n) && n.at("status"@) == Node::Text("pending"@)
        }),
{
    law_call_fact_says_what_happened(start, result);
    law_notes("pending"@, ""@);
    if has_prefix(start.tool_name, "project_handoff_"@) {
        let n = "project_handoff_"@.len() as int;
        let rest = start.tool_name.skip(n);
        assert(start.tool_name =~= start.tool_name.take(n) + rest);
        assert(start.tool_name == "project_handoff_"@ + rest);
    }
}

/// The event for an update of a job says that the job ended exactly where the
/// update does, and otherwise that it was started; it names the job, its status
/// and the number of the update.
pub proof fn law_update_says_what_happened(s: SnapshotView)
    ensures
        ({
            let f = update_node(s);
            &&& s.terminal ==> f.at("type"@) == Node::Text("job_terminal"@)
            &&& !s.terminal ==> f.at("type"@) == Node::Text("job_started"@)
            &&& is_terminal(f) <==> s.terminal
            &&& f.at("source"@) == Node::Text("runner"@)
            &&& f.at("event_id"@) == Node::Text(
                "runner-job-"@ + digest_of(
                    encode_utf8(s.job_id + ":"@ + decimal(s.update_seq as nat)),
                ),
            )
            &&& f.at("job_id"@) == Node::Text(s.job_id)
            &&& f.at("status"@) == Node::Text(s.status)
            &&& f.at("job_update_seq"@) == Node::Unsigned(s.update_seq)
            &&& f.at("exit_code"@).signed() == s.exit_code
        }),
{
    lemma_fact_codes();
    reveal_strlit("job_terminal");
    reveal_strlit("job_started");
    assert("job_terminal"@.len() != "job_started"@.len());
    let m = seq![
        ("event_id"@, Node::Text(update_id(s.job_id, s.update_seq))),
        (
            "type"@,
            Node::Text(
                if s.terminal {
                    "job_terminal"@
                } else {
                    "job_started"@
                },
            ),
        ),
        ("source"@, Node::Text("runner"@)),
        ("job_id"@, Node::Text(s.job_id)),
        ("status"@, Node::Text(s.status)),
        ("job_update_seq"@, Node::Unsigned(s.update_seq)),
    ];
    lemma_record_member(m, 0);
    lemma_record_member(m, 1);
    lemma_record_member(m, 2);
    lemma_record_member(m, 3);
    lemma_record_member(m, 4);
    lemma_record_member(m, 5);
    lemma_record_absent(m, "exit_code"@);
    let base = record(m);
    if s.exit_code is Some {
        let v = signed_node(s.exit_code->0);
        lemma_set_member(base, "exit_code"@, v, "type"@);
        lemma_set_member(base, "exit_code"@, v, "source"@);
        lemma_set_member(base, "exit_code"@, v, "event_id"@);
        lemma_set_member(base, "exit_code"@, v, "job_id"@);
        lemma_set_member(base, "exit_code"@, v, "status"@);
        lemma_set_member(base, "exit_code"@, v, "job_update_seq"@);
        lemma_set_member(base, "exit_code"@, v, "exit_code"@);
    }
}

/// The event that is recorded for an update reports the end of the job exactly
/// where the update is the last one. Once such an event is recorded the job is
/// shown as ended; an update that is not the last, and newer than what is known
/// of a job that has not ended, is shown as it is.
pub proof fn law_recorded_update_is_shown(
    events: Seq<Node>,
    s: SnapshotView,
    policy: Seq<Seq<char>>,
)
    requires
        event_of(update_node(s), policy) is Ok,
    ensures
        ({
            let value = event_of(update_node(s), policy)->Ok_0.value;
            let jobs = jobs_of(events.push(value));
            &&& is_terminal(value) <==> s.terminal
            &&& s.terminal ==> exists|p: int|
                0 <= p < jobs.len() && (#[trigger] jobs[p]).job_id == s.job_id && jobs[p].terminal
            &&& (forall|j: int|
                0 <= j < events.len() && #[trigger] speaks_of(events[j], s.job_id) ==> !says_ended(
                    events[j],
                ) && update_number(events[j]) <= s.update_seq) ==> exists|p: int|
                0 <= p < jobs.len() && (#[trigger] jobs[p]).job_id == s.job_id && jobs[p].status
                    == Node::Text(s.status) && jobs[p].terminal == s.terminal
                    && jobs[p].job_update_seq == Node::Unsigned(s.update_seq)
                    && jobs[p].exit_code.signed() == s.exit_code && jobs[p].source == Node::Text(
                    "runner"@,
                )
        }),
{
    let n = update_node(s);
    let value = event_of(n, policy)->Ok_0.value;
    law_update_says_what_happened(s);
    lemma_ranks();
    law_facts_are_kept(n, policy, "type"@);
    law_facts_are_kept(n, policy, "job_id"@);
    law_facts_are_kept(n, policy, "status"@);
    law_facts_are_kept(n, policy, "source"@);
    law_facts_are_kept(n, policy, "job_update_seq"@);
    law_numbers_are_kept(n, policy, "exit_code"@);
    let all = events.push(value);
    assert(all[events.len() as int] == value);
    assert(speaks_of(value, s.job_id));
    if s.terminal {
        law_recorded_end_is_shown(all, s.job_id, events.len() as int);
    }
    if forall|j: int|
        0 <= j < events.len() && #[trigger] speaks_of(events[j], s.job_id) ==> !says_ended(
            events[j],
        ) && update_number(events[j]) <= s.update_seq {
        law_newer_report_is_shown(events, value, s.job_id);
        let p = choose|p: int|
            0 <= p < jobs_of(all).len() && tells(value, s.job_id, #[trigger] jobs_of(all)[p]);
        assert(jobs_of(all)[p].job_id == s.job_id);
    }
}

/// The event for a job that ended names the job and says how it ended.
pub proof fn law_receipt_says_what_happened(r: ReceiptView)
    ensures
        ({
            let f = terminal_node(r);
            &&& f.at("type"@) == Node::Text("job_terminal"@)
            &&& f.at("source"@) == Node::Text("webcodex"@)
            &&& f.at("event_id"@) == Node::Text(
                "job-terminal-"@ + digest_of(encode_utf8(r.job_id)),
            )
            &&& f.at("job_id"@) == Node::Text(r.job_id)
            &&& f.at("status"@) == Node::Text(r.status)
            &&& f.at("job_update_seq"@) == Node::Unsigned(r.update_seq)
            &&& f.at("observed_at"@).signed() == Some(r.observed_at)
            &&& f.at("exit_code"@).signed() == r.exit_code
        }),
{
    lemma_fact_codes();
    let s = seq![
        ("event_id"@, Node::Text(terminal_id(r.job_id))),
        ("type"@, Node::Text("job_terminal"@)),
        ("source"@, Node::Text("webcodex"@)),
        ("job_id"@, Node::Text(r.job_id)),
        ("job_update_seq"@, Node::Unsigned(r.update_seq)),
        ("status"@, Node::Text(r.status)),
        ("observed_at"@, signed_node(r.observed_at)),
    ];
    match r.exit_code {
        None => {
            lemma_receipt_members(s);
            lemma_record_absent(s, "exit_code"@);
        },
        Some(code) => {
            let more = s.push(("exit_code"@, signed_node(code)));
            lemma_receipt_members(more);
            lemma_record_member(more, 7);
        },
    }
}

proof fn lemma_receipt_members(s: Seq<(Seq<char>, Node)>)
    requires
        7 <= s.len() <= 8,
        s[0].0 == "event_id"@,
        s[1].0 == "type"@,
        s[2].0 == "source"@,
        s[3].0 == "job_id"@,
        s[4].0 == "job_update_seq"@,
        s[5].0 == "status"@,
        s[6].0 == "observed_at"@,
        s.len() == 8 ==> s[7].0 == "exit_code"@,
    ensures
        record(s).at("event_id"@) == s[0].1,
        record(s).at("type"@) == s[1].1,
        record(s).at("source"@) == s[2].1,
        record(s).at("job_id"@) == s[3].1,
        record(s).at("job_update_seq"@) == s[4].1,
        record(s).at("status"@) == s[5].1,
        record(s).at("observed_at"@) == s[6].1,
{
    lemma_fact_codes();
    assert forall|i: int, j: int| 0 <= i < j < s.len() implies key_code((#[trigger] s[j]).0)
        != key_code((#[trigger] s[i]).0) by {
    }
    lemma_record_member(s, 0);
    lemma_record_member(s, 1);
    lemma_record_member(s, 2);
    lemma_record_member(s, 3);
    lemma_record_member(s, 4);
    lemma_record_member(s, 5);
    lemma_record_member(s, 6);
}

/// What is queued for a job that ended, if anything is, is one event of the
/// session that says so. Only a job of the bound client, in the bound project
/// and at its root, is queued; one that finds no room leaves a gap.
pub proof fn law_ended_job_is_queued(db: DatabaseView, r: ReceiptView)
    requires
        captured(db, r).0 != db,
    ensures
        ({
            let done = captured(db, r).0;
            &&& r.session_id matches Some(session) && binding_for(db.bindings, session) matches Some(
                b,
            ) && b.client_id == r.client_id && r.project_id == Some(b.project_id) && (r.project_cwd
                == Some("."@) || r.project_cwd == Some(b.project_path))
            &&& done.bindings == db.bindings && done.retirements == db.retirements
            &&& db.outbox.len() >= 4096 ==> done.outbox == db.outbox && has_gap(
                done.gaps,
                r.session_id->0,
            )
            &&& db.outbox.len() < 4096 ==> done.gaps == db.gaps && done.outbox == db.outbox.push(
                done.outbox.last(),
            ) && done.outbox.last().session_id == r.session_id->0 && done.outbox.last().created_at
                == r.observed_at && (exists|f: Node|
                #![trigger json_text(f)]
                {
                    &&& json_text(f) == Some(done.outbox.last().payload)
                    &&& f.at("event_id"@) == Node::Text(done.outbox.last().event_id)
                    &&& f.at("type"@) == Node::Text("job_terminal"@)
                    &&& f.at("job_id"@) == Node::Text(r.job_id)
                    &&& f.at("status"@) == Node::Text(r.status)
                    &&& f.at("exit_code"@).signed() == r.exit_code
                })
        }),
{
    law_receipt_says_what_happened(r);
    let done = captured(db, r).0;
    let session = r.session_id->0;
    if db.outbox.len() >= 4096 {
        if !has_gap(db.gaps, session) {
            assert(done.gaps[db.gaps.len() as int].session_id == session);
        }
    } else {
        assert(done.outbox =~= db.outbox.push(done.outbox.last()));
        assert(json_text(terminal_node(r)) == Some(done.outbox.last().payload));
    }
}

/// The end of a job of the bound root is queued, where its event can be
/// printed, no end of the job is queued yet, and there is room.
pub proof fn law_ended_job_is_not_missed(db: DatabaseView, b: BoundView, r: ReceiptView)
    requires
        r.session_id matches Some(session) && binding_for(db.bindings, session) == Some(b),
        b.client_id == r.client_id,
        r.project_id == Some(b.project_id),
        r.project_cwd == Some("."@) || r.project_cwd == Some(b.project_path),
        db.outbox.len() < 4096,
        json_text(terminal_node(r)) is Some,
        row_for(db.outbox, terminal_id(r.job_id)) is None,
    ensures
        captured(db, r).1 is Ok,
        captured(db, r).0.outbox.len() == db.outbox.len() + 1,
        captured(db, r).0.outbox.last().event_id == terminal_id(r.job_id),
{
}

proof fn lemma_source_codes()
    ensures
        key_code("bindings"@) == 36010815091,
        key_code("pending"@) == 31950466663,
        key_code("capture_gaps"@) == 53206937715,
        key_code("retiring"@) == 36278989927,
        key_code("status"@) == 27706810739,
        key_code("coverage"@) == 36027987557,
{
    reveal_strlit("bindings");
    reveal_strlit("pending");
    reveal_strlit("capture_gaps");
    reveal_strlit("retiring");
    reveal_strlit("status");
    reveal_strlit("coverage");
}

/// What is said of the deliveries in a scope: the counts, and one word for
/// them. They are caught up only where there is a binding, nothing is lost,
/// nothing waits and no task is being retired.
pub proof fn law_source_status(s: SourceStatus)
    ensures
        ({
            let n = source_node(s);
            &&& n.at("bindings"@) == Node::Unsigned(s.bindings)
            &&& n.at("pending"@) == Node::Unsigned(s.pending)
            &&& n.at("capture_gaps"@) == Node::Unsigned(s.capture_gaps)
            &&& n.at("retiring"@) == Node::Unsigned(s.retiring)
            &&& n.at("coverage"@) == Node::Text("known_recorded_events_only"@)
            &&& n.at("status"@) == Node::Text("incomplete"@) <==> s.capture_gaps != 0
            &&& n.at("status"@) == Node::Text("pending"@) <==> s.capture_gaps == 0 && s.pending != 0
            &&& n.at("status"@) == Node::Text("retiring"@) <==> s.capture_gaps == 0 && s.pending == 0
                && s.retiring != 0
            &&& n.at("status"@) == Node::Text("unbound"@) <==> s.capture_gaps == 0 && s.pending == 0
                && s.retiring == 0 && s.bindings == 0
            &&& n.at("status"@) == Node::Text("caught_up"@) <==> s.capture_gaps == 0 && s.pending
                == 0 && s.retiring == 0 && s.bindings != 0
        }),
{
    lemma_source_codes();
    lemma_source_words();
    let m = seq![
        ("bindings"@, Node::Unsigned(s.bindings)),
        ("pending"@, Node::Unsigned(s.pending)),
        ("capture_gaps"@, Node::Unsigned(s.capture_gaps)),
        ("retiring"@, Node::Unsigned(s.retiring)),
        ("status"@, Node::Text(source_state(s))),
        ("coverage"@, Node::Text("known_recorded_events_only"@)),
    ];
    lemma_record_member(m, 0);
    lemma_record_member(m, 1);
    lemma_record_member(m, 2);
    lemma_record_member(m, 3);
    lemma_record_member(m, 4);
    lemma_record_member(m, 5);
}

proof fn lemma_source_words()
    ensures
        key_code("incomplete"@) == 44718515045,
        key_code("pending"@) == 31950466663,
        key_code("retiring"@) == 36278989927,
        key_code("unbound"@) == 32034939492,
        key_code("caught_up"@) == 40322037104,
{
    reveal_strlit("incomplete");
    reveal_strlit("pending");
    reveal_strlit("retiring");
    reveal_strlit("unbound");
    reveal_strlit("caught_up");
}

} // verus!
