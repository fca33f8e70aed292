//! What the server and the runner say to each other, and what a caller is told
//! of it.
use vstd::prelude::*;
use vstd::utf8::*;
use crate::capture_laws::{law_notes, law_source_status};
use crate::codec::{alike, json_reading, json_text};
use crate::digest::{digest_of};
use crate::dispatch::{
    DispatchEventView, DispatchStepView, DispatchView, authored, authored_types, dispatched,
    is_settled, sent, server_request,
};
use crate::exchange::{
    ResponseView, acknowledges, answers_read, id_prefix, incoming, op_name, outgoing,
};
use crate::failure::{Failure};
use crate::flush::{
    Flush, FlushEventView, FlushStepView, FlushView, flush_read, flush_resolved, flush_selected,
    flushed, next_event, waiting_for,
};
use crate::jobs::{jobs_of};
use crate::json::{Node};
use crate::lifecycle::{resolved};
use crate::markdown::{MarkdownState};
use crate::outbox::{ScopeView, scope_rows, source_node};
use crate::record_laws::{key_code, lemma_record_absent, lemma_record_member, lemma_set_member};
use crate::reply::{CheckpointView, OverviewView, ReplyView, reply_node};
use crate::reply_laws::{
    law_checkpoint_says, law_checkpoint_tells_the_jobs, law_status_says, law_written_answer_says,
    lemma_checkpoint_jobs,
};
use crate::runner_job::{
    JobTargetView, RecordStepView, RecordingView, SnapshotView, recorded_step, recording_started,
    update_node,
};
use crate::server::{
    TablesView, append_request, counts_of, deliveries_of, is_reply, key_of, notice_of,
    read_request, status_request, with_source,
};
use crate::store::{BoundView, PendingView};
use crate::table::{assigned, lemma_assigned_lookup, lookup};
use crate::text::{has_prefix};
use crate::tool::{ResolvedView, fingerprint_in, with_member};

verus! {

proof fn lemma_request_codes()
    ensures
        key_code("action"@) == 27403711598,
        key_code("task_id"@) == 32017314660,
        key_code("client_id"@) == 40322754916,
        key_code("expected_revision"@) == 74716835950,
        key_code("event"@) == 23177094516,
        key_code("source"@) == 27706488165,
        key_code("type"@) == 19133984869,
        key_code("binding"@) == 31715847783,
        key_code("title"@) == 23427904613,
{
    reveal_strlit("action");
    reveal_strlit("task_id");
    reveal_strlit("client_id");
    reveal_strlit("expected_revision");
    reveal_strlit("event");
    reveal_strlit("source");
    reveal_strlit("type");
    reveal_strlit("binding");
    reveal_strlit("title");
}

/// The requests of the server ask for what they are named after.
pub proof fn law_requests_ask(session: Seq<char>, task: Seq<char>, revision: u64, event: Node)
    ensures
        status_request(None).at("action"@) == Node::Text("status"@),
        status_request(None).member("client_id"@) is None,
        status_request(Some(session)).at("action"@) == Node::Text("status"@),
        status_request(Some(session)).at("client_id"@) == Node::Text(
            "webcodex:"@ + digest_of(encode_utf8(session)),
        ),
        read_request(task).at("action"@) == Node::Text("read"@),
        read_request(task).at("task_id"@) == Node::Text(task),
        append_request(task, revision, event).at("action"@) == Node::Text("append"@),
        append_request(task, revision, event).at("task_id"@) == Node::Text(task),
        append_request(task, revision, event).at("expected_revision"@) == Node::Unsigned(revision),
        append_request(task, revision, event).at("event"@) == event,
{
    lemma_request_codes();
    let a = seq![("action"@, Node::Text("status"@))];
    lemma_record_member(a, 0);
    lemma_record_absent(a, "client_id"@);
    let b = seq![("action"@, Node::Text("status"@)), ("client_id"@, Node::Text(key_of(session)))];
    lemma_record_member(b, 0);
    lemma_record_member(b, 1);
    let c = seq![("action"@, Node::Text("read"@)), ("task_id"@, Node::Text(task))];
    lemma_record_member(c, 0);
    lemma_record_member(c, 1);
    let d = seq![
        ("action"@, Node::Text("append"@)),
        ("task_id"@, Node::Text(task)),
        ("expected_revision"@, Node::Unsigned(revision)),
        ("event"@, event),
    ];
    lemma_record_member(d, 0);
    lemma_record_member(d, 1);
    lemma_record_member(d, 2);
    lemma_record_member(d, 3);
}

/// What a model may write of its own: a note, a stage or a judgment on the task.
pub open spec fn is_judgment(n: Node) -> bool {
    n == Node::Text("note_added"@) || n == Node::Text("stage_started"@) || n == Node::Text(
        "stage_finished"@,
    ) || n == Node::Text("task_completed"@) || n == Node::Text("task_blocked"@)
}

/// The request that goes to the runner is the one that was given, but for the
/// client of a selection and the source of an event, which the server sets. An
/// event is a note or a judgment.
pub proof fn law_server_passes_the_request_on(session: Seq<char>, request: Node)
    requires
        server_request(session, request) is Ok,
    ensures
        ({
            let sent = server_request(session, request)->Ok_0;
            &&& forall|k: Seq<char>|
                k != "client_id"@ && k != "event"@ ==> #[trigger] sent.member(k) == request.member(k)
            &&& request.at("action"@) == Node::Text("bind"@) ==> sent.member("client_id"@) == Some(
                Node::Text("webcodex:"@ + digest_of(encode_utf8(session))),
            )
            &&& request.at("action"@) != Node::Text("bind"@) ==> sent.member("client_id"@) is None
            &&& request.member("event"@) is None ==> sent.member("event"@) is None
            &&& request.member("event"@) matches Some(event) ==> is_judgment(event.at("type"@)) && (
            sent.member("event"@) matches Some(marked) && marked.at("source"@) == Node::Text("gpt"@)
                && forall|k: Seq<char>|
                k != "source"@ ==> #[trigger] marked.member(k) == event.member(k))
        }),
{
    lemma_request_codes();
    let fields = request->Record_0;
    let key = Node::Text(key_of(session));
    let sent = server_request(session, request)->Ok_0;
    let marked = match lookup(fields, "event"@) {
        None => fields,
        Some(event) => assigned(fields, "event"@, authored(event)->Ok_0),
    };
    if lookup(fields, "event"@) is Some {
        let event = lookup(fields, "event"@)->0;
        let own = event->Record_0;
        lemma_judgments(event.at("type"@)->Text_0);
        assert forall|k: Seq<char>| k != "source"@ implies #[trigger] authored(
            event,
        )->Ok_0.member(k) == event.member(k) by {
            lemma_assigned_lookup(own, "source"@, Node::Text("gpt"@), k);
        }
        lemma_assigned_lookup(own, "source"@, Node::Text("gpt"@), "source"@);
    }
    assert forall|k: Seq<char>| #[trigger] lookup(marked, k) == (if k == "event"@ && lookup(
        fields,
        "event"@,
    ) is Some {
        Some(authored(lookup(fields, "event"@)->0)->Ok_0)
    } else {
        lookup(fields, k)
    }) by {
        if lookup(fields, "event"@) is Some {
            lemma_assigned_lookup(
                fields,
                "event"@,
                authored(lookup(fields, "event"@)->0)->Ok_0,
                k,
            );
        }
    }
    assert(lookup(marked, "action"@) == lookup(fields, "action"@));
    assert forall|k: Seq<char>| #[trigger] sent.member(k) == (if k == "client_id"@ && request.at(
        "action"@,
    ) == Node::Text("bind"@) {
        Some(key)
    } else {
        lookup(marked, k)
    }) by {
        lemma_assigned_lookup(marked, "client_id"@, key, k);
    }
}

proof fn lemma_judgments(t: Seq<char>)
    requires
        authored_types().contains(t),
    ensures
        is_judgment(Node::Text(t)),
{
}

/// A model may write every note and every judgment, and choose neither the
/// client of a request nor a binding.
pub proof fn law_server_takes_notes_and_judgments(session: Seq<char>, request: Node)
    ensures
        server_request(session, request) is Ok <==> request is Record && request.member(
            "client_id"@,
        ) is None && request.member("binding"@) is None && (request.member("event"@) matches Some(
            event,
        ) ==> event is Record && is_judgment(event.at("type"@))),
        request.member("client_id"@) is Some || request.member("binding"@) is Some
            ==> server_request(session, request) == Err::<Node, _>(
            "handoff client identity is Server-owned"@,
        ),
{
    let types = authored_types();
    assert(types[0] == "note_added"@ && types[1] == "stage_started"@ && types[2]
        == "stage_finished"@ && types[3] == "task_completed"@ && types[4] == "task_blocked"@);
    if request.member("event"@) is Some {
        let event = request.member("event"@)->0;
        if event.at("type"@) is Text {
            let t = event.at("type"@)->Text_0;
            if types.contains(t) {
                lemma_judgments(t);
            }
            if is_judgment(Node::Text(t)) {
                assert(types.contains(t));
            }
        }
    }
}

/// What is sent for a request is its text, for the project under its own id and
/// at its path.
pub proof fn law_outgoing_is_the_request(p: ResolvedView, write: bool, request: Node)
    ensures
        outgoing(p, write, request) matches Ok(op) ==> op.write == write && op.client_id
            == p.client_id && op.cwd == p.path && json_text(request) == Some(op.content)
            && encode_utf8(op.content).len() <= 131072 && p.resolved_id == "agent:"@ + p.client_id
            + ":"@ + op.agent_project_id && op.agent_project_id.len() > 0,
        outgoing(p, write, request) is Ok <==> (json_text(request) matches Some(text)
            && encode_utf8(text).len() <= 131072 && exists|id: Seq<char>|
            id.len() > 0 && p.resolved_id == #[trigger] ("agent:"@ + p.client_id + ":"@ + id)),
        op_name(true) == "handoff_write"@,
        op_name(false) == "handoff_read"@,
{
    let prefix = id_prefix(p.client_id);
    if has_prefix(p.resolved_id, prefix) {
        let id = p.resolved_id.skip(prefix.len() as int);
        assert(p.resolved_id =~= p.resolved_id.take(prefix.len() as int) + id);
        assert(p.resolved_id == "agent:"@ + p.client_id + ":"@ + id);
    }
    assert forall|id: Seq<char>| p.resolved_id == #[trigger] ("agent:"@ + p.client_id + ":"@ + id)
        implies has_prefix(p.resolved_id, prefix) && p.resolved_id.skip(prefix.len() as int)
        == id by {
        assert((prefix + id).take(prefix.len() as int) =~= prefix);
        assert((prefix + id).skip(prefix.len() as int) =~= id);
    }
}

/// A reply is taken for an answer only where it says that the request
/// succeeded, and it is then the output of the reply.
pub proof fn law_accepted_reply_is_the_output(write: bool, request: Node, response: ResponseView)
    requires
        incoming(write, request, response) is Ok,
    ensures
        response.exit_code == Some(0i64),
        response.error is None,
        response.stdout matches Some(text) && encode_utf8(text).len() <= 524288 && (json_reading(
            encode_utf8(text),
        ) matches Some(value) && value.at("success"@) == Node::Bool(true) && value.at("output"@)
            == incoming(write, request, response)->Ok_0),
        incoming(write, request, response)->Ok_0 is Record,
        ({
            let output = incoming(write, request, response)->Ok_0;
            let action = request.at("action"@);
            let task = request.at("task_id"@);
            &&& !write && output.at("enabled"@) == Node::Bool(true) ==> action == Node::Text(
                "status"@,
            ) && output.at("status"@) == Node::Text("enabled"@) || action == Node::Text("read"@)
                && output.at("status"@) == Node::Text("ready"@) && alike(
                output.at("task_id"@),
                task,
            ) && alike(output.at("checkpoint"@).at("task_id"@), task)
            &&& !write && output.at("enabled"@) != Node::Bool(true) ==> output.at("enabled"@)
                == Node::Bool(false) && output.at("status"@) == Node::Text("disabled"@)
            &&& action == Node::Text("append"@) ==> alike(output.at("task_id"@), task) && alike(
                output.at("event_id"@),
                request.at("event"@).at("event_id"@),
            ) && (output.at("status"@) == Node::Text("saved"@) || output.at("status"@)
                == Node::Text("duplicate"@)) && output.at("revision"@) is Unsigned && output.at(
                "revision"@,
            )->Unsigned_0 > 0
            &&& write && action == Node::Text("create"@) ==> output.at("status"@) == Node::Text(
                "saved"@,
            ) && alike(output.at("task_id"@), task)
            &&& write && action == Node::Text("bind"@) ==> output.at("status"@) == Node::Text(
                "bound"@,
            ) && alike(output.at("bound_task_id"@), task) && alike(
                output.at("client_id"@),
                request.at("client_id"@),
            )
            &&& write && action == Node::Text("archive"@) ==> output.at("status"@) == Node::Text(
                "archived"@,
            ) && alike(output.at("task_id"@), task) && alike(
                output.at("revision"@),
                request.at("expected_revision"@),
            )
            &&& write && action == Node::Text("disable"@) ==> output.at("status"@) == Node::Text(
                "disabled"@,
            )
        }),
{
    lemma_action_words();
}

proof fn lemma_action_words()
    ensures
        key_code("append"@) == 27404562532,
        key_code("create"@) == 27438245221,
        key_code("bind"@) == 18830945892,
        key_code("archive"@) == 31699657573,
        key_code("disable"@) == 31749403493,
        key_code("status"@) == 27706810739,
        key_code("read"@) == 19099115876,
{
    reveal_strlit("append");
    reveal_strlit("create");
    reveal_strlit("bind");
    reveal_strlit("archive");
    reveal_strlit("disable");
    reveal_strlit("status");
    reveal_strlit("read");
}

/// What the runner answers is taken for an answer: the answers to a status and
/// a read request, whatever the project holds, are accepted as they are.
pub proof fn law_read_answers_are_accepted(o: OverviewView, c: CheckpointView, session: Seq<char>)
    ensures
        answers_read(status_request(Some(session)), reply_node(ReplyView::Status(o))),
        answers_read(status_request(Some(session)), reply_node(ReplyView::Disabled)),
        c.task.revision > 0 ==> answers_read(
            read_request(c.task.task_id),
            reply_node(ReplyView::Read(c)),
        ),
        answers_read(read_request(c.task.task_id), reply_node(ReplyView::Unread)),
{
    law_status_says(o);
    law_checkpoint_says(c);
    law_written_answer_says(ReplyView::Disabled);
    law_written_answer_says(ReplyView::Unread);
    law_requests_ask(session, c.task.task_id, 0, Node::Null);
}

/// What the runner answers to an append is an acknowledgement of exactly that
/// event, be it new or known.
pub proof fn law_append_answers_are_accepted(
    task: Seq<char>,
    expected: u64,
    event: Node,
    id: Seq<char>,
    revision: u64,
    index_revision: u64,
    markdown: MarkdownState,
    repaired: bool,
)
    requires
        event.at("event_id"@) == Node::Text(id),
        revision > 0,
    ensures
        acknowledges(
            append_request(task, expected, event),
            reply_node(
                ReplyView::Appended {
                    task_id: task,
                    revision,
                    index_revision,
                    event_id: id,
                    markdown,
                },
            ),
        ),
        acknowledges(
            append_request(task, expected, event),
            reply_node(
                ReplyView::Duplicate {
                    task_id: task,
                    revision,
                    event_id: id,
                    index_revision,
                    index_repaired: repaired,
                },
            ),
        ),
{
    law_requests_ask(Seq::empty(), task, expected, event);
    law_written_answer_says(
        ReplyView::Appended { task_id: task, revision, index_revision, event_id: id, markdown },
    );
    law_written_answer_says(
        ReplyView::Duplicate {
            task_id: task,
            revision,
            event_id: id,
            index_revision,
            index_repaired: repaired,
        },
    );
}

/// A failure is reported under the code that the runner gave, where that is a
/// short stable name and the runner says that nothing changed or nothing was to
/// be written.
pub proof fn law_failed_reply_is_reported(
    write: bool,
    request: Node,
    response: ResponseView,
    value: Node,
    code: Seq<char>,
)
    requires
        response.stdout matches Some(text) && encode_utf8(text).len() <= 524288 && json_reading(
            encode_utf8(text),
        ) == Some(value),
        value.at("success"@) != Node::Bool(true) || response.exit_code != Some(0i64)
            || response.error is Some,
        value.at("error"@).at("code"@) == Node::Text(code),
    ensures
        write && value.at("error"@).at("state_changed"@) != Node::Bool(false) ==> incoming(
            write,
            request,
            response,
        ) == Err::<Node, _>("handoff_save_unknown"@),
        (!write || value.at("error"@).at("state_changed"@) == Node::Bool(false)) && 0 < code.len()
            <= 64 && (forall|i: int|
            0 <= i < code.len() ==> 'a' <= #[trigger] code[i] <= 'z' || code[i] == '_')
            ==> incoming(write, request, response) == Err::<Node, _>(code),
{
}

proof fn lemma_told_codes()
    ensures
        key_code("checkpoint_status"@) == 74682230131,
        key_code("error_kind"@) == 44651672164,
        key_code("source_status"@) == 57771259251,
        key_code("source_pending_facts"@) == 87836030323,
        key_code("pending"@) == 31950466663,
        key_code("checkpoint_persistence"@) == 96157066597,
{
    reveal_strlit("checkpoint_status");
    reveal_strlit("error_kind");
    reveal_strlit("source_status");
    reveal_strlit("source_pending_facts");
    reveal_strlit("pending");
    reveal_strlit("checkpoint_persistence");
}

/// What a caller is told of an answered request: the output of the runner with
/// what is known of the deliveries, or the failure, which is an unknown one only
/// where a write may have landed.
pub proof fn law_caller_is_told(
    session: Option<Seq<char>>,
    p: ResolvedView,
    write: bool,
    request: Node,
    reply: Result<Node, Seq<char>>,
    t: TablesView,
)
    requires
        is_reply(reply),
    ensures
        sent(session, p, write, request, reply, t).2 == t,
        reply matches Err(code) ==> (sent(session, p, write, request, reply, t).1
            matches DispatchStepView::Answer(told) && !told.success && told.error == Some(code)
            && told.output.at("error_kind"@) == Node::Text(code) && (code
            == "handoff_save_unknown"@ ==> told.output.at("checkpoint_status"@) == Node::Text(
            "unknown"@,
        )) && (code != "handoff_save_unknown"@ ==> told.output.at("checkpoint_status"@)
            == Node::Text("failed"@))),
        reply matches Ok(output) ==> (write && request.at("action"@) == Node::Text("bind"@)
            ==> sent(session, p, write, request, reply, t).1 is Flush) && (!(write && request.at(
            "action"@,
        ) == Node::Text("bind"@)) ==> (sent(session, p, write, request, reply, t).1
            matches DispatchStepView::Answer(told) && told.success && told.error is None
            && forall|k: Seq<char>|
            k != "source_status"@ && k != "source_pending_facts"@
                ==> #[trigger] told.output.member(k) == output.member(k))),
{
    lemma_told_codes();
    match reply {
        Err(code) => {
            let s = seq![
                (
                    "checkpoint_status"@,
                    Node::Text(
                        if code == "handoff_save_unknown"@ {
                            "unknown"@
                        } else {
                            "failed"@
                        },
                    ),
                ),
                ("error_kind"@, Node::Text(code)),
            ];
            lemma_record_member(s, 0);
            lemma_record_member(s, 1);
        },
        Ok(output) => {
            assert forall|k: Seq<char>|
                k != "source_status"@ && k != "source_pending_facts"@ implies #[trigger] with_source(
                t,
                p,
                output,
            ).member(k) == output.member(k) by {
                law_source_is_added(t, p, output, k);
            }
        },
    }
}

/// What is known of the deliveries is added to an answer: of exactly the
/// project, the task and the file identity that it names.
pub proof fn law_source_is_added(t: TablesView, p: ResolvedView, value: Node, k: Seq<char>)
    requires
        value is Record,
    ensures
        ({
            let n = with_source(t, p, value);
            let scope = ScopeView {
                project: p.resolved_id,
                path: p.path,
                task: value.at("task_id"@).text(),
                fingerprint: fingerprint_in(value),
            };
            &&& k != "source_status"@ && k != "source_pending_facts"@ ==> n.member(k)
                == value.member(k)
            &&& t is Open && scope_rows(t->Open_0, scope, t->Open_0.bindings.len()) <= i64::MAX ==> n.at(
                "source_status"@,
            ) == source_node(counts_of(t->Open_0, scope)) && n.at("source_pending_facts"@)
                == Node::Unsigned(
                scope_rows(t->Open_0, scope, t->Open_0.bindings.len()) as u64,
            )
            &&& !(t is Open) ==> n.at("source_status"@).at("status"@) == Node::Text("unavailable"@)
                && n.at("source_status"@).at("coverage"@) == Node::Text("unknown"@) && n.at(
                "source_pending_facts"@,
            ) == Node::Null
        }),
{
    lemma_told_codes();
    let scope = ScopeView {
        project: p.resolved_id,
        path: p.path,
        task: value.at("task_id"@).text(),
        fingerprint: fingerprint_in(value),
    };
    let source = deliveries_of(t, scope);
    let one = with_member(value, "source_status"@, source);
    lemma_set_member(value, "source_status"@, source, k);
    lemma_set_member(one, "source_pending_facts"@, source.at("pending"@), k);
    lemma_set_member(value, "source_status"@, source, "source_status"@);
    lemma_set_member(one, "source_pending_facts"@, source.at("pending"@), "source_status"@);
    lemma_set_member(one, "source_pending_facts"@, source.at("pending"@), "source_pending_facts"@);
    lemma_unavailable_codes();
    let u = seq![("status"@, Node::Text("unavailable"@)), ("coverage"@, Node::Text("unknown"@))];
    lemma_record_member(u, 0);
    lemma_record_member(u, 1);
    lemma_record_absent(u, "pending"@);
    if t is Open {
        law_source_status(counts_of(t->Open_0, scope));
    }
}

proof fn lemma_unavailable_codes()
    ensures
        key_code("status"@) == 27706810739,
        key_code("coverage"@) == 36027987557,
        key_code("pending"@) == 31950466663,
        key_code("hint"@) == 18931609204,
{
    reveal_strlit("status");
    reveal_strlit("coverage");
    reveal_strlit("pending");
    reveal_strlit("hint");
}

/// What a caller is told of a selection: the answer of the runner, how the
/// delivery of what waited went, and what is known of the deliveries.
pub proof fn law_selection_is_told(
    p: ResolvedView,
    output: Node,
    persistence: Node,
    t: TablesView,
    k: Seq<char>,
)
    requires
        output is Record,
    ensures
        ({
            let (state, step, after) = dispatched(
                DispatchView::Flushing { project: p, output },
                DispatchEventView::Flushed(persistence),
                t,
            );
            &&& after == t
            &&& step matches DispatchStepView::Answer(told) && told.success && told.output.at(
                "checkpoint_persistence"@,
            ) == persistence && (k != "checkpoint_persistence"@ && k != "source_status"@ && k
                != "source_pending_facts"@ ==> told.output.member(k) == output.member(k))
        }),
{
    lemma_told_codes();
    let one = with_member(output, "checkpoint_persistence"@, persistence);
    lemma_set_member(output, "checkpoint_persistence"@, persistence, k);
    lemma_set_member(
        output,
        "checkpoint_persistence"@,
        persistence,
        "checkpoint_persistence"@,
    );
    law_source_is_added(t, p, one, k);
    law_source_is_added(t, p, one, "checkpoint_persistence"@);
}

/// A delivery ends where its session may not write or where its time is up, and
/// the events stay; it goes on to the bound project where the session may.
pub proof fn law_delivery_may_end_early(
    session: Seq<char>,
    binding: BoundView,
    project: ResolvedView,
    items: Seq<PendingView>,
    at: int,
    t: TablesView,
)
    ensures
        flushed(
            FlushView::Authorizing { session, binding },
            FlushEventView::Authorized(true),
            t,
        ) == (
            FlushView::Resolving { session, binding },
            FlushStepView::Resolve(binding.project_id),
            t,
        ),
        ({
            let (state, step, after) = flushed(
                FlushView::Authorizing { session, binding },
                FlushEventView::Authorized(false),
                t,
            );
            after == t && (step matches FlushStepView::Answer(note) && note.at("status"@)
                == Node::Text("pending"@) && note.at("reason"@) == Node::Text(
                "write_authority_unavailable"@,
            ))
        }),
        ({
            let (state, step, after) = flushed(
                FlushView::Reading { binding, project, items, at },
                FlushEventView::Expired,
                t,
            );
            after == t && (step matches FlushStepView::Answer(note) && note.at("status"@)
                == Node::Text("pending"@) && note.at("reason"@) == Node::Text(
                "delivery_unconfirmed"@,
            ))
        }),
        ({
            let (state, step, after) = flushed(
                FlushView::Appending { binding, project, items, at },
                FlushEventView::Expired,
                t,
            );
            after == t && (step matches FlushStepView::Answer(note) && note.at("status"@)
                == Node::Text("pending"@) && note.at("reason"@) == Node::Text(
                "delivery_unconfirmed"@,
            ))
        }),
{
    law_notes("pending"@, "write_authority_unavailable"@);
    law_notes("pending"@, "delivery_unconfirmed"@);
}

/// A session that starts is told of a project with handoffs, told nothing of
/// one without, and told not to infer anything where the runner does not
/// answer.
pub proof fn law_starting_session_is_told(
    t: TablesView,
    p: ResolvedView,
    reply: Result<Node, Seq<char>>,
)
    requires
        is_reply(reply),
    ensures
        reply matches Ok(value) ==> (notice_of(t, p, reply) is Some <==> value.at("enabled"@)
            == Node::Bool(true)) && (value.at("enabled"@) == Node::Bool(true) ==> (notice_of(
            t,
            p,
            reply,
        ) matches Some(n) && n.at("tasks"@) == value.at("tasks"@) && n.at("bound_task_id"@)
            == value.at("bound_task_id"@) && n.at("status"@) == value.at("status"@))),
        reply is Err ==> (notice_of(t, p, reply) matches Some(n) && n.at("status"@) == Node::Text(
            "unavailable"@,
        ) && n.at("hint"@) == Node::Text("Do not infer that no prior task exists."@)),
{
    lemma_unavailable_codes();
    lemma_notice_codes();
    let u = seq![
        ("status"@, Node::Text("unavailable"@)),
        ("hint"@, Node::Text("Do not infer that no prior task exists."@)),
    ];
    lemma_record_member(u, 0);
    lemma_record_member(u, 1);
    if reply is Ok {
        law_source_is_added(t, p, reply->Ok_0, "tasks"@);
        law_source_is_added(t, p, reply->Ok_0, "bound_task_id"@);
        law_source_is_added(t, p, reply->Ok_0, "status"@);
    }
}

proof fn lemma_notice_codes()
    ensures
        key_code("tasks"@) == 23427380083,
        key_code("bound_task_id"@) == 57486046564,
        key_code("status"@) == 27706810739,
        key_code("source_status"@) == 57771259251,
        key_code("source_pending_facts"@) == 87836030323,
{
    reveal_strlit("tasks");
    reveal_strlit("bound_task_id");
    reveal_strlit("status");
    reveal_strlit("source_status");
    reveal_strlit("source_pending_facts");
}

/// An event of the outbox is delivered as it was queued: the append carries it,
/// to the task of the binding and at the revision that was read, once the
/// checkpoint showed the bound identity.
pub proof fn law_delivery_sends_the_event(
    binding: BoundView,
    project: ResolvedView,
    items: Seq<PendingView>,
    at: int,
    current: Node,
    t: TablesView,
)
    requires
        0 <= at < items.len(),
    ensures
        ({
            let (state, step, after) = flush_read(binding, project, items, at, Ok(current), t);
            &&& after == t
            &&& step is Ask <==> fingerprint_in(current) == Some(binding.root_fingerprint)
                && current.at("revision"@) is Unsigned
            &&& step matches FlushStepView::Ask { project: to, write, request, in_batch } ==> to
                == project && write && in_batch && request.at("action"@) == Node::Text("append"@)
                && request.at("task_id"@) == Node::Text(binding.task_id) && request.at(
                "expected_revision"@,
            ) == current.at("revision"@) && request.at("event"@) == items[at].event
            &&& step matches FlushStepView::Answer(note) ==> note.at("status"@) == Node::Text(
                "pending"@,
            ) && note.at("reason"@) == Node::Text("delivery_unconfirmed"@)
        }),
{
    law_notes("pending"@, "delivery_unconfirmed"@);
    if current.at("revision"@) is Unsigned {
        law_requests_ask(
            Seq::empty(),
            binding.task_id,
            current.at("revision"@)->Unsigned_0,
            items[at].event,
        );
    }
}

/// A delivery goes on only for the bound project, which may still be written,
/// and for the task that the runner says is selected; otherwise the events stay
/// and the caller is told why.
pub proof fn law_delivery_needs_authority(
    session: Seq<char>,
    binding: BoundView,
    project: Option<ResolvedView>,
    p: ResolvedView,
    reply: Result<Node, Seq<char>>,
    t: TablesView,
)
    ensures
        flush_resolved(session, binding, project, t).2 == t,
        flush_selected(binding, p, reply, t).2 == t,
        flush_resolved(session, binding, project, t).1 is Ask <==> (project matches Some(q)
            && q.allow_patch && q.path == binding.project_path && q.client_id == binding.client_id),
        flush_resolved(session, binding, project, t).1 matches FlushStepView::Ask {
            project: to,
            write,
            request,
            in_batch,
        } ==> Some(to) == project && !write && request.at("action"@) == Node::Text("status"@)
            && request.at("client_id"@) == Node::Text(
            "webcodex:"@ + digest_of(encode_utf8(session)),
        ),
        flush_selected(binding, p, reply, t).1 matches FlushStepView::Ask {
            project: to,
            write,
            request,
            in_batch,
        } ==> to == p && !write && request.at("action"@) == Node::Text("read"@) && request.at(
            "task_id"@,
        ) == Node::Text(binding.task_id),
        flush_resolved(session, binding, project, t).1 matches FlushStepView::Answer(note)
            ==> note.at("status"@) == Node::Text("pending"@) && note.at("reason"@) == Node::Text(
            "project_authority_changed"@,
        ),
        flush_selected(binding, p, reply, t).1 is Ask ==> (reply matches Ok(n) && n.at("enabled"@)
            == Node::Bool(true) && n.at("bound_task_id"@) == Node::Text(binding.task_id)),
        reply is Err ==> (flush_selected(binding, p, reply, t).1 matches FlushStepView::Answer(note)
            && note.at("status"@) == Node::Text("pending"@) && note.at("reason"@) == Node::Text(
            "runner_unavailable"@,
        )),
        (reply matches Ok(n) && (n.at("enabled"@) != Node::Bool(true) || n.at("bound_task_id"@)
            != Node::Text(binding.task_id))) ==> (flush_selected(binding, p, reply, t).1
            matches FlushStepView::Answer(note) && note.at("status"@) == Node::Text("pending"@)
            && note.at("reason"@) == Node::Text("local_binding_changed_or_disabled"@)),
{
    law_requests_ask(session, binding.task_id, 0, Node::Null);
    law_notes("pending"@, "project_authority_changed"@);
    law_notes("pending"@, "runner_unavailable"@);
    law_notes("pending"@, "local_binding_changed_or_disabled"@);
}

/// How a delivery ends, once all of a batch is sent: saved where nothing waits
/// any more, and pending where something does.
pub proof fn law_delivery_ends(
    binding: BoundView,
    project: ResolvedView,
    items: Seq<PendingView>,
    t: TablesView,
)
    ensures
        ({
            let (state, step, after) = next_event(binding, project, items, items.len() as int, t);
            &&& after == t
            &&& step matches FlushStepView::Answer(note) && (note.at("status"@) == Node::Text(
                "saved"@,
            ) <==> (waiting_for(t, binding) matches Some(more) && more.len() == 0)) && (note.at(
                "status"@,
            ) == Node::Text("saved"@) ==> note.at("task_id"@) == Node::Text(binding.task_id))
                && (note.at("status"@) != Node::Text("saved"@) ==> note.at("status"@)
                == Node::Text("pending"@) && note.at("reason"@) == Node::Text("more_pending_facts"@))
        }),
{
    law_notes("pending"@, "more_pending_facts"@);
    law_notes("pending"@, binding.task_id);
    lemma_end_words();
}

proof fn lemma_end_words()
    ensures
        key_code("saved"@) == 23410603620,
        key_code("pending"@) == 31950466663,
{
    reveal_strlit("saved");
    reveal_strlit("pending");
}

/// A checkpoint is settled for the server exactly where the runner takes its
/// task for resolved, at the expected revision; more jobs than are shown keep
/// it open.
pub proof fn law_settled_is_resolved(c: CheckpointView, request: Node)
    requires
        jobs_of(c.task.events).len() <= 128,
    ensures
        is_settled(reply_node(ReplyView::Read(c)), request) <==> alike(
            Node::Unsigned(c.task.revision),
            request.at("expected_revision"@),
        ) && resolved(c.task),
{
    law_checkpoint_says(c);
    let n = reply_node(ReplyView::Read(c));
    let all = jobs_of(c.task.events);
    lemma_checkpoint_jobs(c);
    let jobs = n.at("jobs"@)->List_0;
    if resolved(c.task) {
        assert forall|i: int| 0 <= i < jobs.len() implies (#[trigger] jobs[i]).at("terminal"@)
            == Node::Bool(true) by {
            law_checkpoint_tells_the_jobs(c, i);
            assert(all[i].terminal);
        }
    }
    if is_settled(n, request) {
        assert forall|i: int| 0 <= i < all.len() implies (#[trigger] all[i]).terminal by {
            law_checkpoint_tells_the_jobs(c, i);
            assert(jobs[i].at("terminal"@) == Node::Bool(true));
        }
    }
}

/// Recording an update of a job asks for the selection first, then for the
/// checkpoint of the pinned task, and then to append the event; it is done once
/// the append is answered.
pub proof fn law_recording_asks(
    target: JobTargetView,
    root: Option<Seq<char>>,
    s: SnapshotView,
    state: Node,
    current: Node,
    retry: bool,
)
    requires
        root is Some,
        s.context.session_id is Some,
        state.at("enabled"@) == Node::Bool(true),
        state.at("bound_task_id"@) == Node::Text(target.task_id),
        fingerprint_in(current) == Some(target.root_fingerprint),
        current.at("revision"@) is Unsigned,
    ensures
        ({
            let event = update_node(s);
            let (first, one) = recording_started(target, root, true, s);
            let (second, two) = recorded_step(first, Ok(state));
            let (third, three) = recorded_step(second, Ok(current));
            &&& one matches RecordStepView::Ask(r) && r.at("action"@) == Node::Text("status"@)
                && r.at("client_id"@) == Node::Text(
                "webcodex:"@ + digest_of(encode_utf8(s.context.session_id->0)),
            )
            &&& two matches RecordStepView::Ask(r) && r.at("action"@) == Node::Text("read"@)
                && r.at("task_id"@) == Node::Text(target.task_id)
            &&& three matches RecordStepView::Ask(r) && r.at("action"@) == Node::Text("append"@)
                && r.at("task_id"@) == Node::Text(target.task_id) && r.at("expected_revision"@)
                == current.at("revision"@) && r.at("event"@) == event
            &&& forall|reply: Node|
                (#[trigger] recorded_step(third, Ok(reply))).1 == RecordStepView::Done(true)
        }),
{
    let revision = current.at("revision"@)->Unsigned_0;
    law_requests_ask(s.context.session_id->0, target.task_id, revision, update_node(s));
}

/// Recording an update is reported as saved only where the append was answered;
/// a changed revision is tried once more, with the same event.
pub proof fn law_recording_is_saved_by_an_append(
    state: RecordingView,
    reply: Result<Node, Failure>,
)
    ensures
        recorded_step(state, reply).1 == RecordStepView::Done(true) <==> state is Appending && reply
            is Ok,
        (state matches RecordingView::Appending { target, event, retry } && reply matches Err(f)
            && retry && f.code@ == "revision_conflict"@) ==> (recorded_step(state, reply).0
            matches RecordingView::Reading { target: to, event: kept, retry: again } && to
            == state->Appending_target && kept == state->Appending_event && !again),
        (state matches RecordingView::Appending { target, event, retry } && reply matches Err(f)
            && !(retry && f.code@ == "revision_conflict"@)) ==> recorded_step(state, reply).1
            == RecordStepView::Done(false),
{
}

} // verus!
