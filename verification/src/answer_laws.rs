//! What a request is answered, over what the project holds.
use vstd::prelude::*;
use crate::actions::{by_id, checkpoint_of, overview_of, summarized, surveyed};
use crate::appending::{enabled_index, growth_of, is_known, remembered, repetition_of};
use crate::checks::{has_task};
use crate::directory::{DirectoryView, index_at, task_at};
use crate::dispatch::{
    CallView, DispatchStepView, DispatchView, archive_answered, identity_scope, retry_hint,
    routed, server_request, started, tables_retired, target_identity,
};
use crate::event::{EventView};
use crate::failure::{Failure, stale};
use crate::index_laws::{lemma_has_concat, lemma_sorted_keeps};
use crate::json::{Node, record};
use crate::lifecycle::{archive_request_of, resolved, server_bound};
use crate::message_laws::{law_requests_ask};
use crate::mutations::{creation_of};
use crate::record_laws::{key_code, lemma_record_member, lemma_set_member};
use crate::records::{IdentityView, IndexView, SummaryView, TaskView};
use crate::reply::{CheckpointView, ReplyView, reply_node};
use crate::reply_laws::{law_checkpoint_says};
use crate::request::{RequestView};
use crate::server::{TablesView, deliveries_of};
use crate::store::{BoundView};
use crate::table::{lemma_put_lookup, lookup};
use crate::tool::{ResolvedView, fingerprint_in, with_member};

verus! {

proof fn lemma_surveyed(
    d: DirectoryView,
    identity: IdentityView,
    tasks: Seq<SummaryView>,
    k: nat,
    policy: Seq<Seq<char>>,
    i: int,
)
    requires
        0 <= i < k <= tasks.len(),
        surveyed(d, identity, tasks, k, policy) is Ok,
    ensures
        ({
            let (list, stale) = surveyed(d, identity, tasks, k, policy)->Ok_0;
            &&& list.len() == k
            &&& task_at(d, identity, tasks[i].task_id, policy) is Ok
            &&& list[i] == summarized(task_at(d, identity, tasks[i].task_id, policy)->Ok_0)
            &&& tasks[i] != list[i] ==> stale
        }),
    decreases k,
{
    let found = task_at(d, identity, tasks[k - 1].task_id, policy);
    if i < k - 1 {
        lemma_surveyed(d, identity, tasks, (k - 1) as nat, policy, i);
    } else if k > 1 {
        lemma_surveyed(d, identity, tasks, (k - 1) as nat, policy, 0);
    }
}

proof fn lemma_lagging(
    d: DirectoryView,
    identity: IdentityView,
    tasks: Seq<SummaryView>,
    k: nat,
    policy: Seq<Seq<char>>,
) -> (i: int)
    requires
        k <= tasks.len(),
        surveyed(d, identity, tasks, k, policy) is Ok,
        (surveyed(d, identity, tasks, k, policy)->Ok_0).1,
    ensures
        0 <= i < k,
        tasks[i] != summarized(task_at(d, identity, tasks[i].task_id, policy)->Ok_0),
    decreases k,
{
    let before = surveyed(d, identity, tasks, (k - 1) as nat, policy)->Ok_0;
    if before.1 {
        lemma_lagging(d, identity, tasks, (k - 1) as nat, policy)
    } else {
        k - 1
    }
}

/// The status of a project reports each of its tasks as its file has it, and no
/// other; the retired ones as the index lists them; and the task that the
/// asking client selected. It says that the index lags behind exactly where one
/// of the summaries differs.
pub proof fn law_status_reports_the_project(
    d: DirectoryView,
    identity: IdentityView,
    v: IndexView,
    client: Option<Seq<char>>,
    policy: Seq<Seq<char>>,
)
    requires
        index_at(d, identity) == Ok::<_, Failure>(Some(v)),
        v.enabled,
        overview_of(d, identity, client, policy) is Ok,
    ensures
        ({
            &&& overview_of(d, identity, client, policy) matches Ok(ReplyView::Status(o)) && ({
                &&& o.revision == v.revision
                &&& o.archived == v.retired_tasks
                &&& o.tasks.len() == v.tasks.len()
                &&& forall|i: int|
                    0 <= i < v.tasks.len() ==> task_at(
                        d,
                        identity,
                        (#[trigger] v.tasks[i]).task_id,
                        policy,
                    ) is Ok && o.tasks.contains(
                        summarized(task_at(d, identity, v.tasks[i].task_id, policy)->Ok_0),
                    )
                &&& o.stale <==> exists|i: int|
                    0 <= i < v.tasks.len() && #[trigger] v.tasks[i] != summarized(
                        task_at(d, identity, v.tasks[i].task_id, policy)->Ok_0,
                    )
                &&& client is None ==> o.bound is None
                &&& client matches Some(c) ==> (match lookup(v.bindings, c) {
                    Some(id) => if has_task(v.tasks, id) {
                        o.bound == Some(Some(id))
                    } else {
                        o.bound == Some(None::<Seq<char>>)
                    },
                    None => o.bound == Some(None::<Seq<char>>),
                })
            })
        }),
{
    let n = v.tasks.len();
    let (list, stale) = surveyed(d, identity, v.tasks, n, policy)->Ok_0;
    if n > 0 {
        lemma_surveyed(d, identity, v.tasks, n, policy, 0);
    }
    lemma_sorted_keeps(list);
    let o = overview_of(d, identity, client, policy)->Ok_0->Status_0;
    assert forall|i: int| 0 <= i < v.tasks.len() implies task_at(
        d,
        identity,
        (#[trigger] v.tasks[i]).task_id,
        policy,
    ) is Ok && o.tasks.contains(
        summarized(task_at(d, identity, v.tasks[i].task_id, policy)->Ok_0),
    ) by {
        lemma_surveyed(d, identity, v.tasks, n, policy, i);
        assert(list.contains(list[i]));
        assert(by_id(list).contains(list[i]));
    }
    if stale {
        let i = lemma_lagging(d, identity, v.tasks, n, policy);
        assert(v.tasks[i] != summarized(task_at(d, identity, v.tasks[i].task_id, policy)->Ok_0));
    }
    if exists|i: int|
        0 <= i < v.tasks.len() && #[trigger] v.tasks[i] != summarized(
            task_at(d, identity, v.tasks[i].task_id, policy)->Ok_0,
        ) {
        let i = choose|i: int|
            0 <= i < v.tasks.len() && #[trigger] v.tasks[i] != summarized(
                task_at(d, identity, v.tasks[i].task_id, policy)->Ok_0,
            );
        lemma_surveyed(d, identity, v.tasks, n, policy, i);
    }
}

/// A project without handoffs, and one whose handoffs are turned off, is
/// reported as disabled, to a status and to a read request.
pub proof fn law_disabled_project_is_reported(
    d: DirectoryView,
    identity: IdentityView,
    client: Option<Seq<char>>,
    id: Seq<char>,
    policy: Seq<Seq<char>>,
)
    requires
        index_at(d, identity) matches Ok(found) && (found matches Some(v) ==> !v.enabled),
    ensures
        overview_of(d, identity, client, policy) == Ok::<_, Failure>(ReplyView::Disabled),
        checkpoint_of(d, identity, id, policy) == Ok::<_, Failure>(ReplyView::Unread),
{
}

/// A read request is answered with the task as its files have it, and says
/// whether it is archived.
pub proof fn law_read_reports_the_task(
    d: DirectoryView,
    identity: IdentityView,
    v: IndexView,
    id: Seq<char>,
    policy: Seq<Seq<char>>,
)
    requires
        index_at(d, identity) == Ok::<_, Failure>(Some(v)),
        v.enabled,
    ensures
        has_task(v.tasks, id) || has_task(v.retired_tasks, id) ==> (match task_at(
            d,
            identity,
            id,
            policy,
        ) {
            Ok(task) => checkpoint_of(d, identity, id, policy) matches Ok(ReplyView::Read(c))
                && c.task == task && (c.archived <==> has_task(v.retired_tasks, id)),
            Err(f) => checkpoint_of(d, identity, id, policy) == Err::<ReplyView, _>(f),
        }),
        !has_task(v.tasks, id) && !has_task(v.retired_tasks, id) ==> (checkpoint_of(
            d,
            identity,
            id,
            policy,
        ) matches Err(f) && f.code@ == "task_not_found"@ && !f.state_changed),
{
}

/// An event that is appended is answered with its task and its id, at the next
/// revisions of the task and of the index; at another revision than the
/// expected one it is refused as a conflict of the two.
pub proof fn law_append_is_answered(
    d: DirectoryView,
    v: IndexView,
    t: TaskView,
    e: EventView,
    expected: u64,
    now: i64,
)
    ensures
        t.revision != expected ==> growth_of(d, v, t, e, expected, now).reply == Err::<
            ReplyView,
            _,
        >(stale(expected, t.revision)) && growth_of(d, v, t, e, expected, now).writes.len() == 0,
        growth_of(d, v, t, e, expected, now).reply is Ok ==> (growth_of(
            d,
            v,
            t,
            e,
            expected,
            now,
        ).reply matches Ok(
            ReplyView::Appended { task_id, revision, index_revision, event_id, markdown },
        ) && task_id == t.task_id && revision == t.revision + 1 && index_revision == v.revision + 1
            && event_id == e.id),
{
}

/// A repeated event is answered as a duplicate with its own id, at the revision
/// that the task has: the task does not move on.
pub proof fn law_repetition_is_answered(
    d: DirectoryView,
    v: IndexView,
    t: TaskView,
    e: EventView,
    digest: Seq<char>,
    now: i64,
)
    ensures
        repetition_of(d, v, t, e, digest, now).reply is Ok ==> (repetition_of(
            d,
            v,
            t,
            e,
            digest,
            now,
        ).reply matches Ok(
            ReplyView::Duplicate { task_id, revision, event_id, index_revision, index_repaired },
        ) && task_id == t.task_id && revision == t.revision && event_id == e.id && (index_repaired
            ==> index_revision == v.revision + 1) && (!index_repaired ==> index_revision
            == v.revision)),
        remembered(t, e, digest).events == t.events,
        remembered(t, e, digest).revision == t.revision,
        remembered(t, e, digest).status == t.status,
        is_known(remembered(t, e, digest), e) || !is_known(t, e),
{
    lemma_put_lookup(t.event_aliases, e.id, digest, e.id);
}

/// A task that is created is answered with its id, at its first revision and
/// the next one of the index.
pub proof fn law_create_is_answered(
    d: DirectoryView,
    identity: IdentityView,
    r: RequestView,
    now: i64,
)
    requires
        r.task_id is Some,
        r.title is Some,
        creation_of(d, identity, r, now).reply is Ok,
    ensures
        creation_of(d, identity, r, now).reply matches Ok(
            ReplyView::Created { task_id, revision, index_revision, markdown },
        ) && Some(task_id) == r.task_id && revision == 1 && (match index_at(d, identity) {
            Ok(Some(v)) => index_revision == v.revision + 1 && !has_task(v.tasks, task_id)
                && !has_task(v.retired_tasks, task_id) && v.tasks.len() < 64 && (
            r.expected_revision matches Some(n) ==> n == v.revision),
            Ok(None) => index_revision == 1,
            Err(_) => false,
        }),
{
    let id = r.task_id->0;
    if let Ok(Some(v)) = index_at(d, identity) {
        lemma_has_concat(v.tasks, v.retired_tasks, id);
    }
}

/// A task that is archived is answered with its id at the expected revision,
/// and as a duplicate where it was archived before. Only a resolved task is
/// archived, and one that a session of the server selected only by the server.
pub proof fn law_archive_is_answered(
    d: DirectoryView,
    identity: IdentityView,
    r: RequestView,
    policy: Seq<Seq<char>>,
    now: i64,
    coordinated: bool,
)
    requires
        r.task_id is Some,
        r.expected_revision is Some,
        archive_request_of(d, identity, r, policy, now, coordinated).reply is Ok,
    ensures
        ({
            let p = archive_request_of(d, identity, r, policy, now, coordinated);
            let id = r.task_id->0;
            &&& enabled_index(d, identity) matches Ok(v) && ({
                &&& p.reply matches Ok(ReplyView::Archived { task_id, revision, duplicate })
                    && task_id == id && Some(revision) == r.expected_revision && (duplicate
                    <==> has_task(v.retired_tasks, id))
                &&& has_task(v.retired_tasks, id) ==> p.writes.len() == 0
                &&& task_at(d, identity, id, policy) matches Ok(t) && resolved(t) && Some(t.revision)
                    == r.expected_revision
                &&& !coordinated ==> !server_bound(v, id)
            })
        }),
{
    let id = r.task_id->0;
    let t = task_at(d, identity, id, policy)->Ok_0;
    assert(t.task_id == id);
}

/// A call that reads asks the runner for the checkpoint of the task that it
/// names, and for the status where it names none; a call that writes passes its
/// request on.
pub proof fn law_calls_are_started(
    project: Seq<char>,
    task: Seq<char>,
    session: Option<Seq<char>>,
    own: Seq<char>,
    request: Node,
)
    ensures
        started(CallView::Read { project, task_id: Some(task), session_id: session }).1
            == DispatchStepView::Resolve(project),
        started(CallView::Read { project, task_id: Some(task), session_id: session }).0 matches (
        DispatchView::Resolving { session: of, write, request: asked }) && of == session && !write
            && asked.at("action"@) == Node::Text("read"@) && asked.at("task_id"@) == Node::Text(
            task,
        ),
        started(CallView::Read { project, task_id: None, session_id: session }).0 matches (
        DispatchView::Resolving { session: of, write, request: asked }) && of == session && !write
            && asked.at("action"@) == Node::Text("status"@),
        server_request(own, request) matches Ok(passed) ==> started(
            CallView::Write { project, session_id: own, request },
        ) == (
            DispatchView::Resolving { session: Some(own), write: true, request: passed },
            DispatchStepView::Resolve(project),
        ),
        server_request(own, request) matches Err(e) ==> (started(
            CallView::Write { project, session_id: own, request },
        ).1 matches DispatchStepView::Answer(told) && !told.success && told.error == Some(e)),
{
    match session {
        Some(s) => {
            law_requests_ask(s, task, 0, Node::Null);
        },
        None => {
            law_requests_ask(Seq::empty(), task, 0, Node::Null);
        },
    }
}

/// Where a call goes once its project is resolved: a write only to a project
/// that may be changed; an archival for exclusive access first; a selection to
/// the checkpoint of its task; everything else to the runner as it is.
pub proof fn law_calls_are_routed(
    session: Option<Seq<char>>,
    write: bool,
    request: Node,
    p: ResolvedView,
    t: TablesView,
)
    ensures
        ({
            let (state, step, after) = routed(session, write, request, Ok(p), t);
            let action = request.at("action"@);
            let ordinary = !write || (p.allow_patch && action != Node::Text("archive"@) && action
                != Node::Text("bind"@));
            &&& after == t
            &&& ordinary ==> step == DispatchStepView::Ask { project: p, write, request }
            &&& write && !p.allow_patch ==> (step matches DispatchStepView::Answer(told)
                && !told.success)
            &&& write && p.allow_patch && action == Node::Text("archive"@) ==> step
                == DispatchStepView::Gate
            &&& write && p.allow_patch && action == Node::Text("bind"@) && !(t is Absent) ==> (
            match request.at("task_id"@) {
                Node::Text(task) => step matches DispatchStepView::Ask {
                    project: to,
                    write: changes,
                    request: asked,
                } && to == p && !changes && asked.at("action"@) == Node::Text("read"@) && asked.at(
                    "task_id"@,
                ) == Node::Text(task),
                _ => step is Answer,
            })
            &&& write && p.allow_patch && action == Node::Text("bind"@) && t is Absent ==> (step
                matches DispatchStepView::Answer(told) && !told.success)
        }),
{
    reveal_strlit("archive");
    reveal_strlit("bind");
    assert("archive"@.len() != "bind"@.len());
    if request.at("task_id"@) is Text {
        law_requests_ask(Seq::empty(), request.at("task_id"@)->Text_0, 0, Node::Null);
    }
}

/// A session is bound to the task that it selects under the identity that the
/// checkpoint of the task shows, to the project as it is resolved.
pub proof fn law_target_of_a_session(
    session: Seq<char>,
    p: ResolvedView,
    task: Seq<char>,
    c: CheckpointView,
)
    ensures
        ({
            let b = target_identity(
                session,
                p,
                task,
                fingerprint_in(reply_node(ReplyView::Read(c)))->0,
            );
            &&& b.session_id == session
            &&& b.project_id == p.resolved_id
            &&& b.client_id == p.client_id
            &&& b.project_path == p.path
            &&& b.task_id == task
            &&& b.root_fingerprint == c.task.project_identity.root_fingerprint
        }),
{
    law_checkpoint_says(c);
}

proof fn lemma_archival_codes()
    ensures
        key_code("retirement"@) == 44868924532,
        key_code("source_status"@) == 57771259251,
        key_code("source_pending_facts"@) == 87836030323,
        key_code("checkpoint"@) == 44617459060,
        key_code("retry"@) == 23394088057,
{
    reveal_strlit("retirement");
    reveal_strlit("source_status");
    reveal_strlit("source_pending_facts");
    reveal_strlit("checkpoint");
    reveal_strlit("retry");
}

/// What is told of an archival that the runner answered: retired where the
/// tables confirmed it, pending where they did not.
pub proof fn law_archival_is_told(
    identity: BoundView,
    was: bool,
    output: Node,
    code: Seq<char>,
    t: TablesView,
)
    requires
        output is Record,
    ensures
        ({
            let (state, step, after) = archive_answered(identity, was, Ok(output), t);
            &&& step matches DispatchStepView::Answer(told) && (told.success <==> tables_retired(
                t,
                identity,
                true,
            ).1) && (told.success ==> told.output.at("retirement"@) == Node::Text("retired"@)
                && told.output.at("status"@) == output.at("status"@) && told.output.at("task_id"@)
                == output.at("task_id"@)) && (!told.success ==> told.error == Some(
                "handoff_retirement_pending"@,
            ) && told.output.at("retirement"@) == Node::Text("pending"@) && told.output.at(
                "checkpoint"@,
            ) == output)
        }),
        ({
            let (state, step, after) = archive_answered(identity, was, Err(code), t);
            &&& step matches DispatchStepView::Answer(told) && !told.success && told.error == Some(
                code,
            ) && (told.output.at("retirement"@) == Node::Text("not_archived"@) <==> code
                != "handoff_save_unknown"@ && !was && t is Open) && (told.output.at("retirement"@)
                != Node::Text("not_archived"@) ==> told.output.at("retirement"@) == Node::Text(
                "pending"@,
            ) && after == t)
        }),
{
    lemma_archival_codes();
    lemma_archival_words();
    lemma_kept_codes();
    let s = seq![
        ("checkpoint"@, output),
        ("retirement"@, Node::Text("pending"@)),
        ("retry"@, retry_hint()),
    ];
    lemma_record_member(s, 0);
    lemma_record_member(s, 1);
    lemma_record_member(s, 2);
    let after = tables_retired(t, identity, true).0;
    let source = deliveries_of(after, identity_scope(identity));
    let one = with_member(output, "retirement"@, Node::Text("retired"@));
    let two = with_member(one, "source_status"@, source);
    assert forall|q: Seq<char>|
        q != "source_status"@ && q != "source_pending_facts"@ implies #[trigger] with_member(
        two,
        "source_pending_facts"@,
        source.at("pending"@),
    ).member(q) == (if q == "retirement"@ {
        Some(Node::Text("retired"@))
    } else {
        output.member(q)
    }) by {
        lemma_set_member(output, "retirement"@, Node::Text("retired"@), q);
        lemma_set_member(one, "source_status"@, source, q);
        lemma_set_member(two, "source_pending_facts"@, source.at("pending"@), q);
    }
    lemma_lifted_note("not_archived"@);
    lemma_lifted_note("pending"@);
}

proof fn lemma_lifted_note(word: Seq<char>)
    ensures
        record(seq![("retirement"@, Node::Text(word)), ("retry"@, retry_hint())]).at("retirement"@)
            == Node::Text(word),
{
    lemma_archival_codes();
    let s = seq![("retirement"@, Node::Text(word)), ("retry"@, retry_hint())];
    lemma_record_member(s, 0);
}

proof fn lemma_archival_words()
    ensures
        key_code("not_archived"@) == 53392405604,
        key_code("pending"@) == 31950466663,
        key_code("retired"@) == 31984022628,
{
    reveal_strlit("not_archived");
    reveal_strlit("pending");
    reveal_strlit("retired");
}

proof fn lemma_kept_codes()
    ensures
        key_code("status"@) == 27706810739,
        key_code("task_id"@) == 32017314660,
        key_code("retirement"@) == 44868924532,
        key_code("source_status"@) == 57771259251,
        key_code("source_pending_facts"@) == 87836030323,
{
    reveal_strlit("status");
    reveal_strlit("task_id");
    reveal_strlit("retirement");
    reveal_strlit("source_status");
    reveal_strlit("source_pending_facts");
}

} // verus!
