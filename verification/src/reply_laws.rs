//! What the JSON object of an answer says.
use vstd::prelude::*;
use crate::codec::{arranged, arranged_fields, arranged_items, distinct_keys};
use crate::job_laws::{law_job_object};
use crate::jobs::{JobView, job_node, job_nodes, jobs_of};
use crate::json::{Node, gathered_fields, signed_node};
use crate::markdown::{MAX_EVENT_COUNT, MarkdownState, history_nodes};
use crate::normal_form::{lemma_ordered_distinct};
use crate::record_laws::{key_code, lemma_arranged_member};
use crate::records::{
    IdentityView, SummaryView, TaskView, identity_node, summary_node, summary_nodes, task_node,
};
use crate::reply::{
    CheckpointView, OverviewView, ReplyView, capacity_node, checkpoint_fields, overview_fields,
    reply_fields, reply_node, retained_node, text_or_null, usage_node,
};
use crate::table::{
    lemma_lookup_end, lemma_lookup_miss, lemma_put_lookup, lemma_put_ordered, lookup, ordered,
};
use crate::tool::{fingerprint_in};
use crate::writing::{archived, disk_view};

verus! {

proof fn lemma_reply_codes()
    ensures
        key_code("enabled"@) == 31766503780,
        key_code("status"@) == 27706810739,
        key_code("tasks"@) == 23427380083,
        key_code("checkpoint"@) == 44617459060,
        key_code("revision"@) == 36278990446,
        key_code("archived_tasks"@) == 61764428659,
        key_code("archive_capacity"@) == 70354363257,
        key_code("capacity"@) == 36027068537,
        key_code("usage"@) == 23445332325,
        key_code("bound_task_id"@) == 57486046564,
        key_code("integrity"@) == 40423552121,
        key_code("archived"@) == 35994624868,
        key_code("task_id"@) == 32017314660,
        key_code("jobs"@) == 18965553779,
        key_code("jobs_total"@) == 44735357548,
        key_code("jobs_truncated"@) == 61915226724,
        key_code("history"@) == 31816512377,
        key_code("event_count"@) == 48946898292,
        key_code("index_revision"@) == 61898384494,
        key_code("markdown"@) == 36194841198,
        key_code("event_id"@) == 36061996388,
        key_code("index_repaired"@) == 61898384484,
        key_code("client_id"@) == 40322754916,
        key_code("duplicate"@) == 40340123749,
        key_code("state_changed"@) == 57771581796,
        key_code("volume_uuid"@) == 49231653988,
        key_code("identity"@) == 36127925625,
        key_code("legacy_records_unchanged"@) == 104897800036,
{
    reveal_strlit("enabled");
    reveal_strlit("status");
    reveal_strlit("tasks");
    reveal_strlit("checkpoint");
    reveal_strlit("revision");
    reveal_strlit("archived_tasks");
    reveal_strlit("archive_capacity");
    reveal_strlit("capacity");
    reveal_strlit("usage");
    reveal_strlit("bound_task_id");
    reveal_strlit("integrity");
    reveal_strlit("archived");
    reveal_strlit("task_id");
    reveal_strlit("jobs");
    reveal_strlit("jobs_total");
    reveal_strlit("jobs_truncated");
    reveal_strlit("history");
    reveal_strlit("event_count");
    reveal_strlit("index_revision");
    reveal_strlit("markdown");
    reveal_strlit("event_id");
    reveal_strlit("index_repaired");
    reveal_strlit("client_id");
    reveal_strlit("duplicate");
    reveal_strlit("state_changed");
    reveal_strlit("volume_uuid");
    reveal_strlit("identity");
    reveal_strlit("legacy_records_unchanged");
}

proof fn lemma_summary_codes()
    ensures
        key_code("task_id"@) == 32017314660,
        key_code("title"@) == 23427904613,
        key_code("status"@) == 27706810739,
        key_code("revision"@) == 36278990446,
        key_code("updated_at"@) == 44919972980,
        key_code("event_count"@) == 48946898292,
        key_code("unknown_count"@) == 57804745588,
{
    reveal_strlit("task_id");
    reveal_strlit("title");
    reveal_strlit("status");
    reveal_strlit("revision");
    reveal_strlit("updated_at");
    reveal_strlit("event_count");
    reveal_strlit("unknown_count");
}

proof fn lemma_capacity_codes()
    ensures
        key_code("max_tasks"@) == 40489810035,
        key_code("max_events_per_segment"@) == 96324384884,
        key_code("max_archives_per_task"@) == 92029417579,
        key_code("max_events_per_task"@) == 83439482987,
        key_code("max_task_bytes"@) == 61964646515,
        key_code("max_total_bytes"@) == 66259613811,
        key_code("tasks"@) == 23427380083,
        key_code("bytes"@) == 23126963315,
        key_code("near_limit"@) == 44801810804,
        key_code("archived_events"@) == 66059395955,
        key_code("files"@) == 23193021555,
{
    reveal_strlit("max_tasks");
    reveal_strlit("max_events_per_segment");
    reveal_strlit("max_archives_per_task");
    reveal_strlit("max_events_per_task");
    reveal_strlit("max_task_bytes");
    reveal_strlit("max_total_bytes");
    reveal_strlit("tasks");
    reveal_strlit("bytes");
    reveal_strlit("near_limit");
    reveal_strlit("archived_events");
    reveal_strlit("files");
}

proof fn lemma_task_codes()
    ensures
        key_code("format"@) == 27488383604,
        key_code("version"@) == 32051130990,
        key_code("managed_by"@) == 44784774777,
        key_code("project_identity"@) == 70606024569,
        key_code("task_id"@) == 32017314660,
        key_code("title"@) == 23427904613,
        key_code("status"@) == 27706810739,
        key_code("revision"@) == 36278990446,
        key_code("created_at"@) == 44618114420,
        key_code("updated_at"@) == 44919972980,
        key_code("unknown_count"@) == 57804745588,
        key_code("events"@) == 27472061811,
        key_code("archives"@) == 35994624883,
        key_code("event_aliases"@) == 57536832883,
{
    reveal_strlit("format");
    reveal_strlit("version");
    reveal_strlit("managed_by");
    reveal_strlit("project_identity");
    reveal_strlit("task_id");
    reveal_strlit("title");
    reveal_strlit("status");
    reveal_strlit("revision");
    reveal_strlit("created_at");
    reveal_strlit("updated_at");
    reveal_strlit("unknown_count");
    reveal_strlit("events");
    reveal_strlit("archives");
    reveal_strlit("event_aliases");
}

proof fn lemma_identity_codes()
    ensures
        key_code("canonical_root"@) == 61796871796,
        key_code("device"@) == 27454174821,
        key_code("inode"@) == 23243681637,
        key_code("root_fingerprint"@) == 70639382388,
{
    reveal_strlit("canonical_root");
    reveal_strlit("device");
    reveal_strlit("inode");
    reveal_strlit("root_fingerprint");
}

proof fn lemma_arranged_list(items: Seq<Node>, k: nat)
    requires
        k <= items.len(),
    ensures
        arranged_items(items, k).len() == k,
        forall|i: int| 0 <= i < k ==> #[trigger] arranged_items(items, k)[i] == arranged(items[i]),
    decreases k,
{
    if k > 0 {
        lemma_arranged_list(items, (k - 1) as nat);
    }
}

/// Whether a value tells a summary as it is.
pub open spec fn tells_summary(n: Node, v: SummaryView) -> bool {
    &&& n.at("task_id"@) == Node::Text(v.task_id)
    &&& n.at("title"@) == Node::Text(v.title)
    &&& n.at("status"@) == Node::Text(v.status)
    &&& n.at("revision"@) == Node::Unsigned(v.revision)
    &&& n.at("updated_at"@).signed() == Some(v.updated_at)
    &&& n.at("event_count"@) == Node::Unsigned(v.event_count)
    &&& n.at("unknown_count"@) == Node::Unsigned(v.unknown_count)
}

/// Whether a value tells each of the summaries, in their order.
pub open spec fn tells_summaries(n: Node, all: Seq<SummaryView>) -> bool {
    n matches Node::List(items) && items.len() == all.len() && forall|i: int|
        0 <= i < items.len() ==> tells_summary(#[trigger] items[i], all[i])
}

proof fn lemma_summary_object(v: SummaryView)
    ensures
        tells_summary(arranged(summary_node(v)), v),
{
    lemma_summary_codes();
    let s = summary_node(v)->Record_0;
    lemma_arranged_member(s, 0);
    lemma_arranged_member(s, 1);
    lemma_arranged_member(s, 2);
    lemma_arranged_member(s, 3);
    lemma_arranged_member(s, 4);
    lemma_arranged_member(s, 5);
    lemma_arranged_member(s, 6);
}

proof fn lemma_summary_objects(all: Seq<SummaryView>)
    ensures
        tells_summaries(arranged(summary_nodes(all)), all),
{
    let items = summary_nodes(all)->List_0;
    lemma_arranged_list(items, items.len());
    let list = arranged(summary_nodes(all))->List_0;
    assert forall|i: int| 0 <= i < list.len() implies tells_summary(#[trigger] list[i], all[i]) by {
        lemma_summary_object(all[i]);
    }
}

proof fn lemma_capacity_object()
    ensures
        arranged(capacity_node()).at("max_tasks"@) == Node::Unsigned(64),
        arranged(capacity_node()).at("max_events_per_segment"@) == Node::Unsigned(128),
        arranged(capacity_node()).at("max_archives_per_task"@) == Node::Unsigned(64),
        arranged(capacity_node()).at("max_events_per_task"@) == Node::Unsigned(8320),
        arranged(capacity_node()).at("max_task_bytes"@) == Node::Unsigned(262144),
        arranged(capacity_node()).at("max_total_bytes"@) == Node::Unsigned(2097152),
        arranged(retained_node()).at("tasks"@) == Node::Unsigned(128),
        arranged(retained_node()).at("bytes"@) == Node::Unsigned(134217728),
{
    lemma_capacity_codes();
    let s = capacity_node()->Record_0;
    lemma_arranged_member(s, 0);
    lemma_arranged_member(s, 1);
    lemma_arranged_member(s, 2);
    lemma_arranged_member(s, 3);
    lemma_arranged_member(s, 4);
    lemma_arranged_member(s, 5);
    let m = retained_node()->Record_0;
    lemma_arranged_member(m, 0);
    lemma_arranged_member(m, 1);
}

proof fn lemma_usage_object(o: OverviewView)
    ensures
        arranged(usage_node(o)).at("tasks"@) == Node::Unsigned(o.tasks.len() as u64),
        arranged(usage_node(o)).at("bytes"@) == Node::Unsigned(o.used_bytes),
        arranged(usage_node(o)).at("near_limit"@) == Node::Bool(
            10 * o.tasks.len() >= 8 * 64 || 10 * o.used_bytes >= 8 * 2097152,
        ),
{
    lemma_capacity_codes();
    let s = usage_node(o)->Record_0;
    lemma_arranged_member(s, 0);
    lemma_arranged_member(s, 1);
    lemma_arranged_member(s, 2);
}

/// What the status of a project says: its revision, each of its tasks, the
/// limits, what of them is used, the selected task where a client asked, and
/// whether the index lags behind.
pub proof fn law_status_says(o: OverviewView)
    ensures
        ({
            let n = reply_node(ReplyView::Status(o));
            &&& n.at("enabled"@) == Node::Bool(true)
            &&& n.at("status"@) == Node::Text("enabled"@)
            &&& n.at("revision"@) == Node::Unsigned(o.revision)
            &&& tells_summaries(n.at("tasks"@), o.tasks)
            &&& tells_summaries(n.at("archived_tasks"@), o.archived)
            &&& n.at("archive_capacity"@).at("tasks"@) == Node::Unsigned(128)
            &&& n.at("archive_capacity"@).at("bytes"@) == Node::Unsigned(134217728)
            &&& n.at("capacity"@).at("max_tasks"@) == Node::Unsigned(64)
            &&& n.at("capacity"@).at("max_events_per_segment"@) == Node::Unsigned(128)
            &&& n.at("capacity"@).at("max_archives_per_task"@) == Node::Unsigned(64)
            &&& n.at("capacity"@).at("max_events_per_task"@) == Node::Unsigned(8320)
            &&& n.at("capacity"@).at("max_task_bytes"@) == Node::Unsigned(262144)
            &&& n.at("capacity"@).at("max_total_bytes"@) == Node::Unsigned(2097152)
            &&& n.at("usage"@).at("tasks"@) == Node::Unsigned(o.tasks.len() as u64)
            &&& n.at("usage"@).at("bytes"@) == Node::Unsigned(o.used_bytes)
            &&& n.at("usage"@).at("near_limit"@) == Node::Bool(
                10 * o.tasks.len() >= 8 * 64 || 10 * o.used_bytes >= 8 * 2097152,
            )
            &&& o.bound matches Some(Some(task)) ==> n.at("bound_task_id"@) == Node::Text(task)
            &&& o.bound matches Some(None) ==> n.member("bound_task_id"@) == Some(Node::Null)
            &&& o.bound is None ==> n.member("bound_task_id"@) is None
            &&& o.stale ==> n.at("integrity"@) == Node::Text("index_stale"@)
            &&& !o.stale ==> n.member("integrity"@) is None
        }),
{
    lemma_reply_codes();
    lemma_capacity_object();
    lemma_usage_object(o);
    lemma_summary_objects(o.tasks);
    lemma_summary_objects(o.archived);
    let head = seq![
        ("enabled"@, Node::Bool(true)),
        ("status"@, Node::Text("enabled"@)),
        ("revision"@, Node::Unsigned(o.revision)),
        ("tasks"@, summary_nodes(o.tasks)),
        ("archived_tasks"@, summary_nodes(o.archived)),
        ("archive_capacity"@, retained_node()),
        ("capacity"@, capacity_node()),
        ("usage"@, usage_node(o)),
    ];
    let s = overview_fields(o);
    let note = ("integrity"@, Node::Text("index_stale"@));
    match o.bound {
        None => {
            if o.stale {
                assert(s =~= head.push(note));
                lemma_arranged_member(s, 8);
            } else {
                assert(s =~= head);
                lemma_arranged_absent(s, "integrity"@);
            }
            lemma_arranged_absent(s, "bound_task_id"@);
            lemma_overview_head(s);
        },
        Some(b) => {
            let chosen = ("bound_task_id"@, text_or_null(b));
            if o.stale {
                assert(s =~= head.push(chosen).push(note));
                lemma_arranged_member(s, 9);
            } else {
                assert(s =~= head.push(chosen));
                lemma_arranged_absent(s, "integrity"@);
            }
            lemma_arranged_member(s, 8);
            lemma_overview_head(s);
        },
    }
    assert(s[0] == head[0] && s[1] == head[1] && s[2] == head[2] && s[3] == head[3]);
    assert(s[4] == head[4] && s[5] == head[5] && s[6] == head[6] && s[7] == head[7]);
}

proof fn lemma_overview_head(s: Seq<(Seq<char>, Node)>)
    requires
        8 <= s.len() <= 10,
        s[0].0 == "enabled"@,
        s[1].0 == "status"@,
        s[2].0 == "revision"@,
        s[3].0 == "tasks"@,
        s[4].0 == "archived_tasks"@,
        s[5].0 == "archive_capacity"@,
        s[6].0 == "capacity"@,
        s[7].0 == "usage"@,
        s.len() > 8 ==> s[8].0 == "bound_task_id"@ || s[8].0 == "integrity"@,
        s.len() > 9 ==> s[9].0 == "integrity"@,
    ensures
        forall|i: int|
            0 <= i < 8 ==> arranged(Node::Record(s)).member((#[trigger] s[i]).0) == Some(
                arranged(s[i].1),
            ),
{
    lemma_reply_codes();
    lemma_arranged_member(s, 0);
    lemma_arranged_member(s, 1);
    lemma_arranged_member(s, 2);
    lemma_arranged_member(s, 3);
    lemma_arranged_member(s, 4);
    lemma_arranged_member(s, 5);
    lemma_arranged_member(s, 6);
    lemma_arranged_member(s, 7);
}

proof fn lemma_arranged_absent(s: Seq<(Seq<char>, Node)>, q: Seq<char>)
    requires
        forall|j: int| 0 <= j < s.len() ==> key_code((#[trigger] s[j]).0) != key_code(q),
    ensures
        arranged(Node::Record(s)).member(q) is None,
{
    lemma_arranged_missing(s, s.len(), q);
}

proof fn lemma_arranged_missing(s: Seq<(Seq<char>, Node)>, k: nat, q: Seq<char>)
    requires
        k <= s.len(),
        forall|j: int| 0 <= j < k ==> key_code((#[trigger] s[j]).0) != key_code(q),
    ensures
        lookup(arranged_fields(s, k), q) is None,
    decreases k,
{
    if k > 0 {
        let before = arranged_fields(s, (k - 1) as nat);
        lemma_put_lookup(before, s[k - 1].0, arranged(s[k - 1].1), q);
        assert(key_code(s[k - 1].0) != key_code(q));
        lemma_arranged_missing(s, (k - 1) as nat, q);
    }
}

proof fn lemma_identity_object(v: IdentityView)
    ensures
        arranged(identity_node(v)).at("canonical_root"@) == Node::Text(v.canonical_root),
        arranged(identity_node(v)).at("device"@) == Node::Unsigned(v.device),
        arranged(identity_node(v)).at("inode"@) == Node::Unsigned(v.inode),
        arranged(identity_node(v)).at("root_fingerprint"@) == Node::Text(v.root_fingerprint),
{
    lemma_identity_codes();
    let s = identity_node(v)->Record_0;
    lemma_arranged_member(s, 0);
    lemma_arranged_member(s, 1);
    lemma_arranged_member(s, 2);
    lemma_arranged_member(s, 3);
}

/// Whether a value tells a task as its file does.
pub open spec fn tells_task(n: Node, t: TaskView) -> bool {
    &&& n.at("task_id"@) == Node::Text(t.task_id)
    &&& n.at("title"@) == Node::Text(t.title)
    &&& n.at("status"@) == Node::Text(t.status)
    &&& n.at("revision"@) == Node::Unsigned(t.revision)
    &&& n.at("created_at"@).signed() == Some(t.created_at)
    &&& n.at("updated_at"@).signed() == Some(t.updated_at)
    &&& n.at("unknown_count"@) == Node::Unsigned(t.unknown_count)
    &&& n.at("format"@) == Node::Text(t.format)
    &&& n.at("version"@) == Node::Unsigned(t.version as u64)
    &&& n.at("managed_by"@) == Node::Text(t.managed_by)
    &&& n.at("project_identity"@).at("canonical_root"@) == Node::Text(
        t.project_identity.canonical_root,
    )
    &&& n.at("project_identity"@).at("root_fingerprint"@) == Node::Text(
        t.project_identity.root_fingerprint,
    )
    &&& n.at("project_identity"@).at("device"@) == Node::Unsigned(t.project_identity.device)
    &&& n.at("project_identity"@).at("inode"@) == Node::Unsigned(t.project_identity.inode)
    &&& n.at("events"@) matches Node::List(events) && events.len() == t.events.len() && forall|
        i: int,
    |
        0 <= i < events.len() ==> #[trigger] events[i] == arranged(t.events[i])
}

proof fn lemma_task_object(t: TaskView)
    ensures
        tells_task(arranged(task_node(t)), t),
{
    lemma_task_codes();
    lemma_identity_object(t.project_identity);
    lemma_arranged_list(t.events, t.events.len());
    let head = seq![
        ("format"@, Node::Text(t.format)),
        ("version"@, Node::Unsigned(t.version as u64)),
        ("managed_by"@, Node::Text(t.managed_by)),
        ("project_identity"@, identity_node(t.project_identity)),
        ("task_id"@, Node::Text(t.task_id)),
        ("title"@, Node::Text(t.title)),
        ("status"@, Node::Text(t.status)),
        ("revision"@, Node::Unsigned(t.revision)),
        ("created_at"@, signed_node(t.created_at)),
        ("updated_at"@, signed_node(t.updated_at)),
        ("unknown_count"@, Node::Unsigned(t.unknown_count)),
        ("events"@, Node::List(t.events)),
    ];
    let s = task_node(t)->Record_0;
    assert(s[0] == head[0] && s[1] == head[1] && s[2] == head[2] && s[3] == head[3]);
    assert(s[4] == head[4] && s[5] == head[5] && s[6] == head[6] && s[7] == head[7]);
    assert(s[8] == head[8] && s[9] == head[9] && s[10] == head[10] && s[11] == head[11]);
    assert forall|i: int| 12 <= i < s.len() implies (#[trigger] s[i]).0 == "archives"@ || s[i].0
        == "event_aliases"@ by {
    }
    lemma_task_head(s);
}

proof fn lemma_task_head(s: Seq<(Seq<char>, Node)>)
    requires
        12 <= s.len(),
        s[0].0 == "format"@,
        s[1].0 == "version"@,
        s[2].0 == "managed_by"@,
        s[3].0 == "project_identity"@,
        s[4].0 == "task_id"@,
        s[5].0 == "title"@,
        s[6].0 == "status"@,
        s[7].0 == "revision"@,
        s[8].0 == "created_at"@,
        s[9].0 == "updated_at"@,
        s[10].0 == "unknown_count"@,
        s[11].0 == "events"@,
        forall|i: int|
            12 <= i < s.len() ==> (#[trigger] s[i]).0 == "archives"@ || s[i].0 == "event_aliases"@,
    ensures
        forall|i: int|
            0 <= i < 12 ==> arranged(Node::Record(s)).member((#[trigger] s[i]).0) == Some(
                arranged(s[i].1),
            ),
{
    lemma_task_codes();
    lemma_arranged_member(s, 0);
    lemma_arranged_member(s, 1);
    lemma_arranged_member(s, 2);
    lemma_arranged_member(s, 3);
    lemma_arranged_member(s, 4);
    lemma_arranged_member(s, 5);
    lemma_arranged_member(s, 6);
    lemma_arranged_member(s, 7);
    lemma_arranged_member(s, 8);
    lemma_arranged_member(s, 9);
    lemma_arranged_member(s, 10);
    lemma_arranged_member(s, 11);
}

/// What the checkpoint of a task says: which task it is and at which revision,
/// how many events there are, and the task with what its file holds.
pub proof fn law_checkpoint_says(c: CheckpointView)
    ensures
        ({
            let n = reply_node(ReplyView::Read(c));
            &&& n.at("enabled"@) == Node::Bool(true)
            &&& n.at("status"@) == Node::Text("ready"@)
            &&& n.at("archived"@) == Node::Bool(c.archived)
            &&& n.at("task_id"@) == Node::Text(c.task.task_id)
            &&& n.at("revision"@) == Node::Unsigned(c.task.revision)
            &&& n.at("event_count"@) == Node::Unsigned(c.task.events.len() as u64)
            &&& n.at("jobs_total"@) == Node::Unsigned(jobs_of(c.task.events).len() as u64)
            &&& n.at("jobs_truncated"@) == Node::Bool(jobs_of(c.task.events).len() > 128)
            &&& tells_task(n.at("checkpoint"@), disk_view(c.task))
            &&& fingerprint_in(n) == Some(c.task.project_identity.root_fingerprint)
            &&& n.at("history"@).at("archived_events"@) == Node::Unsigned(archived(c.task) as u64)
            &&& c.stale ==> n.at("integrity"@) == Node::Text("index_stale"@)
            &&& !c.stale ==> n.member("integrity"@) is None
        }),
{
    lemma_reply_codes();
    lemma_capacity_codes();
    lemma_task_object(disk_view(c.task));
    let jobs = jobs_of(c.task.events);
    let h = seq![
        ("archived_events"@, Node::Unsigned(archived(c.task) as u64)),
        ("files"@, history_nodes(c.task.archives)),
    ];
    lemma_arranged_member(h, 0);
    let head = seq![
        ("enabled"@, Node::Bool(true)),
        ("status"@, Node::Text("ready"@)),
        ("archived"@, Node::Bool(c.archived)),
        ("task_id"@, Node::Text(c.task.task_id)),
        ("revision"@, Node::Unsigned(c.task.revision)),
        ("jobs"@, job_nodes(jobs, MAX_EVENT_COUNT as int)),
        ("jobs_total"@, Node::Unsigned(jobs.len() as u64)),
        ("jobs_truncated"@, Node::Bool(jobs.len() > MAX_EVENT_COUNT)),
        ("history"@, Node::Record(h)),
        ("event_count"@, Node::Unsigned(c.task.events.len() as u64)),
        ("checkpoint"@, task_node(disk_view(c.task))),
    ];
    let s = checkpoint_fields(c);
    if c.stale {
        assert(s =~= head.push(("integrity"@, Node::Text("index_stale"@))));
        lemma_arranged_member(s, 11);
    } else {
        assert(s =~= head);
        lemma_arranged_absent(s, "integrity"@);
    }
    lemma_checkpoint_head(s);
    assert(s[0] == head[0] && s[1] == head[1] && s[2] == head[2] && s[3] == head[3]);
    assert(s[4] == head[4] && s[5] == head[5] && s[6] == head[6] && s[7] == head[7]);
    assert(s[8] == head[8] && s[9] == head[9] && s[10] == head[10]);
}

proof fn lemma_checkpoint_head(s: Seq<(Seq<char>, Node)>)
    requires
        11 <= s.len() <= 12,
        s[0].0 == "enabled"@,
        s[1].0 == "status"@,
        s[2].0 == "archived"@,
        s[3].0 == "task_id"@,
        s[4].0 == "revision"@,
        s[5].0 == "jobs"@,
        s[6].0 == "jobs_total"@,
        s[7].0 == "jobs_truncated"@,
        s[8].0 == "history"@,
        s[9].0 == "event_count"@,
        s[10].0 == "checkpoint"@,
        s.len() > 11 ==> s[11].0 == "integrity"@,
    ensures
        forall|i: int|
            0 <= i < 11 ==> arranged(Node::Record(s)).member((#[trigger] s[i]).0) == Some(
                arranged(s[i].1),
            ),
{
    lemma_reply_codes();
    lemma_arranged_member(s, 0);
    lemma_arranged_member(s, 1);
    lemma_arranged_member(s, 2);
    lemma_arranged_member(s, 3);
    lemma_arranged_member(s, 4);
    lemma_arranged_member(s, 5);
    lemma_arranged_member(s, 6);
    lemma_arranged_member(s, 7);
    lemma_arranged_member(s, 8);
    lemma_arranged_member(s, 9);
    lemma_arranged_member(s, 10);
}

/// The jobs that the checkpoint of a task tells are those that its events
/// report, the first 128 of them.
pub proof fn law_checkpoint_tells_the_jobs(c: CheckpointView, i: int)
    requires
        0 <= i < jobs_of(c.task.events).len(),
        i < 128,
    ensures
        ({
            let n = reply_node(ReplyView::Read(c));
            let job = jobs_of(c.task.events)[i];
            n.at("jobs"@) matches Node::List(jobs) && i < jobs.len() <= 128 && jobs.len()
                <= jobs_of(c.task.events).len() && jobs[i].at("job_id"@) == Node::Text(job.job_id)
                && jobs[i].at("terminal"@) == Node::Bool(job.terminal) && jobs[i].at("status"@)
                == arranged(job.status)
        }),
{
    let jobs = jobs_of(c.task.events);
    let s = checkpoint_fields(c);
    lemma_checkpoint_head(s);
    assert(s[5] == ("jobs"@, job_nodes(jobs, MAX_EVENT_COUNT as int)));
    let items = job_nodes(jobs, MAX_EVENT_COUNT as int)->List_0;
    lemma_arranged_list(items, items.len());
    lemma_job_arranged(jobs[i]);
}

proof fn lemma_job_arranged(job: JobView)
    ensures
        arranged(job_node(job)).at("job_id"@) == Node::Text(job.job_id),
        arranged(job_node(job)).at("terminal"@) == Node::Bool(job.terminal),
        arranged(job_node(job)).at("status"@) == arranged(job.status),
{
    law_job_object(job);
    let fields = job_node(job)->Record_0;
    lemma_arranged_lookup(fields, fields.len(), "job_id"@);
    lemma_arranged_lookup(fields, fields.len(), "terminal"@);
    lemma_arranged_lookup(fields, fields.len(), "status"@);
    lemma_gathered_ordered(job);
    lemma_ordered_distinct(fields);
    assert(fields.take(fields.len() as int) =~= fields);
}

pub proof fn lemma_checkpoint_jobs(c: CheckpointView)
    ensures
        reply_node(ReplyView::Read(c)).at("jobs"@) matches Node::List(jobs) && jobs.len() == (
        if jobs_of(c.task.events).len() <= 128 {
            jobs_of(c.task.events).len()
        } else {
            128
        }),
{
    let jobs = jobs_of(c.task.events);
    let s = checkpoint_fields(c);
    lemma_checkpoint_head(s);
    assert(s[5] == ("jobs"@, job_nodes(jobs, MAX_EVENT_COUNT as int)));
    let items = job_nodes(jobs, MAX_EVENT_COUNT as int)->List_0;
    lemma_arranged_list(items, items.len());
}

proof fn lemma_gathered_ordered(job: JobView)
    ensures
        ordered(job_node(job)->Record_0),
{
    let s = seq![
        ("job_id"@, Node::Text(job.job_id)),
        ("status"@, job.status),
        ("terminal"@, Node::Bool(job.terminal)),
        ("exit_code"@, job.exit_code),
        ("job_update_seq"@, job.job_update_seq),
        ("source"@, job.source),
    ];
    lemma_gathered_in_order(s, s.len());
}

proof fn lemma_gathered_in_order(s: Seq<(Seq<char>, Node)>, k: nat)
    ensures
        ordered(gathered_fields(s, k)),
    decreases k,
{
    if k > 0 && k <= s.len() {
        lemma_gathered_in_order(s, (k - 1) as nat);
        lemma_put_ordered(gathered_fields(s, (k - 1) as nat), s[k - 1].0, s[k - 1].1);
    }
}

/// The arranged object answers what the object answers, where no key is there
/// twice.
proof fn lemma_arranged_lookup(s: Seq<(Seq<char>, Node)>, k: nat, q: Seq<char>)
    requires
        k <= s.len(),
    ensures
        distinct_keys(s) ==> lookup(arranged_fields(s, k), q) == (match lookup(
            s.take(k as int),
            q,
        ) {
            Some(v) => Some(arranged(v)),
            None => None,
        }),
    decreases k,
{
    if k > 0 {
        lemma_arranged_lookup(s, (k - 1) as nat, q);
        let before = arranged_fields(s, (k - 1) as nat);
        lemma_put_lookup(before, s[k - 1].0, arranged(s[k - 1].1), q);
        let prior = s.take(k - 1);
        lemma_lookup_end(prior, s[k - 1], q);
        assert(s.take(k as int) =~= prior.push(s[k - 1]));
        if distinct_keys(s) && q == s[k - 1].0 {
            assert forall|j: int| 0 <= j < prior.len() implies #[trigger] prior[j].0 != q by {
                assert(s[j].0 != s[k - 1].0);
            }
            lemma_lookup_miss(prior, q);
        }
    } else {
        assert(s.take(0) =~= Seq::<(Seq<char>, Node)>::empty());
    }
}

/// What the answer to a write says: what was done, to which task, and at which
/// revision it is.
pub proof fn law_written_answer_says(v: ReplyView)
    ensures
        ({
            let n = reply_node(v);
            match v {
                ReplyView::Created { task_id, revision, index_revision, markdown } => {
                    &&& n.at("status"@) == Node::Text("saved"@)
                    &&& n.at("task_id"@) == Node::Text(task_id)
                    &&& n.at("revision"@) == Node::Unsigned(revision)
                    &&& n.at("index_revision"@) == Node::Unsigned(index_revision)
                    &&& markdown == MarkdownState::Created ==> n.at("markdown"@) == Node::Text(
                        "created"@,
                    )
                    &&& markdown == MarkdownState::Updated ==> n.at("markdown"@) == Node::Text(
                        "updated"@,
                    )
                    &&& markdown == MarkdownState::PreservedUnmanaged ==> n.at("markdown"@)
                        == Node::Text("preserved_unmanaged"@)
                },
                ReplyView::Appended { task_id, revision, index_revision, event_id, markdown } => {
                    &&& n.at("status"@) == Node::Text("saved"@)
                    &&& n.at("task_id"@) == Node::Text(task_id)
                    &&& n.at("revision"@) == Node::Unsigned(revision)
                    &&& n.at("index_revision"@) == Node::Unsigned(index_revision)
                    &&& n.at("event_id"@) == Node::Text(event_id)
                    &&& markdown == MarkdownState::Created ==> n.at("markdown"@) == Node::Text(
                        "created"@,
                    )
                    &&& markdown == MarkdownState::Updated ==> n.at("markdown"@) == Node::Text(
                        "updated"@,
                    )
                    &&& markdown == MarkdownState::PreservedUnmanaged ==> n.at("markdown"@)
                        == Node::Text("preserved_unmanaged"@)
                },
                ReplyView::Duplicate {
                    task_id,
                    revision,
                    event_id,
                    index_revision,
                    index_repaired,
                } => {
                    &&& n.at("status"@) == Node::Text("duplicate"@)
                    &&& n.at("task_id"@) == Node::Text(task_id)
                    &&& n.at("revision"@) == Node::Unsigned(revision)
                    &&& n.at("event_id"@) == Node::Text(event_id)
                    &&& n.at("index_revision"@) == Node::Unsigned(index_revision)
                    &&& n.at("index_repaired"@) == Node::Bool(index_repaired)
                },
                ReplyView::Bound { task_id, client_id, revision } => {
                    &&& n.at("status"@) == Node::Text("bound"@)
                    &&& n.at("task_id"@) == Node::Text(task_id)
                    &&& n.at("client_id"@) == Node::Text(client_id)
                    &&& n.at("bound_task_id"@) == Node::Text(task_id)
                    &&& n.at("revision"@) == Node::Unsigned(revision)
                },
                ReplyView::Archived { task_id, revision, duplicate } => {
                    &&& n.at("status"@) == Node::Text("archived"@)
                    &&& n.at("task_id"@) == Node::Text(task_id)
                    &&& n.at("revision"@) == Node::Unsigned(revision)
                    &&& n.at("duplicate"@) == Node::Bool(duplicate)
                },
                ReplyView::TurnedOff { revision } => {
                    &&& n.at("status"@) == Node::Text("disabled"@)
                    &&& n.at("enabled"@) == Node::Bool(false)
                    &&& n.at("revision"@) == Node::Unsigned(revision)
                },
                ReplyView::Disabled => {
                    &&& n.at("enabled"@) == Node::Bool(false)
                    &&& n.at("status"@) == Node::Text("disabled"@)
                },
                ReplyView::Unread => {
                    &&& n.at("enabled"@) == Node::Bool(false)
                    &&& n.at("status"@) == Node::Text("disabled"@)
                    &&& n.member("checkpoint"@) == Some(Node::Null)
                },
                ReplyView::Reviewed { volume, identity } => {
                    &&& n.at("status"@) == Node::Text("reviewed"@)
                    &&& n.at("state_changed"@) == Node::Bool(false)
                    &&& n.at("volume_uuid"@) == Node::Text(volume)
                    &&& n.at("identity"@).at("canonical_root"@) == Node::Text(
                        identity.canonical_root,
                    )
                    &&& n.at("identity"@).at("root_fingerprint"@) == Node::Text(
                        identity.root_fingerprint,
                    )
                    &&& n.at("identity"@).at("device"@) == Node::Unsigned(identity.device)
                    &&& n.at("identity"@).at("inode"@) == Node::Unsigned(identity.inode)
                },
                ReplyView::Anchored => {
                    &&& n.at("status"@) == Node::Text("anchored"@)
                    &&& n.at("state_changed"@) == Node::Bool(true)
                    &&& n.at("legacy_records_unchanged"@) == Node::Bool(true)
                },
                _ => true,
            }
        }),
{
    lemma_reply_codes();
    let s = reply_fields(v);
    match v {
        ReplyView::Status(_) => {},
        ReplyView::Read(_) => {},
        ReplyView::Reviewed { volume, identity } => {
            lemma_identity_object(identity);
            lemma_short_reply(s);
        },
        _ => {
            lemma_short_reply(s);
        },
    }
}

proof fn lemma_short_reply(s: Seq<(Seq<char>, Node)>)
    requires
        s.len() <= 6,
        forall|i: int, j: int|
            0 <= i < j < s.len() ==> key_code((#[trigger] s[i]).0) != key_code((#[trigger] s[j]).0),
    ensures
        forall|i: int|
            0 <= i < s.len() ==> arranged(Node::Record(s)).member((#[trigger] s[i]).0) == Some(
                arranged(s[i].1),
            ),
{
    assert forall|i: int| 0 <= i < s.len() implies arranged(Node::Record(s)).member(
        (#[trigger] s[i]).0,
    ) == Some(arranged(s[i].1)) by {
        assert forall|j: int| i < j < s.len() implies key_code((#[trigger] s[j]).0) != key_code(
            s[i].0,
        ) by {
        }
        lemma_arranged_member(s, i);
    }
}

} // verus!
