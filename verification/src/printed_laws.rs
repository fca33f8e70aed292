//! What the records are printed as.
use vstd::prelude::*;
use crate::anchor::{AnchorView, anchor_node};
use crate::json::{Node, signed_node};
use crate::record_laws::{key_code};
use crate::records::{
    ArchiveView, IndexView, SummaryView, TaskView, archive_node, identity_node, index_node,
    summary_node, summary_nodes, task_node, text_map,
};
use crate::reply_laws::{tells_summaries, tells_summary};
use crate::table::{lemma_lookup_hit, lemma_lookup_miss};
use crate::text::{is_white_space};

verus! {

proof fn lemma_index_codes()
    ensures
        key_code("format"@) == 27488383604,
        key_code("version"@) == 32051130990,
        key_code("managed_by"@) == 44784774777,
        key_code("enabled"@) == 31766503780,
        key_code("project_identity"@) == 70606024569,
        key_code("revision"@) == 36278990446,
        key_code("updated_at"@) == 44919972980,
        key_code("tasks"@) == 23427380083,
        key_code("retired_tasks"@) == 57753826419,
        key_code("bindings"@) == 36010815091,
{
    reveal_strlit("format");
    reveal_strlit("version");
    reveal_strlit("managed_by");
    reveal_strlit("enabled");
    reveal_strlit("project_identity");
    reveal_strlit("revision");
    reveal_strlit("updated_at");
    reveal_strlit("tasks");
    reveal_strlit("retired_tasks");
    reveal_strlit("bindings");
}

proof fn lemma_listed_codes()
    ensures
        key_code("task_id"@) == 32017314660,
        key_code("title"@) == 23427904613,
        key_code("status"@) == 27706810739,
        key_code("revision"@) == 36278990446,
        key_code("updated_at"@) == 44919972980,
        key_code("event_count"@) == 48946898292,
        key_code("unknown_count"@) == 57804745588,
{
    reveal_strlit("task_id");
    reveal_strlit("title");
    reveal_strlit("status");
    reveal_strlit("revision");
    reveal_strlit("updated_at");
    reveal_strlit("event_count");
    reveal_strlit("unknown_count");
}

proof fn lemma_history_codes()
    ensures
        key_code("file"@) == 18898054245,
        key_code("sha256"@) == 27706024246,
        key_code("event_count"@) == 48946898292,
        key_code("bytes"@) == 23126963315,
{
    reveal_strlit("file");
    reveal_strlit("sha256");
    reveal_strlit("event_count");
    reveal_strlit("bytes");
}

proof fn lemma_whole_codes()
    ensures
        key_code("format"@) == 27488383604,
        key_code("version"@) == 32051130990,
        key_code("managed_by"@) == 44784774777,
        key_code("project_identity"@) == 70606024569,
        key_code("task_id"@) == 32017314660,
        key_code("title"@) == 23427904613,
        key_code("status"@) == 27706810739,
        key_code("revision"@) == 36278990446,
        key_code("created_at"@) == 44618114420,
        key_code("updated_at"@) == 44919972980,
        key_code("unknown_count"@) == 57804745588,
        key_code("events"@) == 27472061811,
        key_code("archives"@) == 35994624883,
        key_code("event_aliases"@) == 57536832883,
{
    reveal_strlit("format");
    reveal_strlit("version");
    reveal_strlit("managed_by");
    reveal_strlit("project_identity");
    reveal_strlit("task_id");
    reveal_strlit("title");
    reveal_strlit("status");
    reveal_strlit("revision");
    reveal_strlit("created_at");
    reveal_strlit("updated_at");
    reveal_strlit("unknown_count");
    reveal_strlit("events");
    reveal_strlit("archives");
    reveal_strlit("event_aliases");
}

proof fn lemma_anchor_codes()
    ensures
        key_code("version"@) == 32051130990,
        key_code("volume_uuid"@) == 49231653988,
        key_code("identity"@) == 36127925625,
{
    reveal_strlit("version");
    reveal_strlit("volume_uuid");
    reveal_strlit("identity");
}

/// The first member with a key is the one that an object answers.
proof fn lemma_first_member(s: Seq<(Seq<char>, Node)>, i: int)
    requires
        0 <= i < s.len(),
        forall|j: int| 0 <= j < i ==> key_code((#[trigger] s[j]).0) != key_code(s[i].0),
    ensures
        Node::Record(s).member(s[i].0) == Some(s[i].1),
        Node::Record(s).at(s[i].0) == s[i].1,
{
    assert forall|j: int| 0 <= j < i implies #[trigger] s[j].0 != s[i].0 by {
        assert(key_code(s[j].0) != key_code(s[i].0));
    }
    lemma_lookup_hit(s, s[i].0, i);
}

proof fn lemma_no_member(s: Seq<(Seq<char>, Node)>, q: Seq<char>)
    requires
        forall|j: int| 0 <= j < s.len() ==> key_code((#[trigger] s[j]).0) != key_code(q),
    ensures
        Node::Record(s).member(q) is None,
{
    assert forall|j: int| 0 <= j < s.len() implies #[trigger] s[j].0 != q by {
        assert(key_code(s[j].0) != key_code(q));
    }
    lemma_lookup_miss(s, q);
}

/// A summary is printed under the names of its parts.
pub proof fn law_summary_is_printed(v: SummaryView)
    ensures
        tells_summary(summary_node(v), v),
{
    lemma_listed_codes();
    let s = summary_node(v)->Record_0;
    lemma_first_member(s, 0);
    lemma_first_member(s, 1);
    lemma_first_member(s, 2);
    lemma_first_member(s, 3);
    lemma_first_member(s, 4);
    lemma_first_member(s, 5);
    lemma_first_member(s, 6);
}

/// A reference to archived history is printed under the names of its parts.
pub proof fn law_archive_is_printed(a: ArchiveView)
    ensures
        archive_node(a).at("file"@) == Node::Text(a.file),
        archive_node(a).at("sha256"@) == Node::Text(a.sha256),
        archive_node(a).at("event_count"@) == Node::Unsigned(a.event_count),
        archive_node(a).at("bytes"@) == Node::Unsigned(a.bytes),
{
    lemma_history_codes();
    let s = archive_node(a)->Record_0;
    lemma_first_member(s, 0);
    lemma_first_member(s, 1);
    lemma_first_member(s, 2);
    lemma_first_member(s, 3);
}

/// The index is printed under the names of its parts; retired tasks are named
/// only where there are some.
pub proof fn law_index_is_printed(v: IndexView)
    ensures
        ({
            let n = index_node(v);
            &&& n.at("format"@) == Node::Text(v.format)
            &&& n.at("version"@) == Node::Unsigned(v.version as u64)
            &&& n.at("managed_by"@) == Node::Text(v.managed_by)
            &&& n.at("enabled"@) == Node::Bool(v.enabled)
            &&& n.at("revision"@) == Node::Unsigned(v.revision)
            &&& n.at("updated_at"@).signed() == Some(v.updated_at)
            &&& tells_summaries(n.at("tasks"@), v.tasks)
            &&& v.retired_tasks.len() > 0 ==> tells_summaries(n.at("retired_tasks"@), v.retired_tasks)
            &&& v.retired_tasks.len() == 0 ==> n.member("retired_tasks"@) is None
            &&& n.at("bindings"@) matches Node::Record(fields) && fields.len() == v.bindings.len()
                && forall|i: int|
                0 <= i < fields.len() ==> (#[trigger] fields[i]).0 == v.bindings[i].0 && fields[i].1
                    == Node::Text(v.bindings[i].1)
        }),
{
    lemma_index_codes();
    lemma_summaries_printed(v.tasks);
    lemma_summaries_printed(v.retired_tasks);
    let head = seq![
        ("format"@, Node::Text(v.format)),
        ("version"@, Node::Unsigned(v.version as u64)),
        ("managed_by"@, Node::Text(v.managed_by)),
        ("enabled"@, Node::Bool(v.enabled)),
        ("project_identity"@, identity_node(v.project_identity)),
        ("revision"@, Node::Unsigned(v.revision)),
        ("updated_at"@, signed_node(v.updated_at)),
        ("tasks"@, summary_nodes(v.tasks)),
    ];
    let chosen = ("bindings"@, text_map(v.bindings));
    let s = index_node(v)->Record_0;
    if v.retired_tasks.len() == 0 {
        assert(s =~= head.push(chosen));
        lemma_first_member(s, 8);
        lemma_no_member(s, "retired_tasks"@);
        lemma_index_head(s);
    } else {
        let gone = ("retired_tasks"@, summary_nodes(v.retired_tasks));
        assert(s =~= head.push(gone).push(chosen));
        lemma_first_member(s, 8);
        lemma_first_member(s, 9);
        lemma_index_head(s);
    }
    assert(s[0] == head[0] && s[1] == head[1] && s[2] == head[2] && s[3] == head[3]);
    assert(s[5] == head[5] && s[6] == head[6] && s[7] == head[7]);
}

proof fn lemma_index_head(s: Seq<(Seq<char>, Node)>)
    requires
        8 <= s.len(),
        s[0].0 == "format"@,
        s[1].0 == "version"@,
        s[2].0 == "managed_by"@,
        s[3].0 == "enabled"@,
        s[4].0 == "project_identity"@,
        s[5].0 == "revision"@,
        s[6].0 == "updated_at"@,
        s[7].0 == "tasks"@,
    ensures
        forall|i: int|
            0 <= i < 8 ==> Node::Record(s).member((#[trigger] s[i]).0) == Some(s[i].1),
{
    lemma_index_codes();
    lemma_first_member(s, 0);
    lemma_first_member(s, 1);
    lemma_first_member(s, 2);
    lemma_first_member(s, 3);
    lemma_first_member(s, 4);
    lemma_first_member(s, 5);
    lemma_first_member(s, 6);
    lemma_first_member(s, 7);
}

proof fn lemma_summaries_printed(all: Seq<SummaryView>)
    ensures
        tells_summaries(summary_nodes(all), all),
{
    let items = summary_nodes(all)->List_0;
    assert forall|i: int| 0 <= i < items.len() implies tells_summary(#[trigger] items[i], all[i]) by {
        law_summary_is_printed(all[i]);
    }
}

/// The file of a task is printed under the names of its parts, with its events
/// in their order.
pub proof fn law_task_is_printed(t: TaskView)
    ensures
        ({
            let n = task_node(t);
            &&& n.at("format"@) == Node::Text(t.format)
            &&& n.at("version"@) == Node::Unsigned(t.version as u64)
            &&& n.at("managed_by"@) == Node::Text(t.managed_by)
            &&& n.at("task_id"@) == Node::Text(t.task_id)
            &&& n.at("title"@) == Node::Text(t.title)
            &&& n.at("status"@) == Node::Text(t.status)
            &&& n.at("revision"@) == Node::Unsigned(t.revision)
            &&& n.at("created_at"@).signed() == Some(t.created_at)
            &&& n.at("updated_at"@).signed() == Some(t.updated_at)
            &&& n.at("unknown_count"@) == Node::Unsigned(t.unknown_count)
            &&& n.at("events"@) == Node::List(t.events)
        }),
{
    lemma_whole_codes();
    let head = seq![
        ("format"@, Node::Text(t.format)),
        ("version"@, Node::Unsigned(t.version as u64)),
        ("managed_by"@, Node::Text(t.managed_by)),
        ("project_identity"@, identity_node(t.project_identity)),
        ("task_id"@, Node::Text(t.task_id)),
        ("title"@, Node::Text(t.title)),
        ("status"@, Node::Text(t.status)),
        ("revision"@, Node::Unsigned(t.revision)),
        ("created_at"@, signed_node(t.created_at)),
        ("updated_at"@, signed_node(t.updated_at)),
        ("unknown_count"@, Node::Unsigned(t.unknown_count)),
        ("events"@, Node::List(t.events)),
    ];
    let s = task_node(t)->Record_0;
    assert(s[0] == head[0] && s[1] == head[1] && s[2] == head[2] && s[3] == head[3]);
    assert(s[4] == head[4] && s[5] == head[5] && s[6] == head[6] && s[7] == head[7]);
    assert(s[8] == head[8] && s[9] == head[9] && s[10] == head[10] && s[11] == head[11]);
    lemma_first_member(s, 0);
    lemma_first_member(s, 1);
    lemma_first_member(s, 2);
    lemma_first_member(s, 3);
    lemma_first_member(s, 4);
    lemma_first_member(s, 5);
    lemma_first_member(s, 6);
    lemma_first_member(s, 7);
    lemma_first_member(s, 8);
    lemma_first_member(s, 9);
    lemma_first_member(s, 10);
    lemma_first_member(s, 11);
}

/// An anchor is printed with its version, its volume and the identity that it
/// keeps.
pub proof fn law_anchor_is_printed(a: AnchorView)
    ensures
        anchor_node(a).at("version"@) == Node::Unsigned(a.version as u64),
        anchor_node(a).at("volume_uuid"@) == Node::Text(a.volume_uuid),
        anchor_node(a).at("identity"@) == identity_node(a.identity),
{
    lemma_anchor_codes();
    let s = anchor_node(a)->Record_0;
    lemma_first_member(s, 0);
    lemma_first_member(s, 1);
    lemma_first_member(s, 2);
}

/// Which characters are white space.
pub proof fn law_white_space(c: char)
    ensures
        is_white_space(c) <==> c == '\t' || c == '\n' || c == '\u{b}' || c == '\u{c}' || c == '\r'
            || c == ' ' || c == '\u{85}' || c == '\u{a0}' || c == '\u{1680}' || '\u{2000}' <= c
            <= '\u{200a}' || c == '\u{2028}' || c == '\u{2029}' || c == '\u{202f}' || c
            == '\u{205f}' || c == '\u{3000}',
{
}

} // verus!
