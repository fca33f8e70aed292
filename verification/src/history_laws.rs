//! What the records of a project hold.
use vstd::prelude::*;
use vstd::utf8::*;
use crate::accepted_laws::{
    is_id_text, law_accepted_event_is_well_formed, lemma_id_text, may_be_recorded,
};
use crate::anchor::{ANCHOR_FILE_NAME};
use crate::appending::{recorded};
use crate::asked_laws::{is_client_text, is_slug_text, law_ids};
use crate::checks::{
    INDEX_FILE_NAME, archive_name, has_task, ids_of, index_check, markdown_name, task_check,
    task_name, unknown_total,
};
use crate::codec::{alike, json_pretty, lemma_alike_member};
use crate::digest::{digest_of};
use crate::event::{event_of};
use crate::index_laws::{good_binding, good_summary, law_valid_index_is_sound};
use crate::job_laws::{says_ended};
use crate::jobs::{lemma_substance_lookup, same_end, substance};
use crate::json::{Node};
use crate::path::{HANDOFF_DIR_NAME};
use crate::records::{IdentityView, IndexView, TaskView};
use crate::task_laws::{lemma_aliases_each, lemma_ids_members, lemma_ids_prefix};
use crate::text::{decimal, hex, hex_digit, trim};
use crate::writing::{archive_plan, archived, disk_view, lemma_archived_pushed, segment};

verus! {

/// The files of a checkpoint are named after their tasks.
pub proof fn law_file_names(id: Seq<char>, sha256: Seq<char>)
    ensures
        task_name(id) == id + ".json"@,
        markdown_name(id) == id + ".md"@,
        archive_name(id, sha256) == id + ".events-"@ + sha256 + ".json"@,
        INDEX_FILE_NAME@ == "index.json"@,
        ANCHOR_FILE_NAME@ == ".volume-anchor.json"@,
        HANDOFF_DIR_NAME@ == "handoff"@,
{
}

proof fn lemma_ids_distinct(events: Seq<Node>, k: nat, policy: Seq<Seq<char>>)
    requires
        k <= events.len(),
        ids_of(events, k, policy) is Ok,
    ensures
        forall|i: int, j: int|
            0 <= i < j < k ==> ids_of(events, k, policy)->Ok_0[i] != ids_of(
                events,
                k,
                policy,
            )->Ok_0[j],
    decreases k,
{
    if k > 0 {
        lemma_ids_distinct(events, (k - 1) as nat, policy);
        lemma_ids_members(events, (k - 1) as nat, policy);
        let ids = ids_of(events, (k - 1) as nat, policy)->Ok_0;
        let all = ids_of(events, k, policy)->Ok_0;
        assert forall|i: int, j: int| 0 <= i < j < k implies all[i] != all[j] by {
            if j == k - 1 {
                assert(ids.contains(ids[i]));
            }
        }
    }
}

/// A valid task is a managed record of its project: at a revision, in one of
/// the four statuses, with an id and a title, with acceptable events of
/// different ids, and with as many unknown outcomes as it says. What it
/// remembers of repeated events has ids and digests of its own.
pub proof fn law_valid_task(t: TaskView, identity: IdentityView, policy: Seq<Seq<char>>)
    requires
        task_check(t, identity, policy) is Ok,
    ensures
        t.format == "webcodex.handoff.task.v1"@ && t.version == 1 && t.managed_by == "webcodex"@,
        t.project_identity == identity,
        t.revision > 0,
        t.events.len() <= 8320,
        t.status == "active"@ || t.status == "completed"@ || t.status == "unknown"@ || t.status
            == "blocked"@,
        is_slug_text(Node::Text(t.task_id)),
        0 < trim(t.title).len() <= 256,
        forall|i: int|
            0 <= i < t.events.len() ==> may_be_recorded(#[trigger] t.events[i], policy),
        forall|i: int, j: int|
            0 <= i < j < t.events.len() ==> (#[trigger] t.events[i]).at("event_id"@) != (
            #[trigger] t.events[j]).at("event_id"@),
        t.unknown_count == unknown_total(t.events, t.events.len(), policy),
        forall|a: int|
            0 <= a < t.event_aliases.len() ==> is_id_text(
                Node::Text((#[trigger] t.event_aliases[a]).0),
            ) && t.event_aliases[a].1.len() == 64 && forall|i: int|
                0 <= i < t.events.len() ==> (#[trigger] t.events[i]).at("event_id"@) != Node::Text(
                    t.event_aliases[a].0,
                ),
{
    law_ids(Node::Text(t.task_id));
    let ids = ids_of(t.events, t.events.len(), policy)->Ok_0;
    lemma_ids_members(t.events, t.events.len(), policy);
    lemma_ids_distinct(t.events, t.events.len(), policy);
    lemma_aliases_each(t.event_aliases, t.event_aliases.len(), ids);
    assert forall|i: int| 0 <= i < t.events.len() implies may_be_recorded(
        #[trigger] t.events[i],
        policy,
    ) by {
        law_accepted_event_is_well_formed(t.events[i], policy);
    }
    assert forall|i: int, j: int| 0 <= i < j < t.events.len() implies (#[trigger] t.events[i]).at(
        "event_id"@,
    ) != (#[trigger] t.events[j]).at("event_id"@) by {
        assert(ids[i] != ids[j]);
    }
    assert forall|a: int| 0 <= a < t.event_aliases.len() implies is_id_text(
        Node::Text((#[trigger] t.event_aliases[a]).0),
    ) && t.event_aliases[a].1.len() == 64 && forall|i: int|
        0 <= i < t.events.len() ==> (#[trigger] t.events[i]).at("event_id"@) != Node::Text(
            t.event_aliases[a].0,
        ) by {
        lemma_id_text(t.event_aliases[a].0);
        assert forall|i: int| 0 <= i < t.events.len() implies (#[trigger] t.events[i]).at(
            "event_id"@,
        ) != Node::Text(t.event_aliases[a].0) by {
            assert(ids.contains(ids[i]));
        }
    }
}

/// The unknown outcomes are counted one by one.
pub proof fn law_unknown_outcomes_are_counted(
    events: Seq<Node>,
    event: Node,
    policy: Seq<Seq<char>>,
)
    requires
        event_of(event, policy) is Ok,
    ensures
        unknown_total(Seq::empty(), 0, policy) == 0,
        event_of(event, policy)->Ok_0.unknown ==> unknown_total(
            events.push(event),
            events.len() + 1,
            policy,
        ) == unknown_total(events, events.len(), policy) + 1,
        !event_of(event, policy)->Ok_0.unknown ==> unknown_total(
            events.push(event),
            events.len() + 1,
            policy,
        ) == unknown_total(events, events.len(), policy),
{
    lemma_ids_prefix(events, event, events.len(), policy);
}

/// A valid index is a managed record of its project, at a revision and within
/// the limits: at most 64 tasks and 128 retired ones, none twice, each in one of
/// the four statuses, and every selection is of a listed task.
pub proof fn law_valid_index(v: IndexView, identity: IdentityView)
    requires
        index_check(v, identity) is Ok,
    ensures
        v.format == "webcodex.handoff.index.v1"@ && (v.version == 1 || v.version == 2)
            && v.managed_by == "webcodex"@,
        v.project_identity == identity,
        v.revision > 0,
        v.tasks.len() <= 64 && v.retired_tasks.len() <= 128,
        v.version == 1 ==> v.retired_tasks.len() == 0,
        ({
            let all = v.tasks + v.retired_tasks;
            &&& forall|i: int|
                0 <= i < all.len() ==> is_slug_text(Node::Text((#[trigger] all[i]).task_id))
                    && all[i].revision > 0 && (all[i].status == "active"@ || all[i].status
                    == "completed"@ || all[i].status == "unknown"@ || all[i].status == "blocked"@)
            &&& forall|i: int, j: int|
                0 <= i < j < all.len() ==> (#[trigger] all[i]).task_id != (
                #[trigger] all[j]).task_id
            &&& forall|i: int|
                0 <= i < v.bindings.len() ==> is_client_text(
                    Node::Text((#[trigger] v.bindings[i]).0),
                ) && exists|j: int|
                    0 <= j < all.len() && (#[trigger] all[j]).task_id == v.bindings[i].1
        }),
{
    law_valid_index_is_sound(v, identity);
    let all = v.tasks + v.retired_tasks;
    assert forall|i: int| 0 <= i < all.len() implies is_slug_text(
        Node::Text((#[trigger] all[i]).task_id),
    ) && all[i].revision > 0 && (all[i].status == "active"@ || all[i].status == "completed"@
        || all[i].status == "unknown"@ || all[i].status == "blocked"@) by {
        assert(good_summary(all[i]));
        law_ids(Node::Text(all[i].task_id));
    }
    assert forall|i: int| 0 <= i < v.bindings.len() implies is_client_text(
        Node::Text((#[trigger] v.bindings[i]).0),
    ) && exists|j: int| 0 <= j < all.len() && (#[trigger] all[j]).task_id == v.bindings[i].1 by {
        assert(good_binding(v.bindings[i]));
        law_ids(Node::Text(v.bindings[i].0));
        assert(has_task(all, v.bindings[i].1));
    }
}

/// A task keeps up to 128 events in its file. Where that does not do, all but
/// the newest go into a segment of their own, which the task then lists with
/// its size, its number of events and its digest; the history stays the same.
pub proof fn law_rollover_keeps_the_newest(t: TaskView)
    requires
        archive_plan(t) is Ok,
        0 <= archived(t) < t.events.len(),
    ensures
        ({
            let (task, planned) = archive_plan(t)->Ok_0;
            &&& task.events == t.events
            &&& task.task_id == t.task_id && task.revision == t.revision && task.status == t.status
                && task.unknown_count == t.unknown_count && task.event_aliases == t.event_aliases
                && task.updated_at == t.updated_at && task.title == t.title
            &&& planned is None ==> task == t && t.events.len() - archived(t) <= 128
            &&& planned matches Some((name, bytes)) ==> {
                let a = task.archives.last();
                let moved = t.events.subrange(archived(t), t.events.len() - 1);
                &&& t.archives.len() < 64
                &&& task.archives == t.archives.push(a)
                &&& a.file == name && name == t.task_id + ".events-"@ + a.sha256 + ".json"@
                &&& a.sha256 == digest_of(bytes)
                &&& a.bytes == bytes.len() && bytes.len() <= 262144
                &&& json_pretty(Node::List(moved)) == Some(bytes)
                &&& moved.len() <= u64::MAX ==> a.event_count == moved.len()
                &&& moved.len() <= u64::MAX ==> disk_view(task).events == seq![t.events.last()]
            }
        }),
{
    let (task, planned) = archive_plan(t)->Ok_0;
    if planned is Some {
        let a = task.archives.last();
        assert(task.archives =~= t.archives.push(a));
        lemma_archived_pushed(t.archives, a);
        let moved = segment(t);
        if moved.len() <= u64::MAX {
            assert(archived(task) == t.events.len() - 1);
            assert(disk_view(task).events =~= seq![t.events.last()]);
        }
    }
}

/// An event is recorded under an id exactly where some event has that id, and
/// the first such event is the one.
pub proof fn law_recorded_is_found(events: Seq<Node>, id: Seq<char>)
    ensures
        recorded(events, id) is Some <==> exists|i: int|
            0 <= i < events.len() && (#[trigger] events[i]).at("event_id"@) == Node::Text(id),
        recorded(events, id) matches Some(e) ==> e.at("event_id"@) == Node::Text(id)
            && events.contains(e),
    decreases events.len(),
{
    if events.len() > 0 && events[0].at("event_id"@) != Node::Text(id) {
        let rest = events.drop_first();
        law_recorded_is_found(rest, id);
        if recorded(rest, id) is Some {
            let i = choose|i: int|
                0 <= i < rest.len() && (#[trigger] rest[i]).at("event_id"@) == Node::Text(id);
            assert(events[i + 1].at("event_id"@) == Node::Text(id));
            let e = recorded(rest, id)->0;
            let j = choose|j: int| 0 <= j < rest.len() && rest[j] == e;
            assert(events[j + 1] == e);
        }
        if exists|i: int|
            0 <= i < events.len() && (#[trigger] events[i]).at("event_id"@) == Node::Text(id) {
            let i = choose|i: int|
                0 <= i < events.len() && (#[trigger] events[i]).at("event_id"@) == Node::Text(id);
            assert(rest[i - 1].at("event_id"@) == Node::Text(id));
        }
    } else if events.len() > 0 {
        assert(events[0].at("event_id"@) == Node::Text(id));
        assert(events.contains(events[0]));
    }
}

/// Two events report the same end of a job only where one came from the runner
/// and one from the server, both say that the job ended, and all that is not of
/// the transport is alike.
pub proof fn law_same_end_is_the_same(a: Node, b: Node, k: Seq<char>)
    requires
        same_end(a, b),
        a is Record,
        b is Record,
    ensures
        a.at("source"@) == Node::Text("runner"@) && b.at("source"@) == Node::Text("webcodex"@) || a.at(
            "source"@,
        ) == Node::Text("webcodex"@) && b.at("source"@) == Node::Text("runner"@),
        says_ended(a) && says_ended(b),
        a.at("job_id"@) is Text && a.at("job_id"@)->Text_0.len() > 0,
        a.at("job_update_seq"@) is Unsigned,
        a.at("status"@) is Text,
        k != "event_id"@ && k != "source"@ && k != "observed_at"@ ==> (match (
            a.member(k),
            b.member(k),
        ) {
            (Some(x), Some(y)) => alike(x, y),
            (None, None) => true,
            _ => false,
        }),
{
    if k != "event_id"@ && k != "source"@ && k != "observed_at"@ {
        lemma_substance_lookup(a->Record_0, k);
        lemma_substance_lookup(b->Record_0, k);
        lemma_alike_member(substance(a->Record_0), substance(b->Record_0), k);
    }
}

/// The end of a job that came over the other way, with nothing but the
/// transport different, is the same end.
pub proof fn law_other_way_is_the_same_end(a: Node, b: Node)
    requires
        a is Record,
        b is Record,
        a.at("source"@) == Node::Text("runner"@) && b.at("source"@) == Node::Text("webcodex"@) || a.at(
            "source"@,
        ) == Node::Text("webcodex"@) && b.at("source"@) == Node::Text("runner"@),
        says_ended(a) && says_ended(b),
        a.at("job_id"@) is Text && a.at("job_id"@)->Text_0.len() > 0,
        a.at("job_update_seq"@) is Unsigned,
        a.at("status"@) is Text,
        substance(a->Record_0) == substance(b->Record_0),
    ensures
        same_end(a, b),
{
}

/// The number that decimal digits stand for.
pub open spec fn decimal_value(s: Seq<char>) -> int
    decreases s.len(),
{
    if s.len() == 0 {
        0
    } else {
        decimal_value(s.drop_last()) * 10 + (s.last() as int - '0' as int)
    }
}

/// The decimal digits of a number stand for it.
pub proof fn law_decimal_digits(n: nat)
    ensures
        decimal_value(decimal(n)) == n,
        decimal(n).len() > 0,
        forall|i: int| 0 <= i < decimal(n).len() ==> '0' <= #[trigger] decimal(n)[i] <= '9',
    decreases n,
{
    let c = (48 + n % 10) as char;
    assert(c as int == 48 + n % 10);
    if n < 10 {
        let s = decimal(n);
        assert(s =~= seq![(48 + n) as char]);
        assert((48 + n) as char as int == 48 + n);
        assert(s.drop_last() =~= Seq::<char>::empty());
        assert(s.last() == (48 + n) as char);
        assert(decimal_value(s.drop_last()) == 0);
    } else {
        law_decimal_digits(n / 10);
        let s = decimal(n);
        assert(s.drop_last() =~= decimal(n / 10));
        assert(s.last() == c);
    }
}

/// The value of a lower-case hexadecimal digit.
pub open spec fn hex_value(c: char) -> int {
    if '0' <= c <= '9' {
        c as int - '0' as int
    } else {
        c as int - 'a' as int + 10
    }
}

/// The hexadecimal form of bytes has two digits for each of them, the high one
/// first.
pub proof fn law_hex_digits(bytes: Seq<u8>)
    ensures
        hex(bytes).len() == 2 * bytes.len(),
        forall|i: int|
            0 <= i < bytes.len() ==> hex_value(hex(bytes)[2 * i]) * 16 + hex_value(
                hex(bytes)[2 * i + 1],
            ) == #[trigger] bytes[i],
    decreases bytes.len(),
{
    if bytes.len() > 0 {
        let init = bytes.drop_last();
        law_hex_digits(init);
        let last = bytes.last() as int;
        lemma_hex_value(last / 16);
        lemma_hex_value(last % 16);
        assert forall|i: int| 0 <= i < bytes.len() implies hex_value(hex(bytes)[2 * i]) * 16
            + hex_value(hex(bytes)[2 * i + 1]) == #[trigger] bytes[i] by {
            if i < init.len() {
                assert(init[i] == bytes[i]);
                assert(hex(bytes)[2 * i] == hex(init)[2 * i]);
                assert(hex(bytes)[2 * i + 1] == hex(init)[2 * i + 1]);
            }
        }
    }
}

proof fn lemma_hex_value(n: int)
    requires
        0 <= n < 16,
    ensures
        hex_value(hex_digit(n)) == n,
{
    if n < 10 {
        assert((48 + n) as char as int == 48 + n);
    } else {
        assert((87 + n) as char as int == 87 + n);
    }
}

} // verus!
