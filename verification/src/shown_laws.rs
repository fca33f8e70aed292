//! What the Markdown file of a task shows.
use vstd::prelude::*;
use vstd::utf8::*;
use crate::append_laws::{law_saved_event_is_read};
use crate::appending::{growth_back, growth_of, growth_result, is_known};
use crate::checks::{has_task, markdown_name};
use crate::codec::{json_text};
use crate::commit::{committed};
use crate::directory::{DirectoryView, EntryView, index_at, task_at};
use crate::event::{EventView, event_of};
use crate::failure::{Failure};
use crate::job_laws::{law_job_object};
use crate::jobs::{job_nodes, jobs_of};
use crate::json::{Node, record, signed_node};
use crate::markdown::{
    MACHINE_END, MACHINE_START, MAX_EVENT_COUNT, MAX_MARKDOWN_BYTES, MarkdownState, NOTES_END,
    NOTES_START, first_at, fresh_markdown, history_nodes, latest_fields, latest_node,
    lemma_first_at, lemma_occurs, machine_node, plan_of, region, replaced,
};
use crate::mutations::{markdown_in};
use crate::normal_form::{law_event_tidy};
use crate::record_laws::{key_code, lemma_record_member};
use crate::records::{IdentityView, IndexView, TaskView};

verus! {

proof fn lemma_region_codes()
    ensures
        key_code("task_id"@) == 32017314660,
        key_code("revision"@) == 36278990446,
        key_code("status"@) == 27706810739,
        key_code("event_count"@) == 48946898292,
        key_code("unknown_count"@) == 57804745588,
        key_code("updated_at"@) == 44919972980,
        key_code("latest_event"@) == 53357933684,
        key_code("jobs"@) == 18965553779,
        key_code("jobs_total"@) == 44735357548,
        key_code("jobs_truncated"@) == 61915226724,
        key_code("history_files"@) == 57586316147,
{
    reveal_strlit("task_id");
    reveal_strlit("revision");
    reveal_strlit("status");
    reveal_strlit("event_count");
    reveal_strlit("unknown_count");
    reveal_strlit("updated_at");
    reveal_strlit("latest_event");
    reveal_strlit("jobs");
    reveal_strlit("jobs_total");
    reveal_strlit("jobs_truncated");
    reveal_strlit("history_files");
}

proof fn lemma_latest_codes()
    ensures
        key_code("event_id"@) == 36061996388,
        key_code("type"@) == 19133984869,
        key_code("source"@) == 27706488165,
        key_code("status"@) == 27706810739,
        key_code("outcome"@) == 31934739557,
        key_code("summary"@) == 32001846649,
        key_code("unknown"@) == 32034941806,
{
    reveal_strlit("event_id");
    reveal_strlit("type");
    reveal_strlit("source");
    reveal_strlit("status");
    reveal_strlit("outcome");
    reveal_strlit("summary");
    reveal_strlit("unknown");
}

/// What the machine region shows of a task is what the task says.
pub proof fn law_region_shows_the_task(t: TaskView)
    ensures
        machine_node(t).at("task_id"@) == Node::Text(t.task_id),
        machine_node(t).at("revision"@) == Node::Unsigned(t.revision),
        machine_node(t).at("status"@) == Node::Text(t.status),
        t.events.len() <= u64::MAX ==> machine_node(t).at("event_count"@) == Node::Unsigned(
            t.events.len() as u64,
        ),
        machine_node(t).at("unknown_count"@) == Node::Unsigned(t.unknown_count),
        machine_node(t).at("updated_at"@).signed() == Some(t.updated_at),
        t.events.len() == 0 ==> machine_node(t).at("latest_event"@) == Node::Null,
        machine_node(t).at("jobs_total"@) == Node::Unsigned(jobs_of(t.events).len() as u64),
        machine_node(t).at("jobs_truncated"@) == Node::Bool(jobs_of(t.events).len() > 128),
        machine_node(t).at("jobs"@) matches Node::List(shown) && shown.len() == (if jobs_of(
            t.events,
        ).len() <= 128 {
            jobs_of(t.events).len()
        } else {
            128
        }) && forall|i: int|
            0 <= i < shown.len() ==> (#[trigger] shown[i]).at("job_id"@) == Node::Text(
                jobs_of(t.events)[i].job_id,
            ) && shown[i].at("terminal"@) == Node::Bool(jobs_of(t.events)[i].terminal)
                && shown[i].at("status"@) == jobs_of(t.events)[i].status,
        machine_node(t).at("history_files"@) matches Node::List(files) && files.len()
            == t.archives.len() && forall|i: int|
            0 <= i < files.len() ==> #[trigger] files[i] == Node::Text(
                "handoff/"@ + t.archives[i].file,
            ),
{
    lemma_region_codes();
    let jobs = jobs_of(t.events);
    let s = seq![
        ("task_id"@, Node::Text(t.task_id)),
        ("revision"@, Node::Unsigned(t.revision)),
        ("status"@, Node::Text(t.status)),
        ("event_count"@, Node::Unsigned(t.events.len() as u64)),
        ("unknown_count"@, Node::Unsigned(t.unknown_count)),
        ("updated_at"@, signed_node(t.updated_at)),
        ("latest_event"@, latest_node(t.events)),
        ("jobs"@, job_nodes(jobs, MAX_EVENT_COUNT as int)),
        ("jobs_total"@, Node::Unsigned(jobs.len() as u64)),
        ("jobs_truncated"@, Node::Bool(jobs.len() > MAX_EVENT_COUNT)),
        ("history_files"@, history_nodes(t.archives)),
    ];
    lemma_record_member(s, 0);
    lemma_record_member(s, 1);
    lemma_record_member(s, 2);
    lemma_record_member(s, 3);
    lemma_record_member(s, 4);
    lemma_record_member(s, 5);
    lemma_record_member(s, 6);
    lemma_record_member(s, 7);
    lemma_record_member(s, 8);
    lemma_record_member(s, 9);
    lemma_record_member(s, 10);
    let shown = machine_node(t).at("jobs"@)->List_0;
    assert forall|i: int| 0 <= i < shown.len() implies (#[trigger] shown[i]).at("job_id"@)
        == Node::Text(jobs[i].job_id) && shown[i].at("terminal"@) == Node::Bool(jobs[i].terminal)
        && shown[i].at("status"@) == jobs[i].status by {
        law_job_object(jobs[i]);
    }
}

/// What the machine region shows as the latest event is the last event of the
/// task.
pub proof fn law_region_shows_the_last_event(t: TaskView)
    requires
        t.events.len() > 0,
        t.events.last().member("event_id"@) is Some,
        t.events.last().member("type"@) is Some,
    ensures
        ({
            let last = t.events[t.events.len() - 1];
            let shown = machine_node(t).at("latest_event"@);
            &&& shown.at("event_id"@) == last.at("event_id"@)
            &&& shown.at("type"@) == last.at("type"@)
            &&& shown.at("source"@) == last.at("source"@)
            &&& shown.at("status"@) == last.at("status"@)
            &&& shown.at("outcome"@) == last.at("outcome"@)
            &&& last.member("unknown"@) is Some ==> shown.at("unknown"@) == last.at("unknown"@)
            &&& last.member("unknown"@) is None ==> shown.at("unknown"@) == Node::Bool(false)
            &&& last.at("summary"@) matches Node::Text(s) ==> shown.at("summary"@) == Node::Text(
                if s.len() <= 240 {
                    s
                } else {
                    s.take(240)
                },
            )
            &&& !(last.at("summary"@) is Text) ==> shown.at("summary"@) == Node::Null
        }),
{
    let last = t.events.last();
    let id = last.member("event_id"@)->0;
    let kind = last.member("type"@)->0;
    let s = latest_fields(last, id, kind);
    lemma_latest_codes();
    lemma_record_member(s, 0);
    lemma_record_member(s, 1);
    lemma_record_member(s, 2);
    lemma_record_member(s, 3);
    lemma_record_member(s, 4);
    lemma_record_member(s, 5);
    lemma_record_member(s, 6);
    assert(latest_node(t.events) == record(s));
    lemma_region_codes();
    let jobs = jobs_of(t.events);
    let m = seq![
        ("task_id"@, Node::Text(t.task_id)),
        ("revision"@, Node::Unsigned(t.revision)),
        ("status"@, Node::Text(t.status)),
        ("event_count"@, Node::Unsigned(t.events.len() as u64)),
        ("unknown_count"@, Node::Unsigned(t.unknown_count)),
        ("updated_at"@, signed_node(t.updated_at)),
        ("latest_event"@, latest_node(t.events)),
        ("jobs"@, job_nodes(jobs, MAX_EVENT_COUNT as int)),
        ("jobs_total"@, Node::Unsigned(jobs.len() as u64)),
        ("jobs_truncated"@, Node::Bool(jobs.len() > MAX_EVENT_COUNT)),
        ("history_files"@, history_nodes(t.archives)),
    ];
    lemma_record_member(m, 6);
}

/// A text with a machine region in it.
pub open spec fn around(head: Seq<char>, body: Seq<char>, tail: Seq<char>) -> Seq<char> {
    head + "<!-- webcodex-handoff:machine:start -->"@ + "\n"@ + body + "\n"@
        + "<!-- webcodex-handoff:machine:end -->"@ + tail
}

/// A Markdown file that is written holds the machine region of its task, and
/// what stood before and after an earlier region stays. A file without any
/// marker is not written; there is no other file that is not.
pub proof fn law_written_markdown_holds_the_region(existing: Option<Seq<u8>>, t: TaskView)
    requires
        plan_of(existing, t) is Ok,
        json_text(machine_node(t)) is Some,
    ensures
        existing is None ==> plan_of(existing, t)->Ok_0.bytes is Some,
        plan_of(existing, t)->Ok_0.bytes matches Some(b) ==> exists|
            head: Seq<char>,
            tail: Seq<char>,
        |
            b == encode_utf8(
                #[trigger] around(head, json_text(machine_node(t))->0, tail),
            ) && (existing matches Some(old_bytes) ==> exists|middle: Seq<char>|
                decode_utf8(old_bytes) == #[trigger] (head + middle + tail)),
{
    let body = json_text(machine_node(t))->0;
    match existing {
        None => {
            let head = "# "@ + t.title + "\n\n"@;
            let tail = "\n\n"@ + NOTES_START@
                + "\n\nHuman or agent notes go between the notes markers. They are preserved by WebCodex.\n"@
                + NOTES_END@ + "\n"@;
            assert(around(head, body, tail) =~= fresh_markdown(t));
        },
        Some(bytes) => {
            if plan_of(existing, t)->Ok_0.bytes is Some {
                let text = decode_utf8(bytes);
                lemma_first_at(text, MACHINE_START@);
                lemma_first_at(text, MACHINE_END@);
                lemma_occurs(text, MACHINE_START@);
                lemma_occurs(text, MACHINE_END@);
                let start = first_at(text, MACHINE_START@)->0 as int;
                let end = first_at(text, MACHINE_END@)->0 + MACHINE_END@.len();
                let head = text.take(start);
                let tail = text.skip(end as int);
                assert(around(head, body, tail) =~= replaced(text, region(t)));
                let middle = text.subrange(start, end as int);
                assert(text =~= head + middle + tail);
            }
        },
    }
}

/// A new Markdown file is the title, the machine region, and a place for notes
/// between markers of their own.
pub proof fn law_new_markdown(t: TaskView)
    requires
        json_text(machine_node(t)) is Some,
    ensures
        plan_of(None, t) matches Ok(p) && p.bytes == Some(
            encode_utf8(
                around(
                    "# "@ + t.title + "\n\n"@,
                    json_text(machine_node(t))->0,
                    "\n\n"@ + "<!-- webcodex-handoff:notes:start -->"@
                        + "\n\nHuman or agent notes go between the notes markers. They are preserved by WebCodex.\n"@
                        + "<!-- webcodex-handoff:notes:end -->"@ + "\n"@,
                ),
            ),
        ) && p.original is None && p.state == MarkdownState::Created,
{
    let body = json_text(machine_node(t))->0;
    let head = "# "@ + t.title + "\n\n"@;
    let tail = "\n\n"@ + NOTES_START@
        + "\n\nHuman or agent notes go between the notes markers. They are preserved by WebCodex.\n"@
        + NOTES_END@ + "\n"@;
    assert(around(head, body, tail) =~= fresh_markdown(t));
}

/// Once a new event is saved, the Markdown file that was written for its task
/// shows that event as the latest one, whatever was recorded before, with the
/// next revision and one more event.
pub proof fn law_saved_event_is_shown(
    d: DirectoryView,
    identity: IdentityView,
    v: IndexView,
    t: TaskView,
    e: EventView,
    expected: u64,
    policy: Seq<Seq<char>>,
    now: i64,
)
    requires
        index_at(d, identity) == Ok::<_, Failure>(Some(v)),
        v.enabled,
        has_task(v.tasks, t.task_id),
        task_at(d, identity, t.task_id, policy) == Ok::<_, Failure>(t),
        event_of(e.value, policy) == Ok::<_, Failure>(e),
        !is_known(t, e),
        growth_of(d, v, t, e, expected, now).reply is Ok,
        growth_back(v, t, e, now),
    ensures
        ({
            let after = committed(d, growth_of(d, v, t, e, expected, now)).0;
            let task = (growth_result(v, t, e, now)->0).2;
            let shown = machine_node(task);
            &&& shown.at("latest_event"@).at("event_id"@) == Node::Text(e.id)
            &&& shown.at("latest_event"@).at("type"@) == e.value.at("type"@)
            &&& shown.at("latest_event"@).at("status"@) == e.value.at("status"@)
            &&& shown.at("task_id"@) == Node::Text(t.task_id)
            &&& shown.at("revision"@) == Node::Unsigned((t.revision + 1) as u64)
            &&& shown.at("event_count"@) == Node::Unsigned((t.events.len() + 1) as u64)
            &&& shown.at("updated_at"@).signed() == Some(now)
            &&& json_text(shown) matches Some(body) ==> (after.entry(markdown_name(t.task_id))
                == d.entry(markdown_name(t.task_id)) && markdown_in(d, task)->Ok_0.bytes is None)
                || (exists|head: Seq<char>, tail: Seq<char>|
                after.entry(markdown_name(t.task_id)) == Some(
                    EntryView::File {
                        bytes: encode_utf8(#[trigger] around(head, body, tail)),
                        distinct: true,
                    },
                ))
        }),
{
    law_saved_event_is_read(d, identity, v, t, e, expected, policy, now);
    let task = (growth_result(v, t, e, now)->0).2;
    law_region_shows_the_task(task);
    law_event_tidy(e.value, policy);
    assert(task.events.last() == e.value);
    law_region_shows_the_last_event(task);
    if json_text(machine_node(task)) is Some {
        let name = markdown_name(t.task_id);
        let existing = d.read(name, MAX_MARKDOWN_BYTES as int)->Ok_0;
        law_written_markdown_holds_the_region(existing, task);
    }
}

} // verus!
