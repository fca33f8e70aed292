//! The Markdown projection of a task: a machine region between markers, and
//! everything else left to people.
use vstd::prelude::*;
use vstd::string::*;
use vstd::utf8::*;
use crate::codec::{json_text, to_text};
use crate::failure::{Failure, content, outcome, refuse, refused, views};
use crate::jobs::{job_nodes, job_projection, jobs_json, jobs_of};
use crate::json::{
    Json, Node, entries, lemma_array_view, nodes, object, record, signed_json, signed_node,
    text_json,
};
use crate::records::{ArchiveView, EventArchive, TaskFile, TaskView};
use crate::text::{
    chars_of, copy_bytes, joined, lemma_encode_concat, owned, string_of, truncate_chars,
};

verus! {

pub const MAX_EVENT_COUNT: usize = 128;

pub const MAX_MARKDOWN_BYTES: usize = 131072;

pub const MAX_EXCERPT_CHARS: usize = 240;

pub const MACHINE_START: &'static str = "<!-- webcodex-handoff:machine:start -->";

pub const MACHINE_END: &'static str = "<!-- webcodex-handoff:machine:end -->";

pub const NOTES_START: &'static str = "<!-- webcodex-handoff:notes:start -->";

pub const NOTES_END: &'static str = "<!-- webcodex-handoff:notes:end -->";

/// What becomes of the Markdown file.
#[derive(Clone, Copy, Debug, PartialEq, Eq, Structural)]
pub enum MarkdownState {
    Created,
    Updated,
    PreservedUnmanaged,
}

pub open spec fn state_name(s: MarkdownState) -> Seq<char> {
    match s {
        MarkdownState::Created => "created"@,
        MarkdownState::Updated => "updated"@,
        MarkdownState::PreservedUnmanaged => "preserved_unmanaged"@,
    }
}

impl MarkdownState {
    pub fn as_str(self) -> (r: &'static str)
        ensures
            r@ == state_name(self),
    {
        match self {
            MarkdownState::Created => "created",
            MarkdownState::Updated => "updated",
            MarkdownState::PreservedUnmanaged => "preserved_unmanaged",
        }
    }
}

/// The new content of the Markdown file, where there is one, and the content
/// that it replaces.
#[derive(Debug)]
pub struct MarkdownPlan {
    pub state: MarkdownState,
    pub bytes: Option<Vec<u8>>,
    pub original: Option<Vec<u8>>,
}

pub struct PlanView {
    pub state: MarkdownState,
    pub bytes: Option<Seq<u8>>,
    pub original: Option<Seq<u8>>,
}

impl View for MarkdownPlan {
    type V = PlanView;

    open spec fn view(&self) -> PlanView {
        PlanView {
            state: self.state,
            bytes: content(self.bytes),
            original: content(self.original),
        }
    }
}

/// `String::from_utf8`: the text of valid UTF-8, nothing for other bytes.
#[verifier::external_body]
pub(crate) fn text_of_utf8(bytes: Vec<u8>) -> (r: Option<String>)
    ensures
        match r {
            Some(s) => valid_utf8(bytes@) && s@ == decode_utf8(bytes@),
            None => !valid_utf8(bytes@),
        },
{
    String::from_utf8(bytes).ok()
}

/// The position of the first occurrence of `m` in `s`.
pub open spec fn first_at(s: Seq<char>, m: Seq<char>) -> Option<nat>
    decreases s.len(),
{
    if m.len() > s.len() {
        None
    } else if s.take(m.len() as int) == m {
        Some(0)
    } else if s.len() == 0 {
        None
    } else {
        match first_at(s.drop_first(), m) {
            Some(i) => Some(i + 1),
            None => None,
        }
    }
}

/// How often `m` occurs in `s`, counted from the left without overlaps.
pub open spec fn occurrences(s: Seq<char>, m: Seq<char>) -> nat
    decreases s.len(),
{
    if m.len() == 0 || m.len() > s.len() {
        0
    } else if s.take(m.len() as int) == m {
        1 + occurrences(s.skip(m.len() as int), m)
    } else {
        occurrences(s.drop_first(), m)
    }
}

pub proof fn lemma_first_at(s: Seq<char>, m: Seq<char>)
    ensures
        first_at(s, m) matches Some(i) ==> i + m.len() <= s.len() && s.subrange(
            i as int,
            i as int + m.len() as int,
        ) == m,
    decreases s.len(),
{
    if m.len() <= s.len() {
        if s.take(m.len() as int) == m {
            assert(s.subrange(0, m.len() as int) =~= m);
        } else if s.len() > 0 {
            lemma_first_at(s.drop_first(), m);
            if first_at(s.drop_first(), m) is Some {
                let i = first_at(s.drop_first(), m)->0 as int;
                assert(s.subrange(i + 1, i + 1 + m.len()) =~= s.drop_first().subrange(
                    i,
                    i + m.len(),
                ));
            }
        }
    }
}

/// An occurrence is counted, and what is counted occurs.
pub proof fn lemma_occurs(s: Seq<char>, m: Seq<char>)
    requires
        m.len() > 0,
    ensures
        occurrences(s, m) == 0 <==> first_at(s, m) is None,
    decreases s.len(),
{
    if m.len() <= s.len() && s.take(m.len() as int) != m {
        lemma_occurs(s.drop_first(), m);
    }
}

fn matches_at(chars: &Vec<char>, from: usize, marker: &Vec<char>) -> (r: bool)
    requires
        from <= chars@.len(),
    ensures
        r == (marker@.len() <= chars@.len() - from && chars@.skip(from as int).take(
            marker@.len() as int,
        ) == marker@),
{
    let total: usize = chars.len();
    if marker.len() > total - from {
        return false;
    }
    let mut i: usize = 0;
    while i < marker.len()
        invariant
            total == chars@.len(),
            from <= total,
            marker@.len() <= total - from,
            i <= marker@.len(),
            forall|j: int| 0 <= j < i ==> chars@[from + j] == marker@[j],
        decreases marker@.len() - i,
    {
        if chars[from + i] != marker[i] {
            proof {
                assert(chars@.skip(from as int).take(marker@.len() as int)[i as int] == chars@[from
                    + i]);
            }
            return false;
        }
        i += 1;
    }
    proof {
        assert(chars@.skip(from as int).take(marker@.len() as int) =~= marker@);
    }
    true
}

fn find(chars: &Vec<char>, marker: &Vec<char>) -> (r: Option<usize>)
    ensures
        match r {
            Some(i) => first_at(chars@, marker@) == Some(i as nat),
            None => first_at(chars@, marker@) is None,
        },
{
    let mut i: usize = 0;
    proof {
        assert(chars@.skip(0) =~= chars@);
    }
    while i <= chars.len() && chars.len() - i >= marker.len()
        invariant
            i <= chars@.len() + 1,
            i <= chars@.len() ==> first_at(chars@, marker@) == match first_at(
                chars@.skip(i as int),
                marker@,
            ) {
                Some(k) => Some((k + i) as nat),
                None => None,
            },
            i > chars@.len() ==> first_at(chars@, marker@) is None,
        decreases chars@.len() + 1 - i,
    {
        if matches_at(chars, i, marker) {
            return Some(i);
        }
        proof {
            if i < chars@.len() {
                assert(chars@.skip(i as int).drop_first() =~= chars@.skip(i + 1));
            }
        }
        if i == chars.len() {
            return None;
        }
        i += 1;
    }
    None
}

fn count(chars: &Vec<char>, marker: &Vec<char>) -> (r: usize)
    requires
        marker@.len() > 0,
    ensures
        r == occurrences(chars@, marker@),
{
    let mut i: usize = 0;
    let mut found: usize = 0;
    proof {
        assert(chars@.skip(0) =~= chars@);
    }
    while i < chars.len()
        invariant
            marker@.len() > 0,
            i <= chars@.len(),
            found <= i,
            occurrences(chars@, marker@) == found + occurrences(chars@.skip(i as int), marker@),
        decreases chars@.len() - i,
    {
        proof {
            assert(chars@.skip(i as int).drop_first() =~= chars@.skip(i + 1));
        }
        if matches_at(chars, i, marker) {
            proof {
                assert(chars@.skip(i as int).skip(marker@.len() as int) =~= chars@.skip(
                    i + marker@.len(),
                ));
            }
            i += marker.len();
            found += 1;
        } else {
            proof {
                if marker@.len() > chars@.len() - i {
                    assert(occurrences(chars@.skip(i + 1), marker@) == 0);
                }
            }
            i += 1;
        }
    }
    found
}

/// Whether the text holds both machine markers.
pub open spec fn is_managed(s: Seq<char>) -> bool {
    first_at(s, MACHINE_START@) is Some && first_at(s, MACHINE_END@) is Some
}

pub fn managed(text: &str) -> (r: bool)
    ensures
        r == is_managed(text@),
{
    let chars = chars_of(text);
    find(&chars, &chars_of(MACHINE_START)).is_some() && find(&chars, &chars_of(MACHINE_END)).is_some()
}

/// The first `max` characters of a text.
pub open spec fn excerpt(s: Seq<char>, max: int) -> Seq<char> {
    if s.len() <= max {
        s
    } else {
        s.take(max)
    }
}

/// The members that the machine region shows of the latest event.
pub open spec fn latest_fields(e: Node, id: Node, kind: Node) -> Seq<(Seq<char>, Node)> {
    let summary = match e.at("summary"@).text() {
        Some(s) => Node::Text(excerpt(s, MAX_EXCERPT_CHARS as int)),
        None => Node::Null,
    };
    let unknown = match e.member("unknown"@) {
        Some(v) => v,
        None => Node::Bool(false),
    };
    seq![
        ("event_id"@, id),
        ("type"@, kind),
        ("source"@, e.at("source"@)),
        ("status"@, e.at("status"@)),
        ("outcome"@, e.at("outcome"@)),
        ("summary"@, summary),
        ("unknown"@, unknown),
    ]
}

/// What the machine region shows of the latest event.
pub open spec fn latest_node(events: Seq<Node>) -> Node {
    if events.len() == 0 {
        Node::Null
    } else {
        match (events.last().member("event_id"@), events.last().member("type"@)) {
            (Some(id), Some(kind)) => record(latest_fields(events.last(), id, kind)),
            _ => Node::Null,
        }
    }
}

/// The paths of the archived history, relative to the project.
pub open spec fn history_nodes(archives: Seq<ArchiveView>) -> Node {
    Node::List(Seq::new(archives.len(), |i: int| Node::Text("handoff/"@ + archives[i].file)))
}

/// What the machine region says.
pub open spec fn machine_node(t: TaskView) -> Node {
    let jobs = jobs_of(t.events);
    record(
        seq![
            ("task_id"@, Node::Text(t.task_id)),
            ("revision"@, Node::Unsigned(t.revision)),
            ("status"@, Node::Text(t.status)),
            ("event_count"@, Node::Unsigned(t.events.len() as u64)),
            ("unknown_count"@, Node::Unsigned(t.unknown_count)),
            ("updated_at"@, signed_node(t.updated_at)),
            ("latest_event"@, latest_node(t.events)),
            ("jobs"@, job_nodes(jobs, MAX_EVENT_COUNT as int)),
            ("jobs_total"@, Node::Unsigned(jobs.len() as u64)),
            ("jobs_truncated"@, Node::Bool(jobs.len() > MAX_EVENT_COUNT)),
            ("history_files"@, history_nodes(t.archives)),
        ],
    )
}

/// The machine region with its markers.
pub open spec fn region(t: TaskView) -> Seq<char> {
    let body = match json_text(machine_node(t)) {
        Some(s) => s,
        None => "{}"@,
    };
    MACHINE_START@ + "\n"@ + body + "\n"@ + MACHINE_END@
}

/// A new Markdown file.
pub open spec fn fresh_markdown(t: TaskView) -> Seq<char> {
    "# "@ + t.title + "\n\n"@ + region(t) + "\n\n"@ + NOTES_START@
        + "\n\nHuman or agent notes go between the notes markers. They are preserved by WebCodex.\n"@
        + NOTES_END@ + "\n"@
}

/// The text with the part from the start marker to the end marker replaced.
pub open spec fn replaced(text: Seq<char>, with: Seq<char>) -> Seq<char> {
    let start = first_at(text, MACHINE_START@)->0;
    let end = first_at(text, MACHINE_END@)->0 + MACHINE_END@.len();
    text.take(start as int) + with + text.skip(end as int)
}

/// What becomes of the Markdown file of a task.
pub open spec fn plan_of(existing: Option<Seq<u8>>, t: TaskView) -> Result<PlanView, Failure> {
    match existing {
        None => Ok(
            PlanView {
                state: MarkdownState::Created,
                bytes: Some(encode_utf8(fresh_markdown(t))),
                original: None,
            },
        ),
        Some(bytes) => if !valid_utf8(bytes) {
            Err(refused("markdown_conflict", "managed Markdown is not UTF-8"))
        } else {
            let text = decode_utf8(bytes);
            let starts = occurrences(text, MACHINE_START@);
            let ends = occurrences(text, MACHINE_END@);
            if starts == 0 && ends == 0 {
                Ok(
                    PlanView {
                        state: MarkdownState::PreservedUnmanaged,
                        bytes: None,
                        original: Some(bytes),
                    },
                )
            } else if starts != 1 || ends != 1 {
                Err(
                    refused(
                        "markdown_conflict",
                        "managed Markdown machine markers are ambiguous",
                    ),
                )
            } else if first_at(text, MACHINE_END@)->0 < first_at(text, MACHINE_START@)->0 {
                Err(refused("markdown_conflict", "managed Markdown machine markers are inverted"))
            } else {
                let updated = encode_utf8(replaced(text, region(t)));
                if updated.len() > MAX_MARKDOWN_BYTES {
                    Err(refused("capacity_exceeded", "Markdown exceeds its capacity limit"))
                } else {
                    Ok(
                        PlanView {
                            state: MarkdownState::Updated,
                            bytes: Some(updated),
                            original: Some(bytes),
                        },
                    )
                }
            }
        },
    }
}

fn latest_json(events: &Vec<Json>) -> (r: Json)
    ensures
        r@ == latest_node(nodes(events@)),
{
    if events.len() == 0 {
        return Json::Null;
    }
    let e = &events[events.len() - 1];
    proof {
        assert(nodes(events@).len() == events@.len());
        assert(nodes(events@).last() == e@);
    }
    match (e.get("event_id"), e.get("type")) {
        (Some(id), Some(kind)) => {
            let summary = match e.text_at("summary") {
                Some(s) => Json::Text(truncate_chars(s, MAX_EXCERPT_CHARS)),
                None => Json::Null,
            };
            let unknown = match e.get("unknown") {
                Some(v) => v.copy(),
                None => Json::Bool(false),
            };
            let members = vec![
                ("event_id", id.copy()),
                ("type", kind.copy()),
                ("source", e.copy_at("source")),
                ("status", e.copy_at("status")),
                ("outcome", e.copy_at("outcome")),
                ("summary", summary),
                ("unknown", unknown),
            ];
            proof {
                assert(entries(members@) =~= latest_fields(e@, id@, kind@));
            }
            object(members)
        },
        _ => Json::Null,
    }
}

/// The paths of the archived history, relative to the project.
pub fn history_json(archives: &Vec<EventArchive>) -> (r: Json)
    ensures
        r@ == history_nodes(views(archives@)),
{
    let ghost want = history_nodes(views(archives@))->List_0;
    let mut out: Vec<Json> = Vec::new();
    let mut i: usize = 0;
    while i < archives.len()
        invariant
            i <= archives@.len(),
            want == history_nodes(views(archives@))->List_0,
            nodes(out@) == want.take(i as int),
        decreases archives@.len() - i,
    {
        let ghost prior = nodes(out@);
        let c = Json::Text(joined("handoff/", archives[i].file.as_str()));
        out.push(c);
        proof {
            assert(nodes(out@) =~= prior.push(c@));
            assert(want[i as int] == c@);
            assert(nodes(out@) =~= want.take(i + 1));
        }
        i += 1;
    }
    proof {
        lemma_array_view(out);
        assert(nodes(out@) =~= want);
    }
    Json::Array(out)
}

fn machine_json(task: &TaskFile) -> (r: Json)
    ensures
        r@ == machine_node(task@),
{
    let jobs = job_projection(&task.events);
    proof {
        assert(views(jobs@).len() == jobs@.len());
        assert(nodes(task.events@).len() == task.events@.len());
    }
    let members = vec![
        ("task_id", text_json(task.task_id.as_str())),
        ("revision", Json::Unsigned(task.revision)),
        ("status", text_json(task.status.as_str())),
        ("event_count", Json::Unsigned(task.events.len() as u64)),
        ("unknown_count", Json::Unsigned(task.unknown_count)),
        ("updated_at", signed_json(task.updated_at)),
        ("latest_event", latest_json(&task.events)),
        ("jobs", jobs_json(&jobs, MAX_EVENT_COUNT)),
        ("jobs_total", Json::Unsigned(jobs.len() as u64)),
        ("jobs_truncated", Json::Bool(jobs.len() > MAX_EVENT_COUNT)),
        ("history_files", history_json(&task.archives)),
    ];
    proof {
        let t = task@;
        let all = jobs_of(t.events);
        assert(entries(members@) =~= seq![
            ("task_id"@, Node::Text(t.task_id)),
            ("revision"@, Node::Unsigned(t.revision)),
            ("status"@, Node::Text(t.status)),
            ("event_count"@, Node::Unsigned(t.events.len() as u64)),
            ("unknown_count"@, Node::Unsigned(t.unknown_count)),
            ("updated_at"@, signed_node(t.updated_at)),
            ("latest_event"@, latest_node(t.events)),
            ("jobs"@, job_nodes(all, MAX_EVENT_COUNT as int)),
            ("jobs_total"@, Node::Unsigned(all.len() as u64)),
            ("jobs_truncated"@, Node::Bool(all.len() > MAX_EVENT_COUNT)),
            ("history_files"@, history_nodes(t.archives)),
        ]);
    }
    object(members)
}

/// The machine region with its markers.
pub fn machine_region(task: &TaskFile) -> (r: String)
    ensures
        r@ == region(task@),
{
    let body = match to_text(&machine_json(task)) {
        Some(s) => s,
        None => owned("{}"),
    };
    let mut out = owned(MACHINE_START);
    out.append("\n");
    out.append(body.as_str());
    out.append("\n");
    out.append(MACHINE_END);
    out
}

/// A new Markdown file.
pub fn render_markdown(task: &TaskFile) -> (r: String)
    ensures
        r@ == fresh_markdown(task@),
{
    let mut out = owned("# ");
    out.append(task.title.as_str());
    out.append("\n\n");
    out.append(machine_region(task).as_str());
    out.append("\n\n");
    out.append(NOTES_START);
    out.append(
        "\n\nHuman or agent notes go between the notes markers. They are preserved by WebCodex.\n",
    );
    out.append(NOTES_END);
    out.append("\n");
    out
}

/// The bytes of a text.
pub fn bytes_of(text: &str) -> (r: Vec<u8>)
    ensures
        r@ == encode_utf8(text@),
{
    let mut out: Vec<u8> = Vec::new();
    out.extend_from_slice(text.as_bytes());
    proof {
        assert(out@ =~= encode_utf8(text@));
    }
    out
}

/// What becomes of the Markdown file of a task.
pub fn markdown_plan(existing: Option<Vec<u8>>, task: &TaskFile) -> (r: Result<
    MarkdownPlan,
    Failure,
>)
    ensures
        outcome(r) == plan_of(content(existing), task@),
{
    let bytes = match existing {
        None => {
            let fresh = bytes_of(render_markdown(task).as_str());
            return Ok(
                MarkdownPlan { state: MarkdownState::Created, bytes: Some(fresh), original: None },
            );
        },
        Some(bytes) => bytes,
    };
    let original = copy_bytes(&bytes);
    let text = match text_of_utf8(bytes) {
        None => {
            return Err(refuse("markdown_conflict", "managed Markdown is not UTF-8"));
        },
        Some(text) => text,
    };
    let chars = chars_of(text.as_str());
    let start_marker = chars_of(MACHINE_START);
    let end_marker = chars_of(MACHINE_END);
    proof {
        reveal_strlit("<!-- webcodex-handoff:machine:start -->");
        reveal_strlit("<!-- webcodex-handoff:machine:end -->");
        lemma_occurs(chars@, start_marker@);
        lemma_occurs(chars@, end_marker@);
        lemma_first_at(chars@, start_marker@);
        lemma_first_at(chars@, end_marker@);
    }
    let starts: usize = count(&chars, &start_marker);
    let ends: usize = count(&chars, &end_marker);
    if starts == 0 && ends == 0 {
        return Ok(
            MarkdownPlan {
                state: MarkdownState::PreservedUnmanaged,
                bytes: None,
                original: Some(original),
            },
        );
    }
    if starts != 1 || ends != 1 {
        return Err(
            refuse("markdown_conflict", "managed Markdown machine markers are ambiguous"),
        );
    }
    match (find(&chars, &start_marker), find(&chars, &end_marker)) {
        (Some(start), Some(end)) => {
            if end < start {
                return Err(
                    refuse("markdown_conflict", "managed Markdown machine markers are inverted"),
                );
            }
            let total: usize = chars.len();
            let mut updated = string_of(&chars, 0, start);
            updated.append(machine_region(task).as_str());
            updated.append(string_of(&chars, end + end_marker.len(), total).as_str());
            proof {
                let text = chars@;
                let after = end + MACHINE_END@.len();
                assert(text.subrange(0, start as int) =~= text.take(start as int));
                assert(text.subrange(after, text.len() as int) =~= text.skip(after));
            }
            let new = bytes_of(updated.as_str());
            if new.len() > MAX_MARKDOWN_BYTES {
                return Err(refuse("capacity_exceeded", "Markdown exceeds its capacity limit"));
            }
            Ok(
                MarkdownPlan {
                    state: MarkdownState::Updated,
                    bytes: Some(new),
                    original: Some(original),
                },
            )
        },
        _ => Err(refuse("markdown_conflict", "managed Markdown machine markers are ambiguous")),
    }
}

/// What people wrote before and after the machine region stays as it was.
pub proof fn law_notes_are_kept(existing: Seq<u8>, t: TaskView)
    requires
        plan_of(Some(existing), t) matches Ok(p) && p.state == MarkdownState::Updated,
    ensures
        ({
            let text = decode_utf8(existing);
            let start = first_at(text, MACHINE_START@)->0 as int;
            let end = first_at(text, MACHINE_END@)->0 as int + MACHINE_END@.len();
            let new = plan_of(Some(existing), t)->Ok_0.bytes->0;
            &&& new == encode_utf8(text.take(start)) + encode_utf8(region(t)) + encode_utf8(
                text.skip(end),
            )
            &&& existing == encode_utf8(text.take(start)) + encode_utf8(text.subrange(start, end))
                + encode_utf8(text.skip(end))
        }),
{
    let text = decode_utf8(existing);
    let start = first_at(text, MACHINE_START@)->0 as int;
    let end = first_at(text, MACHINE_END@)->0 as int + MACHINE_END@.len();
    reveal_strlit("<!-- webcodex-handoff:machine:start -->");
    reveal_strlit("<!-- webcodex-handoff:machine:end -->");
    lemma_first_at(text, MACHINE_START@);
    lemma_first_at(text, MACHINE_END@);
    lemma_occurs(text, MACHINE_START@);
    lemma_occurs(text, MACHINE_END@);
    decode_utf8_encode_utf8(existing);
    lemma_encode_concat(text.take(start) + region(t), text.skip(end));
    lemma_encode_concat(text.take(start), region(t));
    lemma_encode_concat(text.take(start) + text.subrange(start, end), text.skip(end));
    lemma_encode_concat(text.take(start), text.subrange(start, end));
    assert(text.take(start) + text.subrange(start, end) + text.skip(end) =~= text);
}

/// A file without markers is left alone.
pub proof fn law_unmanaged_is_kept(existing: Seq<u8>, t: TaskView)
    requires
        valid_utf8(existing),
        occurrences(decode_utf8(existing), MACHINE_START@) == 0,
        occurrences(decode_utf8(existing), MACHINE_END@) == 0,
    ensures
        plan_of(Some(existing), t) == Ok::<_, Failure>(
            PlanView {
                state: MarkdownState::PreservedUnmanaged,
                bytes: None,
                original: Some(existing),
            },
        ),
{
}

} // verus!
