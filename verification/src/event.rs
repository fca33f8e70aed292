//! Typed event facts: which fields an event may have, and its normal form.
use vstd::prelude::*;
use vstd::utf8::*;
use crate::codec::{json_text, to_text};
use crate::failure::{Failure, outcome, refuse, refused};
use crate::json::{
    Json, Node, lemma_array_view, lemma_object_view, nodes, signed_json, signed_node, text_json,
};
use crate::path::{PathPolicy, normalize_event_path, path_of};
use crate::table::{assign, get, lookup, pairs, put};
use crate::text::{
    alphanumeric, chars_of, digit, has_control, is_alphanumeric, is_control, is_digit, is_lower,
    length, listed, lower, names, owned, same, trim, trimmed,
};

verus! {

pub const MAX_TASK_ID_CHARS: usize = 48;

pub const MAX_TITLE_CHARS: usize = 256;

pub const MAX_CLIENT_ID_CHARS: usize = 128;

pub const MAX_EVENT_ID_CHARS: usize = 128;

pub const MAX_EVENT_BYTES: usize = 16384;

pub const MAX_PATHS_PER_EVENT: usize = 32;

pub const MAX_SUMMARY_CHARS: usize = 4096;

pub const MAX_STATUS_CHARS: usize = 64;

/// Thirty-one days.
pub const MAX_DURATION_MS: u64 = 2678400000;

/// An event in its normal form.
#[derive(Debug)]
pub struct NormalizedEvent {
    pub id: String,
    pub value: Json,
    pub unknown: bool,
}

/// The abstract content of a normal event.
pub struct EventView {
    pub id: Seq<char>,
    pub value: Node,
    pub unknown: bool,
}

impl View for NormalizedEvent {
    type V = EventView;

    open spec fn view(&self) -> EventView {
        EventView { id: self.id@, value: self.value@, unknown: self.unknown }
    }
}

impl NormalizedEvent {
    pub fn copy(&self) -> (r: NormalizedEvent)
        ensures
            r@ == self@,
    {
        NormalizedEvent {
            id: self.id.clone(),
            value: self.value.copy(),
            unknown: self.unknown,
        }
    }
}

/// A short lower-case slug: letters and digits, then also `-` and `_`.
pub open spec fn is_slug(s: Seq<char>) -> bool {
    forall|i: int|
        0 <= i < s.len() ==> is_lower(#[trigger] s[i]) || is_digit(s[i]) || (i > 0 && (s[i] == '-'
            || s[i] == '_'))
}

/// The task id that a value gives.
pub open spec fn slug_of(n: Node, max: int) -> Result<Seq<char>, Failure> {
    match n.text() {
        None => Err(refused("invalid_task_id", "task_id must be a string")),
        Some(s) => if s.len() == 0 || s.len() > max {
            Err(refused("invalid_task_id", "task_id is outside its length limit"))
        } else if !is_slug(s) {
            Err(refused("invalid_task_id", "task_id must be a short lowercase slug"))
        } else {
            Ok(s)
        },
    }
}

#[verifier::loop_isolation(false)]
pub fn parse_slug(value: &Json, max: usize) -> (r: Result<String, Failure>)
    ensures
        outcome(r) == slug_of(value@, max as int),
{
    let text = match value.as_str() {
        None => {
            return Err(refuse("invalid_task_id", "task_id must be a string"));
        },
        Some(text) => text,
    };
    let chars = chars_of(text);
    if chars.len() == 0 || chars.len() > max {
        return Err(refuse("invalid_task_id", "task_id is outside its length limit"));
    }
    let mut i: usize = 0;
    while i < chars.len()
        invariant
            chars@ == text@,
            i <= chars@.len(),
            forall|j: int|
                0 <= j < i ==> is_lower(#[trigger] text@[j]) || is_digit(text@[j]) || (j > 0 && (
                text@[j] == '-' || text@[j] == '_')),
        decreases chars@.len() - i,
    {
        let c = chars[i];
        if !(lower(c) || digit(c) || (i > 0 && (c == '-' || c == '_'))) {
            proof {
                assert(text@[i as int] == c);
                assert(!is_slug(text@));
            }
            return Err(refuse("invalid_task_id", "task_id must be a short lowercase slug"));
        }
        i += 1;
    }
    Ok(owned(text))
}

pub open spec fn is_actor_mark(c: char) -> bool {
    c == '.' || c == ':' || c == '_' || c == '-'
}

/// A bounded identifier: it starts with a letter or a digit.
pub open spec fn is_actor(s: Seq<char>) -> bool {
    forall|i: int|
        0 <= i < s.len() ==> is_alphanumeric(#[trigger] s[i]) || (i > 0 && is_actor_mark(s[i]))
}

/// The client id that a value gives.
pub open spec fn actor_of(n: Node) -> Result<Seq<char>, Failure> {
    match n.text() {
        None => Err(refused("invalid_binding", "client_id must be a string")),
        Some(s) => if s.len() == 0 || s.len() > MAX_CLIENT_ID_CHARS {
            Err(refused("invalid_binding", "client_id is outside its length limit"))
        } else if !is_actor(s) {
            Err(refused("invalid_binding", "client_id must be a bounded identifier"))
        } else {
            Ok(s)
        },
    }
}

#[verifier::loop_isolation(false)]
pub fn parse_actor_id(value: &Json) -> (r: Result<String, Failure>)
    ensures
        outcome(r) == actor_of(value@),
{
    let text = match value.as_str() {
        None => {
            return Err(refuse("invalid_binding", "client_id must be a string"));
        },
        Some(text) => text,
    };
    let chars = chars_of(text);
    if chars.len() == 0 || chars.len() > MAX_CLIENT_ID_CHARS {
        return Err(refuse("invalid_binding", "client_id is outside its length limit"));
    }
    let mut i: usize = 0;
    while i < chars.len()
        invariant
            chars@ == text@,
            i <= chars@.len(),
            forall|j: int|
                0 <= j < i ==> is_alphanumeric(#[trigger] text@[j]) || (j > 0 && is_actor_mark(
                    text@[j],
                )),
        decreases chars@.len() - i,
    {
        let c = chars[i];
        if !(alphanumeric(c) || (i > 0 && (c == '.' || c == ':' || c == '_' || c == '-'))) {
            proof {
                assert(text@[i as int] == c);
                assert(!is_actor(text@));
            }
            return Err(refuse("invalid_binding", "client_id must be a bounded identifier"));
        }
        i += 1;
    }
    Ok(owned(text))
}

/// Whether some character is a control character.
pub open spec fn controlled(s: Seq<char>) -> bool {
    exists|i: int| 0 <= i < s.len() && is_control(#[trigger] s[i])
}

/// The trimmed text that a value gives.
pub open spec fn text_of(n: Node, max: int, allow_empty: bool) -> Result<Seq<char>, Failure> {
    match n.text() {
        None => Err(refused("invalid_request", "text field must be a string")),
        Some(s) => {
            let t = trim(s);
            if (!allow_empty && t.len() == 0) || t.len() > max {
                Err(refused("invalid_request", "text field is outside its length limit"))
            } else if controlled(t) {
                Err(refused("invalid_request", "text field contains control characters"))
            } else {
                Ok(t)
            }
        },
    }
}

pub fn parse_text(value: &Json, max_chars: usize, allow_empty: bool) -> (r: Result<String, Failure>)
    ensures
        outcome(r) == text_of(value@, max_chars as int, allow_empty),
{
    let text = match value.as_str() {
        None => {
            return Err(refuse("invalid_request", "text field must be a string"));
        },
        Some(text) => trimmed(text),
    };
    let count: usize = length(text.as_str());
    if (!allow_empty && count == 0) || count > max_chars {
        return Err(refuse("invalid_request", "text field is outside its length limit"));
    }
    if has_control(text.as_str()) {
        return Err(refuse("invalid_request", "text field contains control characters"));
    }
    Ok(text)
}

pub open spec fn is_event_id(s: Seq<char>) -> bool {
    forall|i: int|
        0 <= i < s.len() ==> is_alphanumeric(#[trigger] s[i]) || is_actor_mark(s[i])
}

/// The event id that a value gives.
pub open spec fn event_id_of(n: Node) -> Result<Seq<char>, Failure> {
    match n.text() {
        None => Err(refused("invalid_event_id", "event_id must be a string")),
        Some(s) => if s.len() == 0 || s.len() > MAX_EVENT_ID_CHARS {
            Err(refused("invalid_event_id", "event_id is outside its length limit"))
        } else if !is_event_id(s) {
            Err(refused("invalid_event_id", "event_id contains an invalid character"))
        } else {
            Ok(s)
        },
    }
}

#[verifier::loop_isolation(false)]
pub fn parse_event_id(value: &Json) -> (r: Result<String, Failure>)
    ensures
        outcome(r) == event_id_of(value@),
{
    let text = match value.as_str() {
        None => {
            return Err(refuse("invalid_event_id", "event_id must be a string"));
        },
        Some(text) => text,
    };
    let chars = chars_of(text);
    if chars.len() == 0 || chars.len() > MAX_EVENT_ID_CHARS {
        return Err(refuse("invalid_event_id", "event_id is outside its length limit"));
    }
    let mut i: usize = 0;
    while i < chars.len()
        invariant
            chars@ == text@,
            i <= chars@.len(),
            forall|j: int|
                0 <= j < i ==> is_alphanumeric(#[trigger] text@[j]) || is_actor_mark(text@[j]),
        decreases chars@.len() - i,
    {
        let c = chars[i];
        if !(alphanumeric(c) || c == '.' || c == ':' || c == '_' || c == '-') {
            proof {
                assert(text@[i as int] == c);
                assert(!is_event_id(text@));
            }
            return Err(refuse("invalid_event_id", "event_id contains an invalid character"));
        }
        i += 1;
    }
    Ok(owned(text))
}

/// The event types that are accepted.
pub open spec fn event_type_names() -> Seq<Seq<char>> {
    seq![
        "task_created"@,
        "task_selected"@,
        "task_bound"@,
        "task_completed"@,
        "task_blocked"@,
        "session_started"@,
        "session_continued"@,
        "session_finished"@,
        "tool_started"@,
        "tool_finished"@,
        "file_changed"@,
        "file_edit"@,
        "file_read"@,
        "job_accepted"@,
        "job_queued"@,
        "job_started"@,
        "job_terminal"@,
        "validation_started"@,
        "validation_finished"@,
        "validation_result"@,
        "stage_started"@,
        "stage_finished"@,
        "handoff_started"@,
        "handoff_saved"@,
        "note_added"@,
    ]
}

/// The event types that are accepted.
pub fn event_types() -> (r: Vec<&'static str>)
    ensures
        names(r@) == event_type_names(),
{
    let r = vec![
        "task_created",
        "task_selected",
        "task_bound",
        "task_completed",
        "task_blocked",
        "session_started",
        "session_continued",
        "session_finished",
        "tool_started",
        "tool_finished",
        "file_changed",
        "file_edit",
        "file_read",
        "job_accepted",
        "job_queued",
        "job_started",
        "job_terminal",
        "validation_started",
        "validation_finished",
        "validation_result",
        "stage_started",
        "stage_finished",
        "handoff_started",
        "handoff_saved",
        "note_added",
    ];
    proof {
        assert(names(r@) =~= event_type_names());
    }
    r
}

/// The fields that hold one value each, in the order in which they are read.
pub open spec fn scalar_keys() -> Seq<Seq<char>> {
    seq![
        "source"@,
        "observed_at"@,
        "session_id"@,
        "job_id"@,
        "job_update_seq"@,
        "tool"@,
        "status"@,
        "outcome"@,
        "summary"@,
        "path"@,
        "exit_code"@,
        "duration_ms"@,
        "unknown"@,
        "success"@,
        "task_status"@,
        "error_code"@,
        "validation_name"@,
        "commit"@,
    ]
}

fn scalar_list() -> (r: Vec<&'static str>)
    ensures
        names(r@) == scalar_keys(),
{
    let r = vec![
        "source",
        "observed_at",
        "session_id",
        "job_id",
        "job_update_seq",
        "tool",
        "status",
        "outcome",
        "summary",
        "path",
        "exit_code",
        "duration_ms",
        "unknown",
        "success",
        "task_status",
        "error_code",
        "validation_name",
        "commit",
    ];
    proof {
        assert(names(r@) =~= scalar_keys());
    }
    r
}

/// Whether an event may have the field.
pub open spec fn is_event_key(k: Seq<char>) -> bool {
    k == "event_id"@ || k == "type"@ || k == "paths"@ || scalar_keys().contains(k)
}

/// The sources that are accepted.
pub open spec fn is_event_source(s: Seq<char>) -> bool {
    s == "webcodex"@ || s == "local_codex"@ || s == "local"@ || s == "runner"@ || s == "gpt"@ || s
        == "user"@ || s == "system"@
}

pub open spec fn is_task_status(s: Seq<char>) -> bool {
    s == "active"@ || s == "completed"@ || s == "unknown"@ || s == "blocked"@
}

pub fn task_status_known(s: &str) -> (r: bool)
    ensures
        r == is_task_status(s@),
{
    same(s, "active") || same(s, "completed") || same(s, "unknown") || same(s, "blocked")
}

/// A status that says that the outcome is not known.
pub open spec fn is_unknown(s: Seq<char>) -> bool {
    s == "unknown"@ || s == "outcome_unknown"@ || s == "lost"@ || s == "delivery_unknown"@
}

pub fn is_unknown_status(value: &str) -> (r: bool)
    ensures
        r == is_unknown(value@),
{
    same(value, "unknown") || same(value, "outcome_unknown") || same(value, "lost") || same(
        value,
        "delivery_unknown",
    )
}

pub open spec fn is_identifier_key(k: Seq<char>) -> bool {
    k == "session_id"@ || k == "job_id"@ || k == "tool"@ || k == "error_code"@ || k
        == "validation_name"@ || k == "commit"@
}

pub open spec fn is_status_key(k: Seq<char>) -> bool {
    k == "status"@ || k == "outcome"@ || k == "task_status"@
}

/// The source that a value gives.
pub open spec fn source_of(n: Node) -> Result<Node, Failure> {
    match n.text() {
        None => Err(refused("invalid_event", "source must be a string")),
        Some(s) => if is_event_source(s) {
            Ok(Node::Text(s))
        } else {
            Err(refused("unsupported_event_source", "event source is not whitelisted"))
        },
    }
}

/// The identifier that a value gives.
pub open spec fn identifier_of(n: Node) -> Result<Node, Failure> {
    match n.text() {
        None => Err(refused("invalid_event", "event identifier fields must be strings")),
        Some(s) => if s.len() == 0 || s.len() > MAX_EVENT_ID_CHARS || controlled(s) {
            Err(refused("invalid_event", "event identifier field is outside its limit"))
        } else {
            Ok(Node::Text(s))
        },
    }
}

/// The status that a value gives.
pub open spec fn status_of(n: Node, of_task: bool) -> Result<Node, Failure> {
    match n.text() {
        None => Err(refused("invalid_event", "status fields must be strings")),
        Some(s) => if s.len() == 0 || s.len() > MAX_STATUS_CHARS || controlled(s) {
            Err(refused("invalid_event", "status field is outside its limit"))
        } else if of_task && !is_task_status(s) {
            Err(refused("invalid_event", "task_status is not supported"))
        } else {
            Ok(Node::Text(s))
        },
    }
}

/// The duration that a value gives.
pub open spec fn duration_of(n: Node) -> Result<Node, Failure> {
    match n.unsigned() {
        None => Err(refused("invalid_event", "duration_ms must be non-negative")),
        Some(v) => if v > MAX_DURATION_MS {
            Err(refused("invalid_event", "duration_ms exceeds its limit"))
        } else {
            Ok(Node::Unsigned(v))
        },
    }
}

/// The normal form of the field `k`.
pub open spec fn field_of(k: Seq<char>, n: Node, policy: Seq<Seq<char>>) -> Result<Node, Failure> {
    if k == "source"@ {
        source_of(n)
    } else if k == "job_update_seq"@ {
        match n.unsigned() {
            Some(v) => Ok(Node::Unsigned(v)),
            None => Err(
                refused("invalid_event", "job_update_seq must be a non-negative integer"),
            ),
        }
    } else if k == "observed_at"@ {
        match n.signed() {
            Some(v) => Ok(signed_node(v)),
            None => Err(refused("invalid_event", "observed_at must be an integer timestamp")),
        }
    } else if is_identifier_key(k) {
        identifier_of(n)
    } else if is_status_key(k) {
        status_of(n, k == "task_status"@)
    } else if k == "summary"@ {
        match text_of(n, MAX_SUMMARY_CHARS as int, false) {
            Ok(s) => Ok(Node::Text(s)),
            Err(e) => Err(e),
        }
    } else if k == "path"@ {
        match path_of(n, policy) {
            Ok(s) => Ok(Node::Text(s)),
            Err(e) => Err(e),
        }
    } else if k == "exit_code"@ {
        match n.signed() {
            Some(v) => Ok(signed_node(v)),
            None => Err(refused("invalid_event", "exit_code must be an integer")),
        }
    } else if k == "duration_ms"@ {
        duration_of(n)
    } else if k == "unknown"@ || k == "success"@ {
        match n.boolean() {
            Some(b) => Ok(Node::Bool(b)),
            None => Err(refused("invalid_event", "boolean event fields must be booleans")),
        }
    } else {
        Err(refused("event_field_not_allowed", "event field is not supported"))
    }
}

fn parse_source(value: &Json) -> (r: Result<Json, Failure>)
    ensures
        outcome(r) == source_of(value@),
{
    match value.as_str() {
        None => Err(refuse("invalid_event", "source must be a string")),
        Some(s) => if same(s, "webcodex") || same(s, "local_codex") || same(s, "local") || same(
            s,
            "runner",
        ) || same(s, "gpt") || same(s, "user") || same(s, "system") {
            Ok(text_json(s))
        } else {
            Err(refuse("unsupported_event_source", "event source is not whitelisted"))
        },
    }
}

fn parse_identifier(value: &Json) -> (r: Result<Json, Failure>)
    ensures
        outcome(r) == identifier_of(value@),
{
    match value.as_str() {
        None => Err(refuse("invalid_event", "event identifier fields must be strings")),
        Some(s) => {
            let count: usize = length(s);
            if count == 0 || count > MAX_EVENT_ID_CHARS || has_control(s) {
                Err(refuse("invalid_event", "event identifier field is outside its limit"))
            } else {
                Ok(text_json(s))
            }
        },
    }
}

fn parse_status(value: &Json, of_task: bool) -> (r: Result<Json, Failure>)
    ensures
        outcome(r) == status_of(value@, of_task),
{
    match value.as_str() {
        None => Err(refuse("invalid_event", "status fields must be strings")),
        Some(s) => {
            let count: usize = length(s);
            if count == 0 || count > MAX_STATUS_CHARS || has_control(s) {
                Err(refuse("invalid_event", "status field is outside its limit"))
            } else if of_task && !task_status_known(s) {
                Err(refuse("invalid_event", "task_status is not supported"))
            } else {
                Ok(text_json(s))
            }
        },
    }
}

fn parse_duration(value: &Json) -> (r: Result<Json, Failure>)
    ensures
        outcome(r) == duration_of(value@),
{
    match value.as_u64() {
        None => Err(refuse("invalid_event", "duration_ms must be non-negative")),
        Some(v) => if v > MAX_DURATION_MS {
            Err(refuse("invalid_event", "duration_ms exceeds its limit"))
        } else {
            Ok(Json::Unsigned(v))
        },
    }
}

/// The normal form of the field `key`.
pub fn normalize_event_field(key: &str, value: &Json, policy: &PathPolicy) -> (r: Result<
    Json,
    Failure,
>)
    ensures
        outcome(r) == field_of(key@, value@, policy@),
{
    if same(key, "source") {
        parse_source(value)
    } else if same(key, "job_update_seq") {
        match value.as_u64() {
            Some(v) => Ok(Json::Unsigned(v)),
            None => Err(refuse("invalid_event", "job_update_seq must be a non-negative integer")),
        }
    } else if same(key, "observed_at") {
        match value.as_i64() {
            Some(v) => Ok(signed_json(v)),
            None => Err(refuse("invalid_event", "observed_at must be an integer timestamp")),
        }
    } else if same(key, "session_id") || same(key, "job_id") || same(key, "tool") || same(
        key,
        "error_code",
    ) || same(key, "validation_name") || same(key, "commit") {
        parse_identifier(value)
    } else if same(key, "status") || same(key, "outcome") || same(key, "task_status") {
        parse_status(value, same(key, "task_status"))
    } else if same(key, "summary") {
        match parse_text(value, MAX_SUMMARY_CHARS, false) {
            Ok(s) => Ok(Json::Text(s)),
            Err(e) => Err(e),
        }
    } else if same(key, "path") {
        match normalize_event_path(value, policy) {
            Ok(s) => Ok(Json::Text(s)),
            Err(e) => Err(e),
        }
    } else if same(key, "exit_code") {
        match value.as_i64() {
            Some(v) => Ok(signed_json(v)),
            None => Err(refuse("invalid_event", "exit_code must be an integer")),
        }
    } else if same(key, "duration_ms") {
        parse_duration(value)
    } else if same(key, "unknown") || same(key, "success") {
        match value.as_bool() {
            Some(b) => Ok(Json::Bool(b)),
            None => Err(refuse("invalid_event", "boolean event fields must be booleans")),
        }
    } else {
        Err(refuse("event_field_not_allowed", "event field is not supported"))
    }
}

/// Whether every key of the object may stand in an event.
pub open spec fn allowed_fields(fields: Seq<(Seq<char>, Node)>) -> bool {
    forall|i: int| 0 <= i < fields.len() ==> is_event_key(#[trigger] fields[i].0)
}

/// The event type that an object gives.
pub open spec fn type_of(fields: Seq<(Seq<char>, Node)>) -> Result<Seq<char>, Failure> {
    match lookup(fields, "type"@) {
        Some(Node::Text(s)) => if s.len() == 0 {
            Err(refused("invalid_event", "event type is required"))
        } else if !event_type_names().contains(s) {
            Err(refused("unsupported_event_type", "event type is not whitelisted"))
        } else {
            Ok(s)
        },
        _ => Err(refused("invalid_event", "event type is required")),
    }
}

/// The table `base` with the normal forms of the fields named by the first `k`
/// keys; the refusal of the first field that has none.
pub open spec fn fields_of(
    fields: Seq<(Seq<char>, Node)>,
    base: Seq<(Seq<char>, Node)>,
    keys: Seq<Seq<char>>,
    k: nat,
    policy: Seq<Seq<char>>,
) -> Result<Seq<(Seq<char>, Node)>, Failure>
    decreases k,
{
    if k == 0 || k > keys.len() {
        Ok(base)
    } else {
        match fields_of(fields, base, keys, (k - 1) as nat, policy) {
            Err(e) => Err(e),
            Ok(acc) => match lookup(fields, keys[k - 1]) {
                None => Ok(acc),
                Some(v) => match field_of(keys[k - 1], v, policy) {
                    Err(e) => Err(e),
                    Ok(n) => Ok(put(acc, keys[k - 1], n)),
                },
            },
        }
    }
}

/// The normal forms of the first `k` paths.
pub open spec fn paths_of(items: Seq<Node>, k: nat, policy: Seq<Seq<char>>) -> Result<
    Seq<Node>,
    Failure,
>
    decreases k,
{
    if k == 0 || k > items.len() {
        Ok(Seq::empty())
    } else {
        match paths_of(items, (k - 1) as nat, policy) {
            Err(e) => Err(e),
            Ok(acc) => match path_of(items[k - 1], policy) {
                Err(e) => Err(e),
                Ok(p) => Ok(acc.push(Node::Text(p))),
            },
        }
    }
}

/// The table with the normal form of the path list, where there is one.
pub open spec fn with_paths(
    fields: Seq<(Seq<char>, Node)>,
    acc: Seq<(Seq<char>, Node)>,
    policy: Seq<Seq<char>>,
) -> Result<Seq<(Seq<char>, Node)>, Failure> {
    match lookup(fields, "paths"@) {
        None => Ok(acc),
        Some(Node::List(items)) => if items.len() > MAX_PATHS_PER_EVENT {
            Err(refused("event_too_large", "event has too many paths"))
        } else {
            match paths_of(items, items.len(), policy) {
                Err(e) => Err(e),
                Ok(list) => Ok(put(acc, "paths"@, Node::List(list))),
            }
        },
        Some(_) => Err(refused("invalid_event", "paths must be an array of strings")),
    }
}

/// Whether an event value says that an outcome is not known.
pub open spec fn reports_unknown(n: Node) -> bool {
    ||| n.at("unknown"@) == Node::Bool(true)
    ||| (n.at("status"@) matches Node::Text(s) && is_unknown(s))
    ||| (n.at("outcome"@) matches Node::Text(s) && is_unknown(s))
}

/// The table of the required fields.
pub open spec fn event_base(id: Seq<char>, kind: Seq<char>) -> Seq<(Seq<char>, Node)> {
    put(put(Seq::empty(), "event_id"@, Node::Text(id)), "type"@, Node::Text(kind))
}

/// The table of all fields in their normal form.
pub open spec fn event_fields(
    fields: Seq<(Seq<char>, Node)>,
    id: Seq<char>,
    kind: Seq<char>,
    policy: Seq<Seq<char>>,
) -> Result<Seq<(Seq<char>, Node)>, Failure> {
    match fields_of(fields, event_base(id, kind), scalar_keys(), scalar_keys().len(), policy) {
        Err(e) => Err(e),
        Ok(acc) => with_paths(fields, acc, policy),
    }
}

/// The event with the given normal value, where it is not too large.
pub open spec fn sized_event(id: Seq<char>, value: Node) -> Result<EventView, Failure> {
    match json_text(value) {
        None => Err(refused("invalid_event", "event is not serializable")),
        Some(t) => if encode_utf8(t).len() > MAX_EVENT_BYTES {
            Err(refused("event_too_large", "event exceeds its byte limit"))
        } else {
            Ok(EventView { id, value, unknown: reports_unknown(value) })
        },
    }
}

/// The normal form of an event.
pub open spec fn event_of(n: Node, policy: Seq<Seq<char>>) -> Result<EventView, Failure> {
    match n {
        Node::Record(fields) => if !allowed_fields(fields) {
            Err(
                refused(
                    "event_field_not_allowed",
                    "event contains a field outside the typed fact schema",
                ),
            )
        } else {
            match lookup(fields, "event_id"@) {
                None => Err(refused("invalid_event", "event_id is required")),
                Some(v) => match event_id_of(v) {
                    Err(e) => Err(e),
                    Ok(id) => match type_of(fields) {
                        Err(e) => Err(e),
                        Ok(kind) => match event_fields(fields, id, kind, policy) {
                            Err(e) => Err(e),
                            Ok(all) => sized_event(id, Node::Record(all)),
                        },
                    },
                },
            }
        },
        _ => Err(refused("invalid_event", "event must be an object")),
    }
}

proof fn lemma_fields_fail(
    fields: Seq<(Seq<char>, Node)>,
    base: Seq<(Seq<char>, Node)>,
    keys: Seq<Seq<char>>,
    k: nat,
    policy: Seq<Seq<char>>,
)
    requires
        k <= keys.len(),
        fields_of(fields, base, keys, k, policy) is Err,
    ensures
        fields_of(fields, base, keys, keys.len(), policy) == fields_of(
            fields,
            base,
            keys,
            k,
            policy,
        ),
    decreases keys.len() - k,
{
    if k < keys.len() {
        lemma_fields_fail(fields, base, keys, k + 1, policy);
    }
}

proof fn lemma_paths_fail(items: Seq<Node>, k: nat, policy: Seq<Seq<char>>)
    requires
        k <= items.len(),
        paths_of(items, k, policy) is Err,
    ensures
        paths_of(items, items.len(), policy) == paths_of(items, k, policy),
    decreases items.len() - k,
{
    if k < items.len() {
        lemma_paths_fail(items, k + 1, policy);
    }
}

fn fields_allowed(fields: &Vec<(String, Json)>) -> (r: bool)
    ensures
        r == allowed_fields(pairs(fields@)),
{
    let keys = scalar_list();
    let mut i: usize = 0;
    while i < fields.len()
        invariant
            i <= fields@.len(),
            names(keys@) == scalar_keys(),
            forall|j: int| 0 <= j < i ==> is_event_key(#[trigger] pairs(fields@)[j].0),
        decreases fields@.len() - i,
    {
        let key = fields[i].0.as_str();
        if !(same(key, "event_id") || same(key, "type") || same(key, "paths") || listed(&keys, key)) {
            proof {
                assert(!is_event_key(pairs(fields@)[i as int].0));
            }
            return false;
        }
        i += 1;
    }
    true
}

fn parse_type(fields: &Vec<(String, Json)>) -> (r: Result<String, Failure>)
    ensures
        outcome(r) == type_of(pairs(fields@)),
{
    match get(fields, "type") {
        None => Err(refuse("invalid_event", "event type is required")),
        Some(v) => match v.as_str() {
            None => Err(refuse("invalid_event", "event type is required")),
            Some(s) => if length(s) == 0 {
                Err(refuse("invalid_event", "event type is required"))
            } else if !listed(&event_types(), s) {
                Err(refuse("unsupported_event_type", "event type is not whitelisted"))
            } else {
                Ok(owned(s))
            },
        },
    }
}

fn parse_paths(items: &Vec<Json>, policy: &PathPolicy) -> (r: Result<Vec<Json>, Failure>)
    ensures
        match r {
            Ok(list) => paths_of(nodes(items@), nodes(items@).len(), policy@) == Ok::<
                _,
                Failure,
            >(nodes(list@)),
            Err(e) => paths_of(nodes(items@), nodes(items@).len(), policy@) == Err::<
                Seq<Node>,
                Failure,
            >(e),
        },
{
    let mut out: Vec<Json> = Vec::new();
    let mut i: usize = 0;
    proof {
        assert(nodes(out@) =~= Seq::<Node>::empty());
    }
    while i < items.len()
        invariant
            i <= items@.len(),
            paths_of(nodes(items@), i as nat, policy@) == Ok::<_, Failure>(nodes(out@)),
        decreases items@.len() - i,
    {
        let ghost prior = nodes(out@);
        proof {
            assert(nodes(items@)[i as int] == items@[i as int]@);
        }
        match normalize_event_path(&items[i], policy) {
            Err(e) => {
                proof {
                    lemma_paths_fail(nodes(items@), (i + 1) as nat, policy@);
                }
                return Err(e);
            },
            Ok(p) => {
                out.push(Json::Text(p));
                proof {
                    assert(nodes(out@) =~= prior.push(Node::Text(p@)));
                }
            },
        }
        i += 1;
    }
    Ok(out)
}

#[verifier::loop_isolation(false)]
fn parse_fields(
    fields: &Vec<(String, Json)>,
    id: &str,
    kind: &str,
    policy: &PathPolicy,
) -> (r: Result<Vec<(String, Json)>, Failure>)
    ensures
        match r {
            Ok(all) => event_fields(pairs(fields@), id@, kind@, policy@) == Ok::<_, Failure>(
                pairs(all@),
            ),
            Err(e) => event_fields(pairs(fields@), id@, kind@, policy@) == Err::<
                Seq<(Seq<char>, Node)>,
                Failure,
            >(e),
        },
{
    let ghost given = pairs(fields@);
    let ghost base = event_base(id@, kind@);
    let keys = scalar_list();
    let mut out: Vec<(String, Json)> = Vec::new();
    proof {
        assert(pairs(out@) =~= Seq::<(Seq<char>, Node)>::empty());
    }
    assign(&mut out, owned("event_id"), text_json(id));
    assign(&mut out, owned("type"), text_json(kind));
    let mut i: usize = 0;
    while i < keys.len()
        invariant
            i <= keys@.len(),
            given == pairs(fields@),
            names(keys@) == scalar_keys(),
            fields_of(given, base, scalar_keys(), i as nat, policy@) == Ok::<_, Failure>(
                pairs(out@),
            ),
        decreases keys@.len() - i,
    {
        proof {
            assert(names(keys@)[i as int] == keys@[i as int]@);
        }
        match get(fields, keys[i]) {
            None => {},
            Some(v) => match normalize_event_field(keys[i], v, policy) {
                Err(e) => {
                    proof {
                        lemma_fields_fail(given, base, scalar_keys(), (i + 1) as nat, policy@);
                    }
                    return Err(e);
                },
                Ok(n) => {
                    assign(&mut out, owned(keys[i]), n);
                },
            },
        }
        i += 1;
    }
    proof {
        assert(names(keys@).len() == keys@.len());
    }
    match get(fields, "paths") {
        None => Ok(out),
        Some(v) => match v.as_array() {
            None => Err(refuse("invalid_event", "paths must be an array of strings")),
            Some(items) => if items.len() > MAX_PATHS_PER_EVENT {
                Err(refuse("event_too_large", "event has too many paths"))
            } else {
                match parse_paths(items, policy) {
                    Err(e) => Err(e),
                    Ok(list) => {
                        proof {
                            lemma_array_view(list);
                        }
                        assign(&mut out, owned("paths"), Json::Array(list));
                        Ok(out)
                    },
                }
            },
        },
    }
}

/// Whether an event value says that an outcome is not known.
pub fn says_unknown(value: &Json) -> (r: bool)
    ensures
        r == reports_unknown(value@),
{
    let by_status = match value.text_at("status") {
        Some(s) => is_unknown_status(s),
        None => false,
    };
    let by_outcome = match value.text_at("outcome") {
        Some(s) => is_unknown_status(s),
        None => false,
    };
    value.has_bool("unknown", true) || by_status || by_outcome
}

/// The normal form of an event.
pub fn normalize_event(value: &Json, policy: &PathPolicy) -> (r: Result<NormalizedEvent, Failure>)
    ensures
        outcome(r) == event_of(value@, policy@),
{
    let fields = match value.as_object() {
        None => {
            return Err(refuse("invalid_event", "event must be an object"));
        },
        Some(fields) => fields,
    };
    if !fields_allowed(fields) {
        return Err(
            refuse(
                "event_field_not_allowed",
                "event contains a field outside the typed fact schema",
            ),
        );
    }
    let id = match get(fields, "event_id") {
        None => {
            return Err(refuse("invalid_event", "event_id is required"));
        },
        Some(v) => match parse_event_id(v) {
            Err(e) => {
                return Err(e);
            },
            Ok(id) => id,
        },
    };
    let kind = match parse_type(fields) {
        Err(e) => {
            return Err(e);
        },
        Ok(kind) => kind,
    };
    let all = match parse_fields(fields, id.as_str(), kind.as_str(), policy) {
        Err(e) => {
            return Err(e);
        },
        Ok(all) => all,
    };
    proof {
        lemma_object_view(all);
    }
    let normal = Json::Object(all);
    match to_text(&normal) {
        None => Err(refuse("invalid_event", "event is not serializable")),
        Some(t) => if t.as_str().as_bytes().len() > MAX_EVENT_BYTES {
            Err(refuse("event_too_large", "event exceeds its byte limit"))
        } else {
            let unknown = says_unknown(&normal);
            Ok(NormalizedEvent { id, value: normal, unknown })
        },
    }
}

} // verus!
