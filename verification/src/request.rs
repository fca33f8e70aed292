//! Checkpoint requests: which fields each action takes.
use vstd::prelude::*;
use vstd::utf8::*;
use crate::codec::{json_text, to_text};
use crate::event::{
    EventView, MAX_TASK_ID_CHARS, MAX_TITLE_CHARS, NormalizedEvent, actor_of, event_of,
    normalize_event, parse_actor_id, parse_slug, parse_text, slug_of, text_of,
};
use crate::failure::{Failure, content, outcome, refuse, refused};
use crate::json::{Json, Node};
use crate::path::{PathPolicy};
use crate::table::{get, lookup, pairs};
use crate::text::{same};

verus! {

pub const MAX_REQUEST_BYTES: usize = 131072;

/// What a request asks for.
#[derive(Clone, Copy, Debug, PartialEq, Eq, Structural)]
pub enum Action {
    Status,
    Read,
    Create,
    Append,
    Bind,
    Archive,
    Disable,
}

/// The task that a client selects.
#[derive(Debug)]
pub struct Binding {
    pub task_id: String,
    pub client_id: String,
}

pub struct BindingView {
    pub task_id: Seq<char>,
    pub client_id: Seq<char>,
}

impl View for Binding {
    type V = BindingView;

    open spec fn view(&self) -> BindingView {
        BindingView { task_id: self.task_id@, client_id: self.client_id@ }
    }
}

/// A request whose fields were checked.
#[derive(Debug)]
pub struct Request {
    pub action: Action,
    pub task_id: Option<String>,
    pub title: Option<String>,
    pub expected_revision: Option<u64>,
    pub event: Option<NormalizedEvent>,
    pub client_id: Option<String>,
    pub binding: Option<Binding>,
}

pub struct RequestView {
    pub action: Action,
    pub task_id: Option<Seq<char>>,
    pub title: Option<Seq<char>>,
    pub expected_revision: Option<u64>,
    pub event: Option<EventView>,
    pub client_id: Option<Seq<char>>,
    pub binding: Option<BindingView>,
}

impl View for Request {
    type V = RequestView;

    open spec fn view(&self) -> RequestView {
        RequestView {
            action: self.action,
            task_id: content(self.task_id),
            title: content(self.title),
            expected_revision: self.expected_revision,
            event: content(self.event),
            client_id: content(self.client_id),
            binding: content(self.binding),
        }
    }
}

/// The action that a name stands for.
pub open spec fn action_of(s: Seq<char>) -> Option<Action> {
    if s == "status"@ {
        Some(Action::Status)
    } else if s == "read"@ {
        Some(Action::Read)
    } else if s == "create"@ {
        Some(Action::Create)
    } else if s == "append"@ {
        Some(Action::Append)
    } else if s == "bind"@ {
        Some(Action::Bind)
    } else if s == "disable"@ {
        Some(Action::Disable)
    } else if s == "archive"@ {
        Some(Action::Archive)
    } else {
        None
    }
}

fn parse_action(s: &str) -> (r: Option<Action>)
    ensures
        r == action_of(s@),
{
    if same(s, "status") {
        Some(Action::Status)
    } else if same(s, "read") {
        Some(Action::Read)
    } else if same(s, "create") {
        Some(Action::Create)
    } else if same(s, "append") {
        Some(Action::Append)
    } else if same(s, "bind") {
        Some(Action::Bind)
    } else if same(s, "disable") {
        Some(Action::Disable)
    } else if same(s, "archive") {
        Some(Action::Archive)
    } else {
        None
    }
}

/// Whether a request may have the field.
pub open spec fn is_request_key(k: Seq<char>) -> bool {
    k == "action"@ || k == "task_id"@ || k == "title"@ || k == "expected_revision"@ || k
        == "event"@ || k == "client_id"@ || k == "binding"@
}

pub open spec fn only_request_keys(fields: Seq<(Seq<char>, Node)>) -> bool {
    forall|i: int| 0 <= i < fields.len() ==> is_request_key(#[trigger] fields[i].0)
}

pub open spec fn only_binding_keys(fields: Seq<(Seq<char>, Node)>) -> bool {
    forall|i: int|
        0 <= i < fields.len() ==> (#[trigger] fields[i].0 == "task_id"@ || fields[i].0
            == "client_id"@)
}

/// The binding that a value gives.
pub open spec fn binding_of(n: Node) -> Result<BindingView, Failure> {
    match n {
        Node::Record(fields) => if !only_binding_keys(fields) {
            Err(refused("invalid_binding", "binding contains an unknown field"))
        } else {
            match lookup(fields, "task_id"@) {
                None => Err(refused("invalid_binding", "binding task_id is required")),
                Some(t) => match slug_of(t, MAX_TASK_ID_CHARS as int) {
                    Err(e) => Err(e),
                    Ok(task_id) => match lookup(fields, "client_id"@) {
                        None => Err(refused("invalid_binding", "binding client_id is required")),
                        Some(c) => match actor_of(c) {
                            Err(e) => Err(e),
                            Ok(client_id) => Ok(BindingView { task_id, client_id }),
                        },
                    },
                },
            }
        },
        _ => Err(refused("invalid_binding", "binding must be an object")),
    }
}

#[verifier::loop_isolation(false)]
pub fn parse_binding(value: &Json) -> (r: Result<Binding, Failure>)
    ensures
        outcome(r) == binding_of(value@),
{
    let fields = match value.as_object() {
        None => {
            return Err(refuse("invalid_binding", "binding must be an object"));
        },
        Some(fields) => fields,
    };
    let mut i: usize = 0;
    while i < fields.len()
        invariant
            i <= fields@.len(),
            forall|j: int|
                0 <= j < i ==> (#[trigger] pairs(fields@)[j].0 == "task_id"@ || pairs(fields@)[j].0
                    == "client_id"@),
        decreases fields@.len() - i,
    {
        let key = fields[i].0.as_str();
        if !(same(key, "task_id") || same(key, "client_id")) {
            proof {
                assert(pairs(fields@)[i as int].0 == key@);
            }
            return Err(refuse("invalid_binding", "binding contains an unknown field"));
        }
        i += 1;
    }
    let task_id = match get(fields, "task_id") {
        None => {
            return Err(refuse("invalid_binding", "binding task_id is required"));
        },
        Some(v) => match parse_slug(v, MAX_TASK_ID_CHARS) {
            Err(e) => {
                return Err(e);
            },
            Ok(s) => s,
        },
    };
    let client_id = match get(fields, "client_id") {
        None => {
            return Err(refuse("invalid_binding", "binding client_id is required"));
        },
        Some(v) => match parse_actor_id(v) {
            Err(e) => {
                return Err(e);
            },
            Ok(s) => s,
        },
    };
    Ok(Binding { task_id, client_id })
}

/// A field that need not be there.
pub open spec fn optional<T>(
    field: Option<Node>,
    reading: spec_fn(Node) -> Result<T, Failure>,
) -> Result<Option<T>, Failure> {
    match field {
        None => Ok(None),
        Some(n) => match reading(n) {
            Ok(v) => Ok(Some(v)),
            Err(e) => Err(e),
        },
    }
}

/// The revision that a value gives.
pub open spec fn revision_of(n: Node) -> Result<u64, Failure> {
    match n.unsigned() {
        Some(v) => Ok(v),
        None => Err(
            refused("invalid_revision", "expected_revision must be a non-negative integer"),
        ),
    }
}

/// The fields of a request, each checked by itself, in order.
pub open spec fn request_fields(
    fields: Seq<(Seq<char>, Node)>,
    action: Action,
    policy: Seq<Seq<char>>,
) -> Result<RequestView, Failure> {
    match optional(
        lookup(fields, "task_id"@),
        |n: Node| slug_of(n, MAX_TASK_ID_CHARS as int),
    ) {
        Err(e) => Err(e),
        Ok(task_id) => match optional(
            lookup(fields, "title"@),
            |n: Node| text_of(n, MAX_TITLE_CHARS as int, false),
        ) {
            Err(e) => Err(e),
            Ok(title) => match optional(lookup(fields, "client_id"@), |n: Node| actor_of(n)) {
                Err(e) => Err(e),
                Ok(client_id) => match optional(
                    lookup(fields, "expected_revision"@),
                    |n: Node| revision_of(n),
                ) {
                    Err(e) => Err(e),
                    Ok(expected_revision) => match optional(
                        lookup(fields, "event"@),
                        |n: Node| event_of(n, policy),
                    ) {
                        Err(e) => Err(e),
                        Ok(event) => match optional(
                            lookup(fields, "binding"@),
                            |n: Node| binding_of(n),
                        ) {
                            Err(e) => Err(e),
                            Ok(binding) => Ok(
                                RequestView {
                                    action,
                                    task_id,
                                    title,
                                    expected_revision,
                                    event,
                                    client_id,
                                    binding,
                                },
                            ),
                        },
                    },
                },
            },
        },
    }
}

/// Whether the binding names the same task and client as the request.
pub open spec fn agreement(r: RequestView) -> Result<(), Failure> {
    if r.task_id is Some && r.binding is Some && r.task_id->0 != r.binding->0.task_id {
        Err(refused("invalid_binding", "binding task_id does not match task_id"))
    } else if r.client_id is Some && r.binding is Some && r.client_id->0 != r.binding->0.client_id {
        Err(refused("invalid_binding", "binding client_id does not match client_id"))
    } else {
        Ok(())
    }
}

/// Whether the action takes exactly the fields that the request has.
pub open spec fn admissible(r: RequestView) -> Result<(), Failure> {
    match r.action {
        Action::Status => if r.task_id is Some || r.title is Some || r.expected_revision is Some
            || r.event is Some || r.binding is Some {
            Err(refused("invalid_request", "status accepts only client_id"))
        } else {
            Ok(())
        },
        Action::Read => if r.task_id is None || r.title is Some || r.expected_revision is Some
            || r.event is Some || r.client_id is Some || r.binding is Some {
            Err(refused("invalid_request", "read requires only task_id"))
        } else {
            Ok(())
        },
        Action::Create => if r.task_id is None || r.title is None {
            Err(refused("invalid_request", "create requires task_id and title"))
        } else if r.binding is Some && r.binding->0.task_id != r.task_id->0 {
            Err(refused("invalid_binding", "binding task_id does not match task_id"))
        } else {
            Ok(())
        },
        Action::Append => if r.task_id is None || r.expected_revision is None || r.event is None
            || r.title is Some || r.binding is Some {
            Err(
                refused("invalid_request", "append requires task_id, expected_revision, and event"),
            )
        } else {
            Ok(())
        },
        Action::Bind => if r.task_id is None || (r.client_id is None && r.binding is None)
            || r.title is Some || r.event is Some {
            Err(refused("invalid_request", "bind requires task_id and client_id"))
        } else {
            Ok(())
        },
        Action::Archive => if r.task_id is None || r.expected_revision is None || r.title is Some
            || r.event is Some || r.client_id is Some || r.binding is Some {
            Err(refused("invalid_request", "archive requires only task_id and expected_revision"))
        } else {
            Ok(())
        },
        Action::Disable => if r.task_id is Some || r.title is Some || r.event is Some
            || r.client_id is Some || r.binding is Some {
            Err(refused("invalid_request", "disable accepts only expected_revision"))
        } else {
            Ok(())
        },
    }
}

/// The checked request that a value gives.
pub open spec fn request_of(n: Node, policy: Seq<Seq<char>>) -> Result<RequestView, Failure> {
    match json_text(n) {
        None => Err(refused("invalid_request", "request is not valid JSON")),
        Some(t) => if encode_utf8(t).len() > MAX_REQUEST_BYTES {
            Err(refused("request_too_large", "request exceeds its byte limit"))
        } else {
            match n {
                Node::Record(fields) => if !only_request_keys(fields) {
                    Err(refused("invalid_request", "request contains an unknown field"))
                } else {
                    match lookup(fields, "action"@) {
                        Some(Node::Text(s)) => match action_of(s) {
                            None => Err(refused("invalid_action", "action is not supported")),
                            Some(action) => match request_fields(fields, action, policy) {
                                Err(e) => Err(e),
                                Ok(r) => match agreement(r) {
                                    Err(e) => Err(e),
                                    Ok(_) => match admissible(r) {
                                        Err(e) => Err(e),
                                        Ok(_) => Ok(r),
                                    },
                                },
                            },
                        },
                        _ => Err(refused("invalid_request", "action is required")),
                    }
                },
                _ => Err(refused("invalid_request", "request must be an object")),
            }
        },
    }
}

/// Whether the action takes exactly the fields that the request has.
pub fn validate_action_request(request: &Request) -> (r: Result<(), Failure>)
    ensures
        r == admissible(request@),
{
    let has_task = request.task_id.is_some();
    let has_title = request.title.is_some();
    let has_revision = request.expected_revision.is_some();
    let has_event = request.event.is_some();
    let has_client = request.client_id.is_some();
    let has_binding = request.binding.is_some();
    match request.action {
        Action::Status => if has_task || has_title || has_revision || has_event || has_binding {
            return Err(refuse("invalid_request", "status accepts only client_id"));
        },
        Action::Read => if !has_task || has_title || has_revision || has_event || has_client
            || has_binding {
            return Err(refuse("invalid_request", "read requires only task_id"));
        },
        Action::Create => {
            if !has_task || !has_title {
                return Err(refuse("invalid_request", "create requires task_id and title"));
            }
            match (&request.binding, &request.task_id) {
                (Some(binding), Some(task_id)) => if !same(
                    binding.task_id.as_str(),
                    task_id.as_str(),
                ) {
                    return Err(
                        refuse("invalid_binding", "binding task_id does not match task_id"),
                    );
                },
                _ => {},
            }
        },
        Action::Append => if !has_task || !has_revision || !has_event || has_title || has_binding {
            return Err(
                refuse("invalid_request", "append requires task_id, expected_revision, and event"),
            );
        },
        Action::Bind => if !has_task || (!has_client && !has_binding) || has_title || has_event {
            return Err(refuse("invalid_request", "bind requires task_id and client_id"));
        },
        Action::Archive => if !has_task || !has_revision || has_title || has_event || has_client
            || has_binding {
            return Err(
                refuse("invalid_request", "archive requires only task_id and expected_revision"),
            );
        },
        Action::Disable => if has_task || has_title || has_event || has_client || has_binding {
            return Err(refuse("invalid_request", "disable accepts only expected_revision"));
        },
    }
    Ok(())
}

fn check_agreement(request: &Request) -> (r: Result<(), Failure>)
    ensures
        r == agreement(request@),
{
    match (&request.task_id, &request.binding) {
        (Some(task_id), Some(binding)) => if !same(task_id.as_str(), binding.task_id.as_str()) {
            return Err(refuse("invalid_binding", "binding task_id does not match task_id"));
        },
        _ => {},
    }
    match (&request.client_id, &request.binding) {
        (Some(client_id), Some(binding)) => if !same(
            client_id.as_str(),
            binding.client_id.as_str(),
        ) {
            return Err(refuse("invalid_binding", "binding client_id does not match client_id"));
        },
        _ => {},
    }
    Ok(())
}

fn request_keys_known(fields: &Vec<(String, Json)>) -> (r: bool)
    ensures
        r == only_request_keys(pairs(fields@)),
{
    let mut i: usize = 0;
    while i < fields.len()
        invariant
            i <= fields@.len(),
            forall|j: int| 0 <= j < i ==> is_request_key(#[trigger] pairs(fields@)[j].0),
        decreases fields@.len() - i,
    {
        let key = fields[i].0.as_str();
        if !(same(key, "action") || same(key, "task_id") || same(key, "title") || same(
            key,
            "expected_revision",
        ) || same(key, "event") || same(key, "client_id") || same(key, "binding")) {
            proof {
                assert(!is_request_key(pairs(fields@)[i as int].0));
            }
            return false;
        }
        i += 1;
    }
    true
}

fn parse_request_fields(fields: &Vec<(String, Json)>, action: Action, policy: &PathPolicy) -> (r:
    Result<Request, Failure>)
    ensures
        outcome(r) == request_fields(pairs(fields@), action, policy@),
{
    let task_id = match get(fields, "task_id") {
        None => None,
        Some(v) => match parse_slug(v, MAX_TASK_ID_CHARS) {
            Err(e) => {
                return Err(e);
            },
            Ok(s) => Some(s),
        },
    };
    let title = match get(fields, "title") {
        None => None,
        Some(v) => match parse_text(v, MAX_TITLE_CHARS, false) {
            Err(e) => {
                return Err(e);
            },
            Ok(s) => Some(s),
        },
    };
    let client_id = match get(fields, "client_id") {
        None => None,
        Some(v) => match parse_actor_id(v) {
            Err(e) => {
                return Err(e);
            },
            Ok(s) => Some(s),
        },
    };
    let expected_revision: Option<u64> = match get(fields, "expected_revision") {
        None => None,
        Some(v) => match v.as_u64() {
            None => {
                return Err(
                    refuse(
                        "invalid_revision",
                        "expected_revision must be a non-negative integer",
                    ),
                );
            },
            Some(n) => Some(n),
        },
    };
    let event = match get(fields, "event") {
        None => None,
        Some(v) => match normalize_event(v, policy) {
            Err(e) => {
                return Err(e);
            },
            Ok(e) => Some(e),
        },
    };
    let binding = match get(fields, "binding") {
        None => None,
        Some(v) => match parse_binding(v) {
            Err(e) => {
                return Err(e);
            },
            Ok(b) => Some(b),
        },
    };
    Ok(Request { action, task_id, title, expected_revision, event, client_id, binding })
}

/// The checked request that a value gives.
pub fn parse_request(request: &Json, policy: &PathPolicy) -> (r: Result<Request, Failure>)
    ensures
        outcome(r) == request_of(request@, policy@),
{
    match to_text(request) {
        None => {
            return Err(refuse("invalid_request", "request is not valid JSON"));
        },
        Some(t) => if t.as_str().as_bytes().len() > MAX_REQUEST_BYTES {
            return Err(refuse("request_too_large", "request exceeds its byte limit"));
        },
    }
    let fields = match request.as_object() {
        None => {
            return Err(refuse("invalid_request", "request must be an object"));
        },
        Some(fields) => fields,
    };
    if !request_keys_known(fields) {
        return Err(refuse("invalid_request", "request contains an unknown field"));
    }
    let name = match get(fields, "action") {
        None => {
            return Err(refuse("invalid_request", "action is required"));
        },
        Some(v) => match v.as_str() {
            None => {
                return Err(refuse("invalid_request", "action is required"));
            },
            Some(s) => s,
        },
    };
    let action = match parse_action(name) {
        None => {
            return Err(refuse("invalid_action", "action is not supported"));
        },
        Some(action) => action,
    };
    let parsed = match parse_request_fields(fields, action, policy) {
        Err(e) => {
            return Err(e);
        },
        Ok(parsed) => parsed,
    };
    match check_agreement(&parsed) {
        Err(e) => {
            return Err(e);
        },
        Ok(_) => {},
    }
    match validate_action_request(&parsed) {
        Err(e) => {
            return Err(e);
        },
        Ok(_) => {},
    }
    Ok(parsed)
}

} // verus!
