//! One request to the runner of a project: what is sent, and which replies
//! confirm what was asked.
use vstd::prelude::*;
use vstd::utf8::*;
use crate::codec::{alike, from_bytes, json_reading, json_text, to_text};
use crate::failure::{content};
use crate::json::{Json, Node};
use crate::markdown::{bytes_of};
use crate::text::{chars_of, has_prefix, is_lower, joined, length, lower, owned, strip_prefix};
use crate::tool::{ResolvedProject, ResolvedView};

verus! {

pub const MAX_EXCHANGE_BYTES: usize = 131072;

pub const MAX_RESPONSE_BYTES: usize = 524288;

pub const MAX_ERROR_CODE_CHARS: usize = 64;

/// A file operation for a runner.
#[derive(Debug, PartialEq, Eq)]
pub struct FileOp {
    /// Whether the checkpoint may change.
    pub write: bool,
    pub client_id: String,
    pub cwd: String,
    pub content: String,
    pub agent_project_id: String,
}

pub struct FileOpView {
    pub write: bool,
    pub client_id: Seq<char>,
    pub cwd: Seq<char>,
    pub content: Seq<char>,
    pub agent_project_id: Seq<char>,
}

impl View for FileOp {
    type V = FileOpView;

    open spec fn view(&self) -> FileOpView {
        FileOpView {
            write: self.write,
            client_id: self.client_id@,
            cwd: self.cwd@,
            content: self.content@,
            agent_project_id: self.agent_project_id@,
        }
    }
}

pub open spec fn op_name(write: bool) -> Seq<char> {
    if write {
        "handoff_write"@
    } else {
        "handoff_read"@
    }
}

impl FileOp {
    /// The name of the operation.
    pub fn op(&self) -> (r: &'static str)
        ensures
            r@ == op_name(self.write),
    {
        if self.write {
            "handoff_write"
        } else {
            "handoff_read"
        }
    }
}

/// What precedes the project's own id in its full id.
pub open spec fn id_prefix(client: Seq<char>) -> Seq<char> {
    "agent:"@ + client + ":"@
}

/// The project's own id.
pub open spec fn own_id(full: Seq<char>, client: Seq<char>) -> Option<Seq<char>> {
    let prefix = id_prefix(client);
    if has_prefix(full, prefix) {
        Some(full.skip(prefix.len() as int))
    } else {
        None
    }
}

/// The project's own id.
pub fn project_own_id(full: &str, client: &str) -> (r: Option<String>)
    ensures
        content(r) == own_id(full@, client@),
{
    let prefix = joined(joined("agent:", client).as_str(), ":");
    strip_prefix(full, prefix.as_str())
}

/// What is sent for a request.
pub open spec fn outgoing(p: ResolvedView, write: bool, request: Node) -> Result<
    FileOpView,
    Seq<char>,
> {
    match json_text(request) {
        None => Err("invalid_handoff_request"@),
        Some(text) => if encode_utf8(text).len() > MAX_EXCHANGE_BYTES {
            Err("handoff_request_too_large"@)
        } else {
            match own_id(p.resolved_id, p.client_id) {
                Some(id) => if id.len() > 0 {
                    Ok(
                        FileOpView {
                            write,
                            client_id: p.client_id,
                            cwd: p.path,
                            content: text,
                            agent_project_id: id,
                        },
                    )
                } else {
                    Err("handoff_invalid_project_identity"@)
                },
                None => Err("handoff_invalid_project_identity"@),
            }
        },
    }
}

/// What is sent for a request.
pub fn prepare_exchange(project: &ResolvedProject, write: bool, request: &Json) -> (r: Result<
    FileOp,
    &'static str,
>)
    ensures
        match r {
            Ok(op) => outgoing(project@, write, request@) == Ok::<_, Seq<char>>(op@),
            Err(code) => outgoing(project@, write, request@) == Err::<FileOpView, _>(code@),
        },
{
    let text = match to_text(request) {
        None => {
            return Err("invalid_handoff_request");
        },
        Some(text) => text,
    };
    if bytes_of(text.as_str()).len() > MAX_EXCHANGE_BYTES {
        return Err("handoff_request_too_large");
    }
    match project_own_id(project.resolved_id.as_str(), project.client_id.as_str()) {
        Some(id) => if length(id.as_str()) > 0 {
            Ok(
                FileOp {
                    write,
                    client_id: project.client_id.clone(),
                    cwd: project.path.clone(),
                    content: text,
                    agent_project_id: id,
                },
            )
        } else {
            Err("handoff_invalid_project_identity")
        },
        None => Err("handoff_invalid_project_identity"),
    }
}

/// What a missing reply means. It never proves that a write did not land.
pub open spec fn silence(write: bool) -> Seq<char> {
    if write {
        "handoff_save_unknown"@
    } else {
        "handoff_unavailable"@
    }
}

pub fn no_reply(write: bool) -> (r: &'static str)
    ensures
        r@ == silence(write),
{
    if write {
        "handoff_save_unknown"
    } else {
        "handoff_unavailable"
    }
}

/// The reply of a runner.
#[derive(Debug, PartialEq, Eq)]
pub struct Response {
    pub exit_code: Option<i64>,
    pub stdout: Option<String>,
    pub error: Option<String>,
}

pub struct ResponseView {
    pub exit_code: Option<i64>,
    pub stdout: Option<Seq<char>>,
    pub error: Option<Seq<char>>,
}

impl View for Response {
    type V = ResponseView;

    open spec fn view(&self) -> ResponseView {
        ResponseView {
            exit_code: self.exit_code,
            stdout: content(self.stdout),
            error: content(self.error),
        }
    }
}

/// What a reply that confirms nothing means.
pub open spec fn unconfirmed(write: bool) -> Seq<char> {
    if write {
        "handoff_save_unknown"@
    } else {
        "handoff_invalid_response"@
    }
}

/// Whether a code may cross the boundary: a short stable name, never raw
/// output.
pub open spec fn is_stable_code(s: Seq<char>) -> bool {
    0 < s.len() <= MAX_ERROR_CODE_CHARS && forall|i: int|
        0 <= i < s.len() ==> is_lower(#[trigger] s[i]) || s[i] == '_'
}

/// What a failed request is reported as.
pub open spec fn failed_code(write: bool, value: Node) -> Seq<char> {
    if write && value.at("error"@).at("state_changed"@) != Node::Bool(false) {
        "handoff_save_unknown"@
    } else {
        match value.at("error"@).at("code"@) {
            Node::Text(code) => if is_stable_code(code) {
                code
            } else {
                "handoff_save_failed"@
            },
            _ => "handoff_save_failed"@,
        }
    }
}

/// Whether the value is a revision.
pub open spec fn is_revision(n: Node) -> bool {
    n.unsigned() matches Some(r) && r > 0
}

/// Whether the output answers a read.
pub open spec fn answers_read(request: Node, output: Node) -> bool {
    let task = request.at("task_id"@);
    match output.at("enabled"@) {
        Node::Bool(false) => output.at("status"@) == Node::Text("disabled"@),
        Node::Bool(true) => {
            ||| request.at("action"@) == Node::Text("status"@) && output.at("status"@)
                == Node::Text("enabled"@) && output.at("tasks"@) is List
            ||| request.at("action"@) == Node::Text("read"@) && output.at("status"@) == Node::Text(
                "ready"@,
            ) && alike(output.at("task_id"@), task) && alike(
                output.at("checkpoint"@).at("task_id"@),
                task,
            ) && is_revision(output.at("revision"@))
        },
        _ => false,
    }
}

/// Whether the output acknowledges exactly the event that was sent.
pub open spec fn acknowledges(request: Node, output: Node) -> bool {
    &&& alike(output.at("task_id"@), request.at("task_id"@))
    &&& alike(output.at("event_id"@), request.at("event"@).at("event_id"@))
    &&& output.at("status"@) == Node::Text("saved"@) || output.at("status"@) == Node::Text(
        "duplicate"@,
    )
    &&& is_revision(output.at("revision"@))
}

/// Whether the output confirms a write.
pub open spec fn confirms_write(request: Node, output: Node) -> bool {
    let task = request.at("task_id"@);
    let action = request.at("action"@);
    if action == Node::Text("append"@) {
        true
    } else if action == Node::Text("create"@) {
        output.at("status"@) == Node::Text("saved"@) && alike(output.at("task_id"@), task)
            && is_revision(output.at("revision"@))
    } else if action == Node::Text("bind"@) {
        output.at("status"@) == Node::Text("bound"@) && alike(output.at("task_id"@), task) && alike(
            output.at("bound_task_id"@),
            task,
        ) && alike(output.at("client_id"@), request.at("client_id"@))
    } else if action == Node::Text("archive"@) {
        output.at("status"@) == Node::Text("archived"@) && alike(output.at("task_id"@), task)
            && alike(output.at("revision"@), request.at("expected_revision"@))
    } else if action == Node::Text("disable"@) {
        output.at("status"@) == Node::Text("disabled"@) && output.at("enabled"@) == Node::Bool(
            false,
        )
    } else {
        false
    }
}

/// What a reply to a request means.
pub open spec fn incoming(write: bool, request: Node, response: ResponseView) -> Result<
    Node,
    Seq<char>,
> {
    match response.stdout {
        None => Err(unconfirmed(write)),
        Some(text) => if encode_utf8(text).len() > MAX_RESPONSE_BYTES {
            Err(unconfirmed(write))
        } else {
            match json_reading(encode_utf8(text)) {
                None => Err(unconfirmed(write)),
                Some(value) => if response.exit_code != Some(0i64) || response.error is Some
                    || value.at("success"@) != Node::Bool(true) {
                    Err(failed_code(write, value))
                } else {
                    let output = value.at("output"@);
                    if !(output is Record) {
                        Err(unconfirmed(write))
                    } else if !write && !answers_read(request, output) {
                        Err(unconfirmed(write))
                    } else if request.at("action"@) == Node::Text("append"@) && !acknowledges(
                        request,
                        output,
                    ) {
                        Err(unconfirmed(write))
                    } else if write && !confirms_write(request, output) {
                        Err(unconfirmed(write))
                    } else {
                        Ok(output)
                    }
                },
            }
        },
    }
}

fn not_confirmed(write: bool) -> (r: &'static str)
    ensures
        r@ == unconfirmed(write),
{
    if write {
        "handoff_save_unknown"
    } else {
        "handoff_invalid_response"
    }
}

#[verifier::loop_isolation(false)]
fn stable_code(code: &str) -> (r: bool)
    ensures
        r == is_stable_code(code@),
{
    let chars = chars_of(code);
    if chars.len() == 0 || chars.len() > MAX_ERROR_CODE_CHARS {
        return false;
    }
    let mut i: usize = 0;
    while i < chars.len()
        invariant
            i <= chars@.len(),
            forall|j: int| 0 <= j < i ==> is_lower(#[trigger] code@[j]) || code@[j] == '_',
        decreases chars@.len() - i,
    {
        if !(lower(chars[i]) || chars[i] == '_') {
            proof {
                assert(code@[i as int] == chars@[i as int]);
            }
            return false;
        }
        i += 1;
    }
    true
}

fn failure_code(write: bool, value: &Json) -> (r: String)
    ensures
        r@ == failed_code(write, value@),
{
    let error = value.copy_at("error");
    if write && !error.has_bool("state_changed", false) {
        return owned("handoff_save_unknown");
    }
    match error.text_at("code") {
        Some(code) => if stable_code(code) {
            owned(code)
        } else {
            owned("handoff_save_failed")
        },
        None => owned("handoff_save_failed"),
    }
}

fn revision_given(value: &Json) -> (r: bool)
    ensures
        r == is_revision(value@.at("revision"@)),
{
    match value.get("revision") {
        Some(v) => match v.as_u64() {
            Some(n) => n > 0,
            None => false,
        },
        None => false,
    }
}

/// Whether a member of one value is equal to a member of another.
fn same_member(a: &Json, k: &str, b: &Json, l: &str) -> (r: bool)
    ensures
        r == alike(a@.at(k@), b@.at(l@)),
{
    a.copy_at(k).equals(&b.copy_at(l))
}

fn read_is_answered(request: &Json, output: &Json) -> (r: bool)
    ensures
        r == answers_read(request@, output@),
{
    if output.has_bool("enabled", false) {
        return output.has_text("status", "disabled");
    }
    if !output.has_bool("enabled", true) {
        return false;
    }
    let listed = match output.get("tasks") {
        Some(t) => t.as_array().is_some(),
        None => false,
    };
    if request.has_text("action", "status") && output.has_text("status", "enabled") && listed {
        return true;
    }
    request.has_text("action", "read") && output.has_text("status", "ready") && same_member(
        output,
        "task_id",
        request,
        "task_id",
    ) && same_member(&output.copy_at("checkpoint"), "task_id", request, "task_id")
        && revision_given(output)
}

fn event_is_acknowledged(request: &Json, output: &Json) -> (r: bool)
    ensures
        r == acknowledges(request@, output@),
{
    same_member(output, "task_id", request, "task_id") && same_member(
        output,
        "event_id",
        &request.copy_at("event"),
        "event_id",
    ) && (output.has_text("status", "saved") || output.has_text("status", "duplicate"))
        && revision_given(output)
}

fn write_is_confirmed(request: &Json, output: &Json) -> (r: bool)
    ensures
        r == confirms_write(request@, output@),
{
    proof {
        reveal_strlit("append");
        reveal_strlit("create");
        reveal_strlit("bind");
        reveal_strlit("archive");
        reveal_strlit("disable");
    }
    if request.has_text("action", "append") {
        true
    } else if request.has_text("action", "create") {
        output.has_text("status", "saved") && same_member(output, "task_id", request, "task_id")
            && revision_given(output)
    } else if request.has_text("action", "bind") {
        output.has_text("status", "bound") && same_member(output, "task_id", request, "task_id")
            && same_member(output, "bound_task_id", request, "task_id") && same_member(
            output,
            "client_id",
            request,
            "client_id",
        )
    } else if request.has_text("action", "archive") {
        output.has_text("status", "archived") && same_member(output, "task_id", request, "task_id")
            && same_member(output, "revision", request, "expected_revision")
    } else if request.has_text("action", "disable") {
        output.has_text("status", "disabled") && output.has_bool("enabled", false)
    } else {
        false
    }
}

/// What a reply to a request means: the output that answers it, or a code. A
/// generic success never justifies dropping an event that waits.
pub fn read_response(write: bool, request: &Json, response: &Response) -> (r: Result<Json, String>)
    ensures
        match r {
            Ok(output) => incoming(write, request@, response@) == Ok::<_, Seq<char>>(output@)
                && output@ is Record,
            Err(code) => incoming(write, request@, response@) == Err::<Node, _>(code@),
        },
{
    let text = match &response.stdout {
        None => {
            return Err(owned(not_confirmed(write)));
        },
        Some(text) => text.as_str(),
    };
    let bytes = bytes_of(text);
    if bytes.len() > MAX_RESPONSE_BYTES {
        return Err(owned(not_confirmed(write)));
    }
    let value = match from_bytes(bytes.as_slice()) {
        None => {
            return Err(owned(not_confirmed(write)));
        },
        Some(value) => value,
    };
    let ended = match response.exit_code {
        Some(code) => code == 0,
        None => false,
    };
    if !ended || response.error.is_some() || !value.has_bool("success", true) {
        return Err(failure_code(write, &value));
    }
    let output = value.copy_at("output");
    if output.as_object().is_none() {
        return Err(owned(not_confirmed(write)));
    }
    if !write && !read_is_answered(request, &output) {
        return Err(owned(not_confirmed(write)));
    }
    if request.has_text("action", "append") && !event_is_acknowledged(request, &output) {
        return Err(owned(not_confirmed(write)));
    }
    if write && !write_is_confirmed(request, &output) {
        return Err(owned(not_confirmed(write)));
    }
    Ok(output)
}

/// An accepted append names exactly the task and the event that were sent.
pub proof fn law_accepted_append_is_acknowledged(
    write: bool,
    request: Node,
    response: ResponseView,
)
    requires
        request.at("action"@) == Node::Text("append"@),
        incoming(write, request, response) is Ok,
    ensures
        acknowledges(request, incoming(write, request, response)->Ok_0),
{
}

/// A write whose reply confirms nothing and does not say that nothing changed
/// is unknown, never failed.
pub proof fn law_unconfirmed_write_is_unknown(request: Node, response: ResponseView)
    requires
        incoming(true, request, response) is Err,
        response.stdout matches Some(text) ==> (json_reading(encode_utf8(text)) matches Some(value)
            ==> value.at("error"@).at("state_changed"@) != Node::Bool(false)),
    ensures
        incoming(true, request, response)->Err_0 == "handoff_save_unknown"@,
{
}

} // verus!
