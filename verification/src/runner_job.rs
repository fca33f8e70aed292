//! Facts about the runner's own jobs: they reach the local checkpoint without a
//! later model call or a live server. Only an explicit local selection and an
//! existing writable registration allow this.
use vstd::prelude::*;
use vstd::utf8::*;
use crate::digest::{digest_of, fingerprint};
use crate::exchange::{own_id, project_own_id};
use crate::failure::{Failure, content, outcome};
use crate::json::{Json, Node, entries, object, record, signed_json, signed_node, text_json};
use crate::markdown::{bytes_of};
use crate::server::{append_request, ask_append, ask_read, ask_status, read_request, status_request};
use crate::text::{
    alphanumeric, chars_of, decimal, is_alphanumeric, joined, owned, same, to_decimal,
};
use crate::tool::{checkpoint_fingerprint, fingerprint_in, with_member};

verus! {

pub const MAX_PROJECT_ID_CHARS: usize = 250;

pub const MAX_REGISTRATION_BYTES: usize = 65536;

/// Where a job runs.
#[derive(Debug)]
pub struct JobContext {
    pub session_id: Option<String>,
    pub project_id: Option<String>,
    pub project_cwd: Option<String>,
    /// Whether the job runs on another machine.
    pub remote: bool,
}

pub struct ContextView {
    pub session_id: Option<Seq<char>>,
    pub project_id: Option<Seq<char>>,
    pub project_cwd: Option<Seq<char>>,
    pub remote: bool,
}

impl View for JobContext {
    type V = ContextView;

    open spec fn view(&self) -> ContextView {
        ContextView {
            session_id: content(self.session_id),
            project_id: content(self.project_id),
            project_cwd: content(self.project_cwd),
            remote: self.remote,
        }
    }
}

/// A job as it was updated.
#[derive(Debug)]
pub struct JobSnapshot {
    pub context: JobContext,
    pub job_id: String,
    pub update_seq: u64,
    pub status: String,
    /// Whether the status is one that a job ends with.
    pub terminal: bool,
    pub exit_code: Option<i64>,
}

pub struct SnapshotView {
    pub context: ContextView,
    pub job_id: Seq<char>,
    pub update_seq: u64,
    pub status: Seq<char>,
    pub terminal: bool,
    pub exit_code: Option<i64>,
}

impl View for JobSnapshot {
    type V = SnapshotView;

    open spec fn view(&self) -> SnapshotView {
        SnapshotView {
            context: self.context@,
            job_id: self.job_id@,
            update_seq: self.update_seq,
            status: self.status@,
            terminal: self.terminal,
            exit_code: self.exit_code,
        }
    }
}

/// A project as the runner has it registered.
#[derive(Debug)]
pub struct Registration {
    pub id: String,
    pub path: String,
    pub allow_patch: bool,
    pub disabled: bool,
}

pub struct RegistrationView {
    pub id: Seq<char>,
    pub path: Seq<char>,
    pub allow_patch: bool,
    pub disabled: bool,
}

impl View for Registration {
    type V = RegistrationView;

    open spec fn view(&self) -> RegistrationView {
        RegistrationView {
            id: self.id@,
            path: self.path@,
            allow_patch: self.allow_patch,
            disabled: self.disabled,
        }
    }
}

/// The task that the facts of a job go to.
#[derive(Debug)]
pub struct HandoffTarget {
    pub root: String,
    pub task_id: String,
    pub root_fingerprint: String,
}

pub struct JobTargetView {
    pub root: Seq<char>,
    pub task_id: Seq<char>,
    pub root_fingerprint: Seq<char>,
}

impl View for HandoffTarget {
    type V = JobTargetView;

    open spec fn view(&self) -> JobTargetView {
        JobTargetView {
            root: self.root@,
            task_id: self.task_id@,
            root_fingerprint: self.root_fingerprint@,
        }
    }
}

// ---------------------------------------------------------------------------
// The registered root.
// ---------------------------------------------------------------------------

/// Whether an id can name a registration.
pub open spec fn is_project_id(s: Seq<char>) -> bool {
    &&& 0 < s.len() <= MAX_PROJECT_ID_CHARS
    &&& s != "."@
    &&& s != ".."@
    &&& forall|i: int|
        0 <= i < s.len() ==> is_alphanumeric(#[trigger] s[i]) || s[i] == '_' || s[i] == '-' || s[i]
            == '.'
}

/// The id under which the project of a job is registered.
pub open spec fn registered_id(client: Seq<char>, c: ContextView) -> Option<Seq<char>> {
    if c.remote {
        None
    } else {
        match c.project_id {
            None => None,
            Some(full) => match own_id(full, client) {
                Some(id) => if is_project_id(id) {
                    Some(id)
                } else {
                    None
                },
                None => None,
            },
        }
    }
}

#[verifier::loop_isolation(false)]
fn names_project(id: &str) -> (r: bool)
    ensures
        r == is_project_id(id@),
{
    let chars = chars_of(id);
    if chars.len() == 0 || chars.len() > MAX_PROJECT_ID_CHARS || same(id, ".") || same(id, "..") {
        return false;
    }
    let mut i: usize = 0;
    while i < chars.len()
        invariant
            i <= chars@.len(),
            forall|j: int|
                0 <= j < i ==> is_alphanumeric(#[trigger] id@[j]) || id@[j] == '_' || id@[j] == '-'
                    || id@[j] == '.',
        decreases chars@.len() - i,
    {
        let c = chars[i];
        if !(alphanumeric(c) || c == '_' || c == '-' || c == '.') {
            proof {
                assert(id@[i as int] == c);
            }
            return false;
        }
        i += 1;
    }
    true
}

/// The id under which the project of a job is registered.
pub fn registration_id(client: &str, context: &JobContext) -> (r: Option<String>)
    ensures
        content(r) == registered_id(client@, context@),
{
    if context.remote {
        return None;
    }
    match &context.project_id {
        None => None,
        Some(full) => match project_own_id(full.as_str(), client) {
            Some(id) => if names_project(id.as_str()) {
                Some(id)
            } else {
                None
            },
            None => None,
        },
    }
}

/// The root of a job's project: a writable registration under exactly its id,
/// and a working directory that is that root. A "." stands for the root.
/// `absolute` and `at_root` are what the platform says of the registered path:
/// that it is absolute, and that the working directory names the same path.
pub open spec fn root_of(
    id: Seq<char>,
    g: RegistrationView,
    c: ContextView,
    absolute: bool,
    at_root: bool,
) -> Option<Seq<char>> {
    if g.id != id || !g.allow_patch || g.disabled || !absolute {
        None
    } else {
        match c.project_cwd {
            Some(cwd) => if cwd == "."@ || at_root {
                Some(g.path)
            } else {
                None
            },
            None => None,
        }
    }
}

/// The root of a job's project. `absolute` and `at_root` are what the platform
/// says of the registered path: that it is absolute, and that the working
/// directory names the same path.
pub fn registered_root(
    id: &str,
    registration: &Registration,
    context: &JobContext,
    absolute: bool,
    at_root: bool,
) -> (r: Option<String>)
    ensures
        content(r) == root_of(id@, registration@, context@, absolute, at_root),
{
    if !same(registration.id.as_str(), id) || !registration.allow_patch || registration.disabled
        || !absolute {
        return None;
    }
    match &context.project_cwd {
        Some(cwd) => if same(cwd.as_str(), ".") || at_root {
            Some(registration.path.clone())
        } else {
            None
        },
        None => None,
    }
}

// ---------------------------------------------------------------------------
// Choosing the target when a job starts.
// ---------------------------------------------------------------------------

/// What a job that starts has to ask first, where its root is one of the allowed
/// ones.
pub open spec fn first_request(allowed: bool, c: ContextView) -> Option<Node> {
    if allowed {
        selection_request(c)
    } else {
        None
    }
}

/// What a job that starts has to ask first.
pub fn ask_first(allowed: bool, context: &JobContext) -> (r: Option<Json>)
    ensures
        content(r) == first_request(allowed, context@),
{
    if allowed {
        ask_selection(context)
    } else {
        None
    }
}

/// What is asked of a session: its selection.
pub open spec fn selection_request(c: ContextView) -> Option<Node> {
    match c.session_id {
        Some(s) => Some(status_request(Some(s))),
        None => None,
    }
}

pub fn ask_selection(context: &JobContext) -> (r: Option<Json>)
    ensures
        content(r) == selection_request(context@),
{
    match &context.session_id {
        Some(s) => Some(ask_status(Some(s.as_str()))),
        None => None,
    }
}

/// The task that the status selects.
pub open spec fn selected_task(state: Result<Node, Failure>) -> Option<Seq<char>> {
    match state {
        Ok(n) => if n.at("enabled"@) == Node::Bool(true) {
            n.at("bound_task_id"@).text()
        } else {
            None
        },
        Err(_) => None,
    }
}

/// The task that the status selects.
pub fn bound_task(state: &Result<Json, Failure>) -> (r: Option<String>)
    ensures
        content(r) == selected_task(outcome(*state)),
{
    match state {
        Ok(value) => if value.has_bool("enabled", true) {
            match value.text_at("bound_task_id") {
                Some(t) => Some(owned(t)),
                None => None,
            }
        } else {
            None
        },
        Err(_) => None,
    }
}

/// The target with the identity that the checkpoint has now; none where the
/// root is not one of the allowed ones.
pub open spec fn pinned(
    root: Seq<char>,
    allowed: bool,
    task: Seq<char>,
    current: Result<Node, Failure>,
) -> Option<JobTargetView> {
    if !allowed {
        None
    } else {
        match current {
            Ok(n) => match fingerprint_in(n) {
                Some(root_fingerprint) => Some(
                    JobTargetView { root, task_id: task, root_fingerprint },
                ),
                None => None,
            },
            Err(_) => None,
        }
    }
}

/// The target with the identity that the checkpoint has now; none where the
/// root is not one of the allowed ones.
pub fn prepare(
    root: &str,
    allowed: bool,
    task_id: &str,
    current: &Result<Json, Failure>,
) -> (r: Option<HandoffTarget>)
    ensures
        content(r) == pinned(root@, allowed, task_id@, outcome(*current)),
{
    if !allowed {
        return None;
    }
    match current {
        Ok(value) => match checkpoint_fingerprint(value) {
            Some(f) => Some(
                HandoffTarget {
                    root: owned(root),
                    task_id: owned(task_id),
                    root_fingerprint: owned(f),
                },
            ),
            None => None,
        },
        Err(_) => None,
    }
}

// ---------------------------------------------------------------------------
// Recording an update.
// ---------------------------------------------------------------------------

/// The event id of an update of a job.
pub open spec fn update_id(job: Seq<char>, seq: u64) -> Seq<char> {
    "runner-job-"@ + digest_of(encode_utf8(job + ":"@ + decimal(seq as nat)))
}

/// The fact of an update of a job.
pub open spec fn update_node(s: SnapshotView) -> Node {
    let base = record(
        seq![
            ("event_id"@, Node::Text(update_id(s.job_id, s.update_seq))),
            (
                "type"@,
                Node::Text(
                    if s.terminal {
                        "job_terminal"@
                    } else {
                        "job_started"@
                    },
                ),
            ),
            ("source"@, Node::Text("runner"@)),
            ("job_id"@, Node::Text(s.job_id)),
            ("status"@, Node::Text(s.status)),
            ("job_update_seq"@, Node::Unsigned(s.update_seq)),
        ],
    );
    match s.exit_code {
        Some(code) => with_member(base, "exit_code"@, signed_node(code)),
        None => base,
    }
}

/// The fact of an update of a job: never its command.
pub fn update_event(snapshot: &JobSnapshot) -> (r: Json)
    ensures
        r@ == update_node(snapshot@),
{
    let named = joined(
        joined(snapshot.job_id.as_str(), ":").as_str(),
        to_decimal(snapshot.update_seq).as_str(),
    );
    let id = joined("runner-job-", fingerprint(bytes_of(named.as_str()).as_slice()).as_str());
    let kind = if snapshot.terminal {
        "job_terminal"
    } else {
        "job_started"
    };
    let members = vec![
        ("event_id", text_json(id.as_str())),
        ("type", text_json(kind)),
        ("source", text_json("runner")),
        ("job_id", text_json(snapshot.job_id.as_str())),
        ("status", text_json(snapshot.status.as_str())),
        ("job_update_seq", Json::Unsigned(snapshot.update_seq)),
    ];
    proof {
        assert(entries(members@) =~= seq![
            ("event_id"@, Node::Text(update_id(snapshot@.job_id, snapshot@.update_seq))),
            (
                "type"@,
                Node::Text(
                    if snapshot@.terminal {
                        "job_terminal"@
                    } else {
                        "job_started"@
                    },
                ),
            ),
            ("source"@, Node::Text("runner"@)),
            ("job_id"@, Node::Text(snapshot@.job_id)),
            ("status"@, Node::Text(snapshot@.status)),
            ("job_update_seq"@, Node::Unsigned(snapshot@.update_seq)),
        ]);
    }
    let mut event = object(members);
    match snapshot.exit_code {
        Some(code) => event.set_member("exit_code", signed_json(code)),
        None => {},
    }
    event
}

/// Where the recording of an update stands: what it waits for.
#[derive(Debug)]
pub enum Recording {
    /// The selection of the session.
    Selecting { target: HandoffTarget, event: Json },
    /// The current checkpoint.
    Reading { target: HandoffTarget, event: Json, retry: bool },
    /// The answer to the append.
    Appending { target: HandoffTarget, event: Json, retry: bool },
    /// Nothing more.
    Finished,
}

pub enum RecordingView {
    Selecting { target: JobTargetView, event: Node },
    Reading { target: JobTargetView, event: Node, retry: bool },
    Appending { target: JobTargetView, event: Node, retry: bool },
    Finished,
}

impl View for Recording {
    type V = RecordingView;

    open spec fn view(&self) -> RecordingView {
        match self {
            Recording::Selecting { target, event } => RecordingView::Selecting {
                target: target@,
                event: event@,
            },
            Recording::Reading { target, event, retry } => RecordingView::Reading {
                target: target@,
                event: event@,
                retry: *retry,
            },
            Recording::Appending { target, event, retry } => RecordingView::Appending {
                target: target@,
                event: event@,
                retry: *retry,
            },
            Recording::Finished => RecordingView::Finished,
        }
    }
}

/// What has to be done next: ask the local checkpoint, or stop, with the update
/// saved or not.
#[derive(Debug)]
pub enum RecordStep {
    Ask(Json),
    Done(bool),
}

pub enum RecordStepView {
    Ask(Node),
    Done(bool),
}

impl View for RecordStep {
    type V = RecordStepView;

    open spec fn view(&self) -> RecordStepView {
        match self {
            RecordStep::Ask(request) => RecordStepView::Ask(request@),
            RecordStep::Done(saved) => RecordStepView::Done(*saved),
        }
    }
}

pub open spec fn stopped(saved: bool) -> (RecordingView, RecordStepView) {
    (RecordingView::Finished, RecordStepView::Done(saved))
}

/// The recording of an update at its start: the registration must still give a
/// root, and the platform says whether it is the path of the target.
pub open spec fn recording_started(
    target: JobTargetView,
    root: Option<Seq<char>>,
    at_target: bool,
    s: SnapshotView,
) -> (RecordingView, RecordStepView) {
    if root is None || !at_target {
        stopped(false)
    } else {
        match s.context.session_id {
            None => stopped(false),
            Some(session) => (
                RecordingView::Selecting { target, event: update_node(s) },
                RecordStepView::Ask(status_request(Some(session))),
            ),
        }
    }
}

fn stop(saved: bool) -> (r: (Recording, RecordStep))
    ensures
        (r.0@, r.1@) == stopped(saved),
{
    (Recording::Finished, RecordStep::Done(saved))
}

/// The recording of an update at its start: the registration must still give a
/// root, and the platform says whether it is the path of the target.
pub fn start_record(
    target: HandoffTarget,
    root: &Option<String>,
    at_target: bool,
    snapshot: &JobSnapshot,
) -> (r: (Recording, RecordStep))
    ensures
        (r.0@, r.1@) == recording_started(target@, content(*root), at_target, snapshot@),
{
    if root.is_none() || !at_target {
        return stop(false);
    }
    match ask_selection(&snapshot.context) {
        None => stop(false),
        Some(request) => {
            let event = update_event(snapshot);
            (Recording::Selecting { target, event }, RecordStep::Ask(request))
        },
    }
}

/// One step of the recording. A revision that changed is tried once more with
/// the same event; every other failure ends it.
pub open spec fn recorded_step(state: RecordingView, reply: Result<Node, Failure>) -> (
    RecordingView,
    RecordStepView,
) {
    match state {
        RecordingView::Selecting { target, event } => match reply {
            Err(_) => stopped(false),
            Ok(n) => if n.at("enabled"@) != Node::Bool(true) || n.at("bound_task_id"@)
                != Node::Text(target.task_id) {
                stopped(false)
            } else {
                (
                    RecordingView::Reading { target, event, retry: true },
                    RecordStepView::Ask(read_request(target.task_id)),
                )
            },
        },
        RecordingView::Reading { target, event, retry } => match reply {
            Err(_) => stopped(false),
            Ok(n) => if fingerprint_in(n) != Some(target.root_fingerprint) {
                stopped(false)
            } else {
                match n.at("revision"@).unsigned() {
                    None => stopped(false),
                    Some(revision) => (
                        RecordingView::Appending { target, event, retry },
                        RecordStepView::Ask(append_request(target.task_id, revision, event)),
                    ),
                }
            },
        },
        RecordingView::Appending { target, event, retry } => match reply {
            Ok(_) => stopped(true),
            Err(f) => if retry && f.code@ == "revision_conflict"@ {
                (
                    RecordingView::Reading { target, event, retry: false },
                    RecordStepView::Ask(read_request(target.task_id)),
                )
            } else {
                stopped(false)
            },
        },
        RecordingView::Finished => stopped(false),
    }
}

/// One step of the recording.
pub fn record_update(state: Recording, reply: Result<Json, Failure>) -> (r: (Recording, RecordStep))
    ensures
        (r.0@, r.1@) == recorded_step(state@, outcome(reply)),
{
    match state {
        Recording::Selecting { target, event } => match reply {
            Err(_) => stop(false),
            Ok(value) => {
                if !value.has_bool("enabled", true) || !value.has_text(
                    "bound_task_id",
                    target.task_id.as_str(),
                ) {
                    return stop(false);
                }
                let request = ask_read(target.task_id.as_str());
                (Recording::Reading { target, event, retry: true }, RecordStep::Ask(request))
            },
        },
        Recording::Reading { target, event, retry } => match reply {
            Err(_) => stop(false),
            Ok(value) => {
                let here = match checkpoint_fingerprint(&value) {
                    Some(f) => same(f, target.root_fingerprint.as_str()),
                    None => false,
                };
                if !here {
                    return stop(false);
                }
                let revision = match value.get("revision") {
                    Some(v) => v.as_u64(),
                    None => None,
                };
                match revision {
                    None => stop(false),
                    Some(n) => {
                        let request = ask_append(target.task_id.as_str(), n, event.copy());
                        (Recording::Appending { target, event, retry }, RecordStep::Ask(request))
                    },
                }
            },
        },
        Recording::Appending { target, event, retry } => match reply {
            Ok(_) => stop(true),
            Err(f) => {
                if retry && same(f.code, "revision_conflict") {
                    let request = ask_read(target.task_id.as_str());
                    return (
                        Recording::Reading { target, event, retry: false },
                        RecordStep::Ask(request),
                    );
                }
                stop(false)
            },
        },
        Recording::Finished => stop(false),
    }
}

/// A job that runs cannot be retargeted: once the session selects another task,
/// nothing is appended.
pub proof fn law_rebinding_does_not_retarget(
    target: JobTargetView,
    event: Node,
    state: Node,
)
    requires
        state.at("bound_task_id"@) != Node::Text(target.task_id),
    ensures
        recorded_step(RecordingView::Selecting { target, event }, Ok(state)) == stopped(false),
{
}

/// Every request that may write goes to the task of the target, and only after
/// its checkpoint showed the identity that was pinned.
pub proof fn law_facts_go_to_the_pinned_task(
    state: RecordingView,
    reply: Result<Node, Failure>,
)
    ensures
        recorded_step(state, reply).0 is Appending ==> (state matches RecordingView::Reading {
            target,
            event,
            retry,
        } && reply matches Ok(n) && fingerprint_in(n) == Some(target.root_fingerprint)
            && recorded_step(state, reply).1 == RecordStepView::Ask(
            append_request(target.task_id, n.at("revision"@).unsigned()->0, event),
        )),
{
}

/// A registration that was revoked, disabled or moved ends the recording before
/// anything is asked.
pub proof fn law_revoked_registration_records_nothing(
    target: JobTargetView,
    id: Seq<char>,
    g: RegistrationView,
    s: SnapshotView,
    absolute: bool,
    at_root: bool,
    at_target: bool,
)
    requires
        g.id != id || !g.allow_patch || g.disabled || !at_target,
    ensures
        recording_started(
            target,
            root_of(id, g, s.context, absolute, at_root),
            at_target,
            s,
        ) == stopped(false),
{
}

} // verus!
