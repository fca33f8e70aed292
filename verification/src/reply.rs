//! What a checkpoint request is answered.
use vstd::prelude::*;
use crate::checks::{
    MAX_ARCHIVE_COUNT, MAX_HISTORY_COUNT, MAX_RETIRED_BYTES, MAX_RETIRED_TASK_COUNT,
    MAX_TASK_BYTES, MAX_TASK_COUNT, MAX_TOTAL_BYTES,
};
use crate::codec::{arrange, arranged};
use crate::failure::{content, views};
use crate::jobs::{job_nodes, job_projection, jobs_json, jobs_of};
use crate::json::{Json, Node, entries, lemma_array_view, nodes, text_json};
use crate::markdown::{MAX_EVENT_COUNT, MarkdownState, history_json, history_nodes, state_name};
use crate::records::{
    IdentityView, ProjectIdentity, SummaryView, TaskFile, TaskSummary, TaskView, identity_node,
    in_order, summaries_json, summary_nodes, task_node,
};
use crate::writing::{archived, archived_count, disk_view, task_disk_view, whole};

verus! {

/// What is known of the whole checkpoint.
#[derive(Debug)]
pub struct Overview {
    pub revision: u64,
    pub tasks: Vec<TaskSummary>,
    pub archived: Vec<TaskSummary>,
    pub used_bytes: u64,
    /// For a client: the active task that it selected.
    pub bound: Option<Option<String>>,
    /// Whether the index lags behind a task file.
    pub stale: bool,
}

pub struct OverviewView {
    pub revision: u64,
    pub tasks: Seq<SummaryView>,
    pub archived: Seq<SummaryView>,
    pub used_bytes: u64,
    pub bound: Option<Option<Seq<char>>>,
    pub stale: bool,
}

impl View for Overview {
    type V = OverviewView;

    open spec fn view(&self) -> OverviewView {
        OverviewView {
            revision: self.revision,
            tasks: views(self.tasks@),
            archived: views(self.archived@),
            used_bytes: self.used_bytes,
            bound: match self.bound {
                Some(o) => Some(content(o)),
                None => None,
            },
            stale: self.stale,
        }
    }
}

/// One task with its whole history.
#[derive(Debug)]
pub struct Checkpoint {
    pub archived: bool,
    pub task: TaskFile,
    pub stale: bool,
}

pub struct CheckpointView {
    pub archived: bool,
    pub task: TaskView,
    pub stale: bool,
}

impl View for Checkpoint {
    type V = CheckpointView;

    open spec fn view(&self) -> CheckpointView {
        CheckpointView { archived: self.archived, task: self.task@, stale: self.stale }
    }
}

/// The answer to a request that was not refused.
#[derive(Debug)]
pub enum Reply {
    /// Nothing is enabled here.
    Disabled,
    /// Nothing is enabled here, so there is nothing to read.
    Unread,
    Status(Overview),
    Read(Checkpoint),
    Created { task_id: String, revision: u64, index_revision: u64, markdown: MarkdownState },
    Appended {
        task_id: String,
        revision: u64,
        index_revision: u64,
        event_id: String,
        markdown: MarkdownState,
    },
    Duplicate {
        task_id: String,
        revision: u64,
        event_id: String,
        index_revision: u64,
        index_repaired: bool,
    },
    Bound { task_id: String, client_id: String, revision: u64 },
    Archived { task_id: String, revision: u64, duplicate: bool },
    TurnedOff { revision: u64 },
    Reviewed { volume: String, identity: ProjectIdentity },
    Anchored,
}

pub enum ReplyView {
    Disabled,
    Unread,
    Status(OverviewView),
    Read(CheckpointView),
    Created { task_id: Seq<char>, revision: u64, index_revision: u64, markdown: MarkdownState },
    Appended {
        task_id: Seq<char>,
        revision: u64,
        index_revision: u64,
        event_id: Seq<char>,
        markdown: MarkdownState,
    },
    Duplicate {
        task_id: Seq<char>,
        revision: u64,
        event_id: Seq<char>,
        index_revision: u64,
        index_repaired: bool,
    },
    Bound { task_id: Seq<char>, client_id: Seq<char>, revision: u64 },
    Archived { task_id: Seq<char>, revision: u64, duplicate: bool },
    TurnedOff { revision: u64 },
    Reviewed { volume: Seq<char>, identity: IdentityView },
    Anchored,
}

impl View for Reply {
    type V = ReplyView;

    open spec fn view(&self) -> ReplyView {
        match *self {
            Reply::Disabled => ReplyView::Disabled,
            Reply::Unread => ReplyView::Unread,
            Reply::Status(o) => ReplyView::Status(o@),
            Reply::Read(c) => ReplyView::Read(c@),
            Reply::Created { task_id, revision, index_revision, markdown } => ReplyView::Created {
                task_id: task_id@,
                revision,
                index_revision,
                markdown,
            },
            Reply::Appended { task_id, revision, index_revision, event_id, markdown } => {
                ReplyView::Appended {
                    task_id: task_id@,
                    revision,
                    index_revision,
                    event_id: event_id@,
                    markdown,
                }
            },
            Reply::Duplicate { task_id, revision, event_id, index_revision, index_repaired } => {
                ReplyView::Duplicate {
                    task_id: task_id@,
                    revision,
                    event_id: event_id@,
                    index_revision,
                    index_repaired,
                }
            },
            Reply::Bound { task_id, client_id, revision } => ReplyView::Bound {
                task_id: task_id@,
                client_id: client_id@,
                revision,
            },
            Reply::Archived { task_id, revision, duplicate } => ReplyView::Archived {
                task_id: task_id@,
                revision,
                duplicate,
            },
            Reply::TurnedOff { revision } => ReplyView::TurnedOff { revision },
            Reply::Reviewed { volume, identity } => ReplyView::Reviewed {
                volume: volume@,
                identity: identity@,
            },
            Reply::Anchored => ReplyView::Anchored,
        }
    }
}

/// Whether four fifths of a limit are used up.
pub open spec fn near_limit(tasks: int, bytes: int) -> bool {
    tasks * 5 >= MAX_TASK_COUNT * 4 || bytes * 5 >= MAX_TOTAL_BYTES * 4
}

pub open spec fn capacity_node() -> Node {
    Node::Record(
        seq![
            ("max_tasks"@, Node::Unsigned(MAX_TASK_COUNT as u64)),
            ("max_events_per_segment"@, Node::Unsigned(MAX_EVENT_COUNT as u64)),
            ("max_archives_per_task"@, Node::Unsigned(MAX_ARCHIVE_COUNT as u64)),
            ("max_events_per_task"@, Node::Unsigned(MAX_HISTORY_COUNT as u64)),
            ("max_task_bytes"@, Node::Unsigned(MAX_TASK_BYTES as u64)),
            ("max_total_bytes"@, Node::Unsigned(MAX_TOTAL_BYTES)),
        ],
    )
}

/// The limits of a checkpoint.
pub fn capacity_output() -> (r: Json)
    ensures
        r@ == capacity_node(),
{
    let members = vec![
        ("max_tasks", Json::Unsigned(MAX_TASK_COUNT as u64)),
        ("max_events_per_segment", Json::Unsigned(MAX_EVENT_COUNT as u64)),
        ("max_archives_per_task", Json::Unsigned(MAX_ARCHIVE_COUNT as u64)),
        ("max_events_per_task", Json::Unsigned(MAX_HISTORY_COUNT as u64)),
        ("max_task_bytes", Json::Unsigned(MAX_TASK_BYTES as u64)),
        ("max_total_bytes", Json::Unsigned(MAX_TOTAL_BYTES)),
    ];
    proof {
        assert(entries(members@) =~= capacity_node()->Record_0);
    }
    in_order(members)
}

pub open spec fn retained_node() -> Node {
    Node::Record(
        seq![
            ("tasks"@, Node::Unsigned(MAX_RETIRED_TASK_COUNT as u64)),
            ("bytes"@, Node::Unsigned(MAX_RETIRED_BYTES)),
        ],
    )
}

pub open spec fn usage_node(o: OverviewView) -> Node {
    Node::Record(
        seq![
            ("tasks"@, Node::Unsigned(o.tasks.len() as u64)),
            ("bytes"@, Node::Unsigned(o.used_bytes)),
            ("near_limit"@, Node::Bool(near_limit(o.tasks.len() as int, o.used_bytes as int))),
        ],
    )
}

pub open spec fn text_or_null(o: Option<Seq<char>>) -> Node {
    match o {
        Some(s) => Node::Text(s),
        None => Node::Null,
    }
}

/// The note that the index lags behind, where it does.
pub open spec fn integrity(stale: bool) -> Seq<(Seq<char>, Node)> {
    if stale {
        seq![("integrity"@, Node::Text("index_stale"@))]
    } else {
        Seq::empty()
    }
}

pub open spec fn overview_fields(o: OverviewView) -> Seq<(Seq<char>, Node)> {
    let head = seq![
        ("enabled"@, Node::Bool(true)),
        ("status"@, Node::Text("enabled"@)),
        ("revision"@, Node::Unsigned(o.revision)),
        ("tasks"@, summary_nodes(o.tasks)),
        ("archived_tasks"@, summary_nodes(o.archived)),
        ("archive_capacity"@, retained_node()),
        ("capacity"@, capacity_node()),
        ("usage"@, usage_node(o)),
    ];
    let bound = match o.bound {
        Some(b) => seq![("bound_task_id"@, text_or_null(b))],
        None => Seq::empty(),
    };
    head + bound + integrity(o.stale)
}

pub open spec fn checkpoint_fields(c: CheckpointView) -> Seq<(Seq<char>, Node)> {
    let jobs = jobs_of(c.task.events);
    let history = Node::Record(
        seq![
            ("archived_events"@, Node::Unsigned(archived(c.task) as u64)),
            ("files"@, history_nodes(c.task.archives)),
        ],
    );
    seq![
        ("enabled"@, Node::Bool(true)),
        ("status"@, Node::Text("ready"@)),
        ("archived"@, Node::Bool(c.archived)),
        ("task_id"@, Node::Text(c.task.task_id)),
        ("revision"@, Node::Unsigned(c.task.revision)),
        ("jobs"@, job_nodes(jobs, MAX_EVENT_COUNT as int)),
        ("jobs_total"@, Node::Unsigned(jobs.len() as u64)),
        ("jobs_truncated"@, Node::Bool(jobs.len() > MAX_EVENT_COUNT)),
        ("history"@, history),
        ("event_count"@, Node::Unsigned(c.task.events.len() as u64)),
        ("checkpoint"@, task_node(disk_view(c.task))),
    ] + integrity(c.stale)
}

/// The members of the JSON object of an answer.
pub open spec fn reply_fields(v: ReplyView) -> Seq<(Seq<char>, Node)> {
    match v {
        ReplyView::Disabled => seq![
            ("enabled"@, Node::Bool(false)),
            ("status"@, Node::Text("disabled"@)),
            ("tasks"@, Node::List(Seq::empty())),
        ],
        ReplyView::Unread => seq![
            ("enabled"@, Node::Bool(false)),
            ("status"@, Node::Text("disabled"@)),
            ("checkpoint"@, Node::Null),
        ],
        ReplyView::Status(o) => overview_fields(o),
        ReplyView::Read(c) => checkpoint_fields(c),
        ReplyView::Created { task_id, revision, index_revision, markdown } => seq![
            ("status"@, Node::Text("saved"@)),
            ("task_id"@, Node::Text(task_id)),
            ("revision"@, Node::Unsigned(revision)),
            ("index_revision"@, Node::Unsigned(index_revision)),
            ("markdown"@, Node::Text(state_name(markdown))),
        ],
        ReplyView::Appended { task_id, revision, index_revision, event_id, markdown } => seq![
            ("status"@, Node::Text("saved"@)),
            ("task_id"@, Node::Text(task_id)),
            ("revision"@, Node::Unsigned(revision)),
            ("index_revision"@, Node::Unsigned(index_revision)),
            ("event_id"@, Node::Text(event_id)),
            ("markdown"@, Node::Text(state_name(markdown))),
        ],
        ReplyView::Duplicate { task_id, revision, event_id, index_revision, index_repaired } => {
            seq![
                ("status"@, Node::Text("duplicate"@)),
                ("task_id"@, Node::Text(task_id)),
                ("revision"@, Node::Unsigned(revision)),
                ("event_id"@, Node::Text(event_id)),
                ("index_revision"@, Node::Unsigned(index_revision)),
                ("index_repaired"@, Node::Bool(index_repaired)),
            ]
        },
        ReplyView::Bound { task_id, client_id, revision } => seq![
            ("status"@, Node::Text("bound"@)),
            ("task_id"@, Node::Text(task_id)),
            ("client_id"@, Node::Text(client_id)),
            ("bound_task_id"@, Node::Text(task_id)),
            ("revision"@, Node::Unsigned(revision)),
        ],
        ReplyView::Archived { task_id, revision, duplicate } => seq![
            ("status"@, Node::Text("archived"@)),
            ("task_id"@, Node::Text(task_id)),
            ("revision"@, Node::Unsigned(revision)),
            ("duplicate"@, Node::Bool(duplicate)),
        ],
        ReplyView::TurnedOff { revision } => seq![
            ("status"@, Node::Text("disabled"@)),
            ("enabled"@, Node::Bool(false)),
            ("revision"@, Node::Unsigned(revision)),
        ],
        ReplyView::Reviewed { volume, identity } => seq![
            ("status"@, Node::Text("reviewed"@)),
            ("state_changed"@, Node::Bool(false)),
            ("volume_uuid"@, Node::Text(volume)),
            ("identity"@, identity_node(identity)),
        ],
        ReplyView::Anchored => seq![
            ("status"@, Node::Text("anchored"@)),
            ("state_changed"@, Node::Bool(true)),
            ("legacy_records_unchanged"@, Node::Bool(true)),
        ],
    }
}

/// The JSON object of an answer.
pub open spec fn reply_node(v: ReplyView) -> Node {
    arranged(Node::Record(reply_fields(v)))
}

fn usage_json(o: &Overview) -> (r: Json)
    ensures
        r@ == usage_node(o@),
{
    proof {
        assert(o@.tasks.len() == o.tasks@.len());
    }
    let tasks: u64 = o.tasks.len() as u64;
    let near = tasks >= 52 || o.used_bytes >= 1677722;
    let members = vec![
        ("tasks", Json::Unsigned(tasks)),
        ("bytes", Json::Unsigned(o.used_bytes)),
        ("near_limit", Json::Bool(near)),
    ];
    proof {
        assert(entries(members@) =~= usage_node(o@)->Record_0);
    }
    in_order(members)
}

fn overview_json(o: &Overview) -> (r: Json)
    ensures
        r@ == Node::Record(overview_fields(o@)),
{
    let kept = vec![
        ("tasks", Json::Unsigned(MAX_RETIRED_TASK_COUNT as u64)),
        ("bytes", Json::Unsigned(MAX_RETIRED_BYTES)),
    ];
    proof {
        assert(entries(kept@) =~= retained_node()->Record_0);
    }
    let mut members = vec![
        ("enabled", Json::Bool(true)),
        ("status", text_json("enabled")),
        ("revision", Json::Unsigned(o.revision)),
        ("tasks", summaries_json(&o.tasks)),
        ("archived_tasks", summaries_json(&o.archived)),
        ("archive_capacity", in_order(kept)),
        ("capacity", capacity_output()),
        ("usage", usage_json(o)),
    ];
    match &o.bound {
        Some(b) => {
            let value = match b {
                Some(id) => text_json(id.as_str()),
                None => Json::Null,
            };
            members.push(("bound_task_id", value));
        },
        None => {},
    }
    if o.stale {
        members.push(("integrity", text_json("index_stale")));
    }
    proof {
        assert(entries(members@) =~= overview_fields(o@));
    }
    in_order(members)
}

fn checkpoint_json(c: &Checkpoint) -> (r: Json)
    requires
        whole(c@.task),
    ensures
        r@ == Node::Record(checkpoint_fields(c@)),
{
    let jobs = job_projection(&c.task.events);
    proof {
        assert(views(jobs@).len() == jobs@.len());
        assert(c@.task.events.len() == c.task.events@.len());
    }
    let past = vec![
        ("archived_events", Json::Unsigned(archived_count(&c.task) as u64)),
        ("files", history_json(&c.task.archives)),
    ];
    let ghost history = Node::Record(entries(past@));
    let mut members = vec![
        ("enabled", Json::Bool(true)),
        ("status", text_json("ready")),
        ("archived", Json::Bool(c.archived)),
        ("task_id", text_json(c.task.task_id.as_str())),
        ("revision", Json::Unsigned(c.task.revision)),
        ("jobs", jobs_json(&jobs, MAX_EVENT_COUNT)),
        ("jobs_total", Json::Unsigned(jobs.len() as u64)),
        ("jobs_truncated", Json::Bool(jobs.len() > MAX_EVENT_COUNT)),
        ("history", in_order(past)),
        ("event_count", Json::Unsigned(c.task.events.len() as u64)),
        ("checkpoint", task_disk_view(&c.task).to_json()),
    ];
    if c.stale {
        members.push(("integrity", text_json("index_stale")));
    }
    proof {
        assert(history->Record_0 =~= seq![
            ("archived_events"@, Node::Unsigned(archived(c@.task) as u64)),
            ("files"@, history_nodes(c@.task.archives)),
        ]);
        assert(entries(members@) =~= checkpoint_fields(c@));
    }
    in_order(members)
}

/// Whether an answer can be rendered: a checkpoint holds its whole history.
pub open spec fn renderable(v: ReplyView) -> bool {
    v matches ReplyView::Read(c) ==> whole(c.task)
}

impl Reply {
    fn members(&self) -> (r: Json)
        requires
            renderable(self@),
        ensures
            r@ == Node::Record(reply_fields(self@)),
    {
        match self {
            Reply::Disabled => {
                let empty: Vec<Json> = Vec::new();
                proof {
                    lemma_array_view(empty);
                    assert(nodes(empty@) =~= Seq::<Node>::empty());
                }
                let members = vec![
                    ("enabled", Json::Bool(false)),
                    ("status", text_json("disabled")),
                    ("tasks", Json::Array(empty)),
                ];
                proof {
                    assert(entries(members@) =~= reply_fields(self@));
                }
                in_order(members)
            },
            Reply::Unread => {
                let members = vec![
                    ("enabled", Json::Bool(false)),
                    ("status", text_json("disabled")),
                    ("checkpoint", Json::Null),
                ];
                proof {
                    assert(entries(members@) =~= reply_fields(self@));
                }
                in_order(members)
            },
            Reply::Status(o) => overview_json(o),
            Reply::Read(c) => checkpoint_json(c),
            Reply::Created { task_id, revision, index_revision, markdown } => {
                let members = vec![
                    ("status", text_json("saved")),
                    ("task_id", text_json(task_id.as_str())),
                    ("revision", Json::Unsigned(*revision)),
                    ("index_revision", Json::Unsigned(*index_revision)),
                    ("markdown", text_json(markdown.as_str())),
                ];
                proof {
                    assert(entries(members@) =~= reply_fields(self@));
                }
                in_order(members)
            },
            Reply::Appended { task_id, revision, index_revision, event_id, markdown } => {
                let members = vec![
                    ("status", text_json("saved")),
                    ("task_id", text_json(task_id.as_str())),
                    ("revision", Json::Unsigned(*revision)),
                    ("index_revision", Json::Unsigned(*index_revision)),
                    ("event_id", text_json(event_id.as_str())),
                    ("markdown", text_json(markdown.as_str())),
                ];
                proof {
                    assert(entries(members@) =~= reply_fields(self@));
                }
                in_order(members)
            },
            Reply::Duplicate { task_id, revision, event_id, index_revision, index_repaired } => {
                let members = vec![
                    ("status", text_json("duplicate")),
                    ("task_id", text_json(task_id.as_str())),
                    ("revision", Json::Unsigned(*revision)),
                    ("event_id", text_json(event_id.as_str())),
                    ("index_revision", Json::Unsigned(*index_revision)),
                    ("index_repaired", Json::Bool(*index_repaired)),
                ];
                proof {
                    assert(entries(members@) =~= reply_fields(self@));
                }
                in_order(members)
            },
            Reply::Bound { task_id, client_id, revision } => {
                let members = vec![
                    ("status", text_json("bound")),
                    ("task_id", text_json(task_id.as_str())),
                    ("client_id", text_json(client_id.as_str())),
                    ("bound_task_id", text_json(task_id.as_str())),
                    ("revision", Json::Unsigned(*revision)),
                ];
                proof {
                    assert(entries(members@) =~= reply_fields(self@));
                }
                in_order(members)
            },
            Reply::Archived { task_id, revision, duplicate } => {
                let members = vec![
                    ("status", text_json("archived")),
                    ("task_id", text_json(task_id.as_str())),
                    ("revision", Json::Unsigned(*revision)),
                    ("duplicate", Json::Bool(*duplicate)),
                ];
                proof {
                    assert(entries(members@) =~= reply_fields(self@));
                }
                in_order(members)
            },
            Reply::TurnedOff { revision } => {
                let members = vec![
                    ("status", text_json("disabled")),
                    ("enabled", Json::Bool(false)),
                    ("revision", Json::Unsigned(*revision)),
                ];
                proof {
                    assert(entries(members@) =~= reply_fields(self@));
                }
                in_order(members)
            },
            Reply::Reviewed { volume, identity } => {
                let members = vec![
                    ("status", text_json("reviewed")),
                    ("state_changed", Json::Bool(false)),
                    ("volume_uuid", text_json(volume.as_str())),
                    ("identity", identity.to_json()),
                ];
                proof {
                    assert(entries(members@) =~= reply_fields(self@));
                }
                in_order(members)
            },
            Reply::Anchored => {
                let members = vec![
                    ("status", text_json("anchored")),
                    ("state_changed", Json::Bool(true)),
                    ("legacy_records_unchanged", Json::Bool(true)),
                ];
                proof {
                    assert(entries(members@) =~= reply_fields(self@));
                }
                in_order(members)
            },
        }
    }

    /// The JSON object of an answer.
    pub fn to_json(&self) -> (r: Json)
        requires
            renderable(self@),
        ensures
            r@ == reply_node(self@),
    {
        arrange(&self.members())
    }
}

} // verus!
