//! The managed files: the index of a project and the checkpoint of a task.
use vstd::prelude::*;
use crate::failure::{views};
use crate::json::{
    Json, Node, copy_all, entries, lemma_array_view, lemma_object_view, nodes, signed_json,
    signed_node, text_json,
};
use crate::table::{pairs};
use crate::text::{owned, same};

verus! {

/// Which directory a checkpoint belongs to.
#[derive(Debug)]
pub struct ProjectIdentity {
    pub canonical_root: String,
    pub device: u64,
    pub inode: u64,
    pub root_fingerprint: String,
}

pub struct IdentityView {
    pub canonical_root: Seq<char>,
    pub device: u64,
    pub inode: u64,
    pub root_fingerprint: Seq<char>,
}

impl View for ProjectIdentity {
    type V = IdentityView;

    open spec fn view(&self) -> IdentityView {
        IdentityView {
            canonical_root: self.canonical_root@,
            device: self.device,
            inode: self.inode,
            root_fingerprint: self.root_fingerprint@,
        }
    }
}

impl ProjectIdentity {
    pub fn copy(&self) -> (r: ProjectIdentity)
        ensures
            r@ == self@,
    {
        ProjectIdentity {
            canonical_root: self.canonical_root.clone(),
            device: self.device,
            inode: self.inode,
            root_fingerprint: self.root_fingerprint.clone(),
        }
    }

    pub fn equals(&self, other: &ProjectIdentity) -> (r: bool)
        ensures
            r == (self@ == other@),
    {
        same(self.canonical_root.as_str(), other.canonical_root.as_str()) && self.device
            == other.device && self.inode == other.inode && same(
            self.root_fingerprint.as_str(),
            other.root_fingerprint.as_str(),
        )
    }
}

/// What the index keeps of a task.
#[derive(Debug)]
pub struct TaskSummary {
    pub task_id: String,
    pub title: String,
    pub status: String,
    pub revision: u64,
    pub updated_at: i64,
    pub event_count: u64,
    pub unknown_count: u64,
}

pub struct SummaryView {
    pub task_id: Seq<char>,
    pub title: Seq<char>,
    pub status: Seq<char>,
    pub revision: u64,
    pub updated_at: i64,
    pub event_count: u64,
    pub unknown_count: u64,
}

impl View for TaskSummary {
    type V = SummaryView;

    open spec fn view(&self) -> SummaryView {
        SummaryView {
            task_id: self.task_id@,
            title: self.title@,
            status: self.status@,
            revision: self.revision,
            updated_at: self.updated_at,
            event_count: self.event_count,
            unknown_count: self.unknown_count,
        }
    }
}

impl TaskSummary {
    pub fn copy(&self) -> (r: TaskSummary)
        ensures
            r@ == self@,
    {
        TaskSummary {
            task_id: self.task_id.clone(),
            title: self.title.clone(),
            status: self.status.clone(),
            revision: self.revision,
            updated_at: self.updated_at,
            event_count: self.event_count,
            unknown_count: self.unknown_count,
        }
    }

    pub fn equals(&self, other: &TaskSummary) -> (r: bool)
        ensures
            r == (self@ == other@),
    {
        same(self.task_id.as_str(), other.task_id.as_str()) && same(
            self.title.as_str(),
            other.title.as_str(),
        ) && same(self.status.as_str(), other.status.as_str()) && self.revision == other.revision
            && self.updated_at == other.updated_at && self.event_count == other.event_count
            && self.unknown_count == other.unknown_count
    }
}

/// Copies of all summaries.
pub fn copy_summaries(items: &Vec<TaskSummary>) -> (r: Vec<TaskSummary>)
    ensures
        views(r@) == views(items@),
{
    let mut out: Vec<TaskSummary> = Vec::new();
    let mut i: usize = 0;
    while i < items.len()
        invariant
            i <= items@.len(),
            views(out@) == views(items@).take(i as int),
        decreases items@.len() - i,
    {
        let ghost prior = views(out@);
        let c = items[i].copy();
        out.push(c);
        proof {
            assert(views(out@) =~= prior.push(c@));
            assert(views(out@) =~= views(items@).take(i + 1));
        }
        i += 1;
    }
    proof {
        assert(views(items@).take(items@.len() as int) =~= views(items@));
    }
    out
}

/// Copies of all pairs.
pub fn copy_pairs(items: &Vec<(String, String)>) -> (r: Vec<(String, String)>)
    ensures
        pairs(r@) == pairs(items@),
{
    let mut out: Vec<(String, String)> = Vec::new();
    let mut i: usize = 0;
    while i < items.len()
        invariant
            i <= items@.len(),
            pairs(out@) == pairs(items@).take(i as int),
        decreases items@.len() - i,
    {
        let ghost prior = pairs(out@);
        out.push((items[i].0.clone(), items[i].1.clone()));
        proof {
            assert(pairs(out@) =~= prior.push(pairs(items@)[i as int]));
            assert(pairs(out@) =~= pairs(items@).take(i + 1));
        }
        i += 1;
    }
    proof {
        assert(pairs(items@).take(items@.len() as int) =~= pairs(items@));
    }
    out
}

/// The index of all tasks of a project.
#[derive(Debug)]
pub struct IndexFile {
    pub format: String,
    pub version: u32,
    pub managed_by: String,
    pub enabled: bool,
    pub project_identity: ProjectIdentity,
    pub revision: u64,
    pub updated_at: i64,
    pub tasks: Vec<TaskSummary>,
    pub retired_tasks: Vec<TaskSummary>,
    /// The task that each client selected, by client.
    pub bindings: Vec<(String, String)>,
}

pub struct IndexView {
    pub format: Seq<char>,
    pub version: u32,
    pub managed_by: Seq<char>,
    pub enabled: bool,
    pub project_identity: IdentityView,
    pub revision: u64,
    pub updated_at: i64,
    pub tasks: Seq<SummaryView>,
    pub retired_tasks: Seq<SummaryView>,
    pub bindings: Seq<(Seq<char>, Seq<char>)>,
}

impl View for IndexFile {
    type V = IndexView;

    open spec fn view(&self) -> IndexView {
        IndexView {
            format: self.format@,
            version: self.version,
            managed_by: self.managed_by@,
            enabled: self.enabled,
            project_identity: self.project_identity@,
            revision: self.revision,
            updated_at: self.updated_at,
            tasks: views(self.tasks@),
            retired_tasks: views(self.retired_tasks@),
            bindings: pairs(self.bindings@),
        }
    }
}

impl IndexFile {
    pub fn copy(&self) -> (r: IndexFile)
        ensures
            r@ == self@,
    {
        IndexFile {
            format: self.format.clone(),
            version: self.version,
            managed_by: self.managed_by.clone(),
            enabled: self.enabled,
            project_identity: self.project_identity.copy(),
            revision: self.revision,
            updated_at: self.updated_at,
            tasks: copy_summaries(&self.tasks),
            retired_tasks: copy_summaries(&self.retired_tasks),
            bindings: copy_pairs(&self.bindings),
        }
    }
}

/// A segment of history that was moved out of the task file.
#[derive(Debug)]
pub struct EventArchive {
    pub file: String,
    pub sha256: String,
    pub event_count: u64,
    pub bytes: u64,
}

pub struct ArchiveView {
    pub file: Seq<char>,
    pub sha256: Seq<char>,
    pub event_count: u64,
    pub bytes: u64,
}

impl View for EventArchive {
    type V = ArchiveView;

    open spec fn view(&self) -> ArchiveView {
        ArchiveView {
            file: self.file@,
            sha256: self.sha256@,
            event_count: self.event_count,
            bytes: self.bytes,
        }
    }
}

impl EventArchive {
    pub fn copy(&self) -> (r: EventArchive)
        ensures
            r@ == self@,
    {
        EventArchive {
            file: self.file.clone(),
            sha256: self.sha256.clone(),
            event_count: self.event_count,
            bytes: self.bytes,
        }
    }
}

/// Copies of all archive references.
pub fn copy_archives(items: &Vec<EventArchive>) -> (r: Vec<EventArchive>)
    ensures
        views(r@) == views(items@),
{
    let mut out: Vec<EventArchive> = Vec::new();
    let mut i: usize = 0;
    while i < items.len()
        invariant
            i <= items@.len(),
            views(out@) == views(items@).take(i as int),
        decreases items@.len() - i,
    {
        let ghost prior = views(out@);
        let c = items[i].copy();
        out.push(c);
        proof {
            assert(views(out@) =~= prior.push(c@));
            assert(views(out@) =~= views(items@).take(i + 1));
        }
        i += 1;
    }
    proof {
        assert(views(items@).take(items@.len() as int) =~= views(items@));
    }
    out
}

/// The checkpoint of one task. On disk `events` holds the events after the
/// archived ones; in memory it holds the whole history.
#[derive(Debug)]
pub struct TaskFile {
    pub format: String,
    pub version: u32,
    pub managed_by: String,
    pub project_identity: ProjectIdentity,
    pub task_id: String,
    pub title: String,
    pub status: String,
    pub revision: u64,
    pub created_at: i64,
    pub updated_at: i64,
    pub unknown_count: u64,
    pub events: Vec<Json>,
    pub archives: Vec<EventArchive>,
    /// The fingerprint of each acknowledged event that repeats a known fact,
    /// by its id.
    pub event_aliases: Vec<(String, String)>,
}

pub struct TaskView {
    pub format: Seq<char>,
    pub version: u32,
    pub managed_by: Seq<char>,
    pub project_identity: IdentityView,
    pub task_id: Seq<char>,
    pub title: Seq<char>,
    pub status: Seq<char>,
    pub revision: u64,
    pub created_at: i64,
    pub updated_at: i64,
    pub unknown_count: u64,
    pub events: Seq<Node>,
    pub archives: Seq<ArchiveView>,
    pub event_aliases: Seq<(Seq<char>, Seq<char>)>,
}

impl View for TaskFile {
    type V = TaskView;

    open spec fn view(&self) -> TaskView {
        TaskView {
            format: self.format@,
            version: self.version,
            managed_by: self.managed_by@,
            project_identity: self.project_identity@,
            task_id: self.task_id@,
            title: self.title@,
            status: self.status@,
            revision: self.revision,
            created_at: self.created_at,
            updated_at: self.updated_at,
            unknown_count: self.unknown_count,
            events: nodes(self.events@),
            archives: views(self.archives@),
            event_aliases: pairs(self.event_aliases@),
        }
    }
}

impl TaskFile {
    pub fn copy(&self) -> (r: TaskFile)
        ensures
            r@ == self@,
    {
        TaskFile {
            format: self.format.clone(),
            version: self.version,
            managed_by: self.managed_by.clone(),
            project_identity: self.project_identity.copy(),
            task_id: self.task_id.clone(),
            title: self.title.clone(),
            status: self.status.clone(),
            revision: self.revision,
            created_at: self.created_at,
            updated_at: self.updated_at,
            unknown_count: self.unknown_count,
            events: copy_all(&self.events),
            archives: copy_archives(&self.archives),
            event_aliases: copy_pairs(&self.event_aliases),
        }
    }
}

// ---------------------------------------------------------------------------
// The JSON form of the records.
// ---------------------------------------------------------------------------

pub open spec fn identity_node(v: IdentityView) -> Node {
    Node::Record(
        seq![
            ("canonical_root"@, Node::Text(v.canonical_root)),
            ("device"@, Node::Unsigned(v.device)),
            ("inode"@, Node::Unsigned(v.inode)),
            ("root_fingerprint"@, Node::Text(v.root_fingerprint)),
        ],
    )
}

pub open spec fn summary_node(v: SummaryView) -> Node {
    Node::Record(
        seq![
            ("task_id"@, Node::Text(v.task_id)),
            ("title"@, Node::Text(v.title)),
            ("status"@, Node::Text(v.status)),
            ("revision"@, Node::Unsigned(v.revision)),
            ("updated_at"@, signed_node(v.updated_at)),
            ("event_count"@, Node::Unsigned(v.event_count)),
            ("unknown_count"@, Node::Unsigned(v.unknown_count)),
        ],
    )
}

pub open spec fn archive_node(v: ArchiveView) -> Node {
    Node::Record(
        seq![
            ("file"@, Node::Text(v.file)),
            ("sha256"@, Node::Text(v.sha256)),
            ("event_count"@, Node::Unsigned(v.event_count)),
            ("bytes"@, Node::Unsigned(v.bytes)),
        ],
    )
}

pub open spec fn summary_nodes(s: Seq<SummaryView>) -> Node {
    Node::List(Seq::new(s.len(), |i: int| summary_node(s[i])))
}

pub open spec fn archive_nodes(s: Seq<ArchiveView>) -> Node {
    Node::List(Seq::new(s.len(), |i: int| archive_node(s[i])))
}

/// A map from texts to texts.
pub open spec fn text_map(s: Seq<(Seq<char>, Seq<char>)>) -> Node {
    Node::Record(Seq::new(s.len(), |i: int| (s[i].0, Node::Text(s[i].1))))
}

/// The members of the index in their order; an empty list of retired tasks is
/// left out.
pub open spec fn index_node(v: IndexView) -> Node {
    let head = seq![
        ("format"@, Node::Text(v.format)),
        ("version"@, Node::Unsigned(v.version as u64)),
        ("managed_by"@, Node::Text(v.managed_by)),
        ("enabled"@, Node::Bool(v.enabled)),
        ("project_identity"@, identity_node(v.project_identity)),
        ("revision"@, Node::Unsigned(v.revision)),
        ("updated_at"@, signed_node(v.updated_at)),
        ("tasks"@, summary_nodes(v.tasks)),
    ];
    let retired = if v.retired_tasks.len() == 0 {
        Seq::empty()
    } else {
        seq![("retired_tasks"@, summary_nodes(v.retired_tasks))]
    };
    Node::Record(head + retired + seq![("bindings"@, text_map(v.bindings))])
}

/// The members of a task in their order; empty lists of archives and aliases
/// are left out.
pub open spec fn task_node(v: TaskView) -> Node {
    let head = seq![
        ("format"@, Node::Text(v.format)),
        ("version"@, Node::Unsigned(v.version as u64)),
        ("managed_by"@, Node::Text(v.managed_by)),
        ("project_identity"@, identity_node(v.project_identity)),
        ("task_id"@, Node::Text(v.task_id)),
        ("title"@, Node::Text(v.title)),
        ("status"@, Node::Text(v.status)),
        ("revision"@, Node::Unsigned(v.revision)),
        ("created_at"@, signed_node(v.created_at)),
        ("updated_at"@, signed_node(v.updated_at)),
        ("unknown_count"@, Node::Unsigned(v.unknown_count)),
        ("events"@, Node::List(v.events)),
    ];
    let archives = if v.archives.len() == 0 {
        Seq::empty()
    } else {
        seq![("archives"@, archive_nodes(v.archives))]
    };
    let aliases = if v.event_aliases.len() == 0 {
        Seq::empty()
    } else {
        seq![("event_aliases"@, text_map(v.event_aliases))]
    };
    Node::Record(head + archives + aliases)
}

/// An object with members in the given order.
pub fn in_order(members: Vec<(&'static str, Json)>) -> (r: Json)
    ensures
        r@ == Node::Record(entries(members@)),
{
    let ghost all = entries(members@);
    let count: usize = members.len();
    let mut rest = members;
    let mut out: Vec<(String, Json)> = Vec::new();
    while out.len() < count
        invariant
            out@.len() <= count,
            count == all.len(),
            entries(rest@) == all.skip(out@.len() as int),
            pairs(out@) == all.take(out@.len() as int),
        decreases count - out@.len(),
    {
        let ghost done = out@.len() as int;
        let ghost prior = entries(rest@);
        let ghost so_far = pairs(out@);
        proof {
            assert(entries(rest@).len() == rest@.len());
            assert(entries(rest@)[0] == all[done]);
        }
        let (key, value) = rest.remove(0);
        out.push((owned(key), value));
        proof {
            assert(entries(rest@) =~= prior.skip(1));
            assert(prior.skip(1) =~= all.skip(done + 1));
            assert(pairs(out@) =~= so_far.push(all[done]));
            assert(all.take(done + 1) =~= all.take(done).push(all[done]));
        }
    }
    proof {
        assert(all.take(all.len() as int) =~= all);
        lemma_object_view(out);
    }
    Json::Object(out)
}

impl ProjectIdentity {
    pub fn to_json(&self) -> (r: Json)
        ensures
            r@ == identity_node(self@),
    {
        let members = vec![
            ("canonical_root", text_json(self.canonical_root.as_str())),
            ("device", Json::Unsigned(self.device)),
            ("inode", Json::Unsigned(self.inode)),
            ("root_fingerprint", text_json(self.root_fingerprint.as_str())),
        ];
        proof {
            assert(entries(members@) =~= identity_node(self@)->Record_0);
        }
        in_order(members)
    }
}

impl TaskSummary {
    pub fn to_json(&self) -> (r: Json)
        ensures
            r@ == summary_node(self@),
    {
        let members = vec![
            ("task_id", text_json(self.task_id.as_str())),
            ("title", text_json(self.title.as_str())),
            ("status", text_json(self.status.as_str())),
            ("revision", Json::Unsigned(self.revision)),
            ("updated_at", signed_json(self.updated_at)),
            ("event_count", Json::Unsigned(self.event_count)),
            ("unknown_count", Json::Unsigned(self.unknown_count)),
        ];
        proof {
            assert(entries(members@) =~= summary_node(self@)->Record_0);
        }
        in_order(members)
    }
}

impl EventArchive {
    pub fn to_json(&self) -> (r: Json)
        ensures
            r@ == archive_node(self@),
    {
        let members = vec![
            ("file", text_json(self.file.as_str())),
            ("sha256", text_json(self.sha256.as_str())),
            ("event_count", Json::Unsigned(self.event_count)),
            ("bytes", Json::Unsigned(self.bytes)),
        ];
        proof {
            assert(entries(members@) =~= archive_node(self@)->Record_0);
        }
        in_order(members)
    }
}

/// The JSON array of summaries.
pub fn summaries_json(items: &Vec<TaskSummary>) -> (r: Json)
    ensures
        r@ == summary_nodes(views(items@)),
{
    let mut out: Vec<Json> = Vec::new();
    let mut i: usize = 0;
    while i < items.len()
        invariant
            i <= items@.len(),
            nodes(out@) == summary_nodes(views(items@))->List_0.take(i as int),
        decreases items@.len() - i,
    {
        let ghost prior = nodes(out@);
        let c = items[i].to_json();
        out.push(c);
        proof {
            assert(nodes(out@) =~= prior.push(c@));
            assert(nodes(out@) =~= summary_nodes(views(items@))->List_0.take(i + 1));
        }
        i += 1;
    }
    proof {
        lemma_array_view(out);
        assert(nodes(out@) =~= summary_nodes(views(items@))->List_0);
    }
    Json::Array(out)
}

/// The JSON array of archive references.
pub fn archives_json(items: &Vec<EventArchive>) -> (r: Json)
    ensures
        r@ == archive_nodes(views(items@)),
{
    let mut out: Vec<Json> = Vec::new();
    let mut i: usize = 0;
    while i < items.len()
        invariant
            i <= items@.len(),
            nodes(out@) == archive_nodes(views(items@))->List_0.take(i as int),
        decreases items@.len() - i,
    {
        let ghost prior = nodes(out@);
        let c = items[i].to_json();
        out.push(c);
        proof {
            assert(nodes(out@) =~= prior.push(c@));
            assert(nodes(out@) =~= archive_nodes(views(items@))->List_0.take(i + 1));
        }
        i += 1;
    }
    proof {
        lemma_array_view(out);
        assert(nodes(out@) =~= archive_nodes(views(items@))->List_0);
    }
    Json::Array(out)
}

/// The JSON object of a map from texts to texts.
pub fn text_map_json(items: &Vec<(String, String)>) -> (r: Json)
    ensures
        r@ == text_map(pairs(items@)),
{
    let mut out: Vec<(String, Json)> = Vec::new();
    let mut i: usize = 0;
    while i < items.len()
        invariant
            i <= items@.len(),
            pairs(out@) == text_map(pairs(items@))->Record_0.take(i as int),
        decreases items@.len() - i,
    {
        let ghost prior = pairs(out@);
        out.push((items[i].0.clone(), text_json(items[i].1.as_str())));
        proof {
            assert(pairs(out@) =~= prior.push(text_map(pairs(items@))->Record_0[i as int]));
            assert(pairs(out@) =~= text_map(pairs(items@))->Record_0.take(i + 1));
        }
        i += 1;
    }
    proof {
        lemma_object_view(out);
        assert(pairs(out@) =~= text_map(pairs(items@))->Record_0);
    }
    Json::Object(out)
}

impl IndexFile {
    pub fn to_json(&self) -> (r: Json)
        ensures
            r@ == index_node(self@),
    {
        let mut members = vec![
            ("format", text_json(self.format.as_str())),
            ("version", Json::Unsigned(self.version as u64)),
            ("managed_by", text_json(self.managed_by.as_str())),
            ("enabled", Json::Bool(self.enabled)),
            ("project_identity", self.project_identity.to_json()),
            ("revision", Json::Unsigned(self.revision)),
            ("updated_at", signed_json(self.updated_at)),
            ("tasks", summaries_json(&self.tasks)),
        ];
        if self.retired_tasks.len() > 0 {
            members.push(("retired_tasks", summaries_json(&self.retired_tasks)));
        }
        members.push(("bindings", text_map_json(&self.bindings)));
        proof {
            assert(views(self.retired_tasks@).len() == self.retired_tasks@.len());
            assert(entries(members@) =~= index_node(self@)->Record_0);
        }
        in_order(members)
    }
}

impl TaskFile {
    pub fn to_json(&self) -> (r: Json)
        ensures
            r@ == task_node(self@),
    {
        let events = Json::Array(copy_all(&self.events));
        proof {
            lemma_array_view(events->Array_0);
        }
        let mut members = vec![
            ("format", text_json(self.format.as_str())),
            ("version", Json::Unsigned(self.version as u64)),
            ("managed_by", text_json(self.managed_by.as_str())),
            ("project_identity", self.project_identity.to_json()),
            ("task_id", text_json(self.task_id.as_str())),
            ("title", text_json(self.title.as_str())),
            ("status", text_json(self.status.as_str())),
            ("revision", Json::Unsigned(self.revision)),
            ("created_at", signed_json(self.created_at)),
            ("updated_at", signed_json(self.updated_at)),
            ("unknown_count", Json::Unsigned(self.unknown_count)),
            ("events", events),
        ];
        if self.archives.len() > 0 {
            members.push(("archives", archives_json(&self.archives)));
        }
        if self.event_aliases.len() > 0 {
            members.push(("event_aliases", text_map_json(&self.event_aliases)));
        }
        proof {
            assert(views(self.archives@).len() == self.archives@.len());
            assert(pairs(self.event_aliases@).len() == self.event_aliases@.len());
            assert(entries(members@) =~= task_node(self@)->Record_0);
        }
        in_order(members)
    }
}

} // verus!
