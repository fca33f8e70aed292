//! The checkpoint directory as plain data, and how its files are read.
use vstd::prelude::*;
use vstd::utf8::*;
use crate::checks::{
    INDEX_FILE_NAME, MAX_ARCHIVE_COUNT, MAX_INDEX_BYTES, MAX_TASK_BYTES, MAX_TOTAL_BYTES,
    index_check, reference_check, task_check, task_file_name, task_name,
    validate_archive_reference, validate_index, validate_task,
};
use crate::codec::{from_bytes, json_reading, tidy};
use crate::decode::{
    index_keys, index_of, read_index, read_task, slot, slot_map, task_keys, task_of, texts_of,
};
use crate::digest::{digest_of, fingerprint};
use crate::failure::{Failure, content, outcome, outcome_option, refuse, refused, views};
use crate::json::{Json, Node, copy_all, nodes};
use crate::markdown::{MAX_EVENT_COUNT};
use crate::path::{PathPolicy};
use crate::records::{
    ArchiveView, EventArchive, IdentityView, IndexFile, IndexView, ProjectIdentity, TaskFile,
    TaskView,
};
use crate::table::{
    assign, discard, get, lemma_lookup_position, lookup, ordered, pairs, put, removed,
};
use crate::text::{copy_bytes, lex_less, same};

verus! {

/// What a name in the directory stands for.
#[derive(Debug)]
pub enum Entry {
    /// A regular file. `distinct` says that no record in it gives a member
    /// twice.
    File { bytes: Vec<u8>, distinct: bool },
    /// A regular file that is longer than every limit.
    Oversized { length: u64 },
    /// Something that cannot be opened as a file; `inspect` is its length, or
    /// why it has none.
    Refused { open: Failure, inspect: Result<u64, Failure> },
}

pub enum EntryView {
    File { bytes: Seq<u8>, distinct: bool },
    Oversized { length: u64 },
    Refused { open: Failure, inspect: Result<u64, Failure> },
}

impl View for Entry {
    type V = EntryView;

    open spec fn view(&self) -> EntryView {
        match *self {
            Entry::File { bytes, distinct } => EntryView::File { bytes: bytes@, distinct },
            Entry::Oversized { length } => EntryView::Oversized { length },
            Entry::Refused { open, inspect } => EntryView::Refused { open, inspect },
        }
    }
}

/// The checkpoint directory: whether it is there, and its files by name.
#[derive(Debug)]
pub struct Directory {
    pub present: bool,
    pub files: Vec<(String, Entry)>,
}

pub struct DirectoryView {
    pub present: bool,
    pub files: Seq<(Seq<char>, EntryView)>,
}

impl View for Directory {
    type V = DirectoryView;

    open spec fn view(&self) -> DirectoryView {
        DirectoryView { present: self.present, files: pairs(self.files@) }
    }
}

impl DirectoryView {
    /// What a name stands for.
    pub open spec fn entry(self, name: Seq<char>) -> Option<EntryView> {
        if self.present {
            lookup(self.files, name)
        } else {
            None
        }
    }

    /// Whether the file gives no member of a record twice.
    pub open spec fn distinct(self, name: Seq<char>) -> bool {
        match self.entry(name) {
            Some(EntryView::File { bytes, distinct }) => distinct,
            _ => false,
        }
    }

    /// The content of a file of at most `limit` bytes.
    pub open spec fn read(self, name: Seq<char>, limit: int) -> Result<Option<Seq<u8>>, Failure> {
        match self.entry(name) {
            None => Ok(None),
            Some(EntryView::File { bytes, distinct }) => if bytes.len() > limit {
                Err(refused("capacity_exceeded", "handoff file exceeds its capacity limit"))
            } else {
                Ok(Some(bytes))
            },
            Some(EntryView::Oversized { length }) => Err(
                refused("capacity_exceeded", "handoff file exceeds its capacity limit"),
            ),
            Some(EntryView::Refused { open, inspect }) => Err(open),
        }
    }

    /// The length of what a name stands for.
    pub open spec fn inspect(self, name: Seq<char>) -> Result<Option<u64>, Failure> {
        if !self.present {
            Err(refused("io_error", "handoff directory is not open"))
        } else {
            match self.entry(name) {
                None => Ok(None),
                Some(EntryView::File { bytes, distinct }) => Ok(Some(bytes.len() as u64)),
                Some(EntryView::Oversized { length }) => Ok(Some(length)),
                Some(EntryView::Refused { open, inspect }) => match inspect {
                    Ok(length) => Ok(Some(length)),
                    Err(e) => Err(e),
                },
            }
        }
    }

    /// The directory after a file was written.
    pub open spec fn with_file(self, name: Seq<char>, bytes: Seq<u8>) -> DirectoryView {
        DirectoryView {
            files: put(self.files, name, EntryView::File { bytes, distinct: true }),
            ..self
        }
    }

    /// The directory after a file was removed.
    pub open spec fn without(self, name: Seq<char>) -> DirectoryView {
        DirectoryView { files: removed(self.files, name), ..self }
    }
}

impl Directory {
    fn entry(&self, name: &str) -> (r: Option<&Entry>)
        ensures
            match r {
                Some(e) => self@.entry(name@) == Some(e@),
                None => self@.entry(name@) is None,
            },
    {
        if self.present {
            get(&self.files, name)
        } else {
            None
        }
    }

    /// Whether the file gives no member of a record twice.
    pub fn distinct(&self, name: &str) -> (r: bool)
        ensures
            r == self@.distinct(name@),
    {
        match self.entry(name) {
            Some(Entry::File { bytes: _, distinct }) => *distinct,
            _ => false,
        }
    }

    /// The content of a file of at most `limit` bytes.
    pub fn read_file_bounded(&self, name: &str, limit: usize) -> (r: Result<
        Option<Vec<u8>>,
        Failure,
    >)
        ensures
            outcome_option(r) == self@.read(name@, limit as int),
    {
        match self.entry(name) {
            None => Ok(None),
            Some(Entry::File { bytes, distinct: _ }) => if bytes.len() > limit {
                Err(refuse("capacity_exceeded", "handoff file exceeds its capacity limit"))
            } else {
                Ok(Some(copy_bytes(bytes)))
            },
            Some(Entry::Oversized { length: _ }) => Err(
                refuse("capacity_exceeded", "handoff file exceeds its capacity limit"),
            ),
            Some(Entry::Refused { open, inspect: _ }) => Err(*open),
        }
    }

    /// The length of what a name stands for.
    pub fn target_length(&self, name: &str) -> (r: Result<Option<u64>, Failure>)
        ensures
            r == self@.inspect(name@),
    {
        if !self.present {
            return Err(refuse("io_error", "handoff directory is not open"));
        }
        match self.entry(name) {
            None => Ok(None),
            Some(Entry::File { bytes, distinct: _ }) => Ok(Some(bytes.len() as u64)),
            Some(Entry::Oversized { length }) => Ok(Some(*length)),
            Some(Entry::Refused { open: _, inspect }) => match inspect {
                Ok(length) => Ok(Some(*length)),
                Err(e) => Err(*e),
            },
        }
    }

    /// Writes a file.
    pub fn insert(&mut self, name: String, bytes: Vec<u8>)
        ensures
            final(self)@ == old(self)@.with_file(name@, bytes@),
    {
        assign(&mut self.files, name, Entry::File { bytes, distinct: true });
    }

    /// Removes a file.
    pub fn remove(&mut self, name: &str)
        ensures
            final(self)@ == old(self)@.without(name@),
    {
        discard(&mut self.files, name);
    }
}

/// The index that the bytes of a file give.
pub open spec fn index_reading(bytes: Seq<u8>, distinct: bool) -> Option<IndexView> {
    if !distinct {
        None
    } else {
        match json_reading(bytes) {
            Some(n) => index_of(n),
            None => None,
        }
    }
}

/// The task file that the bytes of a file give.
pub open spec fn task_reading(bytes: Seq<u8>, distinct: bool) -> Option<TaskView> {
    if !distinct {
        None
    } else {
        match json_reading(bytes) {
            Some(n) => task_of(n),
            None => None,
        }
    }
}

/// The list of events that the bytes of an archive give.
pub open spec fn events_reading(bytes: Seq<u8>) -> Option<Seq<Node>> {
    match json_reading(bytes) {
        Some(Node::List(items)) => Some(items),
        _ => None,
    }
}

/// Whether all values are as a reader hands them out.
pub open spec fn all_tidy(s: Seq<Node>) -> bool {
    forall|i: int| 0 <= i < s.len() ==> tidy(#[trigger] s[i])
}

pub fn parse_index(bytes: &Vec<u8>, distinct: bool) -> (r: Option<IndexFile>)
    ensures
        content(r) == index_reading(bytes@, distinct),
        r matches Some(v) ==> ordered(v@.bindings),
{
    if !distinct {
        return None;
    }
    match from_bytes(bytes.as_slice()) {
        Some(j) => {
            let r = read_index(&j);
            proof {
                if r is Some {
                    lemma_index_ordered(j@);
                }
            }
            r
        },
        None => None,
    }
}

pub fn parse_task(bytes: &Vec<u8>, distinct: bool) -> (r: Option<TaskFile>)
    ensures
        content(r) == task_reading(bytes@, distinct),
        r matches Some(v) ==> ordered(v@.event_aliases) && all_tidy(v@.events),
{
    if !distinct {
        return None;
    }
    match from_bytes(bytes.as_slice()) {
        Some(j) => {
            let r = read_task(&j);
            proof {
                if r is Some {
                    lemma_task_tidy(j@);
                }
            }
            r
        },
        None => None,
    }
}

pub fn parse_events(bytes: &Vec<u8>) -> (r: Option<Vec<Json>>)
    ensures
        match r {
            Some(v) => events_reading(bytes@) == Some(nodes(v@)) && all_tidy(nodes(v@)),
            None => events_reading(bytes@) is None,
        },
{
    match from_bytes(bytes.as_slice()) {
        Some(j) => match j.as_array() {
            Some(items) => Some(copy_all(items)),
            None => None,
        },
        None => None,
    }
}

proof fn lemma_texts_order(fields: Seq<(Seq<char>, Node)>, k: nat)
    requires
        k <= fields.len(),
        texts_of(fields, k) is Some,
    ensures
        texts_of(fields, k)->0.len() == k,
        forall|i: int| 0 <= i < k ==> (#[trigger] texts_of(fields, k)->0[i]).0 == fields[i].0,
    decreases k,
{
    if k > 0 {
        lemma_texts_order(fields, (k - 1) as nat);
    }
}

/// A member of a tidy value is tidy.
proof fn lemma_slot_tidy(n: Node, keys: Seq<Seq<char>>, i: int)
    requires
        tidy(n),
        0 <= i,
        slot(n, keys, i) is Some,
    ensures
        tidy(slot(n, keys, i)->0),
{
    match n {
        Node::Record(fields) => {
            let j = lemma_lookup_position(fields, keys[i]);
            assert(tidy(fields[j].1));
        },
        Node::List(items) => {
            assert(tidy(items[i]));
        },
        _ => {},
    }
}

proof fn lemma_map_ordered(n: Node, keys: Seq<Seq<char>>, i: int)
    requires
        tidy(n),
        0 <= i,
        slot_map(n, keys, i) is Some,
    ensures
        ordered(slot_map(n, keys, i)->0),
{
    if slot(n, keys, i) is Some {
        lemma_slot_tidy(n, keys, i);
        let fields = slot(n, keys, i)->0->Record_0;
        lemma_texts_order(fields, fields.len());
        let s = slot_map(n, keys, i)->0;
        assert forall|a: int, b: int| 0 <= a < b < s.len() implies lex_less(
            #[trigger] s[a].0,
            #[trigger] s[b].0,
        ) by {
            assert(lex_less(fields[a].0, fields[b].0));
        }
    }
}

proof fn lemma_index_ordered(n: Node)
    requires
        tidy(n),
        index_of(n) is Some,
    ensures
        ordered(index_of(n)->0.bindings),
{
    lemma_map_ordered(n, index_keys(), 9);
}

proof fn lemma_task_tidy(n: Node)
    requires
        tidy(n),
        task_of(n) is Some,
    ensures
        ordered(task_of(n)->0.event_aliases),
        all_tidy(task_of(n)->0.events),
{
    lemma_map_ordered(n, task_keys(), 13);
    if slot(n, task_keys(), 11) is Some {
        lemma_slot_tidy(n, task_keys(), 11);
    }
}

/// The valid index of the project.
pub open spec fn index_at(d: DirectoryView, identity: IdentityView) -> Result<
    Option<IndexView>,
    Failure,
> {
    match d.read(INDEX_FILE_NAME@, MAX_INDEX_BYTES as int) {
        Err(e) => Err(e),
        Ok(None) => Ok(None),
        Ok(Some(bytes)) => match index_reading(bytes, d.distinct(INDEX_FILE_NAME@)) {
            None => Err(
                refused("malformed_index", "handoff index is not a supported managed file"),
            ),
            Some(v) => match index_check(v, identity) {
                Err(e) => Err(e),
                Ok(_) => Ok(Some(v)),
            },
        },
    }
}

pub fn load_index(handoff: &Directory, identity: &ProjectIdentity) -> (r: Result<
    Option<IndexFile>,
    Failure,
>)
    ensures
        outcome_option(r) == index_at(handoff@, identity@),
        r matches Ok(Some(v)) ==> ordered(v@.bindings),
{
    let bytes = match handoff.read_file_bounded(INDEX_FILE_NAME, MAX_INDEX_BYTES) {
        Err(e) => {
            return Err(e);
        },
        Ok(None) => {
            return Ok(None);
        },
        Ok(Some(bytes)) => bytes,
    };
    let index = match parse_index(&bytes, handoff.distinct(INDEX_FILE_NAME)) {
        None => {
            return Err(
                refuse("malformed_index", "handoff index is not a supported managed file"),
            );
        },
        Some(index) => index,
    };
    match validate_index(&index, identity) {
        Err(e) => Err(e),
        Ok(_) => Ok(Some(index)),
    }
}

/// The events of one archived segment.
pub open spec fn segment_of(d: DirectoryView, a: ArchiveView) -> Result<Seq<Node>, Failure> {
    match d.read(a.file, MAX_TASK_BYTES as int) {
        Err(e) => Err(e),
        Ok(None) => Err(refused("archive_missing", "archived history is missing")),
        Ok(Some(bytes)) => if bytes.len() != a.bytes || digest_of(bytes) != a.sha256 {
            Err(refused("archive_corrupt", "archived history checksum differs"))
        } else {
            match events_reading(bytes) {
                None => Err(refused("archive_corrupt", "archived events are invalid")),
                Some(events) => if events.len() != a.event_count {
                    Err(refused("archive_corrupt", "archived event count differs"))
                } else {
                    Ok(events)
                },
            }
        },
    }
}

/// The bytes of the first `k` archives.
pub open spec fn archive_bytes(archives: Seq<ArchiveView>, k: nat) -> int
    decreases k,
{
    if k == 0 || k > archives.len() {
        0
    } else {
        archive_bytes(archives, (k - 1) as nat) + archives[k - 1].bytes
    }
}

/// The events of the first `k` archives.
pub open spec fn history_of(
    d: DirectoryView,
    archives: Seq<ArchiveView>,
    id: Seq<char>,
    k: nat,
) -> Result<Seq<Node>, Failure>
    decreases k,
{
    if k == 0 || k > archives.len() {
        Ok(Seq::empty())
    } else {
        match history_of(d, archives, id, (k - 1) as nat) {
            Err(e) => Err(e),
            Ok(events) => match reference_check(archives[k - 1], id) {
                Err(e) => Err(e),
                Ok(_) => if archive_bytes(archives, k) > MAX_TOTAL_BYTES {
                    Err(refused("capacity_exceeded", "archived history exceeds budget"))
                } else {
                    match segment_of(d, archives[k - 1]) {
                        Err(e) => Err(e),
                        Ok(more) => Ok(events + more),
                    }
                },
            },
        }
    }
}

/// The valid task with its whole history.
pub open spec fn task_at(
    d: DirectoryView,
    identity: IdentityView,
    id: Seq<char>,
    policy: Seq<Seq<char>>,
) -> Result<TaskView, Failure> {
    match d.read(task_name(id), MAX_TASK_BYTES as int) {
        Err(e) => Err(e),
        Ok(None) => Err(refused("task_missing", "managed task file is missing")),
        Ok(Some(bytes)) => match task_reading(bytes, d.distinct(task_name(id))) {
            None => Err(refused("malformed_task", "managed task file is invalid")),
            Some(t) => if t.archives.len() > MAX_ARCHIVE_COUNT || t.events.len() > MAX_EVENT_COUNT {
                Err(refused("malformed_task", "task segment limits exceeded"))
            } else {
                match history_of(d, t.archives, id, t.archives.len()) {
                    Err(e) => Err(e),
                    Ok(history) => {
                        let whole = TaskView { events: history + t.events, ..t };
                        match task_check(whole, identity, policy) {
                            Err(e) => Err(e),
                            Ok(_) => if whole.task_id != id {
                                Err(
                                    refused(
                                        "malformed_task",
                                        "managed task file has the wrong task id",
                                    ),
                                )
                            } else {
                                Ok(whole)
                            },
                        }
                    },
                }
            },
        },
    }
}

fn load_segment(handoff: &Directory, archive: &EventArchive) -> (r: Result<Vec<Json>, Failure>)
    ensures
        match r {
            Ok(v) => segment_of(handoff@, archive@) == Ok::<_, Failure>(nodes(v@)) && all_tidy(
                nodes(v@),
            ),
            Err(e) => segment_of(handoff@, archive@) == Err::<Seq<Node>, Failure>(e),
        },
{
    let bytes = match handoff.read_file_bounded(archive.file.as_str(), MAX_TASK_BYTES) {
        Err(e) => {
            return Err(e);
        },
        Ok(None) => {
            return Err(refuse("archive_missing", "archived history is missing"));
        },
        Ok(Some(bytes)) => bytes,
    };
    if bytes.len() as u64 != archive.bytes || !same(
        fingerprint(bytes.as_slice()).as_str(),
        archive.sha256.as_str(),
    ) {
        return Err(refuse("archive_corrupt", "archived history checksum differs"));
    }
    match parse_events(&bytes) {
        None => Err(refuse("archive_corrupt", "archived events are invalid")),
        Some(events) => {
            proof {
                assert(nodes(events@).len() == events@.len());
            }
            if events.len() as u64 != archive.event_count {
                Err(refuse("archive_corrupt", "archived event count differs"))
            } else {
                Ok(events)
            }
        },
    }
}

pub proof fn lemma_history_fail(
    d: DirectoryView,
    archives: Seq<ArchiveView>,
    id: Seq<char>,
    k: nat,
)
    requires
        k <= archives.len(),
        history_of(d, archives, id, k) is Err,
    ensures
        history_of(d, archives, id, archives.len()) == history_of(d, archives, id, k),
    decreases archives.len() - k,
{
    if k < archives.len() {
        lemma_history_fail(d, archives, id, k + 1);
    }
}

/// The events that the first `k` archives count.
pub open spec fn archived_total(archives: Seq<ArchiveView>, k: nat) -> int
    decreases k,
{
    if k == 0 || k > archives.len() {
        0
    } else {
        archived_total(archives, (k - 1) as nat) + archives[k - 1].event_count
    }
}

/// What is loaded from the archives is what they count.
pub proof fn lemma_history_count(
    d: DirectoryView,
    archives: Seq<ArchiveView>,
    id: Seq<char>,
    k: nat,
)
    requires
        k <= archives.len(),
        history_of(d, archives, id, k) is Ok,
    ensures
        history_of(d, archives, id, k)->Ok_0.len() == archived_total(archives, k),
    decreases k,
{
    if k > 0 {
        lemma_history_count(d, archives, id, (k - 1) as nat);
    }
}

fn load_history(handoff: &Directory, archives: &Vec<EventArchive>, task_id: &str) -> (r: Result<
    Vec<Json>,
    Failure,
>)
    requires
        archives@.len() <= MAX_ARCHIVE_COUNT,
    ensures
        match r {
            Ok(v) => history_of(handoff@, views(archives@), task_id@, views(archives@).len())
                == Ok::<_, Failure>(nodes(v@)) && all_tidy(nodes(v@)),
            Err(e) => history_of(handoff@, views(archives@), task_id@, views(archives@).len())
                == Err::<Seq<Node>, Failure>(e),
        },
{
    let ghost refs = views(archives@);
    let mut history: Vec<Json> = Vec::new();
    let mut total: u64 = 0;
    let mut i: usize = 0;
    proof {
        assert(nodes(history@) =~= Seq::<Node>::empty());
    }
    while i < archives.len()
        invariant
            i <= archives@.len(),
            archives@.len() <= MAX_ARCHIVE_COUNT,
            refs == views(archives@),
            refs.len() == archives@.len(),
            history_of(handoff@, refs, task_id@, i as nat) == Ok::<_, Failure>(nodes(history@)),
            all_tidy(nodes(history@)),
            total == archive_bytes(refs, i as nat),
            total <= MAX_TOTAL_BYTES,
        decreases archives@.len() - i,
    {
        let ghost prior = nodes(history@);
        proof {
            assert(refs[i as int] == archives@[i as int]@);
        }
        match validate_archive_reference(&archives[i], task_id) {
            Err(e) => {
                proof {
                    lemma_history_fail(handoff@, refs, task_id@, (i + 1) as nat);
                }
                return Err(e);
            },
            Ok(_) => {},
        }
        total = total + archives[i].bytes;
        if total > MAX_TOTAL_BYTES {
            proof {
                lemma_history_fail(handoff@, refs, task_id@, (i + 1) as nat);
            }
            return Err(refuse("capacity_exceeded", "archived history exceeds budget"));
        }
        match load_segment(handoff, &archives[i]) {
            Err(e) => {
                proof {
                    lemma_history_fail(handoff@, refs, task_id@, (i + 1) as nat);
                }
                return Err(e);
            },
            Ok(more) => {
                let mut more = more;
                let ghost added = nodes(more@);
                history.append(&mut more);
                proof {
                    assert(nodes(history@) =~= prior + added);
                }
            },
        }
        i += 1;
    }
    Ok(history)
}

/// The valid task with its whole history. Archived segments are verified
/// before anything uses them: a missing file never means an empty history.
pub fn load_task(
    handoff: &Directory,
    identity: &ProjectIdentity,
    task_id: &str,
    policy: &PathPolicy,
) -> (r: Result<TaskFile, Failure>)
    ensures
        outcome(r) == task_at(handoff@, identity@, task_id@, policy@),
        r matches Ok(t) ==> {
            &&& ordered(t@.event_aliases)
            &&& all_tidy(t@.events)
            &&& archived_total(t@.archives, t@.archives.len()) <= t@.events.len()
            &&& t@.archives.len() <= MAX_ARCHIVE_COUNT
        },
{
    let name = task_file_name(task_id);
    let bytes = match handoff.read_file_bounded(name.as_str(), MAX_TASK_BYTES) {
        Err(e) => {
            return Err(e);
        },
        Ok(None) => {
            return Err(refuse("task_missing", "managed task file is missing"));
        },
        Ok(Some(bytes)) => bytes,
    };
    let mut task = match parse_task(&bytes, handoff.distinct(name.as_str())) {
        None => {
            return Err(refuse("malformed_task", "managed task file is invalid"));
        },
        Some(task) => task,
    };
    let ghost disk = task@;
    proof {
        assert(disk.archives.len() == task.archives@.len());
        assert(disk.events.len() == task.events@.len());
    }
    if task.archives.len() > MAX_ARCHIVE_COUNT || task.events.len() > MAX_EVENT_COUNT {
        return Err(refuse("malformed_task", "task segment limits exceeded"));
    }
    let mut history = match load_history(handoff, &task.archives, task_id) {
        Err(e) => {
            return Err(e);
        },
        Ok(history) => history,
    };
    let ghost past = nodes(history@);
    history.append(&mut task.events);
    task.events = history;
    proof {
        assert(nodes(task.events@) =~= past + disk.events);
        lemma_history_count(handoff@, disk.archives, task_id@, disk.archives.len());
    }
    match validate_task(&task, identity, policy) {
        Err(e) => {
            return Err(e);
        },
        Ok(_) => {},
    }
    if !same(task.task_id.as_str(), task_id) {
        return Err(refuse("malformed_task", "managed task file has the wrong task id"));
    }
    Ok(task)
}

/// The bytes of a task file, whatever they hold.
pub open spec fn task_bytes_at(d: DirectoryView, id: Seq<char>) -> Result<Seq<u8>, Failure> {
    match d.read(task_name(id), MAX_TASK_BYTES as int) {
        Err(e) => Err(e),
        Ok(None) => Err(refused("task_missing", "managed task file is missing")),
        Ok(Some(bytes)) => Ok(bytes),
    }
}

pub fn read_existing_task_bytes(handoff: &Directory, task_id: &str) -> (r: Result<
    Vec<u8>,
    Failure,
>)
    ensures
        outcome(r) == task_bytes_at(handoff@, task_id@),
{
    match handoff.read_file_bounded(task_file_name(task_id).as_str(), MAX_TASK_BYTES) {
        Err(e) => Err(e),
        Ok(None) => Err(refuse("task_missing", "managed task file is missing")),
        Ok(Some(bytes)) => Ok(bytes),
    }
}

} // verus!
