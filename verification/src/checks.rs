//! When an index or a task file is a valid managed file.
use vstd::prelude::*;
use crate::event::{
    MAX_TASK_ID_CHARS, MAX_TITLE_CHARS, actor_of, event_id_of, event_of, is_task_status,
    normalize_event, parse_actor_id, parse_event_id, parse_slug, parse_text, slug_of,
    task_status_known, text_of,
};
use crate::failure::{Failure, refuse, refused, views};
use crate::json::{Json, Node, nodes, text_json};
use crate::markdown::{MAX_EVENT_COUNT};
use crate::path::{PathPolicy};
use crate::records::{
    ArchiveView, EventArchive, IdentityView, IndexFile, IndexView, ProjectIdentity, SummaryView,
    TaskFile, TaskSummary, TaskView, copy_summaries,
};
use crate::table::{pairs};
use crate::text::{all_lower_hex, is_lower_hex, joined, length, same};

verus! {

pub const INDEX_FILE_NAME: &'static str = "index.json";

pub const INDEX_FORMAT: &'static str = "webcodex.handoff.index.v1";

pub const TASK_FORMAT: &'static str = "webcodex.handoff.task.v1";

pub const MANAGED_BY: &'static str = "webcodex";

pub const MAX_ARCHIVE_COUNT: usize = 64;

pub const MAX_TASK_COUNT: usize = 64;

pub const MAX_RETIRED_TASK_COUNT: usize = 128;

pub const MAX_RETIRED_BYTES: u64 = 134217728;

pub const MAX_INDEX_BYTES: usize = 65536;

pub const MAX_TASK_BYTES: usize = 262144;

pub const MAX_TOTAL_BYTES: u64 = 2097152;

/// The most events that a task can hold: a full segment and all archives.
pub const MAX_HISTORY_COUNT: usize = 8320;

/// Whether a task is listed.
pub open spec fn has_task(all: Seq<SummaryView>, id: Seq<char>) -> bool {
    exists|i: int| 0 <= i < all.len() && (#[trigger] all[i]).task_id == id
}

/// Whether some earlier summary has the same task id.
pub open spec fn repeated(all: Seq<SummaryView>, i: int) -> bool {
    has_task(all.take(i), all[i].task_id)
}

/// Whether summary number `i` is valid.
pub open spec fn summary_check(all: Seq<SummaryView>, i: int) -> Result<(), Failure> {
    match slug_of(Node::Text(all[i].task_id), MAX_TASK_ID_CHARS as int) {
        Err(e) => Err(e),
        Ok(_) => match text_of(Node::Text(all[i].title), MAX_TITLE_CHARS as int, false) {
            Err(e) => Err(e),
            Ok(_) => if !is_task_status(all[i].status) || all[i].revision == 0 || repeated(all, i) {
                Err(refused("malformed_index", "handoff task summary is invalid"))
            } else {
                Ok(())
            },
        },
    }
}

/// Whether the first `k` summaries are valid.
pub open spec fn summaries_check(all: Seq<SummaryView>, k: nat) -> Result<(), Failure>
    decreases k,
{
    if k == 0 || k > all.len() {
        Ok(())
    } else {
        match summaries_check(all, (k - 1) as nat) {
            Err(e) => Err(e),
            Ok(_) => summary_check(all, k - 1),
        }
    }
}

/// Whether a client is bound to a listed task.
pub open spec fn binding_check(all: Seq<SummaryView>, b: (Seq<char>, Seq<char>)) -> Result<
    (),
    Failure,
> {
    match actor_of(Node::Text(b.0)) {
        Err(e) => Err(e),
        Ok(_) => match slug_of(Node::Text(b.1), MAX_TASK_ID_CHARS as int) {
            Err(e) => Err(e),
            Ok(_) => if !has_task(all, b.1) {
                Err(refused("malformed_index", "handoff binding references no task"))
            } else {
                Ok(())
            },
        },
    }
}

/// Whether the first `k` bindings are valid.
pub open spec fn bindings_check(
    all: Seq<SummaryView>,
    bindings: Seq<(Seq<char>, Seq<char>)>,
    k: nat,
) -> Result<(), Failure>
    decreases k,
{
    if k == 0 || k > bindings.len() {
        Ok(())
    } else {
        match bindings_check(all, bindings, (k - 1) as nat) {
            Err(e) => Err(e),
            Ok(_) => binding_check(all, bindings[k - 1]),
        }
    }
}

/// Whether the counts of an index are within their limits.
pub open spec fn index_bounded(v: IndexView) -> bool {
    &&& v.revision != 0
    &&& v.tasks.len() <= MAX_TASK_COUNT
    &&& v.retired_tasks.len() <= MAX_RETIRED_TASK_COUNT
    &&& (v.version == 1 ==> v.retired_tasks.len() == 0)
}

/// Whether an index is a valid managed index of the project.
pub open spec fn index_check(v: IndexView, identity: IdentityView) -> Result<(), Failure> {
    if v.format != INDEX_FORMAT@ || !(v.version == 1 || v.version == 2) || v.managed_by
        != MANAGED_BY@ {
        Err(refused("non_managed_file", "handoff index is not managed by WebCodex"))
    } else if v.project_identity != identity {
        Err(refused("project_identity_mismatch", "handoff belongs to another directory"))
    } else if !index_bounded(v) {
        Err(refused("malformed_index", "handoff index is outside its limits"))
    } else {
        let all = v.tasks + v.retired_tasks;
        match summaries_check(all, all.len()) {
            Err(e) => Err(e),
            Ok(_) => bindings_check(all, v.bindings, v.bindings.len()),
        }
    }
}

pub proof fn lemma_summaries_check_fail(all: Seq<SummaryView>, k: nat)
    requires
        k <= all.len(),
        summaries_check(all, k) is Err,
    ensures
        summaries_check(all, all.len()) == summaries_check(all, k),
    decreases all.len() - k,
{
    if k < all.len() {
        lemma_summaries_check_fail(all, k + 1);
    }
}

proof fn lemma_bindings_check_fail(
    all: Seq<SummaryView>,
    bindings: Seq<(Seq<char>, Seq<char>)>,
    k: nat,
)
    requires
        k <= bindings.len(),
        bindings_check(all, bindings, k) is Err,
    ensures
        bindings_check(all, bindings, bindings.len()) == bindings_check(all, bindings, k),
    decreases bindings.len() - k,
{
    if k < bindings.len() {
        lemma_bindings_check_fail(all, bindings, k + 1);
    }
}

/// Whether one of the first `upto` summaries has the task id.
pub fn lists_task(all: &Vec<TaskSummary>, upto: usize, id: &str) -> (r: bool)
    requires
        upto <= all@.len(),
    ensures
        r == has_task(views(all@).take(upto as int), id@),
{
    let ghost s = views(all@).take(upto as int);
    let mut i: usize = 0;
    while i < upto
        invariant
            i <= upto <= all@.len(),
            s == views(all@).take(upto as int),
            forall|j: int| 0 <= j < i ==> (#[trigger] s[j]).task_id != id@,
        decreases upto - i,
    {
        proof {
            assert(s[i as int] == all@[i as int]@);
        }
        if same(all[i].task_id.as_str(), id) {
            return true;
        }
        i += 1;
    }
    false
}

/// Whether a task is listed.
pub fn includes_task(all: &Vec<TaskSummary>, id: &str) -> (r: bool)
    ensures
        r == has_task(views(all@), id@),
{
    proof {
        assert(views(all@).take(all@.len() as int) =~= views(all@));
    }
    lists_task(all, all.len(), id)
}

fn check_summary(all: &Vec<TaskSummary>, i: usize) -> (r: Result<(), Failure>)
    requires
        i < all@.len(),
    ensures
        r == summary_check(views(all@), i as int),
{
    let s = &all[i];
    proof {
        assert(views(all@)[i as int] == s@);
    }
    match parse_slug(&text_json(s.task_id.as_str()), MAX_TASK_ID_CHARS) {
        Err(e) => {
            return Err(e);
        },
        Ok(_) => {},
    }
    match parse_text(&text_json(s.title.as_str()), MAX_TITLE_CHARS, false) {
        Err(e) => {
            return Err(e);
        },
        Ok(_) => {},
    }
    if !task_status_known(s.status.as_str()) || s.revision == 0 || lists_task(
        all,
        i,
        s.task_id.as_str(),
    ) {
        return Err(refuse("malformed_index", "handoff task summary is invalid"));
    }
    Ok(())
}

fn check_summaries(all: &Vec<TaskSummary>) -> (r: Result<(), Failure>)
    ensures
        r == summaries_check(views(all@), views(all@).len()),
{
    let mut i: usize = 0;
    while i < all.len()
        invariant
            i <= all@.len(),
            summaries_check(views(all@), i as nat) is Ok,
        decreases all@.len() - i,
    {
        match check_summary(all, i) {
            Err(e) => {
                proof {
                    lemma_summaries_check_fail(views(all@), (i + 1) as nat);
                }
                return Err(e);
            },
            Ok(_) => {},
        }
        i += 1;
    }
    Ok(())
}

fn check_bindings(all: &Vec<TaskSummary>, bindings: &Vec<(String, String)>) -> (r: Result<
    (),
    Failure,
>)
    ensures
        r == bindings_check(views(all@), pairs(bindings@), pairs(bindings@).len()),
{
    let mut i: usize = 0;
    while i < bindings.len()
        invariant
            i <= bindings@.len(),
            bindings_check(views(all@), pairs(bindings@), i as nat) is Ok,
        decreases bindings@.len() - i,
    {
        proof {
            assert(pairs(bindings@)[i as int] == (bindings@[i as int].0@, bindings@[i as int].1@));
        }
        let verdict = match parse_actor_id(&text_json(bindings[i].0.as_str())) {
            Err(e) => Err(e),
            Ok(_) => match parse_slug(&text_json(bindings[i].1.as_str()), MAX_TASK_ID_CHARS) {
                Err(e) => Err(e),
                Ok(_) => if !includes_task(all, bindings[i].1.as_str()) {
                    Err(refuse("malformed_index", "handoff binding references no task"))
                } else {
                    Ok(())
                },
            },
        };
        match verdict {
            Err(e) => {
                proof {
                    lemma_bindings_check_fail(views(all@), pairs(bindings@), (i + 1) as nat);
                }
                return Err(e);
            },
            Ok(_) => {},
        }
        i += 1;
    }
    Ok(())
}

/// The active and the retired summaries.
pub fn all_summaries(index: &IndexFile) -> (r: Vec<TaskSummary>)
    ensures
        views(r@) == index@.tasks + index@.retired_tasks,
{
    let mut all = copy_summaries(&index.tasks);
    let ghost first = views(all@);
    let mut rest = copy_summaries(&index.retired_tasks);
    let ghost second = views(rest@);
    all.append(&mut rest);
    proof {
        assert(views(all@) =~= first + second);
    }
    all
}

/// Whether an index is a valid managed index of the project.
pub fn validate_index(index: &IndexFile, identity: &ProjectIdentity) -> (r: Result<(), Failure>)
    ensures
        r == index_check(index@, identity@),
{
    if !same(index.format.as_str(), INDEX_FORMAT) || !(index.version == 1 || index.version == 2)
        || !same(index.managed_by.as_str(), MANAGED_BY) {
        return Err(refuse("non_managed_file", "handoff index is not managed by WebCodex"));
    }
    if !index.project_identity.equals(identity) {
        return Err(refuse("project_identity_mismatch", "handoff belongs to another directory"));
    }
    proof {
        assert(index@.tasks.len() == index.tasks@.len());
        assert(index@.retired_tasks.len() == index.retired_tasks@.len());
    }
    if index.revision == 0 || index.tasks.len() > MAX_TASK_COUNT || index.retired_tasks.len()
        > MAX_RETIRED_TASK_COUNT || (index.version == 1 && index.retired_tasks.len() != 0) {
        return Err(refuse("malformed_index", "handoff index is outside its limits"));
    }
    let all = all_summaries(index);
    match check_summaries(&all) {
        Err(e) => {
            return Err(e);
        },
        Ok(_) => {},
    }
    check_bindings(&all, &index.bindings)
}

/// Whether a text is the hexadecimal form of a SHA-256 digest.
pub open spec fn is_digest(s: Seq<char>) -> bool {
    s.len() == 64 && forall|i: int| 0 <= i < s.len() ==> is_lower_hex(#[trigger] s[i])
}

pub fn digest_shaped(s: &str) -> (r: bool)
    ensures
        r == is_digest(s@),
{
    length(s) == 64 && all_lower_hex(s)
}

/// The name of a task file.
pub open spec fn task_name(id: Seq<char>) -> Seq<char> {
    id + ".json"@
}

/// The name of the Markdown file of a task.
pub open spec fn markdown_name(id: Seq<char>) -> Seq<char> {
    id + ".md"@
}

/// The name of a segment of archived history.
pub open spec fn archive_name(id: Seq<char>, sha256: Seq<char>) -> Seq<char> {
    id + ".events-"@ + sha256 + ".json"@
}

pub fn task_file_name(task_id: &str) -> (r: String)
    ensures
        r@ == task_name(task_id@),
{
    joined(task_id, ".json")
}

pub fn markdown_file_name(task_id: &str) -> (r: String)
    ensures
        r@ == markdown_name(task_id@),
{
    joined(task_id, ".md")
}

pub fn archive_file_name(task_id: &str, sha256: &str) -> (r: String)
    ensures
        r@ == archive_name(task_id@, sha256@),
{
    let mut out = joined(task_id, ".events-");
    out.append(sha256);
    out.append(".json");
    out
}

/// Whether an archive reference is valid for the task.
pub open spec fn reference_check(a: ArchiveView, id: Seq<char>) -> Result<(), Failure> {
    if !is_digest(a.sha256) || a.file != archive_name(id, a.sha256) || a.event_count == 0
        || a.event_count > MAX_EVENT_COUNT || a.bytes > MAX_TASK_BYTES {
        Err(refused("malformed_task", "invalid archive reference"))
    } else {
        Ok(())
    }
}

pub fn validate_archive_reference(archive: &EventArchive, task_id: &str) -> (r: Result<(), Failure>)
    ensures
        r == reference_check(archive@, task_id@),
{
    if !digest_shaped(archive.sha256.as_str()) || !same(
        archive.file.as_str(),
        archive_file_name(task_id, archive.sha256.as_str()).as_str(),
    ) || archive.event_count == 0 || archive.event_count > MAX_EVENT_COUNT as u64 || archive.bytes
        > MAX_TASK_BYTES as u64 {
        return Err(refuse("malformed_task", "invalid archive reference"));
    }
    Ok(())
}

/// The ids of the first `k` events, each valid and none twice.
pub open spec fn ids_of(events: Seq<Node>, k: nat, policy: Seq<Seq<char>>) -> Result<
    Seq<Seq<char>>,
    Failure,
>
    decreases k,
{
    if k == 0 || k > events.len() {
        Ok(Seq::empty())
    } else {
        match ids_of(events, (k - 1) as nat, policy) {
            Err(e) => Err(e),
            Ok(ids) => match event_of(events[k - 1], policy) {
                Err(e) => Err(e),
                Ok(event) => if ids.contains(event.id) {
                    Err(refused("malformed_task", "task contains duplicate event ids"))
                } else {
                    Ok(ids.push(event.id))
                },
            },
        }
    }
}

/// Whether the first `k` aliases are valid.
pub open spec fn aliases_check(
    aliases: Seq<(Seq<char>, Seq<char>)>,
    k: nat,
    ids: Seq<Seq<char>>,
) -> Result<(), Failure>
    decreases k,
{
    if k == 0 || k > aliases.len() {
        Ok(())
    } else {
        match aliases_check(aliases, (k - 1) as nat, ids) {
            Err(e) => Err(e),
            Ok(_) => match event_id_of(Node::Text(aliases[k - 1].0)) {
                Err(e) => Err(e),
                Ok(_) => if ids.contains(aliases[k - 1].0) || !is_digest(aliases[k - 1].1) {
                    Err(refused("malformed_task", "invalid event alias"))
                } else {
                    Ok(())
                },
            },
        }
    }
}

/// How many of the first `k` events report an unknown outcome.
pub open spec fn unknown_total(events: Seq<Node>, k: nat, policy: Seq<Seq<char>>) -> nat
    decreases k,
{
    if k == 0 || k > events.len() {
        0
    } else {
        let prior = unknown_total(events, (k - 1) as nat, policy);
        match event_of(events[k - 1], policy) {
            Ok(e) => if e.unknown {
                prior + 1
            } else {
                prior
            },
            Err(_) => prior,
        }
    }
}

/// Whether a task with its whole history is a valid managed task of the
/// project.
pub open spec fn task_check(
    t: TaskView,
    identity: IdentityView,
    policy: Seq<Seq<char>>,
) -> Result<(), Failure> {
    if t.format != TASK_FORMAT@ || t.version != 1 || t.managed_by != MANAGED_BY@ {
        Err(refused("non_managed_file", "task file is not managed by WebCodex"))
    } else if t.project_identity != identity || t.revision == 0 || t.events.len()
        > MAX_HISTORY_COUNT || !is_task_status(t.status) {
        Err(refused("malformed_task", "task file is outside its limits"))
    } else {
        match slug_of(Node::Text(t.task_id), MAX_TASK_ID_CHARS as int) {
            Err(e) => Err(e),
            Ok(_) => match text_of(Node::Text(t.title), MAX_TITLE_CHARS as int, false) {
                Err(e) => Err(e),
                Ok(_) => match ids_of(t.events, t.events.len(), policy) {
                    Err(e) => Err(e),
                    Ok(ids) => match aliases_check(t.event_aliases, t.event_aliases.len(), ids) {
                        Err(e) => Err(e),
                        Ok(_) => if unknown_total(t.events, t.events.len(), policy)
                            != t.unknown_count {
                            Err(refused("malformed_task", "task unknown fact count is invalid"))
                        } else {
                            Ok(())
                        },
                    },
                },
            },
        }
    }
}

pub proof fn lemma_ids_fail(events: Seq<Node>, k: nat, policy: Seq<Seq<char>>)
    requires
        k <= events.len(),
        ids_of(events, k, policy) is Err,
    ensures
        ids_of(events, events.len(), policy) == ids_of(events, k, policy),
    decreases events.len() - k,
{
    if k < events.len() {
        lemma_ids_fail(events, k + 1, policy);
    }
}

proof fn lemma_aliases_fail(aliases: Seq<(Seq<char>, Seq<char>)>, k: nat, ids: Seq<Seq<char>>)
    requires
        k <= aliases.len(),
        aliases_check(aliases, k, ids) is Err,
    ensures
        aliases_check(aliases, aliases.len(), ids) == aliases_check(aliases, k, ids),
    decreases aliases.len() - k,
{
    if k < aliases.len() {
        lemma_aliases_fail(aliases, k + 1, ids);
    }
}

fn has_name(list: &Vec<String>, name: &str) -> (r: bool)
    ensures
        r == views(list@).contains(name@),
{
    let mut i: usize = 0;
    while i < list.len()
        invariant
            i <= list@.len(),
            forall|j: int| 0 <= j < i ==> views(list@)[j] != name@,
        decreases list@.len() - i,
    {
        if same(list[i].as_str(), name) {
            proof {
                assert(views(list@)[i as int] == name@);
            }
            return true;
        }
        i += 1;
    }
    false
}

/// The ids of all events, and how many report an unknown outcome.
fn collect_ids(events: &Vec<Json>, policy: &PathPolicy) -> (r: Result<(Vec<String>, u64), Failure>)
    ensures
        match r {
            Ok((ids, unknown)) => ids_of(nodes(events@), nodes(events@).len(), policy@) == Ok::<
                _,
                Failure,
            >(views(ids@)) && unknown == unknown_total(
                nodes(events@),
                nodes(events@).len(),
                policy@,
            ),
            Err(e) => ids_of(nodes(events@), nodes(events@).len(), policy@) == Err::<
                Seq<Seq<char>>,
                Failure,
            >(e),
        },
{
    let mut ids: Vec<String> = Vec::new();
    let mut unknown: u64 = 0;
    let mut i: usize = 0;
    proof {
        assert(views(ids@) =~= Seq::<Seq<char>>::empty());
    }
    while i < events.len()
        invariant
            i <= events@.len(),
            ids_of(nodes(events@), i as nat, policy@) == Ok::<_, Failure>(views(ids@)),
            unknown == unknown_total(nodes(events@), i as nat, policy@),
            unknown <= i,
        decreases events@.len() - i,
    {
        let ghost prior = views(ids@);
        proof {
            assert(nodes(events@)[i as int] == events@[i as int]@);
        }
        match normalize_event(&events[i], policy) {
            Err(e) => {
                proof {
                    lemma_ids_fail(nodes(events@), (i + 1) as nat, policy@);
                }
                return Err(e);
            },
            Ok(event) => {
                if has_name(&ids, event.id.as_str()) {
                    proof {
                        lemma_ids_fail(nodes(events@), (i + 1) as nat, policy@);
                    }
                    return Err(refuse("malformed_task", "task contains duplicate event ids"));
                }
                if event.unknown {
                    unknown += 1;
                }
                ids.push(event.id);
                proof {
                    assert(views(ids@) =~= prior.push(event.id@));
                }
            },
        }
        i += 1;
    }
    Ok((ids, unknown))
}

fn check_aliases(aliases: &Vec<(String, String)>, ids: &Vec<String>) -> (r: Result<(), Failure>)
    ensures
        r == aliases_check(pairs(aliases@), pairs(aliases@).len(), views(ids@)),
{
    let mut i: usize = 0;
    while i < aliases.len()
        invariant
            i <= aliases@.len(),
            aliases_check(pairs(aliases@), i as nat, views(ids@)) is Ok,
        decreases aliases@.len() - i,
    {
        proof {
            assert(pairs(aliases@)[i as int] == (aliases@[i as int].0@, aliases@[i as int].1@));
        }
        let verdict = match parse_event_id(&text_json(aliases[i].0.as_str())) {
            Err(e) => Err(e),
            Ok(_) => if has_name(ids, aliases[i].0.as_str()) || !digest_shaped(
                aliases[i].1.as_str(),
            ) {
                Err(refuse("malformed_task", "invalid event alias"))
            } else {
                Ok(())
            },
        };
        match verdict {
            Err(e) => {
                proof {
                    lemma_aliases_fail(pairs(aliases@), (i + 1) as nat, views(ids@));
                }
                return Err(e);
            },
            Ok(_) => {},
        }
        i += 1;
    }
    Ok(())
}

/// Whether a task with its whole history is a valid managed task of the
/// project.
pub fn validate_task(task: &TaskFile, identity: &ProjectIdentity, policy: &PathPolicy) -> (r:
    Result<(), Failure>)
    ensures
        r == task_check(task@, identity@, policy@),
{
    if !same(task.format.as_str(), TASK_FORMAT) || task.version != 1 || !same(
        task.managed_by.as_str(),
        MANAGED_BY,
    ) {
        return Err(refuse("non_managed_file", "task file is not managed by WebCodex"));
    }
    proof {
        assert(task@.events.len() == task.events@.len());
    }
    if !task.project_identity.equals(identity) || task.revision == 0 || task.events.len()
        > MAX_HISTORY_COUNT || !task_status_known(task.status.as_str()) {
        return Err(refuse("malformed_task", "task file is outside its limits"));
    }
    match parse_slug(&text_json(task.task_id.as_str()), MAX_TASK_ID_CHARS) {
        Err(e) => {
            return Err(e);
        },
        Ok(_) => {},
    }
    match parse_text(&text_json(task.title.as_str()), MAX_TITLE_CHARS, false) {
        Err(e) => {
            return Err(e);
        },
        Ok(_) => {},
    }
    let (ids, unknown) = match collect_ids(&task.events, policy) {
        Err(e) => {
            return Err(e);
        },
        Ok(found) => found,
    };
    match check_aliases(&task.event_aliases, &ids) {
        Err(e) => {
            return Err(e);
        },
        Ok(_) => {},
    }
    if unknown != task.unknown_count {
        return Err(refuse("malformed_task", "task unknown fact count is invalid"));
    }
    Ok(())
}

} // verus!
