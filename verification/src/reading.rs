//! Which files of a checkpoint a request reads.
use vstd::prelude::*;
use crate::anchor::{ANCHOR_FILE_NAME};
use crate::checkpoint::{Asked, AskedView};
use crate::checks::{
    INDEX_FILE_NAME, MAX_INDEX_BYTES, markdown_file_name, markdown_name, task_file_name,
    task_name,
};
use crate::directory::{Directory, DirectoryView, index_reading, parse_index};
use crate::failure::{views};
use crate::records::{IndexView, SummaryView, TaskSummary};
use crate::request::{Action, RequestView};
use crate::text::{has_prefix, joined, same, starts_with};

verus! {

/// The ids of the listed tasks.
pub open spec fn task_ids(tasks: Seq<SummaryView>) -> Seq<Seq<char>> {
    Seq::new(tasks.len(), |i: int| tasks[i].task_id)
}

/// The index of a directory as its file gives it, whatever it says.
pub open spec fn listed_index(d: DirectoryView) -> Option<IndexView> {
    match d.read(INDEX_FILE_NAME@, MAX_INDEX_BYTES as int) {
        Ok(Some(bytes)) => index_reading(bytes, d.distinct(INDEX_FILE_NAME@)),
        _ => None,
    }
}

pub open spec fn active_ids(d: DirectoryView) -> Seq<Seq<char>> {
    match listed_index(d) {
        Some(v) => task_ids(v.tasks),
        None => Seq::empty(),
    }
}

pub open spec fn retired_ids(d: DirectoryView) -> Seq<Seq<char>> {
    match listed_index(d) {
        Some(v) => task_ids(v.retired_tasks),
        None => Seq::empty(),
    }
}

/// The task that a request names.
pub open spec fn named_ids(r: RequestView) -> Seq<Seq<char>> {
    match r.task_id {
        Some(id) => seq![id],
        None => Seq::empty(),
    }
}

/// The tasks whose files are read for what a value asks: the named one; the
/// active ones where they are counted; the retired ones where the retained
/// history is; and all of them for a repair.
pub open spec fn concerned_ids(a: AskedView, d: DirectoryView) -> Seq<Seq<char>> {
    match a {
        AskedView::Repair => active_ids(d) + retired_ids(d),
        AskedView::Checked(r) => match r.action {
            Action::Read => named_ids(r),
            Action::Disable => named_ids(r),
            Action::Archive => named_ids(r) + retired_ids(d),
            _ => named_ids(r) + active_ids(d),
        },
    }
}

/// Whether a file belongs to a task: its record, its Markdown or a segment of
/// its history.
pub open spec fn belongs(name: Seq<char>, id: Seq<char>) -> bool {
    ||| name == task_name(id)
    ||| name == markdown_name(id)
    ||| has_prefix(name, id + ".events-"@)
}

/// Whether a file is read where the given tasks are concerned.
pub open spec fn is_needed(name: Seq<char>, ids: Seq<Seq<char>>) -> bool {
    ||| name == INDEX_FILE_NAME@
    ||| name == ANCHOR_FILE_NAME@
    ||| exists|i: int| 0 <= i < ids.len() && belongs(name, #[trigger] ids[i])
}

#[verifier::loop_isolation(false)]
fn push_ids(out: &mut Vec<String>, tasks: &Vec<TaskSummary>)
    ensures
        views(final(out)@) == views(old(out)@) + task_ids(views(tasks@)),
{
    let ghost before = views(out@);
    let ghost more = task_ids(views(tasks@));
    let mut i: usize = 0;
    proof {
        assert(more.len() == tasks@.len());
        assert(before + more.take(0) =~= before);
    }
    while i < tasks.len()
        invariant
            i <= tasks@.len(),
            views(out@) == before + more.take(i as int),
        decreases tasks@.len() - i,
    {
        let ghost prior = views(out@);
        out.push(tasks[i].task_id.clone());
        proof {
            assert(more[i as int] == tasks@[i as int]@.task_id);
            assert(views(out@) =~= prior.push(more[i as int]));
            assert(more.take(i + 1) =~= more.take(i as int).push(more[i as int]));
        }
        i += 1;
    }
    proof {
        assert(more.take(more.len() as int) =~= more);
    }
}

/// The tasks whose files are read for what a value asks. The directory may hold
/// the index alone.
pub fn concerned(asked: &Asked, handoff: &Directory) -> (r: Vec<String>)
    ensures
        views(r@) == concerned_ids(asked@, handoff@),
{
    let index = match handoff.read_file_bounded(INDEX_FILE_NAME, MAX_INDEX_BYTES) {
        Ok(Some(bytes)) => parse_index(&bytes, handoff.distinct(INDEX_FILE_NAME)),
        _ => None,
    };
    let mut out: Vec<String> = Vec::new();
    let (active, retired) = match asked {
        Asked::Repair => (true, true),
        Asked::Checked(request) => {
            match &request.task_id {
                Some(id) => out.push(id.clone()),
                None => {},
            }
            match request.action {
                Action::Read => (false, false),
                Action::Disable => (false, false),
                Action::Archive => (false, true),
                _ => (true, false),
            }
        },
    };
    let ghost named = match asked@ {
        AskedView::Repair => Seq::<Seq<char>>::empty(),
        AskedView::Checked(q) => named_ids(q),
    };
    proof {
        assert(views(out@) =~= named);
    }
    match &index {
        Some(index) => {
            if active {
                push_ids(&mut out, &index.tasks);
            }
            if retired {
                push_ids(&mut out, &index.retired_tasks);
            }
        },
        None => {},
    }
    proof {
        assert(views(out@) =~= concerned_ids(asked@, handoff@));
    }
    out
}

fn is_of(name: &str, id: &str) -> (r: bool)
    ensures
        r == belongs(name@, id@),
{
    same(name, task_file_name(id).as_str()) || same(name, markdown_file_name(id).as_str())
        || starts_with(name, joined(id, ".events-").as_str())
}

/// Whether a file is read where the given tasks are concerned.
#[verifier::loop_isolation(false)]
pub fn needed(name: &str, ids: &Vec<String>) -> (r: bool)
    ensures
        r == is_needed(name@, views(ids@)),
{
    if same(name, INDEX_FILE_NAME) || same(name, ANCHOR_FILE_NAME) {
        return true;
    }
    let ghost all = views(ids@);
    let mut i: usize = 0;
    while i < ids.len()
        invariant
            i <= ids@.len(),
            forall|j: int| 0 <= j < i ==> !belongs(name@, #[trigger] all[j]),
        decreases ids@.len() - i,
    {
        proof {
            assert(all[i as int] == ids@[i as int]@);
        }
        if is_of(name, ids[i].as_str()) {
            return true;
        }
        i += 1;
    }
    false
}

} // verus!
