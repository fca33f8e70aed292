//! Writing files: when a write is admitted, and what its failure means.
use vstd::prelude::*;
use crate::checks::{INDEX_FILE_NAME, MAX_INDEX_BYTES, MAX_TASK_BYTES};
use crate::directory::{Directory, DirectoryView};
use crate::failure::{
    Failure, changed, content, mark_state_changed, outcome, refuse, refused, views,
};
use crate::reply::{Reply, ReplyView};
use crate::text::{copy_bytes, same, same_bytes};

verus! {

/// One file that has to be written.
#[derive(Debug)]
pub struct Write {
    pub name: String,
    pub bytes: Vec<u8>,
    /// Whether an existing file may be replaced.
    pub replace: bool,
    /// The content that the file must still have, where that matters.
    pub expected: Option<Option<Vec<u8>>>,
    /// Whether earlier writes are durable when this one fails.
    pub blame: bool,
    /// The files to remove when this write fails.
    pub undo: Vec<String>,
    /// Whether they are removed even if the failed write may be durable.
    pub undo_always: bool,
}

pub struct WriteView {
    pub name: Seq<char>,
    pub bytes: Seq<u8>,
    pub replace: bool,
    pub expected: Option<Option<Seq<u8>>>,
    pub blame: bool,
    pub undo: Seq<Seq<char>>,
    pub undo_always: bool,
}

impl View for Write {
    type V = WriteView;

    open spec fn view(&self) -> WriteView {
        WriteView {
            name: self.name@,
            bytes: self.bytes@,
            replace: self.replace,
            expected: match self.expected {
                Some(o) => Some(content(o)),
                None => None,
            },
            blame: self.blame,
            undo: views(self.undo@),
            undo_always: self.undo_always,
        }
    }
}

/// A write without conditions.
pub open spec fn plain_write(
    name: Seq<char>,
    bytes: Seq<u8>,
    replace: bool,
    blame: bool,
) -> WriteView {
    WriteView {
        name,
        bytes,
        replace,
        expected: None,
        blame,
        undo: Seq::empty(),
        undo_always: false,
    }
}

/// A write of Markdown that replaces exactly what was read.
pub open spec fn checked_write(
    name: Seq<char>,
    bytes: Seq<u8>,
    original: Option<Seq<u8>>,
) -> WriteView {
    WriteView {
        name,
        bytes,
        replace: true,
        expected: Some(original),
        blame: true,
        undo: Seq::empty(),
        undo_always: false,
    }
}

impl Write {
    pub fn plain(name: String, bytes: Vec<u8>, replace: bool, blame: bool) -> (r: Write)
        ensures
            r@ == plain_write(name@, bytes@, replace, blame),
    {
        let undo: Vec<String> = Vec::new();
        proof {
            assert(views(undo@) =~= Seq::<Seq<char>>::empty());
        }
        Write { name, bytes, replace, expected: None, blame, undo, undo_always: false }
    }

    pub fn checked(name: String, bytes: Vec<u8>, original: Option<Vec<u8>>) -> (r: Write)
        ensures
            r@ == checked_write(name@, bytes@, content(original)),
    {
        let undo: Vec<String> = Vec::new();
        proof {
            assert(views(undo@) =~= Seq::<Seq<char>>::empty());
        }
        Write {
            name,
            bytes,
            replace: true,
            expected: Some(original),
            blame: true,
            undo,
            undo_always: false,
        }
    }
}

/// Whether a write is admitted over what the file holds now.
pub open spec fn admission(w: WriteView, exists: bool, original: Option<Seq<u8>>) -> Result<
    (),
    Failure,
> {
    if w.expected is Some && w.expected->0 != original {
        Err(refused("markdown_conflict", "handoff content changed since it was read"))
    } else if exists && !w.replace {
        Err(refused("non_managed_file", "handoff target already exists"))
    } else {
        Ok(())
    }
}

/// Whether the bytes of an index fit.
pub open spec fn size_check(w: WriteView) -> Result<(), Failure> {
    if w.bytes.len() > MAX_INDEX_BYTES && w.name == INDEX_FILE_NAME@ {
        Err(refused("capacity_exceeded", "handoff index exceeds its capacity limit"))
    } else {
        Ok(())
    }
}

/// Whether a write is admitted in the directory.
pub open spec fn write_check(d: DirectoryView, w: WriteView) -> Result<(), Failure> {
    match size_check(w) {
        Err(e) => Err(e),
        Ok(_) => match d.inspect(w.name) {
            Err(e) => Err(e),
            Ok(before) => match d.read(w.name, MAX_TASK_BYTES as int) {
                Err(e) => Err(e),
                Ok(original) => admission(w, before is Some, original),
            },
        },
    }
}

/// Whether a failed write calls for the removal of other files.
pub open spec fn undoes(w: WriteView, f: Failure) -> bool {
    w.undo.len() > 0 && (w.undo_always || !f.state_changed)
}

/// What a failed write is reported as.
pub open spec fn reported(w: WriteView, f: Failure, cleanup_failed: bool) -> Failure {
    if undoes(w, f) {
        if cleanup_failed {
            changed(f)
        } else {
            f
        }
    } else if w.blame {
        changed(f)
    } else {
        f
    }
}

/// Whether two optional contents are the same.
fn same_content(a: &Option<Vec<u8>>, b: &Option<Vec<u8>>) -> (r: bool)
    ensures
        r == (content(*a) == content(*b)),
{
    match (a, b) {
        (Some(x), Some(y)) => same_bytes(x.as_slice(), y.as_slice()),
        (None, None) => true,
        _ => false,
    }
}

impl Write {
    /// Whether the bytes of an index fit.
    pub fn check_size(&self) -> (r: Result<(), Failure>)
        ensures
            r == size_check(self@),
    {
        if self.bytes.len() > MAX_INDEX_BYTES && same(self.name.as_str(), INDEX_FILE_NAME) {
            return Err(refuse("capacity_exceeded", "handoff index exceeds its capacity limit"));
        }
        Ok(())
    }

    /// Whether the write is admitted over what the file holds now.
    pub fn check_target(&self, exists: bool, original: &Option<Vec<u8>>) -> (r: Result<(), Failure>)
        ensures
            r == admission(self@, exists, content(*original)),
    {
        match &self.expected {
            Some(expected) => if !same_content(expected, original) {
                return Err(
                    refuse("markdown_conflict", "handoff content changed since it was read"),
                );
            },
            None => {},
        }
        if exists && !self.replace {
            return Err(refuse("non_managed_file", "handoff target already exists"));
        }
        Ok(())
    }

    /// Whether the failed write calls for the removal of other files.
    pub fn must_undo(&self, failure: &Failure) -> (r: bool)
        ensures
            r == undoes(self@, *failure),
    {
        proof {
            assert(self@.undo.len() == self.undo@.len());
        }
        self.undo.len() > 0 && (self.undo_always || !failure.state_changed)
    }

    /// What the failed write is reported as.
    pub fn report(&self, failure: Failure, cleanup_failed: bool) -> (r: Failure)
        ensures
            r == reported(self@, failure, cleanup_failed),
    {
        if self.must_undo(&failure) {
            if cleanup_failed {
                mark_state_changed(failure)
            } else {
                failure
            }
        } else if self.blame {
            mark_state_changed(failure)
        } else {
            failure
        }
    }
}

/// What identifies a file while it is being replaced.
#[derive(Clone, Copy, Debug, PartialEq, Eq, Structural)]
pub struct TargetMetadata {
    pub device: u64,
    pub inode: u64,
    pub nlink: u64,
    pub size: u64,
}

/// Whether the file is still the one that was inspected before the new content
/// was prepared.
pub open spec fn confirmation(
    before: Option<TargetMetadata>,
    after: Option<TargetMetadata>,
    unchanged: bool,
    replace: bool,
) -> Result<(), Failure> {
    if !unchanged {
        Err(refused("concurrent_modification", "handoff content changed while writing"))
    } else {
        match (before, after) {
            (None, None) => Ok(()),
            (Some(b), Some(a)) => if replace && b.device == a.device && b.inode == a.inode
                && b.nlink == 1 && a.nlink == 1 {
                Ok(())
            } else {
                Err(refused("unsafe_path", "handoff target changed while writing"))
            },
            (None, Some(_)) => if !replace {
                Err(refused("non_managed_file", "handoff target appeared while writing"))
            } else {
                Err(refused("unsafe_path", "handoff target changed while writing"))
            },
            (Some(_), None) => Err(
                refused("unsafe_path", "handoff target changed while writing"),
            ),
        }
    }
}

pub fn confirm_write(
    before: Option<TargetMetadata>,
    after: Option<TargetMetadata>,
    unchanged: bool,
    replace: bool,
) -> (r: Result<(), Failure>)
    ensures
        r == confirmation(before, after, unchanged, replace),
{
    if !unchanged {
        return Err(refuse("concurrent_modification", "handoff content changed while writing"));
    }
    match (before, after) {
        (None, None) => Ok(()),
        (Some(b), Some(a)) => if replace && b.device == a.device && b.inode == a.inode && b.nlink
            == 1 && a.nlink == 1 {
            Ok(())
        } else {
            Err(refuse("unsafe_path", "handoff target changed while writing"))
        },
        (None, Some(_)) => if !replace {
            Err(refuse("non_managed_file", "handoff target appeared while writing"))
        } else {
            Err(refuse("unsafe_path", "handoff target changed while writing"))
        },
        (Some(_), None) => Err(refuse("unsafe_path", "handoff target changed while writing")),
    }
}

/// What a request asks to be written, and how it is then answered.
#[derive(Debug)]
pub struct Plan {
    pub writes: Vec<Write>,
    pub reply: Result<Reply, Failure>,
}

pub struct PlannedView {
    pub writes: Seq<WriteView>,
    pub reply: Result<ReplyView, Failure>,
}

impl View for Plan {
    type V = PlannedView;

    open spec fn view(&self) -> PlannedView {
        PlannedView { writes: views(self.writes@), reply: outcome(self.reply) }
    }
}

/// The plan that refuses without writing.
pub open spec fn refusal(f: Failure) -> PlannedView {
    PlannedView { writes: Seq::empty(), reply: Err(f) }
}

/// The plan that answers without writing.
pub open spec fn answer(r: ReplyView) -> PlannedView {
    PlannedView { writes: Seq::empty(), reply: Ok(r) }
}

impl Plan {
    pub fn refusal(f: Failure) -> (r: Plan)
        ensures
            r@ == refusal(f),
    {
        let writes: Vec<Write> = Vec::new();
        proof {
            assert(views(writes@) =~= Seq::<WriteView>::empty());
        }
        Plan { writes, reply: Err(f) }
    }

    pub fn answer(reply: Result<Reply, Failure>) -> (r: Plan)
        ensures
            r@.writes == Seq::<WriteView>::empty(),
            r@.reply == outcome(reply),
    {
        let writes: Vec<Write> = Vec::new();
        proof {
            assert(views(writes@) =~= Seq::<WriteView>::empty());
        }
        Plan { writes, reply }
    }
}

/// The directory after the first `k` names were removed.
pub open spec fn cleaned(d: DirectoryView, names: Seq<Seq<char>>, k: nat) -> DirectoryView
    decreases k,
{
    if k == 0 || k > names.len() {
        d
    } else {
        cleaned(d, names, (k - 1) as nat).without(names[k - 1])
    }
}

/// One write, with the removals that its failure calls for.
pub open spec fn written(d: DirectoryView, w: WriteView) -> (DirectoryView, Result<(), Failure>) {
    match write_check(d, w) {
        Ok(_) => (d.with_file(w.name, w.bytes), Ok(())),
        Err(f) => (
            if undoes(w, f) {
                cleaned(d, w.undo, w.undo.len())
            } else {
                d
            },
            Err(reported(w, f, false)),
        ),
    }
}

/// The first `k` writes, up to the first that fails.
pub open spec fn all_written(d: DirectoryView, writes: Seq<WriteView>, k: nat) -> (
    DirectoryView,
    Result<(), Failure>,
)
    decreases k,
{
    if k == 0 || k > writes.len() {
        (d, Ok(()))
    } else {
        match all_written(d, writes, (k - 1) as nat) {
            (after, Ok(_)) => written(after, writes[k - 1]),
            (after, Err(f)) => (after, Err(f)),
        }
    }
}

/// A plan carried out.
pub open spec fn committed(d: DirectoryView, p: PlannedView) -> (
    DirectoryView,
    Result<ReplyView, Failure>,
) {
    match all_written(d, p.writes, p.writes.len()) {
        (after, Err(f)) => (after, Err(f)),
        (after, Ok(_)) => (after, p.reply),
    }
}

proof fn lemma_written_fail(d: DirectoryView, writes: Seq<WriteView>, k: nat)
    requires
        k <= writes.len(),
        all_written(d, writes, k).1 is Err,
    ensures
        all_written(d, writes, writes.len()) == all_written(d, writes, k),
    decreases writes.len() - k,
{
    if k < writes.len() {
        lemma_written_fail(d, writes, k + 1);
    }
}

impl Directory {
    fn remove_all(&mut self, names: &Vec<String>)
        ensures
            final(self)@ == cleaned(old(self)@, views(names@), views(names@).len()),
    {
        let mut i: usize = 0;
        while i < names.len()
            invariant
                i <= names@.len(),
                self@ == cleaned(old(self)@, views(names@), i as nat),
            decreases names@.len() - i,
        {
            proof {
                assert(views(names@)[i as int] == names@[i as int]@);
            }
            self.remove(names[i].as_str());
            i += 1;
        }
    }

    /// One write, with the removals that its failure calls for.
    pub fn atomic_write_checked(&mut self, write: &Write) -> (r: Result<(), Failure>)
        ensures
            (final(self)@, r) == written(old(self)@, write@),
    {
        let verdict = match write.check_size() {
            Err(e) => Err(e),
            Ok(_) => match self.target_length(write.name.as_str()) {
                Err(e) => Err(e),
                Ok(before) => match self.read_file_bounded(write.name.as_str(), MAX_TASK_BYTES) {
                    Err(e) => Err(e),
                    Ok(original) => write.check_target(before.is_some(), &original),
                },
            },
        };
        match verdict {
            Ok(_) => {
                self.insert(write.name.clone(), copy_bytes(&write.bytes));
                Ok(())
            },
            Err(f) => {
                if write.must_undo(&f) {
                    self.remove_all(&write.undo);
                }
                Err(write.report(f, false))
            },
        }
    }

    /// Carries out a plan.
    pub fn commit(&mut self, plan: Plan) -> (r: Result<Reply, Failure>)
        ensures
            (final(self)@, outcome(r)) == committed(old(self)@, plan@),
    {
        let ghost steps = views(plan.writes@);
        let mut i: usize = 0;
        while i < plan.writes.len()
            invariant
                i <= plan.writes@.len(),
                steps == views(plan.writes@),
                all_written(old(self)@, steps, i as nat) == (self@, Ok::<(), Failure>(())),
            decreases plan.writes@.len() - i,
        {
            proof {
                assert(steps[i as int] == plan.writes@[i as int]@);
            }
            match self.atomic_write_checked(&plan.writes[i]) {
                Err(f) => {
                    proof {
                        lemma_written_fail(old(self)@, steps, (i + 1) as nat);
                    }
                    return Err(f);
                },
                Ok(_) => {},
            }
            i += 1;
        }
        plan.reply
    }
}

} // verus!
