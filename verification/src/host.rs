//! What the operating system's answers mean for a checkpoint: which errors say
//! that nothing is there, which paths are refused, and when a lock is held.
use vstd::prelude::*;
use crate::commit::{TargetMetadata};
use crate::digest::{digest_of, root_bytes, root_fingerprint};
use crate::failure::{Failure, changed, content, mark_state_changed, outcome, refuse, refused};
use crate::records::{IdentityView, ProjectIdentity};
use crate::text::{same};

verus! {

/// The kinds of system errors that are told apart.
#[derive(Clone, Copy, Debug, PartialEq, Eq, Structural)]
pub enum OsError {
    NotFound,
    AlreadyExists,
    WouldBlock,
    /// A symbolic link where none is followed.
    Loop,
    NotDirectory,
    Other,
}

// ---------------------------------------------------------------------------
// The platform.
// ---------------------------------------------------------------------------

/// Whether checkpoints are kept here at all: on Unix only, never by a weaker
/// file system.
pub open spec fn platform_check(unix: bool) -> Result<(), Failure> {
    if unix {
        Ok(())
    } else {
        Err(
            refused(
                "unsupported_platform",
                "project handoff checkpoints are supported on Unix only",
            ),
        )
    }
}

/// Whether checkpoints are kept here at all. It is asked before anything of a
/// request is read.
pub fn check_platform(unix: bool) -> (r: Result<(), Failure>)
    ensures
        r == platform_check(unix),
{
    if unix {
        Ok(())
    } else {
        Err(
            refuse(
                "unsupported_platform",
                "project handoff checkpoints are supported on Unix only",
            ),
        )
    }
}

// ---------------------------------------------------------------------------
// The project root.
// ---------------------------------------------------------------------------

pub open spec fn root_failure(e: OsError) -> Failure {
    if e == OsError::Loop {
        refused("unsafe_path", "project root is not a real directory")
    } else {
        refused("project_root_unavailable", "project root cannot be opened")
    }
}

/// Why a project root could not be opened.
pub fn root_open_failure(e: OsError) -> (r: Failure)
    ensures
        r == root_failure(e),
{
    if e == OsError::Loop {
        refuse("unsafe_path", "project root is not a real directory")
    } else {
        refuse("project_root_unavailable", "project root cannot be opened")
    }
}

/// What was found at the path of a project root.
#[derive(Debug)]
pub struct RootProbe {
    /// The canonical path, where it could be had; its text, where it is UTF-8.
    pub canonical: Option<Option<String>>,
    /// Whether there is a directory, and its device and inode.
    pub found: Option<(bool, u64, u64)>,
    /// The device and inode of the directory that was opened.
    pub opened: Result<(u64, u64), Failure>,
}

pub struct RootProbeView {
    pub canonical: Option<Option<Seq<char>>>,
    pub found: Option<(bool, u64, u64)>,
    pub opened: Result<(u64, u64), Failure>,
}

impl View for RootProbe {
    type V = RootProbeView;

    open spec fn view(&self) -> RootProbeView {
        RootProbeView {
            canonical: match self.canonical {
                Some(text) => Some(content(text)),
                None => None,
            },
            found: self.found,
            opened: self.opened,
        }
    }
}

/// The identity of a project root: an absolute path to a real directory that is
/// the one that was opened.
pub open spec fn root_identity(path_is_absolute: bool, p: RootProbeView) -> Result<
    IdentityView,
    Failure,
> {
    if !path_is_absolute {
        Err(refused("invalid_root", "project root must be absolute"))
    } else if p.canonical is None || p.found is None {
        Err(refused("project_root_unavailable", "project root is unavailable"))
    } else {
        let (is_directory, device, inode) = p.found->0;
        if !is_directory {
            Err(refused("invalid_root", "project root must be a directory"))
        } else {
            match p.opened {
                Err(f) => Err(f),
                Ok((d, i)) => if d != device || i != inode {
                    Err(
                        refused(
                            "project_root_changed",
                            "project root changed while it was being opened",
                        ),
                    )
                } else {
                    match p.canonical->0 {
                        None => Err(
                            refused("invalid_root", "project root path is not valid UTF-8"),
                        ),
                        Some(root) => Ok(
                            IdentityView {
                                canonical_root: root,
                                device,
                                inode,
                                root_fingerprint: digest_of(root_bytes(root, device, inode)),
                            },
                        ),
                    }
                },
            }
        }
    }
}

/// The identity of a project root.
pub fn open_project_root(path_is_absolute: bool, probe: &RootProbe) -> (r: Result<
    ProjectIdentity,
    Failure,
>)
    ensures
        outcome(r) == root_identity(path_is_absolute, probe@),
{
    if !path_is_absolute {
        return Err(refuse("invalid_root", "project root must be absolute"));
    }
    let text = match &probe.canonical {
        None => {
            return Err(refuse("project_root_unavailable", "project root is unavailable"));
        },
        Some(text) => text,
    };
    let (is_directory, device, inode) = match probe.found {
        None => {
            return Err(refuse("project_root_unavailable", "project root is unavailable"));
        },
        Some(found) => found,
    };
    if !is_directory {
        return Err(refuse("invalid_root", "project root must be a directory"));
    }
    match probe.opened {
        Err(f) => {
            return Err(f);
        },
        Ok((d, i)) => if d != device || i != inode {
            return Err(
                refuse("project_root_changed", "project root changed while it was being opened"),
            );
        },
    }
    match text {
        None => Err(refuse("invalid_root", "project root path is not valid UTF-8")),
        Some(root) => Ok(
            ProjectIdentity {
                canonical_root: root.clone(),
                device,
                inode,
                root_fingerprint: root_fingerprint(root.as_str(), device, inode),
            },
        ),
    }
}

// ---------------------------------------------------------------------------
// The checkpoint directory and its files.
// ---------------------------------------------------------------------------

/// Whether an error says that there is no checkpoint directory.
pub open spec fn directory_absence(e: OsError) -> Result<(), Failure> {
    if e == OsError::NotFound {
        Ok(())
    } else if e == OsError::Loop {
        Err(refused("unsafe_path", "handoff path is not a real directory"))
    } else {
        Err(refused("io_error", "handoff directory cannot be opened"))
    }
}

/// Whether an error says that there is no checkpoint directory.
pub fn handoff_dir_missing(e: OsError) -> (r: Result<(), Failure>)
    ensures
        r == directory_absence(e),
{
    if e == OsError::NotFound {
        Ok(())
    } else if e == OsError::Loop {
        Err(refuse("unsafe_path", "handoff path is not a real directory"))
    } else {
        Err(refuse("io_error", "handoff directory cannot be opened"))
    }
}

/// Whether an error says that another writer made the directory first.
pub open spec fn directory_presence(e: OsError) -> Result<(), Failure> {
    if e == OsError::AlreadyExists {
        Ok(())
    } else if e == OsError::Loop {
        Err(refused("unsafe_path", "handoff path is not a real directory"))
    } else {
        Err(refused("io_error", "handoff directory cannot be created"))
    }
}

/// Whether an error says that another writer made the directory first.
pub fn handoff_dir_exists(e: OsError) -> (r: Result<(), Failure>)
    ensures
        r == directory_presence(e),
{
    if e == OsError::AlreadyExists {
        Ok(())
    } else if e == OsError::Loop {
        Err(refuse("unsafe_path", "handoff path is not a real directory"))
    } else {
        Err(refuse("io_error", "handoff directory cannot be created"))
    }
}

/// Whether an error of opening or creating a file says that there is none.
pub open spec fn file_absence(e: OsError, create_new: bool) -> Result<(), Failure> {
    if !create_new && e == OsError::NotFound {
        Ok(())
    } else if e == OsError::Loop {
        Err(refused("unsafe_path", "handoff file cannot be a symlink"))
    } else if create_new && e == OsError::AlreadyExists {
        Err(refused("target_exists", "handoff file already exists"))
    } else if create_new {
        Err(refused("io_error", "handoff file cannot be created"))
    } else {
        Err(refused("io_error", "handoff file cannot be opened"))
    }
}

/// Whether an error of opening or creating a file says that there is none.
pub fn file_missing(e: OsError, create_new: bool) -> (r: Result<(), Failure>)
    ensures
        r == file_absence(e, create_new),
{
    if !create_new && e == OsError::NotFound {
        Ok(())
    } else if e == OsError::Loop {
        Err(refuse("unsafe_path", "handoff file cannot be a symlink"))
    } else if create_new && e == OsError::AlreadyExists {
        Err(refuse("target_exists", "handoff file already exists"))
    } else if create_new {
        Err(refuse("io_error", "handoff file cannot be created"))
    } else {
        Err(refuse("io_error", "handoff file cannot be opened"))
    }
}

/// Whether an error of inspecting a target says that there is none.
pub open spec fn target_absence(e: OsError) -> Result<(), Failure> {
    if e == OsError::NotFound {
        Ok(())
    } else if e == OsError::Loop || e == OsError::NotDirectory {
        Err(refused("unsafe_path", "handoff target is not a regular file"))
    } else {
        Err(refused("io_error", "handoff target cannot be inspected"))
    }
}

/// Whether an error of inspecting a target says that there is none.
pub fn target_missing(e: OsError) -> (r: Result<(), Failure>)
    ensures
        r == target_absence(e),
{
    if e == OsError::NotFound {
        Ok(())
    } else if e == OsError::Loop || e == OsError::NotDirectory {
        Err(refuse("unsafe_path", "handoff target is not a regular file"))
    } else {
        Err(refuse("io_error", "handoff target cannot be inspected"))
    }
}

/// Whether what was opened is a regular file under one name.
pub open spec fn file_shape(regular: bool, links: u64) -> Result<(), Failure> {
    if regular && links == 1 {
        Ok(())
    } else {
        Err(refused("unsafe_path", "handoff file must be a single-link regular file"))
    }
}

/// Whether what was opened is a regular file under one name.
pub fn check_opened(regular: bool, links: u64) -> (r: Result<(), Failure>)
    ensures
        r == file_shape(regular, links),
{
    if regular && links == 1 {
        Ok(())
    } else {
        Err(refuse("unsafe_path", "handoff file must be a single-link regular file"))
    }
}

/// What a target is, where it is a regular file under one name.
pub open spec fn target_shape(regular: bool, found: TargetMetadata) -> Result<
    TargetMetadata,
    Failure,
> {
    if regular && found.nlink == 1 {
        Ok(found)
    } else {
        Err(refused("unsafe_path", "handoff target must be a single-link regular file"))
    }
}

/// What a target is, where it is a regular file under one name.
pub fn target_metadata(regular: bool, found: TargetMetadata) -> (r: Result<TargetMetadata, Failure>)
    ensures
        r == target_shape(regular, found),
{
    if regular && found.nlink == 1 {
        Ok(found)
    } else {
        Err(refuse("unsafe_path", "handoff target must be a single-link regular file"))
    }
}

// ---------------------------------------------------------------------------
// Locks, writes and time.
// ---------------------------------------------------------------------------

/// What follows an attempt to take a lock.
#[derive(Clone, Copy, Debug)]
pub enum LockStep {
    Held,
    /// Try again after a pause.
    Wait,
    Refused(Failure),
}

pub open spec fn lock_outcome(attempt: Result<(), OsError>, expired: bool) -> LockStep {
    match attempt {
        Ok(_) => LockStep::Held,
        Err(e) => if e != OsError::WouldBlock {
            LockStep::Refused(refused("lock_unavailable", "handoff lock cannot be acquired"))
        } else if expired {
            LockStep::Refused(refused("lock_timeout", "handoff lock acquisition timed out"))
        } else {
            LockStep::Wait
        },
    }
}

/// What follows an attempt to take a lock, given whether the wait is over.
pub fn after_lock_attempt(attempt: Result<(), OsError>, expired: bool) -> (r: LockStep)
    ensures
        r == lock_outcome(attempt, expired),
{
    match attempt {
        Ok(_) => LockStep::Held,
        Err(e) => if e != OsError::WouldBlock {
            LockStep::Refused(refuse("lock_unavailable", "handoff lock cannot be acquired"))
        } else if expired {
            LockStep::Refused(refuse("lock_timeout", "handoff lock acquisition timed out"))
        } else {
            LockStep::Wait
        },
    }
}

/// Whether a lock that could not be created is there after all.
pub fn lock_created_elsewhere(failure: &Failure) -> (r: bool)
    ensures
        r == (failure.code@ == "target_exists"@),
{
    same(failure.code, "target_exists")
}

/// A failed write whose temporary file could not be removed has left a trace.
pub open spec fn write_failure(f: Failure, cleanup_failed: bool) -> Failure {
    if cleanup_failed {
        changed(f)
    } else {
        f
    }
}

pub fn failed_write(failure: Failure, cleanup_failed: bool) -> (r: Failure)
    ensures
        r == write_failure(failure, cleanup_failed),
{
    if cleanup_failed {
        mark_state_changed(failure)
    } else {
        failure
    }
}

/// The time of a record: the seconds since the epoch, where the clock is past
/// it, within the range of a record.
pub open spec fn clock(seconds: Option<u64>) -> i64 {
    match seconds {
        Some(s) => if s > i64::MAX {
            i64::MAX
        } else {
            s as i64
        },
        None => 0,
    }
}

pub fn now_unix(seconds: Option<u64>) -> (r: i64)
    ensures
        r == clock(seconds),
{
    match seconds {
        Some(s) => if s > i64::MAX as u64 {
            i64::MAX
        } else {
            s as i64
        },
        None => 0,
    }
}

} // verus!
