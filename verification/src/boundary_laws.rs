//! What the platform and the runner's registrations decide.
use vstd::prelude::*;
use vstd::bytes::*;
use vstd::utf8::*;
use crate::anchor::{AnchorView, anchor_check, volume_of};
use crate::commit::{TargetMetadata, WriteView, admission, confirmation};
use crate::digest::{digest_of};
use crate::exchange::{id_prefix};
use crate::failure::{Failure};
use crate::host::{
    LockStep, OsError, RootProbeView, clock, directory_absence, directory_presence, file_absence,
    file_shape, lock_outcome, platform_check, root_failure, root_identity, target_absence,
    target_shape, write_failure,
};
use crate::json::{Node};
use crate::message_laws::{law_requests_ask};
use crate::records::{IdentityView};
use crate::reply::{CheckpointView, OverviewView, ReplyView, reply_node};
use crate::reply_laws::{law_checkpoint_says, law_status_says, law_written_answer_says};
use crate::runner_job::{
    ContextView, RegistrationView, first_request, is_project_id, pinned, registered_id, root_of,
    selected_task,
};
use crate::text::{hex, is_alphanumeric};

verus! {

/// A new content replaces a file only where the file is still the one that was
/// inspected, under one name, and where it still holds what was read; and
/// appears only where there is still no file.
pub proof fn law_write_is_confirmed(
    before: Option<TargetMetadata>,
    after: Option<TargetMetadata>,
    unchanged: bool,
    replace: bool,
)
    ensures
        confirmation(before, after, unchanged, replace) is Ok <==> unchanged && (match before {
            None => after is None,
            Some(b) => after matches Some(a) && replace && a.device == b.device && a.inode
                == b.inode && a.nlink == 1 && b.nlink == 1,
        }),
        confirmation(before, after, unchanged, replace) matches Err(f) ==> !f.state_changed,
{
}

/// A file is written only over what it may replace, and Markdown only over what
/// was read of it.
pub proof fn law_write_is_admitted(w: WriteView, exists: bool, original: Option<Seq<u8>>)
    ensures
        admission(w, exists, original) is Ok <==> (w.expected matches Some(e) ==> e == original) && (
        exists ==> w.replace),
        (w.expected matches Some(e) && e != original) ==> (admission(w, exists, original) matches Err(
            f,
        ) && f.code@ == "markdown_conflict"@),
{
}

/// What the project root has to be: an absolute path to a directory that was
/// opened as it was found. The identity is that of what was found, and its
/// fingerprint is taken of all of it.
pub proof fn law_root_is_what_was_found(absolute: bool, p: RootProbeView)
    ensures
        root_identity(absolute, p) matches Ok(v) ==> absolute && p.canonical == Some(
            Some(v.canonical_root),
        ) && p.found == Some((true, v.device, v.inode)) && p.opened == Ok::<_, Failure>(
            (v.device, v.inode),
        ) && v.root_fingerprint == digest_of(
            encode_utf8(v.canonical_root) + seq![0u8] + spec_u64_to_le_bytes(v.device)
                + spec_u64_to_le_bytes(v.inode),
        ),
        root_identity(absolute, p) is Ok <==> absolute && (p.canonical matches Some(Some(_))) && (
        p.found matches Some((is_directory, device, inode)) && is_directory && p.opened == Ok::<
            _,
            Failure,
        >((device, inode))),
        root_identity(absolute, p) matches Err(f) ==> p.opened is Err || !f.state_changed,
{
}

/// Which errors of the platform mean that nothing is there, and which are
/// refused, a symbolic link always as unsafe.
pub proof fn law_platform_errors(e: OsError, create_new: bool)
    ensures
        directory_absence(e) is Ok <==> e == OsError::NotFound,
        directory_presence(e) is Ok <==> e == OsError::AlreadyExists,
        file_absence(e, create_new) is Ok <==> e == OsError::NotFound && !create_new,
        target_absence(e) is Ok <==> e == OsError::NotFound,
        e == OsError::Loop ==> root_failure(e).code@ == "unsafe_path"@ && directory_absence(
            e,
        )->Err_0.code@ == "unsafe_path"@ && directory_presence(e)->Err_0.code@ == "unsafe_path"@
            && file_absence(e, create_new)->Err_0.code@ == "unsafe_path"@ && target_absence(
            e,
        )->Err_0.code@ == "unsafe_path"@,
        e == OsError::NotDirectory ==> target_absence(e)->Err_0.code@ == "unsafe_path"@,
        e == OsError::AlreadyExists && create_new ==> file_absence(e, create_new)->Err_0.code@
            == "target_exists"@,
        e != OsError::Loop ==> root_failure(e).code@ == "project_root_unavailable"@,
        e == OsError::Other ==> directory_absence(e)->Err_0.code@ == "io_error"@
            && directory_presence(e)->Err_0.code@ == "io_error"@ && file_absence(
            e,
            create_new,
        )->Err_0.code@ == "io_error"@ && target_absence(e)->Err_0.code@ == "io_error"@,
        !root_failure(e).state_changed,
{
}

/// A file is used only where it is a regular one under one name.
pub proof fn law_file_has_one_name(regular: bool, found: TargetMetadata)
    ensures
        file_shape(regular, found.nlink) is Ok <==> regular && found.nlink == 1,
        target_shape(regular, found) is Ok <==> regular && found.nlink == 1,
        target_shape(regular, found) matches Ok(t) ==> t == found,
        file_shape(regular, found.nlink) matches Err(f) ==> f.code@ == "unsafe_path"@,
        target_shape(regular, found) matches Err(f) ==> f.code@ == "unsafe_path"@,
{
}

/// A lock that another holds is waited for until the time is up; every other
/// failure to take it is refused.
pub proof fn law_lock_is_waited_for(attempt: Result<(), OsError>, expired: bool)
    ensures
        attempt is Ok <==> lock_outcome(attempt, expired) == LockStep::Held,
        attempt == Err::<(), OsError>(OsError::WouldBlock) && !expired <==> lock_outcome(
            attempt,
            expired,
        ) == LockStep::Wait,
        attempt == Err::<(), OsError>(OsError::WouldBlock) && expired ==> (lock_outcome(
            attempt,
            expired,
        ) matches LockStep::Refused(f) && f.code@ == "lock_timeout"@ && !f.state_changed),
        (attempt matches Err(e) && e != OsError::WouldBlock) ==> (lock_outcome(attempt, expired)
            matches LockStep::Refused(f) && f.code@ == "lock_unavailable"@ && !f.state_changed),
{
}

/// The time of a record is that of the clock, as far as a record goes; a clock
/// before the epoch gives zero.
pub proof fn law_clock(s: u64)
    ensures
        s <= i64::MAX ==> clock(Some(s)) == s,
        s > i64::MAX ==> clock(Some(s)) == i64::MAX,
        clock(None) == 0,
{
}

/// A failed write has left a trace where its temporary file could not be
/// removed; it is the same failure otherwise.
pub proof fn law_failed_write_is_reported(f: Failure, cleanup_failed: bool)
    ensures
        write_failure(f, cleanup_failed).code == f.code,
        write_failure(f, cleanup_failed).message == f.message,
        write_failure(f, cleanup_failed).conflict == f.conflict,
        cleanup_failed ==> write_failure(f, cleanup_failed).state_changed,
        !cleanup_failed ==> write_failure(f, cleanup_failed).state_changed == f.state_changed,
{
}

/// Checkpoints are kept on Unix only.
pub proof fn law_unix_only(unix: bool)
    ensures
        platform_check(unix) is Ok <==> unix,
        !unix ==> platform_check(unix)->Err_0.code@ == "unsupported_platform"@,
{
}

/// An anchor is that of a directory exactly where it names its path and its
/// inode on the same volume, under the fingerprint of what it was; the device
/// number may have changed.
pub proof fn law_anchor_is_the_directorys(a: AnchorView, current: IdentityView, uuid: Seq<char>)
    ensures
        anchor_check(a, current, uuid) is Ok <==> a.version == 1 && a.volume_uuid == uuid
            && a.identity.canonical_root == current.canonical_root && a.identity.inode
            == current.inode && a.identity.root_fingerprint == digest_of(
            encode_utf8(a.identity.canonical_root) + seq![0u8] + spec_u64_to_le_bytes(
                a.identity.device,
            ) + spec_u64_to_le_bytes(a.identity.inode),
        ),
        anchor_check(a, current, uuid) matches Err(f) ==> f.code@ == "project_identity_mismatch"@,
{
}

/// A volume is known by sixteen bytes that are not all zero, in hexadecimal
/// form.
pub proof fn law_volume_is_known(length: u32, uuid: Seq<u8>)
    ensures
        volume_of(length, uuid) is Ok <==> length == 20 && exists|i: int|
            0 <= i < uuid.len() && #[trigger] uuid[i] != 0,
        volume_of(length, uuid) matches Ok(s) ==> s == hex(uuid),
{
}

/// Whether a text can be the id of a registration.
pub open spec fn is_registrable(s: Seq<char>) -> bool {
    0 < s.len() <= 250 && s != "."@ && s != ".."@ && forall|i: int|
        0 <= i < s.len() ==> 'a' <= #[trigger] s[i] <= 'z' || 'A' <= s[i] <= 'Z' || '0' <= s[i]
            <= '9' || s[i] == '_' || s[i] == '-' || s[i] == '.'
}

/// A job belongs to the registration whose id follows the runner's own prefix
/// in the full id of its project, unless it runs elsewhere.
pub proof fn law_registration_of_a_job(client: Seq<char>, c: ContextView, id: Seq<char>)
    ensures
        registered_id(client, c) == Some(id) <==> !c.remote && c.project_id == Some(
            "agent:"@ + client + ":"@ + id,
        ) && is_registrable(id),
{
    let prefix = id_prefix(client);
    assert(prefix + id == "agent:"@ + client + ":"@ + id);
    assert((prefix + id).take(prefix.len() as int) =~= prefix);
    assert((prefix + id).skip(prefix.len() as int) =~= id);
    if is_project_id(id) {
        assert forall|i: int| 0 <= i < id.len() implies 'a' <= #[trigger] id[i] <= 'z' || 'A'
            <= id[i] <= 'Z' || '0' <= id[i] <= '9' || id[i] == '_' || id[i] == '-' || id[i]
            == '.' by {
            assert(is_alphanumeric(id[i]) || id[i] == '_' || id[i] == '-' || id[i] == '.');
        }
    }
    if is_registrable(id) {
        assert forall|i: int| 0 <= i < id.len() implies is_alphanumeric(#[trigger] id[i]) || id[i]
            == '_' || id[i] == '-' || id[i] == '.' by {
        }
    }
    if registered_id(client, c) == Some(id) {
        let full = c.project_id->0;
        assert(full =~= full.take(prefix.len() as int) + full.skip(prefix.len() as int));
    }
}

/// The root of a job is the path of its registration: of exactly its id, open
/// for changes, not disabled, absolute, and only where the job ran at that
/// root.
pub proof fn law_root_of_a_job(
    id: Seq<char>,
    g: RegistrationView,
    c: ContextView,
    absolute: bool,
    at_root: bool,
)
    ensures
        root_of(id, g, c, absolute, at_root) is Some <==> g.id == id && g.allow_patch && !g.disabled
            && absolute && (c.project_cwd == Some("."@) || (c.project_cwd is Some && at_root)),
        root_of(id, g, c, absolute, at_root) matches Some(root) ==> root == g.path,
{
}

/// A job that starts is pinned to the task that its session selected, under the
/// identity that the checkpoint shows, and only in an allowed root.
pub proof fn law_job_is_pinned(
    root: Seq<char>,
    allowed: bool,
    c: CheckpointView,
    o: OverviewView,
    context: ContextView,
)
    ensures
        pinned(root, allowed, c.task.task_id, Ok(reply_node(ReplyView::Read(c)))) is Some <==> allowed,
        pinned(root, allowed, c.task.task_id, Ok(reply_node(ReplyView::Read(c)))) matches Some(t)
            ==> t.root == root && t.task_id == c.task.task_id && t.root_fingerprint
            == c.task.project_identity.root_fingerprint,
        o.bound matches Some(Some(task)) ==> selected_task(Ok(reply_node(ReplyView::Status(o))))
            == Some(task),
        !(o.bound matches Some(Some(_))) ==> selected_task(Ok(reply_node(ReplyView::Status(o))))
            is None,
        selected_task(Ok(reply_node(ReplyView::Disabled))) is None,
        !allowed ==> first_request(allowed, context) is None,
        context.session_id is None ==> first_request(allowed, context) is None,
        allowed && context.session_id is Some ==> (first_request(allowed, context) matches Some(r)
            && r.at("action"@) == Node::Text("status"@) && r.at("client_id"@) == Node::Text(
            "webcodex:"@ + digest_of(encode_utf8(context.session_id->0)),
        )),
{
    law_checkpoint_says(c);
    law_status_says(o);
    law_written_answer_says(ReplyView::Disabled);
    if context.session_id is Some {
        law_requests_ask(context.session_id->0, Seq::empty(), 0, Node::Null);
    }
}

} // verus!
