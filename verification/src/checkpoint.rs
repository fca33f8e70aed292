//! The entry points: one bounded request against one checkpoint.
use vstd::prelude::*;
use crate::actions::{checkpoint_of, overview_of, read, status};
use crate::anchor::{
    Host, HostView, anchor_after, anchoring, asks_properly, malformed_repair, plan_anchor, repair,
    repair_plan, repair_request, resolution, resolve, then_anchored,
};
use crate::appending::{append, append_back, append_of, enabled_index};
use crate::commit::{Plan, PlannedView, committed};
use crate::directory::{Directory, DirectoryView, EntryView, index_at, task_at};
use crate::entry_laws::{law_request_is_checked, law_saved_is_read, recalled};
use crate::failure::{Failure, outcome, refuse, refused};
use crate::json::{Json, Node};
use crate::lifecycle::{
    archive_request_of, archive_task, bind, bind_of, disable, disable_of, disabled_index, rebound,
    retired_index,
};
use crate::mutations::{client_of, create, creation_back, creation_of};
use crate::normal_form::{unnamed};
use crate::path::{PathPolicy};
use crate::records::{IdentityView, ProjectIdentity};
use crate::reply::{Reply, ReplyView, renderable};
use crate::request::{Action, Request, RequestView, admissible, parse_request, request_of};
use crate::saved_laws::{law_refusal_changes_nothing, lemma_single_refused, same_entries};
use crate::table::{pairs};
use crate::writing::{index_back};

verus! {

/// What one checked request writes and how it is answered.
pub open spec fn performed(
    d: DirectoryView,
    identity: IdentityView,
    r: RequestView,
    policy: Seq<Seq<char>>,
    now: i64,
    host: HostView,
    coordinated: bool,
) -> PlannedView {
    match r.action {
        Action::Status => PlannedView {
            writes: Seq::empty(),
            reply: overview_of(d, identity, r.client_id, policy),
        },
        Action::Read => PlannedView {
            writes: Seq::empty(),
            reply: checkpoint_of(d, identity, r.task_id->0, policy),
        },
        Action::Create => then_anchored(
            creation_of(d, identity, r, now),
            anchoring(d, identity, host),
        ),
        Action::Append => append_of(d, identity, r, policy, now),
        Action::Bind => bind_of(d, identity, r, now),
        Action::Archive => archive_request_of(d, identity, r, policy, now, coordinated),
        Action::Disable => disable_of(d, identity, r, now),
    }
}

/// What one checked request prints is read back.
pub open spec fn saved_back(
    d: DirectoryView,
    identity: IdentityView,
    r: RequestView,
    policy: Seq<Seq<char>>,
    now: i64,
    coordinated: bool,
) -> bool {
    match r.action {
        Action::Create => creation_back(d, identity, r, now),
        Action::Append => append_back(d, identity, r, policy, now),
        Action::Bind => bind_of(d, identity, r, now).reply is Ok ==> index_back(
            rebound(
                enabled_index(d, identity)->Ok_0,
                client_of(r)->0,
                r.task_id->0,
                now,
            )->Ok_0,
        ),
        Action::Archive => {
            let p = archive_request_of(d, identity, r, policy, now, coordinated);
            p.reply is Ok && p.writes.len() > 0 ==> index_back(
                retired_index(
                    enabled_index(d, identity)->Ok_0,
                    task_at(d, identity, r.task_id->0, policy)->Ok_0,
                    now,
                )->Ok_0,
            )
        },
        Action::Disable => disable_of(d, identity, r, now).reply matches Ok(
            ReplyView::TurnedOff { revision },
        ) ==> index_back(disabled_index(index_at(d, identity)->Ok_0->0, revision, now)),
        _ => true,
    }
}

/// What one checked request writes and how it is answered.
pub fn perform(
    handoff: &Directory,
    identity: &ProjectIdentity,
    request: &Request,
    policy: &PathPolicy,
    now: i64,
    host: &Host,
    coordinated: bool,
) -> (r: Plan)
    requires
        admissible(request@) is Ok,
    ensures
        r@ == performed(handoff@, identity@, request@, policy@, now, host@, coordinated),
        r.reply matches Ok(reply) ==> renderable(reply@),
        saved_back(handoff@, identity@, request@, policy@, now, coordinated),
{
    match request.action {
        Action::Status => {
            let client = match &request.client_id {
                Some(c) => Some(c.as_str()),
                None => None,
            };
            Plan::answer(status(handoff, identity, client, policy))
        },
        Action::Read => Plan::answer(
            read(handoff, identity, request.task_id.as_ref().unwrap().as_str(), policy),
        ),
        Action::Create => anchor_after(
            create(handoff, identity, request, now),
            plan_anchor(handoff, identity, host),
        ),
        Action::Append => append(handoff, identity, request, policy, now),
        Action::Bind => bind(handoff, identity, request, now),
        Action::Archive => archive_task(handoff, identity, request, policy, now, coordinated),
        Action::Disable => disable(handoff, identity, request, now),
    }
}

/// The directory as a request finds it: a create request makes it.
pub open spec fn entered(d: DirectoryView, action: Action) -> DirectoryView {
    if action == Action::Create && !d.present {
        DirectoryView { present: true, files: Seq::empty() }
    } else {
        d
    }
}

/// Whether a request asks for the repair of the directory's identity.
pub open spec fn asks_repair(n: Node) -> bool {
    n.at("action"@) == Node::Text("anchor_identity"@)
}

/// One request carried out: the directory afterwards, and the answer.
pub open spec fn executed(
    d: DirectoryView,
    root: Result<IdentityView, Failure>,
    n: Node,
    policy: Seq<Seq<char>>,
    now: i64,
    host: HostView,
    coordinated: bool,
) -> (DirectoryView, Result<ReplyView, Failure>) {
    if asks_repair(n) {
        if coordinated {
            (d, Err(refused("invalid_action", "identity repair requires the local operator")))
        } else if repair_request(n) is None {
            (d, Err(malformed_repair()))
        } else {
            match root {
                Err(e) => (d, Err(e)),
                Ok(raw) => match resolution(d, raw, host) {
                    Err(e) => (d, Err(e)),
                    Ok(identity) => committed(d, repair_plan(d, n, identity, host, policy)),
                },
            }
        }
    } else {
        match request_of(n, policy) {
            Err(e) => (d, Err(e)),
            Ok(r) => match root {
                Err(e) => (d, Err(e)),
                Ok(raw) => match resolution(d, raw, host) {
                    Err(e) => (d, Err(e)),
                    Ok(identity) => {
                        let found = entered(d, r.action);
                        committed(
                            found,
                            performed(found, identity, r, policy, now, host, coordinated),
                        )
                    },
                },
            },
        }
    }
}

/// Whether what a request saved is read back. Nothing is said of an event with a
/// path that the policy names only in its normal form: such an event is not
/// accepted again.
pub open spec fn read_back(
    d: DirectoryView,
    e: DirectoryView,
    root: Result<IdentityView, Failure>,
    n: Node,
    policy: Seq<Seq<char>>,
    now: i64,
    host: HostView,
) -> bool {
    !asks_repair(n) ==> (request_of(n, policy) matches Ok(r) ==> (r.event is Some ==> unnamed(
        r.event->0.value,
        policy,
    )) ==> recalled(
        entered(d, r.action),
        e,
        resolution(d, root->Ok_0, host)->Ok_0,
        r,
        policy,
        now,
    ))
}

/// A project root that was opened: the identity of the directory, or why there
/// is none.
pub struct Project {
    pub root: Result<ProjectIdentity, Failure>,
    pub host: Host,
}

/// What a value asks for: the repair of the directory's identity, or a checked
/// request.
#[derive(Debug)]
pub enum Asked {
    Repair,
    Checked(Request),
}

pub enum AskedView {
    Repair,
    Checked(RequestView),
}

impl View for Asked {
    type V = AskedView;

    open spec fn view(&self) -> AskedView {
        match self {
            Asked::Repair => AskedView::Repair,
            Asked::Checked(r) => AskedView::Checked(r@),
        }
    }
}

/// What a value asks for. A repair is for the local operator alone.
pub open spec fn asked_of(n: Node, policy: Seq<Seq<char>>, coordinated: bool) -> Result<
    AskedView,
    Failure,
> {
    if asks_repair(n) {
        if coordinated {
            Err(refused("invalid_action", "identity repair requires the local operator"))
        } else if repair_request(n) is None {
            Err(malformed_repair())
        } else {
            Ok(AskedView::Repair)
        }
    } else {
        match request_of(n, policy) {
            Err(e) => Err(e),
            Ok(r) => Ok(AskedView::Checked(r)),
        }
    }
}

/// What a value asks for.
pub fn requested(request: &Json, policy: &PathPolicy, coordinated: bool) -> (r: Result<
    Asked,
    Failure,
>)
    ensures
        outcome(r) == asked_of(request@, policy@, coordinated),
{
    if request.has_text("action", "anchor_identity") {
        if coordinated {
            return Err(refuse("invalid_action", "identity repair requires the local operator"));
        }
        if !asks_properly(request) {
            return Err(
                refuse(
                    "invalid_request",
                    "exact index digest and explicit confirmation are required",
                ),
            );
        }
        return Ok(Asked::Repair);
    }
    match parse_request(request, policy) {
        Err(e) => Err(e),
        Ok(r) => Ok(Asked::Checked(r)),
    }
}

/// How a directory is held while a request is carried out: shared, exclusively
/// where it is there, or exclusively and made where it is not.
#[derive(Clone, Copy, Debug, PartialEq, Eq, Structural)]
pub enum Access {
    Shared,
    Exclusive,
    Created,
}

pub open spec fn access_of(a: AskedView) -> Access {
    match a {
        AskedView::Repair => Access::Exclusive,
        AskedView::Checked(r) => match r.action {
            Action::Status => Access::Shared,
            Action::Read => Access::Shared,
            Action::Create => Access::Created,
            _ => Access::Exclusive,
        },
    }
}

impl Asked {
    /// How the directory is held.
    pub fn access(&self) -> (r: Access)
        ensures
            r == access_of(self@),
    {
        match self {
            Asked::Repair => Access::Exclusive,
            Asked::Checked(r) => match r.action {
                Action::Status => Access::Shared,
                Action::Read => Access::Shared,
                Action::Create => Access::Created,
                _ => Access::Exclusive,
            },
        }
    }
}

/// What is written and answered for what a value asks, in the directory as it
/// was found.
pub open spec fn planned(
    d: DirectoryView,
    identity: IdentityView,
    n: Node,
    a: AskedView,
    policy: Seq<Seq<char>>,
    now: i64,
    host: HostView,
    coordinated: bool,
) -> PlannedView {
    match a {
        AskedView::Repair => repair_plan(d, n, identity, host, policy),
        AskedView::Checked(r) => performed(d, identity, r, policy, now, host, coordinated),
    }
}

/// What is written and answered for what a value asks.
pub fn plan_request(
    handoff: &Directory,
    identity: &ProjectIdentity,
    request: &Json,
    asked: &Asked,
    policy: &PathPolicy,
    now: i64,
    host: &Host,
    coordinated: bool,
) -> (r: Plan)
    requires
        asked_of(request@, policy@, coordinated) == Ok::<_, Failure>(asked@),
    ensures
        r@ == planned(
            handoff@,
            identity@,
            request@,
            asked@,
            policy@,
            now,
            host@,
            coordinated,
        ),
        r.reply matches Ok(reply) ==> renderable(reply@),
        asked@ matches AskedView::Checked(q) ==> saved_back(
            handoff@,
            identity@,
            q,
            policy@,
            now,
            coordinated,
        ),
{
    proof {
        if asked@ is Checked {
            law_request_is_checked(request@, policy@);
        }
    }
    match asked {
        Asked::Repair => repair(handoff, request, identity, host, policy),
        Asked::Checked(r) => perform(handoff, identity, r, policy, now, host, coordinated),
    }
}

fn execute_unix(
    handoff: &mut Directory,
    project: &Project,
    request: &Json,
    policy: &PathPolicy,
    now: i64,
    coordinated: bool,
) -> (r: Result<Reply, Failure>)
    ensures
        (final(handoff)@, outcome(r)) == executed(
            old(handoff)@,
            outcome(project.root),
            request@,
            policy@,
            now,
            project.host@,
            coordinated,
        ),
        r matches Ok(reply) ==> renderable(reply@),
        r is Ok ==> read_back(
            old(handoff)@,
            final(handoff)@,
            outcome(project.root),
            request@,
            policy@,
            now,
            project.host@,
        ),
        r matches Err(f) ==> !f.state_changed ==> same_entries(old(handoff)@, final(handoff)@),
{
    let asked = match requested(request, policy, coordinated) {
        Err(e) => {
            return Err(e);
        },
        Ok(asked) => asked,
    };
    let raw = match &project.root {
        Err(e) => {
            return Err(*e);
        },
        Ok(raw) => raw,
    };
    let identity = match resolve(handoff, raw, &project.host) {
        Err(e) => {
            return Err(e);
        },
        Ok(identity) => identity,
    };
    if asked.access() == Access::Created && !handoff.present {
        handoff.present = true;
        handoff.files = Vec::new();
        proof {
            assert(pairs(handoff.files@) =~= Seq::<(Seq<char>, EntryView)>::empty());
        }
    }
    let plan = plan_request(
        handoff,
        &identity,
        request,
        &asked,
        policy,
        now,
        &project.host,
        coordinated,
    );
    proof {
        let found = handoff@;
        match asked@ {
            AskedView::Repair => {
                if committed(found, plan@).1 is Err {
                    lemma_single_refused(found, plan@);
                }
            },
            AskedView::Checked(q) => {
                law_request_is_checked(request@, policy@);
                if committed(found, plan@).1 is Ok {
                    if q.event is Some ==> unnamed(q.event->0.value, policy@) {
                        law_saved_is_read(
                            found,
                            identity@,
                            request@,
                            policy@,
                            now,
                            project.host@,
                            coordinated,
                        );
                    }
                } else if !committed(found, plan@).1->Err_0.state_changed {
                    law_refusal_changes_nothing(
                        found,
                        identity@,
                        q,
                        policy@,
                        now,
                        project.host@,
                        coordinated,
                    );
                }
            },
        }
    }
    handoff.commit(plan)
}

/// Executes one bounded request for the exact project.
pub fn execute(
    handoff: &mut Directory,
    project: &Project,
    request: &Json,
    policy: &PathPolicy,
    now: i64,
) -> (r: Result<Reply, Failure>)
    ensures
        (final(handoff)@, outcome(r)) == executed(
            old(handoff)@,
            outcome(project.root),
            request@,
            policy@,
            now,
            project.host@,
            false,
        ),
        r matches Ok(reply) ==> renderable(reply@),
        r is Ok ==> read_back(
            old(handoff)@,
            final(handoff)@,
            outcome(project.root),
            request@,
            policy@,
            now,
            project.host@,
        ),
        r matches Err(f) ==> !f.state_changed ==> same_entries(old(handoff)@, final(handoff)@),
{
    execute_unix(handoff, project, request, policy, now, false)
}

/// Executes one request that the server coordinates: it has frozen the task of
/// an archive request and verified its deliveries. A local request cannot claim
/// this.
pub fn execute_from_runner(
    handoff: &mut Directory,
    project: &Project,
    request: &Json,
    policy: &PathPolicy,
    now: i64,
) -> (r: Result<Reply, Failure>)
    ensures
        (final(handoff)@, outcome(r)) == executed(
            old(handoff)@,
            outcome(project.root),
            request@,
            policy@,
            now,
            project.host@,
            true,
        ),
        r matches Ok(reply) ==> renderable(reply@),
        r is Ok ==> read_back(
            old(handoff)@,
            final(handoff)@,
            outcome(project.root),
            request@,
            policy@,
            now,
            project.host@,
        ),
        r matches Err(f) ==> !f.state_changed ==> same_entries(old(handoff)@, final(handoff)@),
{
    execute_unix(handoff, project, request, policy, now, true)
}

} // verus!
