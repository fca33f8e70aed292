//! What a tool call answers, and the project it was resolved to.
use vstd::prelude::*;
use crate::failure::{content};
use crate::json::{Json, Node, lemma_object_view};
use crate::table::{assign, assigned, discard, pairs, put};
use crate::text::{owned};

verus! {

/// The answer to a tool call.
#[derive(Clone, Debug)]
pub struct ToolResult {
    pub success: bool,
    pub error: Option<String>,
    pub output: Json,
}

pub struct ToolView {
    pub success: bool,
    pub error: Option<Seq<char>>,
    pub output: Node,
}

impl View for ToolResult {
    type V = ToolView;

    open spec fn view(&self) -> ToolView {
        ToolView { success: self.success, error: content(self.error), output: self.output@ }
    }
}

pub open spec fn tool_ok(output: Node) -> ToolView {
    ToolView { success: true, error: None, output }
}

pub open spec fn tool_err(error: Seq<char>) -> ToolView {
    ToolView { success: false, error: Some(error), output: Node::Null }
}

pub open spec fn tool_err_with(error: Seq<char>, output: Node) -> ToolView {
    ToolView { success: false, error: Some(error), output }
}

impl ToolResult {
    pub fn ok(output: Json) -> (r: ToolResult)
        ensures
            r@ == tool_ok(output@),
    {
        ToolResult { success: true, error: None, output }
    }

    pub fn err(error: &str) -> (r: ToolResult)
        ensures
            r@ == tool_err(error@),
    {
        ToolResult { success: false, error: Some(owned(error)), output: Json::Null }
    }

    pub fn err_with_output(error: &str, output: Json) -> (r: ToolResult)
        ensures
            r@ == tool_err_with(error@, output@),
    {
        ToolResult { success: false, error: Some(owned(error)), output }
    }
}

/// A project as the server resolved it: its full id, the runner that serves it,
/// its directory there, and whether it may be changed.
#[derive(Clone, Debug, PartialEq, Eq)]
pub struct ResolvedProject {
    pub resolved_id: String,
    pub client_id: String,
    pub path: String,
    pub allow_patch: bool,
}

pub struct ResolvedView {
    pub resolved_id: Seq<char>,
    pub client_id: Seq<char>,
    pub path: Seq<char>,
    pub allow_patch: bool,
}

impl View for ResolvedProject {
    type V = ResolvedView;

    open spec fn view(&self) -> ResolvedView {
        ResolvedView {
            resolved_id: self.resolved_id@,
            client_id: self.client_id@,
            path: self.path@,
            allow_patch: self.allow_patch,
        }
    }
}

/// The member `k` of a value, given.
pub open spec fn with_member(n: Node, k: Seq<char>, v: Node) -> Node {
    match n {
        Node::Record(fields) => Node::Record(assigned(fields, k, v)),
        _ => Node::Record(seq![(k, v)]),
    }
}

impl Json {
    /// Gives a member to an object; null becomes an object with it alone.
    pub fn set_member(&mut self, k: &str, v: Json)
        requires
            old(self)@ is Record || old(self)@ is Null,
        ensures
            final(self)@ == with_member(old(self)@, k@, v@),
    {
        broadcast use lemma_object_view;

        let ghost before = self@;
        let mut taken = Json::Null;
        std::mem::swap(self, &mut taken);
        let mut fields: Vec<(String, Json)> = match taken {
            Json::Object(fields) => fields,
            _ => Vec::new(),
        };
        let ghost held = pairs(fields@);
        proof {
            if before is Record {
                assert(before == Node::Record(held));
            } else {
                assert(held =~= Seq::<(Seq<char>, Node)>::empty());
            }
        }
        discard(&mut fields, k);
        assign(&mut fields, owned(k), v);
        proof {
            assert(pairs(fields@) == assigned(held, k@, v@));
            if before is Null {
                assert(put(held, k@, v@) =~= seq![(k@, v@)]);
            }
        }
        *self = Json::Object(fields);
    }
}

/// The root fingerprint that a checkpoint carries.
pub open spec fn fingerprint_in(n: Node) -> Option<Seq<char>> {
    n.at("checkpoint"@).at("project_identity"@).at("root_fingerprint"@).text()
}

/// The root fingerprint that a checkpoint carries.
pub fn checkpoint_fingerprint(value: &Json) -> (r: Option<&str>)
    ensures
        match r {
            Some(t) => fingerprint_in(value@) == Some(t@),
            None => fingerprint_in(value@) is None,
        },
{
    match value.get("checkpoint") {
        Some(checkpoint) => match checkpoint.get("project_identity") {
            Some(identity) => identity.text_at("root_fingerprint"),
            None => None,
        },
        None => None,
    }
}

} // verus!
