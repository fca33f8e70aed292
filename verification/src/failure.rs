//! Refusals: a stable code, a generic message, and whether stored state may
//! have changed.
use vstd::prelude::*;
use crate::json::{Json, Node, entries, object, record, text_json};

verus! {

/// Why an operation was refused. `code` is the contract; `message` is generic.
#[derive(Clone, Copy, Debug)]
pub struct Failure {
    pub code: &'static str,
    pub message: &'static str,
    /// Whether a durable write may have happened before the refusal.
    pub state_changed: bool,
    /// The expected and the actual revision, where they differ.
    pub conflict: Option<(u64, u64)>,
}

/// The refusal that changed nothing.
pub open spec fn refused(code: &'static str, message: &'static str) -> Failure {
    Failure { code, message, state_changed: false, conflict: None }
}

/// The same refusal, after a write that may be durable.
pub open spec fn changed(f: Failure) -> Failure {
    Failure { state_changed: true, ..f }
}

/// The refusal of a stale revision.
pub open spec fn stale(expected: u64, actual: u64) -> Failure {
    Failure {
        code: "revision_conflict",
        message: "expected_revision does not match the current revision",
        state_changed: false,
        conflict: Some((expected, actual)),
    }
}

/// What a result holds, with its value taken by its view.
pub open spec fn outcome<T: View>(r: Result<T, Failure>) -> Result<T::V, Failure> {
    match r {
        Ok(v) => Ok(v@),
        Err(e) => Err(e),
    }
}

/// What an optional result holds, with its value taken by its view.
pub open spec fn outcome_option<T: View>(r: Result<Option<T>, Failure>) -> Result<
    Option<T::V>,
    Failure,
> {
    match r {
        Ok(Some(v)) => Ok(Some(v@)),
        Ok(None) => Ok(None),
        Err(e) => Err(e),
    }
}

/// An optional value taken by its view.
pub open spec fn content<T: View>(o: Option<T>) -> Option<T::V> {
    match o {
        Some(v) => Some(v@),
        None => None,
    }
}

/// The views of all elements.
pub open spec fn views<T: View>(s: Seq<T>) -> Seq<T::V> {
    Seq::new(s.len(), |i: int| s[i]@)
}

pub fn refuse(code: &'static str, message: &'static str) -> (r: Failure)
    ensures
        r == refused(code, message),
{
    Failure { code, message, state_changed: false, conflict: None }
}

pub fn mark_state_changed(f: Failure) -> (r: Failure)
    ensures
        r == changed(f),
{
    Failure { code: f.code, message: f.message, state_changed: true, conflict: f.conflict }
}

pub fn revision_conflict(expected: u64, actual: u64) -> (r: Failure)
    ensures
        r == stale(expected, actual),
{
    Failure {
        code: "revision_conflict",
        message: "expected_revision does not match the current revision",
        state_changed: false,
        conflict: Some((expected, actual)),
    }
}

/// The JSON object of a refusal.
pub open spec fn failure_node(f: Failure) -> Node {
    match f.conflict {
        None => record(
            seq![
                ("code"@, Node::Text(f.code@)),
                ("message"@, Node::Text(f.message@)),
                ("state_changed"@, Node::Bool(f.state_changed)),
            ],
        ),
        Some((expected, actual)) => record(
            seq![
                ("code"@, Node::Text(f.code@)),
                ("message"@, Node::Text(f.message@)),
                ("state_changed"@, Node::Bool(f.state_changed)),
                ("expected_revision"@, Node::Unsigned(expected)),
                ("actual_revision"@, Node::Unsigned(actual)),
            ],
        ),
    }
}

impl Failure {
    /// The JSON object of the refusal.
    pub fn to_json(&self) -> (r: Json)
        ensures
            r@ == failure_node(*self),
    {
        match self.conflict {
            None => {
                let members = vec![
                    ("code", text_json(self.code)),
                    ("message", text_json(self.message)),
                    ("state_changed", Json::Bool(self.state_changed)),
                ];
                proof {
                    assert(entries(members@) =~= seq![
                        ("code"@, Node::Text(self.code@)),
                        ("message"@, Node::Text(self.message@)),
                        ("state_changed"@, Node::Bool(self.state_changed)),
                    ]);
                }
                object(members)
            },
            Some((expected, actual)) => {
                let members = vec![
                    ("code", text_json(self.code)),
                    ("message", text_json(self.message)),
                    ("state_changed", Json::Bool(self.state_changed)),
                    ("expected_revision", Json::Unsigned(expected)),
                    ("actual_revision", Json::Unsigned(actual)),
                ];
                proof {
                    assert(entries(members@) =~= seq![
                        ("code"@, Node::Text(self.code@)),
                        ("message"@, Node::Text(self.message@)),
                        ("state_changed"@, Node::Bool(self.state_changed)),
                        ("expected_revision"@, Node::Unsigned(expected)),
                        ("actual_revision"@, Node::Unsigned(actual)),
                    ]);
                }
                object(members)
            },
        }
    }
}

/// The stable error object: `code` is the contract, `message` is generic.
pub fn error(code: &'static str, message: &'static str) -> (r: Json)
    ensures
        r@ == failure_node(refused(code, message)),
{
    refuse(code, message).to_json()
}

} // verus!
