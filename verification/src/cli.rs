//! The local command: one bounded JSON request on standard input. It starts no
//! model, network client or background process, and changes no hooks.
use vstd::prelude::*;
use crate::checkpoint::{Project, execute, executed};
use crate::codec::{from_bytes, json_reading};
use crate::directory::{Directory};
use crate::failure::{Failure, failure_node, outcome, views};
use crate::json::{Json, Node, entries, object, record, text_json};
use crate::path::{PathPolicy};
use crate::reply::{Reply, ReplyView, renderable, reply_node};
use crate::text::{owned, same};

verus! {

pub const MAX_INPUT: usize = 131072;

/// What the command was asked for.
#[derive(Debug, PartialEq, Eq)]
pub struct Options {
    pub project: String,
}

pub open spec fn usage() -> Seq<char> {
    "Usage: webcodex handoff --project <absolute-directory> --request-stdin"@
}

pub open spec fn relative_project() -> Seq<char> {
    "handoff requires an explicit absolute project directory"@
}

/// The project that the arguments name. `absolute` is what the platform says of
/// its path.
pub open spec fn options_of(args: Seq<Seq<char>>, absolute: bool) -> Result<
    Seq<char>,
    Seq<char>,
> {
    if args.len() != 3 || args[0] != "--project"@ || args[2] != "--request-stdin"@ {
        Err(usage())
    } else if !absolute {
        Err(relative_project())
    } else {
        Ok(args[1])
    }
}

/// The project that the arguments name. `absolute` is what the platform says of
/// its path.
pub fn parse(args: &[String], absolute: bool) -> (r: Result<Options, String>)
    ensures
        match r {
            Ok(options) => options_of(views(args@), absolute) == Ok::<_, Seq<char>>(
                options.project@,
            ),
            Err(message) => options_of(views(args@), absolute) == Err::<Seq<char>, _>(message@),
        },
{
    if args.len() != 3 || !same(args[0].as_str(), "--project") || !same(
        args[2].as_str(),
        "--request-stdin",
    ) {
        return Err(
            owned("Usage: webcodex handoff --project <absolute-directory> --request-stdin"),
        );
    }
    if !absolute {
        return Err(owned("handoff requires an explicit absolute project directory"));
    }
    Ok(Options { project: args[1].clone() })
}

/// The answer to an input that is no request.
pub open spec fn failed_node(code: Seq<char>) -> Node {
    record(
        seq![
            ("success"@, Node::Bool(false)),
            ("error"@, record(seq![("code"@, Node::Text(code))])),
        ],
    )
}

/// The answer to an input that is no request.
pub fn failed(code: &'static str) -> (r: (i32, Json))
    ensures
        r.0 == 1,
        r.1@ == failed_node(code@),
{
    let inner = vec![("code", text_json(code))];
    proof {
        assert(entries(inner@) =~= seq![("code"@, Node::Text(code@))]);
    }
    let members = vec![("success", Json::Bool(false)), ("error", object(inner))];
    proof {
        assert(entries(members@) =~= seq![
            ("success"@, Node::Bool(false)),
            ("error"@, record(seq![("code"@, Node::Text(code@))])),
        ]);
    }
    (1, object(members))
}

/// The request that an input holds. At most one byte more than the limit has to
/// be read to refuse it.
pub open spec fn input_request(bytes: Seq<u8>) -> Result<Node, Seq<char>> {
    if bytes.len() > MAX_INPUT {
        Err("input_too_large"@)
    } else {
        match json_reading(bytes) {
            Some(n) => Ok(n),
            None => Err("invalid_json"@),
        }
    }
}

/// The request that an input holds.
pub fn read_request_input(bytes: &Vec<u8>) -> (r: Result<Json, &'static str>)
    ensures
        match r {
            Ok(j) => input_request(bytes@) == Ok::<_, Seq<char>>(j@),
            Err(code) => input_request(bytes@) == Err::<Node, _>(code@),
        },
{
    if bytes.len() > MAX_INPUT {
        return Err("input_too_large");
    }
    match from_bytes(bytes.as_slice()) {
        Some(j) => Ok(j),
        None => Err("invalid_json"),
    }
}

/// The exit code and the output for an answered request.
pub open spec fn answered_node(r: Result<ReplyView, Failure>) -> Node {
    match r {
        Ok(reply) => record(
            seq![("success"@, Node::Bool(true)), ("output"@, reply_node(reply))],
        ),
        Err(f) => record(
            seq![("success"@, Node::Bool(false)), ("error"@, failure_node(f))],
        ),
    }
}

pub open spec fn exit_code(r: Result<ReplyView, Failure>) -> i32 {
    if r is Ok {
        0
    } else {
        1
    }
}

/// The exit code and the output for an answered request.
pub fn answer_request(reply: &Result<Reply, Failure>) -> (r: (i32, Json))
    requires
        reply matches Ok(v) ==> renderable(v@),
    ensures
        r.0 == exit_code(outcome(*reply)),
        r.1@ == answered_node(outcome(*reply)),
{
    match reply {
        Ok(v) => {
            let members = vec![("success", Json::Bool(true)), ("output", v.to_json())];
            proof {
                assert(entries(members@) =~= seq![
                    ("success"@, Node::Bool(true)),
                    ("output"@, reply_node(v@)),
                ]);
            }
            (0, object(members))
        },
        Err(f) => {
            let members = vec![("success", Json::Bool(false)), ("error", f.to_json())];
            proof {
                assert(entries(members@) =~= seq![
                    ("success"@, Node::Bool(false)),
                    ("error"@, failure_node(*f)),
                ]);
            }
            (1, object(members))
        },
    }
}

/// Runs one input against a checkpoint. An input that is no request changes
/// nothing.
pub fn run(
    handoff: &mut Directory,
    project: &Project,
    input: &Vec<u8>,
    policy: &PathPolicy,
    now: i64,
) -> (r: (i32, Json))
    ensures
        match input_request(input@) {
            Err(code) => final(handoff)@ == old(handoff)@ && r.0 == 1 && r.1@ == failed_node(code),
            Ok(request) => {
                let (after, reply) = executed(
                    old(handoff)@,
                    outcome(project.root),
                    request,
                    policy@,
                    now,
                    project.host@,
                    false,
                );
                final(handoff)@ == after && r.0 == exit_code(reply) && r.1@ == answered_node(reply)
            },
        },
{
    match read_request_input(input) {
        Err(code) => failed(code),
        Ok(request) => {
            let reply = execute(handoff, project, &request, policy, now);
            answer_request(&reply)
        },
    }
}

} // verus!
