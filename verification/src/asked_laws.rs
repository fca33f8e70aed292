//! What a request asks for.
use vstd::prelude::*;
use vstd::utf8::*;
use crate::accepted_laws::{lemma_plain, plain_text};
use crate::checkpoint::{Access, AskedView, access_of};
use crate::codec::{json_text};
use crate::event::{
    MAX_TASK_ID_CHARS, actor_of, event_of, is_actor, is_actor_mark, is_slug, slug_of,
};
use crate::failure::{Failure};
use crate::json::{Node};
use crate::record_laws::{key_code};
use crate::request::{
    Action, RequestView, binding_of, is_request_key, only_binding_keys, only_request_keys,
    request_of,
};
use crate::text::{is_alphanumeric, is_digit, is_lower, trim};

verus! {

/// A short lower-case slug.
pub open spec fn is_slug_text(n: Node) -> bool {
    n matches Node::Text(s) && 0 < s.len() <= 48 && forall|i: int|
        0 <= i < s.len() ==> 'a' <= #[trigger] s[i] <= 'z' || '0' <= s[i] <= '9' || (i > 0 && (s[i]
            == '-' || s[i] == '_'))
}

/// A client id: it starts with a letter or a digit.
pub open spec fn is_client_text(n: Node) -> bool {
    n matches Node::Text(s) && 0 < s.len() <= 128 && forall|i: int|
        0 <= i < s.len() ==> 'a' <= #[trigger] s[i] <= 'z' || 'A' <= s[i] <= 'Z' || '0' <= s[i]
            <= '9' || (i > 0 && (s[i] == '.' || s[i] == ':' || s[i] == '_' || s[i] == '-'))
}

/// Which texts are task ids and which are client ids.
pub proof fn law_ids(n: Node)
    ensures
        slug_of(n, MAX_TASK_ID_CHARS as int) is Ok <==> is_slug_text(n),
        slug_of(n, MAX_TASK_ID_CHARS as int) matches Ok(s) ==> n == Node::Text(s),
        actor_of(n) is Ok <==> is_client_text(n),
        actor_of(n) matches Ok(s) ==> n == Node::Text(s),
{
    if n is Text {
        let s = n->Text_0;
        if is_slug(s) {
            assert forall|i: int| 0 <= i < s.len() implies 'a' <= #[trigger] s[i] <= 'z' || '0'
                <= s[i] <= '9' || (i > 0 && (s[i] == '-' || s[i] == '_')) by {
                assert(is_lower(s[i]) || is_digit(s[i]) || (i > 0 && (s[i] == '-' || s[i] == '_')));
            }
        }
        if is_slug_text(n) {
            assert forall|i: int| 0 <= i < s.len() implies is_lower(#[trigger] s[i]) || is_digit(
                s[i],
            ) || (i > 0 && (s[i] == '-' || s[i] == '_')) by {
            }
        }
        if is_actor(s) {
            assert forall|i: int| 0 <= i < s.len() implies 'a' <= #[trigger] s[i] <= 'z' || 'A'
                <= s[i] <= 'Z' || '0' <= s[i] <= '9' || (i > 0 && (s[i] == '.' || s[i] == ':'
                || s[i] == '_' || s[i] == '-')) by {
                assert(is_alphanumeric(s[i]) || (i > 0 && is_actor_mark(s[i])));
            }
        }
        if is_client_text(n) {
            assert forall|i: int| 0 <= i < s.len() implies is_alphanumeric(#[trigger] s[i]) || (i
                > 0 && is_actor_mark(s[i])) by {
            }
        }
    }
}

/// The name of an action.
pub open spec fn named(action: Action) -> Seq<char> {
    match action {
        Action::Status => "status"@,
        Action::Read => "read"@,
        Action::Create => "create"@,
        Action::Append => "append"@,
        Action::Bind => "bind"@,
        Action::Archive => "archive"@,
        Action::Disable => "disable"@,
    }
}

/// Whether a request may have the field.
pub open spec fn may_ask(k: Seq<char>) -> bool {
    k == "action"@ || k == "task_id"@ || k == "title"@ || k == "expected_revision"@ || k
        == "event"@ || k == "client_id"@ || k == "binding"@
}

/// A request that is taken says what was asked: its action is the one that is
/// named, and each of its parts is the field of that name, where there is one.
pub proof fn law_request_says_what_was_asked(n: Node, policy: Seq<Seq<char>>)
    requires
        request_of(n, policy) is Ok,
    ensures
        ({
            let r = request_of(n, policy)->Ok_0;
            &&& n.at("action"@) == Node::Text(named(r.action))
            &&& n matches Node::Record(fields) && forall|i: int|
                0 <= i < fields.len() ==> may_ask((#[trigger] fields[i]).0)
            &&& json_text(n) matches Some(t) && encode_utf8(t).len() <= 131072
            &&& n.member("task_id"@) == (match r.task_id {
                Some(id) => Some(Node::Text(id)),
                None => None,
            })
            &&& r.task_id matches Some(id) ==> is_slug_text(Node::Text(id))
            &&& n.member("client_id"@) == (match r.client_id {
                Some(id) => Some(Node::Text(id)),
                None => None,
            })
            &&& r.client_id matches Some(id) ==> is_client_text(Node::Text(id))
            &&& n.member("expected_revision"@) == (match r.expected_revision {
                Some(v) => Some(Node::Unsigned(v)),
                None => None,
            })
            &&& n.member("title"@) is Some <==> r.title is Some
            &&& r.title matches Some(t) ==> (n.at("title"@) matches Node::Text(s) && t == trim(s)
                && 0 < t.len() <= 256)
            &&& n.member("event"@) is Some <==> r.event is Some
            &&& r.event matches Some(e) ==> event_of(n.at("event"@), policy) == Ok::<_, Failure>(e)
            &&& n.member("binding"@) is Some <==> r.binding is Some
            &&& r.binding matches Some(b) ==> n.at("binding"@).at("task_id"@) == Node::Text(
                b.task_id,
            ) && n.at("binding"@).at("client_id"@) == Node::Text(b.client_id)
            &&& r.binding matches Some(b) ==> (r.task_id matches Some(id) ==> id == b.task_id) && (
            r.client_id matches Some(id) ==> id == b.client_id)
        }),
{
    let r = request_of(n, policy)->Ok_0;
    let fields = n->Record_0;
    if n.member("task_id"@) is Some {
        law_ids(n.member("task_id"@)->0);
    }
    if n.member("client_id"@) is Some {
        law_ids(n.member("client_id"@)->0);
    }
    if n.member("binding"@) is Some {
        law_ids(n.at("binding"@).at("task_id"@));
        law_ids(n.at("binding"@).at("client_id"@));
    }
    assert forall|i: int| 0 <= i < fields.len() implies may_ask((#[trigger] fields[i]).0) by {
        assert(is_request_key(fields[i].0));
    }
}

/// Whether the action takes a request with these fields.
pub open spec fn takes(
    action: Action,
    task: bool,
    title: bool,
    revision: bool,
    event: bool,
    client: bool,
    binding: bool,
) -> bool {
    match action {
        Action::Status => !task && !title && !revision && !event && !binding,
        Action::Read => task && !title && !revision && !event && !client && !binding,
        Action::Create => task && title,
        Action::Append => task && !title && revision && event && !binding,
        Action::Bind => task && !title && !event && (client || binding),
        Action::Archive => task && !title && revision && !event && !client && !binding,
        Action::Disable => !task && !title && !event && !client && !binding,
    }
}

/// A request is taken only with the fields that its action takes.
pub proof fn law_actions_take_their_fields(n: Node, policy: Seq<Seq<char>>)
    requires
        request_of(n, policy) is Ok,
    ensures
        takes(
            request_of(n, policy)->Ok_0.action,
            n.member("task_id"@) is Some,
            n.member("title"@) is Some,
            n.member("expected_revision"@) is Some,
            n.member("event"@) is Some,
            n.member("client_id"@) is Some,
            n.member("binding"@) is Some,
        ),
{
}

/// A request with the fields that its action takes is taken, where each field
/// is well-formed, the binding agrees with the rest, and it is not too long.
pub proof fn law_well_formed_request_is_taken(
    n: Node,
    action: Action,
    policy: Seq<Seq<char>>,
)
    requires
        json_text(n) matches Some(t) && encode_utf8(t).len() <= 131072,
        n matches Node::Record(fields) && forall|i: int|
            0 <= i < fields.len() ==> may_ask((#[trigger] fields[i]).0),
        n.at("action"@) == Node::Text(named(action)),
        takes(
            action,
            n.member("task_id"@) is Some,
            n.member("title"@) is Some,
            n.member("expected_revision"@) is Some,
            n.member("event"@) is Some,
            n.member("client_id"@) is Some,
            n.member("binding"@) is Some,
        ),
        n.member("task_id"@) is Some ==> is_slug_text(n.at("task_id"@)),
        n.member("client_id"@) is Some ==> is_client_text(n.at("client_id"@)),
        n.member("expected_revision"@) is Some ==> n.at("expected_revision"@) is Unsigned,
        n.member("title"@) is Some ==> (n.at("title"@) matches Node::Text(s) && plain_text(
            Node::Text(trim(s)),
            256,
        )),
        n.member("event"@) is Some ==> event_of(n.at("event"@), policy) is Ok,
        n.member("binding"@) matches Some(b) ==> (b matches Node::Record(own) && forall|i: int|
            0 <= i < own.len() ==> ((#[trigger] own[i]).0 == "task_id"@ || own[i].0
                == "client_id"@)) && is_slug_text(b.at("task_id"@)) && is_client_text(
            b.at("client_id"@),
        ) && (n.member("task_id"@) is Some ==> n.at("task_id"@) == b.at("task_id"@)) && (n.member(
            "client_id"@,
        ) is Some ==> n.at("client_id"@) == b.at("client_id"@)),
    ensures
        request_of(n, policy) matches Ok(r) && r.action == action,
{
    let fields = n->Record_0;
    law_ids(n.at("task_id"@));
    law_ids(n.at("client_id"@));
    lemma_action_names();
    assert forall|i: int| 0 <= i < fields.len() implies is_request_key(
        #[trigger] fields[i].0,
    ) by {
        assert(may_ask(fields[i].0));
    }
    assert(only_request_keys(fields));
    if n.member("title"@) is Some {
        lemma_plain(trim(n.at("title"@)->Text_0));
    }
    if n.member("binding"@) is Some {
        let b = n.member("binding"@)->0;
        law_ids(b.at("task_id"@));
        law_ids(b.at("client_id"@));
        let own = b->Record_0;
        assert forall|i: int| 0 <= i < own.len() implies (#[trigger] own[i].0 == "task_id"@
            || own[i].0 == "client_id"@) by {
        }
        assert(only_binding_keys(own));
        assert(binding_of(b) is Ok);
    }
}

proof fn lemma_action_names()
    ensures
        key_code("status"@) == 27706810739,
        key_code("read"@) == 19099115876,
        key_code("create"@) == 27438245221,
        key_code("append"@) == 27404562532,
        key_code("bind"@) == 18830945892,
        key_code("disable"@) == 31749403493,
        key_code("archive"@) == 31699657573,
{
    reveal_strlit("status");
    reveal_strlit("read");
    reveal_strlit("create");
    reveal_strlit("append");
    reveal_strlit("bind");
    reveal_strlit("disable");
    reveal_strlit("archive");
}

/// What a request may do to the files of a project: a status and a read request
/// share it, a create request makes it where it is not there, and all others
/// have it for themselves.
pub proof fn law_access_follows_the_action(r: RequestView)
    ensures
        access_of(AskedView::Repair) == Access::Exclusive,
        r.action == Action::Status || r.action == Action::Read <==> access_of(AskedView::Checked(r))
            == Access::Shared,
        r.action == Action::Create <==> access_of(AskedView::Checked(r)) == Access::Created,
        r.action == Action::Append || r.action == Action::Bind || r.action == Action::Archive
            || r.action == Action::Disable <==> access_of(AskedView::Checked(r))
            == Access::Exclusive,
{
}

} // verus!
