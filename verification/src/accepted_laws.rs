//! Which events are accepted.
use vstd::prelude::*;
use vstd::utf8::*;
use crate::codec::{json_text};
use crate::event::{
    allowed_fields, controlled, event_base, event_fields, event_id_of, event_of, event_type_names,
    field_of, fields_of, is_actor_mark, is_event_id, is_event_key, paths_of, scalar_keys, type_of,
};
use crate::fact_laws::{lemma_normal_member};
use crate::failure::{Failure};
use crate::json::{Node};
use crate::normal_form::{lemma_event_keys, lemma_ranks};
use crate::path::{
    components, is_component, join_path, lemma_components_of_join, lemma_components_shape,
    lemma_first_slash, lemma_join_bounds, path_of, slash_of, slashed,
};
use crate::table::{lookup};
use crate::text::{is_alphanumeric, is_control, trim};

verus! {

/// A text of bounded length without control characters.
pub open spec fn plain_text(n: Node, max: int) -> bool {
    n matches Node::Text(s) && 0 < s.len() <= max && forall|i: int|
        0 <= i < s.len() ==> 0x1f < #[trigger] s[i] as int && !(0x7f <= s[i] as int <= 0x9f)
}

/// An integer that fits into 64 bits with a sign.
pub open spec fn whole_number(n: Node) -> bool {
    n is Negative || (n matches Node::Unsigned(v) && v <= 0x7fff_ffff_ffff_ffff)
}

/// Whether a field may have the value.
pub open spec fn may_hold(k: Seq<char>, n: Node, policy: Seq<Seq<char>>) -> bool {
    &&& k == "source"@ ==> n == Node::Text("webcodex"@) || n == Node::Text("local_codex"@) || n
        == Node::Text("local"@) || n == Node::Text("runner"@) || n == Node::Text("gpt"@) || n
        == Node::Text("user"@) || n == Node::Text("system"@)
    &&& k == "job_update_seq"@ ==> n is Unsigned
    &&& k == "observed_at"@ ==> whole_number(n)
    &&& k == "exit_code"@ ==> whole_number(n)
    &&& k == "duration_ms"@ ==> (n matches Node::Unsigned(v) && v <= 31 * 24 * 60 * 60 * 1000)
    &&& k == "session_id"@ ==> plain_text(n, 128)
    &&& k == "job_id"@ ==> plain_text(n, 128)
    &&& k == "tool"@ ==> plain_text(n, 128)
    &&& k == "error_code"@ ==> plain_text(n, 128)
    &&& k == "validation_name"@ ==> plain_text(n, 128)
    &&& k == "commit"@ ==> plain_text(n, 128)
    &&& k == "status"@ ==> plain_text(n, 64)
    &&& k == "outcome"@ ==> plain_text(n, 64)
    &&& k == "task_status"@ ==> n == Node::Text("active"@) || n == Node::Text("completed"@) || n
        == Node::Text("unknown"@) || n == Node::Text("blocked"@)
    &&& k == "summary"@ ==> (n matches Node::Text(s) && plain_text(Node::Text(trim(s)), 4096))
    &&& k == "path"@ ==> path_of(n, policy) is Ok
    &&& k == "unknown"@ ==> n is Bool
    &&& k == "success"@ ==> n is Bool
}

/// Whether an event may have the field at all.
pub open spec fn may_name(k: Seq<char>) -> bool {
    ||| k == "event_id"@
    ||| k == "type"@
    ||| k == "source"@
    ||| k == "observed_at"@
    ||| k == "session_id"@
    ||| k == "job_id"@
    ||| k == "job_update_seq"@
    ||| k == "tool"@
    ||| k == "status"@
    ||| k == "outcome"@
    ||| k == "summary"@
    ||| k == "path"@
    ||| k == "paths"@
    ||| k == "exit_code"@
    ||| k == "duration_ms"@
    ||| k == "unknown"@
    ||| k == "success"@
    ||| k == "task_status"@
    ||| k == "error_code"@
    ||| k == "validation_name"@
    ||| k == "commit"@
}

/// Whether a text is an event id: letters, digits and a few marks.
pub open spec fn is_id_text(n: Node) -> bool {
    n matches Node::Text(s) && 0 < s.len() <= 128 && forall|i: int|
        0 <= i < s.len() ==> 'a' <= #[trigger] s[i] <= 'z' || 'A' <= s[i] <= 'Z' || '0' <= s[i]
            <= '9' || s[i] == '.' || s[i] == ':' || s[i] == '_' || s[i] == '-'
}

/// The types of events.
pub open spec fn is_type_text(n: Node) -> bool {
    ||| n == Node::Text("task_created"@)
    ||| n == Node::Text("task_selected"@)
    ||| n == Node::Text("task_bound"@)
    ||| n == Node::Text("task_completed"@)
    ||| n == Node::Text("task_blocked"@)
    ||| n == Node::Text("session_started"@)
    ||| n == Node::Text("session_continued"@)
    ||| n == Node::Text("session_finished"@)
    ||| n == Node::Text("tool_started"@)
    ||| n == Node::Text("tool_finished"@)
    ||| n == Node::Text("file_changed"@)
    ||| n == Node::Text("file_edit"@)
    ||| n == Node::Text("file_read"@)
    ||| n == Node::Text("job_accepted"@)
    ||| n == Node::Text("job_queued"@)
    ||| n == Node::Text("job_started"@)
    ||| n == Node::Text("job_terminal"@)
    ||| n == Node::Text("validation_started"@)
    ||| n == Node::Text("validation_finished"@)
    ||| n == Node::Text("validation_result"@)
    ||| n == Node::Text("stage_started"@)
    ||| n == Node::Text("stage_finished"@)
    ||| n == Node::Text("handoff_started"@)
    ||| n == Node::Text("handoff_saved"@)
    ||| n == Node::Text("note_added"@)
}

/// Whether a value is a list of at most 32 acceptable paths.
pub open spec fn is_path_list(n: Node, policy: Seq<Seq<char>>) -> bool {
    n matches Node::List(items) && items.len() <= 32 && forall|i: int|
        0 <= i < items.len() ==> path_of(#[trigger] items[i], policy) is Ok
}

proof fn lemma_may_hold(k: Seq<char>, n: Node, policy: Seq<Seq<char>>)
    requires
        scalar_keys().contains(k),
    ensures
        field_of(k, n, policy) is Ok <==> may_hold(k, n, policy),
{
    lemma_ranks();
    lemma_status_texts();
    if n is Text {
        let s = n->Text_0;
        lemma_plain(s);
        lemma_plain(trim(s));
    }
    let keys = scalar_keys();
    let i = choose|i: int| 0 <= i < keys.len() && keys[i] == k;
    if i < 9 {
        if i == 0 {
        } else if i == 1 {
        } else if i == 2 {
        } else if i == 3 {
        } else if i == 4 {
        } else if i == 5 {
        } else if i == 6 {
        } else if i == 7 {
        } else {
            assert(i == 8);
        }
    } else {
        if i == 9 {
        } else if i == 10 {
        } else if i == 11 {
        } else if i == 12 {
        } else if i == 13 {
        } else if i == 14 {
        } else if i == 15 {
        } else if i == 16 {
        } else {
            assert(i == 17);
        }
    }
}

/// The statuses of a task are short plain texts.
proof fn lemma_status_texts()
    ensures
        plain_text(Node::Text("active"@), 64),
        plain_text(Node::Text("completed"@), 64),
        plain_text(Node::Text("unknown"@), 64),
        plain_text(Node::Text("blocked"@), 64),
        !controlled("active"@),
        !controlled("completed"@),
        !controlled("unknown"@),
        !controlled("blocked"@),
{
    reveal_strlit("active");
    reveal_strlit("completed");
    reveal_strlit("unknown");
    reveal_strlit("blocked");
}

pub proof fn lemma_plain(s: Seq<char>)
    ensures
        controlled(s) <==> !(forall|i: int|
            0 <= i < s.len() ==> 0x1f < #[trigger] s[i] as int && !(0x7f <= s[i] as int <= 0x9f)),
{
    if controlled(s) {
        let i = choose|i: int| 0 <= i < s.len() && is_control(#[trigger] s[i]);
        assert(!(0x1f < s[i] as int && !(0x7f <= s[i] as int <= 0x9f)));
    }
}

proof fn lemma_fields_accepted(
    fields: Seq<(Seq<char>, Node)>,
    base: Seq<(Seq<char>, Node)>,
    keys: Seq<Seq<char>>,
    m: nat,
    policy: Seq<Seq<char>>,
)
    requires
        m <= keys.len(),
        forall|i: int|
            0 <= i < m && lookup(fields, #[trigger] keys[i]) is Some ==> field_of(
                keys[i],
                lookup(fields, keys[i])->0,
                policy,
            ) is Ok,
    ensures
        fields_of(fields, base, keys, m, policy) is Ok,
    decreases m,
{
    if m > 0 {
        lemma_fields_accepted(fields, base, keys, (m - 1) as nat, policy);
        let key = keys[m - 1];
        assert(lookup(fields, key) is Some ==> field_of(key, lookup(fields, key)->0, policy) is Ok);
    }
}

proof fn lemma_paths_accepted(items: Seq<Node>, k: nat, policy: Seq<Seq<char>>)
    requires
        k <= items.len(),
    ensures
        paths_of(items, k, policy) is Ok <==> forall|i: int|
            0 <= i < k ==> path_of(#[trigger] items[i], policy) is Ok,
    decreases k,
{
    if k > 0 {
        lemma_paths_accepted(items, (k - 1) as nat, policy);
        if forall|i: int| 0 <= i < k ==> path_of(#[trigger] items[i], policy) is Ok {
            assert(path_of(items[k - 1], policy) is Ok);
        }
        if paths_of(items, k, policy) is Ok {
            assert forall|i: int| 0 <= i < k implies path_of(#[trigger] items[i], policy) is Ok by {
            }
        }
    }
}

proof fn lemma_type_texts(s: Seq<char>)
    ensures
        event_type_names().contains(s) <==> is_type_text(Node::Text(s)),
        is_type_text(Node::Text(s)) ==> s.len() > 0,
{
    let all = event_type_names();
    reveal_strlit("task_created");
    reveal_strlit("task_selected");
    reveal_strlit("task_bound");
    reveal_strlit("task_completed");
    reveal_strlit("task_blocked");
    reveal_strlit("session_started");
    reveal_strlit("session_continued");
    reveal_strlit("session_finished");
    reveal_strlit("tool_started");
    reveal_strlit("tool_finished");
    reveal_strlit("file_changed");
    reveal_strlit("file_edit");
    reveal_strlit("file_read");
    reveal_strlit("job_accepted");
    reveal_strlit("job_queued");
    reveal_strlit("job_started");
    reveal_strlit("job_terminal");
    reveal_strlit("validation_started");
    reveal_strlit("validation_finished");
    reveal_strlit("validation_result");
    reveal_strlit("stage_started");
    reveal_strlit("stage_finished");
    reveal_strlit("handoff_started");
    reveal_strlit("handoff_saved");
    reveal_strlit("note_added");
    assert(all.len() == 25);
    if is_type_text(Node::Text(s)) {
        assert(all[0] == "task_created"@ && all[1] == "task_selected"@ && all[2] == "task_bound"@
            && all[3] == "task_completed"@ && all[4] == "task_blocked"@);
        assert(all[5] == "session_started"@ && all[6] == "session_continued"@ && all[7]
            == "session_finished"@ && all[8] == "tool_started"@ && all[9] == "tool_finished"@);
        assert(all[10] == "file_changed"@ && all[11] == "file_edit"@ && all[12] == "file_read"@
            && all[13] == "job_accepted"@ && all[14] == "job_queued"@);
        assert(all[15] == "job_started"@ && all[16] == "job_terminal"@ && all[17]
            == "validation_started"@ && all[18] == "validation_finished"@ && all[19]
            == "validation_result"@);
        assert(all[20] == "stage_started"@ && all[21] == "stage_finished"@ && all[22]
            == "handoff_started"@ && all[23] == "handoff_saved"@ && all[24] == "note_added"@);
    }
}

/// Whether all of an event may be there as it is given.
pub open spec fn may_be_recorded(n: Node, policy: Seq<Seq<char>>) -> bool {
    &&& n matches Node::Record(fields) && forall|i: int|
        0 <= i < fields.len() ==> may_name((#[trigger] fields[i]).0)
    &&& is_id_text(n.at("event_id"@))
    &&& is_type_text(n.at("type"@))
    &&& forall|k: Seq<char>| #[trigger] n.member(k) is Some ==> may_hold(k, n.at(k), policy)
    &&& n.member("paths"@) matches Some(paths) ==> is_path_list(paths, policy)
}

proof fn lemma_names(k: Seq<char>)
    ensures
        is_event_key(k) <==> may_name(k),
{
    let keys = scalar_keys();
    assert(keys[0] == "source"@ && keys[1] == "observed_at"@ && keys[2] == "session_id"@ && keys[3]
        == "job_id"@ && keys[4] == "job_update_seq"@ && keys[5] == "tool"@);
    assert(keys[6] == "status"@ && keys[7] == "outcome"@ && keys[8] == "summary"@ && keys[9]
        == "path"@ && keys[10] == "exit_code"@ && keys[11] == "duration_ms"@);
    assert(keys[12] == "unknown"@ && keys[13] == "success"@ && keys[14] == "task_status"@
        && keys[15] == "error_code"@ && keys[16] == "validation_name"@ && keys[17] == "commit"@);
    assert(keys.len() == 18);
}

/// An accepted event has an id and one of the known types, and every field is
/// one of the known ones and holds what it may hold.
pub proof fn law_accepted_event_is_well_formed(n: Node, policy: Seq<Seq<char>>)
    requires
        event_of(n, policy) is Ok,
    ensures
        may_be_recorded(n, policy),
{
    let fields = n->Record_0;
    let id = n.at("event_id"@)->Text_0;
    lemma_type_texts(n.at("type"@)->Text_0);
    lemma_id_text(n.at("event_id"@)->Text_0);
    assert forall|i: int| 0 <= i < fields.len() implies may_name((#[trigger] fields[i]).0) by {
        assert(is_event_key(fields[i].0));
        lemma_names(fields[i].0);
    }
    assert forall|k: Seq<char>| #[trigger] n.member(k) is Some implies may_hold(
        k,
        n.at(k),
        policy,
    ) by {
        lemma_normal_member(n, policy, k);
        lemma_ranks();
        if scalar_keys().contains(k) {
            lemma_may_hold(k, n.at(k), policy);
        }
    }
    lemma_normal_member(n, policy, "paths"@);
    if n.member("paths"@) is Some {
        let items = n.member("paths"@)->0->List_0;
        lemma_paths_accepted(items, items.len(), policy);
    }
}

pub proof fn lemma_id_text(s: Seq<char>)
    ensures
        is_id_text(Node::Text(s)) <==> event_id_of(Node::Text(s)) is Ok,
{
    if is_event_id(s) {
        assert forall|i: int| 0 <= i < s.len() implies 'a' <= #[trigger] s[i] <= 'z' || 'A' <= s[i]
            <= 'Z' || '0' <= s[i] <= '9' || s[i] == '.' || s[i] == ':' || s[i] == '_' || s[i]
            == '-' by {
            assert(is_alphanumeric(s[i]) || is_actor_mark(s[i]));
        }
    }
    if is_id_text(Node::Text(s)) {
        assert forall|i: int| 0 <= i < s.len() implies is_alphanumeric(#[trigger] s[i])
            || is_actor_mark(s[i]) by {
        }
    }
}

/// Every well-formed event is accepted, unless it is too large or cannot be
/// printed.
pub proof fn law_well_formed_event_is_accepted(n: Node, policy: Seq<Seq<char>>)
    requires
        may_be_recorded(n, policy),
    ensures
        event_of(n, policy) matches Err(f) ==> f.code@ == "event_too_large"@ || f.message@
            == "event is not serializable"@,
{
    let fields = n->Record_0;
    let keys = scalar_keys();
    lemma_event_keys();
    lemma_type_texts(n.at("type"@)->Text_0);
    lemma_id_text(n.at("event_id"@)->Text_0);
    assert forall|i: int| 0 <= i < fields.len() implies is_event_key(#[trigger] fields[i].0) by {
        lemma_names(fields[i].0);
    }
    assert(allowed_fields(fields));
    assert(n.member("event_id"@) == Some(n.at("event_id"@)));
    assert(n.member("type"@) == Some(n.at("type"@)));
    let id = event_id_of(lookup(fields, "event_id"@)->0)->Ok_0;
    let kind = type_of(fields)->Ok_0;
    assert forall|i: int| 0 <= i < keys.len() && lookup(fields, #[trigger] keys[i]) is Some implies
        field_of(keys[i], lookup(fields, keys[i])->0, policy) is Ok by {
        assert(n.member(keys[i]) is Some);
        assert(keys.contains(keys[i]));
        lemma_may_hold(keys[i], n.at(keys[i]), policy);
    }
    lemma_fields_accepted(fields, event_base(id, kind), keys, keys.len(), policy);
    if n.member("paths"@) is Some {
        let items = n.member("paths"@)->0->List_0;
        lemma_paths_accepted(items, items.len(), policy);
    }
}

/// An event is accepted up to 16 kibibytes of its normal form.
pub proof fn law_event_size(n: Node, policy: Seq<Seq<char>>)
    ensures
        event_of(n, policy) matches Ok(e) ==> (json_text(e.value) matches Some(t) && encode_utf8(
            t,
        ).len() <= 16 * 1024),
        may_be_recorded(n, policy) ==> ({
            let id = n.at("event_id"@)->Text_0;
            let kind = n.at("type"@)->Text_0;
            event_fields(n->Record_0, id, kind, policy) matches Ok(all) && ((json_text(
                Node::Record(all),
            ) matches Some(t) && encode_utf8(t).len() <= 16 * 1024) ==> event_of(n, policy) is Ok)
        }),
{
    if may_be_recorded(n, policy) {
        let fields = n->Record_0;
        let keys = scalar_keys();
        lemma_event_keys();
        lemma_type_texts(n.at("type"@)->Text_0);
        lemma_id_text(n.at("event_id"@)->Text_0);
        assert forall|i: int| 0 <= i < fields.len() implies is_event_key(
            #[trigger] fields[i].0,
        ) by {
            lemma_names(fields[i].0);
        }
        assert(allowed_fields(fields));
        assert(n.member("event_id"@) == Some(n.at("event_id"@)));
        assert(n.member("type"@) == Some(n.at("type"@)));
        let id = n.at("event_id"@)->Text_0;
        let kind = n.at("type"@)->Text_0;
        assert forall|i: int|
            0 <= i < keys.len() && lookup(fields, #[trigger] keys[i]) is Some implies field_of(
            keys[i],
            lookup(fields, keys[i])->0,
            policy,
        ) is Ok by {
            assert(n.member(keys[i]) is Some);
            assert(keys.contains(keys[i]));
            lemma_may_hold(keys[i], n.at(keys[i]), policy);
        }
        lemma_fields_accepted(fields, event_base(id, kind), keys, keys.len(), policy);
        if n.member("paths"@) is Some {
            let items = n.member("paths"@)->0->List_0;
            lemma_paths_accepted(items, items.len(), policy);
        }
    }
}

/// An accepted path is relative and stays inside the project and outside the
/// checkpoint; its normal form names the same components.
pub proof fn law_accepted_path_stays_inside(s: Seq<char>, policy: Seq<Seq<char>>)
    requires
        path_of(Node::Text(s), policy) is Ok,
    ensures
        ({
            let p = path_of(Node::Text(s), policy)->Ok_0;
            &&& 0 < s.len() <= 512
            &&& s[0] != '/' && s[0] != '\\'
            &&& !s.contains(':') && !s.contains('\0')
            &&& components(p) == components(slashed(s))
            &&& !components(p).contains(".."@)
            &&& components(p)[0] != "handoff"@
            &&& !p.contains('\\')
            &&& 0 < p.len() <= s.len()
        }),
{
    reveal_strlit("..");
    assert(".."@ =~= seq!['.', '.']);
    let t = slashed(s);
    lemma_components_shape(t);
    lemma_components_of_join(components(t));
    lemma_join_bounds(t);
    let p = join_path(components(t));
    assert(!p.contains('\\')) by {
        if p.contains('\\') {
            let i = choose|i: int| 0 <= i < p.len() && p[i] == '\\';
            assert(t.contains(p[i]));
            let j = choose|j: int| 0 <= j < t.len() && t[j] == p[i];
            assert(t[j] == slash_of(s[j]));
        }
    }
    if p.len() == 0 {
        assert(components(p).len() == 0) by {
            lemma_first_slash(p);
            assert(p.take(0) =~= Seq::<char>::empty());
        }
    }
}

/// A path that is already plain is accepted as it is: names joined by single
/// slashes, none of them a dot or two dots, without backslashes and colons, not
/// under the checkpoint directory and not named by the policy.
pub proof fn law_plain_path_is_kept(names: Seq<Seq<char>>, policy: Seq<Seq<char>>)
    requires
        names.len() > 0,
        forall|i: int|
            0 <= i < names.len() ==> (#[trigger] names[i]).len() > 0 && names[i] != "."@ && names[i]
                != ".."@ && !names[i].contains('/'),
        names[0] != "handoff"@,
        join_path(names).len() <= 512,
        !join_path(names).contains('\\'),
        !join_path(names).contains(':'),
        !join_path(names).contains('\0'),
        !policy.contains(join_path(names)),
    ensures
        path_of(Node::Text(join_path(names)), policy) == Ok::<_, Failure>(join_path(names)),
{
    reveal_strlit(".");
    reveal_strlit("..");
    assert("."@ =~= seq!['.']);
    assert(".."@ =~= seq!['.', '.']);
    let p = join_path(names);
    assert forall|i: int| 0 <= i < names.len() implies is_component(#[trigger] names[i])
        && !names[i].contains('/') by {
    }
    lemma_components_of_join(names);
    assert(slashed(p) =~= p) by {
        assert forall|i: int| 0 <= i < p.len() implies slashed(p)[i] == p[i] by {
            if p[i] == '\\' {
                assert(p.contains('\\'));
            }
        }
    }
    lemma_join_starts(names);
    assert(p.contains(p[0]));
    assert(!names.contains(seq!['.', '.'])) by {
        if names.contains(seq!['.', '.']) {
            let i = choose|i: int| 0 <= i < names.len() && names[i] == seq!['.', '.'];
            assert(names[i] != ".."@);
        }
    }
}

proof fn lemma_join_starts(names: Seq<Seq<char>>)
    requires
        names.len() > 0,
        names[0].len() > 0,
    ensures
        join_path(names).len() > 0,
        join_path(names)[0] == names[0][0],
        names[0].contains(join_path(names)[0]),
    decreases names.len(),
{
    if names.len() > 1 {
        lemma_join_starts(names.drop_last());
        assert(names.drop_last()[0] == names[0]);
    } else {
        assert(names[0].contains(names[0][0]));
    }
}

} // verus!
