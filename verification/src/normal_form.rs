//! What the normal form of an event guarantees.
use vstd::prelude::*;
use vstd::string::*;
use crate::codec::{distinct_keys, lemma_put_tidy, readable, tidy};
use crate::event::{
    allowed_fields, event_base, event_id_of, event_of, field_of, fields_of, is_event_key,
    is_task_status, paths_of, scalar_keys, type_of, with_paths,
};
use crate::json::{Node};
use crate::path::{lemma_path_stable, path_of};
use crate::table::{lemma_lookup_hit, lemma_put_keys, lemma_put_lookup, lookup, ordered, put};
use crate::text::{is_white_space, lemma_lex_irreflexive, trim, trim_end, trim_start};

verus! {

/// A number that tells the names of event fields apart.
spec fn mark(s: Seq<char>) -> int {
    s.len() * 0x1000000 + (s[0] as int) * 0x10000 + (s[1] as int) * 0x100 + (s[2] as int)
}

/// The place of a field name in the reading order.
pub closed spec fn rank(k: Seq<char>) -> int {
    if k == "source"@ {
        0
    } else if k == "observed_at"@ {
        1
    } else if k == "session_id"@ {
        2
    } else if k == "job_id"@ {
        3
    } else if k == "job_update_seq"@ {
        4
    } else if k == "tool"@ {
        5
    } else if k == "status"@ {
        6
    } else if k == "outcome"@ {
        7
    } else if k == "summary"@ {
        8
    } else if k == "path"@ {
        9
    } else if k == "exit_code"@ {
        10
    } else if k == "duration_ms"@ {
        11
    } else if k == "unknown"@ {
        12
    } else if k == "success"@ {
        13
    } else if k == "task_status"@ {
        14
    } else if k == "error_code"@ {
        15
    } else if k == "validation_name"@ {
        16
    } else if k == "commit"@ {
        17
    } else if k == "event_id"@ {
        18
    } else if k == "type"@ {
        19
    } else {
        20
    }
}

pub proof fn lemma_ranks()
    ensures
        rank("source"@) == 0,
        rank("observed_at"@) == 1,
        rank("session_id"@) == 2,
        rank("job_id"@) == 3,
        rank("job_update_seq"@) == 4,
        rank("tool"@) == 5,
        rank("status"@) == 6,
        rank("outcome"@) == 7,
        rank("summary"@) == 8,
        rank("path"@) == 9,
        rank("exit_code"@) == 10,
        rank("duration_ms"@) == 11,
        rank("unknown"@) == 12,
        rank("success"@) == 13,
        rank("task_status"@) == 14,
        rank("error_code"@) == 15,
        rank("validation_name"@) == 16,
        rank("commit"@) == 17,
        rank("event_id"@) == 18,
        rank("type"@) == 19,
        rank("paths"@) == 20,
{
    reveal_strlit("source");
    reveal_strlit("observed_at");
    reveal_strlit("session_id");
    reveal_strlit("job_id");
    reveal_strlit("job_update_seq");
    reveal_strlit("tool");
    reveal_strlit("status");
    reveal_strlit("outcome");
    reveal_strlit("summary");
    reveal_strlit("path");
    reveal_strlit("exit_code");
    reveal_strlit("duration_ms");
    reveal_strlit("unknown");
    reveal_strlit("success");
    reveal_strlit("task_status");
    reveal_strlit("error_code");
    reveal_strlit("validation_name");
    reveal_strlit("commit");
    reveal_strlit("event_id");
    reveal_strlit("type");
    reveal_strlit("paths");
    assert(mark("source"@) == 6 * 0x1000000 + 115 * 0x10000 + 111 * 0x100 + 117);
    assert(mark("observed_at"@) == 11 * 0x1000000 + 111 * 0x10000 + 98 * 0x100 + 115);
    assert(mark("session_id"@) == 10 * 0x1000000 + 115 * 0x10000 + 101 * 0x100 + 115);
    assert(mark("job_id"@) == 6 * 0x1000000 + 106 * 0x10000 + 111 * 0x100 + 98);
    assert(mark("job_update_seq"@) == 14 * 0x1000000 + 106 * 0x10000 + 111 * 0x100 + 98);
    assert(mark("tool"@) == 4 * 0x1000000 + 116 * 0x10000 + 111 * 0x100 + 111);
    assert(mark("status"@) == 6 * 0x1000000 + 115 * 0x10000 + 116 * 0x100 + 97);
    assert(mark("outcome"@) == 7 * 0x1000000 + 111 * 0x10000 + 117 * 0x100 + 116);
    assert(mark("summary"@) == 7 * 0x1000000 + 115 * 0x10000 + 117 * 0x100 + 109);
    assert(mark("path"@) == 4 * 0x1000000 + 112 * 0x10000 + 97 * 0x100 + 116);
    assert(mark("exit_code"@) == 9 * 0x1000000 + 101 * 0x10000 + 120 * 0x100 + 105);
    assert(mark("duration_ms"@) == 11 * 0x1000000 + 100 * 0x10000 + 117 * 0x100 + 114);
    assert(mark("unknown"@) == 7 * 0x1000000 + 117 * 0x10000 + 110 * 0x100 + 107);
    assert(mark("success"@) == 7 * 0x1000000 + 115 * 0x10000 + 117 * 0x100 + 99);
    assert(mark("task_status"@) == 11 * 0x1000000 + 116 * 0x10000 + 97 * 0x100 + 115);
    assert(mark("error_code"@) == 10 * 0x1000000 + 101 * 0x10000 + 114 * 0x100 + 114);
    assert(mark("validation_name"@) == 15 * 0x1000000 + 118 * 0x10000 + 97 * 0x100 + 108);
    assert(mark("commit"@) == 6 * 0x1000000 + 99 * 0x10000 + 111 * 0x100 + 109);
    assert(mark("event_id"@) == 8 * 0x1000000 + 101 * 0x10000 + 118 * 0x100 + 101);
    assert(mark("type"@) == 4 * 0x1000000 + 116 * 0x10000 + 121 * 0x100 + 112);
    assert(mark("paths"@) == 5 * 0x1000000 + 112 * 0x10000 + 97 * 0x100 + 116);
}

/// The names of the fields differ from each other.
pub proof fn lemma_event_keys()
    ensures
        forall|i: int, j: int|
            0 <= i < j < scalar_keys().len() ==> #[trigger] scalar_keys()[i]
                != #[trigger] scalar_keys()[j],
        !scalar_keys().contains("event_id"@),
        !scalar_keys().contains("type"@),
        !scalar_keys().contains("paths"@),
        "event_id"@ != "type"@,
        "event_id"@ != "paths"@,
        "type"@ != "paths"@,
        scalar_keys().len() == 18,
{
    lemma_ranks();
    assert forall|i: int| 0 <= i < scalar_keys().len() implies rank(#[trigger] scalar_keys()[i])
        == i by {
        if i < 9 {
            if i == 0 {
            } else if i == 1 {
            } else if i == 2 {
            } else if i == 3 {
            } else if i == 4 {
            } else if i == 5 {
            } else if i == 6 {
            } else if i == 7 {
            } else {
                assert(i == 8);
            }
        } else {
            if i == 9 {
            } else if i == 10 {
            } else if i == 11 {
            } else if i == 12 {
            } else if i == 13 {
            } else if i == 14 {
            } else if i == 15 {
            } else if i == 16 {
            } else {
                assert(i == 17);
            }
        }
    }
    assert forall|i: int, j: int| 0 <= i < j < scalar_keys().len() implies #[trigger] scalar_keys()[i]
        != #[trigger] scalar_keys()[j] by {
        assert(rank(scalar_keys()[i]) == i && rank(scalar_keys()[j]) == j);
    }
    assert forall|k: Seq<char>| rank(k) >= 18 implies !#[trigger] scalar_keys().contains(k) by {
        if scalar_keys().contains(k) {
            let i = choose|i: int| 0 <= i < scalar_keys().len() && scalar_keys()[i] == k;
            assert(rank(scalar_keys()[i]) == i);
        }
    }
    assert(rank("event_id"@) >= 18);
    assert(rank("type"@) >= 18);
    assert(rank("paths"@) >= 18);
}

proof fn lemma_trim_end(s: Seq<char>)
    ensures
        trim_end(s).len() <= s.len(),
        trim_end(s) == s.take(trim_end(s).len() as int),
        trim_end(s).len() > 0 ==> !is_white_space(trim_end(s).last()),
        s.len() > 0 && !is_white_space(s[0]) ==> trim_end(s).len() > 0,
    decreases s.len(),
{
    if s.len() > 0 && is_white_space(s.last()) {
        lemma_trim_end(s.drop_last());
        let t = trim_end(s.drop_last());
        assert(s.drop_last().take(t.len() as int) =~= s.take(t.len() as int));
        if !is_white_space(s[0]) {
            assert(s.len() > 1);
            assert(s.drop_last()[0] == s[0]);
        }
    } else {
        assert(s.take(s.len() as int) =~= s);
    }
}

proof fn lemma_trim_start(s: Seq<char>)
    ensures
        trim_start(s).len() > 0 ==> !is_white_space(trim_start(s)[0]),
    decreases s.len(),
{
    if s.len() > 0 && is_white_space(s[0]) {
        lemma_trim_start(s.drop_first());
    }
}

/// Trimming twice is trimming once.
pub proof fn lemma_trim_stable(s: Seq<char>)
    ensures
        trim(trim(s)) == trim(s),
{
    let u = trim_start(s);
    let t = trim_end(u);
    lemma_trim_start(s);
    lemma_trim_end(u);
    if t.len() > 0 {
        assert(t[0] == u[0]);
        assert(trim_start(t) == t);
        assert(trim_end(t) == t);
    }
}

/// The normal form of a field is its own normal form, where the policy does
/// not name it.
pub proof fn lemma_field_stable(k: Seq<char>, n: Node, policy: Seq<Seq<char>>)
    requires
        field_of(k, n, policy) is Ok,
        k == "path"@ ==> !(field_of(k, n, policy)->Ok_0 matches Node::Text(p) && policy.contains(
            p,
        )),
    ensures
        field_of(k, field_of(k, n, policy)->Ok_0, policy) == field_of(k, n, policy),
        tidy(field_of(k, n, policy)->Ok_0),
        readable(field_of(k, n, policy)->Ok_0, 0),
{
    lemma_ranks();
    if k == "summary"@ {
        lemma_trim_stable(n.text()->0);
    }
    if k == "path"@ {
        lemma_path_stable(n, policy);
    }
}

/// Which fields the first `m` names have put into the table.
pub proof fn lemma_fields_lookup(
    fields: Seq<(Seq<char>, Node)>,
    base: Seq<(Seq<char>, Node)>,
    keys: Seq<Seq<char>>,
    m: nat,
    policy: Seq<Seq<char>>,
    q: Seq<char>,
)
    requires
        m <= keys.len(),
        fields_of(fields, base, keys, m, policy) is Ok,
        forall|i: int, j: int| 0 <= i < j < keys.len() ==> #[trigger] keys[i] != #[trigger] keys[j],
    ensures
        keys.take(m as int).contains(q) ==> match lookup(fields, q) {
            Some(v) => field_of(q, v, policy) is Ok && lookup(
                fields_of(fields, base, keys, m, policy)->Ok_0,
                q,
            ) == Some(field_of(q, v, policy)->Ok_0),
            None => lookup(fields_of(fields, base, keys, m, policy)->Ok_0, q) == lookup(base, q),
        },
        !keys.take(m as int).contains(q) ==> lookup(
            fields_of(fields, base, keys, m, policy)->Ok_0,
            q,
        ) == lookup(base, q),
    decreases m,
{
    if m > 0 {
        lemma_fields_lookup(fields, base, keys, (m - 1) as nat, policy, q);
        let prior = keys.take(m - 1);
        let now = keys.take(m as int);
        let key = keys[m - 1];
        let acc = fields_of(fields, base, keys, (m - 1) as nat, policy)->Ok_0;
        assert(now =~= prior.push(key));
        assert(now[m - 1] == key);
        if prior.contains(q) {
            let i = choose|i: int| 0 <= i < prior.len() && prior[i] == q;
            assert(now[i] == q);
            assert(keys[i] == q);
            assert(q != key);
        } else if q != key && now.contains(q) {
            let i = choose|i: int| 0 <= i < now.len() && now[i] == q;
            assert(prior[i] == q);
        }
        if lookup(fields, key) is Some {
            lemma_put_lookup(acc, key, field_of(key, lookup(fields, key)->0, policy)->Ok_0, q);
        }
    } else {
        assert(!keys.take(0).contains(q));
    }
}

/// The table stays tidy and holds event fields only.
proof fn lemma_fields_tidy(
    fields: Seq<(Seq<char>, Node)>,
    base: Seq<(Seq<char>, Node)>,
    keys: Seq<Seq<char>>,
    m: nat,
    policy: Seq<Seq<char>>,
)
    requires
        m <= keys.len(),
        fields_of(fields, base, keys, m, policy) is Ok,
        tidy(Node::Record(base)),
        allowed_fields(base),
        forall|i: int| 0 <= i < keys.len() ==> is_event_key(#[trigger] keys[i]),
    ensures
        tidy(Node::Record(fields_of(fields, base, keys, m, policy)->Ok_0)),
        allowed_fields(fields_of(fields, base, keys, m, policy)->Ok_0),
    decreases m,
{
    if m > 0 {
        lemma_fields_tidy(fields, base, keys, (m - 1) as nat, policy);
        let key = keys[m - 1];
        if lookup(fields, key) is Some {
            let v = lookup(fields, key)->0;
            let acc = fields_of(fields, base, keys, (m - 1) as nat, policy)->Ok_0;
            let n = field_of(key, v, policy)->Ok_0;
            assert(tidy(n));
            lemma_put_tidy(acc, key, n);
            lemma_put_allowed(acc, key, n);
        }
    }
}

proof fn lemma_put_allowed(s: Seq<(Seq<char>, Node)>, k: Seq<char>, v: Node)
    requires
        allowed_fields(s),
        is_event_key(k),
    ensures
        allowed_fields(put(s, k, v)),
{
    let t = put(s, k, v);
    assert forall|i: int| 0 <= i < t.len() implies is_event_key(#[trigger] t[i].0) by {
        lemma_put_keys(s, k, v, i);
        if t[i] != (k, v) {
            let j = choose|j: int| 0 <= j < s.len() && #[trigger] s[j] == t[i];
            assert(is_event_key(s[j].0));
        }
    }
}

/// Reading the fields again from a table that answers every name with the
/// normal form gives the same table.
proof fn lemma_fields_again(
    fields: Seq<(Seq<char>, Node)>,
    all: Seq<(Seq<char>, Node)>,
    base: Seq<(Seq<char>, Node)>,
    keys: Seq<Seq<char>>,
    m: nat,
    policy: Seq<Seq<char>>,
)
    requires
        m <= keys.len(),
        fields_of(fields, base, keys, m, policy) is Ok,
        forall|i: int|
            0 <= i < keys.len() ==> match lookup(fields, #[trigger] keys[i]) {
                Some(v) => lookup(all, keys[i]) is Some && field_of(
                    keys[i],
                    lookup(all, keys[i])->0,
                    policy,
                ) == field_of(keys[i], v, policy),
                None => lookup(all, keys[i]) is None,
            },
    ensures
        fields_of(all, base, keys, m, policy) == fields_of(fields, base, keys, m, policy),
    decreases m,
{
    if m > 0 {
        lemma_fields_again(fields, all, base, keys, (m - 1) as nat, policy);
        let key = keys[m - 1];
        assert(lookup(fields, key) is Some ==> lookup(all, key) is Some);
    }
}

/// Normal paths are texts, and normal again where the policy names none.
pub proof fn lemma_paths_again(items: Seq<Node>, k: nat, policy: Seq<Seq<char>>)
    requires
        k <= items.len(),
        paths_of(items, k, policy) is Ok,
    ensures
        paths_of(items, k, policy)->Ok_0.len() == k,
        forall|i: int|
            0 <= i < k ==> #[trigger] paths_of(items, k, policy)->Ok_0[i] == Node::Text(
                path_of(items[i], policy)->Ok_0,
            ) && path_of(items[i], policy) is Ok,
    decreases k,
{
    if k > 0 {
        lemma_paths_again(items, (k - 1) as nat, policy);
    }
}

proof fn lemma_paths_same(items: Seq<Node>, list: Seq<Node>, k: nat, policy: Seq<Seq<char>>)
    requires
        k <= items.len(),
        items.len() == list.len(),
        paths_of(items, k, policy) is Ok,
        forall|i: int|
            0 <= i < items.len() ==> path_of(#[trigger] list[i], policy) == path_of(
                items[i],
                policy,
            ),
    ensures
        paths_of(list, k, policy) == paths_of(items, k, policy),
    decreases k,
{
    if k > 0 {
        lemma_paths_same(items, list, (k - 1) as nat, policy);
        assert(path_of(list[k - 1], policy) == path_of(items[k - 1], policy));
    }
}

/// Whether the policy names none of the paths of an event value.
pub open spec fn unnamed(n: Node, policy: Seq<Seq<char>>) -> bool {
    &&& (n.at("path"@) matches Node::Text(p) ==> !policy.contains(p))
    &&& (n.at("paths"@) matches Node::List(items) ==> forall|i: int|
        0 <= i < items.len() ==> ((#[trigger] items[i]) matches Node::Text(p) ==> !policy.contains(
            p,
        )))
}

/// An event in its normal form is its own normal form, where the policy names
/// none of its normal paths.
pub proof fn law_event_stable(n: Node, policy: Seq<Seq<char>>)
    requires
        event_of(n, policy) is Ok,
        unnamed(event_of(n, policy)->Ok_0.value, policy),
    ensures
        event_of(event_of(n, policy)->Ok_0.value, policy) == event_of(n, policy),
{
    let e = event_of(n, policy)->Ok_0;
    let fields = n->Record_0;
    let id = event_id_of(lookup(fields, "event_id"@)->0)->Ok_0;
    let kind = type_of(fields)->Ok_0;
    let base = event_base(id, kind);
    let keys = scalar_keys();
    let acc = fields_of(fields, base, keys, keys.len(), policy)->Ok_0;
    let all = e.value->Record_0;
    lemma_event_keys();
    lemma_base(id, kind);
    lemma_fields_tidy(fields, base, keys, keys.len(), policy);
    assert(keys.take(keys.len() as int) =~= keys);
    // What the table answers.
    assert forall|q: Seq<char>| q != "paths"@ implies #[trigger] lookup(all, q) == lookup(acc, q) by {
        if lookup(fields, "paths"@) is Some {
            lemma_put_lookup(acc, "paths"@, lookup(all, "paths"@)->0, q);
            let items = lookup(fields, "paths"@)->0->List_0;
            lemma_put_lookup(
                acc,
                "paths"@,
                Node::List(paths_of(items, items.len(), policy)->Ok_0),
                q,
            );
        }
    }
    lemma_fields_lookup(fields, base, keys, keys.len(), policy, "event_id"@);
    lemma_fields_lookup(fields, base, keys, keys.len(), policy, "type"@);
    lemma_fields_lookup(fields, base, keys, keys.len(), policy, "paths"@);
    assert(lookup(all, "event_id"@) == Some(Node::Text(id)));
    assert(lookup(all, "type"@) == Some(Node::Text(kind)));
    assert forall|i: int| 0 <= i < keys.len() implies match lookup(fields, #[trigger] keys[i]) {
        Some(v) => lookup(all, keys[i]) is Some && field_of(
            keys[i],
            lookup(all, keys[i])->0,
            policy,
        ) == field_of(keys[i], v, policy),
        None => lookup(all, keys[i]) is None,
    } by {
        let k = keys[i];
        assert(keys.contains(k));
        lemma_fields_lookup(fields, base, keys, keys.len(), policy, k);
        assert(k != "event_id"@ && k != "type"@ && k != "paths"@);
        if lookup(fields, k) is Some {
            let v = lookup(fields, k)->0;
            assert(lookup(all, k) == Some(field_of(k, v, policy)->Ok_0));
            if k == "path"@ {
                assert(e.value.at("path"@) == field_of(k, v, policy)->Ok_0);
            }
            lemma_field_stable(k, v, policy);
        }
    }
    lemma_fields_again(fields, all, base, keys, keys.len(), policy);
    // The list of paths.
    if lookup(fields, "paths"@) is Some {
        let items = lookup(fields, "paths"@)->0->List_0;
        let list = paths_of(items, items.len(), policy)->Ok_0;
        lemma_put_lookup(acc, "paths"@, Node::List(list), "paths"@);
        lemma_paths_again(items, items.len(), policy);
        assert(e.value.at("paths"@) == Node::List(list));
        assert forall|i: int| 0 <= i < items.len() implies path_of(#[trigger] list[i], policy)
            == path_of(items[i], policy) by {
            lemma_path_stable(items[i], policy);
        }
        lemma_paths_same(items, list, items.len(), policy);
        lemma_put_allowed(acc, "paths"@, Node::List(list));
    }
    assert(with_paths(all, acc, policy) == with_paths(fields, acc, policy));
    assert(event_id_of(Node::Text(id)) == event_id_of(lookup(fields, "event_id"@)->0));
    assert(type_of(all) == type_of(fields));
}

/// The table of the required fields.
pub proof fn lemma_base(id: Seq<char>, kind: Seq<char>)
    ensures
        lookup(event_base(id, kind), "event_id"@) == Some(Node::Text(id)),
        lookup(event_base(id, kind), "type"@) == Some(Node::Text(kind)),
        forall|q: Seq<char>|
            q != "event_id"@ && q != "type"@ ==> #[trigger] lookup(event_base(id, kind), q) is None,
        tidy(Node::Record(event_base(id, kind))),
        allowed_fields(event_base(id, kind)),
        forall|i: int| 0 <= i < scalar_keys().len() ==> is_event_key(#[trigger] scalar_keys()[i]),
{
    lemma_event_keys();
    let empty = Seq::<(Seq<char>, Node)>::empty();
    let one = put(empty, "event_id"@, Node::Text(id));
    assert(tidy(Node::Record(empty)));
    assert(allowed_fields(empty));
    lemma_put_tidy(empty, "event_id"@, Node::Text(id));
    lemma_put_tidy(one, "type"@, Node::Text(kind));
    lemma_put_allowed(empty, "event_id"@, Node::Text(id));
    lemma_put_allowed(one, "type"@, Node::Text(kind));
    lemma_put_lookup(one, "type"@, Node::Text(kind), "event_id"@);
    lemma_put_lookup(one, "type"@, Node::Text(kind), "type"@);
    lemma_put_lookup(empty, "event_id"@, Node::Text(id), "event_id"@);
    assert forall|q: Seq<char>| q != "event_id"@ && q != "type"@ implies #[trigger] lookup(
        event_base(id, kind),
        q,
    ) is None by {
        lemma_put_lookup(one, "type"@, Node::Text(kind), q);
        lemma_put_lookup(empty, "event_id"@, Node::Text(id), q);
        assert(lookup(empty, q) is None);
    }
    assert forall|i: int| 0 <= i < scalar_keys().len() implies is_event_key(
        #[trigger] scalar_keys()[i],
    ) by {
        assert(scalar_keys().contains(scalar_keys()[i]));
    }
}

/// A normal event is a tidy object of event fields that can be printed and
/// read again.
pub proof fn law_event_tidy(n: Node, policy: Seq<Seq<char>>)
    requires
        event_of(n, policy) is Ok,
    ensures
        tidy(event_of(n, policy)->Ok_0.value),
        event_of(n, policy)->Ok_0.value is Record,
        event_of(n, policy)->Ok_0.value.at("event_id"@) == Node::Text(
            event_of(n, policy)->Ok_0.id,
        ),
{
    let fields = n->Record_0;
    let id = event_id_of(lookup(fields, "event_id"@)->0)->Ok_0;
    let kind = type_of(fields)->Ok_0;
    let base = event_base(id, kind);
    let keys = scalar_keys();
    let acc = fields_of(fields, base, keys, keys.len(), policy)->Ok_0;
    lemma_event_keys();
    lemma_base(id, kind);
    lemma_fields_tidy(fields, base, keys, keys.len(), policy);
    assert(keys.take(keys.len() as int) =~= keys);
    lemma_fields_lookup(fields, base, keys, keys.len(), policy, "event_id"@);
    if lookup(fields, "paths"@) is Some {
        let items = lookup(fields, "paths"@)->0->List_0;
        let list = paths_of(items, items.len(), policy)->Ok_0;
        lemma_paths_again(items, items.len(), policy);
        assert forall|i: int| 0 <= i < list.len() implies tidy(#[trigger] list[i]) by {
            assert(list[i] == Node::Text(path_of(items[i], policy)->Ok_0));
        }
        assert(tidy(Node::List(list)));
        lemma_put_tidy(acc, "paths"@, Node::List(list));
        lemma_put_lookup(acc, "paths"@, Node::List(list), "event_id"@);
    }
}

/// A tidy value that is accepted as an event can be printed and read again.
pub proof fn lemma_event_readable(n: Node, policy: Seq<Seq<char>>)
    requires
        event_of(n, policy) is Ok,
        tidy(n),
    ensures
        readable(n, 2),
{
    let fields = n->Record_0;
    let id = event_id_of(lookup(fields, "event_id"@)->0)->Ok_0;
    let kind = type_of(fields)->Ok_0;
    let base = event_base(id, kind);
    let keys = scalar_keys();
    lemma_event_keys();
    assert(keys.take(keys.len() as int) =~= keys);
    lemma_ordered_distinct(fields);
    assert forall|i: int| 0 <= i < fields.len() implies readable((#[trigger] fields[i]).1, 1) by {
        let k = fields[i].0;
        assert forall|j: int| 0 <= j < i implies #[trigger] fields[j].0 != k by {
            assert(fields[j].0 != fields[i].0);
        }
        lemma_lookup_hit(fields, k, i);
        assert(is_event_key(k));
        assert(tidy(fields[i].1));
        if keys.contains(k) {
            lemma_fields_lookup(fields, base, keys, keys.len(), policy, k);
            lemma_ranks();
        } else if k == "paths"@ {
            let items = fields[i].1->List_0;
            lemma_paths_again(items, items.len(), policy);
            assert forall|j: int| 0 <= j < items.len() implies readable(#[trigger] items[j], 0) by {
                assert(path_of(items[j], policy) is Ok) by {
                    let list = paths_of(items, items.len(), policy)->Ok_0;
                    assert(list[j] == Node::Text(path_of(items[j], policy)->Ok_0));
                }
            }
        }
    }
}

pub proof fn lemma_ordered_distinct(s: Seq<(Seq<char>, Node)>)
    requires
        ordered(s),
    ensures
        distinct_keys(s),
{
    assert forall|i: int, j: int| 0 <= i < j < s.len() implies #[trigger] s[i].0
        != #[trigger] s[j].0 by {
        lemma_lex_irreflexive(s[i].0);
    }
}

/// The id of an event is its `event_id`, and a task status in it is a known one.
pub proof fn lemma_event_parts(n: Node, policy: Seq<Seq<char>>)
    requires
        event_of(n, policy) is Ok,
    ensures
        n.at("event_id"@) == Node::Text(event_of(n, policy)->Ok_0.id),
        n.at("task_status"@) matches Node::Text(s) ==> is_task_status(s),
{
    let fields = n->Record_0;
    let id = event_id_of(lookup(fields, "event_id"@)->0)->Ok_0;
    let kind = type_of(fields)->Ok_0;
    let base = event_base(id, kind);
    let keys = scalar_keys();
    lemma_event_keys();
    lemma_ranks();
    assert(keys.take(keys.len() as int) =~= keys);
    assert(keys[14] == "task_status"@);
    assert(keys.contains("task_status"@));
    lemma_fields_lookup(fields, base, keys, keys.len(), policy, "task_status"@);
}

} // verus!
