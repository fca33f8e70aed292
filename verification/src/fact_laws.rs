//! What of an event that is given is kept in its normal form.
use vstd::prelude::*;
use crate::event::{
    MAX_PATHS_PER_EVENT, event_base, event_id_of, event_of, field_of, fields_of, is_event_key,
    paths_of, scalar_keys, type_of,
};
use crate::json::{Node};
use crate::normal_form::{
    lemma_base, lemma_event_keys, lemma_fields_lookup, lemma_paths_again, lemma_ranks,
};
use crate::path::{path_of};
use crate::table::{lemma_lookup_miss, lemma_put_lookup, lookup};
use crate::text::{is_white_space, trim, trim_end, trim_start};

verus! {

/// What the normal form answers for a key.
pub proof fn lemma_normal_member(n: Node, policy: Seq<Seq<char>>, k: Seq<char>)
    requires
        event_of(n, policy) is Ok,
    ensures
        n is Record,
        k == "event_id"@ || k == "type"@ ==> event_of(n, policy)->Ok_0.value.member(k) == n.member(
            k,
        ),
        k == "event_id"@ ==> n.member(k) == Some(Node::Text(event_of(n, policy)->Ok_0.id)),
        scalar_keys().contains(k) ==> match n.member(k) {
            Some(v) => field_of(k, v, policy) is Ok && event_of(n, policy)->Ok_0.value.member(k)
                == Some(field_of(k, v, policy)->Ok_0),
            None => event_of(n, policy)->Ok_0.value.member(k) is None,
        },
        k == "paths"@ ==> match n.member(k) {
            Some(v) => {
                &&& v is List
                &&& v->List_0.len() <= MAX_PATHS_PER_EVENT
                &&& paths_of(v->List_0, v->List_0.len(), policy) is Ok
                &&& event_of(n, policy)->Ok_0.value.member(k) == Some(
                    Node::List(paths_of(v->List_0, v->List_0.len(), policy)->Ok_0),
                )
            },
            None => event_of(n, policy)->Ok_0.value.member(k) is None,
        },
        !is_event_key(k) ==> event_of(n, policy)->Ok_0.value.member(k) is None && n.member(k)
            is None,
{
    let fields = n->Record_0;
    let id = event_id_of(lookup(fields, "event_id"@)->0)->Ok_0;
    let kind = type_of(fields)->Ok_0;
    let base = event_base(id, kind);
    let keys = scalar_keys();
    let acc = fields_of(fields, base, keys, keys.len(), policy)->Ok_0;
    lemma_event_keys();
    lemma_base(id, kind);
    assert(keys.take(keys.len() as int) =~= keys);
    lemma_fields_lookup(fields, base, keys, keys.len(), policy, k);
    if lookup(fields, "paths"@) is Some {
        let items = lookup(fields, "paths"@)->0->List_0;
        lemma_put_lookup(acc, "paths"@, Node::List(paths_of(items, items.len(), policy)->Ok_0), k);
    }
    if !is_event_key(k) {
        assert forall|j: int| 0 <= j < fields.len() implies #[trigger] fields[j].0 != k by {
            assert(is_event_key(fields[j].0));
        }
        lemma_lookup_miss(fields, k);
    }
}

/// An accepted event keeps the facts that were given: what is neither the
/// summary nor a path is in the normal form as it was given, and what was not
/// given is not there. A number that is not negative has one form.
pub proof fn law_facts_are_kept(n: Node, policy: Seq<Seq<char>>, k: Seq<char>)
    requires
        event_of(n, policy) is Ok,
        k != "summary"@,
        k != "path"@,
        k != "paths"@,
        !(n.at(k) matches Node::Negative(i) && i >= 0),
    ensures
        event_of(n, policy)->Ok_0.value.member(k) == n.member(k),
        event_of(n, policy)->Ok_0.value.at(k) == n.at(k),
{
    lemma_normal_member(n, policy, k);
    lemma_ranks();
}

/// The number of a field is kept, in whatever form it was given.
pub proof fn law_numbers_are_kept(n: Node, policy: Seq<Seq<char>>, k: Seq<char>)
    requires
        event_of(n, policy) is Ok,
    ensures
        event_of(n, policy)->Ok_0.value.at(k).signed() == n.at(k).signed(),
{
    lemma_normal_member(n, policy, k);
    lemma_ranks();
}

/// Whether a status or an outcome says that what happened is not known.
pub open spec fn means_unknown(n: Node) -> bool {
    n == Node::Text("unknown"@) || n == Node::Text("outcome_unknown"@) || n == Node::Text("lost"@)
        || n == Node::Text("delivery_unknown"@)
}

/// An event reports an unknown outcome exactly where it was given as unknown,
/// or with a status or an outcome that says so.
pub proof fn law_unknown_outcomes(n: Node, policy: Seq<Seq<char>>)
    requires
        event_of(n, policy) is Ok,
    ensures
        event_of(n, policy)->Ok_0.unknown <==> (n.at("unknown"@) == Node::Bool(true) || means_unknown(
            n.at("status"@),
        ) || means_unknown(n.at("outcome"@))),
{
    lemma_normal_member(n, policy, "unknown"@);
    lemma_normal_member(n, policy, "status"@);
    lemma_normal_member(n, policy, "outcome"@);
    lemma_ranks();
    let keys = scalar_keys();
    assert(keys[12] == "unknown"@);
    assert(keys[6] == "status"@);
    assert(keys[7] == "outcome"@);
    assert(keys.contains("unknown"@) && keys.contains("status"@) && keys.contains("outcome"@));
}

/// The summary is kept without the white space around it.
pub proof fn law_summary_is_kept(n: Node, policy: Seq<Seq<char>>, s: Seq<char>)
    requires
        event_of(n, policy) is Ok,
        n.member("summary"@) == Some(Node::Text(s)),
    ensures
        exists|i: int, j: int|
            #![trigger s.subrange(i, j)]
            0 <= i < j <= s.len() && event_of(n, policy)->Ok_0.value.member("summary"@) == Some(
                Node::Text(s.subrange(i, j)),
            ) && j - i <= 4096 && !is_white_space(s[i]) && !is_white_space(s[j - 1]) && (forall|
                m: int,
            |
                0 <= m < i || j <= m < s.len() ==> is_white_space(#[trigger] s[m])),
{
    lemma_normal_member(n, policy, "summary"@);
    lemma_ranks();
    let keys = scalar_keys();
    assert(keys[8] == "summary"@);
    assert(keys.contains("summary"@));
    let (i, j) = lemma_trim_range(s);
    assert(s.subrange(i, j) == trim(s));
}

proof fn lemma_start_range(s: Seq<char>) -> (i: int)
    ensures
        0 <= i <= s.len(),
        trim_start(s) == s.subrange(i, s.len() as int),
        i < s.len() ==> !is_white_space(s[i]),
        forall|m: int| 0 <= m < i ==> is_white_space(#[trigger] s[m]),
    decreases s.len(),
{
    if s.len() > 0 && is_white_space(s[0]) {
        let i = lemma_start_range(s.drop_first());
        assert(s.drop_first().subrange(i, s.len() - 1) =~= s.subrange(i + 1, s.len() as int));
        assert forall|m: int| 0 <= m < i + 1 implies is_white_space(#[trigger] s[m]) by {
            if m > 0 {
                assert(s.drop_first()[m - 1] == s[m]);
            }
        }
        i + 1
    } else {
        assert(s.subrange(0, s.len() as int) =~= s);
        0
    }
}

proof fn lemma_end_range(s: Seq<char>) -> (j: int)
    ensures
        0 <= j <= s.len(),
        trim_end(s) == s.subrange(0, j),
        j > 0 ==> !is_white_space(s[j - 1]),
        forall|m: int| j <= m < s.len() ==> is_white_space(#[trigger] s[m]),
    decreases s.len(),
{
    if s.len() > 0 && is_white_space(s.last()) {
        let j = lemma_end_range(s.drop_last());
        assert(s.drop_last().subrange(0, j) =~= s.subrange(0, j));
        assert forall|m: int| j <= m < s.len() implies is_white_space(#[trigger] s[m]) by {
            if m < s.len() - 1 {
                assert(s.drop_last()[m] == s[m]);
            }
        }
        j
    } else {
        assert(s.subrange(0, s.len() as int) =~= s);
        s.len() as int
    }
}

/// A text without the white space around it is a part of it.
proof fn lemma_trim_range(s: Seq<char>) -> (r: (int, int))
    ensures
        0 <= r.0 <= r.1 <= s.len(),
        trim(s) == s.subrange(r.0, r.1),
        r.0 < r.1 ==> !is_white_space(s[r.0]) && !is_white_space(s[r.1 - 1]),
        forall|m: int| 0 <= m < r.0 || r.1 <= m < s.len() ==> is_white_space(#[trigger] s[m]),
{
    let i = lemma_start_range(s);
    let u = trim_start(s);
    let j = lemma_end_range(u);
    assert(u.subrange(0, j) =~= s.subrange(i, i + j));
    assert forall|m: int| 0 <= m < i || i + j <= m < s.len() implies is_white_space(
        #[trigger] s[m],
    ) by {
        if m >= i + j {
            assert(u[m - i] == s[m]);
        }
    }
    if j > 0 {
        assert(u[0] == s[i]);
        assert(u[j - 1] == s[i + j - 1]);
    }
    (i, i + j)
}

/// The paths are kept in their number and their order, each in its normal form,
/// and the path likewise.
pub proof fn law_paths_are_kept(n: Node, policy: Seq<Seq<char>>)
    requires
        event_of(n, policy) is Ok,
    ensures
        ({
            let value = event_of(n, policy)->Ok_0.value;
            &&& n.member("path"@) is None ==> value.member("path"@) is None
            &&& n.member("path"@) matches Some(p) ==> value.member("path"@) == Some(
                Node::Text(path_of(p, policy)->Ok_0),
            )
            &&& n.member("paths"@) is None ==> value.member("paths"@) is None
            &&& n.member("paths"@) matches Some(p) ==> p is List && p->List_0.len() <= 32 && (
            value.member("paths"@) matches Some(Node::List(kept)) && kept.len() == p->List_0.len()
                && forall|i: int|
                0 <= i < kept.len() ==> #[trigger] kept[i] == Node::Text(
                    path_of(p->List_0[i], policy)->Ok_0,
                ))
        }),
{
    lemma_normal_member(n, policy, "path"@);
    lemma_normal_member(n, policy, "paths"@);
    lemma_ranks();
    let keys = scalar_keys();
    assert(keys[9] == "path"@);
    assert(keys.contains("path"@));
    if n.member("paths"@) is Some {
        let items = n.member("paths"@)->0->List_0;
        lemma_paths_again(items, items.len(), policy);
    }
}

} // verus!
