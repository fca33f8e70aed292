//! Reading back the records that were printed.
use vstd::prelude::*;
use vstd::string::*;
use crate::codec::{
    arranged, arranged_fields, arranged_items, distinct_keys, lemma_tidy_arranged, readable, tidy,
};
use crate::decode::{
    archive_keys, archive_of, archives_of, identity_keys, identity_of, index_keys, index_of,
    shaped, slot, slot_events, summaries_of, summary_keys, summary_of, task_keys, task_of,
    texts_of,
};
use crate::json::{Node};
use crate::normal_form::{lemma_ordered_distinct};
use crate::records::{
    ArchiveView, IdentityView, IndexView, SummaryView, TaskView, archive_node, archive_nodes,
    identity_node, index_node, summary_node, summary_nodes, task_node, text_map,
};
use crate::table::{
    lemma_lookup_hit, lemma_lookup_miss, lemma_lookup_position, lemma_put_keys, lemma_put_lookup,
    lookup, ordered,
};
use crate::text::{lex_less};

verus! {

/// A number that tells the member names of the records apart.
spec fn sign(s: Seq<char>) -> int {
    s.len() * 0x110000 + s[0] as int
}

proof fn lemma_signs()
    ensures
        sign("canonical_root"@) == 14 * 0x110000 + 99,
        sign("device"@) == 6 * 0x110000 + 100,
        sign("inode"@) == 5 * 0x110000 + 105,
        sign("root_fingerprint"@) == 16 * 0x110000 + 114,
        sign("task_id"@) == 7 * 0x110000 + 116,
        sign("title"@) == 5 * 0x110000 + 116,
        sign("status"@) == 6 * 0x110000 + 115,
        sign("revision"@) == 8 * 0x110000 + 114,
        sign("updated_at"@) == 10 * 0x110000 + 117,
        sign("event_count"@) == 11 * 0x110000 + 101,
        sign("unknown_count"@) == 13 * 0x110000 + 117,
        sign("file"@) == 4 * 0x110000 + 102,
        sign("sha256"@) == 6 * 0x110000 + 115,
        sign("bytes"@) == 5 * 0x110000 + 98,
        sign("format"@) == 6 * 0x110000 + 102,
        sign("version"@) == 7 * 0x110000 + 118,
        sign("managed_by"@) == 10 * 0x110000 + 109,
        sign("enabled"@) == 7 * 0x110000 + 101,
        sign("project_identity"@) == 16 * 0x110000 + 112,
        sign("tasks"@) == 5 * 0x110000 + 116,
        sign("retired_tasks"@) == 13 * 0x110000 + 114,
        sign("bindings"@) == 8 * 0x110000 + 98,
        sign("created_at"@) == 10 * 0x110000 + 99,
        sign("events"@) == 6 * 0x110000 + 101,
        sign("archives"@) == 8 * 0x110000 + 97,
        sign("event_aliases"@) == 13 * 0x110000 + 101,
{
    reveal_strlit("canonical_root");
    reveal_strlit("device");
    reveal_strlit("inode");
    reveal_strlit("root_fingerprint");
    reveal_strlit("task_id");
    reveal_strlit("title");
    reveal_strlit("status");
    reveal_strlit("revision");
    reveal_strlit("updated_at");
    reveal_strlit("event_count");
    reveal_strlit("unknown_count");
    reveal_strlit("file");
    reveal_strlit("sha256");
    reveal_strlit("bytes");
    reveal_strlit("format");
    reveal_strlit("version");
    reveal_strlit("managed_by");
    reveal_strlit("enabled");
    reveal_strlit("project_identity");
    reveal_strlit("tasks");
    reveal_strlit("retired_tasks");
    reveal_strlit("bindings");
    reveal_strlit("created_at");
    reveal_strlit("events");
    reveal_strlit("archives");
    reveal_strlit("event_aliases");
}

/// The members of an arranged object.
pub proof fn lemma_arranged_lookup(f: Seq<(Seq<char>, Node)>, m: nat, k: Seq<char>)
    requires
        m <= f.len(),
        distinct_keys(f),
    ensures
        lookup(arranged_fields(f, m), k) == match lookup(f.take(m as int), k) {
            Some(v) => Some(arranged(v)),
            None => None,
        },
    decreases m,
{
    if m > 0 {
        lemma_arranged_lookup(f, (m - 1) as nat, k);
        let prior = f.take(m - 1);
        let now = f.take(m as int);
        lemma_put_lookup(arranged_fields(f, (m - 1) as nat), f[m - 1].0, arranged(f[m - 1].1), k);
        if f[m - 1].0 == k {
            assert forall|j: int| 0 <= j < m - 1 implies #[trigger] now[j].0 != k by {
                assert(f[j].0 != f[m - 1].0);
            }
            lemma_lookup_hit(now, k, m - 1);
        } else if lookup(prior, k) is Some {
            let i = lemma_lookup_position(prior, k);
            assert forall|j: int| 0 <= j < i implies #[trigger] now[j].0 != k by {
                assert(prior[j].0 != k);
            }
            lemma_lookup_hit(now, k, i);
        } else {
            assert forall|j: int| 0 <= j < now.len() implies #[trigger] now[j].0 != k by {
                if j < m - 1 {
                    assert(prior[j].0 == now[j].0);
                    if prior[j].0 == k {
                        lemma_lookup_some(prior, k, j);
                    }
                }
            }
            lemma_lookup_miss(now, k);
        }
    } else {
        assert(f.take(0) =~= Seq::<(Seq<char>, Node)>::empty());
        assert(arranged_fields(f, 0) =~= Seq::<(Seq<char>, Node)>::empty());
        assert(lookup(Seq::<(Seq<char>, Node)>::empty(), k) is None);
    }
}

/// A key that stands somewhere is found.
pub proof fn lemma_lookup_some<V>(s: Seq<(Seq<char>, V)>, k: Seq<char>, i: int)
    requires
        0 <= i < s.len(),
        s[i].0 == k,
    ensures
        lookup(s, k) is Some,
    decreases s.len(),
{
    if s[0].0 != k {
        lemma_lookup_some(s.drop_first(), k, i - 1);
    }
}

/// The keys of an arranged object are those of the object.
proof fn lemma_arranged_keys(f: Seq<(Seq<char>, Node)>, m: nat, i: int)
    requires
        m <= f.len(),
        0 <= i < arranged_fields(f, m).len(),
    ensures
        exists|j: int| 0 <= j < m && #[trigger] f[j].0 == arranged_fields(f, m)[i].0,
    decreases m,
{
    if m > 0 {
        let prior = arranged_fields(f, (m - 1) as nat);
        lemma_put_keys(prior, f[m - 1].0, arranged(f[m - 1].1), i);
        let now = arranged_fields(f, m);
        if now[i] == (f[m - 1].0, arranged(f[m - 1].1)) {
            assert(f[m - 1].0 == now[i].0);
        } else {
            let j = choose|j: int| 0 <= j < prior.len() && #[trigger] prior[j] == now[i];
            lemma_arranged_keys(f, (m - 1) as nat, j);
        }
    }
}

/// What an object answers after it was arranged.
pub proof fn lemma_record(f: Seq<(Seq<char>, Node)>, keys: Seq<Seq<char>>)
    requires
        distinct_keys(f),
        forall|i: int| 0 <= i < f.len() ==> keys.contains(#[trigger] f[i].0),
    ensures
        arranged(Node::Record(f)) is Record,
        shaped(arranged(Node::Record(f)), keys),
        forall|i: int|
            0 <= i < f.len() ==> lookup(
                arranged(Node::Record(f))->Record_0,
                (#[trigger] f[i]).0,
            ) == Some(arranged(f[i].1)),
        forall|k: Seq<char>|
            lookup(f, k) is None ==> #[trigger] lookup(arranged(Node::Record(f))->Record_0, k)
                is None,
{
    let g = arranged_fields(f, f.len());
    assert(f.take(f.len() as int) =~= f);
    assert forall|i: int| 0 <= i < g.len() implies keys.contains(#[trigger] g[i].0) by {
        lemma_arranged_keys(f, f.len(), i);
        let j = choose|j: int| 0 <= j < f.len() && #[trigger] f[j].0 == g[i].0;
        assert(keys.contains(f[j].0));
    }
    assert forall|i: int| 0 <= i < f.len() implies lookup(g, (#[trigger] f[i]).0) == Some(
        arranged(f[i].1),
    ) by {
        assert forall|j: int| 0 <= j < i implies #[trigger] f[j].0 != f[i].0 by {}
        lemma_lookup_hit(f, f[i].0, i);
        lemma_arranged_lookup(f, f.len(), f[i].0);
    }
    assert forall|k: Seq<char>| lookup(f, k) is None implies #[trigger] lookup(g, k) is None by {
        lemma_arranged_lookup(f, f.len(), k);
    }
}

spec fn identity_rank(s: int) -> int {
    if s == 14 * 0x110000 + 99 {
        0
    } else if s == 6 * 0x110000 + 100 {
        1
    } else if s == 5 * 0x110000 + 105 {
        2
    } else {
        3
    }
}

pub proof fn lemma_identity_round(v: IdentityView)
    ensures
        identity_of(arranged(identity_node(v))) == Some(v),
        readable(identity_node(v), 1),
{
    let f = identity_node(v)->Record_0;
    let keys = identity_keys();
    lemma_signs();
    assert forall|i: int| 0 <= i < f.len() implies identity_rank(sign(#[trigger] f[i].0)) == i
        && keys.contains(f[i].0) by {
        assert(f[i].0 == keys[i]);
    }
    assert forall|i: int, j: int| 0 <= i < j < f.len() implies #[trigger] f[i].0
        != #[trigger] f[j].0 by {
        assert(identity_rank(sign(f[i].0)) == i && identity_rank(sign(f[j].0)) == j);
    }
    lemma_record(f, keys);
    assert(f[0].0 == keys[0] && f[1].0 == keys[1] && f[2].0 == keys[2] && f[3].0 == keys[3]);
    assert forall|i: int| 0 <= i < f.len() implies readable((#[trigger] f[i]).1, 0) by {}
}

spec fn summary_rank(s: int) -> int {
    if s == 7 * 0x110000 + 116 {
        0
    } else if s == 5 * 0x110000 + 116 {
        1
    } else if s == 6 * 0x110000 + 115 {
        2
    } else if s == 8 * 0x110000 + 114 {
        3
    } else if s == 10 * 0x110000 + 117 {
        4
    } else if s == 11 * 0x110000 + 101 {
        5
    } else {
        6
    }
}

proof fn lemma_summary_round(v: SummaryView)
    ensures
        summary_of(arranged(summary_node(v))) == Some(v),
        readable(summary_node(v), 1),
{
    let f = summary_node(v)->Record_0;
    let keys = summary_keys();
    lemma_signs();
    assert forall|i: int| 0 <= i < f.len() implies summary_rank(sign(#[trigger] f[i].0)) == i
        && keys.contains(f[i].0) by {
        assert(f[i].0 == keys[i]);
    }
    assert forall|i: int, j: int| 0 <= i < j < f.len() implies #[trigger] f[i].0
        != #[trigger] f[j].0 by {
        assert(summary_rank(sign(f[i].0)) == i && summary_rank(sign(f[j].0)) == j);
    }
    lemma_record(f, keys);
    assert(f[0].0 == keys[0] && f[1].0 == keys[1] && f[2].0 == keys[2] && f[3].0 == keys[3]
        && f[4].0 == keys[4] && f[5].0 == keys[5] && f[6].0 == keys[6]);
    assert forall|i: int| 0 <= i < f.len() implies readable((#[trigger] f[i]).1, 0) by {}
}

spec fn archive_rank(s: int) -> int {
    if s == 4 * 0x110000 + 102 {
        0
    } else if s == 6 * 0x110000 + 115 {
        1
    } else if s == 11 * 0x110000 + 101 {
        2
    } else {
        3
    }
}

proof fn lemma_archive_round(v: ArchiveView)
    ensures
        archive_of(arranged(archive_node(v))) == Some(v),
        readable(archive_node(v), 1),
{
    let f = archive_node(v)->Record_0;
    let keys = archive_keys();
    lemma_signs();
    assert forall|i: int| 0 <= i < f.len() implies archive_rank(sign(#[trigger] f[i].0)) == i
        && keys.contains(f[i].0) by {
        assert(f[i].0 == keys[i]);
    }
    assert forall|i: int, j: int| 0 <= i < j < f.len() implies #[trigger] f[i].0
        != #[trigger] f[j].0 by {
        assert(archive_rank(sign(f[i].0)) == i && archive_rank(sign(f[j].0)) == j);
    }
    lemma_record(f, keys);
    assert(f[0].0 == keys[0] && f[1].0 == keys[1] && f[2].0 == keys[2] && f[3].0 == keys[3]);
    assert forall|i: int| 0 <= i < f.len() implies readable((#[trigger] f[i]).1, 0) by {}
}

proof fn lemma_arranged_item(items: Seq<Node>, m: nat)
    requires
        m <= items.len(),
    ensures
        arranged_items(items, m).len() == m,
        forall|i: int| 0 <= i < m ==> #[trigger] arranged_items(items, m)[i] == arranged(items[i]),
    decreases m,
{
    if m > 0 {
        lemma_arranged_item(items, (m - 1) as nat);
    }
}

proof fn lemma_summaries_round(s: Seq<SummaryView>, k: nat)
    requires
        k <= s.len(),
    ensures
        arranged(summary_nodes(s)) is List,
        arranged(summary_nodes(s))->List_0.len() == s.len(),
        summaries_of(arranged(summary_nodes(s))->List_0, k) == Some(s.take(k as int)),
        readable(summary_nodes(s), 2),
    decreases k,
{
    let items = summary_nodes(s)->List_0;
    lemma_arranged_item(items, items.len());
    assert forall|i: int| 0 <= i < items.len() implies readable(#[trigger] items[i], 1) by {
        lemma_summary_round(s[i]);
    }
    if k > 0 {
        lemma_summaries_round(s, (k - 1) as nat);
        lemma_summary_round(s[k - 1]);
        assert(arranged_items(items, items.len())[k - 1] == arranged(items[k - 1]));
        assert(s.take(k - 1).push(s[k - 1]) =~= s.take(k as int));
    } else {
        assert(s.take(0) =~= Seq::<SummaryView>::empty());
    }
}

proof fn lemma_archives_round(s: Seq<ArchiveView>, k: nat)
    requires
        k <= s.len(),
    ensures
        arranged(archive_nodes(s)) is List,
        arranged(archive_nodes(s))->List_0.len() == s.len(),
        archives_of(arranged(archive_nodes(s))->List_0, k) == Some(s.take(k as int)),
        readable(archive_nodes(s), 2),
    decreases k,
{
    let items = archive_nodes(s)->List_0;
    lemma_arranged_item(items, items.len());
    assert forall|i: int| 0 <= i < items.len() implies readable(#[trigger] items[i], 1) by {
        lemma_archive_round(s[i]);
    }
    if k > 0 {
        lemma_archives_round(s, (k - 1) as nat);
        lemma_archive_round(s[k - 1]);
        assert(arranged_items(items, items.len())[k - 1] == arranged(items[k - 1]));
        assert(s.take(k - 1).push(s[k - 1]) =~= s.take(k as int));
    } else {
        assert(s.take(0) =~= Seq::<ArchiveView>::empty());
    }
}

proof fn lemma_map_round(s: Seq<(Seq<char>, Seq<char>)>, k: nat)
    requires
        k <= s.len(),
        ordered(s),
    ensures
        arranged(text_map(s)) == text_map(s),
        texts_of(text_map(s)->Record_0, k) == Some(s.take(k as int)),
        readable(text_map(s), 1),
    decreases k,
{
    let f = text_map(s)->Record_0;
    assert forall|i: int, j: int| 0 <= i < j < f.len() implies lex_less(
        #[trigger] f[i].0,
        #[trigger] f[j].0,
    ) by {
        assert(lex_less(s[i].0, s[j].0));
    }
    assert forall|i: int| 0 <= i < f.len() implies tidy((#[trigger] f[i]).1) && readable(
        f[i].1,
        0,
    ) by {
        assert(f[i].1 == Node::Text(s[i].1));
    }
    assert(tidy(text_map(s)));
    lemma_tidy_arranged(text_map(s));
    lemma_ordered_distinct(f);
    if k > 0 {
        lemma_map_round(s, (k - 1) as nat);
        assert(s.take(k - 1).push(s[k - 1]) =~= s.take(k as int));
    } else {
        assert(s.take(0) =~= Seq::<(Seq<char>, Seq<char>)>::empty());
    }
}

spec fn index_rank(s: int) -> int {
    if s == 6 * 0x110000 + 102 {
        0
    } else if s == 7 * 0x110000 + 118 {
        1
    } else if s == 10 * 0x110000 + 109 {
        2
    } else if s == 7 * 0x110000 + 101 {
        3
    } else if s == 16 * 0x110000 + 112 {
        4
    } else if s == 8 * 0x110000 + 114 {
        5
    } else if s == 10 * 0x110000 + 117 {
        6
    } else if s == 5 * 0x110000 + 116 {
        7
    } else if s == 13 * 0x110000 + 114 {
        8
    } else {
        9
    }
}

/// Reading an index that was printed gives it back.
pub proof fn lemma_index_round(v: IndexView)
    requires
        ordered(v.bindings),
    ensures
        index_of(arranged(index_node(v))) == Some(v),
        readable(index_node(v), 4),
{
    let f = index_node(v)->Record_0;
    let keys = index_keys();
    lemma_signs();
    assert forall|i: int| 0 <= i < 8 implies index_rank(sign(#[trigger] f[i].0)) == i
        && keys.contains(f[i].0) by {
        assert(f[i].0 == keys[i]);
        if i == 0 {
        } else if i == 1 {
        } else if i == 2 {
        } else if i == 3 {
        } else if i == 4 {
        } else if i == 5 {
        } else if i == 6 {
        } else {
            assert(i == 7);
        }
    }
    assert(keys[8] == "retired_tasks"@ && keys[9] == "bindings"@);
    assert(keys.contains(keys[8]) && keys.contains(keys[9]));
    let last = f.len() - 1;
    assert(f[last].0 == "bindings"@);
    assert(v.retired_tasks.len() > 0 ==> f[8].0 == "retired_tasks"@);
    assert forall|i: int| 0 <= i < f.len() implies keys.contains(#[trigger] f[i].0) by {
        if i >= 8 {
            assert(i == last || f[i].0 == "retired_tasks"@);
        }
    }
    assert forall|i: int, j: int| 0 <= i < j < f.len() implies #[trigger] f[i].0
        != #[trigger] f[j].0 by {
        assert(i < 8 ==> index_rank(sign(f[i].0)) == i);
        assert(j < 8 ==> index_rank(sign(f[j].0)) == j);
        assert(index_rank(sign("bindings"@)) == 9);
        assert(index_rank(sign("retired_tasks"@)) == 8);
    }
    lemma_identity_round(v.project_identity);
    lemma_summaries_round(v.tasks, v.tasks.len());
    lemma_summaries_round(v.retired_tasks, v.retired_tasks.len());
    lemma_map_round(v.bindings, v.bindings.len());
    assert(v.tasks.take(v.tasks.len() as int) =~= v.tasks);
    assert(v.retired_tasks.take(v.retired_tasks.len() as int) =~= v.retired_tasks);
    assert(v.bindings.take(v.bindings.len() as int) =~= v.bindings);
    lemma_record(f, keys);
    let n = arranged(index_node(v));
    assert(f[0].0 == keys[0] && f[1].0 == keys[1] && f[2].0 == keys[2] && f[3].0 == keys[3]
        && f[4].0 == keys[4] && f[5].0 == keys[5] && f[6].0 == keys[6] && f[7].0 == keys[7]);
    assert(slot(n, keys, 9) == Some(text_map(v.bindings)));
    if v.retired_tasks.len() == 0 {
        assert forall|j: int| 0 <= j < f.len() implies #[trigger] f[j].0 != keys[8] by {
            assert(j < 8 ==> index_rank(sign(f[j].0)) == j);
            assert(index_rank(sign("bindings"@)) == 9);
            assert(index_rank(sign("retired_tasks"@)) == 8);
        }
        lemma_lookup_miss(f, keys[8]);
        assert(slot(n, keys, 8) is None);
        assert(v.retired_tasks =~= Seq::<SummaryView>::empty());
    } else {
        assert(f[8].0 == keys[8]);
    }
    assert forall|i: int| 0 <= i < f.len() implies readable((#[trigger] f[i]).1, 3) by {
        lemma_readable_more(f[4].1, 1, 3);
        lemma_readable_more(f[7].1, 2, 3);
        lemma_readable_more(text_map(v.bindings), 1, 3);
        lemma_readable_more(summary_nodes(v.retired_tasks), 2, 3);
        if i < 8 {
            if i == 4 || i == 7 {
            } else {
                assert(readable(f[i].1, 3));
            }
        }
    }
}

/// What is readable at some depth is readable at any greater one.
pub proof fn lemma_readable_more(n: Node, d: nat, e: nat)
    requires
        readable(n, d),
        d <= e,
    ensures
        readable(n, e),
    decreases d,
{
    match n {
        Node::List(items) => {
            assert forall|i: int| 0 <= i < items.len() implies readable(
                #[trigger] items[i],
                (e - 1) as nat,
            ) by {
                lemma_readable_more(items[i], (d - 1) as nat, (e - 1) as nat);
            }
        },
        Node::Record(fields) => {
            assert forall|i: int| 0 <= i < fields.len() implies readable(
                (#[trigger] fields[i]).1,
                (e - 1) as nat,
            ) by {
                lemma_readable_more(fields[i].1, (d - 1) as nat, (e - 1) as nat);
            }
        },
        _ => {},
    }
}

spec fn task_rank(s: int) -> int {
    if s == 6 * 0x110000 + 102 {
        0
    } else if s == 7 * 0x110000 + 118 {
        1
    } else if s == 10 * 0x110000 + 109 {
        2
    } else if s == 16 * 0x110000 + 112 {
        3
    } else if s == 7 * 0x110000 + 116 {
        4
    } else if s == 5 * 0x110000 + 116 {
        5
    } else if s == 6 * 0x110000 + 115 {
        6
    } else if s == 8 * 0x110000 + 114 {
        7
    } else if s == 10 * 0x110000 + 99 {
        8
    } else if s == 10 * 0x110000 + 117 {
        9
    } else if s == 13 * 0x110000 + 117 {
        10
    } else if s == 6 * 0x110000 + 101 {
        11
    } else if s == 8 * 0x110000 + 97 {
        12
    } else {
        13
    }
}

/// The keys of a printed task.
proof fn lemma_task_keys(v: TaskView)
    ensures
        distinct_keys(task_node(v)->Record_0),
        forall|i: int|
            0 <= i < task_node(v)->Record_0.len() ==> task_keys().contains(
                #[trigger] task_node(v)->Record_0[i].0,
            ),
        v.archives.len() == 0 ==> lookup(task_node(v)->Record_0, "archives"@) is None,
        v.event_aliases.len() == 0 ==> lookup(task_node(v)->Record_0, "event_aliases"@) is None,
{
    let f = task_node(v)->Record_0;
    let keys = task_keys();
    lemma_signs();
    assert forall|i: int| 0 <= i < 12 implies task_rank(sign(#[trigger] f[i].0)) == i
        && keys.contains(f[i].0) by {
        assert(f[i].0 == keys[i]);
        if i < 6 {
            if i == 0 {
            } else if i == 1 {
            } else if i == 2 {
            } else if i == 3 {
            } else if i == 4 {
            } else {
                assert(i == 5);
            }
        } else {
            if i == 6 {
            } else if i == 7 {
            } else if i == 8 {
            } else if i == 9 {
            } else if i == 10 {
            } else {
                assert(i == 11);
            }
        }
    }
    assert(keys[12] == "archives"@ && keys[13] == "event_aliases"@);
    assert(keys.contains(keys[12]) && keys.contains(keys[13]));
    assert(task_rank(sign("archives"@)) == 12);
    assert(task_rank(sign("event_aliases"@)) == 13);
    assert(v.archives.len() > 0 ==> f[12].0 == "archives"@);
    assert(v.event_aliases.len() > 0 ==> f[f.len() - 1].0 == "event_aliases"@);
    assert forall|i: int| 12 <= i < f.len() implies (#[trigger] f[i].0 == "archives"@ || f[i].0
        == "event_aliases"@) by {
        if v.archives.len() > 0 && i == 12 {
        } else {
            assert(i == f.len() - 1);
        }
    }
    assert forall|i: int, j: int| 0 <= i < j < f.len() implies #[trigger] f[i].0
        != #[trigger] f[j].0 by {
        assert(i < 12 ==> task_rank(sign(f[i].0)) == i);
        assert(j < 12 ==> task_rank(sign(f[j].0)) == j);
        if i >= 12 {
            assert(i == 12 && j == 13);
        }
    }
    if v.archives.len() == 0 {
        assert forall|j: int| 0 <= j < f.len() implies #[trigger] f[j].0 != "archives"@ by {
            assert(j < 12 ==> task_rank(sign(f[j].0)) == j);
        }
        lemma_lookup_miss(f, "archives"@);
    }
    if v.event_aliases.len() == 0 {
        assert forall|j: int| 0 <= j < f.len() implies #[trigger] f[j].0 != "event_aliases"@ by {
            assert(j < 12 ==> task_rank(sign(f[j].0)) == j);
        }
        lemma_lookup_miss(f, "event_aliases"@);
    }
}

/// Reading a task file that was printed gives it back.
pub proof fn lemma_task_round(v: TaskView)
    requires
        ordered(v.event_aliases),
        forall|i: int| 0 <= i < v.events.len() ==> tidy(#[trigger] v.events[i]),
    ensures
        task_of(arranged(task_node(v))) == Some(v),
{
    let f = task_node(v)->Record_0;
    let keys = task_keys();
    lemma_task_keys(v);
    lemma_record(f, keys);
    let n = arranged(task_node(v));
    lemma_identity_round(v.project_identity);
    lemma_archives_round(v.archives, v.archives.len());
    lemma_map_round(v.event_aliases, v.event_aliases.len());
    assert(v.archives.take(v.archives.len() as int) =~= v.archives);
    assert(v.event_aliases.take(v.event_aliases.len() as int) =~= v.event_aliases);
    lemma_arranged_item(v.events, v.events.len());
    assert(arranged_items(v.events, v.events.len()) =~= v.events) by {
        assert forall|i: int| 0 <= i < v.events.len() implies arranged(#[trigger] v.events[i])
            == v.events[i] by {
            lemma_tidy_arranged(v.events[i]);
        }
    }
    assert(f[0].0 == keys[0] && f[1].0 == keys[1] && f[2].0 == keys[2] && f[3].0 == keys[3]
        && f[4].0 == keys[4] && f[5].0 == keys[5] && f[6].0 == keys[6] && f[7].0 == keys[7]
        && f[8].0 == keys[8] && f[9].0 == keys[9] && f[10].0 == keys[10] && f[11].0 == keys[11]);
    if v.archives.len() > 0 {
        assert(f[12].0 == keys[12]);
    } else {
        assert(slot(n, keys, 12) is None);
        assert(v.archives =~= Seq::<ArchiveView>::empty());
    }
    if v.event_aliases.len() > 0 {
        assert(f[f.len() - 1].0 == keys[13]);
    } else {
        assert(slot(n, keys, 13) is None);
        assert(v.event_aliases =~= Seq::<(Seq<char>, Seq<char>)>::empty());
    }
    assert(slot_events(n, keys, 11) == Some(v.events));
}

/// A task whose events can be read back can be read back as a whole.
pub proof fn lemma_task_readable(v: TaskView)
    requires
        ordered(v.event_aliases),
        forall|i: int| 0 <= i < v.events.len() ==> readable(#[trigger] v.events[i], 2),
    ensures
        readable(task_node(v), 4),
{
    let f = task_node(v)->Record_0;
    lemma_task_keys(v);
    lemma_identity_round(v.project_identity);
    lemma_archives_round(v.archives, v.archives.len());
    lemma_map_round(v.event_aliases, v.event_aliases.len());
    lemma_readable_more(identity_node(v.project_identity), 1, 3);
    lemma_readable_more(archive_nodes(v.archives), 2, 3);
    lemma_readable_more(text_map(v.event_aliases), 1, 3);
    assert(readable(Node::List(v.events), 3));
    assert forall|i: int| 0 <= i < f.len() implies readable((#[trigger] f[i]).1, 3) by {
        if i < 12 {
            if i == 3 || i == 11 {
            } else {
                assert(readable(f[i].1, 3));
            }
        } else if v.archives.len() > 0 && i == 12 {
        } else {
            assert(i == f.len() - 1);
        }
    }
}

} // verus!
