//! What every change of an index keeps.
use vstd::prelude::*;
use vstd::string::*;
use crate::actions::{by_id, lemma_position, placed, position_of, selection, summarized, summary_in};
use crate::appending::{with_summary};
use crate::checks::{
    INDEX_FORMAT, MANAGED_BY, MAX_RETIRED_TASK_COUNT, MAX_TASK_COUNT, bindings_check, has_task,
    index_bounded, index_check, repeated, summaries_check, summary_check,
};
use crate::event::{MAX_TASK_ID_CHARS, MAX_TITLE_CHARS, actor_of, is_task_status, slug_of, text_of};
use crate::json::{Node};
use crate::lifecycle::{retired_index, without_task};
use crate::mutations::{fresh_index, with_task};
use crate::records::{IdentityView, IndexView, SummaryView, TaskView};
use crate::table::{lemma_put_keys, put};
use crate::text::{lex_less};

verus! {

/// A summary that is valid by itself.
pub open spec fn good_summary(s: SummaryView) -> bool {
    &&& slug_of(Node::Text(s.task_id), MAX_TASK_ID_CHARS as int) is Ok
    &&& text_of(Node::Text(s.title), MAX_TITLE_CHARS as int, false) is Ok
    &&& is_task_status(s.status)
    &&& s.revision != 0
}

pub open spec fn all_good(s: Seq<SummaryView>) -> bool {
    forall|i: int| 0 <= i < s.len() ==> good_summary(#[trigger] s[i])
}

/// No task is listed twice.
pub open spec fn distinct_ids(s: Seq<SummaryView>) -> bool {
    forall|i: int, j: int|
        0 <= i < j < s.len() ==> (#[trigger] s[i]).task_id != (#[trigger] s[j]).task_id
}

/// A binding that is valid by itself.
pub open spec fn good_binding(b: (Seq<char>, Seq<char>)) -> bool {
    actor_of(Node::Text(b.0)) is Ok && slug_of(Node::Text(b.1), MAX_TASK_ID_CHARS as int) is Ok
}

/// What a valid index is: a bounded, managed list of distinct valid tasks, and
/// valid clients each of which selects a listed task.
pub open spec fn sound_index(v: IndexView, identity: IdentityView) -> bool {
    let all = v.tasks + v.retired_tasks;
    &&& v.format == INDEX_FORMAT@
    &&& (v.version == 1 || v.version == 2)
    &&& v.managed_by == MANAGED_BY@
    &&& v.project_identity == identity
    &&& index_bounded(v)
    &&& all_good(all)
    &&& distinct_ids(all)
    &&& forall|i: int|
        0 <= i < v.bindings.len() ==> good_binding(#[trigger] v.bindings[i]) && has_task(
            all,
            v.bindings[i].1,
        )
}

proof fn lemma_summaries_all(all: Seq<SummaryView>, k: nat)
    requires
        k <= all.len(),
    ensures
        summaries_check(all, k) is Ok <==> forall|i: int|
            0 <= i < k ==> #[trigger] summary_check(all, i) is Ok,
    decreases k,
{
    if k > 0 {
        lemma_summaries_all(all, (k - 1) as nat);
        if summaries_check(all, k) is Ok {
            assert forall|i: int| 0 <= i < k implies #[trigger] summary_check(all, i) is Ok by {
                if i < k - 1 {
                }
            }
        } else {
            if forall|i: int| 0 <= i < k ==> #[trigger] summary_check(all, i) is Ok {
                assert(summary_check(all, k - 1) is Ok);
                assert forall|i: int| 0 <= i < k - 1 implies #[trigger] summary_check(all, i) is Ok by {}
            }
        }
    }
}

proof fn lemma_bindings_all(all: Seq<SummaryView>, bindings: Seq<(Seq<char>, Seq<char>)>, k: nat)
    requires
        k <= bindings.len(),
    ensures
        bindings_check(all, bindings, k) is Ok <==> forall|i: int|
            0 <= i < k ==> good_binding(#[trigger] bindings[i]) && has_task(all, bindings[i].1),
    decreases k,
{
    if k > 0 {
        lemma_bindings_all(all, bindings, (k - 1) as nat);
    }
}

proof fn lemma_distinct(all: Seq<SummaryView>)
    ensures
        distinct_ids(all) <==> forall|i: int| 0 <= i < all.len() ==> !#[trigger] repeated(all, i),
{
    if distinct_ids(all) {
        assert forall|i: int| 0 <= i < all.len() implies !#[trigger] repeated(all, i) by {
            if repeated(all, i) {
                let head = all.take(i);
                let j = choose|j: int|
                    0 <= j < head.len() && (#[trigger] head[j]).task_id == all[i].task_id;
                assert(all[j].task_id == all[i].task_id);
            }
        }
    } else {
        let (i, j) = choose|i: int, j: int|
            0 <= i < j < all.len() && (#[trigger] all[i]).task_id == (#[trigger] all[j]).task_id;
        assert(all.take(j)[i].task_id == all[j].task_id);
        assert(repeated(all, j));
    }
}

/// The validation of an index accepts exactly the sound ones.
pub proof fn law_valid_index_is_sound(v: IndexView, identity: IdentityView)
    ensures
        index_check(v, identity) is Ok <==> sound_index(v, identity),
{
    let all = v.tasks + v.retired_tasks;
    lemma_summaries_all(all, all.len());
    lemma_bindings_all(all, v.bindings, v.bindings.len());
    lemma_distinct(all);
    if index_check(v, identity) is Ok {
        assert forall|i: int| 0 <= i < all.len() implies good_summary(#[trigger] all[i]) by {
            assert(summary_check(all, i) is Ok);
        }
        assert forall|i: int| 0 <= i < all.len() implies !#[trigger] repeated(all, i) by {
            assert(summary_check(all, i) is Ok);
        }
    }
    if sound_index(v, identity) {
        assert forall|i: int| 0 <= i < all.len() implies #[trigger] summary_check(all, i) is Ok by {
            assert(good_summary(all[i]));
            assert(!repeated(all, i));
        }
    }
}

/// Where a listed task stands.
pub proof fn lemma_position_valid(tasks: Seq<SummaryView>, id: Seq<char>)
    requires
        has_task(tasks, id),
    ensures
        0 <= position_of(tasks, id) < tasks.len(),
        tasks[position_of(tasks, id)].task_id == id,
        summary_in(tasks, id) == Some(tasks[position_of(tasks, id)]),
    decreases tasks.len(),
{
    if tasks[0].task_id != id {
        let j = choose|j: int| 0 <= j < tasks.len() && (#[trigger] tasks[j]).task_id == id;
        assert(tasks.drop_first()[j - 1].task_id == id);
        lemma_position_valid(tasks.drop_first(), id);
    }
}

/// A task is active or retired, never both.
pub proof fn law_retired_is_not_active(v: IndexView, identity: IdentityView, id: Seq<char>)
    requires
        index_check(v, identity) is Ok,
        has_task(v.tasks, id),
    ensures
        !has_task(v.retired_tasks, id),
{
    law_valid_index_is_sound(v, identity);
    let all = v.tasks + v.retired_tasks;
    let i = choose|i: int| 0 <= i < v.tasks.len() && (#[trigger] v.tasks[i]).task_id == id;
    if has_task(v.retired_tasks, id) {
        let j = choose|j: int|
            0 <= j < v.retired_tasks.len() && (#[trigger] v.retired_tasks[j]).task_id == id;
        assert(all[i].task_id == all[v.tasks.len() + j].task_id);
    }
}

/// The selection that a status reports is never an archived task.
pub proof fn law_selection_is_active(v: IndexView, identity: IdentityView, client: Seq<char>)
    requires
        index_check(v, identity) is Ok,
        selection(v, client) is Some,
    ensures
        has_task(v.tasks, selection(v, client)->0),
        !has_task(v.retired_tasks, selection(v, client)->0),
{
    law_retired_is_not_active(v, identity, selection(v, client)->0);
}

pub proof fn lemma_has_concat(a: Seq<SummaryView>, b: Seq<SummaryView>, id: Seq<char>)
    ensures
        has_task(a + b, id) == (has_task(a, id) || has_task(b, id)),
{
    if has_task(a, id) {
        let i = choose|i: int| 0 <= i < a.len() && (#[trigger] a[i]).task_id == id;
        assert((a + b)[i].task_id == id);
    }
    if has_task(b, id) {
        let i = choose|i: int| 0 <= i < b.len() && (#[trigger] b[i]).task_id == id;
        assert((a + b)[a.len() + i].task_id == id);
    }
    if has_task(a + b, id) {
        let i = choose|i: int| 0 <= i < (a + b).len() && (#[trigger] (a + b)[i]).task_id == id;
        if i < a.len() {
            assert(a[i].task_id == id);
        } else {
            assert(b[i - a.len()].task_id == id);
        }
    }
}

/// Replacing the summary of a task keeps an index sound.
pub proof fn lemma_update_sound(v: IndexView, identity: IdentityView, t: TaskView, now: i64)
    requires
        sound_index(v, identity),
        has_task(v.tasks, t.task_id),
        good_summary(summarized(t)),
        with_summary(v, t, now) is Ok,
    ensures
        sound_index(with_summary(v, t, now)->Ok_0, identity),
        has_task(with_summary(v, t, now)->Ok_0.tasks, t.task_id),
        summary_in(with_summary(v, t, now)->Ok_0.tasks, t.task_id) == Some(summarized(t)),
{
    let w = with_summary(v, t, now)->Ok_0;
    let p = position_of(v.tasks, t.task_id);
    lemma_position_valid(v.tasks, t.task_id);
    let all = v.tasks + v.retired_tasks;
    let new = w.tasks + w.retired_tasks;
    assert(new =~= all.update(p, summarized(t)));
    assert(all[p] == v.tasks[p]);
    assert forall|i: int| 0 <= i < new.len() implies good_summary(#[trigger] new[i]) && new[i].task_id
        == all[i].task_id by {
        if i != p {
            assert(good_summary(all[i]));
        }
    }
    assert forall|i: int, j: int| 0 <= i < j < new.len() implies (#[trigger] new[i]).task_id != (
    #[trigger] new[j]).task_id by {
        assert(all[i].task_id != all[j].task_id);
    }
    assert forall|id: Seq<char>| has_task(all, id) implies #[trigger] has_task(new, id) by {
        let i = choose|i: int| 0 <= i < all.len() && (#[trigger] all[i]).task_id == id;
        assert(new[i].task_id == id);
    }
    assert forall|i: int| 0 <= i < w.bindings.len() implies good_binding(#[trigger] w.bindings[i])
        && has_task(new, w.bindings[i].1) by {
        assert(good_binding(v.bindings[i]) && has_task(all, v.bindings[i].1));
    }
    assert(w.tasks[p].task_id == t.task_id);
    assert forall|j: int| 0 <= j < p implies (#[trigger] w.tasks[j]).task_id != t.task_id by {
        assert(all[j].task_id != all[p].task_id);
        assert(all[j] == v.tasks[j]);
    }
    lemma_position(w.tasks, t.task_id, p);
}

/// Placing a summary is inserting it somewhere.
proof fn lemma_placed_insert(s: Seq<SummaryView>, x: SummaryView) -> (p: int)
    ensures
        0 <= p <= s.len(),
        placed(s, x) == s.insert(p, x),
    decreases s.len(),
{
    if s.len() == 0 {
        assert(placed(s, x) =~= s.insert(0, x));
        0
    } else if lex_less(x.task_id, s[0].task_id) {
        assert(placed(s, x) =~= s.insert(0, x));
        0
    } else {
        let q = lemma_placed_insert(s.drop_first(), x);
        assert(placed(s, x) =~= s.insert(q + 1, x));
        q + 1
    }
}

/// Sorting keeps the summaries.
pub proof fn lemma_sorted_keeps(s: Seq<SummaryView>)
    ensures
        by_id(s).len() == s.len(),
        all_good(s) ==> all_good(by_id(s)),
        distinct_ids(s) ==> distinct_ids(by_id(s)),
        forall|id: Seq<char>| #[trigger] has_task(by_id(s), id) == has_task(s, id),
        forall|x: SummaryView| #[trigger] by_id(s).contains(x) == s.contains(x),
    decreases s.len(),
{
    if s.len() > 0 {
        let init = s.drop_last();
        let x = s.last();
        lemma_sorted_keeps(init);
        let prior = by_id(init);
        let p = lemma_placed_insert(prior, x);
        let new = by_id(s);
        assert(new == prior.insert(p, x));
        assert(init.push(x) =~= s);
        assert forall|id: Seq<char>| #[trigger] has_task(new, id) == has_task(s, id) by {
            assert(has_task(prior, id) == has_task(init, id));
            lemma_has_insert(prior, p, x, id);
            lemma_has_insert(init, init.len() as int, x, id);
            assert(init.insert(init.len() as int, x) =~= s);
        }
        assert forall|y: SummaryView| #[trigger] new.contains(y) == s.contains(y) by {
            assert(prior.contains(y) == init.contains(y));
            if new.contains(y) {
                let i = choose|i: int| 0 <= i < new.len() && new[i] == y;
                if i == p {
                    assert(s[s.len() - 1] == y);
                } else if i < p {
                    assert(prior[i] == y);
                    let j = choose|j: int| 0 <= j < init.len() && init[j] == y;
                    assert(s[j] == y);
                } else {
                    assert(prior[i - 1] == y);
                    let j = choose|j: int| 0 <= j < init.len() && init[j] == y;
                    assert(s[j] == y);
                }
            }
            if s.contains(y) {
                let i = choose|i: int| 0 <= i < s.len() && s[i] == y;
                if i == s.len() - 1 {
                    assert(new[p] == y);
                } else {
                    assert(init[i] == y);
                    let j = choose|j: int| 0 <= j < prior.len() && prior[j] == y;
                    if j < p {
                        assert(new[j] == y);
                    } else {
                        assert(new[j + 1] == y);
                    }
                }
            }
        }
        if all_good(s) {
            assert forall|i: int| 0 <= i < init.len() implies good_summary(#[trigger] init[i]) by {
                assert(good_summary(s[i]));
            }
            assert forall|i: int| 0 <= i < new.len() implies good_summary(#[trigger] new[i]) by {
                if i == p {
                    assert(good_summary(s[s.len() - 1]));
                } else if i < p {
                    assert(good_summary(prior[i]));
                } else {
                    assert(good_summary(prior[i - 1]));
                }
            }
        }
        if distinct_ids(s) {
            assert forall|i: int, j: int| 0 <= i < j < init.len() implies (
            #[trigger] init[i]).task_id != (#[trigger] init[j]).task_id by {
                assert(s[i].task_id != s[j].task_id);
            }
            assert(!has_task(init, x.task_id)) by {
                if has_task(init, x.task_id) {
                    let i = choose|i: int|
                        0 <= i < init.len() && (#[trigger] init[i]).task_id == x.task_id;
                    assert(s[i].task_id == s[s.len() - 1].task_id);
                }
            }
            lemma_insert_distinct(prior, p, x);
        }
    } else {
        assert(by_id(s) =~= s);
    }
}

proof fn lemma_has_insert(s: Seq<SummaryView>, p: int, x: SummaryView, id: Seq<char>)
    requires
        0 <= p <= s.len(),
    ensures
        has_task(s.insert(p, x), id) == (has_task(s, id) || x.task_id == id),
{
    let t = s.insert(p, x);
    if has_task(s, id) {
        let i = choose|i: int| 0 <= i < s.len() && (#[trigger] s[i]).task_id == id;
        if i < p {
            assert(t[i].task_id == id);
        } else {
            assert(t[i + 1].task_id == id);
        }
    }
    if x.task_id == id {
        assert(t[p].task_id == id);
    }
    if has_task(t, id) {
        let i = choose|i: int| 0 <= i < t.len() && (#[trigger] t[i]).task_id == id;
        if i < p {
            assert(s[i].task_id == id);
        } else if i > p {
            assert(s[i - 1].task_id == id);
        }
    }
}

proof fn lemma_insert_distinct(s: Seq<SummaryView>, p: int, x: SummaryView)
    requires
        0 <= p <= s.len(),
        distinct_ids(s),
        !has_task(s, x.task_id),
    ensures
        distinct_ids(s.insert(p, x)),
{
    let t = s.insert(p, x);
    assert forall|i: int, j: int| 0 <= i < j < t.len() implies (#[trigger] t[i]).task_id != (
    #[trigger] t[j]).task_id by {
        let a = if i < p {
            i
        } else {
            i - 1
        };
        let b = if j < p {
            j
        } else {
            j - 1
        };
        if i != p {
            assert(t[i] == s[a]);
        }
        if j != p {
            assert(t[j] == s[b]);
        }
        if i != p && j != p {
            assert(s[a].task_id != s[b].task_id);
        }
    }
}

/// A concatenation of distinct lists without common ids is distinct.
pub proof fn lemma_concat_distinct(a: Seq<SummaryView>, b: Seq<SummaryView>)
    requires
        distinct_ids(a),
        distinct_ids(b),
        forall|i: int| 0 <= i < b.len() ==> !has_task(a, (#[trigger] b[i]).task_id),
    ensures
        distinct_ids(a + b),
{
    let t = a + b;
    assert forall|i: int, j: int| 0 <= i < j < t.len() implies (#[trigger] t[i]).task_id != (
    #[trigger] t[j]).task_id by {
        if j < a.len() {
            assert(a[i].task_id != a[j].task_id);
        } else if i >= a.len() {
            assert(b[i - a.len()].task_id != b[j - a.len()].task_id);
        } else {
            assert(!has_task(a, b[j - a.len()].task_id));
            if t[i].task_id == t[j].task_id {
                assert(a[i].task_id == b[j - a.len()].task_id);
            }
        }
    }
}

/// The parts of a distinct list.
proof fn lemma_split_distinct(a: Seq<SummaryView>, b: Seq<SummaryView>)
    requires
        distinct_ids(a + b),
    ensures
        distinct_ids(a),
        distinct_ids(b),
        forall|i: int| 0 <= i < b.len() ==> !has_task(a, (#[trigger] b[i]).task_id),
{
    let t = a + b;
    assert forall|i: int, j: int| 0 <= i < j < a.len() implies (#[trigger] a[i]).task_id != (
    #[trigger] a[j]).task_id by {
        assert(t[i].task_id != t[j].task_id);
    }
    assert forall|i: int, j: int| 0 <= i < j < b.len() implies (#[trigger] b[i]).task_id != (
    #[trigger] b[j]).task_id by {
        assert(t[a.len() + i].task_id != t[a.len() + j].task_id);
    }
    assert forall|i: int| 0 <= i < b.len() implies !has_task(a, (#[trigger] b[i]).task_id) by {
        if has_task(a, b[i].task_id) {
            let k = choose|k: int| 0 <= k < a.len() && (#[trigger] a[k]).task_id == b[i].task_id;
            assert(t[k].task_id == t[a.len() + i].task_id);
        }
    }
}

/// Adding a task keeps an index sound.
pub proof fn lemma_added_sound(v: IndexView, identity: IdentityView, s: SummaryView, now: i64)
    requires
        sound_index(v, identity) || v == fresh_index(identity, v.updated_at),
        !has_task(v.tasks + v.retired_tasks, s.task_id),
        v.tasks.len() < MAX_TASK_COUNT,
        good_summary(s),
        with_task(v, s, now) is Ok,
    ensures
        sound_index(with_task(v, s, now)->Ok_0, identity),
        has_task(with_task(v, s, now)->Ok_0.tasks, s.task_id),
        with_task(v, s, now)->Ok_0.tasks.contains(s),
{
    let w = with_task(v, s, now)->Ok_0;
    let grown = v.tasks.push(s);
    let all = v.tasks + v.retired_tasks;
    let new = w.tasks + w.retired_tasks;
    lemma_has_concat(v.tasks, v.retired_tasks, s.task_id);
    lemma_split_distinct(v.tasks, v.retired_tasks);
    lemma_sorted_keeps(grown);
    assert(v.tasks.insert(v.tasks.len() as int, s) =~= grown);
    lemma_insert_distinct(v.tasks, v.tasks.len() as int, s);
    assert(grown[v.tasks.len() as int] == s);
    assert forall|i: int| 0 <= i < grown.len() implies good_summary(#[trigger] grown[i]) by {
        if i < v.tasks.len() {
            assert(all[i] == grown[i]);
        }
    }
    assert forall|id: Seq<char>| #[trigger] has_task(w.tasks, id) == (has_task(v.tasks, id) || id
        == s.task_id) by {
        lemma_has_insert(v.tasks, v.tasks.len() as int, s, id);
        assert(has_task(by_id(grown), id) == has_task(grown, id));
    }
    assert forall|i: int| 0 <= i < w.retired_tasks.len() implies !has_task(
        w.tasks,
        (#[trigger] w.retired_tasks[i]).task_id,
    ) by {
        assert(!has_task(v.tasks, v.retired_tasks[i].task_id));
        assert(v.retired_tasks[i].task_id != s.task_id);
    }
    lemma_concat_distinct(w.tasks, w.retired_tasks);
    assert forall|i: int| 0 <= i < new.len() implies good_summary(#[trigger] new[i]) by {
        if i < w.tasks.len() {
            assert(good_summary(w.tasks[i]));
        } else {
            assert(good_summary(all[v.tasks.len() + (i - w.tasks.len())]));
        }
    }
    assert forall|i: int| 0 <= i < w.bindings.len() implies good_binding(#[trigger] w.bindings[i])
        && has_task(new, w.bindings[i].1) by {
        assert(good_binding(v.bindings[i]) && has_task(all, v.bindings[i].1));
        lemma_has_concat(v.tasks, v.retired_tasks, v.bindings[i].1);
        lemma_has_concat(w.tasks, w.retired_tasks, v.bindings[i].1);
    }
}

/// Binding a valid client to a listed task keeps an index sound.
pub proof fn lemma_bound_sound(
    v: IndexView,
    identity: IdentityView,
    client: Seq<char>,
    id: Seq<char>,
)
    requires
        sound_index(v, identity),
        has_task(v.tasks, id),
        actor_of(Node::Text(client)) is Ok,
    ensures
        sound_index(IndexView { bindings: put(v.bindings, client, id), ..v }, identity),
{
    let w = IndexView { bindings: put(v.bindings, client, id), ..v };
    let all = v.tasks + v.retired_tasks;
    lemma_has_concat(v.tasks, v.retired_tasks, id);
    let i = choose|i: int| 0 <= i < v.tasks.len() && (#[trigger] v.tasks[i]).task_id == id;
    assert(good_summary(all[i]));
    assert forall|k: int| 0 <= k < w.bindings.len() implies good_binding(#[trigger] w.bindings[k])
        && has_task(all, w.bindings[k].1) by {
        lemma_put_keys(v.bindings, client, id, k);
        if w.bindings[k] != (client, id) {
            let j = choose|j: int|
                0 <= j < v.bindings.len() && #[trigger] v.bindings[j] == w.bindings[k];
            assert(good_binding(v.bindings[j]));
        }
    }
}

/// What remains when a task is taken out.
pub proof fn lemma_without(s: Seq<SummaryView>, id: Seq<char>)
    ensures
        without_task(s, id).len() <= s.len(),
        all_good(s) ==> all_good(without_task(s, id)),
        distinct_ids(s) ==> distinct_ids(without_task(s, id)),
        forall|q: Seq<char>|
            #[trigger] has_task(without_task(s, id), q) == (has_task(s, q) && q != id),
        has_task(s, id) ==> without_task(s, id).len() < s.len(),
    decreases s.len(),
{
    if s.len() > 0 {
        let init = s.drop_last();
        let x = s.last();
        lemma_without(init, id);
        let prior = without_task(init, id);
        let new = without_task(s, id);
        assert(init.insert(init.len() as int, x) =~= s);
        assert forall|q: Seq<char>| #[trigger] has_task(new, q) == (has_task(s, q) && q != id) by {
            assert(has_task(prior, q) == (has_task(init, q) && q != id));
            lemma_has_insert(init, init.len() as int, x, q);
            if x.task_id != id {
                assert(prior.insert(prior.len() as int, x) =~= new);
                lemma_has_insert(prior, prior.len() as int, x, q);
            }
        }
        lemma_has_insert(init, init.len() as int, x, id);
        if all_good(s) {
            assert forall|i: int| 0 <= i < init.len() implies good_summary(#[trigger] init[i]) by {
                assert(good_summary(s[i]));
            }
            assert(good_summary(s[s.len() - 1]));
        }
        if distinct_ids(s) {
            assert forall|i: int, j: int| 0 <= i < j < init.len() implies (
            #[trigger] init[i]).task_id != (#[trigger] init[j]).task_id by {
                assert(s[i].task_id != s[j].task_id);
            }
            if x.task_id != id {
                assert(!has_task(init, x.task_id)) by {
                    if has_task(init, x.task_id) {
                        let i = choose|i: int|
                            0 <= i < init.len() && (#[trigger] init[i]).task_id == x.task_id;
                        assert(s[i].task_id == s[s.len() - 1].task_id);
                    }
                }
                lemma_insert_distinct(prior, prior.len() as int, x);
                assert(prior.insert(prior.len() as int, x) =~= new);
            }
        }
    } else {
        assert(without_task(s, id) =~= s);
    }
}

/// Moving a task to the retired ones keeps an index sound.
pub proof fn lemma_retired_sound(v: IndexView, identity: IdentityView, t: TaskView, now: i64)
    requires
        sound_index(v, identity),
        has_task(v.tasks, t.task_id),
        v.retired_tasks.len() < MAX_RETIRED_TASK_COUNT,
        good_summary(summarized(t)),
        retired_index(v, t, now) is Ok,
    ensures
        sound_index(retired_index(v, t, now)->Ok_0, identity),
        !has_task(retired_index(v, t, now)->Ok_0.tasks, t.task_id),
        has_task(retired_index(v, t, now)->Ok_0.retired_tasks, t.task_id),
        retired_index(v, t, now)->Ok_0.tasks.len() < v.tasks.len(),
{
    let w = retired_index(v, t, now)->Ok_0;
    let x = summarized(t);
    let all = v.tasks + v.retired_tasks;
    let new = w.tasks + w.retired_tasks;
    lemma_split_distinct(v.tasks, v.retired_tasks);
    lemma_without(v.tasks, t.task_id);
    law_valid_index_is_sound(v, identity);
    law_retired_is_not_active(v, identity, t.task_id);
    assert(v.retired_tasks.insert(v.retired_tasks.len() as int, x) =~= w.retired_tasks);
    lemma_insert_distinct(v.retired_tasks, v.retired_tasks.len() as int, x);
    assert forall|i: int| 0 <= i < v.tasks.len() implies good_summary(#[trigger] v.tasks[i]) by {
        assert(good_summary(all[i]));
    }
    assert forall|i: int| 0 <= i < w.retired_tasks.len() implies !has_task(
        w.tasks,
        (#[trigger] w.retired_tasks[i]).task_id,
    ) by {
        if i < v.retired_tasks.len() {
            assert(!has_task(v.tasks, v.retired_tasks[i].task_id));
        }
    }
    lemma_concat_distinct(w.tasks, w.retired_tasks);
    assert forall|i: int| 0 <= i < new.len() implies good_summary(#[trigger] new[i]) by {
        if i < w.tasks.len() {
            assert(good_summary(w.tasks[i]));
        } else if i - w.tasks.len() < v.retired_tasks.len() {
            assert(good_summary(all[v.tasks.len() + (i - w.tasks.len())]));
        }
    }
    lemma_has_insert(v.retired_tasks, v.retired_tasks.len() as int, x, t.task_id);
    assert forall|i: int| 0 <= i < w.bindings.len() implies good_binding(#[trigger] w.bindings[i])
        && has_task(new, w.bindings[i].1) by {
        let q = v.bindings[i].1;
        assert(good_binding(v.bindings[i]) && has_task(all, q));
        lemma_has_concat(v.tasks, v.retired_tasks, q);
        lemma_has_concat(w.tasks, w.retired_tasks, q);
        lemma_has_insert(v.retired_tasks, v.retired_tasks.len() as int, x, q);
        assert(has_task(w.tasks, q) == (has_task(v.tasks, q) && q != t.task_id));
    }
}

} // verus!
