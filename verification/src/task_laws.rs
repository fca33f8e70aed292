//! What recording an event keeps of a task.
use vstd::prelude::*;
use crate::actions::{summarized};
use crate::appending::{grown, is_known, needs_alias, recorded, with_alias};
use crate::checks::{MAX_HISTORY_COUNT, aliases_check, ids_of, is_digest, task_check, unknown_total};
use crate::codec::{readable};
use crate::directory::{all_tidy};
use crate::event::{
    EventView, MAX_TASK_ID_CHARS, MAX_TITLE_CHARS, event_id_of, event_of, is_task_status, slug_of,
    text_of,
};
use crate::failure::{Failure};
use crate::index_laws::{good_summary};
use crate::json::{Node};
use crate::mutations::{fresh_task, status_after};
use crate::normal_form::{law_event_tidy, lemma_event_parts, lemma_event_readable};
use crate::records::{IdentityView, TaskView};
use crate::round_trip::{lemma_lookup_some};
use crate::table::{lemma_put_keys, lookup};
use crate::writing::{all_readable};

verus! {

/// What the collected ids are.
pub proof fn lemma_ids_members(events: Seq<Node>, k: nat, policy: Seq<Seq<char>>)
    requires
        k <= events.len(),
        ids_of(events, k, policy) is Ok,
    ensures
        ids_of(events, k, policy)->Ok_0.len() == k,
        forall|i: int|
            #![trigger events[i]]
            0 <= i < k ==> event_of(events[i], policy) is Ok && ids_of(events, k, policy)->Ok_0[i]
                == event_of(events[i], policy)->Ok_0.id && events[i].at("event_id"@) == Node::Text(
                ids_of(events, k, policy)->Ok_0[i],
            ),
    decreases k,
{
    if k > 0 {
        lemma_ids_members(events, (k - 1) as nat, policy);
        lemma_event_parts(events[k - 1], policy);
    }
}

pub proof fn lemma_ids_prefix(events: Seq<Node>, x: Node, k: nat, policy: Seq<Seq<char>>)
    requires
        k <= events.len(),
    ensures
        ids_of(events.push(x), k, policy) == ids_of(events, k, policy),
        unknown_total(events.push(x), k, policy) == unknown_total(events, k, policy),
    decreases k,
{
    if k > 0 {
        lemma_ids_prefix(events, x, (k - 1) as nat, policy);
    }
}

/// An id that no event has.
pub proof fn lemma_unrecorded(events: Seq<Node>, id: Seq<char>)
    requires
        recorded(events, id) is None,
    ensures
        forall|i: int| 0 <= i < events.len() ==> (#[trigger] events[i]).at("event_id"@)
            != Node::Text(id),
    decreases events.len(),
{
    if events.len() > 0 {
        lemma_unrecorded(events.drop_first(), id);
        assert forall|i: int| 0 <= i < events.len() implies (#[trigger] events[i]).at("event_id"@)
            != Node::Text(id) by {
            if i > 0 {
                assert(events[i] == events.drop_first()[i - 1]);
            }
        }
    }
}

proof fn lemma_aliases_more(
    aliases: Seq<(Seq<char>, Seq<char>)>,
    k: nat,
    ids: Seq<Seq<char>>,
    x: Seq<char>,
)
    requires
        k <= aliases.len(),
        aliases_check(aliases, k, ids) is Ok,
        forall|i: int| 0 <= i < aliases.len() ==> #[trigger] aliases[i].0 != x,
    ensures
        aliases_check(aliases, k, ids.push(x)) is Ok,
    decreases k,
{
    if k > 0 {
        lemma_aliases_more(aliases, (k - 1) as nat, ids, x);
        assert(aliases[k - 1].0 != x);
        let key = aliases[k - 1].0;
        if ids.push(x).contains(key) {
            let i = choose|i: int| 0 <= i < ids.push(x).len() && ids.push(x)[i] == key;
            assert(ids[i] == key);
            assert(ids.contains(key));
        }
    }
}

/// No more events are unknown than there are.
pub proof fn lemma_unknown_bound(events: Seq<Node>, k: nat, policy: Seq<Seq<char>>)
    requires
        k <= events.len(),
    ensures
        unknown_total(events, k, policy) <= k,
    decreases k,
{
    if k > 0 {
        lemma_unknown_bound(events, (k - 1) as nat, policy);
    }
}

/// The status after an event is a known one.
pub proof fn lemma_status_after(current: Seq<char>, e: EventView, policy: Seq<Seq<char>>)
    requires
        is_task_status(current),
        event_of(e.value, policy) == Ok::<_, Failure>(e),
    ensures
        is_task_status(status_after(current, e)),
{
    lemma_event_parts(e.value, policy);
}

/// The keys that are not found are not there.
pub proof fn lemma_lookup_absent<V>(s: Seq<(Seq<char>, V)>, k: Seq<char>)
    requires
        lookup(s, k) is None,
    ensures
        forall|i: int| 0 <= i < s.len() ==> #[trigger] s[i].0 != k,
{
    assert forall|i: int| 0 <= i < s.len() implies #[trigger] s[i].0 != k by {
        if s[i].0 == k {
            lemma_lookup_some(s, k, i);
        }
    }
}

/// A valid task stays valid when a new event is recorded.
pub proof fn lemma_grown_valid(
    t: TaskView,
    e: EventView,
    identity: IdentityView,
    policy: Seq<Seq<char>>,
    now: i64,
)
    requires
        task_check(t, identity, policy) is Ok,
        event_of(e.value, policy) == Ok::<_, Failure>(e),
        !is_known(t, e),
        grown(t, e, now) is Ok,
        t.events.len() < MAX_HISTORY_COUNT,
    ensures
        task_check(grown(t, e, now)->Ok_0, identity, policy) is Ok,
        good_summary(summarized(grown(t, e, now)->Ok_0)),
{
    let u = grown(t, e, now)->Ok_0;
    let n = t.events.len();
    let ids = ids_of(t.events, n, policy)->Ok_0;
    lemma_ids_members(t.events, n, policy);
    lemma_ids_prefix(t.events, e.value, n, policy);
    lemma_unrecorded(t.events, e.id);
    lemma_unknown_bound(t.events, n, policy);
    lemma_status_after(t.status, e, policy);
    assert(!ids.contains(e.id)) by {
        if ids.contains(e.id) {
            let i = choose|i: int| 0 <= i < ids.len() && ids[i] == e.id;
            assert(t.events[i].at("event_id"@) == Node::Text(ids[i]));
        }
    }
    assert(u.events[n as int] == e.value);
    assert(ids_of(u.events, u.events.len(), policy) == Ok::<_, Failure>(ids.push(e.id)));
    lemma_lookup_absent(t.event_aliases, e.id);
    lemma_aliases_more(t.event_aliases, t.event_aliases.len(), ids, e.id);
    assert(unknown_total(u.events, u.events.len(), policy) == u.unknown_count);
}

/// A valid task has a valid summary.
pub proof fn lemma_task_summary(t: TaskView, identity: IdentityView, policy: Seq<Seq<char>>)
    requires
        task_check(t, identity, policy) is Ok,
    ensures
        good_summary(summarized(t)),
{
}

/// The events of a valid task with tidy events can be printed and read again.
pub proof fn lemma_valid_readable(t: TaskView, identity: IdentityView, policy: Seq<Seq<char>>)
    requires
        task_check(t, identity, policy) is Ok,
        all_tidy(t.events),
    ensures
        all_readable(t.events),
{
    lemma_ids_members(t.events, t.events.len(), policy);
    assert forall|i: int| 0 <= i < t.events.len() implies readable(#[trigger] t.events[i], 2) by {
        lemma_event_readable(t.events[i], policy);
    }
}

proof fn lemma_aliases_put(
    aliases: Seq<(Seq<char>, Seq<char>)>,
    k: nat,
    ids: Seq<Seq<char>>,
)
    requires
        k <= aliases.len(),
        forall|i: int|
            0 <= i < aliases.len() ==> event_id_of(Node::Text((#[trigger] aliases[i]).0)) is Ok
                && !ids.contains(aliases[i].0) && is_digest(aliases[i].1),
    ensures
        aliases_check(aliases, k, ids) is Ok,
    decreases k,
{
    if k > 0 {
        lemma_aliases_put(aliases, (k - 1) as nat, ids);
        assert(event_id_of(Node::Text(aliases[k - 1].0)) is Ok);
    }
}

pub proof fn lemma_aliases_each(
    aliases: Seq<(Seq<char>, Seq<char>)>,
    k: nat,
    ids: Seq<Seq<char>>,
)
    requires
        k <= aliases.len(),
        aliases_check(aliases, k, ids) is Ok,
    ensures
        forall|i: int|
            0 <= i < k ==> event_id_of(Node::Text((#[trigger] aliases[i]).0)) is Ok
                && !ids.contains(aliases[i].0) && is_digest(aliases[i].1),
    decreases k,
{
    if k > 0 {
        lemma_aliases_each(aliases, (k - 1) as nat, ids);
    }
}

/// A valid task stays valid when it remembers the id of a repeated event.
pub proof fn lemma_aliased_valid(
    t: TaskView,
    e: EventView,
    digest: Seq<char>,
    identity: IdentityView,
    policy: Seq<Seq<char>>,
)
    requires
        task_check(t, identity, policy) is Ok,
        event_of(e.value, policy) == Ok::<_, Failure>(e),
        needs_alias(t, e),
        is_digest(digest),
    ensures
        task_check(with_alias(t, e.id, digest), identity, policy) is Ok,
{
    let n = t.events.len();
    let ids = ids_of(t.events, n, policy)->Ok_0;
    let u = with_alias(t, e.id, digest);
    lemma_ids_members(t.events, n, policy);
    lemma_unrecorded(t.events, e.id);
    lemma_event_parts(e.value, policy);
    assert(!ids.contains(e.id)) by {
        if ids.contains(e.id) {
            let i = choose|i: int| 0 <= i < ids.len() && ids[i] == e.id;
            assert(t.events[i].at("event_id"@) == Node::Text(ids[i]));
        }
    }
    assert(event_id_of(Node::Text(e.id)) is Ok);
    lemma_aliases_each(t.event_aliases, t.event_aliases.len(), ids);
    assert forall|i: int| 0 <= i < u.event_aliases.len() implies event_id_of(
        Node::Text((#[trigger] u.event_aliases[i]).0),
    ) is Ok && !ids.contains(u.event_aliases[i].0) && is_digest(u.event_aliases[i].1) by {
        lemma_put_keys(t.event_aliases, e.id, digest, i);
        if u.event_aliases[i] != (e.id, digest) {
            let j = choose|j: int|
                0 <= j < t.event_aliases.len() && #[trigger] t.event_aliases[j]
                    == u.event_aliases[i];
            assert(is_digest(t.event_aliases[j].1));
        }
    }
    lemma_aliases_put(u.event_aliases, u.event_aliases.len(), ids);
}

/// A new task is valid.
pub proof fn lemma_fresh_valid(
    identity: IdentityView,
    id: Seq<char>,
    title: Seq<char>,
    event: Option<EventView>,
    now: i64,
    policy: Seq<Seq<char>>,
)
    requires
        slug_of(Node::Text(id), MAX_TASK_ID_CHARS as int) is Ok,
        text_of(Node::Text(title), MAX_TITLE_CHARS as int, false) is Ok,
        event is Some ==> event_of(event->0.value, policy) == Ok::<_, Failure>(event->0),
    ensures
        task_check(fresh_task(identity, id, title, event, now), identity, policy) is Ok,
        all_tidy(fresh_task(identity, id, title, event, now).events),
{
    let t = fresh_task(identity, id, title, event, now);
    reveal_with_fuel(ids_of, 3);
    reveal_with_fuel(unknown_total, 3);
    if event is Some {
        lemma_status_after("active"@, event->0, policy);
        law_event_tidy(event->0.value, policy);
    }
    assert(aliases_check(t.event_aliases, 0, ids_of(t.events, t.events.len(), policy)->Ok_0) is Ok);
}

} // verus!
