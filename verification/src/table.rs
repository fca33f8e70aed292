//! Association lists kept in the order of their keys.
use vstd::prelude::*;
use crate::text::{
    lemma_lex_irreflexive, lemma_lex_total, lemma_lex_transitive, lex_less, precedes, same,
};

verus! {

/// The value of the first pair with key `k`.
pub open spec fn lookup<V>(s: Seq<(Seq<char>, V)>, k: Seq<char>) -> Option<V>
    decreases s.len(),
{
    if s.len() == 0 {
        None
    } else if s[0].0 == k {
        Some(s[0].1)
    } else {
        lookup(s.drop_first(), k)
    }
}

/// The list with the value of `k` replaced by `v`, or with a new pair put
/// before the first greater key.
pub open spec fn put<V>(s: Seq<(Seq<char>, V)>, k: Seq<char>, v: V) -> Seq<(Seq<char>, V)>
    decreases s.len(),
{
    if s.len() == 0 {
        seq![(k, v)]
    } else if s[0].0 == k {
        seq![(k, v)] + s.drop_first()
    } else if lex_less(k, s[0].0) {
        seq![(k, v)] + s
    } else {
        seq![s[0]] + put(s.drop_first(), k, v)
    }
}

/// Whether the keys stand in strictly increasing order.
pub open spec fn ordered<V>(s: Seq<(Seq<char>, V)>) -> bool {
    forall|i: int, j: int| 0 <= i < j < s.len() ==> lex_less(#[trigger] s[i].0, #[trigger] s[j].0)
}

/// The abstract content of a vector of pairs.
pub open spec fn pairs<V: View>(s: Seq<(String, V)>) -> Seq<(Seq<char>, V::V)> {
    Seq::new(s.len(), |i: int| (s[i].0@, s[i].1@))
}

pub proof fn lemma_lookup_hit<V>(s: Seq<(Seq<char>, V)>, k: Seq<char>, i: int)
    requires
        0 <= i < s.len(),
        s[i].0 == k,
        forall|j: int| 0 <= j < i ==> #[trigger] s[j].0 != k,
    ensures
        lookup(s, k) == Some(s[i].1),
    decreases s.len(),
{
    if i > 0 {
        assert(s[0].0 != k);
        assert forall|j: int| 0 <= j < i - 1 implies #[trigger] s.drop_first()[j].0 != k by {
            assert(s[j + 1].0 != k);
        }
        lemma_lookup_hit(s.drop_first(), k, i - 1);
    }
}

pub proof fn lemma_lookup_miss<V>(s: Seq<(Seq<char>, V)>, k: Seq<char>)
    requires
        forall|j: int| 0 <= j < s.len() ==> #[trigger] s[j].0 != k,
    ensures
        lookup(s, k) is None,
    decreases s.len(),
{
    if s.len() > 0 {
        assert(s[0].0 != k);
        assert forall|j: int| 0 <= j < s.drop_first().len() implies #[trigger] s.drop_first()[j].0
            != k by {
            assert(s[j + 1].0 != k);
        }
        lemma_lookup_miss(s.drop_first(), k);
    }
}

/// A key that is found stands at some position.
pub proof fn lemma_lookup_position<V>(s: Seq<(Seq<char>, V)>, k: Seq<char>) -> (i: int)
    requires
        lookup(s, k) is Some,
    ensures
        0 <= i < s.len(),
        s[i].0 == k,
        lookup(s, k) == Some(s[i].1),
        forall|j: int| 0 <= j < i ==> #[trigger] s[j].0 != k,
    decreases s.len(),
{
    if s[0].0 == k {
        0
    } else {
        let i = lemma_lookup_position(s.drop_first(), k);
        assert forall|j: int| 0 <= j < i + 1 implies #[trigger] s[j].0 != k by {
            if j > 0 {
                assert(s.drop_first()[j - 1].0 != k);
            }
        }
        i + 1
    }
}

/// After `put`, the key has the new value and every other key its old one.
pub proof fn lemma_put_lookup<V>(s: Seq<(Seq<char>, V)>, k: Seq<char>, v: V, q: Seq<char>)
    ensures
        lookup(put(s, k, v), q) == if q == k {
            Some(v)
        } else {
            lookup(s, q)
        },
    decreases s.len(),
{
    let t = put(s, k, v);
    if s.len() == 0 {
        assert(t.drop_first() =~= Seq::<(Seq<char>, V)>::empty());
        assert(lookup(t.drop_first(), q) is None);
    } else if s[0].0 == k {
        assert(t.drop_first() =~= s.drop_first());
    } else if lex_less(k, s[0].0) {
        assert(t.drop_first() =~= s);
    } else {
        lemma_put_lookup(s.drop_first(), k, v, q);
        assert(t.drop_first() =~= put(s.drop_first(), k, v));
        assert(t[0] == s[0]);
    }
}

pub proof fn lemma_ordered_drop<V>(s: Seq<(Seq<char>, V)>)
    requires
        ordered(s),
        s.len() > 0,
    ensures
        ordered(s.drop_first()),
{
    assert forall|i: int, j: int| 0 <= i < j < s.drop_first().len() implies lex_less(
        #[trigger] s.drop_first()[i].0,
        #[trigger] s.drop_first()[j].0,
    ) by {
        assert(lex_less(s[i + 1].0, s[j + 1].0));
    }
}

/// Every key of `put(s, k, v)` is `k` or a key of `s`.
pub proof fn lemma_put_keys<V>(s: Seq<(Seq<char>, V)>, k: Seq<char>, v: V, i: int)
    requires
        0 <= i < put(s, k, v).len(),
    ensures
        put(s, k, v)[i] == (k, v) || exists|j: int|
            0 <= j < s.len() && #[trigger] s[j] == put(s, k, v)[i],
    decreases s.len(),
{
    let t = put(s, k, v);
    if s.len() == 0 {
    } else if s[0].0 == k {
        if i > 0 {
            assert(t[i] == s[i]);
        }
    } else if lex_less(k, s[0].0) {
        if i > 0 {
            assert(t[i] == s[i - 1]);
        }
    } else if i == 0 {
        assert(t[0] == s[0]);
    } else {
        lemma_put_keys(s.drop_first(), k, v, i - 1);
        assert(t[i] == put(s.drop_first(), k, v)[i - 1]);
        if t[i] != (k, v) {
            let j = choose|j: int|
                0 <= j < s.drop_first().len() && #[trigger] s.drop_first()[j] == t[i];
            assert(s[j + 1] == t[i]);
        }
    }
}

/// `put` keeps the keys in order.
pub proof fn lemma_put_ordered<V>(s: Seq<(Seq<char>, V)>, k: Seq<char>, v: V)
    requires
        ordered(s),
    ensures
        ordered(put(s, k, v)),
    decreases s.len(),
{
    let t = put(s, k, v);
    if s.len() == 0 {
    } else if s[0].0 == k {
        assert forall|i: int, j: int| 0 <= i < j < t.len() implies lex_less(
            #[trigger] t[i].0,
            #[trigger] t[j].0,
        ) by {
            assert(t[i].0 == s[i].0 && t[j].0 == s[j].0);
        }
    } else if lex_less(k, s[0].0) {
        assert forall|i: int, j: int| 0 <= i < j < t.len() implies lex_less(
            #[trigger] t[i].0,
            #[trigger] t[j].0,
        ) by {
            assert(t[j].0 == s[j - 1].0);
            if i > 0 {
                assert(t[i].0 == s[i - 1].0);
            } else if j > 1 {
                lemma_lex_transitive(k, s[0].0, s[j - 1].0);
            }
        }
    } else {
        let rest = put(s.drop_first(), k, v);
        lemma_ordered_drop(s);
        lemma_put_ordered(s.drop_first(), k, v);
        lemma_lex_total(k, s[0].0);
        assert forall|i: int, j: int| 0 <= i < j < t.len() implies lex_less(
            #[trigger] t[i].0,
            #[trigger] t[j].0,
        ) by {
            assert(t[j] == rest[j - 1]);
            if i > 0 {
                assert(t[i] == rest[i - 1]);
            } else {
                lemma_put_keys(s.drop_first(), k, v, j - 1);
                if rest[j - 1] != (k, v) {
                    let m = choose|m: int|
                        0 <= m < s.drop_first().len() && #[trigger] s.drop_first()[m] == rest[j
                            - 1];
                    assert(s[m + 1] == rest[j - 1]);
                    assert(lex_less(s[0].0, s[m + 1].0));
                }
            }
        }
    }
}

/// Putting a key that comes after all others appends it.
pub proof fn lemma_put_last<V>(s: Seq<(Seq<char>, V)>, k: Seq<char>, v: V)
    requires
        forall|i: int| 0 <= i < s.len() ==> lex_less(#[trigger] s[i].0, k),
    ensures
        put(s, k, v) == s.push((k, v)),
    decreases s.len(),
{
    if s.len() > 0 {
        assert(lex_less(s[0].0, k));
        if s[0].0 == k {
            lemma_lex_irreflexive(k);
        }
        if lex_less(k, s[0].0) {
            lemma_lex_transitive(k, s[0].0, k);
            lemma_lex_irreflexive(k);
        }
        assert forall|i: int| 0 <= i < s.drop_first().len() implies lex_less(
            #[trigger] s.drop_first()[i].0,
            k,
        ) by {
            assert(lex_less(s[i + 1].0, k));
        }
        lemma_put_last(s.drop_first(), k, v);
        assert(seq![s[0]] + s.drop_first().push((k, v)) =~= s.push((k, v)));
    } else {
        assert(put(s, k, v) =~= s.push((k, v)));
    }
}

/// `put` where the position of the key is known.
proof fn lemma_put_at<V>(s: Seq<(Seq<char>, V)>, k: Seq<char>, v: V, i: int)
    requires
        0 <= i <= s.len(),
        forall|j: int| 0 <= j < i ==> #[trigger] s[j].0 != k && !lex_less(k, s[j].0),
        i < s.len() ==> s[i].0 == k || lex_less(k, s[i].0),
    ensures
        i < s.len() && s[i].0 == k ==> put(s, k, v) == s.update(i, (k, v)),
        !(i < s.len() && s[i].0 == k) ==> put(s, k, v) == s.insert(i, (k, v)),
    decreases s.len(),
{
    if s.len() == 0 {
        assert(put(s, k, v) =~= s.insert(i, (k, v)));
    } else if i == 0 {
        if s[0].0 == k {
            assert(put(s, k, v) =~= s.update(0, (k, v)));
        } else {
            assert(put(s, k, v) =~= s.insert(0, (k, v)));
        }
    } else {
        assert(s[0].0 != k && !lex_less(k, s[0].0));
        assert forall|j: int| 0 <= j < i - 1 implies #[trigger] s.drop_first()[j].0 != k
            && !lex_less(k, s.drop_first()[j].0) by {
            assert(s[j + 1].0 != k);
        }
        lemma_put_at(s.drop_first(), k, v, i - 1);
        if i < s.len() && s[i].0 == k {
            assert(put(s, k, v) =~= s.update(i, (k, v)));
        } else {
            assert(put(s, k, v) =~= s.insert(i, (k, v)));
        }
    }
}

/// The value of a key.
pub fn get<'a, V: View>(v: &'a Vec<(String, V)>, k: &str) -> (r: Option<&'a V>)
    ensures
        match r {
            Some(x) => lookup(pairs(v@), k@) == Some(x@),
            None => lookup(pairs(v@), k@) is None,
        },
{
    let mut i: usize = 0;
    while i < v.len()
        invariant
            i <= v@.len(),
            forall|j: int| 0 <= j < i ==> #[trigger] pairs(v@)[j].0 != k@,
        decreases v@.len() - i,
    {
        if same(v[i].0.as_str(), k) {
            proof {
                lemma_lookup_hit(pairs(v@), k@, i as int);
            }
            return Some(&v[i].1);
        }
        i += 1;
    }
    proof {
        lemma_lookup_miss(pairs(v@), k@);
    }
    None
}

/// Sets the value of a key.
pub fn assign<V: View>(v: &mut Vec<(String, V)>, k: String, value: V)
    ensures
        pairs(final(v)@) == put(pairs(old(v)@), k@, value@),
{
    let ghost before = pairs(v@);
    let ghost entry = (k@, value@);
    let mut i: usize = 0;
    while i < v.len() && !same(v[i].0.as_str(), k.as_str()) && !precedes(
        k.as_str(),
        v[i].0.as_str(),
    )
        invariant
            i <= v@.len(),
            v@ == old(v)@,
            forall|j: int|
                0 <= j < i ==> #[trigger] pairs(v@)[j].0 != k@ && !lex_less(k@, pairs(v@)[j].0),
        decreases v@.len() - i,
    {
        i += 1;
    }
    proof {
        lemma_put_at(before, k@, value@, i as int);
    }
    if i < v.len() && same(v[i].0.as_str(), k.as_str()) {
        let _ = v.remove(i);
        v.insert(i, (k, value));
        proof {
            assert(pairs(v@) =~= before.update(i as int, entry));
        }
    } else {
        v.insert(i, (k, value));
        proof {
            assert(pairs(v@) =~= before.insert(i as int, entry));
        }
    }
}

/// The list without the pairs of key `k`.
pub open spec fn removed<V>(s: Seq<(Seq<char>, V)>, k: Seq<char>) -> Seq<(Seq<char>, V)>
    decreases s.len(),
{
    if s.len() == 0 {
        Seq::empty()
    } else {
        let prior = removed(s.drop_last(), k);
        if s.last().0 == k {
            prior
        } else {
            prior.push(s.last())
        }
    }
}

/// After a removal the key is gone and every other key has its old value.
pub proof fn lemma_removed_lookup<V>(s: Seq<(Seq<char>, V)>, k: Seq<char>, q: Seq<char>)
    ensures
        lookup(removed(s, k), q) == if q == k {
            None
        } else {
            lookup(s, q)
        },
    decreases s.len(),
{
    if s.len() > 0 {
        let init = s.drop_last();
        lemma_removed_lookup(init, k, q);
        lemma_lookup_end(init, s.last(), q);
        assert(init.push(s.last()) =~= s);
        if s.last().0 != k {
            lemma_lookup_end(removed(init, k), s.last(), q);
        }
    } else {
        assert(removed(s, k) =~= s);
        assert(lookup(s, q) is None);
    }
}

/// What is found after a pair was appended.
pub proof fn lemma_lookup_end<V>(s: Seq<(Seq<char>, V)>, e: (Seq<char>, V), k: Seq<char>)
    ensures
        lookup(s.push(e), k) == match lookup(s, k) {
            Some(v) => Some(v),
            None => if e.0 == k {
                Some(e.1)
            } else {
                None
            },
        },
    decreases s.len(),
{
    let t = s.push(e);
    if s.len() == 0 {
        assert(t.drop_first() =~= Seq::<(Seq<char>, V)>::empty());
        assert(lookup(t.drop_first(), k) is None);
    } else {
        assert(t[0] == s[0]);
        assert(t.drop_first() =~= s.drop_first().push(e));
        lemma_lookup_end(s.drop_first(), e, k);
    }
}

/// Removes a key.
pub fn discard<V: View>(v: &mut Vec<(String, V)>, k: &str)
    ensures
        pairs(final(v)@) == removed(pairs(old(v)@), k@),
{
    let ghost before = pairs(v@);
    let mut i: usize = v.len();
    let ghost mut tail: Seq<(Seq<char>, V::V)> = Seq::empty();
    proof {
        assert(before.take(before.len() as int) =~= before);
        assert(removed(before, k@) + tail =~= removed(before, k@));
    }
    while i > 0
        invariant
            i <= v@.len(),
            before == pairs(old(v)@),
            i <= before.len(),
            pairs(v@) == before.take(i as int) + tail,
            removed(before, k@) == removed(before.take(i as int), k@) + tail,
        decreases i,
    {
        let ghost head = before.take(i as int);
        let ghost now = pairs(v@);
        proof {
            assert(head.drop_last() =~= before.take(i - 1));
            assert(now[i - 1] == head.last());
            assert(now[i - 1].0 == v@[i - 1].0@);
        }
        i -= 1;
        if same(v[i].0.as_str(), k) {
            let _ = v.remove(i);
            proof {
                assert(pairs(v@) =~= now.remove(i as int));
                assert(now =~= before.take(i as int).push(head.last()) + tail);
                assert(now.remove(i as int) =~= before.take(i as int) + tail);
            }
        } else {
            proof {
                let kept = removed(before.take(i as int), k@);
                assert(kept.push(head.last()) + tail =~= kept + (seq![head.last()] + tail));
                tail = seq![head.last()] + tail;
                assert(pairs(v@) =~= before.take(i as int) + tail);
            }
        }
    }
    proof {
        assert(before.take(0) =~= Seq::<(Seq<char>, V::V)>::empty());
        assert(pairs(v@) =~= tail);
        assert(removed(before.take(0), k@) =~= Seq::<(Seq<char>, V::V)>::empty());
        assert(removed(before, k@) =~= tail);
    }
}

/// The list with one pair of key `k`, of value `v`, wherever others stood.
pub open spec fn assigned<V>(s: Seq<(Seq<char>, V)>, k: Seq<char>, v: V) -> Seq<(Seq<char>, V)> {
    put(removed(s, k), k, v)
}

/// After `assigned`, the key has the new value and every other key its old one.
pub proof fn lemma_assigned_lookup<V>(s: Seq<(Seq<char>, V)>, k: Seq<char>, v: V, q: Seq<char>)
    ensures
        lookup(assigned(s, k, v), q) == if q == k {
            Some(v)
        } else {
            lookup(s, q)
        },
{
    lemma_put_lookup(removed(s, k), k, v, q);
    lemma_removed_lookup(s, k, q);
}

} // verus!
