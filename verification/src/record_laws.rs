//! What an object answers that was built from a list of members.
use vstd::prelude::*;
use crate::codec::{arranged, arranged_fields};
use crate::json::{Node, gathered_fields, record};
use crate::table::{lemma_assigned_lookup, lemma_put_lookup, lookup};
use crate::tool::{with_member};

verus! {

/// A number by which names are told apart.
pub open spec fn key_code(k: Seq<char>) -> int {
    k.len() * 0x100000000 + (k[0] as int) * 0x1000000 + (k[1] as int) * 0x10000 + (k[2] as int)
        * 0x100 + (k[k.len() - 1] as int)
}

/// The last member of the list with a key is the one that the object answers.
pub proof fn lemma_record_member(s: Seq<(Seq<char>, Node)>, i: int)
    requires
        0 <= i < s.len(),
        forall|j: int| i < j < s.len() ==> key_code((#[trigger] s[j]).0) != key_code(s[i].0),
    ensures
        record(s).member(s[i].0) == Some(s[i].1),
        record(s).at(s[i].0) == s[i].1,
{
    lemma_gathered_hit(s, s.len(), i);
}

proof fn lemma_gathered_hit(s: Seq<(Seq<char>, Node)>, k: nat, i: int)
    requires
        0 <= i < k <= s.len(),
        forall|j: int| i < j < k ==> #[trigger] s[j].0 != s[i].0,
    ensures
        lookup(gathered_fields(s, k), s[i].0) == Some(s[i].1),
    decreases k,
{
    let before = gathered_fields(s, (k - 1) as nat);
    lemma_put_lookup(before, s[k - 1].0, s[k - 1].1, s[i].0);
    if i < k - 1 {
        assert(s[k - 1].0 != s[i].0);
        lemma_gathered_hit(s, (k - 1) as nat, i);
    }
}

/// A key that the list does not hold has no member.
pub proof fn lemma_record_absent(s: Seq<(Seq<char>, Node)>, q: Seq<char>)
    requires
        forall|j: int| 0 <= j < s.len() ==> key_code((#[trigger] s[j]).0) != key_code(q),
    ensures
        record(s).member(q) is None,
        record(s).at(q) == Node::Null,
{
    lemma_gathered_miss(s, s.len(), q);
}

proof fn lemma_gathered_miss(s: Seq<(Seq<char>, Node)>, k: nat, q: Seq<char>)
    requires
        k <= s.len(),
        forall|j: int| 0 <= j < k ==> #[trigger] s[j].0 != q,
    ensures
        lookup(gathered_fields(s, k), q) is None,
    decreases k,
{
    if k > 0 {
        let before = gathered_fields(s, (k - 1) as nat);
        lemma_put_lookup(before, s[k - 1].0, s[k - 1].1, q);
        assert(s[k - 1].0 != q);
        lemma_gathered_miss(s, (k - 1) as nat, q);
    }
}

/// The last member of the list with a key is the one that the arranged object
/// answers, arranged.
pub proof fn lemma_arranged_member(s: Seq<(Seq<char>, Node)>, i: int)
    requires
        0 <= i < s.len(),
        forall|j: int| i < j < s.len() ==> key_code((#[trigger] s[j]).0) != key_code(s[i].0),
    ensures
        arranged(Node::Record(s)).member(s[i].0) == Some(arranged(s[i].1)),
        arranged(Node::Record(s)).at(s[i].0) == arranged(s[i].1),
{
    lemma_arranged_hit(s, s.len(), i);
}

proof fn lemma_arranged_hit(s: Seq<(Seq<char>, Node)>, k: nat, i: int)
    requires
        0 <= i < k <= s.len(),
        forall|j: int| i < j < k ==> #[trigger] s[j].0 != s[i].0,
    ensures
        lookup(arranged_fields(s, k), s[i].0) == Some(arranged(s[i].1)),
    decreases k,
{
    let before = arranged_fields(s, (k - 1) as nat);
    lemma_put_lookup(before, s[k - 1].0, arranged(s[k - 1].1), s[i].0);
    if i < k - 1 {
        assert(s[k - 1].0 != s[i].0);
        lemma_arranged_hit(s, (k - 1) as nat, i);
    }
}

/// A member that is set is answered, and the others stay.
pub proof fn lemma_set_member(n: Node, k: Seq<char>, v: Node, q: Seq<char>)
    requires
        n is Record,
    ensures
        with_member(n, k, v) is Record,
        with_member(n, k, v).member(q) == if q == k {
            Some(v)
        } else {
            n.member(q)
        },
{
    lemma_assigned_lookup(n->Record_0, k, v, q);
}

} // verus!
