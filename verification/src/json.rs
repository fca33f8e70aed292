//! JSON values as plain data, and what they mean.
use vstd::prelude::*;
use crate::table::{assign, lookup, pairs, put};
use crate::text::{owned, same};

verus! {

/// A JSON value. A number is a non-negative integer, a negative one, or any
/// other number given by its text.
#[derive(Debug)]
pub enum Json {
    Null,
    Bool(bool),
    Unsigned(u64),
    Negative(i64),
    Float(String),
    Text(String),
    Array(Vec<Json>),
    Object(Vec<(String, Json)>),
}

impl Clone for Json {
    fn clone(&self) -> (r: Json)
        ensures
            r@ == self@,
    {
        self.copy()
    }
}

/// The abstract content of a JSON value.
pub enum Node {
    Null,
    Bool(bool),
    Unsigned(u64),
    Negative(i64),
    Float(Seq<char>),
    Text(Seq<char>),
    List(Seq<Node>),
    Record(Seq<(Seq<char>, Node)>),
}

pub open spec fn node_of(j: Json) -> Node
    decreases j,
{
    match j {
        Json::Null => Node::Null,
        Json::Bool(b) => Node::Bool(b),
        Json::Unsigned(n) => Node::Unsigned(n),
        Json::Negative(n) => Node::Negative(n),
        Json::Float(t) => Node::Float(t@),
        Json::Text(t) => Node::Text(t@),
        Json::Array(items) => Node::List(
            Seq::new(
                items@.len(),
                |i: int|
                    if 0 <= i < items@.len() {
                        node_of(items@[i])
                    } else {
                        Node::Null
                    },
            ),
        ),
        Json::Object(fields) => Node::Record(
            Seq::new(
                fields@.len(),
                |i: int|
                    if 0 <= i < fields@.len() {
                        (fields@[i].0@, node_of(fields@[i].1))
                    } else {
                        (Seq::empty(), Node::Null)
                    },
            ),
        ),
    }
}

impl View for Json {
    type V = Node;

    open spec fn view(&self) -> Node {
        node_of(*self)
    }
}

/// The abstract content of a vector of JSON values.
pub open spec fn nodes(s: Seq<Json>) -> Seq<Node> {
    Seq::new(s.len(), |i: int| s[i]@)
}

pub broadcast proof fn lemma_array_view(items: Vec<Json>)
    ensures
        #[trigger] Json::Array(items)@ == Node::List(nodes(items@)),
{
    assert(Json::Array(items)@->List_0 =~= nodes(items@));
}

pub broadcast proof fn lemma_object_view(fields: Vec<(String, Json)>)
    ensures
        #[trigger] Json::Object(fields)@ == Node::Record(pairs(fields@)),
{
    assert(Json::Object(fields)@->Record_0 =~= pairs(fields@));
}

impl Node {
    /// The member `k` of an object; nothing for any other value.
    pub open spec fn member(self, k: Seq<char>) -> Option<Node> {
        match self {
            Node::Record(fields) => lookup(fields, k),
            _ => None,
        }
    }

    /// The member `k`, or null where there is none.
    pub open spec fn at(self, k: Seq<char>) -> Node {
        match self.member(k) {
            Some(v) => v,
            None => Node::Null,
        }
    }

    pub open spec fn text(self) -> Option<Seq<char>> {
        match self {
            Node::Text(t) => Some(t),
            _ => None,
        }
    }

    pub open spec fn boolean(self) -> Option<bool> {
        match self {
            Node::Bool(b) => Some(b),
            _ => None,
        }
    }

    /// The value as a non-negative integer of 64 bits.
    pub open spec fn unsigned(self) -> Option<u64> {
        match self {
            Node::Unsigned(n) => Some(n),
            _ => None,
        }
    }

    /// The value as a signed integer of 64 bits.
    pub open spec fn signed(self) -> Option<i64> {
        match self {
            Node::Unsigned(n) => if n <= i64::MAX {
                Some(n as i64)
            } else {
                None
            },
            Node::Negative(n) => Some(n),
            _ => None,
        }
    }
}

impl Json {
    /// The fields of an object.
    pub fn as_object(&self) -> (r: Option<&Vec<(String, Json)>>)
        ensures
            match r {
                Some(f) => self@ == Node::Record(pairs(f@)),
                None => !(self@ is Record),
            },
    {
        match self {
            Json::Object(fields) => {
                proof {
                    lemma_object_view(*fields);
                }
                Some(fields)
            },
            _ => None,
        }
    }

    /// The items of an array.
    pub fn as_array(&self) -> (r: Option<&Vec<Json>>)
        ensures
            match r {
                Some(v) => self@ == Node::List(nodes(v@)),
                None => !(self@ is List),
            },
    {
        match self {
            Json::Array(items) => {
                proof {
                    lemma_array_view(*items);
                }
                Some(items)
            },
            _ => None,
        }
    }

    pub fn as_str(&self) -> (r: Option<&str>)
        ensures
            match r {
                Some(t) => self@.text() == Some(t@),
                None => self@.text() is None,
            },
    {
        match self {
            Json::Text(t) => Some(t.as_str()),
            _ => None,
        }
    }

    pub fn as_bool(&self) -> (r: Option<bool>)
        ensures
            r == self@.boolean(),
    {
        match self {
            Json::Bool(b) => Some(*b),
            _ => None,
        }
    }

    pub fn as_u64(&self) -> (r: Option<u64>)
        ensures
            r == self@.unsigned(),
    {
        match self {
            Json::Unsigned(n) => Some(*n),
            _ => None,
        }
    }

    pub fn as_i64(&self) -> (r: Option<i64>)
        ensures
            r == self@.signed(),
    {
        match self {
            Json::Unsigned(n) => if *n <= i64::MAX as u64 {
                Some(*n as i64)
            } else {
                None
            },
            Json::Negative(n) => Some(*n),
            _ => None,
        }
    }

    /// The member `k` of an object.
    pub fn get(&self, k: &str) -> (r: Option<&Json>)
        ensures
            match r {
                Some(v) => self@.member(k@) == Some(v@),
                None => self@.member(k@) is None,
            },
    {
        match self.as_object() {
            Some(fields) => crate::table::get(fields, k),
            None => None,
        }
    }

    /// The text of the member `k`.
    pub fn text_at(&self, k: &str) -> (r: Option<&str>)
        ensures
            match r {
                Some(t) => self@.at(k@).text() == Some(t@),
                None => self@.at(k@).text() is None,
            },
    {
        match self.get(k) {
            Some(v) => v.as_str(),
            None => None,
        }
    }

    /// Whether the member `k` is the text `t`.
    pub fn has_text(&self, k: &str, t: &str) -> (r: bool)
        ensures
            r == (self@.at(k@) == Node::Text(t@)),
    {
        match self.text_at(k) {
            Some(v) => same(v, t),
            None => false,
        }
    }

    /// Whether the member `k` is the truth value `b`.
    pub fn has_bool(&self, k: &str, b: bool) -> (r: bool)
        ensures
            r == (self@.at(k@) == Node::Bool(b)),
    {
        match self.get(k) {
            Some(v) => match v {
                Json::Bool(c) => *c == b,
                _ => false,
            },
            None => false,
        }
    }

    /// A copy of the member `k`, or null.
    pub fn copy_at(&self, k: &str) -> (r: Json)
        ensures
            r@ == self@.at(k@),
    {
        match self.get(k) {
            Some(v) => v.copy(),
            None => Json::Null,
        }
    }

    /// A value with the same content.
    pub fn copy(&self) -> (r: Json)
        ensures
            r@ == self@,
        decreases self,
    {
        match self {
            Json::Null => Json::Null,
            Json::Bool(b) => Json::Bool(*b),
            Json::Unsigned(n) => Json::Unsigned(*n),
            Json::Negative(n) => Json::Negative(*n),
            Json::Float(t) => Json::Float(t.clone()),
            Json::Text(t) => Json::Text(t.clone()),
            Json::Array(items) => {
                let mut out: Vec<Json> = Vec::new();
                let mut i: usize = 0;
                while i < items.len()
                    invariant
                        i <= items@.len(),
                        *self == Json::Array(*items),
                        nodes(out@) == nodes(items@).take(i as int),
                    decreases items@.len() - i,
                {
                    proof {
                        assert(decreases_to!(*self => self->Array_0));
                        assert(decreases_to!(items@ => items@[i as int]));
                    }
                    let ghost prior = nodes(out@);
                    let c = items[i].copy();
                    out.push(c);
                    proof {
                        assert(nodes(out@) =~= prior.push(c@));
                        assert(nodes(out@) =~= nodes(items@).take(i + 1));
                    }
                    i += 1;
                }
                proof {
                    assert(nodes(items@).take(items@.len() as int) =~= nodes(items@));
                    lemma_array_view(out);
                    lemma_array_view(*items);
                }
                Json::Array(out)
            },
            Json::Object(fields) => {
                let mut out: Vec<(String, Json)> = Vec::new();
                let mut i: usize = 0;
                while i < fields.len()
                    invariant
                        i <= fields@.len(),
                        *self == Json::Object(*fields),
                        pairs(out@) == pairs(fields@).take(i as int),
                    decreases fields@.len() - i,
                {
                    proof {
                        assert(decreases_to!(*self => self->Object_0));
                        assert(decreases_to!(fields@ => fields@[i as int]));
                    }
                    let ghost prior = pairs(out@);
                    let c = fields[i].1.copy();
                    out.push((fields[i].0.clone(), c));
                    proof {
                        assert(pairs(out@) =~= prior.push((fields@[i as int].0@, c@)));
                        assert(pairs(out@) =~= pairs(fields@).take(i + 1));
                    }
                    i += 1;
                }
                proof {
                    assert(pairs(fields@).take(fields@.len() as int) =~= pairs(fields@));
                    lemma_object_view(out);
                    lemma_object_view(*fields);
                }
                Json::Object(out)
            },
        }
    }

    /// Whether two values have the same content, member for member.
    pub(crate) fn identical(&self, other: &Json) -> (r: bool)
        ensures
            r == (self@ == other@),
        decreases self,
    {
        match (self, other) {
            (Json::Null, Json::Null) => true,
            (Json::Bool(a), Json::Bool(b)) => *a == *b,
            (Json::Unsigned(a), Json::Unsigned(b)) => *a == *b,
            (Json::Negative(a), Json::Negative(b)) => *a == *b,
            (Json::Float(a), Json::Float(b)) => same(a.as_str(), b.as_str()),
            (Json::Text(a), Json::Text(b)) => same(a.as_str(), b.as_str()),
            (Json::Array(a), Json::Array(b)) => {
                proof {
                    lemma_array_view(*a);
                    lemma_array_view(*b);
                }
                if a.len() != b.len() {
                    proof {
                        assert(nodes(a@).len() != nodes(b@).len());
                    }
                    return false;
                }
                let mut i: usize = 0;
                while i < a.len()
                    invariant
                        i <= a@.len(),
                        a@.len() == b@.len(),
                        *self == Json::Array(*a),
                        self@ == Node::List(nodes(a@)),
                        other@ == Node::List(nodes(b@)),
                        forall|j: int| 0 <= j < i ==> nodes(a@)[j] == nodes(b@)[j],
                    decreases a@.len() - i,
                {
                    proof {
                        assert(decreases_to!(*self => self->Array_0));
                        assert(decreases_to!(a@ => a@[i as int]));
                    }
                    if !a[i].identical(&b[i]) {
                        proof {
                            assert(nodes(a@)[i as int] != nodes(b@)[i as int]);
                        }
                        return false;
                    }
                    i += 1;
                }
                proof {
                    assert(nodes(a@) =~= nodes(b@));
                }
                true
            },
            (Json::Object(a), Json::Object(b)) => {
                proof {
                    lemma_object_view(*a);
                    lemma_object_view(*b);
                }
                if a.len() != b.len() {
                    proof {
                        assert(pairs(a@).len() != pairs(b@).len());
                    }
                    return false;
                }
                let mut i: usize = 0;
                while i < a.len()
                    invariant
                        i <= a@.len(),
                        a@.len() == b@.len(),
                        *self == Json::Object(*a),
                        self@ == Node::Record(pairs(a@)),
                        other@ == Node::Record(pairs(b@)),
                        forall|j: int| 0 <= j < i ==> pairs(a@)[j] == pairs(b@)[j],
                    decreases a@.len() - i,
                {
                    proof {
                        assert(decreases_to!(*self => self->Object_0));
                        assert(decreases_to!(a@ => a@[i as int]));
                    }
                    if !same(a[i].0.as_str(), b[i].0.as_str()) || !a[i].1.identical(&b[i].1) {
                        proof {
                            assert(pairs(a@)[i as int] != pairs(b@)[i as int]);
                        }
                        return false;
                    }
                    i += 1;
                }
                proof {
                    assert(pairs(a@) =~= pairs(b@));
                }
                true
            },
            _ => false,
        }
    }
}

/// The list of the first `k` entries put into a table one after the other.
pub open spec fn gathered_fields(s: Seq<(Seq<char>, Node)>, k: nat) -> Seq<(Seq<char>, Node)>
    decreases k,
{
    if k == 0 || k > s.len() {
        Seq::empty()
    } else {
        put(gathered_fields(s, (k - 1) as nat), s[k - 1].0, s[k - 1].1)
    }
}

/// The object with the given members, in the order of their keys.
pub open spec fn record(s: Seq<(Seq<char>, Node)>) -> Node {
    Node::Record(gathered_fields(s, s.len()))
}

/// The keys and the contents of a list of members.
pub open spec fn entries(s: Seq<(&'static str, Json)>) -> Seq<(Seq<char>, Node)> {
    Seq::new(s.len(), |i: int| (s[i].0@, s[i].1@))
}

/// The object with the given members.
pub fn object(members: Vec<(&'static str, Json)>) -> (r: Json)
    ensures
        r@ == record(entries(members@)),
{
    let ghost all = entries(members@);
    let count: usize = members.len();
    let mut rest = members;
    let mut out: Vec<(String, Json)> = Vec::new();
    let mut done: usize = 0;
    while done < count
        invariant
            done <= count,
            count == all.len(),
            entries(rest@) == all.skip(done as int),
            pairs(out@) == gathered_fields(all, done as nat),
        decreases count - done,
    {
        proof {
            assert(entries(rest@).len() == rest@.len());
            assert(entries(rest@)[0] == all[done as int]);
        }
        let ghost prior = entries(rest@);
        let (key, value) = rest.remove(0);
        proof {
            assert(entries(rest@) =~= prior.skip(1));
            assert(prior.skip(1) =~= all.skip(done + 1));
        }
        assign(&mut out, owned(key), value);
        done += 1;
    }
    proof {
        lemma_object_view(out);
    }
    Json::Object(out)
}

/// A signed integer as a JSON number.
pub open spec fn signed_node(n: i64) -> Node {
    if n < 0 {
        Node::Negative(n)
    } else {
        Node::Unsigned(n as u64)
    }
}

/// A signed integer as a JSON number.
pub fn signed_json(n: i64) -> (r: Json)
    ensures
        r@ == signed_node(n),
{
    if n < 0 {
        Json::Negative(n)
    } else {
        Json::Unsigned(n as u64)
    }
}

/// A text as a JSON value.
pub fn text_json(t: &str) -> (r: Json)
    ensures
        r@ == Node::Text(t@),
{
    Json::Text(owned(t))
}

/// Copies of all values.
pub fn copy_all(items: &Vec<Json>) -> (r: Vec<Json>)
    ensures
        nodes(r@) == nodes(items@),
{
    let mut out: Vec<Json> = Vec::new();
    let mut i: usize = 0;
    while i < items.len()
        invariant
            i <= items@.len(),
            nodes(out@) == nodes(items@).take(i as int),
        decreases items@.len() - i,
    {
        let ghost prior = nodes(out@);
        let c = items[i].copy();
        out.push(c);
        proof {
            assert(nodes(out@) =~= prior.push(c@));
            assert(nodes(out@) =~= nodes(items@).take(i + 1));
        }
        i += 1;
    }
    proof {
        assert(nodes(items@).take(items@.len() as int) =~= nodes(items@));
    }
    out
}

} // verus!
