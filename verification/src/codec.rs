//! JSON text: values are printed and read by `serde_json`.
use vstd::prelude::*;
use vstd::utf8::*;
use crate::json::{Json, Node, lemma_array_view, lemma_object_view, nodes, signed_node};
use crate::table::{
    assign, lemma_put_keys, lemma_put_last, lemma_put_lookup, lemma_put_ordered, lookup, ordered,
    pairs, put,
};
use crate::text::{lex_less, owned, same};

verus! {

#[verifier::external_type_specification]
#[verifier::external_body]
pub struct ExValue(serde_json::Value);

#[verifier::external_type_specification]
#[verifier::external_body]
pub struct ExNumber(serde_json::Number);

/// What a `serde_json::Value` holds: members stand in the order in which the
/// value keeps them.
pub uninterp spec fn value_node(v: serde_json::Value) -> Node;

/// What a `serde_json::Number` holds: an integer that fits in 64 bits, or the
/// text of any other finite number.
pub uninterp spec fn number_node(n: serde_json::Number) -> Node;

/// The text that `serde_json::to_string` prints.
pub uninterp spec fn compact_text(n: Node) -> Option<Seq<char>>;

/// The bytes that `serde_json::to_vec_pretty` prints.
pub uninterp spec fn pretty_bytes(n: Node) -> Option<Seq<u8>>;

/// The value that `serde_json::from_slice` reads.
pub uninterp spec fn parsed_value(bytes: Seq<u8>) -> Option<Node>;

/// The text of the finite number that a decimal text stands for.
pub uninterp spec fn float_reading(text: Seq<char>) -> Option<Seq<char>>;

/// One level of a `serde_json::Value`.
pub enum Opened {
    Null,
    Bool(bool),
    Number(serde_json::Number),
    Text(String),
    Array(Vec<serde_json::Value>),
    Object(Vec<(String, serde_json::Value)>),
}

/// What the parts of an opened value hold together.
pub open spec fn opened_node(o: Opened) -> Node {
    match o {
        Opened::Null => Node::Null,
        Opened::Bool(b) => Node::Bool(b),
        Opened::Number(n) => number_node(n),
        Opened::Text(t) => Node::Text(t@),
        Opened::Array(items) => Node::List(
            Seq::new(items@.len(), |i: int| value_node(items@[i])),
        ),
        Opened::Object(fields) => Node::Record(
            Seq::new(fields@.len(), |i: int| (fields@[i].0@, value_node(fields@[i].1))),
        ),
    }
}

/// The position of key `k`, or the length.
pub open spec fn key_index(s: Seq<(Seq<char>, Node)>, k: Seq<char>) -> int
    decreases s.len(),
{
    if s.len() == 0 {
        0
    } else if s[0].0 == k {
        0
    } else {
        1 + key_index(s.drop_first(), k)
    }
}

/// The members that remain where a key occurs more than once: the last value,
/// at the place of the first.
pub open spec fn gathered(s: Seq<(Seq<char>, Node)>) -> Seq<(Seq<char>, Node)>
    decreases s.len(),
{
    if s.len() == 0 {
        Seq::empty()
    } else {
        let prior = gathered(s.drop_last());
        let at = key_index(prior, s.last().0);
        if at < prior.len() {
            prior.update(at, s.last())
        } else {
            prior.push(s.last())
        }
    }
}

/// Takes a `serde_json::Value` apart by its variants.
#[verifier::external_body]
fn open_value(v: serde_json::Value) -> (r: Opened)
    ensures
        opened_node(r) == value_node(v),
{
    match v {
        serde_json::Value::Null => Opened::Null,
        serde_json::Value::Bool(b) => Opened::Bool(b),
        serde_json::Value::Number(n) => Opened::Number(n),
        serde_json::Value::String(s) => Opened::Text(s),
        serde_json::Value::Array(items) => Opened::Array(items),
        serde_json::Value::Object(fields) => Opened::Object(fields.into_iter().collect()),
    }
}

/// Builds a `serde_json::Value` out of its parts. Of members with equal keys
/// the map keeps the last value at the place of the first.
#[verifier::external_body]
fn close_value(o: Opened) -> (r: serde_json::Value)
    ensures
        value_node(r) == match opened_node(o) {
            Node::Record(fields) => Node::Record(gathered(fields)),
            other => other,
        },
{
    match o {
        Opened::Null => serde_json::Value::Null,
        Opened::Bool(b) => serde_json::Value::Bool(b),
        Opened::Number(n) => serde_json::Value::Number(n),
        Opened::Text(s) => serde_json::Value::String(s),
        Opened::Array(items) => serde_json::Value::Array(items),
        Opened::Object(fields) => serde_json::Value::Object(fields.into_iter().collect()),
    }
}

/// `serde_json::Number::as_u64`: the number where it is a non-negative integer.
#[verifier::external_body]
fn number_as_u64(n: &serde_json::Number) -> (r: Option<u64>)
    ensures
        match r {
            Some(u) => number_node(*n) == Node::Unsigned(u),
            None => !(number_node(*n) is Unsigned),
        },
{
    n.as_u64()
}

/// `serde_json::Number::as_i64`: of a number that is no non-negative integer,
/// the negative integer that it is.
#[verifier::external_body]
fn number_as_i64(n: &serde_json::Number) -> (r: Option<i64>)
    ensures
        !(number_node(*n) is Unsigned) ==> match r {
            Some(i) => number_node(*n) == Node::Negative(i) && i < 0,
            None => !(number_node(*n) is Negative),
        },
{
    n.as_i64()
}

/// The `Display` rendering of a `serde_json::Number` that is no integer.
#[verifier::external_body]
fn number_text(n: &serde_json::Number) -> (r: String)
    ensures
        !(number_node(*n) is Unsigned) && !(number_node(*n) is Negative) ==> number_node(*n)
            == Node::Float(r@),
{
    n.to_string()
}

/// `serde_json::Number::from` of a non-negative integer.
#[verifier::external_body]
fn number_of_u64(u: u64) -> (r: serde_json::Number)
    ensures
        number_node(r) == Node::Unsigned(u),
{
    serde_json::Number::from(u)
}

/// `serde_json::Number::from` of a signed integer: a negative one is kept as
/// such, any other as a non-negative integer.
#[verifier::external_body]
fn number_of_i64(i: i64) -> (r: serde_json::Number)
    ensures
        number_node(r) == signed_node(i),
{
    serde_json::Number::from(i)
}

/// `serde_json::Number::from_f64` of the number that a decimal text stands for;
/// nothing where the text is no number or the number is not finite.
#[verifier::external_body]
fn number_of_text(text: &str) -> (r: Option<serde_json::Number>)
    ensures
        match r {
            Some(n) => float_reading(text@) is Some && number_node(n) == Node::Float(
                float_reading(text@)->0,
            ),
            None => float_reading(text@) is None,
        },
{
    text.parse().ok().and_then(serde_json::Number::from_f64)
}

/// `serde_json::to_string` of a value. Reading the text again gives the value
/// back, where it holds integers only, no key twice, and is nested less deeply
/// than the reader's limit.
#[verifier::external_body]
fn print_compact(v: &serde_json::Value) -> (r: Option<String>)
    ensures
        match r {
            Some(t) => compact_text(value_node(*v)) == Some(t@),
            None => compact_text(value_node(*v)) is None,
        },
        r matches Some(t) ==> readable(value_node(*v), 100) ==> parsed_value(encode_utf8(t@))
            == Some(value_node(*v)),
{
    serde_json::to_string(v).ok()
}

/// `serde_json::to_vec_pretty` of a value. Reading the bytes again gives the
/// value back, where it holds integers only, no key twice, and is nested less
/// deeply than the reader's limit.
#[verifier::external_body]
fn print_pretty(v: &serde_json::Value) -> (r: Option<Vec<u8>>)
    ensures
        match r {
            Some(b) => pretty_bytes(value_node(*v)) == Some(b@),
            None => pretty_bytes(value_node(*v)) is None,
        },
        r matches Some(b) ==> readable(value_node(*v), 100) ==> parsed_value(b@) == Some(
            value_node(*v),
        ),
{
    serde_json::to_vec_pretty(v).ok()
}

/// `serde_json::from_slice` into a value.
#[verifier::external_body]
fn parse_value(bytes: &[u8]) -> (r: Option<serde_json::Value>)
    ensures
        match r {
            Some(v) => parsed_value(bytes@) == Some(value_node(v)),
            None => parsed_value(bytes@) is None,
        },
{
    serde_json::from_slice(bytes).ok()
}

/// Whether no key occurs twice.
pub open spec fn distinct_keys(s: Seq<(Seq<char>, Node)>) -> bool {
    forall|i: int, j: int| 0 <= i < j < s.len() ==> #[trigger] s[i].0 != #[trigger] s[j].0
}

/// A value of integers, texts and truth values without repeated keys, nested
/// at most `depth` levels deep.
pub open spec fn readable(n: Node, depth: nat) -> bool
    decreases depth,
{
    match n {
        Node::Float(_) => false,
        Node::Negative(i) => i < 0,
        Node::List(items) => depth > 0 && forall|i: int|
            0 <= i < items.len() ==> readable(#[trigger] items[i], (depth - 1) as nat),
        Node::Record(fields) => depth > 0 && distinct_keys(fields) && forall|i: int|
            0 <= i < fields.len() ==> readable((#[trigger] fields[i]).1, (depth - 1) as nat),
        _ => true,
    }
}

/// A value as a reader hands it out: the members of every object in the order
/// of their keys, and no negative number that is not negative.
pub open spec fn tidy(n: Node) -> bool
    decreases n,
{
    match n {
        Node::Negative(i) => i < 0,
        Node::List(items) => forall|i: int| 0 <= i < items.len() ==> tidy(#[trigger] items[i]),
        Node::Record(fields) => ordered(fields) && forall|i: int|
            0 <= i < fields.len() ==> tidy((#[trigger] fields[i]).1),
        _ => true,
    }
}

/// The value as it is kept for printing: repeated keys gathered, numbers given
/// by their text read; nothing where such a text is no finite number.
pub open spec fn settled(n: Node) -> Option<Node>
    decreases n, 0nat,
{
    match n {
        Node::Negative(i) => Some(signed_node(i)),
        Node::Float(t) => match float_reading(t) {
            Some(u) => Some(Node::Float(u)),
            None => None,
        },
        Node::List(items) => match settled_items(items, items.len()) {
            Some(s) => Some(Node::List(s)),
            None => None,
        },
        Node::Record(fields) => match settled_fields(fields, fields.len()) {
            Some(s) => Some(Node::Record(gathered(s))),
            None => None,
        },
        _ => Some(n),
    }
}

/// The first `k` items, settled.
pub open spec fn settled_items(items: Seq<Node>, k: nat) -> Option<Seq<Node>>
    decreases items, k,
{
    if k == 0 || k > items.len() {
        Some(Seq::empty())
    } else {
        match (settled_items(items, (k - 1) as nat), settled(items[k - 1])) {
            (Some(s), Some(v)) => Some(s.push(v)),
            _ => None,
        }
    }
}

/// The first `k` members, settled.
pub open spec fn settled_fields(fields: Seq<(Seq<char>, Node)>, k: nat) -> Option<
    Seq<(Seq<char>, Node)>,
>
    decreases fields, k,
{
    if k == 0 || k > fields.len() {
        Some(Seq::empty())
    } else {
        match (settled_fields(fields, (k - 1) as nat), settled(fields[k - 1].1)) {
            (Some(s), Some(v)) => Some(s.push((fields[k - 1].0, v))),
            _ => None,
        }
    }
}

/// The value with the members of every object in the order of their keys.
pub open spec fn arranged(n: Node) -> Node
    decreases n, 0nat,
{
    match n {
        Node::List(items) => Node::List(arranged_items(items, items.len())),
        Node::Record(fields) => Node::Record(arranged_fields(fields, fields.len())),
        _ => n,
    }
}

/// The first `k` items, arranged.
pub open spec fn arranged_items(items: Seq<Node>, k: nat) -> Seq<Node>
    decreases items, k,
{
    if k == 0 || k > items.len() {
        Seq::empty()
    } else {
        arranged_items(items, (k - 1) as nat).push(arranged(items[k - 1]))
    }
}

/// The first `k` members, arranged and put in order.
pub open spec fn arranged_fields(fields: Seq<(Seq<char>, Node)>, k: nat) -> Seq<(Seq<char>, Node)>
    decreases fields, k,
{
    if k == 0 || k > fields.len() {
        Seq::empty()
    } else {
        put(
            arranged_fields(fields, (k - 1) as nat),
            fields[k - 1].0,
            arranged(fields[k - 1].1),
        )
    }
}

/// The text of the number that a decimal text stands for; there is one zero.
pub open spec fn magnitude(t: Seq<char>) -> Seq<char> {
    let u = match float_reading(t) {
        Some(u) => u,
        None => t,
    };
    if u == "-0.0"@ {
        "0.0"@
    } else {
        u
    }
}

/// What a value is apart from the order of its members and the spelling of its
/// numbers.
pub open spec fn essence(n: Node) -> Node
    decreases n, 0nat,
{
    match n {
        Node::Float(t) => Node::Float(magnitude(t)),
        Node::List(items) => Node::List(essence_items(items, items.len())),
        Node::Record(fields) => Node::Record(essence_fields(fields, fields.len())),
        _ => n,
    }
}

/// The essence of the first `k` items.
pub open spec fn essence_items(items: Seq<Node>, k: nat) -> Seq<Node>
    decreases items, k,
{
    if k == 0 || k > items.len() {
        Seq::empty()
    } else {
        essence_items(items, (k - 1) as nat).push(essence(items[k - 1]))
    }
}

/// The essence of the last `k` members, in the order of their keys; of members
/// with equal keys the first counts.
pub open spec fn essence_fields(fields: Seq<(Seq<char>, Node)>, k: nat) -> Seq<(Seq<char>, Node)>
    decreases fields, k,
{
    if k == 0 || k > fields.len() {
        Seq::empty()
    } else {
        put(
            essence_fields(fields, (k - 1) as nat),
            fields[fields.len() - k].0,
            essence(fields[fields.len() - k].1),
        )
    }
}

/// Whether two values are equal: the order of members does not matter.
pub open spec fn alike(a: Node, b: Node) -> bool {
    essence(a) == essence(b)
}

/// The compact text of a value.
pub open spec fn json_text(n: Node) -> Option<Seq<char>> {
    match settled(n) {
        Some(m) => compact_text(m),
        None => None,
    }
}

/// The indented text of a value, as bytes.
pub open spec fn json_pretty(n: Node) -> Option<Seq<u8>> {
    match settled(n) {
        Some(m) => pretty_bytes(m),
        None => None,
    }
}

/// The value that a text stands for, members in the order of their keys.
pub open spec fn json_reading(bytes: Seq<u8>) -> Option<Node> {
    match parsed_value(bytes) {
        Some(n) => Some(arranged(n)),
        None => None,
    }
}

fn build(j: &Json) -> (r: Option<serde_json::Value>)
    ensures
        match r {
            Some(v) => settled(j@) == Some(value_node(v)),
            None => settled(j@) is None,
        },
    decreases j,
{
    match j {
        Json::Null => Some(close_value(Opened::Null)),
        Json::Bool(b) => Some(close_value(Opened::Bool(*b))),
        Json::Unsigned(n) => Some(close_value(Opened::Number(number_of_u64(*n)))),
        Json::Negative(n) => Some(close_value(Opened::Number(number_of_i64(*n)))),
        Json::Float(t) => match number_of_text(t.as_str()) {
            Some(n) => Some(close_value(Opened::Number(n))),
            None => None,
        },
        Json::Text(t) => Some(close_value(Opened::Text(t.clone()))),
        Json::Array(items) => {
            proof {
                lemma_array_view(*items);
            }
            let mut out: Vec<serde_json::Value> = Vec::new();
            let mut i: usize = 0;
            while i < items.len()
                invariant
                    i <= items@.len(),
                    *j == Json::Array(*items),
                    j@ == Node::List(nodes(items@)),
                    settled_items(nodes(items@), i as nat) == Some(
                        Seq::new(out@.len(), |k: int| value_node(out@[k])),
                    ),
                decreases items@.len() - i,
            {
                proof {
                    assert(decreases_to!(*j => j->Array_0));
                    assert(decreases_to!(items@ => items@[i as int]));
                }
                let ghost prior = Seq::new(out@.len(), |k: int| value_node(out@[k]));
                match build(&items[i]) {
                    Some(v) => {
                        out.push(v);
                        proof {
                            assert(Seq::new(out@.len(), |k: int| value_node(out@[k]))
                                =~= prior.push(value_node(v)));
                        }
                    },
                    None => {
                        proof {
                            lemma_settled_items_fail(nodes(items@), (i + 1) as nat);
                        }
                        return None;
                    },
                }
                i += 1;
            }
            Some(close_value(Opened::Array(out)))
        },
        Json::Object(fields) => {
            proof {
                lemma_object_view(*fields);
            }
            let mut out: Vec<(String, serde_json::Value)> = Vec::new();
            let mut i: usize = 0;
            while i < fields.len()
                invariant
                    i <= fields@.len(),
                    *j == Json::Object(*fields),
                    j@ == Node::Record(pairs(fields@)),
                    settled_fields(pairs(fields@), i as nat) == Some(
                        Seq::new(out@.len(), |k: int| (out@[k].0@, value_node(out@[k].1))),
                    ),
                decreases fields@.len() - i,
            {
                proof {
                    assert(decreases_to!(*j => j->Object_0));
                    assert(decreases_to!(fields@ => fields@[i as int]));
                }
                let ghost prior = Seq::new(
                    out@.len(),
                    |k: int| (out@[k].0@, value_node(out@[k].1)),
                );
                match build(&fields[i].1) {
                    Some(v) => {
                        out.push((fields[i].0.clone(), v));
                        proof {
                            assert(Seq::new(
                                out@.len(),
                                |k: int| (out@[k].0@, value_node(out@[k].1)),
                            ) =~= prior.push((fields@[i as int].0@, value_node(v))));
                        }
                    },
                    None => {
                        proof {
                            lemma_settled_fields_fail(pairs(fields@), (i + 1) as nat);
                        }
                        return None;
                    },
                }
                i += 1;
            }
            Some(close_value(Opened::Object(out)))
        },
    }
}

proof fn lemma_settled_items_fail(items: Seq<Node>, k: nat)
    requires
        k <= items.len(),
        settled_items(items, k) is None,
    ensures
        settled_items(items, items.len()) is None,
    decreases items.len() - k,
{
    if k < items.len() {
        lemma_settled_items_fail(items, k + 1);
    }
}

proof fn lemma_settled_fields_fail(fields: Seq<(Seq<char>, Node)>, k: nat)
    requires
        k <= fields.len(),
        settled_fields(fields, k) is None,
    ensures
        settled_fields(fields, fields.len()) is None,
    decreases fields.len() - k,
{
    if k < fields.len() {
        lemma_settled_fields_fail(fields, k + 1);
    }
}

fn dismantle(v: serde_json::Value) -> (r: Json)
    ensures
        r@ == arranged(value_node(v)),
        tidy(r@),
    decreases value_node(v),
{
    let ghost whole = value_node(v);
    match open_value(v) {
        Opened::Null => Json::Null,
        Opened::Bool(b) => Json::Bool(b),
        Opened::Number(n) => match number_as_u64(&n) {
            Some(u) => Json::Unsigned(u),
            None => match number_as_i64(&n) {
                Some(i) => Json::Negative(i),
                None => Json::Float(number_text(&n)),
            },
        },
        Opened::Text(t) => Json::Text(t),
        Opened::Array(items) => {
            let ghost content = Seq::new(items@.len(), |k: int| value_node(items@[k]));
            let mut rest = items;
            let mut out: Vec<Json> = Vec::new();
            let count: usize = rest.len();
            while out.len() < count
                invariant
                    whole == value_node(v),
                    whole == Node::List(content),
                    content.len() == count,
                    out@.len() <= count,
                    rest@.len() == count - out@.len(),
                    forall|k: int|
                        0 <= k < rest@.len() ==> value_node(#[trigger] rest@[k]) == content[out@.len()
                            + k],
                    nodes(out@) == arranged_items(content, out@.len()),
                    forall|k: int| 0 <= k < out@.len() ==> tidy(#[trigger] nodes(out@)[k]),
                decreases count - out@.len(),
            {
                let ghost done = nodes(out@);
                let item = rest.remove(0);
                proof {
                    assert(value_node(item) == content[out@.len() as int]);
                    assert(decreases_to!(whole => whole->List_0));
                    assert(decreases_to!(content => content[out@.len() as int]));
                }
                let j = dismantle(item);
                out.push(j);
                proof {
                    assert(nodes(out@) =~= done.push(j@));
                    assert forall|k: int| 0 <= k < out@.len() implies tidy(
                        #[trigger] nodes(out@)[k],
                    ) by {
                        assert(k < done.len() ==> nodes(out@)[k] == done[k]);
                    }
                }
            }
            proof {
                lemma_array_view(out);
            }
            Json::Array(out)
        },
        Opened::Object(fields) => {
            let ghost content = Seq::new(
                fields@.len(),
                |k: int| (fields@[k].0@, value_node(fields@[k].1)),
            );
            let mut rest = fields;
            let mut out: Vec<(String, Json)> = Vec::new();
            let count: usize = rest.len();
            let mut done: usize = 0;
            proof {
                assert(pairs(out@) =~= Seq::<(Seq<char>, Node)>::empty());
                assert(tidy(Node::Record(Seq::<(Seq<char>, Node)>::empty())));
            }
            while done < count
                invariant
                    whole == value_node(v),
                    whole == Node::Record(content),
                    content.len() == count,
                    done <= count,
                    rest@.len() == count - done,
                    forall|k: int|
                        0 <= k < rest@.len() ==> ((#[trigger] rest@[k]).0@, value_node(rest@[k].1))
                            == content[done + k],
                    pairs(out@) == arranged_fields(content, done as nat),
                    tidy(Node::Record(pairs(out@))),
                decreases count - done,
            {
                let (key, value) = rest.remove(0);
                proof {
                    assert((key@, value_node(value)) == content[done as int]);
                    assert(decreases_to!(whole => whole->Record_0));
                    assert(decreases_to!(content => content[done as int]));
                    assert(decreases_to!(content[done as int] => content[done as int].1));
                }
                let j = dismantle(value);
                let ghost prior = pairs(out@);
                assign(&mut out, key, j);
                proof {
                    lemma_put_tidy(prior, key@, j@);
                }
                done += 1;
            }
            proof {
                lemma_object_view(out);
            }
            Json::Object(out)
        },
    }
}

/// Putting a tidy value keeps a table tidy.
pub proof fn lemma_put_tidy(s: Seq<(Seq<char>, Node)>, k: Seq<char>, v: Node)
    requires
        tidy(Node::Record(s)),
        tidy(v),
    ensures
        tidy(Node::Record(put(s, k, v))),
{
    lemma_put_ordered(s, k, v);
    let t = put(s, k, v);
    assert forall|i: int| 0 <= i < t.len() implies tidy((#[trigger] t[i]).1) by {
        lemma_put_keys(s, k, v, i);
        if t[i] != (k, v) {
            let j = choose|j: int| 0 <= j < s.len() && #[trigger] s[j] == t[i];
            assert(tidy(s[j].1));
        }
    }
}

/// A tidy value is already arranged.
pub proof fn lemma_tidy_arranged(n: Node)
    requires
        tidy(n),
    ensures
        arranged(n) == n,
    decreases n, 0nat,
{
    match n {
        Node::List(items) => {
            lemma_tidy_items(items, items.len());
            assert(items.take(items.len() as int) =~= items);
        },
        Node::Record(fields) => {
            lemma_tidy_fields(fields, fields.len());
            assert(fields.take(fields.len() as int) =~= fields);
        },
        _ => {},
    }
}

proof fn lemma_tidy_items(items: Seq<Node>, k: nat)
    requires
        k <= items.len(),
        forall|i: int| 0 <= i < items.len() ==> tidy(#[trigger] items[i]),
    ensures
        arranged_items(items, k) == items.take(k as int),
    decreases items, k,
{
    if k > 0 {
        lemma_tidy_items(items, (k - 1) as nat);
        assert(tidy(items[k - 1]));
        lemma_tidy_arranged(items[k - 1]);
        assert(items.take(k - 1).push(items[k - 1]) =~= items.take(k as int));
    } else {
        assert(items.take(0) =~= Seq::empty());
    }
}

proof fn lemma_tidy_fields(fields: Seq<(Seq<char>, Node)>, k: nat)
    requires
        k <= fields.len(),
        ordered(fields),
        forall|i: int| 0 <= i < fields.len() ==> tidy((#[trigger] fields[i]).1),
    ensures
        arranged_fields(fields, k) == fields.take(k as int),
    decreases fields, k,
{
    if k > 0 {
        lemma_tidy_fields(fields, (k - 1) as nat);
        assert(tidy(fields[k - 1].1));
        lemma_tidy_arranged(fields[k - 1].1);
        let prior = fields.take(k - 1);
        assert forall|i: int| 0 <= i < prior.len() implies lex_less(
            #[trigger] prior[i].0,
            fields[k - 1].0,
        ) by {
            assert(prior[i] == fields[i]);
        }
        lemma_put_last(prior, fields[k - 1].0, fields[k - 1].1);
        assert(prior.push(fields[k - 1]) =~= fields.take(k as int));
    } else {
        assert(fields.take(0) =~= Seq::empty());
    }
}

/// The value with the members of every object in the order of their keys.
pub fn arrange(j: &Json) -> (r: Json)
    ensures
        r@ == arranged(j@),
    decreases j,
{
    match j {
        Json::Array(items) => {
            proof {
                lemma_array_view(*items);
            }
            let mut out: Vec<Json> = Vec::new();
            while out.len() < items.len()
                invariant
                    out@.len() <= items@.len(),
                    *j == Json::Array(*items),
                    nodes(out@) == arranged_items(nodes(items@), out@.len()),
                decreases items@.len() - out@.len(),
            {
                let ghost done = nodes(out@);
                proof {
                    assert(decreases_to!(*j => j->Array_0));
                    assert(decreases_to!(items@ => items@[out@.len() as int]));
                }
                let next = arrange(&items[out.len()]);
                out.push(next);
                proof {
                    assert(nodes(out@) =~= done.push(next@));
                }
            }
            proof {
                lemma_array_view(out);
            }
            Json::Array(out)
        },
        Json::Object(fields) => {
            proof {
                lemma_object_view(*fields);
            }
            let mut out: Vec<(String, Json)> = Vec::new();
            let mut i: usize = 0;
            proof {
                assert(pairs(out@) =~= Seq::<(Seq<char>, Node)>::empty());
            }
            while i < fields.len()
                invariant
                    i <= fields@.len(),
                    *j == Json::Object(*fields),
                    pairs(out@) == arranged_fields(pairs(fields@), i as nat),
                decreases fields@.len() - i,
            {
                proof {
                    assert(decreases_to!(*j => j->Object_0));
                    assert(decreases_to!(fields@ => fields@[i as int]));
                }
                let next = arrange(&fields[i].1);
                assign(&mut out, fields[i].0.clone(), next);
                i += 1;
            }
            proof {
                lemma_object_view(out);
            }
            Json::Object(out)
        },
        _ => j.copy(),
    }
}

fn number_spelled(t: &str) -> (r: String)
    ensures
        r@ == magnitude(t@),
{
    let u = match number_of_text(t) {
        Some(n) => number_text(&n),
        None => owned(t),
    };
    if same(u.as_str(), "-0.0") {
        owned("0.0")
    } else {
        u
    }
}

fn distill(j: &Json) -> (r: Json)
    ensures
        r@ == essence(j@),
    decreases j,
{
    match j {
        Json::Float(t) => Json::Float(number_spelled(t.as_str())),
        Json::Array(items) => {
            proof {
                lemma_array_view(*items);
            }
            let mut out: Vec<Json> = Vec::new();
            while out.len() < items.len()
                invariant
                    out@.len() <= items@.len(),
                    *j == Json::Array(*items),
                    nodes(out@) == essence_items(nodes(items@), out@.len()),
                decreases items@.len() - out@.len(),
            {
                let ghost done = nodes(out@);
                proof {
                    assert(decreases_to!(*j => j->Array_0));
                    assert(decreases_to!(items@ => items@[out@.len() as int]));
                }
                let next = distill(&items[out.len()]);
                out.push(next);
                proof {
                    assert(nodes(out@) =~= done.push(next@));
                }
            }
            proof {
                lemma_array_view(out);
            }
            Json::Array(out)
        },
        Json::Object(fields) => {
            proof {
                lemma_object_view(*fields);
            }
            let mut out: Vec<(String, Json)> = Vec::new();
            let mut i: usize = fields.len();
            proof {
                assert(pairs(out@) =~= Seq::<(Seq<char>, Node)>::empty());
            }
            while i > 0
                invariant
                    i <= fields@.len(),
                    *j == Json::Object(*fields),
                    pairs(out@) == essence_fields(pairs(fields@), (fields@.len() - i) as nat),
                decreases i,
            {
                i -= 1;
                proof {
                    assert(decreases_to!(*j => j->Object_0));
                    assert(decreases_to!(fields@ => fields@[i as int]));
                }
                let next = distill(&fields[i].1);
                assign(&mut out, fields[i].0.clone(), next);
            }
            proof {
                lemma_object_view(out);
            }
            Json::Object(out)
        },
        _ => j.copy(),
    }
}

impl Json {
    /// Whether two values are equal: the order of members does not matter.
    pub fn equals(&self, other: &Json) -> (r: bool)
        ensures
            r == alike(self@, other@),
    {
        distill(self).identical(&distill(other))
    }
}

/// A member has in the essence of an object the essence of its value.
pub proof fn lemma_essence_lookup(fields: Seq<(Seq<char>, Node)>, k: nat, q: Seq<char>)
    requires
        k <= fields.len(),
    ensures
        lookup(essence_fields(fields, k), q) == (match lookup(
            fields.skip(fields.len() - k),
            q,
        ) {
            Some(v) => Some(essence(v)),
            None => None,
        }),
    decreases k,
{
    let rest = fields.skip(fields.len() - k);
    if k > 0 {
        lemma_essence_lookup(fields, (k - 1) as nat, q);
        lemma_put_lookup(
            essence_fields(fields, (k - 1) as nat),
            fields[fields.len() - k].0,
            essence(fields[fields.len() - k].1),
            q,
        );
        assert(rest.drop_first() =~= fields.skip(fields.len() - (k - 1)));
        assert(rest[0] == fields[fields.len() - k]);
    }
}

/// Equal objects have equal members.
pub proof fn lemma_alike_member(a: Seq<(Seq<char>, Node)>, b: Seq<(Seq<char>, Node)>, q: Seq<char>)
    requires
        alike(Node::Record(a), Node::Record(b)),
    ensures
        match (lookup(a, q), lookup(b, q)) {
            (Some(x), Some(y)) => alike(x, y),
            (None, None) => true,
            _ => false,
        },
{
    lemma_essence_lookup(a, a.len(), q);
    lemma_essence_lookup(b, b.len(), q);
    assert(a.skip(0) =~= a);
    assert(b.skip(0) =~= b);
}

/// The compact text of a value.
pub fn to_text(j: &Json) -> (r: Option<String>)
    ensures
        match r {
            Some(t) => json_text(j@) == Some(t@),
            None => json_text(j@) is None,
        },
        r matches Some(t) ==> readable(j@, 100) ==> parsed_value(encode_utf8(t@)) == Some(j@),
{
    match build(j) {
        Some(v) => {
            proof {
                if readable(j@, 100) {
                    lemma_readable_settled(j@, 100);
                }
            }
            print_compact(&v)
        },
        None => None,
    }
}

/// The indented text of a value, as bytes.
pub fn to_pretty(j: &Json) -> (r: Option<Vec<u8>>)
    ensures
        match r {
            Some(b) => json_pretty(j@) == Some(b@),
            None => json_pretty(j@) is None,
        },
        r matches Some(b) ==> readable(j@, 100) ==> parsed_value(b@) == Some(j@),
{
    match build(j) {
        Some(v) => {
            proof {
                if readable(j@, 100) {
                    lemma_readable_settled(j@, 100);
                }
            }
            print_pretty(&v)
        },
        None => None,
    }
}

/// The value that a text stands for.
pub fn from_bytes(bytes: &[u8]) -> (r: Option<Json>)
    ensures
        match r {
            Some(j) => json_reading(bytes@) == Some(j@) && tidy(j@),
            None => json_reading(bytes@) is None,
        },
{
    match parse_value(bytes) {
        Some(v) => Some(dismantle(v)),
        None => None,
    }
}

/// The plain form of a `serde_json::Value`.
pub fn from_value(v: serde_json::Value) -> (r: Json)
    ensures
        r@ == arranged(value_node(v)),
        tidy(r@),
{
    dismantle(v)
}

/// The `serde_json::Value` of a plain form; nothing where the text of a number
/// is no finite number.
pub fn to_value(j: &Json) -> (r: Option<serde_json::Value>)
    ensures
        match r {
            Some(v) => settled(j@) == Some(value_node(v)),
            None => settled(j@) is None,
        },
{
    build(j)
}

proof fn lemma_gathered_distinct(s: Seq<(Seq<char>, Node)>)
    requires
        distinct_keys(s),
    ensures
        gathered(s) == s,
    decreases s.len(),
{
    if s.len() > 0 {
        let init = s.drop_last();
        assert(distinct_keys(init)) by {
            assert forall|i: int, j: int| 0 <= i < j < init.len() implies #[trigger] init[i].0
                != #[trigger] init[j].0 by {
                assert(s[i].0 != s[j].0);
            }
        }
        lemma_gathered_distinct(init);
        assert forall|i: int| 0 <= i < init.len() implies #[trigger] init[i].0 != s.last().0 by {
            assert(s[i].0 != s[s.len() - 1].0);
        }
        lemma_key_index_absent(init, s.last().0);
        assert(init.push(s.last()) =~= s);
    } else {
        assert(gathered(s) =~= s);
    }
}

proof fn lemma_key_index_absent(s: Seq<(Seq<char>, Node)>, k: Seq<char>)
    requires
        forall|i: int| 0 <= i < s.len() ==> #[trigger] s[i].0 != k,
    ensures
        key_index(s, k) == s.len(),
    decreases s.len(),
{
    if s.len() > 0 {
        assert(s[0].0 != k);
        assert forall|i: int| 0 <= i < s.drop_first().len() implies #[trigger] s.drop_first()[i].0
            != k by {
            assert(s[i + 1].0 != k);
        }
        lemma_key_index_absent(s.drop_first(), k);
    }
}

/// A readable value is printed as it is.
pub proof fn lemma_readable_settled(n: Node, depth: nat)
    requires
        readable(n, depth),
    ensures
        settled(n) == Some(n),
    decreases depth, 0nat,
{
    match n {
        Node::List(items) => {
            lemma_readable_settled_items(items, items.len(), (depth - 1) as nat);
            assert(items.take(items.len() as int) =~= items);
        },
        Node::Record(fields) => {
            lemma_readable_settled_fields(fields, fields.len(), (depth - 1) as nat);
            assert(fields.take(fields.len() as int) =~= fields);
            lemma_gathered_distinct(fields);
        },
        _ => {},
    }
}

proof fn lemma_readable_settled_items(items: Seq<Node>, k: nat, depth: nat)
    requires
        k <= items.len(),
        forall|i: int| 0 <= i < items.len() ==> readable(#[trigger] items[i], depth),
    ensures
        settled_items(items, k) == Some(items.take(k as int)),
    decreases depth, k + 1,
{
    if k > 0 {
        lemma_readable_settled_items(items, (k - 1) as nat, depth);
        assert(readable(items[k - 1], depth));
        lemma_readable_settled(items[k - 1], depth);
        assert(items.take(k - 1).push(items[k - 1]) =~= items.take(k as int));
    } else {
        assert(items.take(0) =~= Seq::empty());
    }
}

proof fn lemma_readable_settled_fields(fields: Seq<(Seq<char>, Node)>, k: nat, depth: nat)
    requires
        k <= fields.len(),
        forall|i: int| 0 <= i < fields.len() ==> readable((#[trigger] fields[i]).1, depth),
    ensures
        settled_fields(fields, k) == Some(fields.take(k as int)),
    decreases depth, k + 1,
{
    if k > 0 {
        lemma_readable_settled_fields(fields, (k - 1) as nat, depth);
        assert(readable(fields[k - 1].1, depth));
        lemma_readable_settled(fields[k - 1].1, depth);
        assert(fields.take(k - 1).push(fields[k - 1]) =~= fields.take(k as int));
    } else {
        assert(fields.take(0) =~= Seq::empty());
    }
}

} // verus!
