//! Project-relative paths of event facts.
use vstd::prelude::*;
use vstd::string::*;
use crate::failure::{Failure, outcome, refuse, refused, views};
use crate::json::{Json, Node};
use crate::text::{chars_of, has_char, same, string_of};

verus! {

pub const MAX_PATH_CHARS: usize = 512;

/// The name of the directory that holds the checkpoint files.
pub const HANDOFF_DIR_NAME: &'static str = "handoff";

/// The paths that the project's path policy calls sensitive, among those that
/// a request or a stored event mentions.
pub struct PathPolicy {
    pub sensitive: Vec<String>,
}

impl View for PathPolicy {
    type V = Seq<Seq<char>>;

    open spec fn view(&self) -> Seq<Seq<char>> {
        views(self.sensitive@)
    }
}

impl PathPolicy {
    /// Whether the policy names the path.
    pub fn sensitive_path(&self, path: &str) -> (r: bool)
        ensures
            r == self@.contains(path@),
    {
        let mut i: usize = 0;
        while i < self.sensitive.len()
            invariant
                i <= self.sensitive@.len(),
                forall|j: int| 0 <= j < i ==> self@[j] != path@,
            decreases self.sensitive@.len() - i,
        {
            if same(self.sensitive[i].as_str(), path) {
                proof {
                    assert(self@[i as int] == path@);
                }
                return true;
            }
            i += 1;
        }
        false
    }
}

pub open spec fn slash_of(c: char) -> char {
    if c == '\\' {
        '/'
    } else {
        c
    }
}

/// The path with backslashes turned into slashes.
pub open spec fn slashed(s: Seq<char>) -> Seq<char> {
    Seq::new(s.len(), |i: int| slash_of(s[i]))
}

/// The position of the first slash, or the length.
pub open spec fn first_slash(s: Seq<char>) -> nat
    decreases s.len(),
{
    if s.len() == 0 || s[0] == '/' {
        0
    } else {
        1 + first_slash(s.drop_first())
    }
}

/// A component that names something: neither empty nor a single dot.
pub open spec fn is_component(s: Seq<char>) -> bool {
    s.len() > 0 && s != seq!['.']
}

/// The naming components between the slashes.
pub open spec fn components(s: Seq<char>) -> Seq<Seq<char>>
    decreases s.len(),
    via components_shrink
{
    let i = first_slash(s) as int;
    let head = s.take(i);
    let own = if is_component(head) {
        seq![head]
    } else {
        Seq::empty()
    };
    if i < s.len() {
        own + components(s.skip(i + 1))
    } else {
        own
    }
}

#[via_fn]
proof fn components_shrink(s: Seq<char>) {
    lemma_first_slash(s);
}

pub proof fn lemma_first_slash(s: Seq<char>)
    ensures
        first_slash(s) <= s.len(),
        first_slash(s) < s.len() ==> s[first_slash(s) as int] == '/',
        forall|j: int| 0 <= j < first_slash(s) ==> s[j] != '/',
    decreases s.len(),
{
    if s.len() > 0 && s[0] != '/' {
        lemma_first_slash(s.drop_first());
        let n = first_slash(s.drop_first());
        assert forall|j: int| 0 <= j < first_slash(s) implies s[j] != '/' by {
            if j > 0 {
                assert(s[j] == s.drop_first()[j - 1]);
            }
        }
        if first_slash(s) < s.len() {
            assert(s.drop_first()[n as int] == s[n as int + 1]);
        }
    }
}

/// A position that is known to be the first slash, or the end.
proof fn lemma_first_slash_at(s: Seq<char>, i: int)
    requires
        0 <= i <= s.len(),
        i < s.len() ==> s[i] == '/',
        forall|j: int| 0 <= j < i ==> s[j] != '/',
    ensures
        first_slash(s) == i,
{
    lemma_first_slash(s);
}

/// The components joined by single slashes.
pub open spec fn join_path(cs: Seq<Seq<char>>) -> Seq<char>
    decreases cs.len(),
{
    if cs.len() == 0 {
        Seq::empty()
    } else if cs.len() == 1 {
        cs[0]
    } else {
        join_path(cs.drop_last()) + seq!['/'] + cs.last()
    }
}

/// Whether the text can be a project-relative path at all.
pub open spec fn is_relative(s: Seq<char>) -> bool {
    &&& 0 < s.len() <= MAX_PATH_CHARS
    &&& !s.contains('\0')
    &&& s[0] != '/'
    &&& s[0] != '\\'
    &&& !s.contains(':')
}

/// Whether the components stay inside the project and outside the checkpoint.
pub open spec fn is_inside(cs: Seq<Seq<char>>) -> bool {
    &&& cs.len() > 0
    &&& !cs.contains(seq!['.', '.'])
    &&& cs[0] != HANDOFF_DIR_NAME@
}

/// The normal form of an event path.
pub open spec fn path_of(n: Node, policy: Seq<Seq<char>>) -> Result<Seq<char>, Failure> {
    match n.text() {
        None => Err(refused("invalid_event_path", "event paths must be strings")),
        Some(s) => if !is_relative(s) {
            Err(refused("invalid_event_path", "event path must be project-relative"))
        } else if !is_inside(components(slashed(s))) || policy.contains(slashed(s)) {
            Err(refused("invalid_event_path", "event path is outside the allowed fact scope"))
        } else {
            Ok(join_path(components(slashed(s))))
        },
    }
}

/// The path with backslashes turned into slashes.
pub fn forward(s: &str) -> (r: String)
    ensures
        r@ == slashed(s@),
{
    let chars = chars_of(s);
    let mut out = String::new();
    let mut i: usize = 0;
    while i < chars.len()
        invariant
            chars@ == s@,
            i <= chars@.len(),
            out@ == slashed(s@).take(i as int),
        decreases chars@.len() - i,
    {
        let c = if chars[i] == '\\' {
            '/'
        } else {
            chars[i]
        };
        out.push(c);
        proof {
            assert(slashed(s@).take(i + 1) =~= slashed(s@).take(i as int).push(c));
        }
        i += 1;
    }
    proof {
        assert(slashed(s@).take(s@.len() as int) =~= slashed(s@));
    }
    out
}

/// The naming components between the slashes.
pub fn split_components(s: &str) -> (r: Vec<String>)
    ensures
        views(r@) == components(s@),
{
    let chars = chars_of(s);
    let mut out: Vec<String> = Vec::new();
    let mut from: usize = 0;
    let mut open = true;
    proof {
        assert(chars@.skip(0) =~= s@);
        assert(views(out@) =~= Seq::<Seq<char>>::empty());
        assert(Seq::<Seq<char>>::empty() + components(s@) =~= components(s@));
    }
    while open
        invariant
            chars@ == s@,
            from <= chars@.len(),
            open ==> views(out@) + components(chars@.skip(from as int)) == components(s@),
            !open ==> views(out@) == components(s@),
        decreases chars@.len() - from + if open {
            1int
        } else {
            0
        },
    {
        let ghost rest = chars@.skip(from as int);
        let mut to: usize = from;
        while to < chars.len() && chars[to] != '/'
            invariant
                from <= to <= chars@.len(),
                forall|j: int| from <= j < to ==> chars@[j] != '/',
            decreases chars@.len() - to,
        {
            to += 1;
        }
        proof {
            assert forall|j: int| 0 <= j < to - from implies rest[j] != '/' by {
                assert(rest[j] == chars@[from + j]);
            }
            if to < chars@.len() {
                assert(rest[to - from] == chars@[to as int]);
            }
            lemma_first_slash_at(rest, to - from);
            assert(rest.take(to - from) =~= chars@.subrange(from as int, to as int));
        }
        let piece = string_of(&chars, from, to);
        let ghost before = views(out@);
        let named = to > from && !(to - from == 1 && chars[from] == '.');
        proof {
            if to - from == 1 {
                assert(piece@ =~= seq![chars@[from as int]]);
                assert(seq!['.'][0] == '.');
                assert(seq![chars@[from as int]][0] == chars@[from as int]);
            } else {
                assert(seq!['.'].len() == 1);
            }
            assert(named == is_component(piece@));
        }
        if named {
            out.push(piece);
            proof {
                assert(views(out@) =~= before + seq![piece@]);
            }
        } else {
            proof {
                assert(views(out@) =~= before + Seq::<Seq<char>>::empty());
            }
        }
        if to < chars.len() {
            proof {
                assert(rest.skip(to - from + 1) =~= chars@.skip(to + 1));
                let own = if is_component(piece@) {
                    seq![piece@]
                } else {
                    Seq::empty()
                };
                assert(components(rest) == own + components(chars@.skip(to + 1)));
                assert(before + (own + components(chars@.skip(to + 1))) =~= (before + own)
                    + components(chars@.skip(to + 1)));
            }
            from = to + 1;
        } else {
            open = false;
        }
    }
    out
}

/// The components joined by single slashes.
pub fn join_components(parts: &Vec<String>) -> (r: String)
    ensures
        r@ == join_path(views(parts@)),
{
    let mut out = String::new();
    let mut i: usize = 0;
    proof {
        assert(views(parts@).take(0) =~= Seq::<Seq<char>>::empty());
        assert(out@ =~= Seq::<char>::empty());
    }
    while i < parts.len()
        invariant
            i <= parts@.len(),
            out@ == join_path(views(parts@).take(i as int)),
        decreases parts@.len() - i,
    {
        proof {
            let prior = views(parts@).take(i as int);
            assert(views(parts@).take(i + 1).drop_last() =~= prior);
            assert(views(parts@).take(i + 1).last() == parts@[i as int]@);
            if i == 0 {
                assert(out@ + parts@[0]@ =~= parts@[0]@);
            }
        }
        if i > 0 {
            out.push('/');
        }
        out.append(parts[i].as_str());
        proof {
            if i > 0 {
                let prior = join_path(views(parts@).take(i as int));
                assert(prior.push('/') =~= prior + seq!['/']);
            }
        }
        i += 1;
    }
    proof {
        assert(views(parts@).take(parts@.len() as int) =~= views(parts@));
    }
    out
}

/// The normal form of an event path.
pub fn normalize_event_path(value: &Json, policy: &PathPolicy) -> (r: Result<String, Failure>)
    ensures
        outcome(r) == path_of(value@, policy@),
{
    let path = match value.as_str() {
        None => {
            return Err(refuse("invalid_event_path", "event paths must be strings"));
        },
        Some(path) => path,
    };
    let chars = chars_of(path);
    if chars.len() == 0 || chars.len() > MAX_PATH_CHARS || has_char(path, '\0') || chars[0] == '/'
        || chars[0] == '\\' || has_char(path, ':') {
        return Err(refuse("invalid_event_path", "event path must be project-relative"));
    }
    let normalized = forward(path);
    let parts = split_components(normalized.as_str());
    let mut inside = parts.len() > 0 && !same(parts[0].as_str(), HANDOFF_DIR_NAME);
    let mut i: usize = 0;
    proof {
        assert(views(parts@).len() == parts@.len());
        if parts@.len() > 0 {
            assert(views(parts@)[0] == parts@[0]@);
        }
    }
    while i < parts.len()
        invariant
            i <= parts@.len(),
            inside == (parts@.len() > 0 && parts@[0]@ != HANDOFF_DIR_NAME@ && forall|j: int|
                0 <= j < i ==> views(parts@)[j] != seq!['.', '.']),
        decreases parts@.len() - i,
    {
        let up = same(parts[i].as_str(), "..");
        proof {
            reveal_strlit("..");
            assert(".."@ =~= seq!['.', '.']);
        }
        if up {
            inside = false;
            proof {
                assert(views(parts@)[i as int] == seq!['.', '.']);
            }
        }
        i += 1;
    }
    proof {
        if views(parts@).contains(seq!['.', '.']) {
            let j = choose|j: int|
                0 <= j < views(parts@).len() && views(parts@)[j] == seq!['.', '.'];
            assert(views(parts@)[j] == seq!['.', '.']);
        }
        assert(inside == is_inside(components(slashed(path@))));
    }
    if !inside || policy.sensitive_path(normalized.as_str()) {
        return Err(
            refuse("invalid_event_path", "event path is outside the allowed fact scope"),
        );
    }
    Ok(join_components(&parts))
}

/// Every component between slashes is free of slashes and names something.
pub proof fn lemma_components_shape(s: Seq<char>)
    ensures
        forall|i: int|
            0 <= i < components(s).len() ==> is_component(#[trigger] components(s)[i])
                && !components(s)[i].contains('/'),
    decreases s.len(),
{
    lemma_first_slash(s);
    let i = first_slash(s) as int;
    let head = s.take(i);
    assert(!head.contains('/')) by {
        if head.contains('/') {
            let j = choose|j: int| 0 <= j < head.len() && head[j] == '/';
            assert(s[j] == '/');
        }
    }
    if i < s.len() {
        lemma_components_shape(s.skip(i + 1));
        let own = if is_component(head) {
            seq![head]
        } else {
            Seq::empty()
        };
        let rest = components(s.skip(i + 1));
        assert forall|k: int| 0 <= k < components(s).len() implies is_component(
            #[trigger] components(s)[k],
        ) && !components(s)[k].contains('/') by {
            if k < own.len() {
                assert(components(s)[k] == head);
            } else {
                assert(components(s)[k] == rest[k - own.len()]);
            }
        }
    }
}

/// The components on both sides of a slash.
proof fn lemma_components_concat(a: Seq<char>, b: Seq<char>)
    ensures
        components(a + seq!['/'] + b) == components(a) + components(b),
    decreases a.len(),
{
    let whole = a + seq!['/'] + b;
    lemma_first_slash(a);
    let i = first_slash(a) as int;
    assert forall|j: int| 0 <= j < i implies whole[j] != '/' by {
        assert(whole[j] == a[j]);
    }
    assert(whole[a.len() as int] == '/');
    if i < a.len() {
        assert(whole[i] == a[i]);
    }
    lemma_first_slash_at(whole, i);
    assert(whole.take(i) =~= a.take(i));
    let head = a.take(i);
    let own = if is_component(head) {
        seq![head]
    } else {
        Seq::empty()
    };
    if i < a.len() {
        lemma_components_concat(a.skip(i + 1), b);
        assert(whole.skip(i + 1) =~= a.skip(i + 1) + seq!['/'] + b);
        assert(own + (components(a.skip(i + 1)) + components(b)) =~= (own + components(
            a.skip(i + 1),
        )) + components(b));
    } else {
        assert(whole.skip(i + 1) =~= b);
    }
}

/// One component alone.
proof fn lemma_components_single(c: Seq<char>)
    requires
        is_component(c),
        !c.contains('/'),
    ensures
        components(c) == seq![c],
{
    assert forall|j: int| 0 <= j < c.len() implies c[j] != '/' by {
        if c[j] == '/' {
            assert(c.contains('/'));
        }
    }
    lemma_first_slash_at(c, c.len() as int);
    assert(c.take(c.len() as int) =~= c);
}

/// Splitting what was joined gives the components back.
pub proof fn lemma_components_of_join(cs: Seq<Seq<char>>)
    requires
        cs.len() > 0,
        forall|i: int|
            0 <= i < cs.len() ==> is_component(#[trigger] cs[i]) && !cs[i].contains('/'),
    ensures
        components(join_path(cs)) == cs,
    decreases cs.len(),
{
    if cs.len() == 1 {
        lemma_components_single(cs[0]);
        assert(seq![cs[0]] =~= cs);
    } else {
        let init = cs.drop_last();
        assert forall|i: int| 0 <= i < init.len() implies is_component(#[trigger] init[i])
            && !init[i].contains('/') by {
            assert(init[i] == cs[i]);
        }
        lemma_components_of_join(init);
        assert(is_component(cs[cs.len() - 1]));
        lemma_components_single(cs.last());
        lemma_components_concat(join_path(init), cs.last());
        assert(init + seq![cs.last()] =~= cs);
    }
}

/// Joining the components puts no character in that was not there, and makes
/// the text no longer.
pub proof fn lemma_join_bounds(s: Seq<char>)
    ensures
        join_path(components(s)).len() <= s.len(),
        forall|i: int|
            0 <= i < join_path(components(s)).len() ==> #[trigger] join_path(components(s))[i] == '/'
                || s.contains(join_path(components(s))[i]),
    decreases s.len(),
{
    lemma_first_slash(s);
    let i = first_slash(s) as int;
    let head = s.take(i);
    if i < s.len() {
        let tail = s.skip(i + 1);
        let rest = components(tail);
        lemma_join_bounds(tail);
        let joined = join_path(components(s));
        if is_component(head) {
            lemma_join_front(head, rest);
            assert(components(s) =~= seq![head] + rest);
            assert forall|k: int| 0 <= k < joined.len() implies #[trigger] joined[k] == '/'
                || s.contains(joined[k]) by {
                if k < head.len() {
                    assert(joined[k] == head[k]);
                    assert(s[k] == head[k]);
                } else if k > head.len() {
                    let m = k - head.len() - 1;
                    assert(joined[k] == join_path(rest)[m]);
                    if join_path(rest)[m] != '/' {
                        let j = choose|j: int| 0 <= j < tail.len() && tail[j] == join_path(rest)[m];
                        assert(s[i + 1 + j] == joined[k]);
                    }
                }
            }
        } else {
            assert(components(s) =~= rest);
            assert forall|k: int| 0 <= k < joined.len() implies #[trigger] joined[k] == '/'
                || s.contains(joined[k]) by {
                if joined[k] != '/' {
                    let j = choose|j: int| 0 <= j < tail.len() && tail[j] == joined[k];
                    assert(s[i + 1 + j] == joined[k]);
                }
            }
        }
    } else {
        assert(head =~= s);
        let joined = join_path(components(s));
        assert forall|k: int| 0 <= k < joined.len() implies #[trigger] joined[k] == '/'
            || s.contains(joined[k]) by {
            assert(joined[k] == s[k]);
        }
    }
}

/// Joining seen from the first component.
proof fn lemma_join_front(head: Seq<char>, rest: Seq<Seq<char>>)
    ensures
        join_path(seq![head] + rest) == if rest.len() == 0 {
            head
        } else {
            head + seq!['/'] + join_path(rest)
        },
    decreases rest.len(),
{
    let all = seq![head] + rest;
    if rest.len() == 0 {
        assert(all[0] == head);
    } else {
        assert(all.drop_last() =~= seq![head] + rest.drop_last());
        lemma_join_front(head, rest.drop_last());
        assert(all.last() == rest.last());
        if rest.len() == 1 {
            assert(join_path(rest) == rest[0]);
        } else {
            assert(head + seq!['/'] + join_path(rest.drop_last()) + seq!['/'] + rest.last() =~= head
                + seq!['/'] + (join_path(rest.drop_last()) + seq!['/'] + rest.last()));
        }
    }
}

/// A normal path that the policy does not name is its own normal form.
pub proof fn lemma_path_stable(n: Node, policy: Seq<Seq<char>>)
    requires
        path_of(n, policy) is Ok,
        !policy.contains(path_of(n, policy)->Ok_0),
    ensures
        path_of(Node::Text(path_of(n, policy)->Ok_0), policy) == path_of(n, policy),
{
    let s = n.text()->0;
    let t = slashed(s);
    let cs = components(t);
    let p = join_path(cs);
    lemma_components_shape(t);
    lemma_components_of_join(cs);
    lemma_join_bounds(t);
    assert forall|i: int| 0 <= i < p.len() implies #[trigger] p[i] != '\\' && p[i] != '\0' && p[i]
        != ':' by {
        if p[i] != '/' {
            let j = choose|j: int| 0 <= j < t.len() && t[j] == p[i];
            assert(t[j] == slash_of(s[j]));
            assert(s.contains(s[j]));
        }
    }
    assert(slashed(p) =~= p);
    lemma_join_front(cs[0], cs.drop_first());
    assert(seq![cs[0]] + cs.drop_first() =~= cs);
    assert(is_component(cs[0]) && !cs[0].contains('/'));
    assert(p[0] == cs[0][0]);
    assert(cs[0].contains(cs[0][0]));
}

} // verus!
