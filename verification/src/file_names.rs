//! Different files have different names.
use vstd::prelude::*;
use vstd::string::*;
use crate::anchor::{ANCHOR_FILE_NAME};
use crate::checks::{INDEX_FILE_NAME, archive_name, is_digest, markdown_name, task_name};
use crate::event::{is_slug};
use crate::text::{is_digit, is_lower};

verus! {

/// A task id holds no dot.
proof fn lemma_slug_without_dot(id: Seq<char>)
    requires
        is_slug(id),
    ensures
        !id.contains('.'),
{
    if id.contains('.') {
        let i = choose|i: int| 0 <= i < id.len() && id[i] == '.';
        assert(is_lower(id[i]) || is_digit(id[i]) || id[i] == '-' || id[i] == '_');
    }
}

proof fn lemma_literals()
    ensures
        ".json"@.len() == 5,
        ".json"@.last() == 'n',
        ".json"@[0] == '.',
        ".md"@.len() == 3,
        ".md"@.last() == 'd',
        ".events-"@.len() == 8,
        ".events-"@[0] == '.',
        INDEX_FILE_NAME@ == task_name("index"@),
        INDEX_FILE_NAME@.len() == 10,
        INDEX_FILE_NAME@.last() == 'n',
        ANCHOR_FILE_NAME@[0] == '.',
        ANCHOR_FILE_NAME@.len() == 19,
{
    reveal_strlit(".json");
    reveal_strlit(".md");
    reveal_strlit(".events-");
    reveal_strlit("index.json");
    reveal_strlit("index");
    reveal_strlit(".volume-anchor.json");
    assert(INDEX_FILE_NAME@ =~= "index"@ + ".json"@);
}

/// The files of one task, and the index, have different names.
pub proof fn lemma_own_names(id: Seq<char>, sha256: Seq<char>)
    requires
        id.len() > 0,
    ensures
        task_name(id) != markdown_name(id),
        task_name(id) != archive_name(id, sha256),
        markdown_name(id) != archive_name(id, sha256),
        markdown_name(id) != INDEX_FILE_NAME@,
        archive_name(id, sha256) != INDEX_FILE_NAME@,
        id != "index"@ ==> task_name(id) != INDEX_FILE_NAME@,
{
    lemma_literals();
    let t = task_name(id);
    let m = markdown_name(id);
    let a = archive_name(id, sha256);
    assert(t.len() == id.len() + 5);
    assert(m.len() == id.len() + 3);
    assert(a.len() == id.len() + sha256.len() + 13);
    assert(m.last() == 'd');
    assert(a.last() == 'n');
    if t == INDEX_FILE_NAME@ {
        lemma_task_name_injective(id, "index"@);
    }
}

pub proof fn lemma_task_name_injective(a: Seq<char>, b: Seq<char>)
    requires
        task_name(a) == task_name(b),
    ensures
        a == b,
{
    let n = task_name(a).len() - ".json"@.len();
    assert(task_name(a).take(n) =~= a);
    assert(task_name(b).take(n) =~= b);
}

pub proof fn lemma_markdown_name_injective(a: Seq<char>, b: Seq<char>)
    requires
        markdown_name(a) == markdown_name(b),
    ensures
        a == b,
{
    let n = markdown_name(a).len() - ".md"@.len();
    assert(markdown_name(a).take(n) =~= a);
    assert(markdown_name(b).take(n) =~= b);
}

pub proof fn lemma_archive_name_injective(
    a: Seq<char>,
    s: Seq<char>,
    b: Seq<char>,
    t: Seq<char>,
)
    requires
        is_digest(s),
        is_digest(t),
        archive_name(a, s) == archive_name(b, t),
    ensures
        a == b,
        s == t,
{
    lemma_literals();
    let x = archive_name(a, s);
    let n = x.len() - 77;
    assert(archive_name(a, s).take(n) =~= a);
    assert(archive_name(b, t).take(n) =~= b);
    assert(archive_name(a, s).subrange(n + 8, n + 72) =~= s);
    assert(archive_name(b, t).subrange(n + 8, n + 72) =~= t);
}

/// The files of different tasks have different names.
pub proof fn lemma_other_names(
    a: Seq<char>,
    s: Seq<char>,
    b: Seq<char>,
    t: Seq<char>,
)
    requires
        is_slug(a),
        is_slug(b),
        a.len() > 0,
        b.len() > 0,
        a != b,
        is_digest(s),
        is_digest(t),
    ensures
        task_name(a) != task_name(b),
        task_name(a) != markdown_name(b),
        task_name(a) != archive_name(b, t),
        markdown_name(a) != task_name(b),
        markdown_name(a) != markdown_name(b),
        markdown_name(a) != archive_name(b, t),
        archive_name(a, s) != task_name(b),
        archive_name(a, s) != markdown_name(b),
        archive_name(a, s) != archive_name(b, t),
{
    lemma_literals();
    if task_name(a) == task_name(b) {
        lemma_task_name_injective(a, b);
    }
    if markdown_name(a) == markdown_name(b) {
        lemma_markdown_name_injective(a, b);
    }
    if archive_name(a, s) == archive_name(b, t) {
        lemma_archive_name_injective(a, s, b, t);
    }
    assert(task_name(a).last() == 'n' && task_name(b).last() == 'n');
    assert(markdown_name(a).last() == 'd' && markdown_name(b).last() == 'd');
    assert(archive_name(a, s).last() == 'n' && archive_name(b, t).last() == 'n');
    lemma_task_not_archive(a, b, t);
    lemma_task_not_archive(b, a, s);
}

/// No task file is named like an archive.
pub proof fn lemma_task_not_archive(a: Seq<char>, b: Seq<char>, t: Seq<char>)
    requires
        is_slug(a),
        is_digest(t),
    ensures
        task_name(a) != archive_name(b, t),
{
    lemma_literals();
    lemma_slug_without_dot(a);
    let x = archive_name(b, t);
    assert(x[b.len() as int] == '.');
    assert(x.len() == b.len() + 77);
    assert(task_name(a).len() == a.len() + 5);
    if task_name(a) == x {
        assert(task_name(a)[b.len() as int] == a[b.len() as int]);
        assert(a.contains(a[b.len() as int]));
    }
}

/// The anchor is no file of a task and not the index.
pub proof fn lemma_anchor_name(id: Seq<char>, sha256: Seq<char>)
    requires
        is_slug(id),
        id.len() > 0,
        is_digest(sha256),
    ensures
        ANCHOR_FILE_NAME@ != task_name(id),
        ANCHOR_FILE_NAME@ != markdown_name(id),
        ANCHOR_FILE_NAME@ != archive_name(id, sha256),
        ANCHOR_FILE_NAME@ != INDEX_FILE_NAME@,
{
    lemma_literals();
    lemma_slug_without_dot(id);
    assert(id.contains(id[0]));
    assert(task_name(id)[0] == id[0]);
    assert(markdown_name(id)[0] == id[0]);
    assert(archive_name(id, sha256)[0] == id[0]);
}

} // verus!
