//! Canonical URL keys: the mapping from a file's path, as the directory walk
//! reports it, to the key under which its bytes are served.
//!
//! A key is computed from the path and the configured root in three steps:
//! a leading `./` is dropped; if what remains starts with the root's own text,
//! every occurrence of that text is taken out; and the result is made to start
//! with `/`. The second step works on text, not on path segments, so a root
//! whose text recurs further into the path is removed there as well.

use vstd::prelude::*;

verus! {

/// The two characters `./` that a walk from the current directory puts in
/// front of every path.
pub open spec fn dot_slash() -> Seq<char> {
    seq!['.', '/']
}

/// `name` without a leading `./`; `name` itself if it has none.
pub open spec fn strip_dot_slash(name: Seq<char>) -> Seq<char> {
    if dot_slash().is_prefix_of(name) {
        name.skip(2)
    } else {
        name
    }
}

/// `text` with every occurrence of `pattern` taken out, found from left to
/// right without overlap. An empty pattern occurs nowhere.
pub open spec fn remove_all(text: Seq<char>, pattern: Seq<char>) -> Seq<char>
    decreases text.len(),
{
    if pattern.len() == 0 || text.len() == 0 {
        text
    } else if pattern.is_prefix_of(text) {
        remove_all(text.skip(pattern.len() as int), pattern)
    } else {
        seq![text[0]] + remove_all(text.skip(1), pattern)
    }
}

/// `name` with the root's text removed, provided `name` starts with it.
pub open spec fn strip_root(name: Seq<char>, root: Seq<char>) -> Seq<char> {
    if root.is_prefix_of(name) {
        remove_all(name, root)
    } else {
        name
    }
}

/// `text` itself if it starts with `/`, otherwise `/` followed by `text`.
pub open spec fn with_leading_slash(text: Seq<char>) -> Seq<char> {
    if text.len() > 0 && text[0] == '/' {
        text
    } else {
        seq!['/'] + text
    }
}

/// The canonical URL key of the file at `name`, for a walk that began at `root`.
pub open spec fn canonical_key(name: Seq<char>, root: Seq<char>) -> Seq<char> {
    with_leading_slash(strip_root(strip_dot_slash(name), root))
}

/// A key is never empty and always begins with `/`.
pub open spec fn is_key(key: Seq<char>) -> bool {
    key.len() > 0 && key[0] == '/'
}

/// Every canonical key is a key, whatever the path and the root.
pub proof fn lemma_canonical_key_is_key(name: Seq<char>, root: Seq<char>)
    ensures
        is_key(canonical_key(name, root)),
{
}

/// Appends one character to a string, as `String::push` of the standard
/// library does.
pub assume_specification[ String::push ](s: &mut String, ch: char)
    ensures
        final(s)@ == old(s)@.push(ch),
;

/// The characters of `s`, in order.
fn chars_of(s: &str) -> (chars: Vec<char>)
    ensures
        chars@ == s@,
{
    let mut chars: Vec<char> = Vec::new();
    for c in it: s.chars()
        invariant
            chars@ == it.seq().take(it.index() as int),
    {
        chars.push(c);
    }
    chars
}

/// Whether `pattern` stands in `text` at index `at`.
fn occurs_at(text: &Vec<char>, at: usize, pattern: &Vec<char>) -> (found: bool)
    requires
        at <= text.len(),
    ensures
        found == pattern@.is_prefix_of(text@.skip(at as int)),
{
    if pattern.len() > text.len() - at {
        return false;
    }
    let mut i: usize = 0;
    while i < pattern.len()
        invariant
            at <= text.len(),
            pattern.len() <= text.len() - at,
            i <= pattern.len(),
            forall|j: int| 0 <= j < i ==> pattern@[j] == text@[at + j],
        decreases pattern.len() - i,
    {
        if pattern[i] != text[at + i] {
            return false;
        }
        i += 1;
    }
    true
}

/// What is left of `text` from index `from` on, once every occurrence of
/// `pattern` has been taken out of it.
fn remove_all_from(text: &Vec<char>, from: usize, pattern: &Vec<char>) -> (kept: Vec<char>)
    requires
        from <= text.len(),
    ensures
        kept@ == remove_all(text@.skip(from as int), pattern@),
{
    let mut kept: Vec<char> = Vec::new();
    let mut i: usize = from;
    while i < text.len()
        invariant
            from <= i <= text.len(),
            kept@ + remove_all(text@.skip(i as int), pattern@) == remove_all(
                text@.skip(from as int),
                pattern@,
            ),
        decreases text.len() - i,
    {
        let ghost rest = text@.skip(i as int);
        if pattern.len() > 0 && occurs_at(text, i, pattern) {
            assert(rest.skip(pattern@.len() as int) =~= text@.skip(i + pattern@.len()));
            i += pattern.len();
        } else {
            assert(rest.skip(1) =~= text@.skip(i + 1));
            assert(remove_all(rest, pattern@) =~= seq![text@[i as int]] + remove_all(
                rest.skip(1),
                pattern@,
            )) by {
                if pattern@.len() == 0 {
                    lemma_remove_all_of_nothing(rest.skip(1));
                }
            }
            kept.push(text[i]);
            i += 1;
        }
    }
    kept
}

/// What is left of `text` from index `from` on.
fn rest_from(text: &Vec<char>, from: usize) -> (rest: Vec<char>)
    requires
        from <= text.len(),
    ensures
        rest@ == text@.skip(from as int),
{
    let mut rest: Vec<char> = Vec::new();
    let mut i: usize = from;
    while i < text.len()
        invariant
            from <= i <= text.len(),
            rest@ == text@.subrange(from as int, i as int),
        decreases text.len() - i,
    {
        rest.push(text[i]);
        i += 1;
    }
    rest
}

/// Taking out an empty pattern changes nothing.
proof fn lemma_remove_all_of_nothing(text: Seq<char>)
    ensures
        remove_all(text, Seq::<char>::empty()) == text,
{
}

/// Computes the canonical URL key of the file at `name`, for a walk that began
/// at `path`.
///
/// A leading `./` is dropped. If the remainder starts with `path`, every
/// occurrence of `path` in it is taken out. The result starts with `/`: one is
/// put in front where it does not.
pub fn clean_name(name: String, path: &str) -> (key: String)
    ensures
        key@ == canonical_key(name@, path@),
        is_key(key@),
{
    let text = chars_of(name.as_str());
    let root = chars_of(path);
    let mut prefix: Vec<char> = Vec::new();
    prefix.push('.');
    prefix.push('/');
    assert(text@.skip(0) =~= text@);
    let from: usize = if occurs_at(&text, 0, &prefix) {
        2
    } else {
        0
    };
    let kept = if occurs_at(&text, from, &root) {
        remove_all_from(&text, from, &root)
    } else {
        rest_from(&text, from)
    };
    let mut key = String::new();
    if kept.len() == 0 || kept[0] != '/' {
        key.push('/');
    }
    let ghost head = key@;
    let mut i: usize = 0;
    while i < kept.len()
        invariant
            i <= kept.len(),
            key@ == head + kept@.take(i as int),
        decreases kept.len() - i,
    {
        key.push(kept[i]);
        i += 1;
    }
    key
}

} // verus!
