//! What holds of loading and dispatch together, proved over their models.

use crate::dispatch::{hit, index_file, not_found_body, respond};
use crate::path::{canonical_key, is_key, lemma_canonical_key_is_key};
use crate::table::{load, FileView};
use vstd::prelude::*;

verus! {

/// The key of the file at index `i`.
pub open spec fn key_at(files: Seq<FileView>, root: Seq<char>, i: int) -> Seq<char> {
    canonical_key(files[i].path, root)
}

/// The index of the last file of `files` whose key is `key`, if there is one.
pub open spec fn last_with_key(files: Seq<FileView>, root: Seq<char>, key: Seq<char>) -> Option<
    int,
>
    decreases files.len(),
{
    if files.len() == 0 {
        None
    } else if canonical_key(files.last().path, root) == key {
        Some(files.len() - 1)
    } else {
        last_with_key(files.drop_last(), root, key)
    }
}

/// A loaded table holds a key exactly if some file has it, and then holds
/// under it the bytes of the last such file.
pub proof fn lemma_load_lookup(files: Seq<FileView>, root: Seq<char>, key: Seq<char>)
    ensures
        match last_with_key(files, root, key) {
            Some(i) => {
                &&& 0 <= i < files.len()
                &&& key_at(files, root, i) == key
                &&& forall|j: int| i < j < files.len() ==> key_at(files, root, j) != key
                &&& load(files, root).contains_key(key)
                &&& load(files, root)[key] == files[i].contents
            },
            None => {
                &&& forall|j: int| 0 <= j < files.len() ==> key_at(files, root, j) != key
                &&& !load(files, root).contains_key(key)
            },
        },
    decreases files.len(),
{
    if files.len() > 0 {
        let front = files.drop_last();
        lemma_load_lookup(front, root, key);
        assert forall|j: int| 0 <= j < front.len() implies key_at(front, root, j) == key_at(
            files,
            root,
            j,
        ) by {
            assert(front[j] == files[j]);
        }
    }
}

/// Every key of a loaded table is non-empty and begins with `/`.
pub proof fn lemma_load_keys(files: Seq<FileView>, root: Seq<char>)
    ensures
        forall|key: Seq<char>| load(files, root).contains_key(key) ==> is_key(key),
    decreases files.len(),
{
    if files.len() > 0 {
        lemma_load_keys(files.drop_last(), root);
        lemma_canonical_key_is_key(files.last().path, root);
    }
}

/// Round trip. A file is served under its canonical key with status 200 and
/// exactly the bytes that were read from it, provided that it is not empty,
/// that its key does not end in `/`, and that every later file with the same
/// key holds the same bytes.
pub proof fn lemma_round_trip(files: Seq<FileView>, root: Seq<char>, i: int)
    requires
        0 <= i < files.len(),
        files[i].contents.len() > 0,
        key_at(files, root, i).last() != '/',
        forall|j: int|
            i < j < files.len() && key_at(files, root, j) == key_at(files, root, i)
                ==> files[j].contents == files[i].contents,
    ensures
        respond(load(files, root), key_at(files, root, i)) == hit(files[i].contents),
{
    lemma_load_lookup(files, root, key_at(files, root, i));
}

/// A request path that ends in `/` is answered as the same path followed by
/// `index.html` is.
pub proof fn lemma_trailing_slash(table: Map<Seq<char>, Seq<u8>>, path: Seq<char>)
    requires
        path.len() > 0,
        path.last() == '/',
    ensures
        respond(table, path) == respond(table, path + index_file()),
{
    reveal_strlit("index.html");
}

/// The body of a miss, byte by byte: the ASCII text `404 not found`.
pub proof fn lemma_not_found_body()
    ensures
        not_found_body() == seq![
            52u8, 48u8, 52u8, 32u8, 110u8, 111u8, 116u8, 32u8, 102u8, 111u8, 117u8, 110u8, 100u8,
        ],
{
    reveal_strlit("404 not found");
    let text = "404 not found"@;
    vstd::utf8::is_ascii_chars_encode_utf8(text);
}

/// Loading the same files in the same order twice gives the same table: the
/// same keys, and the same bytes under each.
pub proof fn lemma_load_repeatable(first: Seq<FileView>, second: Seq<FileView>, root: Seq<char>)
    requires
        first.len() == second.len(),
        forall|i: int|
            0 <= i < first.len() ==> first[i].path == second[i].path && first[i].contents
                == second[i].contents,
    ensures
        load(first, root).dom() == load(second, root).dom(),
        forall|key: Seq<char>|
            load(first, root).contains_key(key) ==> load(first, root)[key] == load(
                second,
                root,
            )[key],
{
    assert(first =~= second);
}

/// Loading does not depend on the order in which the walk found the files, as
/// long as files that share a key hold the same bytes: two lists with the
/// same files give the same table.
pub proof fn lemma_load_order_independent(
    first: Seq<FileView>,
    second: Seq<FileView>,
    root: Seq<char>,
)
    requires
        first.to_multiset() == second.to_multiset(),
        forall|i: int, j: int|
            0 <= i < first.len() && 0 <= j < first.len() && key_at(first, root, i) == key_at(
                first,
                root,
                j,
            ) ==> first[i].contents == first[j].contents,
    ensures
        load(first, root) == load(second, root),
{
    broadcast use vstd::seq_lib::to_multiset_contains;

    let a = load(first, root);
    let b = load(second, root);
    assert forall|key: Seq<char>|
        #![trigger a.dom().contains(key)]
        #![trigger b.dom().contains(key)]
        a.dom().contains(key) == b.dom().contains(key) && (a.dom().contains(key) ==> a[key]
            == b[key]) by {
        lemma_load_lookup(first, root, key);
        lemma_load_lookup(second, root, key);
        if let Some(i) = last_with_key(first, root, key) {
            assert(second.to_multiset().count(first[i]) > 0);
            let j = choose|j: int| 0 <= j < second.len() && second[j] == first[i];
            assert(key_at(second, root, j) == key);
        }
        if let Some(j) = last_with_key(second, root, key) {
            assert(first.to_multiset().count(second[j]) > 0);
            let i = choose|i: int| 0 <= i < first.len() && first[i] == second[j];
            assert(key_at(first, root, i) == key);
        }
    }
}

} // verus!
