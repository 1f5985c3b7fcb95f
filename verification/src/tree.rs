//! The walk as a whole, over a model of the directory tree.
//!
//! The walker itself sees one listing at a time. Here a tree is a map from
//! each directory that can be listed to its entries, and the walk's result is
//! defined on it outright. The laws say that the walker, fed with the tree's
//! listings, arrives at that result, and that the result holds exactly the
//! regular files that can be reached from where the walk began.

use crate::walk::{is_traversed, step, supplied, ActionView, EntryKind, EntryView, WalkView};
use vstd::prelude::*;

verus! {

/// The paths of the files that a depth-first walk finds when it looks at the
/// entries `ahead`, in order, and descends into every directory and symbolic
/// link among them. There is no result if the walk comes to a directory that
/// `tree` has no listing for, or if it would list more than `fuel`
/// directories, as it must where links form a cycle.
pub open spec fn found(
    tree: Map<Seq<char>, Seq<EntryView>>,
    ahead: Seq<EntryView>,
    fuel: nat,
) -> Option<Seq<Seq<char>>>
    decreases fuel, ahead.len(),
{
    if ahead.len() == 0 {
        Some(Seq::empty())
    } else {
        let entry = ahead[0];
        let rest = ahead.skip(1);
        match entry.kind {
            EntryKind::File => match found(tree, rest, fuel) {
                Some(files) => Some(seq![entry.path] + files),
                None => None,
            },
            EntryKind::Other => found(tree, rest, fuel),
            EntryKind::Directory | EntryKind::Symlink => if fuel > 0 && tree.contains_key(
                entry.path,
            ) {
                found(tree, tree[entry.path] + rest, (fuel - 1) as nat)
            } else {
                None
            },
        }
    }
}

/// What a walk in state `walk` will have found when it ends: the files it
/// has already, followed by those still to be found.
pub open spec fn eventual_files(
    tree: Map<Seq<char>, Seq<EntryView>>,
    walk: WalkView,
    fuel: nat,
) -> Option<Seq<Seq<char>>> {
    match found(tree, walk.ahead, fuel) {
        Some(files) => Some(walk.files + files),
        None => None,
    }
}

/// Whether `entry` is the regular file `file`, or a directory or symbolic
/// link with `file` at most `depth` levels below it.
pub open spec fn leads_to(
    tree: Map<Seq<char>, Seq<EntryView>>,
    entry: EntryView,
    file: Seq<char>,
    depth: nat,
) -> bool
    decreases depth,
{
    match entry.kind {
        EntryKind::File => entry.path == file,
        EntryKind::Other => false,
        EntryKind::Directory | EntryKind::Symlink => depth > 0 && tree.contains_key(entry.path)
            && exists|i: int|
            #![trigger tree[entry.path][i]]
            0 <= i < tree[entry.path].len() && leads_to(
                tree,
                tree[entry.path][i],
                file,
                (depth - 1) as nat,
            ),
    }
}

/// Whether `file` is a regular file among `entries`, or at most `depth`
/// levels further down in a directory or behind a symbolic link among them.
pub open spec fn holds_file(
    tree: Map<Seq<char>, Seq<EntryView>>,
    entries: Seq<EntryView>,
    file: Seq<char>,
    depth: nat,
) -> bool {
    exists|i: int|
        #![trigger entries[i]]
        0 <= i < entries.len() && leads_to(tree, entries[i], file, depth)
}

/// Whether `file` is a regular file that can be reached from `entries`.
pub open spec fn reaches(
    tree: Map<Seq<char>, Seq<EntryView>>,
    entries: Seq<EntryView>,
    file: Seq<char>,
) -> bool {
    exists|depth: nat| holds_file(tree, entries, file, depth)
}

/// A step of the walker changes nothing in what the walk will have found at
/// its end, provided the caller answers a request for a listing with the
/// tree's own. When the walker says it is done, its files are that result.
pub proof fn lemma_step_keeps_result(
    tree: Map<Seq<char>, Seq<EntryView>>,
    walk: WalkView,
    fuel: nat,
)
    ensures
        match step(walk).1 {
            ActionView::Done => eventual_files(tree, walk, fuel) == Some(step(walk).0.files),
            ActionView::Report(_) => eventual_files(tree, walk, fuel) == eventual_files(
                tree,
                step(walk).0,
                fuel,
            ),
            ActionView::List(dir) => eventual_files(tree, walk, fuel) == if fuel > 0
                && tree.contains_key(dir) {
                eventual_files(tree, supplied(step(walk).0, tree[dir]), (fuel - 1) as nat)
            } else {
                None
            },
        },
    decreases walk.ahead.len(),
{
    if walk.ahead.len() > 0 && walk.ahead[0].kind == EntryKind::File {
        let path = walk.ahead[0].path;
        let next = WalkView { ahead: walk.ahead.skip(1), files: walk.files.push(path) };
        lemma_step_keeps_result(tree, next, fuel);
        if let Some(files) = found(tree, next.ahead, fuel) {
            assert(walk.files + (seq![path] + files) =~= next.files + files);
        }
    } else if walk.ahead.len() == 0 {
        assert(walk.files + Seq::<Seq<char>>::empty() =~= walk.files);
    }
}

/// A walk that ends within some number of listings finds the same files
/// when it is allowed more.
pub proof fn lemma_found_with_more_fuel(
    tree: Map<Seq<char>, Seq<EntryView>>,
    ahead: Seq<EntryView>,
    fuel: nat,
    more: nat,
)
    requires
        found(tree, ahead, fuel) is Some,
        fuel <= more,
    ensures
        found(tree, ahead, more) == found(tree, ahead, fuel),
    decreases fuel, ahead.len(),
{
    if ahead.len() > 0 {
        let entry = ahead[0];
        let rest = ahead.skip(1);
        if is_traversed(entry.kind) {
            lemma_found_with_more_fuel(
                tree,
                tree[entry.path] + rest,
                (fuel - 1) as nat,
                (more - 1) as nat,
            );
        } else {
            lemma_found_with_more_fuel(tree, rest, fuel, more);
        }
    }
}

/// Reaching a file from a list of entries is reaching it from one part of
/// the list or from the other.
proof fn lemma_reaches_either(
    tree: Map<Seq<char>, Seq<EntryView>>,
    first: Seq<EntryView>,
    second: Seq<EntryView>,
    file: Seq<char>,
)
    ensures
        reaches(tree, first + second, file) <==> reaches(tree, first, file) || reaches(
            tree,
            second,
            file,
        ),
{
    let both = first + second;
    if reaches(tree, both, file) {
        let depth = choose|depth: nat| holds_file(tree, both, file, depth);
        let i = choose|i: int| 0 <= i < both.len() && leads_to(
            tree,
            both[i],
            file,
            depth,
        );
        if i < first.len() {
            assert(leads_to(tree, first[i], file, depth));
            assert(holds_file(tree, first, file, depth));
        } else {
            assert(leads_to(tree, second[i - first.len()], file, depth));
            assert(holds_file(tree, second, file, depth));
        }
    }
    if reaches(tree, first, file) {
        let depth = choose|depth: nat| holds_file(tree, first, file, depth);
        let i = choose|i: int| 0 <= i < first.len() && leads_to(
            tree,
            first[i],
            file,
            depth,
        );
        assert(leads_to(tree, both[i], file, depth));
        assert(holds_file(tree, both, file, depth));
    }
    if reaches(tree, second, file) {
        let depth = choose|depth: nat| holds_file(tree, second, file, depth);
        let i = choose|i: int| 0 <= i < second.len() && leads_to(
            tree,
            second[i],
            file,
            depth,
        );
        assert(leads_to(tree, both[first.len() + i], file, depth));
        assert(holds_file(tree, both, file, depth));
    }
}

/// Reaching a file from a single entry: the entry is that file, or it is a
/// directory or link whose listing reaches it.
proof fn lemma_reaches_from_one(
    tree: Map<Seq<char>, Seq<EntryView>>,
    entry: EntryView,
    file: Seq<char>,
)
    ensures
        reaches(tree, seq![entry], file) <==> match entry.kind {
            EntryKind::File => entry.path == file,
            EntryKind::Other => false,
            EntryKind::Directory | EntryKind::Symlink => tree.contains_key(entry.path) && reaches(
                tree,
                tree[entry.path],
                file,
            ),
        },
{
    let one = seq![entry];
    if reaches(tree, one, file) {
        let depth = choose|depth: nat| holds_file(tree, one, file, depth);
        let i = choose|i: int| 0 <= i < one.len() && leads_to(
            tree,
            one[i],
            file,
            depth,
        );
        assert(one[i] == entry);
        if is_traversed(entry.kind) {
            assert(holds_file(tree, tree[entry.path], file, (depth - 1) as nat));
        }
    }
    match entry.kind {
        EntryKind::File => {
            if entry.path == file {
                assert(leads_to(tree, one[0], file, 0));
                assert(holds_file(tree, one, file, 0));
            }
        },
        EntryKind::Other => {},
        _ => {
            if tree.contains_key(entry.path) && reaches(tree, tree[entry.path], file) {
                let below = choose|depth: nat| holds_file(tree, tree[entry.path], file, depth);
                assert(leads_to(tree, one[0], file, below + 1));
                assert(holds_file(tree, one, file, below + 1));
            }
        },
    }
}

/// A walk that ends has found exactly the regular files that can be reached
/// from the entries it began with: each of them, and nothing else.
pub proof fn lemma_found_is_reachable(
    tree: Map<Seq<char>, Seq<EntryView>>,
    ahead: Seq<EntryView>,
    fuel: nat,
    file: Seq<char>,
)
    requires
        found(tree, ahead, fuel) is Some,
    ensures
        found(tree, ahead, fuel).unwrap().contains(file) <==> reaches(tree, ahead, file),
    decreases fuel, ahead.len(),
{
    if ahead.len() == 0 {
        assert(!reaches(tree, ahead, file));
    } else {
        let entry = ahead[0];
        let rest = ahead.skip(1);
        assert(ahead =~= seq![entry] + rest);
        lemma_reaches_either(tree, seq![entry], rest, file);
        lemma_reaches_from_one(tree, entry, file);
        match entry.kind {
            EntryKind::File => {
                lemma_found_is_reachable(tree, rest, fuel, file);
                let files = found(tree, rest, fuel).unwrap();
                let all = seq![entry.path] + files;
                if all.contains(file) && entry.path != file {
                    let i = choose|i: int| 0 <= i < all.len() && all[i] == file;
                    assert(files[i - 1] == file);
                }
                if entry.path == file {
                    assert(all[0] == file);
                }
                if files.contains(file) {
                    let i = choose|i: int| 0 <= i < files.len() && files[i] == file;
                    assert(all[i + 1] == file);
                }
            },
            EntryKind::Other => {
                lemma_found_is_reachable(tree, rest, fuel, file);
            },
            _ => {
                let below = tree[entry.path];
                lemma_found_is_reachable(tree, below + rest, (fuel - 1) as nat, file);
                lemma_reaches_either(tree, below, rest, file);
            },
        }
    }
}

} // verus!
