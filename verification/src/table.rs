//! The asset table: the mapping from canonical URL key to file bytes that is
//! built once, before the first request, and only read afterwards.

use crate::blob::bytes_of;
use crate::path::{canonical_key, clean_name, is_key};
use hyper::body::Bytes;
use vstd::hash_map::StringHashMap;
use vstd::prelude::*;

verus! {

/// What came of reading one file: the path under which the walk found it,
/// and either everything the file holds or the error that reading it met.
#[derive(Debug, PartialEq, Eq)]
pub struct FileRead<E> {
    pub path: String,
    pub contents: Result<Vec<u8>, E>,
}

/// A file that was read: a path and a sequence of bytes.
pub struct FileView {
    pub path: Seq<char>,
    pub contents: Seq<u8>,
}

/// Whether every file of the list was read.
pub open spec fn all_read<E>(files: Seq<FileRead<E>>) -> bool {
    forall|i: int| 0 <= i < files.len() ==> (#[trigger] files[i]).contents is Ok
}

/// Whether `error` is what reading met at the first file of the list that
/// could not be read.
pub open spec fn is_first_failure<E>(files: Seq<FileRead<E>>, error: E) -> bool {
    exists|i: int|
        0 <= i < files.len() && (#[trigger] files[i]).contents == Err::<Vec<u8>, E>(error)
            && all_read(files.take(i))
}

/// The files of a list in which every file was read, each as its path and
/// its bytes.
pub open spec fn views<E>(files: Seq<FileRead<E>>) -> Seq<FileView> {
    Seq::new(
        files.len(),
        |i: int| FileView { path: files[i].path@, contents: files[i].contents->Ok_0@ },
    )
}

/// The table that loading `files` in order gives, for a walk that began at
/// `root`: each file is stored under its canonical key, and of two files with
/// one key the later replaces the earlier.
pub open spec fn load(files: Seq<FileView>, root: Seq<char>) -> Map<Seq<char>, Seq<u8>>
    decreases files.len(),
{
    if files.len() == 0 {
        Map::empty()
    } else {
        load(files.drop_last(), root).insert(
            canonical_key(files.last().path, root),
            files.last().contents,
        )
    }
}

/// The immutable mapping from canonical URL key to file bytes.
///
/// A table is made by `read_files` and offers no way to change it, so it can
/// be shared by any number of readers.
pub struct AssetTable {
    entries: StringHashMap<Bytes>,
}

impl View for AssetTable {
    type V = Map<Seq<char>, Seq<u8>>;

    closed spec fn view(&self) -> Map<Seq<char>, Seq<u8>> {
        self.entries@.map_values(|blob: Bytes| bytes_of(blob))
    }
}

impl AssetTable {
    /// Every key of the table is non-empty and begins with `/`.
    pub open spec fn wf(&self) -> bool {
        forall|key: Seq<char>| self@.contains_key(key) ==> is_key(key)
    }

    /// Looks up the bytes stored under `key`.
    pub fn get(&self, key: &str) -> (found: Option<&Bytes>)
        ensures
            match found {
                Some(blob) => self@.contains_key(key@) && bytes_of(*blob) == self@[key@],
                None => !self@.contains_key(key@),
            },
    {
        self.entries.get(key)
    }

    /// The number of keys in the table.
    pub fn len(&self) -> (count: usize)
        ensures
            count == self@.len(),
    {
        broadcast use vstd::hash_map::group_hash_map_axioms;

        let count = self.entries.len();
        assert(self@.dom() =~= self.entries@.dom());
        count
    }
}

/// Builds the asset table from what came of reading the files found under
/// the root `path`.
///
/// If a file could not be read there is no table: the error of the first such
/// file is handed back. Otherwise each file is stored under the canonical key
/// of its path; where two files have the same key, the one that comes later
/// in `files` is kept.
pub fn read_files<E>(files: Vec<FileRead<E>>, path: &str) -> (loaded: Result<AssetTable, E>)
    ensures
        match loaded {
            Ok(table) => all_read(files@) && table@ == load(views(files@), path@) && table.wf(),
            Err(error) => is_first_failure(files@, error),
        },
{
    let mut entries: StringHashMap<Bytes> = StringHashMap::new();
    for file in it: files
        invariant
            it.seq() == files@,
            all_read(files@.take(it.index() as int)),
            entries@.map_values(|blob: Bytes| bytes_of(blob)) == load(
                views(files@.take(it.index() as int)),
                path@,
            ),
            forall|key: Seq<char>| entries@.contains_key(key) ==> is_key(key),
    {
        let ghost done = files@.take(it.index() as int);
        let ghost next = files@.take(it.index() + 1);
        match file.contents {
            Err(error) => {
                return Err(error);
            },
            Ok(contents) => {
                assert(views(next).drop_last() =~= views(done));
                assert(all_read(next)) by {
                    assert forall|j: int| 0 <= j < next.len() implies (#[trigger] next[j]).contents
                        is Ok by {
                        if j < done.len() {
                            assert(next[j] == done[j]);
                        }
                    }
                }
                let key = clean_name(file.path, path);
                entries.insert(key, Bytes::from(contents));
            },
        }
    }
    assert(files@.take(files@.len() as int) =~= files@);
    Ok(AssetTable { entries })
}

} // verus!
