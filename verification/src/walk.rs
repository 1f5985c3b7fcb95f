//! The directory walk, as a state machine.
//!
//! Listing a directory is the caller's business; deciding what to do with each
//! entry is done here. A `Walker` keeps the entries that are still to be looked
//! at, in the order in which a depth-first walk meets them, and the files found
//! so far. `advance` takes up files until an entry needs the caller: a
//! directory to list, or an entry that is neither file nor directory, which
//! the caller reports. What came of listing the directory the caller hands
//! back through `supply`: its entries, or the error that ends the walk.

use vstd::prelude::*;

verus! {

/// What kind of thing a directory entry is.
#[derive(Clone, Copy, Debug, PartialEq, Eq, Structural)]
pub enum EntryKind {
    /// A regular file.
    File,
    /// A directory.
    Directory,
    /// A symbolic link. The walk follows it as if it were a directory.
    Symlink,
    /// Anything else: a device, a socket, a pipe.
    Other,
}

/// One entry of a directory listing: its path and its kind.
#[derive(Debug, PartialEq, Eq)]
pub struct FileSystemEntry {
    pub path: String,
    pub kind: EntryKind,
}

/// What a `FileSystemEntry` stands for.
pub struct EntryView {
    pub path: Seq<char>,
    pub kind: EntryKind,
}

impl View for FileSystemEntry {
    type V = EntryView;

    open spec fn view(&self) -> EntryView {
        EntryView { path: self.path@, kind: self.kind }
    }
}

/// Whether the walk descends into an entry of this kind.
pub open spec fn is_traversed(kind: EntryKind) -> bool {
    kind == EntryKind::Directory || kind == EntryKind::Symlink
}

/// The entries of a listing, each taken by its view.
pub open spec fn entry_views(listing: Seq<FileSystemEntry>) -> Seq<EntryView> {
    listing.map_values(|entry: FileSystemEntry| entry@)
}

/// The paths of a list, each taken by its view.
pub open spec fn path_views(paths: Seq<String>) -> Seq<Seq<char>> {
    paths.map_values(|path: String| path@)
}

/// The state of a walk: the entries still to be looked at, the next one
/// first, and the paths of the files found so far, in the order found.
pub struct WalkView {
    pub ahead: Seq<EntryView>,
    pub files: Seq<Seq<char>>,
}

/// What the walk needs from its caller next.
pub enum ActionView {
    /// The entries of this directory, through `supply`.
    List(Seq<char>),
    /// A note that this entry was passed over.
    Report(Seq<char>),
    /// Nothing: the walk is over.
    Done,
}

/// The state in which a walk of `root` begins: the root is the one entry to
/// look at, and it is a directory.
pub open spec fn start(root: Seq<char>) -> WalkView {
    WalkView {
        ahead: seq![EntryView { path: root, kind: EntryKind::Directory }],
        files: Seq::empty(),
    }
}

/// One step of the walk. Files at the front of `ahead` are recorded, in
/// order, until an entry needs the caller or none is left. That entry is
/// taken off as well: a directory or a symbolic link is to be listed, any
/// other entry that is not a file is to be reported.
pub open spec fn step(walk: WalkView) -> (WalkView, ActionView)
    decreases walk.ahead.len(),
{
    if walk.ahead.len() == 0 {
        (walk, ActionView::Done)
    } else {
        let entry = walk.ahead[0];
        let rest = walk.ahead.skip(1);
        match entry.kind {
            EntryKind::File => step(WalkView { ahead: rest, files: walk.files.push(entry.path) }),
            EntryKind::Directory | EntryKind::Symlink => (
                WalkView { ahead: rest, files: walk.files },
                ActionView::List(entry.path),
            ),
            EntryKind::Other => (
                WalkView { ahead: rest, files: walk.files },
                ActionView::Report(entry.path),
            ),
        }
    }
}

/// The state after the caller has handed in a listing: its entries are
/// looked at next, in their order, before anything that was already waiting.
pub open spec fn supplied(walk: WalkView, listing: Seq<EntryView>) -> WalkView {
    WalkView { ahead: listing + walk.ahead, files: walk.files }
}

/// The state in which a walk is left when a directory could not be listed:
/// nothing more to look at, and no files.
pub open spec fn abandoned() -> WalkView {
    WalkView { ahead: Seq::empty(), files: Seq::empty() }
}

/// What the walk needs from its caller next.
#[derive(Debug, PartialEq, Eq)]
pub enum WalkAction {
    /// The entries of this directory, through `Walker::supply`.
    List(String),
    /// A note that this entry, neither file nor directory nor symbolic link,
    /// was passed over.
    Report(String),
    /// Nothing: the walk is over.
    Done,
}

impl View for WalkAction {
    type V = ActionView;

    open spec fn view(&self) -> ActionView {
        match self {
            WalkAction::List(path) => ActionView::List(path@),
            WalkAction::Report(path) => ActionView::Report(path@),
            WalkAction::Done => ActionView::Done,
        }
    }
}

/// A directory walk in progress.
pub struct Walker {
    /// The entries still to be looked at; the next one is the last element.
    pending: Vec<FileSystemEntry>,
    /// The files found so far.
    files: Vec<String>,
}

impl View for Walker {
    type V = WalkView;

    closed spec fn view(&self) -> WalkView {
        WalkView {
            ahead: entry_views(self.pending@).reverse(),
            files: path_views(self.files@),
        }
    }
}

impl Walker {
    /// Begins a walk at the directory `root`.
    pub fn new(root: String) -> (walker: Walker)
        ensures
            walker@ == start(root@),
    {
        let mut pending: Vec<FileSystemEntry> = Vec::new();
        pending.push(FileSystemEntry { path: root, kind: EntryKind::Directory });
        let walker = Walker { pending, files: Vec::new() };
        assert(walker@.ahead =~= start(root@).ahead);
        assert(walker@.files =~= start(root@).files);
        walker
    }

    /// Goes on with the walk until it needs the caller, and says what for.
    pub fn advance(&mut self) -> (action: WalkAction)
        ensures
            final(self)@ == step(old(self)@).0,
            action@ == step(old(self)@).1,
    {
        loop
            invariant
                step(self@) == step(old(self)@),
            decreases self.pending.len(),
        {
            let ghost before = self@;
            match self.pending.pop() {
                None => {
                    return WalkAction::Done;
                },
                Some(entry) => {
                    assert(self@.ahead =~= before.ahead.skip(1));
                    match entry.kind {
                        EntryKind::File => {
                            self.files.push(entry.path);
                            assert(self@.files =~= before.files.push(entry@.path));
                        },
                        EntryKind::Directory | EntryKind::Symlink => {
                            return WalkAction::List(entry.path);
                        },
                        EntryKind::Other => {
                            return WalkAction::Report(entry.path);
                        },
                    }
                },
            }
        }
    }

    /// Takes what came of listing the directory that `advance` last asked
    /// for. Its entries are looked at next, in the order of the listing. If
    /// the directory could not be listed the whole walk is over: the error is
    /// handed back, and nothing that was found so far is kept.
    pub fn supply<E>(&mut self, listing: Result<Vec<FileSystemEntry>, E>) -> (result: Result<
        (),
        E,
    >)
        ensures
            match listing {
                Ok(entries) => result is Ok && final(self)@ == supplied(
                    old(self)@,
                    entry_views(entries@),
                ),
                Err(error) => result == Err::<(), E>(error) && final(self)@ == abandoned(),
            },
    {
        match listing {
            Err(error) => {
                self.pending.clear();
                self.files.clear();
                assert(self@.files =~= abandoned().files);
                Err(error)
            },
            Ok(entries) => {
                let ghost given = entry_views(entries@);
                let mut rest = entries;
                while rest.len() > 0
                    invariant
                        entry_views(rest@) + self@.ahead == given + old(self)@.ahead,
                        self@.files == old(self)@.files,
                    decreases rest.len(),
                {
                    let ghost before = self@;
                    let ghost left = entry_views(rest@);
                    let entry = rest.pop().unwrap();
                    self.pending.push(entry);
                    assert(self@.ahead =~= seq![entry@] + before.ahead);
                    assert(entry_views(rest@).push(entry@) =~= left);
                }
                Ok(())
            },
        }
    }

    /// Ends the walk and hands out the paths of the files found, in the order
    /// in which the walk met them.
    pub fn into_files(self) -> (files: Vec<String>)
        ensures
            path_views(files@) == self@.files,
    {
        self.files
    }
}

} // verus!
