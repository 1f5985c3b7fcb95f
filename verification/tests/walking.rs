use asset_server::walk::{EntryKind, FileSystemEntry, WalkAction, Walker};

fn entry(path: &str, kind: EntryKind) -> FileSystemEntry {
    FileSystemEntry { path: path.to_string(), kind }
}

fn feed(walker: &mut Walker, entries: Vec<FileSystemEntry>) {
    let result: Result<(), String> = walker.supply(Ok(entries));
    assert_eq!(result, Ok(()));
}

/// A small tree, as a function from a directory to its listing.
fn listing(dir: &str) -> Vec<FileSystemEntry> {
    match dir {
        "." => vec![
            entry("./a", EntryKind::Directory),
            entry("./index.html", EntryKind::File),
            entry("./sock", EntryKind::Other),
            entry("./link", EntryKind::Symlink),
            entry("./z.txt", EntryKind::File),
        ],
        "./a" => vec![
            entry("./a/one.txt", EntryKind::File),
            entry("./a/b", EntryKind::Directory),
            entry("./a/two.txt", EntryKind::File),
        ],
        "./a/b" => vec![entry("./a/b/deep.txt", EntryKind::File)],
        "./link" => vec![
            entry("./link/target.txt", EntryKind::File),
            entry("./link/fifo", EntryKind::Other),
        ],
        "./hollow" => Vec::new(),
        other => panic!("no such directory: {}", other),
    }
}

/// Runs a walk from `root` to its end; gives the files, the directories in
/// the order asked for, and the entries reported.
fn run(root: &str) -> (Vec<String>, Vec<String>, Vec<String>) {
    let mut walker = Walker::new(root.to_string());
    let mut listed = Vec::new();
    let mut reported = Vec::new();
    loop {
        match walker.advance() {
            WalkAction::List(dir) => {
                feed(&mut walker, listing(&dir));
                listed.push(dir);
            }
            WalkAction::Report(path) => reported.push(path),
            WalkAction::Done => break,
        }
    }
    (walker.into_files(), listed, reported)
}

#[test]
fn walk_begins_by_asking_for_the_root() {
    let mut walker = Walker::new("some/root".to_string());
    assert_eq!(walker.advance(), WalkAction::List("some/root".to_string()));
}

#[test]
fn walk_of_an_empty_directory_finds_nothing() {
    let mut walker = Walker::new(".".to_string());
    assert_eq!(walker.advance(), WalkAction::List(".".to_string()));
    feed(&mut walker, Vec::new());
    assert_eq!(walker.advance(), WalkAction::Done);
    assert_eq!(walker.advance(), WalkAction::Done);
    assert_eq!(walker.into_files(), Vec::<String>::new());
}

#[test]
fn files_are_found_in_depth_first_order() {
    let (files, _, _) = run(".");
    assert_eq!(
        files,
        vec![
            "./a/one.txt",
            "./a/b/deep.txt",
            "./a/two.txt",
            "./index.html",
            "./link/target.txt",
            "./z.txt",
        ]
    );
}

#[test]
fn directories_are_listed_as_they_are_met() {
    let (_, listed, _) = run(".");
    assert_eq!(listed, vec![".", "./a", "./a/b", "./link"]);
}

#[test]
fn symbolic_link_is_walked_like_a_directory() {
    let (files, listed, _) = run(".");
    assert!(listed.contains(&"./link".to_string()));
    assert!(files.contains(&"./link/target.txt".to_string()));
}

#[test]
fn other_entries_are_reported_and_not_recorded() {
    let (files, listed, reported) = run(".");
    assert_eq!(reported, vec!["./sock", "./link/fifo"]);
    assert!(!files.contains(&"./sock".to_string()));
    assert!(!listed.contains(&"./sock".to_string()));
}

#[test]
fn walk_of_a_subtree_sees_only_that_subtree() {
    let (files, listed, reported) = run("./a");
    assert_eq!(files, vec!["./a/one.txt", "./a/b/deep.txt", "./a/two.txt"]);
    assert_eq!(listed, vec!["./a", "./a/b"]);
    assert!(reported.is_empty());
}

#[test]
fn advance_stops_at_each_entry_that_needs_the_caller() {
    let mut walker = Walker::new(".".to_string());
    assert_eq!(walker.advance(), WalkAction::List(".".to_string()));
    feed(&mut walker, vec![
        entry("./f1", EntryKind::File),
        entry("./f2", EntryKind::File),
        entry("./dev", EntryKind::Other),
        entry("./f3", EntryKind::File),
        entry("./d", EntryKind::Directory),
        entry("./f4", EntryKind::File),
    ]);
    assert_eq!(walker.advance(), WalkAction::Report("./dev".to_string()));
    assert_eq!(walker.advance(), WalkAction::List("./d".to_string()));
    feed(&mut walker, vec![entry("./d/g", EntryKind::File)]);
    assert_eq!(walker.advance(), WalkAction::Done);
    assert_eq!(walker.into_files(), vec!["./f1", "./f2", "./f3", "./d/g", "./f4"]);
}

#[test]
fn files_found_before_the_end_can_be_taken() {
    let mut walker = Walker::new(".".to_string());
    assert_eq!(walker.advance(), WalkAction::List(".".to_string()));
    feed(&mut walker, vec![
        entry("./f1", EntryKind::File),
        entry("./d", EntryKind::Directory),
        entry("./f2", EntryKind::File),
    ]);
    assert_eq!(walker.advance(), WalkAction::List("./d".to_string()));
    assert_eq!(walker.into_files(), vec!["./f1"]);
}

#[test]
fn same_file_met_twice_is_recorded_twice() {
    let mut walker = Walker::new(".".to_string());
    assert_eq!(walker.advance(), WalkAction::List(".".to_string()));
    feed(&mut walker, vec![
        entry("./l1", EntryKind::Symlink),
        entry("./l2", EntryKind::Symlink),
    ]);
    assert_eq!(walker.advance(), WalkAction::List("./l1".to_string()));
    feed(&mut walker, vec![entry("shared/f", EntryKind::File)]);
    assert_eq!(walker.advance(), WalkAction::List("./l2".to_string()));
    feed(&mut walker, vec![entry("shared/f", EntryKind::File)]);
    assert_eq!(walker.advance(), WalkAction::Done);
    assert_eq!(walker.into_files(), vec!["shared/f", "shared/f"]);
}

#[test]
fn link_back_to_the_root_is_asked_for_again_and_again() {
    let mut walker = Walker::new("r".to_string());
    let mut asked = Vec::new();
    for _ in 0..5 {
        match walker.advance() {
            WalkAction::List(dir) => {
                asked.push(dir);
                feed(&mut walker, vec![
                    entry("r/f", EntryKind::File),
                    entry("r/loop", EntryKind::Symlink),
                ]);
            }
            other => panic!("expected a directory to list, got {:?}", other),
        }
    }
    assert_eq!(asked, vec!["r", "r/loop", "r/loop", "r/loop", "r/loop"]);
    assert_eq!(walker.into_files(), vec!["r/f", "r/f", "r/f", "r/f"]);
}

#[test]
fn failed_listing_hands_the_error_back() {
    let mut walker = Walker::new(".".to_string());
    assert_eq!(walker.advance(), WalkAction::List(".".to_string()));
    let result = walker.supply(Err("permission denied".to_string()));
    assert_eq!(result, Err("permission denied".to_string()));
}

#[test]
fn failed_listing_ends_the_walk_with_nothing_found() {
    let mut walker = Walker::new(".".to_string());
    assert_eq!(walker.advance(), WalkAction::List(".".to_string()));
    feed(
        &mut walker,
        vec![
            entry("./f1", EntryKind::File),
            entry("./d", EntryKind::Directory),
            entry("./f2", EntryKind::File),
            entry("./e", EntryKind::Directory),
        ],
    );
    assert_eq!(walker.advance(), WalkAction::List("./d".to_string()));
    assert_eq!(walker.supply(Err(13u32)), Err(13u32));
    assert_eq!(walker.advance(), WalkAction::Done);
    assert_eq!(walker.into_files(), Vec::<String>::new());
}
