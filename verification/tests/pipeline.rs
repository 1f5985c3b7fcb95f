use asset_server::dispatch::{dispatch, Outcome};
use asset_server::path::clean_name;
use asset_server::table::{read_files, AssetTable, FileRead};
use asset_server::walk::{EntryKind, FileSystemEntry, WalkAction, Walker};

fn entry(path: &str, kind: EntryKind) -> FileSystemEntry {
    FileSystemEntry { path: path.to_string(), kind }
}

/// A tree in memory: the listing of each directory, or why it cannot be
/// listed.
fn list(dir: &str) -> Result<Vec<FileSystemEntry>, String> {
    match dir {
        "site" => Ok(vec![
            entry("site/index.html", EntryKind::File),
            entry("site/docs", EntryKind::Directory),
            entry("site/empty.txt", EntryKind::File),
            entry("site/foo", EntryKind::Directory),
        ]),
        "site/docs" => Ok(vec![entry("site/docs/index.html", EntryKind::File)]),
        "site/foo" => Ok(vec![entry("site/foo/bar.txt", EntryKind::File)]),
        "locked" => Ok(vec![
            entry("locked/a.txt", EntryKind::File),
            entry("locked/secret", EntryKind::Directory),
            entry("locked/b.txt", EntryKind::File),
        ]),
        other => Err(format!("cannot list {}", other)),
    }
}

/// What each file of the tree holds, or why it cannot be read.
fn read(path: &str) -> Result<Vec<u8>, String> {
    match path {
        "site/index.html" => Ok(b"home".to_vec()),
        "site/docs/index.html" => Ok(b"docs-home".to_vec()),
        "site/empty.txt" => Ok(Vec::new()),
        "site/foo/bar.txt" => Ok(b"hi".to_vec()),
        other => Err(format!("cannot read {}", other)),
    }
}

fn walk(root: &str) -> Result<Vec<String>, String> {
    let mut walker = Walker::new(root.to_string());
    loop {
        match walker.advance() {
            WalkAction::List(dir) => walker.supply(list(&dir))?,
            WalkAction::Report(_) => {}
            WalkAction::Done => return Ok(walker.into_files()),
        }
    }
}

fn start(root: &str) -> Result<AssetTable, String> {
    let reads = walk(root)?
        .into_iter()
        .map(|path| {
            let contents = read(&path);
            FileRead { path, contents }
        })
        .collect();
    read_files(reads, root)
}

fn served(outcome: Outcome) -> (u16, Vec<u8>) {
    (outcome.status, outcome.body.to_vec())
}

fn shareable<T: Send + Sync>() {}

#[test]
fn whole_tree_is_served_after_startup() {
    let table = match start("site") {
        Ok(table) => table,
        Err(error) => panic!("startup failed: {}", error),
    };
    assert_eq!(table.len(), 4);
    assert_eq!(served(dispatch(&table, "/")), (200, b"home".to_vec()));
    assert_eq!(served(dispatch(&table, "/index.html")), (200, b"home".to_vec()));
    assert_eq!(served(dispatch(&table, "/foo/bar.txt")), (200, b"hi".to_vec()));
    assert_eq!(served(dispatch(&table, "/docs/")), (200, b"docs-home".to_vec()));
    assert_eq!(served(dispatch(&table, "/nope.txt")), (404, b"404 not found".to_vec()));
    assert_eq!(served(dispatch(&table, "/empty.txt")), (404, b"404 not found".to_vec()));
}

#[test]
fn every_file_found_is_served_under_its_key_unless_empty() {
    let table = match start("site") {
        Ok(table) => table,
        Err(error) => panic!("startup failed: {}", error),
    };
    let files = match walk("site") {
        Ok(files) => files,
        Err(error) => panic!("walk failed: {}", error),
    };
    assert_eq!(files.len(), 4);
    for path in files {
        let contents = match read(&path) {
            Ok(contents) => contents,
            Err(error) => panic!("{}", error),
        };
        let key = clean_name(path, "site");
        let outcome = dispatch(&table, &key);
        if contents.is_empty() {
            assert_eq!(served(outcome), (404, b"404 not found".to_vec()));
        } else {
            assert_eq!(served(outcome), (200, contents));
        }
    }
}

#[test]
fn unlistable_directory_stops_startup() {
    assert_eq!(walk("locked"), Err("cannot list locked/secret".to_string()));
    assert_eq!(start("locked").err(), Some("cannot list locked/secret".to_string()));
}

#[test]
fn unlistable_root_stops_startup() {
    assert_eq!(walk("nowhere"), Err("cannot list nowhere".to_string()));
    assert_eq!(start("nowhere").err(), Some("cannot list nowhere".to_string()));
}

#[test]
fn unreadable_file_stops_startup() {
    let reads = vec![
        FileRead { path: "site/index.html".to_string(), contents: read("site/index.html") },
        FileRead { path: "site/gone.txt".to_string(), contents: read("site/gone.txt") },
    ];
    assert_eq!(read_files(reads, "site").err(), Some("cannot read site/gone.txt".to_string()));
}

#[test]
fn table_can_be_shared_between_readers() {
    shareable::<AssetTable>();
    shareable::<Outcome>();
}
