//! Request dispatch: from the path of a request to the outcome that answers
//! it, by one lookup in the asset table.

use crate::blob::bytes_of;
use crate::table::AssetTable;
use hyper::body::Bytes;
use vstd::prelude::*;
use vstd::string::{StringExecFns, StringSliceAdditionalSpecFns};

verus! {

/// The status of an outcome that carries a stored file.
pub const STATUS_OK: u16 = 200;

/// The status of an outcome for a path that the table cannot serve.
pub const STATUS_NOT_FOUND: u16 = 404;

/// The name of the file that stands for a directory: it is appended to every
/// request path that ends in `/`.
pub open spec fn index_file() -> Seq<char> {
    "index.html"@
}

/// The body that goes with a miss: the text `404 not found`, as bytes.
pub open spec fn not_found_body() -> Seq<u8> {
    "404 not found".spec_bytes()
}

/// The key under which a request path is looked up: the path itself, or, if
/// the path ends in `/`, the path followed by `index.html`.
pub open spec fn lookup_key(path: Seq<char>) -> Seq<char> {
    if path.len() > 0 && path.last() == '/' {
        path + index_file()
    } else {
        path
    }
}

/// What an outcome stands for: a status code and the bytes of a body.
pub struct OutcomeView {
    pub status: u16,
    pub body: Seq<u8>,
}

/// The outcome of a request that found nothing to serve.
pub open spec fn miss() -> OutcomeView {
    OutcomeView { status: STATUS_NOT_FOUND, body: not_found_body() }
}

/// The outcome of a request that is answered with the stored bytes `body`.
pub open spec fn hit(body: Seq<u8>) -> OutcomeView {
    OutcomeView { status: STATUS_OK, body }
}

/// The outcome of a request for `path` against `table`: a hit with the bytes
/// stored under the path's lookup key if there are any, and a miss if the key
/// is absent or what is stored under it is empty.
pub open spec fn respond(table: Map<Seq<char>, Seq<u8>>, path: Seq<char>) -> OutcomeView {
    let key = lookup_key(path);
    if table.contains_key(key) && table[key].len() > 0 {
        hit(table[key])
    } else {
        miss()
    }
}

/// The answer to one request: a status code and a body.
#[derive(Debug, PartialEq, Eq)]
pub struct Outcome {
    pub status: u16,
    pub body: Bytes,
}

impl View for Outcome {
    type V = OutcomeView;

    open spec fn view(&self) -> OutcomeView {
        OutcomeView { status: self.status, body: bytes_of(self.body) }
    }
}

/// Whether `path` ends in `/`.
fn ends_with_slash(path: &str) -> (yes: bool)
    ensures
        yes == (path@.len() > 0 && path@.last() == '/'),
{
    let mut last: Option<char> = None;
    for c in it: path.chars()
        invariant
            last == if it.index() == 0 {
                None
            } else {
                Some(it.seq()[it.index() - 1])
            },
    {
        last = Some(c);
    }
    match last {
        Some(c) => c == '/',
        None => false,
    }
}

/// Answers a request for `path` from `table`.
///
/// The path is looked up as it stands, or with `index.html` appended if it
/// ends in `/`. A non-empty stored file is served with status 200; an absent
/// key and an empty file both give status 404 and the body `404 not found`.
pub fn dispatch(table: &AssetTable, path: &str) -> (outcome: Outcome)
    ensures
        outcome@ == respond(table@, path@),
        !table@.contains_key(lookup_key(path@)) ==> outcome@ == miss(),
        table@.contains_key(lookup_key(path@)) && table@[lookup_key(path@)].len() == 0 ==> outcome@
            == miss(),
{
    let found = if ends_with_slash(path) {
        let mut key = String::from_str(path);
        key.append("index.html");
        table.get(key.as_str())
    } else {
        table.get(path)
    };
    if let Some(blob) = found {
        if !blob.is_empty() {
            return Outcome { status: STATUS_OK, body: blob.clone() };
        }
    }
    Outcome { status: STATUS_NOT_FOUND, body: Bytes::from_static("404 not found".as_bytes()) }
}

} // verus!
