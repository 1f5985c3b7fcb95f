//! Byte blobs. The table stores each file as a `Bytes` value, the shared,
//! immutable buffer that `hyper` sends as a response body, so that serving a
//! file never copies it. Verus cannot look inside a `Bytes`; this module names
//! what one holds and states, without proof, what the few operations used
//! here do to it. `hyper::body::Bytes` is the `Bytes` of the `bytes` crate,
//! which is where these operations are defined.

use hyper::body::Bytes;
use vstd::prelude::*;

verus! {

/// `hyper::body::Bytes`, taken as an opaque type.
#[verifier::external_type_specification]
#[verifier::external_body]
pub struct ExBytes(Bytes);

/// The bytes that a blob holds, in order.
pub uninterp spec fn bytes_of(blob: Bytes) -> Seq<u8>;

/// The `From<Vec<u8>>` impl of `Bytes` takes over the vector's buffer: the
/// blob holds the vector's elements, in the same order.
pub assume_specification[ <Bytes as From<Vec<u8>>>::from ](vec: Vec<u8>) -> (blob: Bytes)
    ensures
        bytes_of(blob) == vec@,
;

/// `Bytes::from_static` points the blob at the given slice: it holds the
/// slice's elements.
pub assume_specification[ Bytes::from_static ](bytes: &'static [u8]) -> (blob: Bytes)
    ensures
        bytes_of(blob) == bytes@,
;

/// `Bytes::is_empty` tells whether the blob holds no byte at all.
pub assume_specification[ Bytes::is_empty ](blob: &Bytes) -> (empty: bool)
    ensures
        empty == (bytes_of(*blob).len() == 0),
;

/// The `Clone` impl of `Bytes` hands out another handle on the same bytes.
pub assume_specification[ <Bytes as Clone>::clone ](blob: &Bytes) -> (copy: Bytes)
    ensures
        bytes_of(copy) == bytes_of(*blob),
;

} // verus!
