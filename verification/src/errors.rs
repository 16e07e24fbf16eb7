//! The error taxonomy shared by the store, the transcoder and the catalog.

use vstd::prelude::*;

verus! {

/// Errors surfaced by the library.
///
/// `NotFound` marks an absent blob or record, `DuplicateKey` a uniqueness
/// violation on insert, `DecodeError` and `EncodeError` per-file image
/// failures, `StorageError` a blob-store failure, and `SchemaError` a
/// catalog initialization failure.
#[derive(Clone, Copy, Debug, PartialEq, Eq, Structural)]
pub enum MeshError {
    NotFound,
    DuplicateKey,
    DecodeError,
    EncodeError,
    StorageError,
    SchemaError,
}

} // verus!
