//! The cache pairing: one catalog database handle and one thumbnail store,
//! owned together for the life of the process.

use vstd::prelude::*;

use crate::sqldb::MeshDatabase;
use crate::store::MeshThumbnail;

verus! {

/// One catalog database and one thumbnail store.
pub struct MeshCache {
    database: MeshDatabase,
    thumbnail: MeshThumbnail,
}

impl MeshCache {
    /// The blobs the thumbnail store holds.
    pub closed spec fn blobs(&self) -> Map<u128, Seq<u8>> {
        self.thumbnail@
    }

    /// The database handle the pairing owns.
    pub closed spec fn database_view(&self) -> MeshDatabase {
        self.database
    }

    /// The thumbnail store the pairing owns.
    pub closed spec fn thumbnail_view(&self) -> MeshThumbnail {
        self.thumbnail
    }

    /// Pairs an initialized database with a thumbnail store.
    pub fn new(database: MeshDatabase, thumbnail: MeshThumbnail) -> (r: MeshCache)
        ensures
            r.database_view() == database,
            r.thumbnail_view() == thumbnail,
            r.blobs() == thumbnail@,
    {
        MeshCache { database, thumbnail }
    }

    /// The catalog database handle.
    pub fn database(&self) -> (r: &MeshDatabase)
        ensures
            *r == self.database_view(),
    {
        &self.database
    }

    /// The thumbnail store.
    pub fn thumbnail(&self) -> (r: &MeshThumbnail)
        ensures
            *r == self.thumbnail_view(),
            r@ == self.blobs(),
    {
        &self.thumbnail
    }

    /// The thumbnail store, for writing.
    pub fn thumbnail_mut(&mut self) -> (r: &mut MeshThumbnail)
        ensures
            *r == old(self).thumbnail_view(),
            *final(r) == final(self).thumbnail_view(),
            final(self).database_view() == old(self).database_view(),
            final(self).blobs() == final(r)@,
    {
        &mut self.thumbnail
    }
}

} // verus!
