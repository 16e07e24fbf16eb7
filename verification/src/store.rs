//! The thumbnail store: a get-or-create cache of thumbnail blobs keyed by
//! identity key. Blobs live in a bucketed key-to-bytes store; the on-disk
//! location of each key is derived by `crate::bucket::get_file_path`, so a
//! caller that persists blobs can always find them again.

use std::collections::HashMap;
use vstd::prelude::*;
use vstd::string::StringSliceAdditionalSpecFns;

use crate::bucket::{bucket_path_chars, get_file_path};
use crate::errors::MeshError;
use crate::identity::{identity_of, identity_spec};

verus! {

broadcast use vstd::std_specs::hash::group_hash_axioms;

/// Copies a byte vector.
fn copy_bytes(v: &Vec<u8>) -> (r: Vec<u8>)
    ensures
        r@ == v@,
{
    let mut out: Vec<u8> = Vec::new();
    let mut i: usize = 0;
    while i < v.len()
        invariant
            0 <= i <= v@.len(),
            out@ == v@.take(i as int),
        decreases v@.len() - i,
    {
        out.push(v[i]);
        proof {
            assert(v@.take(i as int + 1) =~= v@.take(i as int).push(v@[i as int]));
        }
        i = i + 1;
    }
    proof {
        assert(v@.take(v@.len() as int) =~= v@);
    }
    out
}

/// A cache of thumbnail blobs, addressed solely by identity key.
///
/// Writes are idempotent overwrites: storing a key twice keeps a single
/// blob, the last one written. The store also remembers how many blobs it
/// has created through `get_or_create`, so that a repeated lookup can be
/// shown to transcode only once.
pub struct MeshThumbnail {
    thumbnail_dir_path: String,
    blobs: HashMap<u128, Vec<u8>>,
    transcodes: Ghost<nat>,
}

impl View for MeshThumbnail {
    type V = Map<u128, Seq<u8>>;

    closed spec fn view(&self) -> Map<u128, Seq<u8>> {
        Map::new(
            |k: u128| self.blobs@.contains_key(k),
            |k: u128| self.blobs@[k]@,
        )
    }
}

impl MeshThumbnail {
    /// The directory under which this store's blobs are located.
    pub closed spec fn dir(&self) -> Seq<char> {
        self.thumbnail_dir_path@
    }

    /// How many blobs `get_or_create` has transcoded and stored so far.
    pub closed spec fn transcodes(&self) -> nat {
        self.transcodes@
    }

    /// Creates an empty store rooted at the given directory.
    pub fn new(thumbnail_dir_path: String) -> (r: MeshThumbnail)
        ensures
            r@ == Map::<u128, Seq<u8>>::empty(),
            r.dir() == thumbnail_dir_path@,
            r.transcodes() == 0,
    {
        let r = MeshThumbnail {
            thumbnail_dir_path,
            blobs: HashMap::new(),
            transcodes: Ghost(0),
        };
        proof {
            assert(r@ =~= Map::<u128, Seq<u8>>::empty());
        }
        r
    }

    /// The path under this store's root where the given key's blob is
    /// (or would be) located on disk.
    pub fn thumbnail_path(&self, file_hash: u128) -> (r: String)
        ensures
            r@ == bucket_path_chars(self.dir(), file_hash),
    {
        get_file_path(self.thumbnail_dir_path.as_str(), file_hash)
    }

    /// Whether a blob is stored under the given key.
    pub fn has_thumbnail(&self, file_hash: u128) -> (r: bool)
        ensures
            r == self@.contains_key(file_hash),
    {
        self.blobs.contains_key(&file_hash)
    }

    /// Reads the blob stored under the given key; absent keys are reported
    /// as `NotFound`, never as any other error.
    pub fn read_thumbnail(&self, file_hash: u128) -> (r: Result<Vec<u8>, MeshError>)
        ensures
            self@.contains_key(file_hash) ==> (r matches Ok(b) && b@ == self@[file_hash]),
            !self@.contains_key(file_hash) ==> (r matches Err(e) && e == MeshError::NotFound),
    {
        match self.blobs.get(&file_hash) {
            Some(b) => Ok(copy_bytes(b)),
            None => Err(MeshError::NotFound),
        }
    }

    /// Stores a blob under the given key, overwriting whatever was there:
    /// the store keeps exactly one blob per key, the last one written.
    pub fn write_thumbnail(&mut self, file_hash: u128, data: &[u8])
        ensures
            final(self)@ == old(self)@.insert(file_hash, data@),
            final(self).dir() == old(self).dir(),
            final(self).transcodes() == old(self).transcodes(),
    {
        let mut owned: Vec<u8> = Vec::new();
        let mut i: usize = 0;
        while i < data.len()
            invariant
                0 <= i <= data@.len(),
                owned@ == data@.take(i as int),
            decreases data@.len() - i,
        {
            owned.push(data[i]);
            proof {
                assert(data@.take(i as int + 1) =~= data@.take(i as int).push(data@[i as int]));
            }
            i = i + 1;
        }
        proof {
            assert(data@.take(data@.len() as int) =~= data@);
        }
        self.blobs.insert(file_hash, owned);
        proof {
            assert(self@ =~= old(self)@.insert(file_hash, data@));
        }
    }

    /// Serves the blob stored under `file_hash`, or, when none is stored,
    /// obtains one from `make` (the caller's decode-and-transcode step),
    /// stores it, and returns it.
    ///
    /// A hit performs no transcode and leaves the store unchanged; a miss
    /// transcodes exactly once and stores exactly what it returns, so two
    /// calls with the same identity transcode at most once between them
    /// and return byte-identical blobs.
    pub fn get_or_create<F: FnOnce() -> Result<Vec<u8>, MeshError>>(
        &mut self,
        file_hash: u128,
        make: F,
    ) -> (r: Result<Vec<u8>, MeshError>)
        requires
            call_requires(make, ()),
        ensures
            final(self).dir() == old(self).dir(),
            old(self)@.contains_key(file_hash) ==> {
                &&& r matches Ok(b) && b@ == old(self)@[file_hash]
                &&& final(self)@ == old(self)@
                &&& final(self).transcodes() == old(self).transcodes()
            },
            !old(self)@.contains_key(file_hash) ==> match r {
                Ok(b) => {
                    &&& call_ensures(make, (), Result::<Vec<u8>, MeshError>::Ok(b))
                    &&& final(self)@ == old(self)@.insert(file_hash, b@)
                    &&& final(self).transcodes() == old(self).transcodes() + 1
                },
                Err(e) => {
                    &&& call_ensures(make, (), Result::<Vec<u8>, MeshError>::Err(e))
                    &&& final(self)@ == old(self)@
                    &&& final(self).transcodes() == old(self).transcodes()
                },
            },
    {
        if self.has_thumbnail(file_hash) {
            self.read_thumbnail(file_hash)
        } else {
            match make() {
                Ok(fresh) => {
                    self.write_thumbnail(file_hash, fresh.as_slice());
                    proof {
                        self.transcodes@ = self.transcodes@ + 1;
                    }
                    Ok(fresh)
                },
                Err(e) => Err(e),
            }
        }
    }

    /// Derives the identity key of a source file's path bytes.
    pub fn generate_file_hash(file_path: &str) -> (r: u128)
        ensures
            r == identity_spec(file_path.spec_bytes()),
    {
        identity_of(file_path.as_bytes())
    }
}

/// Writing a blob and reading the same key back yields exactly the bytes
/// written.
pub proof fn lemma_write_read_round_trip(store: Map<u128, Seq<u8>>, key: u128, v: Seq<u8>)
    ensures
        store.insert(key, v).contains_key(key),
        store.insert(key, v)[key] == v,
{
}

/// Overwriting a key is idempotent and last-writer-wins: two writes to one
/// key leave the store exactly as a single write of the second blob would,
/// with no duplicate entry.
pub proof fn lemma_overwrite_last_writer_wins(
    store: Map<u128, Seq<u8>>,
    key: u128,
    v1: Seq<u8>,
    v2: Seq<u8>,
)
    ensures
        store.insert(key, v1).insert(key, v2) == store.insert(key, v2),
        store.insert(key, v1).insert(key, v2)[key] == v2,
{
    assert(store.insert(key, v1).insert(key, v2) =~= store.insert(key, v2));
}

/// After a miss stores a blob, any later lookup of the same key is a hit
/// that returns the stored bytes unchanged, whatever bytes a second
/// transcode would have produced.
pub proof fn lemma_second_lookup_is_hit(store: Map<u128, Seq<u8>>, key: u128, fresh: Seq<u8>)
    requires
        !store.contains_key(key),
    ensures
        store.insert(key, fresh).contains_key(key),
        store.insert(key, fresh)[key] == fresh,
{
}

} // verus!
