//! The composition root: the per-user locations, the configuration, the
//! catalog and the cache, constructed once at startup from explicit values
//! and passed to whatever needs them — no process-wide lookup.

use vstd::prelude::*;

use crate::cache::MeshCache;
use crate::catalog::Catalog;
use crate::config::MeshConfig;

verus! {

/// The per-user locations the library's files live under.
pub struct MeshDirs {
    config_dir: String,
    cache_dir: String,
    data_dir: String,
}

impl MeshDirs {
    /// The configuration directory.
    pub closed spec fn config(&self) -> Seq<char> {
        self.config_dir@
    }

    /// The cache directory.
    pub closed spec fn cache(&self) -> Seq<char> {
        self.cache_dir@
    }

    /// The data directory.
    pub closed spec fn data(&self) -> Seq<char> {
        self.data_dir@
    }

    /// Builds the location set from explicit directories.
    pub fn new(config_dir: String, cache_dir: String, data_dir: String) -> (r: MeshDirs)
        ensures
            r.config() == config_dir@,
            r.cache() == cache_dir@,
            r.data() == data_dir@,
    {
        MeshDirs { config_dir, cache_dir, data_dir }
    }

    /// The location of a file under the configuration directory.
    pub fn config_path(&self, file_path: &str) -> (r: String)
        ensures
            r@ == self.config() + seq!['/'] + file_path@,
    {
        join_path(&self.config_dir, file_path)
    }

    /// The location of a directory or file under the cache directory.
    pub fn cache_path(&self, sub_dir_path: &str) -> (r: String)
        ensures
            r@ == self.cache() + seq!['/'] + sub_dir_path@,
    {
        join_path(&self.cache_dir, sub_dir_path)
    }

    /// The location of a file under the data directory.
    pub fn data_path(&self, file_path: &str) -> (r: String)
        ensures
            r@ == self.data() + seq!['/'] + file_path@,
    {
        join_path(&self.data_dir, file_path)
    }
}

/// Joins a base directory and a relative path with one separator.
fn join_path(base: &String, rel: &str) -> (r: String)
    ensures
        r@ == base@ + seq!['/'] + rel@,
{
    let r = base.clone().concat("/").concat(rel);
    proof {
        reveal_strlit("/");
        assert(r@ =~= base@ + seq!['/'] + rel@);
    }
    r
}

/// The composition root: one configuration, one catalog and one cache for
/// the process lifetime.
pub struct MeshCore {
    dirs: MeshDirs,
    config: MeshConfig,
    catalog: Catalog,
    cache: MeshCache,
}

impl MeshCore {
    /// The per-user locations the core was composed with.
    pub closed spec fn dirs_view(&self) -> MeshDirs {
        self.dirs
    }

    /// The configuration the core owns.
    pub closed spec fn config_view(&self) -> MeshConfig {
        self.config
    }

    /// The catalog the core owns.
    pub closed spec fn catalog_view(&self) -> Catalog {
        self.catalog
    }

    /// The cache pairing the core owns.
    pub closed spec fn cache_view(&self) -> MeshCache {
        self.cache
    }

    /// Composes a core from its parts. The parts are constructed first —
    /// a failed part never leaves a half-initialized core behind.
    pub fn init(dirs: MeshDirs, config: MeshConfig, catalog: Catalog, cache: MeshCache) -> (r:
        MeshCore)
        requires
            catalog.wf(),
        ensures
            r.dirs_view() == dirs,
            r.config_view() == config,
            r.catalog_view() == catalog,
            r.cache_view() == cache,
            r.catalog_view().wf(),
    {
        MeshCore { dirs, config, catalog, cache }
    }

    /// The per-user locations.
    pub fn dirs(&self) -> (r: &MeshDirs)
        ensures
            *r == self.dirs_view(),
    {
        &self.dirs
    }

    /// The configuration.
    pub fn config(&self) -> (r: &MeshConfig)
        ensures
            *r == self.config_view(),
    {
        &self.config
    }

    /// The configuration, for setters.
    pub fn config_mut(&mut self) -> (r: &mut MeshConfig)
        ensures
            *r == old(self).config_view(),
            *final(r) == final(self).config_view(),
            final(self).dirs_view() == old(self).dirs_view(),
            final(self).catalog_view() == old(self).catalog_view(),
            final(self).cache_view() == old(self).cache_view(),
    {
        &mut self.config
    }

    /// The catalog.
    pub fn catalog(&self) -> (r: &Catalog)
        ensures
            *r == self.catalog_view(),
    {
        &self.catalog
    }

    /// The catalog, for writes.
    pub fn catalog_mut(&mut self) -> (r: &mut Catalog)
        ensures
            *r == old(self).catalog_view(),
            *final(r) == final(self).catalog_view(),
            final(self).dirs_view() == old(self).dirs_view(),
            final(self).config_view() == old(self).config_view(),
            final(self).cache_view() == old(self).cache_view(),
    {
        &mut self.catalog
    }

    /// The cache pairing.
    pub fn cache(&self) -> (r: &MeshCache)
        ensures
            *r == self.cache_view(),
    {
        &self.cache
    }

    /// The cache pairing, for writes.
    pub fn cache_mut(&mut self) -> (r: &mut MeshCache)
        ensures
            *r == old(self).cache_view(),
            *final(r) == final(self).cache_view(),
            final(self).dirs_view() == old(self).dirs_view(),
            final(self).config_view() == old(self).config_view(),
            final(self).catalog_view() == old(self).catalog_view(),
    {
        &mut self.cache
    }
}

} // verus!
