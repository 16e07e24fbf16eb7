//! The library's configuration: album roots, excluded roots and the theme
//! preference, owned explicitly and mutated through setters. Loading the
//! values from disk and writing them back belongs to the surrounding
//! program; the configuration itself performs no I/O.

use vstd::prelude::*;

verus! {

/// The configuration a media library runs under: the directories to index,
/// the directories to skip, the current theme name, and the directory that
/// holds the configuration itself.
pub struct MeshConfig {
    album_paths: Vec<String>,
    excluded_dirs: Vec<String>,
    theme: String,
    config_dir: String,
}

impl MeshConfig {
    /// The album root paths.
    pub closed spec fn albums(&self) -> Seq<String> {
        self.album_paths@
    }

    /// The excluded root paths.
    pub closed spec fn excluded(&self) -> Seq<String> {
        self.excluded_dirs@
    }

    /// The current theme name.
    pub closed spec fn theme_name(&self) -> Seq<char> {
        self.theme@
    }

    /// The configuration directory.
    pub closed spec fn dir(&self) -> Seq<char> {
        self.config_dir@
    }

    /// Builds a configuration from explicit values.
    pub fn new(
        config_dir: String,
        album_paths: Vec<String>,
        excluded_dirs: Vec<String>,
        theme: String,
    ) -> (r: MeshConfig)
        ensures
            r.albums() == album_paths@,
            r.excluded() == excluded_dirs@,
            r.theme_name() == theme@,
            r.dir() == config_dir@,
    {
        MeshConfig { album_paths, excluded_dirs, theme, config_dir }
    }

    /// The defaults when no configuration was persisted: the user's
    /// pictures directory as the only album root when one is known, no
    /// exclusions, and the default light theme.
    pub fn init_defaults(config_dir: String, picture_dir: Option<String>) -> (r: MeshConfig)
        ensures
            r.dir() == config_dir@,
            r.excluded() == Seq::<String>::empty(),
            r.theme_name() == "Default Light"@,
            picture_dir matches Some(p) ==> r.albums().len() == 1 && r.albums()[0]@ == p@,
            picture_dir is None ==> r.albums() == Seq::<String>::empty(),
    {
        let mut album_paths: Vec<String> = Vec::new();
        match picture_dir {
            Some(p) => {
                album_paths.push(p);
            },
            None => {},
        }
        MeshConfig {
            album_paths,
            excluded_dirs: Vec::new(),
            theme: "Default Light".to_owned(),
            config_dir,
        }
    }

    /// Replaces the theme preference.
    pub fn change_theme(&mut self, theme: String)
        ensures
            final(self).theme_name() == theme@,
            final(self).albums() == old(self).albums(),
            final(self).excluded() == old(self).excluded(),
            final(self).dir() == old(self).dir(),
    {
        self.theme = theme;
    }

    /// The current theme name.
    pub fn current_theme(&self) -> (r: String)
        ensures
            r@ == self.theme_name(),
    {
        self.theme.clone()
    }

    /// Where theme files live: the `themes` directory under the
    /// configuration directory.
    pub fn themes_dir_path(&self) -> (r: String)
        ensures
            r@ == self.dir() + "/themes"@,
    {
        self.config_dir.clone().concat("/themes")
    }

    /// The album root paths.
    pub fn album_dirs(&self) -> (r: &Vec<String>)
        ensures
            r@ == self.albums(),
    {
        &self.album_paths
    }

    /// The excluded root paths.
    pub fn excluded_dirs(&self) -> (r: &Vec<String>)
        ensures
            r@ == self.excluded(),
    {
        &self.excluded_dirs
    }
}

} // verus!
