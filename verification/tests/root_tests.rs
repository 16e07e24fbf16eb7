use mesh_core::cache::MeshCache;
use mesh_core::catalog::Catalog;
use mesh_core::config::MeshConfig;
use mesh_core::root::{MeshCore, MeshDirs};
use mesh_core::sqldb::MeshDatabase;
use mesh_core::store::MeshThumbnail;

#[test]
fn dirs_join_paths_with_one_separator() {
    let dirs = MeshDirs::new(
        "/home/u/.config/mesh".to_string(),
        "/home/u/.cache/mesh".to_string(),
        "/home/u/.local/share/mesh".to_string(),
    );
    assert_eq!(dirs.config_path("config.toml"), "/home/u/.config/mesh/config.toml");
    assert_eq!(dirs.cache_path("thumbnail"), "/home/u/.cache/mesh/thumbnail");
    assert_eq!(dirs.data_path("mesh.db"), "/home/u/.local/share/mesh/mesh.db");
}

#[test]
fn core_composes_catalog_cache_and_config() {
    let dirs = MeshDirs::new("/c".to_string(), "/h".to_string(), "/d".to_string());
    let config = MeshConfig::init_defaults("/c".to_string(), None);
    let catalog = Catalog::new();
    let conn = rusqlite::Connection::open_in_memory().unwrap();
    let db = MeshDatabase::init(conn).unwrap();
    let thumbnail = MeshThumbnail::new("/h/thumbnail".to_string());
    let cache = MeshCache::new(db, thumbnail);

    let mut core = MeshCore::init(dirs, config, catalog, cache);
    let id = core
        .catalog_mut()
        .insert_photo(
            "/p/a.jpg".to_string(),
            "h1".to_string(),
            "a.jpg".to_string(),
            10,
            10,
            1,
            0,
            0,
        )
        .unwrap();
    assert_eq!(core.catalog().search_filename("a"), vec![id]);
    core.cache_mut().thumbnail_mut().write_thumbnail(5, &[1]);
    assert_eq!(core.cache().thumbnail().read_thumbnail(5).unwrap(), vec![1]);
    assert!(core.cache().database().sqlite_version().is_ok());
    core.config_mut().change_theme("Ayu Dark".to_string());
    assert_eq!(core.config().current_theme(), "Ayu Dark");
}
