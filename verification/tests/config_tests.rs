use mesh_core::config::MeshConfig;

#[test]
fn theme_changes_are_observable() {
    let mut config = MeshConfig::new(
        "/home/u/.config/mesh".to_string(),
        vec!["/home/u/Pictures".to_string()],
        Vec::new(),
        "Default Light".to_string(),
    );
    assert_eq!(config.current_theme(), "Default Light");
    config.change_theme("Ayu Dark".to_string());
    assert_eq!(config.current_theme(), "Ayu Dark");
}

#[test]
fn themes_live_under_the_config_dir() {
    let config = MeshConfig::new(
        "/home/u/.config/mesh".to_string(),
        Vec::new(),
        Vec::new(),
        "Default Light".to_string(),
    );
    assert_eq!(config.themes_dir_path(), "/home/u/.config/mesh/themes");
}

#[test]
fn defaults_use_the_picture_dir_when_known() {
    let config = MeshConfig::init_defaults(
        "/home/u/.config/mesh".to_string(),
        Some("/home/u/Pictures".to_string()),
    );
    assert_eq!(config.album_dirs(), &vec!["/home/u/Pictures".to_string()]);
    assert!(config.excluded_dirs().is_empty());
    assert_eq!(config.current_theme(), "Default Light");

    let bare = MeshConfig::init_defaults("/home/u/.config/mesh".to_string(), None);
    assert!(bare.album_dirs().is_empty());
}
