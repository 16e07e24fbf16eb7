use mesh_core::bucket::get_file_path;
use mesh_core::errors::MeshError;
use mesh_core::store::MeshThumbnail;

#[test]
fn write_then_read_round_trips() {
    let mut store = MeshThumbnail::new(String::from("/cache/thumbnail"));
    store.write_thumbnail(42, &[1, 2, 3, 4]);
    assert_eq!(store.read_thumbnail(42).unwrap(), vec![1, 2, 3, 4]);
}

#[test]
fn overwrite_keeps_last_writer() {
    let mut store = MeshThumbnail::new(String::from("/cache/thumbnail"));
    store.write_thumbnail(7, &[1, 1, 1]);
    store.write_thumbnail(7, &[2, 2]);
    assert_eq!(store.read_thumbnail(7).unwrap(), vec![2, 2]);
}

#[test]
fn missing_blob_is_not_found() {
    let store = MeshThumbnail::new(String::from("/cache/thumbnail"));
    assert_eq!(store.read_thumbnail(9).unwrap_err(), MeshError::NotFound);
    assert!(!store.has_thumbnail(9));
}

#[test]
fn get_or_create_misses_then_hits() {
    let mut store = MeshThumbnail::new(String::from("/cache/thumbnail"));
    let first = store
        .get_or_create(11, || Ok(vec![9, 8, 7]))
        .unwrap();
    assert_eq!(first, vec![9, 8, 7]);
    assert!(store.has_thumbnail(11));
    // The second lookup must be served from the store: the maker fails,
    // so any second transcode would surface as an error.
    let second = store
        .get_or_create(11, || Err(MeshError::DecodeError))
        .unwrap();
    assert_eq!(second, first);
}

#[test]
fn get_or_create_reports_maker_failure_and_stores_nothing() {
    let mut store = MeshThumbnail::new(String::from("/cache/thumbnail"));
    let r = store.get_or_create(12, || Err(MeshError::DecodeError));
    assert_eq!(r.unwrap_err(), MeshError::DecodeError);
    assert!(!store.has_thumbnail(12));
}

#[test]
fn thumbnail_path_is_rooted_at_the_store_dir() {
    let store = MeshThumbnail::new(String::from("/cache/thumbnail"));
    let key: u128 = (0x0Fu128 << 120) | 3;
    assert_eq!(store.thumbnail_path(key), get_file_path("/cache/thumbnail", key));
    assert_eq!(store.thumbnail_path(key), format!("/cache/thumbnail/0f/00/{}", key));
}
