use mesh_core::catalog::Catalog;
use mesh_core::errors::MeshError;

fn insert(c: &mut Catalog, path: &str, hash: &str, name: &str) -> Result<u64, MeshError> {
    c.insert_photo(
        path.to_string(),
        hash.to_string(),
        name.to_string(),
        800,
        600,
        1024,
        1_700_000_000,
        1_700_000_000,
    )
}

#[test]
fn duplicate_path_is_refused() {
    let mut c = Catalog::new();
    insert(&mut c, "/a/sunset.jpg", "h1", "sunset.jpg").unwrap();
    let r = insert(&mut c, "/a/sunset.jpg", "h2", "sunset.jpg");
    assert_eq!(r.unwrap_err(), MeshError::DuplicateKey);
    assert_eq!(c.photo_count(), 1);
}

#[test]
fn duplicate_hash_with_different_path_is_refused() {
    let mut c = Catalog::new();
    insert(&mut c, "/a/sunset.jpg", "h1", "sunset.jpg").unwrap();
    let r = insert(&mut c, "/b/other.jpg", "h1", "other.jpg");
    assert_eq!(r.unwrap_err(), MeshError::DuplicateKey);
    assert_eq!(c.photo_count(), 1);
}

#[test]
fn filename_search_follows_renames() {
    let mut c = Catalog::new();
    let id = insert(&mut c, "/a/sunset.jpg", "h1", "sunset.jpg").unwrap();
    assert_eq!(c.search_filename("sunset"), vec![id]);
    c.update_photo_filename(id, "dusk.jpg".to_string()).unwrap();
    assert_eq!(c.search_filename("sunset"), Vec::<u64>::new());
    assert_eq!(c.search_filename("dusk"), vec![id]);
}

#[test]
fn search_matches_whole_tokens_case_insensitively() {
    let mut c = Catalog::new();
    let id = insert(&mut c, "/a/sunset.jpg", "h1", "sunset.jpg").unwrap();
    insert(&mut c, "/a/sun.jpg", "h2", "sun.jpg").unwrap();
    assert_eq!(c.search_filename("SUNSET"), vec![id]);
    // "sunset" is one token of "sunset.jpg"; "sunse" is not a whole token.
    assert_eq!(c.search_filename("sunse"), Vec::<u64>::new());
    assert_eq!(c.search_filename(""), Vec::<u64>::new());
    assert_eq!(c.search_filename("sunset.jpg"), Vec::<u64>::new());
}

#[test]
fn deleting_a_tag_nulls_children_and_keeps_them() {
    let mut c = Catalog::new();
    let parent = c.insert_tag("travel".to_string(), None, "#FFFFFF".to_string()).unwrap();
    let child = c
        .insert_tag("beach".to_string(), Some(parent), "#FFFFFF".to_string())
        .unwrap();
    c.delete_tag(parent).unwrap();
    assert!(c.find_tag(parent).is_none());
    let kept = c.find_tag(child).expect("child must survive its parent");
    assert_eq!(kept.parent_id, None);
    assert_eq!(kept.name, "beach");
}

#[test]
fn deleting_a_photo_cascades_only_its_associations() {
    let mut c = Catalog::new();
    let p1 = insert(&mut c, "/a/one.jpg", "h1", "one.jpg").unwrap();
    let p2 = insert(&mut c, "/a/two.jpg", "h2", "two.jpg").unwrap();
    let t = c.insert_tag("travel".to_string(), None, "#FFFFFF".to_string()).unwrap();
    c.add_photo_tag(p1, t).unwrap();
    c.add_photo_tag(p2, t).unwrap();
    assert_eq!(c.tag_count(t).unwrap(), 2);
    c.delete_photo(p1).unwrap();
    assert!(!c.has_link(p1, t));
    assert!(c.has_link(p2, t));
    assert_eq!(c.tag_count(t).unwrap(), 1);
    assert_eq!(c.link_count(), 1);
}

#[test]
fn deleting_a_tag_cascades_its_associations() {
    let mut c = Catalog::new();
    let p = insert(&mut c, "/a/one.jpg", "h1", "one.jpg").unwrap();
    let t1 = c.insert_tag("travel".to_string(), None, "#FFFFFF".to_string()).unwrap();
    let t2 = c.insert_tag("family".to_string(), None, "#FFFFFF".to_string()).unwrap();
    c.add_photo_tag(p, t1).unwrap();
    c.add_photo_tag(p, t2).unwrap();
    c.delete_tag(t1).unwrap();
    assert!(!c.has_link(p, t1));
    assert!(c.has_link(p, t2));
    assert_eq!(c.tag_count(t2).unwrap(), 1);
}

#[test]
fn association_errors_are_reported() {
    let mut c = Catalog::new();
    let p = insert(&mut c, "/a/one.jpg", "h1", "one.jpg").unwrap();
    let t = c.insert_tag("travel".to_string(), None, "#FFFFFF".to_string()).unwrap();
    assert_eq!(c.add_photo_tag(p, 999).unwrap_err(), MeshError::NotFound);
    assert_eq!(c.add_photo_tag(999, t).unwrap_err(), MeshError::NotFound);
    c.add_photo_tag(p, t).unwrap();
    assert_eq!(c.add_photo_tag(p, t).unwrap_err(), MeshError::DuplicateKey);
    assert_eq!(c.remove_photo_tag(p, 999).unwrap_err(), MeshError::NotFound);
    c.remove_photo_tag(p, t).unwrap();
    assert_eq!(c.tag_count(t).unwrap(), 0);
}

#[test]
fn tag_errors_are_reported() {
    let mut c = Catalog::new();
    c.insert_tag("travel".to_string(), None, "#FFFFFF".to_string()).unwrap();
    let dup = c.insert_tag("travel".to_string(), None, "#000000".to_string());
    assert_eq!(dup.unwrap_err(), MeshError::DuplicateKey);
    let orphan = c.insert_tag("beach".to_string(), Some(42), "#FFFFFF".to_string());
    assert_eq!(orphan.unwrap_err(), MeshError::NotFound);
    assert_eq!(c.delete_tag(42).unwrap_err(), MeshError::NotFound);
}

#[test]
fn photo_lookup_and_update_errors_are_reported() {
    let mut c = Catalog::new();
    assert_eq!(c.delete_photo(1).unwrap_err(), MeshError::NotFound);
    assert_eq!(
        c.update_photo_filename(1, "x.jpg".to_string()).unwrap_err(),
        MeshError::NotFound
    );
    let id = insert(&mut c, "/a/one.jpg", "h1", "one.jpg").unwrap();
    let rec = c.find_photo(id).unwrap();
    assert_eq!(rec.path, "/a/one.jpg");
    assert_eq!(rec.width, 800);
    c.delete_photo(id).unwrap();
    assert!(c.find_photo(id).is_none());
    assert_eq!(c.photo_count(), 0);
}

#[test]
fn ids_are_assigned_in_sequence_and_never_reused() {
    let mut c = Catalog::new();
    let a = insert(&mut c, "/a/one.jpg", "h1", "one.jpg").unwrap();
    let b = insert(&mut c, "/a/two.jpg", "h2", "two.jpg").unwrap();
    assert_eq!(a, 1);
    assert_eq!(b, 2);
    c.delete_photo(b).unwrap();
    let d = insert(&mut c, "/a/three.jpg", "h3", "three.jpg").unwrap();
    assert_eq!(d, 3);
}

#[test]
fn photos_are_found_by_path_for_rescans() {
    let mut c = Catalog::new();
    let id = insert(&mut c, "/a/one.jpg", "h1", "one.jpg").unwrap();
    let found = c.find_photo_by_path(&"/a/one.jpg".to_string()).unwrap();
    assert_eq!(found.id, id);
    assert!(c.find_photo_by_path(&"/a/missing.jpg".to_string()).is_none());
}

#[test]
fn rescans_update_measurements_in_place() {
    let mut c = Catalog::new();
    let id = insert(&mut c, "/a/one.jpg", "h1", "one.jpg").unwrap();
    c.update_photo_scan(id, 1920, 1080, 2048, 1_800_000_000).unwrap();
    let rec = c.find_photo(id).unwrap();
    assert_eq!((rec.width, rec.height, rec.size, rec.modified_at), (1920, 1080, 2048, 1_800_000_000));
    assert_eq!(rec.filename, "one.jpg");
    assert_eq!(c.photo_count(), 1);
    assert_eq!(c.update_photo_scan(99, 1, 1, 1, 0).unwrap_err(), MeshError::NotFound);
}
