use mesh_core::identity::identity_of;
use mesh_core::store::MeshThumbnail;

#[test]
fn identity_is_deterministic() {
    let a = identity_of(b"some file bytes");
    let b = identity_of(b"some file bytes");
    assert_eq!(a, b);
}

#[test]
fn identity_matches_truncated_digest() {
    let input = b"/photos/2024/sunset.jpg";
    let digest = blake3::hash(input);
    let mut first16 = [0u8; 16];
    first16.copy_from_slice(&digest.as_bytes()[0..16]);
    let expected = u128::from_le_bytes(first16);
    assert_eq!(identity_of(input), expected);
}

#[test]
fn identity_separates_a_corpus() {
    let inputs: Vec<&[u8]> = vec![
        b"",
        b"a",
        b"b",
        b"ab",
        b"ba",
        b"/pictures/cat.png",
        b"/pictures/cat.jpg",
        b"/pictures/dog.png",
        b"/pictures/sub/cat.png",
    ];
    let keys: Vec<u128> = inputs.iter().map(|i| identity_of(i)).collect();
    for i in 0..keys.len() {
        for j in 0..keys.len() {
            if i != j {
                assert_ne!(keys[i], keys[j], "collision between inputs {} and {}", i, j);
            }
        }
    }
}

#[test]
fn file_hash_uses_path_bytes() {
    let path = "/pictures/holiday/beach.jpg";
    let expected = identity_of(path.as_bytes());
    assert_eq!(MeshThumbnail::generate_file_hash(path), expected);
}
