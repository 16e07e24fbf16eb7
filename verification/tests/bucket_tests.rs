use mesh_core::bucket::get_file_path;

#[test]
fn bucket_path_uses_top_two_bytes_and_decimal_name() {
    let key: u128 = (0xABu128 << 120) | (0xCDu128 << 112) | 5;
    let expected = format!("/cache/ab/cd/{}", key);
    assert_eq!(get_file_path("/cache", key), expected);
}

#[test]
fn bucket_path_pads_small_keys() {
    assert_eq!(get_file_path("/c", 7u128), "/c/00/00/7");
}

#[test]
fn bucket_path_is_reproducible() {
    let key: u128 = 123456789012345678901234567890u128;
    assert_eq!(get_file_path("/r", key), get_file_path("/r", key));
}

#[test]
fn keys_sharing_top_bytes_share_directories() {
    let k1: u128 = (0x12u128 << 120) | (0x34u128 << 112) | 1;
    let k2: u128 = (0x12u128 << 120) | (0x34u128 << 112) | 999_999_999;
    let p1 = get_file_path("/cache", k1);
    let p2 = get_file_path("/cache", k2);
    assert_eq!(&p1[..13], "/cache/12/34/");
    assert_eq!(&p2[..13], "/cache/12/34/");
}

#[test]
fn keys_differing_in_top_bytes_split_directories() {
    let k1: u128 = 0x10u128 << 120;
    let k2: u128 = 0x20u128 << 120;
    assert_eq!(&get_file_path("", k1)[..7], "/10/00/");
    assert_eq!(&get_file_path("", k2)[..7], "/20/00/");
}
