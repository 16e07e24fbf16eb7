use mesh_core::collect::collect_files;

fn strings(v: &[&str]) -> Vec<String> {
    v.iter().map(|s| s.to_string()).collect()
}

#[test]
fn keeps_only_album_files_with_image_extensions() {
    let albums = strings(&["/home/u/Pictures"]);
    let excluded: Vec<String> = Vec::new();
    let files = strings(&[
        "/home/u/Pictures/a.jpg",
        "/home/u/Pictures/b.txt",
        "/home/u/Pictures/sub/c.png",
        "/tmp/elsewhere.jpg",
        "/home/u/Pictures/noext",
    ]);
    let kept = collect_files(files, &albums, &excluded);
    assert_eq!(
        kept,
        strings(&["/home/u/Pictures/a.jpg", "/home/u/Pictures/sub/c.png"])
    );
}

#[test]
fn excluded_roots_drop_their_subtrees() {
    let albums = strings(&["/p"]);
    let excluded = strings(&["/p/private"]);
    let files = strings(&["/p/a.jpg", "/p/private/b.jpg", "/p/private2/c.jpg"]);
    let kept = collect_files(files, &albums, &excluded);
    assert_eq!(kept, strings(&["/p/a.jpg", "/p/private2/c.jpg"]));
}

#[test]
fn root_matching_respects_segment_boundaries() {
    let albums = strings(&["/album"]);
    let excluded: Vec<String> = Vec::new();
    let files = strings(&["/album/a.jpg", "/album2/b.jpg"]);
    let kept = collect_files(files, &albums, &excluded);
    assert_eq!(kept, strings(&["/album/a.jpg"]));
}

#[test]
fn extensions_match_case_insensitively() {
    let albums = strings(&["/p"]);
    let excluded: Vec<String> = Vec::new();
    let files = strings(&["/p/a.JPG", "/p/b.Jpeg", "/p/c.PNG", "/p/d.GIF"]);
    let kept = collect_files(files, &albums, &excluded);
    assert_eq!(kept, strings(&["/p/a.JPG", "/p/b.Jpeg", "/p/c.PNG"]));
}

#[test]
fn leading_dot_names_have_no_extension() {
    let albums = strings(&["/p"]);
    let excluded: Vec<String> = Vec::new();
    let files = strings(&["/p/.png", "/p/ok.png"]);
    let kept = collect_files(files, &albums, &excluded);
    assert_eq!(kept, strings(&["/p/ok.png"]));
}
