use ooxmlsdk_build::paths::resolve_zip_file_path;

#[test]
fn resolves_a_target_under_the_root() {
    assert_eq!(resolve_zip_file_path("word/document.xml"), "word/document.xml");
}

#[test]
fn parent_segments_collapse() {
    assert_eq!(resolve_zip_file_path("word/../media/image1.png"), "media/image1.png");
}

#[test]
fn empty_and_current_segments_fall_away() {
    assert_eq!(resolve_zip_file_path("/word//./_rels/"), "word/_rels");
    assert_eq!(resolve_zip_file_path(""), "");
    assert_eq!(resolve_zip_file_path("."), "");
    assert_eq!(resolve_zip_file_path("/"), "");
}

#[test]
fn a_parent_segment_at_the_root_is_dropped() {
    assert_eq!(resolve_zip_file_path("../a"), "a");
    assert_eq!(resolve_zip_file_path("a/../../b/c/.."), "b");
}

#[test]
fn segments_that_only_look_like_dots_stay() {
    assert_eq!(resolve_zip_file_path("a/.../b"), "a/.../b");
    assert_eq!(resolve_zip_file_path(".a/b."), ".a/b.");
}
