use canon_mapper::catalog::{build_catalog, media_id, Media, ScannedFile};
use canon_mapper::error::Errors;
use canon_mapper::mapper::{Mapper, OutputDir};
use canon_mapper::util::join;

fn file(name: &str, created_at: i64) -> ScannedFile {
    ScannedFile { name: name.to_string(), is_file: true, created_at }
}

fn dir(name: &str) -> ScannedFile {
    ScannedFile { name: name.to_string(), is_file: false, created_at: 0 }
}

fn empty_mapper() -> Mapper {
    match Mapper::try_new("/card".to_string(), "/out".to_string(), true, OutputDir::Listed(vec![])) {
        Ok(m) => m,
        Err(e) => panic!("unexpected error {:?}", e),
    }
}

#[test]
fn media_id_reads_four_digits() {
    assert_eq!(media_id("MVI_1234.MOV"), Some(1234));
    assert_eq!(media_id("MVI_0001.MOV"), Some(1));
    assert_eq!(media_id("MVI_0000.MOV"), Some(0));
    assert_eq!(media_id("MVI_9999.MOV"), Some(9999));
}

#[test]
fn media_id_rejects_other_names() {
    assert_eq!(media_id("MVI_123.MOV"), None);
    assert_eq!(media_id("MVI_12345.MOV"), None);
    assert_eq!(media_id("IMG_1234.JPG"), None);
    assert_eq!(media_id("mvi_1234.mov"), None);
    assert_eq!(media_id("MVI_12a4.MOV"), None);
    assert_eq!(media_id("MVI_1234.MP4"), None);
    assert_eq!(media_id(""), None);
}

#[test]
fn media_id_takes_leftmost_match() {
    assert_eq!(media_id("xMVI_0042.MOV.bak"), Some(42));
    assert_eq!(media_id("MVI_0007.MOVMVI_0008.MOV"), Some(7));
    assert_eq!(media_id("MVI_12345.MOV_MVI_0003.MOV"), Some(3));
}

#[test]
fn catalog_excludes_unmatched_and_directories() {
    let files = vec![
        file("MVI_0003.MOV", 30),
        file("notes.txt", 0),
        dir("MVI_0009.MOV"),
        file("MVI_0001.MOV", 10),
        file("MVI_01.MOV", 0),
        file("MVI_0002.MOV", 20),
    ];
    let v = build_catalog(&files).unwrap();
    let ids: Vec<u32> = v.iter().map(|m| m.id).collect();
    assert_eq!(ids, vec![1, 2, 3]);
    let names: Vec<&str> = v.iter().map(|m| m.filename.as_str()).collect();
    assert_eq!(names, vec!["MVI_0001.MOV", "MVI_0002.MOV", "MVI_0003.MOV"]);
    assert_eq!(v[0].created_at, 10);
}

#[test]
fn catalog_is_sorted_and_keeps_duplicates() {
    let files = vec![
        file("MVI_0500.MOV", 0),
        file("MVI_0010.MOV", 0),
        file("a_MVI_0010.MOV", 0),
        file("MVI_9999.MOV", 0),
        file("MVI_0200.MOV", 0),
    ];
    let v = build_catalog(&files).unwrap();
    let ids: Vec<u32> = v.iter().map(|m| m.id).collect();
    assert_eq!(ids, vec![10, 10, 200, 500, 9999]);
    for w in v.windows(2) {
        assert!(w[0].id <= w[1].id);
    }
}

#[test]
fn catalog_without_videos_fails() {
    assert!(matches!(build_catalog(&vec![]), Err(Errors::NoVideos)));
    let files = vec![file("readme.txt", 0), dir("MVI_0001.MOV")];
    assert!(matches!(build_catalog(&files), Err(Errors::NoVideos)));
}

#[test]
fn load_media_of_empty_folder_is_no_videos() {
    let mut m = empty_mapper();
    assert!(matches!(m.load_media(&vec![]), Err(Errors::NoVideos)));
    assert_eq!(m.len(), 0);
    assert_eq!(m.get_range().unwrap(), (0, 0));
}

#[test]
fn load_media_fills_catalog_and_range() {
    let mut m = empty_mapper();
    let files = vec![file("MVI_0042.MOV", 0), file("MVI_0007.MOV", 0), file("x.jpg", 0)];
    assert!(m.load_media(&files).is_ok());
    assert_eq!(m.len(), 2);
    assert_eq!(m.get_range().unwrap(), (7, 42));
}

#[test]
fn join_pushes_components() {
    assert_eq!(join("a", &["b", "c"]), "a/b/c");
    assert_eq!(join("a/", &["b"]), "a/b");
    assert_eq!(join("", &["b"]), "b");
    assert_eq!(join("a", &["/b"]), "/b");
    assert_eq!(join("a", &[]), "a");
}

#[test]
fn content_path_is_under_root() {
    assert_eq!(Mapper::content_path("/media/card"), "/media/card/DCIM/100CANON");
    assert_eq!(Mapper::content_path("."), "./DCIM/100CANON");
}

#[test]
fn media_fields_are_kept() {
    let m = Media { id: 5, filename: "MVI_0005.MOV".to_string(), created_at: -3 };
    assert_eq!(m.id, 5);
    assert_eq!(m.created_at, -3);
}
