//! Tests for the merge engine, the image id map and the path helpers.

use cococrawl::merge::{merge_coco_files, MergeError, MergeOutcome};
use cococrawl::model::{
    CocoAnnotation, CocoCategory, CocoFile, CocoImage, CocoImageCaptioningAnnotation,
    CocoLicense, CocoObjectDetectionAnnotation, CocoObjectDetectionCategory,
    CocoPanopticSegmentInfo, CocoPanopticSegmentationAnnotation, CocoSegmentation, BBox,
    HasCategoryID, HasID,
};
use cococrawl::path::{
    create_coco_image_path, is_in_directory_tree, join_path, parent_dir, resolve_file_name,
};

fn bbox0() -> BBox {
    BBox { x: 0, y: 0, w: 0, h: 0 }
}

fn img(id: i64, name: &str) -> CocoImage {
    CocoImage {
        id,
        width: 640,
        height: 480,
        file_name: name.to_string(),
        license: None,
        flickr_url: None,
        coco_url: None,
        date_captured: None,
    }
}

fn img_lic(id: i64, name: &str, license: i32) -> CocoImage {
    CocoImage { license: Some(license), ..img(id, name) }
}

fn lic(id: i32, name: &str, url: &str) -> CocoLicense {
    CocoLicense { id, name: name.to_string(), url: url.to_string() }
}

fn od_cat(id: i32, name: &str, supercategory: &str) -> CocoCategory {
    CocoCategory::ObjectDetection(CocoObjectDetectionCategory {
        id,
        name: name.to_string(),
        supercategory: supercategory.to_string(),
    })
}

fn od_ann(id: i64, image_id: i64, category_id: i32) -> CocoAnnotation {
    CocoAnnotation::ObjectDetection(CocoObjectDetectionAnnotation {
        id,
        image_id,
        category_id,
        segmentation: CocoSegmentation::Polygon(vec![]),
        area: 0,
        bbox: bbox0(),
        iscrowd: false,
    })
}

fn cap_ann(id: i64, image_id: i64, caption: &str) -> CocoAnnotation {
    CocoAnnotation::ImageCaptioning(CocoImageCaptioningAnnotation {
        id,
        image_id,
        caption: caption.to_string(),
    })
}

fn pan_ann(image_id: i64, file_name: &str, segments: Vec<CocoPanopticSegmentInfo>) -> CocoAnnotation {
    CocoAnnotation::PanopticSegmentation(CocoPanopticSegmentationAnnotation {
        image_id,
        file_name: file_name.to_string(),
        segments_info: segments,
    })
}

fn seg(id: i64, category_id: i32) -> CocoPanopticSegmentInfo {
    CocoPanopticSegmentInfo { id, category_id, area: 1, bbox: bbox0(), iscrowd: false }
}

fn file(
    images: Vec<CocoImage>,
    annotations: Vec<CocoAnnotation>,
    categories: Option<Vec<CocoCategory>>,
    licenses: Option<Vec<CocoLicense>>,
) -> CocoFile {
    CocoFile { images, annotations, info: None, categories, licenses }
}

fn merge(files: Vec<CocoFile>, paths: Vec<&str>, reassign: bool) -> Result<MergeOutcome, MergeError> {
    let paths: Vec<String> = paths.iter().map(|p| p.to_string()).collect();
    merge_coco_files(
        &files,
        &paths,
        reassign,
        "1.0.0".to_string(),
        2024,
        "2024-01-01T00:00:00Z".to_string(),
    )
}

#[test]
fn test_cocomerge_single_file() {
    let f = file(
        vec![img(1, "a.jpg"), img(2, "b.jpg")],
        vec![od_ann(1, 1, 1), cap_ann(2, 2, "hello")],
        Some(vec![od_cat(1, "person", "human")]),
        Some(vec![lic(1, "MIT", "http://mit.edu")]),
    );
    let out = merge(vec![f], vec!["coco.json"], false).unwrap();
    let m = out.file;
    assert_eq!(m.images.len(), 2);
    assert_eq!(m.images[0].id, 1);
    assert_eq!(m.images[0].file_name, "a.jpg");
    assert_eq!(m.images[1].id, 2);
    assert_eq!(m.annotations.len(), 2);
    assert_eq!(m.annotations[0].image_id(), 1);
    assert_eq!(m.annotations[1].image_id(), 2);
    let cats = m.categories.unwrap();
    assert_eq!(cats.len(), 1);
    assert_eq!(cats[0].id(), 1);
    let lics = m.licenses.unwrap();
    assert_eq!(lics.len(), 1);
    assert_eq!(lics[0].id, 1);
    let info = m.info.unwrap();
    assert_eq!(info.version, "1.0.0");
    assert_eq!(info.year, 2024);
    assert_eq!(info.description, "");
    assert_eq!(info.contributor, "");
    assert_eq!(info.url, "");
    assert_eq!(info.date_created, "2024-01-01T00:00:00Z");
    assert!(out.warnings.is_empty());
}

#[test]
fn test_cocomerge_basic() {
    let f1 = file(
        vec![img(1, "a.jpg")],
        vec![od_ann(1, 1, 1)],
        Some(vec![od_cat(1, "person", "human")]),
        None,
    );
    let f2 = file(
        vec![img(2, "b.jpg")],
        vec![od_ann(2, 2, 2)],
        Some(vec![od_cat(2, "car", "vehicle")]),
        None,
    );
    let out = merge(vec![f1, f2], vec!["a.json", "b.json"], false).unwrap();
    let m = out.file;
    assert_eq!(m.images.len(), 2);
    assert_eq!(m.images[0].id, 1);
    assert_eq!(m.images[1].id, 2);
    assert_eq!(m.annotations.len(), 2);
    let cats = m.categories.unwrap();
    assert_eq!(cats.len(), 2);
    assert_eq!(cats[0].id(), 1);
    assert_eq!(cats[1].id(), 2);
    assert!(out.warnings.is_empty());
}

#[test]
fn test_cocomerge_with_reassign_ids() {
    // both files use image id 1 for different images
    let f1 = file(vec![img(1, "a.jpg")], vec![cap_ann(1, 1, "first")], None, None);
    let f2 = file(vec![img(1, "b.jpg")], vec![cap_ann(2, 1, "second")], None, None);
    let out = merge(vec![f1, f2], vec!["a.json", "b.json"], true).unwrap();
    let m = out.file;
    assert_eq!(m.images.len(), 2);
    assert_eq!(m.images[0].id, 1);
    assert_eq!(m.images[0].file_name, "a.jpg");
    // the second image got a fresh id, past every id seen so far
    assert_eq!(m.images[1].id, 2);
    assert_eq!(m.images[1].file_name, "b.jpg");
    // the second file's annotation was retargeted at the new id
    assert_eq!(m.annotations.len(), 2);
    assert_eq!(m.annotations[0].image_id(), 1);
    assert_eq!(m.annotations[1].image_id(), 2);
    assert!(out.warnings.is_empty());
}

#[test]
fn test_cocomerge_drop_clashing() {
    // same collision, reassignment disabled: the image is dropped with a
    // warning and its annotations vanish
    let f1 = file(vec![img(1, "a.jpg")], vec![cap_ann(1, 1, "first")], None, None);
    let f2 = file(vec![img(1, "b.jpg")], vec![cap_ann(2, 1, "second")], None, None);
    let out = merge(vec![f1, f2], vec!["a.json", "b.json"], false).unwrap();
    let m = out.file;
    assert_eq!(m.images.len(), 1);
    assert_eq!(m.images[0].file_name, "a.jpg");
    assert_eq!(m.annotations.len(), 1);
    match &m.annotations[0] {
        CocoAnnotation::ImageCaptioning(a) => assert_eq!(a.caption, "first"),
        _ => panic!("expected the first file's caption annotation"),
    }
    assert_eq!(out.warnings.len(), 1);
    assert_eq!(out.warnings[0].file, "b.json");
    assert_eq!(out.warnings[0].image_id, 1);
}

#[test]
fn test_cocomerge_deduplicates_categories() {
    // structurally identical categories under different explicit ids
    let f1 = file(
        vec![img(1, "a.jpg")],
        vec![od_ann(1, 1, 1)],
        Some(vec![od_cat(1, "person", "human")]),
        None,
    );
    let f2 = file(
        vec![img(2, "b.jpg")],
        vec![od_ann(2, 2, 7)],
        Some(vec![od_cat(7, "person", "human")]),
        None,
    );
    let out = merge(vec![f1, f2], vec!["a.json", "b.json"], false).unwrap();
    let m = out.file;
    let cats = m.categories.unwrap();
    assert_eq!(cats.len(), 1);
    assert_eq!(cats[0].id(), 1);
    // both annotations resolve to the one canonical id
    match &m.annotations[0] {
        CocoAnnotation::ObjectDetection(a) => assert_eq!(a.category_id(), 1),
        _ => panic!("expected object-detection annotation"),
    }
    match &m.annotations[1] {
        CocoAnnotation::ObjectDetection(a) => assert_eq!(a.category_id(), 1),
        _ => panic!("expected object-detection annotation"),
    }
}

#[test]
fn test_cocomerge_deduplicates_licenses() {
    let f1 = file(
        vec![img_lic(1, "a.jpg", 1)],
        vec![],
        None,
        Some(vec![lic(1, "MIT", "http://mit.edu")]),
    );
    let f2 = file(
        vec![img_lic(2, "b.jpg", 9)],
        vec![],
        None,
        Some(vec![lic(9, "MIT", "http://mit.edu")]),
    );
    let out = merge(vec![f1, f2], vec!["a.json", "b.json"], false).unwrap();
    let m = out.file;
    let lics = m.licenses.unwrap();
    assert_eq!(lics.len(), 1);
    assert_eq!(lics[0].id, 1);
    // both images resolve to the one canonical license id
    assert_eq!(m.images[0].license, Some(1));
    assert_eq!(m.images[1].license, Some(1));
}

#[test]
fn test_shared_annotation_and_segment_id_namespace() {
    // a panoptic segment id coincides with an ordinary annotation id
    let f1 = file(
        vec![img(1, "a.jpg")],
        vec![od_ann(5, 1, 1)],
        Some(vec![od_cat(1, "person", "human")]),
        None,
    );
    let f2 = file(
        vec![img(2, "b.png")],
        vec![pan_ann(2, "seg.png", vec![seg(5, 1)])],
        Some(vec![od_cat(1, "person", "human")]),
        None,
    );
    let out = merge(vec![f1, f2], vec!["a.json", "b.json"], false).unwrap();
    let m = out.file;
    assert_eq!(m.annotations.len(), 2);
    // the ordinary annotation keeps id 5, the segment is reassigned
    let od_id = match &m.annotations[0] {
        CocoAnnotation::ObjectDetection(a) => a.id(),
        _ => panic!("expected object-detection annotation"),
    };
    let seg_id = match &m.annotations[1] {
        CocoAnnotation::PanopticSegmentation(a) => {
            assert_eq!(a.image_id, 2);
            a.segments_info[0].id()
        }
        _ => panic!("expected panoptic annotation"),
    };
    assert_eq!(od_id, 5);
    assert_ne!(seg_id, 5);
    assert_eq!(seg_id, 6);
    // both stay resolvable to their images
    assert_eq!(m.annotations[0].image_id(), 1);
    assert_eq!(m.annotations[1].image_id(), 2);
}

#[test]
fn test_missing_category_fatal() {
    // the annotation references a category its file never declared
    let f = file(
        vec![img(1, "a.jpg")],
        vec![od_ann(1, 1, 99)],
        Some(vec![od_cat(1, "person", "human")]),
        None,
    );
    let err = merge(vec![f], vec!["a.json"], false).unwrap_err();
    match err {
        MergeError::MissingCategoryForAnnotation { file, annotation_id, category_id } => {
            assert_eq!(file, "a.json");
            assert_eq!(annotation_id, 1);
            assert_eq!(category_id, 99);
        }
        _ => panic!("expected a missing-category error"),
    }
}

#[test]
fn test_missing_segment_category_fatal() {
    let f = file(
        vec![img(1, "a.jpg")],
        vec![pan_ann(1, "seg.png", vec![seg(7, 42)])],
        Some(vec![od_cat(1, "person", "human")]),
        None,
    );
    let err = merge(vec![f], vec!["a.json"], false).unwrap_err();
    match err {
        MergeError::MissingCategoryForSegment { file, segment_id, category_id } => {
            assert_eq!(file, "a.json");
            assert_eq!(segment_id, 7);
            assert_eq!(category_id, 42);
        }
        _ => panic!("expected a missing-segment-category error"),
    }
}

#[test]
fn test_missing_license_fatal() {
    let f = file(vec![img_lic(3, "a.jpg", 5)], vec![], None, Some(vec![]));
    let err = merge(vec![f], vec!["a.json"], false).unwrap_err();
    match err {
        MergeError::MissingLicense { file, image_id, license_id } => {
            assert_eq!(file, "a.json");
            assert_eq!(image_id, 3);
            assert_eq!(license_id, 5);
        }
        _ => panic!("expected a missing-license error"),
    }
}

#[test]
fn test_annotation_of_unknown_image_dropped() {
    // the annotation references an image id the file never declared: it
    // is silently discarded, unlike a missing category reference
    let f = file(vec![img(1, "a.jpg")], vec![cap_ann(1, 99, "orphan")], None, None);
    let out = merge(vec![f], vec!["a.json"], false).unwrap();
    assert_eq!(out.file.annotations.len(), 0);
    assert!(out.warnings.is_empty());
}

#[test]
fn test_category_id_collision_within_one_file() {
    // two different categories claiming the same id: the second gets the
    // next unseen id
    let f = file(
        vec![img(1, "a.jpg")],
        vec![],
        Some(vec![od_cat(1, "person", "human"), od_cat(1, "car", "vehicle")]),
        None,
    );
    let out = merge(vec![f], vec!["a.json"], false).unwrap();
    let cats = out.file.categories.unwrap();
    assert_eq!(cats.len(), 2);
    assert_eq!(cats[0].id(), 1);
    assert_eq!(cats[1].id(), 2);
}

#[test]
fn test_annotation_id_collision_always_reassigned() {
    // annotation id collisions are always reassigned, never dropped
    let f1 = file(vec![img(1, "a.jpg")], vec![cap_ann(3, 1, "one")], None, None);
    let f2 = file(vec![img(2, "b.jpg")], vec![cap_ann(3, 2, "two")], None, None);
    let out = merge(vec![f1, f2], vec!["a.json", "b.json"], false).unwrap();
    let m = out.file;
    assert_eq!(m.annotations.len(), 2);
    let id0 = match &m.annotations[0] {
        CocoAnnotation::ImageCaptioning(a) => a.id(),
        _ => panic!("expected captioning annotation"),
    };
    let id1 = match &m.annotations[1] {
        CocoAnnotation::ImageCaptioning(a) => a.id(),
        _ => panic!("expected captioning annotation"),
    };
    assert_eq!(id0, 3);
    assert_eq!(id1, 4);
}

#[test]
fn test_merge_no_files() {
    let out = merge(vec![], vec![], false).unwrap();
    let m = out.file;
    assert_eq!(m.images.len(), 0);
    assert_eq!(m.annotations.len(), 0);
    assert_eq!(m.categories.unwrap().len(), 0);
    assert_eq!(m.licenses.unwrap().len(), 0);
    assert!(out.warnings.is_empty());
}

#[test]
fn test_relative_paths_resolved_against_source_dir() {
    let f1 = file(vec![img(1, "img.jpg")], vec![], None, None);
    let f2 = file(vec![img(2, "/abs/img.png")], vec![], None, None);
    let out = merge(vec![f1, f2], vec!["data/sub/coco.json", "other/c.json"], false).unwrap();
    let m = out.file;
    assert_eq!(m.images[0].file_name, "data/sub/img.jpg");
    // absolute paths stay as they are
    assert_eq!(m.images[1].file_name, "/abs/img.png");
}

// ========== IMAGE ID MAP ==========

#[test]
fn test_make_id_map() {
    let coco_file = file(
        vec![img(1, "test1.jpg"), img(2, "test2.jpg")],
        vec![
            cap_ann(1, 1, "First image"),
            cap_ann(2, 1, "First image alt"),
            cap_ann(3, 2, "Second image"),
        ],
        None,
        Some(vec![]),
    );
    let id_map = coco_file.make_image_id_map();
    assert_eq!(id_map.len(), 2);

    let entry1 = id_map.get(1).unwrap();
    assert_eq!(entry1.id, 1);
    assert_eq!(entry1.image.file_name, "test1.jpg");
    assert_eq!(entry1.annotations.len(), 2);

    let entry2 = id_map.get(2).unwrap();
    assert_eq!(entry2.id, 2);
    assert_eq!(entry2.image.file_name, "test2.jpg");
    assert_eq!(entry2.annotations.len(), 1);
}

#[test]
fn test_make_id_map_with_no_annotations() {
    let coco_file = file(vec![img(1, "img1.jpg"), img(2, "img2.jpg")], vec![], None, None);
    let id_map = coco_file.make_image_id_map();
    assert_eq!(id_map.len(), 2);
    assert_eq!(id_map.get(1).unwrap().annotations.len(), 0);
    assert_eq!(id_map.get(2).unwrap().annotations.len(), 0);
}

#[test]
fn test_make_id_map_with_mixed_annotation_types() {
    let coco_file = file(
        vec![img(1, "img1.jpg")],
        vec![od_ann(1, 1, 1), cap_ann(2, 1, "test"), od_ann(3, 1, 1)],
        None,
        None,
    );
    let id_map = coco_file.make_image_id_map();
    let entry = id_map.get(1).unwrap();
    assert_eq!(entry.annotations.len(), 3);
}

#[test]
fn test_make_id_map_empty_dataset() {
    let coco_file = file(vec![], vec![], None, None);
    let id_map = coco_file.make_image_id_map();
    assert_eq!(id_map.len(), 0);
}

#[test]
fn test_make_id_map_repeated_image_id_keeps_last() {
    let coco_file = file(vec![img(1, "first.jpg"), img(1, "last.jpg")], vec![], None, None);
    let id_map = coco_file.make_image_id_map();
    assert_eq!(id_map.len(), 1);
    assert_eq!(id_map.get(1).unwrap().image.file_name, "last.jpg");
    assert!(id_map.get(2).is_none());
}

#[test]
fn test_coco_file_without_categories() {
    let coco_file = file(vec![], vec![], None, Some(vec![]));
    assert!(coco_file.categories.is_none());
}

// ========== PATHS ==========

#[test]
fn test_is_in_directory_tree() {
    assert!(is_in_directory_tree("/a/b/c.jpg", "/a/b"));
    assert!(is_in_directory_tree("/a/b", "/a/b"));
    // component-wise, not textual, prefixing
    assert!(!is_in_directory_tree("/a/bc", "/a/b"));
    // absolute and relative trees never contain one another
    assert!(!is_in_directory_tree("a/b/c.jpg", "/a/b"));
    assert!(is_in_directory_tree("a/b/c.jpg", "a/b"));
    // repeated separators carry no weight
    assert!(is_in_directory_tree("/a//b/c.jpg", "/a/b"));
}

#[test]
fn test_create_coco_image_path() {
    // an image inside the dataset file's tree is recorded relative to it
    assert_eq!(create_coco_image_path("/data/coco.json", "/data/images/img.jpg", false), "images/img.jpg");
    // outside the tree it keeps its canonical path
    assert_eq!(create_coco_image_path("/data/coco.json", "/elsewhere/img.jpg", false), "/elsewhere/img.jpg");
    // force_absolute keeps it too
    assert_eq!(create_coco_image_path("/data/coco.json", "/data/images/img.jpg", true), "/data/images/img.jpg");
}

#[test]
fn test_parent_dir() {
    assert_eq!(parent_dir("a/b/c.json"), "a/b");
    assert_eq!(parent_dir("c.json"), "");
    assert_eq!(parent_dir("/c.json"), "/");
    assert_eq!(parent_dir("/"), "/");
    assert_eq!(parent_dir(""), "");
}

#[test]
fn test_join_path() {
    assert_eq!(join_path("a/b", "c.jpg"), "a/b/c.jpg");
    assert_eq!(join_path("a/b/", "c.jpg"), "a/b/c.jpg");
    assert_eq!(join_path("", "c.jpg"), "c.jpg");
}

#[test]
fn test_resolve_file_name() {
    assert_eq!(resolve_file_name("data", "img.jpg"), "data/img.jpg");
    assert_eq!(resolve_file_name("data", "/abs/img.jpg"), "/abs/img.jpg");
    assert_eq!(resolve_file_name("", "img.jpg"), "img.jpg");
}
