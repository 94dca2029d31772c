//! Tests for the data model: accessors, setters, structural equality,
//! wire boolean conversion and wire-shape classification.

use cococrawl::classify::{
    classify_annotation, classify_category, AnnotationFields, AnnotationKind, CategoryFields,
    CategoryKind,
};
use cococrawl::conv::{bool_from_int, bool_to_int};
use cococrawl::model::{
    BBox, CocoAnnotation, CocoCategory, CocoDensePoseAnnotation, CocoImage,
    CocoImageCaptioningAnnotation, CocoKeypointDetectionAnnotation, CocoKeypointDetectionCategory,
    CocoLicense, CocoObjectDetectionAnnotation, CocoObjectDetectionCategory,
    CocoPanopticSegmentInfo, CocoPanopticSegmentationAnnotation, CocoPanopticSegmentationCategory,
    CocoRLE, CocoSegmentation, Color, HasCategoryID, HasID, SkeletonEdge,
};

fn bbox(x: f32, y: f32, w: f32, h: f32) -> BBox {
    BBox { x: x.to_bits(), y: y.to_bits(), w: w.to_bits(), h: h.to_bits() }
}

fn polygon(points: &[f32]) -> Vec<u32> {
    points.iter().map(|p| p.to_bits()).collect()
}

fn no_fields() -> AnnotationFields {
    AnnotationFields {
        has_id: false,
        has_image_id: false,
        has_category_id: false,
        has_segmentation: false,
        has_area: false,
        has_bbox: false,
        has_iscrowd: false,
        has_keypoints: false,
        has_num_keypoints: false,
        has_file_name: false,
        has_segments_info: false,
        has_caption: false,
        has_dp_i: false,
        has_dp_u: false,
        has_dp_v: false,
        has_dp_x: false,
        has_dp_y: false,
        has_dp_masks: false,
    }
}

fn object_detection_fields() -> AnnotationFields {
    AnnotationFields {
        has_id: true,
        has_image_id: true,
        has_category_id: true,
        has_segmentation: true,
        has_area: true,
        has_bbox: true,
        has_iscrowd: true,
        ..no_fields()
    }
}

fn no_category_fields() -> CategoryFields {
    CategoryFields {
        has_id: false,
        has_name: false,
        has_supercategory: false,
        has_keypoints: false,
        has_skeleton: false,
        has_isthing: false,
        has_color: false,
    }
}

#[test]
fn test_object_detection_category() {
    let fields = CategoryFields { has_id: true, has_name: true, has_supercategory: true, ..no_category_fields() };
    assert_eq!(classify_category(fields), Some(CategoryKind::ObjectDetection));
    let cat = CocoObjectDetectionCategory {
        id: 1,
        name: "person".to_string(),
        supercategory: "human".to_string(),
    };
    assert_eq!(cat.id, 1);
    assert_eq!(cat.name, "person");
    assert_eq!(cat.supercategory, "human");
}

#[test]
fn test_keypoint_detection_category() {
    let fields = CategoryFields {
        has_id: true,
        has_name: true,
        has_supercategory: true,
        has_keypoints: true,
        has_skeleton: true,
        ..no_category_fields()
    };
    assert_eq!(classify_category(fields), Some(CategoryKind::KeypointDetection));
    let cat = CocoKeypointDetectionCategory {
        id: 1,
        name: "person".to_string(),
        supercategory: "human".to_string(),
        keypoints: vec!["nose".to_string(), "left_eye".to_string(), "right_eye".to_string()],
        skeleton: vec![SkeletonEdge { a: 0, b: 1 }, SkeletonEdge { a: 0, b: 2 }],
    };
    assert_eq!(cat.id, 1);
    assert_eq!(cat.name, "person");
    assert_eq!(cat.keypoints.len(), 3);
    assert_eq!(cat.skeleton.len(), 2);
    assert_eq!(cat.keypoints[0], "nose");
}

#[test]
fn test_panoptic_segmentation_category() {
    let fields = CategoryFields {
        has_id: true,
        has_name: true,
        has_supercategory: true,
        has_isthing: true,
        has_color: true,
        ..no_category_fields()
    };
    assert_eq!(classify_category(fields), Some(CategoryKind::PanopticSegmentation));
    let cat = CocoPanopticSegmentationCategory {
        id: 1,
        name: "person".to_string(),
        supercategory: "human".to_string(),
        isthing: true,
        color: Color { r: 255, g: 128, b: 0 },
    };
    assert_eq!(cat.id, 1);
    assert_eq!(cat.name, "person");
    assert_eq!(cat.isthing, true);
    assert_eq!(cat.color, Color { r: 255, g: 128, b: 0 });
}

#[test]
fn test_object_detection_annotation() {
    assert_eq!(classify_annotation(object_detection_fields()), Some(AnnotationKind::ObjectDetection));
    let annotation = CocoAnnotation::ObjectDetection(CocoObjectDetectionAnnotation {
        id: 1,
        image_id: 42,
        category_id: 1,
        segmentation: CocoSegmentation::Polygon(vec![polygon(&[
            10.0, 10.0, 20.0, 10.0, 20.0, 20.0, 10.0, 20.0,
        ])]),
        area: 100.0f32.to_bits(),
        bbox: bbox(10.0, 10.0, 10.0, 10.0),
        iscrowd: false,
    });
    match annotation {
        CocoAnnotation::ObjectDetection(ann) => {
            assert_eq!(ann.id, 1);
            assert_eq!(ann.image_id, 42);
            assert_eq!(ann.category_id, 1);
            assert_eq!(f32::from_bits(ann.area), 100.0);
            assert_eq!(ann.bbox, bbox(10.0, 10.0, 10.0, 10.0));
            assert_eq!(ann.iscrowd, false);
        }
        _ => panic!("Expected ObjectDetection annotation"),
    }
}

#[test]
fn test_keypoint_detection_annotation() {
    let fields = AnnotationFields { has_keypoints: true, has_num_keypoints: true, ..object_detection_fields() };
    assert_eq!(classify_annotation(fields), Some(AnnotationKind::KeypointDetection));
    let annotation = CocoAnnotation::KeypointDetection(CocoKeypointDetectionAnnotation {
        id: 1,
        image_id: 42,
        category_id: 1,
        segmentation: CocoSegmentation::Polygon(vec![polygon(&[10.0, 10.0, 20.0, 10.0, 20.0, 20.0])]),
        area: 100.0f32.to_bits(),
        bbox: bbox(10.0, 10.0, 10.0, 10.0),
        iscrowd: false,
        keypoints: polygon(&[15.0, 15.0, 2.0, 18.0, 12.0, 2.0]),
        num_keypoints: 2,
    });
    match annotation {
        CocoAnnotation::KeypointDetection(ann) => {
            assert_eq!(ann.id, 1);
            assert_eq!(ann.image_id, 42);
            assert_eq!(ann.num_keypoints, 2);
            assert_eq!(ann.keypoints.len(), 6);
            assert_eq!(f32::from_bits(ann.keypoints[0]), 15.0);
        }
        _ => panic!("Expected KeypointDetection annotation"),
    }
}

#[test]
fn test_panoptic_segmentation_annotation() {
    let fields = AnnotationFields {
        has_image_id: true,
        has_file_name: true,
        has_segments_info: true,
        ..no_fields()
    };
    assert_eq!(classify_annotation(fields), Some(AnnotationKind::PanopticSegmentation));
    let annotation = CocoAnnotation::PanopticSegmentation(CocoPanopticSegmentationAnnotation {
        image_id: 42,
        file_name: "segmentation_42.png".to_string(),
        segments_info: vec![CocoPanopticSegmentInfo {
            id: 1,
            category_id: 1,
            area: 100,
            bbox: bbox(10.0, 10.0, 10.0, 10.0),
            iscrowd: false,
        }],
    });
    match annotation {
        CocoAnnotation::PanopticSegmentation(ann) => {
            assert_eq!(ann.image_id, 42);
            assert_eq!(ann.file_name, "segmentation_42.png");
            assert_eq!(ann.segments_info.len(), 1);
            assert_eq!(ann.segments_info[0].id, 1);
        }
        _ => panic!("Expected PanopticSegmentation annotation"),
    }
}

#[test]
fn test_image_captioning_annotation() {
    let fields = AnnotationFields { has_id: true, has_image_id: true, has_caption: true, ..no_fields() };
    assert_eq!(classify_annotation(fields), Some(AnnotationKind::ImageCaptioning));
    let annotation = CocoAnnotation::ImageCaptioning(CocoImageCaptioningAnnotation {
        id: 1,
        image_id: 42,
        caption: "A person riding a bicycle".to_string(),
    });
    match annotation {
        CocoAnnotation::ImageCaptioning(ann) => {
            assert_eq!(ann.id, 1);
            assert_eq!(ann.image_id, 42);
            assert_eq!(ann.caption, "A person riding a bicycle");
        }
        _ => panic!("Expected ImageCaptioning annotation"),
    }
}

#[test]
fn test_densepose_classification() {
    let fields = AnnotationFields {
        has_id: true,
        has_image_id: true,
        has_category_id: true,
        has_iscrowd: true,
        has_area: true,
        has_bbox: true,
        has_dp_i: true,
        has_dp_u: true,
        has_dp_v: true,
        has_dp_x: true,
        has_dp_y: true,
        has_dp_masks: true,
        ..no_fields()
    };
    assert_eq!(classify_annotation(fields), Some(AnnotationKind::DensePose));
}

#[test]
fn test_unclassifiable_annotation() {
    assert_eq!(classify_annotation(no_fields()), None);
    assert_eq!(classify_category(no_category_fields()), None);
}

#[test]
fn test_keypoints_take_priority_over_object_detection() {
    // an object with every object-detection field plus keypoints is a
    // keypoint-detection annotation, not an object-detection one
    let fields = AnnotationFields { has_keypoints: true, has_num_keypoints: true, ..object_detection_fields() };
    assert_eq!(classify_annotation(fields), Some(AnnotationKind::KeypointDetection));
    // a panoptic shape wins over captioning even when a caption is present
    let fields = AnnotationFields {
        has_image_id: true,
        has_id: true,
        has_caption: true,
        has_file_name: true,
        has_segments_info: true,
        ..no_fields()
    };
    assert_eq!(classify_annotation(fields), Some(AnnotationKind::PanopticSegmentation));
}

#[test]
fn test_coco_rle() {
    let rle = CocoRLE { counts: vec![100, 50, 100], size: (640, 480) };
    assert_eq!(rle.counts, vec![100, 50, 100]);
    assert_eq!(rle.size, (640, 480));
    let copy = rle.clone();
    assert_eq!(copy.counts, vec![100, 50, 100]);
    assert_eq!(copy.size, (640, 480));
}

#[test]
fn test_panoptic_segment_info() {
    let segment = CocoPanopticSegmentInfo {
        id: 1,
        category_id: 5,
        area: 1500,
        bbox: bbox(100.0, 100.0, 50.0, 30.0),
        iscrowd: true,
    };
    assert_eq!(segment.id, 1);
    assert_eq!(segment.category_id, 5);
    assert_eq!(segment.area, 1500);
    assert_eq!(segment.iscrowd, true);
}

#[test]
fn test_bool_from_int_zero() {
    assert_eq!(bool_from_int(0), Some(false));
}

#[test]
fn test_bool_from_int_one() {
    assert_eq!(bool_from_int(1), Some(true));
}

#[test]
fn test_bool_from_int_invalid() {
    assert!(bool_from_int(2).is_none());
}

#[test]
fn test_bool_to_int() {
    assert_eq!(bool_to_int(false), 0);
    assert_eq!(bool_to_int(true), 1);
}

#[test]
fn test_annotation_image_id() {
    let obj_det = CocoAnnotation::ObjectDetection(CocoObjectDetectionAnnotation {
        id: 1,
        image_id: 42,
        category_id: 1,
        segmentation: CocoSegmentation::Polygon(vec![polygon(&[0.0, 0.0, 1.0, 1.0])]),
        area: 1.0f32.to_bits(),
        bbox: bbox(0.0, 0.0, 1.0, 1.0),
        iscrowd: false,
    });
    assert_eq!(obj_det.image_id(), 42);

    let captioning = CocoAnnotation::ImageCaptioning(CocoImageCaptioningAnnotation {
        id: 2,
        image_id: 99,
        caption: "test".to_string(),
    });
    assert_eq!(captioning.image_id(), 99);
}

#[test]
fn test_densepose_has_id() {
    let mut ann = CocoDensePoseAnnotation {
        id: 100,
        image_id: 200,
        category_id: 1,
        iscrowd: false,
        area: 500,
        bbox: bbox(0.0, 0.0, 10.0, 10.0),
        dp_i: vec![],
        dp_u: vec![],
        dp_v: vec![],
        dp_x: vec![],
        dp_y: vec![],
        dp_masks: vec![],
    };
    assert_eq!(ann.id(), 100);
    ann.set_id(999);
    assert_eq!(ann.id(), 999);
}

#[test]
fn test_densepose_has_category_id() {
    let mut ann = CocoDensePoseAnnotation {
        id: 1,
        image_id: 2,
        category_id: 5,
        iscrowd: false,
        area: 100,
        bbox: bbox(0.0, 0.0, 1.0, 1.0),
        dp_i: vec![],
        dp_u: vec![],
        dp_v: vec![],
        dp_x: vec![],
        dp_y: vec![],
        dp_masks: vec![],
    };
    assert_eq!(ann.category_id(), 5);
    ann.set_category_id(10);
    assert_eq!(ann.category_id(), 10);
}

#[test]
fn test_densepose_annotation_image_id() {
    let mut ann = CocoAnnotation::DensePose(CocoDensePoseAnnotation {
        id: 1,
        image_id: 50,
        category_id: 1,
        iscrowd: false,
        area: 100,
        bbox: bbox(0.0, 0.0, 1.0, 1.0),
        dp_i: vec![],
        dp_u: vec![],
        dp_v: vec![],
        dp_x: vec![],
        dp_y: vec![],
        dp_masks: vec![],
    });
    assert_eq!(ann.image_id(), 50);
    ann.set_image_id(75);
    assert_eq!(ann.image_id(), 75);
}

#[test]
fn test_coco_image_set_id() {
    let mut image = CocoImage {
        id: 10,
        width: 100,
        height: 200,
        file_name: "test.jpg".to_string(),
        license: None,
        flickr_url: None,
        coco_url: None,
        date_captured: None,
    };
    assert_eq!(image.id(), 10);
    image.set_id(999);
    assert_eq!(image.id(), 999);
    assert_eq!(image.id, 999);
}

#[test]
fn test_coco_license_set_id() {
    let mut license = CocoLicense {
        id: 1,
        name: "MIT".to_string(),
        url: "http://mit.edu".to_string(),
    };
    assert_eq!(license.id(), 1);
    license.set_id(50);
    assert_eq!(license.id(), 50);
    assert_eq!(license.id, 50);
}

#[test]
fn test_object_detection_annotation_setters() {
    let mut ann = CocoObjectDetectionAnnotation {
        id: 1,
        image_id: 10,
        category_id: 5,
        segmentation: CocoSegmentation::Polygon(vec![polygon(&[0.0, 0.0, 1.0, 1.0])]),
        area: 100.0f32.to_bits(),
        bbox: bbox(0.0, 0.0, 10.0, 10.0),
        iscrowd: false,
    };
    assert_eq!(ann.id(), 1);
    ann.set_id(100);
    assert_eq!(ann.id(), 100);

    assert_eq!(ann.category_id(), 5);
    ann.set_category_id(20);
    assert_eq!(ann.category_id(), 20);
}

#[test]
fn test_keypoint_detection_annotation_setters() {
    let mut ann = CocoKeypointDetectionAnnotation {
        id: 2,
        image_id: 20,
        category_id: 3,
        segmentation: CocoSegmentation::Polygon(vec![]),
        area: 50.0f32.to_bits(),
        bbox: bbox(0.0, 0.0, 5.0, 5.0),
        iscrowd: false,
        keypoints: polygon(&[1.0, 2.0, 3.0]),
        num_keypoints: 1,
    };
    assert_eq!(ann.id(), 2);
    ann.set_id(200);
    assert_eq!(ann.id(), 200);

    assert_eq!(ann.category_id(), 3);
    ann.set_category_id(30);
    assert_eq!(ann.category_id(), 30);
}

#[test]
fn test_image_captioning_annotation_set_id() {
    let mut ann = CocoImageCaptioningAnnotation {
        id: 5,
        image_id: 50,
        caption: "Test caption".to_string(),
    };
    assert_eq!(ann.id(), 5);
    ann.set_id(500);
    assert_eq!(ann.id(), 500);
}

#[test]
fn test_panoptic_segment_info_set_id() {
    let mut segment = CocoPanopticSegmentInfo {
        id: 10,
        category_id: 2,
        area: 100,
        bbox: bbox(0.0, 0.0, 10.0, 10.0),
        iscrowd: false,
    };
    assert_eq!(segment.id(), 10);
    segment.set_id(1000);
    assert_eq!(segment.id(), 1000);
}

#[test]
fn test_category_enum_set_id() {
    let mut cat = CocoCategory::ObjectDetection(CocoObjectDetectionCategory {
        id: 1,
        name: "person".to_string(),
        supercategory: "human".to_string(),
    });
    assert_eq!(cat.id(), 1);
    cat.set_id(99);
    assert_eq!(cat.id(), 99);
}

#[test]
fn test_object_detection_category_set_id() {
    let mut cat = CocoObjectDetectionCategory {
        id: 1,
        name: "car".to_string(),
        supercategory: "vehicle".to_string(),
    };
    assert_eq!(cat.id(), 1);
    cat.set_id(42);
    assert_eq!(cat.id(), 42);
}

#[test]
fn test_keypoint_detection_category_set_id() {
    let mut cat = CocoKeypointDetectionCategory {
        id: 2,
        name: "person".to_string(),
        supercategory: "human".to_string(),
        keypoints: vec!["nose".to_string()],
        skeleton: vec![SkeletonEdge { a: 0, b: 1 }],
    };
    assert_eq!(cat.id(), 2);
    cat.set_id(43);
    assert_eq!(cat.id(), 43);
}

#[test]
fn test_panoptic_segmentation_category_set_id() {
    let mut cat = CocoPanopticSegmentationCategory {
        id: 3,
        name: "sky".to_string(),
        supercategory: "background".to_string(),
        isthing: false,
        color: Color { r: 135, g: 206, b: 235 },
    };
    assert_eq!(cat.id(), 3);
    cat.set_id(44);
    assert_eq!(cat.id(), 44);
}

#[test]
fn test_annotation_set_image_id_all_types() {
    let mut obj_det = CocoAnnotation::ObjectDetection(CocoObjectDetectionAnnotation {
        id: 1,
        image_id: 10,
        category_id: 1,
        segmentation: CocoSegmentation::Polygon(vec![]),
        area: 1.0f32.to_bits(),
        bbox: bbox(0.0, 0.0, 1.0, 1.0),
        iscrowd: false,
    });
    obj_det.set_image_id(100);
    assert_eq!(obj_det.image_id(), 100);

    let mut kp_det = CocoAnnotation::KeypointDetection(CocoKeypointDetectionAnnotation {
        id: 2,
        image_id: 20,
        category_id: 1,
        segmentation: CocoSegmentation::Polygon(vec![]),
        area: 1.0f32.to_bits(),
        bbox: bbox(0.0, 0.0, 1.0, 1.0),
        iscrowd: false,
        keypoints: vec![],
        num_keypoints: 0,
    });
    kp_det.set_image_id(200);
    assert_eq!(kp_det.image_id(), 200);

    let mut panoptic = CocoAnnotation::PanopticSegmentation(CocoPanopticSegmentationAnnotation {
        image_id: 30,
        file_name: "test.png".to_string(),
        segments_info: vec![],
    });
    panoptic.set_image_id(300);
    assert_eq!(panoptic.image_id(), 300);

    let mut caption = CocoAnnotation::ImageCaptioning(CocoImageCaptioningAnnotation {
        id: 4,
        image_id: 40,
        caption: "test".to_string(),
    });
    caption.set_image_id(400);
    assert_eq!(caption.image_id(), 400);

    let mut densepose = CocoAnnotation::DensePose(CocoDensePoseAnnotation {
        id: 5,
        image_id: 50,
        category_id: 1,
        iscrowd: false,
        area: 100,
        bbox: bbox(0.0, 0.0, 1.0, 1.0),
        dp_i: vec![],
        dp_u: vec![],
        dp_v: vec![],
        dp_x: vec![],
        dp_y: vec![],
        dp_masks: vec![],
    });
    densepose.set_image_id(500);
    assert_eq!(densepose.image_id(), 500);
}

#[test]
fn test_coco_license_equality() {
    let license1 = CocoLicense {
        id: 1,
        name: "MIT".to_string(),
        url: "http://mit.edu".to_string(),
    };
    let license2 = CocoLicense {
        id: 999, // Different ID
        name: "MIT".to_string(),
        url: "http://mit.edu".to_string(),
    };
    let license3 = CocoLicense {
        id: 1,
        name: "Apache".to_string(),
        url: "http://apache.org".to_string(),
    };
    // Same name and URL, different ID -> should be equal
    assert!(license1 == license2);
    // Different name -> should not be equal
    assert!(license1 != license3);
}

#[test]
fn test_object_detection_category_equality() {
    let cat1 = CocoObjectDetectionCategory {
        id: 1,
        name: "person".to_string(),
        supercategory: "human".to_string(),
    };
    let cat2 = CocoObjectDetectionCategory {
        id: 999,
        name: "person".to_string(),
        supercategory: "human".to_string(),
    };
    let cat3 = CocoObjectDetectionCategory {
        id: 1,
        name: "car".to_string(),
        supercategory: "vehicle".to_string(),
    };
    assert!(cat1 == cat2);
    assert!(cat1 != cat3);
}

#[test]
fn test_keypoint_detection_category_equality() {
    let cat1 = CocoKeypointDetectionCategory {
        id: 1,
        name: "person".to_string(),
        supercategory: "human".to_string(),
        keypoints: vec!["nose".to_string(), "eye".to_string()],
        skeleton: vec![SkeletonEdge { a: 0, b: 1 }, SkeletonEdge { a: 1, b: 2 }],
    };
    let cat2 = CocoKeypointDetectionCategory {
        id: 999,
        name: "person".to_string(),
        supercategory: "human".to_string(),
        keypoints: vec!["nose".to_string(), "eye".to_string()],
        skeleton: vec![SkeletonEdge { a: 0, b: 1 }, SkeletonEdge { a: 1, b: 2 }],
    };
    let cat3 = CocoKeypointDetectionCategory {
        id: 1,
        name: "person".to_string(),
        supercategory: "human".to_string(),
        keypoints: vec!["nose".to_string()], // Different keypoints
        skeleton: vec![SkeletonEdge { a: 0, b: 1 }, SkeletonEdge { a: 1, b: 2 }],
    };
    assert!(cat1 == cat2);
    assert!(cat1 != cat3);
}

#[test]
fn test_panoptic_segmentation_category_equality() {
    let cat1 = CocoPanopticSegmentationCategory {
        id: 1,
        name: "sky".to_string(),
        supercategory: "background".to_string(),
        isthing: false,
        color: Color { r: 135, g: 206, b: 235 },
    };
    let cat2 = CocoPanopticSegmentationCategory {
        id: 999,
        name: "sky".to_string(),
        supercategory: "background".to_string(),
        isthing: false,
        color: Color { r: 135, g: 206, b: 235 },
    };
    let cat3 = CocoPanopticSegmentationCategory {
        id: 1,
        name: "sky".to_string(),
        supercategory: "background".to_string(),
        isthing: true, // Different isthing
        color: Color { r: 135, g: 206, b: 235 },
    };
    assert!(cat1 == cat2);
    assert!(cat1 != cat3);
}

#[test]
fn test_empty_rle_counts() {
    let rle = CocoRLE { counts: vec![], size: (100, 100) };
    let copy = rle.clone();
    assert_eq!(copy.counts.len(), 0);
    assert_eq!(copy.size, (100, 100));
}

#[test]
fn test_large_image_dimensions() {
    let image = CocoImage {
        id: 1,
        width: 10000,
        height: 8000,
        file_name: "huge.jpg".to_string(),
        license: None,
        flickr_url: None,
        coco_url: None,
        date_captured: None,
    };
    let copy = image.clone();
    assert_eq!(copy.width, 10000);
    assert_eq!(copy.height, 8000);
}

#[test]
fn test_bbox_with_zeros() {
    let ann = CocoObjectDetectionAnnotation {
        id: 1,
        image_id: 1,
        category_id: 1,
        segmentation: CocoSegmentation::Polygon(vec![]),
        area: 0.0f32.to_bits(),
        bbox: bbox(0.0, 0.0, 0.0, 0.0),
        iscrowd: false,
    };
    let copy = ann.clone();
    assert_eq!(copy.bbox, bbox(0.0, 0.0, 0.0, 0.0));
    assert_eq!(f32::from_bits(copy.area), 0.0);
}

#[test]
fn test_negative_bbox_values() {
    let ann = CocoObjectDetectionAnnotation {
        id: 1,
        image_id: 1,
        category_id: 1,
        segmentation: CocoSegmentation::Polygon(vec![]),
        area: 100.0f32.to_bits(),
        bbox: bbox(-10.0, -20.0, 30.0, 40.0),
        iscrowd: false,
    };
    let copy = ann.clone();
    assert_eq!(f32::from_bits(copy.bbox.x), -10.0);
    assert_eq!(f32::from_bits(copy.bbox.y), -20.0);
}

#[test]
fn test_empty_keypoints() {
    let ann = CocoKeypointDetectionAnnotation {
        id: 1,
        image_id: 1,
        category_id: 1,
        segmentation: CocoSegmentation::Polygon(vec![]),
        area: 1.0f32.to_bits(),
        bbox: bbox(0.0, 0.0, 1.0, 1.0),
        iscrowd: false,
        keypoints: vec![],
        num_keypoints: 0,
    };
    let copy = ann.clone();
    assert_eq!(copy.keypoints.len(), 0);
    assert_eq!(copy.num_keypoints, 0);
}

#[test]
fn test_empty_category_strings() {
    let cat = CocoObjectDetectionCategory {
        id: 1,
        name: "".to_string(),
        supercategory: "".to_string(),
    };
    let copy = cat.clone();
    assert_eq!(copy.name, "");
    assert_eq!(copy.supercategory, "");
}

#[test]
fn test_empty_caption() {
    let ann = CocoImageCaptioningAnnotation {
        id: 1,
        image_id: 1,
        caption: "".to_string(),
    };
    let copy = ann.clone();
    assert_eq!(copy.caption, "");
}

#[test]
fn test_panoptic_segmentation_empty_segments_info() {
    let ann = CocoPanopticSegmentationAnnotation {
        image_id: 1,
        file_name: "seg_1.png".to_string(),
        segments_info: vec![],
    };
    let copy = ann.clone();
    assert_eq!(copy.segments_info.len(), 0);
}

#[test]
fn test_category_enum_all_variants_id_methods() {
    let obj_det = CocoCategory::ObjectDetection(CocoObjectDetectionCategory {
        id: 1,
        name: "test".to_string(),
        supercategory: "test".to_string(),
    });
    assert_eq!(obj_det.id(), 1);

    let kp_det = CocoCategory::KeypointDetection(CocoKeypointDetectionCategory {
        id: 2,
        name: "test".to_string(),
        supercategory: "test".to_string(),
        keypoints: vec![],
        skeleton: vec![],
    });
    assert_eq!(kp_det.id(), 2);

    let panoptic = CocoCategory::PanopticSegmentation(CocoPanopticSegmentationCategory {
        id: 3,
        name: "test".to_string(),
        supercategory: "test".to_string(),
        isthing: true,
        color: Color { r: 0, g: 0, b: 0 },
    });
    assert_eq!(panoptic.id(), 3);
}
