//! Recovering the kind of an untagged wire object from its fields.
//!
//! On the wire neither annotations nor categories carry a type tag: an
//! object's kind is the first of a fixed list of shapes whose required
//! fields are all present.  The order matters — an object with `keypoints`
//! is a keypoint-detection annotation even though it also has every
//! object-detection field — and is fixed here once for every reader.

use vstd::prelude::*;

verus! {

/// The five annotation shapes, in their fixed matching order.
#[derive(Clone, Copy, PartialEq, Eq, Structural, Debug)]
pub enum AnnotationKind {
    KeypointDetection,
    PanopticSegmentation,
    ImageCaptioning,
    ObjectDetection,
    DensePose,
}

/// The three category shapes, in their fixed matching order.
#[derive(Clone, Copy, PartialEq, Eq, Structural, Debug)]
pub enum CategoryKind {
    KeypointDetection,
    PanopticSegmentation,
    ObjectDetection,
}

/// Which fields a wire annotation object carries.
#[derive(Clone, Copy, PartialEq, Eq, Structural, Debug)]
pub struct AnnotationFields {
    pub has_id: bool,
    pub has_image_id: bool,
    pub has_category_id: bool,
    pub has_segmentation: bool,
    pub has_area: bool,
    pub has_bbox: bool,
    pub has_iscrowd: bool,
    pub has_keypoints: bool,
    pub has_num_keypoints: bool,
    pub has_file_name: bool,
    pub has_segments_info: bool,
    pub has_caption: bool,
    pub has_dp_i: bool,
    pub has_dp_u: bool,
    pub has_dp_v: bool,
    pub has_dp_x: bool,
    pub has_dp_y: bool,
    pub has_dp_masks: bool,
}

/// Which fields a wire category object carries.
#[derive(Clone, Copy, PartialEq, Eq, Structural, Debug)]
pub struct CategoryFields {
    pub has_id: bool,
    pub has_name: bool,
    pub has_supercategory: bool,
    pub has_keypoints: bool,
    pub has_skeleton: bool,
    pub has_isthing: bool,
    pub has_color: bool,
}

/// The keypoint-detection annotation shape.
pub open spec fn fits_keypoint_annotation(f: AnnotationFields) -> bool {
    f.has_id && f.has_image_id && f.has_category_id && f.has_segmentation && f.has_area
        && f.has_bbox && f.has_iscrowd && f.has_keypoints && f.has_num_keypoints
}

/// The panoptic-segmentation annotation shape.
pub open spec fn fits_panoptic_annotation(f: AnnotationFields) -> bool {
    f.has_image_id && f.has_file_name && f.has_segments_info
}

/// The image-captioning annotation shape.
pub open spec fn fits_captioning_annotation(f: AnnotationFields) -> bool {
    f.has_id && f.has_image_id && f.has_caption
}

/// The object-detection annotation shape.
pub open spec fn fits_object_detection_annotation(f: AnnotationFields) -> bool {
    f.has_id && f.has_image_id && f.has_category_id && f.has_segmentation && f.has_area
        && f.has_bbox && f.has_iscrowd
}

/// The dense-pose annotation shape.
pub open spec fn fits_dense_pose_annotation(f: AnnotationFields) -> bool {
    f.has_id && f.has_image_id && f.has_category_id && f.has_iscrowd && f.has_area && f.has_bbox
        && f.has_dp_i && f.has_dp_u && f.has_dp_v && f.has_dp_x && f.has_dp_y && f.has_dp_masks
}

/// The kind of a wire annotation object: the first shape, in matching
/// order, whose required fields are all present; `None` when no shape fits.
pub open spec fn spec_classify_annotation(f: AnnotationFields) -> Option<AnnotationKind> {
    if fits_keypoint_annotation(f) {
        Some(AnnotationKind::KeypointDetection)
    } else if fits_panoptic_annotation(f) {
        Some(AnnotationKind::PanopticSegmentation)
    } else if fits_captioning_annotation(f) {
        Some(AnnotationKind::ImageCaptioning)
    } else if fits_object_detection_annotation(f) {
        Some(AnnotationKind::ObjectDetection)
    } else if fits_dense_pose_annotation(f) {
        Some(AnnotationKind::DensePose)
    } else {
        None
    }
}

/// Classifies a wire annotation object by the fields it carries.
pub fn classify_annotation(f: AnnotationFields) -> (r: Option<AnnotationKind>)
    ensures
        r == spec_classify_annotation(f),
{
    if f.has_id && f.has_image_id && f.has_category_id && f.has_segmentation && f.has_area
        && f.has_bbox && f.has_iscrowd && f.has_keypoints && f.has_num_keypoints {
        Some(AnnotationKind::KeypointDetection)
    } else if f.has_image_id && f.has_file_name && f.has_segments_info {
        Some(AnnotationKind::PanopticSegmentation)
    } else if f.has_id && f.has_image_id && f.has_caption {
        Some(AnnotationKind::ImageCaptioning)
    } else if f.has_id && f.has_image_id && f.has_category_id && f.has_segmentation && f.has_area
        && f.has_bbox && f.has_iscrowd {
        Some(AnnotationKind::ObjectDetection)
    } else if f.has_id && f.has_image_id && f.has_category_id && f.has_iscrowd && f.has_area
        && f.has_bbox && f.has_dp_i && f.has_dp_u && f.has_dp_v && f.has_dp_x && f.has_dp_y
        && f.has_dp_masks {
        Some(AnnotationKind::DensePose)
    } else {
        None
    }
}

/// The keypoint-detection category shape.
pub open spec fn fits_keypoint_category(f: CategoryFields) -> bool {
    f.has_id && f.has_name && f.has_supercategory && f.has_keypoints && f.has_skeleton
}

/// The panoptic-segmentation category shape.
pub open spec fn fits_panoptic_category(f: CategoryFields) -> bool {
    f.has_id && f.has_name && f.has_supercategory && f.has_isthing && f.has_color
}

/// The object-detection category shape.
pub open spec fn fits_object_detection_category(f: CategoryFields) -> bool {
    f.has_id && f.has_name && f.has_supercategory
}

/// The kind of a wire category object: the first shape, in matching order,
/// whose required fields are all present; `None` when no shape fits.
pub open spec fn spec_classify_category(f: CategoryFields) -> Option<CategoryKind> {
    if fits_keypoint_category(f) {
        Some(CategoryKind::KeypointDetection)
    } else if fits_panoptic_category(f) {
        Some(CategoryKind::PanopticSegmentation)
    } else if fits_object_detection_category(f) {
        Some(CategoryKind::ObjectDetection)
    } else {
        None
    }
}

/// Classifies a wire category object by the fields it carries.
pub fn classify_category(f: CategoryFields) -> (r: Option<CategoryKind>)
    ensures
        r == spec_classify_category(f),
{
    if f.has_id && f.has_name && f.has_supercategory && f.has_keypoints && f.has_skeleton {
        Some(CategoryKind::KeypointDetection)
    } else if f.has_id && f.has_name && f.has_supercategory && f.has_isthing && f.has_color {
        Some(CategoryKind::PanopticSegmentation)
    } else if f.has_id && f.has_name && f.has_supercategory {
        Some(CategoryKind::ObjectDetection)
    } else {
        None
    }
}

} // verus!
