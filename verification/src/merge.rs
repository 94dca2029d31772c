//! The dataset-merge reconciliation engine.
//!
//! Any number of dataset description files are combined into one:
//! structurally identical categories and licenses collapse to a single
//! canonical entry, image id collisions are dropped or reassigned per
//! configuration, and annotation ids — panoptic segment ids included —
//! are kept unique in one shared namespace.  Files are processed in the
//! given order, and within a file categories, then licenses, then images,
//! then annotations, because each stage consumes the remap table built by
//! an earlier one; on an id collision the first occurrence keeps its id.
//!
//! The whole engine is specified against the recursive functions below
//! ([`spec_merge`] and the per-entity steps), which fold one entity at a
//! time into a [`MergeModel`].

use vstd::prelude::*;

use crate::model::{
    HasID,
    annotation_image_id, category_content_eq, category_id_of, category_with_id,
    license_content_eq, AnnotationV, CategoryV, CocoAnnotation, CocoCategory, CocoFile,
    CocoImage, CocoInfo, CocoLicense, CocoPanopticSegmentInfo, DensePoseAnnotationV, FileV,
    ImageCaptioningAnnotationV, ImageV, InfoV, KeypointDetectionAnnotationV, LicenseV,
    ObjectDetectionAnnotationV, PanopticSegmentInfoV, PanopticSegmentationAnnotationV,
};
use crate::path::{parent_dir, parent_dir_spec, resolve_file_name, resolved_file_name};
use std::collections::HashMap;
use std::collections::HashSet;

verus! {

broadcast use vstd::std_specs::hash::group_hash_axioms;

// Errors and warnings ///////////////////////////////////

/// Mathematical view of a [`MergeError`].
#[verifier::ext_equal]
pub ghost enum MergeErrorV {
    /// An image refers to a license its file never declared.
    MissingLicense { file: Seq<char>, image_id: i64, license_id: i32 },
    /// An annotation refers to a category its file never declared.
    MissingCategoryForAnnotation { file: Seq<char>, annotation_id: i64, category_id: i32 },
    /// A panoptic segment refers to a category its file never declared.
    MissingCategoryForSegment { file: Seq<char>, segment_id: i64, category_id: i32 },
}

/// Why a merge aborts: some entity refers to a category or license that
/// its own file never declared, so the input is internally inconsistent.
/// Each variant names the offending file and ids.
#[derive(Debug)]
pub enum MergeError {
    /// An image refers to a license its file never declared.
    MissingLicense { file: String, image_id: i64, license_id: i32 },
    /// An annotation refers to a category its file never declared.
    MissingCategoryForAnnotation { file: String, annotation_id: i64, category_id: i32 },
    /// A panoptic segment refers to a category its file never declared.
    MissingCategoryForSegment { file: String, segment_id: i64, category_id: i32 },
}

impl View for MergeError {
    type V = MergeErrorV;

    open spec fn view(&self) -> MergeErrorV {
        match self {
            MergeError::MissingLicense { file, image_id, license_id } => {
                MergeErrorV::MissingLicense {
                    file: file@,
                    image_id: *image_id,
                    license_id: *license_id,
                }
            },
            MergeError::MissingCategoryForAnnotation { file, annotation_id, category_id } => {
                MergeErrorV::MissingCategoryForAnnotation {
                    file: file@,
                    annotation_id: *annotation_id,
                    category_id: *category_id,
                }
            },
            MergeError::MissingCategoryForSegment { file, segment_id, category_id } => {
                MergeErrorV::MissingCategoryForSegment {
                    file: file@,
                    segment_id: *segment_id,
                    category_id: *category_id,
                }
            },
        }
    }
}

/// Mathematical view of a [`MergeWarning`].
#[verifier::ext_equal]
pub ghost struct WarningV {
    pub file: Seq<char>,
    pub image_id: i64,
}

/// A diagnostic emitted when a colliding image is dropped (reassignment
/// disabled): the file it came from and the id it carried.
#[derive(Debug)]
pub struct MergeWarning {
    pub file: String,
    pub image_id: i64,
}

impl View for MergeWarning {
    type V = WarningV;

    open spec fn view(&self) -> WarningV {
        WarningV { file: self.file@, image_id: self.image_id }
    }
}

impl DeepView for MergeWarning {
    type V = WarningV;

    open spec fn deep_view(&self) -> WarningV {
        self.view()
    }
}

// The merge model ///////////////////////////////////

/// The running state of a merge: the canonical entries and accumulated
/// output collected so far, the ids already in use in each namespace, and
/// the next-unseen-id counter of each namespace.  Annotation ids and
/// panoptic segment ids share one namespace.
#[verifier::ext_equal]
pub ghost struct MergeModel {
    pub categories: Seq<CategoryV>,
    pub category_ids: Set<i32>,
    pub next_category_id: int,
    pub licenses: Seq<LicenseV>,
    pub license_ids: Set<i32>,
    pub next_license_id: int,
    pub images: Seq<ImageV>,
    pub image_ids: Set<i64>,
    pub next_image_id: int,
    pub annotations: Seq<AnnotationV>,
    pub annotation_ids: Set<i64>,
    pub next_annotation_id: int,
    pub warnings: Seq<WarningV>,
}

/// The state before any file has been processed: everything empty, every
/// counter at zero.
pub open spec fn initial_model() -> MergeModel {
    MergeModel {
        categories: Seq::empty(),
        category_ids: Set::empty(),
        next_category_id: 0,
        licenses: Seq::empty(),
        license_ids: Set::empty(),
        next_license_id: 0,
        images: Seq::empty(),
        image_ids: Set::empty(),
        next_image_id: 0,
        annotations: Seq::empty(),
        annotation_ids: Set::empty(),
        next_annotation_id: 0,
        warnings: Seq::empty(),
    }
}

// Category reconciliation ///////////////////////////////////

/// The first canonical entry structurally equal to `c`, or `-1`.
pub open spec fn category_find(cats: Seq<CategoryV>, c: CategoryV) -> int
    decreases cats.len(),
{
    if cats.len() == 0 {
        -1
    } else if category_content_eq(cats[0], c) {
        0
    } else {
        let r = category_find(cats.drop_first(), c);
        if r == -1 {
            -1
        } else {
            r + 1
        }
    }
}

/// Folds one category of the current file into the state and the file's
/// category remap table.  A structurally known category maps to its
/// canonical id; a new one whose id is already claimed gets the next
/// unseen id; any other is accepted as it is and claims its id.
pub open spec fn category_step(m: MergeModel, remap: Map<i32, i32>, c: CategoryV) -> (
    MergeModel,
    Map<i32, i32>,
) {
    let j = category_find(m.categories, c);
    if j >= 0 {
        (m, remap.insert(category_id_of(c), category_id_of(m.categories[j])))
    } else if m.category_ids.contains(category_id_of(c)) {
        let new_id = m.next_category_id as i32;
        (
            MergeModel {
                categories: m.categories.push(category_with_id(c, new_id)),
                category_ids: m.category_ids.insert(new_id),
                next_category_id: m.next_category_id + 1,
                ..m
            },
            remap.insert(category_id_of(c), new_id),
        )
    } else {
        (
            MergeModel {
                categories: m.categories.push(c),
                category_ids: m.category_ids.insert(category_id_of(c)),
                next_category_id: if category_id_of(c) as int >= m.next_category_id {
                    category_id_of(c) as int + 1
                } else {
                    m.next_category_id
                },
                ..m
            },
            remap.insert(category_id_of(c), category_id_of(c)),
        )
    }
}

/// Folds a file's categories, in file order.
pub open spec fn categories_pass(m: MergeModel, remap: Map<i32, i32>, cs: Seq<CategoryV>) -> (
    MergeModel,
    Map<i32, i32>,
)
    decreases cs.len(),
{
    if cs.len() == 0 {
        (m, remap)
    } else {
        let (m1, r1) = category_step(m, remap, cs[0]);
        categories_pass(m1, r1, cs.drop_first())
    }
}

// License reconciliation ///////////////////////////////////

/// The first canonical entry structurally equal to `l`, or `-1`.
pub open spec fn license_find(lics: Seq<LicenseV>, l: LicenseV) -> int
    decreases lics.len(),
{
    if lics.len() == 0 {
        -1
    } else if license_content_eq(lics[0], l) {
        0
    } else {
        let r = license_find(lics.drop_first(), l);
        if r == -1 {
            -1
        } else {
            r + 1
        }
    }
}

/// Folds one license of the current file into the state and the file's
/// license remap table; same policy as [`category_step`].
pub open spec fn license_step(m: MergeModel, remap: Map<i32, i32>, l: LicenseV) -> (
    MergeModel,
    Map<i32, i32>,
) {
    let j = license_find(m.licenses, l);
    if j >= 0 {
        (m, remap.insert(l.id, m.licenses[j].id))
    } else if m.license_ids.contains(l.id) {
        let new_id = m.next_license_id as i32;
        (
            MergeModel {
                licenses: m.licenses.push(LicenseV { id: new_id, ..l }),
                license_ids: m.license_ids.insert(new_id),
                next_license_id: m.next_license_id + 1,
                ..m
            },
            remap.insert(l.id, new_id),
        )
    } else {
        (
            MergeModel {
                licenses: m.licenses.push(l),
                license_ids: m.license_ids.insert(l.id),
                next_license_id: if l.id as int >= m.next_license_id {
                    l.id as int + 1
                } else {
                    m.next_license_id
                },
                ..m
            },
            remap.insert(l.id, l.id),
        )
    }
}

/// Folds a file's licenses, in file order.
pub open spec fn licenses_pass(m: MergeModel, remap: Map<i32, i32>, ls: Seq<LicenseV>) -> (
    MergeModel,
    Map<i32, i32>,
)
    decreases ls.len(),
{
    if ls.len() == 0 {
        (m, remap)
    } else {
        let (m1, r1) = license_step(m, remap, ls[0]);
        licenses_pass(m1, r1, ls.drop_first())
    }
}

// Image reconciliation ///////////////////////////////////

/// Folds one image of the current file into the state and the file's
/// image remap table.  The file name is resolved against the source
/// file's directory, the license reference is remapped (its absence is
/// fatal), and an id collision is resolved by reassignment or by dropping
/// the image with a warning.
pub open spec fn image_step(
    m: MergeModel,
    remap: Map<i64, i64>,
    img: ImageV,
    dir: Seq<char>,
    file: Seq<char>,
    reassign: bool,
    lic_remap: Map<i32, i32>,
) -> Result<(MergeModel, Map<i64, i64>), MergeErrorV> {
    if img.license is Some && !lic_remap.contains_key(img.license->0) {
        Err(
            MergeErrorV::MissingLicense {
                file: file,
                image_id: img.id,
                license_id: img.license->0,
            },
        )
    } else {
        let moved = ImageV {
            file_name: resolved_file_name(dir, img.file_name),
            license: match img.license {
                Some(l) => Some(lic_remap[l]),
                None => None,
            },
            ..img
        };
        if m.image_ids.contains(img.id) {
            if reassign {
                let new_id = m.next_image_id as i64;
                Ok(
                    (
                        MergeModel {
                            images: m.images.push(ImageV { id: new_id, ..moved }),
                            image_ids: m.image_ids.insert(new_id),
                            next_image_id: m.next_image_id + 1,
                            ..m
                        },
                        remap.insert(img.id, new_id),
                    ),
                )
            } else {
                Ok(
                    (
                        MergeModel {
                            warnings: m.warnings.push(
                                WarningV { file: file, image_id: img.id },
                            ),
                            ..m
                        },
                        remap,
                    ),
                )
            }
        } else {
            Ok(
                (
                    MergeModel {
                        images: m.images.push(moved),
                        image_ids: m.image_ids.insert(img.id),
                        next_image_id: if img.id as int >= m.next_image_id {
                            img.id as int + 1
                        } else {
                            m.next_image_id
                        },
                        ..m
                    },
                    remap.insert(img.id, img.id),
                ),
            )
        }
    }
}

/// Folds a file's images, in file order; the first fatal reference aborts.
pub open spec fn images_pass(
    m: MergeModel,
    remap: Map<i64, i64>,
    imgs: Seq<ImageV>,
    dir: Seq<char>,
    file: Seq<char>,
    reassign: bool,
    lic_remap: Map<i32, i32>,
) -> Result<(MergeModel, Map<i64, i64>), MergeErrorV>
    decreases imgs.len(),
{
    if imgs.len() == 0 {
        Ok((m, remap))
    } else {
        match image_step(m, remap, imgs[0], dir, file, reassign, lic_remap) {
            Err(e) => Err(e),
            Ok((m1, r1)) => images_pass(m1, r1, imgs.drop_first(), dir, file, reassign, lic_remap),
        }
    }
}

// Annotation reconciliation ///////////////////////////////////

/// Resolves one id against the shared annotation/segment namespace: a
/// collision always takes the next unseen id; otherwise the id is kept
/// and the counter advanced past it.  Returns the state and the id used.
pub open spec fn ann_id_resolve(m: MergeModel, id: i64) -> (MergeModel, i64) {
    if m.annotation_ids.contains(id) {
        let new_id = m.next_annotation_id as i64;
        (
            MergeModel {
                annotation_ids: m.annotation_ids.insert(new_id),
                next_annotation_id: m.next_annotation_id + 1,
                ..m
            },
            new_id,
        )
    } else {
        (
            MergeModel {
                annotation_ids: m.annotation_ids.insert(id),
                next_annotation_id: if id as int >= m.next_annotation_id {
                    id as int + 1
                } else {
                    m.next_annotation_id
                },
                ..m
            },
            id,
        )
    }
}

/// Folds the segments of one panoptic annotation: each category reference
/// is remapped (absence is fatal) and each segment id resolved in the
/// shared namespace.
pub open spec fn segments_pass(
    m: MergeModel,
    segs: Seq<PanopticSegmentInfoV>,
    cat_remap: Map<i32, i32>,
    file: Seq<char>,
) -> Result<(MergeModel, Seq<PanopticSegmentInfoV>), MergeErrorV>
    decreases segs.len(),
{
    if segs.len() == 0 {
        Ok((m, Seq::empty()))
    } else {
        let seg = segs[0];
        if !cat_remap.contains_key(seg.category_id) {
            Err(
                MergeErrorV::MissingCategoryForSegment {
                    file: file,
                    segment_id: seg.id,
                    category_id: seg.category_id,
                },
            )
        } else {
            let (m1, new_id) = ann_id_resolve(m, seg.id);
            let new_seg = PanopticSegmentInfoV {
                id: new_id,
                category_id: cat_remap[seg.category_id],
                ..seg
            };
            match segments_pass(m1, segs.drop_first(), cat_remap, file) {
                Err(e) => Err(e),
                Ok((m2, rest)) => Ok((m2, seq![new_seg] + rest)),
            }
        }
    }
}

/// Folds one annotation of the current file.  An annotation whose image
/// was dropped is discarded silently; otherwise its image reference is
/// remapped, its category references are remapped (absence is fatal), its
/// id — or each segment id — is resolved in the shared namespace, and the
/// result is appended to the output.
pub open spec fn annotation_step(
    m: MergeModel,
    a: AnnotationV,
    img_remap: Map<i64, i64>,
    cat_remap: Map<i32, i32>,
    file: Seq<char>,
) -> Result<MergeModel, MergeErrorV> {
    if !img_remap.contains_key(annotation_image_id(a)) {
        Ok(m)
    } else {
        let new_image_id = img_remap[annotation_image_id(a)];
        match a {
            AnnotationV::ObjectDetection(x) => {
                if !cat_remap.contains_key(x.category_id) {
                    Err(
                        MergeErrorV::MissingCategoryForAnnotation {
                            file: file,
                            annotation_id: x.id,
                            category_id: x.category_id,
                        },
                    )
                } else {
                    let (m1, new_id) = ann_id_resolve(m, x.id);
                    Ok(
                        MergeModel {
                            annotations: m1.annotations.push(
                                AnnotationV::ObjectDetection(
                                    ObjectDetectionAnnotationV {
                                        id: new_id,
                                        image_id: new_image_id,
                                        category_id: cat_remap[x.category_id],
                                        ..x
                                    },
                                ),
                            ),
                            ..m1
                        },
                    )
                }
            },
            AnnotationV::KeypointDetection(x) => {
                if !cat_remap.contains_key(x.category_id) {
                    Err(
                        MergeErrorV::MissingCategoryForAnnotation {
                            file: file,
                            annotation_id: x.id,
                            category_id: x.category_id,
                        },
                    )
                } else {
                    let (m1, new_id) = ann_id_resolve(m, x.id);
                    Ok(
                        MergeModel {
                            annotations: m1.annotations.push(
                                AnnotationV::KeypointDetection(
                                    KeypointDetectionAnnotationV {
                                        id: new_id,
                                        image_id: new_image_id,
                                        category_id: cat_remap[x.category_id],
                                        ..x
                                    },
                                ),
                            ),
                            ..m1
                        },
                    )
                }
            },
            AnnotationV::DensePose(x) => {
                if !cat_remap.contains_key(x.category_id) {
                    Err(
                        MergeErrorV::MissingCategoryForAnnotation {
                            file: file,
                            annotation_id: x.id,
                            category_id: x.category_id,
                        },
                    )
                } else {
                    let (m1, new_id) = ann_id_resolve(m, x.id);
                    Ok(
                        MergeModel {
                            annotations: m1.annotations.push(
                                AnnotationV::DensePose(
                                    DensePoseAnnotationV {
                                        id: new_id,
                                        image_id: new_image_id,
                                        category_id: cat_remap[x.category_id],
                                        ..x
                                    },
                                ),
                            ),
                            ..m1
                        },
                    )
                }
            },
            AnnotationV::ImageCaptioning(x) => {
                let (m1, new_id) = ann_id_resolve(m, x.id);
                Ok(
                    MergeModel {
                        annotations: m1.annotations.push(
                            AnnotationV::ImageCaptioning(
                                ImageCaptioningAnnotationV {
                                    id: new_id,
                                    image_id: new_image_id,
                                    ..x
                                },
                            ),
                        ),
                        ..m1
                    },
                )
            },
            AnnotationV::PanopticSegmentation(x) => {
                match segments_pass(m, x.segments_info, cat_remap, file) {
                    Err(e) => Err(e),
                    Ok((m1, new_segs)) => Ok(
                        MergeModel {
                            annotations: m1.annotations.push(
                                AnnotationV::PanopticSegmentation(
                                    PanopticSegmentationAnnotationV {
                                        image_id: new_image_id,
                                        segments_info: new_segs,
                                        ..x
                                    },
                                ),
                            ),
                            ..m1
                        },
                    ),
                }
            },
        }
    }
}

/// Folds a file's annotations, in file order; the first fatal reference
/// aborts.
pub open spec fn annotations_pass(
    m: MergeModel,
    anns: Seq<AnnotationV>,
    img_remap: Map<i64, i64>,
    cat_remap: Map<i32, i32>,
    file: Seq<char>,
) -> Result<MergeModel, MergeErrorV>
    decreases anns.len(),
{
    if anns.len() == 0 {
        Ok(m)
    } else {
        match annotation_step(m, anns[0], img_remap, cat_remap, file) {
            Err(e) => Err(e),
            Ok(m1) => annotations_pass(m1, anns.drop_first(), img_remap, cat_remap, file),
        }
    }
}

// Whole files ///////////////////////////////////

/// Folds one file: categories, licenses, images, annotations, in that
/// order, each later stage consuming a remap table built by an earlier
/// one.  Remap tables start empty for every file.
pub open spec fn file_pass(m: MergeModel, f: FileV, path: Seq<char>, reassign: bool) -> Result<
    MergeModel,
    MergeErrorV,
> {
    let dir = parent_dir_spec(path);
    let (m1, cat_remap) = categories_pass(m, Map::empty(), f.categories_or_empty());
    let (m2, lic_remap) = licenses_pass(m1, Map::empty(), f.licenses_or_empty());
    match images_pass(m2, Map::empty(), f.images, dir, path, reassign, lic_remap) {
        Err(e) => Err(e),
        Ok((m3, img_remap)) => annotations_pass(m3, f.annotations, img_remap, cat_remap, path),
    }
}

/// Folds the files in order; the first fatal reference aborts the run.
pub open spec fn merge_pass(
    m: MergeModel,
    files: Seq<FileV>,
    paths: Seq<Seq<char>>,
    reassign: bool,
) -> Result<MergeModel, MergeErrorV>
    decreases files.len(),
{
    if files.len() == 0 {
        Ok(m)
    } else {
        match file_pass(m, files[0], paths[0], reassign) {
            Err(e) => Err(e),
            Ok(m1) => merge_pass(m1, files.drop_first(), paths.drop_first(), reassign),
        }
    }
}

/// What merging `files` (read from `paths`, in order) produces: the final
/// model, or the first fatal referential-integrity error.
pub open spec fn spec_merge(files: Seq<FileV>, paths: Seq<Seq<char>>, reassign: bool) -> Result<
    MergeModel,
    MergeErrorV,
> {
    merge_pass(initial_model(), files, paths, reassign)
}

// Machine-limit budgets ///////////////////////////////////
//
// Counters never overflow because every id is small enough to leave room
// for one allocation per entity: a counter is bounded by the largest
// accepted id plus one plus the number of allocations made after it.

/// Every category id is below `lim`.
pub open spec fn cat_ids_below(cs: Seq<CategoryV>, lim: int) -> bool {
    forall|i: int| 0 <= i < cs.len() ==> (category_id_of(#[trigger] cs[i]) as int) < lim
}

/// Every license id is below `lim`.
pub open spec fn lic_ids_below(ls: Seq<LicenseV>, lim: int) -> bool {
    forall|i: int| 0 <= i < ls.len() ==> ((#[trigger] ls[i]).id as int) < lim
}

/// Every image id is below `lim`.
pub open spec fn img_ids_below(imgs: Seq<ImageV>, lim: int) -> bool {
    forall|i: int| 0 <= i < imgs.len() ==> ((#[trigger] imgs[i]).id as int) < lim
}

/// Every segment id is below `lim`.
pub open spec fn seg_ids_below(segs: Seq<PanopticSegmentInfoV>, lim: int) -> bool {
    forall|i: int| 0 <= i < segs.len() ==> ((#[trigger] segs[i]).id as int) < lim
}

/// How many ids of the shared annotation/segment namespace one annotation
/// uses: one per segment for a panoptic annotation, else one.
pub open spec fn ann_slots(a: AnnotationV) -> int {
    match a {
        AnnotationV::PanopticSegmentation(x) => x.segments_info.len() as int,
        _ => 1,
    }
}

/// Every annotation id and segment id is below `lim`.
pub open spec fn ann_ids_below(anns: Seq<AnnotationV>, lim: int) -> bool {
    forall|i: int|
        0 <= i < anns.len() ==> match #[trigger] anns[i] {
            AnnotationV::ObjectDetection(x) => (x.id as int) < lim,
            AnnotationV::KeypointDetection(x) => (x.id as int) < lim,
            AnnotationV::ImageCaptioning(x) => (x.id as int) < lim,
            AnnotationV::DensePose(x) => (x.id as int) < lim,
            AnnotationV::PanopticSegmentation(x) => seg_ids_below(x.segments_info, lim),
        }
}

/// How many ids of the shared namespace a file's annotations use in all.
pub open spec fn anns_slots(anns: Seq<AnnotationV>) -> int
    decreases anns.len(),
{
    if anns.len() == 0 {
        0
    } else {
        ann_slots(anns[0]) + anns_slots(anns.drop_first())
    }
}

/// Total categories declared across all files.
pub open spec fn total_categories(files: Seq<FileV>) -> int
    decreases files.len(),
{
    if files.len() == 0 {
        0
    } else {
        files[0].categories_or_empty().len() + total_categories(files.drop_first())
    }
}

/// Total licenses declared across all files.
pub open spec fn total_licenses(files: Seq<FileV>) -> int
    decreases files.len(),
{
    if files.len() == 0 {
        0
    } else {
        files[0].licenses_or_empty().len() + total_licenses(files.drop_first())
    }
}

/// Total images across all files.
pub open spec fn total_images(files: Seq<FileV>) -> int
    decreases files.len(),
{
    if files.len() == 0 {
        0
    } else {
        files[0].images.len() + total_images(files.drop_first())
    }
}

/// Total annotation/segment id slots across all files.
pub open spec fn total_ann_slots(files: Seq<FileV>) -> int
    decreases files.len(),
{
    if files.len() == 0 {
        0
    } else {
        anns_slots(files[0].annotations) + total_ann_slots(files.drop_first())
    }
}

/// The machine-limit bound on merge inputs: in each id namespace, every
/// id leaves room below the machine maximum for one allocation per entity
/// of that namespace.  Nothing else about the inputs is restricted.
pub open spec fn merge_input_bounded(files: Seq<FileV>) -> bool {
    &&& total_categories(files) <= i32::MAX
    &&& total_licenses(files) <= i32::MAX
    &&& total_images(files) <= i64::MAX
    &&& total_ann_slots(files) <= i64::MAX
    &&& forall|i: int|
        0 <= i < files.len() ==> cat_ids_below(
            (#[trigger] files[i]).categories_or_empty(),
            i32::MAX - total_categories(files),
        )
    &&& forall|i: int|
        0 <= i < files.len() ==> lic_ids_below(
            (#[trigger] files[i]).licenses_or_empty(),
            i32::MAX - total_licenses(files),
        )
    &&& forall|i: int|
        0 <= i < files.len() ==> img_ids_below(
            (#[trigger] files[i]).images,
            i64::MAX - total_images(files),
        )
    &&& forall|i: int|
        0 <= i < files.len() ==> ann_ids_below(
            (#[trigger] files[i]).annotations,
            i64::MAX - total_ann_slots(files),
        )
}

/// Slot counts are never negative.
pub proof fn lemma_anns_slots_nonneg(anns: Seq<AnnotationV>)
    ensures
        anns_slots(anns) >= 0,
    decreases anns.len(),
{
    if anns.len() > 0 {
        lemma_anns_slots_nonneg(anns.drop_first());
    }
}

/// The category pass moves its counter forward by a bounded amount and
/// touches nothing outside the category namespace.
pub proof fn lemma_categories_pass_props(
    m: MergeModel,
    remap: Map<i32, i32>,
    cs: Seq<CategoryV>,
    lim: int,
)
    requires
        cat_ids_below(cs, lim),
    ensures
        ({
            let (m2, r2) = categories_pass(m, remap, cs);
            &&& m.next_category_id <= m2.next_category_id
            &&& m2.next_category_id <= vstd::math::max(m.next_category_id, lim) + cs.len()
            &&& m2 == MergeModel {
                categories: m2.categories,
                category_ids: m2.category_ids,
                next_category_id: m2.next_category_id,
                ..m
            }
        }),
    decreases cs.len(),
{
    if cs.len() > 0 {
        let (m1, r1) = category_step(m, remap, cs[0]);
        assert(cat_ids_below(cs.drop_first(), lim));
        lemma_categories_pass_props(m1, r1, cs.drop_first(), lim);
    }
}

/// The license pass moves its counter forward by a bounded amount and
/// touches nothing outside the license namespace.
pub proof fn lemma_licenses_pass_props(
    m: MergeModel,
    remap: Map<i32, i32>,
    ls: Seq<LicenseV>,
    lim: int,
)
    requires
        lic_ids_below(ls, lim),
    ensures
        ({
            let (m2, r2) = licenses_pass(m, remap, ls);
            &&& m.next_license_id <= m2.next_license_id
            &&& m2.next_license_id <= vstd::math::max(m.next_license_id, lim) + ls.len()
            &&& m2 == MergeModel {
                licenses: m2.licenses,
                license_ids: m2.license_ids,
                next_license_id: m2.next_license_id,
                ..m
            }
        }),
    decreases ls.len(),
{
    if ls.len() > 0 {
        let (m1, r1) = license_step(m, remap, ls[0]);
        assert(lic_ids_below(ls.drop_first(), lim));
        lemma_licenses_pass_props(m1, r1, ls.drop_first(), lim);
    }
}

/// The image pass, when it succeeds, moves its counter forward by a
/// bounded amount and touches only the image namespace and the warnings.
pub proof fn lemma_images_pass_props(
    m: MergeModel,
    remap: Map<i64, i64>,
    imgs: Seq<ImageV>,
    dir: Seq<char>,
    file: Seq<char>,
    reassign: bool,
    lic_remap: Map<i32, i32>,
    lim: int,
)
    requires
        img_ids_below(imgs, lim),
    ensures
        images_pass(m, remap, imgs, dir, file, reassign, lic_remap) matches Ok((m2, r2)) ==> {
            &&& m.next_image_id <= m2.next_image_id
            &&& m2.next_image_id <= vstd::math::max(m.next_image_id, lim) + imgs.len()
            &&& m2 == MergeModel {
                images: m2.images,
                image_ids: m2.image_ids,
                next_image_id: m2.next_image_id,
                warnings: m2.warnings,
                ..m
            }
        },
    decreases imgs.len(),
{
    if imgs.len() > 0 {
        match image_step(m, remap, imgs[0], dir, file, reassign, lic_remap) {
            Err(_) => {},
            Ok((m1, r1)) => {
                assert(img_ids_below(imgs.drop_first(), lim));
                lemma_images_pass_props(m1, r1, imgs.drop_first(), dir, file, reassign,
                    lic_remap, lim);
            },
        }
    }
}

/// The segment pass, when it succeeds, moves the shared counter forward
/// by a bounded amount and touches only the shared id namespace.
pub proof fn lemma_segments_pass_props(
    m: MergeModel,
    segs: Seq<PanopticSegmentInfoV>,
    cat_remap: Map<i32, i32>,
    file: Seq<char>,
    lim: int,
)
    requires
        seg_ids_below(segs, lim),
    ensures
        segments_pass(m, segs, cat_remap, file) matches Ok((m2, r2)) ==> {
            &&& m.next_annotation_id <= m2.next_annotation_id
            &&& m2.next_annotation_id <= vstd::math::max(m.next_annotation_id, lim) + segs.len()
            &&& m2 == MergeModel {
                annotation_ids: m2.annotation_ids,
                next_annotation_id: m2.next_annotation_id,
                ..m
            }
        },
    decreases segs.len(),
{
    if segs.len() > 0 {
        let seg = segs[0];
        if cat_remap.contains_key(seg.category_id) {
            let (m1, _) = ann_id_resolve(m, seg.id);
            assert(seg_ids_below(segs.drop_first(), lim));
            lemma_segments_pass_props(m1, segs.drop_first(), cat_remap, file, lim);
        }
    }
}

/// The annotation pass, when it succeeds, moves the shared counter
/// forward by a bounded amount and touches only the annotation output and
/// the shared id namespace.
pub proof fn lemma_annotations_pass_props(
    m: MergeModel,
    anns: Seq<AnnotationV>,
    img_remap: Map<i64, i64>,
    cat_remap: Map<i32, i32>,
    file: Seq<char>,
    lim: int,
)
    requires
        ann_ids_below(anns, lim),
    ensures
        annotations_pass(m, anns, img_remap, cat_remap, file) matches Ok(m2) ==> {
            &&& m.next_annotation_id <= m2.next_annotation_id
            &&& m2.next_annotation_id <= vstd::math::max(m.next_annotation_id, lim)
                + anns_slots(anns)
            &&& m2 == MergeModel {
                annotations: m2.annotations,
                annotation_ids: m2.annotation_ids,
                next_annotation_id: m2.next_annotation_id,
                ..m
            }
        },
    decreases anns.len(),
{
    if anns.len() > 0 {
        lemma_anns_slots_nonneg(anns.drop_first());
        if anns[0] is PanopticSegmentation {
            lemma_segments_pass_props(
                m,
                anns[0]->PanopticSegmentation_0.segments_info,
                cat_remap,
                file,
                lim,
            );
        }
        match annotation_step(m, anns[0], img_remap, cat_remap, file) {
            Err(_) => {},
            Ok(m1) => {
                assert(ann_ids_below(anns.drop_first(), lim));
                lemma_annotations_pass_props(m1, anns.drop_first(), img_remap, cat_remap, file,
                    lim);
            },
        }
    }
}

// Executable state ///////////////////////////////////

/// The running state of a merge; its view is the [`MergeModel`] the
/// specification folds over.
struct Merger {
    categories: Vec<CocoCategory>,
    category_ids: HashSet<i32>,
    next_category_id: i32,
    licenses: Vec<CocoLicense>,
    license_ids: HashSet<i32>,
    next_license_id: i32,
    images: Vec<CocoImage>,
    image_ids: HashSet<i64>,
    next_image_id: i64,
    annotations: Vec<CocoAnnotation>,
    annotation_ids: HashSet<i64>,
    next_annotation_id: i64,
    warnings: Vec<MergeWarning>,
}

impl View for Merger {
    type V = MergeModel;

    closed spec fn view(&self) -> MergeModel {
        MergeModel {
            categories: self.categories.deep_view(),
            category_ids: self.category_ids@,
            next_category_id: self.next_category_id as int,
            licenses: self.licenses.deep_view(),
            license_ids: self.license_ids@,
            next_license_id: self.next_license_id as int,
            images: self.images.deep_view(),
            image_ids: self.image_ids@,
            next_image_id: self.next_image_id as int,
            annotations: self.annotations.deep_view(),
            annotation_ids: self.annotation_ids@,
            next_annotation_id: self.next_annotation_id as int,
            warnings: self.warnings.deep_view(),
        }
    }
}

impl Merger {
    fn new() -> (r: Self)
        ensures
            r@ == initial_model(),
    {
        let r = Merger {
            categories: Vec::new(),
            category_ids: HashSet::new(),
            next_category_id: 0,
            licenses: Vec::new(),
            license_ids: HashSet::new(),
            next_license_id: 0,
            images: Vec::new(),
            image_ids: HashSet::new(),
            next_image_id: 0,
            annotations: Vec::new(),
            annotation_ids: HashSet::new(),
            next_annotation_id: 0,
            warnings: Vec::new(),
        };
        proof {
            assert(r@ =~= initial_model());
        }
        r
    }
}

// Category stage, executable ///////////////////////////////////

/// Everything [`category_find`] promises about its result.
pub proof fn lemma_category_find_props(cats: Seq<CategoryV>, c: CategoryV)
    ensures
        ({
            let r = category_find(cats, c);
            &&& -1 <= r < cats.len()
            &&& r >= 0 ==> category_content_eq(cats[r], c) && forall|k: int|
                0 <= k < r ==> !category_content_eq(#[trigger] cats[k], c)
            &&& r == -1 ==> forall|k: int|
                0 <= k < cats.len() ==> !category_content_eq(#[trigger] cats[k], c)
        }),
    decreases cats.len(),
{
    if cats.len() > 0 && !category_content_eq(cats[0], c) {
        lemma_category_find_props(cats.drop_first(), c);
        let rest = cats.drop_first();
        assert forall|k: int| 1 <= k < cats.len() implies #[trigger] cats[k] == rest[k - 1] by {}
        let r0 = category_find(rest, c);
        if r0 >= 0 {
            assert(cats[r0 + 1] == rest[r0]);
            assert forall|k: int| 0 <= k < r0 + 1 implies !category_content_eq(
                #[trigger] cats[k],
                c,
            ) by {
                if k >= 1 {
                    assert(!category_content_eq(rest[k - 1], c));
                }
            }
        } else {
            assert forall|k: int| 0 <= k < cats.len() implies !category_content_eq(
                #[trigger] cats[k],
                c,
            ) by {
                if k >= 1 {
                    assert(!category_content_eq(rest[k - 1], c));
                }
            }
        }
    }
}

/// The first canonical category structurally equal to `c`, if any.
fn find_category(cats: &Vec<CocoCategory>, c: &CocoCategory) -> (r: Option<usize>)
    ensures
        ({
            let f = category_find(cats.deep_view(), c@);
            match r {
                Some(j) => f == j && j < cats@.len(),
                None => f == -1,
            }
        }),
{
    proof {
        lemma_category_find_props(cats.deep_view(), c@);
    }
    let n = cats.len();
    let mut j: usize = 0;
    while j < n
        invariant
            j <= n,
            n == cats@.len(),
            forall|k: int|
                0 <= k < j ==> !category_content_eq(#[trigger] cats.deep_view()[k], c@),
        decreases n - j,
    {
        if cats[j] == *c {
            proof {
                lemma_category_find_props(cats.deep_view(), c@);
                assert(cats.deep_view()[j as int] == cats@[j as int]@);
                assert(category_content_eq(cats.deep_view()[j as int], c@));
            }
            return Some(j);
        }
        j += 1;
    }
    proof {
        lemma_category_find_props(cats.deep_view(), c@);
    }
    None
}

/// Folds one category into the state, per [`category_step`].
fn add_category(m: &mut Merger, remap: &mut HashMap<i32, i32>, c: &CocoCategory)
    requires
        (category_id_of(c@) as int) < i32::MAX,
        old(m)@.next_category_id < i32::MAX,
    ensures
        ({
            let (em, er) = category_step(old(m)@, old(remap)@, c@);
            final(m)@ == em && final(remap)@ == er
        }),
{
    let c_id = c.id();
    match find_category(&m.categories, c) {
        Some(j) => {
            let canon_id = m.categories[j].id();
            remap.insert(c_id, canon_id);
        },
        None => {
            if m.category_ids.contains(&c_id) {
                let new_id = m.next_category_id;
                let mut nc = c.clone();
                nc.set_id(new_id);
                proof {
                    assert(nc@ == category_with_id(c@, new_id));
                    assert(category_id_of(nc@) == new_id);
                }
                let ghost prev = m.categories.deep_view();
                m.categories.push(nc);
                m.category_ids.insert(new_id);
                m.next_category_id = new_id + 1;
                remap.insert(c_id, new_id);
                proof {
                    assert(m.categories.deep_view() =~= prev.push(
                        category_with_id(c@, new_id),
                    ));
                    let (em, er) = category_step(old(m)@, old(remap)@, c@);
                    assert(m@ =~= em);
                }
            } else {
                m.category_ids.insert(c_id);
                if c_id >= m.next_category_id {
                    m.next_category_id = c_id + 1;
                }
                let ghost prev = m.categories.deep_view();
                m.categories.push(c.clone());
                remap.insert(c_id, c_id);
                proof {
                    assert(m.categories.deep_view() =~= prev.push(c@));
                    let (em, er) = category_step(old(m)@, old(remap)@, c@);
                    assert(m@ =~= em);
                }
            }
        },
    }
}

/// Folds a file's categories into the state, per [`categories_pass`].
fn process_categories(m: &mut Merger, remap: &mut HashMap<i32, i32>, cats: &Vec<CocoCategory>)
    requires
        cat_ids_below(cats.deep_view(), i32::MAX - cats@.len()),
        old(m)@.next_category_id + cats@.len() <= i32::MAX,
        old(m)@.next_category_id >= 0,
    ensures
        ({
            let (em, er) = categories_pass(old(m)@, old(remap)@, cats.deep_view());
            final(m)@ == em && final(remap)@ == er
        }),
{
    let n = cats.len();
    let mut i: usize = 0;
    proof {
        assert(cats.deep_view().skip(0) =~= cats.deep_view());
    }
    while i < n
        invariant
            i <= n,
            n == cats@.len(),
            cat_ids_below(cats.deep_view(), i32::MAX - n),
            m@.next_category_id + (n - i) <= i32::MAX,
            m@.next_category_id >= 0,
            categories_pass(old(m)@, old(remap)@, cats.deep_view()) == categories_pass(
                m@,
                remap@,
                cats.deep_view().skip(i as int),
            ),
        decreases n - i,
    {
        let ghost rest = cats.deep_view().skip(i as int);
        proof {
            assert(rest[0] == cats.deep_view()[i as int]);
            assert(rest.drop_first() =~= cats.deep_view().skip(i as int + 1));
        }
        add_category(m, remap, &cats[i]);
        i += 1;
    }
    proof {
        assert(cats.deep_view().skip(n as int) =~= Seq::<CategoryV>::empty());
    }
}

// License stage, executable ///////////////////////////////////

/// Everything [`license_find`] promises about its result.
pub proof fn lemma_license_find_props(lics: Seq<LicenseV>, l: LicenseV)
    ensures
        ({
            let r = license_find(lics, l);
            &&& -1 <= r < lics.len()
            &&& r >= 0 ==> license_content_eq(lics[r], l) && forall|k: int|
                0 <= k < r ==> !license_content_eq(#[trigger] lics[k], l)
            &&& r == -1 ==> forall|k: int|
                0 <= k < lics.len() ==> !license_content_eq(#[trigger] lics[k], l)
        }),
    decreases lics.len(),
{
    if lics.len() > 0 && !license_content_eq(lics[0], l) {
        lemma_license_find_props(lics.drop_first(), l);
        let rest = lics.drop_first();
        assert forall|k: int| 1 <= k < lics.len() implies #[trigger] lics[k] == rest[k - 1] by {}
        let r0 = license_find(rest, l);
        if r0 >= 0 {
            assert(lics[r0 + 1] == rest[r0]);
            assert forall|k: int| 0 <= k < r0 + 1 implies !license_content_eq(
                #[trigger] lics[k],
                l,
            ) by {
                if k >= 1 {
                    assert(!license_content_eq(rest[k - 1], l));
                }
            }
        } else {
            assert forall|k: int| 0 <= k < lics.len() implies !license_content_eq(
                #[trigger] lics[k],
                l,
            ) by {
                if k >= 1 {
                    assert(!license_content_eq(rest[k - 1], l));
                }
            }
        }
    }
}

/// The first canonical license structurally equal to `l`, if any.
fn find_license(lics: &Vec<CocoLicense>, l: &CocoLicense) -> (r: Option<usize>)
    ensures
        ({
            let f = license_find(lics.deep_view(), l@);
            match r {
                Some(j) => f == j && j < lics@.len(),
                None => f == -1,
            }
        }),
{
    proof {
        lemma_license_find_props(lics.deep_view(), l@);
    }
    let n = lics.len();
    let mut j: usize = 0;
    while j < n
        invariant
            j <= n,
            n == lics@.len(),
            forall|k: int| 0 <= k < j ==> !license_content_eq(#[trigger] lics.deep_view()[k], l@),
        decreases n - j,
    {
        if lics[j] == *l {
            proof {
                lemma_license_find_props(lics.deep_view(), l@);
                assert(lics.deep_view()[j as int] == lics@[j as int]@);
                assert(license_content_eq(lics.deep_view()[j as int], l@));
            }
            return Some(j);
        }
        j += 1;
    }
    proof {
        lemma_license_find_props(lics.deep_view(), l@);
    }
    None
}

/// Folds one license into the state, per [`license_step`].
fn add_license(m: &mut Merger, remap: &mut HashMap<i32, i32>, l: &CocoLicense)
    requires
        (l@.id as int) < i32::MAX,
        old(m)@.next_license_id < i32::MAX,
    ensures
        ({
            let (em, er) = license_step(old(m)@, old(remap)@, l@);
            final(m)@ == em && final(remap)@ == er
        }),
{
    let l_id = l.id();
    match find_license(&m.licenses, l) {
        Some(j) => {
            let canon_id = m.licenses[j].id();
            remap.insert(l_id, canon_id);
        },
        None => {
            if m.license_ids.contains(&l_id) {
                let new_id = m.next_license_id;
                let mut nl = l.clone();
                nl.set_id(new_id);
                let ghost prev = m.licenses.deep_view();
                m.licenses.push(nl);
                m.license_ids.insert(new_id);
                m.next_license_id = new_id + 1;
                remap.insert(l_id, new_id);
                proof {
                    assert(m.licenses.deep_view() =~= prev.push(LicenseV { id: new_id, ..l@ }));
                    let (em, er) = license_step(old(m)@, old(remap)@, l@);
                    assert(m@ =~= em);
                }
            } else {
                m.license_ids.insert(l_id);
                if l_id >= m.next_license_id {
                    m.next_license_id = l_id + 1;
                }
                let ghost prev = m.licenses.deep_view();
                m.licenses.push(l.clone());
                remap.insert(l_id, l_id);
                proof {
                    assert(m.licenses.deep_view() =~= prev.push(l@));
                    let (em, er) = license_step(old(m)@, old(remap)@, l@);
                    assert(m@ =~= em);
                }
            }
        },
    }
}

/// Folds a file's licenses into the state, per [`licenses_pass`].
fn process_licenses(m: &mut Merger, remap: &mut HashMap<i32, i32>, lics: &Vec<CocoLicense>)
    requires
        lic_ids_below(lics.deep_view(), i32::MAX - lics@.len()),
        old(m)@.next_license_id + lics@.len() <= i32::MAX,
        old(m)@.next_license_id >= 0,
    ensures
        ({
            let (em, er) = licenses_pass(old(m)@, old(remap)@, lics.deep_view());
            final(m)@ == em && final(remap)@ == er
        }),
{
    let n = lics.len();
    let mut i: usize = 0;
    proof {
        assert(lics.deep_view().skip(0) =~= lics.deep_view());
    }
    while i < n
        invariant
            i <= n,
            n == lics@.len(),
            lic_ids_below(lics.deep_view(), i32::MAX - n),
            m@.next_license_id + (n - i) <= i32::MAX,
            m@.next_license_id >= 0,
            licenses_pass(old(m)@, old(remap)@, lics.deep_view()) == licenses_pass(
                m@,
                remap@,
                lics.deep_view().skip(i as int),
            ),
        decreases n - i,
    {
        let ghost rest = lics.deep_view().skip(i as int);
        proof {
            assert(rest[0] == lics.deep_view()[i as int]);
            assert(rest.drop_first() =~= lics.deep_view().skip(i as int + 1));
        }
        add_license(m, remap, &lics[i]);
        i += 1;
    }
    proof {
        assert(lics.deep_view().skip(n as int) =~= Seq::<LicenseV>::empty());
    }
}

// Image stage, executable ///////////////////////////////////

/// Folds one image into the state, per [`image_step`].
fn add_image(
    m: &mut Merger,
    remap: &mut HashMap<i64, i64>,
    img: &CocoImage,
    dir: &str,
    file: &str,
    reassign: bool,
    lic_remap: &HashMap<i32, i32>,
) -> (r: Result<(), MergeError>)
    requires
        (img@.id as int) < i64::MAX,
        old(m)@.next_image_id < i64::MAX,
    ensures
        ({
            match image_step(old(m)@, old(remap)@, img@, dir@, file@, reassign, lic_remap@) {
                Ok((em, er)) => r is Ok && final(m)@ == em && final(remap)@ == er,
                Err(e) => r matches Err(ae) && ae@ == e && final(m)@ == old(m)@
                    && final(remap)@ == old(remap)@,
            }
        }),
{
    let new_license: Option<i32> = match img.license {
        Some(l) => {
            match lic_remap.get(&l) {
                Some(v) => Some(*v),
                None => {
                    return Err(
                        MergeError::MissingLicense {
                            file: file.to_owned(),
                            image_id: img.id,
                            license_id: l,
                        },
                    );
                },
            }
        },
        None => None,
    };
    let mut new_img = img.clone();
    new_img.file_name = resolve_file_name(dir, img.file_name.as_str());
    new_img.license = new_license;
    if m.image_ids.contains(&img.id) {
        if reassign {
            let new_id = m.next_image_id;
            new_img.id = new_id;
            let ghost prev = m.images.deep_view();
            m.images.push(new_img);
            m.image_ids.insert(new_id);
            m.next_image_id = new_id + 1;
            remap.insert(img.id, new_id);
            proof {
                let (em, er) = image_step(
                    old(m)@,
                    old(remap)@,
                    img@,
                    dir@,
                    file@,
                    reassign,
                    lic_remap@,
                )->Ok_0;
                assert(m.images.deep_view() =~= em.images);
                assert(m@ =~= em);
            }
        } else {
            let ghost prev = m.warnings.deep_view();
            m.warnings.push(MergeWarning { file: file.to_owned(), image_id: img.id });
            proof {
                let (em, er) = image_step(
                    old(m)@,
                    old(remap)@,
                    img@,
                    dir@,
                    file@,
                    reassign,
                    lic_remap@,
                )->Ok_0;
                assert(m.warnings.deep_view() =~= em.warnings);
                assert(m@ =~= em);
            }
        }
    } else {
        m.image_ids.insert(img.id);
        if img.id >= m.next_image_id {
            m.next_image_id = img.id + 1;
        }
        let ghost prev = m.images.deep_view();
        m.images.push(new_img);
        remap.insert(img.id, img.id);
        proof {
            let (em, er) = image_step(
                old(m)@,
                old(remap)@,
                img@,
                dir@,
                file@,
                reassign,
                lic_remap@,
            )->Ok_0;
            assert(m.images.deep_view() =~= em.images);
            assert(m@ =~= em);
        }
    }
    Ok(())
}

/// Folds a file's images into the state, per [`images_pass`].
fn process_images(
    m: &mut Merger,
    remap: &mut HashMap<i64, i64>,
    imgs: &Vec<CocoImage>,
    dir: &str,
    file: &str,
    reassign: bool,
    lic_remap: &HashMap<i32, i32>,
) -> (r: Result<(), MergeError>)
    requires
        img_ids_below(imgs.deep_view(), i64::MAX - imgs@.len()),
        old(m)@.next_image_id + imgs@.len() <= i64::MAX,
        old(m)@.next_image_id >= 0,
    ensures
        ({
            match images_pass(
                old(m)@,
                old(remap)@,
                imgs.deep_view(),
                dir@,
                file@,
                reassign,
                lic_remap@,
            ) {
                Ok((em, er)) => r is Ok && final(m)@ == em && final(remap)@ == er,
                Err(e) => r matches Err(ae) && ae@ == e,
            }
        }),
{
    let n = imgs.len();
    let mut i: usize = 0;
    proof {
        assert(imgs.deep_view().skip(0) =~= imgs.deep_view());
    }
    while i < n
        invariant
            i <= n,
            n == imgs@.len(),
            img_ids_below(imgs.deep_view(), i64::MAX - n),
            m@.next_image_id + (n - i) <= i64::MAX,
            m@.next_image_id >= 0,
            images_pass(
                old(m)@,
                old(remap)@,
                imgs.deep_view(),
                dir@,
                file@,
                reassign,
                lic_remap@,
            ) == images_pass(
                m@,
                remap@,
                imgs.deep_view().skip(i as int),
                dir@,
                file@,
                reassign,
                lic_remap@,
            ),
        decreases n - i,
    {
        let ghost rest = imgs.deep_view().skip(i as int);
        proof {
            assert(rest[0] == imgs.deep_view()[i as int]);
            assert(rest.drop_first() =~= imgs.deep_view().skip(i as int + 1));
        }
        match add_image(m, remap, &imgs[i], dir, file, reassign, lic_remap) {
            Ok(()) => {},
            Err(e) => {
                return Err(e);
            },
        }
        i += 1;
    }
    proof {
        assert(imgs.deep_view().skip(n as int) =~= Seq::<ImageV>::empty());
    }
    Ok(())
}

// Annotation stage, executable ///////////////////////////////////

/// Resolves one id in the shared annotation/segment namespace, per
/// [`ann_id_resolve`].
fn resolve_ann_id(m: &mut Merger, id: i64) -> (new_id: i64)
    requires
        (id as int) < i64::MAX,
        old(m)@.next_annotation_id < i64::MAX,
    ensures
        (final(m)@, new_id) == ann_id_resolve(old(m)@, id),
{
    if m.annotation_ids.contains(&id) {
        let new_id = m.next_annotation_id;
        m.annotation_ids.insert(new_id);
        m.next_annotation_id = new_id + 1;
        proof {
            assert(m@ =~= ann_id_resolve(old(m)@, id).0);
        }
        new_id
    } else {
        m.annotation_ids.insert(id);
        if id >= m.next_annotation_id {
            m.next_annotation_id = id + 1;
        }
        proof {
            assert(m@ =~= ann_id_resolve(old(m)@, id).0);
        }
        id
    }
}

/// Folds one panoptic annotation's segments, per [`segments_pass`],
/// returning the reconciled segment list.
fn process_segments(
    m: &mut Merger,
    segs: &Vec<CocoPanopticSegmentInfo>,
    cat_remap: &HashMap<i32, i32>,
    file: &str,
) -> (r: Result<Vec<CocoPanopticSegmentInfo>, MergeError>)
    requires
        seg_ids_below(segs.deep_view(), i64::MAX - segs@.len()),
        old(m)@.next_annotation_id + segs@.len() <= i64::MAX,
        old(m)@.next_annotation_id >= 0,
    ensures
        ({
            match segments_pass(old(m)@, segs.deep_view(), cat_remap@, file@) {
                Ok((em, esegs)) => r matches Ok(v) && final(m)@ == em && v.deep_view() == esegs,
                Err(e) => r matches Err(ae) && ae@ == e,
            }
        }),
{
    let n = segs.len();
    let mut out: Vec<CocoPanopticSegmentInfo> = Vec::new();
    let mut i: usize = 0;
    proof {
        assert(segs.deep_view().skip(0) =~= segs.deep_view());
        assert(out.deep_view() =~= Seq::<PanopticSegmentInfoV>::empty());
    }
    while i < n
        invariant
            i <= n,
            n == segs@.len(),
            seg_ids_below(segs.deep_view(), i64::MAX - n),
            m@.next_annotation_id + (n - i) <= i64::MAX,
            m@.next_annotation_id >= 0,
            segments_pass(old(m)@, segs.deep_view(), cat_remap@, file@) == (match segments_pass(
                m@,
                segs.deep_view().skip(i as int),
                cat_remap@,
                file@,
            ) {
                Ok((em, es)) => Ok::<_, MergeErrorV>((em, out.deep_view() + es)),
                Err(e) => Err(e),
            }),
        decreases n - i,
    {
        let ghost rest = segs.deep_view().skip(i as int);
        proof {
            assert(rest[0] == segs.deep_view()[i as int]);
            assert(rest.drop_first() =~= segs.deep_view().skip(i as int + 1));
        }
        let seg = &segs[i];
        let mapped = match cat_remap.get(&seg.category_id) {
            Some(v) => *v,
            None => {
                return Err(
                    MergeError::MissingCategoryForSegment {
                        file: file.to_owned(),
                        segment_id: seg.id,
                        category_id: seg.category_id,
                    },
                );
            },
        };
        let new_id = resolve_ann_id(m, seg.id);
        let new_seg = CocoPanopticSegmentInfo {
            id: new_id,
            category_id: mapped,
            area: seg.area,
            bbox: seg.bbox,
            iscrowd: seg.iscrowd,
        };
        let ghost prev = out.deep_view();
        out.push(new_seg);
        proof {
            assert(out.deep_view() =~= prev.push(new_seg@));
            assert forall|es: Seq<PanopticSegmentInfoV>|
                true implies prev + (seq![new_seg@] + es) =~= out.deep_view() + es by {}
        }
        i += 1;
    }
    proof {
        assert(segs.deep_view().skip(n as int) =~= Seq::<PanopticSegmentInfoV>::empty());
        let (em, es) = segments_pass(m@, Seq::empty(), cat_remap@, file@)->Ok_0;
        assert(out.deep_view() + es =~= out.deep_view());
    }
    Ok(out)
}

/// Suffixes never use more id slots than the whole, and never a negative
/// number.
pub proof fn lemma_anns_slots_skip(anns: Seq<AnnotationV>, i: int)
    requires
        0 <= i <= anns.len(),
    ensures
        0 <= anns_slots(anns.skip(i)) <= anns_slots(anns),
    decreases i,
{
    lemma_anns_slots_nonneg(anns.skip(i));
    if i == 0 {
        assert(anns.skip(0) =~= anns);
    } else {
        lemma_anns_slots_skip(anns, i - 1);
        let prev = anns.skip(i - 1);
        assert(prev[0] == anns[i - 1]);
        assert(prev.drop_first() =~= anns.skip(i));
        assert(anns_slots(prev) == ann_slots(anns[i - 1]) + anns_slots(anns.skip(i)));
        if anns[i - 1] is PanopticSegmentation {
            assert(ann_slots(anns[i - 1]) >= 0);
        }
    }
}

/// Folds one annotation into the state, per [`annotation_step`].
fn add_annotation(
    m: &mut Merger,
    a: &CocoAnnotation,
    img_remap: &HashMap<i64, i64>,
    cat_remap: &HashMap<i32, i32>,
    file: &str,
) -> (r: Result<(), MergeError>)
    requires
        old(m)@.next_annotation_id + ann_slots(a@) <= i64::MAX,
        old(m)@.next_annotation_id >= 0,
        ann_ids_below(seq![a@], i64::MAX - ann_slots(a@)),
    ensures
        ({
            match annotation_step(old(m)@, a@, img_remap@, cat_remap@, file@) {
                Ok(em) => r is Ok && final(m)@ == em,
                Err(e) => r matches Err(ae) && ae@ == e,
            }
        }),
{
    proof {
        assert(seq![a@][0] == a@);
    }
    let image_id = a.image_id();
    let new_image_id: i64 = match img_remap.get(&image_id) {
        Some(v) => *v,
        None => {
            return Ok(());
        },
    };
    match a {
        CocoAnnotation::ObjectDetection(x) => {
            let mapped = match cat_remap.get(&x.category_id) {
                Some(v) => *v,
                None => {
                    return Err(
                        MergeError::MissingCategoryForAnnotation {
                            file: file.to_owned(),
                            annotation_id: x.id,
                            category_id: x.category_id,
                        },
                    );
                },
            };
            let new_id = resolve_ann_id(m, x.id);
            let na = crate::model::CocoObjectDetectionAnnotation {
                id: new_id,
                image_id: new_image_id,
                category_id: mapped,
                segmentation: x.segmentation.clone(),
                area: x.area,
                bbox: x.bbox,
                iscrowd: x.iscrowd,
            };
            let ghost prev = m.annotations.deep_view();
            m.annotations.push(CocoAnnotation::ObjectDetection(na));
            proof {
                let em = annotation_step(old(m)@, a@, img_remap@, cat_remap@, file@)->Ok_0;
                assert(m.annotations.deep_view() =~= em.annotations);
                assert(m@ =~= em);
            }
            Ok(())
        },
        CocoAnnotation::KeypointDetection(x) => {
            let mapped = match cat_remap.get(&x.category_id) {
                Some(v) => *v,
                None => {
                    return Err(
                        MergeError::MissingCategoryForAnnotation {
                            file: file.to_owned(),
                            annotation_id: x.id,
                            category_id: x.category_id,
                        },
                    );
                },
            };
            let new_id = resolve_ann_id(m, x.id);
            let keypoints = x.keypoints.clone();
            proof {
                assert(keypoints@ =~= x.keypoints@);
            }
            let na = crate::model::CocoKeypointDetectionAnnotation {
                id: new_id,
                image_id: new_image_id,
                category_id: mapped,
                segmentation: x.segmentation.clone(),
                area: x.area,
                bbox: x.bbox,
                iscrowd: x.iscrowd,
                keypoints,
                num_keypoints: x.num_keypoints,
            };
            let ghost prev = m.annotations.deep_view();
            m.annotations.push(CocoAnnotation::KeypointDetection(na));
            proof {
                let em = annotation_step(old(m)@, a@, img_remap@, cat_remap@, file@)->Ok_0;
                assert(m.annotations.deep_view() =~= em.annotations);
                assert(m@ =~= em);
            }
            Ok(())
        },
        CocoAnnotation::DensePose(x) => {
            let mapped = match cat_remap.get(&x.category_id) {
                Some(v) => *v,
                None => {
                    return Err(
                        MergeError::MissingCategoryForAnnotation {
                            file: file.to_owned(),
                            annotation_id: x.id,
                            category_id: x.category_id,
                        },
                    );
                },
            };
            let new_id = resolve_ann_id(m, x.id);
            let mut na = x.clone();
            na.id = new_id;
            na.image_id = new_image_id;
            na.category_id = mapped;
            let ghost prev = m.annotations.deep_view();
            m.annotations.push(CocoAnnotation::DensePose(na));
            proof {
                let em = annotation_step(old(m)@, a@, img_remap@, cat_remap@, file@)->Ok_0;
                assert(m.annotations.deep_view() =~= em.annotations);
                assert(m@ =~= em);
            }
            Ok(())
        },
        CocoAnnotation::ImageCaptioning(x) => {
            let new_id = resolve_ann_id(m, x.id);
            let na = crate::model::CocoImageCaptioningAnnotation {
                id: new_id,
                image_id: new_image_id,
                caption: x.caption.clone(),
            };
            let ghost prev = m.annotations.deep_view();
            m.annotations.push(CocoAnnotation::ImageCaptioning(na));
            proof {
                let em = annotation_step(old(m)@, a@, img_remap@, cat_remap@, file@)->Ok_0;
                assert(m.annotations.deep_view() =~= em.annotations);
                assert(m@ =~= em);
            }
            Ok(())
        },
        CocoAnnotation::PanopticSegmentation(x) => {
            let new_segs = match process_segments(m, &x.segments_info, cat_remap, file) {
                Ok(v) => v,
                Err(e) => {
                    return Err(e);
                },
            };
            let na = crate::model::CocoPanopticSegmentationAnnotation {
                image_id: new_image_id,
                file_name: x.file_name.clone(),
                segments_info: new_segs,
            };
            let ghost prev = m.annotations.deep_view();
            m.annotations.push(CocoAnnotation::PanopticSegmentation(na));
            proof {
                let em = annotation_step(old(m)@, a@, img_remap@, cat_remap@, file@)->Ok_0;
                assert(m.annotations.deep_view() =~= em.annotations);
                assert(m@ =~= em);
            }
            Ok(())
        },
    }
}

/// Folds a file's annotations into the state, per [`annotations_pass`].
fn process_annotations(
    m: &mut Merger,
    anns: &Vec<CocoAnnotation>,
    img_remap: &HashMap<i64, i64>,
    cat_remap: &HashMap<i32, i32>,
    file: &str,
) -> (r: Result<(), MergeError>)
    requires
        ann_ids_below(anns.deep_view(), i64::MAX - anns_slots(anns.deep_view())),
        old(m)@.next_annotation_id + anns_slots(anns.deep_view()) <= i64::MAX,
        old(m)@.next_annotation_id >= 0,
    ensures
        ({
            match annotations_pass(old(m)@, anns.deep_view(), img_remap@, cat_remap@, file@) {
                Ok(em) => r is Ok && final(m)@ == em,
                Err(e) => r matches Err(ae) && ae@ == e,
            }
        }),
{
    let n = anns.len();
    let mut i: usize = 0;
    proof {
        assert(anns.deep_view().skip(0) =~= anns.deep_view());
        lemma_anns_slots_nonneg(anns.deep_view());
    }
    while i < n
        invariant
            i <= n,
            n == anns@.len(),
            ann_ids_below(anns.deep_view(), i64::MAX - anns_slots(anns.deep_view())),
            m@.next_annotation_id + anns_slots(anns.deep_view().skip(i as int)) <= i64::MAX,
            m@.next_annotation_id >= 0,
            annotations_pass(old(m)@, anns.deep_view(), img_remap@, cat_remap@, file@)
                == annotations_pass(
                m@,
                anns.deep_view().skip(i as int),
                img_remap@,
                cat_remap@,
                file@,
            ),
        decreases n - i,
    {
        let ghost deep = anns.deep_view();
        let ghost rest = deep.skip(i as int);
        let ghost a = deep[i as int];
        proof {
            assert(rest[0] == a);
            assert(rest.drop_first() =~= deep.skip(i as int + 1));
            assert(anns_slots(rest) == ann_slots(a) + anns_slots(deep.skip(i as int + 1)));
            lemma_anns_slots_skip(deep, i as int + 1);
            lemma_anns_slots_skip(deep, i as int);
            // the single-element requirements of add_annotation
            assert(seq![a][0] == a);
            let lim_all = i64::MAX - anns_slots(deep);
            assert(match deep[i as int] {
                AnnotationV::ObjectDetection(x) => (x.id as int) < lim_all,
                AnnotationV::KeypointDetection(x) => (x.id as int) < lim_all,
                AnnotationV::ImageCaptioning(x) => (x.id as int) < lim_all,
                AnnotationV::DensePose(x) => (x.id as int) < lim_all,
                AnnotationV::PanopticSegmentation(x) => seg_ids_below(
                    x.segments_info,
                    lim_all,
                ),
            });
            if a is PanopticSegmentation {
                let segs = a->PanopticSegmentation_0.segments_info;
                assert(seg_ids_below(segs, lim_all));
                assert(ann_slots(a) == segs.len());
                assert forall|k: int| 0 <= k < segs.len() implies ((#[trigger] segs[k]).id
                    as int) < i64::MAX - ann_slots(a) by {
                    lemma_anns_slots_skip(deep, i as int + 1);
                }
                assert(seg_ids_below(segs, i64::MAX - ann_slots(a)));
            }
            assert(ann_ids_below(seq![a], i64::MAX - ann_slots(a)));
            // the counter moves by at most its budget for this annotation
            assert(seq![a].drop_first() =~= Seq::<AnnotationV>::empty());
            assert(ann_ids_below(seq![a], lim_all));
            lemma_annotations_pass_props(
                m@,
                seq![a],
                img_remap@,
                cat_remap@,
                file@,
                lim_all,
            );
            assert(anns_slots(Seq::<AnnotationV>::empty()) == 0);
            assert(anns_slots(seq![a].drop_first()) == 0);
            assert(anns_slots(seq![a]) == ann_slots(a));
            let stepped = annotation_step(m@, a, img_remap@, cat_remap@, file@);
            if stepped is Ok {
                let m1 = stepped->Ok_0;
                assert(annotations_pass(m1, seq![a].drop_first(), img_remap@, cat_remap@, file@)
                    == Ok::<MergeModel, MergeErrorV>(m1));
                assert(annotations_pass(m@, seq![a], img_remap@, cat_remap@, file@)
                    == Ok::<MergeModel, MergeErrorV>(m1));
            }
        }
        match add_annotation(m, &anns[i], img_remap, cat_remap, file) {
            Ok(()) => {},
            Err(e) => {
                return Err(e);
            },
        }
        i += 1;
    }
    proof {
        assert(anns.deep_view().skip(n as int) =~= Seq::<AnnotationV>::empty());
    }
    Ok(())
}

// Whole files, executable ///////////////////////////////////

/// Total category counts are never negative.
pub proof fn lemma_total_categories_nonneg(files: Seq<FileV>)
    ensures
        total_categories(files) >= 0,
    decreases files.len(),
{
    if files.len() > 0 {
        lemma_total_categories_nonneg(files.drop_first());
    }
}

/// A suffix never declares more categories than the whole.
pub proof fn lemma_total_categories_skip(files: Seq<FileV>, i: int)
    requires
        0 <= i <= files.len(),
    ensures
        0 <= total_categories(files.skip(i)) <= total_categories(files),
    decreases i,
{
    lemma_total_categories_nonneg(files.skip(i));
    if i == 0 {
        assert(files.skip(0) =~= files);
    } else {
        lemma_total_categories_skip(files, i - 1);
        let prev = files.skip(i - 1);
        assert(prev[0] == files[i - 1]);
        assert(prev.drop_first() =~= files.skip(i));
    }
}

/// Total license counts are never negative.
pub proof fn lemma_total_licenses_nonneg(files: Seq<FileV>)
    ensures
        total_licenses(files) >= 0,
    decreases files.len(),
{
    if files.len() > 0 {
        lemma_total_licenses_nonneg(files.drop_first());
    }
}

/// A suffix never declares more licenses than the whole.
pub proof fn lemma_total_licenses_skip(files: Seq<FileV>, i: int)
    requires
        0 <= i <= files.len(),
    ensures
        0 <= total_licenses(files.skip(i)) <= total_licenses(files),
    decreases i,
{
    lemma_total_licenses_nonneg(files.skip(i));
    if i == 0 {
        assert(files.skip(0) =~= files);
    } else {
        lemma_total_licenses_skip(files, i - 1);
        let prev = files.skip(i - 1);
        assert(prev[0] == files[i - 1]);
        assert(prev.drop_first() =~= files.skip(i));
    }
}

/// Total image counts are never negative.
pub proof fn lemma_total_images_nonneg(files: Seq<FileV>)
    ensures
        total_images(files) >= 0,
    decreases files.len(),
{
    if files.len() > 0 {
        lemma_total_images_nonneg(files.drop_first());
    }
}

/// A suffix never holds more images than the whole.
pub proof fn lemma_total_images_skip(files: Seq<FileV>, i: int)
    requires
        0 <= i <= files.len(),
    ensures
        0 <= total_images(files.skip(i)) <= total_images(files),
    decreases i,
{
    lemma_total_images_nonneg(files.skip(i));
    if i == 0 {
        assert(files.skip(0) =~= files);
    } else {
        lemma_total_images_skip(files, i - 1);
        let prev = files.skip(i - 1);
        assert(prev[0] == files[i - 1]);
        assert(prev.drop_first() =~= files.skip(i));
    }
}

/// Total slot counts are never negative.
pub proof fn lemma_total_ann_slots_nonneg(files: Seq<FileV>)
    ensures
        total_ann_slots(files) >= 0,
    decreases files.len(),
{
    if files.len() > 0 {
        lemma_anns_slots_nonneg(files[0].annotations);
        lemma_total_ann_slots_nonneg(files.drop_first());
    }
}

/// A suffix never uses more id slots than the whole.
pub proof fn lemma_total_ann_slots_skip(files: Seq<FileV>, i: int)
    requires
        0 <= i <= files.len(),
    ensures
        0 <= total_ann_slots(files.skip(i)) <= total_ann_slots(files),
    decreases i,
{
    lemma_total_ann_slots_nonneg(files.skip(i));
    if i == 0 {
        assert(files.skip(0) =~= files);
    } else {
        lemma_total_ann_slots_skip(files, i - 1);
        let prev = files.skip(i - 1);
        assert(prev[0] == files[i - 1]);
        assert(prev.drop_first() =~= files.skip(i));
        lemma_anns_slots_nonneg(files[i - 1].annotations);
    }
}

/// One file moves each counter forward by at most that file's budget in
/// its namespace.
pub proof fn lemma_file_pass_props(
    m: MergeModel,
    f: FileV,
    path: Seq<char>,
    reassign: bool,
    limc: int,
    liml: int,
    limi: int,
    lima: int,
)
    requires
        cat_ids_below(f.categories_or_empty(), limc),
        lic_ids_below(f.licenses_or_empty(), liml),
        img_ids_below(f.images, limi),
        ann_ids_below(f.annotations, lima),
    ensures
        file_pass(m, f, path, reassign) matches Ok(m2) ==> {
            &&& m.next_category_id <= m2.next_category_id <= vstd::math::max(
                m.next_category_id,
                limc,
            ) + f.categories_or_empty().len()
            &&& m.next_license_id <= m2.next_license_id <= vstd::math::max(
                m.next_license_id,
                liml,
            ) + f.licenses_or_empty().len()
            &&& m.next_image_id <= m2.next_image_id <= vstd::math::max(m.next_image_id, limi)
                + f.images.len()
            &&& m.next_annotation_id <= m2.next_annotation_id <= vstd::math::max(
                m.next_annotation_id,
                lima,
            ) + anns_slots(f.annotations)
        },
{
    let dir = parent_dir_spec(path);
    let (m1, cat_remap) = categories_pass(m, Map::empty(), f.categories_or_empty());
    lemma_categories_pass_props(m, Map::empty(), f.categories_or_empty(), limc);
    let (m2, lic_remap) = licenses_pass(m1, Map::empty(), f.licenses_or_empty());
    lemma_licenses_pass_props(m1, Map::empty(), f.licenses_or_empty(), liml);
    lemma_images_pass_props(m2, Map::empty(), f.images, dir, path, reassign, lic_remap, limi);
    match images_pass(m2, Map::empty(), f.images, dir, path, reassign, lic_remap) {
        Err(_) => {},
        Ok((m3, img_remap)) => {
            lemma_annotations_pass_props(m3, f.annotations, img_remap, cat_remap, path, lima);
        },
    }
}

/// Folds one file into the state, per [`file_pass`].
fn merge_file(m: &mut Merger, f: &CocoFile, path: &str, reassign: bool) -> (r: Result<
    (),
    MergeError,
>)
    requires
        old(m)@.next_category_id >= 0,
        old(m)@.next_category_id + f@.categories_or_empty().len() <= i32::MAX,
        cat_ids_below(f@.categories_or_empty(), i32::MAX - f@.categories_or_empty().len()),
        old(m)@.next_license_id >= 0,
        old(m)@.next_license_id + f@.licenses_or_empty().len() <= i32::MAX,
        lic_ids_below(f@.licenses_or_empty(), i32::MAX - f@.licenses_or_empty().len()),
        old(m)@.next_image_id >= 0,
        old(m)@.next_image_id + f@.images.len() <= i64::MAX,
        img_ids_below(f@.images, i64::MAX - f@.images.len()),
        old(m)@.next_annotation_id >= 0,
        old(m)@.next_annotation_id + anns_slots(f@.annotations) <= i64::MAX,
        ann_ids_below(f@.annotations, i64::MAX - anns_slots(f@.annotations)),
    ensures
        ({
            match file_pass(old(m)@, f@, path@, reassign) {
                Ok(em) => r is Ok && final(m)@ == em,
                Err(e) => r matches Err(ae) && ae@ == e,
            }
        }),
{
    let dir = parent_dir(path);
    let mut cat_remap: HashMap<i32, i32> = HashMap::new();
    match &f.categories {
        Some(cats) => {
            proof {
                assert(f@.categories_or_empty() =~= cats.deep_view());
            }
            process_categories(m, &mut cat_remap, cats);
        },
        None => {
            proof {
                assert(f@.categories_or_empty() =~= Seq::<CategoryV>::empty());
            }
        },
    }
    proof {
        let (em1, ecr) = categories_pass(old(m)@, Map::empty(), f@.categories_or_empty());
        assert(m@ == em1 && cat_remap@ == ecr);
        lemma_categories_pass_props(
            old(m)@,
            Map::empty(),
            f@.categories_or_empty(),
            i32::MAX - f@.categories_or_empty().len(),
        );
    }
    let mut lic_remap: HashMap<i32, i32> = HashMap::new();
    match &f.licenses {
        Some(lics) => {
            proof {
                assert(f@.licenses_or_empty() =~= lics.deep_view());
            }
            process_licenses(m, &mut lic_remap, lics);
        },
        None => {
            proof {
                assert(f@.licenses_or_empty() =~= Seq::<LicenseV>::empty());
            }
        },
    }
    proof {
        let (em1, ecr) = categories_pass(old(m)@, Map::empty(), f@.categories_or_empty());
        let (em2, elr) = licenses_pass(em1, Map::empty(), f@.licenses_or_empty());
        assert(m@ == em2 && lic_remap@ == elr);
        lemma_licenses_pass_props(
            em1,
            Map::empty(),
            f@.licenses_or_empty(),
            i32::MAX - f@.licenses_or_empty().len(),
        );
    }
    let mut img_remap: HashMap<i64, i64> = HashMap::new();
    let img_result = process_images(
        m,
        &mut img_remap,
        &f.images,
        dir.as_str(),
        path,
        reassign,
        &lic_remap,
    );
    match img_result {
        Err(e) => {
            return Err(e);
        },
        Ok(()) => {},
    }
    proof {
        let (em1, ecr) = categories_pass(old(m)@, Map::empty(), f@.categories_or_empty());
        let (em2, elr) = licenses_pass(em1, Map::empty(), f@.licenses_or_empty());
        let (em3, eir) = images_pass(
            em2,
            Map::empty(),
            f@.images,
            parent_dir_spec(path@),
            path@,
            reassign,
            elr,
        )->Ok_0;
        assert(m@ == em3 && img_remap@ == eir);
        lemma_images_pass_props(
            em2,
            Map::empty(),
            f@.images,
            parent_dir_spec(path@),
            path@,
            reassign,
            elr,
            i64::MAX - f@.images.len(),
        );
    }
    let ann_result = process_annotations(m, &f.annotations, &img_remap, &cat_remap, path);
    match ann_result {
        Err(e) => {
            return Err(e);
        },
        Ok(()) => {},
    }
    Ok(())
}

// The public entry point ///////////////////////////////////

/// What a successful merge hands back: the merged dataset description and
/// one warning per image that was dropped over an id collision.
#[derive(Debug)]
pub struct MergeOutcome {
    /// The merged dataset.
    pub file: CocoFile,
    /// One entry per dropped colliding image, in processing order.
    pub warnings: Vec<MergeWarning>,
}

/// Merges the dataset descriptions `files`, read from `paths` (used to
/// resolve relative image paths and to name files in diagnostics), in the
/// given order.  When `reassign_clashing_ids` is set a colliding image id
/// is given a fresh id, otherwise the image is dropped with a warning.
/// The merged file carries a fresh metadata block from `version`, `year`
/// and `date_created`.
///
/// The result is exactly what [`spec_merge`] says: the merged sections on
/// success, and the first fatal referential-integrity error otherwise.
pub fn merge_coco_files(
    files: &Vec<CocoFile>,
    paths: &Vec<String>,
    reassign_clashing_ids: bool,
    version: String,
    year: i32,
    date_created: String,
) -> (r: Result<MergeOutcome, MergeError>)
    requires
        files@.len() == paths@.len(),
        merge_input_bounded(files.deep_view()),
    ensures
        ({
            let sm = spec_merge(files.deep_view(), paths.deep_view(), reassign_clashing_ids);
            match r {
                Ok(out) => sm matches Ok(em) && {
                    &&& out.file@.images == em.images
                    &&& out.file@.annotations == em.annotations
                    &&& out.file@.categories == Some(em.categories)
                    &&& out.file@.licenses == Some(em.licenses)
                    &&& out.file@.info == Some(
                        InfoV {
                            year: year,
                            version: version@,
                            description: Seq::empty(),
                            contributor: Seq::empty(),
                            url: Seq::empty(),
                            date_created: date_created@,
                        },
                    )
                    &&& out.warnings.deep_view() == em.warnings
                },
                Err(e) => sm == Err::<MergeModel, MergeErrorV>(e@),
            }
        }),
{
    let ghost fdeep = files.deep_view();
    let ghost pdeep = paths.deep_view();
    let mut merger = Merger::new();
    let n = files.len();
    let mut i: usize = 0;
    proof {
        assert(fdeep.skip(0) =~= fdeep);
        assert(pdeep.skip(0) =~= pdeep);
        lemma_total_categories_nonneg(fdeep);
        lemma_total_licenses_nonneg(fdeep);
        lemma_total_images_nonneg(fdeep);
        lemma_total_ann_slots_nonneg(fdeep);
    }
    while i < n
        invariant
            i <= n,
            n == files@.len() == paths@.len(),
            fdeep == files.deep_view(),
            pdeep == paths.deep_view(),
            merge_input_bounded(fdeep),
            merger@.next_category_id >= 0,
            merger@.next_category_id + total_categories(fdeep.skip(i as int)) <= i32::MAX,
            merger@.next_license_id >= 0,
            merger@.next_license_id + total_licenses(fdeep.skip(i as int)) <= i32::MAX,
            merger@.next_image_id >= 0,
            merger@.next_image_id + total_images(fdeep.skip(i as int)) <= i64::MAX,
            merger@.next_annotation_id >= 0,
            merger@.next_annotation_id + total_ann_slots(fdeep.skip(i as int)) <= i64::MAX,
            merge_pass(initial_model(), fdeep, pdeep, reassign_clashing_ids) == merge_pass(
                merger@,
                fdeep.skip(i as int),
                pdeep.skip(i as int),
                reassign_clashing_ids,
            ),
        decreases n - i,
    {
        let ghost frest = fdeep.skip(i as int);
        let ghost prest = pdeep.skip(i as int);
        let ghost f = fdeep[i as int];
        proof {
            assert(frest[0] == f);
            assert(prest[0] == pdeep[i as int]);
            assert(frest.drop_first() =~= fdeep.skip(i as int + 1));
            assert(prest.drop_first() =~= pdeep.skip(i as int + 1));
            // this file's budget comes out of the remaining totals
            assert(total_categories(frest) == f.categories_or_empty().len()
                + total_categories(fdeep.skip(i as int + 1)));
            assert(total_licenses(frest) == f.licenses_or_empty().len() + total_licenses(
                fdeep.skip(i as int + 1),
            ));
            assert(total_images(frest) == f.images.len() + total_images(
                fdeep.skip(i as int + 1),
            ));
            assert(total_ann_slots(frest) == anns_slots(f.annotations) + total_ann_slots(
                fdeep.skip(i as int + 1),
            ));
            lemma_total_categories_skip(fdeep, i as int + 1);
            lemma_total_licenses_skip(fdeep, i as int + 1);
            lemma_total_images_skip(fdeep, i as int + 1);
            lemma_total_ann_slots_skip(fdeep, i as int + 1);
            lemma_total_categories_skip(fdeep, i as int);
            lemma_total_licenses_skip(fdeep, i as int);
            lemma_total_images_skip(fdeep, i as int);
            lemma_total_ann_slots_skip(fdeep, i as int);
            lemma_anns_slots_nonneg(f.annotations);
            // the global id bounds imply this file's local ones
            assert(cat_ids_below(f.categories_or_empty(), i32::MAX - total_categories(fdeep)));
            assert(cat_ids_below(
                f.categories_or_empty(),
                i32::MAX - f.categories_or_empty().len(),
            ));
            assert(lic_ids_below(f.licenses_or_empty(), i32::MAX - total_licenses(fdeep)));
            assert(lic_ids_below(
                f.licenses_or_empty(),
                i32::MAX - f.licenses_or_empty().len(),
            ));
            assert(img_ids_below(f.images, i64::MAX - total_images(fdeep)));
            assert(img_ids_below(f.images, i64::MAX - f.images.len()));
            assert(ann_ids_below(f.annotations, i64::MAX - total_ann_slots(fdeep)));
            assert(ann_ids_below(f.annotations, i64::MAX - anns_slots(f.annotations)));
            lemma_file_pass_props(
                merger@,
                f,
                pdeep[i as int],
                reassign_clashing_ids,
                i32::MAX - total_categories(fdeep),
                i32::MAX - total_licenses(fdeep),
                i64::MAX - total_images(fdeep),
                i64::MAX - total_ann_slots(fdeep),
            );
        }
        let file_result = merge_file(
            &mut merger,
            &files[i],
            paths[i].as_str(),
            reassign_clashing_ids,
        );
        match file_result {
            Err(e) => {
                return Err(e);
            },
            Ok(()) => {},
        }
        i += 1;
    }
    proof {
        assert(fdeep.skip(n as int) =~= Seq::<FileV>::empty());
        assert(pdeep.skip(n as int) =~= Seq::<Seq<char>>::empty());
    }
    let Merger { categories, licenses, images, annotations, warnings, .. } = merger;
    let merged = CocoFile {
        images,
        annotations,
        info: Some(
            CocoInfo {
                year,
                version,
                description: String::new(),
                contributor: String::new(),
                url: String::new(),
                date_created,
            },
        ),
        categories: Some(categories),
        licenses: Some(licenses),
    };
    Ok(MergeOutcome { file: merged, warnings })
}

} // verus!
