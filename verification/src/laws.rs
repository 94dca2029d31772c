//! What the merged output is guaranteed to look like.
//!
//! The theorems here are about [`spec_merge`], which the executable merge
//! is proved to implement exactly.  The central one,
//! [`theorem_merge_consistent`], says that a merge that succeeds yields an
//! internally consistent dataset: all ids distinct in every namespace —
//! annotation ids and panoptic segment ids sharing one namespace — and
//! every reference resolving to an entity in the output.

use vstd::prelude::*;

use crate::merge::{
    ann_id_resolve, annotation_step, annotations_pass, categories_pass, category_find,
    category_step, file_pass, image_step, images_pass, initial_model, license_find,
    license_step, licenses_pass, merge_input_bounded, merge_pass, segments_pass, spec_merge,
    MergeModel,
};
use crate::model::{
    annotation_image_id, category_id_of, AnnotationV, CategoryV, FileV, ImageV, LicenseV,
    PanopticSegmentInfoV,
};

verus! {

/// Whether `id` is one of the ids that annotation `a` owns in the shared
/// annotation/segment namespace: its own id, or one of its segment ids.
pub open spec fn ann_uses(a: AnnotationV, id: i64) -> bool {
    match a {
        AnnotationV::ObjectDetection(x) => x.id == id,
        AnnotationV::KeypointDetection(x) => x.id == id,
        AnnotationV::ImageCaptioning(x) => x.id == id,
        AnnotationV::DensePose(x) => x.id == id,
        AnnotationV::PanopticSegmentation(x) => exists|t: int|
            0 <= t < x.segments_info.len() && (#[trigger] x.segments_info[t]).id == id,
    }
}

/// A panoptic annotation's segment ids are pairwise distinct; any other
/// annotation owns a single id.
pub open spec fn ann_ids_distinct_within(a: AnnotationV) -> bool {
    a matches AnnotationV::PanopticSegmentation(x) ==> forall|t1: int, t2: int|
        0 <= t1 < t2 < x.segments_info.len() ==> (#[trigger] x.segments_info[t1]).id != (
        #[trigger] x.segments_info[t2]).id
}

/// Every category reference of `a` lies in `cat_ids`.
pub open spec fn ann_cat_refs_in(a: AnnotationV, cat_ids: Set<i32>) -> bool {
    match a {
        AnnotationV::ObjectDetection(x) => cat_ids.contains(x.category_id),
        AnnotationV::KeypointDetection(x) => cat_ids.contains(x.category_id),
        AnnotationV::DensePose(x) => cat_ids.contains(x.category_id),
        AnnotationV::ImageCaptioning(x) => true,
        AnnotationV::PanopticSegmentation(x) => forall|t: int|
            0 <= t < x.segments_info.len() ==> cat_ids.contains(
                (#[trigger] x.segments_info[t]).category_id,
            ),
    }
}

/// The category namespace is consistent: distinct ids, the claimed set
/// is exactly their ids, and the counter sits past every claimed id.
pub open spec fn cats_wf(cats: Seq<CategoryV>, ids: Set<i32>, next: int) -> bool {
    &&& forall|j: int, k: int|
        0 <= j < k < cats.len() ==> category_id_of(#[trigger] cats[j]) != category_id_of(
            #[trigger] cats[k],
        )
    &&& forall|id: i32|
        #[trigger] ids.contains(id) <==> exists|j: int|
            0 <= j < cats.len() && category_id_of(#[trigger] cats[j]) == id
    &&& forall|id: i32| #[trigger] ids.contains(id) ==> (id as int) < next
    &&& next >= 0
}

/// The license namespace is consistent, in the same shape as [`cats_wf`].
pub open spec fn lics_wf(lics: Seq<LicenseV>, ids: Set<i32>, next: int) -> bool {
    &&& forall|j: int, k: int|
        0 <= j < k < lics.len() ==> (#[trigger] lics[j]).id != (#[trigger] lics[k]).id
    &&& forall|id: i32|
        #[trigger] ids.contains(id) <==> exists|j: int|
            0 <= j < lics.len() && (#[trigger] lics[j]).id == id
    &&& forall|id: i32| #[trigger] ids.contains(id) ==> (id as int) < next
    &&& next >= 0
}

/// The image namespace is consistent, in the same shape as [`cats_wf`].
pub open spec fn imgs_wf(imgs: Seq<ImageV>, ids: Set<i64>, next: int) -> bool {
    &&& forall|j: int, k: int|
        0 <= j < k < imgs.len() ==> (#[trigger] imgs[j]).id != (#[trigger] imgs[k]).id
    &&& forall|id: i64|
        #[trigger] ids.contains(id) <==> exists|j: int|
            0 <= j < imgs.len() && (#[trigger] imgs[j]).id == id
    &&& forall|id: i64| #[trigger] ids.contains(id) ==> (id as int) < next
    &&& next >= 0
}

/// The shared annotation/segment id namespace is consistent: every id an
/// output annotation owns is registered and below the counter, segment
/// ids within one annotation are distinct, and no two annotations own a
/// common id.
pub open spec fn anns_wf(anns: Seq<AnnotationV>, ids: Set<i64>, next: int) -> bool {
    &&& forall|j: int, id: i64|
        #![trigger ann_uses(anns[j], id)]
        0 <= j < anns.len() && ann_uses(anns[j], id) ==> ids.contains(id)
    &&& forall|id: i64| #[trigger] ids.contains(id) ==> (id as int) < next
    &&& next >= 0
    &&& forall|j: int| 0 <= j < anns.len() ==> ann_ids_distinct_within(#[trigger] anns[j])
    &&& forall|j: int, k: int, id: i64|
        #![trigger ann_uses(anns[j], id), ann_uses(anns[k], id)]
        0 <= j < anns.len() && 0 <= k < anns.len() && j != k && ann_uses(anns[j], id)
            ==> !ann_uses(anns[k], id)
}

/// Every reference in the accumulated output resolves: annotations to an
/// accepted image id and claimed category ids, images to claimed license
/// ids.
pub open spec fn refs_wf(
    anns: Seq<AnnotationV>,
    imgs: Seq<ImageV>,
    image_ids: Set<i64>,
    cat_ids: Set<i32>,
    lic_ids: Set<i32>,
) -> bool {
    &&& forall|j: int|
        0 <= j < anns.len() ==> image_ids.contains(annotation_image_id(#[trigger] anns[j]))
    &&& forall|j: int| 0 <= j < anns.len() ==> ann_cat_refs_in(#[trigger] anns[j], cat_ids)
    &&& forall|j: int|
        0 <= j < imgs.len() ==> ((#[trigger] imgs[j]).license matches Some(l)
            ==> lic_ids.contains(l))
}

/// The consistency invariant of a merge state.  For the final state of a
/// successful merge this is exactly the guarantee on the output: distinct
/// ids per namespace, one shared namespace for annotation and segment
/// ids, and no dangling reference.
pub open spec fn model_wf(m: MergeModel) -> bool {
    &&& cats_wf(m.categories, m.category_ids, m.next_category_id)
    &&& lics_wf(m.licenses, m.license_ids, m.next_license_id)
    &&& imgs_wf(m.images, m.image_ids, m.next_image_id)
    &&& anns_wf(m.annotations, m.annotation_ids, m.next_annotation_id)
    &&& refs_wf(m.annotations, m.images, m.image_ids, m.category_ids, m.license_ids)
}

/// Every value of `remap` lies in `ids`.
pub open spec fn remap_into_i32(remap: Map<i32, i32>, ids: Set<i32>) -> bool {
    forall|k: i32| #[trigger] remap.contains_key(k) ==> ids.contains(remap[k])
}

/// Every value of `remap` lies in `ids`.
pub open spec fn remap_into_i64(remap: Map<i64, i64>, ids: Set<i64>) -> bool {
    forall|k: i64| #[trigger] remap.contains_key(k) ==> ids.contains(remap[k])
}

/// One category step preserves consistency, grows the claimed set, and
/// keeps the remap pointing at canonical ids.
proof fn lemma_category_step_wf(m: MergeModel, remap: Map<i32, i32>, c: CategoryV)
    requires
        model_wf(m),
        remap_into_i32(remap, m.category_ids),
        m.next_category_id < i32::MAX,
    ensures
        ({
            let (m2, r2) = category_step(m, remap, c);
            &&& model_wf(m2)
            &&& remap_into_i32(r2, m2.category_ids)
            &&& m.category_ids.subset_of(m2.category_ids)
        }),
{
    let (m2, r2) = category_step(m, remap, c);
    crate::merge::lemma_category_find_props(m.categories, c);
    let j = category_find(m.categories, c);
    if j >= 0 {
        assert(m.category_ids.contains(category_id_of(m.categories[j])));
    } else if m.category_ids.contains(category_id_of(c)) {
        let new_id = m.next_category_id as i32;
        assert(!m.category_ids.contains(new_id));
        assert forall|p: int, q: int| 0 <= p < q < m2.categories.len() implies category_id_of(
            #[trigger] m2.categories[p],
        ) != category_id_of(#[trigger] m2.categories[q]) by {
            if q == m2.categories.len() - 1 {
                assert(m.category_ids.contains(category_id_of(m.categories[p])));
            }
        }
        assert forall|id: i32| #[trigger] m2.category_ids.contains(id) implies exists|t: int|
            0 <= t < m2.categories.len() && category_id_of(#[trigger] m2.categories[t])
                == id by {
            if id == new_id {
                assert(category_id_of(m2.categories[m2.categories.len() - 1]) == id);
            } else {
                let t = choose|t: int|
                    0 <= t < m.categories.len() && category_id_of(
                        #[trigger] m.categories[t],
                    ) == id;
                assert(category_id_of(m2.categories[t]) == id);
            }
        }
        assert forall|id: i32|
            (exists|t: int|
                0 <= t < m2.categories.len() && category_id_of(#[trigger] m2.categories[t])
                    == id) implies m2.category_ids.contains(id) by {
            let t = choose|t: int|
                0 <= t < m2.categories.len() && category_id_of(#[trigger] m2.categories[t])
                    == id;
            if t < m.categories.len() {
                assert(m.category_ids.contains(id));
            }
        }
    } else {
        let cid = category_id_of(c);
        assert forall|p: int, q: int| 0 <= p < q < m2.categories.len() implies category_id_of(
            #[trigger] m2.categories[p],
        ) != category_id_of(#[trigger] m2.categories[q]) by {
            if q == m2.categories.len() - 1 {
                assert(m.category_ids.contains(category_id_of(m.categories[p])));
            }
        }
        assert forall|id: i32| #[trigger] m2.category_ids.contains(id) implies exists|t: int|
            0 <= t < m2.categories.len() && category_id_of(#[trigger] m2.categories[t])
                == id by {
            if id == cid {
                assert(category_id_of(m2.categories[m2.categories.len() - 1]) == id);
            } else {
                let t = choose|t: int|
                    0 <= t < m.categories.len() && category_id_of(
                        #[trigger] m.categories[t],
                    ) == id;
                assert(category_id_of(m2.categories[t]) == id);
            }
        }
        assert forall|id: i32|
            (exists|t: int|
                0 <= t < m2.categories.len() && category_id_of(#[trigger] m2.categories[t])
                    == id) implies m2.category_ids.contains(id) by {
            let t = choose|t: int|
                0 <= t < m2.categories.len() && category_id_of(#[trigger] m2.categories[t])
                    == id;
            if t < m.categories.len() {
                assert(m.category_ids.contains(id));
            }
        }
    }
}

/// A whole category pass preserves consistency; the remap it builds
/// points at canonical ids.
proof fn lemma_categories_pass_wf(m: MergeModel, remap: Map<i32, i32>, cs: Seq<CategoryV>)
    requires
        model_wf(m),
        remap_into_i32(remap, m.category_ids),
        m.next_category_id + cs.len() <= i32::MAX,
        crate::merge::cat_ids_below(cs, i32::MAX - cs.len()),
    ensures
        ({
            let (m2, r2) = categories_pass(m, remap, cs);
            &&& model_wf(m2)
            &&& remap_into_i32(r2, m2.category_ids)
            &&& m.category_ids.subset_of(m2.category_ids)
        }),
    decreases cs.len(),
{
    if cs.len() > 0 {
        lemma_category_step_wf(m, remap, cs[0]);
        let (m1, r1) = category_step(m, remap, cs[0]);
        assert((category_id_of(cs[0]) as int) < i32::MAX - cs.len());
        assert(m1.next_category_id + cs.drop_first().len() <= i32::MAX);
        assert(crate::merge::cat_ids_below(cs.drop_first(), i32::MAX - cs.drop_first().len()));
        lemma_categories_pass_wf(m1, r1, cs.drop_first());
    }
}

/// One license step preserves consistency, grows the claimed set, and
/// keeps the remap pointing at canonical ids.
proof fn lemma_license_step_wf(m: MergeModel, remap: Map<i32, i32>, l: LicenseV)
    requires
        model_wf(m),
        remap_into_i32(remap, m.license_ids),
        m.next_license_id < i32::MAX,
    ensures
        ({
            let (m2, r2) = license_step(m, remap, l);
            &&& model_wf(m2)
            &&& remap_into_i32(r2, m2.license_ids)
            &&& m.license_ids.subset_of(m2.license_ids)
        }),
{
    let (m2, r2) = license_step(m, remap, l);
    crate::merge::lemma_license_find_props(m.licenses, l);
    let j = license_find(m.licenses, l);
    if j >= 0 {
        assert(m.license_ids.contains(m.licenses[j].id));
    } else {
        let nid: i32 = if m.license_ids.contains(l.id) {
            m.next_license_id as i32
        } else {
            l.id
        };
        assert(!m.license_ids.contains(nid) || !m.license_ids.contains(l.id));
        assert forall|p: int, q: int| 0 <= p < q < m2.licenses.len() implies (
        #[trigger] m2.licenses[p]).id != (#[trigger] m2.licenses[q]).id by {
            if q == m2.licenses.len() - 1 {
                assert(m.license_ids.contains(m.licenses[p].id));
            }
        }
        assert forall|id: i32| #[trigger] m2.license_ids.contains(id) implies exists|t: int|
            0 <= t < m2.licenses.len() && (#[trigger] m2.licenses[t]).id == id by {
            if id == nid {
                assert(m2.licenses[m2.licenses.len() - 1].id == id);
            } else {
                let t = choose|t: int|
                    0 <= t < m.licenses.len() && (#[trigger] m.licenses[t]).id == id;
                assert(m2.licenses[t].id == id);
            }
        }
        assert forall|id: i32|
            (exists|t: int|
                0 <= t < m2.licenses.len() && (#[trigger] m2.licenses[t]).id
                    == id) implies m2.license_ids.contains(id) by {
            let t = choose|t: int|
                0 <= t < m2.licenses.len() && (#[trigger] m2.licenses[t]).id == id;
            if t < m.licenses.len() {
                assert(m.license_ids.contains(id));
            }
        }
    }
}

/// A whole license pass preserves consistency; the remap it builds points
/// at canonical ids.
proof fn lemma_licenses_pass_wf(m: MergeModel, remap: Map<i32, i32>, ls: Seq<LicenseV>)
    requires
        model_wf(m),
        remap_into_i32(remap, m.license_ids),
        m.next_license_id + ls.len() <= i32::MAX,
        crate::merge::lic_ids_below(ls, i32::MAX - ls.len()),
    ensures
        ({
            let (m2, r2) = licenses_pass(m, remap, ls);
            &&& model_wf(m2)
            &&& remap_into_i32(r2, m2.license_ids)
            &&& m.license_ids.subset_of(m2.license_ids)
        }),
    decreases ls.len(),
{
    if ls.len() > 0 {
        lemma_license_step_wf(m, remap, ls[0]);
        let (m1, r1) = license_step(m, remap, ls[0]);
        assert((ls[0].id as int) < i32::MAX - ls.len());
        assert(m1.next_license_id + ls.drop_first().len() <= i32::MAX);
        assert(crate::merge::lic_ids_below(ls.drop_first(), i32::MAX - ls.drop_first().len()));
        lemma_licenses_pass_wf(m1, r1, ls.drop_first());
    }
}

/// One image step preserves consistency; the remap keeps pointing at
/// accepted image ids.
proof fn lemma_image_step_wf(
    m: MergeModel,
    remap: Map<i64, i64>,
    img: ImageV,
    dir: Seq<char>,
    file: Seq<char>,
    reassign: bool,
    lic_remap: Map<i32, i32>,
)
    requires
        model_wf(m),
        remap_into_i64(remap, m.image_ids),
        remap_into_i32(lic_remap, m.license_ids),
        m.next_image_id < i64::MAX,
    ensures
        image_step(m, remap, img, dir, file, reassign, lic_remap) matches Ok((m2, r2)) ==> {
            &&& model_wf(m2)
            &&& remap_into_i64(r2, m2.image_ids)
            &&& m.image_ids.subset_of(m2.image_ids)
        },
{
    match image_step(m, remap, img, dir, file, reassign, lic_remap) {
        Err(_) => {},
        Ok((m2, r2)) => {
            if m.image_ids.contains(img.id) && !reassign {
                // dropped: nothing but the warnings change
            } else {
                let nid: i64 = if m.image_ids.contains(img.id) {
                    m.next_image_id as i64
                } else {
                    img.id
                };
                assert(m2.images.len() == m.images.len() + 1);
                assert(m2.images[m2.images.len() - 1].id == nid);
                assert(!m.image_ids.contains(nid));
                assert forall|p: int, q: int| 0 <= p < q < m2.images.len() implies (
                #[trigger] m2.images[p]).id != (#[trigger] m2.images[q]).id by {
                    if q == m2.images.len() - 1 {
                        assert(m.image_ids.contains(m.images[p].id));
                    }
                }
                assert forall|id: i64| #[trigger] m2.image_ids.contains(id) implies exists|
                    t: int,
                |
                    0 <= t < m2.images.len() && (#[trigger] m2.images[t]).id == id by {
                    if id == nid {
                        assert(m2.images[m2.images.len() - 1].id == id);
                    } else {
                        let t = choose|t: int|
                            0 <= t < m.images.len() && (#[trigger] m.images[t]).id == id;
                        assert(m2.images[t].id == id);
                    }
                }
                assert forall|id: i64|
                    (exists|t: int|
                        0 <= t < m2.images.len() && (#[trigger] m2.images[t]).id
                            == id) implies m2.image_ids.contains(id) by {
                    let t = choose|t: int|
                        0 <= t < m2.images.len() && (#[trigger] m2.images[t]).id == id;
                    if t < m.images.len() {
                        assert(m.image_ids.contains(id));
                    }
                }
            }
        },
    }
}

/// A whole image pass preserves consistency; the remap it builds points
/// at accepted image ids.
proof fn lemma_images_pass_wf(
    m: MergeModel,
    remap: Map<i64, i64>,
    imgs: Seq<ImageV>,
    dir: Seq<char>,
    file: Seq<char>,
    reassign: bool,
    lic_remap: Map<i32, i32>,
)
    requires
        model_wf(m),
        remap_into_i64(remap, m.image_ids),
        remap_into_i32(lic_remap, m.license_ids),
        m.next_image_id + imgs.len() <= i64::MAX,
        crate::merge::img_ids_below(imgs, i64::MAX - imgs.len()),
    ensures
        images_pass(m, remap, imgs, dir, file, reassign, lic_remap) matches Ok((m2, r2)) ==> {
            &&& model_wf(m2)
            &&& remap_into_i64(r2, m2.image_ids)
            &&& m.image_ids.subset_of(m2.image_ids)
        },
    decreases imgs.len(),
{
    if imgs.len() > 0 {
        lemma_image_step_wf(m, remap, imgs[0], dir, file, reassign, lic_remap);
        match image_step(m, remap, imgs[0], dir, file, reassign, lic_remap) {
            Err(_) => {},
            Ok((m1, r1)) => {
                assert((imgs[0].id as int) < i64::MAX - imgs.len());
                assert(m1.next_image_id + imgs.drop_first().len() <= i64::MAX);
                assert(crate::merge::img_ids_below(
                    imgs.drop_first(),
                    i64::MAX - imgs.drop_first().len(),
                ));
                lemma_images_pass_wf(m1, r1, imgs.drop_first(), dir, file, reassign, lic_remap);
            },
        }
    }
}

/// Resolving one id keeps the namespace registry consistent and hands
/// back an id that was free before the call.
proof fn lemma_ann_id_resolve_wf(m: MergeModel, id: i64)
    requires
        anns_wf(m.annotations, m.annotation_ids, m.next_annotation_id),
        m.next_annotation_id < i64::MAX,
    ensures
        ({
            let (m2, nid) = ann_id_resolve(m, id);
            &&& anns_wf(m2.annotations, m2.annotation_ids, m2.next_annotation_id)
            &&& !m.annotation_ids.contains(nid)
            &&& m2.annotation_ids.contains(nid)
            &&& m.annotation_ids.insert(nid) == m2.annotation_ids
            &&& m.next_annotation_id <= m2.next_annotation_id
            &&& m2 == MergeModel {
                annotation_ids: m2.annotation_ids,
                next_annotation_id: m2.next_annotation_id,
                ..m
            }
        }),
{
}

/// A segment pass keeps the state consistent and returns segments whose
/// ids are fresh, pairwise distinct, registered, and whose category
/// references are canonical.
proof fn lemma_segments_pass_wf(
    m: MergeModel,
    segs: Seq<PanopticSegmentInfoV>,
    cat_remap: Map<i32, i32>,
    file: Seq<char>,
)
    requires
        model_wf(m),
        remap_into_i32(cat_remap, m.category_ids),
        m.next_annotation_id + segs.len() <= i64::MAX,
        crate::merge::seg_ids_below(segs, i64::MAX - segs.len()),
    ensures
        segments_pass(m, segs, cat_remap, file) matches Ok((m2, nsegs)) ==> {
            &&& model_wf(m2)
            &&& m.annotation_ids.subset_of(m2.annotation_ids)
            &&& m2 == MergeModel {
                annotation_ids: m2.annotation_ids,
                next_annotation_id: m2.next_annotation_id,
                ..m
            }
            &&& nsegs.len() == segs.len()
            &&& forall|t: int|
                0 <= t < nsegs.len() ==> !m.annotation_ids.contains(
                    (#[trigger] nsegs[t]).id,
                ) && m2.annotation_ids.contains(nsegs[t].id) && m.category_ids.contains(
                    nsegs[t].category_id,
                )
            &&& forall|t1: int, t2: int|
                0 <= t1 < t2 < nsegs.len() ==> (#[trigger] nsegs[t1]).id != (
                #[trigger] nsegs[t2]).id
        },
    decreases segs.len(),
{
    if segs.len() > 0 {
        let seg = segs[0];
        if cat_remap.contains_key(seg.category_id) {
            lemma_ann_id_resolve_wf(m, seg.id);
            let (m1, nid) = ann_id_resolve(m, seg.id);
            assert(model_wf(m1));
            assert((seg.id as int) < i64::MAX - segs.len());
            assert(crate::merge::seg_ids_below(
                segs.drop_first(),
                i64::MAX - segs.drop_first().len(),
            ));
            lemma_segments_pass_wf(m1, segs.drop_first(), cat_remap, file);
        }
    }
}

/// One annotation step preserves consistency.
proof fn lemma_annotation_step_wf(
    m: MergeModel,
    a: AnnotationV,
    img_remap: Map<i64, i64>,
    cat_remap: Map<i32, i32>,
    file: Seq<char>,
)
    requires
        model_wf(m),
        remap_into_i64(img_remap, m.image_ids),
        remap_into_i32(cat_remap, m.category_ids),
        m.next_annotation_id + crate::merge::ann_slots(a) <= i64::MAX,
        crate::merge::ann_ids_below(seq![a], i64::MAX - crate::merge::ann_slots(a)),
    ensures
        annotation_step(m, a, img_remap, cat_remap, file) matches Ok(m2) ==> {
            &&& model_wf(m2)
            &&& m2 == MergeModel {
                annotations: m2.annotations,
                annotation_ids: m2.annotation_ids,
                next_annotation_id: m2.next_annotation_id,
                ..m
            }
        },
{
    assert(seq![a][0] == a);
    if !img_remap.contains_key(annotation_image_id(a)) {
    } else {
        let new_image_id = img_remap[annotation_image_id(a)];
        assert(m.image_ids.contains(new_image_id));
        match a {
            AnnotationV::PanopticSegmentation(x) => {
                if forall|t: int|
                    0 <= t < x.segments_info.len() ==> cat_remap.contains_key(
                        (#[trigger] x.segments_info[t]).category_id,
                    ) {
                }
                lemma_segments_pass_wf(m, x.segments_info, cat_remap, file);
                match segments_pass(m, x.segments_info, cat_remap, file) {
                    Err(_) => {},
                    Ok((m1, nsegs)) => {
                        let m2 = annotation_step(m, a, img_remap, cat_remap, file)->Ok_0;
                        let na = m2.annotations[m2.annotations.len() - 1];
                        assert(ann_ids_distinct_within(na));
                        assert(ann_cat_refs_in(na, m.category_ids));
                        assert forall|j: int, id: i64|
                            0 <= j < m2.annotations.len() - 1 && #[trigger] ann_uses(
                                m2.annotations[j],
                                id,
                            ) implies !ann_uses(na, id) by {
                            assert(ann_uses(m.annotations[j], id));
                            assert(m.annotation_ids.contains(id));
                            if ann_uses(na, id) {
                                let t = choose|t: int|
                                    0 <= t < nsegs.len() && (#[trigger] nsegs[t]).id == id;
                                assert(!m.annotation_ids.contains(nsegs[t].id));
                            }
                        }
                        assert(anns_wf(
                            m2.annotations,
                            m2.annotation_ids,
                            m2.next_annotation_id,
                        ));
                    },
                }
            },
            _ => {
                let own_id: i64 = match a {
                    AnnotationV::ObjectDetection(x) => x.id,
                    AnnotationV::KeypointDetection(x) => x.id,
                    AnnotationV::ImageCaptioning(x) => x.id,
                    AnnotationV::DensePose(x) => x.id,
                    AnnotationV::PanopticSegmentation(x) => 0,
                };
                let needs_cat = match a {
                    AnnotationV::ObjectDetection(x) => cat_remap.contains_key(x.category_id),
                    AnnotationV::KeypointDetection(x) => cat_remap.contains_key(x.category_id),
                    AnnotationV::DensePose(x) => cat_remap.contains_key(x.category_id),
                    _ => true,
                };
                if needs_cat {
                    lemma_ann_id_resolve_wf(m, own_id);
                    let (m1, nid) = ann_id_resolve(m, own_id);
                    let m2 = annotation_step(m, a, img_remap, cat_remap, file)->Ok_0;
                    let na = m2.annotations[m2.annotations.len() - 1];
                    assert(ann_uses(na, nid));
                    assert forall|id: i64| #[trigger] ann_uses(na, id) implies id == nid by {}
                    assert forall|j: int, id: i64|
                        0 <= j < m2.annotations.len() - 1 && #[trigger] ann_uses(
                            m2.annotations[j],
                            id,
                        ) implies !ann_uses(na, id) by {
                        assert(ann_uses(m.annotations[j], id));
                        assert(m.annotation_ids.contains(id));
                    }
                    assert(anns_wf(m2.annotations, m2.annotation_ids, m2.next_annotation_id));
                }
            },
        }
    }
}

/// A whole annotation pass preserves consistency.
proof fn lemma_annotations_pass_wf(
    m: MergeModel,
    anns: Seq<AnnotationV>,
    img_remap: Map<i64, i64>,
    cat_remap: Map<i32, i32>,
    file: Seq<char>,
)
    requires
        model_wf(m),
        remap_into_i64(img_remap, m.image_ids),
        remap_into_i32(cat_remap, m.category_ids),
        m.next_annotation_id + crate::merge::anns_slots(anns) <= i64::MAX,
        crate::merge::ann_ids_below(anns, i64::MAX - crate::merge::anns_slots(anns)),
    ensures
        annotations_pass(m, anns, img_remap, cat_remap, file) matches Ok(m2) ==> model_wf(m2),
    decreases anns.len(),
{
    if anns.len() > 0 {
        let a = anns[0];
        let rest = anns.drop_first();
        crate::merge::lemma_anns_slots_nonneg(rest);
        assert(crate::merge::anns_slots(anns) == crate::merge::ann_slots(a)
            + crate::merge::anns_slots(rest));
        assert(seq![a][0] == a);
        if a is PanopticSegmentation {
            let segs = a->PanopticSegmentation_0.segments_info;
            assert(crate::merge::seg_ids_below(segs, i64::MAX - crate::merge::anns_slots(anns)));
            assert(crate::merge::seg_ids_below(segs, i64::MAX - crate::merge::ann_slots(a)));
        }
        assert(crate::merge::ann_ids_below(seq![a], i64::MAX - crate::merge::ann_slots(a)));
        lemma_annotation_step_wf(m, a, img_remap, cat_remap, file);
        match annotation_step(m, a, img_remap, cat_remap, file) {
            Err(_) => {},
            Ok(m1) => {
                crate::merge::lemma_annotations_pass_props(
                    m,
                    seq![a],
                    img_remap,
                    cat_remap,
                    file,
                    i64::MAX - crate::merge::anns_slots(anns),
                );
                assert(seq![a].drop_first() =~= Seq::<AnnotationV>::empty());
                assert(annotations_pass(m1, seq![a].drop_first(), img_remap, cat_remap, file)
                    == Ok::<MergeModel, crate::merge::MergeErrorV>(m1));
                assert(crate::merge::anns_slots(Seq::<AnnotationV>::empty()) == 0);
                assert(crate::merge::anns_slots(seq![a].drop_first()) == 0);
                assert(crate::merge::anns_slots(seq![a]) == crate::merge::ann_slots(a));
                assert(annotations_pass(m, seq![a], img_remap, cat_remap, file)
                    == Ok::<MergeModel, crate::merge::MergeErrorV>(m1));
                assert(m1.next_annotation_id <= vstd::math::max(
                    m.next_annotation_id,
                    i64::MAX - crate::merge::anns_slots(anns),
                ) + crate::merge::ann_slots(a));
                assert(m1.next_annotation_id + crate::merge::anns_slots(rest) <= i64::MAX);
                assert(crate::merge::ann_ids_below(
                    rest,
                    i64::MAX - crate::merge::anns_slots(rest),
                ));
                lemma_annotations_pass_wf(m1, rest, img_remap, cat_remap, file);
            },
        }
    }
}

/// One whole file preserves consistency.
proof fn lemma_file_pass_wf(m: MergeModel, f: FileV, path: Seq<char>, reassign: bool)
    requires
        model_wf(m),
        m.next_category_id + f.categories_or_empty().len() <= i32::MAX,
        crate::merge::cat_ids_below(
            f.categories_or_empty(),
            i32::MAX - f.categories_or_empty().len(),
        ),
        m.next_license_id + f.licenses_or_empty().len() <= i32::MAX,
        crate::merge::lic_ids_below(
            f.licenses_or_empty(),
            i32::MAX - f.licenses_or_empty().len(),
        ),
        m.next_image_id + f.images.len() <= i64::MAX,
        crate::merge::img_ids_below(f.images, i64::MAX - f.images.len()),
        m.next_annotation_id + crate::merge::anns_slots(f.annotations) <= i64::MAX,
        crate::merge::ann_ids_below(
            f.annotations,
            i64::MAX - crate::merge::anns_slots(f.annotations),
        ),
    ensures
        file_pass(m, f, path, reassign) matches Ok(m2) ==> model_wf(m2),
{
    let dir = crate::path::parent_dir_spec(path);
    let (m1, cat_remap) = categories_pass(m, Map::empty(), f.categories_or_empty());
    lemma_categories_pass_wf(m, Map::empty(), f.categories_or_empty());
    crate::merge::lemma_categories_pass_props(
        m,
        Map::empty(),
        f.categories_or_empty(),
        i32::MAX - f.categories_or_empty().len(),
    );
    let (m2, lic_remap) = licenses_pass(m1, Map::empty(), f.licenses_or_empty());
    lemma_licenses_pass_wf(m1, Map::empty(), f.licenses_or_empty());
    crate::merge::lemma_licenses_pass_props(
        m1,
        Map::empty(),
        f.licenses_or_empty(),
        i32::MAX - f.licenses_or_empty().len(),
    );
    // the category remap survives the license pass untouched, and its
    // target set is unchanged
    assert(remap_into_i32(cat_remap, m2.category_ids));
    assert(remap_into_i32(lic_remap, m2.license_ids));
    lemma_images_pass_wf(m2, Map::empty(), f.images, dir, path, reassign, lic_remap);
    crate::merge::lemma_images_pass_props(
        m2,
        Map::empty(),
        f.images,
        dir,
        path,
        reassign,
        lic_remap,
        i64::MAX - f.images.len(),
    );
    match images_pass(m2, Map::empty(), f.images, dir, path, reassign, lic_remap) {
        Err(_) => {},
        Ok((m3, img_remap)) => {
            assert(remap_into_i32(cat_remap, m3.category_ids));
            assert(remap_into_i64(img_remap, m3.image_ids));
            lemma_annotations_pass_wf(m3, f.annotations, img_remap, cat_remap, path);
        },
    }
}

/// Every file of a bounded, consistent run preserves consistency through
/// to the end.
proof fn lemma_merge_pass_wf(
    m: MergeModel,
    files: Seq<FileV>,
    paths: Seq<Seq<char>>,
    reassign: bool,
)
    requires
        model_wf(m),
        m.next_category_id + crate::merge::total_categories(files) <= i32::MAX,
        m.next_license_id + crate::merge::total_licenses(files) <= i32::MAX,
        m.next_image_id + crate::merge::total_images(files) <= i64::MAX,
        m.next_annotation_id + crate::merge::total_ann_slots(files) <= i64::MAX,
        forall|i: int|
            0 <= i < files.len() ==> crate::merge::cat_ids_below(
                (#[trigger] files[i]).categories_or_empty(),
                i32::MAX - crate::merge::total_categories(files),
            ),
        forall|i: int|
            0 <= i < files.len() ==> crate::merge::lic_ids_below(
                (#[trigger] files[i]).licenses_or_empty(),
                i32::MAX - crate::merge::total_licenses(files),
            ),
        forall|i: int|
            0 <= i < files.len() ==> crate::merge::img_ids_below(
                (#[trigger] files[i]).images,
                i64::MAX - crate::merge::total_images(files),
            ),
        forall|i: int|
            0 <= i < files.len() ==> crate::merge::ann_ids_below(
                (#[trigger] files[i]).annotations,
                i64::MAX - crate::merge::total_ann_slots(files),
            ),
    ensures
        merge_pass(m, files, paths, reassign) matches Ok(m2) ==> model_wf(m2),
    decreases files.len(),
{
    if files.len() > 0 {
        let f = files[0];
        let rest = files.drop_first();
        crate::merge::lemma_total_categories_nonneg(rest);
        crate::merge::lemma_total_licenses_nonneg(rest);
        crate::merge::lemma_total_images_nonneg(rest);
        crate::merge::lemma_total_ann_slots_nonneg(rest);
        crate::merge::lemma_anns_slots_nonneg(f.annotations);
        assert(crate::merge::total_categories(files) == f.categories_or_empty().len()
            + crate::merge::total_categories(rest));
        assert(crate::merge::total_licenses(files) == f.licenses_or_empty().len()
            + crate::merge::total_licenses(rest));
        assert(crate::merge::total_images(files) == f.images.len()
            + crate::merge::total_images(rest));
        assert(crate::merge::total_ann_slots(files) == crate::merge::anns_slots(f.annotations)
            + crate::merge::total_ann_slots(rest));
        lemma_file_pass_wf(m, f, paths[0], reassign);
        crate::merge::lemma_file_pass_props(
            m,
            f,
            paths[0],
            reassign,
            i32::MAX - crate::merge::total_categories(files),
            i32::MAX - crate::merge::total_licenses(files),
            i64::MAX - crate::merge::total_images(files),
            i64::MAX - crate::merge::total_ann_slots(files),
        );
        match file_pass(m, f, paths[0], reassign) {
            Err(_) => {},
            Ok(m1) => {
                assert forall|i: int| 0 <= i < rest.len() implies crate::merge::cat_ids_below(
                    (#[trigger] rest[i]).categories_or_empty(),
                    i32::MAX - crate::merge::total_categories(rest),
                ) by {
                    assert(rest[i] == files[i + 1]);
                }
                assert forall|i: int| 0 <= i < rest.len() implies crate::merge::lic_ids_below(
                    (#[trigger] rest[i]).licenses_or_empty(),
                    i32::MAX - crate::merge::total_licenses(rest),
                ) by {
                    assert(rest[i] == files[i + 1]);
                }
                assert forall|i: int| 0 <= i < rest.len() implies crate::merge::img_ids_below(
                    (#[trigger] rest[i]).images,
                    i64::MAX - crate::merge::total_images(rest),
                ) by {
                    assert(rest[i] == files[i + 1]);
                }
                assert forall|i: int| 0 <= i < rest.len() implies crate::merge::ann_ids_below(
                    (#[trigger] rest[i]).annotations,
                    i64::MAX - crate::merge::total_ann_slots(rest),
                ) by {
                    assert(rest[i] == files[i + 1]);
                }
                lemma_merge_pass_wf(m1, rest, paths.drop_first(), reassign);
            },
        }
    }
}

/// **The merged output is internally consistent.**  Whenever a merge of
/// bounded inputs succeeds: all category ids in the output are distinct,
/// all license ids are distinct, all image ids are distinct, and all
/// annotation ids — panoptic segment ids included — are distinct across
/// one shared namespace, so a segment id never collides with any other
/// annotation id.  Moreover every reference resolves inside the output:
/// each annotation's image to an output image, each category reference
/// (segments included) to an output category, and each image's license
/// to an output license.
pub proof fn theorem_merge_consistent(files: Seq<FileV>, paths: Seq<Seq<char>>, reassign: bool)
    requires
        merge_input_bounded(files),
    ensures
        spec_merge(files, paths, reassign) matches Ok(m) ==> model_wf(m),
{
    assert(model_wf(initial_model())) by {
        assert forall|id: i32| #[trigger]
            initial_model().category_ids.contains(id) implies false by {}
    }
    crate::merge::lemma_total_categories_nonneg(files);
    crate::merge::lemma_total_licenses_nonneg(files);
    crate::merge::lemma_total_images_nonneg(files);
    crate::merge::lemma_total_ann_slots_nonneg(files);
    lemma_merge_pass_wf(initial_model(), files, paths, reassign);
}

// Merging entities that collide with nothing ///////////////////////////////////

/// `id` is the id of some category in `cs`.
pub open spec fn cat_id_in(cs: Seq<CategoryV>, id: i32) -> bool {
    exists|i: int| 0 <= i < cs.len() && category_id_of(#[trigger] cs[i]) == id
}

/// `id` is the id of some license in `ls`.
pub open spec fn lic_id_in(ls: Seq<LicenseV>, id: i32) -> bool {
    exists|i: int| 0 <= i < ls.len() && (#[trigger] ls[i]).id == id
}

/// `id` is the id of some image in `imgs`.
pub open spec fn img_id_in(imgs: Seq<ImageV>, id: i64) -> bool {
    exists|i: int| 0 <= i < imgs.len() && (#[trigger] imgs[i]).id == id
}

/// The categories of `cs` collide with nothing: their ids are unclaimed
/// and pairwise distinct, and no two of them — nor any of them and a
/// canonical entry — are structurally equal.
pub open spec fn cats_fresh_for(m: MergeModel, cs: Seq<CategoryV>) -> bool {
    &&& forall|i: int|
        0 <= i < cs.len() ==> !m.category_ids.contains(category_id_of(#[trigger] cs[i]))
    &&& forall|i: int, j: int|
        0 <= i < cs.len() && 0 <= j < m.categories.len() ==> !crate::model::category_content_eq(
            #[trigger] m.categories[j],
            #[trigger] cs[i],
        )
    &&& forall|i: int, j: int|
        0 <= i < j < cs.len() ==> category_id_of(#[trigger] cs[i]) != category_id_of(
            #[trigger] cs[j],
        ) && !crate::model::category_content_eq(cs[i], cs[j])
}

/// Categories that collide with nothing are accepted exactly as they
/// are: appended in order, ids untouched, remapped to themselves.
proof fn lemma_categories_pass_fresh(m: MergeModel, remap: Map<i32, i32>, cs: Seq<CategoryV>)
    requires
        cats_fresh_for(m, cs),
    ensures
        ({
            let (m2, r2) = categories_pass(m, remap, cs);
            &&& m2.categories == m.categories + cs
            &&& m2 == MergeModel {
                categories: m2.categories,
                category_ids: m2.category_ids,
                next_category_id: m2.next_category_id,
                ..m
            }
            &&& forall|id: i32|
                #[trigger] m2.category_ids.contains(id) <==> (m.category_ids.contains(id)
                    || cat_id_in(cs, id))
            &&& forall|i: int|
                0 <= i < cs.len() ==> r2.contains_key(category_id_of(#[trigger] cs[i]))
                    && r2[category_id_of(cs[i])] == category_id_of(cs[i])
        }),
    decreases cs.len(),
{
    if cs.len() == 0 {
        assert(categories_pass(m, remap, cs).0.categories =~= m.categories + cs);
    } else {
        let c = cs[0];
        crate::merge::lemma_category_find_props(m.categories, c);
        assert(category_find(m.categories, c) == -1);
        let (m1, r1) = category_step(m, remap, c);
        assert(m1.categories == m.categories.push(c));
        assert(cats_fresh_for(m1, cs.drop_first())) by {
            assert forall|i: int, j: int|
                0 <= i < cs.drop_first().len() && 0 <= j
                    < m1.categories.len() implies !crate::model::category_content_eq(
                #[trigger] m1.categories[j],
                #[trigger] cs.drop_first()[i],
            ) by {
                assert(cs.drop_first()[i] == cs[i + 1]);
                if j < m.categories.len() {
                } else {
                    assert(m1.categories[j] == cs[0]);
                }
            }
        }
        lemma_categories_pass_fresh(m1, r1, cs.drop_first());
        let (m2, r2) = categories_pass(m1, r1, cs.drop_first());
        assert(m2.categories =~= m.categories + cs) by {
            assert(m.categories.push(c) + cs.drop_first() =~= m.categories + cs);
        }
        assert forall|id: i32| #[trigger]
            m2.category_ids.contains(id) <==> (m.category_ids.contains(id) || cat_id_in(
                cs,
                id,
            )) by {
            if cat_id_in(cs, id) {
                let i = choose|i: int|
                    0 <= i < cs.len() && category_id_of(#[trigger] cs[i]) == id;
                if i > 0 {
                    assert(cs.drop_first()[i - 1] == cs[i]);
                    assert(cat_id_in(cs.drop_first(), id));
                }
            }
            if cat_id_in(cs.drop_first(), id) {
                let i = choose|i: int|
                    0 <= i < cs.drop_first().len() && category_id_of(
                        #[trigger] cs.drop_first()[i],
                    ) == id;
                assert(cs.drop_first()[i] == cs[i + 1]);
                assert(cat_id_in(cs, id));
            }
        }
        assert forall|i: int| 0 <= i < cs.len() implies r2.contains_key(
            category_id_of(#[trigger] cs[i]),
        ) && r2[category_id_of(cs[i])] == category_id_of(cs[i]) by {
            if i > 0 {
                assert(cs.drop_first()[i - 1] == cs[i]);
            } else {
                // later keys all differ from this one, so the entry survives
                assert(r1.contains_key(category_id_of(c)) && r1[category_id_of(c)]
                    == category_id_of(c));
                assert forall|k: int| 0 <= k < cs.drop_first().len() implies category_id_of(
                    #[trigger] cs.drop_first()[k],
                ) != category_id_of(c) by {
                    assert(cs.drop_first()[k] == cs[k + 1]);
                }
                lemma_pass_keeps_other_cat_keys(m1, r1, cs.drop_first(), category_id_of(c));
            }
        }
    }
}

/// A category pass only writes remap entries for the ids of the
/// categories it processes.
proof fn lemma_pass_keeps_other_cat_keys(
    m: MergeModel,
    remap: Map<i32, i32>,
    cs: Seq<CategoryV>,
    k: i32,
)
    requires
        forall|i: int| 0 <= i < cs.len() ==> category_id_of(#[trigger] cs[i]) != k,
        remap.contains_key(k),
    ensures
        ({
            let (m2, r2) = categories_pass(m, remap, cs);
            r2.contains_key(k) && r2[k] == remap[k]
        }),
    decreases cs.len(),
{
    if cs.len() > 0 {
        let (m1, r1) = category_step(m, remap, cs[0]);
        assert(forall|i: int|
            0 <= i < cs.drop_first().len() ==> category_id_of(#[trigger] cs.drop_first()[i])
                != k);
        lemma_pass_keeps_other_cat_keys(m1, r1, cs.drop_first(), k);
    }
}

/// The licenses of `ls` collide with nothing: unclaimed pairwise distinct
/// ids, no structural duplicate anywhere.
pub open spec fn lics_fresh_for(m: MergeModel, ls: Seq<LicenseV>) -> bool {
    &&& forall|i: int| 0 <= i < ls.len() ==> !m.license_ids.contains((#[trigger] ls[i]).id)
    &&& forall|i: int, j: int|
        0 <= i < ls.len() && 0 <= j < m.licenses.len() ==> !crate::model::license_content_eq(
            #[trigger] m.licenses[j],
            #[trigger] ls[i],
        )
    &&& forall|i: int, j: int|
        0 <= i < j < ls.len() ==> (#[trigger] ls[i]).id != (#[trigger] ls[j]).id
            && !crate::model::license_content_eq(ls[i], ls[j])
}

/// A license pass only writes remap entries for the ids of the licenses
/// it processes.
proof fn lemma_pass_keeps_other_lic_keys(
    m: MergeModel,
    remap: Map<i32, i32>,
    ls: Seq<LicenseV>,
    k: i32,
)
    requires
        forall|i: int| 0 <= i < ls.len() ==> (#[trigger] ls[i]).id != k,
        remap.contains_key(k),
    ensures
        ({
            let (m2, r2) = licenses_pass(m, remap, ls);
            r2.contains_key(k) && r2[k] == remap[k]
        }),
    decreases ls.len(),
{
    if ls.len() > 0 {
        let (m1, r1) = license_step(m, remap, ls[0]);
        assert(forall|i: int|
            0 <= i < ls.drop_first().len() ==> (#[trigger] ls.drop_first()[i]).id != k);
        lemma_pass_keeps_other_lic_keys(m1, r1, ls.drop_first(), k);
    }
}

/// Licenses that collide with nothing are accepted exactly as they are.
proof fn lemma_licenses_pass_fresh(m: MergeModel, remap: Map<i32, i32>, ls: Seq<LicenseV>)
    requires
        lics_fresh_for(m, ls),
    ensures
        ({
            let (m2, r2) = licenses_pass(m, remap, ls);
            &&& m2.licenses == m.licenses + ls
            &&& m2 == MergeModel {
                licenses: m2.licenses,
                license_ids: m2.license_ids,
                next_license_id: m2.next_license_id,
                ..m
            }
            &&& forall|id: i32|
                #[trigger] m2.license_ids.contains(id) <==> (m.license_ids.contains(id)
                    || lic_id_in(ls, id))
            &&& forall|i: int|
                0 <= i < ls.len() ==> r2.contains_key((#[trigger] ls[i]).id) && r2[ls[i].id]
                    == ls[i].id
        }),
    decreases ls.len(),
{
    if ls.len() == 0 {
        assert(licenses_pass(m, remap, ls).0.licenses =~= m.licenses + ls);
    } else {
        let l = ls[0];
        crate::merge::lemma_license_find_props(m.licenses, l);
        assert(license_find(m.licenses, l) == -1);
        let (m1, r1) = license_step(m, remap, l);
        assert(m1.licenses == m.licenses.push(l));
        assert(lics_fresh_for(m1, ls.drop_first())) by {
            assert forall|i: int, j: int|
                0 <= i < ls.drop_first().len() && 0 <= j
                    < m1.licenses.len() implies !crate::model::license_content_eq(
                #[trigger] m1.licenses[j],
                #[trigger] ls.drop_first()[i],
            ) by {
                assert(ls.drop_first()[i] == ls[i + 1]);
                if j < m.licenses.len() {
                } else {
                    assert(m1.licenses[j] == ls[0]);
                }
            }
        }
        lemma_licenses_pass_fresh(m1, r1, ls.drop_first());
        let (m2, r2) = licenses_pass(m1, r1, ls.drop_first());
        assert(m2.licenses =~= m.licenses + ls) by {
            assert(m.licenses.push(l) + ls.drop_first() =~= m.licenses + ls);
        }
        assert forall|id: i32| #[trigger]
            m2.license_ids.contains(id) <==> (m.license_ids.contains(id) || lic_id_in(
                ls,
                id,
            )) by {
            if lic_id_in(ls, id) {
                let i = choose|i: int| 0 <= i < ls.len() && (#[trigger] ls[i]).id == id;
                if i > 0 {
                    assert(ls.drop_first()[i - 1] == ls[i]);
                    assert(lic_id_in(ls.drop_first(), id));
                }
            }
            if lic_id_in(ls.drop_first(), id) {
                let i = choose|i: int|
                    0 <= i < ls.drop_first().len() && (#[trigger] ls.drop_first()[i]).id == id;
                assert(ls.drop_first()[i] == ls[i + 1]);
                assert(lic_id_in(ls, id));
            }
        }
        assert forall|i: int| 0 <= i < ls.len() implies r2.contains_key(
            (#[trigger] ls[i]).id,
        ) && r2[ls[i].id] == ls[i].id by {
            if i > 0 {
                assert(ls.drop_first()[i - 1] == ls[i]);
            } else {
                assert(r1.contains_key(l.id) && r1[l.id] == l.id);
                assert forall|k: int| 0 <= k < ls.drop_first().len() implies (
                #[trigger] ls.drop_first()[k]).id != l.id by {
                    assert(ls.drop_first()[k] == ls[k + 1]);
                }
                lemma_pass_keeps_other_lic_keys(m1, r1, ls.drop_first(), l.id);
            }
        }
    }
}

/// An image after the merge's per-image rewrite: the file name resolved
/// against the source file's directory, the license reference remapped,
/// everything else untouched.
pub open spec fn rewritten_image(img: ImageV, dir: Seq<char>, lic_remap: Map<i32, i32>) -> ImageV {
    ImageV {
        file_name: crate::path::resolved_file_name(dir, img.file_name),
        license: match img.license {
            Some(l) => Some(lic_remap[l]),
            None => None,
        },
        ..img
    }
}

/// The images of `imgs` collide with nothing and their license
/// references are all known to the remap.
pub open spec fn imgs_fresh_for(m: MergeModel, imgs: Seq<ImageV>, lic_remap: Map<i32, i32>) -> bool {
    &&& forall|i: int| 0 <= i < imgs.len() ==> !m.image_ids.contains((#[trigger] imgs[i]).id)
    &&& forall|i: int, j: int|
        0 <= i < j < imgs.len() ==> (#[trigger] imgs[i]).id != (#[trigger] imgs[j]).id
    &&& forall|i: int|
        0 <= i < imgs.len() ==> ((#[trigger] imgs[i]).license matches Some(l)
            ==> lic_remap.contains_key(l))
}

/// An image pass only writes remap entries for the ids of the images it
/// processes.
proof fn lemma_pass_keeps_other_img_keys(
    m: MergeModel,
    remap: Map<i64, i64>,
    imgs: Seq<ImageV>,
    dir: Seq<char>,
    file: Seq<char>,
    reassign: bool,
    lic_remap: Map<i32, i32>,
    k: i64,
)
    requires
        forall|i: int| 0 <= i < imgs.len() ==> (#[trigger] imgs[i]).id != k,
        remap.contains_key(k),
    ensures
        images_pass(m, remap, imgs, dir, file, reassign, lic_remap) matches Ok((m2, r2))
            ==> r2.contains_key(k) && r2[k] == remap[k],
    decreases imgs.len(),
{
    if imgs.len() > 0 {
        match image_step(m, remap, imgs[0], dir, file, reassign, lic_remap) {
            Err(_) => {},
            Ok((m1, r1)) => {
                assert(forall|i: int|
                    0 <= i < imgs.drop_first().len() ==> (#[trigger] imgs.drop_first()[i]).id
                        != k);
                lemma_pass_keeps_other_img_keys(m1, r1, imgs.drop_first(), dir, file, reassign,
                    lic_remap, k);
            },
        }
    }
}

/// Images that collide with nothing are all accepted with their ids
/// kept, their file names resolved and their license references
/// remapped; no warning is emitted.
proof fn lemma_images_pass_kept(
    m: MergeModel,
    remap: Map<i64, i64>,
    imgs: Seq<ImageV>,
    dir: Seq<char>,
    file: Seq<char>,
    reassign: bool,
    lic_remap: Map<i32, i32>,
)
    requires
        imgs_fresh_for(m, imgs, lic_remap),
    ensures
        ({
            let r = images_pass(m, remap, imgs, dir, file, reassign, lic_remap);
            &&& r is Ok
            &&& ({
                let (m2, r2) = r->Ok_0;
                &&& m2.images == m.images + Seq::new(
                    imgs.len(),
                    |i: int| rewritten_image(imgs[i], dir, lic_remap),
                )
                &&& m2.warnings == m.warnings
                &&& m2 == MergeModel {
                    images: m2.images,
                    image_ids: m2.image_ids,
                    next_image_id: m2.next_image_id,
                    ..m
                }
                &&& forall|id: i64|
                    #[trigger] m2.image_ids.contains(id) <==> (m.image_ids.contains(id)
                        || img_id_in(imgs, id))
                &&& forall|i: int|
                    0 <= i < imgs.len() ==> r2.contains_key((#[trigger] imgs[i]).id)
                        && r2[imgs[i].id] == imgs[i].id
            })
        }),
    decreases imgs.len(),
{
    if imgs.len() == 0 {
        let (m2, r2) = images_pass(m, remap, imgs, dir, file, reassign, lic_remap)->Ok_0;
        assert(m2.images =~= m.images + Seq::new(
            imgs.len(),
            |i: int| rewritten_image(imgs[i], dir, lic_remap),
        ));
    } else {
        let img = imgs[0];
        let rest = imgs.drop_first();
        match image_step(m, remap, img, dir, file, reassign, lic_remap) {
            Err(_) => {
                assert(false);
            },
            Ok((m1, r1)) => {
                assert(m1.images == m.images.push(rewritten_image(img, dir, lic_remap)));
                assert(imgs_fresh_for(m1, rest, lic_remap)) by {
                    assert forall|i: int| 0 <= i < rest.len() implies !m1.image_ids.contains(
                        (#[trigger] rest[i]).id,
                    ) by {
                        assert(rest[i] == imgs[i + 1]);
                    }
                }
                lemma_images_pass_kept(m1, r1, rest, dir, file, reassign, lic_remap);
                let (m2, r2) = images_pass(m1, r1, rest, dir, file, reassign, lic_remap)->Ok_0;
                assert(m2.images =~= m.images + Seq::new(
                    imgs.len(),
                    |i: int| rewritten_image(imgs[i], dir, lic_remap),
                )) by {
                    assert forall|t: int| 0 <= t < rest.len() implies #[trigger] rest[t]
                        == imgs[t + 1] by {}
                }
                assert forall|id: i64| #[trigger]
                    m2.image_ids.contains(id) <==> (m.image_ids.contains(id) || img_id_in(
                        imgs,
                        id,
                    )) by {
                    if img_id_in(imgs, id) {
                        let i = choose|i: int|
                            0 <= i < imgs.len() && (#[trigger] imgs[i]).id == id;
                        if i > 0 {
                            assert(rest[i - 1] == imgs[i]);
                            assert(img_id_in(rest, id));
                        }
                    }
                    if img_id_in(rest, id) {
                        let i = choose|i: int|
                            0 <= i < rest.len() && (#[trigger] rest[i]).id == id;
                        assert(rest[i] == imgs[i + 1]);
                        assert(img_id_in(imgs, id));
                    }
                }
                assert forall|i: int| 0 <= i < imgs.len() implies r2.contains_key(
                    (#[trigger] imgs[i]).id,
                ) && r2[imgs[i].id] == imgs[i].id by {
                    if i > 0 {
                        assert(rest[i - 1] == imgs[i]);
                    } else {
                        assert(r1.contains_key(img.id) && r1[img.id] == img.id);
                        assert forall|t: int| 0 <= t < rest.len() implies (
                        #[trigger] rest[t]).id != img.id by {
                            assert(rest[t] == imgs[t + 1]);
                        }
                        lemma_pass_keeps_other_img_keys(m1, r1, rest, dir, file, reassign,
                            lic_remap, img.id);
                    }
                }
            },
        }
    }
}

/// A panoptic segment after the merge's rewrite when its id does not
/// collide: category reference remapped, id kept.
pub open spec fn retargeted_segment(s: PanopticSegmentInfoV, cat_remap: Map<i32, i32>) -> PanopticSegmentInfoV {
    PanopticSegmentInfoV { category_id: cat_remap[s.category_id], ..s }
}

/// An annotation after the merge's rewrite when none of its ids collide:
/// image and category references remapped, ids kept, payload untouched.
pub open spec fn retargeted_annotation(
    a: AnnotationV,
    img_remap: Map<i64, i64>,
    cat_remap: Map<i32, i32>,
) -> AnnotationV {
    match a {
        AnnotationV::ObjectDetection(x) => AnnotationV::ObjectDetection(
            crate::model::ObjectDetectionAnnotationV {
                image_id: img_remap[x.image_id],
                category_id: cat_remap[x.category_id],
                ..x
            },
        ),
        AnnotationV::KeypointDetection(x) => AnnotationV::KeypointDetection(
            crate::model::KeypointDetectionAnnotationV {
                image_id: img_remap[x.image_id],
                category_id: cat_remap[x.category_id],
                ..x
            },
        ),
        AnnotationV::DensePose(x) => AnnotationV::DensePose(
            crate::model::DensePoseAnnotationV {
                image_id: img_remap[x.image_id],
                category_id: cat_remap[x.category_id],
                ..x
            },
        ),
        AnnotationV::ImageCaptioning(x) => AnnotationV::ImageCaptioning(
            crate::model::ImageCaptioningAnnotationV { image_id: img_remap[x.image_id], ..x },
        ),
        AnnotationV::PanopticSegmentation(x) => AnnotationV::PanopticSegmentation(
            crate::model::PanopticSegmentationAnnotationV {
                image_id: img_remap[x.image_id],
                segments_info: Seq::new(
                    x.segments_info.len(),
                    |t: int| retargeted_segment(x.segments_info[t], cat_remap),
                ),
                ..x
            },
        ),
    }
}

/// Every reference of `a` is a key of the respective remap table.
pub open spec fn ann_refs_in_remaps(
    a: AnnotationV,
    img_remap: Map<i64, i64>,
    cat_remap: Map<i32, i32>,
) -> bool {
    &&& img_remap.contains_key(annotation_image_id(a))
    &&& match a {
        AnnotationV::ObjectDetection(x) => cat_remap.contains_key(x.category_id),
        AnnotationV::KeypointDetection(x) => cat_remap.contains_key(x.category_id),
        AnnotationV::DensePose(x) => cat_remap.contains_key(x.category_id),
        AnnotationV::ImageCaptioning(x) => true,
        AnnotationV::PanopticSegmentation(x) => forall|t: int|
            0 <= t < x.segments_info.len() ==> cat_remap.contains_key(
                (#[trigger] x.segments_info[t]).category_id,
            ),
    }
}

/// The annotations of `anns` collide with nothing: every id they own is
/// unregistered, ids are distinct within and across annotations, and all
/// their references are known to the remap tables.
pub open spec fn anns_fresh_for(
    m: MergeModel,
    anns: Seq<AnnotationV>,
    img_remap: Map<i64, i64>,
    cat_remap: Map<i32, i32>,
) -> bool {
    &&& forall|i: int, id: i64|
        #![trigger ann_uses(anns[i], id)]
        0 <= i < anns.len() && ann_uses(anns[i], id) ==> !m.annotation_ids.contains(id)
    &&& forall|i: int| 0 <= i < anns.len() ==> ann_ids_distinct_within(#[trigger] anns[i])
    &&& forall|i: int, j: int, id: i64|
        #![trigger ann_uses(anns[i], id), ann_uses(anns[j], id)]
        0 <= i < anns.len() && 0 <= j < anns.len() && i != j && ann_uses(anns[i], id)
            ==> !ann_uses(anns[j], id)
    &&& forall|i: int|
        0 <= i < anns.len() ==> ann_refs_in_remaps(#[trigger] anns[i], img_remap, cat_remap)
}

/// Segments whose ids collide with nothing keep their ids; only their
/// category references change.
proof fn lemma_segments_pass_kept(
    m: MergeModel,
    segs: Seq<PanopticSegmentInfoV>,
    cat_remap: Map<i32, i32>,
    file: Seq<char>,
)
    requires
        forall|t: int|
            0 <= t < segs.len() ==> !m.annotation_ids.contains((#[trigger] segs[t]).id),
        forall|t1: int, t2: int|
            0 <= t1 < t2 < segs.len() ==> (#[trigger] segs[t1]).id != (
            #[trigger] segs[t2]).id,
        forall|t: int|
            0 <= t < segs.len() ==> cat_remap.contains_key((#[trigger] segs[t]).category_id),
    ensures
        ({
            let r = segments_pass(m, segs, cat_remap, file);
            &&& r is Ok
            &&& ({
                let (m2, nsegs) = r->Ok_0;
                &&& nsegs == Seq::new(
                    segs.len(),
                    |t: int| retargeted_segment(segs[t], cat_remap),
                )
                &&& forall|id: i64|
                    #[trigger] m2.annotation_ids.contains(id) <==> (m.annotation_ids.contains(
                        id,
                    ) || exists|t: int| 0 <= t < segs.len() && (#[trigger] segs[t]).id == id)
                &&& m2 == MergeModel {
                    annotation_ids: m2.annotation_ids,
                    next_annotation_id: m2.next_annotation_id,
                    ..m
                }
            })
        }),
    decreases segs.len(),
{
    if segs.len() == 0 {
        let (m2, nsegs) = segments_pass(m, segs, cat_remap, file)->Ok_0;
        assert(nsegs =~= Seq::new(segs.len(), |t: int| retargeted_segment(segs[t], cat_remap)));
    } else {
        let seg = segs[0];
        let rest = segs.drop_first();
        let (m1, nid) = ann_id_resolve(m, seg.id);
        assert(nid == seg.id);
        assert forall|t: int| 0 <= t < rest.len() implies !m1.annotation_ids.contains(
            (#[trigger] rest[t]).id,
        ) by {
            assert(rest[t] == segs[t + 1]);
        }
        assert(forall|t: int|
            0 <= t < rest.len() ==> cat_remap.contains_key((#[trigger] rest[t]).category_id));
        lemma_segments_pass_kept(m1, rest, cat_remap, file);
        let (m2, nrest) = segments_pass(m1, rest, cat_remap, file)->Ok_0;
        assert(seq![retargeted_segment(seg, cat_remap)] + nrest =~= Seq::new(
            segs.len(),
            |t: int| retargeted_segment(segs[t], cat_remap),
        )) by {
            assert forall|t: int| 0 <= t < rest.len() implies #[trigger] rest[t] == segs[t
                + 1] by {}
        }
        assert forall|id: i64| #[trigger]
            m2.annotation_ids.contains(id) <==> (m.annotation_ids.contains(id) || exists|t: int|
                0 <= t < segs.len() && (#[trigger] segs[t]).id == id) by {
            if exists|t: int| 0 <= t < segs.len() && (#[trigger] segs[t]).id == id {
                let t = choose|t: int| 0 <= t < segs.len() && (#[trigger] segs[t]).id == id;
                if t > 0 {
                    assert(rest[t - 1] == segs[t]);
                    assert(exists|u: int| 0 <= u < rest.len() && (#[trigger] rest[u]).id == id);
                }
            }
            if exists|u: int| 0 <= u < rest.len() && (#[trigger] rest[u]).id == id {
                let u = choose|u: int| 0 <= u < rest.len() && (#[trigger] rest[u]).id == id;
                assert(rest[u] == segs[u + 1]);
                assert(exists|t: int| 0 <= t < segs.len() && (#[trigger] segs[t]).id == id);
            }
        }
    }
}

/// Annotations that collide with nothing are all kept, in order, with
/// their ids unchanged and their references remapped.
proof fn lemma_annotations_pass_kept(
    m: MergeModel,
    anns: Seq<AnnotationV>,
    img_remap: Map<i64, i64>,
    cat_remap: Map<i32, i32>,
    file: Seq<char>,
)
    requires
        anns_fresh_for(m, anns, img_remap, cat_remap),
    ensures
        ({
            let r = annotations_pass(m, anns, img_remap, cat_remap, file);
            &&& r is Ok
            &&& ({
                let m2 = r->Ok_0;
                &&& m2.annotations == m.annotations + Seq::new(
                    anns.len(),
                    |i: int| retargeted_annotation(anns[i], img_remap, cat_remap),
                )
                &&& forall|id: i64|
                    #[trigger] m2.annotation_ids.contains(id) <==> (m.annotation_ids.contains(
                        id,
                    ) || exists|i: int| 0 <= i < anns.len() && ann_uses(#[trigger] anns[i], id))
                &&& m2 == MergeModel {
                    annotations: m2.annotations,
                    annotation_ids: m2.annotation_ids,
                    next_annotation_id: m2.next_annotation_id,
                    ..m
                }
            })
        }),
    decreases anns.len(),
{
    if anns.len() == 0 {
        let m2 = annotations_pass(m, anns, img_remap, cat_remap, file)->Ok_0;
        assert(m2.annotations =~= m.annotations + Seq::new(
            anns.len(),
            |i: int| retargeted_annotation(anns[i], img_remap, cat_remap),
        ));
    } else {
        let a = anns[0];
        let rest = anns.drop_first();
        assert(ann_refs_in_remaps(a, img_remap, cat_remap));
        assert(ann_ids_distinct_within(a));
        let m1: MergeModel;
        match a {
            AnnotationV::PanopticSegmentation(x) => {
                assert forall|t: int| 0 <= t < x.segments_info.len() implies !m
                    .annotation_ids.contains((#[trigger] x.segments_info[t]).id) by {
                    assert(ann_uses(a, x.segments_info[t].id));
                }
                lemma_segments_pass_kept(m, x.segments_info, cat_remap, file);
                let (ms, nsegs) = segments_pass(m, x.segments_info, cat_remap, file)->Ok_0;
                m1 = annotation_step(m, a, img_remap, cat_remap, file)->Ok_0;
                assert(m1.annotations == m.annotations.push(
                    retargeted_annotation(a, img_remap, cat_remap),
                ));
            },
            AnnotationV::ObjectDetection(x) => {
                assert(ann_uses(a, x.id));
                assert(!m.annotation_ids.contains(x.id));
                m1 = annotation_step(m, a, img_remap, cat_remap, file)->Ok_0;
                assert(m1.annotations == m.annotations.push(
                    retargeted_annotation(a, img_remap, cat_remap),
                ));
            },
            AnnotationV::KeypointDetection(x) => {
                assert(ann_uses(a, x.id));
                assert(!m.annotation_ids.contains(x.id));
                m1 = annotation_step(m, a, img_remap, cat_remap, file)->Ok_0;
                assert(m1.annotations == m.annotations.push(
                    retargeted_annotation(a, img_remap, cat_remap),
                ));
            },
            AnnotationV::DensePose(x) => {
                assert(ann_uses(a, x.id));
                assert(!m.annotation_ids.contains(x.id));
                m1 = annotation_step(m, a, img_remap, cat_remap, file)->Ok_0;
                assert(m1.annotations == m.annotations.push(
                    retargeted_annotation(a, img_remap, cat_remap),
                ));
            },
            AnnotationV::ImageCaptioning(x) => {
                assert(ann_uses(a, x.id));
                assert(!m.annotation_ids.contains(x.id));
                m1 = annotation_step(m, a, img_remap, cat_remap, file)->Ok_0;
                assert(m1.annotations == m.annotations.push(
                    retargeted_annotation(a, img_remap, cat_remap),
                ));
            },
        }
        assert(anns_fresh_for(m1, rest, img_remap, cat_remap)) by {
            assert forall|i: int, id: i64|
                0 <= i < rest.len() && #[trigger] ann_uses(rest[i], id) implies !m1
                .annotation_ids.contains(id) by {
                assert(rest[i] == anns[i + 1]);
                assert(ann_uses(anns[i + 1], id));
                assert(!ann_uses(anns[0], id));
                match a {
                    AnnotationV::PanopticSegmentation(x) => {
                        assert(!m.annotation_ids.contains(id));
                    },
                    _ => {},
                }
            }
            assert forall|i: int| 0 <= i < rest.len() implies ann_ids_distinct_within(
                #[trigger] rest[i],
            ) && ann_refs_in_remaps(rest[i], img_remap, cat_remap) by {
                assert(rest[i] == anns[i + 1]);
            }
            assert forall|i: int, j: int, id: i64|
                0 <= i < rest.len() && 0 <= j < rest.len() && i != j && #[trigger] ann_uses(
                    rest[i],
                    id,
                ) implies !ann_uses(#[trigger] rest[j], id) by {
                assert(rest[i] == anns[i + 1]);
                assert(rest[j] == anns[j + 1]);
            }
        }
        lemma_annotations_pass_kept(m1, rest, img_remap, cat_remap, file);
        let m2 = annotations_pass(m1, rest, img_remap, cat_remap, file)->Ok_0;
        assert(m2.annotations =~= m.annotations + Seq::new(
            anns.len(),
            |i: int| retargeted_annotation(anns[i], img_remap, cat_remap),
        )) by {
            assert forall|t: int| 0 <= t < rest.len() implies #[trigger] rest[t] == anns[t
                + 1] by {}
        }
        assert forall|id: i64| #[trigger]
            m2.annotation_ids.contains(id) <==> (m.annotation_ids.contains(id) || exists|i: int|
                0 <= i < anns.len() && ann_uses(#[trigger] anns[i], id)) by {
            assert(m1.annotation_ids.contains(id) <==> (m.annotation_ids.contains(id)
                || ann_uses(a, id)));
            if exists|i: int| 0 <= i < anns.len() && ann_uses(#[trigger] anns[i], id) {
                let i = choose|i: int| 0 <= i < anns.len() && ann_uses(#[trigger] anns[i], id);
                if i > 0 {
                    assert(rest[i - 1] == anns[i]);
                    assert(exists|u: int| 0 <= u < rest.len() && ann_uses(
                        #[trigger] rest[u],
                        id,
                    ));
                }
            }
            if exists|u: int| 0 <= u < rest.len() && ann_uses(#[trigger] rest[u], id) {
                let u = choose|u: int| 0 <= u < rest.len() && ann_uses(#[trigger] rest[u], id);
                assert(rest[u] == anns[u + 1]);
                assert(exists|i: int| 0 <= i < anns.len() && ann_uses(#[trigger] anns[i], id));
            }
        }
    }
}

/// `a`'s category references, looked up among declared categories.
pub open spec fn ann_cat_refs_declared(a: AnnotationV, cats: Seq<CategoryV>) -> bool {
    match a {
        AnnotationV::ObjectDetection(x) => cat_id_in(cats, x.category_id),
        AnnotationV::KeypointDetection(x) => cat_id_in(cats, x.category_id),
        AnnotationV::DensePose(x) => cat_id_in(cats, x.category_id),
        AnnotationV::ImageCaptioning(x) => true,
        AnnotationV::PanopticSegmentation(x) => forall|t: int|
            0 <= t < x.segments_info.len() ==> cat_id_in(
                cats,
                (#[trigger] x.segments_info[t]).category_id,
            ),
    }
}

/// A dataset file that could stand alone: distinct ids in every
/// namespace (annotation and segment ids sharing one), no structurally
/// duplicate categories or licenses, and every reference declared in the
/// file itself.
pub open spec fn file_self_consistent(f: FileV) -> bool {
    &&& forall|i: int, j: int|
        0 <= i < j < f.categories_or_empty().len() ==> category_id_of(
            #[trigger] f.categories_or_empty()[i],
        ) != category_id_of(#[trigger] f.categories_or_empty()[j])
            && !crate::model::category_content_eq(
            f.categories_or_empty()[i],
            f.categories_or_empty()[j],
        )
    &&& forall|i: int, j: int|
        0 <= i < j < f.licenses_or_empty().len() ==> (#[trigger] f.licenses_or_empty()[i]).id
            != (#[trigger] f.licenses_or_empty()[j]).id && !crate::model::license_content_eq(
            f.licenses_or_empty()[i],
            f.licenses_or_empty()[j],
        )
    &&& forall|i: int, j: int|
        0 <= i < j < f.images.len() ==> (#[trigger] f.images[i]).id != (
        #[trigger] f.images[j]).id
    &&& forall|i: int|
        0 <= i < f.images.len() ==> ((#[trigger] f.images[i]).license matches Some(l)
            ==> lic_id_in(f.licenses_or_empty(), l))
    &&& forall|i: int|
        0 <= i < f.annotations.len() ==> ann_ids_distinct_within(#[trigger] f.annotations[i])
    &&& forall|i: int, j: int, id: i64|
        #![trigger ann_uses(f.annotations[i], id), ann_uses(f.annotations[j], id)]
        0 <= i < f.annotations.len() && 0 <= j < f.annotations.len() && i != j && ann_uses(
            f.annotations[i],
            id,
        ) ==> !ann_uses(f.annotations[j], id)
    &&& forall|i: int|
        0 <= i < f.annotations.len() ==> img_id_in(
            f.images,
            annotation_image_id(#[trigger] f.annotations[i]),
        )
    &&& forall|i: int|
        0 <= i < f.annotations.len() ==> ann_cat_refs_declared(
            #[trigger] f.annotations[i],
            f.categories_or_empty(),
        )
}

/// `f`'s entities collide with nothing already in `m`.
pub open spec fn file_fresh_for(m: MergeModel, f: FileV) -> bool {
    &&& forall|i: int|
        0 <= i < f.categories_or_empty().len() ==> !m.category_ids.contains(
            category_id_of(#[trigger] f.categories_or_empty()[i]),
        )
    &&& forall|i: int, j: int|
        0 <= i < f.categories_or_empty().len() && 0 <= j < m.categories.len()
            ==> !crate::model::category_content_eq(
            #[trigger] m.categories[j],
            #[trigger] f.categories_or_empty()[i],
        )
    &&& forall|i: int|
        0 <= i < f.licenses_or_empty().len() ==> !m.license_ids.contains(
            (#[trigger] f.licenses_or_empty()[i]).id,
        )
    &&& forall|i: int, j: int|
        0 <= i < f.licenses_or_empty().len() && 0 <= j < m.licenses.len()
            ==> !crate::model::license_content_eq(
            #[trigger] m.licenses[j],
            #[trigger] f.licenses_or_empty()[i],
        )
    &&& forall|i: int|
        0 <= i < f.images.len() ==> !m.image_ids.contains((#[trigger] f.images[i]).id)
    &&& forall|i: int, id: i64|
        #![trigger ann_uses(f.annotations[i], id)]
        0 <= i < f.annotations.len() && ann_uses(f.annotations[i], id)
            ==> !m.annotation_ids.contains(id)
}

/// An image with its file name resolved against the source directory and
/// everything else untouched.
pub open spec fn resolved_image(img: ImageV, dir: Seq<char>) -> ImageV {
    ImageV { file_name: crate::path::resolved_file_name(dir, img.file_name), ..img }
}

/// A self-consistent file that collides with nothing merges by plain
/// accumulation: every section is appended unchanged — images get their
/// file names resolved — no id moves, and no warning is emitted.
proof fn lemma_file_pass_fresh(m: MergeModel, f: FileV, path: Seq<char>, reassign: bool)
    requires
        file_self_consistent(f),
        file_fresh_for(m, f),
    ensures
        ({
            let r = file_pass(m, f, path, reassign);
            &&& r is Ok
            &&& ({
                let m2 = r->Ok_0;
                let dir = crate::path::parent_dir_spec(path);
                &&& m2.categories == m.categories + f.categories_or_empty()
                &&& m2.licenses == m.licenses + f.licenses_or_empty()
                &&& m2.images == m.images + Seq::new(
                    f.images.len(),
                    |i: int| resolved_image(f.images[i], dir),
                )
                &&& m2.annotations == m.annotations + f.annotations
                &&& m2.warnings == m.warnings
                &&& forall|id: i32|
                    #[trigger] m2.category_ids.contains(id) <==> (m.category_ids.contains(id)
                        || cat_id_in(f.categories_or_empty(), id))
                &&& forall|id: i32|
                    #[trigger] m2.license_ids.contains(id) <==> (m.license_ids.contains(id)
                        || lic_id_in(f.licenses_or_empty(), id))
                &&& forall|id: i64|
                    #[trigger] m2.image_ids.contains(id) <==> (m.image_ids.contains(id)
                        || img_id_in(f.images, id))
                &&& forall|id: i64|
                    #[trigger] m2.annotation_ids.contains(id) <==> (m.annotation_ids.contains(
                        id,
                    ) || exists|i: int|
                        0 <= i < f.annotations.len() && ann_uses(
                            #[trigger] f.annotations[i],
                            id,
                        ))
            })
        }),
{
    let dir = crate::path::parent_dir_spec(path);
    let cs = f.categories_or_empty();
    let ls = f.licenses_or_empty();
    lemma_categories_pass_fresh(m, Map::empty(), cs);
    let (m1, cat_remap) = categories_pass(m, Map::empty(), cs);
    assert(lics_fresh_for(m1, ls));
    lemma_licenses_pass_fresh(m1, Map::empty(), ls);
    let (m2, lic_remap) = licenses_pass(m1, Map::empty(), ls);
    assert(imgs_fresh_for(m2, f.images, lic_remap)) by {
        assert forall|i: int|
            0 <= i < f.images.len() implies ((#[trigger] f.images[i]).license matches Some(l)
            ==> lic_remap.contains_key(l)) by {
            match f.images[i].license {
                Some(l) => {
                    let j = choose|j: int| 0 <= j < ls.len() && (#[trigger] ls[j]).id == l;
                    assert(lic_remap.contains_key(ls[j].id));
                },
                None => {},
            }
        }
    }
    lemma_images_pass_kept(m2, Map::empty(), f.images, dir, path, reassign, lic_remap);
    let (m3, img_remap) = images_pass(
        m2,
        Map::empty(),
        f.images,
        dir,
        path,
        reassign,
        lic_remap,
    )->Ok_0;
    assert(anns_fresh_for(m3, f.annotations, img_remap, cat_remap)) by {
        assert forall|i: int| 0 <= i < f.annotations.len() implies ann_refs_in_remaps(
            #[trigger] f.annotations[i],
            img_remap,
            cat_remap,
        ) by {
            let a = f.annotations[i];
            assert(img_id_in(f.images, annotation_image_id(a)));
            let j = choose|j: int|
                0 <= j < f.images.len() && (#[trigger] f.images[j]).id == annotation_image_id(
                    a,
                );
            assert(img_remap.contains_key(f.images[j].id));
            assert(ann_cat_refs_declared(a, cs));
            match a {
                AnnotationV::PanopticSegmentation(x) => {
                    assert forall|t: int|
                        0 <= t < x.segments_info.len() implies cat_remap.contains_key(
                        (#[trigger] x.segments_info[t]).category_id,
                    ) by {
                        let k = choose|k: int|
                            0 <= k < cs.len() && category_id_of(#[trigger] cs[k])
                                == x.segments_info[t].category_id;
                        assert(cat_remap.contains_key(category_id_of(cs[k])));
                    }
                },
                AnnotationV::ObjectDetection(x) => {
                    let k = choose|k: int|
                        0 <= k < cs.len() && category_id_of(#[trigger] cs[k]) == x.category_id;
                    assert(cat_remap.contains_key(category_id_of(cs[k])));
                },
                AnnotationV::KeypointDetection(x) => {
                    let k = choose|k: int|
                        0 <= k < cs.len() && category_id_of(#[trigger] cs[k]) == x.category_id;
                    assert(cat_remap.contains_key(category_id_of(cs[k])));
                },
                AnnotationV::DensePose(x) => {
                    let k = choose|k: int|
                        0 <= k < cs.len() && category_id_of(#[trigger] cs[k]) == x.category_id;
                    assert(cat_remap.contains_key(category_id_of(cs[k])));
                },
                AnnotationV::ImageCaptioning(_) => {},
            }
        }
    }
    lemma_annotations_pass_kept(m3, f.annotations, img_remap, cat_remap, path);
    let m4 = annotations_pass(m3, f.annotations, img_remap, cat_remap, path)->Ok_0;
    // with identity remaps the rewrites change nothing but file names
    assert(m3.images =~= m.images + Seq::new(
        f.images.len(),
        |i: int| resolved_image(f.images[i], dir),
    )) by {
        assert forall|i: int| 0 <= i < f.images.len() implies rewritten_image(
            f.images[i],
            dir,
            lic_remap,
        ) == resolved_image(f.images[i], dir) by {
            match f.images[i].license {
                Some(l) => {
                    let j = choose|j: int| 0 <= j < ls.len() && (#[trigger] ls[j]).id == l;
                    assert(lic_remap[ls[j].id] == ls[j].id);
                },
                None => {},
            }
        }
    }
    assert(m4.annotations =~= m.annotations + f.annotations) by {
        assert forall|i: int| 0 <= i < f.annotations.len() implies retargeted_annotation(
            #[trigger] f.annotations[i],
            img_remap,
            cat_remap,
        ) == f.annotations[i] by {
            let a = f.annotations[i];
            let j = choose|j: int|
                0 <= j < f.images.len() && (#[trigger] f.images[j]).id == annotation_image_id(
                    a,
                );
            assert(img_remap[f.images[j].id] == f.images[j].id);
            match a {
                AnnotationV::PanopticSegmentation(x) => {
                    assert forall|t: int| 0 <= t < x.segments_info.len() implies
                        retargeted_segment(x.segments_info[t], cat_remap) == (
                    #[trigger] x.segments_info[t]) by {
                        let k = choose|k: int|
                            0 <= k < cs.len() && category_id_of(#[trigger] cs[k])
                                == x.segments_info[t].category_id;
                        assert(cat_remap[category_id_of(cs[k])] == category_id_of(cs[k]));
                    }
                    assert(Seq::new(
                        x.segments_info.len(),
                        |t: int| retargeted_segment(x.segments_info[t], cat_remap),
                    ) =~= x.segments_info);
                    assert(retargeted_annotation(a, img_remap, cat_remap) =~= a);
                },
                AnnotationV::ObjectDetection(x) => {
                    let k = choose|k: int|
                        0 <= k < cs.len() && category_id_of(#[trigger] cs[k]) == x.category_id;
                    assert(cat_remap[category_id_of(cs[k])] == category_id_of(cs[k]));
                },
                AnnotationV::KeypointDetection(x) => {
                    let k = choose|k: int|
                        0 <= k < cs.len() && category_id_of(#[trigger] cs[k]) == x.category_id;
                    assert(cat_remap[category_id_of(cs[k])] == category_id_of(cs[k]));
                },
                AnnotationV::DensePose(x) => {
                    let k = choose|k: int|
                        0 <= k < cs.len() && category_id_of(#[trigger] cs[k]) == x.category_id;
                    assert(cat_remap[category_id_of(cs[k])] == category_id_of(cs[k]));
                },
                AnnotationV::ImageCaptioning(_) => {},
            }
        }
    }
}

/// **Merging one file alone is the identity.**  A self-consistent file —
/// distinct ids per namespace, no structural category or license
/// duplicates, every reference declared — merges, alone, into exactly
/// itself: same categories, licenses and annotations with unchanged ids,
/// the same images with only their file names resolved against the
/// source file's directory (so unchanged whenever the source path has no
/// directory part), and no warning, under either collision policy.
pub proof fn theorem_single_file_merge(f: FileV, path: Seq<char>, reassign: bool)
    requires
        file_self_consistent(f),
    ensures
        ({
            let r = spec_merge(seq![f], seq![path], reassign);
            &&& r is Ok
            &&& ({
                let m = r->Ok_0;
                let dir = crate::path::parent_dir_spec(path);
                &&& m.categories == f.categories_or_empty()
                &&& m.licenses == f.licenses_or_empty()
                &&& m.images == Seq::new(
                    f.images.len(),
                    |i: int| resolved_image(f.images[i], dir),
                )
                &&& m.annotations == f.annotations
                &&& m.warnings == Seq::<crate::merge::WarningV>::empty()
                &&& (crate::path::parent_dir_spec(path).len() == 0 ==> m.images == f.images)
            })
        }),
{
    let m0 = initial_model();
    assert(file_fresh_for(m0, f));
    lemma_file_pass_fresh(m0, f, path, reassign);
    let m1 = file_pass(m0, f, path, reassign)->Ok_0;
    assert(seq![f].drop_first() =~= Seq::<FileV>::empty());
    assert(seq![path].drop_first() =~= Seq::<Seq<char>>::empty());
    assert(merge_pass(m1, seq![f].drop_first(), seq![path].drop_first(), reassign)
        == Ok::<MergeModel, crate::merge::MergeErrorV>(m1));
    assert(seq![f][0] == f && seq![path][0] == path);
    assert(spec_merge(seq![f], seq![path], reassign) == Ok::<
        MergeModel,
        crate::merge::MergeErrorV,
    >(m1));
    let dir = crate::path::parent_dir_spec(path);
    assert(m1.categories =~= f.categories_or_empty());
    assert(m1.licenses =~= f.licenses_or_empty());
    assert(m1.images =~= Seq::new(f.images.len(), |i: int| resolved_image(f.images[i], dir)));
    assert(m1.annotations =~= f.annotations);
    assert(m1.warnings =~= Seq::<crate::merge::WarningV>::empty());
    if dir.len() == 0 {
        assert(m1.images =~= f.images) by {
            assert forall|i: int| 0 <= i < f.images.len() implies resolved_image(
                #[trigger] f.images[i],
                dir,
            ) == f.images[i] by {
                assert(crate::path::resolved_file_name(dir, f.images[i].file_name)
                    == f.images[i].file_name);
                assert(resolved_image(f.images[i], dir) =~= f.images[i]);
            }
        }
    }
}

/// The id spaces and structural contents of `f1` and `f2` are disjoint
/// in every namespace.
pub open spec fn files_disjoint(f1: FileV, f2: FileV) -> bool {
    &&& forall|i: int, j: int|
        0 <= i < f1.categories_or_empty().len() && 0 <= j < f2.categories_or_empty().len()
            ==> category_id_of(#[trigger] f1.categories_or_empty()[i]) != category_id_of(
            #[trigger] f2.categories_or_empty()[j],
        ) && !crate::model::category_content_eq(
            f1.categories_or_empty()[i],
            f2.categories_or_empty()[j],
        )
    &&& forall|i: int, j: int|
        0 <= i < f1.licenses_or_empty().len() && 0 <= j < f2.licenses_or_empty().len() ==> (
        #[trigger] f1.licenses_or_empty()[i]).id != (#[trigger] f2.licenses_or_empty()[j]).id
            && !crate::model::license_content_eq(
            f1.licenses_or_empty()[i],
            f2.licenses_or_empty()[j],
        )
    &&& forall|i: int, j: int|
        0 <= i < f1.images.len() && 0 <= j < f2.images.len() ==> (#[trigger] f1.images[i]).id
            != (#[trigger] f2.images[j]).id
    &&& forall|i: int, j: int, id: i64|
        #![trigger ann_uses(f1.annotations[i], id), ann_uses(f2.annotations[j], id)]
        0 <= i < f1.annotations.len() && 0 <= j < f2.annotations.len() && ann_uses(
            f1.annotations[i],
            id,
        ) ==> !ann_uses(f2.annotations[j], id)
}

/// **Merging files with disjoint id spaces is plain accumulation.**  Two
/// self-consistent files that share no id in any namespace and no
/// structurally equal category or license merge into the concatenation
/// of their sections: every count is the sum of the input counts, every
/// id is preserved, and no warning is emitted, under either collision
/// policy.
pub proof fn theorem_disjoint_union(
    f1: FileV,
    f2: FileV,
    p1: Seq<char>,
    p2: Seq<char>,
    reassign: bool,
)
    requires
        file_self_consistent(f1),
        file_self_consistent(f2),
        files_disjoint(f1, f2),
    ensures
        ({
            let r = spec_merge(seq![f1, f2], seq![p1, p2], reassign);
            &&& r is Ok
            &&& ({
                let m = r->Ok_0;
                let d1 = crate::path::parent_dir_spec(p1);
                let d2 = crate::path::parent_dir_spec(p2);
                &&& m.categories == f1.categories_or_empty() + f2.categories_or_empty()
                &&& m.licenses == f1.licenses_or_empty() + f2.licenses_or_empty()
                &&& m.images == Seq::new(
                    f1.images.len(),
                    |i: int| resolved_image(f1.images[i], d1),
                ) + Seq::new(f2.images.len(), |i: int| resolved_image(f2.images[i], d2))
                &&& m.annotations == f1.annotations + f2.annotations
                &&& m.warnings == Seq::<crate::merge::WarningV>::empty()
            })
        }),
{
    let m0 = initial_model();
    assert(file_fresh_for(m0, f1));
    lemma_file_pass_fresh(m0, f1, p1, reassign);
    let m1 = file_pass(m0, f1, p1, reassign)->Ok_0;
    assert(file_fresh_for(m1, f2)) by {
        assert forall|i: int|
            0 <= i < f2.categories_or_empty().len() implies !m1.category_ids.contains(
            category_id_of(#[trigger] f2.categories_or_empty()[i]),
        ) by {
            let id = category_id_of(f2.categories_or_empty()[i]);
            if m1.category_ids.contains(id) {
                assert(cat_id_in(f1.categories_or_empty(), id));
                let j = choose|j: int|
                    0 <= j < f1.categories_or_empty().len() && category_id_of(
                        #[trigger] f1.categories_or_empty()[j],
                    ) == id;
            }
        }
        assert forall|i: int|
            0 <= i < f2.licenses_or_empty().len() implies !m1.license_ids.contains(
            (#[trigger] f2.licenses_or_empty()[i]).id,
        ) by {
            let id = f2.licenses_or_empty()[i].id;
            if m1.license_ids.contains(id) {
                assert(lic_id_in(f1.licenses_or_empty(), id));
                let j = choose|j: int|
                    0 <= j < f1.licenses_or_empty().len() && (
                    #[trigger] f1.licenses_or_empty()[j]).id == id;
            }
        }
        assert forall|i: int| 0 <= i < f2.images.len() implies !m1.image_ids.contains(
            (#[trigger] f2.images[i]).id,
        ) by {
            let id = f2.images[i].id;
            if m1.image_ids.contains(id) {
                assert(img_id_in(f1.images, id));
                let j = choose|j: int|
                    0 <= j < f1.images.len() && (#[trigger] f1.images[j]).id == id;
            }
        }
        assert forall|i: int, id: i64|
            0 <= i < f2.annotations.len() && #[trigger] ann_uses(
                f2.annotations[i],
                id,
            ) implies !m1.annotation_ids.contains(id) by {
            if m1.annotation_ids.contains(id) {
                let j = choose|j: int|
                    0 <= j < f1.annotations.len() && ann_uses(#[trigger] f1.annotations[j], id);
                assert(!ann_uses(f2.annotations[i], id));
            }
        }
        assert forall|i: int, j: int|
            0 <= i < f2.categories_or_empty().len() && 0 <= j
                < m1.categories.len() implies !crate::model::category_content_eq(
            #[trigger] m1.categories[j],
            #[trigger] f2.categories_or_empty()[i],
        ) by {
            assert(m1.categories[j] == f1.categories_or_empty()[j]);
        }
        assert forall|i: int, j: int|
            0 <= i < f2.licenses_or_empty().len() && 0 <= j
                < m1.licenses.len() implies !crate::model::license_content_eq(
            #[trigger] m1.licenses[j],
            #[trigger] f2.licenses_or_empty()[i],
        ) by {
            assert(m1.licenses[j] == f1.licenses_or_empty()[j]);
        }
    }
    lemma_file_pass_fresh(m1, f2, p2, reassign);
    let m2 = file_pass(m1, f2, p2, reassign)->Ok_0;
    let fs = seq![f1, f2];
    let ps = seq![p1, p2];
    assert(fs.drop_first() =~= seq![f2]);
    assert(ps.drop_first() =~= seq![p2]);
    assert(seq![f2].drop_first() =~= Seq::<FileV>::empty());
    assert(seq![p2].drop_first() =~= Seq::<Seq<char>>::empty());
    assert(merge_pass(m2, seq![f2].drop_first(), seq![p2].drop_first(), reassign)
        == Ok::<MergeModel, crate::merge::MergeErrorV>(m2));
    assert(seq![f2][0] == f2 && seq![p2][0] == p2);
    assert(merge_pass(m1, seq![f2], seq![p2], reassign) == Ok::<
        MergeModel,
        crate::merge::MergeErrorV,
    >(m2));
    assert(fs[0] == f1 && ps[0] == p1);
    assert(spec_merge(fs, ps, reassign) == Ok::<MergeModel, crate::merge::MergeErrorV>(m2));
    let d1 = crate::path::parent_dir_spec(p1);
    let d2 = crate::path::parent_dir_spec(p2);
    assert(m2.categories =~= f1.categories_or_empty() + f2.categories_or_empty());
    assert(m2.licenses =~= f1.licenses_or_empty() + f2.licenses_or_empty());
    assert(m2.images =~= Seq::new(f1.images.len(), |i: int| resolved_image(f1.images[i], d1))
        + Seq::new(f2.images.len(), |i: int| resolved_image(f2.images[i], d2)));
    assert(m2.annotations =~= f1.annotations + f2.annotations);
    assert(m2.warnings =~= Seq::<crate::merge::WarningV>::empty());
}

/// The id of the canonical entry structurally equal to `c`.
pub open spec fn canonical_category_id(cats: Seq<CategoryV>, c: CategoryV) -> i32 {
    category_id_of(cats[category_find(cats, c)])
}

/// The id of the canonical entry structurally equal to `l`.
pub open spec fn canonical_license_id(lics: Seq<LicenseV>, l: LicenseV) -> i32 {
    lics[license_find(lics, l)].id
}

/// Categories that are all structural duplicates of canonical entries
/// leave the state untouched and map each of their ids to the canonical
/// entry's id.
proof fn lemma_categories_pass_dedup(m: MergeModel, remap: Map<i32, i32>, cs: Seq<CategoryV>)
    requires
        forall|i: int|
            0 <= i < cs.len() ==> exists|j: int|
                0 <= j < m.categories.len() && crate::model::category_content_eq(
                    #[trigger] m.categories[j],
                    #[trigger] cs[i],
                ),
        forall|i: int, j: int|
            0 <= i < j < cs.len() ==> category_id_of(#[trigger] cs[i]) != category_id_of(
                #[trigger] cs[j],
            ),
    ensures
        ({
            let (m2, r2) = categories_pass(m, remap, cs);
            &&& m2 == m
            &&& forall|i: int|
                0 <= i < cs.len() ==> r2.contains_key(category_id_of(#[trigger] cs[i]))
                    && r2[category_id_of(cs[i])] == canonical_category_id(m.categories, cs[i])
        }),
    decreases cs.len(),
{
    if cs.len() > 0 {
        let c = cs[0];
        crate::merge::lemma_category_find_props(m.categories, c);
        assert(category_find(m.categories, c) >= 0) by {
            let j = choose|j: int|
                0 <= j < m.categories.len() && crate::model::category_content_eq(
                    #[trigger] m.categories[j],
                    c,
                );
        }
        let (m1, r1) = category_step(m, remap, c);
        assert(m1 == m);
        assert forall|i: int| 0 <= i < cs.drop_first().len() implies exists|j: int|
            0 <= j < m1.categories.len() && crate::model::category_content_eq(
                #[trigger] m1.categories[j],
                #[trigger] cs.drop_first()[i],
            ) by {
            assert(cs.drop_first()[i] == cs[i + 1]);
        }
        lemma_categories_pass_dedup(m1, r1, cs.drop_first());
        let (m2, r2) = categories_pass(m1, r1, cs.drop_first());
        assert forall|i: int| 0 <= i < cs.len() implies r2.contains_key(
            category_id_of(#[trigger] cs[i]),
        ) && r2[category_id_of(cs[i])] == canonical_category_id(m.categories, cs[i]) by {
            if i > 0 {
                assert(cs.drop_first()[i - 1] == cs[i]);
            } else {
                assert(r1.contains_key(category_id_of(c)) && r1[category_id_of(c)]
                    == canonical_category_id(m.categories, c));
                assert forall|k: int| 0 <= k < cs.drop_first().len() implies category_id_of(
                    #[trigger] cs.drop_first()[k],
                ) != category_id_of(c) by {
                    assert(cs.drop_first()[k] == cs[k + 1]);
                }
                lemma_pass_keeps_other_cat_keys(m1, r1, cs.drop_first(), category_id_of(c));
            }
        }
    }
}

/// Licenses that are all structural duplicates of canonical entries
/// leave the state untouched and map each of their ids to the canonical
/// entry's id.
proof fn lemma_licenses_pass_dedup(m: MergeModel, remap: Map<i32, i32>, ls: Seq<LicenseV>)
    requires
        forall|i: int|
            0 <= i < ls.len() ==> exists|j: int|
                0 <= j < m.licenses.len() && crate::model::license_content_eq(
                    #[trigger] m.licenses[j],
                    #[trigger] ls[i],
                ),
        forall|i: int, j: int|
            0 <= i < j < ls.len() ==> (#[trigger] ls[i]).id != (#[trigger] ls[j]).id,
    ensures
        ({
            let (m2, r2) = licenses_pass(m, remap, ls);
            &&& m2 == m
            &&& forall|i: int|
                0 <= i < ls.len() ==> r2.contains_key((#[trigger] ls[i]).id) && r2[ls[i].id]
                    == canonical_license_id(m.licenses, ls[i])
        }),
    decreases ls.len(),
{
    if ls.len() > 0 {
        let l = ls[0];
        crate::merge::lemma_license_find_props(m.licenses, l);
        assert(license_find(m.licenses, l) >= 0) by {
            let j = choose|j: int|
                0 <= j < m.licenses.len() && crate::model::license_content_eq(
                    #[trigger] m.licenses[j],
                    l,
                );
        }
        let (m1, r1) = license_step(m, remap, l);
        assert(m1 == m);
        assert forall|i: int| 0 <= i < ls.drop_first().len() implies exists|j: int|
            0 <= j < m1.licenses.len() && crate::model::license_content_eq(
                #[trigger] m1.licenses[j],
                #[trigger] ls.drop_first()[i],
            ) by {
            assert(ls.drop_first()[i] == ls[i + 1]);
        }
        lemma_licenses_pass_dedup(m1, r1, ls.drop_first());
        let (m2, r2) = licenses_pass(m1, r1, ls.drop_first());
        assert forall|i: int| 0 <= i < ls.len() implies r2.contains_key(
            (#[trigger] ls[i]).id,
        ) && r2[ls[i].id] == canonical_license_id(m.licenses, ls[i]) by {
            if i > 0 {
                assert(ls.drop_first()[i - 1] == ls[i]);
            } else {
                assert(r1.contains_key(l.id) && r1[l.id] == canonical_license_id(
                    m.licenses,
                    l,
                ));
                assert forall|k: int| 0 <= k < ls.drop_first().len() implies (
                #[trigger] ls.drop_first()[k]).id != l.id by {
                    assert(ls.drop_first()[k] == ls[k + 1]);
                }
                lemma_pass_keeps_other_lic_keys(m1, r1, ls.drop_first(), l.id);
            }
        }
    }
}

/// The licenses, images and annotations of `f1` and `f2` share no id and
/// no structurally equal license.
pub open spec fn files_disjoint_except_categories(f1: FileV, f2: FileV) -> bool {
    &&& forall|i: int, j: int|
        0 <= i < f1.licenses_or_empty().len() && 0 <= j < f2.licenses_or_empty().len() ==> (
        #[trigger] f1.licenses_or_empty()[i]).id != (#[trigger] f2.licenses_or_empty()[j]).id
            && !crate::model::license_content_eq(
            f1.licenses_or_empty()[i],
            f2.licenses_or_empty()[j],
        )
    &&& forall|i: int, j: int|
        0 <= i < f1.images.len() && 0 <= j < f2.images.len() ==> (#[trigger] f1.images[i]).id
            != (#[trigger] f2.images[j]).id
    &&& forall|i: int, j: int, id: i64|
        #![trigger ann_uses(f1.annotations[i], id), ann_uses(f2.annotations[j], id)]
        0 <= i < f1.annotations.len() && 0 <= j < f2.annotations.len() && ann_uses(
            f1.annotations[i],
            id,
        ) ==> !ann_uses(f2.annotations[j], id)
}

/// **Structurally identical categories collapse to one canonical entry.**
/// When every category of the second file is structurally equal to one of
/// the first file's, the merged output keeps exactly the first file's
/// category list, and the second file's category remap sends each of its
/// category ids to the id of the structurally equal canonical entry — so
/// every annotation of the second file, kept unchanged otherwise, ends up
/// referencing the one canonical id.
pub proof fn theorem_category_dedup(
    f1: FileV,
    f2: FileV,
    p1: Seq<char>,
    p2: Seq<char>,
    reassign: bool,
)
    requires
        file_self_consistent(f1),
        file_self_consistent(f2),
        files_disjoint_except_categories(f1, f2),
        forall|i: int|
            0 <= i < f2.categories_or_empty().len() ==> exists|j: int|
                0 <= j < f1.categories_or_empty().len() && crate::model::category_content_eq(
                    #[trigger] f1.categories_or_empty()[j],
                    #[trigger] f2.categories_or_empty()[i],
                ),
    ensures
        ({
            let r = spec_merge(seq![f1, f2], seq![p1, p2], reassign);
            &&& r is Ok
            &&& ({
                let m = r->Ok_0;
                let d1 = crate::path::parent_dir_spec(p1);
                let d2 = crate::path::parent_dir_spec(p2);
                let m1 = file_pass(initial_model(), f1, p1, reassign)->Ok_0;
                let crm = categories_pass(m1, Map::empty(), f2.categories_or_empty()).1;
                let lrm = licenses_pass(m1, Map::empty(), f2.licenses_or_empty()).1;
                let irm = images_pass(
                    licenses_pass(m1, Map::empty(), f2.licenses_or_empty()).0,
                    Map::empty(),
                    f2.images,
                    d2,
                    p2,
                    reassign,
                    lrm,
                )->Ok_0.1;
                &&& m.categories == f1.categories_or_empty()
                &&& forall|i: int|
                    0 <= i < f2.categories_or_empty().len() ==> crm.contains_key(
                        category_id_of(#[trigger] f2.categories_or_empty()[i]),
                    ) && crm[category_id_of(f2.categories_or_empty()[i])]
                        == canonical_category_id(
                        f1.categories_or_empty(),
                        f2.categories_or_empty()[i],
                    )
                &&& forall|j: int|
                    0 <= j < f2.images.len() ==> irm.contains_key((#[trigger] f2.images[j]).id)
                        && irm[f2.images[j].id] == f2.images[j].id
                &&& m.licenses == f1.licenses_or_empty() + f2.licenses_or_empty()
                &&& m.images == Seq::new(
                    f1.images.len(),
                    |i: int| resolved_image(f1.images[i], d1),
                ) + Seq::new(f2.images.len(), |i: int| resolved_image(f2.images[i], d2))
                &&& m.annotations == f1.annotations + Seq::new(
                    f2.annotations.len(),
                    |i: int| retargeted_annotation(f2.annotations[i], irm, crm),
                )
                &&& m.warnings == Seq::<crate::merge::WarningV>::empty()
            })
        }),
{
    let m0 = initial_model();
    assert(file_fresh_for(m0, f1));
    lemma_file_pass_fresh(m0, f1, p1, reassign);
    let m1 = file_pass(m0, f1, p1, reassign)->Ok_0;
    assert(m1.categories =~= f1.categories_or_empty());
    assert(m1.licenses =~= f1.licenses_or_empty());
    assert(m1.annotations =~= f1.annotations);
    let d1 = crate::path::parent_dir_spec(p1);
    let d2 = crate::path::parent_dir_spec(p2);
    let cs2 = f2.categories_or_empty();
    let ls2 = f2.licenses_or_empty();
    // categories of the second file: all duplicates
    assert forall|i: int| 0 <= i < cs2.len() implies exists|j: int|
        0 <= j < m1.categories.len() && crate::model::category_content_eq(
            #[trigger] m1.categories[j],
            #[trigger] cs2[i],
        ) by {
        let j = choose|j: int|
            0 <= j < f1.categories_or_empty().len() && crate::model::category_content_eq(
                #[trigger] f1.categories_or_empty()[j],
                cs2[i],
            );
        assert(m1.categories[j] == f1.categories_or_empty()[j]);
    }
    lemma_categories_pass_dedup(m1, Map::empty(), cs2);
    let (mc, crm) = categories_pass(m1, Map::empty(), cs2);
    assert(mc == m1);
    // licenses of the second file: fresh
    assert(lics_fresh_for(mc, ls2)) by {
        assert forall|i: int| 0 <= i < ls2.len() implies !mc.license_ids.contains(
            (#[trigger] ls2[i]).id,
        ) by {
            if mc.license_ids.contains(ls2[i].id) {
                assert(lic_id_in(f1.licenses_or_empty(), ls2[i].id));
                let j = choose|j: int|
                    0 <= j < f1.licenses_or_empty().len() && (
                    #[trigger] f1.licenses_or_empty()[j]).id == ls2[i].id;
            }
        }
        assert forall|i: int, j: int|
            0 <= i < ls2.len() && 0 <= j
                < mc.licenses.len() implies !crate::model::license_content_eq(
            #[trigger] mc.licenses[j],
            #[trigger] ls2[i],
        ) by {
            assert(mc.licenses[j] == f1.licenses_or_empty()[j]);
        }
    }
    lemma_licenses_pass_fresh(mc, Map::empty(), ls2);
    let (ml, lrm) = licenses_pass(mc, Map::empty(), ls2);
    // images of the second file: fresh, licenses known
    assert(imgs_fresh_for(ml, f2.images, lrm)) by {
        assert forall|i: int| 0 <= i < f2.images.len() implies !ml.image_ids.contains(
            (#[trigger] f2.images[i]).id,
        ) by {
            if ml.image_ids.contains(f2.images[i].id) {
                assert(img_id_in(f1.images, f2.images[i].id));
                let j = choose|j: int|
                    0 <= j < f1.images.len() && (#[trigger] f1.images[j]).id
                        == f2.images[i].id;
            }
        }
        assert forall|i: int|
            0 <= i < f2.images.len() implies ((#[trigger] f2.images[i]).license matches Some(l)
            ==> lrm.contains_key(l)) by {
            match f2.images[i].license {
                Some(l) => {
                    let j = choose|j: int| 0 <= j < ls2.len() && (#[trigger] ls2[j]).id == l;
                    assert(lrm.contains_key(ls2[j].id));
                },
                None => {},
            }
        }
    }
    lemma_images_pass_kept(ml, Map::empty(), f2.images, d2, p2, reassign, lrm);
    let (mi, irm) = images_pass(ml, Map::empty(), f2.images, d2, p2, reassign, lrm)->Ok_0;
    // annotations of the second file: fresh, references known
    assert(anns_fresh_for(mi, f2.annotations, irm, crm)) by {
        assert forall|i: int, id: i64|
            0 <= i < f2.annotations.len() && #[trigger] ann_uses(
                f2.annotations[i],
                id,
            ) implies !mi.annotation_ids.contains(id) by {
            if mi.annotation_ids.contains(id) {
                let j = choose|j: int|
                    0 <= j < f1.annotations.len() && ann_uses(#[trigger] f1.annotations[j], id);
                assert(!ann_uses(f2.annotations[i], id));
            }
        }
        assert forall|i: int| 0 <= i < f2.annotations.len() implies ann_refs_in_remaps(
            #[trigger] f2.annotations[i],
            irm,
            crm,
        ) by {
            let a = f2.annotations[i];
            let j = choose|j: int|
                0 <= j < f2.images.len() && (#[trigger] f2.images[j]).id
                    == annotation_image_id(a);
            assert(irm.contains_key(f2.images[j].id));
            assert(ann_cat_refs_declared(a, cs2));
            match a {
                AnnotationV::PanopticSegmentation(x) => {
                    assert forall|t: int|
                        0 <= t < x.segments_info.len() implies crm.contains_key(
                        (#[trigger] x.segments_info[t]).category_id,
                    ) by {
                        let k = choose|k: int|
                            0 <= k < cs2.len() && category_id_of(#[trigger] cs2[k])
                                == x.segments_info[t].category_id;
                        assert(crm.contains_key(category_id_of(cs2[k])));
                    }
                },
                AnnotationV::ObjectDetection(x) => {
                    let k = choose|k: int|
                        0 <= k < cs2.len() && category_id_of(#[trigger] cs2[k])
                            == x.category_id;
                    assert(crm.contains_key(category_id_of(cs2[k])));
                },
                AnnotationV::KeypointDetection(x) => {
                    let k = choose|k: int|
                        0 <= k < cs2.len() && category_id_of(#[trigger] cs2[k])
                            == x.category_id;
                    assert(crm.contains_key(category_id_of(cs2[k])));
                },
                AnnotationV::DensePose(x) => {
                    let k = choose|k: int|
                        0 <= k < cs2.len() && category_id_of(#[trigger] cs2[k])
                            == x.category_id;
                    assert(crm.contains_key(category_id_of(cs2[k])));
                },
                AnnotationV::ImageCaptioning(_) => {},
            }
        }
    }
    lemma_annotations_pass_kept(mi, f2.annotations, irm, crm, p2);
    let m2 = annotations_pass(mi, f2.annotations, irm, crm, p2)->Ok_0;
    // stitch the two files into the top-level fold
    let fs = seq![f1, f2];
    let ps = seq![p1, p2];
    assert(fs.drop_first() =~= seq![f2]);
    assert(ps.drop_first() =~= seq![p2]);
    assert(seq![f2].drop_first() =~= Seq::<FileV>::empty());
    assert(seq![p2].drop_first() =~= Seq::<Seq<char>>::empty());
    assert(file_pass(m1, f2, p2, reassign) == Ok::<MergeModel, crate::merge::MergeErrorV>(m2));
    assert(merge_pass(m2, seq![f2].drop_first(), seq![p2].drop_first(), reassign)
        == Ok::<MergeModel, crate::merge::MergeErrorV>(m2));
    assert(seq![f2][0] == f2 && seq![p2][0] == p2);
    assert(merge_pass(m1, seq![f2], seq![p2], reassign) == Ok::<
        MergeModel,
        crate::merge::MergeErrorV,
    >(m2));
    assert(fs[0] == f1 && ps[0] == p1);
    assert(spec_merge(fs, ps, reassign) == Ok::<MergeModel, crate::merge::MergeErrorV>(m2));
    assert(m2.categories =~= f1.categories_or_empty());
    assert forall|i: int| 0 <= i < cs2.len() implies crm.contains_key(
        category_id_of(#[trigger] cs2[i]),
    ) && crm[category_id_of(cs2[i])] == canonical_category_id(
        f1.categories_or_empty(),
        cs2[i],
    ) by {
        assert(crm[category_id_of(cs2[i])] == canonical_category_id(m1.categories, cs2[i]));
        assert(m1.categories == f1.categories_or_empty());
    }
    assert(m2.licenses =~= f1.licenses_or_empty() + ls2);
    assert(m2.images =~= Seq::new(f1.images.len(), |i: int| resolved_image(f1.images[i], d1))
        + Seq::new(f2.images.len(), |i: int| resolved_image(f2.images[i], d2))) by {
        assert forall|i: int| 0 <= i < f2.images.len() implies rewritten_image(
            #[trigger] f2.images[i],
            d2,
            lrm,
        ) == resolved_image(f2.images[i], d2) by {
            match f2.images[i].license {
                Some(l) => {
                    let j = choose|j: int| 0 <= j < ls2.len() && (#[trigger] ls2[j]).id == l;
                    assert(lrm[ls2[j].id] == ls2[j].id);
                },
                None => {},
            }
        }
    }
    assert(m2.annotations =~= f1.annotations + Seq::new(
        f2.annotations.len(),
        |i: int| retargeted_annotation(f2.annotations[i], irm, crm),
    ));
    assert(m2.warnings =~= Seq::<crate::merge::WarningV>::empty());
}

/// The categories, images and annotations of `f1` and `f2` share no id
/// and no structurally equal category.
pub open spec fn files_disjoint_except_licenses(f1: FileV, f2: FileV) -> bool {
    &&& forall|i: int, j: int|
        0 <= i < f1.categories_or_empty().len() && 0 <= j < f2.categories_or_empty().len()
            ==> category_id_of(#[trigger] f1.categories_or_empty()[i]) != category_id_of(
            #[trigger] f2.categories_or_empty()[j],
        ) && !crate::model::category_content_eq(
            f1.categories_or_empty()[i],
            f2.categories_or_empty()[j],
        )
    &&& forall|i: int, j: int|
        0 <= i < f1.images.len() && 0 <= j < f2.images.len() ==> (#[trigger] f1.images[i]).id
            != (#[trigger] f2.images[j]).id
    &&& forall|i: int, j: int, id: i64|
        #![trigger ann_uses(f1.annotations[i], id), ann_uses(f2.annotations[j], id)]
        0 <= i < f1.annotations.len() && 0 <= j < f2.annotations.len() && ann_uses(
            f1.annotations[i],
            id,
        ) ==> !ann_uses(f2.annotations[j], id)
}

/// **Structurally identical licenses collapse to one canonical entry.**
/// When every license of the second file is structurally equal to one of
/// the first file's, the merged output keeps exactly the first file's
/// license list, and the second file's license remap sends each of its
/// license ids to the canonical entry's id — so every image of the
/// second file ends up referencing the one canonical id.
pub proof fn theorem_license_dedup(
    f1: FileV,
    f2: FileV,
    p1: Seq<char>,
    p2: Seq<char>,
    reassign: bool,
)
    requires
        file_self_consistent(f1),
        file_self_consistent(f2),
        files_disjoint_except_licenses(f1, f2),
        forall|i: int|
            0 <= i < f2.licenses_or_empty().len() ==> exists|j: int|
                0 <= j < f1.licenses_or_empty().len() && crate::model::license_content_eq(
                    #[trigger] f1.licenses_or_empty()[j],
                    #[trigger] f2.licenses_or_empty()[i],
                ),
    ensures
        ({
            let r = spec_merge(seq![f1, f2], seq![p1, p2], reassign);
            &&& r is Ok
            &&& ({
                let m = r->Ok_0;
                let d1 = crate::path::parent_dir_spec(p1);
                let d2 = crate::path::parent_dir_spec(p2);
                let m1 = file_pass(initial_model(), f1, p1, reassign)->Ok_0;
                let mc = categories_pass(m1, Map::empty(), f2.categories_or_empty()).0;
                let lrm = licenses_pass(mc, Map::empty(), f2.licenses_or_empty()).1;
                &&& m.licenses == f1.licenses_or_empty()
                &&& forall|i: int|
                    0 <= i < f2.licenses_or_empty().len() ==> lrm.contains_key(
                        (#[trigger] f2.licenses_or_empty()[i]).id,
                    ) && lrm[f2.licenses_or_empty()[i].id] == canonical_license_id(
                        f1.licenses_or_empty(),
                        f2.licenses_or_empty()[i],
                    )
                &&& m.categories == f1.categories_or_empty() + f2.categories_or_empty()
                &&& m.images == Seq::new(
                    f1.images.len(),
                    |i: int| resolved_image(f1.images[i], d1),
                ) + Seq::new(f2.images.len(), |i: int| rewritten_image(f2.images[i], d2, lrm))
                &&& m.annotations.len() == f1.annotations.len() + f2.annotations.len()
                &&& m.warnings == Seq::<crate::merge::WarningV>::empty()
            })
        }),
{
    let m0 = initial_model();
    assert(file_fresh_for(m0, f1));
    lemma_file_pass_fresh(m0, f1, p1, reassign);
    let m1 = file_pass(m0, f1, p1, reassign)->Ok_0;
    assert(m1.categories =~= f1.categories_or_empty());
    assert(m1.licenses =~= f1.licenses_or_empty());
    assert(m1.annotations =~= f1.annotations);
    let d1 = crate::path::parent_dir_spec(p1);
    let d2 = crate::path::parent_dir_spec(p2);
    let cs2 = f2.categories_or_empty();
    let ls2 = f2.licenses_or_empty();
    // categories of the second file: fresh
    assert(cats_fresh_for(m1, cs2)) by {
        assert forall|i: int| 0 <= i < cs2.len() implies !m1.category_ids.contains(
            category_id_of(#[trigger] cs2[i]),
        ) by {
            if m1.category_ids.contains(category_id_of(cs2[i])) {
                assert(cat_id_in(f1.categories_or_empty(), category_id_of(cs2[i])));
                let j = choose|j: int|
                    0 <= j < f1.categories_or_empty().len() && category_id_of(
                        #[trigger] f1.categories_or_empty()[j],
                    ) == category_id_of(cs2[i]);
            }
        }
        assert forall|i: int, j: int|
            0 <= i < cs2.len() && 0 <= j
                < m1.categories.len() implies !crate::model::category_content_eq(
            #[trigger] m1.categories[j],
            #[trigger] cs2[i],
        ) by {
            assert(m1.categories[j] == f1.categories_or_empty()[j]);
        }
    }
    lemma_categories_pass_fresh(m1, Map::empty(), cs2);
    let (mc, crm) = categories_pass(m1, Map::empty(), cs2);
    // licenses of the second file: all duplicates
    assert forall|i: int| 0 <= i < ls2.len() implies exists|j: int|
        0 <= j < mc.licenses.len() && crate::model::license_content_eq(
            #[trigger] mc.licenses[j],
            #[trigger] ls2[i],
        ) by {
        let j = choose|j: int|
            0 <= j < f1.licenses_or_empty().len() && crate::model::license_content_eq(
                #[trigger] f1.licenses_or_empty()[j],
                ls2[i],
            );
        assert(mc.licenses[j] == f1.licenses_or_empty()[j]);
    }
    lemma_licenses_pass_dedup(mc, Map::empty(), ls2);
    let (ml, lrm) = licenses_pass(mc, Map::empty(), ls2);
    assert(ml == mc);
    // images of the second file: fresh, licenses known to the remap
    assert(imgs_fresh_for(ml, f2.images, lrm)) by {
        assert forall|i: int| 0 <= i < f2.images.len() implies !ml.image_ids.contains(
            (#[trigger] f2.images[i]).id,
        ) by {
            if ml.image_ids.contains(f2.images[i].id) {
                assert(img_id_in(f1.images, f2.images[i].id));
                let j = choose|j: int|
                    0 <= j < f1.images.len() && (#[trigger] f1.images[j]).id
                        == f2.images[i].id;
            }
        }
        assert forall|i: int|
            0 <= i < f2.images.len() implies ((#[trigger] f2.images[i]).license matches Some(l)
            ==> lrm.contains_key(l)) by {
            match f2.images[i].license {
                Some(l) => {
                    let j = choose|j: int| 0 <= j < ls2.len() && (#[trigger] ls2[j]).id == l;
                    assert(lrm.contains_key(ls2[j].id));
                },
                None => {},
            }
        }
    }
    lemma_images_pass_kept(ml, Map::empty(), f2.images, d2, p2, reassign, lrm);
    let (mi, irm) = images_pass(ml, Map::empty(), f2.images, d2, p2, reassign, lrm)->Ok_0;
    // annotations of the second file: fresh, references known
    assert(anns_fresh_for(mi, f2.annotations, irm, crm)) by {
        assert forall|i: int, id: i64|
            0 <= i < f2.annotations.len() && #[trigger] ann_uses(
                f2.annotations[i],
                id,
            ) implies !mi.annotation_ids.contains(id) by {
            if mi.annotation_ids.contains(id) {
                let j = choose|j: int|
                    0 <= j < f1.annotations.len() && ann_uses(#[trigger] f1.annotations[j], id);
                assert(!ann_uses(f2.annotations[i], id));
            }
        }
        assert forall|i: int| 0 <= i < f2.annotations.len() implies ann_refs_in_remaps(
            #[trigger] f2.annotations[i],
            irm,
            crm,
        ) by {
            let a = f2.annotations[i];
            let j = choose|j: int|
                0 <= j < f2.images.len() && (#[trigger] f2.images[j]).id
                    == annotation_image_id(a);
            assert(irm.contains_key(f2.images[j].id));
            assert(ann_cat_refs_declared(a, cs2));
            match a {
                AnnotationV::PanopticSegmentation(x) => {
                    assert forall|t: int|
                        0 <= t < x.segments_info.len() implies crm.contains_key(
                        (#[trigger] x.segments_info[t]).category_id,
                    ) by {
                        let k = choose|k: int|
                            0 <= k < cs2.len() && category_id_of(#[trigger] cs2[k])
                                == x.segments_info[t].category_id;
                        assert(crm.contains_key(category_id_of(cs2[k])));
                    }
                },
                AnnotationV::ObjectDetection(x) => {
                    let k = choose|k: int|
                        0 <= k < cs2.len() && category_id_of(#[trigger] cs2[k])
                            == x.category_id;
                    assert(crm.contains_key(category_id_of(cs2[k])));
                },
                AnnotationV::KeypointDetection(x) => {
                    let k = choose|k: int|
                        0 <= k < cs2.len() && category_id_of(#[trigger] cs2[k])
                            == x.category_id;
                    assert(crm.contains_key(category_id_of(cs2[k])));
                },
                AnnotationV::DensePose(x) => {
                    let k = choose|k: int|
                        0 <= k < cs2.len() && category_id_of(#[trigger] cs2[k])
                            == x.category_id;
                    assert(crm.contains_key(category_id_of(cs2[k])));
                },
                AnnotationV::ImageCaptioning(_) => {},
            }
        }
    }
    lemma_annotations_pass_kept(mi, f2.annotations, irm, crm, p2);
    let m2 = annotations_pass(mi, f2.annotations, irm, crm, p2)->Ok_0;
    // stitch the two files into the top-level fold
    let fs = seq![f1, f2];
    let ps = seq![p1, p2];
    assert(fs.drop_first() =~= seq![f2]);
    assert(ps.drop_first() =~= seq![p2]);
    assert(seq![f2].drop_first() =~= Seq::<FileV>::empty());
    assert(seq![p2].drop_first() =~= Seq::<Seq<char>>::empty());
    assert(file_pass(m1, f2, p2, reassign) == Ok::<MergeModel, crate::merge::MergeErrorV>(m2));
    assert(merge_pass(m2, seq![f2].drop_first(), seq![p2].drop_first(), reassign)
        == Ok::<MergeModel, crate::merge::MergeErrorV>(m2));
    assert(seq![f2][0] == f2 && seq![p2][0] == p2);
    assert(merge_pass(m1, seq![f2], seq![p2], reassign) == Ok::<
        MergeModel,
        crate::merge::MergeErrorV,
    >(m2));
    assert(fs[0] == f1 && ps[0] == p1);
    assert(spec_merge(fs, ps, reassign) == Ok::<MergeModel, crate::merge::MergeErrorV>(m2));
    assert(m2.licenses =~= f1.licenses_or_empty());
    assert forall|i: int| 0 <= i < ls2.len() implies lrm.contains_key(
        (#[trigger] ls2[i]).id,
    ) && lrm[ls2[i].id] == canonical_license_id(f1.licenses_or_empty(), ls2[i]) by {
        assert(lrm[ls2[i].id] == canonical_license_id(mc.licenses, ls2[i]));
        assert(mc.licenses == f1.licenses_or_empty());
    }
    assert(m2.categories =~= f1.categories_or_empty() + cs2);
    assert(m2.images =~= Seq::new(f1.images.len(), |i: int| resolved_image(f1.images[i], d1))
        + Seq::new(f2.images.len(), |i: int| rewritten_image(f2.images[i], d2, lrm)));
    assert(m2.warnings =~= Seq::<crate::merge::WarningV>::empty());
}

/// Annotations whose image reference is absent from the remap are all
/// discarded silently.
proof fn lemma_annotations_pass_all_dropped(
    m: MergeModel,
    anns: Seq<AnnotationV>,
    img_remap: Map<i64, i64>,
    cat_remap: Map<i32, i32>,
    file: Seq<char>,
)
    requires
        forall|i: int|
            0 <= i < anns.len() ==> !img_remap.contains_key(
                annotation_image_id(#[trigger] anns[i]),
            ),
    ensures
        annotations_pass(m, anns, img_remap, cat_remap, file) == Ok::<
            MergeModel,
            crate::merge::MergeErrorV,
        >(m),
    decreases anns.len(),
{
    if anns.len() > 0 {
        assert(forall|i: int|
            0 <= i < anns.drop_first().len() ==> !img_remap.contains_key(
                annotation_image_id(#[trigger] anns.drop_first()[i]),
            ));
        lemma_annotations_pass_all_dropped(m, anns.drop_first(), img_remap, cat_remap, file);
    }
}

/// **A colliding image is dropped when reassignment is off.**  When the
/// second file holds a single image whose id the first file already
/// uses, and every annotation of the second file refers to that image,
/// merging without reassignment keeps only the first file's image under
/// that id, drops all of the second file's annotations, and emits
/// exactly one warning naming the second file and the id.
pub proof fn theorem_collision_without_reassignment(
    f1: FileV,
    f2: FileV,
    p1: Seq<char>,
    p2: Seq<char>,
)
    requires
        file_self_consistent(f1),
        f2.images.len() == 1,
        img_id_in(f1.images, f2.images[0].id),
        f2.images[0].license is None,
        f2.categories_or_empty().len() == 0,
        f2.licenses_or_empty().len() == 0,
        forall|i: int|
            0 <= i < f2.annotations.len() ==> annotation_image_id(#[trigger] f2.annotations[i])
                == f2.images[0].id,
    ensures
        ({
            let r = spec_merge(seq![f1, f2], seq![p1, p2], false);
            &&& r is Ok
            &&& ({
                let m = r->Ok_0;
                let d1 = crate::path::parent_dir_spec(p1);
                &&& m.images == Seq::new(
                    f1.images.len(),
                    |i: int| resolved_image(f1.images[i], d1),
                )
                &&& m.annotations == f1.annotations
                &&& m.categories == f1.categories_or_empty()
                &&& m.licenses == f1.licenses_or_empty()
                &&& m.warnings == seq![
                    crate::merge::WarningV { file: p2, image_id: f2.images[0].id },
                ]
            })
        }),
{
    let m0 = initial_model();
    assert(file_fresh_for(m0, f1));
    lemma_file_pass_fresh(m0, f1, p1, false);
    let m1 = file_pass(m0, f1, p1, false)->Ok_0;
    let d1 = crate::path::parent_dir_spec(p1);
    let d2 = crate::path::parent_dir_spec(p2);
    // the second file's (empty) category and license passes change nothing
    let (mc, crm) = categories_pass(m1, Map::empty(), f2.categories_or_empty());
    let (ml, lrm) = licenses_pass(mc, Map::empty(), f2.licenses_or_empty());
    assert(f2.categories_or_empty() =~= Seq::<CategoryV>::empty());
    assert(f2.licenses_or_empty() =~= Seq::<LicenseV>::empty());
    assert(mc == m1 && ml == m1);
    // its one image collides and is dropped with a warning
    let img = f2.images[0];
    assert(m1.image_ids.contains(img.id));
    let step = image_step(m1, Map::empty(), img, d2, p2, false, lrm);
    let (mi, irm) = step->Ok_0;
    assert(irm =~= Map::<i64, i64>::empty());
    assert(f2.images.drop_first() =~= Seq::<ImageV>::empty());
    assert(f2.images[0] == img);
    assert(images_pass(mi, irm, f2.images.drop_first(), d2, p2, false, lrm) == Ok::<
        (MergeModel, Map<i64, i64>),
        crate::merge::MergeErrorV,
    >((mi, irm)));
    assert(images_pass(m1, Map::empty(), f2.images, d2, p2, false, lrm) == Ok::<
        (MergeModel, Map<i64, i64>),
        crate::merge::MergeErrorV,
    >((mi, irm)));
    // every annotation of the second file refers to the dropped image
    assert(forall|i: int|
        0 <= i < f2.annotations.len() ==> !irm.contains_key(
            annotation_image_id(#[trigger] f2.annotations[i]),
        ));
    lemma_annotations_pass_all_dropped(mi, f2.annotations, irm, crm, p2);
    let m2 = annotations_pass(mi, f2.annotations, irm, crm, p2)->Ok_0;
    assert(m2 == mi);
    // stitch the two files into the top-level fold
    let fs = seq![f1, f2];
    let ps = seq![p1, p2];
    assert(fs.drop_first() =~= seq![f2]);
    assert(ps.drop_first() =~= seq![p2]);
    assert(seq![f2].drop_first() =~= Seq::<FileV>::empty());
    assert(seq![p2].drop_first() =~= Seq::<Seq<char>>::empty());
    assert(file_pass(m1, f2, p2, false) == Ok::<MergeModel, crate::merge::MergeErrorV>(m2));
    assert(merge_pass(m2, seq![f2].drop_first(), seq![p2].drop_first(), false) == Ok::<
        MergeModel,
        crate::merge::MergeErrorV,
    >(m2));
    assert(seq![f2][0] == f2 && seq![p2][0] == p2);
    assert(merge_pass(m1, seq![f2], seq![p2], false) == Ok::<
        MergeModel,
        crate::merge::MergeErrorV,
    >(m2));
    assert(fs[0] == f1 && ps[0] == p1);
    assert(spec_merge(fs, ps, false) == Ok::<MergeModel, crate::merge::MergeErrorV>(m2));
    assert(m2.images =~= Seq::new(f1.images.len(), |i: int| resolved_image(f1.images[i], d1)));
    assert(m2.annotations =~= f1.annotations);
    assert(m2.categories =~= f1.categories_or_empty());
    assert(m2.licenses =~= f1.licenses_or_empty());
    assert(m2.warnings =~= seq![crate::merge::WarningV { file: p2, image_id: img.id }]);
}

/// **A colliding image is reassigned when reassignment is on.**  Same
/// setup as [`theorem_collision_without_reassignment`], with bounded ids
/// and reassignment enabled: the output contains both images under two
/// distinct ids — the second image under the next unseen id, which
/// differs from its original — and every annotation of the second file
/// survives, retargeted at the new id.  No warning is emitted.
pub proof fn theorem_collision_with_reassignment(
    f1: FileV,
    f2: FileV,
    p1: Seq<char>,
    p2: Seq<char>,
)
    requires
        merge_input_bounded(seq![f1, f2]),
        file_self_consistent(f1),
        f2.images.len() == 1,
        img_id_in(f1.images, f2.images[0].id),
        f2.images[0].license is None,
        f2.licenses_or_empty().len() == 0,
        // the second file's categories collide with nothing
        forall|i: int, j: int|
            0 <= i < f1.categories_or_empty().len() && 0 <= j < f2.categories_or_empty().len()
                ==> category_id_of(#[trigger] f1.categories_or_empty()[i]) != category_id_of(
                #[trigger] f2.categories_or_empty()[j],
            ) && !crate::model::category_content_eq(
                f1.categories_or_empty()[i],
                f2.categories_or_empty()[j],
            ),
        forall|i: int, j: int|
            0 <= i < j < f2.categories_or_empty().len() ==> category_id_of(
                #[trigger] f2.categories_or_empty()[i],
            ) != category_id_of(#[trigger] f2.categories_or_empty()[j])
                && !crate::model::category_content_eq(
                f2.categories_or_empty()[i],
                f2.categories_or_empty()[j],
            ),
        // the second file's annotations refer to its one image, reference
        // declared categories, and own fresh, distinct ids
        forall|i: int|
            0 <= i < f2.annotations.len() ==> annotation_image_id(#[trigger] f2.annotations[i])
                == f2.images[0].id,
        forall|i: int|
            0 <= i < f2.annotations.len() ==> ann_cat_refs_declared(
                #[trigger] f2.annotations[i],
                f2.categories_or_empty(),
            ),
        forall|i: int|
            0 <= i < f2.annotations.len() ==> ann_ids_distinct_within(
                #[trigger] f2.annotations[i],
            ),
        forall|i: int, j: int, id: i64|
            #![trigger ann_uses(f2.annotations[i], id), ann_uses(f2.annotations[j], id)]
            0 <= i < f2.annotations.len() && 0 <= j < f2.annotations.len() && i != j
                && ann_uses(f2.annotations[i], id) ==> !ann_uses(f2.annotations[j], id),
        forall|i: int, j: int, id: i64|
            #![trigger ann_uses(f1.annotations[i], id), ann_uses(f2.annotations[j], id)]
            0 <= i < f1.annotations.len() && 0 <= j < f2.annotations.len() && ann_uses(
                f1.annotations[i],
                id,
            ) ==> !ann_uses(f2.annotations[j], id),
    ensures
        ({
            let r = spec_merge(seq![f1, f2], seq![p1, p2], true);
            &&& r is Ok
            &&& ({
                let m = r->Ok_0;
                let d1 = crate::path::parent_dir_spec(p1);
                let d2 = crate::path::parent_dir_spec(p2);
                let m1 = file_pass(initial_model(), f1, p1, true)->Ok_0;
                let nid = m1.next_image_id as i64;
                let img = f2.images[0];
                let irm = Map::<i64, i64>::empty().insert(img.id, nid);
                let crm = categories_pass(m1, Map::empty(), f2.categories_or_empty()).1;
                &&& nid != img.id
                &&& m.images == Seq::new(
                    f1.images.len(),
                    |i: int| resolved_image(f1.images[i], d1),
                ).push(ImageV { id: nid, ..resolved_image(img, d2) })
                &&& m.annotations == f1.annotations + Seq::new(
                    f2.annotations.len(),
                    |i: int| retargeted_annotation(f2.annotations[i], irm, crm),
                )
                &&& m.categories == f1.categories_or_empty() + f2.categories_or_empty()
                &&& m.licenses == f1.licenses_or_empty()
                &&& m.warnings == Seq::<crate::merge::WarningV>::empty()
            })
        }),
{
    let m0 = initial_model();
    assert(file_fresh_for(m0, f1));
    lemma_file_pass_fresh(m0, f1, p1, true);
    let m1 = file_pass(m0, f1, p1, true)->Ok_0;
    let d1 = crate::path::parent_dir_spec(p1);
    let d2 = crate::path::parent_dir_spec(p2);
    let fs = seq![f1, f2];
    // the budget of the whole run covers the first file alone
    assert(fs[0] == f1);
    assert(fs.drop_first() =~= seq![f2]);
    assert(seq![f2][0] == f2);
    assert(seq![f2].drop_first() =~= Seq::<FileV>::empty());
    crate::merge::lemma_anns_slots_nonneg(f1.annotations);
    crate::merge::lemma_anns_slots_nonneg(f2.annotations);
    let none = Seq::<FileV>::empty();
    assert(crate::merge::total_categories(none) == 0);
    assert(crate::merge::total_categories(seq![f2]) == f2.categories_or_empty().len());
    assert(crate::merge::total_categories(fs) == f1.categories_or_empty().len()
        + f2.categories_or_empty().len());
    assert(crate::merge::total_licenses(none) == 0);
    assert(crate::merge::total_licenses(seq![f2]) == f2.licenses_or_empty().len());
    assert(crate::merge::total_licenses(fs) == f1.licenses_or_empty().len()
        + f2.licenses_or_empty().len());
    assert(crate::merge::total_images(none) == 0);
    assert(crate::merge::total_images(seq![f2]) == f2.images.len());
    assert(crate::merge::total_images(fs) == f1.images.len() + f2.images.len());
    assert(crate::merge::total_ann_slots(none) == 0);
    assert(crate::merge::total_ann_slots(seq![f2]) == crate::merge::anns_slots(f2.annotations));
    assert(crate::merge::total_ann_slots(fs) == crate::merge::anns_slots(f1.annotations)
        + crate::merge::anns_slots(f2.annotations));
    assert(cats_wf(m0.categories, m0.category_ids, m0.next_category_id));
    assert(lics_wf(m0.licenses, m0.license_ids, m0.next_license_id));
    assert(imgs_wf(m0.images, m0.image_ids, m0.next_image_id));
    assert(anns_wf(m0.annotations, m0.annotation_ids, m0.next_annotation_id));
    assert(model_wf(m0));
    lemma_file_pass_wf(m0, f1, p1, true);
    crate::merge::lemma_file_pass_props(
        m0,
        f1,
        p1,
        true,
        i32::MAX - crate::merge::total_categories(fs),
        i32::MAX - crate::merge::total_licenses(fs),
        i64::MAX - crate::merge::total_images(fs),
        i64::MAX - crate::merge::total_ann_slots(fs),
    );
    assert(model_wf(m1));
    assert(m1.next_image_id <= i64::MAX - 1);
    let img = f2.images[0];
    assert(m1.image_ids.contains(img.id)) by {
        let j = choose|j: int| 0 <= j < f1.images.len() && (#[trigger] f1.images[j]).id == img.id;
    }
    assert((img.id as int) < m1.next_image_id);
    let nid = m1.next_image_id as i64;
    assert(nid != img.id);
    // the second file's categories go in fresh; its license list is empty
    let cs2 = f2.categories_or_empty();
    assert(cats_fresh_for(m1, cs2)) by {
        assert forall|i: int| 0 <= i < cs2.len() implies !m1.category_ids.contains(
            category_id_of(#[trigger] cs2[i]),
        ) by {
            if m1.category_ids.contains(category_id_of(cs2[i])) {
                assert(cat_id_in(f1.categories_or_empty(), category_id_of(cs2[i])));
                let j = choose|j: int|
                    0 <= j < f1.categories_or_empty().len() && category_id_of(
                        #[trigger] f1.categories_or_empty()[j],
                    ) == category_id_of(cs2[i]);
            }
        }
        assert forall|i: int, j: int|
            0 <= i < cs2.len() && 0 <= j
                < m1.categories.len() implies !crate::model::category_content_eq(
            #[trigger] m1.categories[j],
            #[trigger] cs2[i],
        ) by {
            assert(m1.categories[j] == f1.categories_or_empty()[j]);
        }
    }
    lemma_categories_pass_fresh(m1, Map::empty(), cs2);
    let (mc, crm) = categories_pass(m1, Map::empty(), cs2);
    assert(f2.licenses_or_empty() =~= Seq::<LicenseV>::empty());
    let (ml, lrm) = licenses_pass(mc, Map::empty(), f2.licenses_or_empty());
    assert(ml == mc);
    // the one image collides and is reassigned the next unseen id
    assert(mc.image_ids == m1.image_ids && mc.next_image_id == m1.next_image_id);
    let step = image_step(mc, Map::empty(), img, d2, p2, true, lrm);
    let (mi, irm) = step->Ok_0;
    assert(irm =~= Map::<i64, i64>::empty().insert(img.id, nid));
    assert(f2.images.drop_first() =~= Seq::<ImageV>::empty());
    assert(f2.images[0] == img);
    assert(images_pass(mi, irm, f2.images.drop_first(), d2, p2, true, lrm) == Ok::<
        (MergeModel, Map<i64, i64>),
        crate::merge::MergeErrorV,
    >((mi, irm)));
    assert(images_pass(mc, Map::empty(), f2.images, d2, p2, true, lrm) == Ok::<
        (MergeModel, Map<i64, i64>),
        crate::merge::MergeErrorV,
    >((mi, irm)));
    // the second file's annotations all survive, retargeted
    assert(anns_fresh_for(mi, f2.annotations, irm, crm)) by {
        assert(mi.annotation_ids == m1.annotation_ids);
        assert forall|i: int, id: i64|
            0 <= i < f2.annotations.len() && #[trigger] ann_uses(
                f2.annotations[i],
                id,
            ) implies !mi.annotation_ids.contains(id) by {
            if mi.annotation_ids.contains(id) {
                let j = choose|j: int|
                    0 <= j < f1.annotations.len() && ann_uses(#[trigger] f1.annotations[j], id);
                assert(!ann_uses(f2.annotations[i], id));
            }
        }
        assert forall|i: int| 0 <= i < f2.annotations.len() implies ann_refs_in_remaps(
            #[trigger] f2.annotations[i],
            irm,
            crm,
        ) by {
            let a = f2.annotations[i];
            assert(irm.contains_key(img.id));
            assert(ann_cat_refs_declared(a, cs2));
            match a {
                AnnotationV::PanopticSegmentation(x) => {
                    assert forall|t: int|
                        0 <= t < x.segments_info.len() implies crm.contains_key(
                        (#[trigger] x.segments_info[t]).category_id,
                    ) by {
                        let k = choose|k: int|
                            0 <= k < cs2.len() && category_id_of(#[trigger] cs2[k])
                                == x.segments_info[t].category_id;
                        assert(crm.contains_key(category_id_of(cs2[k])));
                    }
                },
                AnnotationV::ObjectDetection(x) => {
                    let k = choose|k: int|
                        0 <= k < cs2.len() && category_id_of(#[trigger] cs2[k])
                            == x.category_id;
                    assert(crm.contains_key(category_id_of(cs2[k])));
                },
                AnnotationV::KeypointDetection(x) => {
                    let k = choose|k: int|
                        0 <= k < cs2.len() && category_id_of(#[trigger] cs2[k])
                            == x.category_id;
                    assert(crm.contains_key(category_id_of(cs2[k])));
                },
                AnnotationV::DensePose(x) => {
                    let k = choose|k: int|
                        0 <= k < cs2.len() && category_id_of(#[trigger] cs2[k])
                            == x.category_id;
                    assert(crm.contains_key(category_id_of(cs2[k])));
                },
                AnnotationV::ImageCaptioning(_) => {},
            }
        }
    }
    lemma_annotations_pass_kept(mi, f2.annotations, irm, crm, p2);
    let m2 = annotations_pass(mi, f2.annotations, irm, crm, p2)->Ok_0;
    // stitch the two files into the top-level fold
    let ps = seq![p1, p2];
    assert(ps.drop_first() =~= seq![p2]);
    assert(seq![p2].drop_first() =~= Seq::<Seq<char>>::empty());
    assert(file_pass(m1, f2, p2, true) == Ok::<MergeModel, crate::merge::MergeErrorV>(m2));
    assert(merge_pass(m2, seq![f2].drop_first(), seq![p2].drop_first(), true) == Ok::<
        MergeModel,
        crate::merge::MergeErrorV,
    >(m2));
    assert(seq![p2][0] == p2);
    assert(merge_pass(m1, seq![f2], seq![p2], true) == Ok::<
        MergeModel,
        crate::merge::MergeErrorV,
    >(m2));
    assert(ps[0] == p1);
    assert(spec_merge(fs, ps, true) == Ok::<MergeModel, crate::merge::MergeErrorV>(m2));
    assert(m2.images =~= Seq::new(
        f1.images.len(),
        |i: int| resolved_image(f1.images[i], d1),
    ).push(ImageV { id: nid, ..resolved_image(img, d2) }));
    assert(m2.annotations =~= f1.annotations + Seq::new(
        f2.annotations.len(),
        |i: int| retargeted_annotation(f2.annotations[i], irm, crm),
    ));
    assert(m2.categories =~= f1.categories_or_empty() + cs2);
    assert(m2.licenses =~= f1.licenses_or_empty());
    assert(m2.warnings =~= Seq::<crate::merge::WarningV>::empty());
}

/// A category pass only ever writes remap keys taken from the ids of the
/// categories it processes.
proof fn lemma_categories_pass_dom(m: MergeModel, remap: Map<i32, i32>, cs: Seq<CategoryV>)
    ensures
        ({
            let (m2, r2) = categories_pass(m, remap, cs);
            forall|k: i32|
                #[trigger] r2.contains_key(k) ==> remap.contains_key(k) || cat_id_in(cs, k)
        }),
    decreases cs.len(),
{
    if cs.len() > 0 {
        let (m1, r1) = category_step(m, remap, cs[0]);
        lemma_categories_pass_dom(m1, r1, cs.drop_first());
        let (m2, r2) = categories_pass(m1, r1, cs.drop_first());
        assert forall|k: i32| #[trigger] r2.contains_key(k) implies remap.contains_key(k)
            || cat_id_in(cs, k) by {
            if !remap.contains_key(k) {
                if r1.contains_key(k) && !remap.contains_key(k) {
                    assert(k == category_id_of(cs[0]));
                    assert(cat_id_in(cs, k));
                } else if cat_id_in(cs.drop_first(), k) {
                    let i = choose|i: int|
                        0 <= i < cs.drop_first().len() && category_id_of(
                            #[trigger] cs.drop_first()[i],
                        ) == k;
                    assert(cs.drop_first()[i] == cs[i + 1]);
                    assert(cat_id_in(cs, k));
                }
            }
        }
    }
}

/// **A dangling category reference aborts the run.**  A file whose first
/// annotation references a category the file never declared — while the
/// file's categories, licenses and images are themselves consistent and
/// the annotation's image reference is declared — makes the merge abort
/// with the referential-integrity error naming the file, the annotation
/// and the offending category id, under either collision policy.
pub proof fn theorem_fatal_category_reference(f: FileV, path: Seq<char>, reassign: bool)
    requires
        forall|i: int, j: int|
            0 <= i < j < f.categories_or_empty().len() ==> category_id_of(
                #[trigger] f.categories_or_empty()[i],
            ) != category_id_of(#[trigger] f.categories_or_empty()[j])
                && !crate::model::category_content_eq(
                f.categories_or_empty()[i],
                f.categories_or_empty()[j],
            ),
        forall|i: int, j: int|
            0 <= i < j < f.licenses_or_empty().len() ==> (#[trigger] f.licenses_or_empty()[i]).id
                != (#[trigger] f.licenses_or_empty()[j]).id
                && !crate::model::license_content_eq(
                f.licenses_or_empty()[i],
                f.licenses_or_empty()[j],
            ),
        forall|i: int, j: int|
            0 <= i < j < f.images.len() ==> (#[trigger] f.images[i]).id != (
            #[trigger] f.images[j]).id,
        forall|i: int|
            0 <= i < f.images.len() ==> ((#[trigger] f.images[i]).license matches Some(l)
                ==> lic_id_in(f.licenses_or_empty(), l)),
        f.annotations.len() > 0,
        match f.annotations[0] {
            AnnotationV::ObjectDetection(x) => !cat_id_in(f.categories_or_empty(), x.category_id)
                && img_id_in(f.images, x.image_id),
            AnnotationV::KeypointDetection(x) => !cat_id_in(
                f.categories_or_empty(),
                x.category_id,
            ) && img_id_in(f.images, x.image_id),
            AnnotationV::DensePose(x) => !cat_id_in(f.categories_or_empty(), x.category_id)
                && img_id_in(f.images, x.image_id),
            _ => false,
        },
    ensures
        ({
            let (annotation_id, category_id): (i64, i32) = match f.annotations[0] {
                AnnotationV::ObjectDetection(x) => (x.id, x.category_id),
                AnnotationV::KeypointDetection(x) => (x.id, x.category_id),
                AnnotationV::DensePose(x) => (x.id, x.category_id),
                _ => (0, 0),
            };
            spec_merge(seq![f], seq![path], reassign) == Err::<
                MergeModel,
                crate::merge::MergeErrorV,
            >(
                crate::merge::MergeErrorV::MissingCategoryForAnnotation {
                    file: path,
                    annotation_id: annotation_id,
                    category_id: category_id,
                },
            )
        }),
{
    let m0 = initial_model();
    let cs = f.categories_or_empty();
    let ls = f.licenses_or_empty();
    let dir = crate::path::parent_dir_spec(path);
    assert(cats_fresh_for(m0, cs));
    lemma_categories_pass_fresh(m0, Map::empty(), cs);
    lemma_categories_pass_dom(m0, Map::empty(), cs);
    let (m1, crm) = categories_pass(m0, Map::empty(), cs);
    assert(lics_fresh_for(m1, ls));
    lemma_licenses_pass_fresh(m1, Map::empty(), ls);
    let (m2, lrm) = licenses_pass(m1, Map::empty(), ls);
    assert(imgs_fresh_for(m2, f.images, lrm)) by {
        assert forall|i: int|
            0 <= i < f.images.len() implies ((#[trigger] f.images[i]).license matches Some(l)
            ==> lrm.contains_key(l)) by {
            match f.images[i].license {
                Some(l) => {
                    let j = choose|j: int| 0 <= j < ls.len() && (#[trigger] ls[j]).id == l;
                    assert(lrm.contains_key(ls[j].id));
                },
                None => {},
            }
        }
    }
    lemma_images_pass_kept(m2, Map::empty(), f.images, dir, path, reassign, lrm);
    let (m3, irm) = images_pass(m2, Map::empty(), f.images, dir, path, reassign, lrm)->Ok_0;
    // the first annotation's image resolves, its category does not
    let a = f.annotations[0];
    let (image_id, category_id): (i64, i32) = match a {
        AnnotationV::ObjectDetection(x) => (x.image_id, x.category_id),
        AnnotationV::KeypointDetection(x) => (x.image_id, x.category_id),
        AnnotationV::DensePose(x) => (x.image_id, x.category_id),
        _ => (0, 0),
    };
    assert(irm.contains_key(image_id)) by {
        let j = choose|j: int| 0 <= j < f.images.len() && (#[trigger] f.images[j]).id == image_id;
    }
    assert(!crm.contains_key(category_id));
    let e = annotation_step(m3, a, irm, crm, path)->Err_0;
    assert(annotations_pass(m3, f.annotations, irm, crm, path) == Err::<MergeModel, _>(e));
    assert(file_pass(m0, f, path, reassign) == Err::<MergeModel, _>(e));
    assert(seq![f][0] == f && seq![path][0] == path);
    assert(spec_merge(seq![f], seq![path], reassign) == Err::<MergeModel, _>(e));
}

/// **Annotation ids and panoptic segment ids share one namespace.**
/// When the first file owns an ordinary annotation id and the second
/// file's panoptic annotation carries a single segment with the very
/// same numeric id — everything else disjoint — the merged output keeps
/// the first file's annotation under that id and reassigns the segment
/// to the next unseen id of the shared namespace, which differs from it;
/// both annotations still reference their own images.
pub proof fn theorem_shared_segment_namespace(
    f1: FileV,
    f2: FileV,
    p1: Seq<char>,
    p2: Seq<char>,
    reassign: bool,
    shared_id: i64,
)
    requires
        merge_input_bounded(seq![f1, f2]),
        file_self_consistent(f1),
        // the first file owns the shared id through some annotation
        exists|j: int|
            0 <= j < f1.annotations.len() && ann_uses(#[trigger] f1.annotations[j], shared_id),
        // the second file: one fresh image, one fresh category, and one
        // panoptic annotation holding a single segment with the shared id
        f2.images.len() == 1,
        !img_id_in(f1.images, f2.images[0].id),
        f2.images[0].license is None,
        f2.licenses_or_empty().len() == 0,
        f2.categories_or_empty().len() == 1,
        forall|i: int|
            0 <= i < f1.categories_or_empty().len() ==> category_id_of(
                #[trigger] f1.categories_or_empty()[i],
            ) != category_id_of(f2.categories_or_empty()[0])
                && !crate::model::category_content_eq(
                f1.categories_or_empty()[i],
                f2.categories_or_empty()[0],
            ),
        f2.annotations.len() == 1,
        f2.annotations[0] matches AnnotationV::PanopticSegmentation(x) && {
            &&& x.image_id == f2.images[0].id
            &&& x.segments_info.len() == 1
            &&& x.segments_info[0].id == shared_id
            &&& x.segments_info[0].category_id == category_id_of(f2.categories_or_empty()[0])
        },
    ensures
        ({
            let r = spec_merge(seq![f1, f2], seq![p1, p2], reassign);
            &&& r is Ok
            &&& ({
                let m = r->Ok_0;
                let n1 = f1.annotations.len() as int;
                &&& m.annotations.len() == n1 + 1
                // the first file's annotations, the shared id included,
                // are kept unchanged
                &&& forall|j: int| 0 <= j < n1 ==> m.annotations[j] == f1.annotations[j]
                // the segment was reassigned a fresh id of the shared
                // namespace, different from the shared one
                &&& m.annotations[n1] matches AnnotationV::PanopticSegmentation(y) && {
                    &&& y.image_id == f2.images[0].id
                    &&& y.segments_info.len() == 1
                    &&& y.segments_info[0].id != shared_id
                    &&& !ann_uses_any(f1.annotations, y.segments_info[0].id)
                }
            })
        }),
{
    let m0 = initial_model();
    assert(file_fresh_for(m0, f1));
    lemma_file_pass_fresh(m0, f1, p1, reassign);
    let m1 = file_pass(m0, f1, p1, reassign)->Ok_0;
    let d2 = crate::path::parent_dir_spec(p2);
    let fs = seq![f1, f2];
    assert(fs[0] == f1);
    assert(fs.drop_first() =~= seq![f2]);
    assert(seq![f2][0] == f2);
    assert(seq![f2].drop_first() =~= Seq::<FileV>::empty());
    // budget facts, so that the fresh id of the shared namespace fits
    crate::merge::lemma_anns_slots_nonneg(f1.annotations);
    crate::merge::lemma_anns_slots_nonneg(f2.annotations);
    let none = Seq::<FileV>::empty();
    assert(crate::merge::total_categories(none) == 0);
    assert(crate::merge::total_categories(seq![f2]) == f2.categories_or_empty().len());
    assert(crate::merge::total_categories(fs) == f1.categories_or_empty().len()
        + f2.categories_or_empty().len());
    assert(crate::merge::total_licenses(none) == 0);
    assert(crate::merge::total_licenses(seq![f2]) == f2.licenses_or_empty().len());
    assert(crate::merge::total_licenses(fs) == f1.licenses_or_empty().len()
        + f2.licenses_or_empty().len());
    assert(crate::merge::total_images(none) == 0);
    assert(crate::merge::total_images(seq![f2]) == f2.images.len());
    assert(crate::merge::total_images(fs) == f1.images.len() + f2.images.len());
    assert(crate::merge::total_ann_slots(none) == 0);
    assert(crate::merge::total_ann_slots(seq![f2]) == crate::merge::anns_slots(f2.annotations));
    assert(crate::merge::total_ann_slots(fs) == crate::merge::anns_slots(f1.annotations)
        + crate::merge::anns_slots(f2.annotations));
    assert(crate::merge::anns_slots(f2.annotations) == 1) by {
        assert(f2.annotations.drop_first() =~= Seq::<AnnotationV>::empty());
        assert(crate::merge::anns_slots(f2.annotations.drop_first()) == 0);
    }
    assert(model_wf(m0)) by {
        assert(cats_wf(m0.categories, m0.category_ids, m0.next_category_id));
        assert(lics_wf(m0.licenses, m0.license_ids, m0.next_license_id));
        assert(imgs_wf(m0.images, m0.image_ids, m0.next_image_id));
        assert(anns_wf(m0.annotations, m0.annotation_ids, m0.next_annotation_id));
    }
    lemma_file_pass_wf(m0, f1, p1, reassign);
    crate::merge::lemma_file_pass_props(
        m0,
        f1,
        p1,
        reassign,
        i32::MAX - crate::merge::total_categories(fs),
        i32::MAX - crate::merge::total_licenses(fs),
        i64::MAX - crate::merge::total_images(fs),
        i64::MAX - crate::merge::total_ann_slots(fs),
    );
    assert(model_wf(m1));
    assert(m1.next_annotation_id <= i64::MAX - 1);
    // the shared id is registered in the namespace after the first file
    assert(m1.annotation_ids.contains(shared_id)) by {
        let j = choose|j: int|
            0 <= j < f1.annotations.len() && ann_uses(#[trigger] f1.annotations[j], shared_id);
    }
    assert((shared_id as int) < m1.next_annotation_id);
    // second file: fresh category, empty licenses, fresh image
    let cs2 = f2.categories_or_empty();
    assert(cats_fresh_for(m1, cs2)) by {
        assert forall|i: int| 0 <= i < cs2.len() implies !m1.category_ids.contains(
            category_id_of(#[trigger] cs2[i]),
        ) by {
            assert(cs2[i] == cs2[0]);
            if m1.category_ids.contains(category_id_of(cs2[0])) {
                assert(cat_id_in(f1.categories_or_empty(), category_id_of(cs2[0])));
                let j = choose|j: int|
                    0 <= j < f1.categories_or_empty().len() && category_id_of(
                        #[trigger] f1.categories_or_empty()[j],
                    ) == category_id_of(cs2[0]);
            }
        }
        assert forall|i: int, j: int|
            0 <= i < cs2.len() && 0 <= j
                < m1.categories.len() implies !crate::model::category_content_eq(
            #[trigger] m1.categories[j],
            #[trigger] cs2[i],
        ) by {
            assert(cs2[i] == cs2[0]);
            assert(m1.categories[j] == f1.categories_or_empty()[j]);
        }
    }
    lemma_categories_pass_fresh(m1, Map::empty(), cs2);
    let (mc, crm) = categories_pass(m1, Map::empty(), cs2);
    assert(f2.licenses_or_empty() =~= Seq::<LicenseV>::empty());
    let (ml, lrm) = licenses_pass(mc, Map::empty(), f2.licenses_or_empty());
    assert(ml == mc);
    let img = f2.images[0];
    assert(imgs_fresh_for(ml, f2.images, lrm)) by {
        assert forall|i: int| 0 <= i < f2.images.len() implies !ml.image_ids.contains(
            (#[trigger] f2.images[i]).id,
        ) by {
            assert(f2.images[i] == img);
            if ml.image_ids.contains(img.id) {
                assert(img_id_in(f1.images, img.id));
            }
        }
    }
    lemma_images_pass_kept(ml, Map::empty(), f2.images, d2, p2, reassign, lrm);
    let (mi, irm) = images_pass(ml, Map::empty(), f2.images, d2, p2, reassign, lrm)->Ok_0;
    assert(irm.contains_key(img.id) && irm[img.id] == img.id);
    // the one panoptic annotation: its segment id collides and is
    // reassigned the next unseen id of the shared namespace
    let a = f2.annotations[0];
    let x = a->PanopticSegmentation_0;
    let seg = x.segments_info[0];
    assert(crm.contains_key(seg.category_id)) by {
        assert(crm.contains_key(category_id_of(cs2[0])));
    }
    assert(mi.annotation_ids == m1.annotation_ids);
    assert(mi.next_annotation_id == m1.next_annotation_id);
    assert(mi.annotation_ids.contains(seg.id));
    let (ms1, nid) = ann_id_resolve(mi, seg.id);
    assert(nid == mi.next_annotation_id as i64);
    assert(nid != shared_id);
    assert(x.segments_info.drop_first() =~= Seq::<PanopticSegmentInfoV>::empty());
    assert(segments_pass(ms1, x.segments_info.drop_first(), crm, p2) == Ok::<
        (MergeModel, Seq<PanopticSegmentInfoV>),
        crate::merge::MergeErrorV,
    >((ms1, Seq::empty())));
    assert(x.segments_info[0] == seg);
    let nseg = PanopticSegmentInfoV { id: nid, category_id: crm[seg.category_id], ..seg };
    assert(segments_pass(mi, x.segments_info, crm, p2) == Ok::<
        (MergeModel, Seq<PanopticSegmentInfoV>),
        crate::merge::MergeErrorV,
    >((ms1, seq![nseg] + Seq::empty())));
    let m2 = annotation_step(mi, a, irm, crm, p2)->Ok_0;
    assert(f2.annotations.drop_first() =~= Seq::<AnnotationV>::empty());
    assert(annotations_pass(m2, f2.annotations.drop_first(), irm, crm, p2) == Ok::<
        MergeModel,
        crate::merge::MergeErrorV,
    >(m2));
    assert(f2.annotations[0] == a);
    assert(annotations_pass(mi, f2.annotations, irm, crm, p2) == Ok::<
        MergeModel,
        crate::merge::MergeErrorV,
    >(m2));
    // stitch the two files into the top-level fold
    let ps = seq![p1, p2];
    assert(ps.drop_first() =~= seq![p2]);
    assert(seq![p2].drop_first() =~= Seq::<Seq<char>>::empty());
    assert(file_pass(m1, f2, p2, reassign) == Ok::<MergeModel, crate::merge::MergeErrorV>(m2));
    assert(merge_pass(m2, seq![f2].drop_first(), seq![p2].drop_first(), reassign) == Ok::<
        MergeModel,
        crate::merge::MergeErrorV,
    >(m2));
    assert(seq![p2][0] == p2);
    assert(merge_pass(m1, seq![f2], seq![p2], reassign) == Ok::<
        MergeModel,
        crate::merge::MergeErrorV,
    >(m2));
    assert(ps[0] == p1);
    assert(spec_merge(fs, ps, reassign) == Ok::<MergeModel, crate::merge::MergeErrorV>(m2));
    // read off the conclusion
    let n1 = f1.annotations.len() as int;
    assert(m2.annotations.len() == n1 + 1);
    assert(forall|j: int| 0 <= j < n1 ==> m2.annotations[j] == f1.annotations[j]);
    let y = m2.annotations[n1]->PanopticSegmentation_0;
    assert(y.segments_info == seq![nseg] + Seq::<PanopticSegmentInfoV>::empty());
    assert(y.segments_info[0] == nseg);
    assert(y.segments_info.len() == 1);
    assert(!ann_uses_any(f1.annotations, nid)) by {
        if ann_uses_any(f1.annotations, nid) {
            let j = choose|j: int|
                0 <= j < f1.annotations.len() && ann_uses(#[trigger] f1.annotations[j], nid);
            assert(m1.annotation_ids.contains(nid));
        }
    }
}

/// Whether any annotation of `anns` owns `id` in the shared namespace.
pub open spec fn ann_uses_any(anns: Seq<AnnotationV>, id: i64) -> bool {
    exists|j: int| 0 <= j < anns.len() && ann_uses(#[trigger] anns[j], id)
}

} // verus!\n