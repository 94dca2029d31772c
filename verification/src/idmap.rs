//! Indexing a dataset file by image id.
//!
//! [`CocoFile::make_image_id_map`] groups a file's annotations under the
//! image they refer to: one entry per distinct image id, carrying the
//! image (the last record when an id is repeated) and every annotation
//! referencing that id, in file order.

use vstd::prelude::*;

use crate::model::{
    annotation_image_id, AnnotationV, CocoAnnotation, CocoFile, CocoImage, FileV, ImageV,
};

verus! {

/// Mathematical view of an [`IDMapEntry`].
#[verifier::ext_equal]
pub ghost struct IDMapEntryV {
    pub id: i64,
    pub image: ImageV,
    pub annotations: Seq<AnnotationV>,
}

/// One entry of an image id map: an image id, the image record carrying
/// it, and the annotations that refer to it, in file order.
#[derive(Debug)]
pub struct IDMapEntry {
    /// The image id.
    pub id: i64,
    /// The image record with that id; the last one in file order when
    /// the file repeats the id.
    pub image: CocoImage,
    /// Every annotation referring to that id, in file order.
    pub annotations: Vec<CocoAnnotation>,
}

impl View for IDMapEntry {
    type V = IDMapEntryV;

    open spec fn view(&self) -> IDMapEntryV {
        IDMapEntryV {
            id: self.id,
            image: self.image@,
            annotations: self.annotations.deep_view(),
        }
    }
}

impl DeepView for IDMapEntry {
    type V = IDMapEntryV;

    open spec fn deep_view(&self) -> IDMapEntryV {
        self.view()
    }
}

/// The first index whose pair carries `id`, or `-1`.
pub open spec fn pair_find(pairs: Seq<(i64, ImageV)>, id: i64) -> int
    decreases pairs.len(),
{
    if pairs.len() == 0 {
        -1
    } else if pairs[0].0 == id {
        0
    } else {
        let r = pair_find(pairs.drop_first(), id);
        if r == -1 {
            -1
        } else {
            r + 1
        }
    }
}

/// Folds images into id/image pairs: a repeated id replaces the image
/// held under it, a new id is appended.
pub open spec fn id_map_images(done: Seq<(i64, ImageV)>, imgs: Seq<ImageV>) -> Seq<(i64, ImageV)>
    decreases imgs.len(),
{
    if imgs.len() == 0 {
        done
    } else {
        let img = imgs[0];
        let j = pair_find(done, img.id);
        id_map_images(
            if j >= 0 {
                done.update(j, (img.id, img))
            } else {
                done.push((img.id, img))
            },
            imgs.drop_first(),
        )
    }
}

/// Folds annotations, keeping those that refer to image `id`, in order.
pub open spec fn annotations_for(
    acc: Seq<AnnotationV>,
    anns: Seq<AnnotationV>,
    id: i64,
) -> Seq<AnnotationV>
    decreases anns.len(),
{
    if anns.len() == 0 {
        acc
    } else {
        annotations_for(
            if annotation_image_id(anns[0]) == id {
                acc.push(anns[0])
            } else {
                acc
            },
            anns.drop_first(),
            id,
        )
    }
}

/// What [`CocoFile::make_image_id_map`] returns: one entry per distinct
/// image id, in first-occurrence order, each carrying the last image
/// record with that id and the annotations referring to it.
pub open spec fn spec_image_id_map(f: FileV) -> Seq<IDMapEntryV> {
    let pairs = id_map_images(Seq::empty(), f.images);
    Seq::new(
        pairs.len(),
        |k: int|
            IDMapEntryV {
                id: pairs[k].0,
                image: pairs[k].1,
                annotations: annotations_for(Seq::empty(), f.annotations, pairs[k].0),
            },
    )
}

/// Everything [`pair_find`] promises about its result.
proof fn lemma_pair_find_props(pairs: Seq<(i64, ImageV)>, id: i64)
    ensures
        ({
            let r = pair_find(pairs, id);
            &&& -1 <= r < pairs.len()
            &&& r >= 0 ==> pairs[r].0 == id && forall|k: int|
                0 <= k < r ==> (#[trigger] pairs[k]).0 != id
            &&& r == -1 ==> forall|k: int| 0 <= k < pairs.len() ==> (#[trigger] pairs[k]).0 != id
        }),
    decreases pairs.len(),
{
    if pairs.len() > 0 && pairs[0].0 != id {
        lemma_pair_find_props(pairs.drop_first(), id);
        let rest = pairs.drop_first();
        assert forall|k: int| 1 <= k < pairs.len() implies #[trigger] pairs[k] == rest[k
            - 1] by {}
    }
}

/// An image id map over a dataset file, per [`spec_image_id_map`].
#[derive(Debug)]
pub struct ImageIdMap {
    /// The entries, one per distinct image id, in first-occurrence order.
    pub entries: Vec<IDMapEntry>,
}

impl View for ImageIdMap {
    type V = Seq<IDMapEntryV>;

    open spec fn view(&self) -> Seq<IDMapEntryV> {
        self.entries.deep_view()
    }
}

impl ImageIdMap {
    /// How many distinct image ids the file declared.
    pub fn len(&self) -> (r: usize)
        ensures
            r == self@.len(),
    {
        self.entries.len()
    }

    /// The entry for image id `id`, if the file declared that id.
    pub fn get(&self, id: i64) -> (r: Option<&IDMapEntry>)
        ensures
            match r {
                Some(e) => exists|k: int| 0 <= k < self@.len() && #[trigger] self@[k] == e@
                    && e@.id == id,
                None => forall|k: int| 0 <= k < self@.len() ==> (#[trigger] self@[k]).id != id,
            },
    {
        let n = self.entries.len();
        let mut k: usize = 0;
        while k < n
            invariant
                k <= n,
                n == self.entries@.len(),
                forall|t: int| 0 <= t < k ==> (#[trigger] self@[t]).id != id,
            decreases n - k,
        {
            if self.entries[k].id == id {
                assert(self@[k as int] == self.entries@[k as int]@);
                return Some(&self.entries[k]);
            }
            k += 1;
        }
        None
    }
}

/// The first index in `ids` holding `id`, tied to [`pair_find`] over the
/// aligned pair sequence.
fn find_id_index(ids: &Vec<i64>, id: i64, Ghost(pairs): Ghost<Seq<(i64, ImageV)>>) -> (r: Option<
    usize,
>)
    requires
        pairs.len() == ids@.len(),
        forall|k: int| 0 <= k < pairs.len() ==> (#[trigger] pairs[k]).0 == ids@[k],
    ensures
        ({
            let f = pair_find(pairs, id);
            match r {
                Some(j) => f == j && j < ids@.len(),
                None => f == -1,
            }
        }),
{
    proof {
        lemma_pair_find_props(pairs, id);
    }
    let n = ids.len();
    let mut j: usize = 0;
    while j < n
        invariant
            j <= n,
            n == ids@.len(),
            pairs.len() == ids@.len(),
            forall|k: int| 0 <= k < pairs.len() ==> (#[trigger] pairs[k]).0 == ids@[k],
            forall|k: int| 0 <= k < j ==> (#[trigger] pairs[k]).0 != id,
        decreases n - j,
    {
        if ids[j] == id {
            proof {
                assert(pairs[j as int].0 == id);
                lemma_pair_find_props(pairs, id);
            }
            return Some(j);
        }
        j += 1;
    }
    proof {
        lemma_pair_find_props(pairs, id);
    }
    None
}

impl CocoFile {
    /// Groups this file's annotations by the image they refer to: one
    /// entry per distinct image id, per [`spec_image_id_map`].
    pub fn make_image_id_map(&self) -> (r: ImageIdMap)
        ensures
            r@ == spec_image_id_map(self@),
    {
        let ghost all_pairs = id_map_images(Seq::empty(), self@.images);
        let mut ids: Vec<i64> = Vec::new();
        let mut imgs_out: Vec<CocoImage> = Vec::new();
        let n = self.images.len();
        let mut i: usize = 0;
        proof {
            assert(self@.images.skip(0) =~= self@.images);
            assert(Seq::new(ids@.len(), |k: int| (ids@[k], imgs_out.deep_view()[k])) =~= Seq::<
                (i64, ImageV),
            >::empty());
        }
        while i < n
            invariant
                i <= n,
                n == self.images@.len(),
                ids@.len() == imgs_out@.len(),
                all_pairs == id_map_images(
                    Seq::new(ids@.len(), |k: int| (ids@[k], imgs_out.deep_view()[k])),
                    self@.images.skip(i as int),
                ),
            decreases n - i,
        {
            let ghost pairs = Seq::new(ids@.len(), |k: int| (ids@[k], imgs_out.deep_view()[k]));
            let ghost rest = self@.images.skip(i as int);
            proof {
                assert(rest[0] == self@.images[i as int]);
                assert(rest.drop_first() =~= self@.images.skip(i as int + 1));
            }
            let img = self.images[i].clone();
            let ghost imgv = self@.images[i as int];
            match find_id_index(&ids, img.id, Ghost(pairs)) {
                Some(j) => {
                    proof {
                        lemma_pair_find_props(pairs, img.id);
                        assert(pairs[j as int].0 == img.id);
                    }
                    imgs_out.set(j, img);
                    proof {
                        assert(Seq::new(
                            ids@.len(),
                            |k: int| (ids@[k], imgs_out.deep_view()[k]),
                        ) =~= pairs.update(j as int, (imgv.id, imgv)));
                    }
                },
                None => {
                    ids.push(img.id);
                    imgs_out.push(img);
                    proof {
                        assert(Seq::new(
                            ids@.len(),
                            |k: int| (ids@[k], imgs_out.deep_view()[k]),
                        ) =~= pairs.push((imgv.id, imgv)));
                    }
                },
            }
            i += 1;
        }
        proof {
            assert(self@.images.skip(n as int) =~= Seq::<ImageV>::empty());
            assert(all_pairs == Seq::new(
                ids@.len(),
                |k: int| (ids@[k], imgs_out.deep_view()[k]),
            ));
        }
        // second pass: collect each id's annotations
        let mut entries: Vec<IDMapEntry> = Vec::new();
        let total = ids.len();
        let mut k: usize = 0;
        proof {
            assert(entries.deep_view() =~= Seq::<IDMapEntryV>::empty());
        }
        while k < total
            invariant
                k <= total,
                total == ids@.len() == imgs_out@.len(),
                all_pairs == id_map_images(Seq::empty(), self@.images),
                all_pairs == Seq::new(ids@.len(), |t: int| (ids@[t], imgs_out.deep_view()[t])),
                entries.deep_view() =~= spec_image_id_map(self@).take(k as int),
            decreases total - k,
        {
            let id = ids[k];
            let mut collected: Vec<CocoAnnotation> = Vec::new();
            let na = self.annotations.len();
            let mut t: usize = 0;
            proof {
                assert(self@.annotations.skip(0) =~= self@.annotations);
                assert(collected.deep_view() =~= Seq::<AnnotationV>::empty());
            }
            while t < na
                invariant
                    t <= na,
                    na == self.annotations@.len(),
                    annotations_for(Seq::empty(), self@.annotations, id) == annotations_for(
                        collected.deep_view(),
                        self@.annotations.skip(t as int),
                        id,
                    ),
                decreases na - t,
            {
                let ghost arest = self@.annotations.skip(t as int);
                proof {
                    assert(arest[0] == self@.annotations[t as int]);
                    assert(arest.drop_first() =~= self@.annotations.skip(t as int + 1));
                }
                if self.annotations[t].image_id() == id {
                    let ghost prev = collected.deep_view();
                    collected.push(self.annotations[t].clone());
                    proof {
                        assert(collected.deep_view() =~= prev.push(
                            self@.annotations[t as int],
                        ));
                    }
                }
                t += 1;
            }
            proof {
                assert(self@.annotations.skip(na as int) =~= Seq::<AnnotationV>::empty());
            }
            let ghost prev_entries = entries.deep_view();
            proof {
                assert(spec_image_id_map(self@).len() == total);
                assert(all_pairs[k as int] == (ids@[k as int], imgs_out.deep_view()[k as int]));
            }
            let entry = IDMapEntry { id, image: imgs_out[k].clone(), annotations: collected };
            proof {
                assert(annotations_for(
                    collected.deep_view(),
                    self@.annotations.skip(na as int),
                    id,
                ) == collected.deep_view());
                assert(entry@ =~= spec_image_id_map(self@)[k as int]);
            }
            entries.push(entry);
            proof {
                assert(entries.deep_view() =~= prev_entries.push(
                    spec_image_id_map(self@)[k as int],
                ));
                assert(spec_image_id_map(self@).take(k as int).push(
                    spec_image_id_map(self@)[k as int],
                ) =~= spec_image_id_map(self@).take(k as int + 1));
            }
            k += 1;
        }
        proof {
            assert(spec_image_id_map(self@).take(total as int) =~= spec_image_id_map(self@));
            assert(entries.deep_view() =~= spec_image_id_map(self@));
        }
        ImageIdMap { entries }
    }
}

} // verus!
