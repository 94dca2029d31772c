//! The COCO data model: images, annotations, categories, licenses and the
//! dataset description file that holds them.
//!
//! Every type has a mathematical view (`@`) over which all contracts are
//! stated: strings become `Seq<char>`, vectors become `Seq`, and the payload
//! fields that the merge never inspects are carried through unchanged.
//! Floating-point payload values (areas, boxes, keypoint coordinates) are
//! stored as their IEEE-754 bit patterns in unsigned integers, so that the
//! reconciliation logic stays within the machine-integer world; callers
//! convert with `f32::to_bits` / `f32::from_bits`.

use vstd::prelude::*;

verus! {

/// A bounding box `[x, y, width, height]`; each field is the bit pattern of
/// an `f32` coordinate.
#[derive(Clone, Copy, PartialEq, Eq, Structural, Debug)]
pub struct BBox {
    pub x: u32,
    pub y: u32,
    pub w: u32,
    pub h: u32,
}

/// An RGB color triple, used by panoptic-segmentation categories.
#[derive(Clone, Copy, PartialEq, Eq, Structural, Debug)]
pub struct Color {
    pub r: u8,
    pub g: u8,
    pub b: u8,
}

/// One edge of a keypoint skeleton, joining two keypoint indices.
#[derive(Clone, Copy, PartialEq, Eq, Structural, Debug)]
pub struct SkeletonEdge {
    pub a: u32,
    pub b: u32,
}

/// Anything carrying a numeric identifier in some namespace.
pub trait HasID<T>: Sized {
    /// The identifier.
    spec fn spec_id(&self) -> T;

    /// The same value with the identifier replaced by `new_id`.
    spec fn spec_set_id(&self, new_id: T) -> Self;

    fn id(&self) -> (r: T)
        ensures
            r == self.spec_id(),
    ;

    fn set_id(&mut self, new_id: T)
        ensures
            *final(self) == old(self).spec_set_id(new_id),
    ;
}

/// Anything referring to a category by id.
pub trait HasCategoryID: Sized {
    /// The category reference.
    spec fn spec_category_id(&self) -> i32;

    /// The same value with the category reference replaced.
    spec fn spec_set_category_id(&self, new_category_id: i32) -> Self;

    fn category_id(&self) -> (r: i32)
        ensures
            r == self.spec_category_id(),
    ;

    fn set_category_id(&mut self, new_category_id: i32)
        ensures
            *final(self) == old(self).spec_set_category_id(new_category_id),
    ;
}

// License ///////////////////////////////////

/// Mathematical view of a [`CocoLicense`].
#[verifier::ext_equal]
pub ghost struct LicenseV {
    pub id: i32,
    pub name: Seq<char>,
    pub url: Seq<char>,
}

/// A license entry; two licenses are the same license when their name and
/// url agree, whatever their ids.
#[derive(Debug)]
pub struct CocoLicense {
    pub id: i32,
    pub name: String,
    pub url: String,
}

impl View for CocoLicense {
    type V = LicenseV;

    open spec fn view(&self) -> LicenseV {
        LicenseV { id: self.id, name: self.name@, url: self.url@ }
    }
}

impl DeepView for CocoLicense {
    type V = LicenseV;

    open spec fn deep_view(&self) -> LicenseV {
        self.view()
    }
}

/// Structural license equality: the id is ignored.
pub open spec fn license_content_eq(a: LicenseV, b: LicenseV) -> bool {
    a.name == b.name && a.url == b.url
}

impl Clone for CocoLicense {
    fn clone(&self) -> (res: Self)
        ensures
            res@ == self@,
    {
        CocoLicense { id: self.id, name: self.name.clone(), url: self.url.clone() }
    }
}

impl PartialEq for CocoLicense {
    fn eq(&self, other: &Self) -> (r: bool) {
        self.name == other.name && self.url == other.url
    }
}

impl vstd::std_specs::cmp::PartialEqSpecImpl for CocoLicense {
    open spec fn obeys_eq_spec() -> bool {
        true
    }

    open spec fn eq_spec(&self, other: &Self) -> bool {
        license_content_eq(self@, other@)
    }
}

impl HasID<i32> for CocoLicense {
    open spec fn spec_id(&self) -> i32 {
        self.id
    }

    open spec fn spec_set_id(&self, new_id: i32) -> Self {
        CocoLicense { id: new_id, name: self.name, url: self.url }
    }

    fn id(&self) -> i32 {
        self.id
    }

    fn set_id(&mut self, new_id: i32) {
        self.id = new_id;
    }
}

// Categories ///////////////////////////////////

/// Mathematical view of a [`CocoObjectDetectionCategory`].
#[verifier::ext_equal]
pub ghost struct ObjectDetectionCategoryV {
    pub id: i32,
    pub name: Seq<char>,
    pub supercategory: Seq<char>,
}

/// An object-detection category (also used by dense-pose annotations);
/// structurally equal to another when name and supercategory agree.
#[derive(Debug)]
pub struct CocoObjectDetectionCategory {
    pub id: i32,
    pub name: String,
    pub supercategory: String,
}

impl View for CocoObjectDetectionCategory {
    type V = ObjectDetectionCategoryV;

    open spec fn view(&self) -> ObjectDetectionCategoryV {
        ObjectDetectionCategoryV {
            id: self.id,
            name: self.name@,
            supercategory: self.supercategory@,
        }
    }
}

impl DeepView for CocoObjectDetectionCategory {
    type V = ObjectDetectionCategoryV;

    open spec fn deep_view(&self) -> ObjectDetectionCategoryV {
        self.view()
    }
}

impl Clone for CocoObjectDetectionCategory {
    fn clone(&self) -> (res: Self)
        ensures
            res@ == self@,
    {
        CocoObjectDetectionCategory {
            id: self.id,
            name: self.name.clone(),
            supercategory: self.supercategory.clone(),
        }
    }
}

impl PartialEq for CocoObjectDetectionCategory {
    fn eq(&self, other: &Self) -> (r: bool) {
        self.supercategory == other.supercategory && self.name == other.name
    }
}

impl vstd::std_specs::cmp::PartialEqSpecImpl for CocoObjectDetectionCategory {
    open spec fn obeys_eq_spec() -> bool {
        true
    }

    open spec fn eq_spec(&self, other: &Self) -> bool {
        self@.name == other@.name && self@.supercategory == other@.supercategory
    }
}

impl HasID<i32> for CocoObjectDetectionCategory {
    open spec fn spec_id(&self) -> i32 {
        self.id
    }

    open spec fn spec_set_id(&self, new_id: i32) -> Self {
        CocoObjectDetectionCategory {
            id: new_id,
            name: self.name,
            supercategory: self.supercategory,
        }
    }

    fn id(&self) -> i32 {
        self.id
    }

    fn set_id(&mut self, new_id: i32) {
        self.id = new_id;
    }
}

/// Mathematical view of a [`CocoKeypointDetectionCategory`].
#[verifier::ext_equal]
pub ghost struct KeypointDetectionCategoryV {
    pub id: i32,
    pub name: Seq<char>,
    pub supercategory: Seq<char>,
    pub keypoints: Seq<Seq<char>>,
    pub skeleton: Seq<SkeletonEdge>,
}

/// A keypoint-detection category; structurally equal to another when name,
/// supercategory, the keypoint-name sequence and the skeleton-edge sequence
/// all agree (order matters).
#[derive(Debug)]
pub struct CocoKeypointDetectionCategory {
    pub id: i32,
    pub name: String,
    pub supercategory: String,
    pub keypoints: Vec<String>,
    pub skeleton: Vec<SkeletonEdge>,
}

impl View for CocoKeypointDetectionCategory {
    type V = KeypointDetectionCategoryV;

    open spec fn view(&self) -> KeypointDetectionCategoryV {
        KeypointDetectionCategoryV {
            id: self.id,
            name: self.name@,
            supercategory: self.supercategory@,
            keypoints: self.keypoints.deep_view(),
            skeleton: self.skeleton@,
        }
    }
}

impl DeepView for CocoKeypointDetectionCategory {
    type V = KeypointDetectionCategoryV;

    open spec fn deep_view(&self) -> KeypointDetectionCategoryV {
        self.view()
    }
}

/// Compares two string vectors by contents.
fn vec_string_eq(a: &Vec<String>, b: &Vec<String>) -> (r: bool)
    ensures
        r == (a.deep_view() == b.deep_view()),
{
    if a.len() != b.len() {
        assert(a.deep_view().len() != b.deep_view().len());
        return false;
    }
    let n = a.len();
    let mut i: usize = 0;
    while i < n
        invariant
            n == a@.len() == b@.len(),
            i <= n,
            forall|j: int| 0 <= j < i ==> a.deep_view()[j] == b.deep_view()[j],
        decreases n - i,
    {
        if a[i] != b[i] {
            assert(a.deep_view()[i as int] != b.deep_view()[i as int]);
            return false;
        }
        i += 1;
    }
    assert(a.deep_view() =~= b.deep_view());
    true
}

/// Compares two skeleton-edge vectors by contents.
fn vec_edge_eq(a: &Vec<SkeletonEdge>, b: &Vec<SkeletonEdge>) -> (r: bool)
    ensures
        r == (a@ == b@),
{
    if a.len() != b.len() {
        return false;
    }
    let n = a.len();
    let mut i: usize = 0;
    while i < n
        invariant
            n == a@.len() == b@.len(),
            i <= n,
            forall|j: int| 0 <= j < i ==> a@[j] == b@[j],
        decreases n - i,
    {
        if a[i] != b[i] {
            assert(a@[i as int] != b@[i as int]);
            return false;
        }
        i += 1;
    }
    assert(a@ =~= b@);
    true
}

impl Clone for CocoKeypointDetectionCategory {
    fn clone(&self) -> (res: Self)
        ensures
            res@ == self@,
    {
        let res = CocoKeypointDetectionCategory {
            id: self.id,
            name: self.name.clone(),
            supercategory: self.supercategory.clone(),
            keypoints: self.keypoints.clone(),
            skeleton: self.skeleton.clone(),
        };
        proof {
            assert(res.keypoints.deep_view() =~= self.keypoints.deep_view());
            assert(res.skeleton@ =~= self.skeleton@);
        }
        res
    }
}

impl PartialEq for CocoKeypointDetectionCategory {
    fn eq(&self, other: &Self) -> (r: bool) {
        let names_match = self.supercategory == other.supercategory && self.name == other.name;
        let keypoints_match = vec_string_eq(&self.keypoints, &other.keypoints);
        let skeleton_match = vec_edge_eq(&self.skeleton, &other.skeleton);
        names_match && keypoints_match && skeleton_match
    }
}

impl vstd::std_specs::cmp::PartialEqSpecImpl for CocoKeypointDetectionCategory {
    open spec fn obeys_eq_spec() -> bool {
        true
    }

    open spec fn eq_spec(&self, other: &Self) -> bool {
        self@.name == other@.name && self@.supercategory == other@.supercategory
            && self@.keypoints == other@.keypoints && self@.skeleton == other@.skeleton
    }
}

impl HasID<i32> for CocoKeypointDetectionCategory {
    open spec fn spec_id(&self) -> i32 {
        self.id
    }

    open spec fn spec_set_id(&self, new_id: i32) -> Self {
        CocoKeypointDetectionCategory {
            id: new_id,
            name: self.name,
            supercategory: self.supercategory,
            keypoints: self.keypoints,
            skeleton: self.skeleton,
        }
    }

    fn id(&self) -> i32 {
        self.id
    }

    fn set_id(&mut self, new_id: i32) {
        self.id = new_id;
    }
}

/// Mathematical view of a [`CocoPanopticSegmentationCategory`].
#[verifier::ext_equal]
pub ghost struct PanopticSegmentationCategoryV {
    pub id: i32,
    pub name: Seq<char>,
    pub supercategory: Seq<char>,
    pub isthing: bool,
    pub color: Color,
}

/// A panoptic-segmentation category; structurally equal to another when
/// name, supercategory, the thing/stuff flag and the color triple agree.
#[derive(Debug)]
pub struct CocoPanopticSegmentationCategory {
    pub id: i32,
    pub name: String,
    pub supercategory: String,
    pub isthing: bool,
    pub color: Color,
}

impl View for CocoPanopticSegmentationCategory {
    type V = PanopticSegmentationCategoryV;

    open spec fn view(&self) -> PanopticSegmentationCategoryV {
        PanopticSegmentationCategoryV {
            id: self.id,
            name: self.name@,
            supercategory: self.supercategory@,
            isthing: self.isthing,
            color: self.color,
        }
    }
}

impl DeepView for CocoPanopticSegmentationCategory {
    type V = PanopticSegmentationCategoryV;

    open spec fn deep_view(&self) -> PanopticSegmentationCategoryV {
        self.view()
    }
}

impl Clone for CocoPanopticSegmentationCategory {
    fn clone(&self) -> (res: Self)
        ensures
            res@ == self@,
    {
        CocoPanopticSegmentationCategory {
            id: self.id,
            name: self.name.clone(),
            supercategory: self.supercategory.clone(),
            isthing: self.isthing,
            color: self.color,
        }
    }
}

impl PartialEq for CocoPanopticSegmentationCategory {
    fn eq(&self, other: &Self) -> (r: bool) {
        let names_match = self.supercategory == other.supercategory && self.name == other.name;
        let isthing_match = self.isthing == other.isthing;
        let color_match = self.color == other.color;
        names_match && isthing_match && color_match
    }
}

impl vstd::std_specs::cmp::PartialEqSpecImpl for CocoPanopticSegmentationCategory {
    open spec fn obeys_eq_spec() -> bool {
        true
    }

    open spec fn eq_spec(&self, other: &Self) -> bool {
        self@.name == other@.name && self@.supercategory == other@.supercategory
            && self@.isthing == other@.isthing && self@.color == other@.color
    }
}

impl HasID<i32> for CocoPanopticSegmentationCategory {
    open spec fn spec_id(&self) -> i32 {
        self.id
    }

    open spec fn spec_set_id(&self, new_id: i32) -> Self {
        CocoPanopticSegmentationCategory {
            id: new_id,
            name: self.name,
            supercategory: self.supercategory,
            isthing: self.isthing,
            color: self.color,
        }
    }

    fn id(&self) -> i32 {
        self.id
    }

    fn set_id(&mut self, new_id: i32) {
        self.id = new_id;
    }
}

/// Mathematical view of a [`CocoCategory`].
#[verifier::ext_equal]
pub ghost enum CategoryV {
    KeypointDetection(KeypointDetectionCategoryV),
    PanopticSegmentation(PanopticSegmentationCategoryV),
    ObjectDetection(ObjectDetectionCategoryV),
}

/// A category of any of the three kinds.  Categories of different kinds are
/// never structurally equal.
#[derive(Debug)]
pub enum CocoCategory {
    KeypointDetection(CocoKeypointDetectionCategory),
    PanopticSegmentation(CocoPanopticSegmentationCategory),
    ObjectDetection(CocoObjectDetectionCategory),
}

impl View for CocoCategory {
    type V = CategoryV;

    open spec fn view(&self) -> CategoryV {
        match self {
            CocoCategory::KeypointDetection(c) => CategoryV::KeypointDetection(c@),
            CocoCategory::PanopticSegmentation(c) => CategoryV::PanopticSegmentation(c@),
            CocoCategory::ObjectDetection(c) => CategoryV::ObjectDetection(c@),
        }
    }
}

impl DeepView for CocoCategory {
    type V = CategoryV;

    open spec fn deep_view(&self) -> CategoryV {
        self.view()
    }
}

/// Structural category equality: kinds must match and every field but the
/// id must agree.
pub open spec fn category_content_eq(a: CategoryV, b: CategoryV) -> bool {
    match (a, b) {
        (CategoryV::ObjectDetection(x), CategoryV::ObjectDetection(y)) => {
            x.name == y.name && x.supercategory == y.supercategory
        },
        (CategoryV::KeypointDetection(x), CategoryV::KeypointDetection(y)) => {
            x.name == y.name && x.supercategory == y.supercategory && x.keypoints == y.keypoints
                && x.skeleton == y.skeleton
        },
        (CategoryV::PanopticSegmentation(x), CategoryV::PanopticSegmentation(y)) => {
            x.name == y.name && x.supercategory == y.supercategory && x.isthing == y.isthing
                && x.color == y.color
        },
        _ => false,
    }
}

/// The id of a category view, whatever its kind.
pub open spec fn category_id_of(c: CategoryV) -> i32 {
    match c {
        CategoryV::KeypointDetection(x) => x.id,
        CategoryV::PanopticSegmentation(x) => x.id,
        CategoryV::ObjectDetection(x) => x.id,
    }
}

/// The same category view with its id replaced.
pub open spec fn category_with_id(c: CategoryV, new_id: i32) -> CategoryV {
    match c {
        CategoryV::KeypointDetection(x) => CategoryV::KeypointDetection(
            KeypointDetectionCategoryV { id: new_id, ..x },
        ),
        CategoryV::PanopticSegmentation(x) => CategoryV::PanopticSegmentation(
            PanopticSegmentationCategoryV { id: new_id, ..x },
        ),
        CategoryV::ObjectDetection(x) => CategoryV::ObjectDetection(
            ObjectDetectionCategoryV { id: new_id, ..x },
        ),
    }
}

impl Clone for CocoCategory {
    fn clone(&self) -> (res: Self)
        ensures
            res@ == self@,
    {
        match self {
            CocoCategory::KeypointDetection(c) => CocoCategory::KeypointDetection(c.clone()),
            CocoCategory::PanopticSegmentation(c) => CocoCategory::PanopticSegmentation(
                c.clone(),
            ),
            CocoCategory::ObjectDetection(c) => CocoCategory::ObjectDetection(c.clone()),
        }
    }
}

impl PartialEq for CocoCategory {
    fn eq(&self, other: &Self) -> (r: bool) {
        match (self, other) {
            (CocoCategory::ObjectDetection(a), CocoCategory::ObjectDetection(b)) => a == b,
            (CocoCategory::KeypointDetection(a), CocoCategory::KeypointDetection(b)) => a == b,
            (
                CocoCategory::PanopticSegmentation(a),
                CocoCategory::PanopticSegmentation(b),
            ) => a == b,
            _ => false,
        }
    }
}

impl vstd::std_specs::cmp::PartialEqSpecImpl for CocoCategory {
    open spec fn obeys_eq_spec() -> bool {
        true
    }

    open spec fn eq_spec(&self, other: &Self) -> bool {
        category_content_eq(self@, other@)
    }
}

impl HasID<i32> for CocoCategory {
    open spec fn spec_id(&self) -> i32 {
        category_id_of(self@)
    }

    open spec fn spec_set_id(&self, new_id: i32) -> Self {
        match self {
            CocoCategory::KeypointDetection(c) => CocoCategory::KeypointDetection(
                c.spec_set_id(new_id),
            ),
            CocoCategory::PanopticSegmentation(c) => CocoCategory::PanopticSegmentation(
                c.spec_set_id(new_id),
            ),
            CocoCategory::ObjectDetection(c) => CocoCategory::ObjectDetection(
                c.spec_set_id(new_id),
            ),
        }
    }

    fn id(&self) -> i32 {
        match self {
            CocoCategory::ObjectDetection(cat) => cat.id(),
            CocoCategory::KeypointDetection(cat) => cat.id(),
            CocoCategory::PanopticSegmentation(cat) => cat.id(),
        }
    }

    fn set_id(&mut self, new_id: i32) {
        match self {
            CocoCategory::ObjectDetection(cat) => cat.set_id(new_id),
            CocoCategory::KeypointDetection(cat) => cat.set_id(new_id),
            CocoCategory::PanopticSegmentation(cat) => cat.set_id(new_id),
        }
    }
}

// Info ///////////////////////////////////

/// Mathematical view of a [`CocoInfo`].
#[verifier::ext_equal]
pub ghost struct InfoV {
    pub year: i32,
    pub version: Seq<char>,
    pub description: Seq<char>,
    pub contributor: Seq<char>,
    pub url: Seq<char>,
    pub date_created: Seq<char>,
}

/// The dataset metadata block.  The creation date is carried as its
/// RFC 3339 text; the merge only ever writes a caller-supplied value here.
#[derive(Debug)]
pub struct CocoInfo {
    pub year: i32,
    pub version: String,
    pub description: String,
    pub contributor: String,
    pub url: String,
    pub date_created: String,
}

impl View for CocoInfo {
    type V = InfoV;

    open spec fn view(&self) -> InfoV {
        InfoV {
            year: self.year,
            version: self.version@,
            description: self.description@,
            contributor: self.contributor@,
            url: self.url@,
            date_created: self.date_created@,
        }
    }
}

impl DeepView for CocoInfo {
    type V = InfoV;

    open spec fn deep_view(&self) -> InfoV {
        self.view()
    }
}

impl Clone for CocoInfo {
    fn clone(&self) -> (res: Self)
        ensures
            res@ == self@,
    {
        CocoInfo {
            year: self.year,
            version: self.version.clone(),
            description: self.description.clone(),
            contributor: self.contributor.clone(),
            url: self.url.clone(),
            date_created: self.date_created.clone(),
        }
    }
}

// Image ///////////////////////////////////

/// Mathematical view of a [`CocoImage`].
#[verifier::ext_equal]
pub ghost struct ImageV {
    pub id: i64,
    pub width: u32,
    pub height: u32,
    pub file_name: Seq<char>,
    pub license: Option<i32>,
    pub flickr_url: Option<Seq<char>>,
    pub coco_url: Option<Seq<char>>,
    pub date_captured: Option<Seq<char>>,
}

/// One image record.  `file_name` is interpreted relative to the directory
/// of the dataset file that declared it, unless it is absolute; the capture
/// date is carried through as text.
#[derive(Debug)]
pub struct CocoImage {
    pub id: i64,
    pub width: u32,
    pub height: u32,
    pub file_name: String,
    pub license: Option<i32>,
    pub flickr_url: Option<String>,
    pub coco_url: Option<String>,
    pub date_captured: Option<String>,
}

impl View for CocoImage {
    type V = ImageV;

    open spec fn view(&self) -> ImageV {
        ImageV {
            id: self.id,
            width: self.width,
            height: self.height,
            file_name: self.file_name@,
            license: self.license,
            flickr_url: self.flickr_url.deep_view(),
            coco_url: self.coco_url.deep_view(),
            date_captured: self.date_captured.deep_view(),
        }
    }
}

impl DeepView for CocoImage {
    type V = ImageV;

    open spec fn deep_view(&self) -> ImageV {
        self.view()
    }
}

/// Clones an optional string, preserving its view.
fn clone_opt_string(s: &Option<String>) -> (res: Option<String>)
    ensures
        res.deep_view() == s.deep_view(),
{
    match s {
        Some(v) => Some(v.clone()),
        None => None,
    }
}

impl Clone for CocoImage {
    fn clone(&self) -> (res: Self)
        ensures
            res@ == self@,
    {
        CocoImage {
            id: self.id,
            width: self.width,
            height: self.height,
            file_name: self.file_name.clone(),
            license: self.license,
            flickr_url: clone_opt_string(&self.flickr_url),
            coco_url: clone_opt_string(&self.coco_url),
            date_captured: clone_opt_string(&self.date_captured),
        }
    }
}

impl HasID<i64> for CocoImage {
    open spec fn spec_id(&self) -> i64 {
        self.id
    }

    open spec fn spec_set_id(&self, new_id: i64) -> Self {
        CocoImage { id: new_id, ..*self }
    }

    fn id(&self) -> i64 {
        self.id
    }

    fn set_id(&mut self, new_id: i64) {
        self.id = new_id;
    }
}

// Segmentation ///////////////////////////////////

/// Mathematical view of a [`CocoRLE`].
#[verifier::ext_equal]
pub ghost struct RleV {
    pub counts: Seq<u32>,
    pub size: (u32, u32),
}

/// A run-length-encoded mask; opaque payload for the merge, carried through
/// unchanged.
#[derive(Debug)]
pub struct CocoRLE {
    pub counts: Vec<u32>,
    pub size: (u32, u32),
}

impl View for CocoRLE {
    type V = RleV;

    open spec fn view(&self) -> RleV {
        RleV { counts: self.counts@, size: self.size }
    }
}

impl DeepView for CocoRLE {
    type V = RleV;

    open spec fn deep_view(&self) -> RleV {
        self.view()
    }
}

impl Clone for CocoRLE {
    fn clone(&self) -> (res: Self)
        ensures
            res@ == self@,
    {
        let res = CocoRLE { counts: self.counts.clone(), size: self.size };
        proof {
            assert(res.counts@ =~= self.counts@);
        }
        res
    }
}

/// Mathematical view of a [`CocoSegmentation`].
#[verifier::ext_equal]
pub ghost enum SegmentationV {
    RLE(RleV),
    Polygon(Seq<Seq<u32>>),
}

/// A segmentation mask: either run-length encoded or a list of polygons,
/// each polygon a flat list of `f32` coordinate bit patterns.
#[derive(Debug)]
pub enum CocoSegmentation {
    RLE(CocoRLE),
    Polygon(Vec<Vec<u32>>),
}

impl View for CocoSegmentation {
    type V = SegmentationV;

    open spec fn view(&self) -> SegmentationV {
        match self {
            CocoSegmentation::RLE(r) => SegmentationV::RLE(r@),
            CocoSegmentation::Polygon(p) => SegmentationV::Polygon(p.deep_view()),
        }
    }
}

impl DeepView for CocoSegmentation {
    type V = SegmentationV;

    open spec fn deep_view(&self) -> SegmentationV {
        self.view()
    }
}

/// Clones a polygon list, preserving its view.
fn clone_polygons(p: &Vec<Vec<u32>>) -> (res: Vec<Vec<u32>>)
    ensures
        res.deep_view() == p.deep_view(),
{
    let res = p.clone();
    proof {
        assert forall|i: int| 0 <= i < p@.len() implies res.deep_view()[i]
            == p.deep_view()[i] by {
            assert(cloned::<Vec<u32>>(p@[i], res@[i]));
            assert(res@[i]@ =~= p@[i]@);
        }
        assert(res.deep_view() =~= p.deep_view());
    }
    res
}

impl Clone for CocoSegmentation {
    fn clone(&self) -> (res: Self)
        ensures
            res@ == self@,
    {
        match self {
            CocoSegmentation::RLE(r) => CocoSegmentation::RLE(r.clone()),
            CocoSegmentation::Polygon(p) => CocoSegmentation::Polygon(clone_polygons(p)),
        }
    }
}

// Annotations ///////////////////////////////////

/// Mathematical view of a [`CocoPanopticSegmentInfo`].
#[verifier::ext_equal]
pub ghost struct PanopticSegmentInfoV {
    pub id: i64,
    pub category_id: i32,
    pub area: u32,
    pub bbox: BBox,
    pub iscrowd: bool,
}

/// One region entry of a panoptic-segmentation annotation.  Its id lives in
/// the same global namespace as top-level annotation ids.
#[derive(Debug)]
pub struct CocoPanopticSegmentInfo {
    pub id: i64,
    pub category_id: i32,
    pub area: u32,
    pub bbox: BBox,
    pub iscrowd: bool,
}

impl View for CocoPanopticSegmentInfo {
    type V = PanopticSegmentInfoV;

    open spec fn view(&self) -> PanopticSegmentInfoV {
        PanopticSegmentInfoV {
            id: self.id,
            category_id: self.category_id,
            area: self.area,
            bbox: self.bbox,
            iscrowd: self.iscrowd,
        }
    }
}

impl DeepView for CocoPanopticSegmentInfo {
    type V = PanopticSegmentInfoV;

    open spec fn deep_view(&self) -> PanopticSegmentInfoV {
        self.view()
    }
}

impl Clone for CocoPanopticSegmentInfo {
    fn clone(&self) -> (res: Self)
        ensures
            res@ == self@,
    {
        CocoPanopticSegmentInfo {
            id: self.id,
            category_id: self.category_id,
            area: self.area,
            bbox: self.bbox,
            iscrowd: self.iscrowd,
        }
    }
}

impl HasID<i64> for CocoPanopticSegmentInfo {
    open spec fn spec_id(&self) -> i64 {
        self.id
    }

    open spec fn spec_set_id(&self, new_id: i64) -> Self {
        CocoPanopticSegmentInfo { id: new_id, ..*self }
    }

    fn id(&self) -> i64 {
        self.id
    }

    fn set_id(&mut self, new_id: i64) {
        self.id = new_id;
    }
}

/// Mathematical view of a [`CocoObjectDetectionAnnotation`].
#[verifier::ext_equal]
pub ghost struct ObjectDetectionAnnotationV {
    pub id: i64,
    pub image_id: i64,
    pub category_id: i32,
    pub segmentation: SegmentationV,
    pub area: u32,
    pub bbox: BBox,
    pub iscrowd: bool,
}

/// An object-detection annotation; `area` is an `f32` bit pattern.
#[derive(Debug)]
pub struct CocoObjectDetectionAnnotation {
    pub id: i64,
    pub image_id: i64,
    pub category_id: i32,
    pub segmentation: CocoSegmentation,
    pub area: u32,
    pub bbox: BBox,
    pub iscrowd: bool,
}

impl View for CocoObjectDetectionAnnotation {
    type V = ObjectDetectionAnnotationV;

    open spec fn view(&self) -> ObjectDetectionAnnotationV {
        ObjectDetectionAnnotationV {
            id: self.id,
            image_id: self.image_id,
            category_id: self.category_id,
            segmentation: self.segmentation@,
            area: self.area,
            bbox: self.bbox,
            iscrowd: self.iscrowd,
        }
    }
}

impl DeepView for CocoObjectDetectionAnnotation {
    type V = ObjectDetectionAnnotationV;

    open spec fn deep_view(&self) -> ObjectDetectionAnnotationV {
        self.view()
    }
}

impl Clone for CocoObjectDetectionAnnotation {
    fn clone(&self) -> (res: Self)
        ensures
            res@ == self@,
    {
        CocoObjectDetectionAnnotation {
            id: self.id,
            image_id: self.image_id,
            category_id: self.category_id,
            segmentation: self.segmentation.clone(),
            area: self.area,
            bbox: self.bbox,
            iscrowd: self.iscrowd,
        }
    }
}

impl HasID<i64> for CocoObjectDetectionAnnotation {
    open spec fn spec_id(&self) -> i64 {
        self.id
    }

    open spec fn spec_set_id(&self, new_id: i64) -> Self {
        CocoObjectDetectionAnnotation { id: new_id, ..*self }
    }

    fn id(&self) -> i64 {
        self.id
    }

    fn set_id(&mut self, new_id: i64) {
        self.id = new_id;
    }
}

impl HasCategoryID for CocoObjectDetectionAnnotation {
    open spec fn spec_category_id(&self) -> i32 {
        self.category_id
    }

    open spec fn spec_set_category_id(&self, new_category_id: i32) -> Self {
        CocoObjectDetectionAnnotation { category_id: new_category_id, ..*self }
    }

    fn category_id(&self) -> i32 {
        self.category_id
    }

    fn set_category_id(&mut self, new_category_id: i32) {
        self.category_id = new_category_id;
    }
}

/// Mathematical view of a [`CocoKeypointDetectionAnnotation`].
#[verifier::ext_equal]
pub ghost struct KeypointDetectionAnnotationV {
    pub id: i64,
    pub image_id: i64,
    pub category_id: i32,
    pub segmentation: SegmentationV,
    pub area: u32,
    pub bbox: BBox,
    pub iscrowd: bool,
    pub keypoints: Seq<u32>,
    pub num_keypoints: u32,
}

/// A keypoint-detection annotation; `keypoints` is the flat
/// `[x1, y1, v1, x2, y2, v2, ...]` list as `f32` bit patterns.
#[derive(Debug)]
pub struct CocoKeypointDetectionAnnotation {
    pub id: i64,
    pub image_id: i64,
    pub category_id: i32,
    pub segmentation: CocoSegmentation,
    pub area: u32,
    pub bbox: BBox,
    pub iscrowd: bool,
    pub keypoints: Vec<u32>,
    pub num_keypoints: u32,
}

impl View for CocoKeypointDetectionAnnotation {
    type V = KeypointDetectionAnnotationV;

    open spec fn view(&self) -> KeypointDetectionAnnotationV {
        KeypointDetectionAnnotationV {
            id: self.id,
            image_id: self.image_id,
            category_id: self.category_id,
            segmentation: self.segmentation@,
            area: self.area,
            bbox: self.bbox,
            iscrowd: self.iscrowd,
            keypoints: self.keypoints@,
            num_keypoints: self.num_keypoints,
        }
    }
}

impl DeepView for CocoKeypointDetectionAnnotation {
    type V = KeypointDetectionAnnotationV;

    open spec fn deep_view(&self) -> KeypointDetectionAnnotationV {
        self.view()
    }
}

impl Clone for CocoKeypointDetectionAnnotation {
    fn clone(&self) -> (res: Self)
        ensures
            res@ == self@,
    {
        let res = CocoKeypointDetectionAnnotation {
            id: self.id,
            image_id: self.image_id,
            category_id: self.category_id,
            segmentation: self.segmentation.clone(),
            area: self.area,
            bbox: self.bbox,
            iscrowd: self.iscrowd,
            keypoints: self.keypoints.clone(),
            num_keypoints: self.num_keypoints,
        };
        proof {
            assert(res.keypoints@ =~= self.keypoints@);
        }
        res
    }
}

impl HasID<i64> for CocoKeypointDetectionAnnotation {
    open spec fn spec_id(&self) -> i64 {
        self.id
    }

    open spec fn spec_set_id(&self, new_id: i64) -> Self {
        CocoKeypointDetectionAnnotation { id: new_id, ..*self }
    }

    fn id(&self) -> i64 {
        self.id
    }

    fn set_id(&mut self, new_id: i64) {
        self.id = new_id;
    }
}

impl HasCategoryID for CocoKeypointDetectionAnnotation {
    open spec fn spec_category_id(&self) -> i32 {
        self.category_id
    }

    open spec fn spec_set_category_id(&self, new_category_id: i32) -> Self {
        CocoKeypointDetectionAnnotation { category_id: new_category_id, ..*self }
    }

    fn category_id(&self) -> i32 {
        self.category_id
    }

    fn set_category_id(&mut self, new_category_id: i32) {
        self.category_id = new_category_id;
    }
}

/// Mathematical view of a [`CocoPanopticSegmentationAnnotation`].
#[verifier::ext_equal]
pub ghost struct PanopticSegmentationAnnotationV {
    pub image_id: i64,
    pub file_name: Seq<char>,
    pub segments_info: Seq<PanopticSegmentInfoV>,
}

/// A panoptic-segmentation annotation.  It carries no id of its own; its
/// `segments_info` entries each carry one.
#[derive(Debug)]
pub struct CocoPanopticSegmentationAnnotation {
    pub image_id: i64,
    pub file_name: String,
    pub segments_info: Vec<CocoPanopticSegmentInfo>,
}

impl View for CocoPanopticSegmentationAnnotation {
    type V = PanopticSegmentationAnnotationV;

    open spec fn view(&self) -> PanopticSegmentationAnnotationV {
        PanopticSegmentationAnnotationV {
            image_id: self.image_id,
            file_name: self.file_name@,
            segments_info: self.segments_info.deep_view(),
        }
    }
}

impl DeepView for CocoPanopticSegmentationAnnotation {
    type V = PanopticSegmentationAnnotationV;

    open spec fn deep_view(&self) -> PanopticSegmentationAnnotationV {
        self.view()
    }
}

impl Clone for CocoPanopticSegmentationAnnotation {
    fn clone(&self) -> (res: Self)
        ensures
            res@ == self@,
    {
        let res = CocoPanopticSegmentationAnnotation {
            image_id: self.image_id,
            file_name: self.file_name.clone(),
            segments_info: self.segments_info.clone(),
        };
        proof {
            assert forall|i: int| 0 <= i < self.segments_info@.len() implies res
                .segments_info
                .deep_view()[i] == self.segments_info.deep_view()[i] by {
                assert(cloned::<CocoPanopticSegmentInfo>(
                    self.segments_info@[i],
                    res.segments_info@[i],
                ));
            }
            assert(res.segments_info.deep_view() =~= self.segments_info.deep_view());
        }
        res
    }
}

/// Mathematical view of a [`CocoImageCaptioningAnnotation`].
#[verifier::ext_equal]
pub ghost struct ImageCaptioningAnnotationV {
    pub id: i64,
    pub image_id: i64,
    pub caption: Seq<char>,
}

/// An image-captioning annotation.
#[derive(Debug)]
pub struct CocoImageCaptioningAnnotation {
    pub id: i64,
    pub image_id: i64,
    pub caption: String,
}

impl View for CocoImageCaptioningAnnotation {
    type V = ImageCaptioningAnnotationV;

    open spec fn view(&self) -> ImageCaptioningAnnotationV {
        ImageCaptioningAnnotationV {
            id: self.id,
            image_id: self.image_id,
            caption: self.caption@,
        }
    }
}

impl DeepView for CocoImageCaptioningAnnotation {
    type V = ImageCaptioningAnnotationV;

    open spec fn deep_view(&self) -> ImageCaptioningAnnotationV {
        self.view()
    }
}

impl Clone for CocoImageCaptioningAnnotation {
    fn clone(&self) -> (res: Self)
        ensures
            res@ == self@,
    {
        CocoImageCaptioningAnnotation {
            id: self.id,
            image_id: self.image_id,
            caption: self.caption.clone(),
        }
    }
}

impl HasID<i64> for CocoImageCaptioningAnnotation {
    open spec fn spec_id(&self) -> i64 {
        self.id
    }

    open spec fn spec_set_id(&self, new_id: i64) -> Self {
        CocoImageCaptioningAnnotation { id: new_id, ..*self }
    }

    fn id(&self) -> i64 {
        self.id
    }

    fn set_id(&mut self, new_id: i64) {
        self.id = new_id;
    }
}

/// Mathematical view of a [`CocoDensePoseAnnotation`].
#[verifier::ext_equal]
pub ghost struct DensePoseAnnotationV {
    pub id: i64,
    pub image_id: i64,
    pub category_id: i32,
    pub iscrowd: bool,
    pub area: u32,
    pub bbox: BBox,
    pub dp_i: Seq<u32>,
    pub dp_u: Seq<u32>,
    pub dp_v: Seq<u32>,
    pub dp_x: Seq<u32>,
    pub dp_y: Seq<u32>,
    pub dp_masks: Seq<RleV>,
}

/// A dense-pose annotation; it references object-detection categories.
/// The `dp_*` coordinate lists hold `f32` bit patterns.
#[derive(Debug)]
pub struct CocoDensePoseAnnotation {
    pub id: i64,
    pub image_id: i64,
    pub category_id: i32,
    pub iscrowd: bool,
    pub area: u32,
    pub bbox: BBox,
    pub dp_i: Vec<u32>,
    pub dp_u: Vec<u32>,
    pub dp_v: Vec<u32>,
    pub dp_x: Vec<u32>,
    pub dp_y: Vec<u32>,
    pub dp_masks: Vec<CocoRLE>,
}

impl View for CocoDensePoseAnnotation {
    type V = DensePoseAnnotationV;

    open spec fn view(&self) -> DensePoseAnnotationV {
        DensePoseAnnotationV {
            id: self.id,
            image_id: self.image_id,
            category_id: self.category_id,
            iscrowd: self.iscrowd,
            area: self.area,
            bbox: self.bbox,
            dp_i: self.dp_i@,
            dp_u: self.dp_u@,
            dp_v: self.dp_v@,
            dp_x: self.dp_x@,
            dp_y: self.dp_y@,
            dp_masks: self.dp_masks.deep_view(),
        }
    }
}

impl DeepView for CocoDensePoseAnnotation {
    type V = DensePoseAnnotationV;

    open spec fn deep_view(&self) -> DensePoseAnnotationV {
        self.view()
    }
}

impl Clone for CocoDensePoseAnnotation {
    fn clone(&self) -> (res: Self)
        ensures
            res@ == self@,
    {
        let res = CocoDensePoseAnnotation {
            id: self.id,
            image_id: self.image_id,
            category_id: self.category_id,
            iscrowd: self.iscrowd,
            area: self.area,
            bbox: self.bbox,
            dp_i: self.dp_i.clone(),
            dp_u: self.dp_u.clone(),
            dp_v: self.dp_v.clone(),
            dp_x: self.dp_x.clone(),
            dp_y: self.dp_y.clone(),
            dp_masks: self.dp_masks.clone(),
        };
        proof {
            assert(res.dp_i@ =~= self.dp_i@);
            assert(res.dp_u@ =~= self.dp_u@);
            assert(res.dp_v@ =~= self.dp_v@);
            assert(res.dp_x@ =~= self.dp_x@);
            assert(res.dp_y@ =~= self.dp_y@);
            assert forall|i: int| 0 <= i < self.dp_masks@.len() implies res
                .dp_masks
                .deep_view()[i] == self.dp_masks.deep_view()[i] by {
                assert(cloned::<CocoRLE>(self.dp_masks@[i], res.dp_masks@[i]));
            }
            assert(res.dp_masks.deep_view() =~= self.dp_masks.deep_view());
        }
        res
    }
}

impl HasID<i64> for CocoDensePoseAnnotation {
    open spec fn spec_id(&self) -> i64 {
        self.id
    }

    open spec fn spec_set_id(&self, new_id: i64) -> Self {
        CocoDensePoseAnnotation { id: new_id, ..*self }
    }

    fn id(&self) -> i64 {
        self.id
    }

    fn set_id(&mut self, new_id: i64) {
        self.id = new_id;
    }
}

impl HasCategoryID for CocoDensePoseAnnotation {
    open spec fn spec_category_id(&self) -> i32 {
        self.category_id
    }

    open spec fn spec_set_category_id(&self, new_category_id: i32) -> Self {
        CocoDensePoseAnnotation { category_id: new_category_id, ..*self }
    }

    fn category_id(&self) -> i32 {
        self.category_id
    }

    fn set_category_id(&mut self, new_category_id: i32) {
        self.category_id = new_category_id;
    }
}

/// Mathematical view of a [`CocoAnnotation`].
#[verifier::ext_equal]
pub ghost enum AnnotationV {
    KeypointDetection(KeypointDetectionAnnotationV),
    PanopticSegmentation(PanopticSegmentationAnnotationV),
    ImageCaptioning(ImageCaptioningAnnotationV),
    ObjectDetection(ObjectDetectionAnnotationV),
    DensePose(DensePoseAnnotationV),
}

/// An annotation of any of the five kinds.  On the wire the kind is not
/// tagged; it is recovered from which fields are present (see
/// [`crate::classify`]).
#[derive(Debug)]
pub enum CocoAnnotation {
    KeypointDetection(CocoKeypointDetectionAnnotation),
    PanopticSegmentation(CocoPanopticSegmentationAnnotation),
    ImageCaptioning(CocoImageCaptioningAnnotation),
    ObjectDetection(CocoObjectDetectionAnnotation),
    DensePose(CocoDensePoseAnnotation),
}

impl View for CocoAnnotation {
    type V = AnnotationV;

    open spec fn view(&self) -> AnnotationV {
        match self {
            CocoAnnotation::KeypointDetection(a) => AnnotationV::KeypointDetection(a@),
            CocoAnnotation::PanopticSegmentation(a) => AnnotationV::PanopticSegmentation(a@),
            CocoAnnotation::ImageCaptioning(a) => AnnotationV::ImageCaptioning(a@),
            CocoAnnotation::ObjectDetection(a) => AnnotationV::ObjectDetection(a@),
            CocoAnnotation::DensePose(a) => AnnotationV::DensePose(a@),
        }
    }
}

impl DeepView for CocoAnnotation {
    type V = AnnotationV;

    open spec fn deep_view(&self) -> AnnotationV {
        self.view()
    }
}

/// The image an annotation view refers to.
pub open spec fn annotation_image_id(a: AnnotationV) -> i64 {
    match a {
        AnnotationV::ObjectDetection(x) => x.image_id,
        AnnotationV::KeypointDetection(x) => x.image_id,
        AnnotationV::PanopticSegmentation(x) => x.image_id,
        AnnotationV::ImageCaptioning(x) => x.image_id,
        AnnotationV::DensePose(x) => x.image_id,
    }
}

/// The same annotation view with its image reference replaced.
pub open spec fn annotation_with_image_id(a: AnnotationV, new_image_id: i64) -> AnnotationV {
    match a {
        AnnotationV::ObjectDetection(x) => AnnotationV::ObjectDetection(
            ObjectDetectionAnnotationV { image_id: new_image_id, ..x },
        ),
        AnnotationV::KeypointDetection(x) => AnnotationV::KeypointDetection(
            KeypointDetectionAnnotationV { image_id: new_image_id, ..x },
        ),
        AnnotationV::PanopticSegmentation(x) => AnnotationV::PanopticSegmentation(
            PanopticSegmentationAnnotationV { image_id: new_image_id, ..x },
        ),
        AnnotationV::ImageCaptioning(x) => AnnotationV::ImageCaptioning(
            ImageCaptioningAnnotationV { image_id: new_image_id, ..x },
        ),
        AnnotationV::DensePose(x) => AnnotationV::DensePose(
            DensePoseAnnotationV { image_id: new_image_id, ..x },
        ),
    }
}

impl Clone for CocoAnnotation {
    fn clone(&self) -> (res: Self)
        ensures
            res@ == self@,
    {
        match self {
            CocoAnnotation::KeypointDetection(a) => CocoAnnotation::KeypointDetection(a.clone()),
            CocoAnnotation::PanopticSegmentation(a) => CocoAnnotation::PanopticSegmentation(
                a.clone(),
            ),
            CocoAnnotation::ImageCaptioning(a) => CocoAnnotation::ImageCaptioning(a.clone()),
            CocoAnnotation::ObjectDetection(a) => CocoAnnotation::ObjectDetection(a.clone()),
            CocoAnnotation::DensePose(a) => CocoAnnotation::DensePose(a.clone()),
        }
    }
}

impl CocoAnnotation {
    /// The image this annotation refers to.
    pub fn image_id(&self) -> (r: i64)
        ensures
            r == annotation_image_id(self@),
    {
        match self {
            CocoAnnotation::ObjectDetection(ann) => ann.image_id,
            CocoAnnotation::KeypointDetection(ann) => ann.image_id,
            CocoAnnotation::PanopticSegmentation(ann) => ann.image_id,
            CocoAnnotation::ImageCaptioning(ann) => ann.image_id,
            CocoAnnotation::DensePose(ann) => ann.image_id,
        }
    }

    /// Retargets this annotation at another image; nothing else changes.
    pub fn set_image_id(&mut self, new_image_id: i64)
        ensures
            final(self)@ == annotation_with_image_id(old(self)@, new_image_id),
    {
        match self {
            CocoAnnotation::ObjectDetection(ann) => ann.image_id = new_image_id,
            CocoAnnotation::KeypointDetection(ann) => ann.image_id = new_image_id,
            CocoAnnotation::PanopticSegmentation(ann) => ann.image_id = new_image_id,
            CocoAnnotation::ImageCaptioning(ann) => ann.image_id = new_image_id,
            CocoAnnotation::DensePose(ann) => ann.image_id = new_image_id,
        }
    }
}

// Dataset file ///////////////////////////////////

/// Mathematical view of a [`CocoFile`].
#[verifier::ext_equal]
pub ghost struct FileV {
    pub images: Seq<ImageV>,
    pub annotations: Seq<AnnotationV>,
    pub info: Option<InfoV>,
    pub categories: Option<Seq<CategoryV>>,
    pub licenses: Option<Seq<LicenseV>>,
}

/// One COCO dataset description file.
#[derive(Debug)]
pub struct CocoFile {
    pub images: Vec<CocoImage>,
    pub annotations: Vec<CocoAnnotation>,
    pub info: Option<CocoInfo>,
    pub categories: Option<Vec<CocoCategory>>,
    pub licenses: Option<Vec<CocoLicense>>,
}

impl View for CocoFile {
    type V = FileV;

    open spec fn view(&self) -> FileV {
        FileV {
            images: self.images.deep_view(),
            annotations: self.annotations.deep_view(),
            info: self.info.deep_view(),
            categories: match self.categories {
                Some(cs) => Some(cs.deep_view()),
                None => None,
            },
            licenses: match self.licenses {
                Some(ls) => Some(ls.deep_view()),
                None => None,
            },
        }
    }
}

impl DeepView for CocoFile {
    type V = FileV;

    open spec fn deep_view(&self) -> FileV {
        self.view()
    }
}

impl FileV {
    /// The declared categories, an empty sequence when the section is absent.
    pub open spec fn categories_or_empty(&self) -> Seq<CategoryV> {
        match self.categories {
            Some(cs) => cs,
            None => Seq::empty(),
        }
    }

    /// The declared licenses, an empty sequence when the section is absent.
    pub open spec fn licenses_or_empty(&self) -> Seq<LicenseV> {
        match self.licenses {
            Some(ls) => ls,
            None => Seq::empty(),
        }
    }
}

} // verus!
