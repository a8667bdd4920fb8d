use vstd::prelude::*;
use crate::database::picture::{Picture, PictureOrientation};
use crate::grouping::arrangement_strategy::ExifDataTypeValue;
use crate::utils::utils::copy_i32s;

verus! {

/// A condition on the pictures of the database, in the terms the database
/// evaluates it: what a picture row holds, and the rows linked to it.
#[derive(Debug, PartialEq)]
pub enum PictureCondition {
    Always(bool),
    /// The picture has one of the tags.
    HasTagIn(Vec<i32>),
    /// The picture is in one of the groups.
    InGroupIn(Vec<i32>),
    /// The picture is in a group of one of the arrangements.
    InArrangementIn(Vec<i32>),
    /// The picture has a tag of one of the tag groups.
    HasTagOfGroupIn(Vec<i32>),
    /// The picture is owned by the user.
    OwnedBy(i32),
    /// The picture is in a group shared with the user.
    SharedWith(i32),
    /// The picture has no deletion date.
    NotDeleted,
    /// The EXIF field of the values is set on the picture and equals one of them.
    ExifAmong(ExifDataTypeValue),
    And(Box<PictureCondition>, Box<PictureCondition>),
    Or(Box<PictureCondition>, Box<PictureCondition>),
    Not(Box<PictureCondition>),
}

/// What the database links to a picture: its tags, its groups, the
/// arrangements of its groups, the tag groups of its tags, and the users
/// its groups are shared with.
pub struct PictureLinks {
    pub tags: Set<i32>,
    pub groups: Set<i32>,
    pub arrangements: Set<i32>,
    pub tag_groups: Set<i32>,
    pub shared_with: Set<i32>,
}

/// One of the ids is in the set.
pub open spec fn any_in(ids: Seq<i32>, s: Set<i32>) -> bool {
    exists|k: int| 0 <= k < ids.len() && s.contains(#[trigger] ids[k])
}

/// One of the ids is in the set exactly when some id is in both.
pub proof fn lemma_any_in_contains(ids: Seq<i32>, s: Set<i32>)
    ensures
        any_in(ids, s) <==> exists|x: i32| #[trigger] ids.contains(x) && s.contains(x),
{
    if any_in(ids, s) {
        let k = choose|k: int| 0 <= k < ids.len() && s.contains(#[trigger] ids[k]);
        assert(ids.contains(ids[k]));
    }
    if exists|x: i32| #[trigger] ids.contains(x) && s.contains(x) {
        let x = choose|x: i32| #[trigger] ids.contains(x) && s.contains(x);
        let k = choose|k: int| 0 <= k < ids.len() && ids[k] == x;
        assert(s.contains(ids[k]));
    }
}

/// One of the texts equals `x`.
pub open spec fn text_among(texts: Seq<String>, x: String) -> bool {
    exists|k: int| 0 <= k < texts.len() && (#[trigger] texts[k])@ == x@
}

/// The EXIF field of the values `v` is set on the picture and equals one of them.
pub open spec fn exif_among(v: ExifDataTypeValue, p: Picture) -> bool {
    match v {
        ExifDataTypeValue::CreationDate(ds) => ds@.contains(p.creation_date),
        ExifDataTypeValue::EditionDate(ds) => ds@.contains(p.edition_date),
        ExifDataTypeValue::Latitude(xs) => p.latitude is Some && xs@.contains(p.latitude->Some_0),
        ExifDataTypeValue::Longitude(xs) => p.longitude is Some && xs@.contains(p.longitude->Some_0),
        ExifDataTypeValue::Altitude(xs) => p.altitude is Some && xs@.contains(p.altitude->Some_0),
        ExifDataTypeValue::Orientation(xs) => xs@.contains(p.orientation),
        ExifDataTypeValue::Width(xs) => xs@.contains(p.width),
        ExifDataTypeValue::Height(xs) => xs@.contains(p.height),
        ExifDataTypeValue::CameraBrand(xs) => p.camera_brand is Some && text_among(xs@, p.camera_brand->Some_0),
        ExifDataTypeValue::CameraModel(xs) => p.camera_model is Some && text_among(xs@, p.camera_model->Some_0),
        ExifDataTypeValue::FocalLength(xs) => p.focal_length is Some && xs@.contains(p.focal_length->Some_0),
        ExifDataTypeValue::ExposureTime(xs) => p.exposure_time_num is Some && p.exposure_time_den is Some
            && xs@.contains((p.exposure_time_num->Some_0, p.exposure_time_den->Some_0)),
        ExifDataTypeValue::IsoSpeed(xs) => p.iso_speed is Some && xs@.contains(p.iso_speed->Some_0),
        ExifDataTypeValue::FNumber(xs) => p.f_number is Some && xs@.contains(p.f_number->Some_0),
    }
}

/// Whether the condition holds of the picture `p`, linked to `l`.
pub open spec fn condition_holds(c: PictureCondition, p: Picture, l: PictureLinks) -> bool
    decreases c,
{
    match c {
        PictureCondition::Always(b) => b,
        PictureCondition::HasTagIn(ids) => any_in(ids@, l.tags),
        PictureCondition::InGroupIn(ids) => any_in(ids@, l.groups),
        PictureCondition::InArrangementIn(ids) => any_in(ids@, l.arrangements),
        PictureCondition::HasTagOfGroupIn(ids) => any_in(ids@, l.tag_groups),
        PictureCondition::OwnedBy(u) => p.owner_id == u,
        PictureCondition::SharedWith(u) => l.shared_with.contains(u),
        PictureCondition::NotDeleted => p.deleted_date is None,
        PictureCondition::ExifAmong(v) => exif_among(v, p),
        PictureCondition::And(a, b) => condition_holds(*a, p, l) && condition_holds(*b, p, l),
        PictureCondition::Or(a, b) => condition_holds(*a, p, l) || condition_holds(*b, p, l),
        PictureCondition::Not(a) => !condition_holds(*a, p, l),
    }
}

/// A copy of a list of plain values.
pub fn copy_values<T: Copy>(v: &Vec<T>) -> (r: Vec<T>)
    ensures
        r@ == v@,
{
    let mut r: Vec<T> = Vec::new();
    let mut i: usize = 0;
    while i < v.len()
        invariant
            i <= v.len(),
            r@ == v@.subrange(0, i as int),
        decreases v.len() - i,
    {
        r.push(v[i]);
        i = i + 1;
    }
    r
}

/// A copy of a list of texts.
pub fn copy_texts(v: &Vec<String>) -> (r: Vec<String>)
    ensures
        r@ == v@,
{
    let mut r: Vec<String> = Vec::new();
    let mut i: usize = 0;
    while i < v.len()
        invariant
            i <= v.len(),
            r@ == v@.subrange(0, i as int),
        decreases v.len() - i,
    {
        r.push(v[i].clone());
        i = i + 1;
    }
    r
}

/// The two values are of the same EXIF field with the same values.
pub open spec fn same_exif_values(a: ExifDataTypeValue, b: ExifDataTypeValue) -> bool {
    match (a, b) {
        (ExifDataTypeValue::CreationDate(x), ExifDataTypeValue::CreationDate(y)) => x@ == y@,
        (ExifDataTypeValue::EditionDate(x), ExifDataTypeValue::EditionDate(y)) => x@ == y@,
        (ExifDataTypeValue::Latitude(x), ExifDataTypeValue::Latitude(y)) => x@ == y@,
        (ExifDataTypeValue::Longitude(x), ExifDataTypeValue::Longitude(y)) => x@ == y@,
        (ExifDataTypeValue::Altitude(x), ExifDataTypeValue::Altitude(y)) => x@ == y@,
        (ExifDataTypeValue::Orientation(x), ExifDataTypeValue::Orientation(y)) => x@ == y@,
        (ExifDataTypeValue::Width(x), ExifDataTypeValue::Width(y)) => x@ == y@,
        (ExifDataTypeValue::Height(x), ExifDataTypeValue::Height(y)) => x@ == y@,
        (ExifDataTypeValue::CameraBrand(x), ExifDataTypeValue::CameraBrand(y)) => x@ == y@,
        (ExifDataTypeValue::CameraModel(x), ExifDataTypeValue::CameraModel(y)) => x@ == y@,
        (ExifDataTypeValue::FocalLength(x), ExifDataTypeValue::FocalLength(y)) => x@ == y@,
        (ExifDataTypeValue::ExposureTime(x), ExifDataTypeValue::ExposureTime(y)) => x@ == y@,
        (ExifDataTypeValue::IsoSpeed(x), ExifDataTypeValue::IsoSpeed(y)) => x@ == y@,
        (ExifDataTypeValue::FNumber(x), ExifDataTypeValue::FNumber(y)) => x@ == y@,
        _ => false,
    }
}

/// Copies of EXIF values hold of the same pictures.
pub proof fn lemma_same_exif_among(a: ExifDataTypeValue, b: ExifDataTypeValue, p: Picture)
    requires
        same_exif_values(a, b),
    ensures
        exif_among(a, p) == exif_among(b, p),
{
}

impl ExifDataTypeValue {
    /// A copy of the values.
    pub fn copy(&self) -> (r: ExifDataTypeValue)
        ensures
            same_exif_values(r, *self),
            forall|p: Picture| exif_among(r, p) == exif_among(*self, p),
    {
        match self {
            ExifDataTypeValue::CreationDate(x) => ExifDataTypeValue::CreationDate(copy_values(x)),
            ExifDataTypeValue::EditionDate(x) => ExifDataTypeValue::EditionDate(copy_values(x)),
            ExifDataTypeValue::Latitude(x) => ExifDataTypeValue::Latitude(copy_values(x)),
            ExifDataTypeValue::Longitude(x) => ExifDataTypeValue::Longitude(copy_values(x)),
            ExifDataTypeValue::Altitude(x) => ExifDataTypeValue::Altitude(copy_values(x)),
            ExifDataTypeValue::Orientation(x) => ExifDataTypeValue::Orientation(copy_values(x)),
            ExifDataTypeValue::Width(x) => ExifDataTypeValue::Width(copy_values(x)),
            ExifDataTypeValue::Height(x) => ExifDataTypeValue::Height(copy_values(x)),
            ExifDataTypeValue::CameraBrand(x) => ExifDataTypeValue::CameraBrand(copy_texts(x)),
            ExifDataTypeValue::CameraModel(x) => ExifDataTypeValue::CameraModel(copy_texts(x)),
            ExifDataTypeValue::FocalLength(x) => ExifDataTypeValue::FocalLength(copy_values(x)),
            ExifDataTypeValue::ExposureTime(x) => ExifDataTypeValue::ExposureTime(copy_values(x)),
            ExifDataTypeValue::IsoSpeed(x) => ExifDataTypeValue::IsoSpeed(copy_values(x)),
            ExifDataTypeValue::FNumber(x) => ExifDataTypeValue::FNumber(copy_values(x)),
        }
    }
}

/// Both conditions hold.
pub fn both(a: PictureCondition, b: PictureCondition) -> (r: PictureCondition)
    ensures
        r == PictureCondition::And(Box::new(a), Box::new(b)),
        forall|p: Picture, l: PictureLinks| condition_holds(r, p, l) == (condition_holds(a, p, l) && condition_holds(b, p, l)),
{
    PictureCondition::And(Box::new(a), Box::new(b))
}

} // verus!
