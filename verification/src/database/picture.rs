use vstd::prelude::*;
use vstd::string::StringExecFns;
use crate::database::picture_tag::{PictureTag, row_tags, tag_count};
use crate::database::rating::{Rating, average_of, countable, other_raters, ratings_by};
use crate::utils::errors_catcher::{answers, answers_with, ErrorResponder, ErrorType, ErrorTypeKind};
use crate::utils::sorted_ids::strictly_sorted;

verus! {

/// Orientation of a picture as recorded in its EXIF metadata.
#[derive(Debug, Clone, Copy, PartialEq, Eq, Structural)]
pub enum PictureOrientation {
    Unspecified,
    Normal,
    HorizontalFlip,
    Rotate180,
    VerticalFlip,
    Rotate90HorizontalFlip,
    Rotate90,
    Rotate90VerticalFlip,
    Rotate270,
}

/// The orientation named by an EXIF orientation number.
pub open spec fn orientation_of(n: i32) -> PictureOrientation {
    if n == 1 { PictureOrientation::Normal }
    else if n == 2 { PictureOrientation::HorizontalFlip }
    else if n == 3 { PictureOrientation::Rotate180 }
    else if n == 4 { PictureOrientation::VerticalFlip }
    else if n == 5 { PictureOrientation::Rotate90HorizontalFlip }
    else if n == 6 { PictureOrientation::Rotate90 }
    else if n == 7 { PictureOrientation::Rotate90VerticalFlip }
    else if n == 8 { PictureOrientation::Rotate270 }
    else { PictureOrientation::Unspecified }
}

impl PictureOrientation {
    /// The orientation named by the EXIF tag `Exif.Image.Orientation`.
    pub fn from_exif(n: i32) -> (r: PictureOrientation)
        ensures
            r == orientation_of(n),
    {
        match n {
            1 => PictureOrientation::Normal,
            2 => PictureOrientation::HorizontalFlip,
            3 => PictureOrientation::Rotate180,
            4 => PictureOrientation::VerticalFlip,
            5 => PictureOrientation::Rotate90HorizontalFlip,
            6 => PictureOrientation::Rotate90,
            7 => PictureOrientation::Rotate90VerticalFlip,
            8 => PictureOrientation::Rotate270,
            _ => PictureOrientation::Unspecified,
        }
    }
}

/// A picture and its metadata.
#[derive(Debug, Clone, PartialEq)]
pub struct Picture {
    pub id: i64,
    pub name: String,
    pub comment: String,
    pub owner_id: i32,
    pub author_id: i32,
    /// Seconds since the Unix epoch, naive UTC.
    pub deleted_date: Option<i64>,
    pub copied: bool,
    /// Seconds since the Unix epoch, naive UTC.
    pub creation_date: i64,
    /// Seconds since the Unix epoch, naive UTC.
    pub edition_date: i64,
    /// Millionths of a degree, between -90° and 90°.
    pub latitude: Option<i64>,
    /// Millionths of a degree, between -180° and 180°.
    pub longitude: Option<i64>,
    pub altitude: Option<i16>,
    pub orientation: PictureOrientation,
    pub width: i16,
    pub height: i16,
    pub camera_brand: Option<String>,
    pub camera_model: Option<String>,
    /// Hundredths of a millimetre.
    pub focal_length: Option<i64>,
    pub exposure_time_num: Option<i32>,
    pub exposure_time_den: Option<i32>,
    pub iso_speed: Option<i32>,
    /// Tenths.
    pub f_number: Option<i64>,
    pub size_ko: i32,
}

/// What a list of pictures have in common: each field is `None` when the
/// pictures differ on it, else `Some` of their common value.
#[derive(Debug, Clone, PartialEq)]
pub struct MixedPicture {
    pub name: Option<String>,
    pub comment: Option<String>,
    pub owner_id: Option<i32>,
    pub author_id: Option<i32>,
    pub deleted_date: Option<Option<i64>>,
    pub copied: Option<bool>,
    pub creation_date: Option<i64>,
    pub edition_date: Option<i64>,
    pub latitude: Option<Option<i64>>,
    pub longitude: Option<Option<i64>>,
    pub altitude: Option<Option<i16>>,
    pub orientation: Option<PictureOrientation>,
    pub width: Option<i16>,
    pub height: Option<i16>,
    pub camera_brand: Option<Option<String>>,
    pub camera_model: Option<Option<String>>,
    pub focal_length: Option<Option<i64>>,
    pub exposure_time_num: Option<Option<i32>>,
    pub exposure_time_den: Option<Option<i32>>,
    pub iso_speed: Option<Option<i32>>,
    pub f_number: Option<Option<i64>>,
    pub total_size_ko: i32,
}

/// The view of an optional text.
pub open spec fn opt_view(s: Option<String>) -> Option<Seq<char>> {
    match s {
        Some(x) => Some(x@),
        None => None,
    }
}

fn opt_string_eq(a: &Option<String>, b: &Option<String>) -> (r: bool)
    ensures
        r == (opt_view(*a) == opt_view(*b)),
{
    match (a, b) {
        (Some(x), Some(y)) => *x == *y,
        (None, None) => true,
        _ => false,
    }
}

fn opt_string_clone(a: &Option<String>) -> (r: Option<String>)
    ensures
        r == *a,
{
    match a {
        Some(x) => Some(x.clone()),
        None => None,
    }
}

/// The sum of the sizes of pictures.
pub open spec fn total_size(s: Seq<Picture>) -> int
    decreases s.len(),
{
    if s.len() == 0 {
        0
    } else {
        total_size(s.drop_last()) + s.last().size_ko
    }
}

/// Every running total of the sizes fits in an `i32`.
pub open spec fn sizes_fit(s: Seq<Picture>) -> bool {
    forall|k: int| 0 <= k <= s.len() ==> i32::MIN <= #[trigger] total_size(s.subrange(0, k)) <= i32::MAX
}

/// For each field, whether pictures agree on it.
#[derive(Debug, Clone, Copy, PartialEq, Eq, Structural)]
pub struct SameFields {
    pub name: bool,
    pub comment: bool,
    pub owner_id: bool,
    pub author_id: bool,
    pub deleted_date: bool,
    pub copied: bool,
    pub creation_date: bool,
    pub edition_date: bool,
    pub latitude: bool,
    pub longitude: bool,
    pub altitude: bool,
    pub orientation: bool,
    pub width: bool,
    pub height: bool,
    pub camera_brand: bool,
    pub camera_model: bool,
    pub focal_length: bool,
    pub exposure_time_num: bool,
    pub exposure_time_den: bool,
    pub iso_speed: bool,
    pub f_number: bool,
}

/// The fields on which two pictures agree.
pub open spec fn field_agreement(p: Picture, q: Picture) -> SameFields {
    SameFields {
        name: p.name@ == q.name@,
        comment: p.comment@ == q.comment@,
        owner_id: p.owner_id == q.owner_id,
        author_id: p.author_id == q.author_id,
        deleted_date: p.deleted_date == q.deleted_date,
        copied: p.copied == q.copied,
        creation_date: p.creation_date == q.creation_date,
        edition_date: p.edition_date == q.edition_date,
        latitude: p.latitude == q.latitude,
        longitude: p.longitude == q.longitude,
        altitude: p.altitude == q.altitude,
        orientation: p.orientation == q.orientation,
        width: p.width == q.width,
        height: p.height == q.height,
        camera_brand: opt_view(p.camera_brand) == opt_view(q.camera_brand),
        camera_model: opt_view(p.camera_model) == opt_view(q.camera_model),
        focal_length: p.focal_length == q.focal_length,
        exposure_time_num: p.exposure_time_num == q.exposure_time_num,
        exposure_time_den: p.exposure_time_den == q.exposure_time_den,
        iso_speed: p.iso_speed == q.iso_speed,
        f_number: p.f_number == q.f_number,
    }
}

/// The fields on which both agreements hold.
pub open spec fn both(a: SameFields, b: SameFields) -> SameFields {
    SameFields {
        name: a.name && b.name,
        comment: a.comment && b.comment,
        owner_id: a.owner_id && b.owner_id,
        author_id: a.author_id && b.author_id,
        deleted_date: a.deleted_date && b.deleted_date,
        copied: a.copied && b.copied,
        creation_date: a.creation_date && b.creation_date,
        edition_date: a.edition_date && b.edition_date,
        latitude: a.latitude && b.latitude,
        longitude: a.longitude && b.longitude,
        altitude: a.altitude && b.altitude,
        orientation: a.orientation && b.orientation,
        width: a.width && b.width,
        height: a.height && b.height,
        camera_brand: a.camera_brand && b.camera_brand,
        camera_model: a.camera_model && b.camera_model,
        focal_length: a.focal_length && b.focal_length,
        exposure_time_num: a.exposure_time_num && b.exposure_time_num,
        exposure_time_den: a.exposure_time_den && b.exposure_time_den,
        iso_speed: a.iso_speed && b.iso_speed,
        f_number: a.f_number && b.f_number,
    }
}

/// Agreement on every field.
pub open spec fn full_agreement() -> SameFields {
    SameFields {
        name: true,
        comment: true,
        owner_id: true,
        author_id: true,
        deleted_date: true,
        copied: true,
        creation_date: true,
        edition_date: true,
        latitude: true,
        longitude: true,
        altitude: true,
        orientation: true,
        width: true,
        height: true,
        camera_brand: true,
        camera_model: true,
        focal_length: true,
        exposure_time_num: true,
        exposure_time_den: true,
        iso_speed: true,
        f_number: true,
    }
}

/// The fields on which every picture of `s` agrees with `first`.
pub open spec fn agreement_with(s: Seq<Picture>, first: Picture) -> SameFields
    decreases s.len(),
{
    if s.len() == 0 {
        full_agreement()
    } else {
        both(agreement_with(s.drop_last(), first), field_agreement(s.last(), first))
    }
}

fn agreement_of(p: &Picture, q: &Picture) -> (r: SameFields)
    ensures
        r == field_agreement(*p, *q),
{
    SameFields {
        name: p.name == q.name,
        comment: p.comment == q.comment,
        owner_id: p.owner_id == q.owner_id,
        author_id: p.author_id == q.author_id,
        deleted_date: p.deleted_date == q.deleted_date,
        copied: p.copied == q.copied,
        creation_date: p.creation_date == q.creation_date,
        edition_date: p.edition_date == q.edition_date,
        latitude: p.latitude == q.latitude,
        longitude: p.longitude == q.longitude,
        altitude: p.altitude == q.altitude,
        orientation: p.orientation == q.orientation,
        width: p.width == q.width,
        height: p.height == q.height,
        camera_brand: opt_string_eq(&p.camera_brand, &q.camera_brand),
        camera_model: opt_string_eq(&p.camera_model, &q.camera_model),
        focal_length: p.focal_length == q.focal_length,
        exposure_time_num: p.exposure_time_num == q.exposure_time_num,
        exposure_time_den: p.exposure_time_den == q.exposure_time_den,
        iso_speed: p.iso_speed == q.iso_speed,
        f_number: p.f_number == q.f_number,
    }
}

fn both_of(a: SameFields, b: SameFields) -> (r: SameFields)
    ensures
        r == both(a, b),
{
    SameFields {
        name: a.name && b.name,
        comment: a.comment && b.comment,
        owner_id: a.owner_id && b.owner_id,
        author_id: a.author_id && b.author_id,
        deleted_date: a.deleted_date && b.deleted_date,
        copied: a.copied && b.copied,
        creation_date: a.creation_date && b.creation_date,
        edition_date: a.edition_date && b.edition_date,
        latitude: a.latitude && b.latitude,
        longitude: a.longitude && b.longitude,
        altitude: a.altitude && b.altitude,
        orientation: a.orientation && b.orientation,
        width: a.width && b.width,
        height: a.height && b.height,
        camera_brand: a.camera_brand && b.camera_brand,
        camera_model: a.camera_model && b.camera_model,
        focal_length: a.focal_length && b.focal_length,
        exposure_time_num: a.exposure_time_num && b.exposure_time_num,
        exposure_time_den: a.exposure_time_den && b.exposure_time_den,
        iso_speed: a.iso_speed && b.iso_speed,
        f_number: a.f_number && b.f_number,
    }
}

/// What the pictures have in common: each field is `Some` of the first
/// picture's value when every picture agrees with it on that field, else
/// `None`; and their total size.
pub open spec fn mixed_picture_of(s: Seq<Picture>) -> MixedPicture {
    MixedPicture {
        total_size_ko: total_size(s) as i32,
        name: if s.len() > 0 && agreement_with(s, s[0]).name { Some(s[0].name) } else { None },
        comment: if s.len() > 0 && agreement_with(s, s[0]).comment { Some(s[0].comment) } else { None },
        owner_id: if s.len() > 0 && agreement_with(s, s[0]).owner_id { Some(s[0].owner_id) } else { None },
        author_id: if s.len() > 0 && agreement_with(s, s[0]).author_id { Some(s[0].author_id) } else { None },
        deleted_date: if s.len() > 0 && agreement_with(s, s[0]).deleted_date { Some(s[0].deleted_date) } else { None },
        copied: if s.len() > 0 && agreement_with(s, s[0]).copied { Some(s[0].copied) } else { None },
        creation_date: if s.len() > 0 && agreement_with(s, s[0]).creation_date { Some(s[0].creation_date) } else { None },
        edition_date: if s.len() > 0 && agreement_with(s, s[0]).edition_date { Some(s[0].edition_date) } else { None },
        latitude: if s.len() > 0 && agreement_with(s, s[0]).latitude { Some(s[0].latitude) } else { None },
        longitude: if s.len() > 0 && agreement_with(s, s[0]).longitude { Some(s[0].longitude) } else { None },
        altitude: if s.len() > 0 && agreement_with(s, s[0]).altitude { Some(s[0].altitude) } else { None },
        orientation: if s.len() > 0 && agreement_with(s, s[0]).orientation { Some(s[0].orientation) } else { None },
        width: if s.len() > 0 && agreement_with(s, s[0]).width { Some(s[0].width) } else { None },
        height: if s.len() > 0 && agreement_with(s, s[0]).height { Some(s[0].height) } else { None },
        camera_brand: if s.len() > 0 && agreement_with(s, s[0]).camera_brand { Some(s[0].camera_brand) } else { None },
        camera_model: if s.len() > 0 && agreement_with(s, s[0]).camera_model { Some(s[0].camera_model) } else { None },
        focal_length: if s.len() > 0 && agreement_with(s, s[0]).focal_length { Some(s[0].focal_length) } else { None },
        exposure_time_num: if s.len() > 0 && agreement_with(s, s[0]).exposure_time_num { Some(s[0].exposure_time_num) } else { None },
        exposure_time_den: if s.len() > 0 && agreement_with(s, s[0]).exposure_time_den { Some(s[0].exposure_time_den) } else { None },
        iso_speed: if s.len() > 0 && agreement_with(s, s[0]).iso_speed { Some(s[0].iso_speed) } else { None },
        f_number: if s.len() > 0 && agreement_with(s, s[0]).f_number { Some(s[0].f_number) } else { None },
    }
}

/// Two mixed pictures are equal, texts compared by their characters.
pub open spec fn same_mixed(a: MixedPicture, b: MixedPicture) -> bool {
    &&& opt_view(a.name) == opt_view(b.name)
    &&& opt_view(a.comment) == opt_view(b.comment)
    &&& a.owner_id == b.owner_id
    &&& a.author_id == b.author_id
    &&& a.deleted_date == b.deleted_date
    &&& a.copied == b.copied
    &&& a.creation_date == b.creation_date
    &&& a.edition_date == b.edition_date
    &&& a.latitude == b.latitude
    &&& a.longitude == b.longitude
    &&& a.altitude == b.altitude
    &&& a.orientation == b.orientation
    &&& a.width == b.width
    &&& a.height == b.height
    &&& opt_opt_view(a.camera_brand) == opt_opt_view(b.camera_brand)
    &&& opt_opt_view(a.camera_model) == opt_opt_view(b.camera_model)
    &&& a.focal_length == b.focal_length
    &&& a.exposure_time_num == b.exposure_time_num
    &&& a.exposure_time_den == b.exposure_time_den
    &&& a.iso_speed == b.iso_speed
    &&& a.f_number == b.f_number
    &&& a.total_size_ko == b.total_size_ko
}

/// The view of a mixed optional text.
pub open spec fn opt_opt_view(s: Option<Option<String>>) -> Option<Option<Seq<char>>> {
    match s {
        Some(x) => Some(opt_view(x)),
        None => None,
    }
}

/// Pictures agree with `first` on a field exactly when each of them has
/// the value of `first` for that field.
proof fn lemma_agreement_fields(s: Seq<Picture>, first: Picture)
    ensures
        agreement_with(s, first).name == (forall|i: int| #![trigger s[i]] 0 <= i < s.len() ==> s[i].name@ == first.name@),
        agreement_with(s, first).comment == (forall|i: int| #![trigger s[i]] 0 <= i < s.len() ==> s[i].comment@ == first.comment@),
        agreement_with(s, first).owner_id == (forall|i: int| #![trigger s[i]] 0 <= i < s.len() ==> s[i].owner_id == first.owner_id),
        agreement_with(s, first).author_id == (forall|i: int| #![trigger s[i]] 0 <= i < s.len() ==> s[i].author_id == first.author_id),
        agreement_with(s, first).deleted_date == (forall|i: int| #![trigger s[i]] 0 <= i < s.len() ==> s[i].deleted_date == first.deleted_date),
        agreement_with(s, first).copied == (forall|i: int| #![trigger s[i]] 0 <= i < s.len() ==> s[i].copied == first.copied),
        agreement_with(s, first).creation_date == (forall|i: int| #![trigger s[i]] 0 <= i < s.len() ==> s[i].creation_date == first.creation_date),
        agreement_with(s, first).edition_date == (forall|i: int| #![trigger s[i]] 0 <= i < s.len() ==> s[i].edition_date == first.edition_date),
        agreement_with(s, first).latitude == (forall|i: int| #![trigger s[i]] 0 <= i < s.len() ==> s[i].latitude == first.latitude),
        agreement_with(s, first).longitude == (forall|i: int| #![trigger s[i]] 0 <= i < s.len() ==> s[i].longitude == first.longitude),
        agreement_with(s, first).altitude == (forall|i: int| #![trigger s[i]] 0 <= i < s.len() ==> s[i].altitude == first.altitude),
        agreement_with(s, first).orientation == (forall|i: int| #![trigger s[i]] 0 <= i < s.len() ==> s[i].orientation == first.orientation),
        agreement_with(s, first).width == (forall|i: int| #![trigger s[i]] 0 <= i < s.len() ==> s[i].width == first.width),
        agreement_with(s, first).height == (forall|i: int| #![trigger s[i]] 0 <= i < s.len() ==> s[i].height == first.height),
        agreement_with(s, first).camera_brand == (forall|i: int| #![trigger s[i]] 0 <= i < s.len() ==> opt_view(s[i].camera_brand) == opt_view(first.camera_brand)),
        agreement_with(s, first).camera_model == (forall|i: int| #![trigger s[i]] 0 <= i < s.len() ==> opt_view(s[i].camera_model) == opt_view(first.camera_model)),
        agreement_with(s, first).focal_length == (forall|i: int| #![trigger s[i]] 0 <= i < s.len() ==> s[i].focal_length == first.focal_length),
        agreement_with(s, first).exposure_time_num == (forall|i: int| #![trigger s[i]] 0 <= i < s.len() ==> s[i].exposure_time_num == first.exposure_time_num),
        agreement_with(s, first).exposure_time_den == (forall|i: int| #![trigger s[i]] 0 <= i < s.len() ==> s[i].exposure_time_den == first.exposure_time_den),
        agreement_with(s, first).iso_speed == (forall|i: int| #![trigger s[i]] 0 <= i < s.len() ==> s[i].iso_speed == first.iso_speed),
        agreement_with(s, first).f_number == (forall|i: int| #![trigger s[i]] 0 <= i < s.len() ==> s[i].f_number == first.f_number),
    decreases s.len(),
{
    if s.len() > 0 {
        let t = s.drop_last();
        lemma_agreement_fields(t, first);
        assert forall|i: int| 0 <= i < t.len() implies #[trigger] t[i] == s[i] by {}
        let n = s.len() - 1;
        if forall|i: int| #![trigger t[i]] 0 <= i < t.len() ==> t[i].name@ == first.name@ {
            if s[n].name@ == first.name@ {
                assert forall|i: int| 0 <= i < s.len() implies s[i].name@ == first.name@ by {
                    if i < n {
                        assert(t[i] == s[i]);
                    }
                }
            }
        }
        if forall|i: int| #![trigger t[i]] 0 <= i < t.len() ==> t[i].comment@ == first.comment@ {
            if s[n].comment@ == first.comment@ {
                assert forall|i: int| 0 <= i < s.len() implies s[i].comment@ == first.comment@ by {
                    if i < n {
                        assert(t[i] == s[i]);
                    }
                }
            }
        }
        if forall|i: int| #![trigger t[i]] 0 <= i < t.len() ==> t[i].owner_id == first.owner_id {
            if s[n].owner_id == first.owner_id {
                assert forall|i: int| 0 <= i < s.len() implies s[i].owner_id == first.owner_id by {
                    if i < n {
                        assert(t[i] == s[i]);
                    }
                }
            }
        }
        if forall|i: int| #![trigger t[i]] 0 <= i < t.len() ==> t[i].author_id == first.author_id {
            if s[n].author_id == first.author_id {
                assert forall|i: int| 0 <= i < s.len() implies s[i].author_id == first.author_id by {
                    if i < n {
                        assert(t[i] == s[i]);
                    }
                }
            }
        }
        if forall|i: int| #![trigger t[i]] 0 <= i < t.len() ==> t[i].deleted_date == first.deleted_date {
            if s[n].deleted_date == first.deleted_date {
                assert forall|i: int| 0 <= i < s.len() implies s[i].deleted_date == first.deleted_date by {
                    if i < n {
                        assert(t[i] == s[i]);
                    }
                }
            }
        }
        if forall|i: int| #![trigger t[i]] 0 <= i < t.len() ==> t[i].copied == first.copied {
            if s[n].copied == first.copied {
                assert forall|i: int| 0 <= i < s.len() implies s[i].copied == first.copied by {
                    if i < n {
                        assert(t[i] == s[i]);
                    }
                }
            }
        }
        if forall|i: int| #![trigger t[i]] 0 <= i < t.len() ==> t[i].creation_date == first.creation_date {
            if s[n].creation_date == first.creation_date {
                assert forall|i: int| 0 <= i < s.len() implies s[i].creation_date == first.creation_date by {
                    if i < n {
                        assert(t[i] == s[i]);
                    }
                }
            }
        }
        if forall|i: int| #![trigger t[i]] 0 <= i < t.len() ==> t[i].edition_date == first.edition_date {
            if s[n].edition_date == first.edition_date {
                assert forall|i: int| 0 <= i < s.len() implies s[i].edition_date == first.edition_date by {
                    if i < n {
                        assert(t[i] == s[i]);
                    }
                }
            }
        }
        if forall|i: int| #![trigger t[i]] 0 <= i < t.len() ==> t[i].latitude == first.latitude {
            if s[n].latitude == first.latitude {
                assert forall|i: int| 0 <= i < s.len() implies s[i].latitude == first.latitude by {
                    if i < n {
                        assert(t[i] == s[i]);
                    }
                }
            }
        }
        if forall|i: int| #![trigger t[i]] 0 <= i < t.len() ==> t[i].longitude == first.longitude {
            if s[n].longitude == first.longitude {
                assert forall|i: int| 0 <= i < s.len() implies s[i].longitude == first.longitude by {
                    if i < n {
                        assert(t[i] == s[i]);
                    }
                }
            }
        }
        if forall|i: int| #![trigger t[i]] 0 <= i < t.len() ==> t[i].altitude == first.altitude {
            if s[n].altitude == first.altitude {
                assert forall|i: int| 0 <= i < s.len() implies s[i].altitude == first.altitude by {
                    if i < n {
                        assert(t[i] == s[i]);
                    }
                }
            }
        }
        if forall|i: int| #![trigger t[i]] 0 <= i < t.len() ==> t[i].orientation == first.orientation {
            if s[n].orientation == first.orientation {
                assert forall|i: int| 0 <= i < s.len() implies s[i].orientation == first.orientation by {
                    if i < n {
                        assert(t[i] == s[i]);
                    }
                }
            }
        }
        if forall|i: int| #![trigger t[i]] 0 <= i < t.len() ==> t[i].width == first.width {
            if s[n].width == first.width {
                assert forall|i: int| 0 <= i < s.len() implies s[i].width == first.width by {
                    if i < n {
                        assert(t[i] == s[i]);
                    }
                }
            }
        }
        if forall|i: int| #![trigger t[i]] 0 <= i < t.len() ==> t[i].height == first.height {
            if s[n].height == first.height {
                assert forall|i: int| 0 <= i < s.len() implies s[i].height == first.height by {
                    if i < n {
                        assert(t[i] == s[i]);
                    }
                }
            }
        }
        if forall|i: int| #![trigger t[i]] 0 <= i < t.len() ==> opt_view(t[i].camera_brand) == opt_view(first.camera_brand) {
            if opt_view(s[n].camera_brand) == opt_view(first.camera_brand) {
                assert forall|i: int| 0 <= i < s.len() implies opt_view(s[i].camera_brand) == opt_view(first.camera_brand) by {
                    if i < n {
                        assert(t[i] == s[i]);
                    }
                }
            }
        }
        if forall|i: int| #![trigger t[i]] 0 <= i < t.len() ==> opt_view(t[i].camera_model) == opt_view(first.camera_model) {
            if opt_view(s[n].camera_model) == opt_view(first.camera_model) {
                assert forall|i: int| 0 <= i < s.len() implies opt_view(s[i].camera_model) == opt_view(first.camera_model) by {
                    if i < n {
                        assert(t[i] == s[i]);
                    }
                }
            }
        }
        if forall|i: int| #![trigger t[i]] 0 <= i < t.len() ==> t[i].focal_length == first.focal_length {
            if s[n].focal_length == first.focal_length {
                assert forall|i: int| 0 <= i < s.len() implies s[i].focal_length == first.focal_length by {
                    if i < n {
                        assert(t[i] == s[i]);
                    }
                }
            }
        }
        if forall|i: int| #![trigger t[i]] 0 <= i < t.len() ==> t[i].exposure_time_num == first.exposure_time_num {
            if s[n].exposure_time_num == first.exposure_time_num {
                assert forall|i: int| 0 <= i < s.len() implies s[i].exposure_time_num == first.exposure_time_num by {
                    if i < n {
                        assert(t[i] == s[i]);
                    }
                }
            }
        }
        if forall|i: int| #![trigger t[i]] 0 <= i < t.len() ==> t[i].exposure_time_den == first.exposure_time_den {
            if s[n].exposure_time_den == first.exposure_time_den {
                assert forall|i: int| 0 <= i < s.len() implies s[i].exposure_time_den == first.exposure_time_den by {
                    if i < n {
                        assert(t[i] == s[i]);
                    }
                }
            }
        }
        if forall|i: int| #![trigger t[i]] 0 <= i < t.len() ==> t[i].iso_speed == first.iso_speed {
            if s[n].iso_speed == first.iso_speed {
                assert forall|i: int| 0 <= i < s.len() implies s[i].iso_speed == first.iso_speed by {
                    if i < n {
                        assert(t[i] == s[i]);
                    }
                }
            }
        }
        if forall|i: int| #![trigger t[i]] 0 <= i < t.len() ==> t[i].f_number == first.f_number {
            if s[n].f_number == first.f_number {
                assert forall|i: int| 0 <= i < s.len() implies s[i].f_number == first.f_number by {
                    if i < n {
                        assert(t[i] == s[i]);
                    }
                }
            }
        }
    }
}

/// What pictures have in common, field by field: a field of the mixed
/// picture is the value that every picture has for it, when they all have
/// the same, and nothing otherwise; the sizes add up. So a field depends
/// only on that field of the pictures.
pub proof fn law_mixed_picture_fields(s: Seq<Picture>)
    ensures
        ({ let m = mixed_picture_of(s); opt_view(m.name) == if s.len() > 0 && forall|i: int| #![trigger s[i]] 0 <= i < s.len() ==> s[i].name@ == s[0].name@ { Some(s[0].name@) } else { None } }),
        ({ let m = mixed_picture_of(s); opt_view(m.comment) == if s.len() > 0 && forall|i: int| #![trigger s[i]] 0 <= i < s.len() ==> s[i].comment@ == s[0].comment@ { Some(s[0].comment@) } else { None } }),
        ({ let m = mixed_picture_of(s); m.owner_id == if s.len() > 0 && forall|i: int| #![trigger s[i]] 0 <= i < s.len() ==> s[i].owner_id == s[0].owner_id { Some(s[0].owner_id) } else { None } }),
        ({ let m = mixed_picture_of(s); m.author_id == if s.len() > 0 && forall|i: int| #![trigger s[i]] 0 <= i < s.len() ==> s[i].author_id == s[0].author_id { Some(s[0].author_id) } else { None } }),
        ({ let m = mixed_picture_of(s); m.deleted_date == if s.len() > 0 && forall|i: int| #![trigger s[i]] 0 <= i < s.len() ==> s[i].deleted_date == s[0].deleted_date { Some(s[0].deleted_date) } else { None } }),
        ({ let m = mixed_picture_of(s); m.copied == if s.len() > 0 && forall|i: int| #![trigger s[i]] 0 <= i < s.len() ==> s[i].copied == s[0].copied { Some(s[0].copied) } else { None } }),
        ({ let m = mixed_picture_of(s); m.creation_date == if s.len() > 0 && forall|i: int| #![trigger s[i]] 0 <= i < s.len() ==> s[i].creation_date == s[0].creation_date { Some(s[0].creation_date) } else { None } }),
        ({ let m = mixed_picture_of(s); m.edition_date == if s.len() > 0 && forall|i: int| #![trigger s[i]] 0 <= i < s.len() ==> s[i].edition_date == s[0].edition_date { Some(s[0].edition_date) } else { None } }),
        ({ let m = mixed_picture_of(s); m.latitude == if s.len() > 0 && forall|i: int| #![trigger s[i]] 0 <= i < s.len() ==> s[i].latitude == s[0].latitude { Some(s[0].latitude) } else { None } }),
        ({ let m = mixed_picture_of(s); m.longitude == if s.len() > 0 && forall|i: int| #![trigger s[i]] 0 <= i < s.len() ==> s[i].longitude == s[0].longitude { Some(s[0].longitude) } else { None } }),
        ({ let m = mixed_picture_of(s); m.altitude == if s.len() > 0 && forall|i: int| #![trigger s[i]] 0 <= i < s.len() ==> s[i].altitude == s[0].altitude { Some(s[0].altitude) } else { None } }),
        ({ let m = mixed_picture_of(s); m.orientation == if s.len() > 0 && forall|i: int| #![trigger s[i]] 0 <= i < s.len() ==> s[i].orientation == s[0].orientation { Some(s[0].orientation) } else { None } }),
        ({ let m = mixed_picture_of(s); m.width == if s.len() > 0 && forall|i: int| #![trigger s[i]] 0 <= i < s.len() ==> s[i].width == s[0].width { Some(s[0].width) } else { None } }),
        ({ let m = mixed_picture_of(s); m.height == if s.len() > 0 && forall|i: int| #![trigger s[i]] 0 <= i < s.len() ==> s[i].height == s[0].height { Some(s[0].height) } else { None } }),
        ({ let m = mixed_picture_of(s); opt_opt_view(m.camera_brand) == if s.len() > 0 && forall|i: int| #![trigger s[i]] 0 <= i < s.len() ==> opt_view(s[i].camera_brand) == opt_view(s[0].camera_brand) { Some(opt_view(s[0].camera_brand)) } else { None } }),
        ({ let m = mixed_picture_of(s); opt_opt_view(m.camera_model) == if s.len() > 0 && forall|i: int| #![trigger s[i]] 0 <= i < s.len() ==> opt_view(s[i].camera_model) == opt_view(s[0].camera_model) { Some(opt_view(s[0].camera_model)) } else { None } }),
        ({ let m = mixed_picture_of(s); m.focal_length == if s.len() > 0 && forall|i: int| #![trigger s[i]] 0 <= i < s.len() ==> s[i].focal_length == s[0].focal_length { Some(s[0].focal_length) } else { None } }),
        ({ let m = mixed_picture_of(s); m.exposure_time_num == if s.len() > 0 && forall|i: int| #![trigger s[i]] 0 <= i < s.len() ==> s[i].exposure_time_num == s[0].exposure_time_num { Some(s[0].exposure_time_num) } else { None } }),
        ({ let m = mixed_picture_of(s); m.exposure_time_den == if s.len() > 0 && forall|i: int| #![trigger s[i]] 0 <= i < s.len() ==> s[i].exposure_time_den == s[0].exposure_time_den { Some(s[0].exposure_time_den) } else { None } }),
        ({ let m = mixed_picture_of(s); m.iso_speed == if s.len() > 0 && forall|i: int| #![trigger s[i]] 0 <= i < s.len() ==> s[i].iso_speed == s[0].iso_speed { Some(s[0].iso_speed) } else { None } }),
        ({ let m = mixed_picture_of(s); m.f_number == if s.len() > 0 && forall|i: int| #![trigger s[i]] 0 <= i < s.len() ==> s[i].f_number == s[0].f_number { Some(s[0].f_number) } else { None } }),
        mixed_picture_of(s).total_size_ko == total_size(s) as i32,
{
    if s.len() > 0 {
        lemma_agreement_fields(s, s[0]);
    }
}

proof fn lemma_total_size_remove(s: Seq<Picture>, i: int)
    requires
        0 <= i < s.len(),
    ensures
        total_size(s) == total_size(s.remove(i)) + s[i].size_ko,
    decreases s.len(),
{
    if i == s.len() - 1 {
        assert(s.remove(i) =~= s.drop_last());
    } else {
        lemma_total_size_remove(s.drop_last(), i);
        assert(s.remove(i).drop_last() =~= s.drop_last().remove(i));
        assert(s.remove(i).last() == s.last());
    }
}

proof fn lemma_agreement_remove(s: Seq<Picture>, first: Picture, i: int)
    requires
        0 <= i < s.len(),
    ensures
        agreement_with(s, first) == both(agreement_with(s.remove(i), first), field_agreement(s[i], first)),
    decreases s.len(),
{
    if i == s.len() - 1 {
        assert(s.remove(i) =~= s.drop_last());
    } else {
        lemma_agreement_remove(s.drop_last(), first, i);
        assert(s.remove(i).drop_last() =~= s.drop_last().remove(i));
        assert(s.remove(i).last() == s.last());
    }
}

/// Pictures in another order have the same total size and agree with a
/// picture on the same fields.
proof fn lemma_permuted_pictures(s: Seq<Picture>, q: Seq<Picture>, first: Picture)
    requires
        q.to_multiset() == s.to_multiset(),
    ensures
        total_size(q) == total_size(s),
        agreement_with(q, first) == agreement_with(s, first),
    decreases s.len(),
{
    broadcast use vstd::seq_lib::group_to_multiset_ensures;
    assert(q.len() == q.to_multiset().len() && s.len() == s.to_multiset().len());
    if s.len() == 0 {
        assert(q =~= Seq::<Picture>::empty());
    } else {
        let x = s.last();
        let s1 = s.drop_last();
        assert(s =~= s1.push(x));
        assert(s.to_multiset() =~= s1.to_multiset().insert(x));
        assert(s.to_multiset().count(x) > 0);
        assert(q.contains(x));
        let i = choose|i: int| 0 <= i < q.len() && q[i] == x;
        let q1 = q.remove(i);
        assert(q1.to_multiset() =~= q.to_multiset().remove(x));
        assert(q1.to_multiset() =~= s1.to_multiset());
        lemma_permuted_pictures(s1, q1, first);
        lemma_total_size_remove(q, i);
        lemma_agreement_remove(q, first, i);
    }
}

/// Agreeing with `a` on the fields where `a` and `b` agree is agreeing
/// with `b` there.
proof fn lemma_agreement_rebase(s: Seq<Picture>, a: Picture, b: Picture)
    ensures
        both(agreement_with(s, a), field_agreement(a, b)) == both(agreement_with(s, b), field_agreement(a, b)),
    decreases s.len(),
{
    if s.len() > 0 {
        lemma_agreement_rebase(s.drop_last(), a, b);
    }
}

/// When every picture agrees with `a` on a field, so does each picture.
proof fn lemma_agreement_member(s: Seq<Picture>, a: Picture, i: int)
    requires
        0 <= i < s.len(),
    ensures
        both(agreement_with(s, a), field_agreement(s[i], a)) == agreement_with(s, a),
    decreases s.len(),
{
    if i < s.len() - 1 {
        lemma_agreement_member(s.drop_last(), a, i);
    }
}

/// Pictures agree with one of them on the same fields as with any other.
proof fn lemma_agreement_any_member(s: Seq<Picture>, i: int, j: int)
    requires
        0 <= i < s.len(),
        0 <= j < s.len(),
    ensures
        agreement_with(s, s[i]) == agreement_with(s, s[j]),
        both(agreement_with(s, s[i]), field_agreement(s[i], s[j])) == agreement_with(s, s[i]),
{
    lemma_agreement_member(s, s[i], j);
    lemma_agreement_member(s, s[j], i);
    lemma_agreement_rebase(s, s[i], s[j]);
}

/// What pictures have in common does not depend on their order.
pub proof fn law_mixed_picture_order_free(s: Seq<Picture>, q: Seq<Picture>)
    requires
        q.to_multiset() == s.to_multiset(),
    ensures
        same_mixed(mixed_picture_of(q), mixed_picture_of(s)),
{
    broadcast use vstd::seq_lib::group_to_multiset_ensures;
    lemma_permuted_pictures(s, q, s[0]);
    assert(q.len() == s.len()) by {
        assert(q.len() == q.to_multiset().len());
    }
    if s.len() > 0 {
        assert(s.to_multiset().count(q[0]) > 0) by {
            assert(q.contains(q[0]));
        }
        let j = choose|j: int| 0 <= j < s.len() && s[j] == q[0];
        assert(q.to_multiset().count(s[0]) > 0) by {
            assert(s.contains(s[0]));
        }
        let k = choose|k: int| 0 <= k < q.len() && q[k] == s[0];
        lemma_agreement_any_member(q, 0, k);
        lemma_agreement_any_member(s, 0, j);
    }
}

impl Picture {
    /// The picture to insert for an upload: what its metadata tells, owned
    /// and authored by the uploader, under the uploaded name and size.
    pub fn for_upload(metadata: Picture, user_id: i32, name: String, size_ko: i32) -> (r: Picture)
        ensures
            r == (Picture { owner_id: user_id, author_id: user_id, name: name, size_ko: size_ko, ..metadata }),
    {
        let mut p = metadata;
        p.owner_id = user_id;
        p.author_id = user_id;
        p.name = name;
        p.size_ko = size_ko;
        p
    }

    /// Calculate mixed picture properties from a list of pictures: a field
    /// is `Some` of the first picture's value when every picture agrees
    /// with it on that field, texts compared by their characters.
    pub fn calculate_mixed_picture(pictures: &[Picture]) -> (r: MixedPicture)
        requires
            sizes_fit(pictures@),
        ensures
            r == mixed_picture_of(pictures@),
            r.total_size_ko == total_size(pictures@),
    {
        if pictures.len() == 0 {
            return MixedPicture {
                name: None,
                comment: None,
                owner_id: None,
                author_id: None,
                deleted_date: None,
                copied: None,
                creation_date: None,
                edition_date: None,
                latitude: None,
                longitude: None,
                altitude: None,
                orientation: None,
                width: None,
                height: None,
                camera_brand: None,
                camera_model: None,
                focal_length: None,
                exposure_time_num: None,
                exposure_time_den: None,
                iso_speed: None,
                f_number: None,
                total_size_ko: 0,
            };
        }
        let first = &pictures[0];
        let mut total: i32 = 0;
        let mut same = SameFields {
            name: true,
            comment: true,
            owner_id: true,
            author_id: true,
            deleted_date: true,
            copied: true,
            creation_date: true,
            edition_date: true,
            latitude: true,
            longitude: true,
            altitude: true,
            orientation: true,
            width: true,
            height: true,
            camera_brand: true,
            camera_model: true,
            focal_length: true,
            exposure_time_num: true,
            exposure_time_den: true,
            iso_speed: true,
            f_number: true,
        };
        let mut i: usize = 0;
        assert(pictures@.subrange(0, 0) =~= Seq::<Picture>::empty());
        while i < pictures.len()
            invariant
                i <= pictures@.len(),
                pictures@.len() > 0,
                *first == pictures@[0],
                sizes_fit(pictures@),
                total == total_size(pictures@.subrange(0, i as int)),
                same == agreement_with(pictures@.subrange(0, i as int), *first),
            decreases pictures.len() - i,
        {
            let p = &pictures[i];
            proof {
                assert(pictures@.subrange(0, i + 1).drop_last() =~= pictures@.subrange(0, i as int));
                assert(i32::MIN <= total_size(pictures@.subrange(0, i + 1)) <= i32::MAX);
            }
            total = total + p.size_ko;
            same = both_of(same, agreement_of(p, first));
            i = i + 1;
        }
        assert(pictures@.subrange(0, pictures@.len() as int) =~= pictures@);
        MixedPicture {
            name: if same.name { Some(first.name.clone()) } else { None },
            comment: if same.comment { Some(first.comment.clone()) } else { None },
            owner_id: if same.owner_id { Some(first.owner_id) } else { None },
            author_id: if same.author_id { Some(first.author_id) } else { None },
            deleted_date: if same.deleted_date { Some(first.deleted_date) } else { None },
            copied: if same.copied { Some(first.copied) } else { None },
            creation_date: if same.creation_date { Some(first.creation_date) } else { None },
            edition_date: if same.edition_date { Some(first.edition_date) } else { None },
            latitude: if same.latitude { Some(first.latitude) } else { None },
            longitude: if same.longitude { Some(first.longitude) } else { None },
            altitude: if same.altitude { Some(first.altitude) } else { None },
            orientation: if same.orientation { Some(first.orientation) } else { None },
            width: if same.width { Some(first.width) } else { None },
            height: if same.height { Some(first.height) } else { None },
            camera_brand: if same.camera_brand { Some(opt_string_clone(&first.camera_brand)) } else { None },
            camera_model: if same.camera_model { Some(opt_string_clone(&first.camera_model)) } else { None },
            focal_length: if same.focal_length { Some(first.focal_length) } else { None },
            exposure_time_num: if same.exposure_time_num { Some(first.exposure_time_num) } else { None },
            exposure_time_den: if same.exposure_time_den { Some(first.exposure_time_den) } else { None },
            iso_speed: if same.iso_speed { Some(first.iso_speed) } else { None },
            f_number: if same.f_number { Some(first.f_number) } else { None },
            total_size_ko: total,
        }
    }
}

/// What a list of pictures have in common, with their tags and ratings.
#[derive(Debug, Clone, PartialEq)]
pub struct MixedPictureDetails {
    pub pictures: MixedPicture,
    /// Tags that all pictures have.
    pub common_tags_ids: Vec<i32>,
    /// Tags that some but not all pictures have.
    pub mixed_tags_ids: Vec<i32>,
    /// Average of the user's ratings, `None` without any.
    pub average_user_rating: Option<i16>,
    /// Average of all the ratings, `None` without any.
    pub average_global_rating: Option<i16>,
    /// The other users that rated the pictures.
    pub rating_users: Vec<i32>,
}

impl Picture {
    /// The details of the pictures `picture_ids` that the user can see:
    /// `pictures` are those found of them, `tag_rows` the (picture, tag)
    /// pairs of their tags of the user and `ratings` their ratings. Refused
    /// for an empty list of ids, and when no picture was found.
    pub fn get_mixed_picture_details(
        user_id: i32,
        picture_ids: &Vec<i64>,
        pictures: &Vec<Picture>,
        tag_rows: &Vec<(i64, i32)>,
        ratings: &Vec<Rating>,
    ) -> (r: Result<MixedPictureDetails, ErrorResponder>)
        requires
            sizes_fit(pictures@),
            countable(ratings@),
            countable(ratings_by(ratings@, user_id)),
        ensures
            picture_ids@.len() == 0 ==> (r matches Err(e) && answers_with(
                e,
                422,
                ErrorTypeKind::UnprocessableEntity,
                "Picture IDs list cannot be empty"@,
            )),
            picture_ids@.len() > 0 && pictures@.len() == 0 ==> (r matches Err(e) && answers(
                e,
                ErrorType::PictureNotFound,
                false,
            )),
            picture_ids@.len() > 0 && pictures@.len() > 0 ==> (r matches Ok(d) && {
                &&& d.pictures == mixed_picture_of(pictures@)
                &&& strictly_sorted(d.common_tags_ids@)
                &&& strictly_sorted(d.mixed_tags_ids@)
                &&& forall|t: i32| #[trigger] d.common_tags_ids@.contains(t) <==> row_tags(tag_rows@).contains(t)
                    && tag_count(tag_rows@, t) == picture_ids@.len()
                &&& forall|t: i32| #[trigger] d.mixed_tags_ids@.contains(t) <==> row_tags(tag_rows@).contains(t)
                    && tag_count(tag_rows@, t) != picture_ids@.len()
                &&& d.average_user_rating == average_of(ratings_by(ratings@, user_id))
                &&& d.average_global_rating == average_of(ratings@)
                &&& strictly_sorted(d.rating_users@)
                &&& d.rating_users@.to_set() == other_raters(ratings@, user_id)
            }),
    {
        if picture_ids.len() == 0 {
            return Err(ErrorType::UnprocessableEntity(String::from_str("Picture IDs list cannot be empty")).res());
        }
        if pictures.len() == 0 {
            return Err(ErrorType::PictureNotFound.res());
        }
        let mixed = Picture::calculate_mixed_picture(pictures.as_slice());
        let (common_tags_ids, mixed_tags_ids) = PictureTag::get_mixed_pictures_tags(tag_rows, picture_ids.len());
        let (average_user_rating, average_global_rating, rating_users) = Rating::get_mixed_pictures_ratings(ratings, user_id);
        Ok(MixedPictureDetails {
            pictures: mixed,
            common_tags_ids,
            mixed_tags_ids,
            average_user_rating,
            average_global_rating,
            rating_users,
        })
    }
}

} // verus!
