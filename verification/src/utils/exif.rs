use vstd::prelude::*;
use vstd::string::StringExecFns;

use crate::database::picture::{orientation_of, Picture, PictureOrientation};

verus! {

/// What the EXIF metadata of a picture file tells, as read from the file:
/// the values of the tags, the coordinates already in millionths of a
/// degree, the focal length in hundredths of a millimetre and the
/// aperture in tenths.
#[derive(Debug, Clone, PartialEq)]
pub struct ExifValues {
    /// `Exif.Image.ImageDescription`.
    pub description: Option<String>,
    /// The creation date tags, in order of preference: `Exif.Image.DateTime`,
    /// `Exif.Image.DateTimeOriginal`, `Exif.Image.DateTimeDigitized`.
    pub creation_dates: Vec<Option<String>>,
    /// The edition date tags, in order of preference:
    /// `Exif.Photo.DateTimeOriginal`, `Exif.Photo.DateTimeDigitized`.
    pub edition_dates: Vec<Option<String>>,
    pub latitude: Option<i64>,
    pub longitude: Option<i64>,
    pub altitude: Option<i16>,
    /// `Exif.Image.Orientation`, 0 when absent.
    pub orientation: i32,
    pub pixel_width: i32,
    pub pixel_height: i32,
    /// `Exif.Image.Make`.
    pub make: Option<String>,
    /// `Exif.Image.Model`.
    pub model: Option<String>,
    pub focal_length: Option<i64>,
    /// `Exif.Photo.ExposureTime`, as numerator and denominator.
    pub exposure_time: Option<(i32, i32)>,
    /// The numbers of the ISO tags, in order of preference, 0 when absent.
    pub iso_values: Vec<i32>,
    pub f_number: Option<i64>,
}

/// The seconds since the Unix epoch (naive, UTC) of a date written as
/// `%Y:%m:%d %H:%M:%S`, when the text reads as such a date, as chrono's
/// `NaiveDateTime::parse_from_str` reads it.
pub uninterp spec fn exif_date_seconds(text: Seq<char>) -> Option<i64>;

/// `chrono::NaiveDateTime::parse_from_str` with the format
/// `%Y:%m:%d %H:%M:%S`, the date then taken as UTC and counted in seconds
/// since the Unix epoch by `timestamp`: the result depends on the text
/// alone.
#[verifier::external_body]
fn parse_exif_date(text: &str) -> (r: Option<i64>)
    ensures
        r == exif_date_seconds(text@),
{
    chrono::NaiveDateTime::parse_from_str(text, "%Y:%m:%d %H:%M:%S").ok().map(|d| d.and_utc().timestamp())
}

/// The first of the values that is there.
pub open spec fn first_present(values: Seq<Option<String>>) -> Option<String>
    decreases values.len(),
{
    if values.len() == 0 {
        None
    } else {
        match first_present(values.drop_last()) {
            Some(v) => Some(v),
            None => values.last(),
        }
    }
}

/// The first of the numbers that is not 0.
pub open spec fn first_nonzero(values: Seq<i32>) -> Option<i32>
    decreases values.len(),
{
    if values.len() == 0 {
        None
    } else {
        match first_nonzero(values.drop_last()) {
            Some(v) => Some(v),
            None => if values.last() != 0 { Some(values.last()) } else { None },
        }
    }
}

/// The date a date text gives, when there is one that reads as a date.
pub open spec fn parsed_date(text: Option<String>) -> Option<i64> {
    match text {
        Some(t) => exif_date_seconds(t@),
        None => None,
    }
}

/// The first of the tag values that is there.
fn first_tag(values: &Vec<Option<String>>) -> (r: Option<String>)
    ensures
        r == first_present(values@),
{
    let mut i: usize = 0;
    while i < values.len()
        invariant
            i <= values@.len(),
            first_present(values@.subrange(0, i as int)) is None,
        decreases values.len() - i,
    {
        assert(values@.subrange(0, i + 1).drop_last() =~= values@.subrange(0, i as int));
        if let Some(v) = &values[i] {
            proof {
                lemma_first_present_prefix(values@, i as int + 1);
            }
            return Some(v.clone());
        }
        i = i + 1;
    }
    assert(values@.subrange(0, values@.len() as int) =~= values@);
    None
}

proof fn lemma_first_present_prefix(values: Seq<Option<String>>, n: int)
    requires
        0 <= n <= values.len(),
        first_present(values.subrange(0, n)) is Some,
    ensures
        first_present(values) == first_present(values.subrange(0, n)),
    decreases values.len() - n,
{
    if n < values.len() {
        assert(values.subrange(0, n + 1).drop_last() =~= values.subrange(0, n));
        lemma_first_present_prefix(values, n + 1);
    } else {
        assert(values.subrange(0, n) =~= values);
    }
}

proof fn lemma_first_nonzero_prefix(values: Seq<i32>, n: int)
    requires
        0 <= n <= values.len(),
        first_nonzero(values.subrange(0, n)) is Some,
    ensures
        first_nonzero(values) == first_nonzero(values.subrange(0, n)),
    decreases values.len() - n,
{
    if n < values.len() {
        assert(values.subrange(0, n + 1).drop_last() =~= values.subrange(0, n));
        lemma_first_nonzero_prefix(values, n + 1);
    } else {
        assert(values.subrange(0, n) =~= values);
    }
}

/// The first of the numbers that is not 0.
fn first_nonzero_value(values: &Vec<i32>) -> (r: Option<i32>)
    ensures
        r == first_nonzero(values@),
{
    let mut i: usize = 0;
    while i < values.len()
        invariant
            i <= values@.len(),
            first_nonzero(values@.subrange(0, i as int)) is None,
        decreases values.len() - i,
    {
        assert(values@.subrange(0, i + 1).drop_last() =~= values@.subrange(0, i as int));
        if values[i] != 0 {
            proof {
                lemma_first_nonzero_prefix(values@, i as int + 1);
            }
            return Some(values[i]);
        }
        i = i + 1;
    }
    assert(values@.subrange(0, values@.len() as int) =~= values@);
    None
}

/// `p` is the picture that EXIF values describe, not stored yet and owned
/// by no one: its comment is the description, or else empty; its creation
/// date the parsed creation date, or else the Unix epoch; its edition date
/// the parsed edition date, or else `now`. Its sizes are the pixel sizes
/// cut to 16 bits, its ISO speed the first ISO number that is not 0.
pub open spec fn describes_exif(p: Picture, v: ExifValues, creation: Option<i64>, edition: Option<i64>, now: i64) -> bool {
    &&& p.id == 0 && p.owner_id == 0 && p.author_id == 0 && p.size_ko == 0
    &&& p.name@ == Seq::<char>::empty()
    &&& p.comment@ == match v.description {
        Some(d) => d@,
        None => Seq::<char>::empty(),
    }
    &&& p.deleted_date is None && !p.copied
    &&& p.creation_date == match creation {
        Some(c) => c,
        None => 0,
    }
    &&& p.edition_date == match edition {
        Some(e) => e,
        None => now,
    }
    &&& p.latitude == v.latitude && p.longitude == v.longitude && p.altitude == v.altitude
    &&& p.orientation == orientation_of(v.orientation)
    &&& p.width == v.pixel_width as i16 && p.height == v.pixel_height as i16
    &&& p.camera_brand == v.make && p.camera_model == v.model
    &&& p.focal_length == v.focal_length
    &&& p.exposure_time_num == match v.exposure_time {
        Some(t) => Some(t.0),
        None => None,
    }
    &&& p.exposure_time_den == match v.exposure_time {
        Some(t) => Some(t.1),
        None => None,
    }
    &&& p.iso_speed == first_nonzero(v.iso_values@)
    &&& p.f_number == v.f_number
}

impl Picture {
    /// The picture that EXIF values describe, given the dates read from
    /// their date texts; see [`describes_exif`].
    pub fn from_exif_values(v: ExifValues, creation: Option<i64>, edition: Option<i64>, now: i64) -> (r: Picture)
        ensures
            describes_exif(r, v, creation, edition, now),
    {
        let iso_speed = first_nonzero_value(&v.iso_values);
        let orientation = PictureOrientation::from_exif(v.orientation);
        let (exposure_time_num, exposure_time_den) = match v.exposure_time {
            Some((n, d)) => (Some(n), Some(d)),
            None => (None, None),
        };
        Picture {
            id: 0,
            name: String::new(),
            comment: match v.description {
                Some(d) => d,
                None => String::new(),
            },
            owner_id: 0,
            author_id: 0,
            deleted_date: None,
            copied: false,
            creation_date: match creation {
                Some(c) => c,
                None => 0,
            },
            edition_date: match edition {
                Some(e) => e,
                None => now,
            },
            latitude: v.latitude,
            longitude: v.longitude,
            altitude: v.altitude,
            orientation,
            width: v.pixel_width as i16,
            height: v.pixel_height as i16,
            camera_brand: v.make,
            camera_model: v.model,
            focal_length: v.focal_length,
            exposure_time_num,
            exposure_time_den,
            iso_speed,
            f_number: v.f_number,
            size_ko: 0,
        }
    }

    /// The picture that EXIF values describe, at the date `now`: the first
    /// creation and edition date texts that are there are read as dates.
    pub fn from_exif(v: ExifValues, now: i64) -> (r: Picture)
        ensures
            describes_exif(
                r,
                v,
                parsed_date(first_present(v.creation_dates@)),
                parsed_date(first_present(v.edition_dates@)),
                now,
            ),
    {
        let creation = match first_tag(&v.creation_dates) {
            Some(t) => parse_exif_date(t.as_str()),
            None => None,
        };
        let edition = match first_tag(&v.edition_dates) {
            Some(t) => parse_exif_date(t.as_str()),
            None => None,
        };
        Picture::from_exif_values(v, creation, edition, now)
    }

    /// The picture of a file without EXIF metadata, at the date `now`.
    pub fn without_exif(now: i64) -> (r: Picture)
        ensures
            r.id == 0 && r.owner_id == 0 && r.author_id == 0 && r.size_ko == 0,
            r.name@ == Seq::<char>::empty() && r.comment@ == Seq::<char>::empty(),
            r.deleted_date is None && !r.copied,
            r.creation_date == 0 && r.edition_date == now,
            r.latitude is None && r.longitude is None && r.altitude is None,
            r.orientation == PictureOrientation::Unspecified,
            r.width == 0 && r.height == 0,
            r.camera_brand is None && r.camera_model is None,
            r.focal_length is None && r.exposure_time_num is None && r.exposure_time_den is None,
            r.iso_speed is None && r.f_number is None,
    {
        Picture {
            id: 0,
            name: String::new(),
            comment: String::new(),
            owner_id: 0,
            author_id: 0,
            deleted_date: None,
            copied: false,
            creation_date: 0,
            edition_date: now,
            latitude: None,
            longitude: None,
            altitude: None,
            orientation: PictureOrientation::Unspecified,
            width: 0,
            height: 0,
            camera_brand: None,
            camera_model: None,
            focal_length: None,
            exposure_time_num: None,
            exposure_time_den: None,
            iso_speed: None,
            f_number: None,
            size_ko: 0,
        }
    }
}

} // verus!
