use vstd::prelude::*;

use crate::utils::auth::{decimal_text, parse_decimal, law_decimal_round_trip, unsigned_digits, all_digits, is_digit};
use crate::utils::utils::decimal;
use crate::utils::errors_catcher::{answers_with, ErrorResponder, ErrorType, ErrorTypeKind};
use vstd::string::StringExecFns;

verus! {

/// The sizes in which a picture is stored: the original file and three
/// thumbnails of growing height.
#[derive(Debug, PartialEq, Eq, Structural, Clone, Copy)]
pub enum PictureThumbnail {
    Original,
    Small,
    Medium,
    Large,
}

/// The height in pixels of a thumbnail; the original keeps its own.
pub open spec fn thumbnail_height(t: PictureThumbnail) -> Option<usize> {
    match t {
        PictureThumbnail::Original => None,
        PictureThumbnail::Small => Some(100usize),
        PictureThumbnail::Medium => Some(500usize),
        PictureThumbnail::Large => Some(1000usize),
    }
}

/// The thumbnail kind a number names, in declaration order from zero.
pub open spec fn thumbnail_of_index(i: int) -> Option<PictureThumbnail> {
    if i == 0 {
        Some(PictureThumbnail::Original)
    } else if i == 1 {
        Some(PictureThumbnail::Small)
    } else if i == 2 {
        Some(PictureThumbnail::Medium)
    } else if i == 3 {
        Some(PictureThumbnail::Large)
    } else {
        None
    }
}

/// The thumbnail kind a lower case name names.
pub open spec fn thumbnail_of_name(s: Seq<char>) -> Option<PictureThumbnail> {
    if s == "original"@ {
        Some(PictureThumbnail::Original)
    } else if s == "small"@ {
        Some(PictureThumbnail::Small)
    } else if s == "medium"@ {
        Some(PictureThumbnail::Medium)
    } else if s == "large"@ {
        Some(PictureThumbnail::Large)
    } else {
        None
    }
}

/// The number a path parameter writes, when it reads as a `usize`.
pub open spec fn index_param(s: Seq<char>) -> Option<int> {
    match decimal_text(s) {
        Some(v) => if v <= usize::MAX { Some(v) } else { None },
        None => None,
    }
}

/// The answer to a path parameter naming a thumbnail: by its number when
/// the parameter is a number, else by its name.
pub open spec fn thumbnail_param_answer(s: Seq<char>, r: Result<PictureThumbnail, ErrorResponder>) -> bool {
    match index_param(s) {
        Some(i) => match thumbnail_of_index(i) {
            Some(t) => r == Ok::<PictureThumbnail, ErrorResponder>(t),
            None => r matches Err(e) && answers_with(e, 404, ErrorTypeKind::NotFound,
                "Not found: "@ + "Invalid thumbnail index"@),
        },
        None => match thumbnail_of_name(s) {
            Some(t) => r == Ok::<PictureThumbnail, ErrorResponder>(t),
            None => r matches Err(e) && answers_with(e, 404, ErrorTypeKind::NotFound,
                "Not found: "@ + "Invalid thumbnail type"@),
        },
    }
}

/// The position of a thumbnail kind among the kinds.
pub open spec fn thumbnail_index(t: PictureThumbnail) -> int {
    match t {
        PictureThumbnail::Original => 0,
        PictureThumbnail::Small => 1,
        PictureThumbnail::Medium => 2,
        PictureThumbnail::Large => 3,
    }
}

/// The lower case name of a thumbnail kind.
pub open spec fn thumbnail_name(t: PictureThumbnail) -> Seq<char> {
    match t {
        PictureThumbnail::Original => "original"@,
        PictureThumbnail::Small => "small"@,
        PictureThumbnail::Medium => "medium"@,
        PictureThumbnail::Large => "large"@,
    }
}

/// Every thumbnail kind is read back from its position, written in
/// decimal, and from its lower case name.
pub proof fn law_thumbnail_param_round_trip(t: PictureThumbnail)
    ensures
        thumbnail_param_answer(decimal(thumbnail_index(t)), Ok::<PictureThumbnail, ErrorResponder>(t)),
        thumbnail_param_answer(thumbnail_name(t), Ok::<PictureThumbnail, ErrorResponder>(t)),
{
    law_decimal_round_trip(thumbnail_index(t) as nat);
    reveal_strlit("original");
    reveal_strlit("small");
    reveal_strlit("medium");
    reveal_strlit("large");
    let n = thumbnail_name(t);
    assert(!is_digit(n[0]));
    assert(unsigned_digits(n) == n);
    assert(!all_digits(n));
}

/// The text equals the literal.
fn text_is(s: &str, lit: &str) -> (r: bool)
    ensures
        r == (s@ == lit@),
{
    String::from_str(s) == String::from_str(lit)
}

impl PictureThumbnail {
    pub fn get_thumbnail_height(&self) -> (r: Option<usize>)
        ensures
            r == thumbnail_height(*self),
    {
        match self {
            PictureThumbnail::Original => None,
            PictureThumbnail::Small => Some(100),
            PictureThumbnail::Medium => Some(500),
            PictureThumbnail::Large => Some(1000),
        }
    }

    /// Reads a thumbnail kind from a path parameter: its number (0 to 3) or
    /// its lower case name.
    pub fn from_param(param: &str) -> (r: Result<PictureThumbnail, ErrorResponder>)
        ensures
            thumbnail_param_answer(param@, r),
    {
        if let Some(index) = parse_decimal(param, usize::MAX as u64) {
            return if index == 0 {
                Ok(PictureThumbnail::Original)
            } else if index == 1 {
                Ok(PictureThumbnail::Small)
            } else if index == 2 {
                Ok(PictureThumbnail::Medium)
            } else if index == 3 {
                Ok(PictureThumbnail::Large)
            } else {
                ErrorType::NotFound(String::from_str("Invalid thumbnail index")).res_err_no_rollback()
            };
        }
        proof {
            reveal_strlit("original");
            reveal_strlit("small");
            reveal_strlit("medium");
            reveal_strlit("large");
        }
        if text_is(param, "original") {
            Ok(PictureThumbnail::Original)
        } else if text_is(param, "small") {
            Ok(PictureThumbnail::Small)
        } else if text_is(param, "medium") {
            Ok(PictureThumbnail::Medium)
        } else if text_is(param, "large") {
            Ok(PictureThumbnail::Large)
        } else {
            ErrorType::NotFound(String::from_str("Invalid thumbnail type")).res_err_no_rollback()
        }
    }
}

/// The width of a thumbnail of the given height that keeps the proportions
/// of an image, rounded down.
pub fn thumbnail_width(height: usize, image_width: usize, image_height: usize) -> (r: usize)
    requires
        image_height > 0,
        height * image_width <= usize::MAX,
    ensures
        r == (height * image_width) / (image_height as int),
{
    height * image_width / image_height
}

/// The digits of base 83 in which a blurhash is written.
pub open spec fn base83_digits() -> Seq<char> {
    seq![
        '0', '1', '2', '3', '4', '5', '6', '7', '8', '9',
        'A', 'B', 'C', 'D', 'E', 'F', 'G', 'H', 'I', 'J', 'K', 'L', 'M',
        'N', 'O', 'P', 'Q', 'R', 'S', 'T', 'U', 'V', 'W', 'X', 'Y', 'Z',
        'a', 'b', 'c', 'd', 'e', 'f', 'g', 'h', 'i', 'j', 'k', 'l', 'm',
        'n', 'o', 'p', 'q', 'r', 's', 't', 'u', 'v', 'w', 'x', 'y', 'z',
        '#', '$', '%', '*', '+', ',', '-', '.', ':', ';', '=', '?', '@',
        '[', ']', '^', '_', '{', '|', '}', '~',
    ]
}

/// The first character of a blurhash with `cx` components along the width
/// and `cy` along the height: the digit of `(cx - 1) + 9 * (cy - 1)`.
pub open spec fn size_flag_char(cx: nat, cy: nat) -> char {
    base83_digits()[(cx - 1) + 9 * (cy - 1)]
}

/// The numbers of blurhash components along each axis of an image of the
/// given size.
pub open spec fn components_of(width: int, height: int) -> (nat, nat) {
    if width > height {
        (4, 3)
    } else if width == height {
        (3, 3)
    } else {
        (3, 4)
    }
}

/// The numbers of blurhash components along each axis: four along the
/// longer side and three along the shorter one, three each for a square.
pub fn blurhash_components(image_width: usize, image_height: usize) -> (r: (u32, u32))
    ensures
        image_width > image_height ==> r == (4u32, 3u32),
        image_width == image_height ==> r == (3u32, 3u32),
        image_width < image_height ==> r == (3u32, 4u32),
{
    if image_width > image_height {
        (4, 3)
    } else if image_width == image_height {
        (3, 3)
    } else {
        (3, 4)
    }
}

/// `blurhash::encode`: the blurhash of an image of `width` by `height`
/// pixels, four bytes (red, green, blue, alpha) per pixel row by row, with
/// the given numbers of components along each axis. It fails, with the
/// message of `blurhash::Error::ComponentsOutOfRange`, unless both numbers
/// are between 1 and 9; its text then holds one character for the numbers
/// of components, one for the largest value, four for the mean colour and
/// two for each other component. The first character is the digit of base
/// 83 for `(components_x - 1) + 9 * (components_y - 1)`; the others come
/// from floating point computations and are not stated. The pixels are
/// read by index, so the image must hold them all, and the bytes of a row
/// and of the whole image must fit in a 32 bit index.
#[verifier::external_body]
fn blurhash_encode(components_x: u32, components_y: u32, width: u32, height: u32, rgba: &[u8]) -> (r: Result<
    String,
    String,
>)
    requires
        4 * width <= u32::MAX,
        4 * width * height <= u32::MAX,
        rgba@.len() >= 4 * width * height,
    ensures
        r is Ok <==> (1 <= components_x <= 9 && 1 <= components_y <= 9),
        r matches Ok(s) ==> s@.len() == 4 + 2 * components_x * components_y,
        r matches Ok(s) ==> s@[0] == size_flag_char(components_x as nat, components_y as nat),
        r matches Err(m) ==> m@ == "blurhash must have between 1 and 9 components"@,
{
    blurhash::encode(components_x, components_y, width, height, rgba).map_err(|e| e.to_string())
}

/// The blurhash of an image of `width` by `height` pixels given as RGBA
/// bytes, row by row: four components along the longer side and three
/// along the shorter one, three each for a square.
pub fn generate_blurhash(width: u32, height: u32, rgba: &[u8]) -> (r: Result<String, ErrorResponder>)
    requires
        4 * width <= u32::MAX,
        4 * width * height <= u32::MAX,
        rgba@.len() >= 4 * width * height,
    ensures
        ({
            let (cx, cy) = components_of(width as int, height as int);
            r matches Ok(s) && s@.len() == 4 + 2 * cx * cy && s@[0] == size_flag_char(cx, cy)
        }),
{
    let (cx, cy) = blurhash_components(width as usize, height as usize);
    match blurhash_encode(cx, cy, width, height, rgba) {
        Ok(s) => Ok(s),
        Err(m) => {
            let mut msg = String::from_str("Can’t encode: ");
            msg.append(m.as_str());
            Err(ErrorType::UnableToCreateBlurhash(msg).res_no_rollback())
        },
    }
}

} // verus!
