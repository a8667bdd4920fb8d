use vstd::prelude::*;
use crate::grouping::arrangement_strategy::ExifDataTypeValue;

verus! {

/// Groups pictures by intervals of an EXIF value on both sides of an origin.
///
/// ```text
/// ... | interval -2 | interval -1 |origin| interval 1 | interval 2 | ...
/// ... | decreasing  | decreasing  |origin| increasing | increasing | ...
/// ... | index 1     | index 0     |origin| index 0    | index 1    | ...
/// ```
#[derive(Debug, Clone, PartialEq)]
pub struct ExifIntervalGrouping {
    /// First value is the origin, second is the interval length.
    pub interval: ExifDataTypeValue,
    /// Ids of the groups for the intervals after the origin.
    pub group_ids_increasing: Vec<i32>,
    /// Ids of the groups for the intervals before the origin (in reverse order).
    pub group_ids_decreasing: Vec<i32>,
    /// Datetime format or number format.
    pub group_names_format: String,
}

} // verus!
