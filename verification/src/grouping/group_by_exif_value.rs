use vstd::prelude::*;
use crate::grouping::arrangement_strategy::ExifDataTypeValue;

verus! {

/// Groups pictures by exact EXIF values.
#[derive(Debug, Clone, PartialEq)]
pub struct ExifValuesGrouping {
    /// The values, one per group.
    pub data_type: ExifDataTypeValue,
    /// The id of the group for the value at the same index.
    pub values_to_group_id: Vec<i32>,
    pub group_names_format: String,
    pub other_group_id: Option<i32>,
}

} // verus!
