use vstd::prelude::*;

verus! {

/// Groups pictures by location clusters.
#[derive(Debug, Clone, PartialEq)]
pub struct LocationGrouping {
    /// Ids of the groups for each cluster.
    pub clusters_ids: Vec<i32>,
    pub is_date_ordered: bool,
    pub sharpness: u32,
}

} // verus!
