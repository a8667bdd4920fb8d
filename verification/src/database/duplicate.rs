use vstd::prelude::*;

verus! {

/// A set of pictures of a user found to be duplicates of one another.
#[derive(Debug, Clone, Copy, PartialEq, Eq, Structural)]
pub struct DuplicateGroup {
    pub id: i32,
    pub user_id: i32,
}

/// A picture that belongs to a set of duplicates.
#[derive(Debug, Clone, Copy, PartialEq, Eq, Structural)]
pub struct Duplicate {
    pub group_id: i32,
    pub picture_id: i64,
}

} // verus!
