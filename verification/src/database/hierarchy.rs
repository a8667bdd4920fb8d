use vstd::prelude::*;

verus! {

/// A named hierarchy of a user, in which arrangements are nested.
#[derive(Debug, Clone, PartialEq)]
pub struct Hierarchy {
    pub id: i32,
    pub user_id: i32,
    pub name: String,
}

} // verus!
