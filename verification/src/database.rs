pub mod arrangement;
pub mod duplicate;
pub mod hierarchy;
pub mod picture;
pub mod picture_condition;
pub mod picture_tag;
pub mod rating;
pub mod tag;
pub mod user;
pub mod utils;
