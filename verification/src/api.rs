pub mod auth;
pub mod groups;
pub mod picture;
pub mod query_pictures;
pub mod tags;
