//! Verified core of the Archypix picture backend: arrangement dependency
//! graphs and their sorting, grouping strategies and filters, picture
//! metadata summaries, authentication decisions and error reporting.
pub mod api;
pub mod database;
pub mod grouping;
pub mod picture_storer;
pub mod utils;
