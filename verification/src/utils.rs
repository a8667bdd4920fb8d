pub mod auth;
pub mod crypto;
pub mod errors_catcher;
pub mod exif;
pub mod sorted_ids;
pub mod thumbnail;
pub mod utils;
