pub mod config;
pub mod error;
pub mod pathname;
pub mod paths;
pub mod sync;
pub mod text;
pub mod utils;
