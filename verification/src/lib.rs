pub mod config;
pub mod imaging;
pub mod jpeg;
pub mod keys;
pub mod paths;
pub mod report;
pub mod text;
