pub mod source;
pub mod files;
