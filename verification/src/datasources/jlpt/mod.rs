pub mod dtos;
pub mod source;
