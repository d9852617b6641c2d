pub mod dtos;
pub mod mappers;
pub mod parser;
