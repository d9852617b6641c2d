pub mod entry;
pub mod kanji;
