//! JLPT level lists.
use vstd::prelude::*;

verus! {

/// One reading of a vocabulary key in the JLPT vocabulary list.
pub struct VocabItemDto {
    pub reading: String,
    pub level: u8,
}

/// The JLPT level of a vocabulary item: its key (kanji or kana), its reading
/// and the level (1 = N1 ... 5 = N5).
pub struct JlptVocabEntry {
    pub key: String,
    pub reading: String,
    pub level: u8,
}

/// The JLPT level of a kanji.
pub struct JlptKanjiEntry {
    pub literal: String,
    pub level: u8,
}

} // verus!
