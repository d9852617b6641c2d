//! KANJIDIC2 records as they appear in the XML file.
use vstd::prelude::*;

verus! {

/// A `<character>` element.
pub struct CharacterDto {
    pub literal: String,
    pub misc: MiscDto,
    pub reading_meaning: Option<ReadingMeaningDto>,
}

/// A `<misc>` element.
pub struct MiscDto {
    pub grade: Option<u8>,
    pub stroke_count: Vec<u8>,
    pub freq: Option<u16>,
    pub jlpt: Option<u8>,
}

/// A `<reading_meaning>` element.
pub struct ReadingMeaningDto {
    pub rmgroups: Vec<RmGroupDto>,
    pub nanori: Vec<String>,
}

/// An `<rmgroup>` element.
pub struct RmGroupDto {
    pub readings: Vec<ReadingDto>,
    pub meanings: Vec<MeaningDto>,
}

/// A `<reading>` element with its `r_type` attribute.
pub struct ReadingDto {
    pub r_type: String,
    pub text: String,
}

/// The language of a `<meaning>` without an `m_lang` attribute.
pub fn default_lang() -> (r: String)
    ensures
        r@ == "en"@,
{
    String::from_str("en")
}

/// A `<meaning>` element.
pub struct MeaningDto {
    pub lang: String,
    pub text: String,
}

} // verus!
