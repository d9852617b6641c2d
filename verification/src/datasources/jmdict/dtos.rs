//! JMdict records as they appear in the XML file.
use vstd::prelude::*;

verus! {

/// An `<entry>` element.
pub struct EntryDto {
    pub id: u32,
    pub kanji_readings: Vec<KanjiReadingDto>,
    pub readings: Vec<ReadingDto>,
    pub senses: Vec<SenseDto>,
}

/// A `<k_ele>` element.
pub struct KanjiReadingDto {
    pub kanji: String,
    pub priority: Vec<String>,
    pub info: Vec<String>,
}

/// An `<r_ele>` element.
pub struct ReadingDto {
    pub text: String,
    pub restricted_readings: Vec<String>,
    pub priority: Vec<String>,
    pub info: Vec<String>,
    pub no_kanji: Vec<NoKanjiDto>,
}

/// A `<re_nokanji/>` marker.
pub struct NoKanjiDto {}

/// A `<sense>` element.
pub struct SenseDto {
    pub pos: Vec<String>,
    pub misc: Vec<String>,
    pub refs: Vec<String>,
    pub glosses: Vec<GlossDto>,
    pub info: Vec<String>,
    pub dialects: Vec<String>,
    pub examples: Vec<ExampleDto>,
}

/// The language of a `<gloss>` without an `xml:lang` attribute.
pub fn default_lang() -> (r: String)
    ensures
        r@ == "eng"@,
{
    String::from_str("eng")
}

/// A `<gloss>` element.
pub struct GlossDto {
    pub text: Option<String>,
    pub type_: Option<String>,
    pub lang: String,
}

/// An `<example>` element.
pub struct ExampleDto {
    pub source_: SourceDto,
    pub text: String,
    pub sentences: Vec<SentenceDto>,
}

/// An `<ex_sent>` element.
pub struct SentenceDto {
    pub lang: String,
    pub text: String,
}

/// An `<ex_srce>` element.
pub struct SourceDto {
    pub name: String,
    pub id: Option<String>,
}

} // verus!
