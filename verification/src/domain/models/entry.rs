//! Dictionary entries as stored in the database.
use vstd::prelude::*;

verus! {

/// One dictionary entry: its written forms, kana readings and senses.
#[derive(Debug)]
pub struct Entry {
    pub id: u32,
    pub jlpt: Option<u8>,
    pub kanji_readings: Vec<KanjiReading>,
    pub readings: Vec<Reading>,
    pub senses: Vec<Sense>,
}

/// A written (kanji) form of an entry, with the readings restricted to it.
#[derive(Debug)]
pub struct KanjiReading {
    pub kanji: String,
    pub restricted_readings: Vec<Reading>,
    pub priority: Vec<String>,
    pub info: Vec<String>,
}

/// A kana reading of an entry.
#[derive(Clone, Debug)]
pub struct Reading {
    pub text: String,
    pub priority: Vec<String>,
    pub no_kanji: bool,
    pub info: Vec<String>,
}

/// One sense: a group of glosses sharing part of speech and usage notes.
#[derive(Debug)]
pub struct Sense {
    pub pos: Vec<String>,
    pub misc: Vec<String>,
    pub refs: Vec<CrossReference>,
    pub glosses: Vec<Gloss>,
    pub info: Vec<String>,
    pub dialects: Vec<String>,
    pub examples: Vec<Example>,
}

/// A reference from a sense to another entry, reading or sense.
#[derive(Debug)]
pub struct CrossReference {
    pub reference: String,
    pub reading: Option<String>,
    pub sense_idx: Option<usize>,
}

/// A translation of a sense in one language.
#[derive(Debug)]
pub struct Gloss {
    pub text: String,
    pub type_: Option<String>,
    pub lang: Option<String>,
}

/// An example sentence with its translations, keyed by language
/// (each language occurs at most once).
#[derive(Debug)]
pub struct Example {
    pub source_: Source,
    pub text: String,
    pub sentences: Vec<(String, String)>,
}

/// The corpus an example sentence comes from.
#[derive(Debug)]
pub struct Source {
    pub name: String,
    pub id: Option<String>,
}

} // verus!
