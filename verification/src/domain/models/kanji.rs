//! Kanji characters as stored in the database.
use vstd::prelude::*;

verus! {

/// One kanji character with its readings and meanings.
#[derive(Debug)]
pub struct Kanji {
    pub literal: String,
    pub grade: Option<u8>,
    pub stroke_count: u8,
    pub freq: Option<u16>,
    pub jlpt: Option<u8>,
    pub on_readings: Vec<String>,
    pub kun_readings: Vec<String>,
    pub meanings: Vec<Meaning>,
    pub nanori: Vec<String>,
}

/// A meaning of a kanji in one language.
#[derive(Debug)]
pub struct Meaning {
    pub text: String,
    pub lang: String,
}

} // verus!
