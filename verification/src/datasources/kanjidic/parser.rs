//! The KANJIDIC2 data source.
use vstd::prelude::*;

use crate::domain::models::kanji::Kanji;
use crate::traits::datasource::Datasource;

verus! {

/// The KANJIDIC2 data source, downloaded from `ds_url`.
pub struct KanjiDicSource {
    pub ds_url: String,
}

impl Datasource for KanjiDicSource {
    type Entity = Kanji;

    /// Where the compressed KANJIDIC2 file is downloaded from.
    fn url(&self) -> (r: &str)
        ensures
            r@ == self.ds_url@,
    {
        self.ds_url.as_str()
    }
}

} // verus!
