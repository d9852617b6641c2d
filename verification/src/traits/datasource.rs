//! What every downloadable data source offers.
use vstd::prelude::*;

verus! {

/// A data source that dictionary records of type `Entity` are read from.
pub trait Datasource {
    /// The kind of record the source yields (an entry, a kanji).
    type Entity;

    /// Where the source is downloaded from.
    fn url(&self) -> &str;
}

} // verus!
