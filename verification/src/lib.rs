//! Verified core of the Shodoukan dictionary builder: the data model, the
//! mapping of JMdict / KANJIDIC2 records onto it, the RADKFILE and KanjiVG
//! readers, the Tatoeba link resolution and the row planning that the SQLite
//! store is filled from.
pub mod archive;
pub mod datasources;
pub mod domain;
pub mod http;
pub mod infrastructure;
pub mod lang;
pub mod progress;
pub mod table;
pub mod text;
pub mod traits;
pub mod xml;
