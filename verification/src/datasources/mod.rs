pub mod jlpt;
pub mod jmdict;
pub mod kanjidic;
pub mod kanjivg;
pub mod radkfile;
pub mod tatoeba;
