use std::io::{Cursor, Write};

use shodoukan::datasources::radkfile::source::RadkfileSource;
use zip::write::{SimpleFileOptions, ZipWriter};

fn make_zip(entries: &[(&str, Vec<u8>)]) -> Vec<u8> {
    let mut zip = ZipWriter::new(Cursor::new(Vec::new()));
    for (name, content) in entries {
        zip.start_file(*name, SimpleFileOptions::default()).unwrap();
        zip.write_all(content).unwrap();
    }
    zip.finish().unwrap().into_inner()
}

fn euc_jp(s: &str) -> Vec<u8> {
    encoding_rs::EUC_JP.encode(s).0.into_owned()
}

#[test]
fn kradzip_reads_both_radkfiles() {
    let bytes = make_zip(&[
        ("kradzip/RADKFILE", euc_jp("# c\n$ 一 1\n一 万\n")),
        ("kradzip/README", euc_jp("$ x 1\ny\n")),
        ("RADKFILE2", euc_jp("$ 乙 1\n乾\n")),
    ]);
    let (radicals, pairs) = RadkfileSource::parse_kradzip(bytes).unwrap();
    let rads: Vec<(&str, u32)> = radicals.iter().map(|r| (r.literal.as_str(), r.strokes)).collect();
    assert_eq!(rads, [("一", 1), ("乙", 1)]);
    let ps: Vec<(&str, &str)> = pairs.iter().map(|p| (p.kanji_literal.as_str(), p.radical_literal.as_str())).collect();
    assert_eq!(ps, [("一", "一"), ("万", "一"), ("乾", "乙")]);
}

#[test]
fn kradzip_rejects_what_is_not_an_archive() {
    assert!(RadkfileSource::parse_kradzip(vec![1, 2, 3]).is_err());
}

#[test]
fn radkfile_names() {
    assert!(RadkfileSource::is_radkfile("radkfile"));
    assert!(RadkfileSource::is_radkfile("kradzip/radkfile2"));
    assert!(!RadkfileSource::is_radkfile("kradzip/kradfile"));
    assert!(!RadkfileSource::is_radkfile("radkfile/readme"));
    assert!(!RadkfileSource::is_radkfile(""));
}
