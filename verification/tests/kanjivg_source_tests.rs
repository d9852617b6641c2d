use std::io::{Cursor, Write};

use shodoukan::archive::ArchiveError;
use shodoukan::datasources::kanjivg::source::KanjiVgSource;
use zip::write::{SimpleFileOptions, ZipWriter};

fn make_zip(entries: &[(&str, &str)]) -> Vec<u8> {
    let buf = Vec::new();
    let cursor = Cursor::new(buf);
    let mut zip = ZipWriter::new(cursor);
    let options = SimpleFileOptions::default();
    for (name, content) in entries {
        zip.start_file(*name, options).unwrap();
        zip.write_all(content.as_bytes()).unwrap();
    }
    zip.finish().unwrap().into_inner()
}

// KanjiVG filenames are zero-padded to 5 hex digits: 食 = U+98DF → 098df.svg

#[test]
fn kanjivg_extracts_literal_from_filename() {
    let bytes = make_zip(&[("098df.svg", "<svg>食</svg>")]);
    let parsed = KanjiVgSource::parse_zip(bytes).unwrap();
    assert_eq!(parsed.len(), 1);
    assert_eq!(parsed[0].literal, "食");
    assert_eq!(parsed[0].svg, "<svg>食</svg>");
}

#[test]
fn kanjivg_extracts_multiple_entries() {
    // 水 = U+6C34 → 06c34.svg, 火 = U+706B → 0706b.svg
    let bytes = make_zip(&[("06c34.svg", "<svg>water</svg>"), ("0706b.svg", "<svg>fire</svg>")]);
    let parsed = KanjiVgSource::parse_zip(bytes).unwrap();
    assert_eq!(parsed.len(), 2);
    let mut lits: Vec<&str> = parsed.iter().map(|s| s.literal.as_str()).collect();
    lits.sort();
    assert_eq!(lits, ["水", "火"]);
}

#[test]
fn kanjivg_skips_non_svg_files() {
    let bytes = make_zip(&[("098df.svg", "<svg/>"), ("README.txt", "ignore me")]);
    let parsed = KanjiVgSource::parse_zip(bytes).unwrap();
    assert_eq!(parsed.len(), 1);
    assert_eq!(parsed[0].literal, "食");
}

#[test]
fn kanjivg_skips_short_stem() {
    // "ab.svg" has stem len 6, below the minimum of 9 (5 hex + ".svg")
    let bytes = make_zip(&[("ab.svg", "<svg/>"), ("098df.svg", "<svg>食</svg>")]);
    let parsed = KanjiVgSource::parse_zip(bytes).unwrap();
    assert_eq!(parsed.len(), 1);
    assert_eq!(parsed[0].literal, "食");
}

#[test]
fn kanjivg_file_names() {
    assert_eq!(KanjiVgSource::literal_of("kanji/098df.svg").as_deref(), Some("食"));
    assert_eq!(KanjiVgSource::literal_of("098DF-Kaisho.svg").as_deref(), Some("食"));
    assert_eq!(KanjiVgSource::literal_of("+6c34.svg").as_deref(), Some("水"));
    assert_eq!(KanjiVgSource::literal_of("0d800.svg"), None);
    assert_eq!(KanjiVgSource::literal_of("0g8df.svg"), None);
    assert_eq!(KanjiVgSource::literal_of("098df.svg/"), None);
    assert_eq!(KanjiVgSource::literal_of("098df.SVG"), None);
    assert_eq!(KanjiVgSource::literal_of("09.svg"), None);
}

#[test]
fn kanjivg_rejects_what_is_not_an_archive() {
    assert!(KanjiVgSource::parse_zip(b"not a zip".to_vec()).is_err());
}

#[test]
fn kanjivg_picks_main_archive() {
    let urls = vec![
        String::from("https://x/kanjivg-20240807-all.zip"),
        String::from("https://x/kanjivg-20240807-main.zip"),
        String::from("https://y/other-main.zip"),
    ];
    assert_eq!(KanjiVgSource::main_archive_url(&urls).as_deref(), Some("https://x/kanjivg-20240807-main.zip"));
    assert_eq!(KanjiVgSource::main_archive_url(&urls[..1].to_vec()), None);
}

#[test]
fn kanjivg_image_that_is_not_utf8_is_refused() {
    let mut zip = ZipWriter::new(Cursor::new(Vec::new()));
    let options = SimpleFileOptions::default();
    zip.start_file("kanji/04e00.svg", options).unwrap();
    zip.write_all(&[0x3c, 0xff, 0xfe, 0x3e]).unwrap();
    zip.start_file("kanji/README.md", options).unwrap();
    zip.write_all(&[0xff]).unwrap();
    let bytes = zip.finish().unwrap().into_inner();
    assert!(matches!(KanjiVgSource::parse_zip(bytes), Err(ArchiveError::NotText)));
}
