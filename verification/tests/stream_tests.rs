use std::io::Write;

use shodoukan::archive::gzip_text;
use shodoukan::datasources::tatoeba::source::{TatoebaLinks, TatoebaSource};
use shodoukan::infrastructure::sqlite::repository::json;
use shodoukan::xml::XmlReader;

fn gzip(data: &[u8]) -> Vec<u8> {
    let mut e = flate2::write::GzEncoder::new(Vec::new(), flate2::Compression::default());
    e.write_all(data).unwrap();
    e.finish().unwrap()
}

fn bzip2(data: &[u8]) -> Vec<u8> {
    let mut e = bzip2::write::BzEncoder::new(Vec::new(), bzip2::Compression::default());
    e.write_all(data).unwrap();
    e.finish().unwrap()
}

fn tar_bz2(files: &[(&str, &[u8])]) -> Vec<u8> {
    let mut b = tar::Builder::new(Vec::new());
    for (name, data) in files {
        let mut h = tar::Header::new_gnu();
        h.set_size(data.len() as u64);
        h.set_mode(0o644);
        h.set_cksum();
        b.append_data(&mut h, name, *data).unwrap();
    }
    bzip2(&b.into_inner().unwrap())
}

#[test]
fn gzip_text_decompresses() {
    assert_eq!(gzip_text(&gzip("食べる\n".as_bytes())), Some(String::from("食べる\n")));
    assert_eq!(gzip_text(&gzip(&[0xff, 0xfe])), None);
    assert_eq!(gzip_text(&b"not gzip".to_vec()), None);
}

#[test]
fn json_columns_are_exact() {
    assert_eq!(json(&vec![String::from("a"), String::from("b\"c")]), "[\"a\",\"b\\\"c\"]");
    assert_eq!(json(&vec![]), "[]");
    assert_eq!(
        json(&vec![String::from("a\tb\u{1}/é\\\n\r\u{8}\u{c}\u{1f}")]),
        "[\"a\\tb\\u0001/é\\\\\\n\\r\\b\\f\\u001f\"]"
    );
}

const DOC: &str = "<?xml version=\"1.0\"?>\n<!DOCTYPE JMdict [\n<!ENTITY n \"noun\">\n<!ENTITY v1 \"verb\">\n]>\n<JMdict>\n<entry><ent_seq>1</ent_seq><pos>&n;</pos></entry>\n<!-- c -->\n<entry><ent_seq>2</ent_seq></entry>\n</JMdict>\n";

#[test]
fn xml_reader_reads_entities_and_elements() {
    let mut r = XmlReader::new(DOC.as_bytes().to_vec());
    let entities = r.read_entities();
    let pairs: Vec<(&str, &str)> = entities.iter().map(|(n, v)| (n.as_str(), v.as_str())).collect();
    assert_eq!(pairs, [("n", "noun"), ("v1", "verb")]);
    let target = b"entry".to_vec();
    let first = String::from_utf8(r.next_element(&target).unwrap()).unwrap();
    assert_eq!(first, "<entry><ent_seq>1</ent_seq><pos>&n;</pos></entry>");
    let second = String::from_utf8(r.next_element(&target).unwrap()).unwrap();
    assert_eq!(second, "<entry><ent_seq>2</ent_seq></entry>");
    assert!(r.next_element(&target).is_none());
    assert!(r.next_element(&target).is_none());
}

#[test]
fn xml_reader_without_doctype() {
    let mut r = XmlReader::new(b"<kanjidic2><character><literal>x</literal></character></kanjidic2>".to_vec());
    let target = b"character".to_vec();
    let c = String::from_utf8(r.next_element(&target).unwrap()).unwrap();
    assert_eq!(c, "<character><literal>x</literal></character>");
    assert!(r.next_element(&target).is_none());
}

fn known(pairs: &[(&str, i64)]) -> Vec<(String, i64)> {
    pairs.iter().map(|(k, v)| (k.to_string(), *v)).collect()
}

#[test]
fn links_archive_two_passes_and_sentence_files() {
    let archive = tar_bz2(&[
        ("README", b"1\t2\n"),
        ("links.csv", b"100\t200\r\n200\t300\nbad line\n300\t400\n"),
        ("links_old.csv", b"100\t999\n"),
    ]);
    let files = TatoebaSource::link_files(&archive).unwrap();
    assert_eq!(files.len(), 3);
    let mut t = TatoebaLinks::new(&known(&[("100", 7)]));
    t.observe_links(&files, false);
    assert_eq!(t.direct_count(), 1);
    t.start_second_pass();
    t.observe_links(&files, true);
    assert_eq!(t.reached_count(), 2);
    let sentences = bzip2(b"200\teng\tto eat\n300\tspa\tcomer\n400\tfra\tmanger\n");
    let found = t.translations_of(&sentences, &String::from("eng")).unwrap();
    let got: Vec<(i64, &str, &str)> =
        found.iter().map(|x| (x.example_id, x.lang.as_str(), x.text.as_str())).collect();
    assert_eq!(got, [(7, "eng", "to eat"), (7, "eng", "comer")]);
    assert!(t.translations_of(&bzip2(&[0xff, b'\n']), &String::from("eng")).is_none());
    assert!(t.translations_of(&b"not bzip2".to_vec(), &String::from("eng")).is_none());
    assert!(TatoebaSource::link_files(&b"not an archive".to_vec()).is_none());
}

#[test]
fn links_reading_stops_at_a_line_that_is_not_utf8() {
    let archive = tar_bz2(&[("links.csv", b"100\t200\n\xff\xfe\n100\t300\n")]);
    let files = TatoebaSource::link_files(&archive).unwrap();
    let mut t = TatoebaLinks::new(&known(&[("100", 1)]));
    t.observe_links(&files, false);
    assert_eq!(t.direct_count(), 1);
}

#[test]
fn all_elements_in_document_order() {
    let mut r = XmlReader::new(DOC.as_bytes().to_vec());
    r.read_entities();
    let all: Vec<String> = r
        .all_elements(&b"entry".to_vec())
        .into_iter()
        .map(|b| String::from_utf8(b).unwrap())
        .collect();
    assert_eq!(all, ["<entry><ent_seq>1</ent_seq><pos>&n;</pos></entry>", "<entry><ent_seq>2</ent_seq></entry>"]);
    assert!(r.next_element(&b"entry".to_vec()).is_none());
    assert!(r.all_elements(&b"entry".to_vec()).is_empty());
}

#[test]
fn link_files_of_an_empty_archive() {
    assert_eq!(TatoebaSource::link_files(&tar_bz2(&[])).map(|v| v.len()), Some(0));
}

#[test]
fn tatoeba_decisions() {
    assert!(TatoebaSource::wants_translations(3, 1));
    assert!(!TatoebaSource::wants_translations(0, 8));
    assert!(!TatoebaSource::wants_translations(5, 0));
    let mut t = TatoebaLinks::new(&known(&[("100", 7)]));
    assert!(!t.has_direct());
    t.observe_direct(100, 200);
    assert!(t.has_direct());
}
