use shodoukan::datasources::tatoeba::source::{TatoebaLinks, TatoebaSource};

fn known(pairs: &[(&str, i64)]) -> Vec<(String, i64)> {
    pairs.iter().map(|(k, v)| (k.to_string(), *v)).collect()
}

fn run(known_pairs: &[(&str, i64)], links: &[(u64, u64)]) -> TatoebaLinks {
    let mut t = TatoebaLinks::new(&known(known_pairs));
    for (s, g) in links {
        t.observe_direct(*s, *g);
    }
    t.start_second_pass();
    for (s, g) in links {
        t.observe_second(*s, *g);
    }
    t
}

#[test]
fn link_lines() {
    assert_eq!(TatoebaSource::parse_link("4705\t1284"), Some((4705, 1284)));
    assert_eq!(TatoebaSource::parse_link("4705"), None);
    assert_eq!(TatoebaSource::parse_link("4705\t12\t84"), None);
    assert_eq!(TatoebaSource::parse_link("x\t1"), None);
    assert_eq!(TatoebaSource::parse_link("+1\t2"), Some((1, 2)));
}

#[test]
fn sentence_lines() {
    assert_eq!(TatoebaSource::parse_sentence("12\tspa\tComo.\tmás"), Some((12, String::from("Como.\tmás"))));
    assert_eq!(TatoebaSource::parse_sentence("12\tspa"), None);
    assert_eq!(TatoebaSource::parse_sentence("x\tspa\ttext"), None);
    assert_eq!(TatoebaSource::parse_sentence("7\t\t"), Some((7, String::new())));
}

#[test]
fn sentences_urls_use_tatoeba_codes() {
    assert_eq!(
        TatoebaSource::sentences_url("fre"),
        "https://downloads.tatoeba.org/exports/per_language/fra/fra_sentences.tsv.bz2"
    );
    assert_eq!(
        TatoebaSource::sentences_url("spa"),
        "https://downloads.tatoeba.org/exports/per_language/spa/spa_sentences.tsv.bz2"
    );
}

#[test]
fn direct_and_two_hop_links() {
    // 100 is a known Japanese sentence (example 1); 200 its English
    // translation; 300 a Spanish translation of 200.
    let t = run(&[("100", 1), ("101", 2)], &[(100, 200), (200, 300), (300, 200), (101, 100), (400, 101)]);
    assert_eq!(t.direct_count(), 3);
    assert_eq!(t.reached_count(), 4);
    let lang = String::from("spa");
    let tr = t.translation("300\tspa\tHola", &lang).unwrap();
    assert_eq!((tr.example_id, tr.lang.as_str(), tr.text.as_str()), (1, "spa", "Hola"));
    assert!(t.translation("999\tspa\tno", &lang).is_none());
}

#[test]
fn first_link_decides() {
    let t = run(&[("100", 1), ("101", 2)], &[(100, 200), (101, 200)]);
    let eng = String::from("eng");
    assert_eq!(t.translation("200\teng\tx", &eng).unwrap().example_id, 1);
}

#[test]
fn known_sentences_are_not_reached_in_the_second_pass() {
    let t = run(&[("100", 1), ("0101", 2)], &[(100, 200), (200, 101)]);
    let eng = String::from("eng");
    // 101 is listed (as "0101"), so it is not tied through 200 ...
    assert!(t.translation("101\tjpn\tx", &eng).is_none());
    // ... and "0101" is not the decimal text of 101, so it reaches nothing.
    assert_eq!(t.direct_count(), 1);
}

#[test]
fn nothing_known_reaches_nothing() {
    let t = run(&[], &[(1, 2)]);
    assert_eq!(t.direct_count(), 0);
    assert_eq!(t.reached_count(), 0);
}
