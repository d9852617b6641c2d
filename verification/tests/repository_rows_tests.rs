use shodoukan::domain::models::entry::{Entry, Gloss, KanjiReading, Reading, Sense};
use shodoukan::infrastructure::sqlite::repository::plan_entry;

fn empty_sense(glosses: Vec<Gloss>) -> Sense {
    Sense { pos: vec![], misc: vec![], refs: vec![], glosses, info: vec![], dialects: vec![], examples: vec![] }
}

fn gloss(text: &str, lang: &str) -> Gloss {
    Gloss { text: String::from(text), type_: None, lang: Some(String::from(lang)) }
}

fn count_for(rows: &[(String, usize)], lang: &str) -> usize {
    rows.iter().find(|(l, _)| l == lang).map(|(_, n)| *n).unwrap()
}

#[test]
fn insert_stores_reading_restrictions() {
    let restricted = Reading { text: String::from("たべもの"), priority: vec![], no_kanji: false, info: vec![] };
    let entry = Entry {
        id: 1000002,
        jlpt: None,
        kanji_readings: vec![KanjiReading {
            kanji: String::from("食べ物"),
            restricted_readings: vec![restricted],
            priority: vec![],
            info: vec![],
        }],
        readings: vec![Reading { text: String::from("たべもの"), priority: vec![], no_kanji: false, info: vec![] }],
        senses: vec![],
    };
    let rows = plan_entry(&entry);
    let count: usize = rows.kanji_readings.iter().map(|kr| kr.restricted_readings.len()).sum();
    assert_eq!(count, 1);
}

#[test]
fn sense_index_reflects_position() {
    let entry = Entry {
        id: 2000001,
        jlpt: None,
        kanji_readings: vec![],
        readings: vec![],
        senses: vec![empty_sense(vec![]), empty_sense(vec![]), empty_sense(vec![])],
    };
    let indices: Vec<usize> = plan_entry(&entry).senses.iter().map(|s| s.sense_index).collect();
    assert_eq!(indices, vec![0, 1, 2]);
}

#[test]
fn freq_score_zero_for_no_priority() {
    let entry = Entry {
        id: 2000002,
        jlpt: None,
        kanji_readings: vec![KanjiReading {
            kanji: String::from("無"),
            restricted_readings: vec![],
            priority: vec![],
            info: vec![],
        }],
        readings: vec![Reading { text: String::from("む"), priority: vec![], no_kanji: false, info: vec![] }],
        senses: vec![],
    };
    let rows = plan_entry(&entry);
    assert_eq!(rows.freq_score, 0);
    assert_eq!(rows.has_common as i32, 0);
}

#[test]
fn sense_counts_populated() {
    let entry = Entry {
        id: 2000003,
        jlpt: None,
        kanji_readings: vec![],
        readings: vec![],
        senses: vec![
            empty_sense(vec![gloss("apple", "eng"), gloss("appel", "dut")]),
            empty_sense(vec![gloss("fruit", "eng")]),
        ],
    };
    let rows = plan_entry(&entry);
    assert_eq!(count_for(&rows.sense_counts, "eng"), 2);
    assert_eq!(count_for(&rows.sense_counts, "dut"), 1);
}

#[test]
fn sense_counts_deduplicate_senses() {
    let entry = Entry {
        id: 2000004,
        jlpt: None,
        kanji_readings: vec![],
        readings: vec![],
        senses: vec![empty_sense(vec![gloss("one", "eng"), gloss("two", "eng"), gloss("three", "eng")])],
    };
    let rows = plan_entry(&entry);
    assert_eq!(count_for(&rows.sense_counts, "eng"), 1);
}
