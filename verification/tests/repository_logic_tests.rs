use shodoukan::domain::models::entry::{
    CrossReference, Entry, Example, Gloss, KanjiReading, Reading, Sense, Source,
};
use shodoukan::infrastructure::sqlite::repository::{
    cjk_chars, compute_freq_score, count_senses_by_lang, freq_score_fits, is_cjk, jlpt_match, json, per_tag_score,
    plan_entry, sense_lang_indices, JlptMatch,
};

fn strings(v: &[&str]) -> Vec<String> {
    v.iter().map(|s| s.to_string()).collect()
}

fn reading(text: &str, priority: &[&str]) -> Reading {
    Reading { text: String::from(text), priority: strings(priority), no_kanji: false, info: vec![] }
}

fn kanji(k: &str, priority: &[&str], restricted: Vec<Reading>) -> KanjiReading {
    KanjiReading { kanji: String::from(k), restricted_readings: restricted, priority: strings(priority), info: vec![] }
}

fn sense(langs: &[Option<&str>]) -> Sense {
    Sense {
        pos: vec![],
        misc: vec![],
        refs: vec![],
        glosses: langs
            .iter()
            .map(|l| Gloss { text: String::from("g"), type_: None, lang: l.map(String::from) })
            .collect(),
        info: vec![],
        dialects: vec![],
        examples: vec![],
    }
}

fn entry(krs: Vec<KanjiReading>, rs: Vec<Reading>, senses: Vec<Sense>) -> Entry {
    Entry { id: 1000001, jlpt: None, kanji_readings: krs, readings: rs, senses }
}

#[test]
fn freq_score_common_entry() {
    let e = entry(vec![kanji("食べ物", &["ichi1"], vec![])], vec![reading("たべもの", &["ichi1"])], vec![]);
    assert_eq!(compute_freq_score(&e), (520, true));
}

#[test]
fn freq_score_zero_without_priority() {
    let e = entry(vec![kanji("無", &[], vec![])], vec![reading("む", &[])], vec![]);
    assert_eq!(compute_freq_score(&e), (0, false));
}

#[test]
fn freq_score_tier_two_only_is_not_common() {
    let e = entry(vec![], vec![reading("あ", &["news2", "nf20", "spec2"])], vec![]);
    assert_eq!(compute_freq_score(&e), (10, false));
}

#[test]
fn freq_score_adds_all_forms() {
    let e = entry(
        vec![kanji("明白", &["ichi1", "news1", "nf10"], vec![]), kanji("明々白々", &["gai2"], vec![])],
        vec![reading("めいはく", &["ichi1", "news1", "nf10"]), reading("めいめいはくはく", &[])],
        vec![],
    );
    assert_eq!(compute_freq_score(&e), (500 + 20 + 5 + 20, true));
}

#[test]
fn per_tag_score_counts_each_tag_once() {
    assert_eq!(per_tag_score(&strings(&["ichi1", "ichi1", "spec2"])), 15);
    assert_eq!(per_tag_score(&strings(&["ichi1", "spec1", "news1", "gai1", "ichi2", "spec2", "news2", "gai2"])), 60);
    assert_eq!(per_tag_score(&strings(&["nf01", "ICHI1"])), 0);
}

#[test]
fn cjk_ranges() {
    assert!(is_cjk('明'));
    assert!(is_cjk('\u{3400}'));
    assert!(is_cjk('\u{faff}'));
    assert!(!is_cjk('あ'));
    assert!(!is_cjk('ア'));
    assert!(!is_cjk('Ｃ'));
    assert!(!is_cjk('\u{4dc0}'));
    assert_eq!(cjk_chars("明白"), vec!["明", "白"]);
    assert_eq!(cjk_chars("食べ物"), vec!["食", "物"]);
    assert!(cjk_chars("ＣＤプレーヤー").is_empty());
}

#[test]
fn jlpt_keys_with_kanji_match_by_form_and_reading() {
    assert!(matches!(jlpt_match("食べ物"), JlptMatch::KanjiAndReading));
    assert!(matches!(jlpt_match("たべもの"), JlptMatch::ReadingOnly));
    assert!(matches!(jlpt_match(""), JlptMatch::ReadingOnly));
}

#[test]
fn sense_counts_count_senses_not_glosses() {
    let e = entry(
        vec![],
        vec![],
        vec![sense(&[Some("eng"), Some("dut")]), sense(&[Some("eng")]), sense(&[Some("eng"), Some("eng"), None])],
    );
    let counts = count_senses_by_lang(&e);
    assert_eq!(counts, vec![(String::from("eng"), 3), (String::from("dut"), 1)]);
}

#[test]
fn sense_lang_positions() {
    let e = entry(
        vec![],
        vec![],
        vec![sense(&[Some("eng"), Some("eng")]), sense(&[Some("spa")]), sense(&[Some("eng"), Some("spa")]), sense(&[])],
    );
    let idx = sense_lang_indices(&e);
    assert_eq!(idx.len(), 4);
    assert_eq!(idx[0], vec![(String::from("eng"), 0)]);
    assert_eq!(idx[1], vec![(String::from("spa"), 0)]);
    assert_eq!(idx[2], vec![(String::from("eng"), 1), (String::from("spa"), 1)]);
    assert!(idx[3].is_empty());
}

#[test]
fn json_columns() {
    assert_eq!(json(&strings(&["ichi1", "news1", "nf10"])), r#"["ichi1","news1","nf10"]"#);
    assert_eq!(json(&vec![]), "[]");
    assert_eq!(json(&strings(&["ア"])), r#"["ア"]"#);
    assert_eq!(json(&strings(&["a\"b"])), r#"["a\"b"]"#);
}

#[test]
fn plan_of_an_entry() {
    let restricted = reading("たべもの", &[]);
    let e = Entry {
        id: 1000002,
        jlpt: Some(4),
        kanji_readings: vec![kanji("食べ物", &["ichi1"], vec![restricted, reading("なし", &[])])],
        readings: vec![reading("たべもの", &[]), reading("くいもの", &[]), reading("たべもの", &["ichi1"])],
        senses: vec![
            Sense {
                pos: strings(&["noun"]),
                misc: vec![],
                refs: vec![CrossReference { reference: String::from("食べる"), reading: None, sense_idx: Some(1) }],
                glosses: vec![Gloss { text: String::from("food"), type_: None, lang: Some(String::from("eng")) }],
                info: vec![],
                dialects: vec![],
                examples: vec![Example {
                    source_: Source { name: String::from("tat"), id: None },
                    text: String::from("x"),
                    sentences: vec![],
                }],
            },
            sense(&[Some("dut")]),
        ],
    };
    let rows = plan_entry(&e);
    assert_eq!(rows.id, 1000002);
    assert_eq!(rows.jlpt, Some(4));
    assert_eq!((rows.freq_score, rows.has_common), (520, true));
    assert_eq!(rows.readings.len(), 3);
    assert_eq!(rows.readings[0].priority, "[]");
    assert_eq!(rows.readings[2].priority, r#"["ichi1"]"#);
    assert_eq!(rows.kanji_readings[0].restricted_readings, vec![2]);
    assert_eq!(rows.senses.len(), 2);
    assert_eq!(rows.senses[0].sense_index, 0);
    assert_eq!(rows.senses[0].pos, r#"["noun"]"#);
    assert_eq!(rows.senses[1].sense_index, 1);
    assert_eq!(rows.senses[1].lang_indices, vec![(String::from("dut"), 0)]);
    assert_eq!(rows.sense_counts, vec![(String::from("eng"), 1), (String::from("dut"), 1)]);
}

#[test]
fn lang_positions_stay_below_lang_counts() {
    let e = entry(
        vec![],
        vec![],
        vec![sense(&[Some("spa")]), sense(&[Some("eng"), Some("spa"), Some("eng")]), sense(&[Some("ger")]), sense(&[Some("eng")])],
    );
    let counts = count_senses_by_lang(&e);
    let idx = sense_lang_indices(&e);
    for (i, row) in idx.iter().enumerate() {
        for (lang, pos) in row {
            let n = counts.iter().find(|(l, _)| l == lang).map(|(_, n)| *n).unwrap();
            assert!(*pos < n && n <= e.senses.len());
            for later in &idx[i + 1..] {
                if let Some((_, p2)) = later.iter().find(|(l, _)| l == lang) {
                    assert!(pos < p2);
                }
            }
        }
    }
    assert_eq!(counts, vec![(String::from("spa"), 2), (String::from("eng"), 2), (String::from("ger"), 1)]);
}

#[test]
fn common_entries_score_at_least_the_bonus() {
    let common = entry(vec![], vec![reading("ねこ", &["news1"])], vec![]);
    let (score, is_common) = compute_freq_score(&common);
    assert!(is_common && score >= 500);
    let plain = entry(vec![kanji("猫", &["ichi2", "spec2"], vec![])], vec![reading("ねこ", &["news2"])], vec![]);
    assert_eq!(compute_freq_score(&plain), (15, false));
}

#[test]
fn freq_scores_fit() {
    let e = entry(vec![kanji("食べ物", &["ichi1"], vec![])], vec![reading("たべもの", &["ichi1"])], vec![]);
    assert!(freq_score_fits(&e));
    assert!(freq_score_fits(&entry(vec![], vec![], vec![])));
}
