use shodoukan::datasources::jmdict::dtos::{
    default_lang, EntryDto, ExampleDto, GlossDto, KanjiReadingDto, NoKanjiDto, ReadingDto,
    SenseDto, SentenceDto, SourceDto,
};
use shodoukan::datasources::jmdict::mappers::JMDictMapper;

fn mapper() -> JMDictMapper {
    JMDictMapper::new()
}

fn reading(text: &str) -> ReadingDto {
    ReadingDto {
        text: String::from(text),
        restricted_readings: vec![],
        priority: vec![],
        info: vec![],
        no_kanji: vec![],
    }
}

fn sense_with_refs(refs: Vec<String>) -> SenseDto {
    SenseDto {
        pos: vec![],
        misc: vec![],
        refs,
        glosses: vec![],
        info: vec![],
        dialects: vec![],
        examples: vec![],
    }
}

#[test]
fn mapper_tests_maps_basic_fields() {
    let dto = EntryDto {
        id: 1000001,
        kanji_readings: vec![KanjiReadingDto {
            kanji: String::from("食べる"),
            priority: vec![String::from("ichi1")],
            info: vec![],
        }],
        readings: vec![reading("たべる")],
        senses: vec![SenseDto {
            pos: vec![],
            misc: vec![],
            refs: vec![],
            glosses: vec![GlossDto {
                text: Some(String::from("to eat")),
                type_: None,
                lang: String::from("eng"),
            }],
            info: vec![],
            dialects: vec![],
            examples: vec![],
        }],
    };

    let entry = mapper().map_entry_to_domain(dto);

    assert_eq!(entry.id, 1000001);
    assert_eq!(entry.kanji_readings[0].kanji, "食べる");
    assert_eq!(entry.kanji_readings[0].priority, vec!["ichi1"]);
    assert_eq!(entry.readings[0].text, "たべる");
    assert_eq!(entry.senses[0].glosses[0].text, "to eat");
    assert_eq!(entry.senses[0].glosses[0].lang.as_deref(), Some("eng"));
}

#[test]
fn preserves_gloss_language() {
    let entry = mapper().map_entry_to_domain(EntryDto {
        id: 1,
        kanji_readings: vec![],
        readings: vec![reading("ヽ")],
        senses: vec![SenseDto {
            pos: vec![],
            misc: vec![],
            refs: vec![],
            glosses: vec![
                GlossDto { text: Some(String::from("repetition mark")), type_: None, lang: String::from("eng") },
                GlossDto { text: Some(String::from("hitotsuten")), type_: None, lang: String::from("dut") },
            ],
            info: vec![],
            dialects: vec![],
            examples: vec![],
        }],
    });

    assert_eq!(entry.senses[0].glosses[0].lang.as_deref(), Some("eng"));
    assert_eq!(entry.senses[0].glosses[1].lang.as_deref(), Some("dut"));
}

#[test]
fn maps_no_kanji_flag() {
    let entry = mapper().map_entry_to_domain(EntryDto {
        id: 1,
        kanji_readings: vec![],
        readings: vec![ReadingDto {
            text: String::from("ドア"),
            restricted_readings: vec![],
            priority: vec![],
            info: vec![],
            no_kanji: vec![NoKanjiDto {}],
        }],
        senses: vec![],
    });

    assert!(entry.readings[0].no_kanji);
}

#[test]
fn maps_restricted_readings_to_kanji_reading() {
    let entry = mapper().map_entry_to_domain(EntryDto {
        id: 1,
        kanji_readings: vec![KanjiReadingDto {
            kanji: String::from("食べ物"),
            priority: vec![],
            info: vec![],
        }],
        readings: vec![ReadingDto {
            text: String::from("たべもの"),
            restricted_readings: vec![String::from("食べ物")],
            priority: vec![],
            info: vec![],
            no_kanji: vec![],
        }],
        senses: vec![],
    });

    assert_eq!(entry.kanji_readings[0].restricted_readings.len(), 1);
    assert_eq!(entry.kanji_readings[0].restricted_readings[0].text, "たべもの");
    assert_eq!(entry.readings[0].text, "たべもの");
}

#[test]
fn maps_cross_reference_with_reading_and_sense_idx() {
    let entry = mapper().map_entry_to_domain(EntryDto {
        id: 1,
        kanji_readings: vec![],
        readings: vec![],
        senses: vec![sense_with_refs(vec![String::from("食べる・たべる・1")])],
    });

    let xref = &entry.senses[0].refs[0];
    assert_eq!(xref.reference, "食べる");
    assert_eq!(xref.reading.as_deref(), Some("たべる"));
    assert_eq!(xref.sense_idx, Some(1));
}

#[test]
fn maps_cross_reference_without_reading() {
    let entry = mapper().map_entry_to_domain(EntryDto {
        id: 1,
        kanji_readings: vec![],
        readings: vec![],
        senses: vec![sense_with_refs(vec![String::from("食べる")])],
    });

    let xref = &entry.senses[0].refs[0];
    assert_eq!(xref.reference, "食べる");
    assert!(xref.reading.is_none());
    assert!(xref.sense_idx.is_none());
}

#[test]
fn cross_reference_separators_and_bad_sense_numbers() {
    let entry = mapper().map_entry_to_domain(EntryDto {
        id: 1,
        kanji_readings: vec![],
        readings: vec![],
        senses: vec![sense_with_refs(vec![
            String::from("明白.めいはく.2"),
            String::from("明白・x・two"),
            String::from("a・b・+3・9"),
            String::from(""),
        ])],
    });
    let refs = &entry.senses[0].refs;
    assert_eq!(refs[0].reference, "明白");
    assert_eq!(refs[0].reading.as_deref(), Some("めいはく"));
    assert_eq!(refs[0].sense_idx, Some(2));
    assert_eq!(refs[1].sense_idx, None);
    assert_eq!(refs[2].sense_idx, Some(3));
    assert_eq!(refs[3].reference, "");
    assert!(refs[3].reading.is_none());
}

#[test]
fn blank_and_missing_glosses_are_dropped_and_text_trimmed() {
    let entry = mapper().map_entry_to_domain(EntryDto {
        id: 1,
        kanji_readings: vec![],
        readings: vec![],
        senses: vec![SenseDto {
            pos: vec![],
            misc: vec![],
            refs: vec![],
            glosses: vec![
                GlossDto { text: None, type_: None, lang: String::from("eng") },
                GlossDto { text: Some(String::from(" \t\n")), type_: None, lang: String::from("eng") },
                GlossDto {
                    text: Some(String::from("  obvious\u{3000}")),
                    type_: Some(String::from("expl")),
                    lang: String::from("eng"),
                },
            ],
            info: vec![],
            dialects: vec![],
            examples: vec![],
        }],
    });
    let glosses = &entry.senses[0].glosses;
    assert_eq!(glosses.len(), 1);
    assert_eq!(glosses[0].text, "obvious");
    assert_eq!(glosses[0].type_.as_deref(), Some("expl"));
}

#[test]
fn reading_restricted_twice_and_to_several_forms() {
    let entry = mapper().map_entry_to_domain(EntryDto {
        id: 1000110,
        kanji_readings: vec![
            KanjiReadingDto { kanji: String::from("ＣＤプレーヤー"), priority: vec![], info: vec![] },
            KanjiReadingDto { kanji: String::from("ＣＤプレイヤー"), priority: vec![], info: vec![] },
        ],
        readings: vec![
            ReadingDto {
                text: String::from("シーディープレーヤー"),
                restricted_readings: vec![String::from("ＣＤプレーヤー")],
                priority: vec![String::from("spec1")],
                info: vec![],
                no_kanji: vec![],
            },
            ReadingDto {
                text: String::from("シーディープレイヤー"),
                restricted_readings: vec![String::from("ＣＤプレイヤー"), String::from("ＣＤプレイヤー")],
                priority: vec![],
                info: vec![],
                no_kanji: vec![],
            },
        ],
        senses: vec![],
    });
    let first = &entry.kanji_readings[0].restricted_readings;
    assert_eq!(first.len(), 1);
    assert_eq!(first[0].text, "シーディープレーヤー");
    assert_eq!(first[0].priority, vec!["spec1"]);
    let second = &entry.kanji_readings[1].restricted_readings;
    assert_eq!(second.len(), 2);
    assert_eq!(second[1].text, "シーディープレイヤー");
    assert_eq!(entry.readings.len(), 2);
    assert_eq!(entry.jlpt, None);
}

#[test]
fn example_sentences_keyed_by_language_later_wins() {
    let entry = mapper().map_entry_to_domain(EntryDto {
        id: 1,
        kanji_readings: vec![],
        readings: vec![],
        senses: vec![SenseDto {
            pos: vec![String::from("noun")],
            misc: vec![],
            refs: vec![],
            glosses: vec![],
            info: vec![],
            dialects: vec![],
            examples: vec![ExampleDto {
                source_: SourceDto { name: String::from("tat"), id: Some(String::from("12345")) },
                text: String::from("食べ物"),
                sentences: vec![
                    SentenceDto { lang: String::from("jpn"), text: String::from("食べ物を食べます。") },
                    SentenceDto { lang: String::from("eng"), text: String::from("I eat food.") },
                    SentenceDto { lang: String::from("jpn"), text: String::from("食べます。") },
                ],
            }],
        }],
    });
    let ex = &entry.senses[0].examples[0];
    assert_eq!(ex.source_.name, "tat");
    assert_eq!(ex.source_.id.as_deref(), Some("12345"));
    assert_eq!(ex.text, "食べ物");
    assert_eq!(ex.sentences.len(), 2);
    assert_eq!(ex.sentences[0], (String::from("jpn"), String::from("食べます。")));
    assert_eq!(ex.sentences[1], (String::from("eng"), String::from("I eat food.")));
    assert_eq!(entry.senses[0].pos, vec!["noun"]);
}

#[test]
fn default_gloss_language_is_eng() {
    assert_eq!(default_lang(), "eng");
}
