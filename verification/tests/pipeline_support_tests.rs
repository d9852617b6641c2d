use shodoukan::traits::datasource::Datasource;
use shodoukan::datasources::jlpt::dtos::VocabItemDto;
use shodoukan::datasources::jlpt::source::JlptSource;
use shodoukan::datasources::kanjidic::parser::KanjiDicSource;
use shodoukan::http::{next_step, AttemptOutcome, NextStep, RETRIES};
use shodoukan::progress::{finish_line, progress_line, step_line};

#[test]
fn retry_policy() {
    assert!(matches!(next_step(1, AttemptOutcome::Received, false), NextStep::Done));
    assert!(matches!(next_step(1, AttemptOutcome::Failed, false), NextStep::Retry));
    assert!(matches!(next_step(2, AttemptOutcome::NotFound, false), NextStep::Retry));
    assert!(matches!(next_step(RETRIES, AttemptOutcome::Failed, false), NextStep::GiveUp));
    assert!(matches!(next_step(1, AttemptOutcome::NotFound, true), NextStep::GiveUp));
    assert!(matches!(next_step(1, AttemptOutcome::Failed, true), NextStep::Retry));
    assert!(matches!(next_step(3, AttemptOutcome::Failed, true), NextStep::GiveUp));
}

#[test]
fn progress_lines() {
    assert_eq!(
        progress_line("Kanji", 500, 1000),
        format!("\r  {:<28} [{}{}] {}/{}    ", "Kanji", "I".repeat(18), ".".repeat(18), 500, 1000)
    );
    assert_eq!(
        progress_line("Entries", 0, 0),
        format!("\r  {:<28} [{}] 0/0    ", "Entries", "I".repeat(36))
    );
    let long = "A label that is longer than twenty-eight";
    assert_eq!(
        progress_line(long, 1, 3),
        format!("\r  {} [{}{}] 1/3    ", long, "I".repeat(12), ".".repeat(24))
    );
    assert_eq!(finish_line("SVGs", 6500), format!("\r  {:<28} [{}] 6500    ", "SVGs", "I".repeat(36)));
    assert_eq!(step_line(3, 11, "Fetching KANJIDIC2..."), "\n[3/11] Fetching KANJIDIC2...");
}

#[test]
fn jlpt_lists_are_flattened() {
    let groups = vec![
        (String::from("食べ物"), vec![
            VocabItemDto { reading: String::from("たべもの"), level: 5 },
            VocabItemDto { reading: String::from("くいもの"), level: 2 },
        ]),
        (String::from("ドア"), vec![VocabItemDto { reading: String::from("ドア"), level: 5 }]),
        (String::from("空"), vec![]),
    ];
    let entries = JlptSource::vocab_entries(groups);
    let v: Vec<(&str, &str, u8)> = entries.iter().map(|e| (e.key.as_str(), e.reading.as_str(), e.level)).collect();
    assert_eq!(v, [("食べ物", "たべもの", 5), ("食べ物", "くいもの", 2), ("ドア", "ドア", 5)]);
    let kanji = JlptSource::kanji_entries(vec![(String::from("食"), 5), (String::from("亜"), 1)]);
    assert_eq!((kanji[1].literal.as_str(), kanji[1].level), ("亜", 1));
}

#[test]
fn kanjidic_url() {
    let s = KanjiDicSource { ds_url: String::from("http://www.edrdg.org/kanjidic/kanjidic2.xml.gz") };
    assert_eq!(s.url(), "http://www.edrdg.org/kanjidic/kanjidic2.xml.gz");
}

#[test]
fn progress_bar_fills_up_to_the_closing_bar() {
    let bar = |line: &str| -> String {
        let open = line.find('[').unwrap();
        let close = line.find(']').unwrap();
        line[open + 1..close].to_string()
    };
    let mut last = 0;
    for current in 0..=7 {
        let filled = bar(&progress_line("Step", current, 7)).matches('I').count();
        assert!(filled >= last && filled <= 36);
        last = filled;
    }
    assert_eq!(bar(&progress_line("Step", 7, 7)), bar(&finish_line("Step", 7)));
}

#[test]
fn progress_past_the_total_while_the_bar_fits() {
    assert_eq!(
        progress_line("Step", 101, 100),
        format!("\r  {:<28} [{}] 101/100    ", "Step", "I".repeat(36))
    );
}
