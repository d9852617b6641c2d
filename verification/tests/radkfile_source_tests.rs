use shodoukan::datasources::radkfile::source::RadkfileSource;

#[test]
fn radkfile_parses_radical_header() {
    let (radicals, _) = RadkfileSource::parse("# comment\n$ 一 1\n一 万 丁\n");
    assert_eq!(radicals.len(), 1);
    assert_eq!(radicals[0].literal, "一");
    assert_eq!(radicals[0].strokes, 1);
}

#[test]
fn radkfile_parses_kanji_radical_pairs() {
    let (_, pairs) = RadkfileSource::parse("$ 一 1\n一 万 丁\n");
    assert_eq!(pairs.len(), 3);
    assert!(pairs.iter().all(|p| p.radical_literal == "一"));
    let kanjis: Vec<&str> = pairs.iter().map(|p| p.kanji_literal.as_str()).collect();
    assert!(kanjis.contains(&"一"));
    assert!(kanjis.contains(&"万"));
    assert!(kanjis.contains(&"丁"));
}

#[test]
fn radkfile_skips_comment_lines() {
    let (radicals, pairs) = RadkfileSource::parse("# this is a comment\n$ 亅 2\n丁 才\n");
    assert_eq!(radicals.len(), 1);
    assert_eq!(radicals[0].literal, "亅");
    assert_eq!(pairs.len(), 2);
}

#[test]
fn radkfile_handles_multiple_radicals() {
    let (radicals, pairs) = RadkfileSource::parse("$ 一 1\n万 丁\n$ 乙 1\n乙 乾\n");
    assert_eq!(radicals.len(), 2);
    assert_eq!(pairs.len(), 4);
    let rad_lits: Vec<&str> = radicals.iter().map(|r| r.literal.as_str()).collect();
    assert_eq!(rad_lits, ["一", "乙"]);
}

#[test]
fn radkfile_edge_lines() {
    let text = "丁 才\r\n  $ 亻 2 js01\r\n\r\n  休  体\t\n$\n$ 氵 x\n池\n";
    let (radicals, pairs) = RadkfileSource::parse(text);
    let rads: Vec<(&str, u32)> = radicals.iter().map(|r| (r.literal.as_str(), r.strokes)).collect();
    assert_eq!(rads, [("亻", 2), ("氵", 0)]);
    let ps: Vec<(&str, &str)> = pairs
        .iter()
        .map(|p| (p.kanji_literal.as_str(), p.radical_literal.as_str()))
        .collect();
    assert_eq!(ps, [("休", "亻"), ("体", "亻"), ("池", "氵")]);
}

#[test]
fn radkfile_empty_text() {
    let (radicals, pairs) = RadkfileSource::parse("");
    assert!(radicals.is_empty());
    assert!(pairs.is_empty());
}

#[test]
fn radkfile_pairs_name_listed_radicals() {
    let text = "一 stray kanji before any radical\n$ 一 1\n一 万\n$ 亻 2 3D\n\n# note\n休 体\n";
    let (radicals, pairs) = RadkfileSource::parse(text);
    assert_eq!(pairs.len(), 4);
    for p in &pairs {
        assert!(radicals.iter().any(|r| r.literal == p.radical_literal));
    }
}
