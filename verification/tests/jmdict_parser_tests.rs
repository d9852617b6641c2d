use shodoukan::traits::datasource::Datasource;
use shodoukan::datasources::jmdict::parser::{
    capture_step, entities_from_captures, entities_from_doctype, entry_id_hint, prolog_step, resolve_entities, CaptureAction,
    JMDictSource, PrologAction, XmlEvent,
};

const DOCTYPE: &str = r#"JMdict [
<!ELEMENT JMdict (entry*)>
<!ENTITY n "noun (common) (futsuumeishi)">
<!ENTITY unc "unclassified">
<!ENTITY   sK   "search-only kanji form">
<!ENTITY n "noun">
]"#;

#[test]
fn entity_definitions_are_read() {
    let e = entities_from_doctype(DOCTYPE);
    let pairs: Vec<(&str, &str)> = e.iter().map(|(n, v)| (n.as_str(), v.as_str())).collect();
    assert_eq!(pairs, [("n", "noun"), ("unc", "unclassified"), ("sK", "search-only kanji form")]);
    assert!(entities_from_doctype("no entities here").is_empty());
}

#[test]
fn entity_references_are_resolved() {
    let e = entities_from_doctype(DOCTYPE);
    let xml = String::from("<entry><pos>&unc;</pos><ke_inf>&sK;</ke_inf><x>&amp; &n; &nn;</x></entry>");
    assert_eq!(
        resolve_entities(xml, &e),
        "<entry><pos>unclassified</pos><ke_inf>search-only kanji form</ke_inf><x>&amp; noun &nn;</x></entry>"
    );
}

#[test]
fn entities_are_replaced_in_table_order() {
    let e = vec![(String::from("a"), String::from("&b;")), (String::from("b"), String::from("B"))];
    assert_eq!(resolve_entities(String::from("&a;&b;"), &e), "BB");
    let e2 = vec![(String::from("b"), String::from("B")), (String::from("a"), String::from("&b;"))];
    assert_eq!(resolve_entities(String::from("&a;&b;"), &e2), "&b;B");
}

#[test]
fn entry_ids_for_messages() {
    assert_eq!(entry_id_hint("<entry><ent_seq>1000220</ent_seq></entry>"), "1000220");
    assert_eq!(entry_id_hint("<entry><ent_seq>1000220"), "unknown");
    assert_eq!(entry_id_hint("<entry/>"), "unknown");
}

#[test]
fn events_of_an_entry() {
    let entry = b"entry".to_vec();
    assert!(matches!(capture_step(false, &XmlEvent::Start(entry.clone()), &entry), CaptureAction::Begin));
    assert!(matches!(capture_step(true, &XmlEvent::Start(entry.clone()), &entry), CaptureAction::Begin));
    assert!(matches!(capture_step(true, &XmlEvent::Start(b"keb".to_vec()), &entry), CaptureAction::Append));
    assert!(matches!(capture_step(false, &XmlEvent::Other, &entry), CaptureAction::Skip));
    assert!(matches!(capture_step(true, &XmlEvent::End(entry.clone()), &entry), CaptureAction::Finish));
    assert!(matches!(capture_step(false, &XmlEvent::End(entry.clone()), &entry), CaptureAction::Stop));
    assert!(matches!(capture_step(true, &XmlEvent::Eof, &entry), CaptureAction::Stop));
    assert!(matches!(capture_step(true, &XmlEvent::Failure, &entry), CaptureAction::Stop));
}

#[test]
fn prolog_events() {
    assert!(matches!(prolog_step(&XmlEvent::DocType), PrologAction::ReadEntities));
    assert!(matches!(prolog_step(&XmlEvent::Other), PrologAction::Continue));
    assert!(matches!(prolog_step(&XmlEvent::Start(b"JMdict".to_vec())), PrologAction::Stop));
    assert!(matches!(prolog_step(&XmlEvent::Eof), PrologAction::Stop));
}

#[test]
fn source_url() {
    let s = JMDictSource { ds_url: String::from("http://ftp.edrdg.org/pub/Nihongo/JMdict.gz") };
    assert_eq!(s.url(), "http://ftp.edrdg.org/pub/Nihongo/JMdict.gz");
}

#[test]
fn text_without_references_is_unchanged() {
    let e = entities_from_doctype(DOCTYPE);
    let xml = String::from("<entry><keb>食べる</keb><gloss>to eat</gloss></entry>");
    assert_eq!(resolve_entities(xml.clone(), &e), xml);
}

#[test]
fn entity_table_from_captures() {
    let cap = |name: Option<&str>, value: Option<&str>| -> Vec<Option<String>> {
        vec![Some(String::from("<!ENTITY ...>")), name.map(String::from), value.map(String::from)]
    };
    let caps = vec![
        cap(Some("n"), Some("noun (common)")),
        cap(Some("v1"), Some("Ichidan verb")),
        cap(None, Some("ignored")),
        vec![Some(String::from("too short"))],
        cap(Some("n"), Some("noun")),
    ];
    let table = entities_from_captures(&caps);
    let pairs: Vec<(&str, &str)> = table.iter().map(|(n, v)| (n.as_str(), v.as_str())).collect();
    assert_eq!(pairs, [("n", "noun"), ("v1", "Ichidan verb")]);
    assert!(entities_from_captures(&vec![]).is_empty());
}
