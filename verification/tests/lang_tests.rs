use shodoukan::lang::to_tatoeba;

#[test]
fn maps_bibliographic_codes_to_terminological() {
    assert_eq!(to_tatoeba("fre"), "fra");
    assert_eq!(to_tatoeba("ger"), "deu");
    assert_eq!(to_tatoeba("dut"), "nld");
}

#[test]
fn passes_through_matching_codes() {
    assert_eq!(to_tatoeba("spa"), "spa");
    assert_eq!(to_tatoeba("eng"), "eng");
    assert_eq!(to_tatoeba("rus"), "rus");
    assert_eq!(to_tatoeba("hun"), "hun");
    assert_eq!(to_tatoeba("slv"), "slv");
}

#[test]
fn mapping_twice_is_mapping_once() {
    for code in ["fre", "ger", "dut", "fra", "deu", "nld", "eng", ""] {
        assert_eq!(to_tatoeba(to_tatoeba(code)), to_tatoeba(code));
    }
}

#[test]
fn codes_that_merely_resemble_are_kept() {
    assert_eq!(to_tatoeba("Fre"), "Fre");
    assert_eq!(to_tatoeba("fre "), "fre ");
    assert_eq!(to_tatoeba("fr"), "fr");
}
