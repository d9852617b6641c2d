//! Language codes: JMdict and Tatoeba name three languages differently.
use vstd::prelude::*;

use crate::text::{chars_eq, chars_of};

verus! {

/// The Tatoeba code of the JMdict language code `c`: JMdict uses the
/// bibliographic ISO 639-2/B codes `fre`, `ger`, `dut` where Tatoeba uses the
/// terminological `fra`, `deu`, `nld`; every other code is the same in both.
pub open spec fn tatoeba_code(c: Seq<char>) -> Seq<char> {
    if c == "fre"@ {
        "fra"@
    } else if c == "ger"@ {
        "deu"@
    } else if c == "dut"@ {
        "nld"@
    } else {
        c
    }
}

/// Maps a JMdict gloss language code to the equivalent Tatoeba download code.
pub fn to_tatoeba(jmdict_lang: &str) -> (r: &str)
    ensures
        r@ == tatoeba_code(jmdict_lang@),
{
    let c = chars_of(jmdict_lang);
    if chars_eq(&c, &chars_of("fre")) {
        "fra"
    } else if chars_eq(&c, &chars_of("ger")) {
        "deu"
    } else if chars_eq(&c, &chars_of("dut")) {
        "nld"
    } else {
        jmdict_lang
    }
}

/// Mapping a code twice gives what mapping it once gives: no Tatoeba code is
/// itself one of the three JMdict codes that are renamed.
pub proof fn lemma_tatoeba_code_idempotent(c: Seq<char>)
    ensures
        tatoeba_code(tatoeba_code(c)) == tatoeba_code(c),
{
    reveal_strlit("fre");
    reveal_strlit("ger");
    reveal_strlit("dut");
    reveal_strlit("fra");
    reveal_strlit("deu");
    reveal_strlit("nld");
    if c == "fre"@ {
        assert("fra"@ != "fre"@) by { assert("fra"@[2] != "fre"@[2]); }
        assert("fra"@ != "ger"@) by { assert("fra"@[0] != "ger"@[0]); }
        assert("fra"@ != "dut"@) by { assert("fra"@[0] != "dut"@[0]); }
    } else if c == "ger"@ {
        assert("deu"@ != "fre"@) by { assert("deu"@[0] != "fre"@[0]); }
        assert("deu"@ != "ger"@) by { assert("deu"@[0] != "ger"@[0]); }
        assert("deu"@ != "dut"@) by { assert("deu"@[1] != "dut"@[1]); }
    } else if c == "dut"@ {
        assert("nld"@ != "fre"@) by { assert("nld"@[0] != "fre"@[0]); }
        assert("nld"@ != "ger"@) by { assert("nld"@[0] != "ger"@[0]); }
        assert("nld"@ != "dut"@) by { assert("nld"@[0] != "dut"@[0]); }
    }
}

} // verus!
