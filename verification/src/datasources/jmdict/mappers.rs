//! Mapping of JMdict records onto dictionary entries.
use vstd::prelude::*;

use crate::datasources::jmdict::dtos::{
    EntryDto, ExampleDto, GlossDto, KanjiReadingDto, ReadingDto, SenseDto, SentenceDto, SourceDto,
};
use crate::domain::models::entry::{
    CrossReference, Entry, Example, Gloss, KanjiReading, Reading, Sense, Source,
};
use crate::table::{table_from, table_insert};
use crate::text::{
    chars_of, parse_uint, parse_unsigned, split_chars, split_on, string_of, trim, trim_chars,
    views,
};

verus! {

// ── Specification ───────────────────────────────────────────────────────────

/// The characters that separate the parts of a cross-reference
/// (`word・reading・sense`).
pub open spec fn xref_separators() -> Seq<char> {
    seq!['.', '・']
}

/// `s` holds the same source as `d`.
pub open spec fn source_from(s: Source, d: SourceDto) -> bool {
    s.name == d.name && s.id == d.id
}

/// `r` is the reading that `d` describes.
pub open spec fn reading_from(r: Reading, d: ReadingDto) -> bool {
    &&& r.text == d.text
    &&& r.priority@ == d.priority@
    &&& r.no_kanji == (d.no_kanji@.len() > 0)
    &&& r.info@ == d.info@
}

/// Whether the gloss `d` is kept: it has text that is not blank.
pub open spec fn gloss_kept(d: GlossDto) -> bool {
    d.text matches Some(t) && trim(t@).len() > 0
}

/// `g` is the gloss that `d` describes: trimmed text, same type, and the
/// language made explicit.
pub open spec fn gloss_from(g: Gloss, d: GlossDto) -> bool {
    &&& d.text matches Some(t)
    &&& g.text@ == trim(t@)
    &&& g.type_ == d.type_
    &&& g.lang == Some(d.lang)
}

/// The glosses of `ds` that are kept, in order.
pub open spec fn kept_glosses(ds: Seq<GlossDto>) -> Seq<GlossDto>
    decreases ds.len(),
{
    if ds.len() == 0 {
        ds
    } else if gloss_kept(ds.last()) {
        kept_glosses(ds.drop_last()).push(ds.last())
    } else {
        kept_glosses(ds.drop_last())
    }
}

/// Every gloss that is kept has text that is not blank.
proof fn lemma_kept_glosses(ds: Seq<GlossDto>)
    ensures
        forall|k: int| 0 <= k < kept_glosses(ds).len() ==> gloss_kept(#[trigger] kept_glosses(ds)[k]),
    decreases ds.len(),
{
    if ds.len() > 0 {
        lemma_kept_glosses(ds.drop_last());
        let p = kept_glosses(ds.drop_last());
        if gloss_kept(ds.last()) {
            assert forall|k: int| 0 <= k < kept_glosses(ds).len() implies gloss_kept(
                #[trigger] kept_glosses(ds)[k],
            ) by {
                if k < p.len() {
                    assert(kept_glosses(ds)[k] == p[k]);
                }
            }
        }
    }
}

/// No gloss of a mapped sense is blank, and every one names its language.
pub proof fn lemma_sense_glosses(s: Sense, d: SenseDto)
    requires
        sense_from(s, d),
    ensures
        forall|i: int|
            0 <= i < s.glosses@.len() ==> (#[trigger] s.glosses@[i]).text@.len() > 0
                && s.glosses@[i].lang is Some,
{
    lemma_kept_glosses(d.glosses@);
    assert forall|i: int| 0 <= i < s.glosses@.len() implies (#[trigger] s.glosses@[i]).text@.len()
        > 0 && s.glosses@[i].lang is Some by {
        assert(gloss_from(s.glosses@[i], kept_glosses(d.glosses@)[i]));
        assert(gloss_kept(kept_glosses(d.glosses@)[i]));
    }
}

/// `x` is the cross-reference written as `d`: the first part names the
/// target, the second (if any) its reading, the third (if any and numeric)
/// the sense number.
pub open spec fn xref_from(x: CrossReference, d: Seq<char>) -> bool {
    let parts = split_on(d, xref_separators());
    &&& x.reference@ == parts[0]
    &&& if parts.len() > 1 {
        x.reading matches Some(r) && r@ == parts[1]
    } else {
        x.reading is None
    }
    &&& x.sense_idx == if parts.len() > 2 {
        match parse_unsigned(parts[2], 10, usize::MAX as nat) {
            Some(v) => Some(v as usize),
            None => None,
        }
    } else {
        None
    }
}

/// The `(language, text)` pairs of example sentences.
pub open spec fn sentence_pairs(ss: Seq<SentenceDto>) -> Seq<(String, String)> {
    ss.map_values(|s: SentenceDto| (s.lang, s.text))
}

/// `e` is the example that `d` describes; its translations are keyed by
/// language, a later sentence in a language replacing an earlier one.
pub open spec fn example_from(e: Example, d: ExampleDto) -> bool {
    &&& source_from(e.source_, d.source_)
    &&& e.text == d.text
    &&& e.sentences@ == table_from(sentence_pairs(d.sentences@))
}

/// `s` is the sense that `d` describes.
pub open spec fn sense_from(s: Sense, d: SenseDto) -> bool {
    &&& s.pos == d.pos
    &&& s.misc == d.misc
    &&& s.info == d.info
    &&& s.dialects == d.dialects
    &&& s.refs@.len() == d.refs@.len()
    &&& forall|i: int| 0 <= i < d.refs@.len() ==> xref_from(#[trigger] s.refs@[i], d.refs@[i]@)
    &&& s.glosses@.len() == kept_glosses(d.glosses@).len()
    &&& forall|i: int|
        0 <= i < s.glosses@.len() ==> gloss_from(#[trigger] s.glosses@[i], kept_glosses(d.glosses@)[i])
    &&& s.examples@.len() == d.examples@.len()
    &&& forall|i: int|
        0 <= i < d.examples@.len() ==> example_from(#[trigger] s.examples@[i], d.examples@[i])
}

/// How many of the restrictions `ts` name the kanji form `k`.
pub open spec fn restriction_count(ts: Seq<String>, k: Seq<char>) -> nat
    decreases ts.len(),
{
    if ts.len() == 0 {
        0
    } else {
        restriction_count(ts.drop_last(), k) + if ts.last()@ == k {
            1nat
        } else {
            0nat
        }
    }
}

/// The readings restricted to the kanji form `k`, in reading order; a reading
/// appears once for each of its restrictions that names `k`.
pub open spec fn restricted_sources(k: Seq<char>, rs: Seq<ReadingDto>) -> Seq<ReadingDto>
    decreases rs.len(),
{
    if rs.len() == 0 {
        Seq::empty()
    } else {
        restricted_sources(k, rs.drop_last()) + Seq::new(
            restriction_count(rs.last().restricted_readings@, k),
            |_i: int| rs.last(),
        )
    }
}

/// A kanji form is named by some restriction exactly when it is counted.
proof fn lemma_restriction_count(ts: Seq<String>, k: Seq<char>)
    ensures
        restriction_count(ts, k) > 0 <==> exists|j: int| 0 <= j < ts.len() && (#[trigger] ts[j])@ == k,
    decreases ts.len(),
{
    if ts.len() > 0 {
        lemma_restriction_count(ts.drop_last(), k);
        if exists|j: int| 0 <= j < ts.len() - 1 && (#[trigger] ts.drop_last()[j])@ == k {
            let j = choose|j: int| 0 <= j < ts.len() - 1 && (#[trigger] ts.drop_last()[j])@ == k;
            assert(ts[j] == ts.drop_last()[j]);
        }
        if exists|j: int| 0 <= j < ts.len() && (#[trigger] ts[j])@ == k {
            let j = choose|j: int| 0 <= j < ts.len() && (#[trigger] ts[j])@ == k;
            if j < ts.len() - 1 {
                assert(ts.drop_last()[j] == ts[j]);
            }
        }
    }
}

/// The readings restricted to a kanji form are exactly the readings with a
/// restriction naming that form: a reading without restrictions, or whose
/// restrictions name other forms only, is never among them.
pub proof fn lemma_restricted_sources(k: Seq<char>, rs: Seq<ReadingDto>, x: ReadingDto)
    ensures
        restricted_sources(k, rs).contains(x) <==> exists|i: int|
            0 <= i < rs.len() && #[trigger] rs[i] == x && exists|j: int|
                0 <= j < x.restricted_readings@.len() && (#[trigger] x.restricted_readings@[j])@
                    == k,
    decreases rs.len(),
{
    lemma_restriction_count(x.restricted_readings@, k);
    if rs.len() > 0 {
        let p = rs.drop_last();
        lemma_restricted_sources(k, p, x);
        let a = restricted_sources(k, p);
        let n = restriction_count(rs.last().restricted_readings@, k);
        let b = Seq::new(n, |_i: int| rs.last());
        assert(restricted_sources(k, rs) == a + b);
        if (a + b).contains(x) {
            let m = choose|m: int| 0 <= m < (a + b).len() && (a + b)[m] == x;
            if m < a.len() {
                assert(a[m] == x);
                let i = choose|i: int| 0 <= i < p.len() && #[trigger] p[i] == x && exists|j: int|
                    0 <= j < x.restricted_readings@.len() && (#[trigger] x.restricted_readings@[j])@
                        == k;
                assert(rs[i] == p[i]);
            } else {
                assert(b[m - a.len()] == x);
                assert(rs[rs.len() - 1] == x);
            }
        }
        if exists|i: int|
            0 <= i < rs.len() && #[trigger] rs[i] == x && exists|j: int|
                0 <= j < x.restricted_readings@.len() && (#[trigger] x.restricted_readings@[j])@
                    == k {
            let i = choose|i: int|
                0 <= i < rs.len() && #[trigger] rs[i] == x && exists|j: int|
                    0 <= j < x.restricted_readings@.len() && (#[trigger] x.restricted_readings@[j])@
                        == k;
            if i < p.len() {
                assert(p[i] == rs[i]);
                let m = choose|m: int| 0 <= m < a.len() && a[m] == x;
                assert((a + b)[m] == x);
            } else {
                assert(b[0] == x);
                assert((a + b)[a.len() as int] == x);
            }
        }
    }
}

/// `kr` is the kanji form `d` of an entry whose readings are `rs`.
pub open spec fn kanji_reading_from(kr: KanjiReading, d: KanjiReadingDto, rs: Seq<ReadingDto>) -> bool {
    let sources = restricted_sources(d.kanji@, rs);
    &&& kr.kanji == d.kanji
    &&& kr.priority == d.priority
    &&& kr.info == d.info
    &&& kr.restricted_readings@.len() == sources.len()
    &&& forall|i: int|
        0 <= i < sources.len() ==> reading_from(#[trigger] kr.restricted_readings@[i], sources[i])
}

/// `e` is the entry that `d` describes.
pub open spec fn entry_from(e: Entry, d: EntryDto) -> bool {
    &&& e.id == d.id
    &&& e.jlpt is None
    &&& e.readings@.len() == d.readings@.len()
    &&& forall|i: int| 0 <= i < d.readings@.len() ==> reading_from(#[trigger] e.readings@[i], d.readings@[i])
    &&& e.kanji_readings@.len() == d.kanji_readings@.len()
    &&& forall|j: int|
        0 <= j < d.kanji_readings@.len() ==> kanji_reading_from(
            #[trigger] e.kanji_readings@[j],
            d.kanji_readings@[j],
            d.readings@,
        )
    &&& e.senses@.len() == d.senses@.len()
    &&& forall|i: int| 0 <= i < d.senses@.len() ==> sense_from(#[trigger] e.senses@[i], d.senses@[i])
}

// ── Implementation ──────────────────────────────────────────────────────────

/// Maps JMdict records onto entries.
pub struct JMDictMapper;

/// A copy of a list of strings.
fn copy_strings(v: &Vec<String>) -> (r: Vec<String>)
    ensures
        r@ == v@,
{
    let r = v.clone();
    assert(r@ =~= v@);
    r
}

impl JMDictMapper {
    pub fn new() -> (m: Self) {
        JMDictMapper
    }

    fn map_source(&self, dto: SourceDto) -> (s: Source)
        ensures
            source_from(s, dto),
    {
        Source { name: dto.name, id: dto.id }
    }

    fn map_gloss(&self, dto: GlossDto) -> (g: Option<Gloss>)
        ensures
            g is Some == gloss_kept(dto),
            g matches Some(g) ==> gloss_from(g, dto),
    {
        let raw = match dto.text {
            Some(t) => t,
            None => return None,
        };
        let text = trim_chars(&chars_of(raw.as_str()));
        if text.len() == 0 {
            return None;
        }
        Some(Gloss { text: string_of(&text), type_: dto.type_, lang: Some(dto.lang) })
    }

    fn map_example(&self, dto: ExampleDto) -> (e: Example)
        ensures
            example_from(e, dto),
    {
        let ghost all = dto.sentences@;
        let mut sentences: Vec<(String, String)> = Vec::new();
        for s in it: dto.sentences.into_iter()
            invariant
                it.seq() == all,
                sentences@ == table_from(sentence_pairs(all.take(it.index() as int))),
        {
            proof {
                let k = it.index() as int;
                assert(sentence_pairs(all.take(k + 1)).drop_last() =~= sentence_pairs(all.take(k)));
                assert(sentence_pairs(all.take(k + 1)).last() == (s.lang, s.text));
            }
            table_insert(&mut sentences, s.lang, s.text);
        }
        proof {
            assert(all.take(all.len() as int) =~= all);
        }
        Example { source_: self.map_source(dto.source_), text: dto.text, sentences }
    }

    fn map_reading(&self, dto: ReadingDto) -> (r: Reading)
        ensures
            reading_from(r, dto),
    {
        let no_kanji = dto.no_kanji.len() > 0;
        Reading { text: dto.text, priority: dto.priority, no_kanji, info: dto.info }
    }

    fn map_cross_reference(&self, dto: String) -> (x: CrossReference)
        ensures
            xref_from(x, dto@),
    {
        let seps: Vec<char> = vec!['.', '・'];
        assert(seps@ =~= xref_separators());
        let parts = split_chars(&chars_of(dto.as_str()), &seps);
        assert(parts@.len() == split_on(dto@, xref_separators()).len());
        let reference = string_of(&parts[0]);
        let reading = if parts.len() > 1 {
            Some(string_of(&parts[1]))
        } else {
            None
        };
        let sense_idx = if parts.len() > 2 {
            match parse_uint(&parts[2], 10, usize::MAX as u64) {
                Some(v) => Some(v as usize),
                None => None,
            }
        } else {
            None
        };
        CrossReference { reference, reading, sense_idx }
    }

    fn map_sense(&self, dto: SenseDto) -> (s: Sense)
        ensures
            sense_from(s, dto),
    {
        let ghost d = dto;
        let mut refs: Vec<CrossReference> = Vec::new();
        let mut i: usize = 0;
        let n_refs = dto.refs.len();
        while i < n_refs
            invariant
                n_refs == d.refs@.len(),
                dto.refs == d.refs,
                i <= n_refs,
                refs@.len() == i,
                forall|k: int| 0 <= k < i ==> xref_from(#[trigger] refs@[k], d.refs@[k]@),
            decreases n_refs - i,
        {
            let x = self.map_cross_reference(dto.refs[i].clone());
            refs.push(x);
            i = i + 1;
        }
        let mut glosses: Vec<Gloss> = Vec::new();
        let ghost gall = d.glosses@;
        for g in git: dto.glosses.into_iter()
            invariant
                git.seq() == gall,
                glosses@.len() == kept_glosses(gall.take(git.index() as int)).len(),
                forall|k: int|
                    0 <= k < glosses@.len() ==> gloss_from(
                        #[trigger] glosses@[k],
                        kept_glosses(gall.take(git.index() as int))[k],
                    ),
        {
            proof {
                let k = git.index() as int;
                assert(gall.take(k + 1).drop_last() =~= gall.take(k));
                assert(gall.take(k + 1).last() == g);
            }
            match self.map_gloss(g) {
                Some(mapped) => {
                    glosses.push(mapped);
                },
                None => {},
            }
        }
        proof {
            assert(gall.take(gall.len() as int) =~= gall);
        }
        let mut examples: Vec<Example> = Vec::new();
        let ghost eall = d.examples@;
        for e in eit: dto.examples.into_iter()
            invariant
                eit.seq() == eall,
                examples@.len() == eit.index(),
                forall|k: int| 0 <= k < examples@.len() ==> example_from(#[trigger] examples@[k], eall[k]),
        {
            examples.push(self.map_example(e));
        }
        Sense {
            pos: dto.pos,
            misc: dto.misc,
            refs,
            glosses,
            info: dto.info,
            dialects: dto.dialects,
            examples,
        }
    }

    fn map_kanji_reading(&self, dto: KanjiReadingDto) -> (kr: KanjiReading)
        ensures
            kr.kanji == dto.kanji,
            kr.priority == dto.priority,
            kr.info == dto.info,
            kr.restricted_readings@.len() == 0,
    {
        KanjiReading {
            kanji: dto.kanji,
            restricted_readings: Vec::new(),
            priority: dto.priority,
            info: dto.info,
        }
    }

    /// A copy of the reading that `dto` describes.
    fn copy_reading(&self, dto: &ReadingDto) -> (r: Reading)
        ensures
            reading_from(r, *dto),
    {
        Reading {
            text: dto.text.clone(),
            priority: copy_strings(&dto.priority),
            no_kanji: dto.no_kanji.len() > 0,
            info: copy_strings(&dto.info),
        }
    }

    /// The readings restricted to the kanji form `kanji`.
    fn restricted_readings(&self, kanji: &String, dtos: &Vec<ReadingDto>) -> (r: Vec<Reading>)
        ensures
            r@.len() == restricted_sources(kanji@, dtos@).len(),
            forall|i: int|
                0 <= i < r@.len() ==> reading_from(
                    #[trigger] r@[i],
                    restricted_sources(kanji@, dtos@)[i],
                ),
    {
        let mut r: Vec<Reading> = Vec::new();
        let mut i: usize = 0;
        while i < dtos.len()
            invariant
                i <= dtos@.len(),
                r@.len() == restricted_sources(kanji@, dtos@.take(i as int)).len(),
                forall|k: int|
                    0 <= k < r@.len() ==> reading_from(
                        #[trigger] r@[k],
                        restricted_sources(kanji@, dtos@.take(i as int))[k],
                    ),
            decreases dtos.len() - i,
        {
            let ghost prev = restricted_sources(kanji@, dtos@.take(i as int));
            let d = &dtos[i];
            let mut t: usize = 0;
            while t < d.restricted_readings.len()
                invariant
                    t <= d.restricted_readings@.len(),
                    r@.len() == prev.len() + restriction_count(
                        d.restricted_readings@.take(t as int),
                        kanji@,
                    ),
                    forall|k: int|
                        0 <= k < prev.len() ==> reading_from(#[trigger] r@[k], prev[k]),
                    forall|k: int|
                        prev.len() <= k < r@.len() ==> reading_from(#[trigger] r@[k], *d),
                decreases d.restricted_readings.len() - t,
            {
                assert(d.restricted_readings@.take(t + 1).drop_last()
                    =~= d.restricted_readings@.take(t as int));
                if d.restricted_readings[t] == *kanji {
                    r.push(self.copy_reading(d));
                }
                t = t + 1;
            }
            proof {
                assert(d.restricted_readings@.take(d.restricted_readings@.len() as int)
                    =~= d.restricted_readings@);
                assert(dtos@.take(i + 1).drop_last() =~= dtos@.take(i as int));
                let next = restricted_sources(kanji@, dtos@.take(i + 1));
                assert(next =~= prev + Seq::new(
                    restriction_count(d.restricted_readings@, kanji@),
                    |_i: int| *d,
                ));
                assert forall|k: int| 0 <= k < r@.len() implies reading_from(
                    #[trigger] r@[k],
                    next[k],
                ) by {
                    if k < prev.len() {
                        assert(next[k] == prev[k]);
                    } else {
                        assert(next[k] == *d);
                    }
                }
            }
            i = i + 1;
        }
        proof {
            assert(dtos@.take(dtos@.len() as int) =~= dtos@);
        }
        r
    }

    /// Maps a JMdict entry onto a dictionary entry; every reading restricted
    /// to a kanji form (`<re_restr>`) is also listed under that form.
    pub fn map_entry_to_domain(&self, dto: EntryDto) -> (e: Entry)
        ensures
            entry_from(e, dto),
    {
        let ghost d = dto;
        let mut kanji_readings: Vec<KanjiReading> = Vec::new();
        for kr in kit: dto.kanji_readings.into_iter()
            invariant
                kit.seq() == d.kanji_readings@,
                dto.readings == d.readings,
                kanji_readings@.len() == kit.index(),
                forall|j: int|
                    0 <= j < kanji_readings@.len() ==> kanji_reading_from(
                        #[trigger] kanji_readings@[j],
                        d.kanji_readings@[j],
                        d.readings@,
                    ),
        {
            let restricted = self.restricted_readings(&kr.kanji, &dto.readings);
            let mut mapped = self.map_kanji_reading(kr);
            mapped.restricted_readings = restricted;
            kanji_readings.push(mapped);
        }
        let mut readings: Vec<Reading> = Vec::new();
        for r in rit: dto.readings.into_iter()
            invariant
                rit.seq() == d.readings@,
                readings@.len() == rit.index(),
                forall|i: int|
                    0 <= i < readings@.len() ==> reading_from(#[trigger] readings@[i], d.readings@[i]),
        {
            readings.push(self.map_reading(r));
        }
        let mut senses: Vec<Sense> = Vec::new();
        for s in sit: dto.senses.into_iter()
            invariant
                sit.seq() == d.senses@,
                senses@.len() == sit.index(),
                forall|i: int| 0 <= i < senses@.len() ==> sense_from(#[trigger] senses@[i], d.senses@[i]),
        {
            senses.push(self.map_sense(s));
        }
        Entry { id: dto.id, jlpt: None, readings, kanji_readings, senses }
    }
}

} // verus!
