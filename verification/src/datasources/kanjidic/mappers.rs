//! Mapping of KANJIDIC2 records onto kanji.
use vstd::prelude::*;

use crate::datasources::kanjidic::dtos::{CharacterDto, MeaningDto, ReadingDto, RmGroupDto};
use crate::domain::models::kanji::{Kanji, Meaning};
use crate::text::{chars_eq, chars_of};

verus! {

// ── Specification ───────────────────────────────────────────────────────────

/// The texts of the readings in `rs` whose type reads `ty`, in order.
pub open spec fn readings_of_type(rs: Seq<ReadingDto>, ty: Seq<char>) -> Seq<String>
    decreases rs.len(),
{
    if rs.len() == 0 {
        Seq::empty()
    } else if rs.last().r_type@ == ty {
        readings_of_type(rs.drop_last(), ty).push(rs.last().text)
    } else {
        readings_of_type(rs.drop_last(), ty)
    }
}

/// The texts of the readings of type `ty` over all groups, group by group.
pub open spec fn group_readings(gs: Seq<RmGroupDto>, ty: Seq<char>) -> Seq<String>
    decreases gs.len(),
{
    if gs.len() == 0 {
        Seq::empty()
    } else {
        group_readings(gs.drop_last(), ty) + readings_of_type(gs.last().readings@, ty)
    }
}

/// The meaning that `m` describes.
pub open spec fn meaning_of(m: MeaningDto) -> Meaning {
    Meaning { text: m.text, lang: m.lang }
}

/// The meanings of all groups, group by group.
pub open spec fn group_meanings(gs: Seq<RmGroupDto>) -> Seq<Meaning>
    decreases gs.len(),
{
    if gs.len() == 0 {
        Seq::empty()
    } else {
        group_meanings(gs.drop_last()) + gs.last().meanings@.map_values(|m: MeaningDto| meaning_of(m))
    }
}

/// `k` is the kanji that `d` describes: on'yomi are the readings of type
/// `ja_on`, kun'yomi those of type `ja_kun` (other reading types are left
/// out), meanings keep their language, and the first stroke count is the
/// canonical one (0 when there is none).
pub open spec fn kanji_from(k: Kanji, d: CharacterDto) -> bool {
    &&& k.literal == d.literal
    &&& k.grade == d.misc.grade
    &&& k.stroke_count == if d.misc.stroke_count@.len() > 0 {
        d.misc.stroke_count@[0]
    } else {
        0u8
    }
    &&& k.freq == d.misc.freq
    &&& k.jlpt == d.misc.jlpt
    &&& match d.reading_meaning {
        Some(rm) => {
            &&& k.on_readings@ == group_readings(rm.rmgroups@, "ja_on"@)
            &&& k.kun_readings@ == group_readings(rm.rmgroups@, "ja_kun"@)
            &&& k.meanings@ == group_meanings(rm.rmgroups@)
            &&& k.nanori == rm.nanori
        },
        None => {
            &&& k.on_readings@.len() == 0
            &&& k.kun_readings@.len() == 0
            &&& k.meanings@.len() == 0
            &&& k.nanori@.len() == 0
        },
    }
}

// ── Implementation ──────────────────────────────────────────────────────────

/// Maps KANJIDIC2 records onto kanji.
pub struct KanjiDicMapper;

impl KanjiDicMapper {
    pub fn new() -> (m: Self) {
        KanjiDicMapper
    }

    /// Maps a KANJIDIC2 character onto a kanji.
    pub fn map_character_to_domain(&self, dto: CharacterDto) -> (k: Kanji)
        ensures
            kanji_from(k, dto),
    {
        let ghost d = dto;
        let mut on: Vec<String> = Vec::new();
        let mut kun: Vec<String> = Vec::new();
        let mut meanings: Vec<Meaning> = Vec::new();
        let mut nanori: Vec<String> = Vec::new();
        let on_tag = chars_of("ja_on");
        let kun_tag = chars_of("ja_kun");
        proof {
            reveal_strlit("ja_on");
            reveal_strlit("ja_kun");
            assert("ja_on"@.len() != "ja_kun"@.len());
        }
        match dto.reading_meaning {
            Some(rm) => {
                let ghost gs = rm.rmgroups@;
                for group in git: rm.rmgroups.into_iter()
                    invariant
                        git.seq() == gs,
                        on_tag@ == "ja_on"@,
                        kun_tag@ == "ja_kun"@,
                        "ja_on"@ != "ja_kun"@,
                        on@ == group_readings(gs.take(git.index() as int), "ja_on"@),
                        kun@ == group_readings(gs.take(git.index() as int), "ja_kun"@),
                        meanings@ == group_meanings(gs.take(git.index() as int)),
                {
                    let ghost g = group;
                    let ghost on0 = on@;
                    let ghost kun0 = kun@;
                    let ghost rs = group.readings@;
                    for r in rit: group.readings.into_iter()
                        invariant
                            rit.seq() == rs,
                            on_tag@ == "ja_on"@,
                            kun_tag@ == "ja_kun"@,
                            "ja_on"@ != "ja_kun"@,
                            on@ == on0 + readings_of_type(rs.take(rit.index() as int), "ja_on"@),
                            kun@ == kun0 + readings_of_type(rs.take(rit.index() as int), "ja_kun"@),
                    {
                        proof {
                            let k = rit.index() as int;
                            assert(rs.take(k + 1).drop_last() =~= rs.take(k));
                            assert(rs.take(k + 1).last() == r);
                        }
                        let ty = chars_of(r.r_type.as_str());
                        if chars_eq(&ty, &on_tag) {
                            on.push(r.text);
                        } else if chars_eq(&ty, &kun_tag) {
                            kun.push(r.text);
                        }
                    }
                    let ghost m0 = meanings@;
                    let ghost ms = g.meanings@;
                    for m in mit: group.meanings.into_iter()
                        invariant
                            mit.seq() == ms,
                            meanings@ == m0 + ms.take(mit.index() as int).map_values(
                                |m: MeaningDto| meaning_of(m),
                            ),
                    {
                        proof {
                            let k = mit.index() as int;
                            assert(ms.take(k + 1).map_values(|m: MeaningDto| meaning_of(m))
                                =~= ms.take(k).map_values(|m: MeaningDto| meaning_of(m)).push(
                                meaning_of(m),
                            ));
                        }
                        meanings.push(Meaning { text: m.text, lang: m.lang });
                    }
                    proof {
                        let k = git.index() as int;
                        assert(gs.take(k + 1).drop_last() =~= gs.take(k));
                        assert(gs.take(k + 1).last() == g);
                        assert(rs.take(rs.len() as int) =~= rs);
                        assert(ms.take(ms.len() as int) =~= ms);
                        assert(meanings@ =~= m0 + ms.map_values(|m: MeaningDto| meaning_of(m)));
                    }
                }
                proof {
                    assert(gs.take(gs.len() as int) =~= gs);
                }
                nanori = rm.nanori;
            },
            None => {},
        }
        let stroke_count: u8 = if dto.misc.stroke_count.len() > 0 {
            dto.misc.stroke_count[0]
        } else {
            0
        };
        Kanji {
            literal: dto.literal,
            grade: dto.misc.grade,
            stroke_count,
            freq: dto.misc.freq,
            jlpt: dto.misc.jlpt,
            on_readings: on,
            kun_readings: kun,
            meanings,
            nanori,
        }
    }
}

} // verus!
