//! Flattening the JLPT level lists into entries.
use vstd::prelude::*;

use super::dtos::{JlptKanjiEntry, JlptVocabEntry, VocabItemDto};

verus! {

/// Reads the JLPT level lists.
pub struct JlptSource;

/// The `(key, reading, level)` of every item of every key, key by key.
pub open spec fn vocab_rows(groups: Seq<(String, Vec<VocabItemDto>)>) -> Seq<(Seq<char>, Seq<char>, u8)>
    decreases groups.len(),
{
    if groups.len() == 0 {
        Seq::empty()
    } else {
        let (key, items) = groups.last();
        vocab_rows(groups.drop_last()) + items@.map_values(
            |it: VocabItemDto| (key@, it.reading@, it.level),
        )
    }
}

/// The `(key, reading, level)` view of vocabulary entries.
pub open spec fn vocab_views(v: Seq<JlptVocabEntry>) -> Seq<(Seq<char>, Seq<char>, u8)> {
    v.map_values(|e: JlptVocabEntry| (e.key@, e.reading@, e.level))
}

/// The `(literal, level)` view of kanji entries.
pub open spec fn kanji_views(v: Seq<JlptKanjiEntry>) -> Seq<(Seq<char>, u8)> {
    v.map_values(|e: JlptKanjiEntry| (e.literal@, e.level))
}

impl JlptSource {
    /// One entry per reading of each vocabulary key, keys in the given order.
    pub fn vocab_entries(groups: Vec<(String, Vec<VocabItemDto>)>) -> (r: Vec<JlptVocabEntry>)
        ensures
            vocab_views(r@) == vocab_rows(groups@),
    {
        let ghost gs = groups@;
        let mut r: Vec<JlptVocabEntry> = Vec::new();
        for g in it: groups.into_iter()
            invariant
                it.seq() == gs,
                vocab_views(r@) == vocab_rows(gs.take(it.index() as int)),
        {
            let ghost k = it.index() as int;
            proof {
                assert(gs.take(k + 1).drop_last() =~= gs.take(k));
                assert(gs.take(k + 1).last() == g);
            }
            let (key, items) = g;
            let ghost base = vocab_views(r@);
            let ghost is = items@;
            for item in iit: items.into_iter()
                invariant
                    iit.seq() == is,
                    vocab_views(r@) == base + iit.seq().take(iit.index() as int).map_values(
                        |it: VocabItemDto| (key@, it.reading@, it.level),
                    ),
            {
                let ghost j = iit.index() as int;
                let ghost before = r@;
                r.push(JlptVocabEntry { key: key.clone(), reading: item.reading, level: item.level });
                proof {
                    assert(is.take(j + 1).map_values(
                        |it: VocabItemDto| (key@, it.reading@, it.level),
                    ) =~= is.take(j).map_values(
                        |it: VocabItemDto| (key@, it.reading@, it.level),
                    ).push((key@, item.reading@, item.level)));
                    assert(vocab_views(r@) =~= vocab_views(before).push(
                        (key@, item.reading@, item.level),
                    ));
                }
            }
            proof {
                assert(is.take(is.len() as int) =~= is);
            }
        }
        proof {
            assert(gs.take(gs.len() as int) =~= gs);
        }
        r
    }

    /// One entry per kanji, in the given order.
    pub fn kanji_entries(levels: Vec<(String, u8)>) -> (r: Vec<JlptKanjiEntry>)
        ensures
            kanji_views(r@) == levels@.map_values(|p: (String, u8)| (p.0@, p.1)),
    {
        let ghost ls = levels@;
        let mut r: Vec<JlptKanjiEntry> = Vec::new();
        for p in it: levels.into_iter()
            invariant
                it.seq() == ls,
                kanji_views(r@) == ls.take(it.index() as int).map_values(
                    |p: (String, u8)| (p.0@, p.1),
                ),
        {
            let ghost k = it.index() as int;
            let ghost before = r@;
            let (literal, level) = p;
            r.push(JlptKanjiEntry { literal, level });
            proof {
                assert(ls.take(k + 1).map_values(|p: (String, u8)| (p.0@, p.1)) =~= ls.take(
                    k,
                ).map_values(|p: (String, u8)| (p.0@, p.1)).push((ls[k].0@, ls[k].1)));
                assert(kanji_views(r@) =~= kanji_views(before).push((ls[k].0@, ls[k].1)));
            }
        }
        proof {
            assert(ls.take(ls.len() as int) =~= ls);
        }
        r
    }
}

} // verus!
