//! What the database is filled with: frequency scores, per-language sense
//! positions and counts, the kanji of an entry, and the rows that inserting an
//! entry writes. The statements themselves are run by the caller.
use vstd::prelude::*;

use crate::domain::models::entry::{Entry, Gloss, KanjiReading, Reading, Sense};
use crate::text::{chars_of, string_of};

verus! {

// ── CJK ideographs ──────────────────────────────────────────────────────────

/// Whether `c` is a CJK ideograph: CJK Unified Ideographs (U+4E00–U+9FFF),
/// Extension A (U+3400–U+4DBF) or Compatibility Ideographs (U+F900–U+FAFF).
pub open spec fn is_cjk_char(c: char) -> bool {
    let v = c as u32;
    (0x4e00 <= v <= 0x9fff) || (0x3400 <= v <= 0x4dbf) || (0xf900 <= v <= 0xfaff)
}

/// Executable CJK test.
pub fn is_cjk(c: char) -> (r: bool)
    ensures
        r == is_cjk_char(c),
{
    let v = c as u32;
    (0x4e00 <= v && v <= 0x9fff) || (0x3400 <= v && v <= 0x4dbf) || (0xf900 <= v && v <= 0xfaff)
}

/// The CJK ideographs of `s`, in order, each as a one-character text.
pub open spec fn cjk_literals(s: Seq<char>) -> Seq<Seq<char>>
    decreases s.len(),
{
    if s.len() == 0 {
        Seq::empty()
    } else if is_cjk_char(s.last()) {
        cjk_literals(s.drop_last()).push(seq![s.last()])
    } else {
        cjk_literals(s.drop_last())
    }
}

/// The `entry_kanji` literals of a form are single CJK ideographs taken from
/// the form, and every CJK ideograph of the form is among them.
pub proof fn lemma_cjk_literals(s: Seq<char>)
    ensures
        forall|k: int|
            0 <= k < cjk_literals(s).len() ==> (#[trigger] cjk_literals(s)[k]).len() == 1
                && is_cjk_char(cjk_literals(s)[k][0]) && s.contains(cjk_literals(s)[k][0]),
        forall|i: int| 0 <= i < s.len() && is_cjk_char(#[trigger] s[i]) ==> cjk_literals(s).contains(
            seq![s[i]],
        ),
    decreases s.len(),
{
    if s.len() > 0 {
        let p = s.drop_last();
        lemma_cjk_literals(p);
        let lp = cjk_literals(p);
        assert forall|k: int| 0 <= k < cjk_literals(s).len() implies (#[trigger] cjk_literals(
            s,
        )[k]).len() == 1 && is_cjk_char(cjk_literals(s)[k][0]) && s.contains(
            cjk_literals(s)[k][0],
        ) by {
            if k < lp.len() {
                assert(cjk_literals(s)[k] == lp[k]);
                let j = choose|j: int| 0 <= j < p.len() && p[j] == lp[k][0];
                assert(s[j] == p[j]);
            } else {
                assert(cjk_literals(s)[k] == seq![s.last()]);
                assert(s[s.len() - 1] == s.last());
            }
        }
        assert forall|i: int| 0 <= i < s.len() && is_cjk_char(#[trigger] s[i]) implies cjk_literals(
            s,
        ).contains(seq![s[i]]) by {
            if i < p.len() {
                assert(p[i] == s[i]);
                let k = choose|k: int| 0 <= k < lp.len() && lp[k] == seq![p[i]];
                if is_cjk_char(s.last()) {
                    assert(cjk_literals(s)[k] == lp[k]);
                }
            } else {
                assert(cjk_literals(s)[lp.len() as int] == seq![s.last()]);
            }
        }
    }
}

/// The CJK ideographs of a kanji form, each as its own string; these are the
/// `entry_kanji` literals of the entry the form belongs to.
pub fn cjk_chars(kanji: &str) -> (r: Vec<String>)
    ensures
        r@.map_values(|x: String| x@) == cjk_literals(kanji@),
{
    let cs = chars_of(kanji);
    let mut r: Vec<String> = Vec::new();
    let mut i: usize = 0;
    while i < cs.len()
        invariant
            i <= cs@.len(),
            cs@ == kanji@,
            r@.map_values(|x: String| x@) == cjk_literals(cs@.take(i as int)),
        decreases cs.len() - i,
    {
        assert(cs@.take(i + 1).drop_last() =~= cs@.take(i as int));
        if is_cjk(cs[i]) {
            let mut one: Vec<char> = Vec::new();
            one.push(cs[i]);
            let ghost before = r@;
            r.push(string_of(&one));
            assert(r@.map_values(|x: String| x@) =~= before.map_values(|x: String| x@).push(
                seq![cs@[i as int]],
            ));
        }
        i = i + 1;
    }
    assert(cs@.take(cs@.len() as int) =~= cs@);
    r
}

/// How a JLPT vocabulary key is matched against entries.
pub enum JlptMatch {
    /// The key contains kanji: match entries with this kanji form and reading.
    KanjiAndReading,
    /// The key is kana only: match entries with this reading.
    ReadingOnly,
}

/// Whether `s` contains a CJK ideograph.
pub open spec fn has_cjk(s: Seq<char>) -> bool {
    exists|i: int| 0 <= i < s.len() && is_cjk_char(#[trigger] s[i])
}

/// The ideographs are exactly the characters of the three CJK blocks: such a
/// character alone is one `entry_kanji` literal and makes a JLPT key match by
/// kanji form; any other character alone gives no literal and a match by
/// reading.
pub proof fn lemma_cjk_blocks(c: char)
    ensures
        is_cjk_char(c) == ((0x4e00 <= (c as u32) && (c as u32) <= 0x9fff) || (0x3400 <= (c as u32) && (c as u32) <= 0x4dbf) || (0xf900 <= (c as u32) && (c as u32) <= 0xfaff)),
        ((0x4e00 <= (c as u32) && (c as u32) <= 0x9fff) || (0x3400 <= (c as u32) && (c as u32) <= 0x4dbf) || (0xf900 <= (c as u32) && (c as u32) <= 0xfaff)) ==> cjk_literals(seq![c]) == seq![seq![c]] && has_cjk(seq![c]),
        !((0x4e00 <= (c as u32) && (c as u32) <= 0x9fff) || (0x3400 <= (c as u32) && (c as u32) <= 0x4dbf) || (0xf900 <= (c as u32) && (c as u32) <= 0xfaff)) ==> cjk_literals(seq![c]).len() == 0 && !has_cjk(seq![c]),
{
    let s = seq![c];
    assert(s.drop_last() =~= Seq::<char>::empty());
    assert(s.last() == c);
    assert(cjk_literals(Seq::<char>::empty()) == Seq::<Seq<char>>::empty());
    assert(cjk_literals(s) == if is_cjk_char(c) {
        cjk_literals(Seq::<char>::empty()).push(seq![c])
    } else {
        cjk_literals(Seq::<char>::empty())
    });
    assert(Seq::<Seq<char>>::empty().push(seq![c]) =~= seq![seq![c]]);
    if has_cjk(s) {
        let i = choose|i: int| 0 <= i < s.len() && is_cjk_char(#[trigger] s[i]);
        assert(s[i] == c);
    }
    if ((0x4e00 <= (c as u32) && (c as u32) <= 0x9fff) || (0x3400 <= (c as u32) && (c as u32) <= 0x4dbf) || (0xf900 <= (c as u32) && (c as u32) <= 0xfaff)) {
        assert(is_cjk_char(s[0]));
    }
}

/// A JLPT key matches entries by kanji form exactly when some character of
/// it lies in the CJK blocks.
pub proof fn lemma_has_cjk_blocks(s: Seq<char>)
    ensures
        has_cjk(s) == exists|i: int| #![trigger s[i]] 0 <= i < s.len() && ((0x4e00 <= (s[i] as u32) && (s[i] as u32) <= 0x9fff) || (0x3400 <= (s[i] as u32) && (s[i] as u32) <= 0x4dbf) || (0xf900 <= (s[i] as u32) && (s[i] as u32) <= 0xfaff)),
{
    if has_cjk(s) {
        let i = choose|i: int| 0 <= i < s.len() && is_cjk_char(#[trigger] s[i]);
        lemma_cjk_blocks(s[i]);
    }
    if exists|i: int| #![trigger s[i]] 0 <= i < s.len() && ((0x4e00 <= (s[i] as u32) && (s[i] as u32) <= 0x9fff) || (0x3400 <= (s[i] as u32) && (s[i] as u32) <= 0x4dbf) || (0xf900 <= (s[i] as u32) && (s[i] as u32) <= 0xfaff)) {
        let i = choose|i: int| #![trigger s[i]] 0 <= i < s.len() && ((0x4e00 <= (s[i] as u32) && (s[i] as u32) <= 0x9fff) || (0x3400 <= (s[i] as u32) && (s[i] as u32) <= 0x4dbf) || (0xf900 <= (s[i] as u32) && (s[i] as u32) <= 0xfaff));
        lemma_cjk_blocks(s[i]);
    }
}

/// A text's `entry_kanji` literals are exactly its characters in the CJK
/// blocks, in order: as many as it has such characters, each one of them.
pub proof fn lemma_cjk_literals_blocks(s: Seq<char>)
    ensures
        cjk_literals(s).len() == s.filter(|c: char| ((0x4e00 <= (c as u32) && (c as u32) <= 0x9fff) || (0x3400 <= (c as u32) && (c as u32) <= 0x4dbf) || (0xf900 <= (c as u32) && (c as u32) <= 0xfaff))).len(),
        forall|k: int|
            0 <= k < cjk_literals(s).len() ==> (#[trigger] cjk_literals(s)[k]) == seq![
                s.filter(|c: char| ((0x4e00 <= (c as u32) && (c as u32) <= 0x9fff) || (0x3400 <= (c as u32) && (c as u32) <= 0x4dbf) || (0xf900 <= (c as u32) && (c as u32) <= 0xfaff)))[k],
            ],
    decreases s.len(),
{
    reveal(Seq::filter);
    let f = |c: char| ((0x4e00 <= (c as u32) && (c as u32) <= 0x9fff) || (0x3400 <= (c as u32) && (c as u32) <= 0x4dbf) || (0xf900 <= (c as u32) && (c as u32) <= 0xfaff));
    if s.len() > 0 {
        lemma_cjk_literals_blocks(s.drop_last());
        lemma_cjk_blocks(s.last());
        assert(s.filter(f) == if f(s.last()) {
            s.drop_last().filter(f).push(s.last())
        } else {
            s.drop_last().filter(f)
        });
    } else {
        assert(s.filter(f) =~= Seq::<char>::empty());
    }
}

/// How the JLPT level of vocabulary `key` is attached to entries: through the
/// kanji form and reading when the key contains kanji, else through the reading.
pub fn jlpt_match(key: &str) -> (m: JlptMatch)
    ensures
        (m is KanjiAndReading) == has_cjk(key@),
{
    let cs = chars_of(key);
    let mut i: usize = 0;
    while i < cs.len()
        invariant
            i <= cs@.len(),
            cs@ == key@,
            forall|j: int| 0 <= j < i ==> !is_cjk_char(#[trigger] cs@[j]),
        decreases cs.len() - i,
    {
        if is_cjk(cs[i]) {
            return JlptMatch::KanjiAndReading;
        }
        i = i + 1;
    }
    JlptMatch::ReadingOnly
}

// ── Frequency score ─────────────────────────────────────────────────────────

/// Tier 1 priority tags.
pub open spec fn tier1() -> Seq<Seq<char>> {
    seq!["ichi1"@, "spec1"@, "news1"@, "gai1"@]
}

/// Tier 2 priority tags.
pub open spec fn tier2() -> Seq<Seq<char>> {
    seq!["ichi2"@, "spec2"@, "news2"@, "gai2"@]
}

/// The texts of a list of strings.
pub open spec fn texts(v: Seq<String>) -> Seq<Seq<char>> {
    v.map_values(|x: String| x@)
}

/// How many of the tags `tier` occur in `tags`.
pub open spec fn tier_hits(tier: Seq<Seq<char>>, tags: Seq<Seq<char>>) -> nat
    decreases tier.len(),
{
    if tier.len() == 0 {
        0
    } else {
        tier_hits(tier.drop_last(), tags) + if tags.contains(tier.last()) {
            1nat
        } else {
            0nat
        }
    }
}

/// The score of one written form or reading: 10 for each Tier 1 tag and 5 for
/// each Tier 2 tag among its priority tags.
pub open spec fn tag_score(tags: Seq<Seq<char>>) -> int {
    (10 * tier_hits(tier1(), tags) + 5 * tier_hits(tier2(), tags)) as int
}

/// Whether some Tier 1 tag occurs in `tags`.
pub open spec fn has_tier1(tags: Seq<Seq<char>>) -> bool {
    tier_hits(tier1(), tags) > 0
}

/// Sum of the form scores of the kanji forms.
pub open spec fn kanji_scores(krs: Seq<KanjiReading>) -> int
    decreases krs.len(),
{
    if krs.len() == 0 {
        0
    } else {
        kanji_scores(krs.drop_last()) + tag_score(texts(krs.last().priority@))
    }
}

/// Sum of the form scores of the readings.
pub open spec fn reading_scores(rs: Seq<Reading>) -> int
    decreases rs.len(),
{
    if rs.len() == 0 {
        0
    } else {
        reading_scores(rs.drop_last()) + tag_score(texts(rs.last().priority@))
    }
}

/// Whether some kanji form or reading carries a Tier 1 tag (`has_common`).
pub open spec fn entry_has_common(e: Entry) -> bool {
    (exists|i: int|
        0 <= i < e.kanji_readings@.len() && has_tier1(
            texts(#[trigger] e.kanji_readings@[i].priority@),
        )) || (exists|i: int|
        0 <= i < e.readings@.len() && has_tier1(texts(#[trigger] e.readings@[i].priority@)))
}

/// The frequency score of an entry: the scores of all its kanji forms and
/// readings added up, plus 500 when it is common.
pub open spec fn freq_score(e: Entry) -> int {
    (if entry_has_common(e) {
        500int
    } else {
        0int
    }) + kanji_scores(e.kanji_readings@) + reading_scores(e.readings@)
}

/// The most any single form can score.
pub proof fn lemma_tier_hits_bound(tier: Seq<Seq<char>>, tags: Seq<Seq<char>>)
    ensures
        tier_hits(tier, tags) <= tier.len(),
    decreases tier.len(),
{
    if tier.len() > 0 {
        lemma_tier_hits_bound(tier.drop_last(), tags);
    }
}

/// Whether `tags` contains the text `t`.
fn contains_text(tags: &Vec<String>, t: &str) -> (r: bool)
    ensures
        r == texts(tags@).contains(t@),
{
    let tc = chars_of(t);
    let mut i: usize = 0;
    while i < tags.len()
        invariant
            i <= tags@.len(),
            tc@ == t@,
            forall|j: int| 0 <= j < i ==> tags@[j]@ != t@,
        decreases tags.len() - i,
    {
        if crate::text::chars_eq(&chars_of(tags[i].as_str()), &tc) {
            assert(texts(tags@)[i as int] == t@);
            return true;
        }
        i = i + 1;
    }
    assert(!texts(tags@).contains(t@)) by {
        if texts(tags@).contains(t@) {
            let j = choose|j: int| 0 <= j < texts(tags@).len() && texts(tags@)[j] == t@;
            assert(tags@[j]@ == t@);
        }
    }
    false
}

/// How many of the four tags occur in `tags`.
fn count_tier(tags: &Vec<String>, a: &str, b: &str, c: &str, d: &str) -> (n: u32)
    ensures
        n as nat == tier_hits(seq![a@, b@, c@, d@], texts(tags@)),
        n <= 4,
{
    let ghost tier = seq![a@, b@, c@, d@];
    let mut n: u32 = 0;
    if contains_text(tags, a) {
        n = n + 1;
    }
    assert(tier_hits(tier.take(1), texts(tags@)) == n) by {
        assert(tier.take(1).drop_last() =~= Seq::<Seq<char>>::empty());
        assert(tier.take(1).last() == a@);
        assert(tier_hits(Seq::<Seq<char>>::empty(), texts(tags@)) == 0);
    }
    if contains_text(tags, b) {
        n = n + 1;
    }
    assert(tier_hits(tier.take(2), texts(tags@)) == n) by {
        assert(tier.take(2).drop_last() =~= tier.take(1));
        assert(tier.take(2).last() == b@);
    }
    if contains_text(tags, c) {
        n = n + 1;
    }
    assert(tier_hits(tier.take(3), texts(tags@)) == n) by {
        assert(tier.take(3).drop_last() =~= tier.take(2));
        assert(tier.take(3).last() == c@);
    }
    if contains_text(tags, d) {
        n = n + 1;
    }
    assert(tier_hits(tier, texts(tags@)) == n) by {
        assert(tier.drop_last() =~= tier.take(3));
    }
    n
}

/// The score of one form: 10 per Tier 1 tag, 5 per Tier 2 tag.
pub fn per_tag_score(tags: &Vec<String>) -> (s: i32)
    ensures
        s as int == tag_score(texts(tags@)),
        0 <= s <= 60,
{
    proof {
        reveal_strlit("ichi1");
        reveal_strlit("spec1");
        reveal_strlit("news1");
        reveal_strlit("gai1");
        reveal_strlit("ichi2");
        reveal_strlit("spec2");
        reveal_strlit("news2");
        reveal_strlit("gai2");
    }
    let t1 = count_tier(tags, "ichi1", "spec1", "news1", "gai1");
    let t2 = count_tier(tags, "ichi2", "spec2", "news2", "gai2");
    (t1 as i32) * 10 + (t2 as i32) * 5
}

/// Whether some Tier 1 tag occurs in `tags`.
fn tier1_present(tags: &Vec<String>) -> (r: bool)
    ensures
        r == has_tier1(texts(tags@)),
{
    count_tier(tags, "ichi1", "spec1", "news1", "gai1") > 0
}

/// The forms of a prefix of the kanji forms score no more than all of them.
proof fn lemma_kanji_scores_prefix(krs: Seq<KanjiReading>, i: int)
    requires
        0 <= i <= krs.len(),
    ensures
        0 <= kanji_scores(krs.take(i)) <= kanji_scores(krs),
    decreases krs.len() - i,
{
    if i < krs.len() {
        lemma_kanji_scores_prefix(krs, i + 1);
        lemma_kanji_scores_range(krs.take(i));
        assert(krs.take(i + 1).drop_last() =~= krs.take(i));
        assert(krs.take(i + 1).last() == krs[i]);
        lemma_tag_score_range(texts(krs[i].priority@));
        assert(kanji_scores(krs.take(i + 1)) == kanji_scores(krs.take(i)) + tag_score(texts(krs[i].priority@)));
    } else {
        assert(krs.take(i) =~= krs);
        lemma_kanji_scores_range(krs);
    }
}

/// The readings of a prefix of the readings score no more than all of them.
proof fn lemma_reading_scores_prefix(rs: Seq<Reading>, i: int)
    requires
        0 <= i <= rs.len(),
    ensures
        0 <= reading_scores(rs.take(i)) <= reading_scores(rs),
    decreases rs.len() - i,
{
    if i < rs.len() {
        lemma_reading_scores_prefix(rs, i + 1);
        lemma_reading_scores_range(rs.take(i));
        assert(rs.take(i + 1).drop_last() =~= rs.take(i));
        assert(rs.take(i + 1).last() == rs[i]);
        lemma_tag_score_range(texts(rs[i].priority@));
        assert(reading_scores(rs.take(i + 1)) == reading_scores(rs.take(i)) + tag_score(texts(rs[i].priority@)));
    } else {
        assert(rs.take(i) =~= rs);
        lemma_reading_scores_range(rs);
    }
}

/// Whether the frequency score of `entry` fits the `i32` it is stored as.
pub fn freq_score_fits(entry: &Entry) -> (r: bool)
    ensures
        r == (freq_score(*entry) <= i32::MAX),
{
    proof {
        lemma_kanji_scores_range(entry.kanji_readings@);
        lemma_reading_scores_range(entry.readings@);
    }
    let limit: u64 = 0x7fff_ffff;
    let mut sum: u64 = 0;
    let mut common = false;
    let mut i: usize = 0;
    while i < entry.kanji_readings.len()
        invariant
            i <= entry.kanji_readings@.len(),
            limit == i32::MAX,
            sum as int == kanji_scores(entry.kanji_readings@.take(i as int)),
            sum <= limit,
            0 <= kanji_scores(entry.kanji_readings@),
            0 <= reading_scores(entry.readings@),
            common == exists|j: int|
                0 <= j < i && has_tier1(texts(#[trigger] entry.kanji_readings@[j].priority@)),
        decreases entry.kanji_readings.len() - i,
    {
        proof {
            lemma_kanji_scores_prefix(entry.kanji_readings@, i + 1);
            assert(entry.kanji_readings@.take(i + 1).drop_last() =~= entry.kanji_readings@.take(
                i as int,
            ));
            assert(entry.kanji_readings@.take(i + 1).last() == entry.kanji_readings@[i as int]);
        }
        let score = per_tag_score(&entry.kanji_readings[i].priority);
        sum = sum + score as u64;
        if tier1_present(&entry.kanji_readings[i].priority) {
            common = true;
        }
        if sum > limit {
            return false;
        }
        i = i + 1;
    }
    assert(entry.kanji_readings@.take(i as int) =~= entry.kanji_readings@);
    let ghost kanji_common = common;
    let mut k: usize = 0;
    while k < entry.readings.len()
        invariant
            k <= entry.readings@.len(),
            limit == i32::MAX,
            sum as int == kanji_scores(entry.kanji_readings@) + reading_scores(
                entry.readings@.take(k as int),
            ),
            sum <= limit,
            0 <= kanji_scores(entry.kanji_readings@),
            0 <= reading_scores(entry.readings@),
            kanji_common == exists|j: int|
                0 <= j < entry.kanji_readings@.len() && has_tier1(
                    texts(#[trigger] entry.kanji_readings@[j].priority@),
                ),
            common == (kanji_common || exists|j: int|
                0 <= j < k && has_tier1(texts(#[trigger] entry.readings@[j].priority@))),
        decreases entry.readings.len() - k,
    {
        proof {
            lemma_reading_scores_prefix(entry.readings@, k + 1);
            assert(entry.readings@.take(k + 1).drop_last() =~= entry.readings@.take(k as int));
            assert(entry.readings@.take(k + 1).last() == entry.readings@[k as int]);
        }
        let score = per_tag_score(&entry.readings[k].priority);
        sum = sum + score as u64;
        if tier1_present(&entry.readings[k].priority) {
            common = true;
        }
        if sum > limit {
            return false;
        }
        k = k + 1;
    }
    assert(entry.readings@.take(k as int) =~= entry.readings@);
    if common {
        sum + 500 <= limit
    } else {
        true
    }
}

/// The frequency score of an entry and whether it is common.
pub fn compute_freq_score(entry: &Entry) -> (r: (i32, bool))
    requires
        freq_score(*entry) <= i32::MAX,
    ensures
        r.0 as int == freq_score(*entry),
        r.1 == entry_has_common(*entry),
{
    proof {
        lemma_kanji_scores_range(entry.kanji_readings@);
        lemma_reading_scores_range(entry.readings@);
    }
    let mut has_common = false;
    let mut kanji_sum: i32 = 0;
    let mut i: usize = 0;
    while i < entry.kanji_readings.len()
        invariant
            i <= entry.kanji_readings@.len(),
            freq_score(*entry) <= i32::MAX,
            0 <= kanji_scores(entry.kanji_readings@),
            0 <= reading_scores(entry.readings@),
            kanji_sum as int == kanji_scores(entry.kanji_readings@.take(i as int)),
            0 <= kanji_sum <= kanji_scores(entry.kanji_readings@),
            has_common == exists|j: int|
                0 <= j < i && has_tier1(texts(#[trigger] entry.kanji_readings@[j].priority@)),
        decreases entry.kanji_readings.len() - i,
    {
        assert(entry.kanji_readings@.take(i + 1).drop_last() =~= entry.kanji_readings@.take(
            i as int,
        ));
        proof {
            lemma_kanji_scores_prefix(entry.kanji_readings@, i + 1);
        }
        let kr = &entry.kanji_readings[i];
        let score = per_tag_score(&kr.priority);
        assert(entry.kanji_readings@.take(i + 1).last() == entry.kanji_readings@[i as int]);
        assert(kanji_sum + score == kanji_scores(entry.kanji_readings@.take(i + 1)));
        assert(kanji_scores(entry.kanji_readings@) <= freq_score(*entry));
        kanji_sum = kanji_sum + score;
        if tier1_present(&kr.priority) {
            has_common = true;
        }
        i = i + 1;
    }
    assert(entry.kanji_readings@.take(i as int) =~= entry.kanji_readings@);
    let ghost kanji_common = has_common;
    let mut reading_sum: i32 = 0;
    let mut reading_common = false;
    let mut k: usize = 0;
    while k < entry.readings.len()
        invariant
            k <= entry.readings@.len(),
            freq_score(*entry) <= i32::MAX,
            0 <= kanji_scores(entry.kanji_readings@),
            0 <= reading_scores(entry.readings@),
            reading_sum as int == reading_scores(entry.readings@.take(k as int)),
            0 <= reading_sum <= reading_scores(entry.readings@),
            reading_common == exists|j: int|
                0 <= j < k && has_tier1(texts(#[trigger] entry.readings@[j].priority@)),
        decreases entry.readings.len() - k,
    {
        assert(entry.readings@.take(k + 1).drop_last() =~= entry.readings@.take(k as int));
        proof {
            lemma_reading_scores_prefix(entry.readings@, k + 1);
        }
        let r = &entry.readings[k];
        let score = per_tag_score(&r.priority);
        assert(entry.readings@.take(k + 1).last() == entry.readings@[k as int]);
        assert(reading_sum + score == reading_scores(entry.readings@.take(k + 1)));
        assert(reading_scores(entry.readings@) <= freq_score(*entry));
        reading_sum = reading_sum + score;
        if tier1_present(&r.priority) {
            reading_common = true;
        }
        k = k + 1;
    }
    assert(entry.readings@.take(k as int) =~= entry.readings@);
    let common = has_common || reading_common;
    let bonus: i32 = if common {
        500
    } else {
        0
    };
    (bonus + kanji_sum + reading_sum, common)
}

// ── Senses per language ─────────────────────────────────────────────────────

/// The languages named by the glosses `gs`, in gloss order.
pub open spec fn gloss_langs(gs: Seq<Gloss>) -> Seq<Seq<char>>
    decreases gs.len(),
{
    if gs.len() == 0 {
        Seq::empty()
    } else {
        match gs.last().lang {
            Some(l) => gloss_langs(gs.drop_last()).push(l@),
            None => gloss_langs(gs.drop_last()),
        }
    }
}

/// `ls` with repeated elements removed, keeping first occurrences.
pub open spec fn distinct(ls: Seq<Seq<char>>) -> Seq<Seq<char>>
    decreases ls.len(),
{
    if ls.len() == 0 {
        ls
    } else if distinct(ls.drop_last()).contains(ls.last()) {
        distinct(ls.drop_last())
    } else {
        distinct(ls.drop_last()).push(ls.last())
    }
}

/// Whether sense `s` has a gloss in language `l`.
pub open spec fn sense_has_lang(s: Sense, l: Seq<char>) -> bool {
    gloss_langs(s.glosses@).contains(l)
}

/// How many of the senses `ss` have a gloss in language `l`.
pub open spec fn senses_with_lang(ss: Seq<Sense>, l: Seq<char>) -> nat
    decreases ss.len(),
{
    if ss.len() == 0 {
        0
    } else {
        senses_with_lang(ss.drop_last(), l) + if sense_has_lang(ss.last(), l) {
            1nat
        } else {
            0nat
        }
    }
}

/// For sense `i` of `ss`: each language it has a gloss in (in order of first
/// gloss), with the number of earlier senses in that language, which is the
/// 0-based position of the sense among the senses in that language.
pub open spec fn sense_lang_positions(ss: Seq<Sense>, i: int) -> Seq<(Seq<char>, nat)> {
    distinct(gloss_langs(ss[i].glosses@)).map_values(
        |l: Seq<char>| (l, senses_with_lang(ss.take(i), l)),
    )
}

/// All languages of the glosses of `ss`, sense by sense.
pub open spec fn all_gloss_langs(ss: Seq<Sense>) -> Seq<Seq<char>>
    decreases ss.len(),
{
    if ss.len() == 0 {
        Seq::empty()
    } else {
        all_gloss_langs(ss.drop_last()) + gloss_langs(ss.last().glosses@)
    }
}

/// Each language of an entry (in order of first gloss) with the number of
/// senses that have at least one gloss in it.
pub open spec fn sense_counts(ss: Seq<Sense>) -> Seq<(Seq<char>, nat)> {
    distinct(all_gloss_langs(ss)).map_values(|l: Seq<char>| (l, senses_with_lang(ss, l)))
}

/// The `(text, number)` view of language-keyed numbers.
pub open spec fn lang_numbers(v: Seq<(String, usize)>) -> Seq<(Seq<char>, nat)> {
    v.map_values(|p: (String, usize)| (p.0@, p.1 as nat))
}

/// Whether the texts `ls` include `l`.
fn contains_chars(ls: &Vec<Vec<char>>, l: &Vec<char>) -> (r: bool)
    ensures
        r == crate::text::views(ls@).contains(l@),
{
    let mut i: usize = 0;
    while i < ls.len()
        invariant
            i <= ls@.len(),
            forall|j: int| 0 <= j < i ==> ls@[j]@ != l@,
        decreases ls.len() - i,
    {
        if crate::text::chars_eq(&ls[i], l) {
            assert(crate::text::views(ls@)[i as int] == l@);
            return true;
        }
        i = i + 1;
    }
    assert(!crate::text::views(ls@).contains(l@)) by {
        if crate::text::views(ls@).contains(l@) {
            let j = choose|j: int|
                0 <= j < crate::text::views(ls@).len() && crate::text::views(ls@)[j] == l@;
            assert(ls@[j]@ == l@);
        }
    }
    false
}

/// Adds the languages of `gs` that `acc` does not hold yet, in order.
fn add_gloss_langs(acc: &mut Vec<Vec<char>>, gs: &Vec<Gloss>)
    ensures
        crate::text::views(final(acc)@) == distinct_extend(
            crate::text::views(old(acc)@),
            gloss_langs(gs@),
        ),
{
    let ghost start = crate::text::views(acc@);
    let mut i: usize = 0;
    while i < gs.len()
        invariant
            i <= gs@.len(),
            crate::text::views(acc@) == distinct_extend(start, gloss_langs(gs@.take(i as int))),
        decreases gs.len() - i,
    {
        assert(gs@.take(i + 1).drop_last() =~= gs@.take(i as int));
        match &gs[i].lang {
            Some(l) => {
                let lc = chars_of(l.as_str());
                assert(gloss_langs(gs@.take(i + 1)) == gloss_langs(gs@.take(i as int)).push(l@));
                assert(gloss_langs(gs@.take(i + 1)).drop_last() =~= gloss_langs(gs@.take(i as int)));
                assert(gloss_langs(gs@.take(i + 1)).last() == l@);
                if !contains_chars(acc, &lc) {
                    let ghost before = acc@;
                    acc.push(lc);
                    assert(crate::text::views(acc@) =~= crate::text::views(before).push(l@));
                }
            },
            None => {
                assert(gloss_langs(gs@.take(i + 1)) == gloss_langs(gs@.take(i as int)));
            },
        }
        i = i + 1;
    }
    assert(gs@.take(gs@.len() as int) =~= gs@);
}

/// `acc` followed by the elements of `ls` it does not hold yet, in order of
/// first occurrence.
pub open spec fn distinct_extend(acc: Seq<Seq<char>>, ls: Seq<Seq<char>>) -> Seq<Seq<char>>
    decreases ls.len(),
{
    if ls.len() == 0 {
        acc
    } else if distinct_extend(acc, ls.drop_last()).contains(ls.last()) {
        distinct_extend(acc, ls.drop_last())
    } else {
        distinct_extend(acc, ls.drop_last()).push(ls.last())
    }
}

/// Extending nothing is removing repetitions.
pub proof fn lemma_distinct_extend_empty(ls: Seq<Seq<char>>)
    ensures
        distinct_extend(Seq::empty(), ls) == distinct(ls),
    decreases ls.len(),
{
    if ls.len() > 0 {
        lemma_distinct_extend_empty(ls.drop_last());
    }
}

/// Extending twice is extending by the concatenation.
pub proof fn lemma_distinct_extend_concat(acc: Seq<Seq<char>>, a: Seq<Seq<char>>, b: Seq<Seq<char>>)
    ensures
        distinct_extend(distinct_extend(acc, a), b) == distinct_extend(acc, a + b),
    decreases b.len(),
{
    if b.len() == 0 {
        assert(a + b =~= a);
    } else {
        lemma_distinct_extend_concat(acc, a, b.drop_last());
        assert((a + b).drop_last() =~= a + b.drop_last());
        assert((a + b).last() == b.last());
    }
}

/// Whether sense `s` has a gloss in language `l`.
fn has_lang(s: &Sense, l: &Vec<char>) -> (r: bool)
    ensures
        r == sense_has_lang(*s, l@),
{
    let mut acc: Vec<Vec<char>> = Vec::new();
    assert(crate::text::views(acc@) =~= Seq::<Seq<char>>::empty());
    add_gloss_langs(&mut acc, &s.glosses);
    proof {
        lemma_distinct_extend_empty(gloss_langs(s.glosses@));
        lemma_distinct_contains(gloss_langs(s.glosses@), l@);
    }
    contains_chars(&acc, l)
}

/// Appending `y` adds exactly `y` to what a sequence contains.
pub proof fn lemma_push_contains(s: Seq<Seq<char>>, y: Seq<char>, x: Seq<char>)
    ensures
        s.push(y).contains(x) == (s.contains(x) || x == y),
{
    if s.contains(x) {
        let j = choose|j: int| 0 <= j < s.len() && s[j] == x;
        assert(s.push(y)[j] == x);
    }
    if x == y {
        assert(s.push(y)[s.len() as int] == x);
    }
    if s.push(y).contains(x) && x != y {
        let j = choose|j: int| 0 <= j < s.push(y).len() && s.push(y)[j] == x;
        assert(s[j] == x);
    }
}

/// Removing repetitions keeps exactly the same elements.
pub proof fn lemma_distinct_contains(ls: Seq<Seq<char>>, x: Seq<char>)
    ensures
        distinct(ls).contains(x) == ls.contains(x),
    decreases ls.len(),
{
    if ls.len() > 0 {
        let p = ls.drop_last();
        let y = ls.last();
        lemma_distinct_contains(p, x);
        lemma_distinct_contains(p, y);
        assert(ls =~= p.push(y));
        lemma_push_contains(p, y, x);
        lemma_push_contains(distinct(p), y, x);
    }
}

/// How many of the first `i` senses have a gloss in language `l`.
fn count_senses_with(ss: &Vec<Sense>, i: usize, l: &Vec<char>) -> (n: usize)
    requires
        i <= ss@.len(),
    ensures
        n as nat == senses_with_lang(ss@.take(i as int), l@),
{
    let mut n: usize = 0;
    let mut j: usize = 0;
    while j < i
        invariant
            j <= i <= ss@.len(),
            n as nat == senses_with_lang(ss@.take(j as int), l@),
            n <= j,
        decreases i - j,
    {
        assert(ss@.take(j + 1).drop_last() =~= ss@.take(j as int));
        if has_lang(&ss[j], l) {
            n = n + 1;
        }
        j = j + 1;
    }
    n
}

/// For every sense, its languages with its position among the senses of the
/// entry in that language (the `sense_lang_index` rows).
pub fn sense_lang_indices(entry: &Entry) -> (r: Vec<Vec<(String, usize)>>)
    ensures
        r@.len() == entry.senses@.len(),
        forall|i: int|
            0 <= i < r@.len() ==> lang_numbers(#[trigger] r@[i]@) == sense_lang_positions(
                entry.senses@,
                i,
            ),
{
    let ss = &entry.senses;
    let mut r: Vec<Vec<(String, usize)>> = Vec::new();
    let mut i: usize = 0;
    while i < ss.len()
        invariant
            i <= ss@.len(),
            ss == &entry.senses,
            r@.len() == i,
            forall|k: int|
                0 <= k < i ==> lang_numbers(#[trigger] r@[k]@) == sense_lang_positions(ss@, k),
        decreases ss.len() - i,
    {
        let mut langs: Vec<Vec<char>> = Vec::new();
        assert(crate::text::views(langs@) =~= Seq::<Seq<char>>::empty());
        add_gloss_langs(&mut langs, &ss[i].glosses);
        let ghost lv = crate::text::views(langs@);
        proof {
            lemma_distinct_extend_empty(gloss_langs(ss@[i as int].glosses@));
        }
        let mut row: Vec<(String, usize)> = Vec::new();
        let mut k: usize = 0;
        while k < langs.len()
            invariant
                k <= langs@.len(),
                i < ss@.len(),
                lv == crate::text::views(langs@),
                lang_numbers(row@) =~= lv.take(k as int).map_values(
                    |l: Seq<char>| (l, senses_with_lang(ss@.take(i as int), l)),
                ),
            decreases langs.len() - k,
        {
            let n = count_senses_with(ss, i, &langs[k]);
            let ghost before = row@;
            row.push((string_of(&langs[k]), n));
            proof {
                assert(lang_numbers(row@) =~= lang_numbers(before).push((lv[k as int], n as nat)));
                assert(lv.take(k + 1).drop_last() =~= lv.take(k as int));
            }
            k = k + 1;
        }
        proof {
            assert(lv.take(lv.len() as int) =~= lv);
        }
        r.push(row);
        i = i + 1;
    }
    r
}

/// For every language of an entry, the number of senses with a gloss in it
/// (the `entry_sense_counts` rows); a sense counts once however many glosses
/// it has in the language.
pub fn count_senses_by_lang(entry: &Entry) -> (r: Vec<(String, usize)>)
    ensures
        lang_numbers(r@) == sense_counts(entry.senses@),
{
    let ss = &entry.senses;
    let mut langs: Vec<Vec<char>> = Vec::new();
    let mut i: usize = 0;
    assert(crate::text::views(langs@) =~= Seq::<Seq<char>>::empty());
    while i < ss.len()
        invariant
            i <= ss@.len(),
            crate::text::views(langs@) == distinct_extend(
                Seq::empty(),
                all_gloss_langs(ss@.take(i as int)),
            ),
        decreases ss.len() - i,
    {
        proof {
            assert(ss@.take(i + 1).drop_last() =~= ss@.take(i as int));
            lemma_distinct_extend_concat(
                Seq::empty(),
                all_gloss_langs(ss@.take(i as int)),
                gloss_langs(ss@[i as int].glosses@),
            );
        }
        add_gloss_langs(&mut langs, &ss[i].glosses);
        i = i + 1;
    }
    proof {
        assert(ss@.take(ss@.len() as int) =~= ss@);
        lemma_distinct_extend_empty(all_gloss_langs(ss@));
    }
    let ghost lv = crate::text::views(langs@);
    let mut r: Vec<(String, usize)> = Vec::new();
    let mut k: usize = 0;
    while k < langs.len()
        invariant
            k <= langs@.len(),
            lv == crate::text::views(langs@),
            lang_numbers(r@) =~= lv.take(k as int).map_values(
                |l: Seq<char>| (l, senses_with_lang(ss@, l)),
            ),
        decreases langs.len() - k,
    {
        let n = count_senses_with(ss, ss.len(), &langs[k]);
        proof {
            assert(ss@.take(ss@.len() as int) =~= ss@);
        }
        let ghost before = r@;
        r.push((string_of(&langs[k]), n));
        proof {
            assert(lang_numbers(r@) =~= lang_numbers(before).push((lv[k as int], n as nat)));
            assert(lv.take(k + 1).drop_last() =~= lv.take(k as int));
        }
        k = k + 1;
    }
    proof {
        assert(lv.take(lv.len() as int) =~= lv);
    }
    r
}

// ── Laws of the per-language sense rows ────────────────────────────────────

/// Counting the first `j` senses counts the first `i` ones, plus sense `i`
/// when it lies in between and has a gloss in `l`.
proof fn lemma_senses_with_lang_take(ss: Seq<Sense>, l: Seq<char>, i: int, j: int)
    requires
        0 <= i <= j <= ss.len(),
    ensures
        senses_with_lang(ss.take(i), l) + (if i < j && sense_has_lang(ss[i], l) {
            1int
        } else {
            0int
        }) <= senses_with_lang(ss.take(j), l),
    decreases j - i,
{
    if i < j {
        assert(ss.take(j).drop_last() =~= ss.take(j - 1));
        assert(ss.take(j).last() == ss[j - 1]);
        if i < j - 1 {
            lemma_senses_with_lang_take(ss, l, i, j - 1);
        } else {
            lemma_senses_with_lang_take(ss, l, i, i);
        }
    }
}

/// A language is counted for at most every sense of the entry.
proof fn lemma_senses_with_lang_bound(ss: Seq<Sense>, l: Seq<char>)
    ensures
        senses_with_lang(ss, l) <= ss.len(),
    decreases ss.len(),
{
    if ss.len() > 0 {
        lemma_senses_with_lang_bound(ss.drop_last(), l);
    }
}

/// The languages of every gloss of an entry are among its gloss languages,
/// and each of them has a sense with a gloss in it.
proof fn lemma_all_gloss_langs(ss: Seq<Sense>, l: Seq<char>)
    ensures
        all_gloss_langs(ss).contains(l) <==> exists|i: int|
            0 <= i < ss.len() && sense_has_lang(#[trigger] ss[i], l),
    decreases ss.len(),
{
    if ss.len() > 0 {
        let p = ss.drop_last();
        lemma_all_gloss_langs(p, l);
        let a = all_gloss_langs(p);
        let b = gloss_langs(ss.last().glosses@);
        assert(all_gloss_langs(ss) == a + b);
        if (a + b).contains(l) {
            let k = choose|k: int| 0 <= k < (a + b).len() && (a + b)[k] == l;
            if k < a.len() {
                assert(a[k] == l);
                let i = choose|i: int| 0 <= i < p.len() && sense_has_lang(#[trigger] p[i], l);
                assert(ss[i] == p[i]);
            } else {
                assert(b[k - a.len()] == l);
                assert(sense_has_lang(ss[ss.len() - 1], l));
            }
        }
        if exists|i: int| 0 <= i < ss.len() && sense_has_lang(#[trigger] ss[i], l) {
            let i = choose|i: int| 0 <= i < ss.len() && sense_has_lang(#[trigger] ss[i], l);
            if i < p.len() {
                assert(p[i] == ss[i]);
                let k = choose|k: int| 0 <= k < a.len() && a[k] == l;
                assert((a + b)[k] == l);
            } else {
                let k = choose|k: int| 0 <= k < b.len() && b[k] == l;
                assert((a + b)[a.len() + k] == l);
            }
        }
    }
}

/// A sense with a gloss in `l` is counted for `l`.
proof fn lemma_senses_with_lang_positive(ss: Seq<Sense>, l: Seq<char>, i: int)
    requires
        0 <= i < ss.len(),
        sense_has_lang(ss[i], l),
    ensures
        senses_with_lang(ss.take(i), l) < senses_with_lang(ss, l),
{
    lemma_senses_with_lang_take(ss, l, i, ss.len() as int);
    assert(ss.take(ss.len() as int) =~= ss);
}

/// The `entry_sense_counts` rows: each language of the entry is counted for
/// at least one and at most all of its senses, and a sense with a gloss in a
/// language makes that language one of the counted ones.
pub proof fn lemma_sense_counts(ss: Seq<Sense>, l: Seq<char>)
    ensures
        sense_counts(ss).contains((l, senses_with_lang(ss, l))) <==> exists|i: int|
            0 <= i < ss.len() && sense_has_lang(#[trigger] ss[i], l),
        senses_with_lang(ss, l) <= ss.len(),
        (exists|i: int| 0 <= i < ss.len() && sense_has_lang(#[trigger] ss[i], l)) ==> 1
            <= senses_with_lang(ss, l),
{
    lemma_senses_with_lang_bound(ss, l);
    lemma_all_gloss_langs(ss, l);
    lemma_distinct_contains(all_gloss_langs(ss), l);
    let d = distinct(all_gloss_langs(ss));
    let f = |x: Seq<char>| (x, senses_with_lang(ss, x));
    if sense_counts(ss).contains((l, senses_with_lang(ss, l))) {
        let k = choose|k: int|
            0 <= k < sense_counts(ss).len() && sense_counts(ss)[k] == (l, senses_with_lang(ss, l));
        assert(d.map_values(f)[k] == f(d[k]));
        assert(d[k] == l);
    }
    if d.contains(l) {
        let k = choose|k: int| 0 <= k < d.len() && d[k] == l;
        assert(sense_counts(ss)[k] == (l, senses_with_lang(ss, l)));
    }
    if exists|i: int| 0 <= i < ss.len() && sense_has_lang(#[trigger] ss[i], l) {
        let i = choose|i: int| 0 <= i < ss.len() && sense_has_lang(#[trigger] ss[i], l);
        lemma_senses_with_lang_positive(ss, l, i);
    }
}

/// The `sense_lang_index` rows: a sense is listed under exactly the languages
/// it has a gloss in, its position there is below that language's count in
/// `entry_sense_counts`, and a later sense in the same language has a larger
/// position; so the positions in one language are 0, 1, 2, … in sense order.
pub proof fn lemma_sense_lang_positions(ss: Seq<Sense>, l: Seq<char>, i: int, j: int)
    requires
        0 <= i < j < ss.len(),
    ensures
        sense_lang_positions(ss, i).contains((l, senses_with_lang(ss.take(i), l)))
            <==> sense_has_lang(ss[i], l),
        sense_has_lang(ss[i], l) ==> senses_with_lang(ss.take(i), l) < senses_with_lang(ss, l),
        sense_has_lang(ss[i], l) ==> senses_with_lang(ss.take(i), l) < senses_with_lang(
            ss.take(j),
            l,
        ),
        forall|p: nat|
            #![trigger sense_lang_positions(ss, i).contains((l, p))]
            sense_lang_positions(ss, i).contains((l, p)) ==> p == senses_with_lang(ss.take(i), l),
{
    let d = distinct(gloss_langs(ss[i].glosses@));
    let f = |x: Seq<char>| (x, senses_with_lang(ss.take(i), x));
    lemma_distinct_contains(gloss_langs(ss[i].glosses@), l);
    assert forall|p: nat|
        #![trigger sense_lang_positions(ss, i).contains((l, p))]
        sense_lang_positions(ss, i).contains((l, p)) implies p == senses_with_lang(ss.take(i), l)
            && d.contains(l) by {
        let k = choose|k: int|
            0 <= k < sense_lang_positions(ss, i).len() && sense_lang_positions(ss, i)[k] == (l, p);
        assert(d.map_values(f)[k] == f(d[k]));
    }
    if d.contains(l) {
        let k = choose|k: int| 0 <= k < d.len() && d[k] == l;
        assert(sense_lang_positions(ss, i)[k] == (l, senses_with_lang(ss.take(i), l)));
    }
    if sense_has_lang(ss[i], l) {
        lemma_senses_with_lang_positive(ss, l, i);
        lemma_senses_with_lang_take(ss, l, i, j);
    }
}

// ── Laws of the frequency score ─────────────────────────────────────────────

/// One form scores between 0 and 60 points.
proof fn lemma_tag_score_range(tags: Seq<Seq<char>>)
    ensures
        0 <= tag_score(tags) <= 60,
{
    lemma_tier_hits_bound(tier1(), tags);
    lemma_tier_hits_bound(tier2(), tags);
}

/// The kanji forms score between 0 and 60 points each.
proof fn lemma_kanji_scores_range(krs: Seq<KanjiReading>)
    ensures
        0 <= kanji_scores(krs) <= 60 * krs.len(),
    decreases krs.len(),
{
    if krs.len() > 0 {
        lemma_kanji_scores_range(krs.drop_last());
        lemma_tag_score_range(texts(krs.last().priority@));
    }
}

/// The readings score between 0 and 60 points each.
proof fn lemma_reading_scores_range(rs: Seq<Reading>)
    ensures
        0 <= reading_scores(rs) <= 60 * rs.len(),
    decreases rs.len(),
{
    if rs.len() > 0 {
        lemma_reading_scores_range(rs.drop_last());
        lemma_tag_score_range(texts(rs.last().priority@));
    }
}

/// The frequency score of an entry: a common entry scores at least the
/// 500-point bonus; beyond the bonus, the forms add between 0 and 60 points
/// each, so an entry that is not common never scores more than 60 points per
/// form, and no entry scores less than 0.
pub proof fn lemma_freq_score_range(e: Entry)
    ensures
        entry_has_common(e) ==> freq_score(e) >= 500,
        0 <= freq_score(e) - (if entry_has_common(e) {
            500int
        } else {
            0int
        }) <= 60 * (e.kanji_readings@.len() + e.readings@.len()),
        freq_score(e) >= 0,
{
    lemma_kanji_scores_range(e.kanji_readings@);
    lemma_reading_scores_range(e.readings@);
}

// ── Tatoeba translations ────────────────────────────────────────────────────

/// A translation of an example sentence, as stored in `example_sentences`.
pub struct TatoebaTranslation {
    pub example_id: i64,
    pub lang: String,
    pub text: String,
}

// ── JSON text columns ───────────────────────────────────────────────────────

#[verifier::external_type_specification]
#[verifier::external_body]
pub struct ExJsonError(serde_json::Error);

/// A lowercase hexadecimal digit.
pub open spec fn hex_digit(n: int) -> char {
    if n < 10 {
        (n + 48) as char
    } else {
        (n + 87) as char
    }
}

/// How serde_json writes one character inside a string: `"` and `\` and the
/// control characters escaped (short escapes for backspace, tab, line feed,
/// form feed and carriage return, `\u00xx` for the others), everything else
/// as it is.
pub open spec fn json_char(c: char) -> Seq<char> {
    let v = c as u32;
    if c == '"' {
        seq!['\\', '"']
    } else if c == '\\' {
        seq!['\\', '\\']
    } else if v == 8 {
        seq!['\\', 'b']
    } else if v == 9 {
        seq!['\\', 't']
    } else if v == 10 {
        seq!['\\', 'n']
    } else if v == 12 {
        seq!['\\', 'f']
    } else if v == 13 {
        seq!['\\', 'r']
    } else if v < 0x20 {
        seq!['\\', 'u', '0', '0', hex_digit(v as int / 16), hex_digit(v as int % 16)]
    } else {
        seq![c]
    }
}

/// The characters of `s` as serde_json writes them inside a string.
pub open spec fn json_escaped(s: Seq<char>) -> Seq<char>
    decreases s.len(),
{
    if s.len() == 0 {
        Seq::empty()
    } else {
        json_escaped(s.drop_last()) + json_char(s.last())
    }
}

/// A JSON string literal.
pub open spec fn json_string(s: Seq<char>) -> Seq<char> {
    seq!['"'] + json_escaped(s) + seq!['"']
}

/// JSON string literals separated by commas.
pub open spec fn json_items(items: Seq<Seq<char>>) -> Seq<char>
    decreases items.len(),
{
    if items.len() == 0 {
        Seq::empty()
    } else if items.len() == 1 {
        json_string(items[0])
    } else {
        json_items(items.drop_last()) + seq![','] + json_string(items.last())
    }
}

/// The compact JSON text that `serde_json::to_string` writes for a list of
/// strings with these texts: `[`, the string literals separated by commas,
/// and `]`.
pub open spec fn json_string_array(items: Seq<Seq<char>>) -> Seq<char> {
    seq!['['] + json_items(items) + seq![']']
}

/// `serde_json::to_string` on a list of strings. It always succeeds: the
/// text is written into a `Vec<u8>`, whose writes cannot fail, and a string
/// always serializes; the text is the one `json_string_array` names for the
/// texts of the list.
#[verifier::external_body]
fn serde_json_to_string(v: &Vec<String>) -> (r: Result<String, serde_json::Error>)
    ensures
        r is Ok,
        r matches Ok(s) ==> s@ == json_string_array(texts(v@)),
{
    serde_json::to_string(v.as_slice())
}

/// Whether `out` is the text a JSON array column holds for the strings `v`:
/// their JSON encoding.
pub open spec fn json_column(v: Seq<Seq<char>>, out: Seq<char>) -> bool {
    out == json_string_array(v)
}

/// The JSON array text stored for a list of strings (`[]` should encoding
/// ever fail, which it does not for strings).
pub fn json(v: &Vec<String>) -> (r: String)
    ensures
        r@ == json_string_array(texts(v@)),
{
    match serde_json_to_string(v) {
        Ok(s) => s,
        Err(_) => String::from_str("[]"),
    }
}

// ── Rows of an entry ────────────────────────────────────────────────────────

/// A `readings` row.
pub struct ReadingRow {
    pub text: String,
    pub no_kanji: bool,
    pub priority: String,
    pub info: String,
}

/// A `kanji_readings` row, with the positions (among the entry's readings) of
/// the readings restricted to it, one `reading_restrictions` row each.
pub struct KanjiReadingRow {
    pub kanji: String,
    pub priority: String,
    pub info: String,
    pub restricted_readings: Vec<usize>,
}

/// A `senses` row with its `sense_lang_index` rows.
pub struct SenseRow {
    pub sense_index: usize,
    pub pos: String,
    pub misc: String,
    pub dialects: String,
    pub info: String,
    pub lang_indices: Vec<(String, usize)>,
}

/// The rows that inserting an entry writes (besides the glosses,
/// cross-references and examples, which are written as the entry holds them).
pub struct EntryRows {
    pub id: u32,
    pub jlpt: Option<u8>,
    pub freq_score: i32,
    pub has_common: bool,
    pub readings: Vec<ReadingRow>,
    pub kanji_readings: Vec<KanjiReadingRow>,
    pub senses: Vec<SenseRow>,
    pub sense_counts: Vec<(String, usize)>,
}

/// The position of the last reading of `rs` with text `t`, or -1.
pub open spec fn last_reading_with_text(rs: Seq<Reading>, t: Seq<char>) -> int
    decreases rs.len(),
{
    if rs.len() == 0 {
        -1
    } else if rs.last().text@ == t {
        rs.len() - 1
    } else {
        last_reading_with_text(rs.drop_last(), t)
    }
}

/// For the readings `restricted` of a kanji form, in order, the position of
/// the entry reading with the same text (the last one if several have it);
/// a restricted reading that matches no entry reading is left out.
pub open spec fn restriction_targets(restricted: Seq<Reading>, rs: Seq<Reading>) -> Seq<usize>
    decreases restricted.len(),
{
    if restricted.len() == 0 {
        Seq::empty()
    } else {
        let p = restriction_targets(restricted.drop_last(), rs);
        let k = last_reading_with_text(rs, restricted.last().text@);
        if k >= 0 {
            p.push(k as usize)
        } else {
            p
        }
    }
}

/// `row` is the `readings` row of `r`.
pub open spec fn reading_row_of(row: ReadingRow, r: Reading) -> bool {
    &&& row.text == r.text
    &&& row.no_kanji == r.no_kanji
    &&& json_column(texts(r.priority@), row.priority@)
    &&& json_column(texts(r.info@), row.info@)
}

/// `row` is the `kanji_readings` row of `kr` in an entry with readings `rs`.
pub open spec fn kanji_row_of(row: KanjiReadingRow, kr: KanjiReading, rs: Seq<Reading>) -> bool {
    &&& row.kanji == kr.kanji
    &&& json_column(texts(kr.priority@), row.priority@)
    &&& json_column(texts(kr.info@), row.info@)
    &&& row.restricted_readings@ == restriction_targets(kr.restricted_readings@, rs)
}

/// `row` is the `senses` row of sense `i` of `ss`.
pub open spec fn sense_row_of(row: SenseRow, ss: Seq<Sense>, i: int) -> bool {
    &&& row.sense_index == i
    &&& json_column(texts(ss[i].pos@), row.pos@)
    &&& json_column(texts(ss[i].misc@), row.misc@)
    &&& json_column(texts(ss[i].dialects@), row.dialects@)
    &&& json_column(texts(ss[i].info@), row.info@)
    &&& lang_numbers(row.lang_indices@) == sense_lang_positions(ss, i)
}

/// The position of the last reading of `rs` whose text is `t`.
fn find_last_reading(rs: &Vec<Reading>, t: &String) -> (r: Option<usize>)
    ensures
        r matches Some(k) ==> k as int == last_reading_with_text(rs@, t@),
        r is None ==> last_reading_with_text(rs@, t@) == -1,
{
    let mut k: usize = rs.len();
    assert(rs@.take(rs@.len() as int) =~= rs@);
    while k > 0
        invariant
            k <= rs@.len(),
            last_reading_with_text(rs@, t@) == last_reading_with_text(rs@.take(k as int), t@),
        decreases k,
    {
        assert(rs@.take(k as int).drop_last() =~= rs@.take(k - 1));
        if rs[k - 1].text == *t {
            return Some(k - 1);
        }
        k = k - 1;
    }
    None
}

/// The positions of the readings restricted to a kanji form.
fn restriction_positions(restricted: &Vec<Reading>, rs: &Vec<Reading>) -> (r: Vec<usize>)
    ensures
        r@ == restriction_targets(restricted@, rs@),
{
    let mut r: Vec<usize> = Vec::new();
    let mut i: usize = 0;
    while i < restricted.len()
        invariant
            i <= restricted@.len(),
            r@ == restriction_targets(restricted@.take(i as int), rs@),
        decreases restricted.len() - i,
    {
        assert(restricted@.take(i + 1).drop_last() =~= restricted@.take(i as int));
        match find_last_reading(rs, &restricted[i].text) {
            Some(k) => {
                r.push(k);
            },
            None => {},
        }
        i = i + 1;
    }
    assert(restricted@.take(restricted@.len() as int) =~= restricted@);
    r
}

/// The rows that inserting `entry` writes.
pub fn plan_entry(entry: &Entry) -> (rows: EntryRows)
    requires
        freq_score(*entry) <= i32::MAX,
    ensures
        rows.id == entry.id,
        rows.jlpt == entry.jlpt,
        rows.freq_score as int == freq_score(*entry),
        rows.has_common == entry_has_common(*entry),
        rows.readings@.len() == entry.readings@.len(),
        forall|i: int|
            0 <= i < rows.readings@.len() ==> reading_row_of(
                #[trigger] rows.readings@[i],
                entry.readings@[i],
            ),
        rows.kanji_readings@.len() == entry.kanji_readings@.len(),
        forall|i: int|
            0 <= i < rows.kanji_readings@.len() ==> kanji_row_of(
                #[trigger] rows.kanji_readings@[i],
                entry.kanji_readings@[i],
                entry.readings@,
            ),
        rows.senses@.len() == entry.senses@.len(),
        forall|i: int|
            0 <= i < rows.senses@.len() ==> sense_row_of(#[trigger] rows.senses@[i], entry.senses@, i),
        lang_numbers(rows.sense_counts@) == sense_counts(entry.senses@),
{
    let (freq_score, has_common) = compute_freq_score(entry);
    let mut readings: Vec<ReadingRow> = Vec::new();
    let mut i: usize = 0;
    while i < entry.readings.len()
        invariant
            i <= entry.readings@.len(),
            readings@.len() == i,
            forall|k: int|
                0 <= k < i ==> reading_row_of(#[trigger] readings@[k], entry.readings@[k]),
        decreases entry.readings.len() - i,
    {
        let r = &entry.readings[i];
        readings.push(
            ReadingRow {
                text: r.text.clone(),
                no_kanji: r.no_kanji,
                priority: json(&r.priority),
                info: json(&r.info),
            },
        );
        i = i + 1;
    }
    let mut kanji_readings: Vec<KanjiReadingRow> = Vec::new();
    let mut j: usize = 0;
    while j < entry.kanji_readings.len()
        invariant
            j <= entry.kanji_readings@.len(),
            kanji_readings@.len() == j,
            forall|k: int|
                0 <= k < j ==> kanji_row_of(
                    #[trigger] kanji_readings@[k],
                    entry.kanji_readings@[k],
                    entry.readings@,
                ),
        decreases entry.kanji_readings.len() - j,
    {
        let kr = &entry.kanji_readings[j];
        kanji_readings.push(
            KanjiReadingRow {
                kanji: kr.kanji.clone(),
                priority: json(&kr.priority),
                info: json(&kr.info),
                restricted_readings: restriction_positions(&kr.restricted_readings, &entry.readings),
            },
        );
        j = j + 1;
    }
    let mut lang_idx = sense_lang_indices(entry);
    let mut senses: Vec<SenseRow> = Vec::new();
    // Rows are built from the last sense down, taking each sense's
    // language positions off the end of `lang_idx`, then put back in order.
    let mut s: usize = entry.senses.len();
    let mut rev: Vec<SenseRow> = Vec::new();
    while s > 0
        invariant
            s <= entry.senses@.len(),
            lang_idx@.len() == s,
            forall|k: int|
                0 <= k < s ==> lang_numbers(#[trigger] lang_idx@[k]@) == sense_lang_positions(
                    entry.senses@,
                    k,
                ),
            rev@.len() == entry.senses@.len() - s,
            forall|k: int|
                0 <= k < rev@.len() ==> sense_row_of(
                    #[trigger] rev@[k],
                    entry.senses@,
                    entry.senses@.len() - 1 - k,
                ),
        decreases s,
    {
        let idx = s - 1;
        let sense = &entry.senses[idx];
        let li = lang_idx.pop().unwrap();
        rev.push(
            SenseRow {
                sense_index: idx,
                pos: json(&sense.pos),
                misc: json(&sense.misc),
                dialects: json(&sense.dialects),
                info: json(&sense.info),
                lang_indices: li,
            },
        );
        s = idx;
    }
    while rev.len() > 0
        invariant
            senses@.len() + rev@.len() == entry.senses@.len(),
            forall|k: int|
                0 <= k < rev@.len() ==> sense_row_of(
                    #[trigger] rev@[k],
                    entry.senses@,
                    entry.senses@.len() - 1 - k,
                ),
            forall|k: int|
                0 <= k < senses@.len() ==> sense_row_of(#[trigger] senses@[k], entry.senses@, k),
        decreases rev.len(),
    {
        let row = rev.pop().unwrap();
        senses.push(row);
    }
    EntryRows {
        id: entry.id,
        jlpt: entry.jlpt,
        freq_score,
        has_common,
        readings,
        kanji_readings,
        senses,
        sense_counts: count_senses_by_lang(entry),
    }
}

} // verus!
