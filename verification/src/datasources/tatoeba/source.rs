//! Tatoeba translations of the example sentences.
//!
//! JMdict examples name their Tatoeba sentence (`source_id`). Translations are
//! found through Tatoeba's link list in two passes: first the sentences linked
//! directly to a known sentence, then the sentences linked to those (most
//! translations hang off the English sentence rather than the Japanese one).
//! Each reached sentence is tied to the example of the known sentence it was
//! reached from; the first link that reaches a sentence decides.
use vstd::prelude::*;

use std::collections::{HashMap, HashSet};

use crate::infrastructure::sqlite::repository::TatoebaTranslation;
use crate::table::{key_index, lemma_key_index, table_get};
use crate::text::{
    chars_eq, chars_of, decimal, decimal_chars, digit_value, digits_value, find_chars, find_from,
    parse_uint, parse_unsigned, string_of, unsigned_digits, all_digits,
};

verus! {

broadcast use vstd::std_specs::hash::group_hash_axioms;

/// Reads Tatoeba data.
pub struct TatoebaSource;

// ── Lines of the Tatoeba files ──────────────────────────────────────────────

/// The position of the first tab in `s` at or after `from`, or -1.
pub open spec fn tab_from(s: Seq<char>, from: int) -> int {
    find_from(s, seq!['\t'], from)
}

/// A `u64` written in decimal (`str::parse::<u64>`).
pub open spec fn parse_u64(s: Seq<char>) -> Option<u64> {
    match parse_unsigned(s, 10, u64::MAX as nat) {
        Some(v) => Some(v as u64),
        None => None,
    }
}

/// The link `source<TAB>target` on a line of the link list; a line without
/// a tab, or whose two fields are not both numbers, holds no link.
pub open spec fn link_of(line: Seq<char>) -> Option<(u64, u64)> {
    let t = tab_from(line, 0);
    if t < 0 {
        None
    } else {
        match (parse_u64(line.take(t)), parse_u64(line.skip(t + 1))) {
            (Some(a), Some(b)) => Some((a, b)),
            _ => None,
        }
    }
}

/// The sentence `id<TAB>lang<TAB>text` on a line of a sentence file: its id
/// and its text (everything after the second tab).
pub open spec fn sentence_of(line: Seq<char>) -> Option<(u64, Seq<char>)> {
    let t1 = tab_from(line, 0);
    if t1 < 0 {
        None
    } else {
        let t2 = tab_from(line, t1 + 1);
        if t2 < 0 {
            None
        } else {
            match parse_u64(line.take(t1)) {
                Some(id) => Some((id, line.skip(t2 + 1))),
                None => None,
            }
        }
    }
}

/// Reads a decimal `u64`.
fn read_u64(s: &Vec<char>) -> (r: Option<u64>)
    ensures
        r == parse_u64(s@),
{
    match parse_uint(s, 10, u64::MAX) {
        Some(v) => Some(v),
        None => None,
    }
}

/// The characters of `s` from `a` up to `b`.
fn slice_chars(s: &Vec<char>, a: usize, b: usize) -> (r: Vec<char>)
    requires
        a <= b <= s@.len(),
    ensures
        r@ == s@.subrange(a as int, b as int),
{
    let mut r: Vec<char> = Vec::new();
    let mut i = a;
    while i < b
        invariant
            a <= i <= b <= s@.len(),
            r@ =~= s@.subrange(a as int, i as int),
        decreases b - i,
    {
        r.push(s[i]);
        i = i + 1;
    }
    r
}

/// Where the link list is downloaded from.
pub const LINKS_URL: &'static str = "https://downloads.tatoeba.org/exports/links.tar.bz2";

/// The sentence file of a language is downloaded from this address, with
/// `{lang}` replaced by the language's Tatoeba code.
pub const SENTENCES_URL: &'static str =
    "https://downloads.tatoeba.org/exports/per_language/{lang}/{lang}_sentences.tsv.bz2";

impl TatoebaSource {
    /// Whether translations are looked for at all: only when some example
    /// names a Tatoeba sentence and some language is wanted.
    pub fn wants_translations(known_count: usize, lang_count: usize) -> (r: bool)
        ensures
            r == (known_count > 0 && lang_count > 0),
    {
        known_count > 0 && lang_count > 0
    }

    /// Where the sentences of JMdict language `jmdict_lang` are downloaded
    /// from: the template with every `{lang}` replaced by the Tatoeba code.
    pub fn sentences_url(jmdict_lang: &str) -> (r: String)
        ensures
            r@ == crate::text::replace_all(
                SENTENCES_URL@,
                "{lang}"@,
                crate::lang::tatoeba_code(jmdict_lang@),
            ),
    {
        let code = crate::lang::to_tatoeba(jmdict_lang);
        let pat = chars_of("{lang}");
        proof {
            reveal_strlit("{lang}");
        }
        let out = crate::text::replace_chars(&chars_of(SENTENCES_URL), &pat, &chars_of(code));
        string_of(&out)
    }

    /// The link on a line of the link list.
    pub fn parse_link(line: &str) -> (r: Option<(u64, u64)>)
        ensures
            r == link_of(line@),
    {
        let s = chars_of(line);
        let tab: Vec<char> = vec!['\t'];
        assert(tab@ =~= seq!['\t']);
        match find_chars(&s, &tab, 0) {
            None => None,
            Some(t) => {
                proof {
                    crate::text::lemma_find_from(s@, tab@, 0);
                }
                assert(t < s.len());
                let a = read_u64(&slice_chars(&s, 0, t));
                let b = read_u64(&slice_chars(&s, t + 1, s.len()));
                assert(s@.subrange(0, t as int) =~= s@.take(t as int));
                assert(s@.subrange(t + 1, s@.len() as int) =~= s@.skip(t + 1));
                match (a, b) {
                    (Some(x), Some(y)) => Some((x, y)),
                    _ => None,
                }
            },
        }
    }

    /// The sentence id and text on a line of a sentence file.
    pub fn parse_sentence(line: &str) -> (r: Option<(u64, String)>)
        ensures
            match sentence_of(line@) {
                Some((id, text)) => r matches Some((i, t)) && i == id && t@ == text,
                None => r is None,
            },
    {
        let s = chars_of(line);
        let tab: Vec<char> = vec!['\t'];
        assert(tab@ =~= seq!['\t']);
        match find_chars(&s, &tab, 0) {
            None => None,
            Some(t1) => {
                proof {
                    crate::text::lemma_find_from(s@, tab@, 0);
                }
                match find_chars(&s, &tab, t1 + 1) {
                    None => None,
                    Some(t2) => {
                        assert(t1 < s.len());
                        proof {
                            crate::text::lemma_find_from(s@, tab@, t1 + 1);
                        }
                        assert(s@.subrange(0, t1 as int) =~= s@.take(t1 as int));
                        match read_u64(&slice_chars(&s, 0, t1)) {
                            None => None,
                            Some(id) => {
                                assert(t2 < s.len());
                                let text = slice_chars(&s, t2 + 1, s.len());
                                assert(text@ =~= s@.skip(t2 + 1));
                                Some((id, string_of(&text)))
                            },
                        }
                    },
                }
            },
        }
    }
}

// ── Known sentences ─────────────────────────────────────────────────────────

/// The example tied to Tatoeba sentence `id`: the value stored under the
/// decimal text of `id` among the known `(sentence id text, example)` pairs.
pub open spec fn known_example(known: Seq<(String, i64)>, id: u64) -> Option<i64> {
    table_get(known, decimal(id as nat))
}

/// Whether some known sentence id text reads as the number `id`.
pub open spec fn is_known_id(known: Seq<(String, i64)>, id: u64) -> bool {
    exists|i: int| 0 <= i < known.len() && #[trigger] parse_u64(known[i].0@) == Some(id)
}

/// The decimal text of a number reads back as that number.
pub proof fn lemma_parse_decimal(n: nat)
    ensures
        decimal(n).len() > 0,
        all_digits(decimal(n), 10),
        digits_value(decimal(n), 10) == n,
        decimal(n)[0] != '+',
    decreases n,
{
    if n >= 10 {
        lemma_parse_decimal(n / 10);
        let d = decimal(n / 10);
        let c = (((n % 10) + 0x30) as u32) as char;
        assert(decimal(n) == d.push(c));
        assert(decimal(n).drop_last() =~= d);
        assert(digit_value(c, 10) == Some(n % 10));
        assert(decimal(n).last() == c);
        assert(digits_value(decimal(n), 10) == digits_value(d, 10) * 10 + n % 10);
        assert forall|i: int| 0 <= i < decimal(n).len() implies (#[trigger] digit_value(
            decimal(n)[i],
            10,
        )) is Some by {
            if i < d.len() {
                assert(decimal(n)[i] == d[i]);
            }
        }
        assert(decimal(n)[0] == d[0]);
    } else {
        let c = ((n + 0x30) as u32) as char;
        assert(decimal(n) == seq![c]);
        assert(decimal(n).drop_last() =~= Seq::<char>::empty());
        assert(digit_value(c, 10) == Some(n));
        assert(decimal(n).last() == c);
        assert(digits_value(Seq::<char>::empty(), 10) == 0);
        assert(digits_value(decimal(n), 10) == digits_value(Seq::<char>::empty(), 10) * 10 + n);
    }
}

/// A number `id` is looked up under its decimal text.
pub proof fn lemma_parse_u64_decimal(id: u64)
    ensures
        parse_u64(decimal(id as nat)) == Some(id),
{
    lemma_parse_decimal(id as nat);
    assert(unsigned_digits(decimal(id as nat)) == decimal(id as nat));
}

// ── Link resolution ─────────────────────────────────────────────────────────

/// The direct links after one more link: a link from or to a known sentence
/// ties the sentence at its other end to that known sentence's example, unless
/// that sentence is already tied (the source end is tried first).
pub open spec fn direct_step(m: Map<u64, i64>, known: Seq<(String, i64)>, link: (u64, u64)) -> Map<
    u64,
    i64,
> {
    let (src, tgt) = link;
    match known_example(known, src) {
        Some(e) => if m.contains_key(tgt) {
            m
        } else {
            m.insert(tgt, e)
        },
        None => match known_example(known, tgt) {
            Some(e) => if m.contains_key(src) {
                m
            } else {
                m.insert(src, e)
            },
            None => m,
        },
    }
}

/// The sentences reached by one link from a known sentence, after `links`.
pub open spec fn direct_links(known: Seq<(String, i64)>, links: Seq<(u64, u64)>) -> Map<u64, i64>
    decreases links.len(),
{
    if links.len() == 0 {
        Map::empty()
    } else {
        direct_step(direct_links(known, links.drop_last()), known, links.last())
    }
}

/// The reached sentences after one more link in the second pass: a link from
/// or to a directly reached sentence ties the sentence at its other end to
/// the same example, unless that sentence is known itself or already tied.
pub open spec fn two_hop_step(
    m: Map<u64, i64>,
    hop1: Map<u64, i64>,
    known: Seq<(String, i64)>,
    link: (u64, u64),
) -> Map<u64, i64> {
    let (src, tgt) = link;
    if hop1.contains_key(src) {
        if !is_known_id(known, tgt) && !m.contains_key(tgt) {
            m.insert(tgt, hop1[src])
        } else {
            m
        }
    } else if hop1.contains_key(tgt) {
        if !is_known_id(known, src) && !m.contains_key(src) {
            m.insert(src, hop1[tgt])
        } else {
            m
        }
    } else {
        m
    }
}

/// The reached sentences after the second pass over `links`, starting from
/// the directly reached ones `hop1`.
pub open spec fn two_hop_links(
    hop1: Map<u64, i64>,
    known: Seq<(String, i64)>,
    links: Seq<(u64, u64)>,
) -> Map<u64, i64>
    decreases links.len(),
{
    if links.len() == 0 {
        hop1
    } else {
        two_hop_step(two_hop_links(hop1, known, links.drop_last()), hop1, known, links.last())
    }
}

/// Every sentence reached directly is tied to the example of a known
/// sentence.
pub proof fn lemma_direct_links_known(known: Seq<(String, i64)>, links: Seq<(u64, u64)>, id: u64)
    ensures
        direct_links(known, links).contains_key(id) ==> exists|k: u64|
            #[trigger] known_example(known, k) == Some(direct_links(known, links)[id]),
    decreases links.len(),
{
    if links.len() > 0 {
        lemma_direct_links_known(known, links.drop_last(), id);
        let (src, tgt) = links.last();
        match known_example(known, src) {
            Some(e) => {
                assert(known_example(known, src) == Some(e));
            },
            None => match known_example(known, tgt) {
                Some(e) => {
                    assert(known_example(known, tgt) == Some(e));
                },
                None => {},
            },
        }
    }
}

/// The second pass only adds: every directly reached sentence stays tied to
/// its example, and each sentence it adds is not a known sentence and is
/// tied to the example of a directly reached one.
pub proof fn lemma_two_hop_links_extend(
    hop1: Map<u64, i64>,
    known: Seq<(String, i64)>,
    links: Seq<(u64, u64)>,
    id: u64,
)
    ensures
        hop1.contains_key(id) ==> two_hop_links(hop1, known, links).contains_key(id)
            && two_hop_links(hop1, known, links)[id] == hop1[id],
        two_hop_links(hop1, known, links).contains_key(id) && !hop1.contains_key(id) ==> {
            &&& !is_known_id(known, id)
            &&& exists|k: u64|
                hop1.contains_key(k) && #[trigger] hop1[k] == two_hop_links(hop1, known, links)[id]
        },
    decreases links.len(),
{
    if links.len() > 0 {
        lemma_two_hop_links_extend(hop1, known, links.drop_last(), id);
        let m = two_hop_links(hop1, known, links.drop_last());
        let (src, tgt) = links.last();
        if hop1.contains_key(src) {
            assert(hop1[src] == hop1[src]);
        } else if hop1.contains_key(tgt) {
            assert(hop1[tgt] == hop1[tgt]);
        }
    }
}

/// The state of link resolution over a fixed set of known sentences.
pub struct TatoebaLinks {
    known: Ghost<Seq<(String, i64)>>,
    by_id: HashMap<u64, i64>,
    known_ids: HashSet<u64>,
    direct: HashMap<u64, i64>,
    reached: HashMap<u64, i64>,
}

impl TatoebaLinks {
    /// The known `(sentence id text, example)` pairs.
    pub closed spec fn known(self) -> Seq<(String, i64)> {
        self.known@
    }

    /// The sentences reached directly so far.
    pub closed spec fn direct(self) -> Map<u64, i64> {
        self.direct@
    }

    /// The sentences reached in the second pass so far.
    pub closed spec fn reached(self) -> Map<u64, i64> {
        self.reached@
    }

    /// The internal indexes agree with the known pairs.
    pub closed spec fn wf(self) -> bool {
        &&& forall|id: u64|
            #![trigger self.by_id@.contains_key(id)]
            (self.by_id@.contains_key(id) <==> known_example(self.known@, id) is Some)
        &&& forall|id: u64|
            #![trigger self.by_id@.contains_key(id)]
            self.by_id@.contains_key(id) ==> known_example(self.known@, id) == Some(
                self.by_id@[id],
            )
        &&& forall|id: u64| #[trigger]
            self.known_ids@.contains(id) <==> is_known_id(self.known@, id)
    }

    /// Starts resolution for the known pairs, with nothing reached yet.
    pub fn new(known: &Vec<(String, i64)>) -> (r: Self)
        ensures
            r.wf(),
            r.known() == known@,
            r.direct() == Map::<u64, i64>::empty(),
            r.reached() == Map::<u64, i64>::empty(),
    {
        let mut by_id: HashMap<u64, i64> = HashMap::new();
        let mut known_ids: HashSet<u64> = HashSet::new();
        let mut i: usize = 0;
        while i < known.len()
            invariant
                i <= known@.len(),
                forall|id: u64|
                    #![trigger by_id@.contains_key(id)]
                    (by_id@.contains_key(id) <==> known_example(known@.take(i as int), id) is Some),
                forall|id: u64|
                    #![trigger by_id@.contains_key(id)]
                    by_id@.contains_key(id) ==> known_example(known@.take(i as int), id) == Some(
                        by_id@[id],
                    ),
                forall|id: u64| #[trigger]
                    known_ids@.contains(id) <==> is_known_id(known@.take(i as int), id),
            decreases known.len() - i,
        {
            let ghost pre = known@.take(i as int);
            let ghost post = known@.take(i + 1);
            proof {
                assert(post =~= pre.push(known@[i as int]));
            }
            let key = chars_of(known[i].0.as_str());
            match read_u64(&key) {
                None => {
                    proof {
                        assert forall|id: u64| is_known_id(post, id) == is_known_id(pre, id) by {
                            if is_known_id(post, id) {
                                let j = choose|j: int|
                                    0 <= j < post.len() && #[trigger] parse_u64(post[j].0@)
                                        == Some(id);
                                if j < pre.len() {
                                    assert(pre[j] == post[j]);
                                }
                            }
                            if is_known_id(pre, id) {
                                let j = choose|j: int|
                                    0 <= j < pre.len() && #[trigger] parse_u64(pre[j].0@)
                                        == Some(id);
                                assert(post[j] == pre[j]);
                            }
                        }
                        assert forall|id: u64|
                            known_example(post, id) == known_example(pre, id) by {
                            lemma_table_get_push(pre, known@[i as int], decimal(id as nat));
                            if known@[i as int].0@ == decimal(id as nat) {
                                lemma_parse_u64_decimal(id);
                            }
                        }
                    }
                },
                Some(id) => {
                    known_ids.insert(id);
                    let canonical = chars_eq(&decimal_chars(id), &key);
                    if canonical && !by_id.contains_key(&id) {
                        by_id.insert(id, known[i].1);
                    }
                    proof {
                        assert forall|q: u64|
                            is_known_id(post, q) == (is_known_id(pre, q) || q == id) by {
                            if is_known_id(post, q) {
                                let j = choose|j: int|
                                    0 <= j < post.len() && #[trigger] parse_u64(post[j].0@)
                                        == Some(q);
                                if j < pre.len() {
                                    assert(pre[j] == post[j]);
                                }
                            }
                            if is_known_id(pre, q) {
                                let j = choose|j: int|
                                    0 <= j < pre.len() && #[trigger] parse_u64(pre[j].0@)
                                        == Some(q);
                                assert(post[j] == pre[j]);
                            }
                            if q == id {
                                assert(parse_u64(post[i as int].0@) == Some(q));
                            }
                        }
                        assert forall|q: u64|
                            known_example(post, q) == if known_example(pre, q) is Some {
                                known_example(pre, q)
                            } else if known@[i as int].0@ == decimal(q as nat) {
                                Some(known@[i as int].1)
                            } else {
                                None::<i64>
                            } by {
                            lemma_table_get_push(pre, known@[i as int], decimal(q as nat));
                        }
                        assert forall|q: u64|
                            known@[i as int].0@ == decimal(q as nat) <==> (canonical && q == id) by {
                            if known@[i as int].0@ == decimal(q as nat) {
                                lemma_parse_u64_decimal(q);
                            }
                        }
                    }
                },
            }
            i = i + 1;
        }
        proof {
            assert(known@.take(known@.len() as int) =~= known@);
        }
        TatoebaLinks {
            known: Ghost(known@),
            by_id,
            known_ids,
            direct: HashMap::new(),
            reached: HashMap::new(),
        }
    }

    /// Takes one link of the first pass into account.
    pub fn observe_direct(&mut self, src: u64, tgt: u64)
        requires
            old(self).wf(),
        ensures
            final(self).wf(),
            final(self).known() == old(self).known(),
            final(self).direct() == direct_step(old(self).direct(), old(self).known(), (src, tgt)),
            final(self).reached() == old(self).reached(),
    {
        match self.by_id.get(&src) {
            Some(e) => {
                let e = *e;
                if !self.direct.contains_key(&tgt) {
                    self.direct.insert(tgt, e);
                }
            },
            None => match self.by_id.get(&tgt) {
                Some(e) => {
                    let e = *e;
                    if !self.direct.contains_key(&src) {
                        self.direct.insert(src, e);
                    }
                },
                None => {},
            },
        }
    }

    /// Starts the second pass from the directly reached sentences.
    pub fn start_second_pass(&mut self)
        requires
            old(self).wf(),
        ensures
            final(self).wf(),
            final(self).known() == old(self).known(),
            final(self).direct() == old(self).direct(),
            final(self).reached() == old(self).direct(),
    {
        self.reached = self.direct.clone();
    }

    /// Takes one link of the second pass into account.
    pub fn observe_second(&mut self, src: u64, tgt: u64)
        requires
            old(self).wf(),
        ensures
            final(self).wf(),
            final(self).known() == old(self).known(),
            final(self).direct() == old(self).direct(),
            final(self).reached() == two_hop_step(
                old(self).reached(),
                old(self).direct(),
                old(self).known(),
                (src, tgt),
            ),
    {
        match self.direct.get(&src) {
            Some(e) => {
                let e = *e;
                if !self.known_ids.contains(&tgt) && !self.reached.contains_key(&tgt) {
                    self.reached.insert(tgt, e);
                }
            },
            None => match self.direct.get(&tgt) {
                Some(e) => {
                    let e = *e;
                    if !self.known_ids.contains(&src) && !self.reached.contains_key(&src) {
                        self.reached.insert(src, e);
                    }
                },
                None => {},
            },
        }
    }

    /// Whether any sentence was reached directly: without one, the second
    /// pass and the sentence files have nothing to give.
    pub fn has_direct(&self) -> (r: bool)
        ensures
            r == (self.direct().len() > 0),
    {
        self.direct.len() > 0
    }

    /// How many sentences were reached directly.
    pub fn direct_count(&self) -> (n: usize)
        ensures
            n == self.direct().len(),
    {
        self.direct.len()
    }

    /// How many sentences were reached in all.
    pub fn reached_count(&self) -> (n: usize)
        ensures
            n == self.reached().len(),
    {
        self.reached.len()
    }

    /// The translation that a line of the sentence file of language `lang`
    /// holds: the sentence must parse and have been reached.
    pub fn translation(&self, line: &str, lang: &String) -> (r: Option<TatoebaTranslation>)
        ensures
            match sentence_of(line@) {
                Some((id, text)) => if self.reached().contains_key(id) {
                    r matches Some(t) && t.example_id == self.reached()[id] && t.lang == *lang
                        && t.text@ == text
                } else {
                    r is None
                },
                None => r is None,
            },
    {
        match TatoebaSource::parse_sentence(line) {
            None => None,
            Some((id, text)) => match self.reached.get(&id) {
                Some(e) => Some(TatoebaTranslation { example_id: *e, lang: lang.clone(), text }),
                None => None,
            },
        }
    }
}

/// Looking a key up in a table with one more pair: an earlier pair with that
/// key wins, else the new pair if it has the key.
pub proof fn lemma_table_get_push<V>(t: Seq<(String, V)>, p: (String, V), k: Seq<char>)
    ensures
        table_get(t.push(p), k) == if table_get(t, k) is Some {
            table_get(t, k)
        } else if p.0@ == k {
            Some(p.1)
        } else {
            None::<V>
        },
{
    lemma_key_index(t, k);
    lemma_key_index(t.push(p), k);
    let i = key_index(t, k);
    let j = key_index(t.push(p), k);
    if i >= 0 {
        assert(t.push(p)[i] == t[i]);
        if j >= 0 && j < i {
            assert(t[j] == t.push(p)[j]);
        }
    } else {
        if j >= 0 && j < t.len() {
            assert(t[j] == t.push(p)[j]);
        }
        if p.0@ == k {
            assert(t.push(p)[t.len() as int] == p);
        }
    }
}

} // verus!
