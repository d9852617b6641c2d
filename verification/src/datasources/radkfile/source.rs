//! RADKFILE: which radicals each kanji is built from.
//!
//! The file lists radicals, each on a header line `$ <radical> <strokes> ...`
//! followed by lines of the kanji that contain it. Lines starting with `#` are
//! comments.
use vstd::prelude::*;

use crate::archive::{
    decode_euc_jp, euc_jp_text, last_path_segment, last_segment, lowercase, to_lowercase,
    zip_file_data, zip_file_name, zip_files, zip_len, zip_listing, zip_open, ArchiveError,
    ZipEntry,
};
use crate::text::{
    chars_of, has_prefix, parse_uint, parse_unsigned, split_chars, split_on, split_words,
    starts_with, string_of, trim, trim_chars, views, words,
};

verus! {

/// A radical and its stroke count.
pub struct Radical {
    pub literal: String,
    pub strokes: u32,
}

/// A kanji and one radical it contains.
pub struct KanjiRadical {
    pub kanji_literal: String,
    pub radical_literal: String,
}

/// Reads RADKFILE data.
pub struct RadkfileSource;

// ── Specification ───────────────────────────────────────────────────────────

/// What has been read so far: the radicals `(literal, strokes)`, the
/// `(kanji, radical)` pairs, and the radical whose kanji lines follow.
pub type RadkState = (Seq<(Seq<char>, u32)>, Seq<(Seq<char>, Seq<char>)>, Option<Seq<char>>);

/// The stroke count written after a radical: a decimal `u32`, or 0 when it is
/// missing or not a number.
pub open spec fn stroke_field(ws: Seq<Seq<char>>) -> u32 {
    if ws.len() > 1 {
        match parse_unsigned(ws[1], 10, u32::MAX as nat) {
            Some(v) => v as u32,
            None => 0,
        }
    } else {
        0
    }
}

/// The stroke count is the whole second field read as a decimal number:
/// the written number `n` gives `n`, however many digits it has; a field of
/// digits gives their value; no second field gives 0.
pub proof fn lemma_stroke_field(ws: Seq<Seq<char>>, n: u32)
    ensures
        ws.len() > 1 && ws[1] == crate::text::decimal(n as nat) ==> stroke_field(ws) == n,
        ws.len() > 1 && ws[1].len() > 0 && crate::text::all_digits(ws[1], 10)
            && crate::text::digits_value(ws[1], 10) <= u32::MAX ==> stroke_field(ws)
            == crate::text::digits_value(ws[1], 10),
        ws.len() <= 1 ==> stroke_field(ws) == 0,
{
    if ws.len() > 1 && ws[1] == crate::text::decimal(n as nat) {
        crate::datasources::tatoeba::source::lemma_parse_decimal(n as nat);
        assert(crate::text::unsigned_digits(ws[1]) == ws[1]);
    }
    if ws.len() > 1 && ws[1].len() > 0 && crate::text::all_digits(ws[1], 10) {
        assert(crate::text::digit_value(ws[1][0], 10) is Some);
        if ws[1][0] == '+' {
            assert(crate::text::digit_value('+', 10) is None);
        }
        assert(crate::text::unsigned_digits(ws[1]) == ws[1]);
    }
}

/// A header line `$ <radical> <n>` (surrounding whitespace aside) adds the
/// radical with `n` strokes and makes it the radical whose kanji follow,
/// whatever was read before.
pub proof fn lemma_radk_header_line(st: RadkState, line: Seq<char>, r: Seq<char>, n: u32)
    requires
        trim(line).len() > 0,
        trim(line)[0] == '$',
        words(trim(line).drop_first()) == seq![r, crate::text::decimal(n as nat)],
    ensures
        radk_line(st, line) == (st.0.push((r, n)), st.1, Some(r)),
{
    lemma_stroke_field(words(trim(line).drop_first()), n);
}

/// The state after reading one line. Surrounding whitespace is ignored; blank
/// lines and comments change nothing; a `$` line starts a new radical (unless
/// it names none); any other line lists kanji of the current radical, and is
/// ignored before the first radical.
pub open spec fn radk_line(st: RadkState, line: Seq<char>) -> RadkState {
    let t = trim(line);
    if t.len() == 0 || t[0] == '#' {
        st
    } else if t[0] == '$' {
        let ws = words(t.drop_first());
        if ws.len() == 0 {
            st
        } else {
            (st.0.push((ws[0], stroke_field(ws))), st.1, Some(ws[0]))
        }
    } else {
        match st.2 {
            Some(r) => (st.0, st.1 + words(t).map_values(|k: Seq<char>| (k, r)), st.2),
            None => st,
        }
    }
}

/// The state after reading `lines` in order.
pub open spec fn radk_lines(lines: Seq<Seq<char>>) -> RadkState
    decreases lines.len(),
{
    if lines.len() == 0 {
        (Seq::empty(), Seq::empty(), None)
    } else {
        radk_line(radk_lines(lines.drop_last()), lines.last())
    }
}

/// The radicals and kanji–radical pairs of a RADKFILE text. Lines end at
/// `\n`; a `\r` before it is whitespace and trimmed like any other.
pub open spec fn radkfile_contents(text: Seq<char>) -> RadkState {
    radk_lines(split_on(text, seq!['\n']))
}

/// The `(literal, strokes)` view of radicals.
pub open spec fn radical_views(rs: Seq<Radical>) -> Seq<(Seq<char>, u32)> {
    rs.map_values(|r: Radical| (r.literal@, r.strokes))
}

/// The `(kanji, radical)` view of pairs.
pub open spec fn pair_views(ps: Seq<KanjiRadical>) -> Seq<(Seq<char>, Seq<char>)> {
    ps.map_values(|p: KanjiRadical| (p.kanji_literal@, p.radical_literal@))
}

/// Whether a lowercased archive file name has a last path segment starting
/// with `radkfile` (RADKFILE and RADKFILE2).
pub open spec fn is_radkfile_lowercase(lowered: Seq<char>) -> bool {
    has_prefix(last_segment(lowered), "radkfile"@)
}

/// Whether an archive file holds RADKFILE data, judged by its lowercased name.
pub open spec fn is_radkfile_name(name: Seq<char>) -> bool {
    is_radkfile_lowercase(lowercase(name))
}

/// The radicals and pairs of all RADKFILE files of an archive, file after
/// file, each file decoded from EUC-JP; `None` when a file's name, or the
/// contents of a RADKFILE, cannot be read.
pub open spec fn kradzip_contents(files: Seq<ZipEntry>) -> Option<
    (Seq<(Seq<char>, u32)>, Seq<(Seq<char>, Seq<char>)>),
>
    decreases files.len(),
{
    if files.len() == 0 {
        Some((Seq::empty(), Seq::empty()))
    } else {
        match kradzip_contents(files.drop_last()) {
            None => None,
            Some(p) => match files.last().0 {
                None => None,
                Some(name) => if is_radkfile_name(name) {
                    match files.last().1 {
                        None => None,
                        Some(d) => {
                            let c = radkfile_contents(euc_jp_text(d));
                            Some((p.0 + c.0, p.1 + c.1))
                        },
                    }
                } else {
                    Some(p)
                },
            },
        }
    }
}

/// Once reading a prefix of the files fails, reading all of them fails.
pub proof fn lemma_kradzip_contents_none(files: Seq<ZipEntry>, k: int)
    requires
        0 <= k <= files.len(),
        kradzip_contents(files.take(k)) is None,
    ensures
        kradzip_contents(files) is None,
    decreases files.len() - k,
{
    if k < files.len() {
        assert(files.take(k + 1).drop_last() =~= files.take(k));
        lemma_kradzip_contents_none(files, k + 1);
    } else {
        assert(files.take(k) =~= files);
    }
}

// ── Laws ────────────────────────────────────────────────────────────────────

/// Whether `rads` lists a radical with literal `r`.
pub open spec fn lists_radical(rads: Seq<(Seq<char>, u32)>, r: Seq<char>) -> bool {
    exists|k: int| 0 <= k < rads.len() && (#[trigger] rads[k]).0 == r
}

/// Every pair of the state names a listed radical, and so does the current
/// radical.
pub open spec fn radk_consistent(st: RadkState) -> bool {
    &&& forall|k: int| 0 <= k < st.1.len() ==> lists_radical(st.0, (#[trigger] st.1[k]).1)
    &&& st.2 matches Some(r) ==> lists_radical(st.0, r)
}

/// Listing more radicals keeps every listed one.
proof fn lemma_lists_radical_append(a: Seq<(Seq<char>, u32)>, b: Seq<(Seq<char>, u32)>, r: Seq<char>)
    requires
        lists_radical(a, r),
    ensures
        lists_radical(a + b, r),
{
    let k = choose|k: int| 0 <= k < a.len() && (#[trigger] a[k]).0 == r;
    assert((a + b)[k] == a[k]);
}

/// Reading a line keeps the state consistent.
proof fn lemma_radk_line_consistent(st: RadkState, line: Seq<char>)
    requires
        radk_consistent(st),
    ensures
        radk_consistent(radk_line(st, line)),
{
    let t = trim(line);
    if t.len() == 0 || t[0] == '#' {
    } else if t[0] == '$' {
        let ws = words(t.drop_first());
        if ws.len() > 0 {
            let n = st.0.push((ws[0], stroke_field(ws)));
            assert forall|k: int| 0 <= k < st.1.len() implies lists_radical(n, (#[trigger] st.1[k]).1) by {
                lemma_lists_radical_append(st.0, seq![(ws[0], stroke_field(ws))], st.1[k].1);
                assert(st.0 + seq![(ws[0], stroke_field(ws))] =~= n);
            }
            assert(n[st.0.len() as int].0 == ws[0]);
        }
    } else {
        match st.2 {
            Some(r) => {
                let added = words(t).map_values(|k: Seq<char>| (k, r));
                let ps = st.1 + added;
                assert forall|k: int| 0 <= k < ps.len() implies lists_radical(st.0, (#[trigger] ps[k]).1) by {
                    if k < st.1.len() {
                        assert(ps[k] == st.1[k]);
                    } else {
                        assert(ps[k] == added[k - st.1.len()]);
                    }
                }
            },
            None => {},
        }
    }
}

/// The state after any lines is consistent.
proof fn lemma_radk_lines_consistent(lines: Seq<Seq<char>>)
    ensures
        radk_consistent(radk_lines(lines)),
    decreases lines.len(),
{
    if lines.len() > 0 {
        lemma_radk_lines_consistent(lines.drop_last());
        lemma_radk_line_consistent(radk_lines(lines.drop_last()), lines.last());
    }
}

/// Every kanji–radical pair read from a RADKFILE text names a radical that
/// the same text lists (`kanji_radicals.radical_literal` refers to
/// `radicals`).
pub proof fn lemma_radkfile_pairs_listed(text: Seq<char>)
    ensures
        forall|k: int|
            0 <= k < radkfile_contents(text).1.len() ==> lists_radical(
                radkfile_contents(text).0,
                (#[trigger] radkfile_contents(text).1[k]).1,
            ),
{
    lemma_radk_lines_consistent(split_on(text, seq!['\n']));
}

/// The same holds of all RADKFILE files of an archive taken together.
pub proof fn lemma_kradzip_pairs_listed(files: Seq<ZipEntry>)
    ensures
        kradzip_contents(files) matches Some(c) ==> forall|k: int|
            0 <= k < c.1.len() ==> lists_radical(c.0, (#[trigger] c.1[k]).1),
    decreases files.len(),
{
    if files.len() > 0 {
        lemma_kradzip_pairs_listed(files.drop_last());
        match (kradzip_contents(files.drop_last()), files.last().0, files.last().1) {
            (Some(p), Some(name), Some(d)) => {
                if is_radkfile_name(name) {
                    let c = radkfile_contents(euc_jp_text(d));
                    lemma_radkfile_pairs_listed(euc_jp_text(d));
                    let ps = p.1 + c.1;
                    assert forall|k: int| 0 <= k < ps.len() implies lists_radical(
                        p.0 + c.0,
                        (#[trigger] ps[k]).1,
                    ) by {
                        if k < p.1.len() {
                            assert(ps[k] == p.1[k]);
                            lemma_lists_radical_append(p.0, c.0, p.1[k].1);
                        } else {
                            let k2 = k - p.1.len();
                            assert(ps[k] == c.1[k2]);
                            assert(lists_radical(c.0, c.1[k2].1));
                            let m = choose|m: int|
                                0 <= m < c.0.len() && (#[trigger] c.0[m]).0 == c.1[k2].1;
                            assert((p.0 + c.0)[p.0.len() + m] == c.0[m]);
                        }
                    }
                }
            },
            _ => {},
        }
    }
}

// ── Implementation ──────────────────────────────────────────────────────────

impl RadkfileSource {
    /// Parses RADKFILE text into radicals and kanji–radical pairs.
    pub fn parse(text: &str) -> (r: (Vec<Radical>, Vec<KanjiRadical>))
        ensures
            radical_views(r.0@) == radkfile_contents(text@).0,
            pair_views(r.1@) == radkfile_contents(text@).1,
    {
        let mut radicals: Vec<Radical> = Vec::new();
        let mut kanji_radicals: Vec<KanjiRadical> = Vec::new();
        let mut current: Option<Vec<char>> = None;
        let newline: Vec<char> = vec!['\n'];
        let lines = split_chars(&chars_of(text), &newline);
        proof {
            assert(newline@ =~= seq!['\n']);
        }
        let ghost ls = views(lines@);
        let mut i: usize = 0;
        while i < lines.len()
            invariant
                i <= lines@.len(),
                ls == views(lines@),
                ls == split_on(text@, seq!['\n']),
                radical_views(radicals@) == radk_lines(ls.take(i as int)).0,
                pair_views(kanji_radicals@) == radk_lines(ls.take(i as int)).1,
                match current {
                    Some(c) => radk_lines(ls.take(i as int)).2 == Some(c@),
                    None => radk_lines(ls.take(i as int)).2 is None,
                },
            decreases lines.len() - i,
        {
            let ghost st = radk_lines(ls.take(i as int));
            proof {
                assert(ls.take(i + 1).drop_last() =~= ls.take(i as int));
                assert(ls.take(i + 1).last() == lines@[i as int]@);
            }
            let t = trim_chars(&lines[i]);
            if t.len() == 0 || t[0] == '#' {
            } else if t[0] == '$' {
                let mut rest: Vec<char> = Vec::new();
                let mut j: usize = 1;
                while j < t.len()
                    invariant
                        1 <= j <= t@.len(),
                        rest@ =~= t@.subrange(1, j as int),
                    decreases t.len() - j,
                {
                    rest.push(t[j]);
                    j = j + 1;
                }
                assert(rest@ =~= t@.drop_first());
                let ws = split_words(&rest);
                if ws.len() > 0 {
                    let strokes: u32 = if ws.len() > 1 {
                        match parse_uint(&ws[1], 10, u32::MAX as u64) {
                            Some(v) => v as u32,
                            None => 0,
                        }
                    } else {
                        0
                    };
                    let ghost before = radicals@;
                    radicals.push(Radical { literal: string_of(&ws[0]), strokes });
                    proof {
                        assert(radical_views(radicals@) =~= radical_views(before).push(
                            (ws@[0]@, strokes),
                        ));
                    }
                    current = Some(ws[0].clone());
                }
            } else {
                match &current {
                    Some(r) => {
                        let ks = split_words(&t);
                        let ghost p0 = kanji_radicals@;
                        let ghost wv = views(ks@);
                        let mut k: usize = 0;
                        while k < ks.len()
                            invariant
                                k <= ks@.len(),
                                wv == views(ks@),
                                pair_views(kanji_radicals@) =~= pair_views(p0) + wv.take(
                                    k as int,
                                ).map_values(|w: Seq<char>| (w, r@)),
                            decreases ks.len() - k,
                        {
                            let ghost before = kanji_radicals@;
                            kanji_radicals.push(
                                KanjiRadical {
                                    kanji_literal: string_of(&ks[k]),
                                    radical_literal: string_of(r),
                                },
                            );
                            proof {
                                assert(wv.take(k + 1).map_values(|w: Seq<char>| (w, r@))
                                    =~= wv.take(k as int).map_values(|w: Seq<char>| (w, r@)).push(
                                    (ks@[k as int]@, r@),
                                ));
                                assert(pair_views(kanji_radicals@) =~= pair_views(before).push(
                                    (ks@[k as int]@, r@),
                                ));
                            }
                            k = k + 1;
                        }
                        proof {
                            assert(wv.take(wv.len() as int) =~= wv);
                        }
                    },
                    None => {},
                }
            }
            i = i + 1;
        }
        proof {
            assert(ls.take(ls.len() as int) =~= ls);
        }
        (radicals, kanji_radicals)
    }

    /// Whether the file with this lowercased name holds RADKFILE data.
    pub fn is_radkfile(lowered: &str) -> (r: bool)
        ensures
            r == is_radkfile_lowercase(lowered@),
    {
        let prefix = chars_of("radkfile");
        proof {
            reveal_strlit("radkfile");
        }
        let base = last_path_segment(&chars_of(lowered));
        starts_with(&base, &prefix)
    }

    /// Reads the radicals and kanji–radical pairs of every RADKFILE in the
    /// `kradzip.zip` archive held in `bytes`. It fails only when the zip
    /// crate cannot open the archive or read one of the files it reads; when
    /// that happens is the zip crate's to decide.
    pub fn parse_kradzip(bytes: Vec<u8>) -> (r: Result<(Vec<Radical>, Vec<KanjiRadical>), ArchiveError>)
        ensures
            match zip_listing(bytes@) {
                None => r is Err,
                Some(files) => match kradzip_contents(files) {
                    Some(c) => r matches Ok(p) && radical_views(p.0@) == c.0 && pair_views(p.1@)
                        == c.1,
                    None => r is Err,
                },
            },
            r matches Err(e) ==> e is Unreadable,
    {
        let ghost listing = zip_listing(bytes@);
        let mut archive = match zip_open(bytes) {
            Ok(a) => a,
            Err(e) => return Err(ArchiveError::Unreadable(e)),
        };
        let ghost files = zip_files(archive);
        let n = zip_len(&archive);
        let mut all_radicals: Vec<Radical> = Vec::new();
        let mut all_pairs: Vec<KanjiRadical> = Vec::new();
        let mut i: usize = 0;
        proof {
            assert(files.take(0) =~= Seq::<ZipEntry>::empty());
        }
        while i < n
            invariant
                i <= n,
                n == files.len(),
                listing == zip_listing(bytes@),
                listing == Some(files),
                zip_files(archive) == files,
                kradzip_contents(files.take(i as int)) matches Some(c) && radical_views(
                    all_radicals@,
                ) == c.0 && pair_views(all_pairs@) == c.1,
            decreases n - i,
        {
            proof {
                assert(files.take(i + 1).drop_last() =~= files.take(i as int));
                assert(files.take(i + 1).last() == files[i as int]);
            }
            let name = match zip_file_name(&mut archive, i) {
                Ok(nm) => nm,
                Err(e) => {
                    proof {
                        lemma_kradzip_contents_none(files, i + 1);
                    }
                    return Err(ArchiveError::Unreadable(e));
                },
            };
            let lower = to_lowercase(name.as_str());
            if Self::is_radkfile(lower.as_str()) {
                let raw = match zip_file_data(&mut archive, i) {
                    Ok(d) => d,
                    Err(e) => {
                        proof {
                            lemma_kradzip_contents_none(files, i + 1);
                        }
                        return Err(ArchiveError::Unreadable(e));
                    },
                };
                let decoded = decode_euc_jp(&raw);
                let (mut radicals, mut pairs) = Self::parse(decoded.as_str());
                let ghost r0 = all_radicals@;
                let ghost p0 = all_pairs@;
                let ghost rn = radicals@;
                let ghost pn = pairs@;
                all_radicals.append(&mut radicals);
                all_pairs.append(&mut pairs);
                proof {
                    assert(radical_views(all_radicals@) =~= radical_views(r0) + radical_views(rn));
                    assert(pair_views(all_pairs@) =~= pair_views(p0) + pair_views(pn));
                }
            }
            i = i + 1;
        }
        proof {
            assert(files.take(n as int) =~= files);
        }
        Ok((all_radicals, all_pairs))
    }
}

} // verus!
