//! Reading the Tatoeba download files: the bzip2-compressed tar archive of
//! the link list, and the bzip2-compressed sentence file of each language.
//! Files are read line by line as `BufRead::lines` reads them.
use vstd::prelude::*;

use super::source::{link_of, sentence_of, TatoebaLinks, TatoebaSource, direct_step, two_hop_step};
use crate::archive::utf8_text;
use crate::infrastructure::sqlite::repository::TatoebaTranslation;
use crate::text::{chars_of, find_chars, find_from};

verus! {

// ── Lines of a file ─────────────────────────────────────────────────────────

/// The position of the first `\n` in `b` at or after `from`, or -1.
pub open spec fn newline_from(b: Seq<u8>, from: int) -> int
    decreases b.len() - from,
{
    if from < 0 || from >= b.len() {
        -1
    } else if b[from] == 10u8 {
        from
    } else {
        newline_from(b, from + 1)
    }
}

/// A newline found from `from` lies at or after `from`.
pub proof fn lemma_newline_from(b: Seq<u8>, from: int)
    ensures
        newline_from(b, from) == -1 || (from <= newline_from(b, from) < b.len() && b[newline_from(
            b,
            from,
        )] == 10u8),
    decreases b.len() - from,
{
    if 0 <= from < b.len() && b[from] != 10u8 {
        lemma_newline_from(b, from + 1);
    }
}

/// The line starting at `from`, without its ending: a `\n` ends it, and a
/// `\r` just before that `\n` is dropped too; the last line may lack the `\n`.
pub open spec fn line_at(b: Seq<u8>, from: int) -> Seq<u8> {
    let e = newline_from(b, from);
    if e < 0 {
        b.subrange(from, b.len() as int)
    } else if e > from && b[e - 1] == 13u8 {
        b.subrange(from, e - 1)
    } else {
        b.subrange(from, e)
    }
}

/// Where the line after the one starting at `from` starts.
pub open spec fn next_line(b: Seq<u8>, from: int) -> int {
    let e = newline_from(b, from);
    if e < 0 {
        b.len() as int
    } else {
        e + 1
    }
}

/// The links on the lines of a link file from `from` on. A line that is not
/// UTF-8 ends the reading; a line that holds no link is skipped.
pub open spec fn links_from(b: Seq<u8>, from: int) -> Seq<(u64, u64)>
    decreases b.len() - from,
{
    if from < 0 || from >= b.len() {
        Seq::empty()
    } else if !vstd::utf8::valid_utf8(line_at(b, from)) {
        Seq::empty()
    } else {
        proof {
            lemma_newline_from(b, from);
        }
        let here = match link_of(vstd::utf8::decode_utf8(line_at(b, from))) {
            Some(l) => seq![l],
            None => Seq::empty(),
        };
        here + links_from(b, next_line(b, from))
    }
}

/// The `(example, text)` of each sentence line from `from` on whose sentence
/// is in `reached`, or `None` when some line is not UTF-8.
pub open spec fn found_translations(b: Seq<u8>, from: int, reached: Map<u64, i64>) -> Option<
    Seq<(i64, Seq<char>)>,
>
    decreases b.len() - from,
{
    if from < 0 || from >= b.len() {
        Some(Seq::empty())
    } else if !vstd::utf8::valid_utf8(line_at(b, from)) {
        None
    } else {
        proof {
            lemma_newline_from(b, from);
        }
        let here = match sentence_of(vstd::utf8::decode_utf8(line_at(b, from))) {
            Some((id, text)) => if reached.contains_key(id) {
                seq![(reached[id], text)]
            } else {
                Seq::empty()
            },
            None => Seq::empty(),
        };
        match found_translations(b, next_line(b, from), reached) {
            Some(rest) => Some(here + rest),
            None => None,
        }
    }
}

/// Finds the end of the line starting at `from` and copies the line.
fn read_line(b: &Vec<u8>, from: usize) -> (r: (Vec<u8>, usize))
    requires
        from < b@.len(),
    ensures
        r.0@ == line_at(b@, from as int),
        r.1 as int == next_line(b@, from as int),
{
    let n = b.len();
    let mut e = from;
    while e < n && b[e] != 10u8
        invariant
            from <= e <= n,
            n == b@.len(),
            newline_from(b@, from as int) == newline_from(b@, e as int),
        decreases n - e,
    {
        e = e + 1;
    }
    let end = if e < n && e > from && b[e - 1] == 13u8 {
        e - 1
    } else {
        e
    };
    let mut line: Vec<u8> = Vec::new();
    let mut k = from;
    while k < end
        invariant
            from <= k <= end <= n,
            n == b@.len(),
            line@ =~= b@.subrange(from as int, k as int),
        decreases end - k,
    {
        line.push(b[k]);
        k = k + 1;
    }
    let next = if e < n {
        e + 1
    } else {
        n
    };
    (line, next)
}

// ── The link list archive ───────────────────────────────────────────────────

/// The entries of the tar archive held in `bytes`, in order: each entry's
/// path (decoded lossily) and contents, as `tar::Archive::entries` reads
/// them; `None` when some entry cannot be read.
pub uninterp spec fn tar_listing(bytes: Seq<u8>) -> Option<Seq<(Seq<char>, Seq<u8>)>>;

/// The `(path, contents)` view of archive entries.
pub open spec fn file_views(v: Seq<(String, Vec<u8>)>) -> Seq<(Seq<char>, Seq<u8>)> {
    v.map_values(|f: (String, Vec<u8>)| (f.0@, f.1@))
}

/// Reads every entry of a tar archive held in memory (`tar::Archive::entries`,
/// each entry's `path` through `to_string_lossy` and its contents with
/// `read_to_end`). Reading from memory fails only on the data, so the outcome
/// is what `tar_listing` names.
#[verifier::external_body]
fn read_tar(bytes: &Vec<u8>) -> (r: Result<Vec<(String, Vec<u8>)>, std::io::Error>)
    ensures
        r is Ok == tar_listing(bytes@) is Some,
        r matches Ok(v) ==> tar_listing(bytes@) == Some(file_views(v@)),
{
    let mut archive = tar::Archive::new(bytes.as_slice());
    let mut files: Vec<(String, Vec<u8>)> = Vec::new();
    for entry in archive.entries()? {
        let mut entry = entry?;
        let path = entry.path()?.to_string_lossy().into_owned();
        let mut data: Vec<u8> = Vec::new();
        std::io::Read::read_to_end(&mut entry, &mut data)?;
        files.push((path, data));
    }
    Ok(files)
}

/// The position of the first entry from `k` on whose path contains `links`,
/// or -1.
pub open spec fn links_entry_from(files: Seq<(Seq<char>, Seq<u8>)>, k: int) -> int
    decreases files.len() - k,
{
    if k < 0 || k >= files.len() {
        -1
    } else if find_from(files[k].0, "links"@, 0) >= 0 {
        k
    } else {
        links_entry_from(files, k + 1)
    }
}

/// The links of an archive's listing: those of the first entry whose path
/// contains `links`, none when there is no such entry.
pub open spec fn listing_links(files: Seq<(Seq<char>, Seq<u8>)>) -> Seq<(u64, u64)> {
    let i = links_entry_from(files, 0);
    if i < 0 {
        Seq::empty()
    } else {
        links_from(files[i].1, 0)
    }
}

/// The directly reached sentences after the links `links`, starting from `m`.
pub open spec fn direct_after(m: Map<u64, i64>, known: Seq<(String, i64)>, links: Seq<(u64, u64)>) -> Map<
    u64,
    i64,
>
    decreases links.len(),
{
    if links.len() == 0 {
        m
    } else {
        direct_step(direct_after(m, known, links.drop_last()), known, links.last())
    }
}

/// The sentences reached in the second pass after the links `links`,
/// starting from `m`, with `hop1` reached directly.
pub open spec fn two_hop_after(
    m: Map<u64, i64>,
    hop1: Map<u64, i64>,
    known: Seq<(String, i64)>,
    links: Seq<(u64, u64)>,
) -> Map<u64, i64>
    decreases links.len(),
{
    if links.len() == 0 {
        m
    } else {
        two_hop_step(two_hop_after(m, hop1, known, links.drop_last()), hop1, known, links.last())
    }
}

/// Starting from nothing, the directly reached sentences are `direct_links`.
pub proof fn lemma_direct_after_empty(known: Seq<(String, i64)>, links: Seq<(u64, u64)>)
    ensures
        direct_after(Map::empty(), known, links) == super::source::direct_links(known, links),
    decreases links.len(),
{
    if links.len() > 0 {
        lemma_direct_after_empty(known, links.drop_last());
    }
}

/// Starting from the directly reached sentences, the second pass gives
/// `two_hop_links`.
pub proof fn lemma_two_hop_after_start(
    hop1: Map<u64, i64>,
    known: Seq<(String, i64)>,
    links: Seq<(u64, u64)>,
)
    ensures
        two_hop_after(hop1, hop1, known, links) == super::source::two_hop_links(hop1, known, links),
    decreases links.len(),
{
    if links.len() > 0 {
        lemma_two_hop_after_start(hop1, known, links.drop_last());
    }
}

// ── Sentence files ──────────────────────────────────────────────────────────

/// The bytes that bzip2-compressed `bytes` decompress to (reading a
/// `bzip2::read::BzDecoder` over them to the end), or `None` when they are
/// not valid bzip2 data.
pub uninterp spec fn bunzip2(bytes: Seq<u8>) -> Option<Seq<u8>>;

/// Decompresses bzip2 data held in memory (`bzip2::read::BzDecoder`, read to
/// the end). Reading from memory fails only on the data, so the outcome is
/// what `bunzip2` names.
#[verifier::external_body]
fn bunzip2_bytes(bytes: &Vec<u8>) -> (r: Result<Vec<u8>, std::io::Error>)
    ensures
        r is Ok == bunzip2(bytes@) is Some,
        r matches Ok(d) ==> bunzip2(bytes@) == Some(d@),
{
    let mut out: Vec<u8> = Vec::new();
    std::io::Read::read_to_end(&mut bzip2::read::BzDecoder::new(bytes.as_slice()), &mut out)?;
    Ok(out)
}

/// The `(example, text)` view of translations.
pub open spec fn translation_views(v: Seq<TatoebaTranslation>) -> Seq<(i64, Seq<char>)> {
    v.map_values(|t: TatoebaTranslation| (t.example_id, t.text@))
}

impl TatoebaSource {
    /// Reads the entries of the link list archive `links.tar.bz2`: the tar
    /// archive that the bzip2 data `bytes` decompress to; `None` when they do
    /// not decompress or an entry cannot be read.
    pub fn link_files(bytes: &Vec<u8>) -> (r: Option<Vec<(String, Vec<u8>)>>)
        ensures
            match bunzip2(bytes@) {
                None => r is None,
                Some(data) => match tar_listing(data) {
                    None => r is None,
                    Some(files) => r matches Some(v) && file_views(v@) == files,
                },
            },
    {
        match bunzip2_bytes(bytes) {
            Ok(data) => match read_tar(&data) {
                Ok(v) => Some(v),
                Err(_) => None,
            },
            Err(_) => None,
        }
    }
}

impl TatoebaLinks {
    /// Takes into account, for the first pass or the second, every link of
    /// the link list archive whose entries are `files`.
    pub fn observe_links(&mut self, files: &Vec<(String, Vec<u8>)>, second_pass: bool)
        requires
            old(self).wf(),
        ensures
            final(self).wf(),
            final(self).known() == old(self).known(),
            !second_pass ==> final(self).direct() == direct_after(
                old(self).direct(),
                old(self).known(),
                listing_links(file_views(files@)),
            ) && final(self).reached() == old(self).reached(),
            second_pass ==> final(self).reached() == two_hop_after(
                old(self).reached(),
                old(self).direct(),
                old(self).known(),
                listing_links(file_views(files@)),
            ) && final(self).direct() == old(self).direct(),
    {
        let ghost fv = file_views(files@);
        let word = chars_of("links");
        proof {
            reveal_strlit("links");
        }
        let mut k: usize = 0;
        let mut found: Option<usize> = None;
        while found.is_none() && k < files.len()
            invariant
                k <= files@.len(),
                fv == file_views(files@),
                word@ == "links"@,
                found is None ==> links_entry_from(fv, 0) == links_entry_from(fv, k as int),
                found matches Some(i) ==> links_entry_from(fv, 0) == i && i < files@.len(),
            decreases files.len() - k, (if found is None { 1int } else { 0int }),
        {
            assert(fv[k as int].0 == files@[k as int].0@);
            if find_chars(&chars_of(files[k].0.as_str()), &word, 0).is_some() {
                found = Some(k);
            } else {
                k = k + 1;
            }
        }
        let i = match found {
            None => {
                assert(listing_links(fv) == Seq::<(u64, u64)>::empty());
                return;
            },
            Some(i) => i,
        };
        let data = &files[i].1;
        let ghost b = data@;
        let ghost d0 = self.direct();
        let ghost r0 = self.reached();
        let ghost known = self.known();
        let ghost mut done: Seq<(u64, u64)> = Seq::empty();
        let n = data.len();
        let mut pos: usize = 0;
        while pos < n
            invariant
                pos <= n,
                n == b.len(),
                b == data@,
                self.wf(),
                self.known() == known,
                done + links_from(b, pos as int) == links_from(b, 0),
                !second_pass ==> self.direct() == direct_after(d0, known, done)
                    && self.reached() == r0,
                second_pass ==> self.reached() == two_hop_after(r0, d0, known, done)
                    && self.direct() == d0,
            decreases n - pos,
        {
            proof {
                lemma_newline_from(b, pos as int);
            }
            let (line, next) = read_line(data, pos);
            match utf8_text(line) {
                None => {
                    assert(links_from(b, pos as int) == Seq::<(u64, u64)>::empty());
                    assert(done + Seq::<(u64, u64)>::empty() =~= done);
                    pos = n;
                },
                Some(text) => {
                    let ghost rest = links_from(b, next as int);
                    match TatoebaSource::parse_link(text.as_str()) {
                        Some((src, tgt)) => {
                            assert(links_from(b, pos as int) == seq![(src, tgt)] + rest);
                            if second_pass {
                                self.observe_second(src, tgt);
                            } else {
                                self.observe_direct(src, tgt);
                            }
                            proof {
                                assert(done.push((src, tgt)).drop_last() =~= done);
                                assert(done.push((src, tgt)) + rest =~= done + (seq![(src, tgt)]
                                    + rest));
                                done = done.push((src, tgt));
                            }
                        },
                        None => {
                            assert(links_from(b, pos as int) =~= rest);
                        },
                    }
                    pos = next;
                },
            }
        }
        proof {
            assert(done + Seq::<(u64, u64)>::empty() =~= done);
        }
    }

    /// The translations in the sentence file `data` of language `lang`: one
    /// for each line whose sentence was reached, in file order; `None` when
    /// some line is not UTF-8.
    pub fn translations_in(&self, data: &Vec<u8>, lang: &String) -> (r: Option<Vec<TatoebaTranslation>>)
        ensures
            match found_translations(data@, 0, self.reached()) {
                Some(ts) => r matches Some(v) && translation_views(v@) == ts && forall|i: int|
                    0 <= i < v@.len() ==> (#[trigger] v@[i]).lang == *lang,
                None => r is None,
            },
    {
        let ghost b = data@;
        let ghost reached = self.reached();
        let n = data.len();
        let mut out: Vec<TatoebaTranslation> = Vec::new();
        let mut pos: usize = 0;
        while pos < n
            invariant
                pos <= n,
                n == b.len(),
                b == data@,
                reached == self.reached(),
                forall|i: int| 0 <= i < out@.len() ==> (#[trigger] out@[i]).lang == *lang,
                found_translations(b, 0, reached) == match found_translations(b, pos as int, reached) {
                    Some(rest) => Some(translation_views(out@) + rest),
                    None => None::<Seq<(i64, Seq<char>)>>,
                },
            decreases n - pos,
        {
            proof {
                lemma_newline_from(b, pos as int);
            }
            let (line, next) = read_line(data, pos);
            match utf8_text(line) {
                None => {
                    return None;
                },
                Some(text) => {
                    let ghost before = out@;
                    match self.translation(text.as_str(), lang) {
                        Some(t) => {
                            out.push(t);
                            proof {
                                assert(translation_views(out@) =~= translation_views(before).push(
                                    (t.example_id, t.text@),
                                ));
                                match found_translations(b, next as int, reached) {
                                    Some(rest) => {
                                        assert(translation_views(before) + (seq![
                                            (t.example_id, t.text@),
                                        ] + rest) =~= translation_views(out@) + rest);
                                    },
                                    None => {},
                                }
                            }
                        },
                        None => {
                            proof {
                                match found_translations(b, next as int, reached) {
                                    Some(rest) => {
                                        assert(Seq::<(i64, Seq<char>)>::empty() + rest =~= rest);
                                    },
                                    None => {},
                                }
                            }
                        },
                    }
                    pos = next;
                },
            }
        }
        proof {
            assert(translation_views(out@) + Seq::<(i64, Seq<char>)>::empty() =~= translation_views(
                out@,
            ));
        }
        Some(out)
    }

    /// The translations in the bzip2-compressed sentence file `bytes` of
    /// language `lang`; `None` when it does not decompress or a line is not
    /// UTF-8.
    pub fn translations_of(&self, bytes: &Vec<u8>, lang: &String) -> (r: Option<Vec<TatoebaTranslation>>)
        ensures
            match bunzip2(bytes@) {
                Some(data) => match found_translations(data, 0, self.reached()) {
                    Some(ts) => r matches Some(v) && translation_views(v@) == ts && forall|i: int|
                        0 <= i < v@.len() ==> (#[trigger] v@[i]).lang == *lang,
                    None => r is None,
                },
                None => r is None,
            },
    {
        match bunzip2_bytes(bytes) {
            Ok(data) => self.translations_in(&data, lang),
            Err(_) => None,
        }
    }
}

} // verus!
