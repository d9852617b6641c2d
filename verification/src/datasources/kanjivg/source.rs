//! KanjiVG stroke-order images: one SVG file per character, named after the
//! character's code point in five hexadecimal digits (`098df.svg` is 食).
use vstd::prelude::*;

use crate::archive::{
    char_from_u32, last_path_segment, last_segment, utf8_text, zip_file_data, zip_file_name,
    zip_files, zip_len, zip_listing, zip_open, ArchiveError, ZipEntry,
};
use crate::text::{
    chars_of, ends_with, has_suffix, parse_uint, parse_unsigned, string_of, utf8_len,
    utf8_len_at_least,
};

verus! {

/// The stroke-order image of one character.
pub struct KanjiSvg {
    pub literal: String,
    pub svg: String,
}

/// Reads KanjiVG release archives.
pub struct KanjiVgSource;

// ── Specification ───────────────────────────────────────────────────────────

/// The code point of the character an archive file name stands for: the
/// file (after its last `/`) must end in `.svg` and be at least 9 bytes long
/// in UTF-8, and its first five characters must be the hexadecimal code point
/// of a character.
pub open spec fn svg_code_point(name: Seq<char>) -> Option<u32> {
    let stem = last_segment(name);
    if !has_suffix(stem, ".svg"@) || utf8_len(stem) < 9 {
        None
    } else {
        match parse_unsigned(stem.take(5), 16, u32::MAX as nat) {
            Some(v) => if v <= 0x10ffff && !(0xd800 <= v <= 0xdfff) {
                Some(v as u32)
            } else {
                None
            },
            None => None,
        }
    }
}

/// Reading the files of an archive in order: the `(code point, SVG text)` of
/// every file that stands for a character, or the first failure: `Err(true)`
/// when a file's name, or the contents of a file that stands for a
/// character, cannot be read; `Err(false)` when such contents are not UTF-8.
pub open spec fn svg_scan(files: Seq<ZipEntry>) -> Result<Seq<(u32, Seq<char>)>, bool>
    decreases files.len(),
{
    if files.len() == 0 {
        Ok(Seq::empty())
    } else {
        match svg_scan(files.drop_last()) {
            Err(e) => Err(e),
            Ok(rest) => match files.last().0 {
                None => Err(true),
                Some(name) => match svg_code_point(name) {
                    None => Ok(rest),
                    Some(c) => match files.last().1 {
                        None => Err(true),
                        Some(d) => if vstd::utf8::valid_utf8(d) {
                            Ok(rest.push((c, vstd::utf8::decode_utf8(d))))
                        } else {
                            Err(false)
                        },
                    },
                },
            },
        }
    }
}

/// Once reading a prefix of the files fails, reading all of them fails the
/// same way.
pub proof fn lemma_svg_scan_err(files: Seq<ZipEntry>, k: int)
    requires
        0 <= k <= files.len(),
        svg_scan(files.take(k)) is Err,
    ensures
        svg_scan(files) == svg_scan(files.take(k)),
    decreases files.len() - k,
{
    if k < files.len() {
        assert(files.take(k + 1).drop_last() =~= files.take(k));
        lemma_svg_scan_err(files, k + 1);
    } else {
        assert(files.take(k) =~= files);
    }
}

/// Whether `s` is the one-character text of code point `cp`.
pub open spec fn is_char_text(s: Seq<char>, cp: u32) -> bool {
    s.len() == 1 && s[0] as u32 == cp
}

/// The images `v` are the `(code point, SVG text)` pairs `files`.
pub open spec fn svgs_match(v: Seq<KanjiSvg>, files: Seq<(u32, Seq<char>)>) -> bool {
    &&& v.len() == files.len()
    &&& forall|i: int|
        0 <= i < v.len() ==> is_char_text(#[trigger] v[i].literal@, files[i].0) && v[i].svg@
            == files[i].1
}

/// Once a prefix holds the main archive, longer prefixes hold it at the same
/// place.
pub proof fn lemma_main_archive_prefix(us: Seq<Seq<char>>, k: int)
    requires
        0 <= k <= us.len(),
        main_archive_index(us.take(k)) >= 0,
    ensures
        main_archive_index(us) == main_archive_index(us.take(k)),
    decreases us.len() - k,
{
    if k < us.len() {
        assert(us.take(k + 1).drop_last() =~= us.take(k));
        lemma_main_archive_prefix(us, k + 1);
    } else {
        assert(us.take(k) =~= us);
    }
}

// ── Implementation ──────────────────────────────────────────────────────────

/// The first of `urls` that ends in `-main.zip` (the archive of the
/// non-variant images).
pub open spec fn main_archive_index(urls: Seq<Seq<char>>) -> int
    decreases urls.len(),
{
    if urls.len() == 0 {
        -1
    } else if main_archive_index(urls.drop_last()) >= 0 {
        main_archive_index(urls.drop_last())
    } else if has_suffix(urls.last(), "-main.zip"@) {
        urls.len() - 1
    } else {
        -1
    }
}

impl KanjiVgSource {
    /// Picks the download address of the main archive among a release's
    /// asset addresses.
    pub fn main_archive_url(urls: &Vec<String>) -> (r: Option<String>)
        ensures
            main_archive_index(urls@.map_values(|u: String| u@)) < 0 ==> r is None,
            main_archive_index(urls@.map_values(|u: String| u@)) >= 0 ==> r == Some(
                urls@[main_archive_index(urls@.map_values(|u: String| u@))],
            ),
    {
        let ghost us = urls@.map_values(|u: String| u@);
        let suffix = chars_of("-main.zip");
        let mut i: usize = 0;
        while i < urls.len()
            invariant
                i <= urls@.len(),
                us == urls@.map_values(|u: String| u@),
                suffix@ == "-main.zip"@,
                main_archive_index(us.take(i as int)) < 0,
            decreases urls.len() - i,
        {
            proof {
                assert(us.take(i + 1).drop_last() =~= us.take(i as int));
                assert(us.take(i + 1).last() == urls@[i as int]@);
            }
            if ends_with(&chars_of(urls[i].as_str()), &suffix) {
                proof {
                    lemma_main_archive_prefix(us, i as int + 1);
                }
                return Some(urls[i].clone());
            }
            i = i + 1;
        }
        proof {
            assert(us.take(us.len() as int) =~= us);
        }
        None
    }

    /// The character a file name stands for.
    pub fn literal_of(name: &str) -> (r: Option<String>)
        ensures
            match svg_code_point(name@) {
                Some(c) => r matches Some(s) && is_char_text(s@, c),
                None => r is None,
            },
    {
        let stem = last_path_segment(&chars_of(name));
        let suffix = chars_of(".svg");
        if !ends_with(&stem, &suffix) {
            return None;
        }
        if !utf8_len_at_least(&stem, 9) {
            return None;
        }
        proof {
            reveal_strlit(".svg");
            if stem@.len() < 5 {
                assert(stem@ =~= stem@.skip(stem@.len() - 4));
                assert(stem@ =~= ".svg"@);
                reveal_with_fuel(utf8_len, 5);
                assert(utf8_len(".svg"@) == 4);
            }
        }
        let mut hex: Vec<char> = Vec::new();
        let mut i: usize = 0;
        while i < 5
            invariant
                i <= 5 <= stem@.len(),
                hex@ =~= stem@.take(i as int),
            decreases 5 - i,
        {
            hex.push(stem[i]);
            i = i + 1;
        }
        match parse_uint(&hex, 16, u32::MAX as u64) {
            None => None,
            Some(v) => match char_from_u32(v as u32) {
                Some(c) => {
                    let mut one: Vec<char> = Vec::new();
                    one.push(c);
                    Some(string_of(&one))
                },
                None => None,
            },
        }
    }

    /// Extracts the stroke-order images from a KanjiVG release archive.
    pub fn parse_zip(bytes: Vec<u8>) -> (r: Result<Vec<KanjiSvg>, ArchiveError>)
        ensures
            match zip_listing(bytes@) {
                None => r matches Err(ArchiveError::Unreadable(_)),
                Some(files) => match svg_scan(files) {
                    Ok(v) => r matches Ok(svgs) && svgs_match(svgs@, v),
                    Err(unreadable) => if unreadable {
                        r matches Err(ArchiveError::Unreadable(_))
                    } else {
                        r matches Err(ArchiveError::NotText)
                    },
                },
            },
    {
        let ghost listing = zip_listing(bytes@);
        let mut archive = match zip_open(bytes) {
            Ok(a) => a,
            Err(e) => return Err(ArchiveError::Unreadable(e)),
        };
        let ghost files = zip_files(archive);
        let n = zip_len(&archive);
        let mut results: Vec<KanjiSvg> = Vec::new();
        let mut i: usize = 0;
        proof {
            assert(files.take(0) =~= Seq::<ZipEntry>::empty());
        }
        while i < n
            invariant
                i <= n,
                n == files.len(),
                listing == zip_listing(bytes@),
                listing == Some(files),
                zip_files(archive) == files,
                svg_scan(files.take(i as int)) matches Ok(v) && svgs_match(results@, v),
            decreases n - i,
        {
            proof {
                assert(files.take(i + 1).drop_last() =~= files.take(i as int));
                assert(files.take(i + 1).last() == files[i as int]);
            }
            let name = match zip_file_name(&mut archive, i) {
                Ok(nm) => nm,
                Err(e) => {
                    proof {
                        lemma_svg_scan_err(files, i + 1);
                    }
                    return Err(ArchiveError::Unreadable(e));
                },
            };
            match Self::literal_of(name.as_str()) {
                None => {},
                Some(literal) => {
                    let data = match zip_file_data(&mut archive, i) {
                        Ok(d) => d,
                        Err(e) => {
                            proof {
                                lemma_svg_scan_err(files, i + 1);
                            }
                            return Err(ArchiveError::Unreadable(e));
                        },
                    };
                    let svg = match utf8_text(data) {
                        Some(t) => t,
                        None => {
                            proof {
                                lemma_svg_scan_err(files, i + 1);
                            }
                            return Err(ArchiveError::NotText);
                        },
                    };
                    results.push(KanjiSvg { literal, svg });
                },
            }
            i = i + 1;
        }
        proof {
            assert(files.take(n as int) =~= files);
        }
        Ok(results)
    }
}

} // verus!
