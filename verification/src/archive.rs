//! Reading ZIP archives held in memory, and decoding the bytes of their files.
use vstd::prelude::*;

use std::io::Cursor;
use zip::result::ZipError;
use zip::ZipArchive;

verus! {

#[verifier::external_type_specification]
#[verifier::external_body]
#[verifier::reject_recursive_types(T)]
pub struct ExCursor<T>(Cursor<T>);

#[verifier::external_type_specification]
#[verifier::external_body]
#[verifier::reject_recursive_types(R)]
pub struct ExZipArchive<R>(ZipArchive<R>);

#[verifier::external_type_specification]
#[verifier::external_body]
pub struct ExZipError(ZipError);

/// An opened archive over bytes in memory.
pub type MemoryArchive = ZipArchive<Cursor<Vec<u8>>>;

/// One file of an archive: its name and its decompressed contents, each
/// `None` when the zip crate cannot read it.
pub type ZipEntry = (Option<Seq<char>>, Option<Seq<u8>>);

/// The files of the archive that `bytes` hold, in index order, or `None`
/// when `zip::ZipArchive::new` cannot open them as an archive.
pub uninterp spec fn zip_listing(bytes: Seq<u8>) -> Option<Seq<ZipEntry>>;

/// The files an opened archive holds, in index order.
pub uninterp spec fn zip_files(archive: ZipArchive<Cursor<Vec<u8>>>) -> Seq<ZipEntry>;

/// Opens the archive held in `bytes` (`zip::ZipArchive::new` over a
/// `Cursor`): it opens exactly when `zip_listing` names files for these bytes,
/// and then holds those files.
#[verifier::external_body]
pub fn zip_open(bytes: Vec<u8>) -> (r: Result<MemoryArchive, ZipError>)
    ensures
        r is Ok == zip_listing(bytes@) is Some,
        r matches Ok(a) ==> zip_listing(bytes@) == Some(zip_files(a)),
{
    ZipArchive::new(Cursor::new(bytes))
}

/// The number of files in the archive (`ZipArchive::len`).
#[verifier::external_body]
pub fn zip_len(a: &MemoryArchive) -> (n: usize)
    ensures
        n == zip_files(*a).len(),
{
    a.len()
}

/// The name of file `i` (`ZipArchive::by_index`, then `ZipFile::name`): it
/// fails exactly when the file's name cannot be read. Reading does not change
/// what the archive holds.
#[verifier::external_body]
pub fn zip_file_name(a: &mut MemoryArchive, i: usize) -> (r: Result<String, ZipError>)
    requires
        i < zip_files(*old(a)).len(),
    ensures
        zip_files(*final(a)) == zip_files(*old(a)),
        r is Ok == zip_files(*old(a))[i as int].0 is Some,
        r matches Ok(n) ==> zip_files(*old(a))[i as int].0 == Some(n@),
{
    let file = a.by_index(i)?;
    Ok(file.name().to_string())
}

/// The decompressed contents of file `i` (`ZipArchive::by_index`, then
/// `Read::read_to_end` on the file): it fails exactly when the contents
/// cannot be read. Reading does not change what the archive holds.
#[verifier::external_body]
pub fn zip_file_data(a: &mut MemoryArchive, i: usize) -> (r: Result<Vec<u8>, ZipError>)
    requires
        i < zip_files(*old(a)).len(),
    ensures
        zip_files(*final(a)) == zip_files(*old(a)),
        r is Ok == zip_files(*old(a))[i as int].1 is Some,
        r matches Ok(d) ==> zip_files(*old(a))[i as int].1 == Some(d@),
{
    let mut file = a.by_index(i)?;
    let mut data: Vec<u8> = Vec::new();
    std::io::Read::read_to_end(&mut file, &mut data)?;
    Ok(data)
}

/// The text that `encoding_rs::EUC_JP.decode` gives for `bytes` (malformed
/// sequences replaced, a byte order mark honoured).
pub uninterp spec fn euc_jp_text(bytes: Seq<u8>) -> Seq<char>;

/// Decodes EUC-JP bytes (`encoding_rs::EUC_JP.decode`).
#[verifier::external_body]
pub fn decode_euc_jp(bytes: &Vec<u8>) -> (r: String)
    ensures
        r@ == euc_jp_text(bytes@),
{
    encoding_rs::EUC_JP.decode(bytes.as_slice()).0.into_owned()
}

/// The text of UTF-8 bytes (`String::from_utf8`): `None` exactly when the
/// bytes are not valid UTF-8.
#[verifier::external_body]
pub fn utf8_text(bytes: Vec<u8>) -> (r: Option<String>)
    ensures
        r is Some == vstd::utf8::valid_utf8(bytes@),
        r matches Some(s) ==> s@ == vstd::utf8::decode_utf8(bytes@),
{
    String::from_utf8(bytes).ok()
}

/// The lowercase form of `s` as `str::to_lowercase` gives it.
pub uninterp spec fn lowercase(s: Seq<char>) -> Seq<char>;

/// Lowercases a string (`str::to_lowercase`).
#[verifier::external_body]
pub fn to_lowercase(s: &str) -> (r: String)
    ensures
        r@ == lowercase(s@),
{
    s.to_lowercase()
}

#[verifier::external_type_specification]
#[verifier::external_body]
pub struct ExIoError(std::io::Error);

/// The bytes that gzip-compressed `bytes` decompress to (reading a
/// `flate2::read::GzDecoder` over them to the end), or `None` when they are
/// not a valid gzip stream.
pub uninterp spec fn gunzip(bytes: Seq<u8>) -> Option<Seq<u8>>;

/// Decompresses gzip data held in memory (`flate2::read::GzDecoder`, read to
/// the end with `Read::read_to_end`). Reading from memory cannot fail for any
/// other reason than the data, so the outcome is what `gunzip` names.
#[verifier::external_body]
fn gunzip_bytes(bytes: &Vec<u8>) -> (r: Result<Vec<u8>, std::io::Error>)
    ensures
        r is Ok == gunzip(bytes@) is Some,
        r matches Ok(d) ==> gunzip(bytes@) == Some(d@),
{
    let mut out: Vec<u8> = Vec::new();
    std::io::Read::read_to_end(&mut flate2::read::GzDecoder::new(bytes.as_slice()), &mut out)?;
    Ok(out)
}

/// The text of a gzip-compressed UTF-8 file: `None` when the data does not
/// decompress or is not UTF-8.
pub fn gzip_text(bytes: &Vec<u8>) -> (r: Option<String>)
    ensures
        r is Some == (gunzip(bytes@) matches Some(d) && vstd::utf8::valid_utf8(d)),
        r matches Some(t) ==> gunzip(bytes@) matches Some(d) && t@ == vstd::utf8::decode_utf8(d),
{
    match gunzip_bytes(bytes) {
        Ok(d) => utf8_text(d),
        Err(_) => None,
    }
}

/// Why the files of an archive could not be read.
#[derive(Debug)]
pub enum ArchiveError {
    /// The archive, or one of its files, could not be read.
    Unreadable(ZipError),
    /// A file that is read as text is not valid UTF-8.
    NotText,
}

/// The character with code point `v`, if there is one (`char::from_u32`):
/// every value up to U+10FFFF except the surrogates U+D800–U+DFFF.
#[verifier::external_body]
pub fn char_from_u32(v: u32) -> (r: Option<char>)
    ensures
        r is Some == (v <= 0x10ffff && !(0xd800 <= v <= 0xdfff)),
        r matches Some(c) ==> c as u32 == v,
{
    char::from_u32(v)
}

/// The part of a path after its last `/` (the whole path if it has none).
pub open spec fn last_segment(name: Seq<char>) -> Seq<char>
    decreases name.len(),
{
    if name.len() == 0 {
        name
    } else if name.last() == '/' {
        Seq::empty()
    } else {
        last_segment(name.drop_last()).push(name.last())
    }
}

/// The part of a path after its last `/`.
pub fn last_path_segment(name: &Vec<char>) -> (r: Vec<char>)
    ensures
        r@ == last_segment(name@),
{
    let mut r: Vec<char> = Vec::new();
    let mut i: usize = 0;
    while i < name.len()
        invariant
            i <= name@.len(),
            r@ == last_segment(name@.take(i as int)),
        decreases name.len() - i,
    {
        assert(name@.take(i + 1).drop_last() =~= name@.take(i as int));
        if name[i] == '/' {
            r = Vec::new();
            assert(r@ =~= Seq::<char>::empty());
        } else {
            r.push(name[i]);
        }
        i = i + 1;
    }
    assert(name@.take(name@.len() as int) =~= name@);
    r
}

} // verus!
