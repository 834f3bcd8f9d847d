//! Reading ZIP archives held in memory, through the `zip` crate.
use vstd::prelude::*;
use std::io::Cursor;
use zip::result::ZipError;
use zip::ZipArchive;
use crate::archive::{analyze_zip_entries, zip_info_spec, zip_info_view};
use crate::model::ZipInfo;
use crate::text::opt_views;

verus! {

#[verifier::external_type_specification]
#[verifier::external_body]
#[verifier::reject_recursive_types(T)]
pub struct ExCursor<T>(Cursor<T>);

#[verifier::external_type_specification]
#[verifier::external_body]
#[verifier::reject_recursive_types(R)]
pub struct ExZipArchive<R>(ZipArchive<R>);

#[verifier::external_type_specification]
#[verifier::external_body]
pub struct ExZipError(ZipError);

#[verifier::external_type_specification]
#[verifier::external_body]
pub struct ExIoError(std::io::Error);

/// The entries of an archive `ZipArchive::new` reads from these bytes, in
/// archive order: each entry's name, or `None` where `by_index` fails for it;
/// `None` when the bytes are not a readable archive.
pub uninterp spec fn zip_listing(data: Seq<u8>) -> Option<Seq<Option<Seq<char>>>>;

/// The entries of an opened archive, as `zip_listing` describes them.
pub uninterp spec fn archive_entries(a: ZipArchive<Cursor<Vec<u8>>>) -> Seq<Option<Seq<char>>>;

/// `zip::ZipArchive::new` over a cursor on the bytes: it succeeds exactly
/// when the bytes are a readable archive, and the archive then holds the
/// entries that `zip_listing` names.
#[verifier::external_body]
fn open_zip(data: Vec<u8>) -> (r: Result<ZipArchive<Cursor<Vec<u8>>>, ZipError>)
    ensures
        match r {
            Ok(a) => zip_listing(data@) == Some(archive_entries(a)),
            Err(_) => zip_listing(data@) is None,
        },
{
    ZipArchive::new(Cursor::new(data))
}

/// `ZipArchive::len`: the number of entries.
#[verifier::external_body]
fn archive_len(a: &ZipArchive<Cursor<Vec<u8>>>) -> (n: usize)
    ensures
        n == archive_entries(*a).len(),
{
    a.len()
}

/// `ZipArchive::by_index` followed by `ZipFile::name`: the name of entry
/// `i`, or `None` when the entry cannot be opened. Reading leaves the
/// entries as they were.
#[verifier::external_body]
fn archive_name_at(a: &mut ZipArchive<Cursor<Vec<u8>>>, i: usize) -> (r: Option<String>)
    requires
        i < archive_entries(*old(a)).len(),
    ensures
        archive_entries(*final(a)) == archive_entries(*old(a)),
        match r {
            Some(s) => archive_entries(*old(a))[i as int] == Some(s@),
            None => archive_entries(*old(a))[i as int] is None,
        },
{
    a.by_index(i).ok().map(|f| f.name().to_string())
}

/// The entry named `name` in the archive that `ZipArchive::new` reads from
/// `data`: `None` when `ZipArchive::by_name` finds no such entry or cannot
/// open it, else whether reading it to its end gives its bytes (`None` when
/// the read fails).
pub uninterp spec fn zip_member(data: Seq<u8>, name: Seq<char>) -> Option<Option<Seq<u8>>>;

/// `ZipArchive::new` over the bytes, then `ZipArchive::by_name` and
/// `std::io::copy` of the entry: the error of `new` when the bytes are not a
/// readable archive; else `None` when `by_name` fails, or the outcome of the
/// copy, as `zip_member` names it. Which read error comes is not stated.
#[verifier::external_body]
fn read_member(data: &[u8], name: &str) -> (r: Result<Option<Result<Vec<u8>, std::io::Error>>, ZipError>)
    ensures
        match r {
            Ok(None) => zip_listing(data@) is Some && zip_member(data@, name@) is None,
            Ok(Some(Ok(b))) => zip_listing(data@) is Some && zip_member(data@, name@) == Some(Some(b@)),
            Ok(Some(Err(_))) => zip_listing(data@) is Some && zip_member(data@, name@) == Some(None::<Seq<u8>>),
            Err(_) => zip_listing(data@) is None,
        },
{
    let mut a = ZipArchive::new(Cursor::new(data.to_vec()))?;
    let m = match a.by_name(name) {
        Ok(mut f) => {
            let mut out: Vec<u8> = Vec::new();
            match std::io::copy(&mut f, &mut out) {
                Ok(_) => Some(Ok(out)),
                Err(e) => Some(Err(e)),
            }
        },
        Err(_) => None,
    };
    Ok(m)
}

/// `std::io::Error`'s `Display` text. Nothing is stated of the text.
#[verifier::external_body]
fn io_error_text(e: &std::io::Error) -> String {
    e.to_string()
}

/// The message for an archive without a mod pack manifest.
pub open spec fn not_a_modpack_message() -> Seq<char> {
    "Not a Tidekeeper mod pack (modpack.json not found)"@
}

/// The manifest of a mod pack held in memory (`peek_modpack`): the bytes
/// of its `modpack.json`. Fails when the bytes are not a readable archive,
/// with `not_a_modpack_message` when the archive has no manifest it can
/// open, and with the read error's text when the manifest cannot be read.
pub fn modpack_manifest(data: &[u8]) -> (r: Result<Vec<u8>, String>)
    ensures
        match r {
            Ok(b) => zip_listing(data@) is Some && zip_member(data@, "modpack.json"@) == Some(Some(b@)),
            Err(e) => zip_listing(data@) is None
                || zip_member(data@, "modpack.json"@) == Some(None::<Seq<u8>>)
                || (zip_member(data@, "modpack.json"@) is None && e@ == not_a_modpack_message()),
        },
{
    match read_member(data, "modpack.json") {
        Ok(Some(Ok(b))) => Ok(b),
        Ok(Some(Err(e))) => Err(io_error_text(&e)),
        Ok(None) => Err("Not a Tidekeeper mod pack (modpack.json not found)".to_owned()),
        Err(e) => Err(zip_error_text(&e)),
    }
}

/// `ZipError`'s `Display` text. Nothing is stated of the text.
#[verifier::external_body]
fn zip_error_text(e: &ZipError) -> String {
    e.to_string()
}

/// The names of the entries of an archive held in memory, in archive order.
pub fn zip_entry_names(data: &[u8]) -> (r: Result<Vec<Option<String>>, String>)
    ensures
        match r {
            Ok(names) => zip_listing(data@) == Some(opt_views(names@)),
            Err(_) => zip_listing(data@) is None,
        },
{
    let owned = slice_to_vec(data);
    let mut archive = match open_zip(owned) {
        Ok(a) => a,
        Err(e) => return Err(zip_error_text(&e)),
    };
    let ghost entries = archive_entries(archive);
    let n = archive_len(&archive);
    let mut names: Vec<Option<String>> = Vec::new();
    for i in 0..n
        invariant
            n == entries.len(),
            archive_entries(archive) == entries,
            opt_views(names@) == entries.take(i as int),
    {
        let name = archive_name_at(&mut archive, i);
        let ghost before = opt_views(names@);
        names.push(name);
        assert(opt_views(names@) =~= before.push(entries[i as int]));
        assert(entries.take(i + 1) == entries.take(i as int).push(entries[i as int]));
    }
    assert(entries.take(n as int) == entries);
    Ok(names)
}

/// A copy of the bytes.
fn slice_to_vec(data: &[u8]) -> (r: Vec<u8>)
    ensures
        r@ == data@,
{
    let mut r: Vec<u8> = Vec::new();
    for i in 0..data.len()
        invariant
            r@ == data@.take(i as int),
    {
        r.push(data[i]);
        assert(data@.take(i + 1) == data@.take(i as int).push(data@[i as int]));
    }
    assert(data@.take(data.len() as int) == data@);
    r
}

/// Classifies the archive held in `data`, whose file stem is `zip_stem`.
/// Fails exactly when the bytes are not a readable archive.
pub fn analyze_zip(data: &[u8], zip_stem: &str) -> (r: Result<ZipInfo, String>)
    ensures
        match r {
            Ok(info) => zip_listing(data@) matches Some(es) && zip_info_view(info)
                == zip_info_spec(es, zip_stem@),
            Err(_) => zip_listing(data@) is None,
        },
{
    let names = zip_entry_names(data)?;
    Ok(analyze_zip_entries(&names, zip_stem))
}

} // verus!
