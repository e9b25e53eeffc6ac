//! The packager: the finished store file carried as the single entry of a
//! compressed archive, and the matching extraction used by the lookup
//! client on its embedded copy.

use vstd::prelude::*;
use crate::error::BuildError;

verus! {

#[verifier::external_type_specification]
#[verifier::external_body]
pub struct ExZipError(zip::result::ZipError);

/// The name and bytes of the first entry of an archive, or nothing when
/// the bytes decode to no readable entry. Extraction is deterministic, so
/// this is a function of the archive bytes alone.
pub uninterp spec fn archive_entry(archive: Seq<u8>) -> Option<(Seq<char>, Seq<u8>)>;

/// Whether zip's writer accepts one entry under this name with these
/// bytes. Writing to memory, acceptance depends on the name and the bytes
/// alone; only the archive's bytes also carry the clock's entry stamp.
pub uninterp spec fn zippable(name: Seq<char>, data: Seq<u8>) -> bool;

/// Relies on zip's `ZipWriter`: `start_file` with default options,
/// `write_all`, `finish`. Writing to memory succeeds exactly when the
/// writer accepts the name and bytes; the produced archive holds one
/// entry, under the given name and with the given bytes, and extracting
/// its first entry gives both back.
#[verifier::external_body]
fn zip_single_entry(name: &str, data: &Vec<u8>) -> (r: Result<Vec<u8>, zip::result::ZipError>)
    ensures
        r is Ok <==> zippable(name@, data@),
        r is Ok ==> archive_entry(r->Ok_0@) == Some((name@, data@)),
{
    let mut writer = zip::ZipWriter::new(std::io::Cursor::new(Vec::new()));
    writer.start_file(name, zip::write::SimpleFileOptions::default())?;
    std::io::Write::write_all(&mut writer, data.as_slice())
        .map_err(zip::result::ZipError::from)?;
    let cursor = writer.finish()?;
    Ok(cursor.into_inner())
}

/// Relies on zip's `ZipArchive`: `new`, `by_index` of the first entry and
/// a full read of it. Succeeds exactly when the bytes decode to a
/// readable first entry, and hands back that entry's bytes.
#[verifier::external_body]
fn unzip_first_entry(archive: &Vec<u8>) -> (r: Result<Vec<u8>, zip::result::ZipError>)
    ensures
        r is Ok <==> archive_entry(archive@) is Some,
        r is Ok ==> r->Ok_0@ == (archive_entry(archive@)->0).1,
{
    let mut reader = zip::ZipArchive::new(std::io::Cursor::new(archive.as_slice()))?;
    let mut entry = reader.by_index(0)?;
    let mut bytes: Vec<u8> = Vec::new();
    std::io::Read::read_to_end(&mut entry, &mut bytes).map_err(zip::result::ZipError::from)?;
    Ok(bytes)
}

/// Packages the finished store into a new compressed archive whose single
/// entry carries the store's own file name and its bytes verbatim;
/// succeeds exactly when the archive writer accepts the name and bytes.
pub fn compress_database(store_name: &str, store_bytes: &Vec<u8>) -> (r: Result<
    Vec<u8>,
    BuildError,
>)
    ensures
        r is Ok <==> zippable(store_name@, store_bytes@),
        r is Ok ==> archive_entry(r->Ok_0@) == Some((store_name@, store_bytes@)),
        r is Err ==> r->Err_0 == BuildError::PackagingFailure,
{
    match zip_single_entry(store_name, store_bytes) {
        Ok(archive) => Ok(archive),
        Err(_) => Err(BuildError::PackagingFailure),
    }
}

/// Unpacks the store from the single-entry archive the client embeds:
/// the first entry's bytes, or nothing when the archive is unreadable.
pub fn unzip_database(archive: &Vec<u8>) -> (r: Option<Vec<u8>>)
    ensures
        r is Some <==> archive_entry(archive@) is Some,
        r is Some ==> r->0@ == (archive_entry(archive@)->0).1,
{
    match unzip_first_entry(archive) {
        Ok(bytes) => Some(bytes),
        Err(_) => None,
    }
}

} // verus!
