//! Zip archives held in memory.
use std::io::Cursor;
use vstd::prelude::*;
use zip::read::ZipArchive;

verus! {

/// Why an entry could not be had.
pub enum EntryError {
    /// The archive has no readable entry of that name; with the reason.
    NotFound(String),
    /// The entry's data could not be unpacked; with the reason.
    Unreadable(String),
}

/// The model of an entry error.
pub enum EntryErrorView {
    NotFound(Seq<char>),
    Unreadable(Seq<char>),
}

impl View for EntryError {
    type V = EntryErrorView;

    open spec fn view(&self) -> EntryErrorView {
        match self {
            EntryError::NotFound(e) => EntryErrorView::NotFound(e@),
            EntryError::Unreadable(e) => EntryErrorView::Unreadable(e@),
        }
    }
}

/// Trusted: the archive type of `zip`, opaque here.
#[verifier::external_type_specification]
#[verifier::external_body]
#[verifier::reject_recursive_types(R)]
pub struct ExZipArchive<R>(zip::read::ZipArchive<R>);

/// Trusted: `std::io::Cursor`, opaque here.
#[verifier::external_type_specification]
#[verifier::external_body]
#[verifier::reject_recursive_types(T)]
pub struct ExCursor<T>(std::io::Cursor<T>);

/// The name of why a byte string cannot be read as an archive, if it cannot.
pub uninterp spec fn archive_refusal(data: Seq<u8>) -> Option<Seq<char>>;

/// The name of what reading an entry of an archive gives.
pub uninterp spec fn entry_data(data: Seq<u8>, name: Seq<char>) -> Result<Seq<u8>, EntryErrorView>;

/// The name of the bytes that an archive was opened on.
pub uninterp spec fn archive_bytes(a: ZipArchive<Cursor<Vec<u8>>>) -> Seq<u8>;

/// Trusted: `zip::ZipArchive::new` on bytes in memory.
#[verifier::external_body]
pub(crate) fn open_archive(data: Vec<u8>) -> (r: Result<ZipArchive<Cursor<Vec<u8>>>, String>)
    ensures
        match r {
            Ok(a) => archive_refusal(data@) is None && archive_bytes(a) == data@,
            Err(e) => archive_refusal(data@) == Some(e@),
        },
{
    ZipArchive::new(Cursor::new(data)).map_err(|e| e.to_string())
}

/// Trusted: `zip::ZipArchive::by_name` followed by reading the entry to its
/// end. Reading an entry does not change the archive.
#[verifier::external_body]
pub(crate) fn read_entry(
    archive: &mut ZipArchive<Cursor<Vec<u8>>>,
    name: &str,
) -> (r: Result<Vec<u8>, EntryError>)
    ensures
        archive_bytes(*final(archive)) == archive_bytes(*old(archive)),
        match r {
            Ok(d) => entry_data(archive_bytes(*old(archive)), name@) == Ok::<
                Seq<u8>,
                EntryErrorView,
            >(d@),
            Err(e) => entry_data(archive_bytes(*old(archive)), name@) == Err::<
                Seq<u8>,
                EntryErrorView,
            >(e@),
        },
{
    let mut entry = archive.by_name(name).map_err(|e| EntryError::NotFound(e.to_string()))?;
    let mut data = Vec::new();
    std::io::Read::read_to_end(&mut entry, &mut data)
        .map_err(|e| EntryError::Unreadable(e.to_string()))?;
    Ok(data)
}

} // verus!
