//! Trusted access to zip archives held in memory. The archive type and its
//! entry table are opaque to the verifier: the table's contents are named by
//! [`archive_entries`], what opening bytes yields is named by [`zip_parse`],
//! and each method the traversal calls is wrapped with a contract over those
//! names. An entry of the table is modelled as its name, its decompressed
//! payload, its file flag, and two readability flags: on an in-memory
//! archive, reading an entry's metadata or payload succeeds or fails
//! depending on the archive value alone, so both outcomes are part of the
//! table.

use vstd::prelude::*;
use crate::errors::ScanError;

verus! {

#[verifier::external_type_specification]
#[verifier::external_body]
#[verifier::reject_recursive_types(R)]
pub struct ExZipArchive<R>(zip::read::ZipArchive<R>);

#[verifier::external_type_specification]
#[verifier::external_body]
#[verifier::reject_recursive_types(T)]
pub struct ExCursor<T>(std::io::Cursor<T>);

/// One entry of the abstract entry table: the central-directory name, the
/// decompressed payload, whether the entry is a file (rather than a
/// directory), whether its metadata can be read (its local header is sound),
/// and whether its whole payload can be read (it also decompresses).
pub struct EntryView {
    pub name: Seq<char>,
    pub data: Seq<u8>,
    pub is_file: bool,
    pub meta_ok: bool,
    pub data_ok: bool,
}

/// The entries a zip archive value holds, in archive order.
pub uninterp spec fn archive_entries(
    z: zip::read::ZipArchive<std::io::Cursor<Vec<u8>>>,
) -> Seq<EntryView>;

/// What opening `bytes` as a zip archive yields: `None` when the bytes are
/// not a readable archive, otherwise the entry table. The outcome depends on
/// the bytes alone.
pub uninterp spec fn zip_parse(bytes: Seq<u8>) -> Option<Seq<EntryView>>;

/// The name and file flag of one archive entry.
pub struct EntryMeta {
    pub name: String,
    pub is_file: bool,
}

/// Relies on `zip::ZipArchive::new`: reading the central directory of an
/// in-memory archive succeeds or fails depending on the bytes alone, and the
/// entry table it yields is a function of the bytes.
#[verifier::external_body]
pub(crate) fn zip_open(data: Vec<u8>) -> (r: Result<
    zip::read::ZipArchive<std::io::Cursor<Vec<u8>>>,
    ScanError,
>)
    ensures
        r matches Ok(z) ==> zip_parse(data@) == Some(archive_entries(z)),
        r matches Err(e) ==> zip_parse(data@) is None && e == ScanError::ArchiveFormat,
{
    match zip::ZipArchive::new(std::io::Cursor::new(data)) {
        Ok(z) => Ok(z),
        Err(_) => Err(ScanError::ArchiveFormat),
    }
}

/// Relies on `zip::ZipArchive::len`: the number of entries in the table.
#[verifier::external_body]
pub(crate) fn zip_len(z: &zip::read::ZipArchive<std::io::Cursor<Vec<u8>>>) -> (n: usize)
    ensures
        n == archive_entries(*z).len(),
{
    z.len()
}

/// Relies on `zip::ZipArchive::by_index` (which does not read the entry's
/// payload), `zip::read::ZipFile::name` and `zip::read::ZipFile::is_file`:
/// the name and file flag of the entry at `i`. On an in-memory archive the
/// call succeeds or fails depending on the archive value alone, which is
/// what the entry's metadata-readability flag stands for. Reading moves the
/// underlying cursor but leaves the entry table as it was.
#[verifier::external_body]
pub(crate) fn zip_entry_meta(
    z: &mut zip::read::ZipArchive<std::io::Cursor<Vec<u8>>>,
    i: usize,
) -> (r: Result<EntryMeta, ScanError>)
    requires
        i < archive_entries(*old(z)).len(),
    ensures
        archive_entries(*final(z)) == archive_entries(*old(z)),
        r matches Ok(m) ==> archive_entries(*old(z))[i as int].meta_ok && m.name@
            == archive_entries(*old(z))[i as int].name && m.is_file == archive_entries(
            *old(z),
        )[i as int].is_file,
        r matches Err(e) ==> !archive_entries(*old(z))[i as int].meta_ok && e
            == ScanError::ArchiveFormat,
{
    match z.by_index(i) {
        Ok(f) => Ok(EntryMeta { name: f.name().to_owned(), is_file: f.is_file() }),
        Err(_) => Err(ScanError::ArchiveFormat),
    }
}

/// Relies on `zip::ZipArchive::by_index` and std's `Read::read_to_end` on
/// `zip::read::ZipFile`: the decompressed payload of the entry at `i`. On an
/// in-memory archive decompression succeeds or fails depending on the
/// archive value alone, which is what the entry's payload-readability flag
/// stands for. Reading moves the underlying cursor but leaves the entry
/// table as it was.
#[verifier::external_body]
pub(crate) fn zip_entry_data(
    z: &mut zip::read::ZipArchive<std::io::Cursor<Vec<u8>>>,
    i: usize,
) -> (r: Result<Vec<u8>, ScanError>)
    requires
        i < archive_entries(*old(z)).len(),
    ensures
        archive_entries(*final(z)) == archive_entries(*old(z)),
        r matches Ok(d) ==> archive_entries(*old(z))[i as int].data_ok && d@
            == archive_entries(*old(z))[i as int].data,
        r matches Err(e) ==> !archive_entries(*old(z))[i as int].data_ok && e
            == ScanError::ArchiveFormat,
{
    match z.by_index(i) {
        Ok(mut f) => {
            let mut data: Vec<u8> = Vec::new();
            match std::io::Read::read_to_end(&mut f, &mut data) {
                Ok(_) => Ok(data),
                Err(_) => Err(ScanError::ArchiveFormat),
            }
        },
        Err(_) => Err(ScanError::ArchiveFormat),
    }
}

} // verus!
