//! Archive index reader: a thin trusted boundary around the `zip` crate.
//!
//! An [`ArchiveHandle`] is an opened, independently positioned view of an
//! archive held in memory; several handles over the same bytes may exist at
//! once, each with its own read cursor. What the archive holds is named by
//! two uninterpreted functions of the raw bytes alone: `zip_names`, the
//! stored entry names in central-directory order, and `zip_contents`, the
//! decompressed bytes of each entry. Parsing and decompression are
//! deterministic functions of the bytes, so the names are sound.

use vstd::prelude::*;

verus! {

#[verifier::external_type_specification]
#[verifier::external_body]
#[verifier::reject_recursive_types(R)]
pub struct ExZipArchive<R>(zip::ZipArchive<R>);

#[verifier::external_type_specification]
#[verifier::external_body]
#[verifier::reject_recursive_types(T)]
pub struct ExCursor<T>(std::io::Cursor<T>);

/// The stored entry names of the archive that `bytes` holds, in the order
/// of its parsed index (the reader keeps one entry per repeated name).
pub uninterp spec fn zip_names(bytes: Seq<u8>) -> Seq<Seq<char>>;

/// The decompressed contents of each entry of the archive that `bytes`
/// holds, in the order of its parsed index.
pub uninterp spec fn zip_contents(bytes: Seq<u8>) -> Seq<Seq<u8>>;

/// Whether `bytes` parses as an archive at all: opening is a function of
/// the bytes alone, so two opens over the same bytes agree.
pub uninterp spec fn zip_parse_ok(bytes: Seq<u8>) -> bool;

/// Whether entry `i` of the archive that `bytes` holds can be read and
/// decompressed in full: reading from an in-memory copy is a function of
/// the bytes and the index alone.
pub uninterp spec fn zip_entry_ok(bytes: Seq<u8>, i: int) -> bool;

/// An opened archive: the `zip` crate's reader over an in-memory copy of
/// the archive bytes, together with the bytes it was opened from.
pub struct ArchiveHandle {
    reader: zip::ZipArchive<std::io::Cursor<Vec<u8>>>,
    source: Ghost<Seq<u8>>,
}

impl ArchiveHandle {
    /// The raw archive bytes this handle was opened from.
    pub closed spec fn source_bytes(self) -> Seq<u8> {
        self.source@
    }

    /// Every entry has both a name and contents.
    pub open spec fn wf(self) -> bool {
        zip_names(self.source_bytes()).len() == zip_contents(self.source_bytes()).len()
    }

    /// Relies on `zip::ZipArchive::new`, which parses the central directory
    /// of the archive and fails exactly on a missing or corrupt index —
    /// deterministically, the reader works on an in-memory copy.
    #[verifier::external_body]
    pub(crate) fn open(bytes: &[u8]) -> (r: Result<ArchiveHandle, String>)
        ensures
            r is Ok <==> zip_parse_ok(bytes@),
            r is Ok ==> (r->Ok_0).wf() && (r->Ok_0).source_bytes() == bytes@,
    {
        match zip::ZipArchive::new(std::io::Cursor::new(bytes.to_vec())) {
            Ok(reader) => Ok(ArchiveHandle { reader, source: Ghost(bytes@) }),
            Err(e) => Err(e.to_string()),
        }
    }

    /// Relies on `zip::ZipArchive::len`: the number of files contained in
    /// the archive.
    #[verifier::external_body]
    pub(crate) fn entry_count(&self) -> (n: usize)
        ensures
            n == zip_names(self.source_bytes()).len(),
    {
        self.reader.len()
    }

    /// Relies on `zip::ZipArchive::name_for_index`: the raw stored name of
    /// entry `i`, present exactly for the indices below the entry count.
    #[verifier::external_body]
    pub(crate) fn entry_name(&self, i: usize) -> (r: Option<String>)
        ensures
            match r {
                Some(s) => i < zip_names(self.source_bytes()).len() && s@ == zip_names(
                    self.source_bytes(),
                )[i as int],
                None => i >= zip_names(self.source_bytes()).len(),
            },
    {
        self.reader.name_for_index(i).map(|s| s.to_string())
    }

    /// Relies on `zip::ZipArchive::by_index` and `std::io::Read::read_to_end`:
    /// the decompressed bytes of entry `i`. The read fails exactly when the
    /// index is out of range or the entry's data is corrupt or truncated —
    /// deterministically, since it reads an in-memory copy by absolute
    /// offsets — and the failure comes back as its message.
    #[verifier::external_body]
    pub(crate) fn entry_data(&mut self, i: usize) -> (r: Result<Vec<u8>, String>)
        ensures
            final(self).source_bytes() == old(self).source_bytes(),
            r is Ok <==> i < zip_contents(old(self).source_bytes()).len() && zip_entry_ok(
                old(self).source_bytes(),
                i as int,
            ),
            r is Ok ==> (r->Ok_0)@ == zip_contents(old(self).source_bytes())[i as int],
    {
        let mut file = match self.reader.by_index(i) {
            Ok(f) => f,
            Err(e) => return Err(e.to_string()),
        };
        let mut buf = Vec::new();
        match std::io::Read::read_to_end(&mut file, &mut buf) {
            Ok(_) => Ok(buf),
            Err(e) => Err(e.to_string()),
        }
    }
}

} // verus!
