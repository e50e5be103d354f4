//! Metadata and error types of the cloud-drive client.
//!
//! The transport — authentication, listing requests, downloads — lives
//! outside the library; it hands over what it read as plain values. What is
//! verified here is the client's own logic: identifier handling, the
//! metadata checks that turn a raw file record into a [`GMeta`], and the
//! classification of entries by their media type.

use vstd::prelude::*;

verus! {

/// Identifier of a drive file or folder.
#[derive(Debug, Clone)]
pub struct GDriveId(String);

impl View for GDriveId {
    type V = Seq<char>;

    closed spec fn view(&self) -> Seq<char> {
        self.0@
    }
}

impl vstd::std_specs::cmp::PartialEqSpecImpl for GDriveId {
    open spec fn obeys_eq_spec() -> bool {
        true
    }

    open spec fn eq_spec(&self, other: &GDriveId) -> bool {
        self@ == other@
    }
}

impl PartialEq for GDriveId {
    fn eq(&self, other: &GDriveId) -> bool {
        self.0 == other.0
    }
}

impl vstd::std_specs::convert::FromSpecImpl<String> for GDriveId {
    open spec fn obeys_from_spec() -> bool {
        true
    }

    closed spec fn from_spec(v: String) -> Self {
        GDriveId(v)
    }
}

impl From<String> for GDriveId {
    fn from(v: String) -> Self {
        GDriveId(v)
    }
}

impl vstd::std_specs::convert::FromSpecImpl<&str> for GDriveId {
    open spec fn obeys_from_spec() -> bool {
        false
    }

    closed spec fn from_spec(v: &str) -> Self {
        GDriveId(arbitrary())
    }
}

impl From<&str> for GDriveId {
    fn from(v: &str) -> (r: Self)
        ensures
            r@ == v@,
    {
        GDriveId(v.to_owned())
    }
}

impl GDriveId {
    /// The identifier's characters.
    pub fn as_str(&self) -> (r: &str)
        ensures
            r@ == self@,
    {
        self.0.as_str()
    }
}

/// Failures of the drive client.
#[derive(Debug)]
pub enum Error {
    /// The drive service itself reported an error.
    GoogleDriveAPIError(String),
    /// A filesystem operation failed.
    IOError(String),
    /// The download transport failed.
    DownloadError(String),
    /// The service answered with a non-success HTTP status.
    InvalidResponse(u16),
    /// A required metadata field was missing from the raw record.
    MetaIsNull(&'static str),
    /// A directory cannot be downloaded as a file.
    DirectoryDownloadError(GDriveId),
    /// An internal channel failed.
    InternalError,
}

/// `p` is a prefix of `s`.
pub open spec fn is_prefix_of(p: Seq<char>, s: Seq<char>) -> bool {
    p.len() <= s.len() && s.take(p.len() as int) == p
}

/// Whether `p` is a prefix of `s`.
fn str_has_prefix(s: &str, p: &str) -> (r: bool)
    ensures
        r == is_prefix_of(p@, s@),
{
    let plen = p.unicode_len();
    let slen = s.unicode_len();
    if plen > slen {
        return false;
    }
    let mut i: usize = 0;
    while i < plen
        invariant
            i <= plen,
            plen == p@.len(),
            plen <= slen,
            slen == s@.len(),
            forall|j: int| 0 <= j < i ==> s@[j] == p@[j],
        decreases plen - i,
    {
        if s.get_char(i) != p.get_char(i) {
            proof {
                assert(s@.take(plen as int)[i as int] != p@[i as int]);
            }
            return false;
        }
        i = i + 1;
    }
    proof {
        assert(s@.take(plen as int) =~= p@);
    }
    true
}

/// Whether `a` and `b` hold the same characters.
fn str_eq(a: &str, b: &str) -> (r: bool)
    ensures
        r == (a@ == b@),
{
    if a.unicode_len() != b.unicode_len() {
        return false;
    }
    let r = str_has_prefix(a, b);
    proof {
        if r {
            assert(a@.take(b@.len() as int) =~= a@);
        } else {
            if a@ == b@ {
                assert(a@.take(b@.len() as int) =~= b@);
            }
        }
    }
    r
}

/// The media-type prefix shared by the drive's own application formats.
pub open spec fn google_app_prefix() -> Seq<char> {
    "application/vnd.google-apps."@
}

/// The media type of a drive folder.
pub open spec fn folder_mime() -> Seq<char> {
    "application/vnd.google-apps.folder"@
}

/// Raw capability flags of a file record, as read from the service.
pub struct DriveCapabilities {
    pub can_download: Option<bool>,
}

/// A raw file record as the service returns it: every field may be
/// missing. The modification time is carried as milliseconds since the
/// Unix epoch.
pub struct DriveFile {
    pub id: Option<String>,
    pub name: Option<String>,
    pub mime_type: Option<String>,
    pub modified_time: Option<i64>,
    pub capabilities: Option<DriveCapabilities>,
}

/// Every field the client relies on is present in the raw record.
pub open spec fn file_ok(f: DriveFile) -> bool {
    &&& f.id is Some
    &&& f.name is Some
    &&& f.mime_type is Some
    &&& f.modified_time is Some
    &&& f.capabilities is Some
    &&& (f.capabilities->Some_0).can_download is Some
}

/// Validated metadata of a drive file or folder.
#[derive(Debug, Clone)]
pub struct GMeta {
    /// The file or folder's identifier.
    pub id: GDriveId,
    /// The file or folder's name.
    pub name: String,
    /// The media type.
    pub mime_type: String,
    /// Last modification time, in milliseconds since the Unix epoch.
    pub modified_time: i64,
    /// Whether the file can be downloaded.
    pub can_download: bool,
}

/// `m` carries exactly the raw record's fields.
pub open spec fn meta_matches(m: GMeta, f: DriveFile) -> bool {
    &&& m.id@ == (f.id->Some_0)@
    &&& m.name == f.name->Some_0
    &&& m.mime_type == f.mime_type->Some_0
    &&& m.modified_time == f.modified_time->Some_0
    &&& m.can_download == (f.capabilities->Some_0).can_download->Some_0
}

/// `e` names the first field missing from the raw record.
pub open spec fn meta_error_matches(e: Error, f: DriveFile) -> bool {
    if f.id is None {
        (e matches Error::MetaIsNull(x) && x@ == "id"@)
    } else if f.mime_type is None {
        (e matches Error::MetaIsNull(x) && x@ == "mime_type"@)
    } else if f.name is None {
        (e matches Error::MetaIsNull(x) && x@ == "name"@)
    } else if f.modified_time is None {
        (e matches Error::MetaIsNull(x) && x@ == "modifiedTime"@)
    } else if f.capabilities is None {
        (e matches Error::MetaIsNull(x) && x@ == "capabilities"@)
    } else if (f.capabilities->Some_0).can_download is None {
        (e matches Error::MetaIsNull(x) && x@ == "capabilities.canDownload"@)
    } else {
        false
    }
}

impl GMeta {
    /// Whether this file is one of the drive's own application formats,
    /// which a plain download cannot fetch.
    pub fn is_google_app(&self) -> (r: bool)
        ensures
            r == is_prefix_of(google_app_prefix(), self.mime_type@),
    {
        str_has_prefix(self.mime_type.as_str(), "application/vnd.google-apps.")
    }

    /// Whether this item is a folder.
    pub fn is_directory(&self) -> (r: bool)
        ensures
            r == (self.mime_type@ == folder_mime()),
    {
        str_eq(self.mime_type.as_str(), "application/vnd.google-apps.folder")
    }

    /// Whether this file is one of the drive's own application formats and
    /// not a folder.
    pub fn is_google_app_file(&self) -> (r: bool)
        ensures
            r == (is_prefix_of(google_app_prefix(), self.mime_type@) && self.mime_type@
                != folder_mime()),
    {
        let app = self.is_google_app();
        let dir = self.is_directory();
        app && !dir
    }

    /// Validates a raw file record: every field the client relies on must
    /// be present, and the first missing one names the failure.
    pub fn new(file: DriveFile) -> (r: Result<GMeta, Error>)
        ensures
            file_ok(file) ==> (r matches Ok(m) && meta_matches(m, file)),
            !file_ok(file) ==> (r matches Err(e) && meta_error_matches(e, file)),
    {
        let DriveFile { id, name, mime_type, modified_time, capabilities } = file;
        let id = match id {
            Some(x) => x,
            None => {
                return Err(Error::MetaIsNull("id"));
            },
        };
        let mime_type = match mime_type {
            Some(x) => x,
            None => {
                return Err(Error::MetaIsNull("mime_type"));
            },
        };
        let name = match name {
            Some(x) => x,
            None => {
                return Err(Error::MetaIsNull("name"));
            },
        };
        let modified_time = match modified_time {
            Some(x) => x,
            None => {
                return Err(Error::MetaIsNull("modifiedTime"));
            },
        };
        let capabilities = match capabilities {
            Some(x) => x,
            None => {
                return Err(Error::MetaIsNull("capabilities"));
            },
        };
        let can_download = match capabilities.can_download {
            Some(x) => x,
            None => {
                return Err(Error::MetaIsNull("capabilities.canDownload"));
            },
        };
        Ok(GMeta { id: GDriveId(id), name, mime_type, modified_time, can_download })
    }
}

/// Validates one page of raw file records, in order and fail-fast, and
/// appends the metadata: exactly when every record is complete, the whole
/// page is appended; otherwise the records before the first incomplete one
/// are appended and that record's failure is returned.
pub fn append_metas(files: Vec<DriveFile>, metas: &mut Vec<GMeta>) -> (r: Result<(), Error>)
    ensures
        r is Ok <==> (forall|j: int| 0 <= j < files@.len() ==> file_ok(#[trigger] files@[j])),
        final(metas)@.len() >= old(metas)@.len(),
        forall|k: int|
            0 <= k < old(metas)@.len() ==> #[trigger] final(metas)@[k] == old(metas)@[k],
        r is Ok ==> final(metas)@.len() == old(metas)@.len() + files@.len() && (forall|k: int|
            0 <= k < files@.len() ==> meta_matches(
                final(metas)@[old(metas)@.len() + k],
                #[trigger] files@[k],
            )),
        r matches Err(e) ==> exists|j: int|
            {
                &&& 0 <= j < files@.len()
                &&& !file_ok(#[trigger] files@[j])
                &&& (forall|x: int| 0 <= x < j ==> file_ok(#[trigger] files@[x]))
                &&& meta_error_matches(e, files@[j])
                &&& final(metas)@.len() == old(metas)@.len() + j
                &&& (forall|k: int|
                    0 <= k < j ==> meta_matches(
                        final(metas)@[old(metas)@.len() + k],
                        #[trigger] files@[k],
                    ))
            },
{
    let ghost orig = files@;
    let ghost base = metas@.len();
    let mut rest = files;
    let mut j: usize = 0;
    let total = rest.len();
    proof {
        assert(orig.len() == total);
        assert(rest@ =~= orig.skip(0));
    }
    while rest.len() > 0
        invariant
            orig == files@,
            orig.len() <= usize::MAX,
            j + rest@.len() == orig.len(),
            rest@ == orig.skip(j as int),
            base == old(metas)@.len(),
            forall|x: int| 0 <= x < j ==> file_ok(#[trigger] orig[x]),
            metas@.len() == base + j,
            forall|k: int| 0 <= k < base ==> #[trigger] metas@[k] == old(metas)@[k],
            forall|k: int|
                0 <= k < j ==> meta_matches(metas@[base as int + k], #[trigger] orig[k]),
        decreases rest.len(),
    {
        let ghost rest_prev = rest@;
        let f = rest.remove(0);
        proof {
            assert(rest_prev[0] == orig[j as int]);
            assert(rest@ =~= orig.skip(j as int + 1));
        }
        match GMeta::new(f) {
            Ok(m) => {
                metas.push(m);
            },
            Err(e) => {
                proof {
                    assert(!file_ok(orig[j as int]));
                    assert(meta_error_matches(e, orig[j as int]));
                }
                return Err(e);
            },
        }
        j = j + 1;
    }
    proof {
        assert(orig.skip(j as int).len() == 0);
        assert(j == orig.len());
    }
    Ok(())
}

} // verus!
