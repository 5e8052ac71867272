//! Extraction of a whole archive held in memory: locate the end record, read
//! the central directory, then recover each entry's bytes and output location.
//!
//! Policy for the two copies of an entry's metadata: the central directory
//! gives the local header's offset, the payload's sizes and the entry's name,
//! from which the output location is built; the local header is parsed and
//! validated on its own (its name must be present and UTF-8) and gives the
//! compression method. The two are not cross-checked.

use crate::binary::{fits, le16, le32};
use crate::paths::{
    inside_root, name_is_confined, normalized_of, output_dir, output_path, sanitize_path, EntryPath,
    SLASH,
};
use crate::records::{
    central_directory, end_of_central_directory, local_header_at, locate_end_record,
    parse_directory, parse_end_record, parse_local_header, supported_method, EndRecordView,
    EntryView, RecordError, MAGIC_LFH,
};
use vstd::prelude::*;
use vstd::utf8::encode_utf8;

pub use crate::records::{CentralDirectoryEntry, EndOfCentralDirectory, ZipError};

verus! {

/// An archive held in memory, and the directory its entries are extracted to.
pub struct ZipFile {
    pub archive: Vec<u8>,
    pub out_dir: String,
}

/// One extracted entry: its bytes, and where they are to be written.
pub struct UnpackedFile {
    /// The directory to create, with its missing ancestors, before writing.
    pub dir: String,
    /// The file to create, or overwrite.
    pub path: String,
    pub data: Vec<u8>,
}

/// What the deflate decoder yields when asked for exactly `size` bytes of the
/// raw deflate stream `raw`: those bytes, or nothing when the stream is corrupt
/// or ends early.
pub uninterp spec fn inflated(raw: Seq<u8>, size: nat) -> Option<Seq<u8>>;

/// Relies on flate2's `read::DeflateDecoder` over the raw deflate stream, read
/// with `std::io::Read::read_exact`: it fills the whole buffer, or fails.
#[verifier::external_body]
fn inflate_exact(raw: Vec<u8>, size: u32) -> (r: Option<Vec<u8>>)
    ensures
        r matches Some(v) ==> inflated(raw@, size as nat) == Some(v@) && v@.len() == size,
        r is None ==> inflated(raw@, size as nat) is None,
{
    let mut out = vec![0u8; size as usize];
    let mut decoder = flate2::read::DeflateDecoder::new(std::io::Cursor::new(raw));
    match std::io::Read::read_exact(&mut decoder, &mut out) {
        Ok(()) => Some(out),
        Err(_) => None,
    }
}

/// The entry's bytes once decoded: stored payloads pass through unchanged,
/// deflated ones must yield exactly `size` bytes.
pub open spec fn decoded_payload(method: u16, raw: Seq<u8>, size: u32) -> Result<
    Seq<u8>,
    ZipError,
> {
    if method == 8 {
        match inflated(raw, size as nat) {
            Some(v) => Ok(v),
            None => Err(ZipError::Decompress),
        }
    } else {
        Ok(raw)
    }
}

/// Decodes a payload by its compression method (0 store, 8 deflate).
pub fn decompress(method: u16, raw: Vec<u8>, size: u32) -> (r: Result<Vec<u8>, ZipError>)
    ensures
        match r {
            Ok(v) => decoded_payload(method, raw@, size) == Ok::<Seq<u8>, ZipError>(v@),
            Err(e) => decoded_payload(method, raw@, size) == Err::<Seq<u8>, ZipError>(e),
        },
        method == 0 ==> (r matches Ok(v) && v@ == raw@),
        method == 8 && r is Ok ==> r->Ok_0@.len() == size,
{
    if method == 8 {
        match inflate_exact(raw, size) {
            Some(v) => Ok(v),
            None => Err(ZipError::Decompress),
        }
    } else {
        Ok(raw)
    }
}

/// The compression method and raw payload of the entry `e`: its local header
/// is read at the offset the central directory gives, and the payload is the
/// `comp_size` bytes that follow the header.
pub open spec fn local_payload(d: Seq<u8>, e: EntryView) -> Result<(u16, Seq<u8>), ZipError> {
    match local_header_at(d, e.offset as int) {
        Err(x) => Err(ZipError::LocalHeader(x)),
        Ok((m, start)) => if start + e.comp_size > d.len() {
            Err(ZipError::LocalHeader(RecordError::Truncated))
        } else {
            Ok((m, d.subrange(start, start + e.comp_size)))
        },
    }
}

/// Whether the entry names a directory: its name ends with a slash.
pub open spec fn names_directory(name: Seq<char>) -> bool {
    let b = encode_utf8(name);
    b.len() > 0 && b.last() == SLASH
}

/// Reads the local header of `e` and the raw payload after it.
pub fn read_local_entry(d: &[u8], e: &CentralDirectoryEntry) -> (r: Result<
    (u16, Vec<u8>),
    ZipError,
>)
    ensures
        match r {
            Ok((m, raw)) => local_payload(d@, e@) == Ok::<(u16, Seq<u8>), ZipError>((m, raw@)),
            Err(x) => local_payload(d@, e@) == Err::<(u16, Seq<u8>), ZipError>(x),
        },
{
    match parse_local_header(d, e.offset as usize) {
        Err(x) => Err(ZipError::LocalHeader(x)),
        Ok((m, start)) => {
            let size = e.comp_size as usize;
            if start > d.len() || d.len() - start < size {
                return Err(ZipError::LocalHeader(RecordError::Truncated));
            }
            let raw = vstd::slice::slice_to_vec(&d[start..start + size]);
            Ok((m, raw))
        },
    }
}

impl ZipFile {
    /// Takes the archive's bytes and the output directory's name.
    pub fn open(archive: Vec<u8>, out_dir_name: &str) -> (r: ZipFile)
        ensures
            r.archive@ == archive@,
            r.out_dir@ == out_dir_name@,
    {
        ZipFile { archive, out_dir: out_dir_name.to_owned() }
    }

    /// Locates and parses the end-of-central-directory record.
    pub fn find_end_of_central_directory(&self) -> (r: Result<EndOfCentralDirectory, ZipError>)
        ensures
            match r {
                Ok(e) => end_of_central_directory(self.archive@) == Ok::<
                    EndRecordView,
                    ZipError,
                >(e@),
                Err(x) => end_of_central_directory(self.archive@) == Err::<
                    EndRecordView,
                    ZipError,
                >(x),
            },
    {
        let d = self.archive.as_slice();
        match locate_end_record(d) {
            None => Err(ZipError::NoEndOfCentralDirectory),
            Some(p) => match parse_end_record(d, p) {
                Ok(e) => Ok(e),
                Err(x) => Err(ZipError::EndRecord(x)),
            },
        }
    }

    /// Parses the central directory that `eocd` describes, in archive order.
    pub fn parse_central_directory(&self, eocd: &EndOfCentralDirectory) -> (r: Result<
        Vec<CentralDirectoryEntry>,
        ZipError,
    >)
        ensures
            match r {
                Ok(v) => central_directory(self.archive@, eocd@) == Ok::<Seq<EntryView>, ZipError>(
                    crate::records::entries_view(v@),
                ),
                Err(e) => central_directory(self.archive@, eocd@) == Err::<
                    Seq<EntryView>,
                    ZipError,
                >(e),
            },
    {
        parse_directory(self.archive.as_slice(), eocd)
    }

    /// Extracts one entry: `None` for a directory entry, else its decoded
    /// bytes and a location strictly inside the output directory.
    pub fn unpack_file(&self, cd: &CentralDirectoryEntry) -> (r: Result<
        Option<UnpackedFile>,
        ZipError,
    >)
        ensures
            names_directory(cd.name@) ==> r matches Ok(None),
            !names_directory(cd.name@) ==> match local_payload(self.archive@, cd@) {
                Err(x) => r == Err::<Option<UnpackedFile>, ZipError>(x),
                Ok((m, raw)) => match decoded_payload(m, raw, cd.uncomp_size) {
                    Err(x) => r == Err::<Option<UnpackedFile>, ZipError>(x),
                    Ok(data) => if name_is_confined(normalized_of(cd.name@)) {
                        r matches Ok(Some(f)) && f.data@ == data && f.path@ == output_path(
                            self.out_dir@,
                            normalized_of(cd.name@),
                        ) && f.dir@ == output_dir(self.out_dir@, normalized_of(cd.name@))
                            && inside_root(f.path@, self.out_dir@) && (m == 8 ==> f.data@.len()
                            == cd.uncomp_size)
                    } else {
                        r == Err::<Option<UnpackedFile>, ZipError>(ZipError::UnsafePath)
                    },
                },
            },
    {
        let name_bytes = cd.name.as_str().as_bytes();
        let n = name_bytes.len();
        if n > 0 && name_bytes[n - 1] == SLASH {
            return Ok(None);
        }
        let (method, raw) = match read_local_entry(self.archive.as_slice(), cd) {
            Ok(t) => t,
            Err(x) => {
                return Err(x);
            },
        };
        let data = match decompress(method, raw, cd.uncomp_size) {
            Ok(v) => v,
            Err(x) => {
                return Err(x);
            },
        };
        match sanitize_path(self.out_dir.as_str(), cd.name.as_str()) {
            Ok(EntryPath { dir, path }) => Ok(Some(UnpackedFile { dir, path, data })),
            Err(x) => Err(x),
        }
    }
}

/// A local header that lacks its signature makes its entry fail with a
/// format error, before any byte of the payload is read.
pub proof fn bad_local_signature_fails(d: Seq<u8>, e: EntryView)
    requires
        fits(d, e.offset as int, 4),
        le32(d, e.offset as int) != MAGIC_LFH,
    ensures
        local_payload(d, e) == Err::<(u16, Seq<u8>), ZipError>(
            ZipError::LocalHeader(RecordError::BadMagic),
        ),
{
}

/// A local header that declares a compression method other than store or
/// deflate makes its entry fail, before any byte of the payload is read.
pub proof fn unsupported_local_method_fails(d: Seq<u8>, e: EntryView)
    requires
        fits(d, e.offset as int, 10),
        le32(d, e.offset as int) == MAGIC_LFH,
        !supported_method(le16(d, e.offset + 8)),
    ensures
        local_payload(d, e) == Err::<(u16, Seq<u8>), ZipError>(
            ZipError::LocalHeader(RecordError::UnsupportedMethod(le16(d, e.offset + 8) as u16)),
        ),
{
}

/// A stored entry comes out byte for byte as the `comp_size` bytes that follow
/// its local header.
pub proof fn stored_entry_is_verbatim(d: Seq<u8>, e: EntryView)
    requires
        local_header_at(d, e.offset as int) is Ok,
        local_header_at(d, e.offset as int)->Ok_0.0 == 0,
        local_header_at(d, e.offset as int)->Ok_0.1 + e.comp_size <= d.len(),
    ensures
        ({
            let start = local_header_at(d, e.offset as int)->Ok_0.1;
            &&& local_payload(d, e) is Ok
            &&& decoded_payload(
                local_payload(d, e)->Ok_0.0,
                local_payload(d, e)->Ok_0.1,
                e.uncomp_size,
            ) == Ok::<Seq<u8>, ZipError>(d.subrange(start, start + e.comp_size))
        }),
{
}

} // verus!
