//! The three ZIP record layouts (end of central directory, central directory
//! entry, local file header): their meaning as spec functions over the
//! archive's bytes, and verified parsers for them.

use crate::binary::{fits, has_bytes, le16, le32, u16_le_at, u32_le_at};
use crate::text::utf8_field;
use vstd::prelude::*;
use vstd::utf8::{decode_utf8, valid_utf8};

verus! {

pub const MAGIC_EOCD: u32 = 0x06054b50;

pub const MAGIC_CD: u32 = 0x02014b50;

pub const MAGIC_LFH: u32 = 0x04034b50;

/// Size of the end-of-central-directory record without its comment.
pub const EOCD_SIZE: usize = 22;

/// Size of a central directory entry without its name, extra field and comment.
pub const CD_FIXED_SIZE: usize = 46;

/// Size of a local file header without its name and extra field.
pub const LFH_FIXED_SIZE: usize = 30;

/// Longest comment an end-of-central-directory record can carry.
pub const MAX_COMMENT: usize = 65535;

/// What is wrong with one record.
#[derive(Debug, Clone, Copy, PartialEq, Eq, Structural)]
pub enum RecordError {
    /// The archive ends inside the record.
    Truncated,
    /// The record does not start with its signature.
    BadMagic,
    /// A disk number other than 0 or 1: multi-volume archives are not supported.
    MultiDisk,
    /// A compression method other than store (0) or deflate (8).
    UnsupportedMethod(u16),
    /// A file name of length zero.
    MissingName,
    /// A name or comment that is not UTF-8.
    NotUtf8,
}

/// Why an extraction run stopped.
#[derive(Debug, Clone, Copy, PartialEq, Eq, Structural)]
pub enum ZipError {
    /// No end-of-central-directory signature in the searched tail of the archive.
    NoEndOfCentralDirectory,
    /// The end-of-central-directory record is malformed.
    EndRecord(RecordError),
    /// The central directory entry with this index is malformed.
    DirectoryEntry(u16, RecordError),
    /// The declared entry count does not use up exactly the declared directory size.
    EntryCountMismatch,
    /// The local header of the entry being extracted is malformed, or its payload is cut short.
    LocalHeader(RecordError),
    /// The deflate stream is corrupt or yields fewer bytes than declared.
    Decompress,
    /// The entry name does not stay inside the output directory.
    UnsafePath,
}

/// The end-of-central-directory record.
#[derive(Debug)]
pub struct EndOfCentralDirectory {
    pub central_directory_entries: u16,
    pub size_of_central_directory: u32,
    pub offset_of_central_directory: u32,
    pub comment: Option<String>,
}

/// An end-of-central-directory record as plain values.
pub struct EndRecordView {
    pub entries: u16,
    pub size: u32,
    pub offset: u32,
    pub comment: Option<Seq<char>>,
}

pub open spec fn text_view(t: Option<String>) -> Option<Seq<char>> {
    match t {
        Some(s) => Some(s@),
        None => None,
    }
}

impl View for EndOfCentralDirectory {
    type V = EndRecordView;

    open spec fn view(&self) -> EndRecordView {
        EndRecordView {
            entries: self.central_directory_entries,
            size: self.size_of_central_directory,
            offset: self.offset_of_central_directory,
            comment: text_view(self.comment),
        }
    }
}

pub open spec fn has_signature(d: Seq<u8>, p: int, magic: u32) -> bool {
    fits(d, p, 4) && le32(d, p) == magic
}

/// Scanning backward from `p` down to `lowest`, the first offset holding the
/// end-of-central-directory signature.
pub open spec fn scan_end_record(d: Seq<u8>, p: int, lowest: int) -> Option<int>
    decreases p + 1 - lowest,
{
    if p < lowest || p < 0 {
        None
    } else if has_signature(d, p, MAGIC_EOCD) {
        Some(p)
    } else {
        scan_end_record(d, p - 1, lowest)
    }
}

/// Lowest offset at which the end record may start: room is left for the
/// longest comment, and no further.
pub open spec fn end_record_floor(d: Seq<u8>) -> int {
    if d.len() - EOCD_SIZE > MAX_COMMENT {
        d.len() - EOCD_SIZE - MAX_COMMENT
    } else {
        0
    }
}

/// Where the end-of-central-directory record starts: the last signature that
/// leaves room for the record's fixed part, within the longest comment's reach
/// of the end.
pub open spec fn end_record_position(d: Seq<u8>) -> Option<int> {
    if d.len() < EOCD_SIZE {
        None
    } else {
        scan_end_record(d, d.len() - EOCD_SIZE, end_record_floor(d))
    }
}

/// The fields of an end record whose signature is at `p`.
pub open spec fn end_record_at(d: Seq<u8>, p: int) -> Result<EndRecordView, RecordError> {
    if !fits(d, p, EOCD_SIZE as int) {
        Err(RecordError::Truncated)
    } else if le16(d, p + 4) > 1 || le16(d, p + 6) > 1 || le16(d, p + 8) != le16(d, p + 10) {
        Err(RecordError::MultiDisk)
    } else {
        let len = le16(d, p + 20);
        let start = p + EOCD_SIZE;
        let fixed = EndRecordView {
            entries: le16(d, p + 10) as u16,
            size: le32(d, p + 12) as u32,
            offset: le32(d, p + 16) as u32,
            comment: None,
        };
        if len == 0 {
            Ok(fixed)
        } else if !fits(d, start, len) {
            Err(RecordError::Truncated)
        } else if !valid_utf8(d.subrange(start, start + len)) {
            Err(RecordError::NotUtf8)
        } else {
            let text = decode_utf8(d.subrange(start, start + len));
            Ok(EndRecordView { comment: Some(text), ..fixed })
        }
    }
}

/// The archive's end-of-central-directory record, located and parsed.
pub open spec fn end_of_central_directory(d: Seq<u8>) -> Result<EndRecordView, ZipError> {
    match end_record_position(d) {
        None => Err(ZipError::NoEndOfCentralDirectory),
        Some(p) => match end_record_at(d, p) {
            Ok(e) => Ok(e),
            Err(x) => Err(ZipError::EndRecord(x)),
        },
    }
}

/// Finds the end record's signature by scanning backward from the end.
pub fn locate_end_record(d: &[u8]) -> (r: Option<usize>)
    ensures
        r matches Some(p) ==> end_record_position(d@) == Some(p as int),
        r is None ==> end_record_position(d@) is None,
{
    if d.len() < EOCD_SIZE {
        return None;
    }
    let top = d.len() - EOCD_SIZE;
    let lowest = if top > MAX_COMMENT {
        top - MAX_COMMENT
    } else {
        0
    };
    let mut p = top;
    loop
        invariant
            lowest <= p <= top,
            top + EOCD_SIZE == d@.len(),
            lowest == end_record_floor(d@),
            scan_end_record(d@, top as int, lowest as int) == scan_end_record(
                d@,
                p as int,
                lowest as int,
            ),
        decreases p,
    {
        if u32_le_at(d, p) == MAGIC_EOCD {
            return Some(p);
        }
        if p == lowest {
            assert(scan_end_record(d@, p - 1, lowest as int) is None);
            return None;
        }
        p = p - 1;
    }
}

/// Parses the end record whose signature is at `p`.
pub fn parse_end_record(d: &[u8], p: usize) -> (r: Result<EndOfCentralDirectory, RecordError>)
    ensures
        match r {
            Ok(e) => end_record_at(d@, p as int) == Ok::<EndRecordView, RecordError>(e@),
            Err(x) => end_record_at(d@, p as int) == Err::<EndRecordView, RecordError>(x),
        },
{
    if !has_bytes(d, p, EOCD_SIZE) {
        return Err(RecordError::Truncated);
    }
    let this_disk = u16_le_at(d, p + 4);
    let directory_disk = u16_le_at(d, p + 6);
    let entries_here = u16_le_at(d, p + 8);
    let entries = u16_le_at(d, p + 10);
    if this_disk > 1 || directory_disk > 1 || entries_here != entries {
        return Err(RecordError::MultiDisk);
    }
    let size = u32_le_at(d, p + 12);
    let offset = u32_le_at(d, p + 16);
    let len = u16_le_at(d, p + 20) as usize;
    let start = p + EOCD_SIZE;
    let comment = if len == 0 {
        None
    } else if !has_bytes(d, start, len) {
        return Err(RecordError::Truncated);
    } else {
        match utf8_field(d, start, len) {
            Some(s) => Some(s),
            None => {
                return Err(RecordError::NotUtf8);
            },
        }
    };
    let e = EndOfCentralDirectory {
        central_directory_entries: entries,
        size_of_central_directory: size,
        offset_of_central_directory: offset,
        comment,
    };
    Ok(e)
}

/// One central directory entry.
#[derive(Debug)]
pub struct CentralDirectoryEntry {
    pub crc32: u32,
    pub comp_size: u32,
    pub uncomp_size: u32,
    pub offset: u32,
    pub name: String,
    pub extra: Option<Vec<u8>>,
    pub comment: Option<String>,
}

/// A central directory entry as plain values.
pub struct EntryView {
    pub crc32: u32,
    pub comp_size: u32,
    pub uncomp_size: u32,
    pub offset: u32,
    pub name: Seq<char>,
    pub extra: Option<Seq<u8>>,
    pub comment: Option<Seq<char>>,
}

pub open spec fn bytes_view(b: Option<Vec<u8>>) -> Option<Seq<u8>> {
    match b {
        Some(v) => Some(v@),
        None => None,
    }
}

impl View for CentralDirectoryEntry {
    type V = EntryView;

    open spec fn view(&self) -> EntryView {
        EntryView {
            crc32: self.crc32,
            comp_size: self.comp_size,
            uncomp_size: self.uncomp_size,
            offset: self.offset,
            name: self.name@,
            extra: bytes_view(self.extra),
            comment: text_view(self.comment),
        }
    }
}

pub open spec fn supported_method(m: int) -> bool {
    m == 0 || m == 8
}

/// The central directory entry at `p`, and the offset just past it. The
/// checks come in the order in which the record's fields are laid out.
pub open spec fn directory_entry_at(d: Seq<u8>, p: int) -> Result<(EntryView, int), RecordError> {
    let method = le16(d, p + 10);
    let name_len = le16(d, p + 28);
    let extra_len = le16(d, p + 30);
    let comment_len = le16(d, p + 32);
    let name_start = p + CD_FIXED_SIZE;
    let extra_start = name_start + name_len;
    let comment_start = extra_start + extra_len;
    let end = comment_start + comment_len;
    if !fits(d, p, 4) {
        Err(RecordError::Truncated)
    } else if le32(d, p) != MAGIC_CD {
        Err(RecordError::BadMagic)
    } else if !fits(d, p, 12) {
        Err(RecordError::Truncated)
    } else if !supported_method(method) {
        Err(RecordError::UnsupportedMethod(method as u16))
    } else if !fits(d, p, 30) {
        Err(RecordError::Truncated)
    } else if name_len == 0 {
        Err(RecordError::MissingName)
    } else if !fits(d, p, 36) {
        Err(RecordError::Truncated)
    } else if le16(d, p + 34) > 1 {
        Err(RecordError::MultiDisk)
    } else if !fits(d, p, CD_FIXED_SIZE as int) || !fits(d, name_start, name_len) {
        Err(RecordError::Truncated)
    } else if !valid_utf8(d.subrange(name_start, extra_start)) {
        Err(RecordError::NotUtf8)
    } else if !fits(d, extra_start, extra_len) || !fits(d, comment_start, comment_len) {
        Err(RecordError::Truncated)
    } else if comment_len > 0 && !valid_utf8(d.subrange(comment_start, end)) {
        Err(RecordError::NotUtf8)
    } else {
        Ok(
            (
                EntryView {
                    crc32: le32(d, p + 16) as u32,
                    comp_size: le32(d, p + 20) as u32,
                    uncomp_size: le32(d, p + 24) as u32,
                    offset: le32(d, p + 42) as u32,
                    name: decode_utf8(d.subrange(name_start, extra_start)),
                    extra: if extra_len > 0 {
                        Some(d.subrange(extra_start, comment_start))
                    } else {
                        None
                    },
                    comment: if comment_len > 0 {
                        Some(decode_utf8(d.subrange(comment_start, end)))
                    } else {
                        None
                    },
                },
                end,
            ),
        )
    }
}

/// Parses the central directory entry at `p`.
pub fn parse_directory_entry(d: &[u8], p: usize) -> (r: Result<
    (CentralDirectoryEntry, usize),
    RecordError,
>)
    ensures
        match r {
            Ok((e, end)) => directory_entry_at(d@, p as int) == Ok::<(EntryView, int), RecordError>(
                (e@, end as int),
            ),
            Err(x) => directory_entry_at(d@, p as int) == Err::<(EntryView, int), RecordError>(x),
        },
{
    if !has_bytes(d, p, 4) {
        return Err(RecordError::Truncated);
    }
    if u32_le_at(d, p) != MAGIC_CD {
        return Err(RecordError::BadMagic);
    }
    if !has_bytes(d, p, 12) {
        return Err(RecordError::Truncated);
    }
    let method = u16_le_at(d, p + 10);
    if method != 0 && method != 8 {
        return Err(RecordError::UnsupportedMethod(method));
    }
    if !has_bytes(d, p, 30) {
        return Err(RecordError::Truncated);
    }
    let name_len = u16_le_at(d, p + 28) as usize;
    if name_len == 0 {
        return Err(RecordError::MissingName);
    }
    if !has_bytes(d, p, 36) {
        return Err(RecordError::Truncated);
    }
    let extra_len = u16_le_at(d, p + 30) as usize;
    let comment_len = u16_le_at(d, p + 32) as usize;
    if u16_le_at(d, p + 34) > 1 {
        return Err(RecordError::MultiDisk);
    }
    if !has_bytes(d, p, CD_FIXED_SIZE) {
        return Err(RecordError::Truncated);
    }
    let name_start = p + CD_FIXED_SIZE;
    if !has_bytes(d, name_start, name_len) {
        return Err(RecordError::Truncated);
    }
    let name = match utf8_field(d, name_start, name_len) {
        Some(s) => s,
        None => {
            return Err(RecordError::NotUtf8);
        },
    };
    let extra_start = name_start + name_len;
    if !has_bytes(d, extra_start, extra_len) {
        return Err(RecordError::Truncated);
    }
    let comment_start = extra_start + extra_len;
    if !has_bytes(d, comment_start, comment_len) {
        return Err(RecordError::Truncated);
    }
    let end = comment_start + comment_len;
    let comment = if comment_len > 0 {
        match utf8_field(d, comment_start, comment_len) {
            Some(s) => Some(s),
            None => {
                return Err(RecordError::NotUtf8);
            },
        }
    } else {
        None
    };
    let extra = if extra_len > 0 {
        Some(vstd::slice::slice_to_vec(&d[extra_start..comment_start]))
    } else {
        None
    };
    let e = CentralDirectoryEntry {
        crc32: u32_le_at(d, p + 16),
        comp_size: u32_le_at(d, p + 20),
        uncomp_size: u32_le_at(d, p + 24),
        offset: u32_le_at(d, p + 42),
        name,
        extra,
        comment,
    };
    Ok((e, end))
}

/// The local file header at `p`: its compression method and the offset at
/// which its payload starts.
pub open spec fn local_header_at(d: Seq<u8>, p: int) -> Result<(u16, int), RecordError> {
    let method = le16(d, p + 8);
    let name_len = le16(d, p + 26);
    let extra_len = le16(d, p + 28);
    let name_start = p + LFH_FIXED_SIZE;
    let extra_start = name_start + name_len;
    if !fits(d, p, 4) {
        Err(RecordError::Truncated)
    } else if le32(d, p) != MAGIC_LFH {
        Err(RecordError::BadMagic)
    } else if !fits(d, p, 10) {
        Err(RecordError::Truncated)
    } else if !supported_method(method) {
        Err(RecordError::UnsupportedMethod(method as u16))
    } else if !fits(d, p, 28) {
        Err(RecordError::Truncated)
    } else if name_len == 0 {
        Err(RecordError::MissingName)
    } else if !fits(d, p, LFH_FIXED_SIZE as int) || !fits(d, name_start, name_len) {
        Err(RecordError::Truncated)
    } else if !valid_utf8(d.subrange(name_start, extra_start)) {
        Err(RecordError::NotUtf8)
    } else if !fits(d, extra_start, extra_len) {
        Err(RecordError::Truncated)
    } else {
        Ok((method as u16, extra_start + extra_len))
    }
}

/// Parses the local file header at `p`.
pub fn parse_local_header(d: &[u8], p: usize) -> (r: Result<(u16, usize), RecordError>)
    ensures
        match r {
            Ok((m, start)) => local_header_at(d@, p as int) == Ok::<(u16, int), RecordError>(
                (m, start as int),
            ),
            Err(x) => local_header_at(d@, p as int) == Err::<(u16, int), RecordError>(x),
        },
{
    if !has_bytes(d, p, 4) {
        return Err(RecordError::Truncated);
    }
    if u32_le_at(d, p) != MAGIC_LFH {
        return Err(RecordError::BadMagic);
    }
    if !has_bytes(d, p, 10) {
        return Err(RecordError::Truncated);
    }
    let method = u16_le_at(d, p + 8);
    if method != 0 && method != 8 {
        return Err(RecordError::UnsupportedMethod(method));
    }
    if !has_bytes(d, p, 28) {
        return Err(RecordError::Truncated);
    }
    let name_len = u16_le_at(d, p + 26) as usize;
    if name_len == 0 {
        return Err(RecordError::MissingName);
    }
    if !has_bytes(d, p, LFH_FIXED_SIZE) {
        return Err(RecordError::Truncated);
    }
    let extra_len = u16_le_at(d, p + 28) as usize;
    let name_start = p + LFH_FIXED_SIZE;
    if !has_bytes(d, name_start, name_len) {
        return Err(RecordError::Truncated);
    }
    if utf8_field(d, name_start, name_len).is_none() {
        return Err(RecordError::NotUtf8);
    }
    let extra_start = name_start + name_len;
    if !has_bytes(d, extra_start, extra_len) {
        return Err(RecordError::Truncated);
    }
    Ok((method, extra_start + extra_len))
}

/// The first `k` central directory entries, read one after another from
/// `start`, with the offset just past the last of them.
pub open spec fn directory_prefix(d: Seq<u8>, start: int, k: nat) -> Result<
    (Seq<EntryView>, int),
    ZipError,
>
    decreases k,
{
    if k == 0 {
        Ok((Seq::empty(), start))
    } else {
        match directory_prefix(d, start, (k - 1) as nat) {
            Err(e) => Err(e),
            Ok((es, p)) => match directory_entry_at(d, p) {
                Err(x) => Err(ZipError::DirectoryEntry((k - 1) as u16, x)),
                Ok((e, q)) => Ok((es.push(e), q)),
            },
        }
    }
}

/// The central directory that the end record `eocd` describes: exactly
/// `entries` records that together fill exactly `size` bytes from `offset`.
pub open spec fn central_directory(d: Seq<u8>, eocd: EndRecordView) -> Result<
    Seq<EntryView>,
    ZipError,
> {
    match directory_prefix(d, eocd.offset as int, eocd.entries as nat) {
        Err(e) => Err(e),
        Ok((es, end)) => if end == eocd.offset + eocd.size {
            Ok(es)
        } else {
            Err(ZipError::EntryCountMismatch)
        },
    }
}

/// Once a prefix of the directory fails, every longer one fails the same way.
proof fn lemma_prefix_error_persists(d: Seq<u8>, start: int, j: nat, k: nat)
    requires
        j <= k,
        directory_prefix(d, start, j) is Err,
    ensures
        directory_prefix(d, start, k) == directory_prefix(d, start, j),
    decreases k - j,
{
    if j < k {
        lemma_prefix_error_persists(d, start, j, (k - 1) as nat);
    }
}

pub open spec fn entries_view(v: Seq<CentralDirectoryEntry>) -> Seq<EntryView> {
    v.map_values(|e: CentralDirectoryEntry| e@)
}

/// Parses the whole central directory that `eocd` describes; no entry is
/// kept when any of them is malformed.
pub fn parse_directory(d: &[u8], eocd: &EndOfCentralDirectory) -> (r: Result<
    Vec<CentralDirectoryEntry>,
    ZipError,
>)
    ensures
        match r {
            Ok(v) => central_directory(d@, eocd@) == Ok::<Seq<EntryView>, ZipError>(
                entries_view(v@),
            ),
            Err(e) => central_directory(d@, eocd@) == Err::<Seq<EntryView>, ZipError>(e),
        },
{
    let count = eocd.central_directory_entries;
    let start = eocd.offset_of_central_directory as usize;
    let mut entries: Vec<CentralDirectoryEntry> = Vec::new();
    assert(entries_view(entries@) =~= Seq::<EntryView>::empty());
    let mut p: usize = start;
    let mut n: u16 = 0;
    while n < count
        invariant
            n <= count,
            count == eocd.central_directory_entries,
            start == eocd.offset_of_central_directory,
            directory_prefix(d@, start as int, n as nat) == Ok::<(Seq<EntryView>, int), ZipError>(
                (entries_view(entries@), p as int),
            ),
        decreases count - n,
    {
        match parse_directory_entry(d, p) {
            Ok((e, end)) => {
                proof {
                    assert(entries_view(entries@.push(e)) =~= entries_view(entries@).push(e@));
                }
                entries.push(e);
                p = end;
            },
            Err(x) => {
                proof {
                    lemma_prefix_error_persists(d@, start as int, (n + 1) as nat, count as nat);
                }
                return Err(ZipError::DirectoryEntry(n, x));
            },
        }
        n = n + 1;
    }
    let size = eocd.size_of_central_directory as usize;
    if p < start || p - start != size {
        return Err(ZipError::EntryCountMismatch);
    }
    Ok(entries)
}

/// Where the `k`-th central directory record starts, when the ones before it parse.
pub open spec fn entry_offset(d: Seq<u8>, start: int, k: nat) -> int {
    directory_prefix(d, start, k)->Ok_0.1
}

proof fn lemma_prefix_parts(d: Seq<u8>, start: int, k: nat, n: nat)
    requires
        k < n,
        directory_prefix(d, start, n) is Ok,
    ensures
        directory_prefix(d, start, k) is Ok,
        directory_prefix(d, start, (k + 1) as nat) is Ok,
        directory_prefix(d, start, n)->Ok_0.0.len() == n,
        directory_prefix(d, start, n)->Ok_0.0.subrange(0, k as int + 1) == directory_prefix(
            d,
            start,
            (k + 1) as nat,
        )->Ok_0.0,
        directory_entry_at(d, entry_offset(d, start, k)) == Ok::<(EntryView, int), RecordError>(
            (
                directory_prefix(d, start, n)->Ok_0.0[k as int],
                entry_offset(d, start, (k + 1) as nat),
            ),
        ),
    decreases n,
{
    let es = directory_prefix(d, start, n)->Ok_0.0;
    let prev = directory_prefix(d, start, (n - 1) as nat);
    if n > 0 && prev is Err {
        assert(directory_prefix(d, start, n) == prev);
    }
    if (n - 1) as nat > k {
        lemma_prefix_parts(d, start, k, (n - 1) as nat);
        assert(es.subrange(0, k as int + 1) =~= prev->Ok_0.0.subrange(0, k as int + 1));
    } else {
        if k > 0 {
            lemma_prefix_parts(d, start, (k - 1) as nat, k);
        } else {
            assert(prev->Ok_0.0.len() == 0);
        }
        assert(es.subrange(0, k as int + 1) =~= es);
    }
}

/// A central directory that parses holds exactly as many entries as the end
/// record declares, in archive order: its `k`-th entry is the record that
/// starts where the `k` before it end.
pub proof fn directory_has_declared_entries(d: Seq<u8>, eocd: EndRecordView)
    requires
        central_directory(d, eocd) is Ok,
    ensures
        central_directory(d, eocd)->Ok_0.len() == eocd.entries,
        forall|k: nat|
            k < eocd.entries ==> #[trigger] directory_entry_at(
                d,
                entry_offset(d, eocd.offset as int, k),
            ) == Ok::<(EntryView, int), RecordError>(
                (
                    central_directory(d, eocd)->Ok_0[k as int],
                    entry_offset(d, eocd.offset as int, k + 1),
                ),
            ),
{
    let n = eocd.entries as nat;
    let start = eocd.offset as int;
    if n > 0 {
        lemma_prefix_parts(d, start, 0, n);
    } else {
        assert(directory_prefix(d, start, n)->Ok_0.0.len() == 0);
    }
    assert forall|k: nat| k < eocd.entries implies #[trigger] directory_entry_at(
        d,
        entry_offset(d, start, k),
    ) == Ok::<(EntryView, int), RecordError>(
        (central_directory(d, eocd)->Ok_0[k as int], entry_offset(d, start, k + 1)),
    ) by {
        lemma_prefix_parts(d, start, k, n);
    }
}

proof fn lemma_prefix_builds(d: Seq<u8>, start: int, n: nat)
    requires
        forall|k: nat|
            k < n && #[trigger] directory_prefix(d, start, k) is Ok ==> directory_entry_at(
                d,
                entry_offset(d, start, k),
            ) is Ok,
    ensures
        directory_prefix(d, start, n) is Ok,
        directory_prefix(d, start, n)->Ok_0.0.len() == n,
    decreases n,
{
    if n > 0 {
        let m = (n - 1) as nat;
        assert forall|k: nat|
            k < m && #[trigger] directory_prefix(d, start, k) is Ok implies directory_entry_at(
            d,
            entry_offset(d, start, k),
        ) is Ok by {}
        lemma_prefix_builds(d, start, m);
        assert(directory_prefix(d, start, m) is Ok);
    }
}

/// When the declared number of records parse one after another from the
/// directory's offset, the directory yields exactly that many entries; the
/// whole directory is accepted when they also end where its declared size does.
pub proof fn records_in_sequence_parse(d: Seq<u8>, eocd: EndRecordView)
    requires
        forall|k: nat|
            k < eocd.entries && #[trigger] directory_prefix(d, eocd.offset as int, k) is Ok
                ==> directory_entry_at(d, entry_offset(d, eocd.offset as int, k)) is Ok,
    ensures
        directory_prefix(d, eocd.offset as int, eocd.entries as nat) is Ok,
        directory_prefix(d, eocd.offset as int, eocd.entries as nat)->Ok_0.0.len() == eocd.entries,
        entry_offset(d, eocd.offset as int, eocd.entries as nat) == eocd.offset + eocd.size
            ==> central_directory(d, eocd) is Ok && central_directory(d, eocd)->Ok_0.len()
            == eocd.entries,
{
    lemma_prefix_builds(d, eocd.offset as int, eocd.entries as nat);
}

/// A directory record that lacks its signature makes the whole directory
/// fail with a format error: no entry is returned, and none extracted.
pub proof fn bad_directory_signature_fails(d: Seq<u8>, eocd: EndRecordView, k: nat)
    requires
        k < eocd.entries,
        directory_prefix(d, eocd.offset as int, k) is Ok,
        fits(d, entry_offset(d, eocd.offset as int, k), 4),
        le32(d, entry_offset(d, eocd.offset as int, k)) != MAGIC_CD,
    ensures
        central_directory(d, eocd) == Err::<Seq<EntryView>, ZipError>(
            ZipError::DirectoryEntry(k as u16, RecordError::BadMagic),
        ),
{
    lemma_prefix_error_persists(d, eocd.offset as int, k + 1, eocd.entries as nat);
}

/// A directory record that declares a compression method other than store or
/// deflate makes the whole directory fail, before any payload is read.
pub proof fn unsupported_method_fails(d: Seq<u8>, eocd: EndRecordView, k: nat)
    requires
        k < eocd.entries,
        directory_prefix(d, eocd.offset as int, k) is Ok,
        has_signature(d, entry_offset(d, eocd.offset as int, k), MAGIC_CD),
        fits(d, entry_offset(d, eocd.offset as int, k), 12),
        !supported_method(le16(d, entry_offset(d, eocd.offset as int, k) + 10)),
    ensures
        central_directory(d, eocd) == Err::<Seq<EntryView>, ZipError>(
            ZipError::DirectoryEntry(
                k as u16,
                RecordError::UnsupportedMethod(
                    le16(d, entry_offset(d, eocd.offset as int, k) + 10) as u16,
                ),
            ),
        ),
{
    lemma_prefix_error_persists(d, eocd.offset as int, k + 1, eocd.entries as nat);
}

proof fn lemma_scan_finds(d: Seq<u8>, i: int, lowest: int, p: int)
    requires
        0 <= lowest <= p <= i,
        has_signature(d, p, MAGIC_EOCD),
        forall|q: int| p < q <= i ==> !has_signature(d, q, MAGIC_EOCD),
    ensures
        scan_end_record(d, i, lowest) == Some(p),
    decreases i - p,
{
    if i > p {
        lemma_scan_finds(d, i - 1, lowest, p);
    }
}

/// The backward scan finds an end record followed by a comment of any length
/// up to the longest, provided no later offset holds the signature.
pub proof fn end_record_found_before_comment(d: Seq<u8>, comment_len: int)
    requires
        0 <= comment_len <= MAX_COMMENT,
        d.len() >= EOCD_SIZE + comment_len,
        has_signature(d, d.len() - EOCD_SIZE - comment_len, MAGIC_EOCD),
        forall|q: int|
            d.len() - EOCD_SIZE - comment_len < q <= d.len() - EOCD_SIZE ==> !has_signature(
                d,
                q,
                MAGIC_EOCD,
            ),
    ensures
        end_record_position(d) == Some(d.len() - EOCD_SIZE - comment_len),
{
    let top = d.len() - EOCD_SIZE;
    lemma_scan_finds(d, top, end_record_floor(d), top - comment_len);
}

proof fn lemma_scan_misses(d: Seq<u8>, i: int, lowest: int)
    requires
        0 <= lowest,
        forall|q: int| lowest <= q <= i ==> !has_signature(d, q, MAGIC_EOCD),
    ensures
        scan_end_record(d, i, lowest) is None,
    decreases i + 1 - lowest,
{
    if i >= lowest {
        lemma_scan_misses(d, i - 1, lowest);
    }
}

/// Without the end record's signature in the searched tail, extraction fails
/// before anything is read.
pub proof fn missing_end_signature_fails(d: Seq<u8>)
    requires
        forall|q: int|
            end_record_floor(d) <= q <= d.len() - EOCD_SIZE ==> !has_signature(d, q, MAGIC_EOCD),
    ensures
        end_of_central_directory(d) == Err::<EndRecordView, ZipError>(
            ZipError::NoEndOfCentralDirectory,
        ),
{
    if d.len() >= EOCD_SIZE {
        lemma_scan_misses(d, d.len() - EOCD_SIZE, end_record_floor(d));
    }
}

} // verus!
