use flate2::write::DeflateEncoder;
use flate2::Compression;
use sekurak_hex_gynvael::paths::{confine_path, sanitize_path};
use sekurak_hex_gynvael::records::RecordError;
use sekurak_hex_gynvael::unzip::{decompress, UnpackedFile, ZipError, ZipFile};
use std::io::Write;

struct Member {
    name: Vec<u8>,
    cd_method: u16,
    local_method: u16,
    payload: Vec<u8>,
    comp_size: u32,
    uncomp_size: u32,
}

fn stored(name: &str, data: &[u8]) -> Member {
    Member {
        name: name.as_bytes().to_vec(),
        cd_method: 0,
        local_method: 0,
        payload: data.to_vec(),
        comp_size: data.len() as u32,
        uncomp_size: data.len() as u32,
    }
}

fn deflate(data: &[u8]) -> Vec<u8> {
    let mut e = DeflateEncoder::new(Vec::new(), Compression::default());
    e.write_all(data).unwrap();
    e.finish().unwrap()
}

fn deflated(name: &str, data: &[u8]) -> Member {
    let payload = deflate(data);
    Member {
        name: name.as_bytes().to_vec(),
        cd_method: 8,
        local_method: 8,
        comp_size: payload.len() as u32,
        payload,
        uncomp_size: data.len() as u32,
    }
}

fn u16le(v: &mut Vec<u8>, x: u16) {
    v.extend_from_slice(&x.to_le_bytes());
}

fn u32le(v: &mut Vec<u8>, x: u32) {
    v.extend_from_slice(&x.to_le_bytes());
}

/// Local headers with payloads, then the central directory, then the end record.
fn build(members: &[Member], comment: &[u8]) -> (Vec<u8>, Vec<usize>, usize) {
    let mut out = Vec::new();
    let mut offsets = Vec::new();
    for m in members {
        offsets.push(out.len());
        u32le(&mut out, 0x04034b50);
        u16le(&mut out, 20);
        u16le(&mut out, 0);
        u16le(&mut out, m.local_method);
        u16le(&mut out, 0);
        u16le(&mut out, 0);
        u32le(&mut out, 0);
        u32le(&mut out, m.comp_size);
        u32le(&mut out, m.uncomp_size);
        u16le(&mut out, m.name.len() as u16);
        u16le(&mut out, 0);
        out.extend_from_slice(&m.name);
        out.extend_from_slice(&m.payload);
    }
    let cd_offset = out.len();
    for (m, off) in members.iter().zip(offsets.iter()) {
        u32le(&mut out, 0x02014b50);
        u16le(&mut out, 20);
        u16le(&mut out, 20);
        u16le(&mut out, 0);
        u16le(&mut out, m.cd_method);
        u16le(&mut out, 0);
        u16le(&mut out, 0);
        u32le(&mut out, 0);
        u32le(&mut out, m.comp_size);
        u32le(&mut out, m.uncomp_size);
        u16le(&mut out, m.name.len() as u16);
        u16le(&mut out, 0);
        u16le(&mut out, 0);
        u16le(&mut out, 0);
        u16le(&mut out, 0);
        u32le(&mut out, 0);
        u32le(&mut out, *off as u32);
        out.extend_from_slice(&m.name);
    }
    let cd_size = out.len() - cd_offset;
    let eocd = out.len();
    u32le(&mut out, 0x06054b50);
    u16le(&mut out, 0);
    u16le(&mut out, 0);
    u16le(&mut out, members.len() as u16);
    u16le(&mut out, members.len() as u16);
    u32le(&mut out, cd_size as u32);
    u32le(&mut out, cd_offset as u32);
    u16le(&mut out, comment.len() as u16);
    out.extend_from_slice(comment);
    (out, offsets, eocd)
}

fn extract_all(archive: Vec<u8>, out: &str) -> Result<Vec<Option<UnpackedFile>>, ZipError> {
    let zip = ZipFile::open(archive, out);
    let eocd = zip.find_end_of_central_directory()?;
    let entries = zip.parse_central_directory(&eocd)?;
    let mut files = Vec::new();
    for e in entries.iter() {
        files.push(zip.unpack_file(e)?);
    }
    Ok(files)
}

#[test]
fn single_stored_entry_lands_in_output_root() {
    let (archive, _, _) = build(&[stored("a.txt", b"hi")], b"");
    let files = extract_all(archive, "out").unwrap();
    assert_eq!(1, files.len());
    let f = files[0].as_ref().unwrap();
    assert_eq!("out/a.txt", f.path);
    assert_eq!("out/", f.dir);
    assert_eq!(b"hi".to_vec(), f.data);
}

#[test]
fn entry_count_and_order_follow_the_directory() {
    let members = [stored("one", b"1"), deflated("two/2.txt", b"22"), stored("three", b"333")];
    let (archive, _, _) = build(&members, b"");
    let zip = ZipFile::open(archive, "o");
    let eocd = zip.find_end_of_central_directory().unwrap();
    assert_eq!(3, eocd.central_directory_entries);
    let entries = zip.parse_central_directory(&eocd).unwrap();
    let names: Vec<&str> = entries.iter().map(|e| e.name.as_str()).collect();
    assert_eq!(vec!["one", "two/2.txt", "three"], names);
    let paths: Vec<String> = entries
        .iter()
        .map(|e| zip.unpack_file(e).unwrap().unwrap().path)
        .collect();
    assert_eq!(vec!["o/one", "o/two/2.txt", "o/three"], paths);
    let second = zip.unpack_file(&entries[1]).unwrap().unwrap();
    assert_eq!("o/two", second.dir);
    assert_eq!(b"22".to_vec(), second.data);
}

#[test]
fn stored_bytes_come_out_unchanged() {
    let data: Vec<u8> = (0..=255u8).chain((0..=255u8).rev()).collect();
    let (archive, _, _) = build(&[stored("bin.dat", &data)], b"");
    let files = extract_all(archive, "out").unwrap();
    assert_eq!(data, files[0].as_ref().unwrap().data);
}

#[test]
fn deflated_entry_yields_declared_size() {
    let text = b"abcabcabcabcabcabcabcabc hello hello hello".repeat(20);
    let (archive, _, _) = build(&[deflated("t.txt", &text)], b"");
    let files = extract_all(archive, "out").unwrap();
    let f = files[0].as_ref().unwrap();
    assert_eq!(text.len(), f.data.len());
    assert_eq!(text, f.data);
}

#[test]
fn truncated_deflate_stream_is_a_decompression_error() {
    let text = b"0123456789".repeat(50);
    let mut m = deflated("t.txt", &text);
    let half = m.payload.len() / 2;
    m.payload.truncate(half);
    m.comp_size = half as u32;
    let (archive, _, _) = build(&[m], b"");
    assert_eq!(Err(ZipError::Decompress), extract_all(archive, "out").map(|_| ()));
}

#[test]
fn decompress_dispatches_on_method() {
    assert_eq!(Ok(vec![1, 2, 3]), decompress(0, vec![1, 2, 3], 99));
    let packed = deflate(b"xyz");
    assert_eq!(Ok(b"xyz".to_vec()), decompress(8, packed.clone(), 3));
    assert_eq!(Ok(b"xy".to_vec()), decompress(8, packed.clone(), 2));
    assert_eq!(Err(ZipError::Decompress), decompress(8, packed, 4));
    assert_eq!(Err(ZipError::Decompress), decompress(8, vec![0xFF, 0xFF], 1));
}

#[test]
fn end_record_found_with_comment_lengths_zero_one_and_max() {
    for len in [0usize, 1, 65535] {
        let comment = vec![b'c'; len];
        let (archive, _, eocd_at) = build(&[stored("a.txt", b"hi")], &comment);
        assert_eq!(archive.len(), eocd_at + 22 + len);
        let zip = ZipFile::open(archive, "out");
        let eocd = zip.find_end_of_central_directory().unwrap();
        assert_eq!(1, eocd.central_directory_entries);
        if len == 0 {
            assert_eq!(None, eocd.comment);
        } else {
            assert_eq!(Some(String::from_utf8(comment).unwrap()), eocd.comment);
        }
        let entries = zip.parse_central_directory(&eocd).unwrap();
        let f = zip.unpack_file(&entries[0]).unwrap().unwrap();
        assert_eq!(b"hi".to_vec(), f.data);
    }
}

#[test]
fn traversal_names_stay_inside_output_root() {
    let (archive, _, _) = build(&[stored("../../etc/passwd", b"x")], b"");
    let files = extract_all(archive, "out").unwrap();
    let f = files[0].as_ref().unwrap();
    assert_eq!("out/etc/passwd", f.path);
    assert_eq!("out/etc", f.dir);

    let (archive, _, _) = build(&[stored("/etc/passwd", b"x")], b"");
    let files = extract_all(archive, "out").unwrap();
    let f = files[0].as_ref().unwrap();
    assert_eq!("out//etc/passwd", f.path);
    assert!(f.path.starts_with("out/"));
}

#[test]
fn names_that_resolve_to_nothing_are_refused() {
    let (archive, _, _) = build(&[stored("a/../..", b"x")], b"");
    assert_eq!(Err(ZipError::UnsafePath), extract_all(archive, "out").map(|_| ()));
    assert_eq!(ZipError::UnsafePath, sanitize_path("out", ".").err().unwrap());
}

#[test]
fn confinement_check_rejects_dot_components() {
    assert_eq!(ZipError::UnsafePath, confine_path("out", "../x").err().unwrap());
    assert_eq!(ZipError::UnsafePath, confine_path("out", "a/./b").err().unwrap());
    assert_eq!(ZipError::UnsafePath, confine_path("out", "a//b").err().unwrap());
    assert_eq!(ZipError::UnsafePath, confine_path("out", "a/").err().unwrap());
    assert_eq!(ZipError::UnsafePath, confine_path("out", "/").err().unwrap());
    assert_eq!(ZipError::UnsafePath, confine_path("out", "").err().unwrap());
    let ok = confine_path("out", "a/..b/.c").unwrap();
    assert_eq!("out/a/..b/.c", ok.path);
    assert_eq!("out/a/..b", ok.dir);
    let ok = confine_path("root", "//x").unwrap();
    assert_eq!("root///x", ok.path);
    assert_eq!("root//", ok.dir);
}

#[test]
fn directory_entries_are_skipped() {
    let (archive, _, _) = build(&[stored("dir/", b""), stored("dir/f", b"f")], b"");
    let files = extract_all(archive, "out").unwrap();
    assert!(files[0].is_none());
    assert_eq!("out/dir/f", files[1].as_ref().unwrap().path);
}

#[test]
fn missing_end_record_signature_fails() {
    let (mut archive, _, eocd_at) = build(&[stored("a.txt", b"hi")], b"");
    archive[eocd_at] = 0x51;
    assert_eq!(Err(ZipError::NoEndOfCentralDirectory), extract_all(archive, "out").map(|_| ()));
    assert_eq!(Err(ZipError::NoEndOfCentralDirectory), extract_all(vec![0; 10], "out").map(|_| ()));
}

#[test]
fn bad_directory_signature_fails_whole_directory() {
    let members = [stored("a", b"1"), stored("b", b"2")];
    let (mut archive, _, eocd_at) = build(&members, b"");
    let cd_offset = u32::from_le_bytes(archive[eocd_at + 16..eocd_at + 20].try_into().unwrap()) as usize;
    let second = cd_offset + 46 + 1;
    archive[second] = 0;
    let zip = ZipFile::open(archive, "out");
    let eocd = zip.find_end_of_central_directory().unwrap();
    assert_eq!(
        ZipError::DirectoryEntry(1, RecordError::BadMagic),
        zip.parse_central_directory(&eocd).err().unwrap()
    );
}

#[test]
fn bad_local_signature_fails_entry() {
    let (mut archive, offsets, _) = build(&[stored("a", b"1"), stored("b", b"2")], b"");
    archive[offsets[1]] = 0;
    let zip = ZipFile::open(archive, "out");
    let eocd = zip.find_end_of_central_directory().unwrap();
    let entries = zip.parse_central_directory(&eocd).unwrap();
    assert!(zip.unpack_file(&entries[0]).unwrap().is_some());
    assert_eq!(
        ZipError::LocalHeader(RecordError::BadMagic),
        zip.unpack_file(&entries[1]).err().unwrap()
    );
}

#[test]
fn method_99_is_rejected_in_directory_and_local_header() {
    let mut m = stored("a.txt", b"hi");
    m.cd_method = 99;
    let (archive, _, _) = build(&[m], b"");
    assert_eq!(
        Err(ZipError::DirectoryEntry(0, RecordError::UnsupportedMethod(99))),
        extract_all(archive, "out").map(|_| ())
    );
    let mut m = stored("a.txt", b"hi");
    m.local_method = 99;
    let (archive, _, _) = build(&[m], b"");
    assert_eq!(
        Err(ZipError::LocalHeader(RecordError::UnsupportedMethod(99))),
        extract_all(archive, "out").map(|_| ())
    );
}

#[test]
fn multi_disk_archives_are_rejected() {
    let (mut archive, _, eocd_at) = build(&[stored("a.txt", b"hi")], b"");
    archive[eocd_at + 4] = 2;
    assert_eq!(
        Err(ZipError::EndRecord(RecordError::MultiDisk)),
        extract_all(archive, "out").map(|_| ())
    );
}

#[test]
fn empty_name_is_rejected() {
    let (archive, _, _) = build(&[stored("", b"hi")], b"");
    assert_eq!(
        Err(ZipError::DirectoryEntry(0, RecordError::MissingName)),
        extract_all(archive, "out").map(|_| ())
    );
}

#[test]
fn non_utf8_name_is_rejected() {
    let mut m = stored("a", b"hi");
    m.name = vec![0xC3, 0x28];
    let (archive, _, _) = build(&[m], b"");
    assert_eq!(
        Err(ZipError::DirectoryEntry(0, RecordError::NotUtf8)),
        extract_all(archive, "out").map(|_| ())
    );
}

#[test]
fn count_that_does_not_fill_directory_is_rejected() {
    let (mut archive, _, eocd_at) = build(&[stored("a", b"1"), stored("b", b"2")], b"");
    archive[eocd_at + 8] = 1;
    archive[eocd_at + 10] = 1;
    assert_eq!(Err(ZipError::EntryCountMismatch), extract_all(archive, "out").map(|_| ()));
}

#[test]
fn truncated_comment_and_payload_are_reported() {
    let (mut archive, _, _) = build(&[stored("a", b"1")], b"");
    let n = archive.len();
    archive[n - 2] = 5;
    assert_eq!(
        Err(ZipError::EndRecord(RecordError::Truncated)),
        extract_all(archive, "out").map(|_| ())
    );
    let mut m = stored("a", b"hi");
    m.comp_size = 1000;
    let (archive, _, _) = build(&[m], b"");
    assert_eq!(
        Err(ZipError::LocalHeader(RecordError::Truncated)),
        extract_all(archive, "out").map(|_| ())
    );
}
