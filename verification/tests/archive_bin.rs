use fvp_unpacker::bin::{FvpBin, FvpBinEntry};
use fvp_unpacker::error::FvpError;

fn le32(v: u32) -> [u8; 4] {
    v.to_le_bytes()
}

fn single_entry_bin() -> Vec<u8> {
    // entryCount 1, nameTableByteLength 9, one record, "filename\0", "data".
    let mut b = Vec::new();
    b.extend_from_slice(&le32(1));
    b.extend_from_slice(&le32(9));
    b.extend_from_slice(&le32(0));
    b.extend_from_slice(&le32(29));
    b.extend_from_slice(&le32(4));
    b.extend_from_slice(b"filename\0");
    b.extend_from_slice(b"data");
    b
}

fn multiple_entries_bin() -> Vec<u8> {
    let names: [&[u8]; 3] = [b"file1", b"file2", b"file3"];
    let datas: [&[u8]; 3] = [b"The answer to life", b"the universe", b"and everything"];
    let mut b = Vec::new();
    b.extend_from_slice(&le32(3));
    b.extend_from_slice(&le32(18));
    let mut name_off = 0u32;
    let mut data_off = 8 + 36 + 18u32;
    for i in 0..3 {
        b.extend_from_slice(&le32(name_off));
        b.extend_from_slice(&le32(data_off));
        b.extend_from_slice(&le32(datas[i].len() as u32));
        name_off += names[i].len() as u32 + 1;
        data_off += datas[i].len() as u32;
    }
    for name in names {
        b.extend_from_slice(name);
        b.push(0);
    }
    for data in datas {
        b.extend_from_slice(data);
    }
    b
}

#[test]
fn parse_single_entry_bin_archive() {
    let bytes = single_entry_bin();
    let arc = FvpBin::parse(&bytes).unwrap();
    let entries = arc.entries();

    assert_eq!(entries.len(), 1);

    let entry = &entries[0];
    assert_eq!(entry.filename(), "filename");
    assert_eq!(entry.data(), b"data");
}

#[test]
fn parse_multiple_entries_bin_archive() {
    let bytes = multiple_entries_bin();
    let arc = FvpBin::parse(&bytes).unwrap();
    let entries = arc.entries();

    assert_eq!(entries.len(), 3);

    let entry1 = &entries[0];
    assert_eq!(entry1.filename(), "file1");
    assert_eq!(entry1.data(), b"The answer to life");

    let entry2 = &entries[1];
    assert_eq!(entry2.filename(), "file2");
    assert_eq!(entry2.data(), b"the universe");

    let entry3 = &entries[2];
    assert_eq!(entry3.filename(), "file3");
    assert_eq!(entry3.data(), b"and everything");
}

#[test]
fn write_single_entry_bin_archive() {
    let mut arc = FvpBin::default();

    let entry = FvpBinEntry::new("filename".to_string(), b"data".to_vec());
    arc.add_entry(entry);

    let bytes = arc.write().unwrap();

    assert_eq!(bytes, single_entry_bin());
}

#[test]
fn write_multiple_entries_bin_archive() {
    let mut arc = FvpBin::default();

    arc.add_entry(FvpBinEntry::new("file1".to_string(), b"The answer to life".to_vec()));
    arc.add_entry(FvpBinEntry::new("file2".to_string(), b"the universe".to_vec()));
    arc.add_entry(FvpBinEntry::new("file3".to_string(), b"and everything".to_vec()));

    let bytes = arc.write().unwrap();

    assert_eq!(bytes, multiple_entries_bin());
}

#[test]
fn round_trip_preserves_entries_and_order() {
    let mut arc = FvpBin::default();
    arc.add_entry(FvpBinEntry::new("b_second".to_string(), vec![1, 2, 3]));
    arc.add_entry(FvpBinEntry::new("a_first".to_string(), Vec::new()));
    // A Japanese filename exercises the real Shift-JIS conversion: its
    // encoding differs from the UTF-8 bytes of the string.
    arc.add_entry(FvpBinEntry::new("\u{7acb}\u{3061}\u{7d75}".to_string(), vec![0, 255, 0]));

    let bytes = arc.write().unwrap();
    let back = FvpBin::parse(&bytes).unwrap();
    let entries = back.entries();
    assert_eq!(entries.len(), 3);
    assert_eq!(entries[0].filename(), "b_second");
    assert_eq!(entries[0].data(), &[1, 2, 3]);
    assert_eq!(entries[1].filename(), "a_first");
    assert_eq!(entries[1].data(), b"");
    assert_eq!(entries[2].filename(), "\u{7acb}\u{3061}\u{7d75}");
    assert_eq!(entries[2].data(), &[0, 255, 0]);

    // Byte-for-byte reproducibility of the writer's output.
    assert_eq!(back.write().unwrap(), bytes);
}

#[test]
fn write_rejects_unencodable_filename() {
    // The euro sign has no Shift-JIS encoding.
    let mut arc = FvpBin::default();
    arc.add_entry(FvpBinEntry::new("bad\u{20ac}name".to_string(), b"x".to_vec()));
    let err = arc.write().unwrap_err();
    assert!(matches!(err, FvpError::CannotEncodeString));
}

#[test]
fn parse_rejects_undecodable_filename() {
    // 0x81 opens a two-byte Shift-JIS sequence; 0x39 is not a valid trail.
    let mut b = Vec::new();
    b.extend_from_slice(&le32(1));
    b.extend_from_slice(&le32(3));
    b.extend_from_slice(&le32(0));
    b.extend_from_slice(&le32(23));
    b.extend_from_slice(&le32(1));
    b.extend_from_slice(&[0x81, 0x39, 0x00]);
    b.push(7);
    let err = FvpBin::parse(&b).unwrap_err();
    assert!(matches!(err, FvpError::CannotDecodeString));
}

#[test]
fn parse_rejects_truncated_buffer() {
    let err = FvpBin::parse(&[1, 0]).unwrap_err();
    assert!(matches!(err, FvpError::OffsetTooLarge));

    // A full header that promises more records than the buffer holds.
    let mut b = Vec::new();
    b.extend_from_slice(&le32(2));
    b.extend_from_slice(&le32(0));
    let err = FvpBin::parse(&b).unwrap_err();
    assert!(matches!(err, FvpError::OffsetTooLarge));
}

#[test]
fn parse_rejects_data_range_past_end() {
    let mut b = Vec::new();
    b.extend_from_slice(&le32(1));
    b.extend_from_slice(&le32(2));
    b.extend_from_slice(&le32(0));
    b.extend_from_slice(&le32(22));
    b.extend_from_slice(&le32(500));
    b.extend_from_slice(b"n\0");
    b.extend_from_slice(b"xyz");
    let err = FvpBin::parse(&b).unwrap_err();
    assert!(matches!(err, FvpError::OffsetTooLarge));
}

#[test]
fn write_rejects_name_that_drifts_through_encoding() {
    // The yen sign encodes to the backslash byte, which decodes back as a
    // backslash: the round trip drifts, so the writer must refuse it.
    let mut arc = FvpBin::default();
    arc.add_entry(FvpBinEntry::new("price\u{a5}1".to_string(), b"x".to_vec()));
    let err = arc.write().unwrap_err();
    assert!(matches!(err, FvpError::CannotEncodeString));
}

#[test]
fn parse_rejects_name_with_ambiguous_encoding() {
    // 0xED 0x40 lies in a duplicate Shift-JIS range: it decodes to a kanji
    // whose canonical encoding is a different byte pair, so reading the
    // name back would not reproduce the archive's bytes.
    let mut b = Vec::new();
    b.extend_from_slice(&le32(1));
    b.extend_from_slice(&le32(3));
    b.extend_from_slice(&le32(0));
    b.extend_from_slice(&le32(23));
    b.extend_from_slice(&le32(1));
    b.extend_from_slice(&[0xed, 0x40, 0x00]);
    b.push(7);
    let err = FvpBin::parse(&b).unwrap_err();
    assert!(matches!(err, FvpError::CannotDecodeString));
}
