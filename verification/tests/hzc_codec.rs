use std::io::Write;

use fvp_unpacker::error::{FvpError, SignatureKind};
use fvp_unpacker::hzc::{reorder_pixels, DynamicFvpHzc, PixelLayout};

fn zlib(payload: &[u8]) -> Vec<u8> {
    let mut enc =
        flate2::write::ZlibEncoder::new(Vec::new(), flate2::Compression::default());
    enc.write_all(payload).unwrap();
    enc.finish().unwrap()
}

fn make_hzc_declared(
    color: u16,
    width: u16,
    height: u16,
    ox: u16,
    oy: u16,
    count: u32,
    declared_len: u32,
    payload: &[u8],
) -> Vec<u8> {
    let mut b = Vec::new();
    b.extend_from_slice(b"hzc1");
    b.extend_from_slice(&declared_len.to_le_bytes());
    b.extend_from_slice(&32u32.to_le_bytes());
    // The 32-byte header block: signature, two reserved bytes, the fields,
    // and reserved space that the codec must skip.
    b.extend_from_slice(b"NVSG");
    b.extend_from_slice(&[0, 0]);
    b.extend_from_slice(&color.to_le_bytes());
    b.extend_from_slice(&width.to_le_bytes());
    b.extend_from_slice(&height.to_le_bytes());
    b.extend_from_slice(&ox.to_le_bytes());
    b.extend_from_slice(&oy.to_le_bytes());
    b.extend_from_slice(&[0, 0, 0, 0]);
    b.extend_from_slice(&count.to_le_bytes());
    b.extend_from_slice(&[0; 8]);
    b.extend_from_slice(&zlib(payload));
    b
}

fn make_hzc(
    color: u16,
    width: u16,
    height: u16,
    ox: u16,
    oy: u16,
    count: u32,
    payload: &[u8],
) -> Vec<u8> {
    make_hzc_declared(color, width, height, ox, oy, count, payload.len() as u32, payload)
}

#[test]
fn parse_bgr_frame_and_reorder_to_rgb() {
    // Two pixels stored B,G,R: (10,20,30) and (40,50,60).
    let payload = [10, 20, 30, 40, 50, 60];
    let blob = make_hzc(0, 2, 1, 0, 0, 1, &payload);
    let d = DynamicFvpHzc::parse(&blob).unwrap();
    assert!(matches!(d, DynamicFvpHzc::Bgr(_)));
    let img = d.image();
    assert_eq!(img.layout(), PixelLayout::Bgr);
    assert_eq!(img.width(), 2);
    assert_eq!(img.height(), 1);
    assert_eq!(img.offset(), (0, 0));
    let entries = img.entries();
    assert_eq!(entries.len(), 1);
    assert_eq!(entries[0].data(), &payload);
    // Channel reorder: B,G,R becomes R,G,B per pixel.
    assert_eq!(entries[0].standard_pixels(), vec![30, 20, 10, 60, 50, 40]);
}

#[test]
fn parse_bgra_multi_frame() {
    // Two 1x1 BGRA frames.
    let payload = [1, 2, 3, 4, 5, 6, 7, 8];
    let blob = make_hzc(2, 1, 1, 3, 9, 2, &payload);
    let d = DynamicFvpHzc::parse(&blob).unwrap();
    assert!(matches!(d, DynamicFvpHzc::Bgra(_)));
    let img = d.image();
    let entries = img.entries();
    assert_eq!(entries.len(), 2);
    assert_eq!(entries[0].data(), &[1, 2, 3, 4]);
    assert_eq!(entries[1].data(), &[5, 6, 7, 8]);
    assert_eq!(entries[0].offset(), (3, 9));
    assert_eq!(entries[0].standard_pixels(), vec![3, 2, 1, 4]);
}

#[test]
fn parse_gray_and_zero_count_normalizes_to_one() {
    let payload = [9, 8, 7, 6];
    let blob = make_hzc(3, 2, 2, 0, 0, 0, &payload);
    let d = DynamicFvpHzc::parse(&blob).unwrap();
    assert!(matches!(d, DynamicFvpHzc::Gray(_)));
    let img = d.image();
    let entries = img.entries();
    assert_eq!(entries.len(), 1);
    assert_eq!(entries[0].data(), &payload);
    // Single-channel data needs no reordering.
    assert_eq!(entries[0].standard_pixels(), payload.to_vec());
}

#[test]
fn frames_partition_payload_evenly() {
    // Whenever parsing succeeds, frame count times frame length is exactly
    // the payload length.
    let payload: Vec<u8> = (0..24).collect();
    let blob = make_hzc(3, 4, 2, 0, 0, 3, &payload);
    let d = DynamicFvpHzc::parse(&blob).unwrap();
    let entries = d.image().entries();
    assert_eq!(entries.len(), 3);
    let total: usize = entries.iter().map(|e| e.data().len()).sum();
    assert_eq!(total, payload.len());
    assert_eq!(payload.len() % entries.len(), 0);
}

#[test]
fn unsupported_layout_tag_is_a_typed_error() {
    let payload = [0u8; 4];
    for tag in [4u16, 5, 9, 1000] {
        let blob = make_hzc(tag, 2, 2, 0, 0, 1, &payload);
        let err = DynamicFvpHzc::parse(&blob).unwrap_err();
        match err {
            FvpError::UnsupportedPixelLayout { found } => assert_eq!(found, tag),
            other => panic!("expected UnsupportedPixelLayout, got {:?}", other),
        }
    }
}

#[test]
fn outer_signature_mismatch_carries_found_bytes() {
    let mut blob = make_hzc(0, 1, 1, 0, 0, 1, &[1, 2, 3]);
    blob[0] = b'x';
    let err = DynamicFvpHzc::parse(&blob).unwrap_err();
    match err {
        FvpError::FormatMismatch { format, expected, found } => {
            assert_eq!(format, SignatureKind::HzcFile);
            assert_eq!(expected, b"hzc1".to_vec());
            assert_eq!(found, vec![b'x', b'z', b'c', b'1']);
        }
        other => panic!("expected FormatMismatch, got {:?}", other),
    }
}

#[test]
fn inner_signature_mismatch_carries_found_bytes() {
    let mut blob = make_hzc(0, 1, 1, 0, 0, 1, &[1, 2, 3]);
    blob[12] = b'M';
    let err = DynamicFvpHzc::parse(&blob).unwrap_err();
    match err {
        FvpError::FormatMismatch { format, expected, found } => {
            assert_eq!(format, SignatureKind::HzcHeader);
            assert_eq!(expected, b"NVSG".to_vec());
            assert_eq!(found, vec![b'M', b'V', b'S', b'G']);
        }
        other => panic!("expected FormatMismatch, got {:?}", other),
    }
}

#[test]
fn decompressed_length_mismatch_is_detected() {
    let payload = [1u8, 2, 3];
    let blob = make_hzc_declared(3, 3, 1, 0, 0, 1, 4, &payload);
    let err = DynamicFvpHzc::parse(&blob).unwrap_err();
    match err {
        FvpError::DecompressLengthMismatch { expected, found } => {
            assert_eq!(expected, 4);
            assert_eq!(found, 3);
        }
        other => panic!("expected DecompressLengthMismatch, got {:?}", other),
    }
}

#[test]
fn corrupt_stream_is_a_decompress_error() {
    let mut b = Vec::new();
    b.extend_from_slice(b"hzc1");
    b.extend_from_slice(&3u32.to_le_bytes());
    b.extend_from_slice(&32u32.to_le_bytes());
    b.extend_from_slice(b"NVSG");
    b.extend_from_slice(&[0; 28]);
    b.extend_from_slice(&[0xff, 0xff, 0xff, 0xff]);
    let err = DynamicFvpHzc::parse(&b).unwrap_err();
    assert!(matches!(err, FvpError::CannotDecompress));
}

#[test]
fn payload_not_divisible_by_frame_count_fails() {
    let payload = [1u8, 2, 3];
    let blob = make_hzc(3, 1, 1, 0, 0, 2, &payload);
    let err = DynamicFvpHzc::parse(&blob).unwrap_err();
    match err {
        FvpError::PartitionMismatch { frames, length } => {
            assert_eq!(frames, 2);
            assert_eq!(length, 3);
        }
        other => panic!("expected PartitionMismatch, got {:?}", other),
    }
}

#[test]
fn frame_size_must_match_declared_geometry() {
    let payload = [1u8, 2];
    let blob = make_hzc(3, 2, 2, 0, 0, 1, &payload);
    let err = DynamicFvpHzc::parse(&blob).unwrap_err();
    match err {
        FvpError::DimensionMismatch { expected, found } => {
            assert_eq!(expected, 4);
            assert_eq!(found, 2);
        }
        other => panic!("expected DimensionMismatch, got {:?}", other),
    }
}

#[test]
fn truncated_blob_fails_with_offset_error() {
    let err = DynamicFvpHzc::parse(b"hz").unwrap_err();
    assert!(matches!(err, FvpError::OffsetTooLarge));
    let err = DynamicFvpHzc::parse(b"hzc1\x01\x00\x00\x00").unwrap_err();
    assert!(matches!(err, FvpError::OffsetTooLarge));
}

#[test]
fn reordering_twice_restores_the_original_bytes() {
    let bgr: Vec<u8> = (0..30).collect();
    let once = reorder_pixels(PixelLayout::Bgr, &bgr);
    assert_ne!(once, bgr);
    let twice = reorder_pixels(PixelLayout::Bgr, &once);
    assert_eq!(twice, bgr);

    let bgra: Vec<u8> = (100..140).collect();
    let twice = reorder_pixels(PixelLayout::Bgra, &reorder_pixels(PixelLayout::Bgra, &bgra));
    assert_eq!(twice, bgra);

    let gray: Vec<u8> = vec![5, 6, 7];
    assert_eq!(reorder_pixels(PixelLayout::Gray, &gray), gray);
}
