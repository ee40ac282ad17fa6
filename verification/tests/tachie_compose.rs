use fvp_unpacker::error::FvpError;
use fvp_unpacker::hzc::{FvpHzc, FvpHzcEntry, PixelLayout};

fn frame(
    layout: PixelLayout,
    w: u16,
    h: u16,
    offset: (u16, u16),
    data: Vec<u8>,
) -> FvpHzcEntry {
    FvpHzcEntry::new(layout, w, h, offset, data).unwrap()
}

fn image(
    layout: PixelLayout,
    w: u16,
    h: u16,
    offset: (u16, u16),
    frames: Vec<Vec<u8>>,
) -> FvpHzc {
    let mut img = FvpHzc::new(layout, w, h, offset);
    for data in frames {
        img.add_entry(frame(layout, w, h, offset, data)).unwrap();
    }
    img
}

#[test]
fn composite_overwrites_exactly_the_placement_rectangle() {
    // A 4x3 gray base, one frame, placed at the origin.
    let base_data: Vec<u8> = (0..12).collect();
    let base = image(PixelLayout::Gray, 4, 3, (0, 0), vec![base_data.clone()]);
    // Two 2x2 gray expression frames placed at (1, 1).
    let e0: Vec<u8> = vec![100, 101, 102, 103];
    let e1: Vec<u8> = vec![200, 201, 202, 203];
    let expr = image(PixelLayout::Gray, 2, 2, (1, 1), vec![e0.clone(), e1.clone()]);

    let composites = base.tachie(&expr).unwrap();
    assert_eq!(composites.len(), 2);

    for (c, e) in composites.iter().zip([&e0, &e1]) {
        assert_eq!(c.width(), 4);
        assert_eq!(c.height(), 3);
        assert_eq!(c.offset(), (0, 0));
        assert_eq!(c.layout(), PixelLayout::Gray);
        let out = c.data();
        assert_eq!(out.len(), base_data.len());
        for row in 0..3usize {
            for col in 0..4usize {
                let k = row * 4 + col;
                if (1..3).contains(&row) && (1..3).contains(&col) {
                    assert_eq!(out[k], e[(row - 1) * 2 + (col - 1)]);
                } else {
                    assert_eq!(out[k], base_data[k]);
                }
            }
        }
    }
}

#[test]
fn composite_exact_bytes_bgra() {
    // A 2x1 BGRA base and a 1x1 expression frame placed at (1, 0).
    let base = image(PixelLayout::Bgra, 2, 1, (0, 0), vec![vec![1, 2, 3, 4, 5, 6, 7, 8]]);
    let expr = image(PixelLayout::Bgra, 1, 1, (1, 0), vec![vec![90, 91, 92, 93]]);
    let composites = base.tachie(&expr).unwrap();
    assert_eq!(composites.len(), 1);
    assert_eq!(composites[0].data(), &[1, 2, 3, 4, 90, 91, 92, 93]);
}

#[test]
fn composites_are_independent_of_one_another() {
    let base = image(PixelLayout::Gray, 2, 2, (0, 0), vec![vec![9, 9, 9, 9]]);
    let expr = image(
        PixelLayout::Gray,
        1,
        1,
        (0, 0),
        vec![vec![1], vec![2], vec![3]],
    );
    let composites = base.tachie(&expr).unwrap();
    assert_eq!(composites.len(), 3);
    assert_eq!(composites[0].data(), &[1, 9, 9, 9]);
    assert_eq!(composites[1].data(), &[2, 9, 9, 9]);
    assert_eq!(composites[2].data(), &[3, 9, 9, 9]);
}

#[test]
fn layout_mismatch_is_rejected() {
    let base = image(PixelLayout::Bgra, 1, 1, (0, 0), vec![vec![1, 2, 3, 4]]);
    let expr = image(PixelLayout::Gray, 1, 1, (0, 0), vec![vec![7]]);
    let err = base.tachie(&expr).unwrap_err();
    assert!(matches!(err, FvpError::LayoutMismatch));
}

#[test]
fn multiple_base_frames_are_rejected() {
    let base = image(PixelLayout::Gray, 1, 1, (0, 0), vec![vec![1], vec![2]]);
    let expr = image(PixelLayout::Gray, 1, 1, (0, 0), vec![vec![7]]);
    let err = base.tachie(&expr).unwrap_err();
    assert!(matches!(err, FvpError::MultipleBaseFrames));
}

#[test]
fn out_of_bounds_placement_is_rejected() {
    let base = image(PixelLayout::Gray, 4, 4, (0, 0), vec![vec![0; 16]]);
    let expr = image(PixelLayout::Gray, 2, 2, (3, 3), vec![vec![1, 2, 3, 4]]);
    let err = base.tachie(&expr).unwrap_err();
    assert!(matches!(err, FvpError::PlacementOutOfBounds));
}

#[test]
fn frame_buffer_must_match_declared_size() {
    let err = FvpHzcEntry::new(PixelLayout::Bgr, 2, 2, (0, 0), vec![0; 5]).unwrap_err();
    match err {
        FvpError::DimensionMismatch { expected, found } => {
            assert_eq!(expected, 12);
            assert_eq!(found, 5);
        }
        other => panic!("expected DimensionMismatch, got {:?}", other),
    }
}

#[test]
fn added_frame_must_agree_with_the_container() {
    let mut img = FvpHzc::new(PixelLayout::Gray, 2, 2, (5, 5));

    let e = frame(PixelLayout::Gray, 3, 2, (5, 5), vec![0; 6]);
    match img.add_entry(e).unwrap_err() {
        FvpError::ImageWidthMismatch { expected, found } => {
            assert_eq!(expected, 2);
            assert_eq!(found, 3);
        }
        other => panic!("expected ImageWidthMismatch, got {:?}", other),
    }

    let e = frame(PixelLayout::Gray, 2, 1, (5, 5), vec![0; 2]);
    match img.add_entry(e).unwrap_err() {
        FvpError::ImageHeightMismatch { expected, found } => {
            assert_eq!(expected, 2);
            assert_eq!(found, 1);
        }
        other => panic!("expected ImageHeightMismatch, got {:?}", other),
    }

    let e = frame(PixelLayout::Gray, 2, 2, (0, 5), vec![0; 4]);
    match img.add_entry(e).unwrap_err() {
        FvpError::ImageOffsetMismatch { expected, found } => {
            assert_eq!(expected, (5, 5));
            assert_eq!(found, (0, 5));
        }
        other => panic!("expected ImageOffsetMismatch, got {:?}", other),
    }

    let e = frame(PixelLayout::Bgr, 2, 2, (5, 5), vec![0; 12]);
    match img.add_entry(e).unwrap_err() {
        FvpError::LayoutMismatch => {}
        other => panic!("expected LayoutMismatch, got {:?}", other),
    }

    let e = frame(PixelLayout::Gray, 2, 2, (5, 5), vec![1, 2, 3, 4]);
    img.add_entry(e).unwrap();
    assert_eq!(img.entries().len(), 1);
    assert_eq!(img.entries()[0].data(), &[1, 2, 3, 4]);
}
