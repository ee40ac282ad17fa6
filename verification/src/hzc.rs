//! The tiled-image codec: a compressed blob holding one or more raster
//! frames that share a size and a placement.
//!
//! A blob starts with the `hzc1` signature, the decompressed payload size
//! and the header size; the header block carries the `NVSG` signature, the
//! pixel-layout tag, the frame geometry and the frame count, and its extra
//! bytes are reserved and skipped. The rest is one zlib stream whose
//! decompressed bytes split into `count` equal frames. Each frame's bytes
//! stand in one of a closed set of pixel layouts, and reordering them into
//! the standard channel order is part of this module.

use vstd::arithmetic::div_mod::{lemma_fundamental_div_mod, lemma_fundamental_div_mod_converse};
use vstd::arithmetic::mul::lemma_mul_inequality;
use vstd::prelude::*;

use crate::error::{ErrModel, FvpError, FvpResult, SignatureKind};
use crate::fread::{read_u16, read_u32, spec_read_u16, spec_read_u32};

verus! {

/// The closed set of pixel layouts this codec decodes. Tags 1 and 2 are
/// distinct upstream variants with the same byte layout; both map to
/// `Bgra` here, deliberately not distinguishing their alpha semantics.
/// Tag 4 is reserved and unsupported, as is any unknown tag.
#[derive(Clone, Copy, Debug, PartialEq, Eq, Structural)]
pub enum PixelLayout {
    /// Three bytes per pixel, stored blue, green, red.
    Bgr,
    /// Four bytes per pixel, stored blue, green, red, alpha.
    Bgra,
    /// One byte per pixel.
    Gray,
}

impl PixelLayout {
    /// Bytes per pixel.
    pub open spec fn spec_bpp(self) -> int {
        match self {
            PixelLayout::Bgr => 3,
            PixelLayout::Bgra => 4,
            PixelLayout::Gray => 1,
        }
    }

    /// Bytes per pixel.
    pub fn bpp(&self) -> (r: u64)
        ensures
            r == self.spec_bpp(),
            1 <= r <= 4,
    {
        match self {
            PixelLayout::Bgr => 3,
            PixelLayout::Bgra => 4,
            PixelLayout::Gray => 1,
        }
    }
}

/// The layout a tag denotes, or `None` for the reserved tag 4 and every
/// unknown value.
pub open spec fn spec_layout_of(tag: u16) -> Option<PixelLayout> {
    if tag == 0 {
        Some(PixelLayout::Bgr)
    } else if tag == 1 || tag == 2 {
        Some(PixelLayout::Bgra)
    } else if tag == 3 {
        Some(PixelLayout::Gray)
    } else {
        None
    }
}

/// Where byte `k` of a frame in standard channel order comes from in the
/// stored order: within each pixel the colour channels reverse (blue, green,
/// red becomes red, green, blue), alpha and single-channel bytes stay.
pub open spec fn swap_index(layout: PixelLayout, k: int) -> int {
    match layout {
        PixelLayout::Bgr => 3 * (k / 3) + (2 - (k % 3)),
        PixelLayout::Bgra => if k % 4 == 3 {
            k
        } else {
            4 * (k / 4) + (2 - (k % 4))
        },
        PixelLayout::Gray => k,
    }
}

/// A frame's bytes reordered from the stored layout into the standard
/// channel order (red, green, blue, then alpha if present).
pub open spec fn reordered(layout: PixelLayout, data: Seq<u8>) -> Seq<u8> {
    Seq::new(data.len(), |k: int| data[swap_index(layout, k)])
}

/// For a buffer of whole pixels, `swap_index` stays inside the pixel that
/// `k` lies in, and applying it twice leads back to `k`.
pub proof fn lemma_swap_index(layout: PixelLayout, len: int, k: int)
    requires
        0 <= k < len,
        len % layout.spec_bpp() == 0,
    ensures
        0 <= swap_index(layout, k) < len,
        swap_index(layout, swap_index(layout, k)) == k,
{
    let b = layout.spec_bpp();
    lemma_fundamental_div_mod(k, b);
    lemma_fundamental_div_mod(len, b);
    let q = k / b;
    let r = k % b;
    assert(0 <= r < b);
    let s = swap_index(layout, k);
    if layout == PixelLayout::Gray {
    } else {
        let rs = if layout == PixelLayout::Bgra && r == 3 {
            r
        } else {
            2 - r
        };
        assert(s == b * q + rs);
        assert(0 <= rs < b);
        lemma_fundamental_div_mod_converse(s, b, q, rs);
        assert(s / b == q && s % b == rs);
        // Stays inside the buffer: the pixel base b*q is at most len - b.
        assert(b * q + b <= len) by (nonlinear_arith)
            requires
                len % b == 0,
                k == b * q + r,
                0 <= r < b,
                k < len,
                0 < b,
        {}
        assert(swap_index(layout, s) == b * q + (if layout == PixelLayout::Bgra && rs == 3 {
            rs
        } else {
            2 - rs
        }));
    }
}

/// Reordering is an involution: reinterpreting the standard-order bytes as
/// stored-order bytes and reordering again reproduces the original buffer.
pub proof fn lemma_reorder_involution(layout: PixelLayout, data: Seq<u8>)
    requires
        data.len() as int % layout.spec_bpp() == 0,
    ensures
        reordered(layout, reordered(layout, data)) == data,
{
    let once = reordered(layout, data);
    let twice = reordered(layout, once);
    assert forall|k: int| 0 <= k < data.len() implies twice[k] == data[k] by {
        lemma_swap_index(layout, data.len() as int, k);
        lemma_swap_index(layout, data.len() as int, swap_index(layout, k));
    }
    assert(twice =~= data);
}

/// Reorders a frame's bytes into the standard channel order.
pub fn reorder_pixels(layout: PixelLayout, data: &[u8]) -> (r: Vec<u8>)
    requires
        data@.len() as int % layout.spec_bpp() == 0,
    ensures
        r@ == reordered(layout, data@),
{
    let bpp: u64 = layout.bpp();
    let mut out: Vec<u8> = Vec::new();
    let mut k: usize = 0;
    while k < data.len()
        invariant
            data@.len() as int % layout.spec_bpp() == 0,
            bpp == layout.spec_bpp(),
            k <= data@.len(),
            out@.len() == k as int,
            forall|j: int| 0 <= j < k as int ==> out@[j] == data@[swap_index(layout, j)],
        decreases data@.len() - k,
    {
        proof {
            lemma_swap_index(layout, data@.len() as int, k as int);
        }
        let k64: u64 = k as u64;
        let rem: u64 = k64 % bpp;
        let src: u64 = match layout {
            PixelLayout::Gray => k64,
            PixelLayout::Bgra => if rem == 3 {
                k64
            } else {
                k64 - rem + (2 - rem)
            },
            PixelLayout::Bgr => k64 - rem + (2 - rem),
        };
        proof {
            lemma_fundamental_div_mod(k as int, layout.spec_bpp());
        }
        assert(src as int == swap_index(layout, k as int));
        out.push(data[src as usize]);
        k = k + 1;
    }
    assert(out@ =~= reordered(layout, data@));
    out
}

/// The mathematical model of one decoded frame.
pub ghost struct FrameModel {
    pub layout: PixelLayout,
    pub width: u16,
    pub height: u16,
    pub offset: (u16, u16),
    pub data: Seq<u8>,
}

/// One decoded frame: its pixel layout, geometry, placement and raw bytes
/// in the stored layout. Holds exactly `width * height` pixels.
#[derive(Debug)]
pub struct FvpHzcEntry {
    layout: PixelLayout,
    width: u16,
    height: u16,
    offset: (u16, u16),
    data: Vec<u8>,
}

impl View for FvpHzcEntry {
    type V = FrameModel;

    closed spec fn view(&self) -> FrameModel {
        FrameModel {
            layout: self.layout,
            width: self.width,
            height: self.height,
            offset: self.offset,
            data: self.data@,
        }
    }
}

impl FvpHzcEntry {
    /// Every frame holds exactly `width * height` pixels of its layout;
    /// the constructors establish this and every value keeps it.
    #[verifier::type_invariant]
    pub open spec fn inv(self) -> bool {
        self@.data.len() == self@.width * self@.height * self@.layout.spec_bpp()
    }

    /// Builds a frame; the byte buffer must hold exactly `width * height`
    /// pixels of the layout, else this is a dimension mismatch.
    pub fn new(layout: PixelLayout, width: u16, height: u16, offset: (u16, u16), data: Vec<u8>)
        -> (r: FvpResult<Self>)
        ensures
            match r {
                Ok(e) => data@.len() == width * height * layout.spec_bpp() && e@ == (FrameModel {
                    layout,
                    width,
                    height,
                    offset,
                    data: data@,
                }),
                Err(err) => data@.len() != width * height * layout.spec_bpp() && err@ == (
                ErrModel::DimensionMismatch {
                    expected: width * height * layout.spec_bpp(),
                    found: data@.len() as int,
                }),
            },
    {
        proof {
            assert((width as int) * (height as int) * layout.spec_bpp() < 0x10_0000_0000)
                by (nonlinear_arith)
                requires
                    width as int <= 0xffff && height as int <= 0xffff && 1 <= layout.spec_bpp()
                        <= 4,
            {}
        }
        let whb: u64 = (width as u64) * (height as u64) * layout.bpp();
        if data.len() as u64 != whb {
            return Err(FvpError::DimensionMismatch { expected: whb, found: data.len() as u64 });
        }
        Ok(FvpHzcEntry { layout, width, height, offset, data })
    }

    /// The frame's pixel layout.
    pub fn layout(&self) -> (r: PixelLayout)
        ensures
            r == self@.layout,
    {
        self.layout
    }

    /// The frame's width in pixels.
    pub fn width(&self) -> (r: u16)
        ensures
            r == self@.width,
    {
        self.width
    }

    /// The frame's height in pixels.
    pub fn height(&self) -> (r: u16)
        ensures
            r == self@.height,
    {
        self.height
    }

    /// The placement of the frame on a larger canvas.
    pub fn offset(&self) -> (r: (u16, u16))
        ensures
            r == self@.offset,
    {
        self.offset
    }

    /// The frame's raw bytes, in the stored layout.
    pub fn data(&self) -> (r: &[u8])
        ensures
            r@ == self@.data,
    {
        self.data.as_slice()
    }

    /// The frame's bytes reordered into the standard channel order.
    pub fn standard_pixels(&self) -> (r: Vec<u8>)
        ensures
            r@ == reordered(self@.layout, self@.data),
    {
        proof {
            use_type_invariant(self);
            lemma_whole_pixels(self@.width as int, self@.height as int, self@.layout.spec_bpp());
        }
        reorder_pixels(self.layout, self.data.as_slice())
    }
}

proof fn lemma_whole_pixels(w: int, h: int, b: int)
    requires
        0 <= w,
        0 <= h,
        0 < b,
    ensures
        (w * h * b) % b == 0,
{
    assert((w * h * b) % b == 0) by (nonlinear_arith)
        requires
            0 <= w && 0 <= h && 0 < b,
    {}
}

/// The mathematical model of a decoded tiled image: the shared layout and
/// geometry, and each frame's raw bytes.
pub ghost struct HzcModel {
    pub layout: PixelLayout,
    pub width: u16,
    pub height: u16,
    pub offset: (u16, u16),
    pub frames: Seq<Seq<u8>>,
}

/// A decoded tiled image: an ordered sequence of frames that all share one
/// pixel layout, size and placement.
#[derive(Debug)]
pub struct FvpHzc {
    layout: PixelLayout,
    width: u16,
    height: u16,
    offset: (u16, u16),
    entries: Vec<FvpHzcEntry>,
}

impl View for FvpHzc {
    type V = HzcModel;

    closed spec fn view(&self) -> HzcModel {
        HzcModel {
            layout: self.layout,
            width: self.width,
            height: self.height,
            offset: self.offset,
            frames: self.entries@.map_values(|e: FvpHzcEntry| e@.data),
        }
    }
}

impl FvpHzc {
    #[verifier::type_invariant]
    closed spec fn inv(self) -> bool {
        forall|i: int|
            0 <= i < self.entries@.len() ==> {
                let e = (#[trigger] self.entries@[i])@;
                e.layout == self.layout && e.width == self.width && e.height == self.height
                    && e.offset == self.offset
            }
    }

    /// Builds an empty image with the given shared layout and geometry.
    pub fn new(layout: PixelLayout, width: u16, height: u16, offset: (u16, u16)) -> (r: Self)
        ensures
            r@ == (HzcModel { layout, width, height, offset, frames: Seq::empty() }),
    {
        let h = FvpHzc { layout, width, height, offset, entries: Vec::new() };
        assert(h@.frames =~= Seq::<Seq<u8>>::empty());
        h
    }

    /// Adds a frame; it must agree with the image's layout, size and
    /// placement, and each disagreement is its own error.
    pub fn add_entry(&mut self, entry: FvpHzcEntry) -> (r: FvpResult<()>)
        ensures
            match r {
                Ok(_) => {
                    &&& entry@.layout == old(self)@.layout
                    &&& entry@.width == old(self)@.width
                    &&& entry@.height == old(self)@.height
                    &&& entry@.offset == old(self)@.offset
                    &&& final(self)@ == (HzcModel {
                        frames: old(self)@.frames.push(entry@.data),
                        ..old(self)@
                    })
                },
                Err(e) => {
                    &&& final(self)@ == old(self)@
                    &&& if entry@.layout != old(self)@.layout {
                        e@ == ErrModel::LayoutMismatch
                    } else if entry@.width != old(self)@.width {
                        e@ == (ErrModel::ImageWidthMismatch {
                            expected: old(self)@.width,
                            found: entry@.width,
                        })
                    } else if entry@.height != old(self)@.height {
                        e@ == (ErrModel::ImageHeightMismatch {
                            expected: old(self)@.height,
                            found: entry@.height,
                        })
                    } else {
                        entry@.offset != old(self)@.offset && e@ == (ErrModel::ImageOffsetMismatch {
                            expected: old(self)@.offset,
                            found: entry@.offset,
                        })
                    }
                },
            },
    {
        proof {
            use_type_invariant(&*self);
        }
        if entry.layout() != self.layout {
            return Err(FvpError::LayoutMismatch);
        }
        if entry.width() != self.width {
            return Err(FvpError::ImageWidthMismatch { expected: self.width, found: entry.width() });
        }
        if entry.height() != self.height {
            return Err(
                FvpError::ImageHeightMismatch { expected: self.height, found: entry.height() },
            );
        }
        let eoff = entry.offset();
        if eoff.0 != self.offset.0 || eoff.1 != self.offset.1 {
            return Err(FvpError::ImageOffsetMismatch { expected: self.offset, found: eoff });
        }
        let ghost before = self@;
        let mut entries: Vec<FvpHzcEntry> = Vec::new();
        std::mem::swap(&mut entries, &mut self.entries);
        entries.push(entry);
        self.entries = entries;
        assert(self@.frames =~= before.frames.push(entry@.data));
        Ok(())
    }

    /// The shared pixel layout.
    pub fn layout(&self) -> (r: PixelLayout)
        ensures
            r == self@.layout,
    {
        self.layout
    }

    /// The shared frame width in pixels.
    pub fn width(&self) -> (r: u16)
        ensures
            r == self@.width,
    {
        self.width
    }

    /// The shared frame height in pixels.
    pub fn height(&self) -> (r: u16)
        ensures
            r == self@.height,
    {
        self.height
    }

    /// The shared placement.
    pub fn offset(&self) -> (r: (u16, u16))
        ensures
            r == self@.offset,
    {
        self.offset
    }

    /// The frames, in order. Every frame agrees with the image's layout,
    /// size and placement.
    pub fn entries(&self) -> (r: &Vec<FvpHzcEntry>)
        ensures
            r@.len() == self@.frames.len(),
            forall|i: int|
                0 <= i < r@.len() ==> (#[trigger] r@[i])@ == (FrameModel {
                    layout: self@.layout,
                    width: self@.width,
                    height: self@.height,
                    offset: self@.offset,
                    data: self@.frames[i],
                }),
    {
        proof {
            use_type_invariant(&*self);
        }
        &self.entries
    }
}

/// What inflating a zlib stream yields: `Some` of the decompressed bytes
/// when `src` begins with a well-formed stream, `None` otherwise. The
/// result is a function of the bytes alone.
pub uninterp spec fn zlib_inflate(src: Seq<u8>) -> Option<Seq<u8>>;

/// Relies on `flate2::bufread::ZlibDecoder` driven by `read_to_end`: it
/// decompresses the zlib stream at the start of `src` (ignoring trailing
/// bytes) and fails on a malformed stream.
#[verifier::external_body]
fn zlib_decompress(src: &[u8]) -> (r: FvpResult<Vec<u8>>)
    ensures
        match r {
            Ok(v) => zlib_inflate(src@) == Some(v@),
            Err(e) => zlib_inflate(src@) is None && e@ == ErrModel::CannotDecompress,
        },
{
    let mut z = flate2::bufread::ZlibDecoder::new(src);
    let mut buf = Vec::new();
    match std::io::Read::read_to_end(&mut z, &mut buf) {
        Ok(_) => Ok(buf),
        Err(_) => Err(FvpError::CannotDecompress),
    }
}

/// The outer signature, the bytes of `hzc1`.
pub open spec fn magic_hzc1() -> Seq<u8> {
    seq![104u8, 122u8, 99u8, 49u8]
}

/// The inner header signature, the bytes of `NVSG`.
pub open spec fn magic_nvsg() -> Seq<u8> {
    seq![78u8, 86u8, 83u8, 71u8]
}

/// The fields read from the header block.
pub ghost struct HeaderModel {
    pub color: u16,
    pub width: u16,
    pub height: u16,
    pub offset: (u16, u16),
    pub count: u32,
}

/// What parsing the header block yields: the inner signature is checked,
/// the layout tag, geometry, placement and frame count are read (a raw
/// count of zero is normalized to one), and all further bytes are reserved
/// and skipped.
pub open spec fn spec_parse_header(hb: Seq<u8>) -> Result<HeaderModel, ErrModel> {
    if hb.len() < 4 {
        Err(ErrModel::OffsetTooLarge)
    } else if hb.subrange(0, 4) != magic_nvsg() {
        Err(ErrModel::FormatMismatch {
            format: SignatureKind::HzcHeader,
            expected: magic_nvsg(),
            found: hb.subrange(0, 4),
        })
    } else if hb.len() < 24 {
        Err(ErrModel::OffsetTooLarge)
    } else {
        let raw = spec_read_u32(hb, 20);
        Ok(HeaderModel {
            color: spec_read_u16(hb, 6),
            width: spec_read_u16(hb, 8),
            height: spec_read_u16(hb, 10),
            offset: (spec_read_u16(hb, 12), spec_read_u16(hb, 14)),
            count: if raw == 0 { 1u32 } else { raw },
        })
    }
}

/// What decoding a whole blob yields. The outer signature, the declared
/// decompressed size and the header size are read; the header block is
/// parsed; the rest decompresses as one zlib stream whose length must equal
/// the declared size; the layout tag must be a supported one; and the
/// payload must split into `count` frames of exactly width x height pixels
/// each. The first failing step's error is the result.
pub open spec fn spec_hzc_parse(src: Seq<u8>) -> Result<HzcModel, ErrModel> {
    if src.len() < 4 {
        Err(ErrModel::OffsetTooLarge)
    } else if src.subrange(0, 4) != magic_hzc1() {
        Err(ErrModel::FormatMismatch {
            format: SignatureKind::HzcFile,
            expected: magic_hzc1(),
            found: src.subrange(0, 4),
        })
    } else if src.len() < 12 {
        Err(ErrModel::OffsetTooLarge)
    } else {
        let unpacked = spec_read_u32(src, 4) as int;
        let hsize = spec_read_u32(src, 8) as int;
        if 12 + hsize > src.len() {
            Err(ErrModel::OffsetTooLarge)
        } else {
            match spec_parse_header(src.subrange(12, 12 + hsize)) {
                Err(e) => Err(e),
                Ok(h) => match zlib_inflate(src.subrange(12 + hsize, src.len() as int)) {
                    None => Err(ErrModel::CannotDecompress),
                    Some(data) => if data.len() != unpacked {
                        Err(ErrModel::DecompressLengthMismatch {
                            expected: unpacked,
                            found: data.len() as int,
                        })
                    } else {
                        match spec_layout_of(h.color) {
                            None => Err(ErrModel::UnsupportedPixelLayout { found: h.color }),
                            Some(layout) => {
                                let fcount = h.count as int;
                                let fsize = data.len() as int / fcount;
                                if data.len() as int % fcount != 0 {
                                    Err(ErrModel::PartitionMismatch {
                                        frames: fcount,
                                        length: data.len() as int,
                                    })
                                } else if fsize != h.width * h.height * layout.spec_bpp() {
                                    Err(ErrModel::DimensionMismatch {
                                        expected: h.width * h.height * layout.spec_bpp(),
                                        found: fsize,
                                    })
                                } else {
                                    Ok(HzcModel {
                                        layout,
                                        width: h.width,
                                        height: h.height,
                                        offset: h.offset,
                                        frames: Seq::new(
                                            fcount as nat,
                                            |i: int| data.subrange(i * fsize, (i + 1) * fsize),
                                        ),
                                    })
                                }
                            },
                        }
                    },
                },
            }
        }
    }
}

fn magic_hzc1_vec() -> (r: Vec<u8>)
    ensures
        r@ == magic_hzc1(),
{
    let mut v: Vec<u8> = Vec::new();
    v.push(104u8);
    v.push(122u8);
    v.push(99u8);
    v.push(49u8);
    assert(v@ =~= magic_hzc1());
    v
}

fn magic_nvsg_vec() -> (r: Vec<u8>)
    ensures
        r@ == magic_nvsg(),
{
    let mut v: Vec<u8> = Vec::new();
    v.push(78u8);
    v.push(86u8);
    v.push(83u8);
    v.push(71u8);
    assert(v@ =~= magic_nvsg());
    v
}

/// A decoded tiled image tagged by its pixel layout; the variant always
/// agrees with the image's own layout field.
#[derive(Debug)]
pub enum DynamicFvpHzc {
    Bgr(FvpHzc),
    Bgra(FvpHzc),
    Gray(FvpHzc),
}

impl View for DynamicFvpHzc {
    type V = HzcModel;

    closed spec fn view(&self) -> HzcModel {
        match self {
            DynamicFvpHzc::Bgr(h) => h@,
            DynamicFvpHzc::Bgra(h) => h@,
            DynamicFvpHzc::Gray(h) => h@,
        }
    }
}

impl DynamicFvpHzc {
    /// The decoded image, whichever layout it has.
    pub fn image(&self) -> (r: &FvpHzc)
        ensures
            r@ == self@,
    {
        match self {
            DynamicFvpHzc::Bgr(h) => h,
            DynamicFvpHzc::Bgra(h) => h,
            DynamicFvpHzc::Gray(h) => h,
        }
    }

    /// Decodes one tiled-image blob, as [`spec_hzc_parse`] describes:
    /// exactly the inputs with both signatures in place, a well-formed
    /// payload of the declared length, a supported layout tag and an evenly
    /// partitioned payload succeed, and every other input yields the first
    /// failing step's error — never a panic, also on the reserved tag.
    pub fn parse(src: &[u8]) -> (r: FvpResult<DynamicFvpHzc>)
        ensures
            match r {
                Ok(d) => {
                    &&& spec_hzc_parse(src@) == Ok::<HzcModel, ErrModel>(d@)
                    &&& (d matches DynamicFvpHzc::Bgr(_)) <==> d@.layout == PixelLayout::Bgr
                    &&& (d matches DynamicFvpHzc::Bgra(_)) <==> d@.layout == PixelLayout::Bgra
                    &&& (d matches DynamicFvpHzc::Gray(_)) <==> d@.layout == PixelLayout::Gray
                },
                Err(e) => spec_hzc_parse(src@) == Err::<HzcModel, ErrModel>(e@),
            },
    {
        if src.len() < 4 {
            return Err(FvpError::OffsetTooLarge);
        }
        proof {
            let sub = src@.subrange(0, 4);
            assert(sub[0] == src@[0] && sub[1] == src@[1] && sub[2] == src@[2] && sub[3]
                == src@[3]);
        }
        if !(src[0] == 104 && src[1] == 122 && src[2] == 99 && src[3] == 49) {
            let found = vstd::slice::slice_to_vec(vstd::slice::slice_subrange(src, 0, 4));
            assert(src@.subrange(0, 4) != magic_hzc1());
            return Err(
                FvpError::FormatMismatch {
                    format: SignatureKind::HzcFile,
                    expected: magic_hzc1_vec(),
                    found,
                },
            );
        }
        assert(src@.subrange(0, 4) =~= magic_hzc1());
        if src.len() < 12 {
            return Err(FvpError::OffsetTooLarge);
        }
        let unpacked = match read_u32(src, 4) {
            Ok(v) => v,
            Err(_) => {
                assert(false);
                return Err(FvpError::OffsetTooLarge);
            },
        };
        let hsize = match read_u32(src, 8) {
            Ok(v) => v,
            Err(_) => {
                assert(false);
                return Err(FvpError::OffsetTooLarge);
            },
        };
        if 12 + (hsize as u64) > src.len() as u64 {
            return Err(FvpError::OffsetTooLarge);
        }
        let hend: usize = 12 + hsize as usize;
        let hb = vstd::slice::slice_subrange(src, 12, hend);
        if hb.len() < 4 {
            return Err(FvpError::OffsetTooLarge);
        }
        proof {
            let sub = hb@.subrange(0, 4);
            assert(sub[0] == hb@[0] && sub[1] == hb@[1] && sub[2] == hb@[2] && sub[3] == hb@[3]);
        }
        if !(hb[0] == 78 && hb[1] == 86 && hb[2] == 83 && hb[3] == 71) {
            let found = vstd::slice::slice_to_vec(vstd::slice::slice_subrange(hb, 0, 4));
            assert(hb@.subrange(0, 4) != magic_nvsg());
            return Err(
                FvpError::FormatMismatch {
                    format: SignatureKind::HzcHeader,
                    expected: magic_nvsg_vec(),
                    found,
                },
            );
        }
        assert(hb@.subrange(0, 4) =~= magic_nvsg());
        let color = match read_u16(hb, 6) {
            Ok(v) => v,
            Err(e) => {
                return Err(e);
            },
        };
        let width = match read_u16(hb, 8) {
            Ok(v) => v,
            Err(e) => {
                return Err(e);
            },
        };
        let height = match read_u16(hb, 10) {
            Ok(v) => v,
            Err(e) => {
                return Err(e);
            },
        };
        let ox = match read_u16(hb, 12) {
            Ok(v) => v,
            Err(e) => {
                return Err(e);
            },
        };
        let oy = match read_u16(hb, 14) {
            Ok(v) => v,
            Err(e) => {
                return Err(e);
            },
        };
        let raw_count = match read_u32(hb, 20) {
            Ok(v) => v,
            Err(e) => {
                return Err(e);
            },
        };
        let count: u32 = if raw_count == 0 {
            1
        } else {
            raw_count
        };
        let ghost header = HeaderModel { color, width, height, offset: (ox, oy), count };
        assert(spec_parse_header(hb@) == Ok::<HeaderModel, ErrModel>(header));
        let data = match zlib_decompress(vstd::slice::slice_subrange(src, hend, src.len())) {
            Ok(d) => d,
            Err(e) => {
                return Err(e);
            },
        };
        if data.len() as u64 != unpacked as u64 {
            return Err(
                FvpError::DecompressLengthMismatch {
                    expected: unpacked as u64,
                    found: data.len() as u64,
                },
            );
        }
        let layout: PixelLayout = if color == 0 {
            PixelLayout::Bgr
        } else if color == 1 || color == 2 {
            PixelLayout::Bgra
        } else if color == 3 {
            PixelLayout::Gray
        } else {
            return Err(FvpError::UnsupportedPixelLayout { found: color });
        };
        assert(spec_layout_of(color) == Some(layout));
        let dlen: u64 = data.len() as u64;
        let fcount: u64 = count as u64;
        if dlen % fcount != 0 {
            return Err(FvpError::PartitionMismatch { frames: count, length: dlen });
        }
        let fsize: u64 = dlen / fcount;
        proof {
            assert((width as int) * (height as int) * layout.spec_bpp() < 0x10_0000_0000)
                by (nonlinear_arith)
                requires
                    width as int <= 0xffff && height as int <= 0xffff && 1 <= layout.spec_bpp()
                        <= 4,
            {}
        }
        let whb: u64 = (width as u64) * (height as u64) * layout.bpp();
        if fsize != whb {
            return Err(FvpError::DimensionMismatch { expected: whb, found: fsize });
        }
        proof {
            lemma_fundamental_div_mod(dlen as int, fcount as int);
        }
        assert(fcount as int * fsize as int == dlen as int);
        let mut entries: Vec<FvpHzcEntry> = Vec::new();
        let mut i: u32 = 0;
        while i < count
            invariant
                fcount == count as u64,
                1 <= fcount,
                dlen == data@.len(),
                dlen <= usize::MAX,
                fcount as int * fsize as int == dlen as int,
                fsize == (width as int) * (height as int) * layout.spec_bpp(),
                i <= count,
                entries@.len() == i as int,
                forall|j: int|
                    0 <= j < i as int ==> (#[trigger] entries@[j])@ == (FrameModel {
                        layout,
                        width,
                        height,
                        offset: (ox, oy),
                        data: data@.subrange(j * fsize as int, (j + 1) * fsize as int),
                    }),
            decreases count - i,
        {
            proof {
                lemma_mul_inequality(i as int + 1, fcount as int, fsize as int);
                assert((i as int + 1) * fsize as int == i as int * fsize as int + fsize as int)
                    by (nonlinear_arith)
                {}
                assert(i as int * fsize as int >= 0) by (nonlinear_arith)
                    requires
                        i as int >= 0 && fsize as int >= 0,
                {}
            }
            let start: u64 = (i as u64) * fsize;
            let end: u64 = start + fsize;
            let fd = vstd::slice::slice_to_vec(
                vstd::slice::slice_subrange(data.as_slice(), start as usize, end as usize),
            );
            entries.push(FvpHzcEntry { layout, width, height, offset: (ox, oy), data: fd });
            i = i + 1;
        }
        let h = FvpHzc { layout, width, height, offset: (ox, oy), entries };
        proof {
            assert(h@.frames =~= Seq::new(
                count as nat,
                |j: int| data@.subrange(j * fsize as int, (j + 1) * fsize as int),
            ));
            assert(spec_hzc_parse(src@) == Ok::<HzcModel, ErrModel>(h@));
        }
        Ok(
            match layout {
                PixelLayout::Bgr => DynamicFvpHzc::Bgr(h),
                PixelLayout::Bgra => DynamicFvpHzc::Bgra(h),
                PixelLayout::Gray => DynamicFvpHzc::Gray(h),
            },
        )
    }
}

/// Whenever a blob decodes, its decompressed payload partitions exactly:
/// every frame holds width x height pixels of the layout, and the payload's
/// length is the frame count times that size — in particular, it is evenly
/// divisible by the frame count. Payloads that violate this never decode.
pub proof fn lemma_payload_partitions_evenly(src: Seq<u8>, m: HzcModel)
    requires
        spec_hzc_parse(src) == Ok::<HzcModel, ErrModel>(m),
    ensures
        m.frames.len() >= 1,
        forall|i: int|
            0 <= i < m.frames.len() ==> (#[trigger] m.frames[i]).len() == m.width * m.height
                * m.layout.spec_bpp(),
        (match zlib_inflate(
            src.subrange(12 + spec_read_u32(src, 8) as int, src.len() as int),
        ) {
            Some(data) => data.len() == m.frames.len() * (m.width * m.height
                * m.layout.spec_bpp()) && data.len() as int % (m.frames.len() as int) == 0,
            None => false,
        }),
{
    let hsize = spec_read_u32(src, 8) as int;
    let data = zlib_inflate(src.subrange(12 + hsize, src.len() as int)).unwrap();
    let h = spec_parse_header(src.subrange(12, 12 + hsize))->Ok_0;
    let fcount = h.count as int;
    let fsize = data.len() as int / fcount;
    lemma_fundamental_div_mod(data.len() as int, fcount);
    assert(m.frames.len() == fcount);
    assert forall|i: int| 0 <= i < fcount implies (#[trigger] m.frames[i]).len() == fsize by {
        assert(0 <= i * fsize && (i + 1) * fsize == i * fsize + fsize && (i + 1) * fsize
            <= fcount * fsize) by (nonlinear_arith)
            requires
                0 <= i,
                i < fcount,
                0 <= fsize,
        {}
    }
}

} // verus!
