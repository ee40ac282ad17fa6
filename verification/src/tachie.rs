//! The compositor: synthesizing portrait variants by overwriting a
//! rectangle of a base frame with a facial-expression frame.
//!
//! The base image must hold exactly one frame; the expression image holds
//! any number of frames of the same pixel layout. Each composite is an
//! independent copy of the base whose rectangle at the expression frame's
//! placement is overwritten, row by row and byte for byte, with that
//! frame's pixels — no blending, and no sharing between composites.

use vstd::prelude::*;

use crate::error::{ErrModel, FvpError, FvpResult};
use crate::hzc::{FrameModel, FvpHzc, FvpHzcEntry};

verus! {

/// Byte `k` of a canvas `bw` pixels wide lies in the rectangle of width
/// `ew` and height `eh` placed at `(ox, oy)`.
pub open spec fn in_rect(k: int, bw: int, ew: int, eh: int, ox: int, oy: int, bpp: int) -> bool {
    let pix = k / bpp;
    let col = pix % bw;
    let row = pix / bw;
    ox <= col < ox + ew && oy <= row < oy + eh
}

/// The position inside the expression frame that byte `k` of the canvas is
/// overwritten from; meaningful when `in_rect` holds of `k`.
pub open spec fn expr_src(k: int, bw: int, ew: int, ox: int, oy: int, bpp: int) -> int {
    let pix = k / bpp;
    let chan = k % bpp;
    let col = pix % bw;
    let row = pix / bw;
    ((row - oy) * ew + (col - ox)) * bpp + chan
}

/// The composite: a copy of `base` whose rectangle of `ew` x `eh` pixels at
/// `(ox, oy)` is overwritten with the bytes of `expr`; every byte outside
/// that rectangle is the base's own.
pub open spec fn composite_bytes(
    base: Seq<u8>,
    expr: Seq<u8>,
    bw: int,
    ew: int,
    eh: int,
    ox: int,
    oy: int,
    bpp: int,
) -> Seq<u8> {
    Seq::new(
        base.len(),
        |k: int|
            if in_rect(k, bw, ew, eh, ox, oy, bpp) {
                expr[expr_src(k, bw, ew, ox, oy, bpp)]
            } else {
                base[k]
            },
    )
}

/// What compositing does, region by region: the composite is as long as the
/// base, every byte outside the placement rectangle is byte-identical to
/// the base, and every byte inside it is byte-identical to the expression
/// frame's corresponding byte.
pub proof fn lemma_composite_regions(
    base: Seq<u8>,
    expr: Seq<u8>,
    bw: int,
    ew: int,
    eh: int,
    ox: int,
    oy: int,
    bpp: int,
    k: int,
)
    requires
        0 <= k < base.len(),
    ensures
        composite_bytes(base, expr, bw, ew, eh, ox, oy, bpp).len() == base.len(),
        !in_rect(k, bw, ew, eh, ox, oy, bpp) ==> composite_bytes(
            base,
            expr,
            bw,
            ew,
            eh,
            ox,
            oy,
            bpp,
        )[k] == base[k],
        in_rect(k, bw, ew, eh, ox, oy, bpp) ==> composite_bytes(
            base,
            expr,
            bw,
            ew,
            eh,
            ox,
            oy,
            bpp,
        )[k] == expr[expr_src(k, bw, ew, ox, oy, bpp)],
{
}

/// Composites one expression frame onto a copy of the base frame.
fn composite_frame(b: &FvpHzcEntry, e: &FvpHzcEntry) -> (r: FvpHzcEntry)
    requires
        b@.layout == e@.layout,
        e@.offset.0 + e@.width <= b@.width,
        e@.offset.1 + e@.height <= b@.height,
    ensures
        r@ == (FrameModel {
            layout: b@.layout,
            width: b@.width,
            height: b@.height,
            offset: b@.offset,
            data: composite_bytes(
                b@.data,
                e@.data,
                b@.width as int,
                e@.width as int,
                e@.height as int,
                e@.offset.0 as int,
                e@.offset.1 as int,
                b@.layout.spec_bpp(),
            ),
        }),
{
    proof {
        use_type_invariant(b);
        use_type_invariant(e);
    }
    let bpp: u64 = b.layout().bpp();
    let bw: u64 = b.width() as u64;
    let bh: u64 = b.height() as u64;
    let ew: u64 = e.width() as u64;
    let eh: u64 = e.height() as u64;
    let eoff = e.offset();
    let ox: u64 = eoff.0 as u64;
    let oy: u64 = eoff.1 as u64;
    let bdata = b.data();
    let edata = e.data();
    let ghost model = composite_bytes(
        b@.data,
        e@.data,
        bw as int,
        ew as int,
        eh as int,
        ox as int,
        oy as int,
        bpp as int,
    );
    let mut out: Vec<u8> = Vec::new();
    let mut k: usize = 0;
    while k < bdata.len()
        invariant
            bpp == b@.layout.spec_bpp(),
            1 <= bpp <= 4,
            bw == b@.width as int,
            bh == b@.height as int,
            ew == e@.width as int,
            eh == e@.height as int,
            ox == e@.offset.0 as int,
            oy == e@.offset.1 as int,
            ox + ew <= bw,
            oy + eh <= bh,
            bdata@ == b@.data,
            edata@ == e@.data,
            b@.data.len() == bw * bh * bpp,
            e@.data.len() == ew * eh * bpp,
            model == composite_bytes(
                b@.data,
                e@.data,
                bw as int,
                ew as int,
                eh as int,
                ox as int,
                oy as int,
                bpp as int,
            ),
            k <= bdata@.len(),
            out@.len() == k as int,
            forall|j: int| 0 <= j < k as int ==> out@[j] == model[j],
        decreases bdata@.len() - k,
    {
        proof {
            assert(bw > 0) by (nonlinear_arith)
                requires
                    (k as int) < bw * bh * bpp && 0 <= k && 0 <= bw && 0 <= bh && 0 <= bpp,
            {}
        }
        let k64: u64 = k as u64;
        let pix: u64 = k64 / bpp;
        let chan: u64 = k64 % bpp;
        let col: u64 = pix % bw;
        let row: u64 = pix / bw;
        let byte: u8;
        if ox <= col && col < ox + ew && oy <= row && row < oy + eh {
            proof {
                let dr = row as int - oy as int;
                let dc = col as int - ox as int;
                assert(0 <= dr * (ew as int) + dc < 0x1_0000_0000 && 0 <= (dr * (ew as int) + dc)
                    * (bpp as int) + (chan as int) < (ew as int) * (eh as int) * (bpp as int))
                    by (nonlinear_arith)
                    requires
                        0 <= dr,
                        dr < eh as int,
                        0 <= dc,
                        dc < ew as int,
                        0 <= chan as int,
                        (chan as int) < bpp as int,
                        ew as int <= 0xffff,
                        eh as int <= 0xffff,
                        1 <= bpp as int,
                        bpp as int <= 4,
                {}
            }
            let src: u64 = ((row - oy) * ew + (col - ox)) * bpp + chan;
            assert(src as int == expr_src(k as int, bw as int, ew as int, ox as int, oy as int,
                bpp as int));
            byte = edata[src as usize];
        } else {
            byte = bdata[k];
        }
        out.push(byte);
        assert(out@[k as int] == model[k as int]);
        k = k + 1;
    }
    assert(out@ =~= model);
    match FvpHzcEntry::new(b.layout(), b.width(), b.height(), b.offset(), out) {
        Ok(r) => r,
        Err(_) => vstd::pervasive::unreached(),
    }
}

impl FvpHzc {
    /// Synthesizes one composite per expression frame. The base must hold
    /// exactly one frame and share the expression image's pixel layout, and
    /// the expression rectangle must lie inside the base frame; each
    /// disagreement is its own error. The composites come in expression
    /// frame order, each an independent copy of the base overwritten with
    /// one expression frame.
    pub fn tachie(&self, expr: &FvpHzc) -> (r: FvpResult<Vec<FvpHzcEntry>>)
        ensures
            match r {
                Ok(v) => {
                    &&& self@.layout == expr@.layout
                    &&& self@.frames.len() == 1
                    &&& expr@.offset.0 + expr@.width <= self@.width
                    &&& expr@.offset.1 + expr@.height <= self@.height
                    &&& v@.len() == expr@.frames.len()
                    &&& forall|i: int|
                        0 <= i < v@.len() ==> (#[trigger] v@[i])@ == (FrameModel {
                            layout: self@.layout,
                            width: self@.width,
                            height: self@.height,
                            offset: self@.offset,
                            data: composite_bytes(
                                self@.frames[0],
                                expr@.frames[i],
                                self@.width as int,
                                expr@.width as int,
                                expr@.height as int,
                                expr@.offset.0 as int,
                                expr@.offset.1 as int,
                                self@.layout.spec_bpp(),
                            ),
                        })
                },
                Err(e) => if self@.layout != expr@.layout {
                    e@ == ErrModel::LayoutMismatch
                } else if self@.frames.len() != 1 {
                    e@ == ErrModel::MultipleBaseFrames
                } else {
                    (expr@.offset.0 + expr@.width > self@.width || expr@.offset.1 + expr@.height
                        > self@.height) && e@ == ErrModel::PlacementOutOfBounds
                },
            },
    {
        if self.layout() != expr.layout() {
            return Err(FvpError::LayoutMismatch);
        }
        let bents = self.entries();
        if bents.len() != 1 {
            return Err(FvpError::MultipleBaseFrames);
        }
        let eoff = expr.offset();
        if (eoff.0 as u32) + (expr.width() as u32) > (self.width() as u32) || (eoff.1 as u32)
            + (expr.height() as u32) > (self.height() as u32) {
            return Err(FvpError::PlacementOutOfBounds);
        }
        let b = &bents[0];
        let eents = expr.entries();
        let mut out: Vec<FvpHzcEntry> = Vec::new();
        let mut i: usize = 0;
        while i < eents.len()
            invariant
                self@.layout == expr@.layout,
                self@.frames.len() == 1,
                expr@.offset.0 + expr@.width <= self@.width,
                expr@.offset.1 + expr@.height <= self@.height,
                bents@.len() == 1,
                bents@[0]@ == (FrameModel {
                    layout: self@.layout,
                    width: self@.width,
                    height: self@.height,
                    offset: self@.offset,
                    data: self@.frames[0],
                }),
                b == &bents@[0],
                eents@.len() == expr@.frames.len(),
                forall|j: int|
                    0 <= j < eents@.len() ==> (#[trigger] eents@[j])@ == (FrameModel {
                        layout: expr@.layout,
                        width: expr@.width,
                        height: expr@.height,
                        offset: expr@.offset,
                        data: expr@.frames[j],
                    }),
                i <= eents@.len(),
                out@.len() == i as int,
                forall|j: int|
                    0 <= j < i as int ==> (#[trigger] out@[j])@ == (FrameModel {
                        layout: self@.layout,
                        width: self@.width,
                        height: self@.height,
                        offset: self@.offset,
                        data: composite_bytes(
                            self@.frames[0],
                            expr@.frames[j],
                            self@.width as int,
                            expr@.width as int,
                            expr@.height as int,
                            expr@.offset.0 as int,
                            expr@.offset.1 as int,
                            self@.layout.spec_bpp(),
                        ),
                    }),
            decreases eents@.len() - i,
        {
            let e = &eents[i];
            out.push(composite_frame(b, e));
            i = i + 1;
        }
        Ok(out)
    }
}

} // verus!
