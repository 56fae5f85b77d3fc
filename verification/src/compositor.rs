//! Painting the visible layers of a scene onto one canvas frame.
use vstd::prelude::*;
use crate::canvas::Canvas;
use crate::frame::{
    Frame, blit_result, frame_len, offset_fits, lemma_blit_result_pixels, lemma_index_bounds,
};

verus! {

/// What the compositor knows of one layer when it paints: where it sits, whether it is
/// shown, and the source's latest frame (none when the source has produced nothing yet).
pub struct LayerFrame {
    pub x: i32,
    pub y: i32,
    pub visible: bool,
    pub frame: Option<Frame>,
}

/// Whether a layer gets painted.
pub open spec fn is_painted(l: LayerFrame) -> bool {
    l.visible && l.frame is Some
}

/// A painted layer's frame holds at least four bytes per pixel, and adding its size to its position
/// stays within the signed 32-bit range.
pub open spec fn paintable(l: LayerFrame) -> bool {
    is_painted(l) ==> {
        let f = l.frame->Some_0;
        &&& f.data@.len() >= frame_len(f.width as int, f.height as int)
        &&& offset_fits(l.x, f.width)
        &&& offset_fits(l.y, f.height)
    }
}

/// The canvas bytes after painting `layers` in order (bottom first) onto `base`, a
/// `w` x `h` buffer.
pub open spec fn composite(base: Seq<u8>, w: u32, h: u32, layers: Seq<LayerFrame>) -> Seq<u8>
    decreases layers.len(),
{
    if layers.len() == 0 {
        base
    } else {
        let below = composite(base, w, h, layers.drop_last());
        let top = layers.last();
        if is_painted(top) {
            let f = top.frame->Some_0;
            blit_result(below, w as int, h as int, f.data@, f.width as int, f.height as int, top.x as int, top.y as int)
        } else {
            below
        }
    }
}

/// A black canvas-sized buffer.
pub open spec fn black(n: int) -> Seq<u8> {
    Seq::new(n as nat, |k: int| 0u8)
}

/// Paints the visible layers, bottom to top, onto a fresh black frame at the canvas
/// resolution.
pub fn compose(canvas: &Canvas, layers: &Vec<LayerFrame>) -> (f: Frame)
    requires
        frame_len(canvas.width as int, canvas.height as int) <= u32::MAX,
        forall|i: int| 0 <= i < layers@.len() ==> #[trigger] paintable(layers@[i]),
    ensures
        f.wf(),
        f.width == canvas.width,
        f.height == canvas.height,
        f.data@ == composite(
            black(frame_len(canvas.width as int, canvas.height as int)),
            canvas.width,
            canvas.height,
            layers@,
        ),
{
    let mut frame = canvas.blank_frame();
    let ghost base = frame.data@;
    assert(base =~= black(frame_len(canvas.width as int, canvas.height as int)));
    let mut i: usize = 0;
    while i < layers.len()
        invariant
            i <= layers@.len(),
            frame.wf(),
            frame.width == canvas.width,
            frame.height == canvas.height,
            base == black(frame_len(canvas.width as int, canvas.height as int)),
            forall|j: int| 0 <= j < layers@.len() ==> #[trigger] paintable(layers@[j]),
            frame.data@ == composite(base, canvas.width, canvas.height, layers@.take(i as int)),
        decreases layers@.len() - i,
    {
        let l = &layers[i];
        assert(layers@.take(i as int + 1).drop_last() =~= layers@.take(i as int));
        assert(layers@.take(i as int + 1).last() == layers@[i as int]);
        assert(paintable(layers@[i as int]));
        if l.visible {
            match &l.frame {
                Some(src) => {
                    frame.blit(src, l.x, l.y);
                },
                None => {},
            }
        }
        i = i + 1;
    }
    assert(layers@.take(layers@.len() as int) =~= layers@);
    frame
}

/// A layer that is not painted (hidden, or without a frame yet) has no effect on the
/// output, wherever it stands in the stack.
pub proof fn lemma_unpainted_layer_has_no_effect(base: Seq<u8>, w: u32, h: u32, layers: Seq<LayerFrame>, i: int)
    requires
        0 <= i < layers.len(),
        !is_painted(layers[i]),
    ensures
        composite(base, w, h, layers) == composite(base, w, h, layers.remove(i)),
    decreases layers.len(),
{
    if i == layers.len() - 1 {
        assert(layers.remove(i) =~= layers.drop_last());
    } else {
        let shorter = layers.drop_last();
        lemma_unpainted_layer_has_no_effect(base, w, h, shorter, i);
        assert(layers.remove(i).drop_last() =~= shorter.remove(i));
        assert(layers.remove(i).last() == layers.last());
    }
}

/// Painting keeps the canvas buffer's length.
pub proof fn lemma_composite_len(base: Seq<u8>, w: u32, h: u32, layers: Seq<LayerFrame>)
    ensures
        composite(base, w, h, layers).len() == base.len(),
    decreases layers.len(),
{
    if layers.len() > 0 {
        lemma_composite_len(base, w, h, layers.drop_last());
    }
}

/// The topmost layer, when painted, lands at its own position (x, y): each canvas pixel
/// that its frame covers, counting from the layer's x and y, holds the frame's pixel at the
/// same offset from the layer's corner; every other canvas byte is what the layers below
/// left there.
pub proof fn lemma_top_layer_is_placed_at_its_position(
    base: Seq<u8>,
    w: u32,
    h: u32,
    layers: Seq<LayerFrame>,
    px: int,
    py: int,
    c: int,
)
    requires
        base.len() >= frame_len(w as int, h as int),
        layers.len() > 0,
        is_painted(layers.last()),
        0 <= px < w,
        0 <= py < h,
        0 <= c < 4,
    ensures
        ({
            let l = layers.last();
            let f = l.frame->Some_0;
            let out = composite(base, w, h, layers);
            let below = composite(base, w, h, layers.drop_last());
            let k = (py * w + px) * 4 + c;
            if l.x <= px < l.x + f.width && l.y <= py < l.y + f.height {
                out[k] == f.data@[((py - l.y) * f.width + (px - l.x)) * 4 + c]
            } else {
                out[k] == below[k]
            }
        }),
{
    let l = layers.last();
    let f = l.frame->Some_0;
    let below = composite(base, w, h, layers.drop_last());
    lemma_composite_len(base, w, h, layers.drop_last());
    lemma_blit_result_pixels(below, w as int, h as int, f.data@, f.width as int, f.height as int, l.x as int, l.y as int);
    lemma_index_bounds(w as int, h as int, px, py);
    let r = blit_result(below, w as int, h as int, f.data@, f.width as int, f.height as int, l.x as int, l.y as int);
    assert(composite(base, w, h, layers) == r);
    assert(crate::frame::pixel_byte(r, w as int, px, py, c) == r[(py * w + px) * 4 + c]);
}

/// One painted layer over a black canvas shows its frame at the layer's own position (x, y)
/// and leaves every other canvas byte black.
pub proof fn lemma_single_layer_is_placed_at_its_position(w: u32, h: u32, l: LayerFrame, px: int, py: int, c: int)
    requires
        is_painted(l),
        0 <= px < w,
        0 <= py < h,
        0 <= c < 4,
    ensures
        ({
            let f = l.frame->Some_0;
            let out = composite(black(frame_len(w as int, h as int)), w, h, seq![l]);
            let k = (py * w + px) * 4 + c;
            if l.x <= px < l.x + f.width && l.y <= py < l.y + f.height {
                out[k] == f.data@[((py - l.y) * f.width + (px - l.x)) * 4 + c]
            } else {
                out[k] == 0
            }
        }),
{
    let base = black(frame_len(w as int, h as int));
    let layers = seq![l];
    assert(layers.drop_last() =~= Seq::<LayerFrame>::empty());
    assert(layers.last() == l);
    assert(0 <= frame_len(w as int, h as int)) by (nonlinear_arith)
        requires
            0 <= w,
            0 <= h,
    ;
    lemma_top_layer_is_placed_at_its_position(base, w, h, layers, px, py, c);
    lemma_index_bounds(w as int, h as int, px, py);
}

} // verus!
