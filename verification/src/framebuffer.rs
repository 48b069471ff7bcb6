//! The depth-tested framebuffer.
//!
//! A frame is a grid of pixels, each with a colour and the depth of the
//! surface that gave it. A depth is the encoding of a single-precision
//! number, smaller meaning nearer. A write takes a pixel only when its depth
//! is strictly below the depth held there, so among all writes to a pixel
//! since the last clear the nearest wins, and of equally near ones the
//! first. A depth that is not a number never wins, and none is ever stored.

use vstd::prelude::*;
use crate::ieee::{less, lt, nan, rank, INFINITY};

verus! {

/// A colour of four 8-bit channels.
#[derive(Clone, Copy, Debug, PartialEq, Eq, Structural)]
pub struct Color {
    pub r: u8,
    pub g: u8,
    pub b: u8,
    pub a: u8,
}

impl Color {
    /// Makes a colour from its channels.
    pub fn new(r: u8, g: u8, b: u8, a: u8) -> (color: Self)
        ensures
            color == (Color { r, g, b, a }),
    {
        Color { r, g, b, a }
    }
}

/// Opaque black, the background of a new frame.
pub open spec fn black() -> Color {
    Color { r: 0, g: 0, b: 0, a: 255 }
}

/// Opaque white, the drawing colour of a new frame.
pub open spec fn white() -> Color {
    Color { r: 255, g: 255, b: 255, a: 255 }
}

/// What a frame holds: its size, the colour and the depth of each pixel row
/// by row, the colour that a clear lays down, and the colour that drawing
/// without a colour of its own uses.
pub struct FrameView {
    pub width: nat,
    pub height: nat,
    pub colors: Seq<Color>,
    pub depths: Seq<u32>,
    pub background: Color,
    pub current: Color,
}

impl FrameView {
    /// Whether both grids have one entry for each pixel and every depth is a
    /// number.
    pub open spec fn wf(self) -> bool {
        &&& self.colors.len() == self.width * self.height
        &&& self.depths.len() == self.width * self.height
        &&& forall|i: int| 0 <= i < self.depths.len() ==> !nan(#[trigger] self.depths[i])
    }

    /// Whether `(x, y)` is a pixel of the frame.
    pub open spec fn contains(self, x: int, y: int) -> bool {
        0 <= x < self.width && 0 <= y < self.height
    }

    /// The place of pixel `(x, y)` in the grids.
    pub open spec fn index(self, x: int, y: int) -> int {
        y * self.width + x
    }

    /// The colour of pixel `(x, y)`.
    pub open spec fn color_at(self, x: int, y: int) -> Color {
        self.colors[self.index(x, y)]
    }

    /// The depth held at pixel `(x, y)`.
    pub open spec fn depth_at(self, x: int, y: int) -> u32 {
        self.depths[self.index(x, y)]
    }

    /// The frame with every pixel at the background colour and infinitely
    /// far.
    pub open spec fn cleared(self) -> FrameView {
        FrameView {
            colors: Seq::new(self.colors.len(), |i: int| self.background),
            depths: Seq::new(self.depths.len(), |i: int| INFINITY),
            ..self
        }
    }

    /// The frame with pixel `(x, y)` given a colour whatever its depth; the
    /// depth stays. Outside the frame nothing changes.
    pub open spec fn painted(self, x: int, y: int, color: Color) -> FrameView {
        if self.contains(x, y) {
            FrameView { colors: self.colors.update(self.index(x, y), color), ..self }
        } else {
            self
        }
    }

    /// Whether a write of `depth` to `(x, y)` takes the pixel: the pixel
    /// lies in the frame and the depth is strictly below the one held there.
    pub open spec fn wins(self, x: int, y: int, depth: u32) -> bool {
        self.contains(x, y) && less(depth, self.depth_at(x, y))
    }

    /// The frame after a depth-tested write: a winning write sets the
    /// pixel's colour and depth, any other changes nothing.
    pub open spec fn written(self, x: int, y: int, depth: u32, color: Color) -> FrameView {
        if self.wins(x, y, depth) {
            FrameView {
                colors: self.colors.update(self.index(x, y), color),
                depths: self.depths.update(self.index(x, y), depth),
                ..self
            }
        } else {
            self
        }
    }

    /// The frame with a star at `(x, y)`: that pixel painted, and for a
    /// large star its right and lower neighbours as well.
    pub open spec fn starred(self, x: int, y: int, large: bool, color: Color) -> FrameView {
        if large {
            self.painted(x, y, color).painted(x + 1, y, color).painted(x, y + 1, color)
        } else {
            self.painted(x, y, color)
        }
    }
}

/// One depth-tested write.
#[derive(Clone, Copy, Debug, PartialEq, Eq, Structural)]
pub struct Write {
    pub x: u32,
    pub y: u32,
    pub depth: u32,
    pub color: Color,
}

/// The frame after the writes of `writes`, in order.
pub open spec fn composited(frame: FrameView, writes: Seq<Write>) -> FrameView
    decreases writes.len(),
{
    if writes.len() == 0 {
        frame
    } else {
        let w = writes.last();
        composited(frame, writes.drop_last()).written(w.x as int, w.y as int, w.depth, w.color)
    }
}

/// Rows of equal length do not overlap: within the frame, a pixel's place
/// lies within the grids, and different pixels have different places.
pub proof fn lemma_index_distinct(frame: FrameView, x1: int, y1: int, x2: int, y2: int)
    requires
        frame.contains(x1, y1),
        frame.contains(x2, y2),
    ensures
        0 <= frame.index(x1, y1) < frame.width * frame.height,
        frame.index(x1, y1) == frame.index(x2, y2) ==> x1 == x2 && y1 == y2,
{
    let w = frame.width as int;
    let h = frame.height as int;
    assert(0 <= y1 * w && y1 * w + w <= h * w) by (nonlinear_arith)
        requires
            0 <= y1 < h,
            0 <= w,
    ;
    if y1 < y2 {
        assert(y1 * w + w <= y2 * w) by (nonlinear_arith)
            requires
                y1 < y2,
                0 <= w,
        ;
    }
    if y2 < y1 {
        assert(y2 * w + w <= y1 * w) by (nonlinear_arith)
            requires
                y2 < y1,
                0 <= w,
        ;
    }
}

/// What one write does to any pixel of a well-formed frame: the frame stays
/// well formed and keeps its size and its two colours; the pixel written to
/// takes the write's colour and depth if the write wins; every other pixel,
/// and the pixel of a write that loses, stays as it was.
pub proof fn lemma_written(
    frame: FrameView,
    x: int,
    y: int,
    depth: u32,
    color: Color,
    px: int,
    py: int,
)
    requires
        frame.wf(),
        frame.contains(px, py),
    ensures
        frame.written(x, y, depth, color).wf(),
        frame.written(x, y, depth, color).width == frame.width,
        frame.written(x, y, depth, color).height == frame.height,
        frame.written(x, y, depth, color).background == frame.background,
        frame.written(x, y, depth, color).current == frame.current,
        frame.wins(x, y, depth) && px == x && py == y ==> {
            &&& frame.written(x, y, depth, color).depth_at(px, py) == depth
            &&& frame.written(x, y, depth, color).color_at(px, py) == color
        },
        !(frame.wins(x, y, depth) && px == x && py == y) ==> {
            &&& frame.written(x, y, depth, color).depth_at(px, py) == frame.depth_at(px, py)
            &&& frame.written(x, y, depth, color).color_at(px, py) == frame.color_at(px, py)
        },
{
    if frame.wins(x, y, depth) {
        lemma_index_distinct(frame, x, y, px, py);
        lemma_index_distinct(frame, px, py, x, y);
    }
}

/// Any number of writes leaves a well-formed frame well formed, of the same
/// size and with the same two colours.
pub proof fn lemma_composited_frame(frame: FrameView, writes: Seq<Write>)
    requires
        frame.wf(),
    ensures
        composited(frame, writes).wf(),
        composited(frame, writes).width == frame.width,
        composited(frame, writes).height == frame.height,
        composited(frame, writes).background == frame.background,
        composited(frame, writes).current == frame.current,
    decreases writes.len(),
{
    if writes.len() > 0 {
        let w = writes.last();
        let before = composited(frame, writes.drop_last());
        lemma_composited_frame(frame, writes.drop_last());
        if before.wins(w.x as int, w.y as int, w.depth) {
            lemma_written(before, w.x as int, w.y as int, w.depth, w.color, w.x as int, w.y as int);
        }
    }
}

/// Nearest wins: after any writes, in any order, no write to a pixel of the
/// frame is nearer than the depth the pixel holds.
pub proof fn lemma_nearest_wins(frame: FrameView, writes: Seq<Write>, i: int)
    requires
        frame.wf(),
        0 <= i < writes.len(),
        frame.contains(writes[i].x as int, writes[i].y as int),
    ensures
        !less(
            writes[i].depth,
            composited(frame, writes).depth_at(writes[i].x as int, writes[i].y as int),
        ),
    decreases writes.len(),
{
    let w = writes.last();
    let rest = writes.drop_last();
    let before = composited(frame, rest);
    let px = writes[i].x as int;
    let py = writes[i].y as int;
    lemma_composited_frame(frame, rest);
    lemma_written(before, w.x as int, w.y as int, w.depth, w.color, px, py);
    if i < writes.len() - 1 {
        assert(rest[i] == writes[i]);
        lemma_nearest_wins(frame, rest, i);
    }
}

/// A pixel never recedes: after any writes it holds a depth not above the
/// one it held before.
pub proof fn lemma_never_recedes(frame: FrameView, writes: Seq<Write>, x: int, y: int)
    requires
        frame.wf(),
        frame.contains(x, y),
    ensures
        rank(composited(frame, writes).depth_at(x, y)) <= rank(frame.depth_at(x, y)),
    decreases writes.len(),
{
    if writes.len() > 0 {
        let w = writes.last();
        let rest = writes.drop_last();
        lemma_composited_frame(frame, rest);
        lemma_never_recedes(frame, rest, x, y);
        lemma_written(composited(frame, rest), w.x as int, w.y as int, w.depth, w.color, x, y);
    }
}

/// Whether write `i` of `writes` went to pixel `(x, y)` with the given depth
/// and colour.
pub open spec fn write_gave(writes: Seq<Write>, i: int, x: int, y: int, depth: u32, color: Color) -> bool {
    &&& 0 <= i < writes.len()
    &&& writes[i].x == x
    &&& writes[i].y == y
    &&& writes[i].depth == depth
    &&& writes[i].color == color
}

/// After any writes, a pixel holds either what it held before or the colour
/// and the depth of one of the writes to it.
pub proof fn lemma_pixel_origin(frame: FrameView, writes: Seq<Write>, x: int, y: int)
    requires
        frame.wf(),
        frame.contains(x, y),
    ensures
        ({
            &&& composited(frame, writes).depth_at(x, y) == frame.depth_at(x, y)
            &&& composited(frame, writes).color_at(x, y) == frame.color_at(x, y)
        }) || exists|i: int|
            #[trigger] write_gave(
                writes,
                i,
                x,
                y,
                composited(frame, writes).depth_at(x, y),
                composited(frame, writes).color_at(x, y),
            ),
    decreases writes.len(),
{
    if writes.len() > 0 {
        let w = writes.last();
        let rest = writes.drop_last();
        let before = composited(frame, rest);
        let after = composited(frame, writes);
        lemma_composited_frame(frame, rest);
        lemma_pixel_origin(frame, rest, x, y);
        lemma_written(before, w.x as int, w.y as int, w.depth, w.color, x, y);
        if before.wins(w.x as int, w.y as int, w.depth) && w.x == x && w.y == y {
            assert(write_gave(writes, writes.len() - 1, x, y, after.depth_at(x, y), after.color_at(x, y)));
        } else if !(before.depth_at(x, y) == frame.depth_at(x, y) && before.color_at(x, y)
            == frame.color_at(x, y)) {
            let i = choose|i: int|
                #[trigger] write_gave(rest, i, x, y, before.depth_at(x, y), before.color_at(x, y));
            assert(rest[i] == writes[i]);
            assert(write_gave(writes, i, x, y, after.depth_at(x, y), after.color_at(x, y)));
        }
    }
}

/// A frame of pixels with colours and depths.
pub struct Framebuffer {
    width: u32,
    height: u32,
    color_buffer: Vec<Color>,
    depth_buffer: Vec<u32>,
    background_color: Color,
    current_color: Color,
}

impl View for Framebuffer {
    type V = FrameView;

    closed spec fn view(&self) -> FrameView {
        FrameView {
            width: self.width as nat,
            height: self.height as nat,
            colors: self.color_buffer@,
            depths: self.depth_buffer@,
            background: self.background_color,
            current: self.current_color,
        }
    }
}

impl Framebuffer {
    /// Makes a frame of `width` by `height` pixels, black and infinitely
    /// far, with a black background and white as the drawing colour.
    pub fn new(width: u32, height: u32) -> (frame: Self)
        requires
            width * height <= usize::MAX,
        ensures
            frame@.wf(),
            frame@.width == width,
            frame@.height == height,
            frame@.background == black(),
            frame@.current == white(),
            forall|i: int| 0 <= i < width * height ==> #[trigger] frame@.colors[i] == black(),
            forall|i: int| 0 <= i < width * height ==> #[trigger] frame@.depths[i] == INFINITY,
    {
        let background = Color::new(0, 0, 0, 255);
        assert(0 <= width * height) by (nonlinear_arith)
            requires
                0 <= width,
                0 <= height,
        ;
        let count: usize = (width as usize) * (height as usize);
        let mut color_buffer: Vec<Color> = Vec::new();
        let mut depth_buffer: Vec<u32> = Vec::new();
        let mut i: usize = 0;
        while i < count
            invariant
                i <= count,
                background == black(),
                color_buffer@.len() == i,
                depth_buffer@.len() == i,
                forall|k: int| 0 <= k < i ==> #[trigger] color_buffer@[k] == black(),
                forall|k: int| 0 <= k < i ==> #[trigger] depth_buffer@[k] == INFINITY,
            decreases count - i,
        {
            color_buffer.push(background);
            depth_buffer.push(INFINITY);
            i = i + 1;
        }
        Framebuffer {
            width,
            height,
            color_buffer,
            depth_buffer,
            background_color: background,
            current_color: Color::new(255, 255, 255, 255),
        }
    }

    /// The number of pixels in a row.
    pub fn width(&self) -> (w: u32)
        ensures
            w == self@.width,
    {
        self.width
    }

    /// The number of rows.
    pub fn height(&self) -> (h: u32)
        ensures
            h == self@.height,
    {
        self.height
    }

    /// The place of a pixel of the frame in the grids.
    fn offset(&self, x: u32, y: u32) -> (i: usize)
        requires
            self@.wf(),
            self@.contains(x as int, y as int),
        ensures
            i == self@.index(x as int, y as int),
            i < self@.colors.len(),
            i < self@.depths.len(),
    {
        proof {
            lemma_index_distinct(self@, x as int, y as int, x as int, y as int);
            assert(self@.colors.len() == self.color_buffer.len());
            assert(0 <= y * self.width) by (nonlinear_arith)
                requires
                    0 <= y,
                    0 <= self.width,
            ;
        }
        (y as usize) * (self.width as usize) + (x as usize)
    }

    /// Sets the colour that a clear lays down.
    pub fn set_background_color(&mut self, color: Color)
        requires
            old(self)@.wf(),
        ensures
            final(self)@.wf(),
            final(self)@ == (FrameView { background: color, ..old(self)@ }),
    {
        self.background_color = color;
    }

    /// Sets the colour that `set_pixel` draws with.
    pub fn set_current_color(&mut self, color: Color)
        requires
            old(self)@.wf(),
        ensures
            final(self)@.wf(),
            final(self)@ == (FrameView { current: color, ..old(self)@ }),
    {
        self.current_color = color;
    }

    /// Resets every pixel to the background colour and to infinitely far.
    pub fn clear(&mut self)
        requires
            old(self)@.wf(),
        ensures
            final(self)@.wf(),
            final(self)@ == old(self)@.cleared(),
    {
        let count = self.color_buffer.len();
        let mut i: usize = 0;
        while i < count
            invariant
                i <= count,
                self@.wf(),
                count == self@.colors.len(),
                self@.width == old(self)@.width,
                self@.height == old(self)@.height,
                self@.background == old(self)@.background,
                self@.current == old(self)@.current,
                forall|k: int| 0 <= k < i ==> #[trigger] self@.colors[k] == self@.background,
                forall|k: int| 0 <= k < i ==> #[trigger] self@.depths[k] == INFINITY,
            decreases count - i,
        {
            self.color_buffer.set(i, self.background_color);
            self.depth_buffer.set(i, INFINITY);
            i = i + 1;
        }
        assert(self@.colors =~= old(self)@.cleared().colors);
        assert(self@.depths =~= old(self)@.cleared().depths);
    }

    /// Gives pixel `(x, y)` a colour whatever depth it holds, and leaves the
    /// depth as it is. Outside the frame nothing is drawn.
    pub fn paint(&mut self, x: u32, y: u32, color: Color)
        requires
            old(self)@.wf(),
        ensures
            final(self)@.wf(),
            final(self)@ == old(self)@.painted(x as int, y as int, color),
    {
        if x < self.width && y < self.height {
            let i = self.offset(x, y);
            self.color_buffer.set(i, color);
        }
    }

    /// Paints pixel `(x, y)` in the current drawing colour.
    pub fn set_pixel(&mut self, x: u32, y: u32)
        requires
            old(self)@.wf(),
        ensures
            final(self)@.wf(),
            final(self)@ == old(self)@.painted(x as int, y as int, old(self)@.current),
    {
        let color = self.current_color;
        self.paint(x, y, color);
    }

    /// Writes a fragment: the pixel takes the colour and the depth when the
    /// depth is strictly below the one it holds. A fragment outside the
    /// frame, one that is not nearer, or one whose depth is not a number is
    /// dropped. Returns whether the fragment was taken.
    pub fn point(&mut self, x: u32, y: u32, depth: u32, color: Color) -> (taken: bool)
        requires
            old(self)@.wf(),
        ensures
            final(self)@.wf(),
            taken == old(self)@.wins(x as int, y as int, depth),
            final(self)@ == old(self)@.written(x as int, y as int, depth, color),
    {
        if x < self.width && y < self.height {
            let i = self.offset(x, y);
            if lt(depth, self.depth_buffer[i]) {
                self.color_buffer.set(i, color);
                self.depth_buffer.set(i, depth);
                return true;
            }
        }
        false
    }

    /// Writes a list of fragments in order, each as `point` does.
    pub fn write_all(&mut self, writes: &Vec<Write>)
        requires
            old(self)@.wf(),
        ensures
            final(self)@.wf(),
            final(self)@ == composited(old(self)@, writes@),
    {
        let mut i: usize = 0;
        while i < writes.len()
            invariant
                i <= writes@.len(),
                self@.wf(),
                self@ == composited(old(self)@, writes@.subrange(0, i as int)),
            decreases writes@.len() - i,
        {
            let w = writes[i];
            proof {
                let done = writes@.subrange(0, i + 1);
                assert(done.drop_last() =~= writes@.subrange(0, i as int));
                assert(done.last() == w);
            }
            self.point(w.x, w.y, w.depth, w.color);
            i = i + 1;
        }
        assert(writes@.subrange(0, i as int) =~= writes@);
    }

    /// Draws a star of the background sky at `(x, y)`: one pixel, or for a
    /// large star that pixel with its right and lower neighbours. Depths are
    /// left alone, so whatever is written to these pixels later covers the
    /// star.
    pub fn draw_star(&mut self, x: u32, y: u32, large: bool, color: Color)
        requires
            old(self)@.wf(),
        ensures
            final(self)@.wf(),
            final(self)@ == old(self)@.starred(x as int, y as int, large, color),
    {
        self.paint(x, y, color);
        if large {
            if x < u32::MAX {
                self.paint(x + 1, y, color);
            }
            if y < u32::MAX {
                self.paint(x, y + 1, color);
            }
        }
    }

    /// The colour of pixel `(x, y)`, if the frame has that pixel.
    pub fn get_color(&self, x: u32, y: u32) -> (color: Option<Color>)
        requires
            self@.wf(),
        ensures
            color == if self@.contains(x as int, y as int) {
                Some(self@.color_at(x as int, y as int))
            } else {
                None
            },
    {
        if x < self.width && y < self.height {
            let i = self.offset(x, y);
            Some(self.color_buffer[i])
        } else {
            None
        }
    }

    /// The depth held at pixel `(x, y)`, if the frame has that pixel.
    pub fn get_depth(&self, x: u32, y: u32) -> (depth: Option<u32>)
        requires
            self@.wf(),
        ensures
            depth == if self@.contains(x as int, y as int) {
                Some(self@.depth_at(x as int, y as int))
            } else {
                None
            },
    {
        if x < self.width && y < self.height {
            let i = self.offset(x, y);
            Some(self.depth_buffer[i])
        } else {
            None
        }
    }

    /// The colours of all pixels, row by row, for whoever presents the
    /// frame.
    pub fn pixels(&self) -> (colors: &Vec<Color>)
        requires
            self@.wf(),
        ensures
            colors@ == self@.colors,
            colors@.len() == self@.width * self@.height,
    {
        &self.color_buffer
    }
}

} // verus!
