//! The pair of frame buffers behind a double-buffered display: drawing goes
//! to the back buffer; presenting swaps the buffers and streams the new
//! front buffer to the panel.

use crate::display::{clip_end, min_int, on_screen, DisplayError};
use crate::graphics::Pixel;
use crate::protocol::{
    address_window_ops, lemma_words_be_bytes_concat, lemma_words_be_bytes_push, window_steps, words_be_bytes,
    Transfer,
};
use vstd::prelude::*;

verus! {

/// Index of column `x`, row `y` in a row-major buffer `width` pixels wide.
pub open spec fn pixel_index(width: u16, x: int, y: int) -> int {
    y * width + x
}

/// The value of a pair of frame buffers.
pub struct FrameState {
    /// The buffer that drawing writes to, row-major.
    pub back: Seq<u16>,
    /// The buffer last sent to the panel, row-major.
    pub front: Seq<u16>,
    pub width: u16,
    pub height: u16,
    /// Whether the back buffer was drawn to since the last present.
    pub dirty: bool,
}

impl FrameState {
    /// Both buffers hold exactly one word per pixel of a non-empty display.
    pub open spec fn wf(self) -> bool {
        &&& self.width > 0
        &&& self.height > 0
        &&& self.back.len() == self.width * self.height
        &&& self.front.len() == self.back.len()
    }

    /// The color word drawn at column `x`, row `y` (back buffer).
    pub open spec fn pixel(self, x: int, y: int) -> u16 {
        self.back[pixel_index(self.width, x, y)]
    }

    /// The color word last presented at column `x`, row `y` (front buffer).
    pub open spec fn shown(self, x: int, y: int) -> u16 {
        self.front[pixel_index(self.width, x, y)]
    }

    pub open spec fn on_screen(self, x: int, y: int) -> bool {
        on_screen(self.width, self.height, x, y)
    }

    /// The back buffer cleared to `color`.
    pub open spec fn cleared(self, color: u16) -> FrameState {
        FrameState { back: Seq::new(self.back.len(), |i: int| color), dirty: true, ..self }
    }

    /// The back buffer with column `x`, row `y` set to `color`.
    pub open spec fn with_pixel(self, x: int, y: int, color: u16) -> FrameState {
        FrameState { back: self.back.update(pixel_index(self.width, x, y), color), dirty: true, ..self }
    }

    /// The back buffer with the rectangle at column `x`, row `y`, `w` wide
    /// and `h` high, clipped to the display, filled with `color`; unchanged
    /// when the clipped rectangle is empty.
    pub open spec fn filled(self, x: u16, y: u16, w: u16, h: u16, color: u16) -> FrameState {
        let end_x = min_int(x + w, self.width as int);
        let end_y = min_int(y + h, self.height as int);
        if end_x <= x || end_y <= y {
            self
        } else {
            FrameState {
                back: Seq::new(
                    self.back.len(),
                    |i: int|
                        if in_rect(i % (self.width as int), i / (self.width as int), x as int, y as int, end_x, end_y) {
                            color
                        } else {
                            self.back[i]
                        },
                ),
                dirty: true,
                ..self
            }
        }
    }

    /// The back buffer after drawing `pixels` in order.
    pub open spec fn drawn(self, pixels: Seq<Pixel>) -> FrameState {
        FrameState {
            back: paint(self.back, self.width, self.height, pixels),
            dirty: self.dirty || any_on_screen(self.width, self.height, pixels),
            ..self
        }
    }

    /// The buffers exchanged: the drawn frame becomes the shown one.
    pub open spec fn swapped(self) -> FrameState {
        FrameState { back: self.front, front: self.back, ..self }
    }

    /// Nothing left to present.
    pub open spec fn presented(self) -> FrameState {
        FrameState { dirty: false, ..self }
    }

    /// After a completed present: a changed frame becomes the shown one and
    /// nothing is left to present; without a change, nothing happens.
    pub open spec fn after_present(self) -> FrameState {
        if self.dirty {
            self.swapped().presented()
        } else {
            self
        }
    }

    /// Marked as drawn to.
    pub open spec fn marked(self) -> FrameState {
        FrameState { dirty: true, ..self }
    }
}

/// Whether column `x`, row `y` lies in the rectangle from (`x0`, `y0`)
/// included to (`x1`, `y1`) excluded.
pub open spec fn in_rect(x: int, y: int, x0: int, y0: int, x1: int, y1: int) -> bool {
    x0 <= x < x1 && y0 <= y < y1
}

/// The bytes of the `i`-th chunk of `chunk` pixels of `words`, each pixel
/// most significant byte first (the last chunk may be shorter).
pub open spec fn chunk_bytes_spec(words: Seq<u16>, chunk: nat, i: nat) -> Seq<u8> {
    let start: int = (i * chunk) as int;
    let end: int = if (i + 1) * chunk <= words.len() { ((i + 1) * chunk) as int } else { words.len() as int };
    words_be_bytes(words.subrange(start, end))
}

/// The number of chunks of `chunk` pixels that cover `len` pixels.
pub open spec fn chunk_count_spec(len: nat, chunk: nat) -> nat {
    if chunk == 0 {
        0
    } else if len % chunk == 0 {
        len / chunk
    } else {
        len / chunk + 1
    }
}

/// The bytes of the first `n` chunks of `chunk` pixels of `words`, one
/// chunk after the other.
pub open spec fn chunk_stream(words: Seq<u16>, chunk: nat, n: nat) -> Seq<u8>
    decreases n,
{
    if n == 0 {
        Seq::empty()
    } else {
        chunk_stream(words, chunk, (n - 1) as nat) + chunk_bytes_spec(words, chunk, (n - 1) as nat)
    }
}

/// The color words after drawing `pixels` in order on a `width` by
/// `height` buffer: each point on the display overwrites its pixel, points
/// off the display are skipped.
pub open spec fn paint(buf: Seq<u16>, width: u16, height: u16, pixels: Seq<Pixel>) -> Seq<u16>
    decreases pixels.len(),
{
    if pixels.len() == 0 {
        buf
    } else {
        let before = paint(buf, width, height, pixels.drop_last());
        let p = pixels.last();
        if on_screen(width, height, p.x as int, p.y as int) {
            before.update(pixel_index(width, p.x as int, p.y as int), p.color@)
        } else {
            before
        }
    }
}

/// Whether any of `pixels` lies on a `width` by `height` display.
pub open spec fn any_on_screen(width: u16, height: u16, pixels: Seq<Pixel>) -> bool {
    exists|i: int| 0 <= i < pixels.len() && on_screen(width, height, pixels[i].x as int, pixels[i].y as int)
}

/// A pixel on the display has an index inside the buffer.
pub proof fn lemma_pixel_index_in_range(width: u16, height: u16, x: int, y: int)
    requires
        on_screen(width, height, x, y),
    ensures
        0 <= pixel_index(width, x, y) < width * height,
{
    assert(0 <= y * width + x < width * height) by (nonlinear_arith)
        requires 0 <= x < width, 0 <= y < height;
}

/// The index of a pixel on the display gives back its column and row.
pub proof fn lemma_index_coords(width: u16, height: u16, x: int, y: int)
    requires
        on_screen(width, height, x, y),
    ensures
        pixel_index(width, x, y) % (width as int) == x,
        pixel_index(width, x, y) / (width as int) == y,
{
    vstd::arithmetic::div_mod::lemma_fundamental_div_mod_converse(
        pixel_index(width, x, y),
        width as int,
        y,
        x,
    );
}

/// Every index inside a `width` by `height` buffer is the index of a pixel
/// on the display.
pub proof fn lemma_coords_of_index(width: u16, height: u16, i: int)
    requires
        width > 0,
        0 <= i < width * height,
    ensures
        on_screen(width, height, i % (width as int), i / (width as int)),
        pixel_index(width, i % (width as int), i / (width as int)) == i,
{
    let w = width as int;
    vstd::arithmetic::div_mod::lemma_fundamental_div_mod(i, w);
    let q = i / w;
    let r = i % w;
    assert(0 <= r < w);
    assert(0 <= q < height) by (nonlinear_arith)
        requires i == w * q + r, 0 <= r < w, 0 <= i < w * height, w > 0;
    assert(q * w == w * q) by (nonlinear_arith);
}

/// Distinct pixels on the display have distinct indices.
pub proof fn lemma_pixel_index_injective(width: u16, x1: int, y1: int, x2: int, y2: int)
    requires
        0 <= x1 < width,
        0 <= x2 < width,
        0 <= y1,
        0 <= y2,
        pixel_index(width, x1, y1) == pixel_index(width, x2, y2),
    ensures
        x1 == x2 && y1 == y2,
{
    let w = width as int;
    if y1 < y2 {
        assert(y1 * w + w <= y2 * w) by (nonlinear_arith)
            requires y1 < y2, w > 0;
    } else if y2 < y1 {
        assert(y2 * w + w <= y1 * w) by (nonlinear_arith)
            requires y2 < y1, w > 0;
    }
}

/// The buffer index of column `x`, row `y`, in a buffer of `len` words.
fn buffer_index(width: u16, height: u16, x: u16, y: u16, len: usize) -> (index: usize)
    requires
        on_screen(width, height, x as int, y as int),
        len == width * height,
    ensures
        index == pixel_index(width, x as int, y as int),
        index < len,
{
    proof {
        lemma_pixel_index_in_range(width, height, x as int, y as int);
    }
    assert((y as int) * (width as int) <= (y as int) * (width as int) + (x as int));
    (y as usize) * (width as usize) + x as usize
}

/// Pair of frame buffers of a double-buffered display.
///
/// The buffers are provided by the caller (so that they can be allocated
/// statically); both hold one RGB565 word per pixel, row-major.
pub struct FrameBuffers<'a> {
    back: &'a mut [u16],
    front: &'a mut [u16],
    width: u16,
    height: u16,
    dirty: bool,
}

impl<'a> View for FrameBuffers<'a> {
    type V = FrameState;

    closed spec fn view(&self) -> FrameState {
        FrameState {
            back: self.back@,
            front: self.front@,
            width: self.width,
            height: self.height,
            dirty: self.dirty,
        }
    }
}

impl<'a> FrameBuffers<'a> {
    pub open spec fn wf(&self) -> bool {
        self@.wf()
    }

    /// Whether two caller buffers have the same length, the first check of
    /// a double-buffered display's construction.
    pub fn buffers_match(back: &[u16], front: &[u16]) -> (r: bool)
        ensures
            r == (back@.len() == front@.len()),
    {
        back.len() == front.len()
    }

    /// Take the two buffers of a `width` by `height` display, both cleared to
    /// black and nothing to present. Buffers of different lengths, or of a
    /// length other than `width * height`, are refused with
    /// `InitializationFailed`, and then left as they were.
    pub fn new(back: &'a mut [u16], front: &'a mut [u16], width: u16, height: u16) -> (r: Result<FrameBuffers<'a>, DisplayError>)
        requires
            width > 0,
            height > 0,
        ensures
            match r {
                Ok(fb) => {
                    &&& old(back)@.len() == old(front)@.len() == width * height
                    &&& fb.wf()
                    &&& fb@.width == width
                    &&& fb@.height == height
                    &&& fb@.back == Seq::new(old(back)@.len(), |i: int| 0u16)
                    &&& fb@.front == Seq::new(old(back)@.len(), |i: int| 0u16)
                    &&& !fb@.dirty
                },
                Err(e) => {
                    &&& e == DisplayError::InitializationFailed
                    &&& (old(back)@.len() != old(front)@.len() || old(back)@.len() != width * height)
                    &&& final(back)@ == old(back)@
                    &&& final(front)@ == old(front)@
                },
            },
    {
        if back.len() != front.len() {
            return Err(DisplayError::InitializationFailed);
        }
        assert((width as usize) * (height as usize) <= 0xffff * 0xffff) by (nonlinear_arith)
            requires width <= 0xffff, height <= 0xffff;
        let expected_size: usize = (width as usize) * (height as usize);
        if back.len() != expected_size {
            return Err(DisplayError::InitializationFailed);
        }
        let len = back.len();
        let mut i: usize = 0;
        while i < len
            invariant
                i <= len,
                len == back@.len(),
                back@.len() == old(back)@.len(),
                forall|k: int| 0 <= k < i ==> back@[k] == 0u16,
            decreases len - i,
        {
            back[i] = 0;
            i = i + 1;
        }
        let mut j: usize = 0;
        while j < len
            invariant
                j <= len,
                len == front@.len(),
                front@.len() == old(front)@.len(),
                forall|k: int| 0 <= k < j ==> front@[k] == 0u16,
            decreases len - j,
        {
            front[j] = 0;
            j = j + 1;
        }
        let fb = FrameBuffers { back, front, width, height, dirty: false };
        assert(fb@.back =~= Seq::new(len as nat, |i: int| 0u16));
        assert(fb@.front =~= Seq::new(len as nat, |i: int| 0u16));
        Ok(fb)
    }

    /// Display dimensions (width, height).
    pub fn dimensions(&self) -> (dims: (u16, u16))
        ensures
            dims == (self@.width, self@.height),
    {
        (self.width, self.height)
    }

    /// Clear the back buffer to the color word `color`.
    pub fn clear(&mut self, color: u16)
        requires
            old(self).wf(),
        ensures
            final(self).wf(),
            final(self)@ == old(self)@.cleared(color),
    {
        let len = self.back.len();
        let mut i: usize = 0;
        while i < len
            invariant
                i <= len,
                len == self.back@.len(),
                self.back@.len() == old(self)@.back.len(),
                self.front@ == old(self)@.front,
                self.width == old(self)@.width,
                self.height == old(self)@.height,
                forall|k: int| 0 <= k < i ==> self.back@[k] == color,
            decreases len - i,
        {
            self.back[i] = color;
            i = i + 1;
        }
        self.dirty = true;
        assert(self@.back =~= Seq::new(old(self)@.back.len(), |i: int| color));
    }

    /// Set a pixel of the back buffer; a pixel off the display is refused
    /// with `InvalidCoordinate` and nothing changes.
    pub fn set_pixel(&mut self, x: u16, y: u16, color: u16) -> (r: Result<(), DisplayError>)
        requires
            old(self).wf(),
        ensures
            final(self).wf(),
            match r {
                Ok(()) => {
                    &&& old(self)@.on_screen(x as int, y as int)
                    &&& final(self)@ == old(self)@.with_pixel(x as int, y as int, color)
                },
                Err(e) => {
                    &&& e == DisplayError::InvalidCoordinate
                    &&& !old(self)@.on_screen(x as int, y as int)
                    &&& final(self)@ == old(self)@
                },
            },
    {
        if x >= self.width || y >= self.height {
            return Err(DisplayError::InvalidCoordinate);
        }
        let index = buffer_index(self.width, self.height, x, y, self.back.len());
        self.back[index] = color;
        self.dirty = true;
        Ok(())
    }

    /// Get a pixel's color word from the back buffer; a pixel off the
    /// display is refused with `InvalidCoordinate`.
    pub fn get_pixel(&self, x: u16, y: u16) -> (r: Result<u16, DisplayError>)
        requires
            self.wf(),
        ensures
            match r {
                Ok(word) => self@.on_screen(x as int, y as int) && word == self@.pixel(x as int, y as int),
                Err(e) => e == DisplayError::InvalidCoordinate && !self@.on_screen(x as int, y as int),
            },
    {
        if x >= self.width || y >= self.height {
            return Err(DisplayError::InvalidCoordinate);
        }
        let index = buffer_index(self.width, self.height, x, y, self.back.len());
        Ok(self.back[index])
    }

    /// Fill a rectangle of the back buffer, clipped to the display. A
    /// rectangle that is empty after clipping (or starts off the display)
    /// changes nothing.
    pub fn fill_rect(&mut self, x: u16, y: u16, w: u16, h: u16, color: u16)
        requires
            old(self).wf(),
        ensures
            final(self).wf(),
            final(self)@ == old(self)@.filled(x, y, w, h, color),
    {
        let end_x = clip_end(x, w, self.width);
        let end_y = clip_end(y, h, self.height);
        if end_x <= x || end_y <= y || x >= self.width || y >= self.height {
            return;
        }
        let ghost s0 = self@;
        let len = self.back.len();
        let mut row = y;
        while row < end_y
            invariant
                y <= row <= end_y,
                x < end_x <= self.width,
                end_y <= self.height,
                end_x == min_int(x + w, s0.width as int),
                end_y == min_int(y + h, s0.height as int),
                len == self.back@.len(),
                len == s0.back.len(),
                self.front@ == s0.front,
                self.width == s0.width,
                self.height == s0.height,
                self.dirty == s0.dirty,
                s0.wf(),
                forall|px: int, py: int| s0.on_screen(px, py) ==> #[trigger] self@.pixel(px, py) == if x <= px < end_x && y <= py < row {
                    color
                } else {
                    s0.pixel(px, py)
                },
            decreases end_y - row,
        {
            let mut col = x;
            while col < end_x
                invariant
                    y <= row < end_y,
                    x <= col <= end_x,
                    x < end_x <= self.width,
                    end_y <= self.height,
                    len == self.back@.len(),
                    len == s0.back.len(),
                    self.front@ == s0.front,
                    self.width == s0.width,
                    self.height == s0.height,
                    self.dirty == s0.dirty,
                    s0.wf(),
                    forall|px: int, py: int| s0.on_screen(px, py) ==> #[trigger] self@.pixel(px, py) == if (x <= px < end_x && y <= py < row) || (py == row && x <= px < col) {
                        color
                    } else {
                        s0.pixel(px, py)
                    },
                decreases end_x - col,
            {
                let index = buffer_index(self.width, self.height, col, row, len);
                let ghost before = self@;
                self.back[index] = color;
                proof {
                    assert forall|px: int, py: int| s0.on_screen(px, py) implies #[trigger] self@.pixel(px, py) == if (x <= px < end_x && y <= py < row) || (py == row && x <= px < col + 1) {
                        color
                    } else {
                        s0.pixel(px, py)
                    } by {
                        lemma_pixel_index_in_range(s0.width, s0.height, px, py);
                        if pixel_index(s0.width, px, py) == index as int {
                            lemma_pixel_index_injective(s0.width, px, py, col as int, row as int);
                        } else {
                            assert(self@.pixel(px, py) == before.pixel(px, py));
                            if px == col as int && py == row as int {
                                assert(false);
                            }
                        }
                    }
                }
                col = col + 1;
            }
            row = row + 1;
        }
        let ghost done = self@;
        self.dirty = true;
        let ghost target = s0.filled(x, y, w, h, color);
        assert forall|i: int| 0 <= i < len implies #[trigger] done.back[i] == target.back[i] by {
            lemma_coords_of_index(s0.width, s0.height, i);
            let px = i % (s0.width as int);
            let py = i / (s0.width as int);
            assert(done.pixel(px, py) == done.back[i]);
            assert(s0.pixel(px, py) == s0.back[i]);
        }
        assert(done.back =~= target.back);
    }

    /// Draw one point on the back buffer; a point off the display is
    /// skipped. Never fails.
    pub fn draw_pixel(&mut self, x: i32, y: i32, color: u16) -> (r: Result<(), DisplayError>)
        requires
            old(self).wf(),
        ensures
            final(self).wf(),
            r is Ok,
            if old(self)@.on_screen(x as int, y as int) {
                final(self)@ == old(self)@.with_pixel(x as int, y as int, color)
            } else {
                final(self)@ == old(self)@
            },
    {
        if x < 0 || y < 0 || x >= self.width as i32 || y >= self.height as i32 {
            return Ok(());
        }
        self.set_pixel(x as u16, y as u16, color)
    }

    /// Draw points on the back buffer in order, skipping those off the
    /// display. Never fails.
    pub fn draw_iter(&mut self, pixels: &[Pixel]) -> (r: Result<(), DisplayError>)
        requires
            old(self).wf(),
        ensures
            final(self).wf(),
            r is Ok,
            final(self)@ == old(self)@.drawn(pixels@),
    {
        let mut i: usize = 0;
        while i < pixels.len()
            invariant
                i <= pixels@.len(),
                self.wf(),
                self@ == (FrameState {
                    back: paint(old(self)@.back, old(self)@.width, old(self)@.height, pixels@.subrange(0, i as int)),
                    dirty: old(self)@.dirty || any_on_screen(old(self)@.width, old(self)@.height, pixels@.subrange(0, i as int)),
                    ..old(self)@
                }),
            decreases pixels@.len() - i,
        {
            let p = pixels[i];
            let _ = self.draw_pixel(p.x, p.y, p.color.into_storage());
            proof {
                let w = old(self)@.width;
                let h = old(self)@.height;
                let before = pixels@.subrange(0, i as int);
                let after = pixels@.subrange(0, i + 1);
                assert(after.drop_last() =~= before);
                assert(after.last() == p);
                if on_screen(w, h, p.x as int, p.y as int) {
                    assert(any_on_screen(w, h, after)) by {
                        assert(after[i as int] == p);
                    }
                } else {
                    assert(any_on_screen(w, h, after) == any_on_screen(w, h, before)) by {
                        if any_on_screen(w, h, after) {
                            let k = choose|k: int| 0 <= k < after.len() && on_screen(w, h, after[k].x as int, after[k].y as int);
                            assert(k < i);
                            assert(before[k] == after[k]);
                        }
                        if any_on_screen(w, h, before) {
                            let k = choose|k: int| 0 <= k < before.len() && on_screen(w, h, before[k].x as int, before[k].y as int);
                            assert(after[k] == before[k]);
                        }
                    }
                }
            }
            i = i + 1;
        }
        assert(pixels@.subrange(0, pixels@.len() as int) =~= pixels@);
        Ok(())
    }

    /// Start presenting: if the back buffer was drawn to, return the steps
    /// that open a full-screen memory write, to be followed by the chunks of
    /// the back buffer (a pin fault on any of it is reported as `PinError`,
    /// an SPI fault as `SpiError`); otherwise `None`. Nothing changes until
    /// `present_done`, so a present that fails on the bus leaves the buffers
    /// as they were, with the frame still to present.
    pub fn begin_present(&self) -> (r: Option<Transfer>)
        requires
            self.wf(),
        ensures
            if self@.dirty {
                r matches Some(t) && t.reports_bus_faults() && t.steps() == window_steps(
                    0,
                    0,
                    (self@.width - 1) as u16,
                    (self@.height - 1) as u16,
                )
            } else {
                r is None
            },
    {
        if !self.dirty {
            return None;
        }
        let ops = address_window_ops(0, 0, self.width - 1, self.height - 1);
        Some(Transfer::drawing(ops))
    }

    /// The number of chunks of `chunk` pixels that the back buffer is sent in.
    pub fn chunk_count(&self, chunk: usize) -> (n: usize)
        requires
            chunk > 0,
        ensures
            n == chunk_count_spec(self@.back.len(), chunk as nat),
    {
        let len = self.back.len();
        if len % chunk == 0 {
            len / chunk
        } else {
            assert(len / chunk < len) by (nonlinear_arith)
                requires chunk > 1 || len % chunk == 0, len % chunk != 0, chunk > 0;
            len / chunk + 1
        }
    }

    /// The bytes of the `i`-th chunk of `chunk` pixels of the back buffer,
    /// the frame being presented, each pixel most significant byte first.
    pub fn chunk_bytes(&self, chunk: usize, i: usize) -> (bytes: Vec<u8>)
        requires
            chunk > 0,
            i < chunk_count_spec(self@.back.len(), chunk as nat),
        ensures
            bytes@ == chunk_bytes_spec(self@.back, chunk as nat, i as nat),
    {
        let len = self.back.len();
        proof {
            lemma_chunk_start_in_range(len as nat, chunk as nat, i as nat);
        }
        let start: usize = i * chunk;
        let end: usize = if len - start <= chunk { len } else { start + chunk };
        assert(end == if (i + 1) * chunk <= len { ((i + 1) * chunk) as int } else { len as int }) by (nonlinear_arith)
            requires start == i * chunk, end == (if len - start <= chunk { len as int } else { start + chunk }), start < len;
        let mut bytes: Vec<u8> = Vec::new();
        let mut k = start;
        while k < end
            invariant
                start <= k <= end <= len,
                len == self.back@.len(),
                bytes@ == words_be_bytes(self.back@.subrange(start as int, k as int)),
            decreases end - k,
        {
            let word = self.back[k];
            bytes.push((word >> 8u16) as u8);
            bytes.push((word & 0xffu16) as u8);
            proof {
                let part = self.back@.subrange(start as int, k as int);
                assert(self.back@.subrange(start as int, k + 1) =~= part.push(word));
                lemma_words_be_bytes_push(part, word);
            }
            k = k + 1;
        }
        bytes
    }

    /// Finish a present whose transfer went out completely: the buffers are
    /// exchanged, so the frame just sent becomes the front buffer and
    /// drawing continues on the other one, and nothing is left to present.
    /// Without a frame to present this changes nothing.
    pub fn present_done(&mut self)
        requires
            old(self).wf(),
        ensures
            final(self).wf(),
            final(self)@ == old(self)@.after_present(),
    {
        if self.dirty {
            core::mem::swap(&mut self.front, &mut self.back);
            self.dirty = false;
        }
    }

    /// Mark the back buffer as drawn to, so that the next present sends it.
    pub fn mark_dirty(&mut self)
        requires
            old(self).wf(),
        ensures
            final(self).wf(),
            final(self)@ == old(self)@.marked(),
    {
        self.dirty = true;
    }
}

/// The first pixel of every chunk lies inside the buffer.
pub proof fn lemma_chunk_start_in_range(len: nat, chunk: nat, i: nat)
    requires
        chunk > 0,
        i < chunk_count_spec(len, chunk),
    ensures
        i * chunk < len,
{
    vstd::arithmetic::div_mod::lemma_fundamental_div_mod(len as int, chunk as int);
    let q = len / chunk;
    let r = len % chunk;
    if r == 0 {
        assert(i * chunk < len) by (nonlinear_arith)
            requires i < q, len == chunk * q + r, r == 0, chunk > 0;
    } else {
        assert(i * chunk < len) by (nonlinear_arith)
            requires i <= q, len == chunk * q + r, r > 0, chunk > 0;
    }
}

/// The chunks cover the whole buffer.
pub proof fn lemma_chunk_count_covers(len: nat, chunk: nat)
    requires
        chunk > 0,
    ensures
        chunk_count_spec(len, chunk) * chunk >= len,
        chunk_count_spec(len, chunk) == 0 || (chunk_count_spec(len, chunk) - 1) * chunk < len,
{
    vstd::arithmetic::div_mod::lemma_fundamental_div_mod(len as int, chunk as int);
    let q = len / chunk;
    let r = len % chunk;
    let n = chunk_count_spec(len, chunk);
    if r == 0 {
        assert(n * chunk >= len && (n == 0 || (n - 1) * chunk < len)) by (nonlinear_arith)
            requires n == q, len == chunk * q + r, r == 0, chunk > 0;
    } else {
        assert(n * chunk >= len && (n - 1) * chunk < len) by (nonlinear_arith)
            requires n == q + 1, len == chunk * q + r, 0 < r < chunk, chunk > 0;
    }
}

/// The first `n` chunks, one after the other, are the bytes of the first
/// `n * chunk` pixels (or of all of them, once the chunks reach the end).
pub proof fn lemma_chunk_stream_prefix(words: Seq<u16>, chunk: nat, n: nat)
    requires
        chunk > 0,
        n <= chunk_count_spec(words.len(), chunk),
    ensures
        chunk_stream(words, chunk, n) == words_be_bytes(
            words.subrange(0, min_int((n * chunk) as int, words.len() as int)),
        ),
    decreases n,
{
    if n == 0 {
        assert(n * chunk == 0) by (nonlinear_arith)
            requires n == 0;
        assert(words.subrange(0, 0) =~= Seq::<u16>::empty());
        assert(words_be_bytes(Seq::<u16>::empty()) == Seq::<u8>::empty());
    } else {
        let m = (n - 1) as nat;
        lemma_chunk_stream_prefix(words, chunk, m);
        lemma_chunk_start_in_range(words.len(), chunk, m);
        let start = m * chunk;
        assert(n * chunk == start + chunk) by (nonlinear_arith)
            requires start == m * chunk, n == m + 1;
        let end = min_int((n * chunk) as int, words.len() as int);
        assert(min_int((m * chunk) as int, words.len() as int) == start);
        let a = words.subrange(0, start as int);
        let b = words.subrange(start as int, end);
        lemma_words_be_bytes_concat(a, b);
        assert(a + b =~= words.subrange(0, end));
        assert(chunk_bytes_spec(words, chunk, m) == words_be_bytes(b));
        assert(chunk_stream(words, chunk, n) == chunk_stream(words, chunk, m) + chunk_bytes_spec(words, chunk, m));
    }
}

/// Law: sending a frame in chunks of any size puts exactly the
/// bytes of every pixel, in order and most significant byte first, on the
/// bus.
pub proof fn lemma_chunks_carry_frame(words: Seq<u16>, chunk: nat)
    requires
        chunk > 0,
    ensures
        chunk_stream(words, chunk, chunk_count_spec(words.len(), chunk)) == words_be_bytes(words),
{
    let n = chunk_count_spec(words.len(), chunk);
    lemma_chunk_stream_prefix(words, chunk, n);
    lemma_chunk_count_covers(words.len(), chunk);
    assert(words.subrange(0, words.len() as int) =~= words);
}

/// Law: after setting a pixel, reading it gives the color written, and
/// every other pixel reads as before; what the panel shows is unchanged.
pub proof fn lemma_get_after_set(s: FrameState, x: int, y: int, color: u16)
    requires
        s.wf(),
        s.on_screen(x, y),
    ensures
        s.with_pixel(x, y, color).wf(),
        s.with_pixel(x, y, color).pixel(x, y) == color,
        s.with_pixel(x, y, color).front == s.front,
        forall|px: int, py: int|
            s.on_screen(px, py) && (px != x || py != y) ==> #[trigger] s.with_pixel(x, y, color).pixel(px, py)
                == s.pixel(px, py),
{
    lemma_pixel_index_in_range(s.width, s.height, x, y);
    assert forall|px: int, py: int| s.on_screen(px, py) && (px != x || py != y) implies #[trigger] s.with_pixel(
        x,
        y,
        color,
    ).pixel(px, py) == s.pixel(px, py) by {
        lemma_pixel_index_in_range(s.width, s.height, px, py);
        if pixel_index(s.width, px, py) == pixel_index(s.width, x, y) {
            lemma_pixel_index_injective(s.width, px, py, x, y);
        }
    }
}

/// Law: after clearing, every pixel reads as the clear color.
pub proof fn lemma_get_after_clear(s: FrameState, color: u16)
    requires
        s.wf(),
    ensures
        s.cleared(color).wf(),
        forall|px: int, py: int| s.on_screen(px, py) ==> #[trigger] s.cleared(color).pixel(px, py) == color,
{
    assert forall|px: int, py: int| s.on_screen(px, py) implies #[trigger] s.cleared(color).pixel(px, py) == color by {
        lemma_pixel_index_in_range(s.width, s.height, px, py);
    }
}

/// Law: after filling a rectangle, the pixels inside its part on the
/// display read as the fill color, and all others as before.
pub proof fn lemma_get_after_fill(s: FrameState, x: u16, y: u16, w: u16, h: u16, color: u16)
    requires
        s.wf(),
    ensures
        s.filled(x, y, w, h, color).wf(),
        s.filled(x, y, w, h, color).front == s.front,
        forall|px: int, py: int|
            s.on_screen(px, py) ==> #[trigger] s.filled(x, y, w, h, color).pixel(px, py) == if in_rect(
                px,
                py,
                x as int,
                y as int,
                min_int(x + w, s.width as int),
                min_int(y + h, s.height as int),
            ) {
                color
            } else {
                s.pixel(px, py)
            },
{
    assert forall|px: int, py: int| s.on_screen(px, py) implies #[trigger] s.filled(x, y, w, h, color).pixel(px, py)
        == if in_rect(px, py, x as int, y as int, min_int(x + w, s.width as int), min_int(y + h, s.height as int)) {
        color
    } else {
        s.pixel(px, py)
    } by {
        lemma_pixel_index_in_range(s.width, s.height, px, py);
        lemma_index_coords(s.width, s.height, px, py);
    }
}

/// Law: filling the whole display is clearing it.
pub proof fn lemma_fill_screen_is_clear(s: FrameState, color: u16)
    requires
        s.wf(),
    ensures
        s.filled(0, 0, s.width, s.height, color) == s.cleared(color),
{
    let f = s.filled(0, 0, s.width, s.height, color);
    assert forall|i: int| 0 <= i < s.back.len() implies #[trigger] f.back[i] == color by {
        lemma_coords_of_index(s.width, s.height, i);
    }
    assert(f.back =~= s.cleared(color).back);
}

/// Law: drawing a run of points is drawing them one at a time: the last
/// point is drawn onto what the others left (and a point off the display
/// changes nothing).
pub proof fn lemma_drawn_push(s: FrameState, pixels: Seq<Pixel>, p: Pixel)
    ensures
        s.drawn(pixels.push(p)) == if on_screen(s.width, s.height, p.x as int, p.y as int) {
            s.drawn(pixels).with_pixel(p.x as int, p.y as int, p.color@)
        } else {
            s.drawn(pixels)
        },
{
    let all = pixels.push(p);
    assert(all.drop_last() =~= pixels);
    if on_screen(s.width, s.height, p.x as int, p.y as int) {
        assert(any_on_screen(s.width, s.height, all)) by {
            assert(all[pixels.len() as int] == p);
        }
    } else {
        assert(any_on_screen(s.width, s.height, all) == any_on_screen(s.width, s.height, pixels)) by {
            if any_on_screen(s.width, s.height, all) {
                let k = choose|k: int| 0 <= k < all.len() && on_screen(s.width, s.height, all[k].x as int, all[k].y as int);
                assert(k < pixels.len());
                assert(pixels[k] == all[k]);
            }
            if any_on_screen(s.width, s.height, pixels) {
                let k = choose|k: int| 0 <= k < pixels.len() && on_screen(s.width, s.height, pixels[k].x as int, pixels[k].y as int);
                assert(all[k] == pixels[k]);
            }
        }
    }
}

/// Law: a completed present of a changed frame shows exactly what was
/// drawn, and leaves nothing to present, so presenting again without
/// drawing sends nothing and changes nothing.
pub proof fn lemma_present_shows_drawn(s: FrameState)
    requires
        s.wf(),
        s.dirty,
    ensures
        s.after_present().wf(),
        !s.after_present().dirty,
        s.after_present().after_present() == s.after_present(),
        forall|px: int, py: int| s.on_screen(px, py) ==> #[trigger] s.after_present().shown(px, py) == s.pixel(px, py),
{
}

/// Law: a completed present exchanges the buffers, so drawing continues on
/// the frame that was shown before; a second exchange restores both.
pub proof fn lemma_swap_twice(s: FrameState)
    ensures
        s.swapped().swapped() == s,
        s.dirty ==> s.after_present().back == s.front,
{
}

/// Law: a forced refresh sends, and then shows, the frame that the panel
/// shows when both buffers hold the same frame, as they do right after
/// construction.
pub proof fn lemma_force_refresh_resends_shown(s: FrameState)
    requires
        s.back == s.front,
    ensures
        s.marked().back == s.front,
        s.marked().after_present().front == s.front,
        s.marked().after_present().back == s.back,
{
}

/// Law: forcing a refresh changes no pixel of either buffer and leaves a
/// frame to present; once that present completes, the panel shows exactly
/// the frame drawn before the refresh and nothing is left to present.
pub proof fn lemma_refresh_presents_drawn(s: FrameState)
    requires
        s.wf(),
    ensures
        s.marked().back == s.back,
        s.marked().front == s.front,
        s.marked().width == s.width && s.marked().height == s.height,
        s.marked().dirty,
        !s.marked().after_present().dirty,
        forall|px: int, py: int|
            s.on_screen(px, py) ==> #[trigger] s.marked().after_present().shown(px, py) == s.pixel(px, py),
{
}

/// Law: clearing, whatever the color, leaves a frame to present and does
/// not touch what the panel shows.
pub proof fn lemma_clear_leaves_frame_to_present(s: FrameState, color: u16)
    ensures
        s.cleared(color).dirty,
        s.cleared(color).front == s.front,
        s.cleared(color).width == s.width && s.cleared(color).height == s.height,
{
}

/// Law: a fill whose part on the display is not empty leaves a frame to
/// present, whatever the color; a fill that lies wholly off the display
/// changes nothing. Neither touches what the panel shows.
pub proof fn lemma_fill_leaves_frame_to_present(s: FrameState, x: u16, y: u16, w: u16, h: u16, color: u16)
    ensures
        x < s.width && y < s.height && w > 0 && h > 0 ==> s.filled(x, y, w, h, color).dirty,
        !(x < s.width && y < s.height && w > 0 && h > 0) ==> s.filled(x, y, w, h, color) == s,
        s.filled(x, y, w, h, color).front == s.front,
        s.filled(x, y, w, h, color).width == s.width && s.filled(x, y, w, h, color).height == s.height,
{
}

/// Whether the point `p` lies at column `x`, row `y`.
pub open spec fn lands_at(p: Pixel, x: int, y: int) -> bool {
    p.x as int == x && p.y as int == y
}

/// Law: drawing points onto the back buffer sets each on-screen point's
/// pixel to the color of the last point drawn there, leaves every other
/// pixel as it was, and does not touch what the panel shows. It leaves a
/// frame to present exactly when some point is on the display or one was
/// already pending; points that all lie off the display change nothing.
pub proof fn lemma_draw_points(s: FrameState, pixels: Seq<Pixel>)
    requires
        s.wf(),
    ensures
        s.drawn(pixels).wf(),
        s.drawn(pixels).front == s.front,
        s.drawn(pixels).width == s.width && s.drawn(pixels).height == s.height,
        forall|px: int, py: int|
            s.on_screen(px, py) && (forall|i: int| 0 <= i < pixels.len() ==> !lands_at(#[trigger] pixels[i], px, py))
                ==> #[trigger] s.drawn(pixels).pixel(px, py) == s.pixel(px, py),
        forall|k: int|
            0 <= k < pixels.len() && s.on_screen(pixels[k].x as int, pixels[k].y as int) && (forall|j: int|
                k < j < pixels.len() ==> !lands_at(#[trigger] pixels[j], pixels[k].x as int, pixels[k].y as int))
                ==> s.drawn(pixels).pixel(#[trigger] pixels[k].x as int, pixels[k].y as int) == pixels[k].color@,
        (forall|i: int| 0 <= i < pixels.len() ==> !s.on_screen(#[trigger] pixels[i].x as int, pixels[i].y as int))
            ==> s.drawn(pixels) == s,
        s.drawn(pixels).dirty == (s.dirty || exists|i: int|
            0 <= i < pixels.len() && s.on_screen(#[trigger] pixels[i].x as int, pixels[i].y as int)),
    decreases pixels.len(),
{
    if pixels.len() == 0 {
        assert(paint(s.back, s.width, s.height, pixels) == s.back);
        assert(!any_on_screen(s.width, s.height, pixels));
        assert(s.drawn(pixels) == s);
    } else {
        let pre = pixels.drop_last();
        let p = pixels.last();
        assert(pre.push(p) =~= pixels);
        lemma_draw_points(s, pre);
        lemma_drawn_push(s, pre, p);
        let d = s.drawn(pre);
        let p_on = on_screen(s.width, s.height, p.x as int, p.y as int);
        if p_on {
            lemma_get_after_set(d, p.x as int, p.y as int, p.color@);
        }
        assert forall|px: int, py: int|
            s.on_screen(px, py) && (forall|i: int| 0 <= i < pixels.len() ==> !lands_at(#[trigger] pixels[i], px, py))
            implies #[trigger] s.drawn(pixels).pixel(px, py) == s.pixel(px, py) by {
            assert forall|i: int| 0 <= i < pre.len() implies !lands_at(#[trigger] pre[i], px, py) by {
                assert(pre[i] == pixels[i]);
            }
            assert(!lands_at(pixels[pixels.len() - 1], px, py));
            assert(d.pixel(px, py) == s.pixel(px, py));
        }
        assert forall|k: int|
            0 <= k < pixels.len() && s.on_screen(pixels[k].x as int, pixels[k].y as int) && (forall|j: int|
                k < j < pixels.len() ==> !lands_at(#[trigger] pixels[j], pixels[k].x as int, pixels[k].y as int))
            implies s.drawn(pixels).pixel(#[trigger] pixels[k].x as int, pixels[k].y as int) == pixels[k].color@ by {
            if k < pixels.len() - 1 {
                let q = pixels[k];
                assert(pre[k] == q);
                assert forall|j: int| k < j < pre.len() implies !lands_at(#[trigger] pre[j], q.x as int, q.y as int) by {
                    assert(pre[j] == pixels[j]);
                }
                assert(d.pixel(pre[k].x as int, pre[k].y as int) == q.color@);
                assert(!lands_at(pixels[pixels.len() - 1], q.x as int, q.y as int));
            }
        }
        if forall|i: int| 0 <= i < pixels.len() ==> !s.on_screen(#[trigger] pixels[i].x as int, pixels[i].y as int) {
            assert forall|i: int| 0 <= i < pre.len() implies !s.on_screen(#[trigger] pre[i].x as int, pre[i].y as int) by {
                assert(pre[i] == pixels[i]);
            }
            assert(!s.on_screen(pixels[pixels.len() - 1].x as int, pixels[pixels.len() - 1].y as int));
        }
        if exists|i: int| 0 <= i < pixels.len() && s.on_screen(#[trigger] pixels[i].x as int, pixels[i].y as int) {
            let i = choose|i: int| 0 <= i < pixels.len() && s.on_screen(#[trigger] pixels[i].x as int, pixels[i].y as int);
            if i < pixels.len() - 1 {
                assert(pre[i] == pixels[i]);
                assert(s.on_screen(pre[i].x as int, pre[i].y as int));
            }
        } else {
            if exists|i: int| 0 <= i < pre.len() && s.on_screen(#[trigger] pre[i].x as int, pre[i].y as int) {
                let i = choose|i: int| 0 <= i < pre.len() && s.on_screen(#[trigger] pre[i].x as int, pre[i].y as int);
                assert(pixels[i] == pre[i]);
                assert(s.on_screen(pixels[i].x as int, pixels[i].y as int));
            }
            assert(!s.on_screen(pixels[pixels.len() - 1].x as int, pixels[pixels.len() - 1].y as int));
        }
    }
}

} // verus!
