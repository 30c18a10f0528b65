//! The TFT display and its double-buffered form.

use crate::color::{lemma_unpack_pack, Rgb565};
use crate::framebuffer::{chunk_bytes_spec, chunk_count_spec, FrameBuffers, FrameState};
use crate::graphics::{colors, Pixel};
use crate::protocol::{
    address_window_ops, be_bytes, init_ops, init_steps, lemma_ops_view_add, ops_view, push_op,
    push_repeated_word, window_steps, word_bytes, BusFault, BusOp, Op, Transfer,
};
use vstd::prelude::*;

verus! {

/// Display error types.
#[derive(Debug, Clone, Copy, PartialEq, Eq, Structural)]
pub enum DisplayError {
    /// SPI communication error
    SpiError,
    /// GPIO pin error
    PinError,
    /// Invalid coordinate
    InvalidCoordinate,
    /// Initialization failed
    InitializationFailed,
}

impl From<&'static str> for DisplayError {
    /// A bus message from the low-level writes becomes `InitializationFailed`.
    fn from(_message: &'static str) -> (e: DisplayError) {
        DisplayError::InitializationFailed
    }
}

impl vstd::std_specs::convert::FromSpecImpl<&'static str> for DisplayError {
    open spec fn obeys_from_spec() -> bool {
        true
    }

    open spec fn from_spec(v: &'static str) -> DisplayError {
        DisplayError::InitializationFailed
    }
}

/// Whether column `x` and row `y` lie on a display of `width` by `height` pixels.
pub open spec fn on_screen(width: u16, height: u16, x: int, y: int) -> bool {
    0 <= x < width && 0 <= y < height
}

/// The smaller of two integers.
pub open spec fn min_int(a: int, b: int) -> int {
    if a <= b { a } else { b }
}

/// The steps that fill the rectangle at column `x`, row `y`, `w` wide and
/// `h` high, clipped to a `width` by `height` display, with the color word
/// `word`: the address window of the clipped rectangle, then the two bytes
/// of the color sent as one data write per pixel. Nothing when the clipped
/// rectangle is empty.
pub open spec fn fill_steps(width: u16, height: u16, x: u16, y: u16, w: u16, h: u16, word: u16) -> Seq<Op> {
    let end_x = min_int(x + w, width as int);
    let end_y = min_int(y + h, height as int);
    if end_x <= x || end_y <= y {
        Seq::empty()
    } else {
        window_steps(x, y, (end_x - 1) as u16, (end_y - 1) as u16)
            + seq![Op::RepeatData(be_bytes(word), ((end_x - x) * (end_y - y)) as nat)]
    }
}

/// The steps that draw one point: a one-pixel address window and the two
/// bytes of its color; nothing for a point off the display.
pub open spec fn point_steps(width: u16, height: u16, p: Pixel) -> Seq<Op> {
    if on_screen(width, height, p.x as int, p.y as int) {
        window_steps(p.x as u16, p.y as u16, p.x as u16, p.y as u16) + seq![Op::Data(be_bytes(p.color@))]
    } else {
        Seq::empty()
    }
}

/// The steps that draw a run of points, one after the other.
pub open spec fn points_steps(width: u16, height: u16, pixels: Seq<Pixel>) -> Seq<Op>
    decreases pixels.len(),
{
    if pixels.len() == 0 {
        Seq::empty()
    } else {
        points_steps(width, height, pixels.drop_last()) + point_steps(width, height, pixels.last())
    }
}

/// Law: drawing a run of points sends the traffic of drawing them one at a
/// time, in order.
pub proof fn lemma_points_steps_push(width: u16, height: u16, pixels: Seq<Pixel>, p: Pixel)
    ensures
        points_steps(width, height, pixels.push(p)) == points_steps(width, height, pixels) + point_steps(
            width,
            height,
            p,
        ),
{
    assert(pixels.push(p).drop_last() =~= pixels);
}

/// The end (excluded) of the span from `start`, `len` long, clipped to
/// `limit`; the sum is taken without overflow.
pub fn clip_end(start: u16, len: u16, limit: u16) -> (end: u16)
    ensures
        end == min_int(start + len, limit as int),
{
    let sum: u32 = start as u32 + len as u32;
    if sum < limit as u32 {
        sum as u16
    } else {
        limit
    }
}

/// Basic TFT display driver: the panel's geometry, and the bus traffic of
/// each operation. Its view is the pair (width, height).
pub struct TftDisplay {
    width: u16,
    height: u16,
}

impl View for TftDisplay {
    type V = (u16, u16);

    closed spec fn view(&self) -> (u16, u16) {
        (self.width, self.height)
    }
}

impl TftDisplay {
    /// Both sides of the panel are at least one pixel long.
    pub open spec fn wf(&self) -> bool {
        self@.0 > 0 && self@.1 > 0
    }

    /// A 240 by 320 pixel panel (the reset pin is tied high, so no reset
    /// line is driven).
    pub fn new() -> (d: TftDisplay)
        ensures
            d@ == (240u16, 320u16),
            d.wf(),
    {
        TftDisplay { width: 240, height: 320 }
    }

    /// The power-on sequence; a bus fault during it is reported as
    /// `InitializationFailed`.
    pub fn init(&self) -> (t: Transfer)
        ensures
            t.steps() == init_steps(),
            t.reports_init_failure(),
    {
        Transfer::initializing(init_ops())
    }

    /// Display dimensions (width, height).
    pub fn dimensions(&self) -> (dims: (u16, u16))
        ensures
            dims == self@,
    {
        (self.width, self.height)
    }

    /// The steps that select the drawing window from column `x0` to `x1`
    /// and row `y0` to `y1` and start a memory write into it.
    pub fn set_address_window(&self, x0: u16, y0: u16, x1: u16, y1: u16) -> (ops: Vec<BusOp>)
        ensures
            ops_view(ops@) == window_steps(x0, y0, x1, y1),
    {
        address_window_ops(x0, y0, x1, y1)
    }

    /// Fill a rectangular area with a single color. A start point off the
    /// display is refused with `InvalidCoordinate`; otherwise the rectangle
    /// is clipped to the display (the sums are taken without overflow). A pin
    /// fault is reported as `PinError`, an SPI fault as `SpiError`.
    pub fn fill_rect(&self, x: u16, y: u16, w: u16, h: u16, color: Rgb565) -> (r: Result<Transfer, DisplayError>)
        ensures
            match r {
                Ok(t) => {
                    &&& x < self@.0 && y < self@.1
                    &&& t.reports_bus_faults()
                    &&& t.steps() == fill_steps(self@.0, self@.1, x, y, w, h, color@)
                },
                Err(e) => e == DisplayError::InvalidCoordinate && (x >= self@.0 || y >= self@.1),
            },
    {
        if x >= self.width || y >= self.height {
            return Err(DisplayError::InvalidCoordinate);
        }
        let end_x = clip_end(x, w, self.width);
        let end_y = clip_end(y, h, self.height);
        if end_x <= x || end_y <= y {
            let t = Transfer::drawing(Vec::new());
            assert(t.steps() =~= Seq::<Op>::empty());
            return Ok(t);
        }
        let mut ops = self.set_address_window(x, y, end_x - 1, end_y - 1);
        let word = color.into_storage();
        let cols: u32 = (end_x - x) as u32;
        let rows: u32 = (end_y - y) as u32;
        assert(cols * rows <= 0xffff * 0xffff) by (nonlinear_arith)
            requires cols <= 0xffff, rows <= 0xffff;
        let pixel_count: u32 = cols * rows;
        push_repeated_word(&mut ops, word, pixel_count);
        Ok(Transfer::drawing(ops))
    }

    /// Clear the display to black: `fill_rect` over the whole display.
    pub fn clear(&self) -> (r: Result<Transfer, DisplayError>)
        requires
            self.wf(),
        ensures
            r matches Ok(t) && t.reports_bus_faults()
                && t.steps() == fill_steps(self@.0, self@.1, 0, 0, self@.0, self@.1, colors::BLACK),
    {
        self.fill_rect(0, 0, self.width, self.height, Rgb565::from_storage(colors::BLACK))
    }

    /// The steps that draw one point; a point off the display is skipped.
    /// A pin fault is reported as `PinError`, an SPI fault as `SpiError`.
    pub fn draw_pixel(&self, p: Pixel) -> (t: Transfer)
        ensures
            t.steps() == point_steps(self@.0, self@.1, p),
            t.reports_bus_faults(),
    {
        let mut ops: Vec<BusOp> = Vec::new();
        if p.x < 0 || p.y < 0 || p.x >= self.width as i32 || p.y >= self.height as i32 {
            assert(ops_view(ops@) =~= Seq::<Op>::empty());
            return Transfer::drawing(ops);
        }
        let px = p.x as u16;
        let py = p.y as u16;
        ops = self.set_address_window(px, py, px, py);
        push_op(&mut ops, BusOp::Data(word_bytes(p.color.into_storage())));
        Transfer::drawing(ops)
    }

    /// The steps that draw the given points in order, skipping those off
    /// the display. A pin fault is reported as `PinError`, an SPI fault as
    /// `SpiError`.
    pub fn draw_iter(&self, pixels: &[Pixel]) -> (t: Transfer)
        ensures
            t.steps() == points_steps(self@.0, self@.1, pixels@),
            t.reports_bus_faults(),
    {
        let mut ops: Vec<BusOp> = Vec::new();
        let mut i: usize = 0;
        while i < pixels.len()
            invariant
                i <= pixels@.len(),
                ops_view(ops@) == points_steps(self@.0, self@.1, pixels@.subrange(0, i as int)),
            decreases pixels@.len() - i,
        {
            let mut one = self.draw_pixel(pixels[i]);
            proof {
                lemma_ops_view_add(ops@, one.ops@);
                assert(pixels@.subrange(0, i + 1).drop_last() =~= pixels@.subrange(0, i as int));
            }
            ops.append(&mut one.ops);
            i = i + 1;
        }
        assert(pixels@.subrange(0, pixels@.len() as int) =~= pixels@);
        Transfer::drawing(ops)
    }
}

/// Pixels per chunk when a double-buffered display sends its frame
/// (512 bytes per transfer).
pub const PRESENT_CHUNK_PIXELS: usize = 256;

/// Double-buffered display for smooth graphics rendering.
///
/// Drawing operations write to the back buffer; presenting sends it to the
/// panel and then swaps the buffers, so that it becomes the front buffer.
/// The buffers are provided
/// by the caller so that they can be allocated statically. The view is the
/// state of the two buffers.
pub struct DoubleBufferedDisplay<'a> {
    display: TftDisplay,
    frame: FrameBuffers<'a>,
}

impl<'a> View for DoubleBufferedDisplay<'a> {
    type V = FrameState;

    closed spec fn view(&self) -> FrameState {
        self.frame@
    }
}

impl<'a> DoubleBufferedDisplay<'a> {
    /// The buffers match the panel, one word per pixel each.
    pub closed spec fn wf(&self) -> bool {
        &&& self.frame.wf()
        &&& self.display.wf()
        &&& self.display@ == (self.frame@.width, self.frame@.height)
    }

    /// The well-formed display state exposes well-formed buffers.
    pub proof fn lemma_wf(&self)
        requires
            self.wf(),
        ensures
            self@.wf(),
    {
    }

    /// First step of constructing a double-buffered display: buffers of
    /// different lengths are refused with `InitializationFailed` before
    /// anything is sent; otherwise the result is the panel's power-on
    /// sequence (a bus fault on it is reported as `InitializationFailed`).
    /// Nothing is written to the buffers. `new` then takes the outcome of
    /// sending that sequence and makes the display.
    pub fn prepare(display: &TftDisplay, back_buffer: &[u16], front_buffer: &[u16]) -> (r: Result<Transfer, DisplayError>)
        ensures
            match r {
                Ok(t) => {
                    &&& back_buffer@.len() == front_buffer@.len()
                    &&& t.steps() == init_steps()
                    &&& t.reports_init_failure()
                },
                Err(e) => e == DisplayError::InitializationFailed && back_buffer@.len() != front_buffer@.len(),
            },
    {
        if !FrameBuffers::buffers_match(back_buffer, front_buffer) {
            return Err(DisplayError::InitializationFailed);
        }
        Ok(display.init())
    }

    /// Second step of constructing a double-buffered display, once the
    /// power-on sequence from `prepare` has been sent: `init_fault` is the
    /// bus fault it went out with, if any. A failed power-on sequence, or
    /// buffers that do not both hold one word per pixel of the panel, give
    /// `InitializationFailed` and leave the buffers as they were. On success
    /// both buffers are cleared to black, nothing is left to present, and
    /// the returned transfer clears the panel itself (`TftDisplay::clear`; a pin fault is
    /// reported as `PinError`, an SPI fault as `SpiError`).
    pub fn new(display: TftDisplay, back_buffer: &'a mut [u16], front_buffer: &'a mut [u16], init_fault: Option<BusFault>) -> (r: Result<(DoubleBufferedDisplay<'a>, Transfer), DisplayError>)
        requires
            display.wf(),
        ensures
            match r {
                Ok((d, t)) => {
                    &&& init_fault is None
                    &&& old(back_buffer)@.len() == old(front_buffer)@.len() == display@.0 * display@.1
                    &&& d.wf()
                    &&& d@.width == display@.0
                    &&& d@.height == display@.1
                    &&& d@.back == Seq::new(old(back_buffer)@.len(), |i: int| 0u16)
                    &&& d@.front == Seq::new(old(back_buffer)@.len(), |i: int| 0u16)
                    &&& !d@.dirty
                    &&& t.reports_bus_faults()
                    &&& t.steps() == fill_steps(display@.0, display@.1, 0, 0, display@.0, display@.1, colors::BLACK)
                },
                Err(e) => {
                    &&& e == DisplayError::InitializationFailed
                    &&& (init_fault is Some || old(back_buffer)@.len() != old(front_buffer)@.len()
                        || old(back_buffer)@.len() != display@.0 * display@.1)
                    &&& final(back_buffer)@ == old(back_buffer)@
                    &&& final(front_buffer)@ == old(front_buffer)@
                },
            },
    {
        if init_fault.is_some() {
            return Err(DisplayError::InitializationFailed);
        }
        let (width, height) = display.dimensions();
        let frame = FrameBuffers::new(back_buffer, front_buffer, width, height)?;
        match display.clear() {
            Ok(t) => Ok((DoubleBufferedDisplay { display, frame }, t)),
            Err(e) => Err(e),
        }
    }

    /// Display dimensions (width, height).
    pub fn dimensions(&self) -> (dims: (u16, u16))
        requires
            self.wf(),
        ensures
            dims == (self@.width, self@.height),
    {
        self.frame.dimensions()
    }

    /// Clear the back buffer to a specific color.
    pub fn clear(&mut self, color: Rgb565)
        requires
            old(self).wf(),
        ensures
            final(self).wf(),
            final(self)@ == old(self)@.cleared(color@),
    {
        self.frame.clear(color.into_storage());
    }

    /// Set a pixel in the back buffer; a pixel off the display is refused
    /// with `InvalidCoordinate` and nothing changes.
    pub fn set_pixel(&mut self, x: u16, y: u16, color: Rgb565) -> (r: Result<(), DisplayError>)
        requires
            old(self).wf(),
        ensures
            final(self).wf(),
            match r {
                Ok(()) => {
                    &&& old(self)@.on_screen(x as int, y as int)
                    &&& final(self)@ == old(self)@.with_pixel(x as int, y as int, color@)
                },
                Err(e) => {
                    &&& e == DisplayError::InvalidCoordinate
                    &&& !old(self)@.on_screen(x as int, y as int)
                    &&& final(self)@ == old(self)@
                },
            },
    {
        self.frame.set_pixel(x, y, color.into_storage())
    }

    /// Get a pixel from the back buffer, rebuilt from its red, green and
    /// blue channels; a pixel off the display is refused with
    /// `InvalidCoordinate`.
    pub fn get_pixel(&self, x: u16, y: u16) -> (r: Result<Rgb565, DisplayError>)
        requires
            self.wf(),
        ensures
            match r {
                Ok(c) => self@.on_screen(x as int, y as int) && c@ == self@.pixel(x as int, y as int),
                Err(e) => e == DisplayError::InvalidCoordinate && !self@.on_screen(x as int, y as int),
            },
    {
        let word = self.frame.get_pixel(x, y)?;
        proof {
            lemma_unpack_pack(word);
        }
        Ok(Rgb565::new(((word >> 11u16) & 0x1f) as u8, ((word >> 5u16) & 0x3f) as u8, (word & 0x1f) as u8))
    }

    /// Fill a rectangle in the back buffer, clipped to the display; a
    /// rectangle that is empty after clipping changes nothing.
    pub fn fill_rect(&mut self, x: u16, y: u16, w: u16, h: u16, color: Rgb565)
        requires
            old(self).wf(),
        ensures
            final(self).wf(),
            final(self)@ == old(self)@.filled(x, y, w, h, color@),
    {
        self.frame.fill_rect(x, y, w, h, color.into_storage());
    }

    /// Draw one point on the back buffer; a point off the display is
    /// skipped. Never fails.
    pub fn draw_pixel(&mut self, p: Pixel) -> (r: Result<(), DisplayError>)
        requires
            old(self).wf(),
        ensures
            final(self).wf(),
            r is Ok,
            if old(self)@.on_screen(p.x as int, p.y as int) {
                final(self)@ == old(self)@.with_pixel(p.x as int, p.y as int, p.color@)
            } else {
                final(self)@ == old(self)@
            },
    {
        self.frame.draw_pixel(p.x, p.y, p.color.into_storage())
    }

    /// Draw points on the back buffer in order, skipping those off the
    /// display. Never fails.
    pub fn draw_iter(&mut self, pixels: &[Pixel]) -> (r: Result<(), DisplayError>)
        requires
            old(self).wf(),
        ensures
            final(self).wf(),
            r is Ok,
            final(self)@ == old(self)@.drawn(pixels@),
    {
        self.frame.draw_iter(pixels)
    }

    /// Present the back buffer to the display. With no changes since the
    /// last present this is `None`. Otherwise it opens a full-screen memory
    /// write; the caller then sends `present_chunk(i)` for every `i` below
    /// `present_chunk_count()` as data, and calls `present_done` once all
    /// of it went out. A pin fault on any of it is reported as `PinError`,
    /// an SPI fault as `SpiError`. Nothing changes before `present_done`, so
    /// a failed present leaves both buffers, and the frame still to present,
    /// as they were.
    pub fn present(&self) -> (r: Option<Transfer>)
        requires
            self.wf(),
        ensures
            if self@.dirty {
                r matches Some(t) && t.reports_bus_faults() && t.steps() == window_steps(
                    0,
                    0,
                    (self@.width - 1) as u16,
                    (self@.height - 1) as u16,
                )
            } else {
                r is None
            },
    {
        self.frame.begin_present()
    }

    /// The number of data chunks (of `PRESENT_CHUNK_PIXELS` pixels) that
    /// carry the frame being presented (the back buffer).
    pub fn present_chunk_count(&self) -> (n: usize)
        requires
            self.wf(),
        ensures
            n == chunk_count_spec(self@.back.len(), PRESENT_CHUNK_PIXELS as nat),
    {
        self.frame.chunk_count(PRESENT_CHUNK_PIXELS)
    }

    /// The bytes of the `i`-th data chunk of the frame being presented.
    pub fn present_chunk(&self, i: usize) -> (bytes: Vec<u8>)
        requires
            self.wf(),
            i < chunk_count_spec(self@.back.len(), PRESENT_CHUNK_PIXELS as nat),
        ensures
            bytes@ == chunk_bytes_spec(self@.back, PRESENT_CHUNK_PIXELS as nat, i as nat),
    {
        self.frame.chunk_bytes(PRESENT_CHUNK_PIXELS, i)
    }

    /// The frame went out completely: swap the buffers, so that it becomes
    /// the front buffer, and leave nothing to present. Without a frame to
    /// present this changes nothing.
    pub fn present_done(&mut self)
        requires
            old(self).wf(),
        ensures
            final(self).wf(),
            final(self)@ == old(self)@.after_present(),
    {
        self.frame.present_done();
    }

    /// Force a full screen refresh: mark the back buffer as changed and
    /// present it (useful for initialization).
    pub fn force_refresh(&mut self) -> (t: Transfer)
        requires
            old(self).wf(),
        ensures
            final(self).wf(),
            final(self)@ == old(self)@.marked(),
            t.reports_bus_faults(),
            t.steps() == window_steps(0, 0, (old(self)@.width - 1) as u16, (old(self)@.height - 1) as u16),
    {
        self.frame.mark_dirty();
        match self.present() {
            Some(t) => t,
            None => Transfer::drawing(Vec::new()),
        }
    }
}

} // verus!
