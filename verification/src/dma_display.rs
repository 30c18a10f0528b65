//! DMA-enabled TFT display: the same panel protocol, with the front buffer
//! streamed in larger chunks through an asynchronous write.

use crate::color::{lemma_unpack_pack, Rgb565};
use crate::display::DisplayError;
use crate::framebuffer::{
    chunk_bytes_spec, chunk_count_spec, chunk_stream, lemma_chunks_carry_frame, FrameBuffers, FrameState,
};
use crate::graphics::Pixel;
use crate::protocol::{
    address_window_ops, init_ops, init_steps, ops_view, window_steps, words_be_bytes, BusFault, BusOp, Op, Transfer,
};
use vstd::prelude::*;

verus! {

/// Pixels per chunk when the frame is streamed asynchronously (2048 bytes
/// per transfer).
pub const DMA_CHUNK_PIXELS: usize = 1024;

/// Pixels per chunk when the frame is sent with blocking writes
/// (512 bytes per transfer).
pub const BLOCKING_CHUNK_PIXELS: usize = 256;

/// Result of a write that may have used DMA.
#[derive(Debug, Clone, Copy, PartialEq, Eq)]
pub struct DmaResult {
    pub success: bool,
    pub used_dma: bool,
}

impl DmaResult {
    pub fn new(success: bool, used_dma: bool) -> (r: DmaResult)
        ensures
            r.success == success,
            r.used_dma == used_dma,
    {
        DmaResult { success, used_dma }
    }
}

/// What one poll of an asynchronous data write does.
#[derive(Debug, PartialEq, Eq)]
pub enum DmaPoll {
    /// Finish with this result.
    Ready(Result<DmaResult, DisplayError>),
    /// Write the data with a blocking transfer, then report with
    /// `DmaWriteFuture::write_finished`.
    Write,
}

/// How an asynchronous present starts.
#[derive(Debug)]
pub enum AsyncPresent {
    /// Nothing changed since the last present: finish with this result.
    Unchanged(DmaResult),
    /// Send these steps, then the frame's chunks.
    Send(Transfer),
}

/// State of an asynchronous data write. Without a DMA channel the write
/// falls back to one blocking transfer, made on the first poll; the view is
/// whether it has completed.
pub struct DmaWriteFuture {
    completed: bool,
}

impl View for DmaWriteFuture {
    type V = bool;

    closed spec fn view(&self) -> bool {
        self.completed
    }
}

impl DmaWriteFuture {
    /// A write that has not started.
    pub fn new() -> (f: DmaWriteFuture)
        ensures
            !f@,
    {
        DmaWriteFuture { completed: false }
    }

    /// What a poll does now: a completed write is ready at once with
    /// success and no DMA used; otherwise the data must be written.
    pub fn poll_action(&self) -> (a: DmaPoll)
        ensures
            self@ ==> a == DmaPoll::Ready(Ok(DmaResult { success: true, used_dma: false })),
            !self@ ==> a == DmaPoll::Write,
    {
        if self.completed {
            DmaPoll::Ready(Ok(DmaResult::new(true, false)))
        } else {
            DmaPoll::Write
        }
    }

    /// The outcome of the blocking fallback write (`None` when it went
    /// out): on success the write is complete, with no DMA used; a pin fault
    /// is reported as `PinError`, an SPI fault as `SpiError`, and the write
    /// stays incomplete.
    pub fn write_finished(&mut self, fault: Option<BusFault>) -> (r: Result<DmaResult, DisplayError>)
        ensures
            fault is None ==> final(self)@ && r == Ok::<DmaResult, DisplayError>(DmaResult { success: true, used_dma: false }),
            fault == Some(BusFault::Pin) ==> final(self)@ == old(self)@ && r == Err::<DmaResult, DisplayError>(DisplayError::PinError),
            fault == Some(BusFault::Spi) ==> final(self)@ == old(self)@ && r == Err::<DmaResult, DisplayError>(DisplayError::SpiError),
    {
        match fault {
            None => {
                self.completed = true;
                Ok(DmaResult::new(true, false))
            },
            Some(BusFault::Pin) => Err(DisplayError::PinError),
            Some(BusFault::Spi) => Err(DisplayError::SpiError),
        }
    }
}

/// DMA-enabled TFT display driver: the panel's geometry and the bus
/// traffic of its operations. Its view is the pair (width, height).
pub struct DmaTftDisplay {
    width: u16,
    height: u16,
}

impl View for DmaTftDisplay {
    type V = (u16, u16);

    closed spec fn view(&self) -> (u16, u16) {
        (self.width, self.height)
    }
}

impl DmaTftDisplay {
    /// Both sides of the panel are at least one pixel long.
    pub open spec fn wf(&self) -> bool {
        self@.0 > 0 && self@.1 > 0
    }

    /// A 240 by 320 pixel panel.
    pub fn new() -> (d: DmaTftDisplay)
        ensures
            d@ == (240u16, 320u16),
            d.wf(),
    {
        DmaTftDisplay { width: 240, height: 320 }
    }

    /// The power-on sequence (the same as `TftDisplay::init`); a bus fault
    /// during it is reported as `InitializationFailed`.
    pub fn init(&self) -> (t: Transfer)
        ensures
            t.steps() == init_steps(),
            t.reports_init_failure(),
    {
        Transfer::initializing(init_ops())
    }

    /// Display dimensions (width, height).
    pub fn dimensions(&self) -> (dims: (u16, u16))
        ensures
            dims == self@,
    {
        (self.width, self.height)
    }

    /// The steps that select the drawing window from column `x0` to `x1`
    /// and row `y0` to `y1` and start a memory write into it.
    pub fn set_address_window(&self, x0: u16, y0: u16, x1: u16, y1: u16) -> (ops: Vec<BusOp>)
        ensures
            ops_view(ops@) == window_steps(x0, y0, x1, y1),
    {
        address_window_ops(x0, y0, x1, y1)
    }

    /// Start an asynchronous data write (a blocking fallback without a DMA
    /// channel).
    pub fn write_data_dma(&self) -> (f: DmaWriteFuture)
        ensures
            !f@,
    {
        DmaWriteFuture::new()
    }
}

/// DMA-enabled double-buffered display: like `DoubleBufferedDisplay`, with
/// an asynchronous present that streams larger chunks. Its view is the
/// state of the two buffers.
pub struct DmaDoubleBufferedDisplay<'a> {
    display: DmaTftDisplay,
    frame: FrameBuffers<'a>,
}

impl<'a> View for DmaDoubleBufferedDisplay<'a> {
    type V = FrameState;

    closed spec fn view(&self) -> FrameState {
        self.frame@
    }
}

impl<'a> DmaDoubleBufferedDisplay<'a> {
    /// The buffers match the panel, one word per pixel each.
    pub closed spec fn wf(&self) -> bool {
        &&& self.frame.wf()
        &&& self.display.wf()
        &&& self.display@ == (self.frame@.width, self.frame@.height)
    }

    /// The well-formed display state exposes well-formed buffers.
    pub proof fn lemma_wf(&self)
        requires
            self.wf(),
        ensures
            self@.wf(),
    {
    }

    /// First step of constructing a DMA double-buffered display: buffers of
    /// different lengths are refused with `InitializationFailed` before
    /// anything is sent; otherwise the result is the panel's power-on
    /// sequence (a bus fault on it is reported as `InitializationFailed`).
    /// Nothing is written to the buffers. `new` then takes the outcome of
    /// sending that sequence and makes the display.
    pub fn prepare(display: &DmaTftDisplay, back_buffer: &[u16], front_buffer: &[u16]) -> (r: Result<Transfer, DisplayError>)
        ensures
            match r {
                Ok(t) => {
                    &&& back_buffer@.len() == front_buffer@.len()
                    &&& t.steps() == init_steps()
                    &&& t.reports_init_failure()
                },
                Err(e) => e == DisplayError::InitializationFailed && back_buffer@.len() != front_buffer@.len(),
            },
    {
        if !FrameBuffers::buffers_match(back_buffer, front_buffer) {
            return Err(DisplayError::InitializationFailed);
        }
        Ok(display.init())
    }

    /// Second step of constructing a DMA double-buffered display, once the
    /// power-on sequence from `prepare` has been sent: `init_fault` is the
    /// bus fault it went out with, if any. A failed power-on sequence, or
    /// buffers that do not both hold one word per pixel of the panel, give
    /// `InitializationFailed` and leave the buffers as they were. On
    /// success both buffers are cleared to black and nothing is left to
    /// present (the panel itself is not cleared).
    pub fn new(display: DmaTftDisplay, back_buffer: &'a mut [u16], front_buffer: &'a mut [u16], init_fault: Option<BusFault>) -> (r: Result<DmaDoubleBufferedDisplay<'a>, DisplayError>)
        requires
            display.wf(),
        ensures
            match r {
                Ok(d) => {
                    &&& init_fault is None
                    &&& old(back_buffer)@.len() == old(front_buffer)@.len() == display@.0 * display@.1
                    &&& d.wf()
                    &&& d@.width == display@.0
                    &&& d@.height == display@.1
                    &&& d@.back == Seq::new(old(back_buffer)@.len(), |i: int| 0u16)
                    &&& d@.front == Seq::new(old(back_buffer)@.len(), |i: int| 0u16)
                    &&& !d@.dirty
                },
                Err(e) => {
                    &&& e == DisplayError::InitializationFailed
                    &&& (init_fault is Some || old(back_buffer)@.len() != old(front_buffer)@.len()
                        || old(back_buffer)@.len() != display@.0 * display@.1)
                    &&& final(back_buffer)@ == old(back_buffer)@
                    &&& final(front_buffer)@ == old(front_buffer)@
                },
            },
    {
        if init_fault.is_some() {
            return Err(DisplayError::InitializationFailed);
        }
        let (width, height) = display.dimensions();
        let frame = FrameBuffers::new(back_buffer, front_buffer, width, height)?;
        Ok(DmaDoubleBufferedDisplay { display, frame })
    }

    /// Display dimensions (width, height).
    pub fn dimensions(&self) -> (dims: (u16, u16))
        requires
            self.wf(),
        ensures
            dims == (self@.width, self@.height),
    {
        self.frame.dimensions()
    }

    /// Clear the back buffer to a specific color.
    pub fn clear(&mut self, color: Rgb565)
        requires
            old(self).wf(),
        ensures
            final(self).wf(),
            final(self)@ == old(self)@.cleared(color@),
    {
        self.frame.clear(color.into_storage());
    }

    /// Set a pixel in the back buffer; a pixel off the display is refused
    /// with `InvalidCoordinate` and nothing changes.
    pub fn set_pixel(&mut self, x: u16, y: u16, color: Rgb565) -> (r: Result<(), DisplayError>)
        requires
            old(self).wf(),
        ensures
            final(self).wf(),
            match r {
                Ok(()) => {
                    &&& old(self)@.on_screen(x as int, y as int)
                    &&& final(self)@ == old(self)@.with_pixel(x as int, y as int, color@)
                },
                Err(e) => {
                    &&& e == DisplayError::InvalidCoordinate
                    &&& !old(self)@.on_screen(x as int, y as int)
                    &&& final(self)@ == old(self)@
                },
            },
    {
        self.frame.set_pixel(x, y, color.into_storage())
    }

    /// Get a pixel from the back buffer, rebuilt from its red, green and
    /// blue channels; a pixel off the display is refused with
    /// `InvalidCoordinate`.
    pub fn get_pixel(&self, x: u16, y: u16) -> (r: Result<Rgb565, DisplayError>)
        requires
            self.wf(),
        ensures
            match r {
                Ok(c) => self@.on_screen(x as int, y as int) && c@ == self@.pixel(x as int, y as int),
                Err(e) => e == DisplayError::InvalidCoordinate && !self@.on_screen(x as int, y as int),
            },
    {
        let word = self.frame.get_pixel(x, y)?;
        proof {
            lemma_unpack_pack(word);
        }
        Ok(Rgb565::new(((word >> 11u16) & 0x1f) as u8, ((word >> 5u16) & 0x3f) as u8, (word & 0x1f) as u8))
    }

    /// Fill a rectangle in the back buffer, clipped to the display; a
    /// rectangle that is empty after clipping changes nothing.
    pub fn fill_rect(&mut self, x: u16, y: u16, w: u16, h: u16, color: Rgb565)
        requires
            old(self).wf(),
        ensures
            final(self).wf(),
            final(self)@ == old(self)@.filled(x, y, w, h, color@),
    {
        self.frame.fill_rect(x, y, w, h, color.into_storage());
    }

    /// Draw one point on the back buffer; a point off the display is
    /// skipped. Never fails.
    pub fn draw_pixel(&mut self, p: Pixel) -> (r: Result<(), DisplayError>)
        requires
            old(self).wf(),
        ensures
            final(self).wf(),
            r is Ok,
            if old(self)@.on_screen(p.x as int, p.y as int) {
                final(self)@ == old(self)@.with_pixel(p.x as int, p.y as int, p.color@)
            } else {
                final(self)@ == old(self)@
            },
    {
        self.frame.draw_pixel(p.x, p.y, p.color.into_storage())
    }

    /// Draw points on the back buffer in order, skipping those off the
    /// display. Never fails.
    pub fn draw_iter(&mut self, pixels: &[Pixel]) -> (r: Result<(), DisplayError>)
        requires
            old(self).wf(),
        ensures
            final(self).wf(),
            r is Ok,
            final(self)@ == old(self)@.drawn(pixels@),
    {
        self.frame.draw_iter(pixels)
    }

    /// The panel driver, which starts the asynchronous writes.
    pub fn display(&self) -> (d: &DmaTftDisplay)
        requires
            self.wf(),
        ensures
            d@ == (self@.width, self@.height),
            d.wf(),
    {
        &self.display
    }

    /// Present the back buffer asynchronously. With no changes since the
    /// last present this is `Unchanged`, with a success that used no DMA.
    /// Otherwise it opens a full-screen memory write; the caller then
    /// streams `present_async_chunk(i)` for every `i` below
    /// `present_async_chunk_count()` through `write_data_dma`, and reports
    /// their results to `present_async_done`. A pin fault on any of it is
    /// reported as `PinError`, an SPI fault as `SpiError`; nothing changes
    /// before `present_async_done`.
    pub fn present_async(&self) -> (r: AsyncPresent)
        requires
            self.wf(),
        ensures
            if self@.dirty {
                r matches AsyncPresent::Send(t) && t.reports_bus_faults() && t.steps() == window_steps(
                    0,
                    0,
                    (self@.width - 1) as u16,
                    (self@.height - 1) as u16,
                )
            } else {
                r == AsyncPresent::Unchanged(DmaResult { success: true, used_dma: false })
            },
    {
        match self.frame.begin_present() {
            Some(t) => AsyncPresent::Send(t),
            None => AsyncPresent::Unchanged(DmaResult::new(true, false)),
        }
    }

    /// The number of asynchronous chunks (of `DMA_CHUNK_PIXELS` pixels) that
    /// carry the frame being presented (the back buffer).
    pub fn present_async_chunk_count(&self) -> (n: usize)
        requires
            self.wf(),
        ensures
            n == chunk_count_spec(self@.back.len(), DMA_CHUNK_PIXELS as nat),
    {
        self.frame.chunk_count(DMA_CHUNK_PIXELS)
    }

    /// The bytes of the `i`-th asynchronous chunk of the frame being presented.
    pub fn present_async_chunk(&self, i: usize) -> (bytes: Vec<u8>)
        requires
            self.wf(),
            i < chunk_count_spec(self@.back.len(), DMA_CHUNK_PIXELS as nat),
        ensures
            bytes@ == chunk_bytes_spec(self@.back, DMA_CHUNK_PIXELS as nat, i as nat),
    {
        self.frame.chunk_bytes(DMA_CHUNK_PIXELS, i)
    }

    /// The asynchronous present went out completely: swap the buffers and
    /// leave nothing to present; the result is a success that used DMA if
    /// any chunk's write did.
    pub fn present_async_done(&mut self, chunk_results: &[DmaResult]) -> (r: DmaResult)
        requires
            old(self).wf(),
        ensures
            final(self).wf(),
            final(self)@ == old(self)@.after_present(),
            r.success,
            r.used_dma == exists|i: int| 0 <= i < chunk_results@.len() && chunk_results@[i].used_dma,
    {
        let mut any_dma_used = false;
        let mut i: usize = 0;
        while i < chunk_results.len()
            invariant
                i <= chunk_results@.len(),
                any_dma_used == exists|k: int| 0 <= k < i && chunk_results@[k].used_dma,
            decreases chunk_results@.len() - i,
        {
            if chunk_results[i].used_dma {
                any_dma_used = true;
            }
            i = i + 1;
        }
        self.frame.present_done();
        DmaResult::new(true, any_dma_used)
    }

    /// Present the back buffer with blocking writes (fallback). With no
    /// changes since the last present this is `None`. Otherwise it opens a
    /// full-screen memory write; the caller then sends `present_chunk(i)`
    /// for every `i` below `present_chunk_count()` as data, and calls
    /// `present_done` once all of it went out. A pin fault is reported as
    /// `PinError`, an SPI fault as `SpiError`; nothing changes before
    /// `present_done`.
    pub fn present(&self) -> (r: Option<Transfer>)
        requires
            self.wf(),
        ensures
            if self@.dirty {
                r matches Some(t) && t.reports_bus_faults() && t.steps() == window_steps(
                    0,
                    0,
                    (self@.width - 1) as u16,
                    (self@.height - 1) as u16,
                )
            } else {
                r is None
            },
    {
        self.frame.begin_present()
    }

    /// The number of blocking data chunks (of `BLOCKING_CHUNK_PIXELS`
    /// pixels) that carry the frame being presented.
    pub fn present_chunk_count(&self) -> (n: usize)
        requires
            self.wf(),
        ensures
            n == chunk_count_spec(self@.back.len(), BLOCKING_CHUNK_PIXELS as nat),
    {
        self.frame.chunk_count(BLOCKING_CHUNK_PIXELS)
    }

    /// The bytes of the `i`-th blocking data chunk of the frame being presented.
    pub fn present_chunk(&self, i: usize) -> (bytes: Vec<u8>)
        requires
            self.wf(),
            i < chunk_count_spec(self@.back.len(), BLOCKING_CHUNK_PIXELS as nat),
        ensures
            bytes@ == chunk_bytes_spec(self@.back, BLOCKING_CHUNK_PIXELS as nat, i as nat),
    {
        self.frame.chunk_bytes(BLOCKING_CHUNK_PIXELS, i)
    }

    /// The frame went out completely: swap the buffers and leave nothing to
    /// present. Without a frame to present this changes nothing.
    pub fn present_done(&mut self)
        requires
            old(self).wf(),
        ensures
            final(self).wf(),
            final(self)@ == old(self)@.after_present(),
    {
        self.frame.present_done();
    }

    /// Force a full screen refresh: mark the back buffer as changed and
    /// present it.
    pub fn force_refresh(&mut self) -> (t: Transfer)
        requires
            old(self).wf(),
        ensures
            final(self).wf(),
            final(self)@ == old(self)@.marked(),
            t.reports_bus_faults(),
            t.steps() == window_steps(0, 0, (old(self)@.width - 1) as u16, (old(self)@.height - 1) as u16),
    {
        self.frame.mark_dirty();
        match self.present() {
            Some(t) => t,
            None => Transfer::drawing(Vec::new()),
        }
    }
}

/// Law: the asynchronous present and the blocking present put the same
/// bytes on the bus after the window: every pixel of the frame, in order,
/// most significant byte first; only the chunking differs.
pub proof fn lemma_async_and_blocking_present_agree(frame: Seq<u16>)
    ensures
        chunk_stream(frame, DMA_CHUNK_PIXELS as nat, chunk_count_spec(frame.len(), DMA_CHUNK_PIXELS as nat))
            == chunk_stream(frame, BLOCKING_CHUNK_PIXELS as nat, chunk_count_spec(frame.len(), BLOCKING_CHUNK_PIXELS as nat)),
        chunk_stream(frame, DMA_CHUNK_PIXELS as nat, chunk_count_spec(frame.len(), DMA_CHUNK_PIXELS as nat))
            == words_be_bytes(frame),
{
    lemma_chunks_carry_frame(frame, DMA_CHUNK_PIXELS as nat);
    lemma_chunks_carry_frame(frame, BLOCKING_CHUNK_PIXELS as nat);
}

} // verus!
