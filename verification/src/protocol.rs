//! The bus protocol of the panel: the commands and data bytes that each
//! display operation sends, as values the caller executes in order.
//!
//! A `Command` byte is sent with the data/command line low, a `Data` block
//! with it high; `DelayMs` asks the executor to wait.

use crate::display::DisplayError;
use vstd::prelude::*;

verus! {

/// Software reset.
pub const SWRESET: u8 = 0x01;

/// Sleep out.
pub const SLPOUT: u8 = 0x11;

/// Pixel format set.
pub const COLMOD: u8 = 0x3a;

/// Memory access control.
pub const MADCTL: u8 = 0x36;

/// Display on.
pub const DISPON: u8 = 0x29;

/// Column address set.
pub const CASET: u8 = 0x2a;

/// Page (row) address set.
pub const PASET: u8 = 0x2b;

/// Memory write: the data that follows fills the address window.
pub const RAMWR: u8 = 0x2c;

/// COLMOD parameter: 16 bits per pixel (RGB565).
pub const PIXEL_FORMAT_16BIT: u8 = 0x55;

/// MADCTL parameter: column order mirrored, BGR panel.
pub const MADCTL_MX_BGR: u8 = 0x48;

/// One step on the bus.
#[derive(Debug, PartialEq, Eq)]
pub enum BusOp {
    /// A command byte, sent with the data/command line low.
    Command(u8),
    /// A block of data bytes, sent with the data/command line high.
    Data(Vec<u8>),
    /// A block of data bytes sent the given number of times, each time as
    /// its own data write.
    RepeatData(Vec<u8>, u32),
    /// A pause of the given number of milliseconds.
    DelayMs(u16),
}

/// The mathematical value of a bus step.
pub enum Op {
    Command(u8),
    Data(Seq<u8>),
    RepeatData(Seq<u8>, nat),
    DelayMs(u16),
}

impl View for BusOp {
    type V = Op;

    open spec fn view(&self) -> Op {
        match self {
            BusOp::Command(c) => Op::Command(*c),
            BusOp::Data(d) => Op::Data(d@),
            BusOp::RepeatData(d, n) => Op::RepeatData(d@, *n as nat),
            BusOp::DelayMs(ms) => Op::DelayMs(*ms),
        }
    }
}

/// The values of a sequence of bus steps.
pub open spec fn ops_view(ops: Seq<BusOp>) -> Seq<Op> {
    ops.map_values(|o: BusOp| o@)
}

/// A failure on the bus: the data/command pin could not be driven, or the
/// SPI write failed.
#[derive(Debug, Clone, Copy, PartialEq, Eq, Structural)]
pub enum BusFault {
    Pin,
    Spi,
}

impl BusFault {
    /// The message that a single command or data write gives for this fault.
    pub fn message(&self) -> (m: &'static str)
        ensures
            *self == BusFault::Pin ==> m == "DC pin error",
            *self == BusFault::Spi ==> m == "SPI write error",
    {
        match self {
            BusFault::Pin => "DC pin error",
            BusFault::Spi => "SPI write error",
        }
    }
}

/// The bus steps of one display operation, and the errors that the
/// operation reports if the data/command pin or the SPI write fails on any
/// of them (the steps after a failed one are not sent).
#[derive(Debug)]
pub struct Transfer {
    pub ops: Vec<BusOp>,
    pub on_pin_fault: DisplayError,
    pub on_spi_fault: DisplayError,
}

impl Transfer {
    /// The values of this transfer's steps.
    pub open spec fn steps(&self) -> Seq<Op> {
        ops_view(self.ops@)
    }

    /// A pin fault is reported as `PinError` and an SPI fault as `SpiError`.
    pub open spec fn reports_bus_faults(&self) -> bool {
        self.on_pin_fault == DisplayError::PinError && self.on_spi_fault == DisplayError::SpiError
    }

    /// Every fault is reported as `InitializationFailed`.
    pub open spec fn reports_init_failure(&self) -> bool {
        self.on_pin_fault == DisplayError::InitializationFailed && self.on_spi_fault
            == DisplayError::InitializationFailed
    }

    /// The error that `fault` on one of the steps makes this operation report.
    pub open spec fn error_spec(&self, fault: BusFault) -> DisplayError {
        match fault {
            BusFault::Pin => self.on_pin_fault,
            BusFault::Spi => self.on_spi_fault,
        }
    }

    /// The steps of a drawing operation: a pin fault is reported as
    /// `PinError`, an SPI fault as `SpiError`.
    pub fn drawing(ops: Vec<BusOp>) -> (t: Transfer)
        ensures
            t.ops == ops,
            t.reports_bus_faults(),
    {
        Transfer { ops, on_pin_fault: DisplayError::PinError, on_spi_fault: DisplayError::SpiError }
    }

    /// The steps of the power-on sequence: every fault is reported as
    /// `InitializationFailed`.
    pub fn initializing(ops: Vec<BusOp>) -> (t: Transfer)
        ensures
            t.ops == ops,
            t.reports_init_failure(),
    {
        Transfer {
            ops,
            on_pin_fault: DisplayError::InitializationFailed,
            on_spi_fault: DisplayError::InitializationFailed,
        }
    }

    /// The error that `fault` on one of the steps makes this operation report.
    pub fn error_for(&self, fault: BusFault) -> (e: DisplayError)
        ensures
            e == self.error_spec(fault),
    {
        match fault {
            BusFault::Pin => self.on_pin_fault,
            BusFault::Spi => self.on_spi_fault,
        }
    }
}

/// The two bytes of a 16-bit word, most significant first.
pub open spec fn be_bytes(v: u16) -> Seq<u8> {
    seq![(v >> 8u16) as u8, (v & 0xffu16) as u8]
}

/// The bytes of a run of 16-bit words, each most significant byte first.
pub open spec fn words_be_bytes(words: Seq<u16>) -> Seq<u8>
    decreases words.len(),
{
    if words.len() == 0 {
        Seq::empty()
    } else {
        words_be_bytes(words.drop_last()) + be_bytes(words.last())
    }
}

/// The steps that select the window from column `x0` to `x1` and from row
/// `y0` to `y1` (both inclusive) and start a memory write into it.
pub open spec fn window_steps(x0: u16, y0: u16, x1: u16, y1: u16) -> Seq<Op> {
    seq![
        Op::Command(CASET),
        Op::Data(be_bytes(x0) + be_bytes(x1)),
        Op::Command(PASET),
        Op::Data(be_bytes(y0) + be_bytes(y1)),
        Op::Command(RAMWR),
    ]
}

/// The power-on sequence: wait for the panel, reset it, wake it, select
/// 16-bit pixels and the memory layout, and switch the display on.
pub open spec fn init_steps() -> Seq<Op> {
    seq![
        Op::DelayMs(200),
        Op::Command(SWRESET),
        Op::DelayMs(120),
        Op::Command(SLPOUT),
        Op::DelayMs(120),
        Op::Command(COLMOD),
        Op::Data(seq![PIXEL_FORMAT_16BIT]),
        Op::Command(MADCTL),
        Op::Data(seq![MADCTL_MX_BGR]),
        Op::Command(DISPON),
        Op::DelayMs(100),
    ]
}

pub proof fn lemma_ops_view_push(s: Seq<BusOp>, o: BusOp)
    ensures
        ops_view(s.push(o)) == ops_view(s).push(o@),
{
    assert(ops_view(s.push(o)) =~= ops_view(s).push(o@));
}

pub proof fn lemma_ops_view_add(s: Seq<BusOp>, t: Seq<BusOp>)
    ensures
        ops_view(s + t) == ops_view(s) + ops_view(t),
{
    assert(ops_view(s + t) =~= ops_view(s) + ops_view(t));
}

/// Law: a run of `n` words goes out as `2 * n` bytes.
pub proof fn lemma_words_be_bytes_len(words: Seq<u16>)
    ensures
        words_be_bytes(words).len() == 2 * words.len(),
    decreases words.len(),
{
    if words.len() > 0 {
        lemma_words_be_bytes_len(words.drop_last());
    }
}

pub proof fn lemma_words_be_bytes_push(words: Seq<u16>, w: u16)
    ensures
        words_be_bytes(words.push(w)) == words_be_bytes(words) + be_bytes(w),
{
    assert(words.push(w).drop_last() =~= words);
}

/// The bytes of two runs of words one after the other are the bytes of the
/// first run followed by those of the second.
pub proof fn lemma_words_be_bytes_concat(a: Seq<u16>, b: Seq<u16>)
    ensures
        words_be_bytes(a + b) == words_be_bytes(a) + words_be_bytes(b),
    decreases b.len(),
{
    if b.len() == 0 {
        assert(a + b =~= a);
        assert(words_be_bytes(a) + words_be_bytes(b) =~= words_be_bytes(a));
    } else {
        lemma_words_be_bytes_concat(a, b.drop_last());
        assert((a + b).drop_last() =~= a + b.drop_last());
        assert((a + b).last() == b.last());
        assert(words_be_bytes(a) + words_be_bytes(b.drop_last()) + be_bytes(b.last())
            =~= words_be_bytes(a) + (words_be_bytes(b.drop_last()) + be_bytes(b.last())));
    }
}

/// Law: the two bytes of a word, read back most significant first, give
/// the word: this is how the panel decodes window bounds and pixel colors.
pub proof fn lemma_be_bytes_decode(v: u16)
    ensures
        be_bytes(v).len() == 2,
        (((be_bytes(v)[0] as u16) << 8u16) | (be_bytes(v)[1] as u16)) == v,
{
    assert(((((v >> 8u16) as u8) as u16) << 8u16) | (((v & 0xffu16) as u8) as u16) == v) by (bit_vector);
}

/// The two bytes of `v`, most significant first.
pub fn word_bytes(v: u16) -> (bytes: Vec<u8>)
    ensures
        bytes@ == be_bytes(v),
{
    let mut bytes: Vec<u8> = Vec::new();
    bytes.push((v >> 8u16) as u8);
    bytes.push((v & 0xffu16) as u8);
    assert(bytes@ =~= be_bytes(v));
    bytes
}

/// Appends `op` to `ops`.
pub fn push_op(ops: &mut Vec<BusOp>, op: BusOp)
    ensures
        ops_view(final(ops)@) == ops_view(old(ops)@).push(op@),
{
    proof {
        lemma_ops_view_push(old(ops)@, op);
    }
    ops.push(op);
}

/// The steps that select the window from column `x0` to `x1` and from row
/// `y0` to `y1` and start a memory write into it.
pub fn address_window_ops(x0: u16, y0: u16, x1: u16, y1: u16) -> (ops: Vec<BusOp>)
    ensures
        ops_view(ops@) == window_steps(x0, y0, x1, y1),
{
    let mut ops: Vec<BusOp> = Vec::new();
    push_op(&mut ops, BusOp::Command(CASET));
    let mut cols = word_bytes(x0);
    let mut cols_end = word_bytes(x1);
    cols.append(&mut cols_end);
    push_op(&mut ops, BusOp::Data(cols));
    push_op(&mut ops, BusOp::Command(PASET));
    let mut rows = word_bytes(y0);
    let mut rows_end = word_bytes(y1);
    rows.append(&mut rows_end);
    push_op(&mut ops, BusOp::Data(rows));
    push_op(&mut ops, BusOp::Command(RAMWR));
    assert(ops_view(ops@) =~= window_steps(x0, y0, x1, y1));
    ops
}

/// The power-on sequence of the panel.
pub fn init_ops() -> (ops: Vec<BusOp>)
    ensures
        ops_view(ops@) == init_steps(),
{
    let mut ops: Vec<BusOp> = Vec::new();
    push_op(&mut ops, BusOp::DelayMs(200));
    push_op(&mut ops, BusOp::Command(SWRESET));
    push_op(&mut ops, BusOp::DelayMs(120));
    push_op(&mut ops, BusOp::Command(SLPOUT));
    push_op(&mut ops, BusOp::DelayMs(120));
    push_op(&mut ops, BusOp::Command(COLMOD));
    let mut format: Vec<u8> = Vec::new();
    format.push(PIXEL_FORMAT_16BIT);
    push_op(&mut ops, BusOp::Data(format));
    push_op(&mut ops, BusOp::Command(MADCTL));
    let mut layout: Vec<u8> = Vec::new();
    layout.push(MADCTL_MX_BGR);
    push_op(&mut ops, BusOp::Data(layout));
    push_op(&mut ops, BusOp::Command(DISPON));
    push_op(&mut ops, BusOp::DelayMs(100));
    assert(ops_view(ops@) =~= init_steps());
    ops
}

/// Appends one step that sends the two bytes of `word` as `n` data writes.
pub fn push_repeated_word(ops: &mut Vec<BusOp>, word: u16, n: u32)
    ensures
        ops_view(final(ops)@) == ops_view(old(ops)@).push(Op::RepeatData(be_bytes(word), n as nat)),
{
    push_op(ops, BusOp::RepeatData(word_bytes(word), n));
}

} // verus!
