//! A model of the panel controller's frame memory, as the MIPI DCS
//! commands used by this driver address it: CASET and PASET set the column
//! and page range of the write window (two big-endian 16-bit parameters
//! each), RAMWR starts a memory write at the window's first pixel, and each
//! following pair of data bytes is one RGB565 word, stored at the write
//! position, which then moves right and wraps to the next page at the end
//! of a row. Other commands and delays leave the frame memory alone.
//! Words sent after the window is full are not described by this model;
//! it drops them.
//!
//! The laws below use this model to state what the bus traffic of the
//! display operations does to the picture: the frame memory is addressed by
//! column and page, as the controller sees them (the memory access control
//! setting decides how that memory maps to the glass).

use crate::display::{fill_steps, lemma_points_steps_push, min_int, on_screen, point_steps, points_steps};
use crate::framebuffer::{
    chunk_bytes_spec, chunk_count_spec, chunk_stream, in_rect, lemma_chunks_carry_frame, lemma_coords_of_index,
    lemma_pixel_index_in_range, lemma_pixel_index_injective, paint, pixel_index, FrameState,
};
use crate::graphics::colors;
use crate::graphics::Pixel;
use crate::protocol::{be_bytes, lemma_be_bytes_decode, window_steps, words_be_bytes, Op, CASET, PASET, RAMWR};
use vstd::prelude::*;

verus! {

/// The word that a most significant byte `hi` and a least significant byte
/// `lo` make.
pub open spec fn word_of(hi: u8, lo: u8) -> u16 {
    ((hi as u16) << 8u16) | (lo as u16)
}

/// State of the panel controller.
pub struct PanelState {
    /// Frame memory, one RGB565 word per pixel, row (page) after row.
    pub gram: Seq<u16>,
    pub width: u16,
    pub height: u16,
    /// The last command received.
    pub command: u8,
    /// The window parameters received since the last CASET or PASET.
    pub params: Seq<u8>,
    /// The first byte of a pixel word whose second byte has not arrived.
    pub pending: Option<u8>,
    pub col_start: int,
    pub col_end: int,
    pub page_start: int,
    pub page_end: int,
    /// The write position.
    pub col: int,
    pub page: int,
}

impl PanelState {
    /// The frame memory holds one word per pixel of a non-empty panel.
    pub open spec fn wf(self) -> bool {
        &&& self.width > 0
        &&& self.height > 0
        &&& self.gram.len() == self.width * self.height
    }

    /// The word stored for column `x`, page `y`.
    pub open spec fn pixel(self, x: int, y: int) -> u16 {
        self.gram[pixel_index(self.width, x, y)]
    }

    /// Store `w` at the write position and move the position on.
    pub open spec fn write_word(self, w: u16) -> PanelState {
        if self.page > self.page_end {
            self
        } else {
            let gram = if on_screen(self.width, self.height, self.col, self.page) {
                self.gram.update(pixel_index(self.width, self.col, self.page), w)
            } else {
                self.gram
            };
            if self.col < self.col_end {
                PanelState { gram, col: self.col + 1, ..self }
            } else {
                PanelState { gram, col: self.col_start, page: self.page + 1, ..self }
            }
        }
    }

    /// A command byte.
    pub open spec fn on_command(self, c: u8) -> PanelState {
        PanelState {
            command: c,
            params: Seq::empty(),
            pending: None,
            col: if c == RAMWR { self.col_start } else { self.col },
            page: if c == RAMWR { self.page_start } else { self.page },
            ..self
        }
    }

    /// A data byte.
    pub open spec fn on_data(self, b: u8) -> PanelState {
        if self.command == RAMWR {
            match self.pending {
                None => PanelState { pending: Some(b), ..self },
                Some(hi) => PanelState { pending: None, ..self }.write_word(word_of(hi, b)),
            }
        } else if self.command == CASET || self.command == PASET {
            let p = self.params.push(b);
            if p.len() == 4 {
                let start = word_of(p[0], p[1]) as int;
                let end = word_of(p[2], p[3]) as int;
                if self.command == CASET {
                    PanelState { params: p, col_start: start, col_end: end, ..self }
                } else {
                    PanelState { params: p, page_start: start, page_end: end, ..self }
                }
            } else {
                PanelState { params: p, ..self }
            }
        } else {
            self
        }
    }

    /// A run of data bytes.
    pub open spec fn on_bytes(self, bytes: Seq<u8>) -> PanelState
        decreases bytes.len(),
    {
        if bytes.len() == 0 {
            self
        } else {
            self.on_bytes(bytes.drop_last()).on_data(bytes.last())
        }
    }

    /// The same run of data bytes, `n` times.
    pub open spec fn on_repeated(self, bytes: Seq<u8>, n: nat) -> PanelState
        decreases n,
    {
        if n == 0 {
            self
        } else {
            self.on_repeated(bytes, (n - 1) as nat).on_bytes(bytes)
        }
    }

    /// One bus step.
    pub open spec fn on_op(self, op: Op) -> PanelState {
        match op {
            Op::Command(c) => self.on_command(c),
            Op::Data(bytes) => self.on_bytes(bytes),
            Op::RepeatData(bytes, n) => self.on_repeated(bytes, n),
            Op::DelayMs(_) => self,
        }
    }

    /// A run of bus steps.
    pub open spec fn on_ops(self, ops: Seq<Op>) -> PanelState
        decreases ops.len(),
    {
        if ops.len() == 0 {
            self
        } else {
            self.on_ops(ops.drop_last()).on_op(ops.last())
        }
    }

    /// A run of pixel words, during a memory write.
    pub open spec fn on_words(self, ws: Seq<u16>) -> PanelState
        decreases ws.len(),
    {
        if ws.len() == 0 {
            self
        } else {
            self.on_words(ws.drop_last()).write_word(ws.last())
        }
    }

    /// A memory write into the window from column `x0` to `x1` and page
    /// `y0` to `y1` has just started.
    pub open spec fn window_open(self, x0: int, y0: int, x1: int, y1: int) -> bool {
        &&& self.command == RAMWR
        &&& self.pending is None
        &&& self.col_start == x0
        &&& self.col_end == x1
        &&& self.page_start == y0
        &&& self.page_end == y1
        &&& self.col == x0
        &&& self.page == y0
    }
}

/// Position of column `x`, page `y` in the raster order of a window whose
/// first pixel is (`x0`, `y0`) and whose rows are `ww` pixels long.
pub open spec fn raster(x0: int, y0: int, ww: int, x: int, y: int) -> int {
    (y - y0) * ww + (x - x0)
}

/// The bus steps that carry the first `n` chunks of `chunk` pixels of
/// `words` as data.
pub open spec fn chunk_ops(words: Seq<u16>, chunk: nat, n: nat) -> Seq<Op> {
    Seq::new(n, |i: int| Op::Data(chunk_bytes_spec(words, chunk, i as nat)))
}

pub proof fn lemma_on_bytes_concat(s: PanelState, a: Seq<u8>, b: Seq<u8>)
    ensures
        s.on_bytes(a + b) == s.on_bytes(a).on_bytes(b),
    decreases b.len(),
{
    if b.len() == 0 {
        assert(a + b =~= a);
    } else {
        lemma_on_bytes_concat(s, a, b.drop_last());
        assert((a + b).drop_last() =~= a + b.drop_last());
        assert((a + b).last() == b.last());
    }
}

pub proof fn lemma_on_ops_concat(s: PanelState, a: Seq<Op>, b: Seq<Op>)
    ensures
        s.on_ops(a + b) == s.on_ops(a).on_ops(b),
    decreases b.len(),
{
    if b.len() == 0 {
        assert(a + b =~= a);
    } else {
        lemma_on_ops_concat(s, a, b.drop_last());
        assert((a + b).drop_last() =~= a + b.drop_last());
        assert((a + b).last() == b.last());
    }
}

pub proof fn lemma_on_ops_one(s: PanelState, op: Op)
    ensures
        s.on_ops(seq![op]) == s.on_op(op),
{
    reveal_with_fuel(PanelState::on_ops, 2);
    assert(seq![op].drop_last() =~= Seq::<Op>::empty());
}

/// Words written during a memory write keep the controller in the memory
/// write, with the same window and nothing pending.
pub proof fn lemma_on_words_keeps_mode(s: PanelState, ws: Seq<u16>)
    ensures
        s.on_words(ws).command == s.command,
        s.on_words(ws).pending == s.pending,
        s.on_words(ws).params == s.params,
        s.on_words(ws).col_start == s.col_start,
        s.on_words(ws).col_end == s.col_end,
        s.on_words(ws).page_start == s.page_start,
        s.on_words(ws).page_end == s.page_end,
        s.on_words(ws).width == s.width,
        s.on_words(ws).height == s.height,
        s.wf() ==> s.on_words(ws).wf(),
    decreases ws.len(),
{
    if ws.len() > 0 {
        lemma_on_words_keeps_mode(s, ws.drop_last());
        let t = s.on_words(ws.drop_last());
        if s.wf() && t.page <= t.page_end && on_screen(t.width, t.height, t.col, t.page) {
            lemma_pixel_index_in_range(t.width, t.height, t.col, t.page);
        }
    }
}

/// Two data bytes during a memory write, with nothing pending, store one word.
pub proof fn lemma_word_bytes_store(s: PanelState, w: u16)
    requires
        s.command == RAMWR,
        s.pending is None,
    ensures
        s.on_bytes(be_bytes(w)) == s.write_word(w),
{
    reveal_with_fuel(PanelState::on_bytes, 3);
    let b = be_bytes(w);
    lemma_be_bytes_decode(w);
    assert(b.drop_last() =~= seq![b[0]]);
    assert(b.drop_last().drop_last() =~= Seq::<u8>::empty());
    assert(word_of(b[0], b[1]) == w);
    assert(PanelState { pending: None, ..s.on_data(b[0]) } == s);
}

/// The bytes of a run of words, during a memory write with nothing
/// pending, store the words one after the other.
pub proof fn lemma_words_bytes_store(s: PanelState, ws: Seq<u16>)
    requires
        s.command == RAMWR,
        s.pending is None,
    ensures
        s.on_bytes(words_be_bytes(ws)) == s.on_words(ws),
    decreases ws.len(),
{
    if ws.len() > 0 {
        let init = ws.drop_last();
        lemma_words_bytes_store(s, init);
        lemma_on_bytes_concat(s, words_be_bytes(init), be_bytes(ws.last()));
        lemma_on_words_keeps_mode(s, init);
        lemma_word_bytes_store(s.on_words(init), ws.last());
    }
}

/// The same word sent `n` times, during a memory write with nothing
/// pending, is stored `n` times.
pub proof fn lemma_repeated_word_store(s: PanelState, w: u16, n: nat)
    requires
        s.command == RAMWR,
        s.pending is None,
    ensures
        s.on_repeated(be_bytes(w), n) == s.on_words(Seq::new(n, |i: int| w)),
    decreases n,
{
    if n > 0 {
        let m = (n - 1) as nat;
        lemma_repeated_word_store(s, w, m);
        assert(Seq::new(n, |i: int| w).drop_last() =~= Seq::new(m, |i: int| w));
        lemma_on_words_keeps_mode(s, Seq::new(m, |i: int| w));
        lemma_word_bytes_store(s.on_words(Seq::new(m, |i: int| w)), w);
    }
}

/// Data steps carry their bytes in order, however they are chunked.
pub proof fn lemma_chunk_ops_bytes(s: PanelState, words: Seq<u16>, chunk: nat, n: nat)
    ensures
        s.on_ops(chunk_ops(words, chunk, n)) == s.on_bytes(chunk_stream(words, chunk, n)),
    decreases n,
{
    if n > 0 {
        let m = (n - 1) as nat;
        lemma_chunk_ops_bytes(s, words, chunk, m);
        assert(chunk_ops(words, chunk, n).drop_last() =~= chunk_ops(words, chunk, m));
        lemma_on_bytes_concat(s, chunk_stream(words, chunk, m), chunk_bytes_spec(words, chunk, m));
    }
}

/// The four parameter bytes of a CASET or PASET set the column or page
/// range to the two words they carry, and change nothing else that a memory
/// write depends on.
#[verifier::spinoff_prover]
pub proof fn lemma_range_params(s: PanelState, c: u8, start: u16, end: u16)
    requires
        c == CASET || c == PASET,
    ensures
        ({
            let t = s.on_command(c).on_bytes(be_bytes(start) + be_bytes(end));
            &&& t.command == c
            &&& t.pending is None
            &&& t.gram == s.gram
            &&& t.width == s.width
            &&& t.height == s.height
            &&& c == CASET ==> t.col_start == start && t.col_end == end && t.page_start == s.page_start
                && t.page_end == s.page_end
            &&& c == PASET ==> t.page_start == start && t.page_end == end && t.col_start == s.col_start
                && t.col_end == s.col_end
        }),
{
    reveal_with_fuel(PanelState::on_bytes, 5);
    lemma_be_bytes_decode(start);
    lemma_be_bytes_decode(end);
    let p = be_bytes(start) + be_bytes(end);
    let s0 = s.on_command(c);
    assert(p.drop_last() =~= seq![p[0], p[1], p[2]]);
    assert(p.drop_last().drop_last() =~= seq![p[0], p[1]]);
    assert(p.drop_last().drop_last().drop_last() =~= seq![p[0]]);
    assert(p.drop_last().drop_last().drop_last().drop_last() =~= Seq::<u8>::empty());
    let s1 = s0.on_data(p[0]);
    let s2 = s1.on_data(p[1]);
    let s3 = s2.on_data(p[2]);
    assert(s1.params =~= seq![p[0]]);
    assert(s2.params =~= seq![p[0], p[1]]);
    assert(s3.params =~= seq![p[0], p[1], p[2]]);
    assert(s3.params.push(p[3]) =~= p);
    assert(word_of(p[0], p[1]) == start);
    assert(word_of(p[2], p[3]) == end);
}

/// The window steps open a memory write into that window, and leave the
/// frame memory alone.
pub proof fn lemma_window_opens(s: PanelState, x0: u16, y0: u16, x1: u16, y1: u16)
    ensures
        s.on_ops(window_steps(x0, y0, x1, y1)).window_open(x0 as int, y0 as int, x1 as int, y1 as int),
        s.on_ops(window_steps(x0, y0, x1, y1)).gram == s.gram,
        s.on_ops(window_steps(x0, y0, x1, y1)).width == s.width,
        s.on_ops(window_steps(x0, y0, x1, y1)).height == s.height,
{
    let cols = be_bytes(x0) + be_bytes(x1);
    let rows = be_bytes(y0) + be_bytes(y1);
    let a = seq![Op::Command(CASET)];
    let b = seq![Op::Data(cols)];
    let c = seq![Op::Command(PASET)];
    let d = seq![Op::Data(rows)];
    let e = seq![Op::Command(RAMWR)];
    assert(window_steps(x0, y0, x1, y1) =~= a + b + c + d + e);
    lemma_on_ops_concat(s, a + b + c + d, e);
    lemma_on_ops_concat(s, a + b + c, d);
    lemma_on_ops_concat(s, a + b, c);
    lemma_on_ops_concat(s, a, b);
    lemma_on_ops_one(s, Op::Command(CASET));
    let s1 = s.on_command(CASET);
    lemma_on_ops_one(s1, Op::Data(cols));
    lemma_range_params(s, CASET, x0, x1);
    let s2 = s1.on_bytes(cols);
    lemma_on_ops_one(s2, Op::Command(PASET));
    let s3 = s2.on_command(PASET);
    lemma_on_ops_one(s3, Op::Data(rows));
    lemma_range_params(s2, PASET, y0, y1);
    let s4 = s3.on_bytes(rows);
    lemma_on_ops_one(s4, Op::Command(RAMWR));
}

/// Words written into an open window fill its pixels in raster order,
/// from its first pixel on; every other pixel keeps its word.
pub proof fn lemma_window_write(s: PanelState, ws: Seq<u16>, x0: int, y0: int, x1: int, y1: int)
    requires
        s.wf(),
        s.window_open(x0, y0, x1, y1),
        0 <= x0 <= x1 < s.width,
        0 <= y0 <= y1 < s.height,
        ws.len() <= (x1 - x0 + 1) * (y1 - y0 + 1),
    ensures
        s.on_words(ws).wf(),
        s.on_words(ws).width == s.width,
        s.on_words(ws).height == s.height,
        raster(x0, y0, x1 - x0 + 1, s.on_words(ws).col, s.on_words(ws).page) == ws.len(),
        x0 <= s.on_words(ws).col <= x1,
        y0 <= s.on_words(ws).page,
        forall|px: int, py: int|
            on_screen(s.width, s.height, px, py) ==> #[trigger] s.on_words(ws).pixel(px, py) == if in_rect(
                px,
                py,
                x0,
                y0,
                x1 + 1,
                y1 + 1,
            ) && raster(x0, y0, x1 - x0 + 1, px, py) < ws.len() {
                ws[raster(x0, y0, x1 - x0 + 1, px, py)]
            } else {
                s.pixel(px, py)
            },
    decreases ws.len(),
{
    let ww = x1 - x0 + 1;
    let hh = y1 - y0 + 1;
    lemma_on_words_keeps_mode(s, ws);
    if ws.len() == 0 {
        assert(raster(x0, y0, ww, x0, y0) == 0);
    } else {
        let init = ws.drop_last();
        let k = init.len() as int;
        lemma_window_write(s, init, x0, y0, x1, y1);
        lemma_on_words_keeps_mode(s, init);
        let t0 = s.on_words(init);
        let t = s.on_words(ws);
        assert(t == t0.write_word(ws.last()));
        let col = t0.col;
        let page = t0.page;
        assert(page <= y1) by (nonlinear_arith)
            requires
                (page - y0) * ww + (col - x0) == k,
                k < ww * hh,
                x0 <= col,
                ww > 0,
                hh == y1 - y0 + 1,
                y0 <= page;
        lemma_pixel_index_in_range(s.width, s.height, col, page);
        if col < x1 {
            assert(raster(x0, y0, ww, col + 1, page) == k + 1);
        } else {
            assert(raster(x0, y0, ww, x0, page + 1) == k + 1) by (nonlinear_arith)
                requires (page - y0) * ww + (col - x0) == k, col == x1, ww == x1 - x0 + 1;
        }
        assert forall|px: int, py: int| on_screen(s.width, s.height, px, py) implies #[trigger] t.pixel(px, py) == if in_rect(
            px,
            py,
            x0,
            y0,
            x1 + 1,
            y1 + 1,
        ) && raster(x0, y0, ww, px, py) < ws.len() {
            ws[raster(x0, y0, ww, px, py)]
        } else {
            s.pixel(px, py)
        } by {
            lemma_pixel_index_in_range(s.width, s.height, px, py);
            if px == col && py == page {
                assert(t.pixel(px, py) == ws.last());
            } else {
                if pixel_index(s.width, px, py) == pixel_index(s.width, col, page) {
                    lemma_pixel_index_injective(s.width, px, py, col, page);
                }
                assert(t.pixel(px, py) == t0.pixel(px, py));
                if in_rect(px, py, x0, y0, x1 + 1, y1 + 1) && raster(x0, y0, ww, px, py) == k {
                    assert(pixel_index(ww as u16, px - x0, py - y0) == pixel_index(ww as u16, col - x0, page - y0));
                    lemma_pixel_index_injective(ww as u16, px - x0, py - y0, col - x0, page - y0);
                }
                if in_rect(px, py, x0, y0, x1 + 1, y1 + 1) && raster(x0, y0, ww, px, py) < k {
                    assert(init[raster(x0, y0, ww, px, py)] == ws[raster(x0, y0, ww, px, py)]);
                }
            }
        }
    }
}

/// A pixel of a window lies before its end in raster order.
pub proof fn lemma_raster_in_window(x0: int, y0: int, x1: int, y1: int, px: int, py: int)
    requires
        in_rect(px, py, x0, y0, x1 + 1, y1 + 1),
    ensures
        0 <= raster(x0, y0, x1 - x0 + 1, px, py) < (x1 - x0 + 1) * (y1 - y0 + 1),
{
    let ww = x1 - x0 + 1;
    let hh = y1 - y0 + 1;
    assert(0 <= (py - y0) * ww + (px - x0) < ww * hh) by (nonlinear_arith)
        requires 0 <= px - x0 < ww, 0 <= py - y0 < hh;
}

/// Law: the bus traffic of `TftDisplay::fill_rect` (and so of
/// `TftDisplay::clear` and of the panel clear that follows the construction
/// of a double-buffered display) gives the part of the rectangle on the
/// display the fill color, and leaves every other pixel of the panel as it
/// was.
pub proof fn lemma_panel_fill(s: PanelState, x: u16, y: u16, w: u16, h: u16, color: u16)
    requires
        s.wf(),
        x < s.width,
        y < s.height,
    ensures
        s.on_ops(fill_steps(s.width, s.height, x, y, w, h, color)).wf(),
        s.on_ops(fill_steps(s.width, s.height, x, y, w, h, color)).width == s.width,
        s.on_ops(fill_steps(s.width, s.height, x, y, w, h, color)).height == s.height,
        forall|px: int, py: int|
            on_screen(s.width, s.height, px, py) ==> #[trigger] s.on_ops(
                fill_steps(s.width, s.height, x, y, w, h, color),
            ).pixel(px, py) == if in_rect(
                px,
                py,
                x as int,
                y as int,
                min_int(x + w, s.width as int),
                min_int(y + h, s.height as int),
            ) {
                color
            } else {
                s.pixel(px, py)
            },
{
    let end_x = min_int(x + w, s.width as int);
    let end_y = min_int(y + h, s.height as int);
    let steps = fill_steps(s.width, s.height, x, y, w, h, color);
    if end_x <= x || end_y <= y {
        assert(steps =~= Seq::<Op>::empty());
    } else {
        let x1 = (end_x - 1) as u16;
        let y1 = (end_y - 1) as u16;
        let n = ((end_x - x) * (end_y - y)) as nat;
        let window = window_steps(x, y, x1, y1);
        lemma_on_ops_concat(s, window, seq![Op::RepeatData(be_bytes(color), n)]);
        lemma_window_opens(s, x, y, x1, y1);
        let s1 = s.on_ops(window);
        lemma_on_ops_one(s1, Op::RepeatData(be_bytes(color), n));
        lemma_repeated_word_store(s1, color, n);
        let ws = Seq::new(n, |i: int| color);
        lemma_window_write(s1, ws, x as int, y as int, x1 as int, y1 as int);
        let t = s1.on_words(ws);
        assert forall|px: int, py: int| on_screen(s.width, s.height, px, py) implies #[trigger] t.pixel(px, py) == if in_rect(
            px,
            py,
            x as int,
            y as int,
            end_x,
            end_y,
        ) {
            color
        } else {
            s.pixel(px, py)
        } by {
            if in_rect(px, py, x as int, y as int, end_x, end_y) {
                lemma_raster_in_window(x as int, y as int, x1 as int, y1 as int, px, py);
            }
        }
    }
}

/// Law: the bus traffic of drawing one point stores its color at its
/// pixel, and nothing else; a point off the display sends nothing.
pub proof fn lemma_panel_point(s: PanelState, p: Pixel)
    requires
        s.wf(),
    ensures
        s.on_ops(point_steps(s.width, s.height, p)).wf(),
        s.on_ops(point_steps(s.width, s.height, p)).width == s.width,
        s.on_ops(point_steps(s.width, s.height, p)).height == s.height,
        s.on_ops(point_steps(s.width, s.height, p)).gram == if on_screen(s.width, s.height, p.x as int, p.y as int) {
            s.gram.update(pixel_index(s.width, p.x as int, p.y as int), p.color@)
        } else {
            s.gram
        },
{
    if on_screen(s.width, s.height, p.x as int, p.y as int) {
        let px = p.x as u16;
        let py = p.y as u16;
        let window = window_steps(px, py, px, py);
        lemma_on_ops_concat(s, window, seq![Op::Data(be_bytes(p.color@))]);
        lemma_window_opens(s, px, py, px, py);
        let s1 = s.on_ops(window);
        lemma_on_ops_one(s1, Op::Data(be_bytes(p.color@)));
        lemma_word_bytes_store(s1, p.color@);
        lemma_pixel_index_in_range(s.width, s.height, p.x as int, p.y as int);
    } else {
        assert(point_steps(s.width, s.height, p) =~= Seq::<Op>::empty());
    }
}

/// Law: the bus traffic of `TftDisplay::present`-style full-screen writes
/// (the window over the whole panel, then the frame in chunks of any size)
/// makes the panel's frame memory exactly the frame.
pub proof fn lemma_panel_present(s: PanelState, frame: Seq<u16>, chunk: nat)
    requires
        s.wf(),
        frame.len() == s.width * s.height,
        chunk > 0,
    ensures
        s.on_ops(
            window_steps(0, 0, (s.width - 1) as u16, (s.height - 1) as u16) + chunk_ops(
                frame,
                chunk,
                chunk_count_spec(frame.len(), chunk),
            ),
        ).gram == frame,
{
    let x1 = (s.width - 1) as u16;
    let y1 = (s.height - 1) as u16;
    let window = window_steps(0, 0, x1, y1);
    let n = chunk_count_spec(frame.len(), chunk);
    lemma_on_ops_concat(s, window, chunk_ops(frame, chunk, n));
    lemma_window_opens(s, 0, 0, x1, y1);
    let s1 = s.on_ops(window);
    lemma_chunk_ops_bytes(s1, frame, chunk, n);
    lemma_chunks_carry_frame(frame, chunk);
    lemma_words_bytes_store(s1, frame);
    lemma_window_write(s1, frame, 0, 0, x1 as int, y1 as int);
    let t = s1.on_words(frame);
    assert forall|i: int| 0 <= i < frame.len() implies #[trigger] t.gram[i] == frame[i] by {
        lemma_coords_of_index(s.width, s.height, i);
        let px = i % (s.width as int);
        let py = i / (s.width as int);
        assert(t.pixel(px, py) == t.gram[i]);
        assert(raster(0, 0, x1 + 1, px, py) == i);
    }
    assert(t.gram =~= frame);
}

/// Law: drawing points straight to the panel (`TftDisplay::draw_iter`)
/// leaves its frame memory as drawing the same points on a back buffer
/// (`DoubleBufferedDisplay::draw_iter`) leaves that buffer.
pub proof fn lemma_panel_points(s: PanelState, pixels: Seq<Pixel>)
    requires
        s.wf(),
    ensures
        s.on_ops(points_steps(s.width, s.height, pixels)).wf(),
        s.on_ops(points_steps(s.width, s.height, pixels)).width == s.width,
        s.on_ops(points_steps(s.width, s.height, pixels)).height == s.height,
        s.on_ops(points_steps(s.width, s.height, pixels)).gram == paint(s.gram, s.width, s.height, pixels),
    decreases pixels.len(),
{
    if pixels.len() == 0 {
        assert(points_steps(s.width, s.height, pixels) =~= Seq::<Op>::empty());
    } else {
        let init = pixels.drop_last();
        let p = pixels.last();
        lemma_panel_points(s, init);
        assert(init.push(p) =~= pixels);
        lemma_points_steps_push(s.width, s.height, init, p);
        lemma_on_ops_concat(s, points_steps(s.width, s.height, init), point_steps(s.width, s.height, p));
        lemma_panel_point(s.on_ops(points_steps(s.width, s.height, init)), p);
    }
}

/// Law: the panel clear that follows the construction of a double-buffered
/// display leaves the panel showing what its front buffer holds: black
/// everywhere.
pub proof fn lemma_panel_cleared(s: PanelState)
    requires
        s.wf(),
    ensures
        s.on_ops(fill_steps(s.width, s.height, 0, 0, s.width, s.height, colors::BLACK)).gram == Seq::new(
            s.gram.len(),
            |i: int| 0u16,
        ),
{
    lemma_panel_fill(s, 0, 0, s.width, s.height, colors::BLACK);
    let t = s.on_ops(fill_steps(s.width, s.height, 0, 0, s.width, s.height, colors::BLACK));
    assert forall|i: int| 0 <= i < s.gram.len() implies #[trigger] t.gram[i] == 0u16 by {
        lemma_coords_of_index(s.width, s.height, i);
        let px = i % (s.width as int);
        let py = i / (s.width as int);
        assert(t.pixel(px, py) == t.gram[i]);
    }
    assert(t.gram =~= Seq::new(s.gram.len(), |i: int| 0u16));
}

/// Law: a successful present of a double-buffered display (the window,
/// then its back buffer in chunks of any size) leaves the panel showing
/// exactly the frame that `present_done` then makes the front buffer;
/// together with `lemma_panel_cleared` (construction), the panel always
/// shows the front buffer after a completed present.
pub proof fn lemma_panel_shows_front(p: PanelState, f: FrameState, chunk: nat)
    requires
        p.wf(),
        f.wf(),
        f.dirty,
        p.width == f.width,
        p.height == f.height,
        chunk > 0,
    ensures
        p.on_ops(
            window_steps(0, 0, (f.width - 1) as u16, (f.height - 1) as u16) + chunk_ops(
                f.back,
                chunk,
                chunk_count_spec(f.back.len(), chunk),
            ),
        ).gram == f.after_present().front,
{
    lemma_panel_present(p, f.back, chunk);
}

} // verus!
