//! Verified driver core for ILI9341-class TFT panels driven over SPI.
//!
//! The library decides everything that does not need the hardware: which
//! commands and data bytes a display operation puts on the bus, how the frame
//! buffers of a double-buffered display change, and how errors are reported.
//! The code that owns the SPI bus and the data/command pin executes the
//! transfers that these functions return.

pub mod blocking;
pub mod color;
pub mod display;
pub mod dma_display;
pub mod framebuffer;
pub mod graphics;
pub mod panel;
pub mod protocol;

pub use color::Rgb565;
pub use display::{DisplayError, DoubleBufferedDisplay, TftDisplay};
pub use dma_display::{DmaDoubleBufferedDisplay, DmaResult, DmaTftDisplay};
pub use protocol::{BusFault, BusOp, Transfer};
