# teensy_tft_rs

Driver for ILI9341-class 240x320 TFT panels on an SPI bus, split in two:

- `src/` is the verified library. It decides the bus traffic of every
  display operation (as `BusOp` commands, data blocks and delays inside a
  `Transfer`), manages the two frame buffers of the double-buffered displays,
  and proves its contracts with Verus. `src/panel.rs` models how the panel
  controller fills its frame memory from that traffic, and proves what each
  operation leaves on the panel.
- `app/` owns the hardware: the `embedded-hal` SPI bus and data/command pin,
  delays, the `embedded-graphics` `DrawTarget` implementations, the futures of
  the DMA variant and the blocking executor loop. It executes the transfers
  that the library returns.

Modules of the library: `color` (RGB565 words), `protocol` (bus steps and
their encoding), `display` (`TftDisplay`, `DoubleBufferedDisplay`),
`framebuffer` (the buffer pair and its laws), `dma_display` (DMA variants),
`graphics` (palette, points, circle geometry), `blocking` (executor
decision), `panel` (panel model and its laws).
