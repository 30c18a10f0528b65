use teensy_tft_rs::display::PRESENT_CHUNK_PIXELS;
use teensy_tft_rs::graphics::{colors, Pixel};
use teensy_tft_rs::protocol::address_window_ops;
use teensy_tft_rs::{BusFault, BusOp, DisplayError, DoubleBufferedDisplay, Rgb565, TftDisplay};

const N: usize = 240 * 320;

fn big_endian(words: &[u16]) -> Vec<u8> {
    words.iter().flat_map(|w| [(w >> 8) as u8, *w as u8]).collect()
}

fn make<'a>(back: &'a mut [u16], front: &'a mut [u16]) -> DoubleBufferedDisplay<'a> {
    match DoubleBufferedDisplay::new(TftDisplay::new(), back, front, None) {
        Ok((d, _)) => d,
        Err(_) => panic!("buffers refused"),
    }
}

/// Sends the frame being presented and completes the present.
fn present_all(d: &mut DoubleBufferedDisplay) -> Vec<u8> {
    let mut sent = Vec::new();
    if d.present().is_some() {
        for i in 0..d.present_chunk_count() {
            sent.extend(d.present_chunk(i));
        }
        d.present_done();
    }
    sent
}

#[test]
fn mismatched_buffers_are_refused_before_any_traffic() {
    let mut back = vec![7u16; N];
    let mut front = vec![7u16; N - 1];
    let r = DoubleBufferedDisplay::prepare(&TftDisplay::new(), &back, &front);
    assert!(matches!(r, Err(DisplayError::InitializationFailed)));
    let r = DoubleBufferedDisplay::new(TftDisplay::new(), &mut back[..], &mut front[..], None);
    assert!(matches!(r, Err(DisplayError::InitializationFailed)));
    assert!(back.iter().all(|w| *w == 7));
    assert!(front.iter().all(|w| *w == 7));
}

#[test]
fn prepare_gives_power_on_and_leaves_buffers_alone() {
    let back = vec![7u16; N];
    let front = vec![9u16; N];
    let init = DoubleBufferedDisplay::prepare(&TftDisplay::new(), &back, &front).unwrap();
    assert_eq!(init.ops, TftDisplay::new().init().ops);
    assert_eq!(init.error_for(BusFault::Pin), DisplayError::InitializationFailed);
    assert_eq!(init.error_for(BusFault::Spi), DisplayError::InitializationFailed);
    assert!(back.iter().all(|w| *w == 7));
    assert!(front.iter().all(|w| *w == 9));
}

#[test]
fn buffers_of_wrong_size_are_refused_after_init() {
    let mut back = vec![7u16; 100];
    let mut front = vec![7u16; 100];
    let init = DoubleBufferedDisplay::prepare(&TftDisplay::new(), &back, &front).unwrap();
    assert_eq!(init.ops, TftDisplay::new().init().ops);
    let r = DoubleBufferedDisplay::new(TftDisplay::new(), &mut back[..], &mut front[..], None);
    assert!(matches!(r, Err(DisplayError::InitializationFailed)));
    assert!(back.iter().all(|w| *w == 7));
    assert!(front.iter().all(|w| *w == 7));
}

#[test]
fn new_clears_buffers_and_panel() {
    let mut back = vec![0xabcdu16; N];
    let mut front = vec![0x1234u16; N];
    {
        let (d, clear) = DoubleBufferedDisplay::new(TftDisplay::new(), &mut back[..], &mut front[..], None).unwrap();
        assert_eq!(clear.error_for(BusFault::Pin), DisplayError::PinError);
        assert_eq!(clear.error_for(BusFault::Spi), DisplayError::SpiError);
        assert_eq!(clear.ops, TftDisplay::new().clear().unwrap().ops);
        assert_eq!(d.dimensions(), (240, 320));
        assert!(d.present().is_none());
        assert_eq!(d.get_pixel(17, 33).unwrap(), Rgb565::from_storage(0));
    }
    assert!(back.iter().all(|w| *w == 0));
    assert!(front.iter().all(|w| *w == 0));
}

#[test]
fn set_then_get_pixel() {
    let mut back = vec![0u16; N];
    let mut front = vec![0u16; N];
    let mut d = make(&mut back[..], &mut front[..]);
    let c = Rgb565::new(12, 34, 5);
    d.set_pixel(10, 20, c).unwrap();
    assert_eq!(d.get_pixel(10, 20).unwrap(), c);
    assert_eq!(d.get_pixel(11, 20).unwrap(), Rgb565::from_storage(0));
    assert_eq!(d.get_pixel(10, 21).unwrap(), Rgb565::from_storage(0));
    assert!(matches!(d.set_pixel(240, 0, c), Err(DisplayError::InvalidCoordinate)));
    assert!(matches!(d.set_pixel(0, 320, c), Err(DisplayError::InvalidCoordinate)));
    assert!(matches!(d.get_pixel(240, 0), Err(DisplayError::InvalidCoordinate)));
    assert!(matches!(d.get_pixel(0, 320), Err(DisplayError::InvalidCoordinate)));
    drop(d);
    assert_eq!(back[20 * 240 + 10], c.into_storage());
    assert_eq!(back.iter().filter(|w| **w != 0).count(), 1);
}

#[test]
fn refused_set_pixel_changes_nothing() {
    let mut back = vec![0u16; N];
    let mut front = vec![0u16; N];
    let mut d = make(&mut back[..], &mut front[..]);
    assert!(d.set_pixel(300, 5, Rgb565::from_storage(9)).is_err());
    assert!(d.present().is_none());
}

#[test]
fn clear_sets_every_pixel() {
    let mut back = vec![0u16; N];
    let mut front = vec![0u16; N];
    {
        let mut d = make(&mut back[..], &mut front[..]);
        d.clear(Rgb565::from_storage(colors::CYAN));
        assert_eq!(d.get_pixel(239, 319).unwrap(), Rgb565::from_storage(colors::CYAN));
    }
    assert!(back.iter().all(|w| *w == colors::CYAN));
    assert!(front.iter().all(|w| *w == 0));
}

#[test]
fn fill_rect_fills_clipped_rectangle_only() {
    let mut back = vec![0u16; N];
    let mut front = vec![0u16; N];
    {
        let mut d = make(&mut back[..], &mut front[..]);
        d.fill_rect(230, 310, 20, 20, Rgb565::from_storage(colors::RED));
    }
    for y in 0..320usize {
        for x in 0..240usize {
            let inside = x >= 230 && y >= 310;
            assert_eq!(back[y * 240 + x], if inside { colors::RED } else { 0 }, "pixel {} {}", x, y);
        }
    }
}

#[test]
fn fill_rect_oversized_is_clipped() {
    let mut back = vec![0u16; N];
    let mut front = vec![0u16; N];
    {
        let mut d = make(&mut back[..], &mut front[..]);
        d.fill_rect(100, 0, 65535, 1, Rgb565::from_storage(colors::RED));
        d.fill_rect(0, 300, 1, 65535, Rgb565::from_storage(colors::BLUE));
    }
    for y in 0..320usize {
        for x in 0..240usize {
            let expected = if y == 0 && x >= 100 {
                colors::RED
            } else if x == 0 && y >= 300 {
                colors::BLUE
            } else {
                0
            };
            assert_eq!(back[y * 240 + x], expected);
        }
    }
}

#[test]
fn fill_rect_empty_changes_nothing() {
    let mut back = vec![0u16; N];
    let mut front = vec![0u16; N];
    let mut d = make(&mut back[..], &mut front[..]);
    d.fill_rect(10, 10, 0, 5, Rgb565::from_storage(colors::RED));
    d.fill_rect(10, 10, 5, 0, Rgb565::from_storage(colors::RED));
    d.fill_rect(240, 10, 5, 5, Rgb565::from_storage(colors::RED));
    d.fill_rect(10, 10, 0, 65535, Rgb565::from_storage(colors::RED));
    assert!(d.present().is_none());
}

#[test]
fn fill_whole_screen_equals_clear() {
    let mut back1 = vec![5u16; N];
    let mut front1 = vec![5u16; N];
    let mut back2 = vec![5u16; N];
    let mut front2 = vec![5u16; N];
    {
        let mut a = make(&mut back1[..], &mut front1[..]);
        let mut b = make(&mut back2[..], &mut front2[..]);
        a.set_pixel(3, 3, Rgb565::from_storage(1)).unwrap();
        b.set_pixel(3, 3, Rgb565::from_storage(1)).unwrap();
        a.fill_rect(0, 0, 240, 320, Rgb565::from_storage(colors::MAGENTA));
        b.clear(Rgb565::from_storage(colors::MAGENTA));
    }
    assert_eq!(back1, back2);
}

#[test]
fn present_sends_the_drawn_frame_and_then_nothing() {
    let mut back = vec![0u16; N];
    let mut front = vec![0u16; N];
    let frame: Vec<u16> = (0..N).map(|i| (i * 7) as u16).collect();
    {
        let mut d = make(&mut back[..], &mut front[..]);
        for y in 0..320u16 {
            for x in 0..240u16 {
                d.set_pixel(x, y, Rgb565::from_storage(frame[y as usize * 240 + x as usize])).unwrap();
            }
        }
        let t = d.present().unwrap();
        assert_eq!(t.error_for(BusFault::Pin), DisplayError::PinError);
        assert_eq!(t.error_for(BusFault::Spi), DisplayError::SpiError);
        assert_eq!(t.ops, address_window_ops(0, 0, 239, 319));
        let count = d.present_chunk_count();
        assert_eq!(count, N / PRESENT_CHUNK_PIXELS);
        let mut sent = Vec::new();
        for i in 0..count {
            let chunk = d.present_chunk(i);
            assert_eq!(chunk.len(), 2 * PRESENT_CHUNK_PIXELS);
            sent.extend(chunk);
        }
        assert_eq!(sent, big_endian(&frame));
        d.present_done();
        assert!(d.present().is_none());
    }
    // The caller's first buffer is now the front buffer.
    assert_eq!(back, frame);
}

#[test]
fn present_swaps_buffers_when_done() {
    let mut back = vec![0u16; N];
    let mut front = vec![0u16; N];
    {
        let mut d = make(&mut back[..], &mut front[..]);
        d.clear(Rgb565::from_storage(colors::GREEN));
        present_all(&mut d);
        // Drawing now goes to the buffer that was shown before.
        assert_eq!(d.get_pixel(0, 0).unwrap(), Rgb565::from_storage(0));
        d.set_pixel(0, 0, Rgb565::from_storage(colors::BLUE)).unwrap();
    }
    assert!(back.iter().all(|w| *w == colors::GREEN));
    assert_eq!(front[0], colors::BLUE);
}

#[test]
fn failed_present_changes_nothing() {
    let mut back = vec![0u16; N];
    let mut front = vec![0u16; N];
    {
        let mut d = make(&mut back[..], &mut front[..]);
        d.clear(Rgb565::from_storage(colors::GREEN));
        assert!(d.present().is_some());
        assert_eq!(d.present_chunk(0)[..2], [0x07, 0xe0]);
        // The transfer failed: present_done is not called. The frame is
        // still pending and a retry sends the same frame.
        assert_eq!(d.get_pixel(0, 0).unwrap(), Rgb565::from_storage(colors::GREEN));
        assert!(d.present().is_some());
        assert_eq!(d.present_chunk(0)[..2], [0x07, 0xe0]);
        assert_eq!(present_all(&mut d), big_endian(&vec![colors::GREEN; N]));
    }
    assert!(back.iter().all(|w| *w == colors::GREEN));
    assert!(front.iter().all(|w| *w == 0));
}

#[test]
fn force_refresh_always_presents() {
    let mut back = vec![0u16; N];
    let mut front = vec![0u16; N];
    let mut d = make(&mut back[..], &mut front[..]);
    let t = d.force_refresh();
    assert_eq!(t.ops, address_window_ops(0, 0, 239, 319));
    let count = d.present_chunk_count();
    for i in 0..count {
        assert!(d.present_chunk(i).iter().all(|b| *b == 0));
    }
    d.present_done();
    assert!(d.present().is_none());
    assert_eq!(d.force_refresh().ops, address_window_ops(0, 0, 239, 319));
    assert!(d.present().is_some());
}

#[test]
fn draw_iter_skips_points_off_display() {
    let mut back = vec![0u16; N];
    let mut front = vec![0u16; N];
    {
        let mut d = make(&mut back[..], &mut front[..]);
        let pixels = [
            Pixel { x: -1, y: 0, color: Rgb565::from_storage(1) },
            Pixel { x: 0, y: 320, color: Rgb565::from_storage(2) },
            Pixel { x: 5, y: 6, color: Rgb565::from_storage(3) },
            Pixel { x: 5, y: 6, color: Rgb565::from_storage(4) },
        ];
        assert!(d.draw_iter(&pixels).is_ok());
        assert_eq!(d.get_pixel(5, 6).unwrap(), Rgb565::from_storage(4));
    }
    assert_eq!(back.iter().filter(|w| **w != 0).count(), 1);
}

#[test]
fn draw_iter_off_display_only_changes_nothing() {
    let mut back = vec![0u16; N];
    let mut front = vec![0u16; N];
    let mut d = make(&mut back[..], &mut front[..]);
    let pixels = [Pixel { x: -1, y: -1, color: Rgb565::from_storage(1) }];
    assert!(d.draw_iter(&pixels).is_ok());
    assert!(d.draw_pixel(Pixel { x: 1000, y: 0, color: Rgb565::from_storage(1) }).is_ok());
    assert!(d.present().is_none());
}

#[test]
fn init_waits_for_the_panel_first() {
    let t = TftDisplay::new().init();
    assert_eq!(t.ops[0], BusOp::DelayMs(200));
}

#[test]
fn failed_power_on_leaves_buffers_untouched() {
    let mut back = vec![0x1111u16; N];
    let mut front = vec![0x2222u16; N];
    assert!(DoubleBufferedDisplay::prepare(&TftDisplay::new(), &back, &front).is_ok());
    for fault in [BusFault::Pin, BusFault::Spi] {
        let r = DoubleBufferedDisplay::new(TftDisplay::new(), &mut back[..], &mut front[..], Some(fault));
        assert!(matches!(r, Err(DisplayError::InitializationFailed)));
    }
    assert!(back.iter().all(|w| *w == 0x1111));
    assert!(front.iter().all(|w| *w == 0x2222));
}
