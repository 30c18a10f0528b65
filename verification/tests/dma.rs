use teensy_tft_rs::dma_display::{AsyncPresent, DmaPoll, DmaWriteFuture, BLOCKING_CHUNK_PIXELS, DMA_CHUNK_PIXELS};
use teensy_tft_rs::graphics::colors;
use teensy_tft_rs::{BusFault, BusOp, DisplayError, DmaDoubleBufferedDisplay, DmaResult, DmaTftDisplay, Rgb565};

const N: usize = 240 * 320;

fn make<'a>(back: &'a mut [u16], front: &'a mut [u16]) -> DmaDoubleBufferedDisplay<'a> {
    match DmaDoubleBufferedDisplay::new(DmaTftDisplay::new(), back, front, None) {
        Ok(d) => d,
        Err(_) => panic!("buffers refused"),
    }
}

#[test]
fn dma_result_new() {
    let r = DmaResult::new(true, false);
    assert!(r.success);
    assert!(!r.used_dma);
}

#[test]
fn dma_display_geometry_and_init() {
    let d = DmaTftDisplay::new();
    assert_eq!(d.dimensions(), (240, 320));
    let t = d.init();
    assert_eq!(t.error_for(BusFault::Pin), DisplayError::InitializationFailed);
    assert_eq!(t.error_for(BusFault::Spi), DisplayError::InitializationFailed);
    assert_eq!(t.ops, teensy_tft_rs::TftDisplay::new().init().ops);
    assert_eq!(d.set_address_window(1, 2, 3, 4), teensy_tft_rs::protocol::address_window_ops(1, 2, 3, 4));
}

#[test]
fn write_future_writes_once_then_stays_ready() {
    let d = DmaTftDisplay::new();
    let mut f = d.write_data_dma();
    assert_eq!(f.poll_action(), DmaPoll::Write);
    assert_eq!(f.write_finished(None), Ok(DmaResult::new(true, false)));
    assert_eq!(f.poll_action(), DmaPoll::Ready(Ok(DmaResult::new(true, false))));
}

#[test]
fn write_future_reports_pin_and_spi_errors() {
    let mut f = DmaWriteFuture::new();
    assert_eq!(f.write_finished(Some(BusFault::Spi)), Err(DisplayError::SpiError));
    assert_eq!(f.poll_action(), DmaPoll::Write);
    assert_eq!(f.write_finished(Some(BusFault::Pin)), Err(DisplayError::PinError));
    assert_eq!(f.poll_action(), DmaPoll::Write);
}

#[test]
fn construction_inits_then_clears_buffers_without_clearing_panel() {
    let mut back = vec![9u16; N];
    let mut front = vec![9u16; N];
    {
        let init = DmaDoubleBufferedDisplay::prepare(&DmaTftDisplay::new(), &back, &front).unwrap();
        assert_eq!(init.ops, DmaTftDisplay::new().init().ops);
        assert_eq!(init.error_for(BusFault::Spi), DisplayError::InitializationFailed);
        let d = DmaDoubleBufferedDisplay::new(DmaTftDisplay::new(), &mut back[..], &mut front[..], None).unwrap();
        assert!(matches!(d.present_async(), AsyncPresent::Unchanged(r) if r == DmaResult::new(true, false)));
        assert!(d.present().is_none());
    }
    assert!(back.iter().all(|w| *w == 0));
    assert!(front.iter().all(|w| *w == 0));
    let mut short = vec![3u16; 10];
    let mut other = vec![3u16; 11];
    assert!(matches!(
        DmaDoubleBufferedDisplay::prepare(&DmaTftDisplay::new(), &short, &other),
        Err(DisplayError::InitializationFailed)
    ));
    assert!(matches!(
        DmaDoubleBufferedDisplay::new(DmaTftDisplay::new(), &mut short[..], &mut other[..], None),
        Err(DisplayError::InitializationFailed)
    ));
    let mut same = vec![3u16; 10];
    let mut size = vec![3u16; 10];
    assert!(DmaDoubleBufferedDisplay::prepare(&DmaTftDisplay::new(), &same, &size).is_ok());
    assert!(matches!(
        DmaDoubleBufferedDisplay::new(DmaTftDisplay::new(), &mut same[..], &mut size[..], None),
        Err(DisplayError::InitializationFailed)
    ));
    assert!(same.iter().chain(size.iter()).all(|w| *w == 3));
}

#[test]
fn async_and_blocking_present_send_same_bytes() {
    let mut back = vec![0u16; N];
    let mut front = vec![0u16; N];
    let mut d = make(&mut back[..], &mut front[..]);
    for y in 0..320u16 {
        d.fill_rect(0, y, 240, 1, Rgb565::from_storage(y * 3 + 1));
    }
    assert_eq!(d.get_pixel(100, 200).unwrap(), Rgb565::from_storage(601));
    let t = match d.present_async() {
        AsyncPresent::Send(t) => t,
        AsyncPresent::Unchanged(_) => panic!("nothing to present"),
    };
    assert_eq!(t.error_for(BusFault::Pin), DisplayError::PinError);
    assert_eq!(t.error_for(BusFault::Spi), DisplayError::SpiError);
    assert_eq!(t.ops[0], BusOp::Command(0x2a));
    assert_eq!(d.present_async_chunk_count(), 75);
    assert_eq!(d.present_async_chunk_count(), N / DMA_CHUNK_PIXELS);
    assert_eq!(d.present_chunk_count(), N / BLOCKING_CHUNK_PIXELS);
    let mut dma_bytes = Vec::new();
    for i in 0..d.present_async_chunk_count() {
        let c = d.present_async_chunk(i);
        assert_eq!(c.len(), 2048);
        dma_bytes.extend(c);
    }
    let mut blocking_bytes = Vec::new();
    for i in 0..d.present_chunk_count() {
        blocking_bytes.extend(d.present_chunk(i));
    }
    assert_eq!(dma_bytes, blocking_bytes);
    assert_eq!(&dma_bytes[..4], &[0, 1, 0, 1]);
    assert_eq!(&dma_bytes[2 * 240..2 * 240 + 2], &[0, 4]);
    let r = d.present_async_done(&[DmaResult::new(true, false), DmaResult::new(true, false)]);
    assert_eq!(r, DmaResult::new(true, false));
    assert!(matches!(d.present_async(), AsyncPresent::Unchanged(_)));
    assert_eq!(d.get_pixel(100, 200).unwrap(), Rgb565::from_storage(0));
}

#[test]
fn async_present_reports_dma_use() {
    let mut back = vec![0u16; N];
    let mut front = vec![0u16; N];
    let mut d = make(&mut back[..], &mut front[..]);
    d.clear(Rgb565::from_storage(colors::WHITE));
    assert!(matches!(d.present_async(), AsyncPresent::Send(_)));
    let r = d.present_async_done(&[DmaResult::new(true, false), DmaResult::new(true, true)]);
    assert!(r.success && r.used_dma);
    assert_eq!(d.present_async_done(&[]), DmaResult::new(true, false));
}

#[test]
fn dma_force_refresh_and_pixels() {
    let mut back = vec![0u16; N];
    let mut front = vec![0u16; N];
    let mut d = make(&mut back[..], &mut front[..]);
    let c = Rgb565::new(1, 2, 3);
    d.set_pixel(239, 319, c).unwrap();
    assert_eq!(d.get_pixel(239, 319).unwrap(), c);
    assert!(matches!(d.get_pixel(240, 319), Err(DisplayError::InvalidCoordinate)));
    d.fill_rect(200, 0, 65535, 65535, c);
    assert_eq!(d.get_pixel(239, 0).unwrap(), c);
    assert!(!d.force_refresh().ops.is_empty());
    d.present_done();
    assert!(d.present().is_none());
    assert!(!d.force_refresh().ops.is_empty());
}

#[test]
fn dma_failed_power_on_leaves_buffers_untouched() {
    let mut back = vec![0x1111u16; N];
    let mut front = vec![0x2222u16; N];
    assert!(DmaDoubleBufferedDisplay::prepare(&DmaTftDisplay::new(), &back, &front).is_ok());
    for fault in [BusFault::Pin, BusFault::Spi] {
        let r = DmaDoubleBufferedDisplay::new(DmaTftDisplay::new(), &mut back[..], &mut front[..], Some(fault));
        assert!(matches!(r, Err(DisplayError::InitializationFailed)));
    }
    assert!(back.iter().all(|w| *w == 0x1111));
    assert!(front.iter().all(|w| *w == 0x2222));
}
