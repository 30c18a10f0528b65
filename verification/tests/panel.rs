//! Frame memory of the panel as the controller fills it from the bus
//! traffic: CASET/PASET set the window, RAMWR writes pixel words into it.

use teensy_tft_rs::graphics::{colors, Pixel};
use teensy_tft_rs::{BusOp, DoubleBufferedDisplay, Rgb565, TftDisplay};

struct Panel {
    gram: Vec<u16>,
    width: i64,
    height: i64,
    command: u8,
    params: Vec<u8>,
    pending: Option<u8>,
    cols: (i64, i64),
    pages: (i64, i64),
    col: i64,
    page: i64,
}

impl Panel {
    fn new(fill: u16) -> Panel {
        Panel {
            gram: vec![fill; 240 * 320],
            width: 240,
            height: 320,
            command: 0,
            params: Vec::new(),
            pending: None,
            cols: (0, 0),
            pages: (0, 0),
            col: 0,
            page: 0,
        }
    }

    fn data(&mut self, b: u8) {
        match self.command {
            0x2c => match self.pending.take() {
                None => self.pending = Some(b),
                Some(hi) => {
                    if self.page > self.pages.1 {
                        return;
                    }
                    if self.col >= 0 && self.col < self.width && self.page >= 0 && self.page < self.height {
                        self.gram[(self.page * self.width + self.col) as usize] = ((hi as u16) << 8) | b as u16;
                    }
                    if self.col < self.cols.1 {
                        self.col += 1;
                    } else {
                        self.col = self.cols.0;
                        self.page += 1;
                    }
                }
            },
            0x2a | 0x2b => {
                self.params.push(b);
                if self.params.len() == 4 {
                    let p = &self.params;
                    let range = ((((p[0] as u16) << 8) | p[1] as u16) as i64, (((p[2] as u16) << 8) | p[3] as u16) as i64);
                    if self.command == 0x2a { self.cols = range } else { self.pages = range }
                }
            }
            _ => {}
        }
    }

    fn run(&mut self, ops: &[BusOp]) {
        for op in ops {
            match op {
                BusOp::Command(c) => {
                    self.command = *c;
                    self.params.clear();
                    self.pending = None;
                    if *c == 0x2c {
                        self.col = self.cols.0;
                        self.page = self.pages.0;
                    }
                }
                BusOp::Data(bytes) => bytes.iter().for_each(|b| self.data(*b)),
                BusOp::RepeatData(bytes, times) => {
                    for _ in 0..*times {
                        bytes.iter().for_each(|b| self.data(*b));
                    }
                }
                BusOp::DelayMs(_) => {}
            }
        }
    }
}

#[test]
fn fill_rect_traffic_paints_the_clipped_rectangle() {
    let d = TftDisplay::new();
    let mut panel = Panel::new(0x5555);
    panel.run(&d.fill_rect(220, 300, 50, 50, Rgb565::from_storage(colors::YELLOW)).unwrap().ops);
    for y in 0..320usize {
        for x in 0..240usize {
            let inside = x >= 220 && y >= 300;
            assert_eq!(panel.gram[y * 240 + x], if inside { colors::YELLOW } else { 0x5555 });
        }
    }
}

#[test]
fn clear_traffic_blanks_the_panel() {
    let d = TftDisplay::new();
    let mut panel = Panel::new(0xffff);
    panel.run(&d.init().ops);
    panel.run(&d.clear().unwrap().ops);
    assert!(panel.gram.iter().all(|w| *w == colors::BLACK));
}

#[test]
fn point_traffic_stores_one_pixel() {
    let d = TftDisplay::new();
    let mut panel = Panel::new(0);
    panel.run(&d.draw_pixel(Pixel { x: 7, y: 9, color: Rgb565::from_storage(0xbeef) }).ops);
    panel.run(&d.draw_pixel(Pixel { x: 700, y: 9, color: Rgb565::from_storage(0x1111) }).ops);
    assert_eq!(panel.gram[9 * 240 + 7], 0xbeef);
    assert_eq!(panel.gram.iter().filter(|w| **w != 0).count(), 1);
}

#[test]
fn direct_and_buffered_points_give_the_same_picture() {
    let d = TftDisplay::new();
    let pixels: Vec<Pixel> = (0..50)
        .map(|i| Pixel { x: (i * 13) % 260 - 10, y: (i * 29) % 340 - 10, color: Rgb565::from_storage(i as u16 + 1) })
        .collect();
    let mut panel = Panel::new(0);
    panel.run(&d.draw_iter(&pixels).ops);
    let mut back = vec![0u16; 240 * 320];
    let mut front = vec![0u16; 240 * 320];
    {
        let (mut b, _) = DoubleBufferedDisplay::new(TftDisplay::new(), &mut back[..], &mut front[..], None).unwrap();
        b.draw_iter(&pixels).unwrap();
    }
    assert_eq!(panel.gram, back);
}

#[test]
fn present_traffic_makes_the_panel_show_the_frame() {
    let mut back = vec![0u16; 240 * 320];
    let mut front = vec![0u16; 240 * 320];
    let mut panel = Panel::new(0x7777);
    {
        let init = DoubleBufferedDisplay::prepare(&TftDisplay::new(), &back, &front).unwrap();
        panel.run(&init.ops);
        let (mut b, clear) = DoubleBufferedDisplay::new(TftDisplay::new(), &mut back[..], &mut front[..], None).unwrap();
        panel.run(&clear.ops);
        assert!(panel.gram.iter().all(|w| *w == 0));
        b.fill_rect(10, 10, 100, 50, Rgb565::from_storage(colors::RED));
        b.set_pixel(200, 300, Rgb565::from_storage(colors::BLUE)).unwrap();
        let window = b.present().unwrap();
        panel.run(&window.ops);
        for i in 0..b.present_chunk_count() {
            panel.run(&[BusOp::Data(b.present_chunk(i))]);
        }
        b.present_done();
    }
    assert_eq!(panel.gram, back);
    assert_eq!(panel.gram[300 * 240 + 200], colors::BLUE);
    assert_eq!(panel.gram[10 * 240 + 10], colors::RED);
}

#[test]
fn oversized_fill_rect_traffic_is_clipped() {
    let d = TftDisplay::new();
    let mut panel = Panel::new(0);
    panel.run(&d.fill_rect(1, 0, 65535, 1, Rgb565::from_storage(colors::RED)).unwrap().ops);
    for x in 0..240usize {
        assert_eq!(panel.gram[x], if x >= 1 { colors::RED } else { 0 });
    }
    assert_eq!(panel.gram.iter().filter(|w| **w != 0).count(), 239);
}
