use spoolbuddy::bus::{BusError, DelayMs, I2cBus, SharedBus, TracedBus};
use spoolbuddy::hx711::{Gain, Hx711, Hx711Error, InputPin, OutputPin, PinError};
use spoolbuddy::nfc_bridge::{get_uid_hex, scan_tag, NfcBridgeState, NfcManager};
use spoolbuddy::touch::{
    parse_touch_point, register_write_frame, scale_coord, u16_from_le, DisplayError, Gt911,
    TouchEvent, TouchPoint, GT911_ADDR_ALT,
};
use std::cell::RefCell;
use std::rc::Rc;

/// Data line that is always ready and shifts out the bits of `value`, most
/// significant first.
struct DataLine {
    bits: Vec<bool>,
    next: usize,
    ready: bool,
}

impl InputPin for DataLine {
    fn is_high(&mut self) -> Result<bool, PinError> {
        let b = self.bits[self.next % self.bits.len()];
        self.next += 1;
        Ok(b)
    }

    fn is_low(&mut self) -> Result<bool, PinError> {
        Ok(self.ready)
    }
}

fn data_line(value: u32) -> DataLine {
    let bits = (0..24).rev().map(|i| (value >> i) & 1 == 1).collect();
    DataLine { bits, next: 0, ready: true }
}

struct Clock {
    rises: Rc<RefCell<u32>>,
    high: bool,
}

impl OutputPin for Clock {
    fn set_high(&mut self) -> Result<(), PinError> {
        *self.rises.borrow_mut() += 1;
        self.high = true;
        Ok(())
    }

    fn set_low(&mut self) -> Result<(), PinError> {
        self.high = false;
        Ok(())
    }
}

fn clock() -> (Clock, Rc<RefCell<u32>>) {
    let rises = Rc::new(RefCell::new(0));
    (Clock { rises: rises.clone(), high: false }, rises)
}

#[test]
fn hx711_reads_negative_sample() {
    let (sck, rises) = clock();
    let mut hx = Hx711::new(data_line(0xFF_FFFE), sck);
    assert!(hx.is_ready());
    assert_eq!(hx.read(), Ok(-2));
    // 24 data bits and one pulse for channel A, gain 128.
    assert_eq!(*rises.borrow(), 25);
}

#[test]
fn hx711_gain_sets_pulse_count() {
    let (sck, rises) = clock();
    let mut hx = Hx711::new(data_line(0x7F_FFFF), sck);
    hx.set_gain(Gain::ChannelA64);
    assert_eq!(hx.read(), Ok(8_388_607));
    assert_eq!(*rises.borrow(), 27);
    assert_eq!(Gain::default(), Gain::ChannelA128);
    assert_eq!(Gain::ChannelB32.pulses(), 26);
}

#[test]
fn hx711_times_out_when_not_ready() {
    let (sck, _) = clock();
    let mut line = data_line(0);
    line.ready = false;
    let mut hx = Hx711::new(line, sck);
    assert!(!hx.is_ready());
    assert_eq!(hx.wait_ready(0), Err(Hx711Error::Timeout));
    assert_eq!(hx.read_average(2), Err(Hx711Error::Timeout));
}

#[test]
fn hx711_average() {
    let (sck, _) = clock();
    let mut hx = Hx711::new(data_line(0x80_0000), sck);
    assert_eq!(hx.read_average(0), Err(Hx711Error::InvalidParameter));
    assert_eq!(hx.read_average(3), Ok(-8_388_608));
}

#[test]
fn hx711_power() {
    let (sck, rises) = clock();
    let mut hx = Hx711::new(data_line(0), sck);
    hx.power_down();
    hx.power_up();
    assert_eq!(*rises.borrow(), 1);
}

/// A touch controller answering register reads from a table.
struct FakeTouch {
    regs: Vec<(u16, Vec<u8>)>,
    writes: Vec<Vec<u8>>,
}

impl FakeTouch {
    fn with_points(status: u8, points: &[[u8; 8]]) -> FakeTouch {
        let mut regs = vec![
            (0x8140, b"911\0".to_vec()),
            (0x8144, vec![0x34, 0x12]),
            (0x8146, vec![0x20, 0x03]),
            (0x8148, vec![0xE0, 0x01]),
            (0x814E, vec![status]),
        ];
        for (i, p) in points.iter().enumerate() {
            regs.push((0x814F + 8 * i as u16, p.to_vec()));
        }
        FakeTouch { regs, writes: Vec::new() }
    }
}

impl I2cBus for FakeTouch {
    fn write(&mut self, _addr: u8, bytes: &[u8]) -> Result<(), BusError> {
        self.writes.push(bytes.to_vec());
        Ok(())
    }

    fn read(&mut self, _addr: u8, len: usize) -> Result<Vec<u8>, BusError> {
        Ok(vec![0; len])
    }

    fn write_read(&mut self, _addr: u8, wr: &[u8], len: usize) -> Result<Vec<u8>, BusError> {
        let reg = u16::from_be_bytes([wr[0], wr[1]]);
        for (r, v) in &self.regs {
            if *r == reg {
                let mut out = v.clone();
                out.resize(len, 0);
                return Ok(out);
            }
        }
        Err(BusError)
    }
}

#[test]
fn touch_identity_and_resolution() {
    let mut t = Gt911::new(FakeTouch::with_points(0, &[]));
    assert_eq!(t.init(), Ok(()));
    assert_eq!(t.read_product_id(), Ok(*b"911\0"));
    assert_eq!(t.read_firmware_version(), Ok(0x1234));
    assert_eq!(t.read_resolution(), Ok((800, 480)));
}

#[test]
fn touch_points_decoded_and_flag_cleared() {
    let p = [7, 0x10, 0x01, 0x20, 0x00, 0x05, 0x00, 0];
    let mut t = Gt911::new_with_addr(FakeTouch::with_points(0x81, &[p]), GT911_ADDR_ALT);
    let (n, pts) = t.read_touch_points().unwrap();
    assert_eq!(n, 1);
    assert_eq!(pts[0], TouchPoint { x: 0x110, y: 0x20, size: 5, track_id: 7 });
    assert_eq!(pts[1], TouchPoint::default());
    let bus = t.release();
    assert_eq!(bus.writes, vec![vec![0x81, 0x4E, 0x00]]);
}

#[test]
fn touch_without_buffer_ready_reports_nothing() {
    let p = [1, 1, 1, 1, 1, 1, 1, 1];
    let mut t = Gt911::new(FakeTouch::with_points(0x01, &[p]));
    let (n, pts) = t.read_touch_points().unwrap();
    assert_eq!(n, 0);
    assert_eq!(pts[0], TouchPoint::default());
}

#[test]
fn touch_press_move_release() {
    let p = [0, 100, 0, 50, 0, 1, 0, 0];
    let mut t = Gt911::new(FakeTouch::with_points(0x81, &[p]));
    assert_eq!(t.read_touch(), Ok(Some(TouchEvent::Press { x: 100, y: 50 })));
    assert_eq!(t.read_touch(), Ok(Some(TouchEvent::Move { x: 100, y: 50 })));
    let mut bus = t.release();
    bus.regs[4].1 = vec![0x80];
    let mut t = Gt911::new(bus);
    assert_eq!(t.read_touch(), Ok(None));
}

#[test]
fn touch_release_after_press() {
    let p = [0, 10, 0, 20, 0, 1, 0, 0];
    let mut t = Gt911::new(FakeTouch::with_points(0x81, &[p]));
    assert_eq!(t.read_touch(), Ok(Some(TouchEvent::Press { x: 10, y: 20 })));
    // Point buffer now reports no touch.
    let status_index = 4;
    let mut bus = t.release();
    bus.regs[status_index].1 = vec![0x80];
    let mut t2 = Gt911::new(bus);
    assert_eq!(t2.read_touch(), Ok(None));
}

#[test]
fn touch_bus_error() {
    let mut t = Gt911::new(FakeTouch { regs: vec![], writes: vec![] });
    assert_eq!(t.init(), Err(DisplayError::I2cError));
    assert_eq!(t.read_touch(), Err(DisplayError::I2cError));
}

#[test]
fn touch_helpers() {
    assert_eq!(u16_from_le(0x34, 0x12), 0x1234);
    let p = parse_touch_point(&vec![9, 1, 2, 3, 4, 5, 6, 7]);
    assert_eq!(p, TouchPoint { x: 0x0201, y: 0x0403, size: 0x0605, track_id: 9 });
    assert_eq!(register_write_frame(0x8040, &[2]), vec![0x80, 0x40, 2]);
    assert_eq!(register_write_frame(0x814E, &[1; 12]), vec![0x81, 0x4E, 1, 1, 1, 1, 1, 1, 1, 1]);
    assert_eq!(scale_coord(400, 800, 800), 400);
    assert_eq!(scale_coord(512, 1024, 800), 400);
    assert_eq!(scale_coord(7, 0, 800), 7);
    assert_eq!(scale_coord(65535, 1, 800), ((65535u32 * 800) % 65536) as u16);
}

/// A tag-reader bridge answering every read with a fixed frame.
struct FakeBridge {
    answer: Vec<u8>,
    fail_reads: bool,
}

impl I2cBus for FakeBridge {
    fn write(&mut self, _addr: u8, _bytes: &[u8]) -> Result<(), BusError> {
        Ok(())
    }

    fn read(&mut self, _addr: u8, len: usize) -> Result<Vec<u8>, BusError> {
        if self.fail_reads {
            return Err(BusError);
        }
        let mut out = self.answer.clone();
        out.resize(len, 0);
        Ok(out)
    }

    fn write_read(&mut self, _addr: u8, _wr: &[u8], len: usize) -> Result<Vec<u8>, BusError> {
        Ok(vec![0; len])
    }
}

struct NoDelay;

impl DelayMs for NoDelay {
    fn delay_ms(&mut self, _ms: u32) {}
}

#[test]
fn nfc_scan_finds_tag() {
    let mut bridge = TracedBus::new(FakeBridge { answer: vec![0, 4, 0x04, 0xA1, 0xFF, 0x0B], fail_reads: false });
    let mut s = NfcBridgeState::new();
    assert_eq!(scan_tag(&mut bridge, &mut NoDelay, &mut s), Ok(true));
    assert!(s.tag_present);
    assert_eq!(s.tag_uid_len, 4);
    assert_eq!(&s.tag_uid[..4], &[0x04, 0xA1, 0xFF, 0x0B]);
    assert_eq!(get_uid_hex(&s), Some("04:A1:FF:0B".to_string()));
}

#[test]
fn nfc_scan_without_tag() {
    let mut s = NfcBridgeState::new();
    let mut bridge = TracedBus::new(FakeBridge { answer: vec![1, 4, 1, 2, 3, 4], fail_reads: false });
    assert_eq!(scan_tag(&mut bridge, &mut NoDelay, &mut s), Ok(false));
    let mut too_long = TracedBus::new(FakeBridge { answer: vec![0, 11], fail_reads: false });
    assert_eq!(scan_tag(&mut too_long, &mut NoDelay, &mut s), Ok(false));
    assert!(!s.tag_present);
    assert_eq!(get_uid_hex(&s), None);
    let mut broken = TracedBus::new(FakeBridge { answer: vec![], fail_reads: true });
    assert_eq!(scan_tag(&mut broken, &mut NoDelay, &mut s), Err("I2C read failed"));
}

#[test]
fn nfc_single_byte_uid_hex() {
    let mut s = NfcBridgeState::new();
    s.tag_present = true;
    s.tag_uid_len = 1;
    s.tag_uid[0] = 0x9C;
    assert_eq!(get_uid_hex(&s), Some("9C".to_string()));
}

#[test]
fn nfc_manager_lifecycle() {
    let mut bus = SharedBus::new();
    let mut m = NfcManager::new();
    assert!(!m.init_nfc_manager(&mut bus, &mut NoDelay));
    bus.init_shared_i2c(FakeBridge { answer: vec![0, 3, 0xAB, 0xCD, 0xEF], fail_reads: false });
    assert!(m.init_nfc_manager(&mut bus, &mut NoDelay));
    assert!(m.nfc_is_initialized());
    let st = m.nfc_get_status();
    assert!(st.initialized);
    assert!(!st.tag_present);
    m.poll_nfc(&mut bus, &mut NoDelay);
    assert!(m.nfc_tag_present());
    assert_eq!(m.nfc_get_uid_len(), 3);
    assert_eq!(m.nfc_get_status().uid[..4], [0xAB, 0xCD, 0xEF, 0x00]);
}

#[test]
fn nfc_manager_needs_presence_answer() {
    let mut bus = SharedBus::new();
    bus.init_shared_i2c(FakeBridge { answer: vec![], fail_reads: true });
    let mut m = NfcManager::new();
    assert!(!m.init_nfc_manager(&mut bus, &mut NoDelay));
    assert!(!m.nfc_is_initialized());
}
