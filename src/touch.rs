use vstd::prelude::*;

use crate::bus::{added, extends, I2cBus, TracedBus, Txn};

verus! {

/// Default I2C address of the touch controller.
pub const GT911_ADDR: u8 = 0x5D;

/// Alternate I2C address of the touch controller.
pub const GT911_ADDR_ALT: u8 = 0x14;

// Register addresses (16 bits, sent most significant byte first).
pub const REG_COMMAND: u16 = 0x8040;
pub const REG_PRODUCT_ID: u16 = 0x8140;
pub const REG_FIRMWARE_VERSION: u16 = 0x8144;
pub const REG_X_RESOLUTION: u16 = 0x8146;
pub const REG_Y_RESOLUTION: u16 = 0x8148;
pub const REG_POINT_INFO: u16 = 0x814E;
/// First of the five touch point records, eight bytes each.
pub const REG_POINT_1: u16 = 0x814F;

/// Command that soft-resets the controller.
pub const CMD_SOFT_RESET: u8 = 0x02;

/// Most touch points the controller reports in full.
pub const MAX_TOUCH_POINTS: usize = 5;

/// Most data bytes in one register write.
pub const MAX_WRITE_DATA: usize = 8;

/// Width of the display in pixels.
pub const DISPLAY_WIDTH: u32 = 800;

/// Height of the display in pixels.
pub const DISPLAY_HEIGHT: u32 = 480;

/// Errors of the display and touch drivers.
#[derive(Debug, Clone, Copy, PartialEq, Eq, Structural)]
pub enum DisplayError {
    InitFailed,
    I2cError,
    InvalidConfig,
}

/// A touch as the user interface sees it.
#[derive(Debug, Clone, Copy, PartialEq, Eq, Structural)]
pub enum TouchEvent {
    Press { x: u16, y: u16 },
    Release { x: u16, y: u16 },
    Move { x: u16, y: u16 },
}

/// One touch point record.
#[derive(Debug, Clone, Copy, PartialEq, Eq, Structural, Default)]
pub struct TouchPoint {
    pub x: u16,
    pub y: u16,
    /// Touch size.
    pub size: u16,
    /// Track identifier across readings.
    pub track_id: u8,
}

/// The point with all fields zero.
pub open spec fn no_point() -> TouchPoint {
    TouchPoint { x: 0, y: 0, size: 0, track_id: 0 }
}

/// A little-endian 16-bit value.
pub open spec fn le_u16(lo: u8, hi: u8) -> int {
    lo as int + 256 * hi as int
}

/// Combines two bytes, least significant first.
pub fn u16_from_le(lo: u8, hi: u8) -> (r: u16)
    ensures
        r == le_u16(lo, hi),
{
    (lo as u16) + 256 * (hi as u16)
}

/// Decodes an eight-byte point record: track id, then x, y and size, each
/// little-endian.
pub fn parse_touch_point(buf: &Vec<u8>) -> (r: TouchPoint)
    requires
        buf@.len() == 8,
    ensures
        r.track_id == buf@[0],
        r.x == le_u16(buf@[1], buf@[2]),
        r.y == le_u16(buf@[3], buf@[4]),
        r.size == le_u16(buf@[5], buf@[6]),
{
    TouchPoint {
        track_id: buf[0],
        x: u16_from_le(buf[1], buf[2]),
        y: u16_from_le(buf[3], buf[4]),
        size: u16_from_le(buf[5], buf[6]),
    }
}

/// The bytes of a register write: the register, most significant byte first,
/// then at most `MAX_WRITE_DATA` bytes of `data`.
pub fn register_write_frame(reg: u16, data: &[u8]) -> (r: Vec<u8>)
    ensures
        r@ == seq![(reg / 256) as u8, (reg % 256) as u8] + data@.take(
            if data@.len() < MAX_WRITE_DATA { data@.len() as int } else { MAX_WRITE_DATA as int },
        ),
{
    let mut frame: Vec<u8> = Vec::new();
    frame.push((reg / 256) as u8);
    frame.push((reg % 256) as u8);
    let len = if data.len() < MAX_WRITE_DATA { data.len() } else { MAX_WRITE_DATA };
    let mut i: usize = 0;
    while i < len
        invariant
            i <= len <= data@.len(),
            frame@ == seq![(reg / 256) as u8, (reg % 256) as u8] + data@.take(i as int),
        decreases len - i,
    {
        frame.push(data[i]);
        proof {
            assert(data@.take(i + 1) =~= data@.take(i as int).push(data@[i as int]));
        }
        i = i + 1;
    }
    frame
}

/// Maps a coordinate reported at resolution `res` onto a display axis of
/// `display` pixels. Equal resolutions, and a zero resolution, leave it as it
/// is; the scaled value is cut to 16 bits.
pub open spec fn scale_coord_spec(v: u16, res: u16, display: u32) -> int {
    if res as int == display as int || res == 0 {
        v as int
    } else {
        (v as int * display as int / res as int) % 0x1_0000
    }
}

pub fn scale_coord(v: u16, res: u16, display: u32) -> (r: u16)
    requires
        display <= 0x1_0000,
    ensures
        r == scale_coord_spec(v, res, display),
{
    if res as u32 == display || res == 0 {
        v
    } else {
        assert(v as u32 * display <= 0xFFFF * 0x1_0000) by (nonlinear_arith)
            requires
                v <= 0xFFFF,
                display <= 0x1_0000,
        ;
        let q = (v as u32 * display) / (res as u32);
        (q % 0x1_0000) as u16
    }
}

/// What a touch reading turns into: the touch remembered next and the event
/// reported, given the touch remembered before, the number of points reported
/// and the first point.
pub open spec fn touch_step(
    last: Option<TouchPoint>,
    count: u8,
    first: TouchPoint,
    x_res: u16,
    y_res: u16,
) -> (Option<TouchPoint>, Option<TouchEvent>) {
    if count > 0 {
        let x = scale_coord_spec(first.x, x_res, DISPLAY_WIDTH) as u16;
        let y = scale_coord_spec(first.y, y_res, DISPLAY_HEIGHT) as u16;
        (
            Some(TouchPoint { x, y, ..first }),
            Some(if last is Some { TouchEvent::Move { x, y } } else { TouchEvent::Press { x, y } }),
        )
    } else if last is Some {
        (None, Some(TouchEvent::Release { x: last->0.x, y: last->0.y }))
    } else {
        (None, None)
    }
}

/// A 16-bit register address as sent, most significant byte first.
pub open spec fn reg_bytes(reg: u16) -> Seq<u8> {
    seq![(reg / 256) as u8, (reg % 256) as u8]
}

/// A read of `len` bytes from register `reg` of the device at `addr`.
pub open spec fn is_touch_read(t: Txn, addr: u8, reg: u16, len: usize) -> bool {
    match t {
        Txn::WriteRead { addr: a, wr, len: l, .. } => a == addr && wr == reg_bytes(reg) && l == len,
        _ => false,
    }
}

/// The bytes a register read returned, if it succeeded with `len` bytes.
pub open spec fn touch_reply(t: Txn, len: usize) -> Option<Seq<u8>> {
    match t {
        Txn::WriteRead { reply, .. } => match reply {
            Some(b) => if b.len() == len {
                Some(b)
            } else {
                None
            },
            None => None,
        },
        _ => None,
    }
}

/// Whether a transaction failed, as this driver sees it: a write not
/// acknowledged, or a read that did not return the bytes asked for.
pub open spec fn touch_failed(t: Txn) -> bool {
    match t {
        Txn::Write { ok, .. } => !ok,
        Txn::WriteRead { len, .. } => touch_reply(t, len) is None,
        Txn::Read { len, reply, .. } => reply is None || reply->0.len() != len,
    }
}

/// Whether the last transaction of `a` failed and none before it did.
pub open spec fn touch_fails_last(a: Seq<Txn>) -> bool {
    &&& a.len() > 0
    &&& touch_failed(a.last())
    &&& forall|i: int| 0 <= i < a.len() - 1 ==> !#[trigger] touch_failed(a[i])
}

/// The point record decoded from eight bytes.
pub open spec fn point_of(b: Seq<u8>) -> TouchPoint {
    TouchPoint {
        track_id: b[0],
        x: le_u16(b[1], b[2]) as u16,
        y: le_u16(b[3], b[4]) as u16,
        size: le_u16(b[5], b[6]) as u16,
    }
}

/// The number of points a point-info status byte reports: its low nibble
/// when the buffer-ready bit is set, none otherwise.
pub open spec fn reported_points(status: u8) -> u8 {
    if status & 0x80 != 0 {
        status & 0x0F
    } else {
        0
    }
}

/// What reading the resolution did, given its transactions `a` on the device
/// at `addr`: the x register, then (if that worked) the y register; the
/// result is the two little-endian values when both worked.
pub open spec fn resolution_read(a: Seq<Txn>, addr: u8, r: Result<(u16, u16), DisplayError>) -> bool {
    &&& 1 <= a.len() <= 2
    &&& is_touch_read(a[0], addr, REG_X_RESOLUTION, 2)
    &&& a.len() == 2 <==> touch_reply(a[0], 2) is Some
    &&& a.len() == 2 ==> is_touch_read(a[1], addr, REG_Y_RESOLUTION, 2)
    &&& r is Ok <==> a.len() == 2 && touch_reply(a[1], 2) is Some
    &&& r is Ok ==> ({
        let x = touch_reply(a[0], 2)->0;
        let y = touch_reply(a[1], 2)->0;
        r->Ok_0 == (le_u16(x[0], x[1]) as u16, le_u16(y[0], y[1]) as u16)
    })
    &&& r is Err ==> r == Err::<(u16, u16), DisplayError>(DisplayError::I2cError)
}

/// What a successful points read did, given its transactions `a` on the
/// device at `addr`, the count `n` it returned and the points: the status
/// read, whose reported count is `n`; one read per point up to five, each
/// decoded into its slot; then the write that clears the status.
pub open spec fn points_read(a: Seq<Txn>, addr: u8, n: u8, points: Seq<TouchPoint>) -> bool {
    let k: int = if n < 5 {
        n as int
    } else {
        5
    };
    &&& a.len() == k + 2
    &&& is_touch_read(a[0], addr, REG_POINT_INFO, 1)
    &&& touch_reply(a[0], 1) is Some
    &&& n == reported_points(touch_reply(a[0], 1)->0[0])
    &&& forall|i: int|
        0 <= i < k ==> #[trigger] is_touch_read(a[1 + i], addr, (REG_POINT_1 + 8 * i) as u16, 8)
            && touch_reply(a[1 + i], 8) is Some && points[i] == point_of(
            touch_reply(a[1 + i], 8)->0,
        )
    &&& a[k + 1] == Txn::Write { addr, bytes: reg_bytes(REG_POINT_INFO) + seq![0u8], ok: true }
}

/// Driver for the capacitive touch controller.
pub struct Gt911<I2C> {
    i2c: TracedBus<I2C>,
    addr: u8,
    last_touch: Option<TouchPoint>,
    x_resolution: u16,
    y_resolution: u16,
}

impl<I2C: I2cBus> Gt911<I2C> {
    pub closed spec fn bus_spec(&self) -> I2C {
        self.i2c.device()
    }

    /// The transactions issued to the controller so far.
    pub closed spec fn log_spec(&self) -> Seq<Txn> {
        self.i2c.log()
    }

    pub closed spec fn addr_spec(&self) -> u8 {
        self.addr
    }

    pub closed spec fn last_touch_spec(&self) -> Option<TouchPoint> {
        self.last_touch
    }

    pub closed spec fn resolution_spec(&self) -> (u16, u16) {
        (self.x_resolution, self.y_resolution)
    }

    /// A driver at the default address, assuming the display's resolution.
    pub fn new(i2c: I2C) -> (r: Self)
        ensures
            r.addr_spec() == GT911_ADDR,
            r.last_touch_spec() is None,
            r.bus_spec() == i2c,
            r.log_spec() == Seq::<Txn>::empty(),
            r.resolution_spec() == (DISPLAY_WIDTH as u16, DISPLAY_HEIGHT as u16),
    {
        Gt911 {
            i2c: TracedBus::new(i2c),
            addr: GT911_ADDR,
            last_touch: None,
            x_resolution: DISPLAY_WIDTH as u16,
            y_resolution: DISPLAY_HEIGHT as u16,
        }
    }

    /// A driver at `addr`, assuming the display's resolution.
    pub fn new_with_addr(i2c: I2C, addr: u8) -> (r: Self)
        ensures
            r.addr_spec() == addr,
            r.last_touch_spec() is None,
            r.bus_spec() == i2c,
            r.log_spec() == Seq::<Txn>::empty(),
            r.resolution_spec() == (DISPLAY_WIDTH as u16, DISPLAY_HEIGHT as u16),
    {
        Gt911 {
            i2c: TracedBus::new(i2c),
            addr,
            last_touch: None,
            x_resolution: DISPLAY_WIDTH as u16,
            y_resolution: DISPLAY_HEIGHT as u16,
        }
    }

    fn read_register(&mut self, reg: u16, len: usize) -> (r: Result<Vec<u8>, DisplayError>)
        ensures
            final(self).log_spec() == old(self).log_spec().push(final(self).log_spec().last()),
            is_touch_read(final(self).log_spec().last(), old(self).addr_spec(), reg, len),
            r is Ok <==> touch_reply(final(self).log_spec().last(), len) is Some,
            r is Ok ==> r->Ok_0@ == touch_reply(final(self).log_spec().last(), len)->0,
            r is Err ==> r == Err::<Vec<u8>, DisplayError>(DisplayError::I2cError),
            final(self).addr_spec() == old(self).addr_spec(),
            final(self).last_touch_spec() == old(self).last_touch_spec(),
            final(self).resolution_spec() == old(self).resolution_spec(),
    {
        let wr = vec![(reg / 256) as u8, (reg % 256) as u8];
        assert(wr@ =~= reg_bytes(reg));
        match self.i2c.write_read(self.addr, wr.as_slice(), len) {
            Ok(bytes) => {
                if bytes.len() == len {
                    Ok(bytes)
                } else {
                    Err(DisplayError::I2cError)
                }
            },
            Err(_) => Err(DisplayError::I2cError),
        }
    }

    fn write_register(&mut self, reg: u16, data: &[u8]) -> (r: Result<(), DisplayError>)
        requires
            data@.len() <= MAX_WRITE_DATA,
        ensures
            final(self).log_spec() == old(self).log_spec().push(
                Txn::Write { addr: old(self).addr_spec(), bytes: reg_bytes(reg) + data@, ok: r is Ok },
            ),
            r is Err ==> r == Err::<(), DisplayError>(DisplayError::I2cError),
            final(self).addr_spec() == old(self).addr_spec(),
            final(self).last_touch_spec() == old(self).last_touch_spec(),
            final(self).resolution_spec() == old(self).resolution_spec(),
    {
        let frame = register_write_frame(reg, data);
        assert(data@.take(data@.len() as int) =~= data@);
        assert(frame@ =~= reg_bytes(reg) + data@);
        match self.i2c.write(self.addr, frame.as_slice()) {
            Ok(()) => Ok(()),
            Err(_) => Err(DisplayError::I2cError),
        }
    }

    /// Checks communication and reads the configured resolution, which later
    /// readings are scaled from.
    pub fn init(&mut self) -> (r: Result<(), DisplayError>)
        ensures
            extends(old(self).log_spec(), final(self).log_spec()),
            r is Ok ==> ({
                let a = added(old(self).log_spec(), final(self).log_spec());
                &&& a.len() == 4
                &&& is_touch_read(a[0], old(self).addr_spec(), REG_PRODUCT_ID, 4)
                &&& is_touch_read(a[1], old(self).addr_spec(), REG_FIRMWARE_VERSION, 2)
                &&& resolution_read(
                    a.subrange(2, 4),
                    old(self).addr_spec(),
                    Ok(final(self).resolution_spec()),
                )
            }),
            r is Err ==> ({
                let a = added(old(self).log_spec(), final(self).log_spec());
                &&& touch_fails_last(a)
                &&& a.len() <= 4
                &&& is_touch_read(a[0], old(self).addr_spec(), REG_PRODUCT_ID, 4)
                &&& a.len() > 1 ==> is_touch_read(a[1], old(self).addr_spec(), REG_FIRMWARE_VERSION, 2)
                &&& a.len() > 2 ==> is_touch_read(a[2], old(self).addr_spec(), REG_X_RESOLUTION, 2)
                &&& a.len() > 3 ==> is_touch_read(a[3], old(self).addr_spec(), REG_Y_RESOLUTION, 2)
            }),
            r is Err ==> r == Err::<(), DisplayError>(DisplayError::I2cError),
            r is Err ==> final(self).resolution_spec() == old(self).resolution_spec(),
            final(self).addr_spec() == old(self).addr_spec(),
            final(self).last_touch_spec() == old(self).last_touch_spec(),
    {
        let ghost l0 = self.log_spec();
        let id = self.read_product_id();
        let ghost l1 = self.log_spec();
        proof {
            assert(l1.subrange(0, l0.len() as int) =~= l0);
            assert(added(l0, l1) =~= seq![l1.last()]);
        }
        if id.is_err() {
            return Err(DisplayError::I2cError);
        }
        let fw = self.read_firmware_version();
        let ghost l2 = self.log_spec();
        proof {
            assert(l2.subrange(0, l0.len() as int) =~= l0);
            assert(added(l0, l2) =~= seq![l1.last(), l2.last()]);
        }
        if fw.is_err() {
            return Err(DisplayError::I2cError);
        }
        let res = self.read_resolution();
        let ghost l3 = self.log_spec();
        proof {
            assert(l3.subrange(0, l0.len() as int) =~= l0);
            assert(l3.subrange(0, l2.len() as int) =~= l2);
        }
        proof {
            let a = added(l0, l3);
            let q = added(l2, l3);
            assert(a =~= seq![l1.last(), l2.last()] + q);
        }
        let (x_res, y_res) = match res {
            Ok(v) => v,
            Err(e) => { return Err(e); },
        };
        self.x_resolution = x_res;
        self.y_resolution = y_res;
        proof {
            let a = added(l0, l3);
            let m = l0.len() as int;
            assert(a[0] == l3[m]);
            assert(l3[m] == l3.subrange(0, l2.len() as int)[m]);
            assert(l2[m] == l1[m]);
            assert(a[0] == l1.last());
            assert(a[1] == l3[m + 1]);
            assert(l3[m + 1] == l3.subrange(0, l2.len() as int)[m + 1]);
            assert(a[1] == l2.last());
            assert(a.subrange(2, 4) =~= added(l2, l3));
        }
        Ok(())
    }

    /// The product identifier (ASCII "911" for this controller).
    pub fn read_product_id(&mut self) -> (r: Result<[u8; 4], DisplayError>)
        ensures
            final(self).log_spec() == old(self).log_spec().push(final(self).log_spec().last()),
            is_touch_read(final(self).log_spec().last(), old(self).addr_spec(), REG_PRODUCT_ID, 4),
            r is Ok <==> touch_reply(final(self).log_spec().last(), 4) is Some,
            r is Ok ==> r->Ok_0@ == touch_reply(final(self).log_spec().last(), 4)->0,
            r is Err ==> r == Err::<[u8; 4], DisplayError>(DisplayError::I2cError),
            final(self).addr_spec() == old(self).addr_spec(),
            final(self).last_touch_spec() == old(self).last_touch_spec(),
            final(self).resolution_spec() == old(self).resolution_spec(),
    {
        let buf = self.read_register(REG_PRODUCT_ID, 4)?;
        let id = [buf[0], buf[1], buf[2], buf[3]];
        assert(id@ =~= buf@);
        Ok(id)
    }

    /// The firmware version (little-endian register pair).
    pub fn read_firmware_version(&mut self) -> (r: Result<u16, DisplayError>)
        ensures
            final(self).log_spec() == old(self).log_spec().push(final(self).log_spec().last()),
            is_touch_read(final(self).log_spec().last(), old(self).addr_spec(), REG_FIRMWARE_VERSION, 2),
            r is Ok <==> touch_reply(final(self).log_spec().last(), 2) is Some,
            r is Ok ==> ({
                let b = touch_reply(final(self).log_spec().last(), 2)->0;
                r->Ok_0 == le_u16(b[0], b[1])
            }),
            r is Err ==> r == Err::<u16, DisplayError>(DisplayError::I2cError),
            final(self).addr_spec() == old(self).addr_spec(),
            final(self).last_touch_spec() == old(self).last_touch_spec(),
            final(self).resolution_spec() == old(self).resolution_spec(),
    {
        let buf = self.read_register(REG_FIRMWARE_VERSION, 2)?;
        Ok(u16_from_le(buf[0], buf[1]))
    }

    /// The configured resolution, x then y.
    pub fn read_resolution(&mut self) -> (r: Result<(u16, u16), DisplayError>)
        ensures
            extends(old(self).log_spec(), final(self).log_spec()),
            resolution_read(
                added(old(self).log_spec(), final(self).log_spec()),
                old(self).addr_spec(),
                r,
            ),
            r is Err ==> r == Err::<(u16, u16), DisplayError>(DisplayError::I2cError),
            final(self).addr_spec() == old(self).addr_spec(),
            final(self).last_touch_spec() == old(self).last_touch_spec(),
            final(self).resolution_spec() == old(self).resolution_spec(),
    {
        let ghost l0 = self.log_spec();
        let x_buf = self.read_register(REG_X_RESOLUTION, 2);
        let ghost l1 = self.log_spec();
        proof {
            assert(l1.subrange(0, l0.len() as int) =~= l0);
            assert(added(l0, l1) =~= seq![l1.last()]);
        }
        let x_buf = match x_buf {
            Ok(b) => b,
            Err(e) => { return Err(e); },
        };
        let y_buf = self.read_register(REG_Y_RESOLUTION, 2);
        let ghost l2 = self.log_spec();
        proof {
            assert(l2.subrange(0, l0.len() as int) =~= l0);
            assert(added(l0, l2) =~= seq![l1.last(), l2.last()]);
        }
        let y_buf = match y_buf {
            Ok(b) => b,
            Err(e) => { return Err(e); },
        };
        Ok((u16_from_le(x_buf[0], x_buf[1]), u16_from_le(y_buf[0], y_buf[1])))
    }

    /// Reads the reported touch points and clears the controller's
    /// buffer-ready flag. Returns the number of points the controller reports
    /// (up to 15) and the first five of them; unused slots are zero.
    pub fn read_touch_points(&mut self) -> (r: Result<(u8, [TouchPoint; 5]), DisplayError>)
        ensures
            r is Err ==> r == Err::<(u8, [TouchPoint; 5]), DisplayError>(DisplayError::I2cError),
            r is Ok ==> r->Ok_0.0 <= 15,
            r is Ok ==> forall|i: int|
                r->Ok_0.0 <= i < 5 ==> #[trigger] r->Ok_0.1@[i] == no_point(),
            extends(old(self).log_spec(), final(self).log_spec()),
            r is Err ==> touch_fails_last(added(old(self).log_spec(), final(self).log_spec())),
            r is Ok ==> points_read(
                added(old(self).log_spec(), final(self).log_spec()),
                old(self).addr_spec(),
                r->Ok_0.0,
                r->Ok_0.1@,
            ),
            final(self).addr_spec() == old(self).addr_spec(),
            final(self).last_touch_spec() == old(self).last_touch_spec(),
            final(self).resolution_spec() == old(self).resolution_spec(),
    {
        let empty = TouchPoint { x: 0, y: 0, size: 0, track_id: 0 };
        let mut points: [TouchPoint; 5] = [empty, empty, empty, empty, empty];
        let ghost l0 = self.log_spec();
        let status_buf = self.read_register(REG_POINT_INFO, 1);
        let ghost l1 = self.log_spec();
        proof {
            assert(l1.subrange(0, l0.len() as int) =~= l0);
            assert(added(l0, l1) =~= seq![l1.last()]);
        }
        let status_buf = match status_buf {
            Ok(b) => b,
            Err(e) => { return Err(e); },
        };
        let status = status_buf[0];
        let buffer_ready = (status & 0x80) != 0;
        let num_points = status & 0x0F;
        assert(status & 0x0F <= 15) by (bit_vector);
        let clear = vec![0u8];
        assert(clear@ =~= seq![0u8]);
        if !buffer_ready || num_points == 0 {
            let w = self.write_register(REG_POINT_INFO, clear.as_slice());
            proof {
                let a = added(l0, self.log_spec());
                assert(self.log_spec().subrange(0, l0.len() as int) =~= l0);
                assert(a =~= seq![l1.last(), self.log_spec().last()]);
                assert(!touch_failed(a[0]));
            }
            if w.is_err() {
                return Err(DisplayError::I2cError);
            }
            proof {
                let a = added(l0, self.log_spec());
                assert(self.log_spec().subrange(0, l0.len() as int) =~= l0);
                assert(a =~= seq![l1.last(), self.log_spec().last()]);
                assert(status_buf@ == touch_reply(l1.last(), 1)->0);
                assert(reported_points(status) == 0);
                assert(points_read(a, old(self).addr_spec(), 0, points@));
            }
            return Ok((0, points));
        }
        let n = if (num_points as usize) < MAX_TOUCH_POINTS {
            num_points as usize
        } else {
            MAX_TOUCH_POINTS
        };
        let mut i: usize = 0;
        proof {
            assert(self.log_spec().subrange(0, l0.len() as int) =~= l0);
            assert(added(l0, self.log_spec()) =~= seq![l1.last()]);
        }
        while i < n
            invariant
                i <= n <= 5,
                n <= num_points,
                n == (if num_points < 5 { num_points as int } else { 5 }),
                forall|k: int| i <= k < 5 ==> #[trigger] points@[k] == no_point(),
                self.addr_spec() == old(self).addr_spec(),
                self.last_touch_spec() == old(self).last_touch_spec(),
                self.resolution_spec() == old(self).resolution_spec(),
                l0 == old(self).log_spec(),
                extends(l0, self.log_spec()),
                added(l0, self.log_spec()).len() == i + 1,
                added(l0, self.log_spec())[0] == l1.last(),
                touch_reply(l1.last(), 1) is Some,
                is_touch_read(l1.last(), old(self).addr_spec(), REG_POINT_INFO, 1),
                forall|j: int|
                    0 <= j < i ==> #[trigger] is_touch_read(
                        added(l0, self.log_spec())[1 + j],
                        old(self).addr_spec(),
                        (REG_POINT_1 + 8 * j) as u16,
                        8,
                    ) && touch_reply(added(l0, self.log_spec())[1 + j], 8) is Some && points@[j]
                        == point_of(touch_reply(added(l0, self.log_spec())[1 + j], 8)->0),
            decreases n - i,
        {
            let ghost lp = self.log_spec();
            let reg: u16 = REG_POINT_1 + 8 * (i as u16);
            let buf = self.read_register(reg, 8);
            proof {
                let lq = self.log_spec();
                assert(lq.subrange(0, l0.len() as int) =~= l0);
                let a = added(l0, lq);
                assert(a =~= added(l0, lp).push(lq.last()));
                assert forall|j: int| 0 <= j < a.len() - 1 implies !#[trigger] touch_failed(a[j]) by {
                    assert(a[j] == added(l0, lp)[j]);
                    if j > 0 {
                        assert(is_touch_read(added(l0, lp)[1 + (j - 1)], old(self).addr_spec(), (REG_POINT_1 + 8 * (j - 1)) as u16, 8));
                    }
                }
            }
            let buf = match buf {
                Ok(b) => b,
                Err(e) => { return Err(e); },
            };
            let p = parse_touch_point(&buf);
            let ghost before = points@;
            points[i] = p;
            let ghost idx = i as int;
            i = i + 1;
            proof {
                let lq = self.log_spec();
                assert(lq.subrange(0, l0.len() as int) =~= l0);
                assert(added(l0, lq) =~= added(l0, lp).push(lq.last()));
                assert(p.x == point_of(buf@).x);
                assert(p.y == point_of(buf@).y);
                assert(p.size == point_of(buf@).size);
                assert(p == point_of(buf@));
                assert(reg == (REG_POINT_1 + 8 * idx) as u16);
                assert(points@ =~= before.update(idx, p));
                assert forall|j: int|
                    0 <= j < i implies #[trigger] is_touch_read(
                        added(l0, self.log_spec())[1 + j],
                        old(self).addr_spec(),
                        (REG_POINT_1 + 8 * j) as u16,
                        8,
                    ) && touch_reply(added(l0, self.log_spec())[1 + j], 8) is Some && points@[j]
                        == point_of(touch_reply(added(l0, self.log_spec())[1 + j], 8)->0) by {
                    if j < idx {
                        assert(added(l0, lq)[1 + j] == added(l0, lp)[1 + j]);
                        assert(points@[j] == before[j]);
                    } else {
                        assert(added(l0, lq)[1 + j] == lq.last());
                        assert(points@[j] == p);
                        assert(buf@ == touch_reply(lq.last(), 8)->0);
                    }
                }
            }
        }
        let ghost lw = self.log_spec();
        let w = self.write_register(REG_POINT_INFO, clear.as_slice());
        proof {
            let lq = self.log_spec();
            assert(lq.subrange(0, l0.len() as int) =~= l0);
            let a = added(l0, lq);
            assert(a =~= added(l0, lw).push(lq.last()));
            assert forall|j: int| 0 <= j < a.len() - 1 implies !#[trigger] touch_failed(a[j]) by {
                assert(a[j] == added(l0, lw)[j]);
                if j > 0 {
                    assert(is_touch_read(added(l0, lw)[1 + (j - 1)], old(self).addr_spec(), (REG_POINT_1 + 8 * (j - 1)) as u16, 8));
                }
            }
        }
        if w.is_err() {
            return Err(DisplayError::I2cError);
        }
        proof {
            let lq = self.log_spec();
            assert(lq.subrange(0, l0.len() as int) =~= l0);
            assert(added(l0, lq) =~= added(l0, lw).push(lq.last()));
            assert(status & 0x80 != 0);
            assert(num_points == reported_points(status));
            let a = added(l0, lq);
            assert forall|j: int| 0 <= j < n implies #[trigger] is_touch_read(
                a[1 + j],
                old(self).addr_spec(),
                (REG_POINT_1 + 8 * j) as u16,
                8,
            ) && touch_reply(a[1 + j], 8) is Some && points@[j] == point_of(
                touch_reply(a[1 + j], 8)->0,
            ) by {
                assert(a[1 + j] == added(l0, lw)[1 + j]);
            }
            assert(a[0] == l1.last());
            assert(status_buf@ == touch_reply(l1.last(), 1)->0);
            assert(points_read(a, old(self).addr_spec(), num_points, points@));
        }
        Ok((num_points, points))
    }

    /// Reads one touch event: a press or a move while a point is reported
    /// (scaled to the display), a release when the point goes away.
    pub fn read_touch(&mut self) -> (r: Result<Option<TouchEvent>, DisplayError>)
        ensures
            r is Err ==> r == Err::<Option<TouchEvent>, DisplayError>(DisplayError::I2cError),
            r is Err ==> final(self).last_touch_spec() == old(self).last_touch_spec(),
            extends(old(self).log_spec(), final(self).log_spec()),
            r is Err ==> touch_fails_last(added(old(self).log_spec(), final(self).log_spec())),
            r is Ok ==> exists|count: u8, points: Seq<TouchPoint>|
                #[trigger] points_read(
                    added(old(self).log_spec(), final(self).log_spec()),
                    old(self).addr_spec(),
                    count,
                    points,
                ) && points.len() == 5 && touch_step(
                    old(self).last_touch_spec(),
                    count,
                    points[0],
                    old(self).resolution_spec().0,
                    old(self).resolution_spec().1,
                ) == (final(self).last_touch_spec(), r->Ok_0),
            final(self).addr_spec() == old(self).addr_spec(),
            final(self).resolution_spec() == old(self).resolution_spec(),
    {
        let (num_points, points) = self.read_touch_points()?;
        let ghost l1 = self.log_spec();
        let point = points[0];
        proof {
            assert(points_read(added(old(self).log_spec(), l1), old(self).addr_spec(), num_points, points@));
        }
        if num_points > 0 {
            let x = scale_coord(point.x, self.x_resolution, DISPLAY_WIDTH);
            let y = scale_coord(point.y, self.y_resolution, DISPLAY_HEIGHT);
            let event = if self.last_touch.is_some() {
                TouchEvent::Move { x, y }
            } else {
                TouchEvent::Press { x, y }
            };
            self.last_touch = Some(TouchPoint { x, y, ..point });
            proof {
                let s = touch_step(
                    old(self).last_touch_spec(),
                    num_points,
                    point,
                    old(self).resolution_spec().0,
                    old(self).resolution_spec().1,
                );
                assert(s == (self.last_touch_spec(), Some(event)));
            }
            proof {
                assert(self.log_spec() == l1);
                assert(points@[0] == point);
            }
            Ok(Some(event))
        } else {
            match self.last_touch {
                Some(last) => {
                    self.last_touch = None;
                    proof {
                        let s = touch_step(
                            old(self).last_touch_spec(),
                            num_points,
                            point,
                            old(self).resolution_spec().0,
                            old(self).resolution_spec().1,
                        );
                        assert(s == (self.last_touch_spec(), Some(TouchEvent::Release { x: last.x, y: last.y })));
                    }
                    proof {
                    assert(self.log_spec() == l1);
                    assert(points@[0] == point);
                }
                Ok(Some(TouchEvent::Release { x: last.x, y: last.y }))
                },
                None => {
                    proof {
                        let s = touch_step(
                            old(self).last_touch_spec(),
                            num_points,
                            point,
                            old(self).resolution_spec().0,
                            old(self).resolution_spec().1,
                        );
                        assert(s == (self.last_touch_spec(), None::<TouchEvent>));
                    }
                    proof {
                    assert(self.log_spec() == l1);
                    assert(points@[0] == point);
                }
                Ok(None)
                },
            }
        }
    }

    /// Soft-resets the controller.
    pub fn soft_reset(&mut self) -> (r: Result<(), DisplayError>)
        ensures
            final(self).log_spec() == old(self).log_spec().push(
                Txn::Write {
                    addr: old(self).addr_spec(),
                    bytes: reg_bytes(REG_COMMAND) + seq![CMD_SOFT_RESET],
                    ok: r is Ok,
                },
            ),
            r is Err ==> r == Err::<(), DisplayError>(DisplayError::I2cError),
            final(self).addr_spec() == old(self).addr_spec(),
            final(self).last_touch_spec() == old(self).last_touch_spec(),
            final(self).resolution_spec() == old(self).resolution_spec(),
    {
        let cmd = vec![CMD_SOFT_RESET];
        assert(cmd@ =~= seq![CMD_SOFT_RESET]);
        self.write_register(REG_COMMAND, cmd.as_slice())
    }

    /// Gives the bus back.
    pub fn release(self) -> (r: I2C)
        ensures
            r == self.bus_spec(),
    {
        self.i2c.into_inner()
    }
}

} // verus!
