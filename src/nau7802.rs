use vstd::prelude::*;

use crate::arith::{raw_in_range, sign_extend_24, sign_extend_24_spec};
use crate::bus::{added, extends, DelayMs, I2cBus, TracedBus, Txn};
use crate::scale_state::{burst_ok, calibration_accepted, Nau7802State, BURST_LEN};

verus! {

/// I2C address of the weighing ADC.
pub const NAU7802_ADDR: u8 = 0x2A;

// Register addresses.
pub const REG_PU_CTRL: u8 = 0x00;
pub const REG_CTRL1: u8 = 0x01;
pub const REG_CTRL2: u8 = 0x02;
pub const REG_ADCO_B2: u8 = 0x12;
pub const REG_ADCO_B1: u8 = 0x13;
pub const REG_ADCO_B0: u8 = 0x14;
pub const REG_REVISION: u8 = 0x1F;

// Bits of the power-up control register.
/// Register reset.
pub const PU_CTRL_RR: u8 = 0x01;
/// Power up the digital domain.
pub const PU_CTRL_PUD: u8 = 0x02;
/// Power up the analog domain.
pub const PU_CTRL_PUA: u8 = 0x04;
/// Power-up ready (read only).
pub const PU_CTRL_PUR: u8 = 0x08;
/// Start the conversion cycle.
pub const PU_CTRL_CS: u8 = 0x10;
/// A conversion is ready (read only).
pub const PU_CTRL_CR: u8 = 0x20;

/// Bit of control register 1 that enables the internal regulator.
pub const CTRL1_LDO_ENABLE: u8 = 0x80;

/// Reads of the power-ready bit before power-up gives up.
pub const POWER_UP_RETRIES: u32 = 100;

/// Reads of the conversion-ready bit before a burst sample gives up.
pub const DATA_READY_RETRIES: u32 = 500;

/// Errors of the weighing ADC driver.
#[derive(Debug, Clone, Copy, PartialEq, Eq, Structural)]
pub enum Nau7802Error {
    I2cError,
    NotInitialized,
    Timeout,
    CalibrationFailed,
}

/// Conversion rates.
#[derive(Debug, Clone, Copy, PartialEq, Eq, Structural)]
pub enum SampleRate {
    Sps10,
    Sps20,
    Sps40,
    Sps80,
    Sps320,
}

impl SampleRate {
    pub open spec fn spec_bits(self) -> u8 {
        match self {
            SampleRate::Sps10 => 0,
            SampleRate::Sps20 => 1,
            SampleRate::Sps40 => 2,
            SampleRate::Sps80 => 3,
            SampleRate::Sps320 => 7,
        }
    }

    /// The 3-bit field value that selects this rate.
    pub fn bits(self) -> (r: u8)
        ensures
            r == self.spec_bits(),
    {
        match self {
            SampleRate::Sps10 => 0,
            SampleRate::Sps20 => 1,
            SampleRate::Sps40 => 2,
            SampleRate::Sps80 => 3,
            SampleRate::Sps320 => 7,
        }
    }
}

/// Programmable amplifier gains.
#[derive(Debug, Clone, Copy, PartialEq, Eq, Structural)]
pub enum Gain {
    X1,
    X2,
    X4,
    X8,
    X16,
    X32,
    X64,
    X128,
}

impl Gain {
    pub open spec fn spec_bits(self) -> u8 {
        match self {
            Gain::X1 => 0,
            Gain::X2 => 1,
            Gain::X4 => 2,
            Gain::X8 => 3,
            Gain::X16 => 4,
            Gain::X32 => 5,
            Gain::X64 => 6,
            Gain::X128 => 7,
        }
    }

    /// The 3-bit field value that selects this gain.
    pub fn bits(self) -> (r: u8)
        ensures
            r == self.spec_bits(),
    {
        match self {
            Gain::X1 => 0,
            Gain::X2 => 1,
            Gain::X4 => 2,
            Gain::X8 => 3,
            Gain::X16 => 4,
            Gain::X32 => 5,
            Gain::X64 => 6,
            Gain::X128 => 7,
        }
    }
}

/// Output voltages of the internal regulator.
#[derive(Debug, Clone, Copy, PartialEq, Eq, Structural)]
pub enum LdoVoltage {
    V2_4,
    V2_7,
    V3_0,
    V3_3,
    V3_6,
    V3_9,
    V4_2,
    V4_5,
}

impl LdoVoltage {
    pub open spec fn spec_bits(self) -> u8 {
        match self {
            LdoVoltage::V2_4 => 0b111,
            LdoVoltage::V2_7 => 0b110,
            LdoVoltage::V3_0 => 0b101,
            LdoVoltage::V3_3 => 0b100,
            LdoVoltage::V3_6 => 0b011,
            LdoVoltage::V3_9 => 0b010,
            LdoVoltage::V4_2 => 0b001,
            LdoVoltage::V4_5 => 0b000,
        }
    }

    /// The 3-bit field value that selects this voltage.
    pub fn bits(self) -> (r: u8)
        ensures
            r == self.spec_bits(),
    {
        match self {
            LdoVoltage::V2_4 => 0b111,
            LdoVoltage::V2_7 => 0b110,
            LdoVoltage::V3_0 => 0b101,
            LdoVoltage::V3_3 => 0b100,
            LdoVoltage::V3_6 => 0b011,
            LdoVoltage::V3_9 => 0b010,
            LdoVoltage::V4_2 => 0b001,
            LdoVoltage::V4_5 => 0b000,
        }
    }
}

/// Control register 2 with its rate field (bits 4..6) set to `rate`.
pub open spec fn ctrl2_rate_spec(ctrl2: u8, rate: SampleRate) -> u8 {
    (ctrl2 & 0x8F) | (rate.spec_bits() << 4u8)
}

/// Control register 1 with its gain field (bits 0..2) set to `gain`.
pub open spec fn ctrl1_gain_spec(ctrl1: u8, gain: Gain) -> u8 {
    (ctrl1 & 0xF8) | gain.spec_bits()
}

/// Control register 1 with its regulator field (bits 3..5) set to `voltage`.
pub open spec fn ctrl1_ldo_spec(ctrl1: u8, voltage: LdoVoltage) -> u8 {
    (ctrl1 & 0xC7) | (voltage.spec_bits() << 3u8)
}

/// Control register 2 with its rate field (bits 4..6) set to `rate`; the other
/// bits are kept.
pub fn ctrl2_with_rate(ctrl2: u8, rate: SampleRate) -> (r: u8)
    ensures
        r == ctrl2_rate_spec(ctrl2, rate),
        r & 0x8F == ctrl2 & 0x8F,
        (r >> 4u8) & 0x07 == rate.spec_bits(),
{
    let b = rate.bits();
    let r = (ctrl2 & 0x8F) | (b << 4u8);
    assert(r & 0x8F == ctrl2 & 0x8F && (r >> 4u8) & 0x07 == b) by (bit_vector)
        requires
            b <= 7,
            r == (ctrl2 & 0x8F) | (b << 4u8),
    ;
    r
}

/// Control register 1 with its gain field (bits 0..2) set to `gain`; the other
/// bits are kept.
pub fn ctrl1_with_gain(ctrl1: u8, gain: Gain) -> (r: u8)
    ensures
        r == ctrl1_gain_spec(ctrl1, gain),
        r & 0xF8 == ctrl1 & 0xF8,
        r & 0x07 == gain.spec_bits(),
{
    let b = gain.bits();
    let r = (ctrl1 & 0xF8) | b;
    assert(r & 0xF8 == ctrl1 & 0xF8 && r & 0x07 == b) by (bit_vector)
        requires
            b <= 7,
            r == (ctrl1 & 0xF8) | b,
    ;
    r
}

/// Control register 1 with its regulator field (bits 3..5) set to `voltage`;
/// the other bits are kept.
pub fn ctrl1_with_ldo(ctrl1: u8, voltage: LdoVoltage) -> (r: u8)
    ensures
        r == ctrl1_ldo_spec(ctrl1, voltage),
        r & 0xC7 == ctrl1 & 0xC7,
        (r >> 3u8) & 0x07 == voltage.spec_bits(),
{
    let b = voltage.bits();
    let r = (ctrl1 & 0xC7) | (b << 3u8);
    assert(r & 0xC7 == ctrl1 & 0xC7 && (r >> 3u8) & 0x07 == b) by (bit_vector)
        requires
            b <= 7,
            r == (ctrl1 & 0xC7) | (b << 3u8),
    ;
    r
}

/// The 24-bit two's-complement sample held in the three output registers,
/// most significant byte first.
pub open spec fn sample_of_bytes(b2: u8, b1: u8, b0: u8) -> int {
    sign_extend_24_spec(b2 as int * 0x1_0000 + b1 as int * 0x100 + b0 as int)
}

/// Combines the three output register bytes into a signed sample.
pub fn assemble_sample(b2: u8, b1: u8, b0: u8) -> (r: i32)
    ensures
        r == sample_of_bytes(b2, b1, b0),
        raw_in_range(r as int),
{
    let value: u32 = ((b2 as u32) << 16u32) | ((b1 as u32) << 8u32) | (b0 as u32);
    assert(value == b2 as u32 * 0x1_0000 + b1 as u32 * 0x100 + b0 as u32) by (bit_vector)
        requires
            b2 < 256 && b1 < 256 && b0 < 256,
            value == ((b2 as u32) << 16u32) | ((b1 as u32) << 8u32) | (b0 as u32),
    ;
    sign_extend_24(value)
}

/// A one-byte read of register `reg` of the ADC.
pub open spec fn is_reg_read(t: Txn, reg: u8) -> bool {
    match t {
        Txn::WriteRead { addr, wr, len, reply } => addr == NAU7802_ADDR && wr == seq![reg] && len
            == 1,
        _ => false,
    }
}

/// The byte a register read returned, if it succeeded with exactly one byte.
pub open spec fn read_byte(t: Txn) -> Option<u8> {
    match t {
        Txn::WriteRead { reply, .. } => match reply {
            Some(b) => if b.len() == 1 {
                Some(b[0])
            } else {
                None
            },
            None => None,
        },
        _ => None,
    }
}

/// A write of `value` to register `reg` of the ADC.
pub open spec fn is_reg_write(t: Txn, reg: u8, value: u8) -> bool {
    match t {
        Txn::Write { addr, bytes, ok } => addr == NAU7802_ADDR && bytes == seq![reg, value],
        _ => false,
    }
}

/// Whether a transaction failed, as the driver sees it.
pub open spec fn txn_failed(t: Txn) -> bool {
    match t {
        Txn::Write { ok, .. } => !ok,
        _ => read_byte(t) is None,
    }
}

/// A successful read of `reg`.
pub open spec fn read_done(t: Txn, reg: u8) -> bool {
    is_reg_read(t, reg) && read_byte(t) is Some
}

/// A successful write of `value` to `reg`.
pub open spec fn write_done(t: Txn, reg: u8, value: u8) -> bool {
    is_reg_write(t, reg, value) && !txn_failed(t)
}

/// Whether the history grew and its last transaction failed: what a bus error
/// of the driver means.
pub open spec fn ended_in_failure(before: Seq<Txn>, after: Seq<Txn>) -> bool {
    extends(before, after) && fails_last(added(before, after))
}

/// Whether no transaction of `a` failed.
pub open spec fn clean(a: Seq<Txn>) -> bool {
    forall|i: int| 0 <= i < a.len() ==> !#[trigger] txn_failed(a[i])
}

/// Whether the last transaction of `a` failed and none before it did: a bus
/// error stops the driver at once.
pub open spec fn fails_last(a: Seq<Txn>) -> bool {
    &&& a.len() > 0
    &&& txn_failed(a.last())
    &&& clean(a.drop_last())
}

proof fn lemma_clean_then_fail(p: Seq<Txn>, q: Seq<Txn>)
    requires
        clean(p),
        fails_last(q),
    ensures
        fails_last(p + q),
{
    let a = p + q;
    assert(a.drop_last() =~= p + q.drop_last());
    assert forall|i: int| 0 <= i < a.drop_last().len() implies !#[trigger] txn_failed(a.drop_last()[i]) by {
        if i < p.len() {
            assert(a.drop_last()[i] == p[i]);
        } else {
            assert(a.drop_last()[i] == q.drop_last()[i - p.len()]);
        }
    }
}

proof fn lemma_clean_concat(p: Seq<Txn>, q: Seq<Txn>)
    requires
        clean(p),
        clean(q),
    ensures
        clean(p + q),
{
    assert forall|i: int| 0 <= i < (p + q).len() implies !#[trigger] txn_failed((p + q)[i]) by {
        if i < p.len() {
            assert((p + q)[i] == p[i]);
        } else {
            assert((p + q)[i] == q[i - p.len()]);
        }
    }
}

/// The transactions `a` of a read-modify-write of `reg` with `update`: the
/// register is read and, if that worked, `update` of the byte read is written
/// back; `r` is `Ok` exactly when both worked.
pub open spec fn rmw_log(
    a: Seq<Txn>,
    reg: u8,
    update: spec_fn(u8) -> u8,
    r: Result<(), Nau7802Error>,
) -> bool {
    &&& a.len() >= 1
    &&& is_reg_read(a[0], reg)
    &&& match read_byte(a[0]) {
        None => a.len() == 1 && r == Err::<(), Nau7802Error>(Nau7802Error::I2cError),
        Some(c) => a.len() == 2 && is_reg_write(a[1], reg, update(c)) && (r is Ok <==> !txn_failed(
            a[1],
        )) && (r is Err ==> r == Err::<(), Nau7802Error>(Nau7802Error::I2cError)),
    }
}

/// A successful read-modify-write of `reg` with `update`.
pub open spec fn rmw_done(a: Seq<Txn>, reg: u8, update: spec_fn(u8) -> u8) -> bool {
    &&& a.len() == 2
    &&& read_done(a[0], reg)
    &&& write_done(a[1], reg, update(read_byte(a[0])->0))
}

fn read_reg<B: I2cBus>(i2c: &mut TracedBus<B>, reg: u8) -> (r: Result<u8, Nau7802Error>)
    ensures
        final(i2c).log() == old(i2c).log().push(final(i2c).log().last()),
        is_reg_read(final(i2c).log().last(), reg),
        r == (match read_byte(final(i2c).log().last()) {
            Some(b) => Ok::<u8, Nau7802Error>(b),
            None => Err(Nau7802Error::I2cError),
        }),
{
    let wr = vec![reg];
    assert(wr@ =~= seq![reg]);
    let res = i2c.write_read(NAU7802_ADDR, wr.as_slice(), 1);
    match res {
        Ok(bytes) => {
            if bytes.len() == 1 {
                Ok(bytes[0])
            } else {
                Err(Nau7802Error::I2cError)
            }
        },
        Err(_) => Err(Nau7802Error::I2cError),
    }
}

fn write_reg<B: I2cBus>(i2c: &mut TracedBus<B>, reg: u8, value: u8) -> (r: Result<(), Nau7802Error>)
    ensures
        final(i2c).log() == old(i2c).log().push(
            Txn::Write { addr: NAU7802_ADDR, bytes: seq![reg, value], ok: r is Ok },
        ),
        r is Err ==> r == Err::<(), Nau7802Error>(Nau7802Error::I2cError),
{
    let wr = vec![reg, value];
    assert(wr@ =~= seq![reg, value]);
    match i2c.write(NAU7802_ADDR, wr.as_slice()) {
        Ok(()) => Ok(()),
        Err(_) => Err(Nau7802Error::I2cError),
    }
}

proof fn lemma_rmw(l0: Seq<Txn>, l1: Seq<Txn>, l2: Seq<Txn>, reg: u8, update: spec_fn(u8) -> u8, c: Result<u8, Nau7802Error>, r: Result<(), Nau7802Error>)
    requires
        l1 == l0.push(l1.last()),
        is_reg_read(l1.last(), reg),
        c == (match read_byte(l1.last()) {
            Some(b) => Ok::<u8, Nau7802Error>(b),
            None => Err(Nau7802Error::I2cError),
        }),
        c is Ok ==> l2 == l1.push(Txn::Write { addr: NAU7802_ADDR, bytes: seq![reg, update(c->Ok_0)], ok: r is Ok }),
        c is Ok ==> (r is Err ==> r == Err::<(), Nau7802Error>(Nau7802Error::I2cError)),
        c is Err ==> l2 == l1 && r == Err::<(), Nau7802Error>(Nau7802Error::I2cError),
    ensures
        extends(l0, l2),
        rmw_log(added(l0, l2), reg, update, r),
        r is Err ==> ended_in_failure(l0, l2),
        r is Ok ==> rmw_done(added(l0, l2), reg, update),
{
    if c is Ok {
        assert(added(l0, l2) =~= seq![l1.last(), l2.last()]);
    } else {
        assert(added(l0, l2) =~= seq![l1.last()]);
    }
    assert(l2.subrange(0, l0.len() as int) =~= l0);
}

/// Sets the conversion rate: control register 2 is read and written back
/// with its rate field replaced.
pub fn set_sample_rate<B: I2cBus>(i2c: &mut TracedBus<B>, rate: SampleRate) -> (r: Result<(), Nau7802Error>)
    ensures
        extends(old(i2c).log(), final(i2c).log()),
        rmw_log(added(old(i2c).log(), final(i2c).log()), REG_CTRL2, |c: u8| ctrl2_rate_spec(c, rate), r),
        r is Err ==> ended_in_failure(old(i2c).log(), final(i2c).log()),
        r is Ok ==> rmw_done(added(old(i2c).log(), final(i2c).log()), REG_CTRL2, |c: u8| ctrl2_rate_spec(c, rate)),
{
    let ghost l0 = i2c.log();
    let c = read_reg(i2c, REG_CTRL2);
    let ghost l1 = i2c.log();
    let r = match c {
        Ok(v) => write_reg(i2c, REG_CTRL2, ctrl2_with_rate(v, rate)),
        Err(e) => Err(e),
    };
    proof { lemma_rmw(l0, l1, i2c.log(), REG_CTRL2, |c: u8| ctrl2_rate_spec(c, rate), c, r); }
    r
}

/// Sets the amplifier gain: control register 1 is read and written back with
/// its gain field replaced.
pub fn set_gain<B: I2cBus>(i2c: &mut TracedBus<B>, gain: Gain) -> (r: Result<(), Nau7802Error>)
    ensures
        extends(old(i2c).log(), final(i2c).log()),
        rmw_log(added(old(i2c).log(), final(i2c).log()), REG_CTRL1, |c: u8| ctrl1_gain_spec(c, gain), r),
        r is Err ==> ended_in_failure(old(i2c).log(), final(i2c).log()),
        r is Ok ==> rmw_done(added(old(i2c).log(), final(i2c).log()), REG_CTRL1, |c: u8| ctrl1_gain_spec(c, gain)),
{
    let ghost l0 = i2c.log();
    let c = read_reg(i2c, REG_CTRL1);
    let ghost l1 = i2c.log();
    let r = match c {
        Ok(v) => write_reg(i2c, REG_CTRL1, ctrl1_with_gain(v, gain)),
        Err(e) => Err(e),
    };
    proof { lemma_rmw(l0, l1, i2c.log(), REG_CTRL1, |c: u8| ctrl1_gain_spec(c, gain), c, r); }
    r
}

/// Sets the regulator voltage: control register 1 is read and written back
/// with its regulator field replaced.
pub fn set_ldo<B: I2cBus>(i2c: &mut TracedBus<B>, voltage: LdoVoltage) -> (r: Result<(), Nau7802Error>)
    ensures
        extends(old(i2c).log(), final(i2c).log()),
        rmw_log(added(old(i2c).log(), final(i2c).log()), REG_CTRL1, |c: u8| ctrl1_ldo_spec(c, voltage), r),
        r is Err ==> ended_in_failure(old(i2c).log(), final(i2c).log()),
        r is Ok ==> rmw_done(added(old(i2c).log(), final(i2c).log()), REG_CTRL1, |c: u8| ctrl1_ldo_spec(c, voltage)),
{
    let ghost l0 = i2c.log();
    let c = read_reg(i2c, REG_CTRL1);
    let ghost l1 = i2c.log();
    let r = match c {
        Ok(v) => write_reg(i2c, REG_CTRL1, ctrl1_with_ldo(v, voltage)),
        Err(e) => Err(e),
    };
    proof { lemma_rmw(l0, l1, i2c.log(), REG_CTRL1, |c: u8| ctrl1_ldo_spec(c, voltage), c, r); }
    r
}

/// Sets `bits` in register `reg`, keeping the others.
fn set_bits<B: I2cBus>(i2c: &mut TracedBus<B>, reg: u8, bits: u8) -> (r: Result<(), Nau7802Error>)
    ensures
        extends(old(i2c).log(), final(i2c).log()),
        rmw_log(added(old(i2c).log(), final(i2c).log()), reg, |c: u8| c | bits, r),
        r is Err ==> ended_in_failure(old(i2c).log(), final(i2c).log()),
        r is Ok ==> rmw_done(added(old(i2c).log(), final(i2c).log()), reg, |c: u8| c | bits),
{
    let ghost l0 = i2c.log();
    let c = read_reg(i2c, reg);
    let ghost l1 = i2c.log();
    let r = match c {
        Ok(v) => write_reg(i2c, reg, v | bits),
        Err(e) => Err(e),
    };
    proof { lemma_rmw(l0, l1, i2c.log(), reg, |c: u8| c | bits, c, r); }
    r
}

/// Whether a finished conversion is waiting: one read of the power-up control
/// register, whose cycle-ready bit is the answer.
pub fn data_ready<B: I2cBus>(i2c: &mut TracedBus<B>) -> (r: Result<bool, Nau7802Error>)
    ensures
        final(i2c).log() == old(i2c).log().push(final(i2c).log().last()),
        is_reg_read(final(i2c).log().last(), REG_PU_CTRL),
        r == (match read_byte(final(i2c).log().last()) {
            Some(b) => Ok::<bool, Nau7802Error>(b & PU_CTRL_CR != 0),
            None => Err(Nau7802Error::I2cError),
        }),
{
    let status = read_reg(i2c, REG_PU_CTRL)?;
    Ok(status & PU_CTRL_CR != 0)
}

/// A successful read of the power-up control register with the power-ready
/// bit still clear.
pub open spec fn power_poll_pending(t: Txn) -> bool {
    read_done(t, REG_PU_CTRL) && read_byte(t)->0 & PU_CTRL_PUR == 0
}

/// The power-up wait: reads of the power-up control register, at most
/// `POWER_UP_RETRIES` of them, all pending but the last, which shows the
/// power-ready bit.
pub open spec fn power_wait_done(p: Seq<Txn>) -> bool {
    &&& 1 <= p.len() <= POWER_UP_RETRIES
    &&& forall|i: int| 0 <= i < p.len() - 1 ==> #[trigger] power_poll_pending(p[i])
    &&& read_done(p.last(), REG_PU_CTRL)
    &&& read_byte(p.last())->0 & PU_CTRL_PUR != 0
}

/// Whether the history ends with `POWER_UP_RETRIES` pending power-ready polls.
pub open spec fn power_wait_timed_out(a: Seq<Txn>) -> bool {
    &&& a.len() >= POWER_UP_RETRIES
    &&& forall|i: int|
        a.len() - POWER_UP_RETRIES <= i < a.len() ==> #[trigger] power_poll_pending(a[i])
}

/// The transactions of a successful reset and power-up: the revision read,
/// then reset, release, and power-up of both domains.
pub open spec fn power_on_log_ok(a: Seq<Txn>) -> bool {
    &&& a.len() == 4
    &&& read_done(a[0], REG_REVISION)
    &&& write_done(a[1], REG_PU_CTRL, PU_CTRL_RR)
    &&& write_done(a[2], REG_PU_CTRL, 0)
    &&& write_done(a[3], REG_PU_CTRL, PU_CTRL_PUD | PU_CTRL_PUA)
}

/// The transactions of a successful configuration: rate 10 SPS, gain 128,
/// regulator 3.3 V, regulator enable and cycle start, each a
/// read-modify-write.
pub open spec fn configure_log_ok(a: Seq<Txn>) -> bool {
    &&& a.len() == 10
    &&& rmw_done(a.subrange(0, 2), REG_CTRL2, |c: u8| ctrl2_rate_spec(c, SampleRate::Sps10))
    &&& rmw_done(a.subrange(2, 4), REG_CTRL1, |c: u8| ctrl1_gain_spec(c, Gain::X128))
    &&& rmw_done(a.subrange(4, 6), REG_CTRL1, |c: u8| ctrl1_ldo_spec(c, LdoVoltage::V3_3))
    &&& rmw_done(a.subrange(6, 8), REG_CTRL1, |c: u8| c | CTRL1_LDO_ENABLE)
    &&& rmw_done(a.subrange(8, 10), REG_PU_CTRL, |c: u8| c | PU_CTRL_CS)
}

/// The transactions of a successful bring-up: reset and power-up, the
/// power-ready wait, then the configuration.
pub open spec fn init_log_ok(a: Seq<Txn>) -> bool {
    let n = a.len() as int;
    &&& 15 <= n <= 14 + POWER_UP_RETRIES
    &&& power_on_log_ok(a.subrange(0, 4))
    &&& power_wait_done(a.subrange(4, n - 10))
    &&& configure_log_ok(a.subrange(n - 10, n))
}

proof fn lemma_power_on_clean(a: Seq<Txn>)
    requires
        power_on_log_ok(a),
    ensures
        clean(a),
{
    assert forall|i: int| 0 <= i < a.len() implies !#[trigger] txn_failed(a[i]) by {
        assert(i == 0 || i == 1 || i == 2 || i == 3);
    }
}

proof fn lemma_power_wait_clean(p: Seq<Txn>)
    requires
        power_wait_done(p),
    ensures
        clean(p),
{
    assert forall|i: int| 0 <= i < p.len() implies !#[trigger] txn_failed(p[i]) by {
        if i < p.len() - 1 {
            assert(power_poll_pending(p[i]));
        }
    }
}

proof fn lemma_extends_trans(a: Seq<Txn>, b: Seq<Txn>, c: Seq<Txn>)
    requires
        extends(a, b),
        extends(b, c),
    ensures
        extends(a, c),
        added(a, c) == added(a, b) + added(b, c),
{
    assert(c.subrange(0, a.len() as int) =~= b.subrange(0, a.len() as int));
    assert(added(a, c) =~= added(a, b) + added(b, c));
}

proof fn lemma_extends_push(a: Seq<Txn>, b: Seq<Txn>, t: Txn)
    requires
        extends(a, b),
    ensures
        extends(a, b.push(t)),
        added(a, b.push(t)) == added(a, b).push(t),
{
    assert(b.push(t).subrange(0, a.len() as int) =~= b.subrange(0, a.len() as int));
    assert(added(a, b.push(t)) =~= added(a, b).push(t));
}

proof fn lemma_extends_refl(a: Seq<Txn>)
    ensures
        extends(a, a),
        added(a, a) == Seq::<Txn>::empty(),
{
    assert(a.subrange(0, a.len() as int) =~= a);
    assert(added(a, a) =~= Seq::<Txn>::empty());
}

fn power_on<B: I2cBus, D: DelayMs>(i2c: &mut TracedBus<B>, delay: &mut D) -> (r: Result<(), Nau7802Error>)
    ensures
        extends(old(i2c).log(), final(i2c).log()),
        r is Ok ==> power_on_log_ok(added(old(i2c).log(), final(i2c).log())),
        r is Err ==> r == Err::<(), Nau7802Error>(Nau7802Error::I2cError) && ended_in_failure(
            old(i2c).log(),
            final(i2c).log(),
        ),
{
    let ghost l0 = i2c.log();
    proof { lemma_extends_refl(l0); }
    let rev = read_reg(i2c, REG_REVISION);
    proof { lemma_extends_push(l0, l0, i2c.log().last()); }
    let ghost l1 = i2c.log();
    if rev.is_err() {
        return Err(Nau7802Error::I2cError);
    }
    let w = write_reg(i2c, REG_PU_CTRL, PU_CTRL_RR);
    proof { lemma_extends_push(l0, l1, i2c.log().last()); }
    let ghost l2 = i2c.log();
    if w.is_err() {
        return w;
    }
    delay.delay_ms(10);
    let w = write_reg(i2c, REG_PU_CTRL, 0x00);
    proof { lemma_extends_push(l0, l2, i2c.log().last()); }
    let ghost l3 = i2c.log();
    if w.is_err() {
        return w;
    }
    let w = write_reg(i2c, REG_PU_CTRL, PU_CTRL_PUD | PU_CTRL_PUA);
    proof { lemma_extends_push(l0, l3, i2c.log().last()); }
    if w.is_err() {
        return w;
    }
    proof {
        let a = added(l0, i2c.log());
        assert(a =~= seq![l1.last(), l2.last(), l3.last(), i2c.log().last()]);
        assert(a.subrange(0, 4) =~= a);
    }
    Ok(())
}

fn wait_power_ready<B: I2cBus, D: DelayMs>(i2c: &mut TracedBus<B>, delay: &mut D) -> (r: Result<(), Nau7802Error>)
    ensures
        extends(old(i2c).log(), final(i2c).log()),
        r is Ok ==> power_wait_done(added(old(i2c).log(), final(i2c).log())),
        r == Err::<(), Nau7802Error>(Nau7802Error::Timeout) ==> power_wait_timed_out(
            added(old(i2c).log(), final(i2c).log()),
        ) && added(old(i2c).log(), final(i2c).log()).len() == POWER_UP_RETRIES,
        r == Err::<(), Nau7802Error>(Nau7802Error::I2cError) ==> ended_in_failure(
            old(i2c).log(),
            final(i2c).log(),
        ),
        r == Err::<(), Nau7802Error>(Nau7802Error::I2cError) || r == Err::<(), Nau7802Error>(
            Nau7802Error::Timeout,
        ) || r is Ok,
{
    let ghost l0 = i2c.log();
    proof { lemma_extends_refl(l0); }
    let mut tries: u32 = POWER_UP_RETRIES;
    loop
        invariant_except_break
            added(l0, i2c.log()).len() == POWER_UP_RETRIES - tries,
            forall|i: int|
                0 <= i < added(l0, i2c.log()).len() ==> #[trigger] power_poll_pending(added(l0, i2c.log())[i]),
        invariant
            0 < tries <= POWER_UP_RETRIES,
            extends(l0, i2c.log()),
            l0 == old(i2c).log(),
        ensures
            extends(l0, i2c.log()),
            power_wait_done(added(l0, i2c.log())),
        decreases tries,
    {
        let ghost lp = i2c.log();
        let status = read_reg(i2c, REG_PU_CTRL);
        proof { lemma_extends_push(l0, lp, i2c.log().last()); }
        let status = match status {
            Ok(v) => v,
            Err(e) => {
                proof {
                    let p = added(l0, lp);
                    assert forall|i: int| 0 <= i < p.len() implies !#[trigger] txn_failed(p[i]) by {
                        assert(power_poll_pending(p[i]));
                    }
                    assert(added(l0, i2c.log()).drop_last() =~= p);
                }
                return Err(e);
            },
        };
        if status & PU_CTRL_PUR != 0 {
            proof {
                let p = added(l0, i2c.log());
                assert forall|i: int| 0 <= i < p.len() - 1 implies #[trigger] power_poll_pending(p[i]) by {
                    assert(p[i] == added(l0, lp)[i]);
                }
            }
            break ;
        }
        tries = tries - 1;
        proof {
            let p = added(l0, i2c.log());
            assert forall|i: int| 0 <= i < p.len() implies #[trigger] power_poll_pending(p[i]) by {
                if i < p.len() - 1 {
                    assert(p[i] == added(l0, lp)[i]);
                }
            }
        }
        if tries == 0 {
            return Err(Nau7802Error::Timeout);
        }
        delay.delay_ms(1);
    }
    Ok(())
}

fn configure<B: I2cBus>(i2c: &mut TracedBus<B>) -> (r: Result<(), Nau7802Error>)
    ensures
        extends(old(i2c).log(), final(i2c).log()),
        r is Ok ==> configure_log_ok(added(old(i2c).log(), final(i2c).log())),
        r is Err ==> r == Err::<(), Nau7802Error>(Nau7802Error::I2cError) && ended_in_failure(
            old(i2c).log(),
            final(i2c).log(),
        ),
{
    let ghost l0 = i2c.log();
    set_sample_rate(i2c, SampleRate::Sps10)?;
    let ghost l1 = i2c.log();
    let w = set_gain(i2c, Gain::X128);
    let ghost l2 = i2c.log();
    proof { lemma_extends_trans(l0, l1, l2); }
    w?;
    let w = set_ldo(i2c, LdoVoltage::V3_3);
    let ghost l3 = i2c.log();
    proof { lemma_extends_trans(l0, l2, l3); }
    w?;
    let w = set_bits(i2c, REG_CTRL1, CTRL1_LDO_ENABLE);
    let ghost l4 = i2c.log();
    proof { lemma_extends_trans(l0, l3, l4); }
    w?;
    let w = set_bits(i2c, REG_PU_CTRL, PU_CTRL_CS);
    let ghost l5 = i2c.log();
    proof { lemma_extends_trans(l0, l4, l5); }
    w?;
    proof {
        let a = added(l0, l5);
        assert(a.subrange(0, 2) =~= added(l0, l1));
        assert(a.subrange(2, 4) =~= added(l1, l2));
        assert(a.subrange(4, 6) =~= added(l2, l3));
        assert(a.subrange(6, 8) =~= added(l3, l4));
        assert(a.subrange(8, 10) =~= added(l4, l5));
    }
    Ok(())
}

/// Brings the chip up: checks that it answers, resets it, powers both domains
/// up, waits for the power-ready bit, configures rate, gain and regulator, and
/// starts the conversion cycle. Gives `Timeout` after `POWER_UP_RETRIES`
/// polls without the power-ready bit, and `I2cError` as soon as a transaction
/// fails; nothing is sent after either.
pub fn init<B: I2cBus, D: DelayMs>(i2c: &mut TracedBus<B>, delay: &mut D, state: &mut Nau7802State) -> (r:
    Result<(), Nau7802Error>)
    ensures
        extends(old(i2c).log(), final(i2c).log()),
        r is Ok ==> *final(state) == (Nau7802State { initialized: true, ..*old(state) })
            && init_log_ok(added(old(i2c).log(), final(i2c).log())),
        r is Err ==> *final(state) == *old(state),
        r == Err::<(), Nau7802Error>(Nau7802Error::I2cError) ==> ended_in_failure(
            old(i2c).log(),
            final(i2c).log(),
        ),
        r == Err::<(), Nau7802Error>(Nau7802Error::Timeout) ==> ({
            let a = added(old(i2c).log(), final(i2c).log());
            &&& a.len() == 4 + POWER_UP_RETRIES
            &&& power_on_log_ok(a.subrange(0, 4))
            &&& power_wait_timed_out(a)
        }),
        r == Err::<(), Nau7802Error>(Nau7802Error::I2cError) || r == Err::<(), Nau7802Error>(
            Nau7802Error::Timeout,
        ) || r is Ok,
{
    let ghost l0 = i2c.log();
    power_on(i2c, delay)?;
    let ghost l1 = i2c.log();
    let w = wait_power_ready(i2c, delay);
    let ghost l2 = i2c.log();
    proof {
        lemma_extends_trans(l0, l1, l2);
        lemma_power_on_clean(added(l0, l1));
        if w == Err::<(), Nau7802Error>(Nau7802Error::I2cError) {
            lemma_clean_then_fail(added(l0, l1), added(l1, l2));
        }
        if w == Err::<(), Nau7802Error>(Nau7802Error::Timeout) {
            let a = added(l0, l2);
            let q = added(l1, l2);
            assert(a.subrange(0, 4) =~= added(l0, l1));
            assert forall|i: int| a.len() - POWER_UP_RETRIES <= i < a.len() implies #[trigger] power_poll_pending(a[i]) by {
                assert(a[i] == q[i - 4]);
            }
        }
    }
    w?;
    let w = configure(i2c);
    let ghost l3 = i2c.log();
    proof {
        lemma_extends_trans(l0, l2, l3);
        lemma_power_wait_clean(added(l1, l2));
        lemma_clean_concat(added(l0, l1), added(l1, l2));
        if w is Err {
            lemma_clean_then_fail(added(l0, l2), added(l2, l3));
        }
    }
    w?;
    proof {
        let a = added(l0, l3);
        let n = a.len() as int;
        assert(a.subrange(0, 4) =~= added(l0, l1));
        assert(a.subrange(4, n - 10) =~= added(l1, l2));
        assert(a.subrange(n - 10, n) =~= added(l2, l3));
    }
    state.initialized = true;
    Ok(())
}

/// Whether `after` is `before` with only the last raw sample replaced.
pub open spec fn only_raw_changed(before: Nau7802State, after: Nau7802State) -> bool {
    &&& after == (Nau7802State { last_raw: after.last_raw, ..before })
    &&& raw_in_range(after.last_raw as int)
}

/// The transactions of one sample read: the three output registers, most
/// significant first, stopping at the first failure.
pub open spec fn raw_log(a: Seq<Txn>) -> bool {
    &&& 1 <= a.len() <= 3
    &&& is_reg_read(a[0], REG_ADCO_B2)
    &&& a.len() >= 2 ==> is_reg_read(a[1], REG_ADCO_B1) && read_byte(a[0]) is Some
    &&& a.len() == 3 ==> is_reg_read(a[2], REG_ADCO_B0) && read_byte(a[1]) is Some
    &&& a.len() < 3 ==> read_byte(a.last()) is None
}

/// Whether a sample read got all three bytes.
pub open spec fn raw_log_ok(a: Seq<Txn>) -> bool {
    &&& a.len() == 3
    &&& read_done(a[0], REG_ADCO_B2)
    &&& read_done(a[1], REG_ADCO_B1)
    &&& read_done(a[2], REG_ADCO_B0)
}

/// The sample that a complete sample read returned.
pub open spec fn raw_log_sample(a: Seq<Txn>) -> i32 {
    sample_of_bytes(read_byte(a[0])->0, read_byte(a[1])->0, read_byte(a[2])->0) as i32
}

/// Reads the current sample from the three output registers and records it as
/// the last raw value.
pub fn read_raw<B: I2cBus>(i2c: &mut TracedBus<B>, state: &mut Nau7802State) -> (r: Result<i32, Nau7802Error>)
    ensures
        extends(old(i2c).log(), final(i2c).log()),
        raw_log(added(old(i2c).log(), final(i2c).log())),
        r is Ok <==> raw_log_ok(added(old(i2c).log(), final(i2c).log())),
        r is Ok ==> r->Ok_0 == raw_log_sample(added(old(i2c).log(), final(i2c).log()))
            && raw_in_range(r->Ok_0 as int) && *final(state) == (Nau7802State {
            last_raw: r->Ok_0,
            ..*old(state)
        }),
        r is Err ==> r == Err::<i32, Nau7802Error>(Nau7802Error::I2cError) && *final(state)
            == *old(state) && ended_in_failure(old(i2c).log(), final(i2c).log()),
{
    let ghost l0 = i2c.log();
    let b2 = read_reg(i2c, REG_ADCO_B2);
    let ghost l1 = i2c.log();
    let b2 = match b2 {
        Ok(v) => v,
        Err(e) => {
            assert(added(l0, i2c.log()) =~= seq![l1.last()]);
            assert(i2c.log().subrange(0, l0.len() as int) =~= l0);
            return Err(e);
        },
    };
    let b1 = read_reg(i2c, REG_ADCO_B1);
    let ghost l2 = i2c.log();
    let b1 = match b1 {
        Ok(v) => v,
        Err(e) => {
            assert(added(l0, i2c.log()) =~= seq![l1.last(), l2.last()]);
            assert(i2c.log().subrange(0, l0.len() as int) =~= l0);
            return Err(e);
        },
    };
    let b0 = read_reg(i2c, REG_ADCO_B0);
    let ghost l3 = i2c.log();
    assert(added(l0, l3) =~= seq![l1.last(), l2.last(), l3.last()]);
    assert(l3.subrange(0, l0.len() as int) =~= l0);
    let b0 = match b0 {
        Ok(v) => v,
        Err(e) => {
            return Err(e);
        },
    };
    let raw = assemble_sample(b2, b1, b0);
    state.last_raw = raw;
    Ok(raw)
}

/// What one weight read does, on an initialized state `s` going to `t`, with
/// transactions `a` and result `r`: the ready bit is read; without a
/// conversion the state is kept and its weight returned; with one, a sample is
/// read and fed through the filter. A failed transaction leaves the state as
/// it was and gives a bus error.
pub open spec fn weight_read(
    s: Nau7802State,
    t: Nau7802State,
    a: Seq<Txn>,
    r: Result<i64, Nau7802Error>,
) -> bool {
    &&& a.len() >= 1
    &&& is_reg_read(a[0], REG_PU_CTRL)
    &&& match read_byte(a[0]) {
        None => a.len() == 1 && t == s && r == Err::<i64, Nau7802Error>(Nau7802Error::I2cError),
        Some(status) => if status & PU_CTRL_CR == 0 {
            a.len() == 1 && t == s && r == Ok::<i64, Nau7802Error>(s.weight_mg)
        } else {
            let b = a.subrange(1, a.len() as int);
            &&& raw_log(b)
            &&& if raw_log_ok(b) {
                t == s.after_sample(raw_log_sample(b)) && r == Ok::<i64, Nau7802Error>(
                    t.weight_mg,
                )
            } else {
                t == s && r == Err::<i64, Nau7802Error>(Nau7802Error::I2cError)
            }
        },
    }
}

/// Takes one sample if a conversion is ready and feeds it through the filter;
/// returns the filtered weight in milligrams. Without a ready conversion the
/// state is left as it is and the last filtered weight is returned. Before
/// the chip is brought up the bus is not touched.
pub fn read_weight<B: I2cBus>(i2c: &mut TracedBus<B>, state: &mut Nau7802State) -> (r: Result<
    i64,
    Nau7802Error,
>)
    requires
        old(state).wf(),
    ensures
        final(state).wf(),
        !old(state).initialized ==> r == Err::<i64, Nau7802Error>(Nau7802Error::NotInitialized)
            && *final(state) == *old(state) && *final(i2c) == *old(i2c),
        old(state).initialized ==> extends(old(i2c).log(), final(i2c).log()) && weight_read(
            *old(state),
            *final(state),
            added(old(i2c).log(), final(i2c).log()),
            r,
        ),
        r is Err ==> *final(state) == *old(state),
        r is Ok ==> r->Ok_0 == final(state).weight_mg,
{
    if !state.initialized {
        return Err(Nau7802Error::NotInitialized);
    }
    let ghost l0 = i2c.log();
    let ready = data_ready(i2c);
    let ghost l1 = i2c.log();
    proof {
        assert(added(l0, l1) =~= seq![l1.last()]);
        assert(l1.subrange(0, l0.len() as int) =~= l0);
    }
    let ready = match ready {
        Ok(b) => b,
        Err(e) => { return Err(e); },
    };
    if !ready {
        return Ok(state.weight_mg);
    }
    let ghost before = *state;
    let raw = read_raw(i2c, state);
    let ghost l2 = i2c.log();
    proof {
        let a = added(l0, l2);
        assert(a.subrange(1, a.len() as int) =~= added(l1, l2));
        assert(a[0] == l1.last());
        assert(l2.subrange(0, l0.len() as int) =~= l0);
    }
    let raw = match raw {
        Ok(v) => v,
        Err(e) => { return Err(e); },
    };
    proof {
        assert(before.after_sample(raw) == state.after_sample(raw));
    }
    state.apply_sample(raw);
    Ok(state.weight_mg)
}

/// The samples of the complete sample reads in a history, oldest first.
pub open spec fn samples_in(a: Seq<Txn>) -> Seq<i32>
    decreases a.len(),
{
    if a.len() < 3 {
        seq![]
    } else if raw_log_ok(a.subrange(a.len() - 3, a.len() as int)) {
        samples_in(a.subrange(0, a.len() - 3)).push(
            raw_log_sample(a.subrange(a.len() - 3, a.len() as int)),
        )
    } else {
        samples_in(a.drop_last())
    }
}

/// A successful read of the power-up control register that found no
/// finished conversion.
pub open spec fn ready_poll_pending(t: Txn) -> bool {
    read_done(t, REG_PU_CTRL) && read_byte(t)->0 & PU_CTRL_CR == 0
}

/// Whether the history ends with `DATA_READY_RETRIES` pending ready polls.
pub open spec fn ready_wait_timed_out(a: Seq<Txn>) -> bool {
    &&& a.len() >= DATA_READY_RETRIES
    &&& forall|i: int|
        a.len() - DATA_READY_RETRIES <= i < a.len() ==> #[trigger] ready_poll_pending(a[i])
}

proof fn lemma_poll_adds_no_sample(a: Seq<Txn>, p: Txn)
    requires
        is_reg_read(p, REG_PU_CTRL),
    ensures
        samples_in(a.push(p)) == samples_in(a),
{
    let b = a.push(p);
    assert(b.drop_last() =~= a);
    if b.len() >= 3 {
        let t = b.subrange(b.len() - 3, b.len() as int);
        assert(t[2] == p);
        assert(seq![REG_PU_CTRL][0] != seq![REG_ADCO_B0][0]);
        assert(!raw_log_ok(t));
    } else {
        assert(a.len() < 3);
    }
}

proof fn lemma_sample_read_adds_sample(a: Seq<Txn>, t: Seq<Txn>)
    requires
        raw_log_ok(t),
    ensures
        samples_in(a + t) == samples_in(a).push(raw_log_sample(t)),
{
    let b = a + t;
    assert(b.subrange(b.len() - 3, b.len() as int) =~= t);
    assert(b.subrange(0, b.len() - 3) =~= a);
}

/// Waits (a bounded number of polls) for each conversion and collects a burst
/// of `BURST_LEN` samples: the samples of the sample reads it issues.
fn read_burst<B: I2cBus, D: DelayMs>(i2c: &mut TracedBus<B>, delay: &mut D, state: &mut Nau7802State) -> (r:
    Result<Vec<i32>, Nau7802Error>)
    requires
        old(state).wf(),
    ensures
        final(state).wf(),
        extends(old(i2c).log(), final(i2c).log()),
        r is Ok ==> r->Ok_0@ == samples_in(added(old(i2c).log(), final(i2c).log())) && burst_ok(
            r->Ok_0@,
        ) && *final(state) == (Nau7802State { last_raw: r->Ok_0@.last(), ..*old(state) }),
        r is Err ==> only_raw_changed(*old(state), *final(state)),
        r == Err::<Vec<i32>, Nau7802Error>(Nau7802Error::I2cError) ==> ended_in_failure(
            old(i2c).log(),
            final(i2c).log(),
        ),
        r == Err::<Vec<i32>, Nau7802Error>(Nau7802Error::Timeout) ==> ready_wait_timed_out(
            added(old(i2c).log(), final(i2c).log()),
        ) && samples_in(added(old(i2c).log(), final(i2c).log())).len() < BURST_LEN,
        r is Ok || r == Err::<Vec<i32>, Nau7802Error>(Nau7802Error::Timeout) ==> clean(
            added(old(i2c).log(), final(i2c).log()),
        ),
        r == Err::<Vec<i32>, Nau7802Error>(Nau7802Error::I2cError) || r == Err::<
            Vec<i32>,
            Nau7802Error,
        >(Nau7802Error::Timeout) || r is Ok,
{
    let mut readings: Vec<i32> = Vec::new();
    let ghost before = *state;
    let ghost l0 = i2c.log();
    proof { lemma_extends_refl(l0); }
    while readings.len() < BURST_LEN
        invariant
            readings@.len() <= BURST_LEN,
            forall|i: int|
                0 <= i < readings@.len() ==> raw_in_range(#[trigger] readings@[i] as int),
            only_raw_changed(before, *state),
            before.wf(),
            before == *old(state),
            readings@.len() > 0 ==> state.last_raw == readings@.last(),
            readings@.len() == 0 ==> *state == before,
            l0 == old(i2c).log(),
            extends(l0, i2c.log()),
            readings@ == samples_in(added(l0, i2c.log())),
            clean(added(l0, i2c.log())),
        decreases BURST_LEN - readings@.len(),
    {
        let mut tries: u32 = DATA_READY_RETRIES;
        let ghost lw = i2c.log();
        proof { lemma_extends_refl(lw); }
        loop
            invariant_except_break
                added(lw, i2c.log()).len() == DATA_READY_RETRIES - tries,
                forall|i: int|
                    0 <= i < added(lw, i2c.log()).len() ==> #[trigger] ready_poll_pending(
                        added(lw, i2c.log())[i],
                    ),
            invariant
                0 < tries <= DATA_READY_RETRIES,
                only_raw_changed(before, *state),
                before.wf(),
                before == *old(state),
                readings@.len() < BURST_LEN,
                forall|i: int|
                    0 <= i < readings@.len() ==> raw_in_range(#[trigger] readings@[i] as int),
                readings@.len() > 0 ==> state.last_raw == readings@.last(),
                readings@.len() == 0 ==> *state == before,
                l0 == old(i2c).log(),
                extends(l0, lw),
                extends(lw, i2c.log()),
                readings@ == samples_in(added(l0, i2c.log())),
                clean(added(l0, i2c.log())),
            ensures
                extends(l0, i2c.log()),
                readings@ == samples_in(added(l0, i2c.log())),
                clean(added(l0, i2c.log())),
            decreases tries,
        {
            let ghost lp = i2c.log();
            proof { lemma_extends_trans(l0, lw, lp); }
            let ready = data_ready(i2c);
            proof {
                lemma_extends_push(l0, lp, i2c.log().last());
                lemma_extends_push(lw, lp, i2c.log().last());
                lemma_poll_adds_no_sample(added(l0, lp), i2c.log().last());
            }
            proof {
                assert(added(l0, i2c.log()).drop_last() =~= added(l0, lp));
            }
            let ready = match ready {
                Ok(b) => b,
                Err(e) => { return Err(e); },
            };
            proof {
                let a = added(l0, i2c.log());
                assert forall|i: int| 0 <= i < a.len() implies !#[trigger] txn_failed(a[i]) by {
                    if i < a.len() - 1 {
                        assert(a[i] == added(l0, lp)[i]);
                    }
                }
            }
            if ready {
                break ;
            }
            tries = tries - 1;
            proof {
                let p = added(lw, i2c.log());
                assert forall|i: int| 0 <= i < p.len() implies #[trigger] ready_poll_pending(p[i]) by {
                    if i < p.len() - 1 {
                        assert(p[i] == added(lw, lp)[i]);
                    }
                }
            }
            if tries == 0 {
                proof {
                    let a = added(l0, i2c.log());
                    let q = added(lw, i2c.log());
                    lemma_extends_trans(l0, lw, i2c.log());
                    assert forall|i: int| a.len() - DATA_READY_RETRIES <= i < a.len() implies #[trigger] ready_poll_pending(a[i]) by {
                        assert(a[i] == q[i - (a.len() - q.len())]);
                    }
                }
                return Err(Nau7802Error::Timeout);
            }
            delay.delay_ms(10);
        }
        let ghost lr = i2c.log();
        let raw = read_raw(i2c, state);
        proof {
            lemma_extends_trans(l0, lr, i2c.log());
        }
        let raw = match raw {
            Ok(v) => v,
            Err(e) => {
                proof { lemma_clean_then_fail(added(l0, lr), added(lr, i2c.log())); }
                return Err(e);
            },
        };
        proof {
            lemma_sample_read_adds_sample(added(l0, lr), added(lr, i2c.log()));
            let t = added(lr, i2c.log());
            assert forall|i: int| 0 <= i < t.len() implies !#[trigger] txn_failed(t[i]) by {
                assert(i == 0 || i == 1 || i == 2);
            }
            lemma_clean_concat(added(l0, lr), t);
        }
        readings.push(raw);
    }
    Ok(readings)
}

/// What a tare from state `s` to `t` with transactions `a` and result `r`
/// amounts to: on success the burst is the samples read, the offset their
/// trimmed mean; a bus error comes exactly at the first failed transaction,
/// which ends the history; a timeout ends on `DATA_READY_RETRIES` pending
/// ready polls before the burst is complete, with no failed transaction; on
/// failure only the last raw sample may have changed.
pub open spec fn tare_done(s: Nau7802State, t: Nau7802State, a: Seq<Txn>, r: Result<(), Nau7802Error>) -> bool {
    &&& r is Ok ==> ({
        let burst = samples_in(a);
        burst_ok(burst) && t == (Nau7802State { last_raw: burst.last(), ..s }).after_tare(burst)
    })
    &&& r is Err ==> only_raw_changed(s, t)
    &&& r == Err::<(), Nau7802Error>(Nau7802Error::I2cError) ==> fails_last(a)
    &&& r == Err::<(), Nau7802Error>(Nau7802Error::Timeout) ==> ready_wait_timed_out(a)
        && samples_in(a).len() < BURST_LEN
    &&& r is Ok || r == Err::<(), Nau7802Error>(Nau7802Error::Timeout) ==> clean(a)
    &&& r == Err::<(), Nau7802Error>(Nau7802Error::I2cError) || r == Err::<(), Nau7802Error>(
        Nau7802Error::Timeout,
    ) || r is Ok
}

/// What a calibration against `known_mg` from state `s` to `t` with
/// transactions `a` and result `r` amounts to: the burst is the samples read;
/// success exactly when the factor they give is accepted, and then it is
/// committed; a bus error comes exactly at the first failed transaction,
/// which ends the history, and no other outcome follows a failed
/// transaction; a timeout ends on `DATA_READY_RETRIES` pending ready polls
/// before the burst is complete; on failure only the last raw sample may have
/// changed.
pub open spec fn calibrate_done(
    s: Nau7802State,
    t: Nau7802State,
    a: Seq<Txn>,
    known_mg: int,
    r: Result<(), Nau7802Error>,
) -> bool {
    let burst = samples_in(a);
    &&& r is Ok ==> burst_ok(burst) && calibration_accepted(s.calibration_delta(burst), known_mg)
        && t == (Nau7802State { last_raw: burst.last(), ..s }).after_calibration(burst, known_mg)
    &&& r == Err::<(), Nau7802Error>(Nau7802Error::CalibrationFailed) ==> burst_ok(burst)
        && !calibration_accepted(s.calibration_delta(burst), known_mg) && t.last_raw == burst.last()
    &&& r is Err ==> only_raw_changed(s, t)
    &&& r == Err::<(), Nau7802Error>(Nau7802Error::I2cError) ==> fails_last(a)
    &&& r == Err::<(), Nau7802Error>(Nau7802Error::Timeout) ==> ready_wait_timed_out(a)
        && samples_in(a).len() < BURST_LEN
    &&& r != Err::<(), Nau7802Error>(Nau7802Error::I2cError) ==> clean(a)
    &&& r != Err::<(), Nau7802Error>(Nau7802Error::NotInitialized)
}

/// Tares the scale: after a settling pause, sets the zero offset to the
/// trimmed mean of the burst it reads and restarts the filter from zero.
pub fn tare<B: I2cBus, D: DelayMs>(i2c: &mut TracedBus<B>, delay: &mut D, state: &mut Nau7802State) -> (r:
    Result<(), Nau7802Error>)
    requires
        old(state).wf(),
    ensures
        final(state).wf(),
        extends(old(i2c).log(), final(i2c).log()),
        tare_done(*old(state), *final(state), added(old(i2c).log(), final(i2c).log()), r),
{
    delay.delay_ms(1000);
    let readings = read_burst(i2c, delay, state)?;
    state.apply_tare(&readings);
    Ok(())
}

/// Calibrates against `known_mg` milligrams placed on the scale: after a
/// settling pause, measures the trimmed mean of the burst it reads and
/// commits the factor `(mean - zero_offset) / known` if it is plausible; the
/// zero offset is kept.
pub fn calibrate<B: I2cBus, D: DelayMs>(
    i2c: &mut TracedBus<B>,
    delay: &mut D,
    state: &mut Nau7802State,
    known_mg: i64,
) -> (r: Result<(), Nau7802Error>)
    requires
        old(state).wf(),
    ensures
        final(state).wf(),
        extends(old(i2c).log(), final(i2c).log()),
        calibrate_done(
            *old(state),
            *final(state),
            added(old(i2c).log(), final(i2c).log()),
            known_mg as int,
            r,
        ),
{
    delay.delay_ms(1000);
    let readings = read_burst(i2c, delay, state)?;
    let ghost sampled = *state;
    let res = state.apply_calibration(&readings, known_mg);
    proof {
        assert(sampled.calibration_delta(readings@) == old(state).calibration_delta(readings@));
    }
    res
}

} // verus!
