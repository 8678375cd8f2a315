use spoolbuddy::arith::{floor_div, sign_extend_24};
use spoolbuddy::bus::{BusError, DelayMs, I2cBus, SharedBus, TracedBus};
use spoolbuddy::nau7802::{
    self, assemble_sample, ctrl1_with_gain, ctrl1_with_ldo, ctrl2_with_rate, Gain, LdoVoltage,
    Nau7802Error, SampleRate,
};
use spoolbuddy::scale_manager::ScaleManager;
use spoolbuddy::scale_state::{trimmed_mean_of, Calibration, Nau7802State};

/// A simulated weighing ADC: conversions always ready, samples taken in turn
/// from a list (the last one repeats).
struct FakeAdc {
    samples: Vec<i32>,
    next: usize,
    current: i32,
    transactions: usize,
    fail: bool,
    power_ready: bool,
    writes: Vec<Vec<u8>>,
    regs: [u8; 32],
}

impl FakeAdc {
    fn new(samples: Vec<i32>) -> FakeAdc {
        FakeAdc {
            samples,
            next: 0,
            current: 0,
            transactions: 0,
            fail: false,
            power_ready: true,
            writes: Vec::new(),
            regs: [0; 32],
        }
    }
}

impl I2cBus for FakeAdc {
    fn write(&mut self, _addr: u8, bytes: &[u8]) -> Result<(), BusError> {
        self.transactions += 1;
        if self.fail {
            Err(BusError)
        } else {
            self.writes.push(bytes.to_vec());
            if bytes.len() == 2 && bytes[0] != 0 {
                self.regs[bytes[0] as usize & 31] = bytes[1];
            }
            Ok(())
        }
    }

    fn read(&mut self, _addr: u8, len: usize) -> Result<Vec<u8>, BusError> {
        self.transactions += 1;
        Ok(vec![0; len])
    }

    fn write_read(&mut self, _addr: u8, wr: &[u8], len: usize) -> Result<Vec<u8>, BusError> {
        self.transactions += 1;
        if self.fail {
            return Err(BusError);
        }
        let v = (self.current as u32) & 0x00FF_FFFF;
        let byte = match wr[0] {
            0x00 => {
                if self.power_ready {
                    0x28
                } else {
                    0x20
                }
            }
            0x12 => {
                let i = if self.next < self.samples.len() { self.next } else { self.samples.len() - 1 };
                self.current = self.samples[i];
                self.next += 1;
                ((self.current as u32 & 0x00FF_FFFF) >> 16) as u8
            }
            0x13 => (v >> 8) as u8,
            0x14 => v as u8,
            r => self.regs[r as usize & 31],
        };
        Ok(vec![byte; len])
    }
}

struct NoDelay;

impl DelayMs for NoDelay {
    fn delay_ms(&mut self, _ms: u32) {}
}

fn ready_state() -> Nau7802State {
    let mut s = Nau7802State::new();
    s.initialized = true;
    s
}

#[test]
fn sign_extension_of_extremes() {
    assert_eq!(assemble_sample(0x80, 0x00, 0x00), -8388608);
    assert_eq!(assemble_sample(0x7F, 0xFF, 0xFF), 8388607);
    assert_eq!(assemble_sample(0xFF, 0xFF, 0xFF), -1);
    assert_eq!(assemble_sample(0x00, 0x01, 0x02), 258);
    assert_eq!(sign_extend_24(0x80_0000), -8388608);
    assert_eq!(sign_extend_24(0xFF80_0001), -8388607);
}

#[test]
fn sign_extension_of_every_negative_top_byte() {
    for b2 in 0x80u8..=0xFF {
        let r = assemble_sample(b2, 0x12, 0x34);
        let expected = ((b2 as i32) << 16 | 0x1234) - 0x100_0000;
        assert_eq!(r, expected);
        assert!(r < 0);
    }
}

#[test]
fn floor_division_rounds_down() {
    assert_eq!(floor_div(-1, 10), -1);
    assert_eq!(floor_div(-10, 10), -1);
    assert_eq!(floor_div(-11, 10), -2);
    assert_eq!(floor_div(19, 10), 1);
}

#[test]
fn register_fields_keep_other_bits() {
    assert_eq!(ctrl2_with_rate(0xFF, SampleRate::Sps10), 0x8F);
    assert_eq!(ctrl2_with_rate(0x00, SampleRate::Sps320), 0x70);
    assert_eq!(ctrl1_with_gain(0x00, Gain::X128), 0x07);
    assert_eq!(ctrl1_with_gain(0xFF, Gain::X1), 0xF8);
    assert_eq!(ctrl1_with_ldo(0xFF, LdoVoltage::V3_3), 0xE7);
    assert_eq!(ctrl1_with_ldo(0x00, LdoVoltage::V2_4), 0x38);
}

#[test]
fn default_state() {
    let s = Nau7802State::new();
    assert_eq!(s.calibration, Calibration { zero_offset: 0, cal_factor_milli: 1_000_000 });
    assert!(!s.initialized);
    assert_eq!(s.filter_alpha_permille, 250);
    assert_eq!(s.weight_mg, 0);
}

#[test]
fn small_step_follows_slow_path() {
    // 1000 raw units per gram: 5000 raw is a 5 g step.
    let mut s = ready_state();
    s.apply_sample(5000);
    assert_eq!(s.weight_mg, 1250);
    assert_eq!(s.last_raw, 5000);
    assert_eq!(s.stable_count, 1);
}

#[test]
fn large_step_settles_fast() {
    let mut s = ready_state();
    s.apply_sample(100_000);
    assert_eq!(s.weight_mg, 70_000);
    // The remaining 30 g are below the fast-settle step.
    s.apply_sample(100_000);
    assert_eq!(s.weight_mg, 77_500);
    assert_eq!(s.stable_count, 1);
}

#[test]
fn stability_needs_ten_quiet_updates() {
    let mut s = ready_state();
    for i in 1..=9 {
        s.apply_sample(0);
        assert_eq!(s.stable_count, i);
        assert!(!s.stable);
    }
    s.apply_sample(0);
    assert!(s.stable);
    s.apply_sample(0);
    assert!(s.stable);
    // A 20 g step moves the filtered weight by 5 g: still quiet.
    s.apply_sample(20_000);
    assert!(s.stable);
    // A 1 kg step moves it by 700 g: stability is revoked at once.
    s.apply_sample(1_000_000);
    assert!(!s.stable);
    assert_eq!(s.stable_count, 0);
}

#[test]
fn stable_counter_saturates() {
    let mut s = ready_state();
    for _ in 0..300 {
        s.apply_sample(0);
    }
    assert_eq!(s.stable_count, 255);
    assert!(s.stable);
}

#[test]
fn trimmed_mean_drops_extremes() {
    let burst: Vec<i32> = (0..30).collect();
    assert_eq!(trimmed_mean_of(&burst), 14);
    let mut with_outliers = vec![1000; 30];
    for i in 0..5 {
        with_outliers[i] = -8_000_000;
        with_outliers[29 - i] = 8_000_000;
    }
    assert_eq!(trimmed_mean_of(&with_outliers), 1000);
}

#[test]
fn trimmed_mean_rounds_toward_zero() {
    let mut burst = vec![-15; 30];
    for i in 0..10 {
        burst[i] = -16;
    }
    // Sorted, the kept middle is five -16 then fifteen -15: mean -15.25.
    assert_eq!(trimmed_mean_of(&burst), -15);
}

#[test]
fn init_brings_the_chip_up() {
    let mut adc = TracedBus::new(FakeAdc::new(vec![0]));
    let mut s = Nau7802State::new();
    assert_eq!(nau7802::init(&mut adc, &mut NoDelay, &mut s), Ok(()));
    assert!(s.initialized);
}

#[test]
fn init_writes_the_configuration() {
    let mut fake = FakeAdc::new(vec![0]);
    fake.regs[0x02] = 0xFF;
    fake.regs[0x01] = 0x40;
    let mut adc = TracedBus::new(fake);
    let mut s = Nau7802State::new();
    assert_eq!(nau7802::init(&mut adc, &mut NoDelay, &mut s), Ok(()));
    let w = &adc.dev().writes;
    assert_eq!(w[0], vec![0x00, 0x01]);
    assert_eq!(w[1], vec![0x00, 0x00]);
    assert_eq!(w[2], vec![0x00, 0x06]);
    // 10 SPS keeps the other bits of CTRL2.
    assert_eq!(w[3], vec![0x02, 0x8F]);
    // Gain 128, then 3.3 V, then the regulator enable, on CTRL1.
    assert_eq!(w[4], vec![0x01, 0x47]);
    assert_eq!(w[5], vec![0x01, 0x67]);
    assert_eq!(w[6], vec![0x01, 0xE7]);
    // Cycle start on PU_CTRL, which reads back 0x28.
    assert_eq!(w[7], vec![0x00, 0x38]);
    assert_eq!(w.len(), 8);
}

#[test]
fn data_ready_reports_cycle_bit() {
    let mut adc = TracedBus::new(FakeAdc::new(vec![0]));
    assert_eq!(nau7802::data_ready(&mut adc), Ok(true));
    let mut fake = FakeAdc::new(vec![0]);
    fake.fail = true;
    let mut broken = TracedBus::new(fake);
    assert_eq!(nau7802::data_ready(&mut broken), Err(Nau7802Error::I2cError));
}

#[test]
fn set_gain_writes_read_back_value() {
    let mut fake = FakeAdc::new(vec![0]);
    fake.regs[0x01] = 0xAA;
    let mut adc = TracedBus::new(fake);
    assert_eq!(nau7802::set_gain(&mut adc, Gain::X4), Ok(()));
    assert_eq!(adc.dev().writes, vec![vec![0x01, 0xAA]]);
}

#[test]
fn init_times_out_without_power_ready() {
    let mut fake = FakeAdc::new(vec![0]);
    fake.power_ready = false;
    let mut adc = TracedBus::new(fake);
    let mut s = Nau7802State::new();
    assert_eq!(nau7802::init(&mut adc, &mut NoDelay, &mut s), Err(Nau7802Error::Timeout));
    assert!(!s.initialized);
}

#[test]
fn init_reports_bus_failure() {
    let mut fake = FakeAdc::new(vec![0]);
    fake.fail = true;
    let mut adc = TracedBus::new(fake);
    let mut s = Nau7802State::new();
    assert_eq!(nau7802::init(&mut adc, &mut NoDelay, &mut s), Err(Nau7802Error::I2cError));
}

#[test]
fn read_raw_records_the_sample() {
    let mut adc = TracedBus::new(FakeAdc::new(vec![-123_456]));
    let mut s = ready_state();
    assert_eq!(nau7802::read_raw(&mut adc, &mut s), Ok(-123_456));
    assert_eq!(s.last_raw, -123_456);
}

#[test]
fn read_weight_before_init_is_refused() {
    let mut adc = TracedBus::new(FakeAdc::new(vec![5000]));
    let mut s = Nau7802State::new();
    let before = s;
    assert_eq!(nau7802::read_weight(&mut adc, &mut s), Err(Nau7802Error::NotInitialized));
    assert_eq!(s, before);
    assert_eq!(adc.dev().transactions, 0);
}

#[test]
fn tare_then_same_burst_reads_zero() {
    let burst: Vec<i32> = (0..30).map(|i| 200_000 + (i % 7) * 13 - 40).collect();
    let mut adc = TracedBus::new(FakeAdc::new(burst.clone()));
    let mut s = ready_state();
    s.weight_mg = 123_000;
    assert_eq!(nau7802::tare(&mut adc, &mut NoDelay, &mut s), Ok(()));
    let mean = trimmed_mean_of(&burst);
    assert_eq!(s.calibration.zero_offset, mean);
    assert_eq!(s.weight_mg, 0);
    assert!(!s.stable);
    assert_eq!(s.stable_count, 0);
    s.apply_sample(mean);
    assert_eq!(s.weight_mg, 0);
}

#[test]
fn calibrate_recovers_known_factor() {
    // 400 raw units per gram, 500 g reference: delta 200000.
    let mut adc = TracedBus::new(FakeAdc::new(vec![1000 + 200_000]));
    let mut s = ready_state();
    s.calibration.zero_offset = 1000;
    assert_eq!(nau7802::calibrate(&mut adc, &mut NoDelay, &mut s, 500_000), Ok(()));
    assert_eq!(s.calibration.cal_factor_milli, 400_000);
    assert_eq!(s.calibration.zero_offset, 1000);
    assert_eq!(s.weight_mg, 500_000);
}

#[test]
fn calibrate_rejects_small_delta() {
    let mut adc = TracedBus::new(FakeAdc::new(vec![5000]));
    let mut s = ready_state();
    let before = s.calibration;
    assert_eq!(
        nau7802::calibrate(&mut adc, &mut NoDelay, &mut s, 500_000),
        Err(Nau7802Error::CalibrationFailed)
    );
    assert_eq!(s.calibration, before);
}

#[test]
fn calibrate_rejects_factor_above_ceiling() {
    // 3000 raw units per gram over 500 g.
    let mut adc = TracedBus::new(FakeAdc::new(vec![1_500_000]));
    let mut s = ready_state();
    assert_eq!(
        nau7802::calibrate(&mut adc, &mut NoDelay, &mut s, 500_000),
        Err(Nau7802Error::CalibrationFailed)
    );
    assert_eq!(s.calibration.cal_factor_milli, 1_000_000);
}

#[test]
fn calibrate_rejects_factor_below_floor() {
    // 5 raw units per gram over 5 kg.
    let mut adc = TracedBus::new(FakeAdc::new(vec![25_000]));
    let mut s = ready_state();
    assert_eq!(
        nau7802::calibrate(&mut adc, &mut NoDelay, &mut s, 5_000_000),
        Err(Nau7802Error::CalibrationFailed)
    );
}

#[test]
fn calibrate_rejects_non_positive_reference() {
    let mut adc = TracedBus::new(FakeAdc::new(vec![200_000]));
    let mut s = ready_state();
    assert_eq!(
        nau7802::calibrate(&mut adc, &mut NoDelay, &mut s, 0),
        Err(Nau7802Error::CalibrationFailed)
    );
}

#[test]
fn calibration_bounds_are_inclusive() {
    let mut s = ready_state();
    let burst = vec![2_000_000; 30];
    assert_eq!(s.apply_calibration(&burst, 1_000_000), Ok(()));
    assert_eq!(s.calibration.cal_factor_milli, 2_000_000);
    let mut t = ready_state();
    let burst = vec![10_000; 30];
    assert_eq!(t.apply_calibration(&burst, 1_000_000), Ok(()));
    assert_eq!(t.calibration.cal_factor_milli, 10_000);
}

#[test]
fn bus_lends_only_when_initialized() {
    let mut bus: SharedBus<FakeAdc> = SharedBus::new();
    assert!(!bus.is_initialized());
    assert!(bus.bus_mut().is_none());
    bus.init_shared_i2c(FakeAdc::new(vec![0]));
    assert!(bus.is_initialized());
    {
        let b = bus.bus_mut().unwrap();
        let _ = b.write(0x2A, &[0, 0]);
    }
    assert_eq!(bus.bus_mut().map(|b| b.dev().transactions), Some(1));
    assert!(bus.is_initialized());
}

#[test]
fn poll_before_init_does_nothing() {
    let mut bus = SharedBus::new();
    bus.init_shared_i2c(FakeAdc::new(vec![5000]));
    let mut m = ScaleManager::new();
    m.poll_scale(&mut bus);
    assert_eq!(m.scale_get_weight(), 0);
    m.init_scale_manager(Nau7802State::new());
    m.poll_scale(&mut bus);
    assert_eq!(m.scale_get_raw(), 0);
    assert!(!m.scale_is_initialized());
    assert_eq!(bus.bus_mut().map(|b| b.dev().transactions), Some(0));
}

#[test]
fn manager_polls_and_reports() {
    let mut bus = SharedBus::new();
    bus.init_shared_i2c(FakeAdc::new(vec![5000]));
    let mut m = ScaleManager::new();
    m.init_scale_manager(ready_state());
    m.poll_scale(&mut bus);
    assert_eq!(m.scale_get_raw(), 5000);
    assert_eq!(m.scale_get_weight(), 1250);
    let st = m.scale_get_status();
    assert!(st.initialized);
    assert_eq!(st.raw_value, 5000);
    assert_eq!(st.cal_factor_milli, 1_000_000);
    assert!(!m.scale_is_stable());
}

#[test]
fn manager_defaults_without_state() {
    let m = ScaleManager::new();
    let st = m.scale_get_status();
    assert!(!st.initialized);
    assert_eq!(st.weight_mg, 0);
    assert_eq!(st.cal_factor_milli, 1000);
    assert_eq!(m.scale_get_cal_factor(), 1000);
    assert_eq!(m.scale_get_tare_offset(), 0);
}

#[test]
fn manager_refuses_tare_before_init() {
    let mut bus = SharedBus::new();
    bus.init_shared_i2c(FakeAdc::new(vec![5000]));
    let mut m = ScaleManager::new();
    assert_eq!(m.scale_tare(&mut bus, &mut NoDelay), Err(Nau7802Error::NotInitialized));
    m.init_scale_manager(Nau7802State::new());
    assert_eq!(
        m.scale_calibrate(&mut bus, &mut NoDelay, 500_000),
        Err(Nau7802Error::NotInitialized)
    );
}

#[test]
fn manager_without_bus_reports_bus_error() {
    let mut bus: SharedBus<FakeAdc> = SharedBus::new();
    let mut m = ScaleManager::new();
    m.init_scale_manager(ready_state());
    assert_eq!(m.scale_tare(&mut bus, &mut NoDelay), Err(Nau7802Error::I2cError));
}

#[test]
fn manager_tare_and_calibrate() {
    let mut bus = SharedBus::new();
    bus.init_shared_i2c(FakeAdc::new(vec![8000]));
    let mut m = ScaleManager::new();
    m.init_scale_manager(ready_state());
    assert_eq!(m.scale_tare(&mut bus, &mut NoDelay), Ok(()));
    assert_eq!(m.scale_get_tare_offset(), 8000);
    assert_eq!(m.scale_get_weight(), 0);
    let mut bus2 = SharedBus::new();
    bus2.init_shared_i2c(FakeAdc::new(vec![8000 + 250_000]));
    assert_eq!(m.scale_calibrate(&mut bus2, &mut NoDelay, 1_000_000), Ok(()));
    assert_eq!(m.scale_get_status().cal_factor_milli, 250_000);
    assert_eq!(m.scale_get_cal_factor(), 250_000);
    assert_eq!(m.scale_get_tare_offset(), 8000);
    assert_eq!(m.scale_get_weight(), 1_000_000);
}

/// A simulated ADC whose conversions never become ready.
struct NeverReady;

impl I2cBus for NeverReady {
    fn write(&mut self, _addr: u8, _bytes: &[u8]) -> Result<(), BusError> {
        Ok(())
    }

    fn read(&mut self, _addr: u8, len: usize) -> Result<Vec<u8>, BusError> {
        Ok(vec![0; len])
    }

    fn write_read(&mut self, _addr: u8, _wr: &[u8], len: usize) -> Result<Vec<u8>, BusError> {
        Ok(vec![0; len])
    }
}

#[test]
fn tare_times_out_without_conversions() {
    let mut adc = TracedBus::new(NeverReady);
    let mut s = ready_state();
    let before = s;
    assert_eq!(nau7802::tare(&mut adc, &mut NoDelay, &mut s), Err(Nau7802Error::Timeout));
    assert_eq!(s, before);
}

#[test]
fn tare_reports_bus_failure() {
    let mut fake = FakeAdc::new(vec![1000]);
    fake.fail = true;
    let mut adc = TracedBus::new(fake);
    let mut s = ready_state();
    let before = s.calibration;
    assert_eq!(nau7802::tare(&mut adc, &mut NoDelay, &mut s), Err(Nau7802Error::I2cError));
    assert_eq!(s.calibration, before);
    assert_eq!(adc.dev().transactions, 1);
}
