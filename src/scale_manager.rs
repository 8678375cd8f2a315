use vstd::prelude::*;

use crate::arith::raw_in_range;
use crate::bus::{added, extends, DelayMs, I2cBus, SharedBus};
use crate::nau7802::{self, calibrate_done, tare_done, weight_read, Nau7802Error};
use crate::scale_state::Nau7802State;

verus! {

/// Calibration factor reported while no state has been handed over: one raw
/// unit per gram, in thousandths.
pub const UNSET_CAL_FACTOR_MILLI: u32 = 1000;

/// A snapshot of the scale for display and reporting.
#[derive(Debug, Clone, Copy, PartialEq, Eq, Structural)]
pub struct ScaleStatus {
    pub initialized: bool,
    /// Filtered weight in milligrams.
    pub weight_mg: i64,
    pub raw_value: i32,
    pub stable: bool,
    pub tare_offset: i32,
    /// Raw units per gram, in thousandths.
    pub cal_factor_milli: u32,
}

/// Owner of the scale state: the single entry point for polling, reading,
/// taring and calibrating.
pub struct ScaleManager {
    state: Option<Nau7802State>,
}

impl View for ScaleManager {
    type V = Option<Nau7802State>;

    closed spec fn view(&self) -> Option<Nau7802State> {
        self.state
    }
}

/// Whether a state may be changed by tare or calibrate.
pub open spec fn ready(s: Option<Nau7802State>) -> bool {
    s is Some && s->0.initialized
}

/// Whether a bus handle was present before and after, with the history
/// extended.
pub open spec fn bus_used<B: I2cBus>(before: SharedBus<B>, after: SharedBus<B>) -> bool {
    &&& before.handle() is Some
    &&& after.handle() is Some
    &&& extends(before.handle()->0.log(), after.handle()->0.log())
}

/// The transactions issued on the bus between `before` and `after`.
pub open spec fn bus_added<B: I2cBus>(before: SharedBus<B>, after: SharedBus<B>) -> Seq<crate::bus::Txn> {
    added(before.handle()->0.log(), after.handle()->0.log())
}

impl ScaleManager {
    pub open spec fn wf(&self) -> bool {
        self@ is Some ==> self@->0.wf()
    }

    pub fn new() -> (r: ScaleManager)
        ensures
            r@ is None,
            r.wf(),
    {
        ScaleManager { state: None }
    }

    /// Hands the manager the state of an ADC that `nau7802::init` brought up
    /// (or not).
    pub fn init_scale_manager(&mut self, state: Nau7802State)
        requires
            state.wf(),
        ensures
            final(self)@ == Some(state),
            final(self).wf(),
    {
        self.state = Some(state);
    }

    /// Periodic update: one sample through the filter when the scale is
    /// initialized and the bus is available; otherwise nothing happens. A bus
    /// error is ignored until the next poll.
    pub fn poll_scale<B: I2cBus>(&mut self, bus: &mut SharedBus<B>)
        requires
            old(self).wf(),
        ensures
            final(self).wf(),
            !ready(old(self)@) || old(bus).handle() is None ==> *final(self) == *old(self)
                && *final(bus) == *old(bus),
            ready(old(self)@) && old(bus).handle() is Some ==> bus_used(*old(bus), *final(bus))
                && final(self)@ is Some && exists|r: Result<i64, Nau7802Error>|
                #[trigger] weight_read(
                    old(self)@->0,
                    final(self)@->0,
                    bus_added(*old(bus), *final(bus)),
                    r,
                ),
            final(bus).handle() is Some <==> old(bus).handle() is Some,
    {
        let ghost mut outcome: Result<i64, Nau7802Error> = Err(Nau7802Error::I2cError);
        match &mut self.state {
            Some(state) => {
                if state.initialized {
                    match bus.bus_mut() {
                        Some(i2c) => {
                            let r = nau7802::read_weight(i2c, state);
                            proof {
                                outcome = r;
                            }
                        },
                        None => {},
                    }
                }
            },
            None => {},
        }
        proof {
            if ready(old(self)@) && old(bus).handle() is Some {
                assert(weight_read(
                    old(self)@->0,
                    self@->0,
                    bus_added(*old(bus), *bus),
                    outcome,
                ));
            }
        }
    }

    /// Snapshot of the whole state; defaults when no state was handed over.
    pub fn scale_get_status(&self) -> (r: ScaleStatus)
        ensures
            self@ is Some ==> r == (ScaleStatus {
                initialized: self@->0.initialized,
                weight_mg: self@->0.weight_mg,
                raw_value: self@->0.last_raw,
                stable: self@->0.stable,
                tare_offset: self@->0.calibration.zero_offset,
                cal_factor_milli: self@->0.calibration.cal_factor_milli,
            }),
            self@ is None ==> r == (ScaleStatus {
                initialized: false,
                weight_mg: 0,
                raw_value: 0,
                stable: false,
                tare_offset: 0,
                cal_factor_milli: UNSET_CAL_FACTOR_MILLI,
            }),
    {
        match &self.state {
            Some(s) => ScaleStatus {
                initialized: s.initialized,
                weight_mg: s.weight_mg,
                raw_value: s.last_raw,
                stable: s.stable,
                tare_offset: s.calibration.zero_offset,
                cal_factor_milli: s.calibration.cal_factor_milli,
            },
            None => ScaleStatus {
                initialized: false,
                weight_mg: 0,
                raw_value: 0,
                stable: false,
                tare_offset: 0,
                cal_factor_milli: UNSET_CAL_FACTOR_MILLI,
            },
        }
    }

    /// Filtered weight in milligrams, or 0 without a state.
    pub fn scale_get_weight(&self) -> (r: i64)
        ensures
            r == (if self@ is Some { self@->0.weight_mg } else { 0 }),
    {
        match &self.state {
            Some(s) => s.weight_mg,
            None => 0,
        }
    }

    /// Last raw sample, or 0 without a state.
    pub fn scale_get_raw(&self) -> (r: i32)
        ensures
            r == (if self@ is Some { self@->0.last_raw } else { 0 }),
    {
        match &self.state {
            Some(s) => s.last_raw,
            None => 0,
        }
    }

    /// Whether the ADC has been brought up.
    pub fn scale_is_initialized(&self) -> (r: bool)
        ensures
            r == (self@ is Some && self@->0.initialized),
    {
        match &self.state {
            Some(s) => s.initialized,
            None => false,
        }
    }

    /// Whether the weight is stable.
    pub fn scale_is_stable(&self) -> (r: bool)
        ensures
            r == (self@ is Some && self@->0.stable),
    {
        match &self.state {
            Some(s) => s.stable,
            None => false,
        }
    }

    /// Zero offset, or 0 without a state.
    pub fn scale_get_tare_offset(&self) -> (r: i32)
        ensures
            r == (if self@ is Some { self@->0.calibration.zero_offset } else { 0 }),
    {
        match &self.state {
            Some(s) => s.calibration.zero_offset,
            None => 0,
        }
    }

    /// Calibration factor in thousandths of a raw unit per gram; the default
    /// factor without a state.
    pub fn scale_get_cal_factor(&self) -> (r: u32)
        ensures
            r == (if self@ is Some {
                self@->0.calibration.cal_factor_milli
            } else {
                UNSET_CAL_FACTOR_MILLI
            }),
    {
        match &self.state {
            Some(s) => s.calibration.cal_factor_milli,
            None => UNSET_CAL_FACTOR_MILLI,
        }
    }

    /// Tares the scale with the bus held for the whole burst.
    pub fn scale_tare<B: I2cBus, D: DelayMs>(&mut self, bus: &mut SharedBus<B>, delay: &mut D) -> (r:
        Result<(), Nau7802Error>)
        requires
            old(self).wf(),
        ensures
            final(self).wf(),
            final(bus).handle() is Some <==> old(bus).handle() is Some,
            !ready(old(self)@) ==> r == Err::<(), Nau7802Error>(Nau7802Error::NotInitialized)
                && *final(self) == *old(self),
            ready(old(self)@) && old(bus).handle() is None ==> r == Err::<(), Nau7802Error>(
                Nau7802Error::I2cError,
            ) && *final(self) == *old(self),
            ready(old(self)@) && old(bus).handle() is Some ==> bus_used(*old(bus), *final(bus))
                && final(self)@ is Some && tare_done(
                old(self)@->0,
                final(self)@->0,
                bus_added(*old(bus), *final(bus)),
                r,
            ),
    {
        match &mut self.state {
            Some(state) => {
                if !state.initialized {
                    return Err(Nau7802Error::NotInitialized);
                }
                match bus.bus_mut() {
                    Some(i2c) => nau7802::tare(i2c, delay, state),
                    None => Err(Nau7802Error::I2cError),
                }
            },
            None => Err(Nau7802Error::NotInitialized),
        }
    }

    /// Calibrates against `known_mg` milligrams with the bus held for the
    /// whole burst.
    pub fn scale_calibrate<B: I2cBus, D: DelayMs>(
        &mut self,
        bus: &mut SharedBus<B>,
        delay: &mut D,
        known_mg: i64,
    ) -> (r: Result<(), Nau7802Error>)
        requires
            old(self).wf(),
        ensures
            final(self).wf(),
            final(bus).handle() is Some <==> old(bus).handle() is Some,
            !ready(old(self)@) ==> r == Err::<(), Nau7802Error>(Nau7802Error::NotInitialized)
                && *final(self) == *old(self),
            ready(old(self)@) && old(bus).handle() is None ==> r == Err::<(), Nau7802Error>(
                Nau7802Error::I2cError,
            ) && *final(self) == *old(self),
            ready(old(self)@) && old(bus).handle() is Some ==> bus_used(*old(bus), *final(bus))
                && final(self)@ is Some && calibrate_done(
                old(self)@->0,
                final(self)@->0,
                bus_added(*old(bus), *final(bus)),
                known_mg as int,
                r,
            ),
    {
        match &mut self.state {
            Some(state) => {
                if !state.initialized {
                    return Err(Nau7802Error::NotInitialized);
                }
                match bus.bus_mut() {
                    Some(i2c) => nau7802::calibrate(i2c, delay, state, known_mg),
                    None => Err(Nau7802Error::I2cError),
                }
            },
            None => Err(Nau7802Error::NotInitialized),
        }
    }
}

} // verus!
