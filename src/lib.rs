//! Weighing firmware core: the shared I2C bus, the load-cell ADC drivers,
//! the filtering and stability engine, tare and calibration, and the peer
//! consumers of the bus (touch controller, tag-reader bridge).
use vstd::prelude::*;

pub mod arith;
pub mod bus;
pub mod hx711;
pub mod laws;
pub mod nfc_bridge;
pub mod nau7802;
pub mod scale_manager;
pub mod scale_state;
pub mod touch;

verus! {

} // verus!
