//! The registers of the camera controller, by subaddress.
use vstd::prelude::*;

verus! {

/// Version and identification, read only.
pub const VERSION: u8 = 0x00;

/// Analog gain.
pub const GAIN: u8 = 0x01;

/// Blue balance.
pub const BLUE_BAL: u8 = 0x02;

/// Red balance.
pub const RED_BAL: u8 = 0x03;

/// Red saturation.
pub const RED_SAT: u8 = 0x04;

/// Blue saturation.
pub const BLUE_SAT: u8 = 0x05;

/// Shutter speed, high byte.
pub const SHUTTER_HI: u8 = 0x06;

/// Shutter speed, low byte.
pub const SHUTTER_LO: u8 = 0x07;

/// Control bits: automatic gain, exposure, white balance.
pub const CONTROL: u8 = 0x08;

/// The number of registers.
pub const COUNT: usize = 0x09;

/// What the version register reads as.
pub const VERSION_VAL: u8 = 0x12;

}
