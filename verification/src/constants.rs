//! ST-Link wire protocol constants: command bytes, status codes, probe
//! modes, and the closed enumerations of approved clock codes.

use vstd::prelude::*;

verus! {

// Top-level command bytes.
pub const GET_VERSION: u8 = 0xF1;
pub const JTAG_COMMAND: u8 = 0xF2;
pub const DFU_COMMAND: u8 = 0xF3;
pub const SWIM_COMMAND: u8 = 0xF4;
pub const GET_CURRENT_MODE: u8 = 0xF5;
pub const GET_TARGET_VOLTAGE: u8 = 0xF7;
pub const GET_VERSION_EXT: u8 = 0xFB;

// Sub-commands.
pub const DFU_EXIT: u8 = 0x07;
pub const SWIM_EXIT: u8 = 0x01;
pub const JTAG_ENTER2: u8 = 0x30;
pub const JTAG_DRIVE_NRST: u8 = 0x3C;
pub const SWD_SET_FREQ: u8 = 0x43;
pub const JTAG_SET_FREQ: u8 = 0x44;
pub const JTAG_INIT_AP: u8 = 0x4B;
pub const JTAG_CLOSE_AP_DBG: u8 = 0x4C;
pub const JTAG_READ_DAP_REG: u8 = 0xF5;
pub const JTAG_WRITE_DAP_REG: u8 = 0xF6;

// Parameters.
pub const JTAG_ENTER_SWD: u8 = 0xA3;
pub const JTAG_ENTER_JTAG_NO_CORE_RESET: u8 = 0xA4;
pub const JTAG_DRIVE_NRST_LOW: u8 = 0x00;
pub const JTAG_DRIVE_NRST_HIGH: u8 = 0x01;
pub const JTAG_DRIVE_NRST_PULSE: u8 = 0x02;

/// Status byte of a successful JTAG command response.
pub const JTAG_OK: u8 = 0x80;

/// The operating mode an ST-Link probe reports.
#[derive(Clone, Copy, Debug, PartialEq, Eq, Structural)]
pub enum Mode {
    Dfu,
    MassStorage,
    Jtag,
    Swim,
}

impl Mode {
    /// The mode a `GET_CURRENT_MODE` response byte stands for, if any.
    pub open spec fn spec_from_byte(b: u8) -> Option<Mode> {
        if b == 0 {
            Some(Mode::Dfu)
        } else if b == 1 {
            Some(Mode::MassStorage)
        } else if b == 2 {
            Some(Mode::Jtag)
        } else if b == 3 {
            Some(Mode::Swim)
        } else {
            None
        }
    }

    /// Decodes the mode byte of a `GET_CURRENT_MODE` response.
    pub fn from_byte(b: u8) -> (r: Option<Mode>)
        ensures
            r == Mode::spec_from_byte(b),
    {
        match b {
            0 => Some(Mode::Dfu),
            1 => Some(Mode::MassStorage),
            2 => Some(Mode::Jtag),
            3 => Some(Mode::Swim),
            _ => None,
        }
    }
}

/// Approved SWD clock settings, each standing for a fixed delay-count code.
#[derive(Clone, Copy, Debug, PartialEq, Eq, Structural)]
pub enum SwdFrequencyToDelayCount {
    Hz4600000,
    Hz1800000,
    Hz1200000,
    Hz950000,
    Hz480000,
    Hz240000,
    Hz125000,
    Hz100000,
    Hz50000,
    Hz25000,
}

impl SwdFrequencyToDelayCount {
    /// The delay-count code sent on the wire for this clock setting.
    pub open spec fn spec_delay_count(self) -> u8 {
        match self {
            SwdFrequencyToDelayCount::Hz4600000 => 0,
            SwdFrequencyToDelayCount::Hz1800000 => 1,
            SwdFrequencyToDelayCount::Hz1200000 => 2,
            SwdFrequencyToDelayCount::Hz950000 => 3,
            SwdFrequencyToDelayCount::Hz480000 => 7,
            SwdFrequencyToDelayCount::Hz240000 => 15,
            SwdFrequencyToDelayCount::Hz125000 => 31,
            SwdFrequencyToDelayCount::Hz100000 => 40,
            SwdFrequencyToDelayCount::Hz50000 => 79,
            SwdFrequencyToDelayCount::Hz25000 => 158,
        }
    }

    /// The delay-count code sent on the wire for this clock setting.
    pub fn to_delay_count(&self) -> (r: u8)
        ensures
            r == self.spec_delay_count(),
    {
        match self {
            SwdFrequencyToDelayCount::Hz4600000 => 0,
            SwdFrequencyToDelayCount::Hz1800000 => 1,
            SwdFrequencyToDelayCount::Hz1200000 => 2,
            SwdFrequencyToDelayCount::Hz950000 => 3,
            SwdFrequencyToDelayCount::Hz480000 => 7,
            SwdFrequencyToDelayCount::Hz240000 => 15,
            SwdFrequencyToDelayCount::Hz125000 => 31,
            SwdFrequencyToDelayCount::Hz100000 => 40,
            SwdFrequencyToDelayCount::Hz50000 => 79,
            SwdFrequencyToDelayCount::Hz25000 => 158,
        }
    }
}

/// Approved JTAG clock settings, each standing for a fixed divider code.
#[derive(Clone, Copy, Debug, PartialEq, Eq, Structural)]
pub enum JTagFrequencyToDivider {
    Hz18000000,
    Hz9000000,
    Hz4500000,
    Hz2250000,
    Hz1120000,
    Hz560000,
    Hz280000,
}

impl JTagFrequencyToDivider {
    /// The divider code sent on the wire for this clock setting.
    pub open spec fn spec_divider(self) -> u8 {
        match self {
            JTagFrequencyToDivider::Hz18000000 => 2,
            JTagFrequencyToDivider::Hz9000000 => 4,
            JTagFrequencyToDivider::Hz4500000 => 8,
            JTagFrequencyToDivider::Hz2250000 => 16,
            JTagFrequencyToDivider::Hz1120000 => 32,
            JTagFrequencyToDivider::Hz560000 => 64,
            JTagFrequencyToDivider::Hz280000 => 128,
        }
    }

    /// The divider code sent on the wire for this clock setting.
    pub fn to_divider(&self) -> (r: u8)
        ensures
            r == self.spec_divider(),
    {
        match self {
            JTagFrequencyToDivider::Hz18000000 => 2,
            JTagFrequencyToDivider::Hz9000000 => 4,
            JTagFrequencyToDivider::Hz4500000 => 8,
            JTagFrequencyToDivider::Hz2250000 => 16,
            JTagFrequencyToDivider::Hz1120000 => 32,
            JTagFrequencyToDivider::Hz560000 => 64,
            JTagFrequencyToDivider::Hz280000 => 128,
        }
    }
}

} // verus!
