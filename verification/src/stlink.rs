//! ST-Link probe command layer: typed command encoders for the Debug
//! Access Port protocol, response decoders, and the mode / version /
//! access-port state machines.
//!
//! The layer is pure: every operation yields the exact command bytes to
//! send ([`ProbeCommand`]) or the next step of a state machine
//! ([`ProbeAction`]); the caller performs the USB transfers and feeds the
//! responses back.

use vstd::prelude::*;

use crate::constants::JTagFrequencyToDivider;
use crate::constants::Mode;
use crate::constants::SwdFrequencyToDelayCount;

verus! {

/// Failures of the probe command layer.
#[derive(Clone, Copy, Debug, PartialEq, Eq, Structural)]
pub enum StlinkError {
    /// The USB transport reported an I/O failure.
    Usb,
    /// The USB endpoint was not found.
    EndpointNotFound,
    /// The USB transport returned fewer bytes than requested.
    NotEnoughBytesRead,
    /// The probe firmware does not support JTAG at all.
    JtagNotSupportedOnProbe,
    /// The probe firmware is older than the minimum supported version.
    ProbeFirmwareOutdated,
    /// The probe firmware cannot address multiple access ports.
    JTagDoesNotSupportMultipleAP,
    /// A command response carried a non-OK status byte.
    CommandFailed(u8),
    /// The probe returned voltage calibration values that divide by zero.
    VoltageDivisionByZero,
    /// The probe reported a mode byte outside the known modes.
    UnknownMode,
    /// A Debug Port register with a blank upper address nibble cannot be
    /// accessed directly.
    BlanksNotAllowedOnDPRegister,
}

/// The wire protocol used to talk to the target.
#[derive(Clone, Copy, Debug, PartialEq, Eq, Structural)]
pub enum WireProtocol {
    Swd,
    Jtag,
}

/// A port of the target's Debug Access Port: the root Debug Port, or one
/// of the Access Ports.
#[derive(Clone, Copy, Debug, PartialEq, Eq, Structural)]
pub enum PortType {
    DebugPort,
    AccessPort(u16),
}

impl PortType {
    /// The 16-bit port selector sent on the wire.
    pub open spec fn spec_raw(self) -> u16 {
        match self {
            PortType::DebugPort => 0xFFFF,
            PortType::AccessPort(n) => n,
        }
    }

    /// The 16-bit port selector sent on the wire.
    pub fn as_raw(&self) -> (r: u16)
        ensures
            r == self.spec_raw(),
    {
        match self {
            PortType::DebugPort => 0xFFFF,
            PortType::AccessPort(n) => *n,
        }
    }
}

/// One typed ST-Link command, with its exact wire encoding
/// ([`ProbeCommand::to_bytes`]) and expected response length
/// ([`ProbeCommand::response_len`]).
#[derive(Clone, Copy, Debug, PartialEq, Eq, Structural)]
pub enum ProbeCommand {
    GetVersion,
    GetVersionExt,
    GetCurrentMode,
    GetTargetVoltage,
    DfuExit,
    SwimExit,
    JtagEnter { protocol: WireProtocol },
    ReadDapReg { port: u16, addr: u16 },
    WriteDapReg { port: u16, addr: u16, value: u32 },
    InitAp { apsel: u8 },
    CloseAp { apsel: u8 },
    DriveNrst { state: u8 },
    SwdSetFreq { code: u8 },
    JtagSetFreq { code: u8 },
}

impl ProbeCommand {
    /// The exact bytes of this command on the wire.
    pub open spec fn spec_bytes(self) -> Seq<u8> {
        match self {
            ProbeCommand::GetVersion => seq![crate::constants::GET_VERSION],
            ProbeCommand::GetVersionExt => seq![crate::constants::GET_VERSION_EXT],
            ProbeCommand::GetCurrentMode => seq![crate::constants::GET_CURRENT_MODE],
            ProbeCommand::GetTargetVoltage => seq![crate::constants::GET_TARGET_VOLTAGE],
            ProbeCommand::DfuExit => seq![
                crate::constants::DFU_COMMAND,
                crate::constants::DFU_EXIT,
            ],
            ProbeCommand::SwimExit => seq![
                crate::constants::SWIM_COMMAND,
                crate::constants::SWIM_EXIT,
            ],
            ProbeCommand::JtagEnter { protocol } => seq![
                crate::constants::JTAG_COMMAND,
                crate::constants::JTAG_ENTER2,
                (match protocol {
                    WireProtocol::Swd => crate::constants::JTAG_ENTER_SWD,
                    WireProtocol::Jtag => crate::constants::JTAG_ENTER_JTAG_NO_CORE_RESET,
                }),
                0u8,
            ],
            ProbeCommand::ReadDapReg { port, addr } => seq![
                crate::constants::JTAG_COMMAND,
                crate::constants::JTAG_READ_DAP_REG,
                (port & 0xFF) as u8,
                ((port >> 8) & 0xFF) as u8,
                (addr & 0xFF) as u8,
                ((addr >> 8) & 0xFF) as u8,
            ],
            ProbeCommand::WriteDapReg { port, addr, value } => seq![
                crate::constants::JTAG_COMMAND,
                crate::constants::JTAG_WRITE_DAP_REG,
                (port & 0xFF) as u8,
                ((port >> 8) & 0xFF) as u8,
                (addr & 0xFF) as u8,
                ((addr >> 8) & 0xFF) as u8,
                (value & 0xFF) as u8,
                ((value >> 8) & 0xFF) as u8,
                ((value >> 16) & 0xFF) as u8,
                ((value >> 24) & 0xFF) as u8,
            ],
            ProbeCommand::InitAp { apsel } => seq![
                crate::constants::JTAG_COMMAND,
                crate::constants::JTAG_INIT_AP,
                apsel,
            ],
            ProbeCommand::CloseAp { apsel } => seq![
                crate::constants::JTAG_COMMAND,
                crate::constants::JTAG_CLOSE_AP_DBG,
                apsel,
            ],
            ProbeCommand::DriveNrst { state } => seq![
                crate::constants::JTAG_COMMAND,
                crate::constants::JTAG_DRIVE_NRST,
                state,
            ],
            ProbeCommand::SwdSetFreq { code } => seq![
                crate::constants::JTAG_COMMAND,
                crate::constants::SWD_SET_FREQ,
                code,
            ],
            ProbeCommand::JtagSetFreq { code } => seq![
                crate::constants::JTAG_COMMAND,
                crate::constants::JTAG_SET_FREQ,
                code,
            ],
        }
    }

    /// The fixed length of the response this command expects.
    pub open spec fn spec_response_len(self) -> int {
        match self {
            ProbeCommand::GetVersion => 6,
            ProbeCommand::GetVersionExt => 12,
            ProbeCommand::GetCurrentMode => 2,
            ProbeCommand::GetTargetVoltage => 8,
            ProbeCommand::DfuExit => 0,
            ProbeCommand::SwimExit => 0,
            ProbeCommand::JtagEnter { .. } => 2,
            ProbeCommand::ReadDapReg { .. } => 8,
            ProbeCommand::WriteDapReg { .. } => 2,
            ProbeCommand::InitAp { .. } => 2,
            ProbeCommand::CloseAp { .. } => 2,
            ProbeCommand::DriveNrst { .. } => 2,
            ProbeCommand::SwdSetFreq { .. } => 2,
            ProbeCommand::JtagSetFreq { .. } => 2,
        }
    }

    /// Encodes this command as the bytes to send on the wire.
    pub fn to_bytes(&self) -> (r: Vec<u8>)
        ensures
            r@ == self.spec_bytes(),
    {
        let mut r: Vec<u8> = Vec::new();
        match self {
            ProbeCommand::GetVersion => {
                r.push(crate::constants::GET_VERSION);
            },
            ProbeCommand::GetVersionExt => {
                r.push(crate::constants::GET_VERSION_EXT);
            },
            ProbeCommand::GetCurrentMode => {
                r.push(crate::constants::GET_CURRENT_MODE);
            },
            ProbeCommand::GetTargetVoltage => {
                r.push(crate::constants::GET_TARGET_VOLTAGE);
            },
            ProbeCommand::DfuExit => {
                r.push(crate::constants::DFU_COMMAND);
                r.push(crate::constants::DFU_EXIT);
            },
            ProbeCommand::SwimExit => {
                r.push(crate::constants::SWIM_COMMAND);
                r.push(crate::constants::SWIM_EXIT);
            },
            ProbeCommand::JtagEnter { protocol } => {
                r.push(crate::constants::JTAG_COMMAND);
                r.push(crate::constants::JTAG_ENTER2);
                match protocol {
                    WireProtocol::Swd => r.push(crate::constants::JTAG_ENTER_SWD),
                    WireProtocol::Jtag => r.push(crate::constants::JTAG_ENTER_JTAG_NO_CORE_RESET),
                }
                r.push(0u8);
            },
            ProbeCommand::ReadDapReg { port, addr } => {
                let port = *port;
                let addr = *addr;
                r.push(crate::constants::JTAG_COMMAND);
                r.push(crate::constants::JTAG_READ_DAP_REG);
                r.push((port & 0xFF) as u8);
                r.push(((port >> 8) & 0xFF) as u8);
                r.push((addr & 0xFF) as u8);
                r.push(((addr >> 8) & 0xFF) as u8);
            },
            ProbeCommand::WriteDapReg { port, addr, value } => {
                let port = *port;
                let addr = *addr;
                let value = *value;
                r.push(crate::constants::JTAG_COMMAND);
                r.push(crate::constants::JTAG_WRITE_DAP_REG);
                r.push((port & 0xFF) as u8);
                r.push(((port >> 8) & 0xFF) as u8);
                r.push((addr & 0xFF) as u8);
                r.push(((addr >> 8) & 0xFF) as u8);
                r.push((value & 0xFF) as u8);
                r.push(((value >> 8) & 0xFF) as u8);
                r.push(((value >> 16) & 0xFF) as u8);
                r.push(((value >> 24) & 0xFF) as u8);
            },
            ProbeCommand::InitAp { apsel } => {
                r.push(crate::constants::JTAG_COMMAND);
                r.push(crate::constants::JTAG_INIT_AP);
                r.push(*apsel);
            },
            ProbeCommand::CloseAp { apsel } => {
                r.push(crate::constants::JTAG_COMMAND);
                r.push(crate::constants::JTAG_CLOSE_AP_DBG);
                r.push(*apsel);
            },
            ProbeCommand::DriveNrst { state } => {
                r.push(crate::constants::JTAG_COMMAND);
                r.push(crate::constants::JTAG_DRIVE_NRST);
                r.push(*state);
            },
            ProbeCommand::SwdSetFreq { code } => {
                r.push(crate::constants::JTAG_COMMAND);
                r.push(crate::constants::SWD_SET_FREQ);
                r.push(*code);
            },
            ProbeCommand::JtagSetFreq { code } => {
                r.push(crate::constants::JTAG_COMMAND);
                r.push(crate::constants::JTAG_SET_FREQ);
                r.push(*code);
            },
        }
        proof {
            assert(r@ =~= self.spec_bytes());
        }
        r
    }

    /// The fixed length of the response this command expects.
    pub fn response_len(&self) -> (r: usize)
        ensures
            r == self.spec_response_len(),
    {
        match self {
            ProbeCommand::GetVersion => 6,
            ProbeCommand::GetVersionExt => 12,
            ProbeCommand::GetCurrentMode => 2,
            ProbeCommand::GetTargetVoltage => 8,
            ProbeCommand::DfuExit => 0,
            ProbeCommand::SwimExit => 0,
            ProbeCommand::JtagEnter { .. } => 2,
            ProbeCommand::ReadDapReg { .. } => 8,
            ProbeCommand::WriteDapReg { .. } => 2,
            ProbeCommand::InitAp { .. } => 2,
            ProbeCommand::CloseAp { .. } => 2,
            ProbeCommand::DriveNrst { .. } => 2,
            ProbeCommand::SwdSetFreq { .. } => 2,
            ProbeCommand::JtagSetFreq { .. } => 2,
        }
    }
}

/// The little-endian 32-bit value stored at offset `o` of `b`.
pub open spec fn le32_at(b: Seq<u8>, o: int) -> int {
    b[o] + 256 * b[o + 1] + 65536 * b[o + 2] + 16777216 * b[o + 3]
}

/// The big-endian 16-bit value stored at offset `o` of `b`.
pub open spec fn be16_at(b: Seq<u8>, o: int) -> int {
    256 * b[o] + b[o + 1]
}

/// Reads the little-endian `u32` at `offset`.
pub fn read_u32_le(b: &[u8], offset: usize) -> (r: u32)
    requires
        offset + 4 <= b@.len(),
    ensures
        r == le32_at(b@, offset as int),
{
    (b[offset] as u32) + 256 * (b[offset + 1] as u32) + 65536 * (b[offset + 2] as u32) + 16777216
        * (b[offset + 3] as u32)
}

/// Reads the big-endian `u16` at `offset`.
pub fn read_u16_be(b: &[u8], offset: usize) -> (r: u16)
    requires
        offset + 2 <= b@.len(),
    ensures
        r == be16_at(b@, offset as int),
{
    256 * (b[offset] as u16) + (b[offset + 1] as u16)
}

/// The hardware and firmware version encoded in a `GET_VERSION` response:
/// the high 4 bits of the big-endian first word are the hardware version,
/// the following 6 bits the JTAG firmware version.
pub fn decode_version(b: &[u8]) -> (r: (u8, u8))
    requires
        b@.len() >= 2,
    ensures
        r.0 == ((be16_at(b@, 0) as u16) >> 12) & 0x0F,
        r.1 == ((be16_at(b@, 0) as u16) >> 6) as u8 & 0x3F,
{
    let version: u16 = read_u16_be(b, 0);
    let hw: u8 = ((version >> 12) & 0x0F) as u8;
    let jtag: u8 = ((version >> 6) as u8) & 0x3F;
    proof {
        assert((version >> 12) & 0x0F < 256 && ((version >> 12) & 0x0F) as u8 == (version >> 12)
            & 0x0F) by (bit_vector);
    }
    (hw, jtag)
}

/// The two little-endian calibration words of a `GET_TARGET_VOLTAGE`
/// response; a zero divisor is rejected. The target voltage is
/// `2 * r.1 * 1.2 / r.0` volts, computed by the caller.
pub fn decode_target_voltage(b: &[u8]) -> (r: Result<(u32, u32), StlinkError>)
    requires
        b@.len() >= 8,
    ensures
        match r {
            Ok(v) => le32_at(b@, 0) != 0 && v.0 == le32_at(b@, 0) && v.1 == le32_at(b@, 4),
            Err(e) => le32_at(b@, 0) == 0 && e == StlinkError::VoltageDivisionByZero,
        },
{
    let a0 = read_u32_le(b, 0);
    let a1 = read_u32_le(b, 4);
    if a0 != 0 {
        Ok((a0, a1))
    } else {
        Err(StlinkError::VoltageDivisionByZero)
    }
}

/// The value carried by a `JTAG_READ_DAP_REG` response: status in byte 0,
/// little-endian value in bytes 4..8.
pub fn decode_read_dap_response(b: &[u8]) -> (r: Result<u32, StlinkError>)
    requires
        b@.len() == 8,
    ensures
        match r {
            Ok(v) => b@[0] == crate::constants::JTAG_OK && v == le32_at(b@, 4),
            Err(e) => b@[0] != crate::constants::JTAG_OK && e == StlinkError::CommandFailed(
                b@[0],
            ),
        },
{
    if b[0] != crate::constants::JTAG_OK {
        Err(StlinkError::CommandFailed(b[0]))
    } else {
        Ok(read_u32_le(b, 4))
    }
}

/// The commands that bring the currently open access port to `n`: close
/// the old one and open the new one when switching, only open on first
/// use, nothing when `n` is already open.
pub open spec fn ap_switch_commands(s: STLink, n: u16) -> Seq<ProbeCommand> {
    match s.current_ap {
        Some(m) => if m == n {
            Seq::empty()
        } else {
            seq![
                (ProbeCommand::CloseAp { apsel: m as u8 }),
                (ProbeCommand::InitAp { apsel: n as u8 }),
            ]
        },
        None => seq![(ProbeCommand::InitAp { apsel: n as u8 })],
    }
}

/// The state of one ST-Link probe session: the negotiated versions, the
/// selected wire protocol, and the access port currently open.
#[derive(Clone, Copy, Debug, PartialEq, Eq, Structural)]
pub struct STLink {
    pub hw_version: u8,
    pub jtag_version: u8,
    pub protocol: WireProtocol,
    /// Index of the AP which is currently open.
    pub current_ap: Option<u16>,
}

impl STLink {
    /// Whether the probe firmware can address multiple access ports.
    pub open spec fn spec_multi_ap_supported(self) -> bool {
        self.hw_version >= 3 || self.jtag_version >= 28
    }

    /// A fresh session: no versions negotiated, SWD selected, no AP open.
    pub fn new() -> (r: Self)
        ensures
            r == (STLink {
                hw_version: 0,
                jtag_version: 0,
                protocol: WireProtocol::Swd,
                current_ap: None,
            }),
    {
        Self { hw_version: 0, jtag_version: 0, protocol: WireProtocol::Swd, current_ap: None }
    }

    /// The probe's display name.
    pub fn get_name(&self) -> (r: &'static str)
        ensures
            r@ == "ST-Link"@,
    {
        "ST-Link"
    }

    /// Whether the probe firmware can address multiple access ports.
    pub fn multi_ap_supported(&self) -> (r: bool)
        ensures
            r == self.spec_multi_ap_supported(),
    {
        !(self.hw_version < 3 && self.jtag_version < 28)
    }

    /// Selects the wire protocol used on the next attach.
    pub fn select_protocol(&mut self, protocol: WireProtocol) -> (r: Result<(), StlinkError>)
        ensures
            r is Ok,
            *final(self) == (STLink { protocol, ..*old(self) }),
    {
        match protocol {
            WireProtocol::Jtag => self.protocol = WireProtocol::Jtag,
            WireProtocol::Swd => self.protocol = WireProtocol::Swd,
        }
        Ok(())
    }

    /// The command that sets the SWD frequency.
    pub fn set_swd_frequency(&self, frequency: SwdFrequencyToDelayCount) -> (r: ProbeCommand)
        ensures
            r == (ProbeCommand::SwdSetFreq { code: frequency.spec_delay_count() }),
    {
        ProbeCommand::SwdSetFreq { code: frequency.to_delay_count() }
    }

    /// The command that sets the JTAG frequency.
    pub fn set_jtag_frequency(&self, frequency: JTagFrequencyToDivider) -> (r: ProbeCommand)
        ensures
            r == (ProbeCommand::JtagSetFreq { code: frequency.spec_divider() }),
    {
        ProbeCommand::JtagSetFreq { code: frequency.to_divider() }
    }

    /// The command that opens access port `apsel`; fails when the firmware
    /// cannot address multiple access ports.
    pub fn open_ap(&self, apsel: u8) -> (r: Result<ProbeCommand, StlinkError>)
        ensures
            match r {
                Ok(cmd) => self.spec_multi_ap_supported() && cmd == (ProbeCommand::InitAp {
                    apsel,
                }),
                Err(e) => !self.spec_multi_ap_supported() && e
                    == StlinkError::JTagDoesNotSupportMultipleAP,
            },
    {
        if self.hw_version < 3 && self.jtag_version < 28 {
            Err(StlinkError::JTagDoesNotSupportMultipleAP)
        } else {
            Ok(ProbeCommand::InitAp { apsel })
        }
    }

    /// The command that closes access port `apsel`; fails when the firmware
    /// cannot address multiple access ports.
    pub fn close_ap(&self, apsel: u8) -> (r: Result<ProbeCommand, StlinkError>)
        ensures
            match r {
                Ok(cmd) => self.spec_multi_ap_supported() && cmd == (ProbeCommand::CloseAp {
                    apsel,
                }),
                Err(e) => !self.spec_multi_ap_supported() && e
                    == StlinkError::JTagDoesNotSupportMultipleAP,
            },
    {
        if self.hw_version < 3 && self.jtag_version < 28 {
            Err(StlinkError::JTagDoesNotSupportMultipleAP)
        } else {
            Ok(ProbeCommand::CloseAp { apsel })
        }
    }

    /// The command that drives the nRESET pin low (`is_asserted`) or high.
    pub fn drive_nreset(&self, is_asserted: bool) -> (r: ProbeCommand)
        ensures
            r == (ProbeCommand::DriveNrst {
                state: if is_asserted {
                    crate::constants::JTAG_DRIVE_NRST_LOW
                } else {
                    crate::constants::JTAG_DRIVE_NRST_HIGH
                },
            }),
    {
        let state = if is_asserted {
            crate::constants::JTAG_DRIVE_NRST_LOW
        } else {
            crate::constants::JTAG_DRIVE_NRST_HIGH
        };
        ProbeCommand::DriveNrst { state }
    }

    /// The command that pulses the nRESET pin to reset the target.
    pub fn target_reset(&self) -> (r: ProbeCommand)
        ensures
            r == (ProbeCommand::DriveNrst { state: crate::constants::JTAG_DRIVE_NRST_PULSE }),
    {
        ProbeCommand::DriveNrst { state: crate::constants::JTAG_DRIVE_NRST_PULSE }
    }

    /// The commands that read the DAP register `addr` on `port`: the AP
    /// switch, if one is needed, followed by the read itself. The response
    /// of the final command is decoded with `decode_read_dap_response`.
    ///
    /// A Debug Port register whose upper address nibble is blank is
    /// rejected; switching to a new AP without multi-AP support is
    /// rejected.
    pub fn read_register(&mut self, port: PortType, addr: u16) -> (r: Result<
        Vec<ProbeCommand>,
        StlinkError,
    >)
        ensures
            (r matches Err(e) && e == StlinkError::BlanksNotAllowedOnDPRegister) <==> (port
                == PortType::DebugPort && addr & 0xF0 == 0),
            match r {
                Ok(cmds) => match port {
                    PortType::DebugPort => {
                        &&& addr & 0xF0 != 0
                        &&& cmds@ =~= seq![
                            (ProbeCommand::ReadDapReg { port: 0xFFFFu16, addr }),
                        ]
                        &&& *final(self) == *old(self)
                    },
                    PortType::AccessPort(n) => {
                        &&& cmds@ =~= ap_switch_commands(*old(self), n) + seq![
                            (ProbeCommand::ReadDapReg { port: n, addr }),
                        ]
                        &&& *final(self) == (STLink { current_ap: Some(n), ..*old(self) })
                        &&& old(self).current_ap != Some(n)
                            ==> old(self).spec_multi_ap_supported()
                    },
                },
                Err(e) => {
                    &&& *final(self) == *old(self)
                    &&& (e == StlinkError::BlanksNotAllowedOnDPRegister || (e
                        == StlinkError::JTagDoesNotSupportMultipleAP && (port matches
                        PortType::AccessPort(n) && old(self).current_ap != Some(n)
                            && !old(self).spec_multi_ap_supported())))
                },
            },
    {
        if addr & 0xF0 == 0 && matches!(port, PortType::DebugPort) {
            return Err(StlinkError::BlanksNotAllowedOnDPRegister);
        }
        let mut cmds: Vec<ProbeCommand> = Vec::new();
        match port {
            PortType::AccessPort(n) => {
                match self.current_ap {
                    Some(m) => {
                        if m != n {
                            if self.hw_version < 3 && self.jtag_version < 28 {
                                return Err(StlinkError::JTagDoesNotSupportMultipleAP);
                            }
                            cmds.push(ProbeCommand::CloseAp { apsel: m as u8 });
                            cmds.push(ProbeCommand::InitAp { apsel: n as u8 });
                        }
                    },
                    None => {
                        if self.hw_version < 3 && self.jtag_version < 28 {
                            return Err(StlinkError::JTagDoesNotSupportMultipleAP);
                        }
                        cmds.push(ProbeCommand::InitAp { apsel: n as u8 });
                    },
                }
                self.current_ap = Some(n);
                cmds.push(ProbeCommand::ReadDapReg { port: n, addr });
            },
            PortType::DebugPort => {
                cmds.push(ProbeCommand::ReadDapReg { port: 0xFFFF, addr });
            },
        }
        Ok(cmds)
    }

    /// The commands that write `value` to the DAP register `addr` on
    /// `port`: the AP switch, if one is needed, followed by the write
    /// itself. Each response is a 2-byte status checked with
    /// `check_status`. The preconditions and the AP bookkeeping are the
    /// same as for `read_register`.
    pub fn write_register(&mut self, port: PortType, addr: u16, value: u32) -> (r: Result<
        Vec<ProbeCommand>,
        StlinkError,
    >)
        ensures
            (r matches Err(e) && e == StlinkError::BlanksNotAllowedOnDPRegister) <==> (port
                == PortType::DebugPort && addr & 0xF0 == 0),
            match r {
                Ok(cmds) => match port {
                    PortType::DebugPort => {
                        &&& addr & 0xF0 != 0
                        &&& cmds@ =~= seq![
                            (ProbeCommand::WriteDapReg { port: 0xFFFFu16, addr, value }),
                        ]
                        &&& *final(self) == *old(self)
                    },
                    PortType::AccessPort(n) => {
                        &&& cmds@ =~= ap_switch_commands(*old(self), n) + seq![
                            (ProbeCommand::WriteDapReg { port: n, addr, value }),
                        ]
                        &&& *final(self) == (STLink { current_ap: Some(n), ..*old(self) })
                        &&& old(self).current_ap != Some(n)
                            ==> old(self).spec_multi_ap_supported()
                    },
                },
                Err(e) => {
                    &&& *final(self) == *old(self)
                    &&& (e == StlinkError::BlanksNotAllowedOnDPRegister || (e
                        == StlinkError::JTagDoesNotSupportMultipleAP && (port matches
                        PortType::AccessPort(n) && old(self).current_ap != Some(n)
                            && !old(self).spec_multi_ap_supported())))
                },
            },
    {
        if addr & 0xF0 == 0 && matches!(port, PortType::DebugPort) {
            return Err(StlinkError::BlanksNotAllowedOnDPRegister);
        }
        let mut cmds: Vec<ProbeCommand> = Vec::new();
        match port {
            PortType::AccessPort(n) => {
                match self.current_ap {
                    Some(m) => {
                        if m != n {
                            if self.hw_version < 3 && self.jtag_version < 28 {
                                return Err(StlinkError::JTagDoesNotSupportMultipleAP);
                            }
                            cmds.push(ProbeCommand::CloseAp { apsel: m as u8 });
                            cmds.push(ProbeCommand::InitAp { apsel: n as u8 });
                        }
                    },
                    None => {
                        if self.hw_version < 3 && self.jtag_version < 28 {
                            return Err(StlinkError::JTagDoesNotSupportMultipleAP);
                        }
                        cmds.push(ProbeCommand::InitAp { apsel: n as u8 });
                    },
                }
                self.current_ap = Some(n);
                cmds.push(ProbeCommand::WriteDapReg { port: n, addr, value });
            },
            PortType::DebugPort => {
                cmds.push(ProbeCommand::WriteDapReg { port: 0xFFFF, addr, value });
            },
        }
        Ok(cmds)
    }
}

/// Validates a command status response: the first byte must be `JTAG_OK`;
/// any other value is reported with its code.
pub fn check_status(status: &[u8]) -> (r: Result<(), StlinkError>)
    requires
        status@.len() >= 1,
    ensures
        match r {
            Ok(()) => status@[0] == crate::constants::JTAG_OK,
            Err(e) => status@[0] != crate::constants::JTAG_OK && e == StlinkError::CommandFailed(
                status@[0],
            ),
        },
{
    if status[0] != crate::constants::JTAG_OK {
        Err(StlinkError::CommandFailed(status[0]))
    } else {
        Ok(())
    }
}

/// Between two DAP operations on distinct access ports, exactly one close
/// of the old AP and one open of the new one are emitted, in that order;
/// the first AP use emits only the open; re-using the open AP emits
/// nothing.
pub proof fn lemma_ap_switch(s: STLink, n: u16)
    ensures
        s.current_ap == Some(n) ==> ap_switch_commands(s, n) =~= Seq::<ProbeCommand>::empty(),
        forall|m: u16|
            s.current_ap == Some(m) && m != n ==> ap_switch_commands(s, n) =~= seq![
                (ProbeCommand::CloseAp { apsel: m as u8 }),
                (ProbeCommand::InitAp { apsel: n as u8 }),
            ],
        s.current_ap is None ==> ap_switch_commands(s, n) =~= seq![
            (ProbeCommand::InitAp { apsel: n as u8 }),
        ],
{
}


/// An event the caller feeds back into a session state machine: the
/// response bytes of the last command, the failure that the transport
/// reported, or the completion of a USB device reset.
#[derive(Debug, PartialEq)]
pub enum ProbeEvent {
    Received(Vec<u8>),
    Failed(StlinkError),
    ResetOk,
}

/// The next thing the caller must do for a session state machine.
#[derive(Clone, Copy, Debug, PartialEq, Eq, Structural)]
pub enum ProbeAction {
    /// Send this command and read its fixed-size response.
    Send(ProbeCommand),
    /// Reset the USB device.
    ResetUsb,
    /// The operation finished successfully.
    Done,
    /// The operation failed.
    Fail(StlinkError),
}

/// The phases of probe initialization: enter idle mode (retrying once
/// after a USB fault), negotiate the version, read the target voltage.
#[derive(Clone, Copy, Debug, PartialEq, Eq, Structural)]
pub enum InitPhase {
    /// Waiting for the `GET_CURRENT_MODE` response.
    ProbeMode { retrying: bool },
    /// Waiting for the mode exit command to complete.
    ModeExit { retrying: bool },
    /// Waiting for the USB device reset.
    UsbReset,
    /// Waiting for the `GET_VERSION` response.
    Version,
    /// Waiting for the `GET_VERSION_EXT` response.
    VersionExt,
    /// Waiting for the `GET_TARGET_VOLTAGE` response.
    Voltage,
    Complete,
    Failed,
}

/// Whether `event` is an event the initialization machine can receive in
/// `phase`: a response of the awaited command's length, a transport
/// failure, or the outcome of the requested USB reset.
pub open spec fn init_expects(phase: InitPhase, event: ProbeEvent) -> bool {
    match phase {
        InitPhase::ProbeMode { .. } => match event {
            ProbeEvent::Received(b) => b@.len() == 2,
            ProbeEvent::Failed(_) => true,
            ProbeEvent::ResetOk => false,
        },
        InitPhase::ModeExit { .. } => match event {
            ProbeEvent::Received(b) => b@.len() == 0,
            ProbeEvent::Failed(_) => true,
            ProbeEvent::ResetOk => false,
        },
        InitPhase::UsbReset => match event {
            ProbeEvent::Received(_) => false,
            ProbeEvent::Failed(_) => true,
            ProbeEvent::ResetOk => true,
        },
        InitPhase::Version => match event {
            ProbeEvent::Received(b) => b@.len() == 6,
            ProbeEvent::Failed(_) => true,
            ProbeEvent::ResetOk => false,
        },
        InitPhase::VersionExt => match event {
            ProbeEvent::Received(b) => b@.len() == 12,
            ProbeEvent::Failed(_) => true,
            ProbeEvent::ResetOk => false,
        },
        InitPhase::Voltage => match event {
            ProbeEvent::Received(b) => b@.len() == 8,
            ProbeEvent::Failed(_) => true,
            ProbeEvent::ResetOk => false,
        },
        InitPhase::Complete => false,
        InitPhase::Failed => false,
    }
}

/// The transition table of the initialization machine: from session state,
/// phase and event to the new session state, the next phase and the next
/// action.
pub open spec fn init_transition(s: STLink, phase: InitPhase, event: ProbeEvent) -> (
    STLink,
    InitPhase,
    ProbeAction,
) {
    match phase {
        InitPhase::ProbeMode { retrying } => match event {
            ProbeEvent::Received(b) => match Mode::spec_from_byte(b@[0]) {
                Some(Mode::Dfu) => (
                    s,
                    InitPhase::ModeExit { retrying },
                    ProbeAction::Send(ProbeCommand::DfuExit),
                ),
                Some(Mode::Swim) => (
                    s,
                    InitPhase::ModeExit { retrying },
                    ProbeAction::Send(ProbeCommand::SwimExit),
                ),
                Some(_) => (s, InitPhase::Version, ProbeAction::Send(ProbeCommand::GetVersion)),
                None => (s, InitPhase::Failed, ProbeAction::Fail(StlinkError::UnknownMode)),
            },
            ProbeEvent::Failed(e) => if e == StlinkError::Usb && !retrying {
                (s, InitPhase::UsbReset, ProbeAction::ResetUsb)
            } else {
                (s, InitPhase::Failed, ProbeAction::Fail(e))
            },
            ProbeEvent::ResetOk => (s, InitPhase::Failed, ProbeAction::Fail(StlinkError::Usb)),
        },
        InitPhase::ModeExit { retrying } => match event {
            ProbeEvent::Received(_) => (
                s,
                InitPhase::Version,
                ProbeAction::Send(ProbeCommand::GetVersion),
            ),
            ProbeEvent::Failed(e) => if e == StlinkError::Usb && !retrying {
                (s, InitPhase::UsbReset, ProbeAction::ResetUsb)
            } else {
                (s, InitPhase::Failed, ProbeAction::Fail(e))
            },
            ProbeEvent::ResetOk => (s, InitPhase::Failed, ProbeAction::Fail(StlinkError::Usb)),
        },
        InitPhase::UsbReset => match event {
            ProbeEvent::ResetOk => (
                s,
                InitPhase::ProbeMode { retrying: true },
                ProbeAction::Send(ProbeCommand::GetCurrentMode),
            ),
            ProbeEvent::Failed(e) => (s, InitPhase::Failed, ProbeAction::Fail(e)),
            ProbeEvent::Received(_) => (
                s,
                InitPhase::Failed,
                ProbeAction::Fail(StlinkError::Usb),
            ),
        },
        InitPhase::Version => match event {
            ProbeEvent::Received(b) => {
                let v = be16_at(b@, 0) as u16;
                let hw = ((v >> 12) & 0x0F) as u8;
                let jtag = ((v >> 6) as u8) & 0x3F;
                let s2 = STLink { hw_version: hw, jtag_version: jtag, ..s };
                if hw >= 3 {
                    (s2, InitPhase::VersionExt, ProbeAction::Send(ProbeCommand::GetVersionExt))
                } else if jtag == 0 {
                    (
                        s2,
                        InitPhase::Failed,
                        ProbeAction::Fail(StlinkError::JtagNotSupportedOnProbe),
                    )
                } else if jtag < 24 {
                    (s2, InitPhase::Failed, ProbeAction::Fail(StlinkError::ProbeFirmwareOutdated))
                } else {
                    (s2, InitPhase::Voltage, ProbeAction::Send(ProbeCommand::GetTargetVoltage))
                }
            },
            ProbeEvent::Failed(e) => (s, InitPhase::Failed, ProbeAction::Fail(e)),
            ProbeEvent::ResetOk => (s, InitPhase::Failed, ProbeAction::Fail(StlinkError::Usb)),
        },
        InitPhase::VersionExt => match event {
            ProbeEvent::Received(b) => {
                let s2 = STLink { jtag_version: b@[2], ..s };
                if b@[2] == 0 {
                    (
                        s2,
                        InitPhase::Failed,
                        ProbeAction::Fail(StlinkError::JtagNotSupportedOnProbe),
                    )
                } else {
                    (s2, InitPhase::Voltage, ProbeAction::Send(ProbeCommand::GetTargetVoltage))
                }
            },
            ProbeEvent::Failed(e) => (s, InitPhase::Failed, ProbeAction::Fail(e)),
            ProbeEvent::ResetOk => (s, InitPhase::Failed, ProbeAction::Fail(StlinkError::Usb)),
        },
        InitPhase::Voltage => match event {
            ProbeEvent::Received(b) => if le32_at(b@, 0) == 0 {
                (s, InitPhase::Failed, ProbeAction::Fail(StlinkError::VoltageDivisionByZero))
            } else {
                (s, InitPhase::Complete, ProbeAction::Done)
            },
            ProbeEvent::Failed(e) => (s, InitPhase::Failed, ProbeAction::Fail(e)),
            ProbeEvent::ResetOk => (s, InitPhase::Failed, ProbeAction::Fail(StlinkError::Usb)),
        },
        InitPhase::Complete => (s, InitPhase::Complete, ProbeAction::Done),
        InitPhase::Failed => (s, InitPhase::Failed, ProbeAction::Fail(StlinkError::Usb)),
    }
}

/// The phases of attaching to the target: enter idle mode, then enter the
/// selected wire protocol.
#[derive(Clone, Copy, Debug, PartialEq, Eq, Structural)]
pub enum AttachPhase {
    /// Waiting for the `GET_CURRENT_MODE` response.
    ProbeMode,
    /// Waiting for the mode exit command to complete.
    ModeExit,
    /// Waiting for the `JTAG_ENTER2` status response.
    Enter,
    Complete,
    Failed,
}

/// Whether `event` is an event the attach machine can receive in `phase`.
pub open spec fn attach_expects(phase: AttachPhase, event: ProbeEvent) -> bool {
    match phase {
        AttachPhase::ProbeMode => match event {
            ProbeEvent::Received(b) => b@.len() == 2,
            ProbeEvent::Failed(_) => true,
            ProbeEvent::ResetOk => false,
        },
        AttachPhase::ModeExit => match event {
            ProbeEvent::Received(b) => b@.len() == 0,
            ProbeEvent::Failed(_) => true,
            ProbeEvent::ResetOk => false,
        },
        AttachPhase::Enter => match event {
            ProbeEvent::Received(b) => b@.len() == 2,
            ProbeEvent::Failed(_) => true,
            ProbeEvent::ResetOk => false,
        },
        AttachPhase::Complete => false,
        AttachPhase::Failed => false,
    }
}

/// The transition table of the attach machine.
pub open spec fn attach_transition(s: STLink, phase: AttachPhase, event: ProbeEvent) -> (
    AttachPhase,
    ProbeAction,
) {
    match phase {
        AttachPhase::ProbeMode => match event {
            ProbeEvent::Received(b) => match Mode::spec_from_byte(b@[0]) {
                Some(Mode::Dfu) => (AttachPhase::ModeExit, ProbeAction::Send(ProbeCommand::DfuExit)),
                Some(Mode::Swim) => (
                    AttachPhase::ModeExit,
                    ProbeAction::Send(ProbeCommand::SwimExit),
                ),
                Some(_) => (
                    AttachPhase::Enter,
                    ProbeAction::Send(ProbeCommand::JtagEnter { protocol: s.protocol }),
                ),
                None => (AttachPhase::Failed, ProbeAction::Fail(StlinkError::UnknownMode)),
            },
            ProbeEvent::Failed(e) => (AttachPhase::Failed, ProbeAction::Fail(e)),
            ProbeEvent::ResetOk => (AttachPhase::Failed, ProbeAction::Fail(StlinkError::Usb)),
        },
        AttachPhase::ModeExit => match event {
            ProbeEvent::Received(_) => (
                AttachPhase::Enter,
                ProbeAction::Send(ProbeCommand::JtagEnter { protocol: s.protocol }),
            ),
            ProbeEvent::Failed(e) => (AttachPhase::Failed, ProbeAction::Fail(e)),
            ProbeEvent::ResetOk => (AttachPhase::Failed, ProbeAction::Fail(StlinkError::Usb)),
        },
        AttachPhase::Enter => match event {
            ProbeEvent::Received(b) => if b@[0] == crate::constants::JTAG_OK {
                (AttachPhase::Complete, ProbeAction::Done)
            } else {
                (AttachPhase::Failed, ProbeAction::Fail(StlinkError::CommandFailed(b@[0])))
            },
            ProbeEvent::Failed(e) => (AttachPhase::Failed, ProbeAction::Fail(e)),
            ProbeEvent::ResetOk => (AttachPhase::Failed, ProbeAction::Fail(StlinkError::Usb)),
        },
        AttachPhase::Complete => (AttachPhase::Complete, ProbeAction::Done),
        AttachPhase::Failed => (AttachPhase::Failed, ProbeAction::Fail(StlinkError::Usb)),
    }
}

/// The phases of entering idle mode (used by detach and on teardown).
#[derive(Clone, Copy, Debug, PartialEq, Eq, Structural)]
pub enum IdlePhase {
    /// Waiting for the `GET_CURRENT_MODE` response.
    ProbeMode,
    /// Waiting for the mode exit command to complete.
    ModeExit,
    Complete,
    Failed,
}

/// Whether `event` is an event the enter-idle machine can receive in
/// `phase`.
pub open spec fn idle_expects(phase: IdlePhase, event: ProbeEvent) -> bool {
    match phase {
        IdlePhase::ProbeMode => match event {
            ProbeEvent::Received(b) => b@.len() == 2,
            ProbeEvent::Failed(_) => true,
            ProbeEvent::ResetOk => false,
        },
        IdlePhase::ModeExit => match event {
            ProbeEvent::Received(b) => b@.len() == 0,
            ProbeEvent::Failed(_) => true,
            ProbeEvent::ResetOk => false,
        },
        IdlePhase::Complete => false,
        IdlePhase::Failed => false,
    }
}

/// The transition table of the enter-idle machine: a probe in DFU or SWIM
/// mode is sent the matching exit command, any other mode is already idle.
pub open spec fn idle_transition(phase: IdlePhase, event: ProbeEvent) -> (
    IdlePhase,
    ProbeAction,
) {
    match phase {
        IdlePhase::ProbeMode => match event {
            ProbeEvent::Received(b) => match Mode::spec_from_byte(b@[0]) {
                Some(Mode::Dfu) => (IdlePhase::ModeExit, ProbeAction::Send(ProbeCommand::DfuExit)),
                Some(Mode::Swim) => (IdlePhase::ModeExit, ProbeAction::Send(ProbeCommand::SwimExit)),
                Some(_) => (IdlePhase::Complete, ProbeAction::Done),
                None => (IdlePhase::Failed, ProbeAction::Fail(StlinkError::UnknownMode)),
            },
            ProbeEvent::Failed(e) => (IdlePhase::Failed, ProbeAction::Fail(e)),
            ProbeEvent::ResetOk => (IdlePhase::Failed, ProbeAction::Fail(StlinkError::Usb)),
        },
        IdlePhase::ModeExit => match event {
            ProbeEvent::Received(_) => (IdlePhase::Complete, ProbeAction::Done),
            ProbeEvent::Failed(e) => (IdlePhase::Failed, ProbeAction::Fail(e)),
            ProbeEvent::ResetOk => (IdlePhase::Failed, ProbeAction::Fail(StlinkError::Usb)),
        },
        IdlePhase::Complete => (IdlePhase::Complete, ProbeAction::Done),
        IdlePhase::Failed => (IdlePhase::Failed, ProbeAction::Fail(StlinkError::Usb)),
    }
}

impl STLink {
    /// Starts probe initialization: query the probe's current mode.
    pub fn init_start(&self) -> (r: (InitPhase, ProbeAction))
        ensures
            r.0 == (InitPhase::ProbeMode { retrying: false }),
            r.1 == ProbeAction::Send(ProbeCommand::GetCurrentMode),
    {
        (InitPhase::ProbeMode { retrying: false }, ProbeAction::Send(ProbeCommand::GetCurrentMode))
    }

    /// Advances probe initialization by one event, following
    /// [`init_transition`]: leave DFU or SWIM mode (after a USB fault,
    /// reset the device and retry once), decode and check the version,
    /// then read the target voltage.
    pub fn init_step(&mut self, phase: InitPhase, event: &ProbeEvent) -> (r: (
        InitPhase,
        ProbeAction,
    ))
        requires
            init_expects(phase, *event),
        ensures
            ({
                let t = init_transition(*old(self), phase, *event);
                *final(self) == t.0 && r.0 == t.1 && r.1 == t.2
            }),
    {
        match phase {
            InitPhase::ProbeMode { retrying } => match event {
                ProbeEvent::Received(b) => match Mode::from_byte(b[0]) {
                    Some(Mode::Dfu) => (
                        InitPhase::ModeExit { retrying },
                        ProbeAction::Send(ProbeCommand::DfuExit),
                    ),
                    Some(Mode::Swim) => (
                        InitPhase::ModeExit { retrying },
                        ProbeAction::Send(ProbeCommand::SwimExit),
                    ),
                    Some(_) => (InitPhase::Version, ProbeAction::Send(ProbeCommand::GetVersion)),
                    None => (InitPhase::Failed, ProbeAction::Fail(StlinkError::UnknownMode)),
                },
                ProbeEvent::Failed(e) => {
                    if *e == StlinkError::Usb && !retrying {
                        (InitPhase::UsbReset, ProbeAction::ResetUsb)
                    } else {
                        (InitPhase::Failed, ProbeAction::Fail(*e))
                    }
                },
                ProbeEvent::ResetOk => (InitPhase::Failed, ProbeAction::Fail(StlinkError::Usb)),
            },
            InitPhase::ModeExit { retrying } => match event {
                ProbeEvent::Received(_) => (
                    InitPhase::Version,
                    ProbeAction::Send(ProbeCommand::GetVersion),
                ),
                ProbeEvent::Failed(e) => {
                    if *e == StlinkError::Usb && !retrying {
                        (InitPhase::UsbReset, ProbeAction::ResetUsb)
                    } else {
                        (InitPhase::Failed, ProbeAction::Fail(*e))
                    }
                },
                ProbeEvent::ResetOk => (InitPhase::Failed, ProbeAction::Fail(StlinkError::Usb)),
            },
            InitPhase::UsbReset => match event {
                ProbeEvent::ResetOk => (
                    InitPhase::ProbeMode { retrying: true },
                    ProbeAction::Send(ProbeCommand::GetCurrentMode),
                ),
                ProbeEvent::Failed(e) => (InitPhase::Failed, ProbeAction::Fail(*e)),
                ProbeEvent::Received(_) => (
                    InitPhase::Failed,
                    ProbeAction::Fail(StlinkError::Usb),
                ),
            },
            InitPhase::Version => match event {
                ProbeEvent::Received(b) => {
                    let version = decode_version(b.as_slice());
                    self.hw_version = version.0;
                    self.jtag_version = version.1;
                    if self.hw_version >= 3 {
                        (InitPhase::VersionExt, ProbeAction::Send(ProbeCommand::GetVersionExt))
                    } else if self.jtag_version == 0 {
                        (
                            InitPhase::Failed,
                            ProbeAction::Fail(StlinkError::JtagNotSupportedOnProbe),
                        )
                    } else if self.jtag_version < 24 {
                        (
                            InitPhase::Failed,
                            ProbeAction::Fail(StlinkError::ProbeFirmwareOutdated),
                        )
                    } else {
                        (InitPhase::Voltage, ProbeAction::Send(ProbeCommand::GetTargetVoltage))
                    }
                },
                ProbeEvent::Failed(e) => (InitPhase::Failed, ProbeAction::Fail(*e)),
                ProbeEvent::ResetOk => (InitPhase::Failed, ProbeAction::Fail(StlinkError::Usb)),
            },
            InitPhase::VersionExt => match event {
                ProbeEvent::Received(b) => {
                    self.jtag_version = b[2];
                    if self.jtag_version == 0 {
                        (
                            InitPhase::Failed,
                            ProbeAction::Fail(StlinkError::JtagNotSupportedOnProbe),
                        )
                    } else {
                        (InitPhase::Voltage, ProbeAction::Send(ProbeCommand::GetTargetVoltage))
                    }
                },
                ProbeEvent::Failed(e) => (InitPhase::Failed, ProbeAction::Fail(*e)),
                ProbeEvent::ResetOk => (InitPhase::Failed, ProbeAction::Fail(StlinkError::Usb)),
            },
            InitPhase::Voltage => match event {
                ProbeEvent::Received(b) => {
                    let a0 = read_u32_le(b.as_slice(), 0);
                    if a0 == 0 {
                        (
                            InitPhase::Failed,
                            ProbeAction::Fail(StlinkError::VoltageDivisionByZero),
                        )
                    } else {
                        (InitPhase::Complete, ProbeAction::Done)
                    }
                },
                ProbeEvent::Failed(e) => (InitPhase::Failed, ProbeAction::Fail(*e)),
                ProbeEvent::ResetOk => (InitPhase::Failed, ProbeAction::Fail(StlinkError::Usb)),
            },
            InitPhase::Complete => (InitPhase::Complete, ProbeAction::Done),
            InitPhase::Failed => (InitPhase::Failed, ProbeAction::Fail(StlinkError::Usb)),
        }
    }

    /// Starts attaching to the target: query the probe's current mode.
    pub fn attach_start(&self) -> (r: (AttachPhase, ProbeAction))
        ensures
            r.0 == AttachPhase::ProbeMode,
            r.1 == ProbeAction::Send(ProbeCommand::GetCurrentMode),
    {
        (AttachPhase::ProbeMode, ProbeAction::Send(ProbeCommand::GetCurrentMode))
    }

    /// Advances the attach sequence by one event, following
    /// [`attach_transition`]: enter idle mode, then enter the selected
    /// wire protocol and verify the status.
    pub fn attach_step(&self, phase: AttachPhase, event: &ProbeEvent) -> (r: (
        AttachPhase,
        ProbeAction,
    ))
        requires
            attach_expects(phase, *event),
        ensures
            ({
                let t = attach_transition(*self, phase, *event);
                r.0 == t.0 && r.1 == t.1
            }),
    {
        match phase {
            AttachPhase::ProbeMode => match event {
                ProbeEvent::Received(b) => match Mode::from_byte(b[0]) {
                    Some(Mode::Dfu) => (
                        AttachPhase::ModeExit,
                        ProbeAction::Send(ProbeCommand::DfuExit),
                    ),
                    Some(Mode::Swim) => (
                        AttachPhase::ModeExit,
                        ProbeAction::Send(ProbeCommand::SwimExit),
                    ),
                    Some(_) => (
                        AttachPhase::Enter,
                        ProbeAction::Send(ProbeCommand::JtagEnter { protocol: self.protocol }),
                    ),
                    None => (AttachPhase::Failed, ProbeAction::Fail(StlinkError::UnknownMode)),
                },
                ProbeEvent::Failed(e) => (AttachPhase::Failed, ProbeAction::Fail(*e)),
                ProbeEvent::ResetOk => (AttachPhase::Failed, ProbeAction::Fail(StlinkError::Usb)),
            },
            AttachPhase::ModeExit => match event {
                ProbeEvent::Received(_) => (
                    AttachPhase::Enter,
                    ProbeAction::Send(ProbeCommand::JtagEnter { protocol: self.protocol }),
                ),
                ProbeEvent::Failed(e) => (AttachPhase::Failed, ProbeAction::Fail(*e)),
                ProbeEvent::ResetOk => (AttachPhase::Failed, ProbeAction::Fail(StlinkError::Usb)),
            },
            AttachPhase::Enter => match event {
                ProbeEvent::Received(b) => {
                    if b[0] == crate::constants::JTAG_OK {
                        (AttachPhase::Complete, ProbeAction::Done)
                    } else {
                        (
                            AttachPhase::Failed,
                            ProbeAction::Fail(StlinkError::CommandFailed(b[0])),
                        )
                    }
                },
                ProbeEvent::Failed(e) => (AttachPhase::Failed, ProbeAction::Fail(*e)),
                ProbeEvent::ResetOk => (AttachPhase::Failed, ProbeAction::Fail(StlinkError::Usb)),
            },
            AttachPhase::Complete => (AttachPhase::Complete, ProbeAction::Done),
            AttachPhase::Failed => (AttachPhase::Failed, ProbeAction::Fail(StlinkError::Usb)),
        }
    }

    /// Starts entering idle mode (detach and teardown): query the probe's
    /// current mode.
    pub fn enter_idle_start(&self) -> (r: (IdlePhase, ProbeAction))
        ensures
            r.0 == IdlePhase::ProbeMode,
            r.1 == ProbeAction::Send(ProbeCommand::GetCurrentMode),
    {
        (IdlePhase::ProbeMode, ProbeAction::Send(ProbeCommand::GetCurrentMode))
    }

    /// Advances the enter-idle sequence by one event, following
    /// [`idle_transition`].
    pub fn enter_idle_step(&self, phase: IdlePhase, event: &ProbeEvent) -> (r: (
        IdlePhase,
        ProbeAction,
    ))
        requires
            idle_expects(phase, *event),
        ensures
            ({
                let t = idle_transition(phase, *event);
                r.0 == t.0 && r.1 == t.1
            }),
    {
        match phase {
            IdlePhase::ProbeMode => match event {
                ProbeEvent::Received(b) => match Mode::from_byte(b[0]) {
                    Some(Mode::Dfu) => (
                        IdlePhase::ModeExit,
                        ProbeAction::Send(ProbeCommand::DfuExit),
                    ),
                    Some(Mode::Swim) => (
                        IdlePhase::ModeExit,
                        ProbeAction::Send(ProbeCommand::SwimExit),
                    ),
                    Some(_) => (IdlePhase::Complete, ProbeAction::Done),
                    None => (IdlePhase::Failed, ProbeAction::Fail(StlinkError::UnknownMode)),
                },
                ProbeEvent::Failed(e) => (IdlePhase::Failed, ProbeAction::Fail(*e)),
                ProbeEvent::ResetOk => (IdlePhase::Failed, ProbeAction::Fail(StlinkError::Usb)),
            },
            IdlePhase::ModeExit => match event {
                ProbeEvent::Received(_) => (IdlePhase::Complete, ProbeAction::Done),
                ProbeEvent::Failed(e) => (IdlePhase::Failed, ProbeAction::Fail(*e)),
                ProbeEvent::ResetOk => (IdlePhase::Failed, ProbeAction::Fail(StlinkError::Usb)),
            },
            IdlePhase::Complete => (IdlePhase::Complete, ProbeAction::Done),
            IdlePhase::Failed => (IdlePhase::Failed, ProbeAction::Fail(StlinkError::Usb)),
        }
    }
}

} // verus!
