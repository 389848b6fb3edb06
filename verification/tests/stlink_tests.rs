use probe_rs::constants::JTagFrequencyToDivider;
use probe_rs::constants::Mode;
use probe_rs::constants::SwdFrequencyToDelayCount;
use probe_rs::stlink::check_status;
use probe_rs::stlink::decode_read_dap_response;
use probe_rs::stlink::decode_target_voltage;
use probe_rs::stlink::decode_version;
use probe_rs::stlink::AttachPhase;
use probe_rs::stlink::InitPhase;
use probe_rs::stlink::PortType;
use probe_rs::stlink::ProbeAction;
use probe_rs::stlink::ProbeCommand;
use probe_rs::stlink::ProbeEvent;
use probe_rs::stlink::STLink;
use probe_rs::stlink::StlinkError;
use probe_rs::stlink::WireProtocol;

fn probe_v2() -> STLink {
    STLink {
        hw_version: 2,
        jtag_version: 30,
        protocol: WireProtocol::Swd,
        current_ap: None,
    }
}

#[test]
fn command_encodings_match_the_wire_format() {
    assert_eq!(ProbeCommand::GetVersion.to_bytes(), vec![0xF1]);
    assert_eq!(ProbeCommand::GetVersionExt.to_bytes(), vec![0xFB]);
    assert_eq!(ProbeCommand::GetCurrentMode.to_bytes(), vec![0xF5]);
    assert_eq!(ProbeCommand::GetTargetVoltage.to_bytes(), vec![0xF7]);
    assert_eq!(ProbeCommand::DfuExit.to_bytes(), vec![0xF3, 0x07]);
    assert_eq!(ProbeCommand::SwimExit.to_bytes(), vec![0xF4, 0x01]);
    assert_eq!(
        ProbeCommand::JtagEnter {
            protocol: WireProtocol::Swd
        }
        .to_bytes(),
        vec![0xF2, 0x30, 0xA3, 0x00]
    );
    assert_eq!(
        ProbeCommand::JtagEnter {
            protocol: WireProtocol::Jtag
        }
        .to_bytes(),
        vec![0xF2, 0x30, 0xA4, 0x00]
    );
    assert_eq!(
        ProbeCommand::ReadDapReg {
            port: 0xFFFF,
            addr: 0x00F4
        }
        .to_bytes(),
        vec![0xF2, 0xF5, 0xFF, 0xFF, 0xF4, 0x00]
    );
    assert_eq!(
        ProbeCommand::WriteDapReg {
            port: 0x0001,
            addr: 0x0008,
            value: 0xDEAD_BEEF
        }
        .to_bytes(),
        vec![0xF2, 0xF6, 0x01, 0x00, 0x08, 0x00, 0xEF, 0xBE, 0xAD, 0xDE]
    );
    assert_eq!(
        ProbeCommand::InitAp { apsel: 1 }.to_bytes(),
        vec![0xF2, 0x4B, 0x01]
    );
    assert_eq!(
        ProbeCommand::CloseAp { apsel: 0 }.to_bytes(),
        vec![0xF2, 0x4C, 0x00]
    );
    assert_eq!(
        ProbeCommand::DriveNrst { state: 0x02 }.to_bytes(),
        vec![0xF2, 0x3C, 0x02]
    );
    assert_eq!(
        ProbeCommand::SwdSetFreq { code: 1 }.to_bytes(),
        vec![0xF2, 0x43, 0x01]
    );
    assert_eq!(
        ProbeCommand::JtagSetFreq { code: 4 }.to_bytes(),
        vec![0xF2, 0x44, 0x04]
    );
}

#[test]
fn response_lengths_match_the_wire_format() {
    assert_eq!(ProbeCommand::GetVersion.response_len(), 6);
    assert_eq!(ProbeCommand::GetVersionExt.response_len(), 12);
    assert_eq!(ProbeCommand::GetCurrentMode.response_len(), 2);
    assert_eq!(ProbeCommand::GetTargetVoltage.response_len(), 8);
    assert_eq!(ProbeCommand::DfuExit.response_len(), 0);
    assert_eq!(ProbeCommand::SwimExit.response_len(), 0);
    assert_eq!(
        ProbeCommand::ReadDapReg { port: 0, addr: 0 }.response_len(),
        8
    );
    assert_eq!(
        ProbeCommand::WriteDapReg {
            port: 0,
            addr: 0,
            value: 0
        }
        .response_len(),
        2
    );
}

#[test]
fn version_decoding_extracts_hw_and_jtag_fields() {
    // hw = 2, jtag = 30: the big-endian word is 2 << 12 | 30 << 6 = 0x2780.
    let response = [0x27, 0x80, 0x04, 0x83, 0x37, 0x48];
    let (hw, jtag) = decode_version(&response);
    assert_eq!(hw, 2);
    assert_eq!(jtag, 30);
    // All-ones fields.
    let response = [0xFF, 0xFF];
    let (hw, jtag) = decode_version(&response);
    assert_eq!(hw, 15);
    assert_eq!(jtag, 63);
}

#[test]
fn target_voltage_decoding() {
    // a0 = 1240, a1 = 1636, little endian.
    let response = [0xD8, 0x04, 0x00, 0x00, 0x64, 0x06, 0x00, 0x00];
    assert_eq!(decode_target_voltage(&response), Ok((1240, 1636)));
    let zero = [0, 0, 0, 0, 0x64, 0x06, 0x00, 0x00];
    assert_eq!(
        decode_target_voltage(&zero),
        Err(StlinkError::VoltageDivisionByZero)
    );
}

#[test]
fn dap_read_response_decoding() {
    let ok = [0x80, 0, 0, 0, 0x78, 0x56, 0x34, 0x12];
    assert_eq!(decode_read_dap_response(&ok), Ok(0x1234_5678));
    let bad = [0x19, 0, 0, 0, 0, 0, 0, 0];
    assert_eq!(
        decode_read_dap_response(&bad),
        Err(StlinkError::CommandFailed(0x19))
    );
}

#[test]
fn status_checking() {
    assert_eq!(check_status(&[0x80, 0x00]), Ok(()));
    assert_eq!(
        check_status(&[0x42, 0x00]),
        Err(StlinkError::CommandFailed(0x42))
    );
}

#[test]
fn mode_decoding() {
    assert_eq!(Mode::from_byte(0), Some(Mode::Dfu));
    assert_eq!(Mode::from_byte(1), Some(Mode::MassStorage));
    assert_eq!(Mode::from_byte(2), Some(Mode::Jtag));
    assert_eq!(Mode::from_byte(3), Some(Mode::Swim));
    assert_eq!(Mode::from_byte(4), None);
}

#[test]
fn blank_debug_port_registers_are_rejected() {
    // A Debug Port address with a blank upper nibble always fails; other
    // cases do not fail with that error.
    let mut probe = probe_v2();
    assert_eq!(
        probe.read_register(PortType::DebugPort, 0x04),
        Err(StlinkError::BlanksNotAllowedOnDPRegister)
    );
    assert_eq!(
        probe.write_register(PortType::DebugPort, 0x00, 7),
        Err(StlinkError::BlanksNotAllowedOnDPRegister)
    );
    // A banked register selection on the Debug Port passes.
    let cmds = probe.read_register(PortType::DebugPort, 0xF4).unwrap();
    assert_eq!(
        cmds,
        vec![ProbeCommand::ReadDapReg {
            port: 0xFFFF,
            addr: 0xF4
        }]
    );
    // An Access Port register with a blank nibble passes.
    let cmds = probe.read_register(PortType::AccessPort(0), 0x00).unwrap();
    assert_eq!(
        cmds,
        vec![
            ProbeCommand::InitAp { apsel: 0 },
            ProbeCommand::ReadDapReg { port: 0, addr: 0 },
        ]
    );
}

#[test]
fn ap_switch_emits_close_then_open() {
    // With AP 0 open, a read on AP 1 closes AP 0, opens AP 1, then reads.
    let mut probe = probe_v2();
    probe.current_ap = Some(0);
    let cmds = probe.read_register(PortType::AccessPort(1), 0x00).unwrap();
    assert_eq!(
        cmds,
        vec![
            ProbeCommand::CloseAp { apsel: 0 },
            ProbeCommand::InitAp { apsel: 1 },
            ProbeCommand::ReadDapReg { port: 1, addr: 0 },
        ]
    );
    assert_eq!(probe.current_ap, Some(1));
    // The same AP again emits no switch.
    let cmds = probe.read_register(PortType::AccessPort(1), 0x04).unwrap();
    assert_eq!(cmds, vec![ProbeCommand::ReadDapReg { port: 1, addr: 4 }]);
}

#[test]
fn multi_ap_requires_recent_firmware() {
    let mut probe = STLink {
        hw_version: 2,
        jtag_version: 24,
        protocol: WireProtocol::Swd,
        current_ap: None,
    };
    assert!(!probe.multi_ap_supported());
    assert_eq!(
        probe.read_register(PortType::AccessPort(0), 0x00),
        Err(StlinkError::JTagDoesNotSupportMultipleAP)
    );
    assert_eq!(
        probe.open_ap(0),
        Err(StlinkError::JTagDoesNotSupportMultipleAP)
    );
    assert_eq!(
        probe.close_ap(0),
        Err(StlinkError::JTagDoesNotSupportMultipleAP)
    );
    let capable = probe_v2();
    assert!(capable.multi_ap_supported());
    assert_eq!(capable.open_ap(3), Ok(ProbeCommand::InitAp { apsel: 3 }));
    assert_eq!(capable.close_ap(3), Ok(ProbeCommand::CloseAp { apsel: 3 }));
}

#[test]
fn reset_and_frequency_commands() {
    let probe = probe_v2();
    assert_eq!(
        probe.drive_nreset(true),
        ProbeCommand::DriveNrst { state: 0x00 }
    );
    assert_eq!(
        probe.drive_nreset(false),
        ProbeCommand::DriveNrst { state: 0x01 }
    );
    assert_eq!(
        probe.target_reset(),
        ProbeCommand::DriveNrst { state: 0x02 }
    );
    assert_eq!(
        probe.set_swd_frequency(SwdFrequencyToDelayCount::Hz1800000),
        ProbeCommand::SwdSetFreq { code: 1 }
    );
    assert_eq!(
        probe.set_jtag_frequency(JTagFrequencyToDivider::Hz9000000),
        ProbeCommand::JtagSetFreq { code: 4 }
    );
}

#[test]
fn init_sequence_from_dfu_mode() {
    // A fresh probe in DFU mode: mode query, DFU exit, version query
    // (hw = 2, jtag = 30), voltage query, done.
    let mut probe = STLink::new();
    let (phase, action) = probe.init_start();
    assert_eq!(phase, InitPhase::ProbeMode { retrying: false });
    assert_eq!(action, ProbeAction::Send(ProbeCommand::GetCurrentMode));

    let (phase, action) = probe.init_step(phase, &ProbeEvent::Received(vec![0x00, 0x00]));
    assert_eq!(phase, InitPhase::ModeExit { retrying: false });
    assert_eq!(action, ProbeAction::Send(ProbeCommand::DfuExit));

    let (phase, action) = probe.init_step(phase, &ProbeEvent::Received(vec![]));
    assert_eq!(phase, InitPhase::Version);
    assert_eq!(action, ProbeAction::Send(ProbeCommand::GetVersion));

    let version = vec![0x27, 0x80, 0x04, 0x83, 0x37, 0x48];
    let (phase, action) = probe.init_step(phase, &ProbeEvent::Received(version));
    assert_eq!(probe.hw_version, 2);
    assert_eq!(probe.jtag_version, 30);
    assert_eq!(phase, InitPhase::Voltage);
    assert_eq!(action, ProbeAction::Send(ProbeCommand::GetTargetVoltage));

    let voltage = vec![0xD8, 0x04, 0x00, 0x00, 0x64, 0x06, 0x00, 0x00];
    let (phase, action) = probe.init_step(phase, &ProbeEvent::Received(voltage));
    assert_eq!(phase, InitPhase::Complete);
    assert_eq!(action, ProbeAction::Done);
}

#[test]
fn init_retries_once_after_a_usb_fault() {
    let mut probe = STLink::new();
    let (phase, _) = probe.init_start();
    let (phase, action) = probe.init_step(phase, &ProbeEvent::Failed(StlinkError::Usb));
    assert_eq!(phase, InitPhase::UsbReset);
    assert_eq!(action, ProbeAction::ResetUsb);
    let (phase, action) = probe.init_step(phase, &ProbeEvent::ResetOk);
    assert_eq!(phase, InitPhase::ProbeMode { retrying: true });
    assert_eq!(action, ProbeAction::Send(ProbeCommand::GetCurrentMode));
    // A second USB fault is fatal.
    let (phase, action) = probe.init_step(phase, &ProbeEvent::Failed(StlinkError::Usb));
    assert_eq!(phase, InitPhase::Failed);
    assert_eq!(action, ProbeAction::Fail(StlinkError::Usb));
}

#[test]
fn init_rejects_bad_firmware() {
    // jtag == 0: JTAG unsupported.
    let mut probe = STLink::new();
    let (phase, _) = probe.init_start();
    let (phase, _) = probe.init_step(phase, &ProbeEvent::Received(vec![0x02, 0x00]));
    assert_eq!(phase, InitPhase::Version);
    let version = vec![0x20, 0x00, 0, 0, 0, 0];
    let (phase, action) = probe.init_step(phase, &ProbeEvent::Received(version));
    assert_eq!(phase, InitPhase::Failed);
    assert_eq!(
        action,
        ProbeAction::Fail(StlinkError::JtagNotSupportedOnProbe)
    );

    // hw < 3 and jtag < 24: outdated.
    let mut probe = STLink::new();
    let (phase, _) = probe.init_start();
    let (phase, _) = probe.init_step(phase, &ProbeEvent::Received(vec![0x02, 0x00]));
    // hw = 2, jtag = 23: word is 2 << 12 | 23 << 6 = 0x25C0.
    let version = vec![0x25, 0xC0, 0, 0, 0, 0];
    let (phase, action) = probe.init_step(phase, &ProbeEvent::Received(version));
    assert_eq!(phase, InitPhase::Failed);
    assert_eq!(action, ProbeAction::Fail(StlinkError::ProbeFirmwareOutdated));

    // An unknown mode byte is fatal.
    let mut probe = STLink::new();
    let (phase, _) = probe.init_start();
    let (phase, action) = probe.init_step(phase, &ProbeEvent::Received(vec![0x07, 0x00]));
    assert_eq!(phase, InitPhase::Failed);
    assert_eq!(action, ProbeAction::Fail(StlinkError::UnknownMode));
}

#[test]
fn init_reads_extended_version_on_v3_probes() {
    let mut probe = STLink::new();
    let (phase, _) = probe.init_start();
    let (phase, _) = probe.init_step(phase, &ProbeEvent::Received(vec![0x02, 0x00]));
    // hw = 3: word is 3 << 12 | 5 << 6 = 0x3140; the extended query follows.
    let version = vec![0x31, 0x40, 0, 0, 0, 0];
    let (phase, action) = probe.init_step(phase, &ProbeEvent::Received(version));
    assert_eq!(phase, InitPhase::VersionExt);
    assert_eq!(action, ProbeAction::Send(ProbeCommand::GetVersionExt));
    let ext = vec![3, 0, 7, 0, 0, 0, 0, 0, 0, 0, 0, 0];
    let (phase, action) = probe.init_step(phase, &ProbeEvent::Received(ext));
    assert_eq!(probe.hw_version, 3);
    assert_eq!(probe.jtag_version, 7);
    assert_eq!(phase, InitPhase::Voltage);
    assert_eq!(action, ProbeAction::Send(ProbeCommand::GetTargetVoltage));
}

#[test]
fn attach_enters_swd_after_leaving_dfu() {
    let mut probe = probe_v2();
    probe.select_protocol(WireProtocol::Swd).unwrap();
    let (phase, action) = probe.attach_start();
    assert_eq!(phase, AttachPhase::ProbeMode);
    assert_eq!(action, ProbeAction::Send(ProbeCommand::GetCurrentMode));
    let (phase, action) = probe.attach_step(phase, &ProbeEvent::Received(vec![0x00, 0x00]));
    assert_eq!(phase, AttachPhase::ModeExit);
    assert_eq!(action, ProbeAction::Send(ProbeCommand::DfuExit));
    let (phase, action) = probe.attach_step(phase, &ProbeEvent::Received(vec![]));
    assert_eq!(phase, AttachPhase::Enter);
    assert_eq!(
        action,
        ProbeAction::Send(ProbeCommand::JtagEnter {
            protocol: WireProtocol::Swd
        })
    );
    let (phase, action) = probe.attach_step(phase, &ProbeEvent::Received(vec![0x80, 0x00]));
    assert_eq!(phase, AttachPhase::Complete);
    assert_eq!(action, ProbeAction::Done);
}

#[test]
fn attach_reports_a_failed_enter_status() {
    let probe = probe_v2();
    let (phase, _) = probe.attach_start();
    let (phase, _) = probe.attach_step(phase, &ProbeEvent::Received(vec![0x02, 0x00]));
    assert_eq!(phase, AttachPhase::Enter);
    let (phase, action) = probe.attach_step(phase, &ProbeEvent::Received(vec![0x09, 0x00]));
    assert_eq!(phase, AttachPhase::Failed);
    assert_eq!(action, ProbeAction::Fail(StlinkError::CommandFailed(0x09)));
}

#[test]
fn enter_idle_leaves_swim_mode() {
    let probe = probe_v2();
    let (phase, action) = probe.enter_idle_start();
    assert_eq!(action, ProbeAction::Send(ProbeCommand::GetCurrentMode));
    let (phase, action) = probe.enter_idle_step(phase, &ProbeEvent::Received(vec![0x03, 0x00]));
    assert_eq!(action, ProbeAction::Send(ProbeCommand::SwimExit));
    let (_, action) = probe.enter_idle_step(phase, &ProbeEvent::Received(vec![]));
    assert_eq!(action, ProbeAction::Done);
    // A probe already idle finishes at once.
    let (phase, _) = probe.enter_idle_start();
    let (_, action) = probe.enter_idle_step(phase, &ProbeEvent::Received(vec![0x02, 0x00]));
    assert_eq!(action, ProbeAction::Done);
}

#[test]
fn probe_state_accessors() {
    let probe = STLink::new();
    assert_eq!(probe.get_name(), "ST-Link");
    assert_eq!(probe.hw_version, 0);
    assert_eq!(probe.jtag_version, 0);
    assert_eq!(probe.protocol, WireProtocol::Swd);
    assert_eq!(probe.current_ap, None);
    assert_eq!(PortType::DebugPort.as_raw(), 0xFFFF);
    assert_eq!(PortType::AccessPort(5).as_raw(), 5);
}
