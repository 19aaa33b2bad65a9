use dfsdm_viz::connection_manager::{
    port_info_from, ConnInput, ConnOp, ConnPhase, ConnectionManager, Notice, SerialPortDetails,
    UsbPortDetails,
};
use dfsdm_viz::events::ConnCmd;

fn frame(samples: &[i16]) -> Vec<u8> {
    let mut v = vec![0xAA, 0x55, 0xAA, 0x55];
    for s in samples {
        v.extend_from_slice(&s.to_le_bytes());
    }
    v
}

fn connected(name: &str) -> ConnectionManager {
    let mut m = ConnectionManager::new();
    let (n, op) = m.step(ConnInput::Command(ConnCmd::Connect(name.to_string(), 921_600)));
    assert!(n.is_empty());
    assert!(matches!(op, ConnOp::Open(ref p, 921_600) if p == name));
    let (n, op) = m.step(ConnInput::Opened);
    assert_eq!(n.len(), 1);
    assert!(matches!(n[0], Notice::Connected));
    assert!(matches!(op, ConnOp::PollCommand));
    assert_eq!(m.current_phase(), ConnPhase::Reading);
    m
}

#[test]
fn manager_idle_ignores_disconnect() {
    let mut m = ConnectionManager::new();
    let (n, op) = m.step(ConnInput::Command(ConnCmd::Disconnect));
    assert!(n.is_empty());
    assert!(matches!(op, ConnOp::WaitCommand));
    assert_eq!(m.current_phase(), ConnPhase::Idle);
}

#[test]
fn manager_open_failure_reports_error_then_disconnected() {
    let mut m = ConnectionManager::new();
    let _ = m.step(ConnInput::Command(ConnCmd::Connect("COM3".to_string(), 9600)));
    let (n, op) = m.step(ConnInput::OpenFailed("access denied".to_string()));
    assert_eq!(n.len(), 2);
    assert!(matches!(n[0], Notice::Error(ref s) if s == "Failed to open COM3: access denied"));
    assert!(matches!(n[1], Notice::Disconnected));
    assert!(matches!(op, ConnOp::WaitCommand));
    assert_eq!(m.current_phase(), ConnPhase::Idle);
}

#[test]
fn manager_poll_then_read() {
    let mut m = connected("/dev/ttyUSB0");
    let (n, op) = m.step(ConnInput::NoCommand);
    assert!(n.is_empty());
    assert!(matches!(op, ConnOp::Read));
    let (n, op) = m.step(ConnInput::ReadTimedOut);
    assert!(n.is_empty());
    assert!(matches!(op, ConnOp::PollCommand));
    let (n, op) = m.step(ConnInput::Received(Vec::new()));
    assert!(n.is_empty());
    assert!(matches!(op, ConnOp::PollCommand));
}

#[test]
fn manager_forwards_decoded_bursts() {
    let mut m = connected("/dev/ttyUSB0");
    let b: Vec<i16> = (0..1024).map(|i| (i * 3 - 1500) as i16).collect();
    let f = frame(&b);
    let (n, op) = m.step(ConnInput::Received(f[..700].to_vec()));
    assert!(n.is_empty());
    assert!(matches!(op, ConnOp::PollCommand));
    let mut two = f[700..].to_vec();
    two.extend(frame(&b));
    let (n, _) = m.step(ConnInput::Received(two));
    assert_eq!(n.len(), 2);
    for notice in &n {
        assert!(matches!(notice, Notice::Samples(ref v) if *v == b));
    }
}

#[test]
fn manager_read_error_names_first_port() {
    let mut m = connected("COM3");
    let (n, op) = m.step(ConnInput::Command(ConnCmd::Connect("COM4".to_string(), 115_200)));
    assert_eq!(n.len(), 1);
    assert!(matches!(n[0], Notice::Disconnected));
    assert!(matches!(op, ConnOp::Open(ref p, 115_200) if p == "COM4"));
    let (n, _) = m.step(ConnInput::Opened);
    assert!(matches!(n[0], Notice::Connected));
    let (n, op) = m.step(ConnInput::ReadFailed("device gone".to_string()));
    assert_eq!(n.len(), 2);
    assert!(matches!(n[0], Notice::Error(ref s) if s == "Serial read error on COM3: device gone"));
    assert!(matches!(n[1], Notice::Disconnected));
    assert!(matches!(op, ConnOp::WaitCommand));
}

#[test]
fn manager_switch_failure_returns_to_idle() {
    let mut m = connected("COM3");
    let _ = m.step(ConnInput::Command(ConnCmd::Connect("COM9".to_string(), 9600)));
    let (n, op) = m.step(ConnInput::OpenFailed("no such port".to_string()));
    assert!(matches!(n[0], Notice::Error(ref s) if s == "Failed to open COM9: no such port"));
    assert!(matches!(n[1], Notice::Disconnected));
    assert!(matches!(op, ConnOp::WaitCommand));
    assert_eq!(m.current_phase(), ConnPhase::Idle);
}

#[test]
fn manager_disconnect_command() {
    let mut m = connected("COM3");
    let (n, op) = m.step(ConnInput::Command(ConnCmd::Disconnect));
    assert_eq!(n.len(), 1);
    assert!(matches!(n[0], Notice::Disconnected));
    assert!(matches!(op, ConnOp::WaitCommand));
    assert_eq!(m.current_phase(), ConnPhase::Idle);
}

#[test]
fn manager_exits_when_channels_close() {
    let mut m = ConnectionManager::new();
    let (n, op) = m.step(ConnInput::CommandsClosed);
    assert!(n.is_empty());
    assert!(matches!(op, ConnOp::Exit));
    assert_eq!(m.current_phase(), ConnPhase::Exited);
    let (_, op) = m.step(ConnInput::Command(ConnCmd::Connect("COM1".to_string(), 1)));
    assert!(matches!(op, ConnOp::Exit));

    let mut r = connected("COM3");
    let (_, op) = r.step(ConnInput::EventsClosed);
    assert!(matches!(op, ConnOp::Exit));

    let mut c = connected("COM3");
    let (_, op) = c.step(ConnInput::CommandsClosed);
    assert!(matches!(op, ConnOp::Exit));
}

#[test]
fn port_info_prefers_usb_product() {
    let p = port_info_from(SerialPortDetails {
        port_name: "/dev/ttyACM0".to_string(),
        usb: Some(UsbPortDetails {
            product: Some("STLink".to_string()),
            manufacturer: Some("STMicro".to_string()),
        }),
    });
    assert_eq!(p.name, "/dev/ttyACM0");
    assert_eq!(p.description, "STLink");
}

#[test]
fn port_info_falls_back_to_manufacturer() {
    let p = port_info_from(SerialPortDetails {
        port_name: "COM5".to_string(),
        usb: Some(UsbPortDetails { product: None, manufacturer: Some("FTDI".to_string()) }),
    });
    assert_eq!(p.description, "FTDI");
    let q = port_info_from(SerialPortDetails {
        port_name: "COM6".to_string(),
        usb: Some(UsbPortDetails { product: None, manufacturer: None }),
    });
    assert_eq!(q.description, "");
}

#[test]
fn port_info_non_usb_has_no_description() {
    let p = port_info_from(SerialPortDetails { port_name: "/dev/ttyS0".to_string(), usb: None });
    assert_eq!(p.name, "/dev/ttyS0");
    assert_eq!(p.description, "");
}
