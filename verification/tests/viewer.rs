use dfsdm_viz::events::PortInfo;
use dfsdm_viz::viewer::{
    effective_sample_rate, history_capacity, port_display_label, port_selector_text, reselect_port,
    wav_file_name,
};

fn port(name: &str, desc: &str) -> PortInfo {
    PortInfo { name: name.to_string(), description: desc.to_string() }
}

#[test]
fn reselect_keeps_port_by_name() {
    let old = vec![port("COM1", ""), port("COM3", "STLink")];
    let new = vec![port("COM2", ""), port("COM3", "STLink"), port("COM4", "")];
    assert_eq!(reselect_port(Some(1), &old, &new), Some(1));
    let moved = vec![port("COM3", "x"), port("COM1", "")];
    assert_eq!(reselect_port(Some(0), &old, &moved), Some(1));
}

#[test]
fn reselect_falls_back_to_first() {
    let old = vec![port("COM1", "")];
    let new = vec![port("COM7", ""), port("COM8", "")];
    assert_eq!(reselect_port(Some(0), &old, &new), Some(0));
    assert_eq!(reselect_port(None, &old, &new), Some(0));
    assert_eq!(reselect_port(Some(5), &old, &new), Some(0));
}

#[test]
fn reselect_none_when_no_ports() {
    let old = vec![port("COM1", "")];
    assert_eq!(reselect_port(Some(0), &old, &Vec::new()), None);
    assert_eq!(reselect_port(None, &Vec::new(), &Vec::new()), None);
}

#[test]
fn reselect_picks_first_duplicate() {
    let old = vec![port("COM1", "")];
    let new = vec![port("COM9", ""), port("COM1", "a"), port("COM1", "b")];
    assert_eq!(reselect_port(Some(0), &old, &new), Some(1));
}

#[test]
fn port_labels() {
    assert_eq!(port_display_label(&port("COM3", "")), "COM3");
    assert_eq!(port_display_label(&port("COM3", "STLink")), "COM3  (STLink)");
}

#[test]
fn port_selector_texts() {
    let ports = vec![port("COM3", "STLink")];
    assert_eq!(port_selector_text(Some(0), &ports, false), "COM3  (STLink)");
    assert_eq!(port_selector_text(None, &ports, true), "(scanning…)");
    assert_eq!(port_selector_text(None, &Vec::new(), false), "(no ports)");
    assert_eq!(port_selector_text(None, &ports, false), "(select port)");
    assert_eq!(port_selector_text(Some(4), &ports, false), "(select port)");
}

#[test]
fn sample_rate_defaults() {
    assert_eq!(effective_sample_rate(0), 32_000);
    assert_eq!(effective_sample_rate(48_000), 48_000);
    assert_eq!(history_capacity(32_000), 960_000);
    assert_eq!(history_capacity(u32::MAX), 30 * u32::MAX as u64);
}

#[test]
fn wav_names() {
    assert_eq!(wav_file_name("20260622_101500"), "DFSDM_20260622_101500.wav");
}
