use rcd_server::model::{get_sum, PortRuntimeState, SendData, SystemState};
use rcd_server::protocol::{hex_str_to_bytes, verify_checksum};
use std::collections::HashMap;

#[test]
fn get_sum_normal() {
    assert_eq!(get_sum(&[1, 2, 3, 4]), 10);
}

#[test]
fn get_sum_empty() {
    assert_eq!(get_sum(&[]), 0);
}

#[test]
fn get_sum_wrapping_overflow() {
    assert_eq!(get_sum(&[0xFF, 0x01, 0x02]), 0x02);
}

#[test]
fn get_sum_single() {
    assert_eq!(get_sum(&[0xAB]), 0xAB);
}

#[test]
fn command_as_string_is_upper_hex() {
    let d = SendData { device_id: 1, command: vec![0x0A, 0x1B, 0xFF] };
    assert_eq!(d.command_as_string(), "0A1BFF");
    let e = SendData { device_id: 1, command: vec![] };
    assert_eq!(e.command_as_string(), "");
}

#[test]
fn command_text_decodes_back() {
    let bytes = vec![0x00, 0x7F, 0x80, 0xFE, 0x0A];
    let d = SendData { device_id: 1, command: bytes.clone() };
    assert_eq!(hex_str_to_bytes(&d.command_as_string()), Ok(bytes));
}

#[test]
fn appended_sum_verifies() {
    let mut frame = vec![0x11, 0x08, 0x02, 0xF0, 0x99];
    frame.push(get_sum(&frame));
    assert!(verify_checksum(&frame));
    frame[0] ^= 1;
    assert!(!verify_checksum(&frame));
}

fn port(name: &str, ids: &[u8]) -> PortRuntimeState {
    PortRuntimeState {
        port_number: name.to_string(),
        status: true,
        device_status: ids.iter().map(|i| (*i, true)).collect::<HashMap<u8, bool>>(),
    }
}

#[test]
fn system_state_set_then_get() {
    let mut s = SystemState::new();
    s.add_port(port("COM1", &[1, 2]));
    s.add_port(port("COM2", &[3]));
    assert!(s.set_port_status("COM2", false).is_ok());
    assert!(s.set_device_status("COM1", 2, false).is_ok());
    let st = s.get_state();
    assert_eq!(st.len(), 2);
    assert!(st[0].status);
    assert!(!st[1].status);
    assert_eq!(st[0].device_status.get(&2), Some(&false));
    assert_eq!(st[0].device_status.get(&1), Some(&true));
}

#[test]
fn system_state_errors() {
    let mut s = SystemState::new();
    s.add_port(port("COM1", &[1]));
    assert_eq!(s.set_port_status("COM9", true).unwrap_err(), "端口 COM9 未找到");
    assert_eq!(s.set_device_status("COM9", 1, true).unwrap_err(), "端口 COM9 未找到");
    assert_eq!(
        s.set_device_status("COM1", 7, true).unwrap_err(),
        "设备 7 在端口 COM1 中未找到"
    );
    assert_eq!(
        s.add_device_status("COM1", 1, true).unwrap_err(),
        "Device ID 1 already exists in port COM1"
    );
    assert!(s.add_device_status("COM1", 200, false).is_ok());
    assert_eq!(s.get_state()[0].device_status.get(&200), Some(&false));
}
