use rcd_server::config::RunLocation;
use rcd_server::csv_parser::{BitIndex, Config, DeviceConfig, Record};
use rcd_server::model::CommandType;
use rcd_server::protocol::threshold;
use rcd_server::serial::manager::{expected_frame_len, format_hex, split_frame, DeviceRuntimeState, LinkState};
use rcd_server::serial::port_config::{group_by_port, SerialPortConfig};
use rcd_server::serial::worker::{build_poll_frame, plan_poll, PollAction};
use rcd_server::server::opcua::{
    expected_type_from_str, forward_hex_command, forwarded_message, plan_browse_names, written_updates,
    ExpectedType,
};
use rcd_server::server::tcp::route_command;

// ---- should_broadcast ----

#[test]
fn should_broadcast_data_changed() {
    let mut state = DeviceRuntimeState::new();
    assert!(state.should_broadcast(&[1, 2, 3]));
}

#[test]
fn should_broadcast_same_data_below_threshold() {
    let mut state = DeviceRuntimeState::new();
    state.should_broadcast(&[1, 2, 3]);
    for _ in 0..threshold::SAME_DATA_BROADCAST - 1 {
        assert!(!state.should_broadcast(&[1, 2, 3]));
    }
}

#[test]
fn should_broadcast_same_data_at_threshold() {
    let mut state = DeviceRuntimeState::new();
    state.should_broadcast(&[1, 2, 3]);
    for _ in 0..threshold::SAME_DATA_BROADCAST - 1 {
        state.should_broadcast(&[1, 2, 3]);
    }
    assert!(state.should_broadcast(&[1, 2, 3]));
}

#[test]
fn should_broadcast_reset_on_change() {
    let mut state = DeviceRuntimeState::new();
    state.should_broadcast(&[1, 2, 3]);
    state.should_broadcast(&[1, 2, 3]);
    state.should_broadcast(&[1, 2, 3]);
    assert!(state.should_broadcast(&[4, 5, 6]));
    assert!(!state.should_broadcast(&[4, 5, 6]));
}

#[test]
fn should_broadcast_every_period_and_initial_zero() {
    let mut state = DeviceRuntimeState::new();
    // A fresh state holds a single zero byte: that exact reading is not new.
    assert!(!state.should_broadcast(&[0]));
    let mut published = Vec::new();
    for i in 1..=25u32 {
        if state.should_broadcast(&[7]) {
            published.push(i);
        }
    }
    assert_eq!(published, vec![1, 11, 21]);
}

// ---- frames ----

#[test]
fn frame_length_by_role() {
    assert_eq!(expected_frame_len(&[0x0B, 0x08, 0x03], RunLocation::Primary), 8);
    // standby: header, separator, then the frame's length byte
    let buf = [1, 2, 3, 4, 5, 6, 7, 0, 0, 0x0B, 0x08, 0x02, 9];
    assert_eq!(expected_frame_len(&buf, RunLocation::Secondary), 9 + 2 + 5);
    assert_eq!(expected_frame_len(&[1, 2, 3, 0, 0, 4], RunLocation::Secondary), 7);
    assert_eq!(expected_frame_len(&[1, 2, 3], RunLocation::Secondary), 4);
}

#[test]
fn hex_formatting() {
    assert_eq!(format_hex(&[0x0A, 0x1B, 0xFF]), "0A 1B FF");
    assert_eq!(format_hex(&[]), "");
    assert_eq!(format_hex(&[0]), "00");
}

fn forwarded(addr: u8, frame: &[u8]) -> Vec<u8> {
    let mut header = vec![addr, 0x08, 0x02, 0x30, 0x10, 0x02];
    let sum = header.iter().fold(0u8, |a, b| a.wrapping_add(*b));
    header.push(sum);
    header.extend_from_slice(&[0, 0]);
    header.extend_from_slice(frame);
    header
}

#[test]
fn split_frames() {
    let ids = vec![11u8, 12, 13];
    let frame = [12u8, 0x08, 0x01, 0xAA, 0xBB, 0x77];
    let mut buf = forwarded(12, &frame);
    buf.push(0xEE); // trailing noise beyond the frame length
    let s = split_frame(&buf, RunLocation::Secondary, RunLocation::Secondary, &ids);
    assert_eq!(s.frame, frame.to_vec());
    assert_eq!(s.device_index, Some(1));
    assert!(!s.back_to_standby);

    // a primary takes the buffer as it is
    let s = split_frame(&buf, RunLocation::Primary, RunLocation::Primary, &ids);
    assert_eq!(s.frame, buf);
    assert_eq!(s.device_index, None);

    // a promoted standby that sees a forwarded frame steps back
    let s = split_frame(&buf, RunLocation::Secondary, RunLocation::Primary, &ids);
    assert!(s.back_to_standby);
    assert_eq!(s.frame, frame.to_vec());

    // a header with a bad checksum selects no device
    let mut bad = buf.clone();
    bad[6] = bad[6].wrapping_add(1);
    let s = split_frame(&bad, RunLocation::Secondary, RunLocation::Secondary, &ids);
    assert_eq!(s.device_index, None);
    assert_eq!(s.frame, frame.to_vec());
}

#[test]
fn link_failover_and_polling() {
    let mut link = LinkState::new(RunLocation::Secondary, RunLocation::Secondary, vec![11, 12], vec![8, 4]);
    for _ in 0..threshold::PORT_FAILOVER_TIMEOUT {
        assert!(link.record_timeout().is_none());
    }
    let msg = link.record_timeout().expect("standby takes over");
    assert_eq!(msg, "角色切换 备机 → 主机：超时过多，备机升级为主机");
    assert_eq!(link.current_run, RunLocation::Primary);
    assert_eq!(link.time_out_count, 0);
    assert_eq!(link.devices[0].timeout_count, 0);

    // the promoted standby sees a forwarded frame and steps back
    let frame = [12u8, 0x08, 0x01, 0xAA, 0xBB, 0x77];
    let (got, msg) = link.take_frame(&forwarded(12, &frame));
    assert_eq!(got, frame.to_vec());
    assert_eq!(msg.unwrap(), "角色切换 主机 → 备机：检测到主机转发帧，切回备机");
    assert_eq!(link.current_run, RunLocation::Secondary);
    assert_eq!(link.index, 1);

    let mut primary = LinkState::new(RunLocation::Primary, RunLocation::Primary, vec![11, 12], vec![8, 4]);
    match plan_poll(&mut primary) {
        PollAction::Send(sd) => {
            assert_eq!(sd.device_id, 1);
            assert_eq!(sd.command, build_poll_frame(11, 8));
            assert_eq!(sd.command, vec![11, 0x08, 0x02, 0x30, 0x10, 8, 11 + 8 + 2 + 0x30 + 0x10 + 8]);
        },
        _ => panic!("expected a query"),
    }
    primary.advance();
    assert_eq!(primary.index, 1);
    primary.set_device_enabled(12, false);
    assert!(matches!(plan_poll(&mut primary), PollAction::Idle));
    primary.advance();
    assert_eq!(primary.index, 0);
    for _ in 0..=threshold::DEVICE_TIMEOUT_SKIP {
        primary.record_timeout();
    }
    assert!(matches!(plan_poll(&mut primary), PollAction::Skip));
    assert_eq!(primary.index, 1);
    assert_eq!(primary.devices[0].current_round, 1);

    let mut promoted = LinkState::new(RunLocation::Secondary, RunLocation::Primary, vec![11], vec![8]);
    for _ in 0..threshold::PARSE_FAIL_FAILOVER {
        assert!(promoted.record_parse_failure().is_none());
    }
    assert_eq!(
        promoted.record_parse_failure().unwrap(),
        "角色切换 主机 → 备机：解析失败过多，切换为备机"
    );
    assert_eq!(promoted.current_run, RunLocation::Secondary);
}

// ---- port configuration ----

fn make_record(kks: &str) -> Record {
    Record {
        kks: kks.to_string(),
        type_: "uint".to_string(),
        _f_type: String::new(),
        byte_index: 1,
        bit_index: BitIndex::Single(0),
        _def: 0,
        _max: 0,
        _min: 0,
        byte_order: 0,
    }
}

fn make_device(device_id: u8, kks_list: &[&str]) -> DeviceConfig {
    DeviceConfig {
        config: Config {
            com: "ttyAP0".into(),
            baud_rate: 115200,
            is_special: false,
            com_index: 0,
            device_id,
            data_len: 8,
            kks_prefix: String::new(),
        },
        records: kks_list.iter().map(|k| make_record(k)).collect(),
    }
}

fn make_port(port_number: &str, devices: Vec<DeviceConfig>) -> SerialPortConfig {
    SerialPortConfig { port_number: port_number.to_string(), baud_rate: 115200, is_special: false, devices, status: true }
}

#[test]
fn runtime_state_lists_devices_online() {
    let port = make_port("COM3", vec![make_device(11, &["a"]), make_device(12, &["b"])]);
    let s = port.to_runtime_state();
    assert_eq!(s.port_number, "COM3");
    assert!(s.status);
    assert_eq!(s.device_status.len(), 2);
    assert_eq!(s.device_status.get(&11), Some(&true));
    assert_eq!(s.device_status.get(&12), Some(&true));
    let cfg = make_device(5, &[]).config;
    let p = SerialPortConfig::from_csv_config(&cfg);
    assert_eq!(p.port_number, "ttyAP0");
    assert!(p.devices.is_empty() && p.status);
}

#[test]
fn device_files_grouped_by_port() {
    let on = |com: &str, baud: u32, id: u8| {
        let mut d = make_device(id, &[]);
        d.config.com = com.to_string();
        d.config.baud_rate = baud;
        d
    };
    let ports = group_by_port(vec![on("COM2", 9600, 1), on("COM1", 19200, 2), on("COM2", 4800, 3), on("COM1", 1, 4)]);
    assert_eq!(ports.len(), 2);
    assert_eq!(ports[0].port_number, "COM2");
    assert_eq!(ports[0].baud_rate, 9600);
    assert_eq!(ports[0].devices.iter().map(|d| d.config.device_id).collect::<Vec<_>>(), vec![1, 3]);
    assert_eq!(ports[1].port_number, "COM1");
    assert_eq!(ports[1].baud_rate, 19200);
    assert_eq!(ports[1].devices.iter().map(|d| d.config.device_id).collect::<Vec<_>>(), vec![2, 4]);
    assert!(ports.iter().all(|p| p.status));
    assert!(group_by_port(vec![]).is_empty());
}

// ---- OPC UA plan ----

#[test]
fn device_data_node_uses_pure_kks() {
    let port = make_port("ttyAP0", vec![make_device(11, &["9CYE91GH201_READY", "9CYE91GH201_SL1"])]);
    let (data_names, _) = plan_browse_names(&vec![port], &vec![]);
    assert!(data_names.contains(&"9CYE91GH201_READY".to_string()));
    assert!(data_names.contains(&"9CYE91GH201_SL1".to_string()));
    assert!(!data_names.iter().any(|n| n.contains("ttyAP0")), "{:?}", data_names);
}

#[test]
fn send_node_keeps_port_prefix() {
    let port = make_port("ttyAP0", vec![make_device(11, &["X"])]);
    let (_, send_pairs) = plan_browse_names(&vec![port], &vec![]);
    assert_eq!(send_pairs.len(), 1);
    assert_eq!(send_pairs[0].0, "ttyAP0");
    assert_eq!(send_pairs[0].1, "ttyAP0_Send");
}

#[test]
fn calc_derived_uses_pure_kks() {
    let port = make_port("ttyAP0", vec![make_device(11, &["base"])]);
    let (data_names, _) = plan_browse_names(&vec![port], &vec!["91UGM91110_Fire".to_string()]);
    assert!(data_names.contains(&"91UGM91110_Fire".to_string()));
    assert!(!data_names.iter().any(|n| n.contains("ttyAP0_Fire")), "{:?}", data_names);
}

#[test]
fn multi_port_device_keeps_each_send() {
    let p0 = make_port("ttyAP0", vec![make_device(11, &["a"])]);
    let p1 = make_port("ttyAP1", vec![make_device(12, &["b"])]);
    let (data_names, send_pairs) = plan_browse_names(&vec![p0, p1], &vec![]);
    assert_eq!(data_names, vec!["a", "b"]);
    assert_eq!(
        send_pairs,
        vec![("ttyAP0".to_string(), "ttyAP0_Send".to_string()), ("ttyAP1".to_string(), "ttyAP1_Send".to_string())]
    );
}

#[test]
fn written_hex_commands() {
    let cmd = forward_hex_command(" 0a 1B\tFF ", "ttyAP0").unwrap();
    assert_eq!(cmd.com, "ttyAP0");
    match cmd.command {
        CommandType::SendData(sd) => {
            assert_eq!(sd.device_id, 0x0A);
            assert_eq!(sd.command, vec![0x0A, 0x1B, 0xFF, 0x24]);
        },
        _ => panic!("expected bytes"),
    }
    assert_eq!(forward_hex_command("0A", "c").unwrap_err(), "十六进制长度过短（至少需 2 字节）");
    assert_eq!(forward_hex_command("0A1", "c").unwrap_err(), "十六进制解析失败: Hex 字符串长度不是偶数");
    assert_eq!(forward_hex_command("0G11", "c").unwrap_err(), "十六进制解析失败: invalid digit found in string");
    assert_eq!(forwarded_message("ttyAP0", 10), "已发送到 ttyAP0 设备 10");
    assert_eq!(expected_type_from_str("Bool"), ExpectedType::Bool);
    assert_eq!(expected_type_from_str("double"), ExpectedType::Float64);
    assert_eq!(expected_type_from_str("text"), ExpectedType::Float32);
}

#[test]
fn client_commands_route_to_first_port_with_the_name() {
    let ports = vec!["COM1".to_string(), "COM2".to_string(), "COM2".to_string()];
    assert_eq!(route_command(&ports, "COM2"), Some(1));
    assert_eq!(route_command(&ports, "COM9"), None);
}

#[test]
fn only_published_readings_are_written() {
    let published: Vec<String> = vec!["K1".into(), "K3".into(), "OUT".into()];
    let names: Vec<String> = vec!["K3".into(), "K2".into(), "OUT".into(), "k1".into()];
    assert_eq!(written_updates(&published, &names), vec![0, 2]);
}
