use linux2rest::model::{clean_label, parse_cpu_name, HardwareModel};
use linux2rest::netstat::{
    build_netstat, SocketInfo, SocketProtocolInfo, TcpSocketInfo, UdpSocketInfo,
};
use linux2rest::platform::{decode_throttled_bits, Event, Events, EventType, Platform};
use linux2rest::recorder::should_log;
use linux2rest::serial::UsbPortInfo;
use linux2rest::system::seconds_or_zero;
use linux2rest::text::{lines, parse_hex_u64, parse_u64, split, trim, trim_nuls};
use linux2rest::udev::{DeviceUdevProperties, GenericSerializer};

#[test]
fn decimal_parsing_matches_from_str() {
    assert_eq!(parse_u64("0"), Some(0));
    assert_eq!(parse_u64("123"), Some(123));
    assert_eq!(parse_u64("+7"), Some(7));
    assert_eq!(parse_u64("18446744073709551615"), Some(u64::MAX));
    assert_eq!(parse_u64("18446744073709551616"), None);
    assert_eq!(parse_u64(""), None);
    assert_eq!(parse_u64("+"), None);
    assert_eq!(parse_u64("-1"), None);
    assert_eq!(parse_u64("12a"), None);
    assert_eq!(parse_u64(" 12"), None);
}

#[test]
fn hex_parsing_matches_from_str_radix() {
    assert_eq!(parse_hex_u64("0"), Some(0));
    assert_eq!(parse_hex_u64("ff"), Some(255));
    assert_eq!(parse_hex_u64("FF"), Some(255));
    assert_eq!(parse_hex_u64("50000"), Some(0x50000));
    assert_eq!(parse_hex_u64("ffffffffffffffff"), Some(u64::MAX));
    assert_eq!(parse_hex_u64("10000000000000000"), None);
    assert_eq!(parse_hex_u64("0x10"), None);
    assert_eq!(parse_hex_u64("g"), None);
    assert_eq!(parse_hex_u64(""), None);
}

#[test]
fn trimming_matches_std() {
    assert_eq!(trim("  a b\t\n"), "a b");
    assert_eq!(trim(""), "");
    assert_eq!(trim(" \t "), "");
    assert_eq!(trim("x"), "x");
    assert_eq!(trim_nuls("\0\0abc\0"), "abc");
    assert_eq!(trim_nuls("abc"), "abc");
    assert_eq!(trim_nuls("\0"), "");
}

#[test]
fn cleaning_trims_whitespace_then_nul_padding() {
    assert_eq!(clean_label(" Raspberry Pi 4 Model B\0 "), "Raspberry Pi 4 Model B");
    assert_eq!(clean_label("\0 x \0"), " x ");
    assert_eq!(clean_label("  \0\0  "), "");
}

#[test]
fn splitting_matches_std() {
    let pieces = split("a,b,,c", ',');
    assert_eq!(pieces, vec!["a", "b", "", "c"]);
    assert_eq!(split("", ','), vec![""]);
    assert_eq!(split(",", ','), vec!["", ""]);
    assert_eq!(split("abc", ','), vec!["abc"]);
}

#[test]
fn lines_match_std() {
    assert_eq!(lines("a\nb"), vec!["a", "b"]);
    assert_eq!(lines("a\nb\n"), vec!["a", "b"]);
    assert_eq!(lines("a\r\nb\r\n"), vec!["a", "b"]);
    assert_eq!(lines("a\n\nb"), vec!["a", "", "b"]);
    assert_eq!(lines(""), vec![] as Vec<String>);
}

#[test]
fn cpu_name_is_read_from_the_model_name_line() {
    let stdout = "Architecture: x86_64\nModel name:   Intel(R) Xeon(R)\0 \nStepping: 1\n";
    assert_eq!(parse_cpu_name(stdout), "Intel(R) Xeon(R)");
    assert_eq!(parse_cpu_name("nothing here\n"), "Unknown");
    assert_eq!(parse_cpu_name(""), "Unknown");
    let windows_endings = "Model name:\tARMv7 Processor\r\n";
    assert_eq!(parse_cpu_name(windows_endings), "ARMv7 Processor");
}

#[test]
fn hardware_model_keeps_its_fields() {
    let m = HardwareModel::new(
        "Board".to_string(),
        "aarch64".to_string(),
        "BCM2711".to_string(),
    );
    assert_eq!(m.model, "Board");
    assert_eq!(m.arch, "aarch64");
    assert_eq!(m.cpu_name, "BCM2711");
}

#[test]
fn throttling_bits_decode_in_documented_order() {
    let events = decode_throttled_bits(0b1011, 77);
    assert_eq!(
        events,
        vec![
            Event { time: 77, typ: EventType::UnderVoltage },
            Event { time: 77, typ: EventType::FrequencyCapping },
            Event { time: 77, typ: EventType::TemperatureLimit },
        ]
    );
    assert_eq!(decode_throttled_bits(0, 77), vec![]);
    assert_eq!(
        decode_throttled_bits(0b100, 1),
        vec![Event { time: 1, typ: EventType::Throttling }]
    );
}

#[test]
fn event_history_replaces_occurring_and_extends_list() {
    let mut events = Events::default();
    events.apply_throttled_bits(0b1, 1);
    events.apply_throttled_bits(0b10, 2);
    assert_eq!(
        events.occurring,
        vec![Event { time: 2, typ: EventType::FrequencyCapping }]
    );
    assert_eq!(
        events.list,
        vec![
            Event { time: 1, typ: EventType::UnderVoltage },
            Event { time: 2, typ: EventType::FrequencyCapping },
        ]
    );
    let platform = Platform::new("Pi".to_string(), "BCM2711".to_string(), events);
    assert_eq!(platform.raspberry.model, "Pi");
    assert_eq!(platform.raspberry.soc, "BCM2711");
    assert_eq!(platform.raspberry.events.list.len(), 2);
}

#[test]
fn netstat_partitions_sockets_in_query_order() {
    let sockets = vec![
        SocketInfo {
            protocol: SocketProtocolInfo::Tcp(TcpSocketInfo {
                local_address: "127.0.0.1".to_string(),
                local_port: 80,
                remote_address: "10.0.0.2".to_string(),
                remote_port: 50000,
                state: "ESTABLISHED".to_string(),
            }),
            associated_pids: vec![10],
        },
        SocketInfo {
            protocol: SocketProtocolInfo::Udp(UdpSocketInfo {
                local_address: "0.0.0.0".to_string(),
                local_port: 53,
            }),
            associated_pids: vec![20, 21],
        },
        SocketInfo {
            protocol: SocketProtocolInfo::Tcp(TcpSocketInfo {
                local_address: "0.0.0.0".to_string(),
                local_port: 22,
                remote_address: "0.0.0.0".to_string(),
                remote_port: 0,
                state: "LISTEN".to_string(),
            }),
            associated_pids: vec![],
        },
    ];
    let report = build_netstat(sockets);
    assert_eq!(report.tcp.len(), 2);
    assert_eq!(report.udp.len(), 1);
    assert_eq!(report.tcp[0].local.address, "127.0.0.1");
    assert_eq!(report.tcp[0].local.port, 80);
    assert_eq!(report.tcp[0].remote.port, 50000);
    assert_eq!(report.tcp[0].state, "ESTABLISHED");
    assert_eq!(report.tcp[0].pids, vec![10]);
    assert_eq!(report.tcp[1].local.port, 22);
    assert_eq!(report.tcp[1].state, "LISTEN");
    assert_eq!(report.udp[0].local.address, "0.0.0.0");
    assert_eq!(report.udp[0].local.port, 53);
    assert_eq!(report.udp[0].pids, vec![20, 21]);
}

#[test]
fn recorder_fires_every_interval_ticks() {
    assert!(should_log(0, 5));
    assert!(should_log(10, 5));
    assert!(!should_log(3, 5));
    assert!(should_log(7, 7));
    assert!(should_log(0, 1));
    assert!(should_log(41, 1));
}

#[test]
fn clock_readings_default_to_zero_before_the_epoch() {
    assert_eq!(seconds_or_zero(Some(1700000000)), 1700000000);
    assert_eq!(seconds_or_zero(None), 0);
}

#[test]
fn plain_records_keep_their_fields() {
    let port = UsbPortInfo::new(0x1234, 0x5678, Some("sn".to_string()), None, None);
    assert_eq!(port.vid, 0x1234);
    assert_eq!(port.pid, 0x5678);
    assert_eq!(port.serial_number.as_deref(), Some("sn"));
    assert!(port.manufacturer.is_none());
    let props = DeviceUdevProperties {
        properties: vec![("ID_MODEL".to_string(), "device".to_string())],
    };
    assert_eq!(props.properties[0].0, "ID_MODEL");
    let wrapped = GenericSerializer::from(5u32);
    assert_eq!(wrapped.0, 5);
}
