use modbus_mqtt::codec::{
    RegisterNumeric, RegisterNumericAdjustment, RegisterParse, RegisterString, RegisterArray,
    RegisterValueType, Swap,
};
use modbus_mqtt::config::{
    parse_connect, parse_register_parse, duration_ms_of_str, DataBits, FlowControl, ModbusProto,
    Parity, StopBits, default_modbus_port, default_register_interval, default_address_offset,
    default_modbus_unit,
};

#[test]
fn connection_parse_minimal_tcp_connect_config() {
    let result = parse_connect(br#"{"proto": "tcp", "host": "1.1.1.1"}"#);

    let connect = result.unwrap();
    assert!(matches!(
        connect.settings,
        ModbusProto::Tcp {
            ref host,
            port: 502
        } if host == "1.1.1.1"
    ))
}

#[test]
fn connection_parse_full_tcp_connect_config() {
    let _ = parse_connect(
        br#"{
        "proto": "tcp",
        "host": "10.10.10.219",
        "unit": 1,
        "address_offset": -1,
        "input": [
            {"address": 5017, "type": "u32", "name": "dc_power", "swap_words": false, "period": "3s"},
            {"address": 5008, "type": "s16", "name": "internal_temperature", "period": "1m"},
            {"address": 13008, "type": "s32", "name": "load_power", "swap_words": false, "period": "3s"},
            {"address": 13010, "type": "s32", "name": "export_power", "swap_words": false, "period": "3s"},
            {"address": 13022, "name": "battery_power", "period": "3s"},
            {"address": 13023, "name": "battery_level", "period": "1m"},
            {"address": 13024, "name": "battery_health", "period": "10m"}
        ],
        "hold": [
            {"address": 13058, "name": "max_soc", "period": "90s"},
            {"address": 13059, "name": "min_soc", "period": "90s"}
        ]
    }"#,
    )
    .unwrap();
}

#[test]
fn connection_parse_minimal_rtu_connect_config() {
    let result = parse_connect(
        br#"{"proto": "rtu", "tty": "/dev/ttyUSB0", "baud_rate": 9600}"#,
    );

    let connect = result.unwrap();
    assert!(matches!(
        connect.settings,
        ModbusProto::Rtu {
            ref tty,
            baud_rate: 9600,
            data_bits: DataBits::Eight,
            stop_bits: StopBits::One,
            flow_control: FlowControl::Disabled,
            parity: Parity::Disabled,
            ..
        } if tty == "/dev/ttyUSB0"
    ))
}

#[test]
fn connection_parse_complete_rtu_connect_config() {
    let result = parse_connect(
        br#"{
        "proto": "rtu",
        "tty": "/dev/ttyUSB0",
        "baud_rate": 12800,
        "data_bits": "Seven",
        "stop_bits": "Two",
        "flow_control": "Software",
        "parity": "Even"
    }"#,
    );

    let connect = result.unwrap();
    assert!(matches!(
        connect.settings,
        ModbusProto::Rtu {
            ref tty,
            baud_rate: 12800,
            data_bits: DataBits::Seven,
            stop_bits: StopBits::Two,
            flow_control: FlowControl::Software,
            parity: Parity::Even,
            ..
        } if tty == "/dev/ttyUSB0"
    ),);
}

#[test]
fn register_parse_empty_register_parser_defaults() {
    let empty = parse_register_parse(b"{}");
    assert!(matches!(
        empty.unwrap(),
        RegisterParse {
            swap_bytes: Swap(false),
            swap_words: Swap(false),
            value_type: RegisterValueType::Numeric {
                of: RegisterNumeric::U16,
                adjust: RegisterNumericAdjustment {
                    scale: 0,
                    offset: 0,
                }
            }
        }
    ));
}

#[test]
fn register_parse_register_parser_type() {
    let result = parse_register_parse(br#"{"type": "s32"}"#);
    assert!(matches!(
        result.unwrap().value_type,
        RegisterValueType::Numeric {
            of: RegisterNumeric::I32,
            ..
        }
    ));
}

#[test]
fn register_parse_register_parser_array() {
    let result = parse_register_parse(br#"{"type": "array", "of": "s32", "count": 10}"#);
    let payload = result.unwrap();

    assert!(matches!(
        payload.value_type,
        RegisterValueType::Array(RegisterArray {
            of: RegisterNumeric::I32,
            count: 10,
            ..
        })
    ));
}

#[test]
fn register_parse_register_parser_array_implicit_u16() {
    let result = parse_register_parse(br#"{"type": "array", "count": 10}"#);
    let payload = result.unwrap();

    assert!(matches!(
        payload.value_type,
        RegisterValueType::Array(RegisterArray {
            of: RegisterNumeric::U16,
            count: 10,
            ..
        })
    ));
}

#[test]
fn register_parse_register_parser_string() {
    let result = parse_register_parse(br#"{"type": "string", "length": 10}"#);
    let payload = result.unwrap();

    assert!(matches!(
        payload.value_type,
        RegisterValueType::String(RegisterString { length: 10, .. })
    ));
}

#[test]
fn register_parse_register_parser_scale_etc() {
    let result = parse_register_parse(br#"{"type": "s32", "scale": -1, "offset": 20}"#);
    assert!(matches!(
        result.unwrap().value_type,
        RegisterValueType::Numeric {
            of: RegisterNumeric::I32,
            adjust: RegisterNumericAdjustment {
                scale: -1,
                offset: 20
            }
        }
    ));
}

#[test]
fn config_parse_empty_register_parser_defaults() {
    let empty = parse_register_parse(b"{}");
    assert!(matches!(
        empty.unwrap(),
        RegisterParse {
            swap_bytes: Swap(false),
            swap_words: Swap(false),
            value_type: RegisterValueType::Numeric {
                of: RegisterNumeric::U16,
                adjust: RegisterNumericAdjustment {
                    scale: 0,
                    offset: 0,
                }
            }
        }
    ));
}

#[test]
fn config_parse_register_parser_type() {
    let result = parse_register_parse(br#"{"type": "s32"}"#);
    assert!(matches!(
        result.unwrap().value_type,
        RegisterValueType::Numeric {
            of: RegisterNumeric::I32,
            ..
        }
    ));
}

#[test]
fn config_parse_register_parser_array() {
    let result = parse_register_parse(br#"{"type": "array", "of": "s32", "count": 10}"#);
    let payload = result.unwrap();

    assert!(matches!(
        payload.value_type,
        RegisterValueType::Array(RegisterArray {
            of: RegisterNumeric::I32,
            count: 10,
            ..
        })
    ));
}

#[test]
fn config_parse_register_parser_array_implicit_u16() {
    let result = parse_register_parse(br#"{"type": "array", "count": 10}"#);
    let payload = result.unwrap();

    assert!(matches!(
        payload.value_type,
        RegisterValueType::Array(RegisterArray {
            of: RegisterNumeric::U16,
            count: 10,
            ..
        })
    ));
}

#[test]
fn config_parse_register_parser_string() {
    let result = parse_register_parse(br#"{"type": "string", "length": 10}"#);
    let payload = result.unwrap();

    assert!(matches!(
        payload.value_type,
        RegisterValueType::String(RegisterString { length: 10, .. })
    ));
}

#[test]
fn config_parse_register_parser_scale_etc() {
    let result = parse_register_parse(br#"{"type": "s32", "scale": -1, "offset": 20}"#);
    assert!(matches!(
        result.unwrap().value_type,
        RegisterValueType::Numeric {
            of: RegisterNumeric::I32,
            adjust: RegisterNumericAdjustment {
                scale: -1,
                offset: 20
            }
        }
    ));
}

#[test]
fn parse_intervals() {
    assert_eq!(duration_ms_of_str("3s"), Some(3000));
    assert_eq!(duration_ms_of_str("90s"), Some(90000));
    assert_eq!(duration_ms_of_str("1m"), Some(60000));
    assert_eq!(duration_ms_of_str("10m"), Some(600000));
    assert_eq!(duration_ms_of_str("1h"), Some(3_600_000));
    assert_eq!(duration_ms_of_str("500ms"), Some(500));
    assert_eq!(duration_ms_of_str("2d"), Some(172_800_000));
    assert_eq!(duration_ms_of_str(""), None);
    assert_eq!(duration_ms_of_str("5"), None);
    assert_eq!(duration_ms_of_str("3x"), None);
    assert_eq!(duration_ms_of_str("s3"), None);
}

#[test]
fn parse_multi_component_intervals() {
    assert_eq!(duration_ms_of_str("1m 30s"), Some(90000));
    assert_eq!(duration_ms_of_str("1h30m"), Some(5_400_000));
    assert_eq!(duration_ms_of_str("2d 5h 3m 2s 500ms"), Some(190_982_500));
    assert_eq!(duration_ms_of_str("0s"), Some(0));
    assert_eq!(duration_ms_of_str("1m  30s"), None);
    assert_eq!(duration_ms_of_str("1m 30s "), None);
    assert_eq!(duration_ms_of_str(" 1m"), None);
    assert_eq!(duration_ms_of_str("1m 30"), None);
}

#[test]
fn emitted_intervals_parse_back() {
    // what the re-publisher writes, the register parser accepts
    for ms in [0u64, 500, 3000, 60000, 90000, 600_000, 5_400_000, 190_982_500] {
        let mut text = Vec::new();
        modbus_mqtt::connector::push_dur_text(&mut text, ms);
        let text = String::from_utf8(text).unwrap();
        assert_eq!(duration_ms_of_str(&text), Some(ms), "{text}");
    }
}

#[test]
fn register_definition_defaults() {
    let reg = modbus_mqtt::config::parse_register(br#"{"address": 7}"#).unwrap();
    assert_eq!(reg.address, 7);
    assert_eq!(reg.name, None);
    assert_eq!(reg.interval, default_register_interval());
    assert!(matches!(
        reg.parse.value_type,
        RegisterValueType::Numeric { of: RegisterNumeric::U16, .. }
    ));
}

#[test]
fn register_definition_rejects_oversized_reads() {
    // 126 words exceeds what one Modbus read may carry.
    assert!(modbus_mqtt::config::parse_register(
        br#"{"address": 1, "type": "string", "length": 126}"#
    )
    .is_none());
    assert!(modbus_mqtt::config::parse_register(
        br#"{"address": 1, "type": "string", "length": 125}"#
    )
    .is_some());
}

#[test]
fn connect_config_defaults() {
    let c = parse_connect(br#"{"proto": "tcp", "host": "h"}"#).unwrap();
    assert_eq!(c.unit, default_modbus_unit());
    assert_eq!(c.address_offset, default_address_offset());
    assert!(c.input.is_empty() && c.holding.is_empty() && c.registers.is_empty());
    assert!(matches!(c.settings, ModbusProto::Tcp { port, .. } if port == default_modbus_port()));
}

#[test]
fn connect_config_unknown_proto() {
    let c = parse_connect(br#"{"proto": "carrier-pigeon"}"#).unwrap();
    assert!(matches!(c.settings, ModbusProto::Unknown));
}

#[test]
fn connect_config_invalid() {
    assert!(parse_connect(b"not json at all").is_none());
    assert!(parse_connect(br#"{"host": "1.1.1.1"}"#).is_none());
    assert!(parse_connect(br#"{"proto": "tcp"}"#).is_none());
}

#[test]
fn oversized_numbers_are_rejected() {
    // a number beyond i64 is not a valid address
    assert!(modbus_mqtt::config::parse_register(
        br#"{"address": 99999999999999999999}"#
    )
    .is_none());
    assert_eq!(duration_ms_of_str("99999999999999999999999s"), None);
}

#[test]
fn names_with_quotes_are_escaped_on_republish() {
    let reg = modbus_mqtt::config::parse_register(
        br#"{"address": 1, "name": "a\"b\\c"}"#
    )
    .unwrap();
    let body = modbus_mqtt::connector::register_to_json_bytes(&reg);
    let text = String::from_utf8(body).unwrap();
    assert!(text.contains(r#""name":"a\"b\\c""#), "{text}");
    // and it parses back to the same name
    let again = modbus_mqtt::config::parse_register(text.as_bytes()).unwrap();
    assert_eq!(again.name.as_deref(), Some("a\"b\\c"));
}
