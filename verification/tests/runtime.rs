use modbus_mqtt::config::ConnectState;
use modbus_mqtt::connector::{
    connect_decision, republish_plan, ConnectDecision, ConnectionRegistry, register_to_json_bytes,
};
use modbus_mqtt::mux::SubscriptionTable;
use modbus_mqtt::supervisor::{
    effective_address, is_fatal, CommandOutcome, IoErrorKind, Supervisor, SupervisorAction,
    SupervisorEvent,
};
use modbus_mqtt::topic::{connection_id, topic_matches, Scope};
use modbus_mqtt::winets::{
    parse_device, parse_sungrow_result, running_state_of, sungrow_to_result, token_step,
    words_from_string, BatteryState, Device, SungrowData, TokenAction, TokenState, TradingState,
    WsMessage,
};

#[test]
fn filter_matching() {
    assert!(topic_matches("a/+/b", "a/x/b"));
    assert!(!topic_matches("a/+/b", "a/x/c"));
    assert!(!topic_matches("a/+/b", "a/b"));
    assert!(topic_matches("+", "a"));
    assert!(topic_matches("a", "a"));
    assert!(!topic_matches("a", "b"));
    assert!(!topic_matches("A", "a"));
    assert!(topic_matches("#", "a/b/c"));
    assert!(topic_matches("a/#", "a"));
    assert!(topic_matches("a/#", "a/b/c"));
    assert!(!topic_matches("a/#", "b/a"));
    assert!(!topic_matches("a/+", "a"));
    assert!(topic_matches("a/+", "a/"));
    // this layer gives a leading $ no special treatment
    assert!(topic_matches("#", "$SYS/broker"));
    assert!(topic_matches("demo/+/connect", "demo/site1/connect"));
}

#[test]
fn subscribe_before_publish_receives_iff_match() {
    let mut table = SubscriptionTable::new();
    table.subscribe(b"demo/+/connect".to_vec(), 1);
    table.subscribe(b"demo/#".to_vec(), 2);
    table.subscribe(b"other/#".to_vec(), 3);
    // fan-out is ordered by registration and keyed by filter match alone
    assert_eq!(table.route(b"demo/site1/connect"), vec![1, 2]);
    assert_eq!(table.route(b"demo/site1/state"), vec![2]);
    assert_eq!(table.route(b"elsewhere"), Vec::<u64>::new());
    // a dropped inbox is removed; the rest keep their order
    table.remove(2);
    assert_eq!(table.route(b"demo/site1/connect"), vec![1]);
}

#[test]
fn scoped_paths_append() {
    let root = Scope::new("modbus-mqtt".to_string());
    let conn = root.scoped("site1");
    assert_eq!(conn.prefix, "modbus-mqtt/site1");
    // scoping twice equals scoping by the joined path
    let a = conn.scoped("registers").scoped("dc_power");
    let b = conn.scoped("registers/dc_power");
    assert_eq!(a.prefix, b.prefix);
}

#[test]
fn connection_id_extraction() {
    assert_eq!(
        connection_id(b"demo", b"demo/site1/connect"),
        Some(b"site1".to_vec())
    );
    assert_eq!(connection_id(b"demo", b"demo/a/b/connect"), None);
    assert_eq!(connection_id(b"demo", b"demo//connect"), None);
    assert_eq!(connection_id(b"demo", b"demo/site1/state"), None);
    assert_eq!(connection_id(b"other", b"demo/site1/connect"), None);
}

#[test]
fn error_classification() {
    assert!(is_fatal(IoErrorKind::UnexpectedEof));
    assert!(is_fatal(IoErrorKind::InvalidData));
    assert!(!is_fatal(IoErrorKind::WouldBlock));
    assert!(!is_fatal(IoErrorKind::TimedOut));
    assert!(!is_fatal(IoErrorKind::Uncategorized));
    assert!(!is_fatal(IoErrorKind::OtherIo));
}

#[test]
fn address_offset_arithmetic() {
    assert_eq!(effective_address(100, -1), Some(99));
    assert_eq!(effective_address(100, 1), Some(101));
    assert_eq!(effective_address(0, -1), None);
    assert_eq!(effective_address(65535, 1), None);
    assert_eq!(effective_address(65535, 0), Some(65535));
}

fn published_states(actions: &[SupervisorAction]) -> Vec<ConnectState> {
    actions
        .iter()
        .filter_map(|a| match a {
            SupervisorAction::PublishState(s) => Some(*s),
            _ => None,
        })
        .collect()
}

#[test]
fn fatal_to_backoff_state_sequence() {
    // a fatal read error sends the supervisor through errored, a backoff
    // sleep, and a reconnect that publishes connected again
    let (mut sup, start) = Supervisor::new();
    let mut states = published_states(&start);
    let a = sup.step(SupervisorEvent::ConnectFinished { ok: true });
    states.extend(published_states(&a));
    let a = sup.step(SupervisorEvent::CommandFinished { outcome: CommandOutcome::Fatal });
    assert!(a.contains(&SupervisorAction::PublishLastError));
    assert!(a.contains(&SupervisorAction::Sleep(2)));
    states.extend(published_states(&a));
    let a = sup.step(SupervisorEvent::BackoffElapsed);
    states.extend(published_states(&a));
    let a = sup.step(SupervisorEvent::ConnectFinished { ok: true });
    states.extend(published_states(&a));
    assert_eq!(
        states,
        vec![
            ConnectState::Connecting,
            ConnectState::Connected,
            ConnectState::Errored,
            ConnectState::Connecting,
            ConnectState::Connected,
        ]
    );
}

#[test]
fn backoff_doubles_to_cap_and_resets() {
    let (mut sup, _) = Supervisor::new();
    let _ = sup.step(SupervisorEvent::ConnectFinished { ok: true });
    let mut expected: u64 = 2;
    for _ in 0..10 {
        let a = sup.step(SupervisorEvent::CommandFinished { outcome: CommandOutcome::Fatal });
        assert!(a.contains(&SupervisorAction::Sleep(expected)));
        expected = (expected * 2).min(300);
        let _ = sup.step(SupervisorEvent::BackoffElapsed);
        let _ = sup.step(SupervisorEvent::ConnectFinished { ok: true });
        // skip the reset a successful command would cause
    }
    assert_eq!(sup.backoff_secs, 300);
    let _ = sup.step(SupervisorEvent::CommandFinished { outcome: CommandOutcome::Success });
    assert_eq!(sup.backoff_secs, 2);
}

#[test]
fn transient_failures_do_not_reset_the_backoff() {
    let (mut sup, _) = Supervisor::new();
    let _ = sup.step(SupervisorEvent::ConnectFinished { ok: true });
    let _ = sup.step(SupervisorEvent::CommandFinished { outcome: CommandOutcome::Fatal });
    let _ = sup.step(SupervisorEvent::BackoffElapsed);
    let _ = sup.step(SupervisorEvent::ConnectFinished { ok: true });
    assert_eq!(sup.backoff_secs, 4);
    // a per-operation failure keeps the doubled backoff and stays serving
    let a = sup.step(SupervisorEvent::CommandFinished { outcome: CommandOutcome::Transient });
    assert!(a.is_empty());
    assert_eq!(sup.backoff_secs, 4);
    // only a successful round-trip resets it
    let _ = sup.step(SupervisorEvent::CommandFinished { outcome: CommandOutcome::Success });
    assert_eq!(sup.backoff_secs, 2);
}

#[test]
fn shutdown_publishes_disconnected_last() {
    let (mut sup, _) = Supervisor::new();
    let _ = sup.step(SupervisorEvent::ConnectFinished { ok: true });
    let a = sup.step(SupervisorEvent::ShutdownRequested);
    assert_eq!(
        published_states(&a),
        vec![ConnectState::Disconnected]
    );
    assert_eq!(a.last(), Some(&SupervisorAction::Stop));
    // terminal: no further actions
    assert!(sup.step(SupervisorEvent::ConnectFinished { ok: true }).is_empty());
}

#[test]
fn connect_decisions() {
    assert_eq!(connect_decision(b"it's not json"), ConnectDecision::Invalid);
    assert_eq!(
        connect_decision(br#"{"proto": "zigbee", "host": "h"}"#),
        ConnectDecision::UnknownProto
    );
    match connect_decision(br#"{"proto": "tcp", "host": "10.0.0.5"}"#) {
        ConnectDecision::Spawn(c) => {
            assert!(matches!(c.settings, modbus_mqtt::config::ModbusProto::Tcp { .. }))
        },
        other => panic!("unexpected decision {:?}", other),
    }
}

#[test]
fn connection_config_republish() {
    // an inline input register is re-published as an individual register
    // config, tagged with its register type
    let payload = br#"{"proto":"tcp","host":"10.0.0.5","input":[{"address":5017,"type":"u32","name":"dc_power","period":"3s"}]}"#;
    match connect_decision(payload) {
        ConnectDecision::Spawn(c) => {
            let plan = republish_plan(&c);
            assert_eq!(plan.len(), 1);
            let (topic, body) = &plan[0];
            assert_eq!(topic, "registers/dc_power/config");
            let text = String::from_utf8(body.clone()).unwrap();
            assert!(text.contains("\"address\":5017"), "{text}");
            assert!(text.contains("\"register_type\":\"input\""), "{text}");
            assert!(text.contains("\"interval\":\"3s\""), "{text}");
            // the re-published definition parses back to the same register
            let again = modbus_mqtt::config::parse_register(body).unwrap();
            assert_eq!(again.address, 5017);
            assert_eq!(again.name.as_deref(), Some("dc_power"));
            assert_eq!(again.interval, 3000);
        },
        other => panic!("unexpected decision {:?}", other),
    }
}

#[test]
fn holding_list_tags_registers() {
    let payload = br#"{"proto":"tcp","host":"h","hold":[{"address":13058,"name":"max_soc","period":"90s"}]}"#;
    match connect_decision(payload) {
        ConnectDecision::Spawn(c) => {
            let plan = republish_plan(&c);
            assert_eq!(plan.len(), 1);
            let text = String::from_utf8(plan[0].1.clone()).unwrap();
            assert!(text.contains("\"register_type\":\"holding\""), "{text}");
            assert!(text.contains("\"interval\":\"1m 30s\""), "{text}");
        },
        other => panic!("unexpected decision {:?}", other),
    }
}

#[test]
fn invalid_inline_registers_are_skipped() {
    let payload =
        br#"{"proto":"tcp","host":"h","input":[{"no_address":1},{"address":3}]}"#;
    match connect_decision(payload) {
        ConnectDecision::Spawn(c) => {
            assert_eq!(c.input.len(), 2);
            assert!(c.input[0].is_none());
            let plan = republish_plan(&c);
            assert_eq!(plan.len(), 1);
            assert_eq!(plan[0].0, "registers/3/config");
        },
        other => panic!("unexpected decision {:?}", other),
    }
}

#[test]
fn register_serialization_is_stable() {
    let reg = modbus_mqtt::config::parse_register(
        br#"{"address":20,"type":"s32","scale":-1,"offset":20,"swap_words":true}"#,
    )
    .unwrap();
    let body = register_to_json_bytes(&reg);
    assert_eq!(
        String::from_utf8(body).unwrap(),
        r#"{"address":20,"register_type":"input","type":"i32","scale":-1,"offset":20,"swap_words":true,"interval":"1m"}"#
    );
}

#[test]
fn registry_replaces_supervisors_by_id() {
    let mut reg = ConnectionRegistry::new();
    assert_eq!(reg.insert(b"site1".to_vec(), 10), None);
    assert_eq!(reg.insert(b"site2".to_vec(), 11), None);
    // re-publishing a config replaces the old supervisor
    assert_eq!(reg.insert(b"site1".to_vec(), 12), Some(10));
    assert_eq!(reg.lookup(b"site1"), Some(12));
    assert_eq!(reg.lookup(b"site2"), Some(11));
    assert_eq!(reg.lookup(b"site3"), None);
}

#[test]
fn test_words_from_string() {
    let words = words_from_string("00 AA 00 01 00 0D 00 1E 00 0F 00 00 00 55 ").unwrap();
    assert_eq!(
        &words,
        &[0x00AA, 0x0001, 0x000D, 0x001E, 0x000F, 0x0000, 0x0055]
    );
}

#[test]
fn words_from_string_rejects_bad_tokens() {
    assert_eq!(words_from_string("0G"), None);
    assert_eq!(words_from_string("123 45"), None);
    assert_eq!(words_from_string("12  34"), None);
    assert_eq!(words_from_string("82 00 ").unwrap(), vec![0x8200]);
}

#[test]
fn test_deserialize_device() {
    let json = br#"{
        "id":	1,
        "dev_id":	1,
        "dev_code":	3343,
        "dev_type":	35,
        "dev_procotol":	2,
        "inv_type":	0,
        "dev_sn":	"REDACTED",
        "dev_name":	"SH5.0RS(COM1-001)",
        "dev_model":	"SH5.0RS",
        "port_name":	"COM1",
        "phys_addr":	"1",
        "logc_addr":	"1",
        "link_status":	1,
        "init_status":	1,
        "dev_special":	"0"
    }"#;

    let dev: Device = parse_device(json).unwrap();

    assert!(matches!(
        dev,
        Device {
            dev_id: 1,
            dev_code: 3343,
            dev_type: 35,
            phys_addr: 1
        }
    ));
}

#[test]
fn test_deserialize_get_param() {
    let data = modbus_mqtt::json::Json::Obj(vec![(
        "param_value".to_string(),
        modbus_mqtt::json::Json::Str("82 00 ".to_string()),
    )]);
    assert!(matches!(
        modbus_mqtt::winets::sungrow_data_of(&data),
        Some(SungrowData::GetParam(_))
    ));
    let sr = parse_sungrow_result(
        br#"{
        "result_code":  1,
        "result_msg":   "success",
        "result_data":  {
                "param_value":  "82 00 "
        }
    }"#,
    )
    .unwrap();
    assert_eq!(sr.code, 1);
    assert_eq!(sr.message.as_deref(), Some("success"));
    assert!(matches!(
        sr.data,
        Some(SungrowData::GetParam(ref ws)) if ws == &[0x8200]
    ));
}

#[test]
fn gateway_errors_surface_code_and_message() {
    let sr = parse_sungrow_result(
        br#"{"result_code": 100, "result_msg": "normal user limit"}"#,
    )
    .unwrap();
    match sungrow_to_result(sr) {
        Err(e) => {
            assert_eq!(e.code, 100);
            assert_eq!(e.message.as_deref(), Some("normal user limit"));
        },
        Ok(_) => panic!("expected an error"),
    }
}

#[test]
fn token_handshake() {
    let s = TokenState::AwaitingConnect;
    // the ping-like chatter is ignored
    let (s, a) = token_step(s, WsMessage::Other);
    assert_eq!(a, TokenAction::Wait);
    let (s, a) = token_step(
        s,
        WsMessage::Connect { token: Some("handshake".to_string()) },
    );
    assert_eq!(a, TokenAction::SendLogin("handshake".to_string()));
    let (s, a) = token_step(s, WsMessage::Login { token: Some("session".to_string()) });
    assert_eq!(a, TokenAction::Wait);
    assert_eq!(s, TokenState::Done("session".to_string()));
}

#[test]
fn running_state_bits() {
    let rs = running_state_of(0x0022);
    assert_eq!(rs.battery_state, BatteryState::Charging);
    assert_eq!(rs.trading_state, TradingState::Importing);
    assert!(!rs.generating_pv_power);
    let rs = running_state_of(0x0015);
    assert_eq!(rs.battery_state, BatteryState::Discharging);
    assert_eq!(rs.trading_state, TradingState::Exporting);
    assert!(rs.generating_pv_power);
}

#[test]
fn register_names_must_not_shadow_addresses() {
    let a = modbus_mqtt::config::parse_register(br#"{"address": 7, "name": "13"}"#).unwrap();
    let b = modbus_mqtt::config::parse_register(br#"{"address": 13}"#).unwrap();
    let c = modbus_mqtt::config::parse_register(br#"{"address": 9, "name": "power"}"#).unwrap();
    assert!(modbus_mqtt::connector::paths_collide(&vec![
        a.clone(),
        b.clone()
    ]));
    assert!(!modbus_mqtt::connector::paths_collide(&vec![b, c]));
    // a register's own name may look like its own address
    assert!(!modbus_mqtt::connector::paths_collide(&vec![a]));
}
