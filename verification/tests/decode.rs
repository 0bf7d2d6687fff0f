use modbus_mqtt::codec::{
    encode_be, Decoded, Register, RegisterNumeric, RegisterNumericAdjustment, RegisterParse,
    RegisterString, RegisterType, RegisterValueType, Swap, finish_float,
};
use modbus_mqtt::value::{Dec, RegisterValue};
use modbus_mqtt::monitor::{poll_output, read_request, PollOutput};
use rust_decimal::prelude::FromPrimitive;

fn numeric_register(of: RegisterNumeric, swap_words: bool) -> Register {
    Register {
        register_type: RegisterType::Input,
        address: 42,
        name: None,
        interval: 0,
        parse: RegisterParse {
            swap_bytes: Swap(false),
            swap_words: Swap(swap_words),
            value_type: RegisterValueType::Numeric {
                of,
                adjust: RegisterNumericAdjustment { scale: 0, offset: 0 },
            },
        },
    }
}

#[test]
fn test_parse_numeric() {
    let reg = numeric_register(RegisterNumeric::U32, true);
    assert_eq!(
        reg.parse_words(&[843, 0]),
        Decoded::Done(RegisterValue::Num(Dec { m: 843, e: 0 }))
    );
    match reg.parse_words(&[843, 0]) {
        Decoded::Done(v) => assert_eq!(v.to_json_bytes(), b"843".to_vec()),
        other => panic!("unexpected decode {:?}", other),
    }
}

#[test]
fn test_parse_string() {
    let reg = Register {
        register_type: RegisterType::Input,
        address: 42,
        name: None,
        interval: 0,
        parse: RegisterParse {
            swap_bytes: Swap(false),
            swap_words: Swap(false),
            value_type: RegisterValueType::String(RegisterString { length: 10 }),
        },
    };

    assert_eq!(
        reg.parse_words(&[
            0x6865, 0x6c6c, 0x6f20, 0x776f, 0x726c, 0x6400, 0x0000, 0x0000, 0x0000, 0x0000,
        ]),
        Decoded::Done(RegisterValue::Str(b"hello world".to_vec()))
    );
}

#[test]
fn numeric_decode_no_swaps() {
    // {type: "u32", scale: 0, offset: 0} over [0x0000, 0x007B] is 123.
    let reg = numeric_register(RegisterNumeric::U32, false);
    match reg.parse_words(&[0x0000, 0x007B]) {
        Decoded::Done(v) => {
            assert_eq!(v, RegisterValue::Num(Dec { m: 123, e: 0 }));
            assert_eq!(v.to_json_bytes(), b"123".to_vec());
        },
        other => panic!("unexpected decode {:?}", other),
    }
}

#[test]
fn word_swap_decode() {
    // {type: "u32", swap_words: true} over [0x007B, 0x0000] is 123.
    let reg = numeric_register(RegisterNumeric::U32, true);
    match reg.parse_words(&[0x007B, 0x0000]) {
        Decoded::Done(v) => assert_eq!(v, RegisterValue::Num(Dec { m: 123, e: 0 })),
        other => panic!("unexpected decode {:?}", other),
    }
}

#[test]
fn byte_swap_decode() {
    let mut reg = numeric_register(RegisterNumeric::U16, false);
    reg.parse.swap_bytes = Swap(true);
    match reg.parse_words(&[0x3412]) {
        Decoded::Done(v) => assert_eq!(v, RegisterValue::Num(Dec { m: 0x1234, e: 0 })),
        other => panic!("unexpected decode {:?}", other),
    }
}

#[test]
fn signed_decode() {
    let reg = numeric_register(RegisterNumeric::I16, false);
    match reg.parse_words(&[0xFFFE]) {
        Decoded::Done(v) => assert_eq!(v, RegisterValue::Num(Dec { m: -2, e: 0 })),
        other => panic!("unexpected decode {:?}", other),
    }
}

#[test]
fn low_byte_types_read_the_low_byte() {
    let reg = numeric_register(RegisterNumeric::U8, false);
    match reg.parse_words(&[0x12FE]) {
        Decoded::Done(v) => assert_eq!(v, RegisterValue::Num(Dec { m: 0xFE, e: 0 })),
        other => panic!("unexpected decode {:?}", other),
    }
    let reg = numeric_register(RegisterNumeric::I8, false);
    match reg.parse_words(&[0x12FE]) {
        Decoded::Done(v) => assert_eq!(v, RegisterValue::Num(Dec { m: -2, e: 0 })),
        other => panic!("unexpected decode {:?}", other),
    }
}

#[test]
fn scale_and_offset_decode() {
    // 123 scaled by 10^-1 and offset by 20 is 32.3, exactly.
    let parse = modbus_mqtt::config::parse_register_parse(
        br#"{"type": "s32", "scale": -1, "offset": 20}"#,
    )
    .unwrap();
    match parse.value_type.parse_words(&[0, 123]) {
        Decoded::Done(v) => {
            assert_eq!(v, RegisterValue::Num(Dec { m: 323, e: -1 }));
            assert_eq!(v.to_json_bytes(), b"32.3".to_vec());
        },
        other => panic!("unexpected decode {:?}", other),
    }
}

#[test]
fn fractional_rendering_keeps_leading_zeros() {
    assert_eq!(
        RegisterValue::Num(Dec { m: 5, e: -3 }).to_json_bytes(),
        b"0.005".to_vec()
    );
    assert_eq!(
        RegisterValue::Num(Dec { m: -120, e: -1 }).to_json_bytes(),
        b"-12.0".to_vec()
    );
}

#[test]
fn array_decode() {
    let parse = modbus_mqtt::config::parse_register_parse(
        br#"{"type": "array", "of": "u16", "count": 3}"#,
    )
    .unwrap();
    match parse.value_type.parse_words(&[1, 2, 3]) {
        Decoded::Done(v) => {
            assert_eq!(
                v,
                RegisterValue::Arr(vec![
                    Some(Dec { m: 1, e: 0 }),
                    Some(Dec { m: 2, e: 0 }),
                    Some(Dec { m: 3, e: 0 }),
                ])
            );
            assert_eq!(v.to_json_bytes(), b"[1,2,3]".to_vec());
        },
        other => panic!("unexpected decode {:?}", other),
    }
}

#[test]
fn encode_decode_round_trip() {
    for (of, v) in [
        (RegisterNumeric::U16, 843i128),
        (RegisterNumeric::U32, 123_456),
        (RegisterNumeric::I32, -123_456),
        (RegisterNumeric::I64, -1),
        (RegisterNumeric::U8, 200),
        (RegisterNumeric::I8, -5),
    ] {
        let words = encode_be(&of, v);
        let vt = RegisterValueType::Numeric {
            of,
            adjust: RegisterNumericAdjustment { scale: 0, offset: 0 },
        };
        match vt.parse_words(&words) {
            Decoded::Done(out) => {
                assert_eq!(out, RegisterValue::Num(Dec { m: v, e: 0 }), "{of:?} {v}")
            },
            other => panic!("unexpected decode {:?}", other),
        }
    }
}

#[test]
fn invalid_utf8_is_replaced_not_passed_through() {
    let reg = Register {
        register_type: RegisterType::Input,
        address: 1,
        name: None,
        interval: 0,
        parse: RegisterParse {
            swap_bytes: Swap(false),
            swap_words: Swap(false),
            value_type: RegisterValueType::String(RegisterString { length: 1 }),
        },
    };
    match reg.parse_words(&[0xFF65]) {
        Decoded::Done(v) => {
            assert_eq!(v, RegisterValue::Str("\u{FFFD}e".as_bytes().to_vec()));
        },
        other => panic!("unexpected decode {:?}", other),
    }
}

#[test]
fn float_decode_via_pending_bits() {
    // 1.5f32 is 0x3FC00000; as an exact decimal it is 15 * 10^-1.
    let reg = numeric_register(RegisterNumeric::F32, false);
    match poll_output(&reg, &[0x3FC0, 0x0000]) {
        PollOutput::PendingF32 { bits, adjust, single } => {
            assert_eq!(bits, vec![0x3FC0_0000u32]);
            assert!(single);
            let decs: Vec<Option<Dec>> = bits
                .iter()
                .map(|b| {
                    rust_decimal::Decimal::from_f32(f32::from_bits(*b))
                        .map(|d| Dec { m: d.mantissa(), e: -(d.scale() as i16) })
                })
                .collect();
            let value = finish_float(decs, adjust, single);
            assert_eq!(value, RegisterValue::Num(Dec { m: 15, e: -1 }));
            assert_eq!(value.to_json_bytes(), b"1.5".to_vec());
        },
        other => panic!("unexpected decode {:?}", other),
    }
}

#[test]
fn monitor_read_request_covers_the_whole_register() {
    let reg = modbus_mqtt::config::parse_register(
        br#"{"address": 5017, "type": "u32", "name": "dc_power", "register_type": "input"}"#,
    )
    .unwrap();
    let req = read_request(&reg);
    assert_eq!(req.address, 5017);
    assert_eq!(req.count, 2);
    assert_eq!(req.register_type, RegisterType::Input);
    assert_eq!(reg.path(), "dc_power");
}

#[test]
fn monitor_payload_is_bare_json() {
    let reg = numeric_register(RegisterNumeric::U16, false);
    match poll_output(&reg, &[843]) {
        PollOutput::Payload(p) => assert_eq!(p, b"843".to_vec()),
        other => panic!("unexpected output {:?}", other),
    }
}

#[test]
fn register_path_defaults_to_address() {
    let reg = numeric_register(RegisterNumeric::U16, false);
    assert_eq!(reg.path(), "42");
}
