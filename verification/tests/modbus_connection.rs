use fieldworks_adapters::double::Double;
use fieldworks_adapters::envelope::{ErrorCode, TagValue, WriteValue};
use fieldworks_adapters::json::{Json, Number};
use fieldworks_adapters::modbus::connection::{
    be_bytes_from_words, build_tag_tree, default_data_type, expect_words, map_exception_code,
    map_transport_error, parse_tag_id, register_count, registers_to_value, value_to_registers,
    words_from_be_bytes, DataType, ExceptionCode, ParsedTag,
};
use fieldworks_adapters::topology::{
    load_topology, tag_units, validate_write, Limit, TopologyConfig, TopologyTag, WritePermission,
};

fn double(x: f64) -> Double {
    Double::from_bits(x.to_bits())
}

fn number(x: f64) -> Json {
    Json::Number(Number::Float(double(x)))
}

fn float(v: TagValue) -> f64 {
    match v {
        TagValue::Float(d) => f64::from_bits(d.bits),
        other => panic!("not a number: {other:?}"),
    }
}

fn words(x: f64, data_type: DataType) -> Vec<u16> {
    value_to_registers(&number(x), &format!("{x}"), data_type, "t").unwrap()
}

#[test]
fn parse_holding_default_uint16() {
    let t = parse_tag_id("holding:100").unwrap();
    assert_eq!(t, ParsedTag::Holding { address: 100, data_type: DataType::Uint16 });
}

#[test]
fn parse_holding_float32() {
    let t = parse_tag_id("holding:100:float32").unwrap();
    assert_eq!(t, ParsedTag::Holding { address: 100, data_type: DataType::Float32 });
}

#[test]
fn parse_input_int16() {
    let t = parse_tag_id("input:5:int16").unwrap();
    assert_eq!(t, ParsedTag::Input { address: 5, data_type: DataType::Int16 });
}

#[test]
fn parse_input_int32() {
    let t = parse_tag_id("input:5:int32").unwrap();
    assert_eq!(t, ParsedTag::Input { address: 5, data_type: DataType::Int32 });
}

#[test]
fn parse_coil() {
    assert_eq!(parse_tag_id("coil:5").unwrap(), ParsedTag::Coil { address: 5 });
}

#[test]
fn parse_discrete() {
    assert_eq!(parse_tag_id("discrete:3").unwrap(), ParsedTag::Discrete { address: 3 });
}

#[test]
fn parse_coil_rejects_data_type_suffix() {
    let err = parse_tag_id("coil:5:uint16").unwrap_err();
    assert_eq!(err.code, ErrorCode::TagNotFound);
    assert!(err.message.contains("boolean"));
}

#[test]
fn parse_discrete_rejects_data_type_suffix() {
    let err = parse_tag_id("discrete:5:uint16").unwrap_err();
    assert_eq!(err.code, ErrorCode::TagNotFound);
}

#[test]
fn parse_unknown_register_type() {
    let err = parse_tag_id("bogus:5").unwrap_err();
    assert_eq!(err.code, ErrorCode::TagNotFound);
    assert!(err.message.contains("register type"));
}

#[test]
fn parse_unknown_data_type() {
    let err = parse_tag_id("holding:100:bogus").unwrap_err();
    assert_eq!(err.code, ErrorCode::TagNotFound);
    assert!(err.message.contains("data_type"));
}

#[test]
fn parse_non_numeric_address() {
    let err = parse_tag_id("holding:abc").unwrap_err();
    assert_eq!(err.code, ErrorCode::TagNotFound);
}

#[test]
fn parse_address_out_of_u16_range() {
    assert!(parse_tag_id("holding:99999").is_err());
}

#[test]
fn parse_missing_address() {
    assert!(parse_tag_id("holding").is_err());
}

#[test]
fn parse_too_many_parts() {
    assert!(parse_tag_id("holding:100:float32:extra").is_err());
}

#[test]
fn parse_empty_string() {
    assert!(parse_tag_id("").is_err());
}

#[test]
fn parse_address_edges() {
    assert_eq!(parse_tag_id("coil:0").unwrap(), ParsedTag::Coil { address: 0 });
    assert_eq!(parse_tag_id("coil:65535").unwrap(), ParsedTag::Coil { address: 65535 });
    assert_eq!(parse_tag_id("coil:+7").unwrap(), ParsedTag::Coil { address: 7 });
    assert_eq!(parse_tag_id("coil:007").unwrap(), ParsedTag::Coil { address: 7 });
    assert!(parse_tag_id("coil:65536").is_err());
    assert!(parse_tag_id("coil:").is_err());
    assert!(parse_tag_id("coil:+").is_err());
    assert!(parse_tag_id("coil:-1").is_err());
    assert!(parse_tag_id("Coil:1").is_err());
    assert_eq!(
        parse_tag_id("coil: 1").unwrap_err().message,
        "' 1' is not a valid Modbus register address (0-65535)."
    );
}

#[test]
fn parse_errors_name_the_tag() {
    let err = parse_tag_id("holding").unwrap_err();
    assert_eq!(err.tag_id.as_deref(), Some("holding"));
    assert_eq!(
        err.message,
        "'holding' is not a valid tag_id. Expected \"register_type:address[:data_type]\"."
    );
}

#[test]
fn parsed_tag_is_writable_type() {
    assert!(ParsedTag::Holding { address: 0, data_type: DataType::Uint16 }.is_writable_type());
    assert!(ParsedTag::Coil { address: 0 }.is_writable_type());
    assert!(!ParsedTag::Input { address: 0, data_type: DataType::Uint16 }.is_writable_type());
    assert!(!ParsedTag::Discrete { address: 0 }.is_writable_type());
}

#[test]
fn parsed_tag_parts() {
    let t = ParsedTag::Input { address: 9, data_type: DataType::Int32 };
    assert_eq!(t.address(), 9);
    assert_eq!(t.register_type_name(), "input");
    assert_eq!(ParsedTag::Coil { address: 3 }.address(), 3);
    assert_eq!(ParsedTag::Discrete { address: 3 }.register_type_name(), "discrete");
}

#[test]
fn uint16_round_trip() {
    let regs = words(1234.0, DataType::Uint16);
    let v = registers_to_value(&regs, DataType::Uint16).unwrap();
    assert!((float(v) - 1234.0).abs() < 1e-9);
}

#[test]
fn int16_round_trip_negative() {
    let regs = words(-42.0, DataType::Int16);
    let v = registers_to_value(&regs, DataType::Int16).unwrap();
    assert!((float(v) - (-42.0)).abs() < 1e-9);
}

#[test]
fn float32_round_trip() {
    let regs = words(312.7_f32 as f64, DataType::Float32);
    assert_eq!(regs.len(), 2);
    let v = registers_to_value(&regs, DataType::Float32).unwrap();
    assert!((float(v) - 312.7).abs() < 1e-3);
}

#[test]
fn int32_round_trip_negative() {
    let regs = words(-100000.0, DataType::Int32);
    assert_eq!(regs.len(), 2);
    let v = registers_to_value(&regs, DataType::Int32).unwrap();
    assert!((float(v) - (-100000.0)).abs() < 1e-9);
}

#[test]
fn float32_word_order_is_high_word_first() {
    assert_eq!(words(1.0, DataType::Float32), vec![0x3F80, 0x0000]);
}

#[test]
fn uint16_out_of_range_rejected() {
    let err = value_to_registers(&number(70000.0), "70000", DataType::Uint16, "t").unwrap_err();
    assert_eq!(err.code, ErrorCode::InvalidValue);
}

#[test]
fn uint16_negative_rejected() {
    let err = value_to_registers(&number(-1.0), "-1", DataType::Uint16, "t").unwrap_err();
    assert_eq!(err.code, ErrorCode::InvalidValue);
}

#[test]
fn int16_out_of_range_rejected() {
    let err = value_to_registers(&number(40000.0), "40000", DataType::Int16, "t").unwrap_err();
    assert_eq!(err.code, ErrorCode::InvalidValue);
}

#[test]
fn non_numeric_value_rejected() {
    let bad = Json::Text("bad".to_string());
    let err = value_to_registers(&bad, "", DataType::Uint16, "t").unwrap_err();
    assert_eq!(err.code, ErrorCode::InvalidValue);
}

#[test]
fn fractional_uint16_rejected() {
    let err = value_to_registers(&number(1.5), "1.5", DataType::Uint16, "t").unwrap_err();
    assert_eq!(err.code, ErrorCode::InvalidValue);
    assert_eq!(err.message, "value 1.5 is out of range for uint16 (0-65535).");
}

#[test]
fn register_edges() {
    assert_eq!(words(65535.0, DataType::Uint16), vec![65535]);
    assert_eq!(words(-0.0, DataType::Uint16), vec![0]);
    assert_eq!(words(-32768.0, DataType::Int16), vec![0x8000]);
    assert_eq!(words(32767.0, DataType::Int16), vec![0x7fff]);
    assert_eq!(words(-2147483648.0, DataType::Int32), vec![0x8000, 0]);
    assert_eq!(words(2147483647.0, DataType::Int32), vec![0x7fff, 0xffff]);
    assert_eq!(words(-1.0, DataType::Int32), vec![0xffff, 0xffff]);
    let err = value_to_registers(&number(2147483648.0), "2147483648", DataType::Int32, "t")
        .unwrap_err();
    assert_eq!(err.message, "value 2147483648 is out of range for int32.");
    let err = value_to_registers(&number(-32769.0), "-32769", DataType::Int16, "t").unwrap_err();
    assert_eq!(err.message, "value -32769 is out of range for int16 (-32768..=32767).");
}

#[test]
fn whole_numbers_of_any_spelling_are_written() {
    let n = Json::Number(Number::Unsigned(7));
    assert_eq!(value_to_registers(&n, "7", DataType::Uint16, "t").unwrap(), vec![7]);
    let n = Json::Number(Number::Negative(-7));
    assert_eq!(value_to_registers(&n, "-7", DataType::Int16, "t").unwrap(), vec![0xfff9]);
}

#[test]
fn every_register_reads_back_as_written() {
    let mut w: u32 = 0;
    while w <= 0xffff {
        for data_type in [DataType::Uint16, DataType::Int16] {
            let v = float(registers_to_value(&[w as u16], data_type).unwrap());
            assert_eq!(words(v, data_type), vec![w as u16]);
        }
        w += 13;
    }
}

#[test]
fn float_registers_read_back_as_written() {
    let mut bits: u64 = 0;
    while bits <= 0xffff_ffff {
        let single = f32::from_bits(bits as u32);
        if single.is_finite() {
            let pair = vec![(bits >> 16) as u16, bits as u16];
            let v = float(registers_to_value(&pair, DataType::Float32).unwrap());
            assert_eq!(v.to_bits(), (single as f64).to_bits());
            assert_eq!(words(v, DataType::Float32), pair);
        }
        bits += 0x0009_8765;
    }
}

#[test]
fn float32_rounds_to_nearest() {
    for x in [0.1, 1e-45, 7e-46, 3.4028235e38, -3.4028235677e38, 16777217.0, 1.17549429e-38] {
        let bits = (x as f32).to_bits();
        assert_eq!(words(x, DataType::Float32), vec![(bits >> 16) as u16, bits as u16]);
    }
}

#[test]
fn float32_out_of_range_rejected() {
    for x in [1e300, 3.5e38, -3.4028236e38, 3.4028235677973366e38] {
        let shown = format!("{x}");
        let err = value_to_registers(&number(x), &shown, DataType::Float32, "t").unwrap_err();
        assert_eq!(err.code, ErrorCode::InvalidValue);
        assert_eq!(err.message, format!("value {shown} is out of range for float32."));
        assert_eq!(err.tag_id.as_deref(), Some("t"));
    }
}

#[test]
fn extra_registers_are_ignored() {
    let v = registers_to_value(&[3, 9, 9], DataType::Uint16).unwrap();
    assert_eq!(float(v), 3.0);
}

#[test]
fn words_and_bytes() {
    assert_eq!(be_bytes_from_words(0x0102, 0xa0b0), [0x01, 0x02, 0xa0, 0xb0]);
    assert_eq!(words_from_be_bytes([0x01, 0x02, 0xa0, 0xb0]), vec![0x0102, 0xa0b0]);
    assert_eq!(expect_words(&[1, 2, 3], 2).unwrap(), vec![1, 2]);
}

#[test]
fn registers_to_value_short_response_errors() {
    let err = registers_to_value(&[], DataType::Uint16).unwrap_err();
    assert_eq!(err.code, ErrorCode::ConnectionError);
    let err = registers_to_value(&[1], DataType::Float32).unwrap_err();
    assert_eq!(err.code, ErrorCode::ConnectionError);
    assert_eq!(err.message, "expected 2 register(s) in device response, got 1");
    assert_eq!(err.tag_id, None);
}

#[test]
fn exception_illegal_data_address_is_tag_not_found() {
    let err = map_exception_code(ExceptionCode::IllegalDataAddress, "t", false);
    assert_eq!(err.code, ErrorCode::TagNotFound);
}

#[test]
fn exception_illegal_function_on_write_is_tag_not_writable() {
    let err = map_exception_code(ExceptionCode::IllegalFunction, "t", true);
    assert_eq!(err.code, ErrorCode::TagNotWritable);
}

#[test]
fn exception_illegal_function_on_read_is_connection_error() {
    let err = map_exception_code(ExceptionCode::IllegalFunction, "t", false);
    assert_eq!(err.code, ErrorCode::ConnectionError);
}

#[test]
fn exception_illegal_data_value_is_invalid_value() {
    let err = map_exception_code(ExceptionCode::IllegalDataValue, "t", true);
    assert_eq!(err.code, ErrorCode::InvalidValue);
}

#[test]
fn exception_device_busy_is_connection_error() {
    let err = map_exception_code(ExceptionCode::ServerDeviceBusy, "t", false);
    assert_eq!(err.code, ErrorCode::ConnectionError);
}

#[test]
fn exception_error_includes_tag_id() {
    let err = map_exception_code(ExceptionCode::IllegalDataAddress, "holding:5", false);
    assert_eq!(err.tag_id.as_deref(), Some("holding:5"));
}

#[test]
fn exception_messages_name_no_code_and_no_address() {
    let told = |code: ExceptionCode, is_write: bool| map_exception_code(code, "coil:1", is_write).message;
    assert_eq!(told(ExceptionCode::IllegalDataAddress, false), "The tag was not found.");
    assert_eq!(told(ExceptionCode::IllegalFunction, true), "The tag cannot be written.");
    assert_eq!(told(ExceptionCode::IllegalDataValue, true), "The value was not accepted.");
    assert_eq!(told(ExceptionCode::IllegalDataValue, false), "The request was not accepted.");
    for code in [
        ExceptionCode::ServerDeviceFailure,
        ExceptionCode::Acknowledge,
        ExceptionCode::ServerDeviceBusy,
        ExceptionCode::MemoryParityError,
        ExceptionCode::GatewayPathUnavailable,
        ExceptionCode::GatewayTargetDevice,
        ExceptionCode::Custom(17),
    ] {
        assert_eq!(told(code, false), "The read could not be carried out.");
        assert_eq!(told(code, true), "The write could not be carried out.");
    }
}

#[test]
fn transport_failures_are_connection_errors() {
    let err = map_transport_error("broken pipe", "coil:1");
    assert_eq!(err.code, ErrorCode::ConnectionError);
    assert_eq!(err.message, "The connection to the device failed.");
    assert_eq!(err.tag_id.as_deref(), Some("coil:1"));
}

fn tag(tag_id: &str) -> TopologyTag {
    TopologyTag {
        tag_id: tag_id.to_string(),
        name: tag_id.to_string(),
        description: String::new(),
        units: String::new(),
        data_type: "uint16".to_string(),
        writable: false,
        process_area: String::new(),
        equipment_id: String::new(),
        normal_range: None,
    }
}

#[test]
fn tag_tree_groups_by_register_type() {
    let tags = vec![tag("holding:100"), tag("input:5"), tag("coil:1"), tag("discrete:2")];
    let tree = build_tag_tree(&tags);
    assert_eq!(tree.holding.len(), 1);
    assert_eq!(tree.input.len(), 1);
    assert_eq!(tree.coil.len(), 1);
    assert_eq!(tree.discrete.len(), 1);
}

#[test]
fn tag_tree_skips_malformed_tag_id() {
    let tags = vec![tag("holding:100"), tag("not-a-valid-tag")];
    let tree = build_tag_tree(&tags);
    assert_eq!(tree.holding.len(), 1);
}

#[test]
fn tag_tree_empty_input() {
    let tree = build_tag_tree(&Vec::new());
    assert!(tree.holding.is_empty());
    assert!(tree.coil.is_empty());
}

#[test]
fn tag_tree_places_every_well_formed_tag_once() {
    let tags = vec![tag("coil:2"), tag("x"), tag("coil:1"), tag("input:1:int32"), tag("coil:1:int16")];
    let tree = build_tag_tree(&tags);
    let coils: Vec<&str> = tree.coil.iter().map(|e| e.tag_id.as_str()).collect();
    assert_eq!(coils, vec!["coil:2", "coil:1"]);
    assert_eq!(tree.input.len(), 1);
    assert_eq!(tree.holding.len() + tree.discrete.len(), 0);
}

fn limit(x: f64) -> Limit {
    Limit { at: double(x), shown: format!("{x}") }
}

fn perm(min: Option<f64>, max: Option<f64>, units: Option<&str>) -> WritePermission {
    WritePermission { min: min.map(limit), max: max.map(limit), units: units.map(String::from) }
}

#[test]
fn validate_write_float_ok() {
    let p = perm(Some(0.0), Some(100.0), Some("Hz"));
    let result = validate_write(&p, &number(50.0), "50", "Hz", "tag");
    assert!(matches!(result, Ok(WriteValue::Float(d)) if (f64::from_bits(d.bits) - 50.0).abs() < 1e-9));
}

#[test]
fn validate_write_bool_ok() {
    let p = perm(None, None, None);
    let result = validate_write(&p, &Json::Bool(true), "", "", "tag");
    assert!(matches!(result, Ok(WriteValue::Bool(true))));
}

#[test]
fn validate_write_below_min() {
    let p = perm(Some(10.0), Some(100.0), None);
    let err = validate_write(&p, &number(5.0), "5", "", "tag").unwrap_err();
    assert_eq!(err.code, ErrorCode::InvalidValue);
    assert!(err.message.contains("minimum"));
}

#[test]
fn validate_write_above_max() {
    let p = perm(Some(0.0), Some(60.0), None);
    let err = validate_write(&p, &number(61.0), "61", "", "tag").unwrap_err();
    assert_eq!(err.code, ErrorCode::InvalidValue);
    assert!(err.message.contains("maximum"));
}

#[test]
fn validate_write_units_mismatch() {
    let p = perm(None, None, Some("Hz"));
    let err = validate_write(&p, &number(50.0), "50", "rpm", "tag").unwrap_err();
    assert_eq!(err.code, ErrorCode::InvalidValue);
}

#[test]
fn validate_write_string_rejected() {
    let p = perm(None, None, None);
    let err = validate_write(&p, &Json::Text("bad".to_string()), "", "", "tag").unwrap_err();
    assert_eq!(err.code, ErrorCode::InvalidValue);
}

#[test]
fn register_count_matches_data_type_width() {
    assert_eq!(register_count(DataType::Uint16), 1);
    assert_eq!(register_count(DataType::Int16), 1);
    assert_eq!(register_count(DataType::Float32), 2);
    assert_eq!(register_count(DataType::Int32), 2);
}

#[test]
fn tag_units_finds_matching_tag() {
    let mut t = tag("holding:100");
    t.name = "Flow".to_string();
    t.units = "m3/h".to_string();
    let config = TopologyConfig { tags: vec![t], write_permissions: Vec::new() };
    assert_eq!(tag_units(&config, "holding:100"), "m3/h");
    assert_eq!(tag_units(&config, "holding:999"), "");
}

#[test]
fn load_topology_returns_default_when_no_file() {
    let config = load_topology(vec![None, None, None]);
    assert_eq!(config.tags.len(), 0);
    assert_eq!(config.write_permissions.len(), 0);
}

#[test]
fn modbus_tags_are_uint16_by_default() {
    assert_eq!(default_data_type(), "uint16");
}
