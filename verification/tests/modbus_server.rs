use fieldworks_adapters::double::Double;
use fieldworks_adapters::envelope::{ErrorCode, Quality, TagValue, WriteValue};
use fieldworks_adapters::json::{Json, Number};
use fieldworks_adapters::modbus::connection::{ExceptionCode, RegisterType};
use fieldworks_adapters::modbus::server::{
    connect_settings, timed, ConnectAttempt, Dialing, ModbusMcpServer, ReadReply, ScanValue, WriteCommand,
};
use fieldworks_adapters::topology::{Limit, TopologyConfig, TopologyTag, WritePermission};
use fieldworks_adapters::writing::{logged, unlogged, WriteRequest};

fn double(x: f64) -> Double {
    Double::from_bits(x.to_bits())
}

fn topology() -> TopologyConfig {
    let tag = |id: &str| TopologyTag {
        tag_id: id.to_string(),
        name: id.to_string(),
        description: "d".to_string(),
        units: "m3/h".to_string(),
        data_type: "uint16".to_string(),
        writable: false,
        process_area: "raw".to_string(),
        equipment_id: "p1".to_string(),
        normal_range: None,
    };
    let open = || WritePermission { min: None, max: None, units: None };
    TopologyConfig {
        tags: vec![tag("holding:100"), tag("coil:1")],
        write_permissions: vec![
            (
                "holding:100".to_string(),
                WritePermission {
                    min: Some(Limit { at: double(0.0), shown: "0".to_string() }),
                    max: Some(Limit { at: double(60.0), shown: "60".to_string() }),
                    units: Some("Hz".to_string()),
                },
            ),
            ("coil:1".to_string(), open()),
            ("holding:4:float32".to_string(), open()),
            ("holding:5:int16".to_string(), open()),
            ("input:1".to_string(), open()),
        ],
    }
}

fn connected() -> ModbusMcpServer {
    let mut s = ModbusMcpServer::new();
    let settings = connect_settings(None, &None);
    let r = s
        .connect(
            "plc".to_string(),
            502,
            settings,
            ConnectAttempt::Connected,
            vec![Some(topology())],
            "T0".to_string(),
        )
        .unwrap();
    assert!(r.connected);
    assert_eq!(r.server_name, "plc:502");
    assert_eq!(r.protocol_version, "Modbus Application Protocol V1.1b3");
    assert_eq!(r.timestamp, "T0");
    s
}

fn attempt(a: ConnectAttempt) -> fieldworks_adapters::envelope::AdapterError {
    let mut s = connected();
    let settings = connect_settings(Some(250), &None);
    let err = s
        .connect("plc".to_string(), 502, settings, a, Vec::new(), "T".to_string())
        .unwrap_err();
    assert!(s.inner.is_none());
    err
}

#[test]
fn modbus_connect_failures() {
    let e = attempt(ConnectAttempt::Unresolved("no such host".to_string()));
    assert_eq!(e.code, ErrorCode::ConnectionError);
    assert_eq!(e.message, "DNS resolution failed for plc:502");
    let e = attempt(ConnectAttempt::Refused(Vec::new()));
    assert_eq!(e.message, "No addresses found for plc:502");
    let e = attempt(ConnectAttempt::Refused(vec!["a".to_string(), "b".to_string()]));
    assert_eq!(e.code, ErrorCode::ConnectionError);
    assert_eq!(e.message, "Failed to connect to plc:502 (tried 2 address(es))");
    let e = attempt(ConnectAttempt::TimedOut);
    assert_eq!(e.code, ErrorCode::Timeout);
    assert_eq!(e.message, "Connection to plc:502 timed out after 250ms");
}

#[test]
fn modbus_connect_settings() {
    let s = connect_settings(None, &None);
    assert_eq!((s.slave, s.timeout_ms), (1, 5000));
    let with = |v: Json| Some(Json::Object(vec![("slave_id".to_string(), v)]));
    assert_eq!(connect_settings(Some(9), &with(Json::Number(Number::Unsigned(17)))).slave, 17);
    assert_eq!(connect_settings(Some(9), &with(Json::Number(Number::Unsigned(300)))).slave, 44);
    assert_eq!(connect_settings(Some(9), &with(Json::Text("17".to_string()))).slave, 1);
    assert_eq!(connect_settings(Some(9), &with(Json::Number(Number::Negative(-1)))).slave, 1);
    assert_eq!(connect_settings(Some(9), &None).timeout_ms, 9);
}

#[test]
fn modbus_tools_need_a_connection() {
    let mut s = ModbusMcpServer::new();
    let message = "Not connected to a Modbus device. Call connect first.";
    assert_eq!(s.scan_request("coil", 0, 1).unwrap_err().message, message);
    assert_eq!(s.get_topic_tree().unwrap_err().message, message);
    assert_eq!(s.discover_tags(&None, &None, None).unwrap_err().message, message);
    let e = s.read_tag_request("coil:1").unwrap_err();
    assert_eq!(e.code, ErrorCode::ConnectionError);
    assert_eq!(e.tag_id.as_deref(), Some("coil:1"));
    assert_eq!(s.write_tag_request(&write("coil:1", Json::Bool(true), "")).unwrap_err().message, message);
    let e = s.read_tag("coil:1", ReadReply::Bits(None), "T".to_string()).unwrap_err();
    assert_eq!(e.message, message);
}

#[test]
fn modbus_disconnect_is_idempotent() {
    let mut s = connected();
    for _ in 0..2 {
        let r = s.disconnect(None, "T".to_string());
        assert!(r.response.disconnected);
        assert_eq!(r.response.timestamp, "T");
        assert!(r.audit.is_none());
        assert!(s.inner.is_none());
    }
}

#[test]
fn modbus_scan_requests() {
    let s = connected();
    let q = s.scan_request("HOLDING", 10, 125).unwrap();
    assert_eq!((q.kind, q.address, q.count), (RegisterType::Holding, 10, 125));
    assert_eq!(s.scan_request("discrete", 0, 2000).unwrap().count, 2000);
    let e = s.scan_request("input", 0, 126).unwrap_err();
    assert_eq!(e.code, ErrorCode::InvalidValue);
    assert_eq!(e.message, "count must be between 1 and 125 for 'input'.");
    assert_eq!(
        s.scan_request("Coil", 0, 2001).unwrap_err().message,
        "count must be between 1 and 2000 for 'coil'."
    );
    assert!(s.scan_request("coil", 0, 0).is_err());
    assert_eq!(
        s.scan_request("Bogus", 0, 1).unwrap_err().message,
        "'bogus' is not a valid register_type. Expected one of: holding, input, coil, discrete."
    );
}

#[test]
fn modbus_scan_entries_name_their_addresses() {
    let mut s = connected();
    let q = s.scan_request("holding", 65534, 3).unwrap();
    let entries = s.scan(q, ReadReply::Registers(Some(Ok(Ok(vec![7, 8, 9])))), "T").unwrap();
    let ids: Vec<&str> = entries.iter().map(|e| e.tag_id.as_str()).collect();
    assert_eq!(ids, vec!["holding:65534", "holding:65535", "holding:65536"]);
    assert_eq!(entries[1].value, ScanValue::Word(8));
    assert_eq!(entries[1].quality, Quality::Good);
    assert_eq!(entries[1].timestamp, "T");
    let q = s.scan_request("coil", 3, 1).unwrap();
    let entries = s.scan(q, ReadReply::Bits(Some(Ok(Ok(vec![true])))), "T").unwrap();
    assert_eq!(entries[0].tag_id, "coil:3");
    assert_eq!(entries[0].value, ScanValue::Bit(true));
    let back = s.read_tag_request(&entries[0].tag_id).unwrap();
    assert_eq!((back.kind, back.address), (RegisterType::Coil, 3));
}

#[test]
fn modbus_scan_failures() {
    let mut s = connected();
    let q = s.scan_request("input", 4, 2).unwrap();
    let e = s.scan(q, ReadReply::Registers(None), "T").unwrap_err();
    assert_eq!(e.code, ErrorCode::Timeout);
    assert_eq!(e.message, "The device did not answer within 5000ms.");
    assert_eq!(s.inner.as_ref().unwrap().last_error.as_deref(), Some(e.message.as_str()));
    let e = s.scan(q, ReadReply::Registers(Some(Err("eof".to_string()))), "T").unwrap_err();
    assert_eq!(e.code, ErrorCode::ConnectionError);
    assert!(s.inner.is_none());
}

#[test]
fn modbus_reads() {
    let mut s = connected();
    let q = s.read_tag_request("holding:100").unwrap();
    assert_eq!((q.kind, q.address, q.count), (RegisterType::Holding, 100, 1));
    assert_eq!(s.read_tag_request("input:5:float32").unwrap().count, 2);
    let reply = ReadReply::Registers(Some(Ok(Ok(vec![312]))));
    let v = s.read_tag("holding:100", reply, "T".to_string()).unwrap();
    assert!(matches!(v.value, TagValue::Float(d) if d == double(312.0)));
    assert_eq!(v.units, "m3/h");
    assert_eq!(v.quality, Quality::Good);
    assert_eq!(v.timestamp, "T");
    let v = s
        .read_tag("discrete:2", ReadReply::Bits(Some(Ok(Ok(vec![false, true])))), "T".to_string())
        .unwrap();
    assert!(matches!(v.value, TagValue::Bool(false)));
    assert_eq!(v.units, "");
    assert_eq!(s.read_tag_request("bogus").unwrap_err().code, ErrorCode::TagNotFound);
}

#[test]
fn modbus_read_failures() {
    let mut s = connected();
    let exc = |c: ExceptionCode| ReadReply::Bits(Some(Ok(Err(c))));
    let e = s
        .read_tag("coil:1", exc(ExceptionCode::IllegalDataAddress), "T".to_string())
        .unwrap_err();
    assert_eq!(e.code, ErrorCode::TagNotFound);
    let info = s.get_server_info(3);
    assert!(info.info.connected);
    assert_eq!(info.info.last_error, Some(e.message));
    let empty = || ReadReply::Bits(Some(Ok(Ok(Vec::new()))));
    let e = s.read_tag("coil:1", empty(), "T".to_string()).unwrap_err();
    assert_eq!(e.message, "expected 1 coil in device response, got 0");
    assert!(s.inner.is_none());
    let mut s = connected();
    let e = s.read_tag("discrete:1", empty(), "T".to_string()).unwrap_err();
    assert_eq!(e.message, "expected 1 discrete input in device response, got 0");
    assert_eq!(e.tag_id.as_deref(), Some("discrete:1"));
    let mut s = connected();
    let short = ReadReply::Registers(Some(Ok(Ok(vec![1]))));
    let e = s.read_tag("holding:4:float32", short, "T".to_string()).unwrap_err();
    assert_eq!(e.code, ErrorCode::ConnectionError);
    assert!(s.inner.is_none());
}

#[test]
fn modbus_time_limits() {
    assert_eq!(timed(Some(5u8), 10, "t").unwrap(), 5);
    let e = timed::<u8>(None, 10, "t").unwrap_err();
    assert_eq!(e.message, "The device did not answer within 10ms.");
}

#[test]
fn modbus_has_no_history() {
    let e = ModbusMcpServer::new().read_tag_history("coil:1");
    assert_eq!(e.code, ErrorCode::HistoryUnavailable);
    assert_eq!(e.tag_id.as_deref(), Some("coil:1"));
    assert_eq!(
        e.message,
        "Modbus does not support native historical data. \
         Bridge to a time-series store to enable read_tag_history."
    );
}

fn write(tag_id: &str, value: Json, units: &str) -> WriteRequest {
    let shown = value.as_f64().map(|d| format!("{}", f64::from_bits(d.bits))).unwrap_or_default();
    WriteRequest {
        tag_id: tag_id.to_string(),
        value,
        shown,
        units: units.to_string(),
        operator_id: "op".to_string(),
        reason: "why".to_string(),
    }
}

fn number(x: f64) -> Json {
    Json::Number(Number::Float(double(x)))
}

#[test]
fn modbus_writes() {
    let s = connected();
    let (c, v) = s.write_tag_request(&write("holding:100", number(45.0), "Hz")).unwrap();
    assert!(matches!(c, WriteCommand::Register { address: 100, word: 45 }));
    assert_eq!(v, WriteValue::Float(double(45.0)));
    let (c, _) = s.write_tag_request(&write("holding:4:float32", number(1.0), "")).unwrap();
    match c {
        WriteCommand::Registers { address, words } => {
            assert_eq!((address, words), (4, vec![0x3f80, 0]));
        }
        other => panic!("{other:?}"),
    }
    let (c, v) = s.write_tag_request(&write("holding:5:int16", Json::Bool(true), "")).unwrap();
    assert!(matches!(c, WriteCommand::Register { address: 5, word: 1 }));
    assert_eq!(v, WriteValue::Bool(true));
    let (c, _) = s.write_tag_request(&write("coil:1", Json::Bool(false), "")).unwrap();
    assert!(matches!(c, WriteCommand::Coil { address: 1, on: false }));
}

#[test]
fn modbus_refused_writes() {
    let s = connected();
    let code = |r: WriteRequest| s.write_tag_request(&r).unwrap_err();
    let e = code(write("input:1", number(1.0), ""));
    assert_eq!(e.code, ErrorCode::TagNotWritable);
    assert_eq!(e.message, "The tag is a input register, which is read-only in Modbus.");
    assert_eq!(code(write("discrete:1", number(1.0), "")).code, ErrorCode::TagNotWritable);
    let e = code(write("holding:7", number(1.0), ""));
    assert_eq!(e.code, ErrorCode::TagNotWritable);
    assert_eq!(
        e.message,
        "The tag is not in topology write_permissions. \
         Add it to topology.yaml to allow writes."
    );
    let e = code(write("holding:100", number(61.0), "Hz"));
    assert_eq!(e.message, "Value 61 exceeds the configured maximum 60.");
    let e = code(write("holding:100", number(1.0), "rpm"));
    assert_eq!(e.message, "Units mismatch: expected 'Hz', got 'rpm'.");
    let e = code(write("holding:100", number(1.5), "Hz"));
    assert_eq!(e.message, "value 1.5 is out of range for uint16 (0-65535).");
    let e = code(write("coil:1", number(1.0), ""));
    assert_eq!(e.message, "coil writes require a boolean value.");
    assert_eq!(code(write("nonsense", number(1.0), "")).code, ErrorCode::TagNotFound);
}

#[test]
fn modbus_without_topology_denies_all_writes() {
    let mut s = ModbusMcpServer::new();
    s.connect(
        "plc".to_string(),
        502,
        connect_settings(None, &None),
        ConnectAttempt::Connected,
        vec![None, None, None],
        "T".to_string(),
    )
    .unwrap();
    for id in ["holding:100", "coil:1", "holding:4:float32"] {
        let e = s.write_tag_request(&write(id, Json::Bool(true), "")).unwrap_err();
        assert_eq!(e.code, ErrorCode::TagNotWritable);
    }
}

#[test]
fn modbus_write_answers() {
    let mut s = connected();
    let w = s
        .write_tag(
            write("coil:1", Json::Bool(true), "u"),
            WriteValue::Bool(true),
            Some(Ok(Ok(()))),
            "T".to_string(),
        )
        .unwrap();
    assert_eq!(w.confirmation.value_written, WriteValue::Bool(true));
    assert_eq!(w.confirmation.timestamp, "T");
    assert_eq!(w.audit.reason, "why");
    assert_eq!(w.audit.operator_id, "op");
    let e = s
        .write_tag(
            write("coil:1", Json::Bool(true), "u"),
            WriteValue::Bool(true),
            Some(Ok(Err(ExceptionCode::IllegalFunction))),
            "T".to_string(),
        )
        .unwrap_err();
    assert_eq!(e.code, ErrorCode::TagNotWritable);
    assert_eq!(s.inner.as_ref().unwrap().last_error, Some(e.message));
    let e = s
        .write_tag(
            write("coil:1", Json::Bool(true), "u"),
            WriteValue::Bool(true),
            Some(Err("gone".to_string())),
            "T".to_string(),
        )
        .unwrap_err();
    assert_eq!(e.message, "The connection to the device failed.");
    assert!(s.inner.is_none());
}

#[test]
fn modbus_writes_read_back() {
    let mut s = connected();
    let (c, _) = s.write_tag_request(&write("holding:5:int16", number(-42.0), "")).unwrap();
    let word = match c {
        WriteCommand::Register { word, .. } => word,
        other => panic!("{other:?}"),
    };
    let reply = ReadReply::Registers(Some(Ok(Ok(vec![word]))));
    let v = s.read_tag("holding:5:int16", reply, "T".to_string()).unwrap();
    assert!(matches!(v.value, TagValue::Float(d) if d == double(-42.0)));
}

#[test]
fn modbus_binary32_writes_read_back_rounded() {
    let mut s = connected();
    for (x, back) in [(0.1, 0.1f32 as f64), (0.25, 0.25)] {
        let (c, _) = s.write_tag_request(&write("holding:4:float32", number(x), "")).unwrap();
        let words = match c {
            WriteCommand::Registers { words, .. } => words,
            other => panic!("{other:?}"),
        };
        let reply = ReadReply::Registers(Some(Ok(Ok(words))));
        let v = s.read_tag("holding:4:float32", reply, "T".to_string()).unwrap();
        assert!(matches!(v.value, TagValue::Float(d) if d == double(back)));
    }
}

#[test]
fn modbus_binary32_writes_stay_in_range() {
    let s = connected();
    let e = s.write_tag_request(&write("holding:4:float32", number(1e300), "")).unwrap_err();
    assert_eq!(e.code, ErrorCode::InvalidValue);
}

#[test]
fn modbus_addresses_are_dialed_in_order() {
    let mut d = Dialing::new(3);
    assert_eq!(d.next(), Some(0));
    d.failed("a".to_string());
    assert_eq!(d.next(), Some(1));
    d.failed("b".to_string());
    assert_eq!(d.next(), Some(2));
    d.failed("c".to_string());
    assert_eq!(d.next(), None);
    match d.attempt(false) {
        ConnectAttempt::Refused(failures) => assert_eq!(failures, vec!["a", "b", "c"]),
        other => panic!("{other:?}"),
    }
    let mut d = Dialing::new(2);
    d.failed("a".to_string());
    assert!(matches!(d.attempt(true), ConnectAttempt::Connected));
    assert_eq!(Dialing::new(0).next(), None);
}

#[test]
fn modbus_disconnect_reasons_are_logged() {
    let mut s = connected();
    let r = s.disconnect(Some("maintenance".to_string()), "T".to_string());
    let entry = r.audit.unwrap();
    assert_eq!((entry.timestamp.as_str(), entry.reason.as_str()), ("T", "maintenance"));
    assert!(s.disconnect(Some("again".to_string()), "T".to_string()).audit.is_none());
}

#[test]
fn unlogged_writes_are_not_successful() {
    let e = unlogged(false, "coil:1");
    assert_eq!(e.code, ErrorCode::PermissionDenied);
    assert_eq!(e.message, "The write was not carried out, since it cannot be logged for audit.");
    assert_eq!(e.tag_id.as_deref(), Some("coil:1"));
    assert_ne!(unlogged(true, "coil:1").message, e.message);
}

#[test]
fn writes_are_confirmed_once_logged() {
    let mut s = connected();
    let mut written = || {
        s.write_tag(
            write("coil:1", Json::Bool(true), "u"),
            WriteValue::Bool(true),
            Some(Ok(Ok(()))),
            "T".to_string(),
        )
        .unwrap()
    };
    let c = logged(written(), true).unwrap();
    assert_eq!(c.tag_id, "coil:1");
    assert_eq!(c.value_written, WriteValue::Bool(true));
    assert_eq!(c.timestamp, "T");
    let e = logged(written(), false).unwrap_err();
    assert_eq!(e.code, ErrorCode::PermissionDenied);
    assert_eq!(e.message, "The write was carried out, but could not be logged for audit.");
    assert_eq!(e.tag_id.as_deref(), Some("coil:1"));
}

#[test]
fn modbus_coil_writes_read_back() {
    let mut s = connected();
    for state in [true, false] {
        let (c, _) = s.write_tag_request(&write("coil:1", Json::Bool(state), "")).unwrap();
        let on = match c {
            WriteCommand::Coil { on, .. } => on,
            other => panic!("{other:?}"),
        };
        let reply = ReadReply::Bits(Some(Ok(Ok(vec![on]))));
        let v = s.read_tag("coil:1", reply, "T".to_string()).unwrap();
        assert!(matches!(v.value, TagValue::Bool(b) if b == state));
    }
}

#[test]
fn modbus_server_info() {
    let info = ModbusMcpServer::new().get_server_info(9);
    assert_eq!(info.info.server_name, "modbus-mcp");
    assert_eq!(info.info.protocol, "Modbus TCP");
    assert_eq!(info.info.protocol_version, "unknown");
    assert_eq!(info.info.connection_state, "disconnected");
    assert_eq!(info.info.uptime_seconds, 0);
    assert_eq!(info.slave_id, None);
    assert_eq!(
        info.info.capabilities,
        vec![
            "connect",
            "disconnect",
            "discover_tags",
            "scan",
            "get_topic_tree",
            "read_tag",
            "read_tag_history",
            "write_tag",
            "get_server_info",
        ]
    );
    let info = connected().get_server_info(9);
    assert_eq!(info.info.server_name, "modbus-mcp@plc:502");
    assert_eq!(info.info.connection_state, "connected");
    assert_eq!(info.info.uptime_seconds, 9);
    assert_eq!(info.slave_id, Some(1));
}

#[test]
fn modbus_discovery() {
    let s = connected();
    let tags = s.discover_tags(&Some("raw".to_string()), &None, Some(false)).unwrap();
    assert_eq!(tags.len(), 2);
    assert_eq!(tags[0].description, "");
    let tree = s.get_topic_tree().unwrap();
    assert_eq!((tree.holding.len(), tree.coil.len()), (1, 1));
}
