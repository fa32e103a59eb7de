use fieldworks_adapters::double::Double;
use fieldworks_adapters::envelope::{ErrorCode, Quality, TagValue, WriteValue};
use fieldworks_adapters::json::{Json, Number};
use fieldworks_adapters::mqtt::connection::{
    parse_mqtt_payload, ConnStatus, Incoming, ReceivedMessage,
};
use fieldworks_adapters::mqtt::feed::{Feed, LoopEvent};
use fieldworks_adapters::mqtt::server::{
    answers, connect_progress, connect_settings, Awaited, ConnectAttempt, Heard, MqttMcpServer,
    Payload,
};
use fieldworks_adapters::topology::{Limit, TopologyConfig, TopologyTag, WritePermission};
use fieldworks_adapters::writing::WriteRequest;

fn double(x: f64) -> Double {
    Double::from_bits(x.to_bits())
}

fn topology() -> TopologyConfig {
    TopologyConfig {
        tags: vec![TopologyTag {
            tag_id: "p/speed".to_string(),
            name: "Speed".to_string(),
            description: String::new(),
            units: "Hz".to_string(),
            data_type: "float".to_string(),
            writable: true,
            process_area: "raw".to_string(),
            equipment_id: "p1".to_string(),
            normal_range: None,
        }],
        write_permissions: vec![(
            "p/speed".to_string(),
            WritePermission {
                min: Some(Limit { at: double(0.0), shown: "0".to_string() }),
                max: Some(Limit { at: double(60.0), shown: "60".to_string() }),
                units: Some("Hz".to_string()),
            },
        )],
    }
}

fn connected(tried: Vec<Option<TopologyConfig>>) -> MqttMcpServer {
    let mut s = MqttMcpServer::new();
    let r = s
        .connect("broker".to_string(), 1883, 5000, ConnectAttempt::Connected, tried, "T0".to_string())
        .unwrap();
    assert_eq!(r.server_name, "broker:1883");
    assert_eq!(r.protocol_version, "3.1.1");
    s
}

fn incoming(topic: &str, payload: &str) -> Incoming {
    Incoming {
        topic: topic.to_string(),
        payload: payload.as_bytes().to_vec(),
        number: payload.trim().parse::<f64>().ok().map(double),
        timestamp: "T1".to_string(),
        retain: false,
    }
}

fn message(topic: &str, payload: &str) -> ReceivedMessage {
    ReceivedMessage {
        topic: topic.to_string(),
        payload: payload.to_string(),
        number: payload.trim().parse::<f64>().ok().map(double),
        timestamp: "T1".to_string(),
        retain: false,
    }
}

#[test]
fn mqtt_connect_settings() {
    let s = connect_settings(None, &None);
    assert_eq!(s.client_id, "fieldworks-mqtt-mcp");
    assert_eq!((s.keep_alive_secs, s.clean_session, s.timeout_ms), (60, true, 5000));
    assert_eq!(s.credentials, None);
    let options = Some(Json::Object(vec![
        ("client_id".to_string(), Json::Text("me".to_string())),
        ("keep_alive_secs".to_string(), Json::Number(Number::Unsigned(5))),
        ("clean_session".to_string(), Json::Bool(false)),
        ("username".to_string(), Json::Text("u".to_string())),
        ("password".to_string(), Json::Text("p".to_string())),
    ]));
    let s = connect_settings(Some(7), &options);
    assert_eq!(s.client_id, "me");
    assert_eq!((s.keep_alive_secs, s.clean_session, s.timeout_ms), (5, false, 7));
    assert_eq!(s.credentials, Some(("u".to_string(), "p".to_string())));
    let half = Some(Json::Object(vec![("username".to_string(), Json::Text("u".to_string()))]));
    assert_eq!(connect_settings(None, &half).credentials, None);
}

#[test]
fn mqtt_connect_progress() {
    assert!(connect_progress(&ConnStatus::Connecting, false).is_none());
    assert!(matches!(
        connect_progress(&ConnStatus::Connected, false),
        Some(ConnectAttempt::Connected)
    ));
    assert!(matches!(
        connect_progress(&ConnStatus::Error("x".to_string()), false),
        Some(ConnectAttempt::Failed(e)) if e == "x"
    ));
    assert!(matches!(
        connect_progress(&ConnStatus::Connecting, true),
        Some(ConnectAttempt::Failed(e)) if e == "connection channel closed"
    ));
}

#[test]
fn mqtt_connect_failures() {
    let mut s = connected(Vec::new());
    let failed = ConnectAttempt::Failed("refused".to_string());
    let e = s
        .connect("broker".to_string(), 1883, 5, failed, Vec::new(), "T".to_string())
        .unwrap_err();
    assert_eq!(e.code, ErrorCode::ConnectionError);
    assert_eq!(e.message, "Failed to connect to broker:1883");
    assert!(s.inner.is_none());
    let e = s
        .connect("b".to_string(), 1, 5, ConnectAttempt::TimedOut, Vec::new(), "T".to_string())
        .unwrap_err();
    assert_eq!(e.code, ErrorCode::Timeout);
    assert_eq!(e.message, "Connection to b:1 timed out after 5ms");
}

#[test]
fn mqtt_tools_need_a_connection() {
    let s = MqttMcpServer::new();
    let feed = Feed::new();
    let message = "Not connected to an MQTT broker. Call connect first.";
    assert_eq!(s.discover_tags(&feed, &None, &None, None).unwrap_err().message, message);
    assert_eq!(s.scan_subscription(None, None).unwrap_err().message, message);
    assert_eq!(s.tree_subscription(None).unwrap_err().message, message);
    let e = s.read_subscription("t").unwrap_err();
    assert_eq!(e.tag_id.as_deref(), Some("t"));
    assert_eq!(e.message, message);
    assert_eq!(s.write_tag_request(&write(1.0, "Hz"), "T").unwrap_err().message, message);
}

#[test]
fn mqtt_disconnect_is_idempotent() {
    let mut s = connected(Vec::new());
    let r = s.disconnect(Some("done".to_string()), "T".to_string());
    assert!(r.response.disconnected);
    assert_eq!(r.audit.unwrap().reason, "done");
    let r = s.disconnect(Some("done".to_string()), "T".to_string());
    assert!(r.response.disconnected);
    assert!(r.audit.is_none());
    assert!(s.inner.is_none());
}

#[test]
fn mqtt_discovery_falls_back_to_the_cache() {
    let mut feed = Feed::new();
    feed.step(LoopEvent::Publish(incoming("a/b", "on")));
    let s = connected(Vec::new());
    let tags = s.discover_tags(&feed, &None, &None, None).unwrap();
    assert_eq!(tags.len(), 1);
    assert_eq!((tags[0].tag_id.as_str(), tags[0].name.as_str()), ("a/b", "b"));
    assert_eq!(s.discover_tags(&feed, &Some("raw".to_string()), &None, None).unwrap().len(), 0);
    let s = connected(vec![Some(topology())]);
    let tags = s.discover_tags(&feed, &Some("raw".to_string()), &None, None).unwrap();
    assert_eq!(tags[0].tag_id, "p/speed");
}

#[test]
fn mqtt_subscriptions() {
    let s = connected(Vec::new());
    let sub = s.scan_subscription(None, None).unwrap();
    assert_eq!((sub.pattern.as_str(), sub.window_ms), ("#", 5000));
    let sub = s.scan_subscription(Some("a/+".to_string()), Some(3)).unwrap();
    assert_eq!((sub.pattern.as_str(), sub.window_ms), ("a/+", 3));
    let sub = s.tree_subscription(Some("a".to_string())).unwrap();
    assert_eq!((sub.pattern.as_str(), sub.window_ms), ("a/#", 10000));
    assert_eq!(s.tree_subscription(Some(String::new())).unwrap().pattern, "#");
    assert_eq!(s.tree_subscription(None).unwrap().pattern, "#");
    let sub = s.read_subscription("a/b").unwrap();
    assert_eq!((sub.pattern.as_str(), sub.window_ms), ("a/b", 10000));
}

#[test]
fn mqtt_refused_subscriptions() {
    let s = connected(Vec::new());
    let e = s.scan(&Heard::Refused("full".to_string())).unwrap_err();
    assert_eq!(e.code, ErrorCode::ConnectionError);
    assert_eq!(e.message, "The subscription could not be made.");
    assert_eq!(e.tag_id, None);
    let e = s.get_topic_tree(&Heard::Refused("full".to_string()), None).unwrap_err();
    assert_eq!(e.message, "The subscription could not be made.");
    let e = s.read_tag(&Feed::new(), "t", &Awaited::Refused("full".to_string())).unwrap_err();
    assert_eq!(e.message, "The subscription could not be made.");
    assert_eq!(e.tag_id.as_deref(), Some("t"));
}

#[test]
fn mqtt_scan_and_tree() {
    let s = connected(Vec::new());
    let heard = Heard::Messages(vec![message("a/b", "1"), message("a/b", "2")]);
    let entries = s.scan(&heard).unwrap();
    assert_eq!(entries.len(), 1);
    let tree = s.get_topic_tree(&heard, Some(true)).unwrap();
    let leaf = tree.get("a").unwrap().get("b").unwrap();
    assert_eq!(leaf.get("value").unwrap().as_f64(), Some(double(2.0)));
    let tree = s.get_topic_tree(&heard, None).unwrap();
    assert!(tree.get("a").unwrap().get("b").unwrap().get("value").is_none());
}

#[test]
fn mqtt_reads() {
    let s = connected(Vec::new());
    let mut feed = Feed::new();
    assert!(answers(&message("t", "5"), "t"));
    assert!(!answers(&message("t/x", "5"), "t"));
    let v = s.read_tag(&feed, "t", &Awaited::Message(message("t", "5"))).unwrap();
    assert!(matches!(v.value, TagValue::Float(d) if d == double(5.0)));
    assert_eq!(v.quality, Quality::Good);
    let e = s.read_tag(&feed, "t", &Awaited::Nothing).unwrap_err();
    assert_eq!(e.code, ErrorCode::Timeout);
    assert_eq!(
        e.message,
        "No message received within 10 seconds. \
         The topic may not exist or no publisher is active."
    );
    feed.step(LoopEvent::Publish(incoming("t", "4")));
    let v = s.read_tag(&feed, "t", &Awaited::Nothing).unwrap();
    assert!(matches!(v.value, TagValue::Float(d) if d == double(4.0)));
    assert_eq!(v.quality, Quality::Uncertain);
    assert_eq!(v.timestamp, "T1");
    assert_eq!(feed.latest_reading("t").unwrap().quality, Quality::Good);
}

#[test]
fn mqtt_has_no_history() {
    let e = MqttMcpServer::new().read_tag_history("t");
    assert_eq!(e.code, ErrorCode::HistoryUnavailable);
    assert_eq!(
        e.message,
        "MQTT v3.1.1 does not support native historical data. \
         Bridge to a time-series store to enable read_tag_history."
    );
}

fn write(x: f64, units: &str) -> WriteRequest {
    WriteRequest {
        tag_id: "p/speed".to_string(),
        value: Json::Number(Number::Float(double(x))),
        shown: format!("{x}"),
        units: units.to_string(),
        operator_id: "op".to_string(),
        reason: "why".to_string(),
    }
}

fn document(p: Payload) -> Json {
    match p {
        Payload::Document(d) => d,
        other => panic!("{other:?}"),
    }
}

#[test]
fn mqtt_writes() {
    let s = connected(vec![Some(topology())]);
    let (p, v) = s.write_tag_request(&write(45.0, "Hz"), "T").unwrap();
    assert_eq!(p.topic, "p/speed");
    assert!(!p.retain);
    let d = document(p.payload);
    assert_eq!(d.get("value").unwrap().as_f64(), Some(double(45.0)));
    assert_eq!(d.get("quality").unwrap().as_str(), Some("good"));
    assert_eq!(d.get("timestamp").unwrap().as_str(), Some("T"));
    assert_eq!(d.get("units").unwrap().as_str(), Some("Hz"));
    assert_eq!(v, WriteValue::Float(double(45.0)));
    let w = s.write_tag(write(45.0, "Hz"), v, Ok(()), "T".to_string()).unwrap();
    assert_eq!(w.confirmation.quality, Quality::Good);
    assert_eq!(w.audit.tag_id, "p/speed");
    let e = s.write_tag(write(45.0, "Hz"), v, Err("full".to_string()), "T".to_string()).unwrap_err();
    assert_eq!(e.code, ErrorCode::ConnectionError);
    assert_eq!(e.message, "The write could not be carried out.");
}

#[test]
fn mqtt_refused_writes() {
    let s = connected(vec![Some(topology())]);
    assert_eq!(
        s.write_tag_request(&write(-1.0, "Hz"), "T").unwrap_err().message,
        "Value -1 is below the configured minimum 0."
    );
    assert_eq!(s.write_tag_request(&write(1.0, "rpm"), "T").unwrap_err().code, ErrorCode::InvalidValue);
    let s = connected(vec![None]);
    let e = s.write_tag_request(&write(1.0, "Hz"), "T").unwrap_err();
    assert_eq!(e.code, ErrorCode::TagNotWritable);
    assert_eq!(
        e.message,
        "The tag is not in topology write_permissions. \
         Add it to topology.yaml to allow writes."
    );
}

fn to_value(j: &Json) -> serde_json::Value {
    match j {
        Json::Null => serde_json::Value::Null,
        Json::Bool(b) => serde_json::Value::from(*b),
        Json::Number(Number::Unsigned(n)) => serde_json::Value::from(*n),
        Json::Number(Number::Negative(n)) => serde_json::Value::from(*n),
        Json::Number(Number::Float(d)) => serde_json::Value::from(f64::from_bits(d.bits)),
        Json::Text(s) => serde_json::Value::from(s.as_str()),
        Json::Array(a) => a.iter().map(to_value).collect(),
        Json::Object(m) => m.iter().map(|(k, v)| (k.clone(), to_value(v))).collect(),
    }
}

#[test]
fn mqtt_writes_read_back() {
    let s = connected(vec![Some(topology())]);
    let (p, _) = s.write_tag_request(&write(45.5, "Hz"), "T9").unwrap();
    let payload = to_value(&document(p.payload)).to_string();
    let v = parse_mqtt_payload(&p.topic, &payload, None, "later");
    assert!(matches!(v.value, TagValue::Float(d) if d == double(45.5)));
    assert_eq!(v.quality, Quality::Good);
    assert_eq!(v.timestamp, "T9");
    assert_eq!(v.units, "Hz");
    assert_eq!(v.tag_id, "p/speed");
}

#[test]
fn mqtt_plain_writes_read_back_from_their_text() {
    let mut open = topology();
    open.write_permissions[0].1 = WritePermission { min: None, max: None, units: None };
    let s = connected(vec![Some(open)]);
    let units = "\"m\\3\"\n\u{1}\u{fc}";
    let values = [
        (Json::Number(Number::Unsigned(45)), "45", TagValue::Float(double(45.0))),
        (Json::Number(Number::Negative(-7)), "-7", TagValue::Float(double(-7.0))),
        (Json::Number(Number::Negative(i64::MIN)), "-9223372036854775808", TagValue::Float(double(i64::MIN as f64))),
        (Json::Number(Number::Unsigned(u64::MAX)), "18446744073709551615", TagValue::Float(double(u64::MAX as f64))),
        (Json::Bool(true), "true", TagValue::Bool(true)),
    ];
    for (value, text, expected) in values {
        let req = WriteRequest { value, ..write(0.0, units) };
        let (p, _) = s.write_tag_request(&req, "T9").unwrap();
        let payload = match p.payload {
            Payload::Text(t) => t,
            other => panic!("{other:?}"),
        };
        assert!(payload.contains(&format!("\"value\":{text}")));
        let v = parse_mqtt_payload(&p.topic, &payload, None, "later");
        match (v.value, expected) {
            (TagValue::Float(a), TagValue::Float(b)) => assert_eq!(a, b),
            (TagValue::Bool(a), TagValue::Bool(b)) => assert_eq!(a, b),
            other => panic!("{other:?}"),
        }
        assert_eq!((v.timestamp.as_str(), v.units.as_str()), ("T9", units));
        assert_eq!(v.quality, Quality::Good);
    }
    let req = WriteRequest { value: Json::Bool(false), ..write(0.0, "Hz") };
    let (p, _) = s.write_tag_request(&req, "T9").unwrap();
    let plain = r#"{"quality":"good","timestamp":"T9","units":"Hz","value":false}"#;
    assert!(matches!(p.payload, Payload::Text(t) if t == plain));
}

#[test]
fn mqtt_server_info() {
    let mut feed = Feed::new();
    let info = MqttMcpServer::new().get_server_info(&feed, 4);
    assert_eq!(info.server_name, "mqtt-mcp");
    assert_eq!(info.connection_state, "disconnected");
    assert_eq!(info.uptime_seconds, 0);
    let s = connected(Vec::new());
    let info = s.get_server_info(&feed, 4);
    assert_eq!(info.server_name, "mqtt-mcp@broker:1883");
    assert_eq!((info.connected, info.connection_state.as_str()), (false, "connecting"));
    feed.step(LoopEvent::ConnAck);
    let info = s.get_server_info(&feed, 4);
    assert_eq!((info.connected, info.connection_state.as_str()), (true, "connected"));
    assert_eq!(info.uptime_seconds, 4);
    feed.step(LoopEvent::Failed("io".to_string()));
    let info = s.get_server_info(&feed, 4);
    assert_eq!((info.connected, info.connection_state.as_str()), (false, "error: io"));
    assert_eq!(info.last_error.as_deref(), Some("io"));
    assert_eq!(info.protocol, "MQTT");
    assert_eq!(info.protocol_version, "3.1.1");
    assert_eq!(info.capabilities.len(), 9);
}
