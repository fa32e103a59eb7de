use fieldworks_adapters::double::Double;
use fieldworks_adapters::envelope::{ErrorCode, Quality, TagValue, Vqt, WriteValue};
use fieldworks_adapters::json::{Json, Number};
use fieldworks_adapters::mqtt::connection::{
    Incoming,
    default_data_type, json_to_tag_value, number_text, parse_mqtt_payload, payload_vqt,
    str_to_quality, vqt_to_descriptor, ConnStatus, Member, PayloadMembers, ReceivedMessage,
};
use fieldworks_adapters::mqtt::feed::{latest_messages, scan_entries, Feed, LoopEvent};
use fieldworks_adapters::mqtt::topics::{build_topic_tree, topic_tree};
use fieldworks_adapters::topology::{load_topology, validate_write, Limit, WritePermission};

fn double(x: f64) -> Double {
    Double::from_bits(x.to_bits())
}

fn number(x: f64) -> Json {
    Json::Number(Number::Float(double(x)))
}

fn ts() -> &'static str {
    "2026-06-10T00:00:00.000Z"
}

fn decimal(payload: &str) -> Option<Double> {
    number_text(payload.as_bytes()).parse::<f64>().ok().map(double)
}

fn parse(topic: &str, payload: &str) -> Vqt {
    parse_mqtt_payload(topic, payload, decimal(payload), ts())
}

fn float(v: &TagValue) -> f64 {
    match v {
        TagValue::Float(d) => f64::from_bits(d.bits),
        other => panic!("not a number: {other:?}"),
    }
}

#[test]
fn payload_json_value_key_float() {
    let vqt = parse("t", r#"{"value": 42.3}"#);
    assert!((float(&vqt.value) - 42.3).abs() < 1e-9);
    assert_eq!(vqt.quality, Quality::Good);
}

#[test]
fn payload_json_value_key_bool() {
    let vqt = parse("t", r#"{"value": true}"#);
    assert!(matches!(vqt.value, TagValue::Bool(true)));
}

#[test]
fn payload_json_quality_propagates() {
    let vqt = parse("t", r#"{"value": 1.0, "quality": "bad"}"#);
    assert_eq!(vqt.quality, Quality::Bad);
}

#[test]
fn payload_json_units_propagates() {
    let vqt = parse("t", r#"{"value": 1.0, "units": "bar"}"#);
    assert_eq!(vqt.units, "bar");
}

#[test]
fn payload_raw_float() {
    let vqt = parse("t", "3.14");
    assert!((float(&vqt.value) - 3.14).abs() < 1e-9);
}

#[test]
fn payload_raw_integer_string() {
    let vqt = parse("t", "100");
    assert!((float(&vqt.value) - 100.0).abs() < 1e-9);
}

#[test]
fn payload_bool_aliases_true() {
    for s in ["true", "True", "TRUE", "on", "ON", "open", "active", "high"] {
        let vqt = parse("t", s);
        assert!(matches!(vqt.value, TagValue::Bool(true)), "expected Bool(true) for payload '{s}'");
    }
}

#[test]
fn payload_bool_aliases_false() {
    for s in ["false", "False", "FALSE", "off", "OFF", "closed", "inactive", "low"] {
        let vqt = parse("t", s);
        assert!(
            matches!(vqt.value, TagValue::Bool(false)),
            "expected Bool(false) for payload '{s}'"
        );
    }
}

#[test]
fn payload_arbitrary_string_fallback() {
    let vqt = parse("t", "UNKNOWN_STATE");
    assert!(matches!(vqt.value, TagValue::Text(s) if s == "UNKNOWN_STATE"));
}

#[test]
fn payload_topic_id_is_set() {
    let vqt = parse("factory/pump01/flow", "1.0");
    assert_eq!(vqt.tag_id, "factory/pump01/flow");
}

#[test]
fn payload_json_without_value_key_falls_through() {
    let vqt = parse("t", r#"{"other": 1}"#);
    assert!(matches!(vqt.value, TagValue::Text(_)));
}

#[test]
fn payload_members_are_all_read() {
    let payload = r#"{"value": "run", "quality": "uncertain", "timestamp": "T1", "units": "m3/h"}"#;
    let vqt = parse("a/b", payload);
    assert!(matches!(vqt.value, TagValue::Text(ref s) if s == "run"));
    assert_eq!(vqt.quality, Quality::Uncertain);
    assert_eq!(vqt.timestamp, "T1");
    assert_eq!(vqt.units, "m3/h");
}

#[test]
fn payload_members_of_other_kinds() {
    let vqt = parse("t", r#"{"value": [1], "quality": 3, "timestamp": null, "units": false}"#);
    assert!(matches!(vqt.value, TagValue::Text(ref s) if s.starts_with('{')));
    assert_eq!(vqt.quality, Quality::Good);
    assert_eq!(vqt.timestamp, ts());
    assert_eq!(vqt.units, "");
}

#[test]
fn payload_integers_become_numbers() {
    assert_eq!(float(&parse("t", r#"{"value": 18446744073709551615}"#).value), 18446744073709551615.0);
    assert_eq!(float(&parse("t", r#"{"value": -7}"#).value), -7.0);
}

#[test]
fn payload_white_space_is_trimmed_for_numbers_and_words() {
    assert_eq!(float(&parse("t", " 2.5\n").value), 2.5);
    assert!(matches!(parse("t", "\tOpen \u{a0}").value, TagValue::Bool(true)));
    assert!(matches!(parse("t", " odd ").value, TagValue::Text(s) if s == " odd "));
    assert_eq!(number_text("\u{2003} x\u{3000}".as_bytes()), "x");
}

#[test]
fn payload_without_a_number_still_knows_one_and_zero() {
    let vqt = parse_mqtt_payload("t", "1", None, ts());
    assert!(matches!(vqt.value, TagValue::Bool(true)));
    let vqt = parse_mqtt_payload("t", "0", None, ts());
    assert!(matches!(vqt.value, TagValue::Bool(false)));
}

#[test]
fn payload_from_given_members() {
    let value = Member { number: Some(double(7.0)), boolean: None, text: None };
    let units = Member { number: None, boolean: None, text: Some("bar".to_string()) };
    let members = PayloadMembers {
        value: Some(value),
        quality: None,
        timestamp: None,
        units: Some(units),
    };
    let vqt = payload_vqt("t", "ignored", None, ts(), &members);
    assert_eq!(float(&vqt.value), 7.0);
    assert_eq!(vqt.units, "bar");
    assert_eq!(vqt.timestamp, ts());
    let nothing = Member { number: None, boolean: None, text: None };
    assert!(matches!(json_to_tag_value(&nothing, "raw"), TagValue::Text(s) if s == "raw"));
}

#[test]
fn quality_strings() {
    assert_eq!(str_to_quality("good"), Quality::Good);
    assert_eq!(str_to_quality("uncertain"), Quality::Uncertain);
    assert_eq!(str_to_quality("bad"), Quality::Bad);
    assert_eq!(str_to_quality("unknown"), Quality::Bad);
    assert_eq!(str_to_quality(""), Quality::Bad);
}

fn as_number(j: &Json) -> f64 {
    f64::from_bits(j.as_f64().unwrap().bits)
}

#[test]
fn topic_tree_flat_single_level() {
    let tree = build_topic_tree(vec![("sensor".into(), Json::Number(Number::Unsigned(1)))]);
    assert_eq!(tree.get("sensor").unwrap().as_u64(), Some(1));
}

#[test]
fn topic_tree_nested() {
    let tree = build_topic_tree(vec![
        ("factory/pump01/flow".into(), number(42.0)),
        ("factory/pump01/speed".into(), number(30.0)),
        ("factory/pump02/flow".into(), number(10.0)),
    ]);
    let factory = tree.get("factory").unwrap();
    assert_eq!(as_number(factory.get("pump01").unwrap().get("flow").unwrap()), 42.0);
    assert_eq!(as_number(factory.get("pump01").unwrap().get("speed").unwrap()), 30.0);
    assert_eq!(as_number(factory.get("pump02").unwrap().get("flow").unwrap()), 10.0);
}

#[test]
fn topic_tree_empty_input() {
    match build_topic_tree(Vec::new()) {
        Json::Object(members) => assert!(members.is_empty()),
        other => panic!("not an object: {other:?}"),
    }
}

#[test]
fn topic_tree_ignores_the_order_of_topics() {
    let topics = [("a/b", 1.0), ("a/c", 2.0), ("d", 3.0)];
    for order in [[0, 1, 2], [0, 2, 1], [1, 0, 2], [1, 2, 0], [2, 0, 1], [2, 1, 0]] {
        let tree = build_topic_tree(
            order.iter().map(|i: &usize| (topics[*i].0.to_string(), number(topics[*i].1))).collect(),
        );
        assert_eq!(as_number(tree.get("a").unwrap().get("b").unwrap()), 1.0);
        assert_eq!(as_number(tree.get("a").unwrap().get("c").unwrap()), 2.0);
        assert_eq!(as_number(tree.get("d").unwrap()), 3.0);
    }
}

#[test]
fn topic_tree_keeps_what_is_no_object() {
    let tree = build_topic_tree(vec![
        ("a".into(), number(1.0)),
        ("a/b".into(), number(2.0)),
        ("a".into(), number(3.0)),
    ]);
    assert_eq!(as_number(tree.get("a").unwrap()), 3.0);
    let tree = build_topic_tree(vec![("a/b".into(), number(2.0)), ("a".into(), number(1.0))]);
    assert_eq!(as_number(tree.get("a").unwrap()), 1.0);
    let tree = build_topic_tree(vec![("//".into(), number(5.0))]);
    assert_eq!(as_number(tree.get("").unwrap().get("").unwrap().get("").unwrap()), 5.0);
}

fn limit(x: f64) -> Limit {
    Limit { at: double(x), shown: format!("{x}") }
}

fn perm(min: Option<f64>, max: Option<f64>, units: Option<&str>) -> WritePermission {
    WritePermission { min: min.map(limit), max: max.map(limit), units: units.map(String::from) }
}

fn validate(
    p: &WritePermission,
    x: f64,
    units: &str,
    tag_id: &str,
) -> Result<WriteValue, fieldworks_adapters::envelope::AdapterError> {
    validate_write(p, &number(x), &format!("{x}"), units, tag_id)
}

#[test]
fn connection_validate_write_float_ok() {
    let p = perm(Some(0.0), Some(100.0), Some("Hz"));
    let result = validate(&p, 50.0, "Hz", "tag");
    assert!(matches!(result, Ok(WriteValue::Float(d)) if (f64::from_bits(d.bits) - 50.0).abs() < 1e-9));
}

#[test]
fn connection_validate_write_bool_ok() {
    let p = perm(None, None, None);
    let result = validate_write(&p, &Json::Bool(true), "", "", "tag");
    assert!(matches!(result, Ok(WriteValue::Bool(true))));
}

#[test]
fn connection_validate_write_below_min() {
    let p = perm(Some(10.0), Some(100.0), None);
    let err = validate(&p, 5.0, "", "tag").unwrap_err();
    assert_eq!(err.code, ErrorCode::InvalidValue);
    assert!(err.message.contains("minimum"));
    assert_eq!(err.message, "Value 5 is below the configured minimum 10.");
}

#[test]
fn connection_validate_write_above_max() {
    let p = perm(Some(0.0), Some(60.0), None);
    let err = validate(&p, 61.0, "", "tag").unwrap_err();
    assert_eq!(err.code, ErrorCode::InvalidValue);
    assert!(err.message.contains("maximum"));
    assert_eq!(err.message, "Value 61 exceeds the configured maximum 60.");
}

#[test]
fn validate_write_at_boundary_passes() {
    let p = perm(Some(0.0), Some(60.0), Some("Hz"));
    assert!(validate(&p, 0.0, "Hz", "tag").is_ok());
    assert!(validate(&p, 60.0, "Hz", "tag").is_ok());
    assert!(validate(&p, -0.0, "Hz", "tag").is_ok());
    assert!(validate(&p, -5e-324, "Hz", "tag").is_err());
}

#[test]
fn connection_validate_write_units_mismatch() {
    let p = perm(None, None, Some("Hz"));
    let err = validate(&p, 50.0, "rpm", "tag").unwrap_err();
    assert_eq!(err.code, ErrorCode::InvalidValue);
    assert!(err.message.contains("Units") || err.message.contains("units"));
}

#[test]
fn validate_write_empty_units_skips_check() {
    let p = perm(None, None, Some(""));
    assert!(validate(&p, 1.0, "anything", "tag").is_ok());
}

#[test]
fn connection_validate_write_string_rejected() {
    let p = perm(None, None, None);
    let err = validate_write(&p, &Json::Text("bad".to_string()), "", "", "tag").unwrap_err();
    assert_eq!(err.code, ErrorCode::InvalidValue);
}

#[test]
fn validate_write_tag_id_in_error() {
    let p = perm(Some(0.0), Some(10.0), None);
    let err = validate(&p, 99.0, "", "my/tag").unwrap_err();
    assert_eq!(err.tag_id.as_deref(), Some("my/tag"));
}

#[test]
fn connection_load_topology_returns_default_when_no_file() {
    let config = load_topology(vec![None, None, None]);
    assert_eq!(config.tags.len(), 0);
}

#[test]
fn descriptors_of_readings() {
    let d = vqt_to_descriptor(&parse("factory/pump01/flow", r#"{"value": 1, "units": "bar"}"#));
    assert_eq!(d.tag_id, "factory/pump01/flow");
    assert_eq!(d.name, "flow");
    assert_eq!(d.units, "bar");
    assert_eq!(d.data_type, "float");
    assert!(!d.writable);
    assert!(d.normal_range.is_none());
    assert_eq!(vqt_to_descriptor(&parse("t", "on")).data_type, "boolean");
    let d = vqt_to_descriptor(&parse("t/", "idle"));
    assert_eq!(d.data_type, "string");
    assert_eq!(d.name, "");
}

fn message(topic: &str, payload: &str, retain: bool) -> ReceivedMessage {
    ReceivedMessage {
        topic: topic.to_string(),
        payload: payload.to_string(),
        number: decimal(payload),
        timestamp: ts().to_string(),
        retain,
    }
}

fn incoming(topic: &str, payload: &str, retain: bool) -> Incoming {
    Incoming {
        topic: topic.to_string(),
        payload: payload.as_bytes().to_vec(),
        number: decimal(payload),
        timestamp: ts().to_string(),
        retain,
    }
}

#[test]
fn event_loop_decodes_the_bytes_of_a_payload() {
    let mut feed = Feed::new();
    let bytes = vec![b'o', 0xff, b'k'];
    let number = number_text(&bytes).parse::<f64>().ok().map(double);
    let m = Incoming { payload: bytes, number, ..incoming("a", "", true) };
    let heard = feed.step(LoopEvent::Publish(m)).unwrap();
    assert_eq!(heard.payload, "o\u{fffd}k");
    assert!(heard.retain);
    let v = &feed.latest_reading("a").unwrap().value;
    assert!(matches!(v, TagValue::Text(t) if t == "o\u{fffd}k"));
    feed.step(LoopEvent::Publish(incoming("a", "\u{e4}", false)));
    let v = &feed.latest_reading("a").unwrap().value;
    assert!(matches!(v, TagValue::Text(t) if t == "\u{e4}"));
}

#[test]
fn event_loop_keeps_state() {
    let mut feed = Feed::new();
    assert_eq!(feed.status, ConnStatus::Connecting);
    assert!(feed.step(LoopEvent::ConnAck).is_none());
    assert_eq!(feed.status, ConnStatus::Connected);
    let heard = feed.step(LoopEvent::Publish(incoming("a", "1", false))).unwrap();
    assert_eq!(heard.topic, "a");
    feed.step(LoopEvent::Publish(incoming("b", "2", false)));
    feed.step(LoopEvent::Publish(incoming("a", "3", true)));
    assert_eq!(feed.cache.len(), 2);
    assert_eq!(float(&feed.latest_reading("a").unwrap().value), 3.0);
    assert_eq!(float(&feed.latest_reading("b").unwrap().value), 2.0);
    assert!(feed.latest_reading("c").is_none());
    assert!(feed.step(LoopEvent::Other).is_none());
    assert_eq!(feed.last_error, None);
    feed.step(LoopEvent::Failed("refused".to_string()));
    assert_eq!(feed.status, ConnStatus::Error("refused".to_string()));
    assert_eq!(feed.last_error.as_deref(), Some("refused"));
    feed.step(LoopEvent::Disconnect);
    assert_eq!(feed.status, ConnStatus::Error("disconnected by broker".to_string()));
    assert_eq!(feed.last_error.as_deref(), Some("refused"));
    let names: Vec<String> = feed.describe_cache().into_iter().map(|d| d.name).collect();
    assert_eq!(names, vec!["a", "b"]);
}

#[test]
fn last_message_of_a_window_wins() {
    let heard = vec![
        message("a", "1", true),
        message("b", r#"{"value": 5, "quality": "bad", "timestamp": "T2"}"#, false),
        message("a", "2", false),
    ];
    let latest = latest_messages(&heard);
    assert_eq!(latest.len(), 2);
    assert_eq!((latest[0].topic.as_str(), latest[0].payload.as_str()), ("a", "2"));
    let entries = scan_entries(&heard);
    assert_eq!(entries.len(), 2);
    assert_eq!(entries[0].entry.topic, "a");
    assert_eq!(float(entries[0].entry.last_value.as_ref().unwrap()), 2.0);
    assert!(!entries[0].retain);
    assert_eq!(entries[0].entry.quality, Quality::Good);
    assert_eq!(entries[1].entry.quality, Quality::Bad);
    assert_eq!(entries[1].entry.timestamp.as_deref(), Some("T2"));
}

#[test]
fn topic_trees_of_messages() {
    let heard = vec![message("p/flow", "7", false), message("p/state", "on", false)];
    let tree = topic_tree(&heard, true);
    let flow = tree.get("p").unwrap().get("flow").unwrap();
    assert_eq!(flow.get("tag_id").unwrap().as_str(), Some("p/flow"));
    assert_eq!(as_number(flow.get("value").unwrap()), 7.0);
    assert_eq!(flow.get("quality").unwrap().as_str(), Some("good"));
    assert_eq!(flow.get("timestamp").unwrap().as_str(), Some(ts()));
    assert_eq!(flow.get("units").unwrap().as_str(), Some(""));
    let tree = topic_tree(&heard, false);
    let state = tree.get("p").unwrap().get("state").unwrap();
    assert_eq!(state.get("tag_id").unwrap().as_str(), Some("p/state"));
    assert!(state.get("value").is_none());
}

#[test]
fn mqtt_tags_are_float_by_default() {
    assert_eq!(default_data_type(), "float");
}
