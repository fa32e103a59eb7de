use fieldworks_adapters::double::Double;
use fieldworks_adapters::envelope::{ErrorCode, Quality, TagValue, WriteValue};
use fieldworks_adapters::json::{Json, Number};
use fieldworks_adapters::opcua::browse::{browse_request, FlatBrowse, Reference, NODE_CAP};
use fieldworks_adapters::opcua::connection::{
    data_value_to_vqt, default_data_type, extract_history_data, is_node_id_unknown,
    make_history_read_details, map_write_status_code, reading_at, status_code_to_quality,
    validate_write, variant_to_tag_value, DataReading, HistoryReading, Variant,
};
use fieldworks_adapters::opcua::nodes::{found_node, parse_node_id, Identifier, NodeId};
use fieldworks_adapters::opcua::server::{
    session_settings, ConnectAttempt, Identity, OpcUaMcpServer, SecurityMode,
};
use fieldworks_adapters::opcua::tree::{first_value, NodeTree, TreeBrowse, TreeRequest};
use fieldworks_adapters::topology::{Limit, TopologyConfig, TopologyTag, WritePermission};
use fieldworks_adapters::writing::WriteRequest;

fn double(x: f64) -> Double {
    Double::from_bits(x.to_bits())
}

fn float(v: &TagValue) -> f64 {
    match v {
        TagValue::Float(d) => f64::from_bits(d.bits),
        other => panic!("not a number: {other:?}"),
    }
}

#[test]
fn node_ids_are_read() {
    let n = parse_node_id("ns=2;s=Pump01.FlowRate").unwrap();
    assert_eq!(n.namespace, 2);
    assert!(matches!(n.identifier, Identifier::Text(Some(t)) if t == "Pump01.FlowRate"));
    let n = parse_node_id("ns=2;i=1001").unwrap();
    assert_eq!(n.namespace, 2);
    assert!(matches!(n.identifier, Identifier::Numeric(1001)));
    let n = parse_node_id("ns=0;i=85").unwrap();
    assert!(matches!((n.namespace, n.identifier), (0, Identifier::Numeric(85))));
    let n = parse_node_id("i=84").unwrap();
    assert!(matches!((n.namespace, n.identifier), (0, Identifier::Numeric(84))));
    let n = parse_node_id("ns=1;b=AQID").unwrap();
    assert!(matches!(n.identifier, Identifier::Opaque(Some(b)) if b == vec![1, 2, 3]));
    let n = parse_node_id("g=00000000-0000-0000-0000-000000000102").unwrap();
    assert!(matches!(n.identifier, Identifier::Guid(g) if g[14] == 1 && g[15] == 2));
}

#[test]
fn malformed_node_ids_are_no_tags() {
    for s in ["", "Pump01", "ns=2", "ns=70000;i=1", "ns=2;i=x", "ns=2;s=", "ns=2;q=1", "i=-1"] {
        let e = parse_node_id(s).unwrap_err();
        assert_eq!(e.code, ErrorCode::TagNotFound);
        assert_eq!(e.tag_id.as_deref(), Some(s));
        assert_eq!(
            e.message,
            format!(
                "'{s}' is not a valid OPC-UA NodeId. \
                 Expected format: ns=<ns>;s=<id> or ns=<ns>;i=<id>"
            )
        );
    }
    assert!(found_node("x", None).is_err());
    assert!(found_node("x", Some(NodeId::numeric(0, 1))).is_ok());
}

#[test]
fn status_codes_have_a_quality() {
    assert_eq!(status_code_to_quality(None), Quality::Good);
    assert_eq!(status_code_to_quality(Some(0)), Quality::Good);
    assert_eq!(status_code_to_quality(Some(0x3fff_ffff)), Quality::Good);
    assert_eq!(status_code_to_quality(Some(0x4000_0000)), Quality::Uncertain);
    assert_eq!(status_code_to_quality(Some(0x7fff_ffff)), Quality::Uncertain);
    assert_eq!(status_code_to_quality(Some(0x8000_0000)), Quality::Bad);
    assert_eq!(status_code_to_quality(Some(0xc000_0000)), Quality::Bad);
}

#[test]
fn variants_have_values() {
    let f = |v: Variant| float(&variant_to_tag_value(&v));
    assert!(matches!(variant_to_tag_value(&Variant::Boolean(true)), TagValue::Bool(true)));
    assert_eq!(f(Variant::SByte(-5)), -5.0);
    assert_eq!(f(Variant::Byte(200)), 200.0);
    assert_eq!(f(Variant::Int16(-300)), -300.0);
    assert_eq!(f(Variant::UInt16(60000)), 60000.0);
    assert_eq!(f(Variant::Int32(i32::MIN)), i32::MIN as f64);
    assert_eq!(f(Variant::UInt32(u32::MAX)), u32::MAX as f64);
    assert_eq!(f(Variant::Int64(i64::MAX)), i64::MAX as f64);
    assert_eq!(f(Variant::UInt64(u64::MAX)), u64::MAX as f64);
    assert_eq!(f(Variant::Float(312.7f32.to_bits())), 312.7f32 as f64);
    assert_eq!(f(Variant::Double(double(312.7))), 312.7);
    assert!(matches!(variant_to_tag_value(&Variant::Text("x".to_string())), TagValue::Text(s) if s == "x"));
    assert!(matches!(variant_to_tag_value(&Variant::Other("Array".to_string())), TagValue::Text(s) if s == "Array"));
}

// 2024-01-15T08:00:00.123Z in ticks of 100 ns since 1601.
const TICKS: i64 = 133_497_792_001_230_000;

fn reading(value: Option<Variant>, status: Option<u32>, source: Option<i64>) -> DataReading {
    DataReading { value, status, source_timestamp: source, server_timestamp: Some(0) }
}

#[test]
fn readings_are_put_in_envelopes() {
    let dv = reading(Some(Variant::Double(double(312.7))), Some(0x4000_0000), Some(TICKS));
    let v = data_value_to_vqt("ns=2;i=1", &dv, "m3/h");
    assert_eq!(v.tag_id, "ns=2;i=1");
    assert_eq!(float(&v.value), 312.7);
    assert_eq!(v.quality, Quality::Uncertain);
    assert_eq!(v.timestamp, "2024-01-15T08:00:00.123Z");
    assert_eq!(v.units, "m3/h");
    let v = data_value_to_vqt("n", &reading(None, None, None), "");
    assert!(matches!(v.value, TagValue::Text(s) if s == "null"));
    assert_eq!(v.timestamp, "1601-01-01T00:00:00.000Z");
    let bare = DataReading {
        value: None,
        status: None,
        source_timestamp: None,
        server_timestamp: None,
    };
    assert_eq!(reading_at("n", &bare, "", "NOW".to_string()).timestamp, "NOW");
    let now = data_value_to_vqt("n", &bare, "").timestamp;
    assert!(chrono::DateTime::parse_from_rfc3339(&now).is_ok());
    assert!(now.ends_with('Z') && now.len() == 24);
}

#[test]
fn timestamps_at_the_ends_of_time() {
    for t in [i64::MIN, -1, 0, 1, i64::MAX - 1, i64::MAX] {
        let v = data_value_to_vqt("n", &reading(None, None, Some(t)), "");
        assert!(v.timestamp.ends_with('Z') && v.timestamp.len() >= 24, "{}", v.timestamp);
    }
}

#[test]
fn refused_writes_have_codes() {
    assert_eq!(map_write_status_code(0x8034_0000), ErrorCode::TagNotFound);
    assert_eq!(map_write_status_code(0x803b_0000), ErrorCode::TagNotWritable);
    assert_eq!(map_write_status_code(0x8073_0000), ErrorCode::TagNotWritable);
    assert_eq!(map_write_status_code(0x801f_0000), ErrorCode::PermissionDenied);
    assert_eq!(map_write_status_code(0x8074_0000), ErrorCode::InvalidValue);
    assert_eq!(map_write_status_code(0x803c_0000), ErrorCode::InvalidValue);
    assert_eq!(map_write_status_code(0x800a_0000), ErrorCode::Timeout);
    assert_eq!(map_write_status_code(0x8000_0000), ErrorCode::ConnectionError);
    assert!(is_node_id_unknown(Some(0x8034_0000)));
    assert!(!is_node_id_unknown(Some(0x8033_0000)));
    assert!(!is_node_id_unknown(None));
}

#[test]
fn named_status_codes_are_those_of_the_protocol() {
    assert_eq!(opcua::types::StatusCode::BadNodeIdUnknown.bits(), 0x8034_0000);
    assert_eq!(opcua::types::StatusCode::BadNotWritable.bits(), 0x803b_0000);
    assert_eq!(opcua::types::StatusCode::BadWriteNotSupported.bits(), 0x8073_0000);
    assert_eq!(opcua::types::StatusCode::BadUserAccessDenied.bits(), 0x801f_0000);
    assert_eq!(opcua::types::StatusCode::BadTypeMismatch.bits(), 0x8074_0000);
    assert_eq!(opcua::types::StatusCode::BadOutOfRange.bits(), 0x803c_0000);
    assert_eq!(opcua::types::StatusCode::BadTimeout.bits(), 0x800a_0000);
}

fn permission() -> WritePermission {
    WritePermission {
        min: Some(Limit { at: double(0.0), shown: "0".to_string() }),
        max: Some(Limit { at: double(60.0), shown: "60".to_string() }),
        units: Some("Hz".to_string()),
    }
}

#[test]
fn values_to_write_go_on_the_wire() {
    let n = Json::Number(Number::Unsigned(45));
    let (v, w) = validate_write(&permission(), &n, "45", "Hz", "t").unwrap();
    assert!(matches!(v, Variant::Double(d) if d == double(45.0)));
    assert_eq!(w, WriteValue::Float(double(45.0)));
    let (v, w) = validate_write(&permission(), &Json::Bool(true), "", "Hz", "t").unwrap();
    assert!(matches!(v, Variant::Boolean(true)));
    assert_eq!(w, WriteValue::Bool(true));
    let n = Json::Number(Number::Unsigned(61));
    assert!(validate_write(&permission(), &n, "61", "Hz", "t").is_err());
}

fn reference(node: NodeId, name: &str, variable: bool) -> Reference {
    Reference {
        node_id: node,
        browse_name: format!("b-{name}"),
        display_name: name.to_string(),
        node_class: if variable { "Variable" } else { "Object" }.to_string(),
        is_variable: variable,
    }
}

#[test]
fn browse_requests() {
    let r = browse_request(&NodeId::numeric(2, 7));
    assert!(matches!(r.node_id.identifier, Identifier::Numeric(7)));
    assert!(matches!(r.reference_type.identifier, Identifier::Numeric(33)));
    assert!(r.include_subtypes);
    assert_eq!((r.node_class_mask, r.result_mask, r.max_references), (0, 0x3f, 500));
}

// Node n refers to 10n + 1 and 10n + 2.
fn numbered(n: &NodeId) -> u32 {
    match n.identifier {
        Identifier::Numeric(i) => i,
        _ => panic!("{n:?}"),
    }
}

fn two_below(n: &NodeId) -> Vec<Reference> {
    let i = numbered(n);
    vec![
        reference(NodeId::numeric(1, 10 * i + 1), &format!("{}", 10 * i + 1), false),
        reference(NodeId::numeric(1, 10 * i + 2), &format!("{}", 10 * i + 2), true),
    ]
}

fn run_flat(mut b: FlatBrowse, below: fn(&NodeId) -> Vec<Reference>) -> (Vec<String>, usize) {
    let mut asked = 0;
    loop {
        let refs = match b.pending() {
            Some(n) => below(n),
            None => break,
        };
        asked += 1;
        b.answer(Ok(refs)).unwrap();
    }
    (b.entries().into_iter().map(|e| e.node_id).collect(), asked)
}

#[test]
fn flat_browse_goes_level_by_level() {
    let (ids, asked) = run_flat(FlatBrowse::new(NodeId::numeric(1, 1), 2), two_below);
    assert_eq!(ids, vec!["ns=1;i=11", "ns=1;i=12", "ns=1;i=111", "ns=1;i=112", "ns=1;i=121", "ns=1;i=122"]);
    assert_eq!(asked, 3);
    let (ids, asked) = run_flat(FlatBrowse::new(NodeId::numeric(1, 1), 1), two_below);
    assert_eq!((ids.len(), asked), (2, 1));
    let (ids, asked) = run_flat(FlatBrowse::new(NodeId::numeric(1, 1), 0), two_below);
    assert_eq!((ids.len(), asked), (2, 1));
}

fn three_hundred(n: &NodeId) -> Vec<Reference> {
    (0..300).map(|i| reference(NodeId::numeric(1, numbered(n) / 7 + i), "x", false)).collect()
}

#[test]
fn flat_browse_stops_at_the_cap() {
    let (ids, asked) = run_flat(FlatBrowse::new(NodeId::numeric(1, 1), 5), three_hundred);
    assert_eq!(ids.len(), NODE_CAP);
    assert_eq!(ids.len(), 1000);
    assert_eq!(asked, 4);
}

#[test]
fn flat_browse_reports_refusals() {
    let mut b = FlatBrowse::new(NodeId::numeric(0, 85), 1);
    let e = b.answer(Err(0x800a_0000)).unwrap_err();
    assert_eq!(e.code, ErrorCode::ConnectionError);
    assert_eq!(e.message, "The address space could not be browsed.");
}

#[test]
fn browsed_node_ids_read_back() {
    let nodes = vec![
        NodeId::numeric(0, 85),
        NodeId::numeric(3, 7),
        NodeId { namespace: 2, identifier: Identifier::Text(Some("a;b=c".to_string())) },
        NodeId { namespace: 0, identifier: Identifier::Text(Some("ns=1;i=2".to_string())) },
        NodeId { namespace: 4, identifier: Identifier::Guid([7; 16]) },
        NodeId { namespace: 5, identifier: Identifier::Opaque(Some(vec![0, 255, 3])) },
    ];
    let mut b = FlatBrowse::new(NodeId::numeric(0, 85), 1);
    let refs = nodes.iter().map(|n| reference(n.copy(), "n", false)).collect();
    b.answer(Ok(refs)).unwrap();
    let entries = b.entries();
    assert_eq!(entries[0].node_id, "i=85");
    assert_eq!(entries[2].node_id, "ns=2;s=a;b=c");
    for (e, n) in entries.iter().zip(&nodes) {
        let back = parse_node_id(&e.node_id).unwrap();
        assert_eq!(format!("{back:?}"), format!("{n:?}"));
        assert_eq!(e.browse_name, "b-n");
        assert_eq!(e.display_name, "n");
        assert_eq!(e.node_class, "Object");
    }
    let mut b = FlatBrowse::new(NodeId::numeric(0, 85), 1);
    let null = NodeId { namespace: 0, identifier: Identifier::Text(None) };
    b.answer(Ok(vec![reference(null, "n", false)])).unwrap();
    assert_eq!(b.entries()[0].node_id, "s=[null]");
}

fn run_tree(mut t: TreeBrowse, below: fn(&NodeId) -> Option<Vec<Reference>>) -> (NodeTree, Vec<String>) {
    let mut log: Vec<String> = Vec::new();
    loop {
        match t.pending() {
            None => break,
            Some(TreeRequest::Browse(n)) => {
                log.push(format!("b{}", numbered(n)));
                let refs = below(n);
                t.browsed(refs);
            }
            Some(TreeRequest::Read(n)) => {
                let i = numbered(n);
                log.push(format!("r{i}"));
                t.value_read(if i == 12 { None } else { Some(TagValue::Bool(true)) });
            }
        }
    }
    (t.finish(), log)
}

fn some_below(n: &NodeId) -> Option<Vec<Reference>> {
    if numbered(n) == 11 {
        None
    } else {
        Some(two_below(n))
    }
}

#[test]
fn tree_browse_goes_branch_by_branch() {
    let (r, log) = run_tree(TreeBrowse::new(NodeId::numeric(1, 1), 2, true), some_below);
    assert_eq!(log, vec!["b1", "b11", "r12", "b12", "r122"]);
    assert_eq!(r.node_count, 4);
    assert!(!r.truncated);
    let eleven = r.tree.get("11").unwrap();
    assert_eq!(eleven.get("node_id").unwrap().as_str(), Some("ns=1;i=11"));
    assert_eq!(eleven.get("node_class").unwrap().as_str(), Some("Object"));
    assert!(eleven.get("children").is_none());
    let twelve = r.tree.get("12").unwrap();
    assert!(twelve.get("value").is_none());
    let below = twelve.get("children").unwrap();
    assert_eq!(below.get("122").unwrap().get("value").unwrap().as_bool(), Some(true));
    assert!(below.get("121").unwrap().get("children").is_none());
}

#[test]
fn tree_browse_without_values_or_depth() {
    let (r, log) = run_tree(TreeBrowse::new(NodeId::numeric(1, 1), 1, false), some_below);
    assert_eq!(log, vec!["b1"]);
    assert_eq!(r.node_count, 2);
    let (r, log) = run_tree(TreeBrowse::new(NodeId::numeric(1, 1), 0, true), some_below);
    assert_eq!(log.len(), 0);
    assert_eq!(r.node_count, 0);
    assert!(matches!(r.tree, Json::Object(m) if m.is_empty()));
}

fn hundred(n: &NodeId) -> Option<Vec<Reference>> {
    let i = numbered(n);
    Some((0..100).map(|k| reference(NodeId::numeric(1, i), &format!("{k}"), false)).collect())
}

#[test]
fn tree_browse_stops_at_the_cap() {
    let (r, log) = run_tree(TreeBrowse::new(NodeId::numeric(1, 1), 3, false), hundred);
    assert_eq!(r.node_count, 1000);
    assert!(r.truncated);
    assert!(log.len() < 100);
}

#[test]
fn tree_browse_takes_the_first_value() {
    let dv = || reading(Some(Variant::Int16(5)), None, None);
    assert_eq!(float(&first_value(Ok(vec![dv(), reading(None, None, None)])).unwrap()), 5.0);
    assert!(first_value(Ok(vec![reading(None, None, None), dv()])).is_none());
    assert!(first_value(Ok(Vec::new())).is_none());
    assert!(first_value(Err(0x8000_0000)).is_none());
}

fn topology() -> TopologyConfig {
    TopologyConfig {
        tags: vec![TopologyTag {
            tag_id: "ns=2;s=Speed".to_string(),
            name: "Speed".to_string(),
            description: String::new(),
            units: "Hz".to_string(),
            data_type: "float".to_string(),
            writable: true,
            process_area: "raw".to_string(),
            equipment_id: "p1".to_string(),
            normal_range: None,
        }],
        write_permissions: vec![
            ("ns=2;s=Speed".to_string(), permission()),
            ("odd".to_string(), permission()),
        ],
    }
}

fn connected() -> OpcUaMcpServer {
    let mut s = OpcUaMcpServer::new();
    let r = s
        .connect(
            "opc.tcp://h:4840".to_string(),
            ConnectAttempt::Connected,
            vec![Some(topology())],
            "T0".to_string(),
        )
        .unwrap();
    assert_eq!(r.server_name, "opc.tcp://h:4840");
    assert_eq!(r.protocol_version, "1.05");
    s
}

#[test]
fn opcua_session_settings() {
    let s = session_settings("h", None, None, &None);
    assert_eq!(s.endpoint_url, "opc.tcp://h:4840");
    assert_eq!(s.security_mode, SecurityMode::Unsecured);
    assert_eq!(s.security_policy, "None");
    assert!(matches!(s.identity, Identity::Anonymous));
    assert_eq!(s.timeout_ms, 10000);
    assert!(s.trust_server_certs && !s.create_sample_keypair);
    let options = Some(Json::Object(vec![
        ("security_mode".to_string(), Json::Text("SignAndEncrypt".to_string())),
        ("security_policy".to_string(), Json::Text("Basic256Sha256".to_string())),
        ("username".to_string(), Json::Text("operator".to_string())),
    ]));
    let s = session_settings("opc.tcp://x/y", Some(9), Some(5), &options);
    assert_eq!(s.endpoint_url, "opc.tcp://x/y");
    assert_eq!(s.security_mode, SecurityMode::SignAndEncrypt);
    assert_eq!(s.security_policy, "Basic256Sha256");
    assert!(matches!(&s.identity, Identity::UserName { user, password } if user == "operator" && password.is_empty()));
    assert!(!s.trust_server_certs && s.create_sample_keypair);
    assert_eq!(s.timeout_ms, 5);
    assert_eq!(session_settings("h", Some(9), None, &None).endpoint_url, "opc.tcp://h:9");
    let mode = |m: &str| {
        let o = Some(Json::Object(vec![("security_mode".to_string(), Json::Text(m.to_string()))]));
        session_settings("h", None, None, &o).security_mode
    };
    assert_eq!(mode("Sign"), SecurityMode::Sign);
    assert_eq!(mode("bogus"), SecurityMode::Unsecured);
}

#[test]
fn opcua_connect_failures() {
    let mut s = connected();
    let e = s
        .connect("u".to_string(), ConnectAttempt::Refused("x".to_string()), Vec::new(), "T".to_string())
        .unwrap_err();
    assert_eq!(e.code, ErrorCode::ConnectionError);
    assert_eq!(e.message, "failed to connect to OPC-UA server");
    assert!(s.inner.is_none());
    let e = s
        .connect("u".to_string(), ConnectAttempt::NotBuilt("x".to_string()), Vec::new(), "T".to_string())
        .unwrap_err();
    assert_eq!(e.message, "failed to build OPC-UA client");
}

#[test]
fn opcua_connect_times_out() {
    let mut s = connected();
    let e = s
        .connect("u".to_string(), ConnectAttempt::TimedOut, Vec::new(), "T".to_string())
        .unwrap_err();
    assert_eq!(e.code, ErrorCode::Timeout);
    assert_eq!(e.message, "the connection to the OPC-UA server timed out");
    assert_eq!(e.tag_id, None);
    assert!(s.inner.is_none());
}

#[test]
fn opcua_tools_need_a_session() {
    let s = OpcUaMcpServer::new();
    let message = "not connected — call connect first";
    assert_eq!(s.discover_tags(&None, &None).unwrap_err().message, message);
    assert_eq!(s.browse(None, None).unwrap_err().message, message);
    assert_eq!(s.get_node_tree(None, None, None).err().unwrap().message, message);
    let e = s.read_tag_request("i=1").unwrap_err();
    assert_eq!((e.message.as_str(), e.tag_id.as_deref()), (message, Some("i=1")));
    assert_eq!(s.read_tag_history_request("i=1", "", "", None).unwrap_err().message, message);
    assert_eq!(s.write_tag_request(&write("i=1", 1.0, "Hz")).unwrap_err().message, message);
}

#[test]
fn opcua_disconnect_is_idempotent() {
    let mut s = connected();
    assert!(s.disconnect("T".to_string()).disconnected);
    assert!(s.disconnect("T".to_string()).disconnected);
    assert!(s.inner.is_none());
}

#[test]
fn opcua_browse_starts() {
    let s = connected();
    let b = s.browse(None, None).unwrap();
    assert_eq!(numbered(b.pending().unwrap()), 85);
    assert_eq!(b.max_depth, 1);
    assert_eq!(s.browse(Some("i=7"), Some(9)).unwrap().max_depth, 5);
    assert_eq!(s.browse(Some("i=7"), Some(2)).unwrap().max_depth, 2);
    assert_eq!(s.browse(Some("x"), None).unwrap_err().code, ErrorCode::TagNotFound);
    let t = s.get_node_tree(None, Some(9), None).unwrap();
    assert!(matches!(t.pending(), Some(TreeRequest::Browse(n)) if numbered(n) == 84));
    assert!(s.get_node_tree(Some("x"), None, None).is_err());
    assert_eq!(s.discover_tags(&Some("raw".to_string()), &None).unwrap().len(), 1);
}

#[test]
fn opcua_reads() {
    let s = connected();
    let (q, units) = s.read_tag_request("ns=2;s=Speed").unwrap();
    assert_eq!(q.attribute_id, 13);
    assert_eq!(q.node_id.namespace, 2);
    assert_eq!(units, "Hz");
    let dv = reading(Some(Variant::Int32(45)), Some(0x8001_0000), Some(TICKS));
    let v = s.read_tag("ns=2;s=Speed", "Hz", Ok(vec![dv])).unwrap();
    assert_eq!(float(&v.value), 45.0);
    assert_eq!(v.quality, Quality::Bad);
    assert_eq!(v.units, "Hz");
    let e = s.read_tag("t", "", Ok(vec![reading(None, Some(0x8034_0000), None)])).unwrap_err();
    assert_eq!(e.code, ErrorCode::TagNotFound);
    assert_eq!(e.message, "The tag was not found.");
    let e = s.read_tag("t", "", Ok(Vec::new())).unwrap_err();
    assert_eq!(e.message, "The server returned no result.");
    let e = s.read_tag("t", "", Err(0x800a_0000)).unwrap_err();
    assert_eq!(e.code, ErrorCode::ConnectionError);
    assert_eq!(e.message, "The read could not be carried out.");
    assert_eq!(s.read_tag_request("bogus").unwrap_err().code, ErrorCode::TagNotFound);
}

#[test]
fn opcua_history_requests() {
    let s = connected();
    let ask = |a: &str, b: &str, n: Option<u32>| s.read_tag_history_request("ns=2;s=Speed", a, b, n);
    let (q, units) = ask("2024-01-15T08:00:00.123Z", "2024-01-15T09:00:00.123+01:00", None).unwrap();
    assert_eq!(q.details, make_history_read_details(TICKS, TICKS, 1000));
    assert_eq!(q.node.node_id.namespace, 2);
    assert_eq!(units, "Hz");
    assert_eq!(ask("1000-01-01T00:00:00Z", "2024-01-15T08:00:00Z", Some(3)).unwrap().0.details.start_time, 0);
    let e = ask("yesterday", "2024-01-15T08:00:00Z", None).unwrap_err();
    assert_eq!(e.code, ErrorCode::InvalidValue);
    assert_eq!(e.message, "'yesterday' is not a valid ISO 8601 timestamp");
    let e = ask("2024-01-15T08:00:00Z", "now", None).unwrap_err();
    assert_eq!(e.message, "'now' is not a valid ISO 8601 timestamp");
    assert_eq!(s.read_tag_history_request("x", "", "", None).unwrap_err().code, ErrorCode::TagNotFound);
}

fn past(status: u32, codes: &[u32]) -> HistoryReading {
    let data = codes.iter().map(|c| reading(Some(Variant::UInt32(*c)), Some(*c), Some(TICKS))).collect();
    HistoryReading { status, data: extract_history_data(Some(data)) }
}

#[test]
fn opcua_history_answers() {
    let s = connected();
    let ask = |filter: Option<&str>| {
        let reply = vec![past(0, &[0, 0x4000_0000]), past(0x4000_0000, &[0x8000_0000, 1])];
        s.read_tag_history("t", "u", &filter.map(String::from), None, Ok(reply)).unwrap()
    };
    let all: Vec<f64> = ask(None).iter().map(|v| float(&v.value)).collect();
    assert_eq!(all, vec![0.0, 1073741824.0, 2147483648.0, 1.0]);
    assert_eq!(ask(Some("good")).len(), 2);
    assert_eq!(ask(Some("uncertain")).len(), 1);
    assert_eq!(ask(Some("bad"))[0].quality, Quality::Bad);
    assert_eq!(ask(Some("any")).len(), 4);
    assert_eq!(ask(None)[0].units, "u");
    assert_eq!(extract_history_data(None).len(), 0);
}

#[test]
fn opcua_history_is_cut_at_the_points_asked_for() {
    let s = connected();
    let ask = |filter: Option<&str>, max: Option<u32>, n: usize| {
        let reply = vec![past(0, &[0x8000_0000, 0]), past(0, &vec![1; n])];
        let vqts =
            s.read_tag_history("t", "u", &filter.map(String::from), max, Ok(reply)).unwrap();
        vqts.iter().map(|v| float(&v.value)).collect::<Vec<f64>>()
    };
    assert_eq!(ask(None, Some(1), 5), vec![2147483648.0]);
    assert_eq!(ask(Some("good"), Some(2), 5), vec![0.0, 1.0]);
    assert_eq!(ask(None, Some(0), 5).len(), 0);
    assert_eq!(ask(None, Some(9), 5).len(), 7);
    assert_eq!(ask(None, None, 1500).len(), 1000);
    let reply = vec![past(0, &[0]), past(0x8000_0000, &[])];
    assert!(s.read_tag_history("t", "u", &None, Some(1), Ok(reply)).is_err());
}

#[test]
fn opcua_history_failures() {
    let s = connected();
    let e = s.read_tag_history("t", "", &None, None, Err(0x800a_0000)).unwrap_err();
    assert_eq!(e.code, ErrorCode::HistoryUnavailable);
    assert_eq!(e.message, "No history is available for the tag.");
    let e = s.read_tag_history("t", "", &None, None, Ok(vec![past(0, &[0]), past(0x800a_0000, &[])])).unwrap_err();
    assert_eq!(e.code, ErrorCode::HistoryUnavailable);
    assert_eq!(e.message, "No history is available for the tag.");
}

fn write(tag_id: &str, x: f64, units: &str) -> WriteRequest {
    WriteRequest {
        tag_id: tag_id.to_string(),
        value: Json::Number(Number::Float(double(x))),
        shown: format!("{x}"),
        units: units.to_string(),
        operator_id: "op".to_string(),
        reason: "why".to_string(),
    }
}

#[test]
fn opcua_writes() {
    let s = connected();
    let (q, v) = s.write_tag_request(&write("ns=2;s=Speed", 45.0, "Hz")).unwrap();
    assert_eq!(q.attribute_id, 13);
    assert!(matches!(q.value, Variant::Double(d) if d == double(45.0)));
    let answer = |reply: Result<Vec<u32>, u32>| {
        s.write_tag(write("ns=2;s=Speed", 45.0, "Hz"), v, reply, "T".to_string())
    };
    let w = answer(Ok(vec![0])).unwrap();
    assert_eq!(w.confirmation.quality, Quality::Good);
    assert_eq!(w.confirmation.value_written, v);
    assert_eq!(w.audit.operator_id, "op");
    assert_eq!(answer(Ok(Vec::new())).unwrap().confirmation.quality, Quality::Good);
    assert_eq!(answer(Ok(vec![0x4000_0000])).unwrap().confirmation.quality, Quality::Uncertain);
    let e = answer(Ok(vec![0x801f_0000])).unwrap_err();
    assert_eq!(e.code, ErrorCode::PermissionDenied);
    assert_eq!(e.message, "The operation is not permitted.");
    let e = answer(Err(0x800a_0000)).unwrap_err();
    assert_eq!(e.code, ErrorCode::ConnectionError);
    assert_eq!(e.message, "The write could not be carried out.");
}

#[test]
fn opcua_refused_writes() {
    let s = connected();
    let e = s.write_tag_request(&write("i=9", 1.0, "Hz")).unwrap_err();
    assert_eq!(e.code, ErrorCode::TagNotWritable);
    assert_eq!(
        e.message,
        "the tag is not in write_permissions — add it to topology.yaml to enable writes"
    );
    let e = s.write_tag_request(&write("ns=2;s=Speed", 61.0, "Hz")).unwrap_err();
    assert_eq!(e.code, ErrorCode::InvalidValue);
    assert_eq!(s.write_tag_request(&write("odd", 1.0, "Hz")).unwrap_err().code, ErrorCode::TagNotFound);
    assert_eq!(s.write_tag_request(&write("odd", 1.0, "rpm")).unwrap_err().code, ErrorCode::InvalidValue);
}

#[test]
fn opcua_writes_read_back() {
    let s = connected();
    let (q, _) = s.write_tag_request(&write("ns=2;s=Speed", 45.5, "Hz")).unwrap();
    let v = s
        .read_tag("ns=2;s=Speed", "Hz", Ok(vec![reading(Some(q.value), Some(0), Some(TICKS))]))
        .unwrap();
    assert_eq!(float(&v.value), 45.5);
}

#[test]
fn opcua_server_info() {
    let info = OpcUaMcpServer::new().get_server_info(8);
    assert_eq!(info.server_name, "");
    assert_eq!(info.protocol, "OPC-UA");
    assert_eq!((info.connected, info.uptime_seconds), (false, 0));
    let info = connected().get_server_info(8);
    assert_eq!(info.server_name, "opc.tcp://h:4840");
    assert_eq!(info.protocol_version, "1.05");
    assert_eq!((info.connected, info.uptime_seconds), (true, 8));
    assert_eq!(info.connection_state, "connected");
    assert_eq!(
        info.capabilities,
        vec![
            "connect",
            "disconnect",
            "discover_tags",
            "browse",
            "get_node_tree",
            "read_tag",
            "read_tag_history",
            "write_tag",
            "get_server_info",
        ]
    );
}

#[test]
fn opcua_tags_are_float_by_default() {
    assert_eq!(default_data_type(), "float");
}
