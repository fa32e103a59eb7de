use fieldworks_adapters::clock::now_iso;
use fieldworks_adapters::double::Double;
use fieldworks_adapters::envelope::{AdapterError, ErrorCode, Quality, WriteValue};
use fieldworks_adapters::json::{from_double, set_member, Json, Number};
use fieldworks_adapters::text;
use fieldworks_adapters::tools::{capabilities, host_and_port, opt_str, to_document};
use fieldworks_adapters::topology::{
    apply_metadata_choice, discover_tags, load_topology, permission, topology_candidates,
    topology_tag_to_descriptor, Limit, TopologyConfig, TopologyRange, TopologyTag, WritePermission,
};
use fieldworks_adapters::writing::{audit_entry, confirm, log_write_audit, WriteRequest};

fn double(x: f64) -> Double {
    Double::from_bits(x.to_bits())
}

#[test]
fn doubles_of_integers() {
    let edges = [0u64, 1, 2, 3, 9007199254740991, 9007199254740992, 9007199254740993];
    for n in edges {
        assert_eq!(Double::from_u64(n).bits, (n as f64).to_bits());
    }
    let mut n: u64 = 1;
    for i in 0..64 {
        for d in [0u64, 1, 3, 1023, 1024, 1025, 1536] {
            let m = n.wrapping_add(d);
            assert_eq!(Double::from_u64(m).bits, (m as f64).to_bits());
            assert_eq!(Double::from_i64(m as i64).bits, ((m as i64) as f64).to_bits());
        }
        if i < 63 {
            n *= 2;
        }
    }
    assert_eq!(Double::from_u64(u64::MAX).bits, (u64::MAX as f64).to_bits());
    assert_eq!(Double::from_i64(i64::MIN).bits, (i64::MIN as f64).to_bits());
}

#[test]
fn doubles_in_order() {
    let values = [
        f64::NEG_INFINITY, -1e300, -1.5, -5e-324, -0.0, 0.0, 5e-324, 1.5, 1e300, f64::INFINITY,
        f64::NAN, -f64::NAN,
    ];
    for a in values {
        for b in values {
            assert_eq!(double(a).less_than(&double(b)), a < b, "{a} < {b}");
        }
    }
}

#[test]
fn doubles_as_integers() {
    assert_eq!(double(7.0).to_integer(), Some(7));
    assert_eq!(double(-7.0).to_integer(), Some(-7));
    assert_eq!(double(-0.0).to_integer(), Some(0));
    assert_eq!(double(0.5).to_integer(), None);
    assert_eq!(double(9007199254740991.0).to_integer(), Some(9007199254740991));
    assert_eq!(double(f64::NAN).to_integer(), None);
    assert_eq!(double(f64::INFINITY).to_integer(), None);
}

#[test]
fn singles_widen_and_narrow() {
    let mut bits: u64 = 0x1234;
    while bits <= 0xffff_ffff {
        let f = f32::from_bits(bits as u32);
        if !f.is_nan() {
            assert_eq!(Double::from_single(bits as u32).bits, (f as f64).to_bits());
        } else {
            assert!(f64::from_bits(Double::from_single(bits as u32).bits).is_nan());
        }
        bits += 0x0013_5799;
    }
    let mut wide: u64 = 0x35a0_0000_0000_0000;
    while wide < 0x4810_0000_0000_0000 {
        let f = f64::from_bits(wide);
        assert_eq!(double(f).to_single(), (f as f32).to_bits());
        assert_eq!(double(-f).to_single(), (-f as f32).to_bits());
        wide += 0x0000_1357_9bdf_0123;
    }
}

#[test]
fn texts_split_and_join() {
    assert_eq!(text::split("a:b::c", ':'), vec!["a", "b", "", "c"]);
    assert_eq!(text::split("", ':'), vec![""]);
    assert_eq!(text::split("a/b/c", '/').join("/"), "a/b/c");
    assert_eq!(text::cat5("a", "b", "", "c", "d"), "abcd");
    assert!(text::starts_with("opc.tcp://x", "opc.tcp://"));
    assert!(!text::starts_with("opc", "opc.tcp://"));
}

#[test]
fn texts_trim_like_the_standard_library() {
    for s in ["", " ", " a ", "\u{85}x\u{1680}", "a b", "\u{200b}x", "\u{2028}\u{205f}y\u{202f}", "\r\n z"] {
        assert_eq!(text::trim(s), s.trim());
    }
    for c in 0..0x3100u32 {
        if let Some(c) = char::from_u32(c) {
            let s = format!("{c}x{c}");
            assert_eq!(text::trim(&s), s.trim());
        }
    }
}

#[test]
fn texts_in_lower_case() {
    for s in ["AbC-Z[@", "ÄÖ", "holding"] {
        assert_eq!(text::ascii_lowercase(s), s.to_ascii_lowercase());
    }
}

#[test]
fn decimals_read_back() {
    for n in [0u64, 9, 10, 65535, u32::MAX as u64, u64::MAX] {
        assert_eq!(text::decimal(n), n.to_string());
    }
    assert_eq!(text::parse_unsigned("65535", 65535), Some(65535));
    assert_eq!(text::parse_unsigned("65536", 65535), None);
    assert_eq!(text::parse_unsigned("99999999999999999999", 65535), None);
    assert_eq!(text::parse_unsigned("+12", 65535), Some(12));
    assert_eq!(text::parse_unsigned("1 ", 65535), None);
    assert_eq!(text::parse_unsigned("", 65535), None);
}

#[test]
fn documents_answer_by_kind() {
    let doc = Json::Object(vec![
        ("n".to_string(), Json::Number(Number::Unsigned(5))),
        ("n".to_string(), Json::Null),
        ("b".to_string(), Json::Bool(true)),
        ("s".to_string(), Json::Text("x".to_string())),
        ("m".to_string(), Json::Number(Number::Negative(-5))),
    ]);
    assert_eq!(doc.get("n").unwrap().as_u64(), Some(5));
    assert_eq!(doc.get("m").unwrap().as_u64(), None);
    assert_eq!(doc.get("m").unwrap().as_f64(), Some(double(-5.0)));
    assert_eq!(doc.get("b").unwrap().as_bool(), Some(true));
    assert_eq!(doc.get("s").unwrap().as_str(), Some("x"));
    assert!(doc.get("x").is_none());
    assert!(Json::Null.get("x").is_none());
    assert!(matches!(from_double(double(f64::NAN)), Json::Null));
    assert!(matches!(from_double(double(f64::NEG_INFINITY)), Json::Null));
    assert!(matches!(from_double(double(1.5)), Json::Number(Number::Float(d)) if d == double(1.5)));
}

#[test]
fn documents_take_members() {
    let mut m: Vec<(String, Json)> = Vec::new();
    set_member(&mut m, "a", Json::Bool(false));
    set_member(&mut m, "b", Json::Null);
    set_member(&mut m, "a", Json::Bool(true));
    assert_eq!(m.len(), 2);
    assert_eq!(Json::Object(m).get("a").unwrap().as_bool(), Some(true));
}

fn tag(id: &str, area: &str, equipment: &str) -> TopologyTag {
    TopologyTag {
        tag_id: id.to_string(),
        name: format!("{id} name"),
        description: format!("{id} described"),
        units: "bar".to_string(),
        data_type: "float".to_string(),
        writable: true,
        process_area: area.to_string(),
        equipment_id: equipment.to_string(),
        normal_range: Some(TopologyRange { min: double(0.0), max: double(500.0) }),
    }
}

fn plant() -> TopologyConfig {
    TopologyConfig {
        tags: vec![tag("a", "raw", "p1"), tag("b", "raw", "p2"), tag("c", "fine", "p1")],
        write_permissions: vec![
            (
                "a".to_string(),
                WritePermission {
                    min: Some(Limit { at: double(0.0), shown: "0".to_string() }),
                    max: None,
                    units: None,
                },
            ),
            ("a".to_string(), WritePermission { min: None, max: None, units: None }),
        ],
    }
}

fn ids(area: Option<&str>, equipment: Option<&str>) -> Vec<String> {
    let found = discover_tags(&plant(), &area.map(String::from), &equipment.map(String::from));
    found.into_iter().map(|t| t.tag_id).collect()
}

#[test]
fn discovery_filters() {
    assert_eq!(ids(None, None), vec!["a", "b", "c"]);
    assert_eq!(ids(Some("raw"), None), vec!["a", "b"]);
    assert_eq!(ids(None, Some("p1")), vec!["a", "c"]);
    assert_eq!(ids(Some("raw"), Some("p1")), vec!["a"]);
    assert_eq!(ids(Some("none"), None), Vec::<String>::new());
}

#[test]
fn descriptors_keep_what_is_configured() {
    let d = topology_tag_to_descriptor(&tag("a", "raw", "p1"));
    assert_eq!(d.name, "a name");
    assert_eq!(d.description, "a described");
    assert_eq!(d.units, "bar");
    assert!(d.writable);
    assert_eq!(d.normal_range.unwrap().max, double(500.0));
}

#[test]
fn metadata_can_be_declined() {
    let all = || vec![topology_tag_to_descriptor(&tag("a", "raw", "p1"))];
    let bare = apply_metadata_choice(all(), Some(false));
    assert_eq!(bare[0].description, "");
    assert!(bare[0].normal_range.is_none());
    assert_eq!(bare[0].name, "a name");
    for choice in [None, Some(true)] {
        let full = apply_metadata_choice(all(), choice);
        assert_eq!(full[0].description, "a described");
        assert!(full[0].normal_range.is_some());
    }
}

#[test]
fn topology_files_are_tried_in_turn() {
    assert_eq!(topology_candidates(), vec!["topology.yaml", "topology.yml", "../topology.yaml"]);
    let config = load_topology(vec![None, Some(plant()), Some(TopologyConfig::default())]);
    assert_eq!(config.tags.len(), 3);
}

#[test]
fn the_first_permission_counts() {
    assert!(permission(&plant(), "a").unwrap().min.is_some());
    assert!(permission(&plant(), "b").is_none());
}

fn request() -> WriteRequest {
    WriteRequest {
        tag_id: "a".to_string(),
        value: Json::Number(Number::Unsigned(45)),
        shown: "45".to_string(),
        units: "Hz".to_string(),
        operator_id: "ops-team".to_string(),
        reason: "demand".to_string(),
    }
}

fn is_iso(s: &str) -> bool {
    chrono::DateTime::parse_from_rfc3339(s).is_ok() && s.len() == 24 && s.ends_with('Z')
}

#[test]
fn the_clock_writes_milliseconds() {
    let now = now_iso();
    assert!(is_iso(&now), "{now}");
}

#[test]
fn audit_entries_hold_the_request() {
    let entry = audit_entry(request(), "T".to_string());
    assert_eq!(entry.timestamp, "T");
    assert_eq!(entry.tag_id, "a");
    assert_eq!(entry.value.as_u64(), Some(45));
    assert_eq!(entry.units, "Hz");
    assert_eq!(entry.operator_id, "ops-team");
    assert_eq!(entry.reason, "demand");
    assert!(is_iso(&log_write_audit(request()).timestamp));
}

#[test]
fn confirmations_hold_the_request() {
    let w = confirm(request(), WriteValue::Bool(true), Quality::Uncertain, "T".to_string());
    assert_eq!(w.confirmation.tag_id, "a");
    assert_eq!(w.confirmation.value_written, WriteValue::Bool(true));
    assert_eq!(w.confirmation.quality, Quality::Uncertain);
    assert_eq!(w.confirmation.timestamp, "T");
    assert_eq!(w.confirmation.units, "Hz");
    assert_eq!(w.confirmation.operator_id, "ops-team");
    assert_eq!(w.audit.tag_id, "a");
    assert!(is_iso(&w.audit.timestamp));
}

#[test]
fn errors_name_their_tag() {
    let e = AdapterError::on_tag(ErrorCode::PermissionDenied, "no".to_string(), "t");
    assert_eq!((e.code, e.message.as_str(), e.tag_id.as_deref()), (ErrorCode::PermissionDenied, "no", Some("t")));
    assert_eq!(AdapterError::plain(ErrorCode::Timeout, "late".to_string()).tag_id, None);
}

#[test]
fn shared_tools() {
    assert_eq!(capabilities("browse", "get_node_tree").len(), 9);
    assert_eq!(capabilities("browse", "get_node_tree")[3], "browse");
    assert_eq!(host_and_port("h", 502), "h:502");
    let options = Some(Json::Object(vec![
        ("u".to_string(), Json::Text("x".to_string())),
        ("n".to_string(), Json::Null),
    ]));
    assert_eq!(opt_str(&options, "u"), Some("x"));
    assert_eq!(opt_str(&options, "n"), None);
    assert_eq!(opt_str(&None, "u"), None);
    let v = to_document(&fieldworks_adapters::envelope::TagValue::Text("t".to_string()));
    assert_eq!(v.as_str(), Some("t"));
}
