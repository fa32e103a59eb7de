//! Messages from the broker, and what their payloads say.
use crate::double;
use crate::double::Double;
use crate::envelope;
use crate::envelope::{
    Quality, TagDescriptor, TagDescriptorView, TagValue, TagValueView, Vqt, VqtView,
};
use crate::text;
use crate::topology::{TopologyConfig, TopologyConfigView};
use vstd::prelude::*;

verus! {

/// The state of a connection to a broker.
#[derive(Debug, Clone, PartialEq)]
pub enum ConnStatus {
    Connecting,
    Connected,
    Error(String),
}

/// The model of a [`ConnStatus`].
pub enum ConnStatusView {
    Connecting,
    Connected,
    Error(Seq<char>),
}

impl View for ConnStatus {
    type V = ConnStatusView;

    open spec fn view(&self) -> ConnStatusView {
        match *self {
            ConnStatus::Connecting => ConnStatusView::Connecting,
            ConnStatus::Connected => ConnStatusView::Connected,
            ConnStatus::Error(e) => ConnStatusView::Error(e@),
        }
    }
}

/// A message from the broker.
#[derive(Debug, Clone)]
pub struct ReceivedMessage {
    pub topic: String,
    pub payload: String,
    /// The number that the payload writes in plain decimal, if it does (see [`number_text`]).
    pub number: Option<Double>,
    pub timestamp: String,
    pub retain: bool,
}

/// The model of a [`ReceivedMessage`].
pub struct MessageView {
    pub topic: Seq<char>,
    pub payload: Seq<char>,
    pub number: Option<Double>,
    pub timestamp: Seq<char>,
    pub retain: bool,
}

impl View for ReceivedMessage {
    type V = MessageView;

    open spec fn view(&self) -> MessageView {
        MessageView {
            topic: self.topic@,
            payload: self.payload@,
            number: self.number,
            timestamp: self.timestamp@,
            retain: self.retain,
        }
    }
}

impl ReceivedMessage {
    /// A copy of this message.
    pub fn copy(&self) -> (r: ReceivedMessage)
        ensures
            r@ == self@,
    {
        ReceivedMessage {
            topic: self.topic.clone(),
            payload: self.payload.clone(),
            number: self.number,
            timestamp: self.timestamp.clone(),
            retain: self.retain,
        }
    }
}

/// What `String::from_utf8_lossy` makes of bytes.
pub uninterp spec fn lossy_of(bytes: Seq<u8>) -> Seq<char>;

/// The text of bytes: `String::from_utf8_lossy` of std. What comes back depends on the bytes alone,
/// and is called [`lossy_of`] here: of valid UTF-8 it is the text that the bytes encode; of other
/// bytes, which the function documents to come with replacement characters, nothing more is said.
#[verifier::external_body]
fn lossy_text(bytes: &[u8]) -> (r: String)
    ensures
        r@ == lossy_of(bytes@),
        vstd::utf8::valid_utf8(bytes@) ==> r@ == vstd::utf8::decode_utf8(bytes@),
{
    String::from_utf8_lossy(bytes).into_owned()
}

/// A message as the broker sends it, with its payload in bytes.
#[derive(Debug)]
pub struct Incoming {
    pub topic: String,
    pub payload: Vec<u8>,
    /// The number that the payload writes in plain decimal, if it does (see [`number_text`]).
    pub number: Option<Double>,
    pub timestamp: String,
    pub retain: bool,
}

/// The message with its payload as text.
pub open spec fn decoded(m: Incoming) -> MessageView {
    MessageView {
        topic: m.topic@,
        payload: lossy_of(m.payload@),
        number: m.number,
        timestamp: m.timestamp@,
        retain: m.retain,
    }
}

/// The message with its payload as text.
pub fn decode(m: Incoming) -> (r: ReceivedMessage)
    ensures
        r@ == decoded(m),
        vstd::utf8::valid_utf8(m.payload@) ==> r@.payload == vstd::utf8::decode_utf8(m.payload@),
{
    ReceivedMessage {
        topic: m.topic,
        payload: lossy_text(m.payload.as_slice()),
        number: m.number,
        timestamp: m.timestamp,
        retain: m.retain,
    }
}

/// The plain part of a connection to a broker.
#[derive(Debug)]
pub struct MqttConnection {
    pub host: String,
    pub port: u16,
    pub protocol_version: String,
    pub topology: TopologyConfig,
}

/// The model of an [`MqttConnection`].
pub struct MqttConnectionView {
    pub host: Seq<char>,
    pub port: u16,
    pub protocol_version: Seq<char>,
    pub topology: TopologyConfigView,
}

impl View for MqttConnection {
    type V = MqttConnectionView;

    open spec fn view(&self) -> MqttConnectionView {
        MqttConnectionView {
            host: self.host@,
            port: self.port,
            protocol_version: self.protocol_version@,
            topology: self.topology@,
        }
    }
}

/// The data type of a tag for which the topology names none.
pub fn default_data_type() -> (r: String)
    ensures
        r@ == "float"@,
{
    "float".to_owned()
}

/// What a member of a JSON object holds: a number as the bits of a binary64 value, a boolean, a
/// text; nothing of these for null, a list or an object.
pub type MemberView = (Option<u64>, Option<bool>, Option<Seq<char>>);

/// What a member of a JSON object holds.
#[derive(Debug)]
pub struct Member {
    pub number: Option<Double>,
    pub boolean: Option<bool>,
    pub text: Option<String>,
}

impl View for Member {
    type V = MemberView;

    open spec fn view(&self) -> MemberView {
        (
            match self.number {
                Some(d) => Some(d.bits),
                None => None,
            },
            self.boolean,
            envelope::opt_text(self.text),
        )
    }
}

/// The model of an optional member.
pub open spec fn opt_member(m: Option<Member>) -> Option<MemberView> {
    match m {
        Some(x) => Some(x@),
        None => None,
    }
}

/// What `serde_json` reads as the member `key` of the JSON text `text`; none if `text` is no JSON
/// object or has no such member.
pub uninterp spec fn json_member_of(text: Seq<char>, key: Seq<char>) -> Option<MemberView>;

/// The member of a JSON text: `serde_json::from_str` parses the text, `Value::get` looks the member
/// up, and `as_f64`, `as_bool` and `as_str` read it. What comes back depends on the text and the key
/// alone, and is called [`json_member_of`] here.
#[verifier::external_body]
fn json_member(text: &str, key: &str) -> (r: Option<Member>)
    ensures
        opt_member(r) == json_member_of(text@, key@),
{
    let json: serde_json::Value = serde_json::from_str(text).ok()?;
    let v: &serde_json::Value = json.get(key)?;
    Some(
        Member {
            number: v.as_f64().map(|f| Double { bits: f.to_bits() }),
            boolean: v.as_bool(),
            text: v.as_str().map(|s| s.to_owned()),
        },
    )
}

/// A value that JSON writes without a fraction.
#[derive(Debug, Clone, Copy, PartialEq, Eq, Structural)]
pub enum PlainValue {
    Flag(bool),
    Count(u64),
    Negative(i64),
}

/// What a member with a plain value holds.
pub open spec fn plain_member(v: PlainValue) -> MemberView {
    match v {
        PlainValue::Flag(b) => (None, Some(b), None),
        PlainValue::Count(n) => (Some(double::of_integer(n as int).bits), None, None),
        PlainValue::Negative(n) => (Some(double::of_integer(n as int).bits), None, None),
    }
}

/// What a member with a text holds.
pub open spec fn text_member(s: Seq<char>) -> MemberView {
    (None, None, Some(s))
}

/// How `serde_json` writes an object with a plain value under one key and texts under others.
pub uninterp spec fn object_text_of(
    value: (Seq<char>, PlainValue),
    texts: Seq<(Seq<char>, Seq<char>)>,
) -> Seq<char>;

/// The JSON text of an object with four members: `to_string` of a `serde_json::Value`. What comes
/// back depends on the members alone, and is called [`object_text_of`] here. Read back with
/// `serde_json`, each member holds what was written: booleans and texts as they are, integers as
/// `as_f64` converts them, rounded to nearest.
#[verifier::external_body]
pub(crate) fn object_text(
    value: (&str, PlainValue),
    a: (&str, &str),
    b: (&str, &str),
    c: (&str, &str),
) -> (r: String)
    requires
        value.0@ != a.0@ && value.0@ != b.0@ && value.0@ != c.0@,
        a.0@ != b.0@ && a.0@ != c.0@ && b.0@ != c.0@,
    ensures
        r@ == object_text_of(
            (value.0@, value.1),
            seq![(a.0@, a.1@), (b.0@, b.1@), (c.0@, c.1@)],
        ),
        json_member_of(r@, value.0@) == Some(plain_member(value.1)),
        json_member_of(r@, a.0@) == Some(text_member(a.1@)),
        json_member_of(r@, b.0@) == Some(text_member(b.1@)),
        json_member_of(r@, c.0@) == Some(text_member(c.1@)),
{
    let v = match value.1 {
        PlainValue::Flag(flag) => serde_json::Value::from(flag),
        PlainValue::Count(n) => serde_json::Value::from(n),
        PlainValue::Negative(n) => serde_json::Value::from(n),
    };
    let mut members = serde_json::Map::new();
    members.insert(value.0.to_owned(), v);
    members.insert(a.0.to_owned(), serde_json::Value::from(a.1));
    members.insert(b.0.to_owned(), serde_json::Value::from(b.1));
    members.insert(c.0.to_owned(), serde_json::Value::from(c.1));
    serde_json::Value::Object(members).to_string()
}

/// The members of a payload that the adapter reads; none where the payload is no JSON object or has
/// no such member.
#[derive(Debug)]
pub struct PayloadMembers {
    pub value: Option<Member>,
    pub quality: Option<Member>,
    pub timestamp: Option<Member>,
    pub units: Option<Member>,
}

/// The model of [`PayloadMembers`].
pub struct PayloadMembersView {
    pub value: Option<MemberView>,
    pub quality: Option<MemberView>,
    pub timestamp: Option<MemberView>,
    pub units: Option<MemberView>,
}

impl View for PayloadMembers {
    type V = PayloadMembersView;

    open spec fn view(&self) -> PayloadMembersView {
        PayloadMembersView {
            value: opt_member(self.value),
            quality: opt_member(self.quality),
            timestamp: opt_member(self.timestamp),
            units: opt_member(self.units),
        }
    }
}

/// The members that `serde_json` reads in a payload.
pub open spec fn members_of(payload: Seq<char>) -> PayloadMembersView {
    PayloadMembersView {
        value: json_member_of(payload, "value"@),
        quality: json_member_of(payload, "quality"@),
        timestamp: json_member_of(payload, "timestamp"@),
        units: json_member_of(payload, "units"@),
    }
}

/// The text of a member, if it holds one.
pub open spec fn member_text(m: Option<MemberView>) -> Option<Seq<char>> {
    match m {
        Some(x) => x.2,
        None => None,
    }
}

/// The quality called `s`: bad unless it is called good or uncertain.
pub open spec fn quality_named(s: Seq<char>) -> Quality {
    if s == "good"@ {
        Quality::Good
    } else if s == "uncertain"@ {
        Quality::Uncertain
    } else {
        Quality::Bad
    }
}

/// The quality called `s`: bad unless it is called good or uncertain.
pub fn str_to_quality(s: &str) -> (r: Quality)
    ensures
        r == quality_named(s@),
{
    if text::same(s, "good") {
        Quality::Good
    } else if text::same(s, "uncertain") {
        Quality::Uncertain
    } else {
        Quality::Bad
    }
}

/// The value of a member; `fallback` as text if it is neither number, boolean nor text.
pub open spec fn member_value(m: MemberView, fallback: Seq<char>) -> TagValueView {
    match m {
        (Some(bits), _, _) => TagValueView::Float(Double { bits }),
        (None, Some(b), _) => TagValueView::Bool(b),
        (None, None, Some(s)) => TagValueView::Text(s),
        (None, None, None) => TagValueView::Text(fallback),
    }
}

/// The value of a member; `fallback` as text if it is neither number, boolean nor text.
pub fn json_to_tag_value(m: &Member, fallback: &str) -> (r: TagValue)
    ensures
        r@ == member_value(m@, fallback@),
{
    if let Some(d) = m.number {
        TagValue::Float(d)
    } else if let Some(b) = m.boolean {
        TagValue::Bool(b)
    } else if let Some(s) = &m.text {
        TagValue::Text(s.clone())
    } else {
        TagValue::Text(fallback.to_owned())
    }
}

/// Whether `s` is a word for a true state.
pub open spec fn true_word(s: Seq<char>) -> bool {
    s == "true"@ || s == "1"@ || s == "on"@ || s == "open"@ || s == "active"@ || s == "high"@
}

/// Whether `s` is a word for a false state.
pub open spec fn false_word(s: Seq<char>) -> bool {
    s == "false"@ || s == "0"@ || s == "off"@ || s == "closed"@ || s == "inactive"@ || s == "low"@
}

/// The value of a payload that is no JSON object with a value. `number` is the number that the
/// payload without the white space at its ends writes in decimal.
pub open spec fn raw_value(payload: Seq<char>, number: Option<Double>) -> TagValueView {
    let word = text::lowercase(text::trimmed(payload));
    match number {
        Some(d) => TagValueView::Float(d),
        None => if true_word(word) {
            TagValueView::Bool(true)
        } else if false_word(word) {
            TagValueView::Bool(false)
        } else {
            TagValueView::Text(payload)
        },
    }
}

/// The reading that a payload gives, from its members as a JSON object and its number.
pub open spec fn payload_reading(
    topic: Seq<char>,
    payload: Seq<char>,
    number: Option<Double>,
    timestamp: Seq<char>,
    members: PayloadMembersView,
) -> VqtView {
    match members.value {
        Some(v) => VqtView {
            tag_id: topic,
            value: member_value(v, payload),
            quality: match member_text(members.quality) {
                Some(q) => quality_named(q),
                None => Quality::Good,
            },
            timestamp: match member_text(members.timestamp) {
                Some(t) => t,
                None => timestamp,
            },
            units: match member_text(members.units) {
                Some(u) => u,
                None => Seq::empty(),
            },
        },
        None => VqtView {
            tag_id: topic,
            value: raw_value(payload, number),
            quality: Quality::Good,
            timestamp,
            units: Seq::empty(),
        },
    }
}

/// The part of a payload that may write a number: what is left of its text without the white space
/// at its ends.
pub fn number_text(payload: &[u8]) -> (r: String)
    ensures
        r@ == text::trimmed(lossy_of(payload@)),
{
    let text: String = lossy_text(payload);
    text::trim(text.as_str()).to_owned()
}

fn is_true_word(s: &str) -> (r: bool)
    ensures
        r == true_word(s@),
{
    text::same(s, "true") || text::same(s, "1") || text::same(s, "on") || text::same(s, "open")
        || text::same(s, "active") || text::same(s, "high")
}

fn is_false_word(s: &str) -> (r: bool)
    ensures
        r == false_word(s@),
{
    text::same(s, "false") || text::same(s, "0") || text::same(s, "off") || text::same(s, "closed")
        || text::same(s, "inactive") || text::same(s, "low")
}

fn member_str(m: &Option<Member>) -> (r: Option<&str>)
    ensures
        match r {
            Some(t) => member_text(opt_member(*m)) == Some(t@),
            None => member_text(opt_member(*m)) is None,
        },
{
    match m {
        Some(x) => match &x.text {
            Some(t) => Some(t.as_str()),
            None => None,
        },
        None => None,
    }
}

/// The reading that a payload gives, from its members as a JSON object and its number.
pub fn payload_vqt(
    topic: &str,
    payload: &str,
    number: Option<Double>,
    timestamp: &str,
    members: &PayloadMembers,
) -> (r: Vqt)
    ensures
        r@ == payload_reading(topic@, payload@, number, timestamp@, members@),
{
    if let Some(v) = &members.value {
        let quality: Quality = match member_str(&members.quality) {
            Some(q) => str_to_quality(q),
            None => Quality::Good,
        };
        let at: String = match member_str(&members.timestamp) {
            Some(t) => t.to_owned(),
            None => timestamp.to_owned(),
        };
        let units: String = match member_str(&members.units) {
            Some(u) => u.to_owned(),
            None => String::new(),
        };
        return Vqt {
            tag_id: topic.to_owned(),
            value: json_to_tag_value(v, payload),
            quality,
            timestamp: at,
            units,
        };
    }
    let value: TagValue = match number {
        Some(d) => TagValue::Float(d),
        None => {
            let word: String = text::ascii_lowercase(text::trim(payload));
            if is_true_word(word.as_str()) {
                TagValue::Bool(true)
            } else if is_false_word(word.as_str()) {
                TagValue::Bool(false)
            } else {
                TagValue::Text(payload.to_owned())
            }
        },
    };
    Vqt {
        tag_id: topic.to_owned(),
        value,
        quality: Quality::Good,
        timestamp: timestamp.to_owned(),
        units: String::new(),
    }
}

/// The reading that a payload gives. These forms are tried in turn: a JSON object with a `value`, a
/// decimal number, a word for a state, any text.
pub open spec fn parsed_payload(
    topic: Seq<char>,
    payload: Seq<char>,
    number: Option<Double>,
    timestamp: Seq<char>,
) -> VqtView {
    payload_reading(topic, payload, number, timestamp, members_of(payload))
}

/// The reading that a payload gives. `number` is the number that [`number_text`] of the payload
/// writes in decimal.
pub fn parse_mqtt_payload(topic: &str, payload: &str, number: Option<Double>, timestamp: &str) -> (r:
    Vqt)
    ensures
        r@ == parsed_payload(topic@, payload@, number, timestamp@),
{
    let members = PayloadMembers {
        value: json_member(payload, "value"),
        quality: json_member(payload, "quality"),
        timestamp: json_member(payload, "timestamp"),
        units: json_member(payload, "units"),
    };
    payload_vqt(topic, payload, number, timestamp, &members)
}

/// The reading that a message gives.
pub open spec fn reading(m: MessageView) -> VqtView {
    parsed_payload(m.topic, m.payload, m.number, m.timestamp)
}

/// The reading that a message gives.
pub fn message_vqt(m: &ReceivedMessage) -> (r: Vqt)
    ensures
        r@ == reading(m@),
{
    parse_mqtt_payload(m.topic.as_str(), m.payload.as_str(), m.number, m.timestamp.as_str())
}

/// The name of a data type for a value.
pub open spec fn value_type(v: TagValueView) -> Seq<char> {
    match v {
        TagValueView::Float(_) => "float"@,
        TagValueView::Bool(_) => "boolean"@,
        TagValueView::Text(_) => "string"@,
    }
}

/// The descriptor of a topic of which only a reading is known: its name is the last level of the
/// topic.
pub open spec fn descriptor_from(v: VqtView) -> TagDescriptorView {
    TagDescriptorView {
        tag_id: v.tag_id,
        name: text::split_on(v.tag_id, '/').last(),
        description: Seq::empty(),
        units: v.units,
        data_type: value_type(v.value),
        writable: false,
        process_area: Seq::empty(),
        equipment_id: Seq::empty(),
        normal_range: None,
    }
}

/// The descriptor of a topic of which only a reading is known.
pub fn vqt_to_descriptor(vqt: &Vqt) -> (r: TagDescriptor)
    ensures
        r@ == descriptor_from(vqt@),
{
    let levels: Vec<String> = text::split(vqt.tag_id.as_str(), '/');
    let name: String = levels[levels.len() - 1].clone();
    assert(name@ == text::split_on(vqt.tag_id@, '/').last());
    let data_type: String = match &vqt.value {
        TagValue::Float(_) => "float".to_owned(),
        TagValue::Bool(_) => "boolean".to_owned(),
        TagValue::Text(_) => "string".to_owned(),
    };
    TagDescriptor {
        tag_id: vqt.tag_id.clone(),
        name,
        description: String::new(),
        units: vqt.units.clone(),
        data_type,
        writable: false,
        process_area: String::new(),
        equipment_id: String::new(),
        normal_range: None,
    }
}

} // verus!
