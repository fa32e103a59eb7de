//! Values, status codes, timestamps and requests of the OPC UA adapter.
use crate::clock;
use crate::double;
use crate::double::Double;
use crate::envelope::{
    AdapterError, ErrorCode, Quality, TagValue, TagValueView, Vqt, VqtView, WriteValue,
};
use crate::json::Json;
use crate::opcua::nodes::NodeId;
use crate::topology;
use crate::topology::{TopologyConfig, TopologyConfigView, WritePermission};
use ::opcua::types::{DateTime, StatusCode};
use vstd::prelude::*;

verus! {

/// The attribute that holds a node's value.
pub const VALUE_ATTRIBUTE: u32 = 13;

/// The status of a request for a node that the server does not have.
pub const BAD_NODE_ID_UNKNOWN: u32 = 0x8034_0000;

/// The data type of a tag for which the topology names none.
pub fn default_data_type() -> (r: String)
    ensures
        r@ == "float"@,
{
    "float".to_owned()
}

/// The plain part of a session.
#[derive(Debug)]
pub struct OpcUaConnection {
    pub endpoint_url: String,
    pub server_name: String,
    pub protocol_version: String,
    pub topology: TopologyConfig,
}

/// The model of an [`OpcUaConnection`].
pub struct OpcUaConnectionView {
    pub endpoint_url: Seq<char>,
    pub server_name: Seq<char>,
    pub protocol_version: Seq<char>,
    pub topology: TopologyConfigView,
}

impl View for OpcUaConnection {
    type V = OpcUaConnectionView;

    open spec fn view(&self) -> OpcUaConnectionView {
        OpcUaConnectionView {
            endpoint_url: self.endpoint_url@,
            server_name: self.server_name@,
            protocol_version: self.protocol_version@,
            topology: self.topology@,
        }
    }
}

/// Whether a status code tells of success: its two highest bits are 00.
pub open spec fn good_status(code: u32) -> bool {
    code < 0x4000_0000
}

/// Whether a status code tells of doubt: its two highest bits are 01.
pub open spec fn uncertain_status(code: u32) -> bool {
    0x4000_0000 <= code < 0x8000_0000
}

/// Whether a status code tells of failure: its highest bit is set.
pub open spec fn bad_status(code: u32) -> bool {
    code >= 0x8000_0000
}

/// `StatusCode::is_good` of `opcua`: the two highest bits of the code are 00.
#[verifier::external_body]
fn is_good(code: u32) -> (r: bool)
    ensures
        r == good_status(code),
{
    StatusCode::from(code).is_good()
}

/// `StatusCode::is_uncertain` of `opcua`: the two highest bits of the code are 01.
#[verifier::external_body]
fn is_uncertain(code: u32) -> (r: bool)
    ensures
        r == uncertain_status(code),
{
    StatusCode::from(code).is_uncertain()
}

/// `StatusCode::is_bad` of `opcua`: the two highest bits of the code are 10, or 11, which counts as
/// bad too.
#[verifier::external_body]
pub(crate) fn is_bad(code: u32) -> (r: bool)
    ensures
        r == bad_status(code),
{
    StatusCode::from(code).is_bad()
}

/// How `DateTime::to_rfc3339` of `opcua` writes a time, given in ticks of 100 nanoseconds since
/// 1601.
pub uninterp spec fn rfc3339_of(ticks: i64) -> Seq<char>;

/// Writes a time with `DateTime::to_rfc3339` of `opcua`: in UTC, with milliseconds. What comes back
/// depends on the ticks alone, and is called [`rfc3339_of`] here.
#[verifier::external_body]
fn rfc3339(ticks: i64) -> (r: String)
    ensures
        r@ == rfc3339_of(ticks),
        clock::iso_shape(r@),
{
    DateTime::from(ticks).to_rfc3339()
}

/// The ticks that `DateTime::parse_from_rfc3339` of `opcua` reads in a text; none if it refuses it.
pub uninterp spec fn ticks_of(text: Seq<char>) -> Option<i64>;

/// Reads a time with `DateTime::parse_from_rfc3339` of `opcua`. What comes back depends on the text
/// alone, and is called [`ticks_of`] here. A time before 1601 is read as the start of that year, so
/// that no ticks are negative.
#[verifier::external_body]
pub(crate) fn parse_time(s: &str) -> (r: Option<i64>)
    ensures
        r == ticks_of(s@),
        r matches Some(t) ==> t >= 0,
{
    DateTime::parse_from_rfc3339(s).ok().map(|t| t.ticks())
}

/// The quality that a status code stands for; a value without one is good.
pub open spec fn quality_of(code: Option<u32>) -> Quality {
    match code {
        None => Quality::Good,
        Some(c) => if good_status(c) {
            Quality::Good
        } else if uncertain_status(c) {
            Quality::Uncertain
        } else {
            Quality::Bad
        },
    }
}

/// The quality that a status code stands for; a value without one is good.
pub fn status_code_to_quality(code: Option<u32>) -> (r: Quality)
    ensures
        r == quality_of(code),
{
    match code {
        None => Quality::Good,
        Some(c) => if is_good(c) {
            Quality::Good
        } else if is_uncertain(c) {
            Quality::Uncertain
        } else {
            Quality::Bad
        },
    }
}

/// A value on the wire. `Float` holds the bits of a binary32 value, `Other` how a value of any other
/// type is shown.
#[derive(Debug)]
pub enum Variant {
    Boolean(bool),
    SByte(i8),
    Byte(u8),
    Int16(i16),
    UInt16(u16),
    Int32(i32),
    UInt32(u32),
    Int64(i64),
    UInt64(u64),
    Float(u32),
    Double(Double),
    Text(String),
    Other(String),
}

/// Whether `t` is the value of `v` as a tag's value: integers are rounded to nearest if they have
/// more than 53 bits, binary32 values are kept.
pub open spec fn shows(v: Variant, t: TagValueView) -> bool {
    match v {
        Variant::Boolean(b) => t == TagValueView::Bool(b),
        Variant::SByte(n) => t == TagValueView::Float(double::of_integer(n as int)),
        Variant::Byte(n) => t == TagValueView::Float(double::of_integer(n as int)),
        Variant::Int16(n) => t == TagValueView::Float(double::of_integer(n as int)),
        Variant::UInt16(n) => t == TagValueView::Float(double::of_integer(n as int)),
        Variant::Int32(n) => t == TagValueView::Float(double::of_integer(n as int)),
        Variant::UInt32(n) => t == TagValueView::Float(double::of_integer(n as int)),
        Variant::Int64(n) => t == TagValueView::Float(double::of_integer(n as int)),
        Variant::UInt64(n) => t == TagValueView::Float(double::of_integer(n as int)),
        Variant::Float(bits) => t is Float && t->Float_0.widens(bits),
        Variant::Double(d) => t == TagValueView::Float(d),
        Variant::Text(s) => t == TagValueView::Text(s@),
        Variant::Other(s) => t == TagValueView::Text(s@),
    }
}

/// A value on the wire as a tag's value.
pub fn variant_to_tag_value(v: &Variant) -> (r: TagValue)
    ensures
        shows(*v, r@),
{
    match v {
        Variant::Boolean(b) => TagValue::Bool(*b),
        Variant::SByte(n) => TagValue::Float(Double::from_i64(*n as i64)),
        Variant::Byte(n) => TagValue::Float(Double::from_u64(*n as u64)),
        Variant::Int16(n) => TagValue::Float(Double::from_i64(*n as i64)),
        Variant::UInt16(n) => TagValue::Float(Double::from_u64(*n as u64)),
        Variant::Int32(n) => TagValue::Float(Double::from_i64(*n as i64)),
        Variant::UInt32(n) => TagValue::Float(Double::from_u64(*n as u64)),
        Variant::Int64(n) => TagValue::Float(Double::from_i64(*n)),
        Variant::UInt64(n) => TagValue::Float(Double::from_u64(*n)),
        Variant::Float(bits) => TagValue::Float(Double::from_single(*bits)),
        Variant::Double(d) => TagValue::Float(*d),
        Variant::Text(s) => TagValue::Text(s.clone()),
        Variant::Other(s) => TagValue::Text(s.clone()),
    }
}

/// What a server tells of a value. Times are in ticks of 100 nanoseconds since 1601.
#[derive(Debug)]
pub struct DataReading {
    pub value: Option<Variant>,
    pub status: Option<u32>,
    pub source_timestamp: Option<i64>,
    pub server_timestamp: Option<i64>,
}

/// The time of a reading: that of its source, else that of the server.
pub open spec fn stamp(dv: DataReading) -> Option<i64> {
    match dv.source_timestamp {
        Some(t) => Some(t),
        None => dv.server_timestamp,
    }
}

/// Whether `v` is the envelope of a reading. A reading without a time gets the time `now`.
pub open spec fn envelopes(
    node_id: Seq<char>,
    dv: DataReading,
    units: Seq<char>,
    now: Seq<char>,
    v: VqtView,
) -> bool {
    &&& v.tag_id == node_id
    &&& v.units == units
    &&& v.quality == quality_of(dv.status)
    &&& v.timestamp == match stamp(dv) {
        Some(t) => rfc3339_of(t),
        None => now,
    }
    &&& match dv.value {
        Some(x) => shows(x, v.value),
        None => v.value == TagValueView::Text("null"@),
    }
}

/// The envelope of a reading. A reading without a time gets the time `now`.
pub fn reading_at(node_id: &str, dv: &DataReading, units: &str, now: String) -> (r: Vqt)
    ensures
        envelopes(node_id@, *dv, units@, now@, r@),
        clock::iso_shape(now@) ==> clock::iso_shape(r@.timestamp),
{
    let timestamp: String = match dv.source_timestamp {
        Some(t) => rfc3339(t),
        None => match dv.server_timestamp {
            Some(t) => rfc3339(t),
            None => now,
        },
    };
    let value: TagValue = match &dv.value {
        Some(v) => variant_to_tag_value(v),
        None => TagValue::Text("null".to_owned()),
    };
    Vqt {
        tag_id: node_id.to_owned(),
        value,
        quality: status_code_to_quality(dv.status),
        timestamp,
        units: units.to_owned(),
    }
}

/// Whether `v` is the envelope of a reading, with any time of the right shape if the reading has
/// none.
pub open spec fn envelopes_now(
    node_id: Seq<char>,
    dv: DataReading,
    units: Seq<char>,
    v: VqtView,
) -> bool {
    envelopes(node_id, dv, units, v.timestamp, v) && clock::iso_shape(v.timestamp)
}

/// The envelope of a reading. A reading without a time gets the current one.
pub fn data_value_to_vqt(node_id: &str, dv: &DataReading, units: &str) -> (r: Vqt)
    ensures
        envelopes_now(node_id@, *dv, units@, r@),
{
    reading_at(node_id, dv, units, clock::now_iso())
}

/// Whether the server does not know the node.
pub fn is_node_id_unknown(status: Option<u32>) -> (r: bool)
    ensures
        r == (status == Some(BAD_NODE_ID_UNKNOWN)),
{
    match status {
        Some(c) => c == BAD_NODE_ID_UNKNOWN,
        None => false,
    }
}

/// The error code of a status with which a server refuses a write: an unknown node, a node that
/// cannot be written, a user without the right, a value of the wrong type or range, or a server that
/// took too long; anything else is a failure of the connection.
pub open spec fn write_error_code(code: u32) -> ErrorCode {
    if code == BAD_NODE_ID_UNKNOWN {
        ErrorCode::TagNotFound
    } else if code == 0x803b_0000 || code == 0x8073_0000 {
        ErrorCode::TagNotWritable
    } else if code == 0x801f_0000 {
        ErrorCode::PermissionDenied
    } else if code == 0x8074_0000 || code == 0x803c_0000 {
        ErrorCode::InvalidValue
    } else if code == 0x800a_0000 {
        ErrorCode::Timeout
    } else {
        ErrorCode::ConnectionError
    }
}

/// The error code of a status with which a server refuses a write.
pub fn map_write_status_code(code: u32) -> (r: ErrorCode)
    ensures
        r == write_error_code(code),
{
    if code == BAD_NODE_ID_UNKNOWN {
        ErrorCode::TagNotFound
    } else if code == 0x803b_0000 || code == 0x8073_0000 {
        ErrorCode::TagNotWritable
    } else if code == 0x801f_0000 {
        ErrorCode::PermissionDenied
    } else if code == 0x8074_0000 || code == 0x803c_0000 {
        ErrorCode::InvalidValue
    } else if code == 0x800a_0000 {
        ErrorCode::Timeout
    } else {
        ErrorCode::ConnectionError
    }
}

/// The value on the wire of a value to write.
pub open spec fn wire_value(v: WriteValue) -> Variant {
    match v {
        WriteValue::Float(f) => Variant::Double(f),
        WriteValue::Bool(b) => Variant::Boolean(b),
    }
}

/// Checks a value against what may be written to a tag, and gives it as it goes on the wire.
pub fn validate_write(
    perm: &WritePermission,
    value: &Json,
    shown: &str,
    units: &str,
    tag_id: &str,
) -> (r: Result<(Variant, WriteValue), AdapterError>)
    ensures
        match (topology::validated(perm@, value@, shown@, units@, tag_id@), r) {
            (Ok(v), Ok((variant, written))) => written == v && variant == wire_value(v),
            (Err(e), Err(got)) => got@ == e,
            _ => false,
        },
{
    match topology::validate_write(perm, value, shown, units, tag_id) {
        Err(e) => Err(e),
        Ok(WriteValue::Float(f)) => Ok((Variant::Double(f), WriteValue::Float(f))),
        Ok(WriteValue::Bool(b)) => Ok((Variant::Boolean(b), WriteValue::Bool(b))),
    }
}

/// A request to read an attribute of a node.
#[derive(Debug)]
pub struct ReadValueId {
    pub node_id: NodeId,
    pub attribute_id: u32,
}

/// The request that reads a node's value.
pub fn make_read_value_id(node_id: NodeId) -> (r: ReadValueId)
    ensures
        r.node_id == node_id,
        r.attribute_id == VALUE_ATTRIBUTE,
{
    ReadValueId { node_id, attribute_id: VALUE_ATTRIBUTE }
}

/// A request to write an attribute of a node.
#[derive(Debug)]
pub struct OpcWriteValue {
    pub node_id: NodeId,
    pub attribute_id: u32,
    pub value: Variant,
}

/// The request that writes a node's value.
pub fn make_opc_write_value(node_id: NodeId, value: Variant) -> (r: OpcWriteValue)
    ensures
        r.node_id == node_id,
        r.attribute_id == VALUE_ATTRIBUTE,
        r.value == value,
{
    OpcWriteValue { node_id, attribute_id: VALUE_ATTRIBUTE, value }
}

/// Which raw values of the past to read. Times are in ticks of 100 nanoseconds since 1601.
#[derive(Debug, Clone, Copy, PartialEq, Eq, Structural)]
pub struct HistoryReadDetails {
    pub is_read_modified: bool,
    pub start_time: i64,
    pub end_time: i64,
    pub num_values_per_node: u32,
    pub return_bounds: bool,
}

/// Asks for the values of a window as they were recorded, without its bounds.
pub fn make_history_read_details(start_time: i64, end_time: i64, max_points: u32) -> (r:
    HistoryReadDetails)
    ensures
        r == (HistoryReadDetails {
            is_read_modified: false,
            start_time,
            end_time,
            num_values_per_node: max_points,
            return_bounds: false,
        }),
{
    HistoryReadDetails {
        is_read_modified: false,
        start_time,
        end_time,
        num_values_per_node: max_points,
        return_bounds: false,
    }
}

/// Of which node to read the past: all of its value, in the default encoding, from the start.
#[derive(Debug)]
pub struct HistoryReadValueId {
    pub node_id: NodeId,
}

/// Asks for the past of a node.
pub fn make_history_value_id(node_id: NodeId) -> (r: HistoryReadValueId)
    ensures
        r.node_id == node_id,
{
    HistoryReadValueId { node_id }
}

/// What a server tells of the past of one node.
#[derive(Debug)]
pub struct HistoryReading {
    pub status: u32,
    pub data: Vec<DataReading>,
}

/// The readings of an answer: none if it holds no data of the past, or none that could be read.
pub fn extract_history_data(data: Option<Vec<DataReading>>) -> (r: Vec<DataReading>)
    ensures
        r@ == (match data {
            Some(d) => d@,
            None => Seq::empty(),
        }),
{
    match data {
        Some(d) => d,
        None => Vec::new(),
    }
}

/// Whether a quality passes a filter. A filter that names no quality lets all pass.
pub open spec fn quality_passes(filter: Option<Seq<char>>, quality: Quality) -> bool {
    match filter {
        None => true,
        Some(f) => if f == "good"@ {
            quality == Quality::Good
        } else if f == "uncertain"@ {
            quality == Quality::Uncertain
        } else if f == "bad"@ {
            quality == Quality::Bad
        } else {
            true
        },
    }
}

} // verus!
