//! The data envelope that every adapter speaks: values, qualities, errors and responses.
use crate::double::Double;
use vstd::prelude::*;

verus! {

/// Quality of a reading.
#[derive(Debug, Clone, Copy, PartialEq, Eq, Structural)]
pub enum Quality {
    Good,
    Uncertain,
    Bad,
}

/// A tag's value: a number, a boolean state or a text.
#[derive(Debug, Clone)]
pub enum TagValue {
    Float(Double),
    Bool(bool),
    Text(String),
}

/// A value to write: texts are not writable.
#[derive(Debug, Clone, Copy, PartialEq, Eq, Structural)]
pub enum WriteValue {
    Float(Double),
    Bool(bool),
}

/// The envelope of every data read: value, quality and timestamp.
#[derive(Debug, Clone)]
pub struct Vqt {
    pub tag_id: String,
    pub value: TagValue,
    pub quality: Quality,
    /// ISO 8601, UTC.
    pub timestamp: String,
    /// Engineering units; empty if there are none.
    pub units: String,
}

/// What a write answers.
#[derive(Debug, Clone)]
pub struct WriteConfirmation {
    pub tag_id: String,
    pub value_written: WriteValue,
    pub quality: Quality,
    pub timestamp: String,
    pub units: String,
    pub operator_id: String,
}

/// The seven error codes.
#[derive(Debug, Clone, Copy, PartialEq, Eq, Structural)]
pub enum ErrorCode {
    TagNotFound,
    TagNotWritable,
    ConnectionError,
    Timeout,
    InvalidValue,
    PermissionDenied,
    HistoryUnavailable,
}

/// The error envelope.
#[derive(Debug, Clone)]
pub struct AdapterError {
    pub code: ErrorCode,
    pub message: String,
    pub tag_id: Option<String>,
}

pub type AdapterResult<T> = Result<T, AdapterError>;

/// The range that a tag's value normally lies in.
#[derive(Debug, Clone, Copy, PartialEq, Eq, Structural)]
pub struct NormalRange {
    pub min: Double,
    pub max: Double,
}

/// What discovery tells of a tag.
#[derive(Debug, Clone)]
pub struct TagDescriptor {
    pub tag_id: String,
    pub name: String,
    pub description: String,
    pub units: String,
    pub data_type: String,
    pub writable: bool,
    pub process_area: String,
    pub equipment_id: String,
    pub normal_range: Option<NormalRange>,
}

/// What a connect answers.
#[derive(Debug, Clone)]
pub struct ConnectResponse {
    pub connected: bool,
    pub server_name: String,
    pub protocol_version: String,
    pub timestamp: String,
}

/// What a disconnect answers.
#[derive(Debug, Clone)]
pub struct DisconnectResponse {
    pub disconnected: bool,
    pub timestamp: String,
}

/// Metadata of an adapter and the state of its connection.
#[derive(Debug, Clone)]
pub struct ServerInfoResponse {
    pub server_name: String,
    pub protocol: String,
    pub protocol_version: String,
    pub connected: bool,
    pub connection_state: String,
    pub capabilities: Vec<String>,
    pub uptime_seconds: u64,
    pub last_error: Option<String>,
}

/// One address or topic that a scan saw.
#[derive(Debug, Clone)]
pub struct ScanEntry {
    pub topic: String,
    pub last_value: Option<TagValue>,
    pub quality: Quality,
    pub timestamp: Option<String>,
}

/// The text of an optional string.
pub open spec fn opt_text(s: Option<String>) -> Option<Seq<char>> {
    match s {
        Some(t) => Some(t@),
        None => None,
    }
}

/// The model of a [`TagValue`].
pub enum TagValueView {
    Float(Double),
    Bool(bool),
    Text(Seq<char>),
}

impl View for TagValue {
    type V = TagValueView;

    open spec fn view(&self) -> TagValueView {
        match *self {
            TagValue::Float(d) => TagValueView::Float(d),
            TagValue::Bool(b) => TagValueView::Bool(b),
            TagValue::Text(s) => TagValueView::Text(s@),
        }
    }
}

/// The model of a [`Vqt`].
pub struct VqtView {
    pub tag_id: Seq<char>,
    pub value: TagValueView,
    pub quality: Quality,
    pub timestamp: Seq<char>,
    pub units: Seq<char>,
}

impl View for Vqt {
    type V = VqtView;

    open spec fn view(&self) -> VqtView {
        VqtView {
            tag_id: self.tag_id@,
            value: self.value@,
            quality: self.quality,
            timestamp: self.timestamp@,
            units: self.units@,
        }
    }
}

/// The model of a [`WriteConfirmation`].
pub struct WriteConfirmationView {
    pub tag_id: Seq<char>,
    pub value_written: WriteValue,
    pub quality: Quality,
    pub timestamp: Seq<char>,
    pub units: Seq<char>,
    pub operator_id: Seq<char>,
}

impl View for WriteConfirmation {
    type V = WriteConfirmationView;

    open spec fn view(&self) -> WriteConfirmationView {
        WriteConfirmationView {
            tag_id: self.tag_id@,
            value_written: self.value_written,
            quality: self.quality,
            timestamp: self.timestamp@,
            units: self.units@,
            operator_id: self.operator_id@,
        }
    }
}

/// The model of an [`AdapterError`].
pub struct AdapterErrorView {
    pub code: ErrorCode,
    pub message: Seq<char>,
    pub tag_id: Option<Seq<char>>,
}

impl View for AdapterError {
    type V = AdapterErrorView;

    open spec fn view(&self) -> AdapterErrorView {
        AdapterErrorView {
            code: self.code,
            message: self.message@,
            tag_id: opt_text(self.tag_id),
        }
    }
}

/// A result with its error by the model.
pub open spec fn outcome<T>(r: AdapterResult<T>) -> Result<T, AdapterErrorView> {
    match r {
        Ok(v) => Ok(v),
        Err(e) => Err(e@),
    }
}

/// A result with both sides by their models.
pub open spec fn outcome_view<T: View>(r: AdapterResult<T>) -> Result<T::V, AdapterErrorView> {
    match r {
        Ok(v) => Ok(v@),
        Err(e) => Err(e@),
    }
}

/// An error on a tag, by its model.
pub open spec fn tag_error(code: ErrorCode, message: Seq<char>, tag_id: Seq<char>) -> AdapterErrorView {
    AdapterErrorView { code, message, tag_id: Some(tag_id) }
}

/// An error on no tag, by its model.
pub open spec fn plain_error(code: ErrorCode, message: Seq<char>) -> AdapterErrorView {
    AdapterErrorView { code, message, tag_id: None }
}

impl AdapterError {
    /// An error on a tag.
    pub fn on_tag(code: ErrorCode, message: String, tag_id: &str) -> (r: AdapterError)
        ensures
            r@ == tag_error(code, message@, tag_id@),
    {
        AdapterError { code, message, tag_id: Some(tag_id.to_owned()) }
    }

    /// An error on no tag.
    pub fn plain(code: ErrorCode, message: String) -> (r: AdapterError)
        ensures
            r@ == plain_error(code, message@),
    {
        AdapterError { code, message, tag_id: None }
    }
}

/// The model of a [`TagDescriptor`].
pub struct TagDescriptorView {
    pub tag_id: Seq<char>,
    pub name: Seq<char>,
    pub description: Seq<char>,
    pub units: Seq<char>,
    pub data_type: Seq<char>,
    pub writable: bool,
    pub process_area: Seq<char>,
    pub equipment_id: Seq<char>,
    pub normal_range: Option<NormalRange>,
}

impl View for TagDescriptor {
    type V = TagDescriptorView;

    open spec fn view(&self) -> TagDescriptorView {
        TagDescriptorView {
            tag_id: self.tag_id@,
            name: self.name@,
            description: self.description@,
            units: self.units@,
            data_type: self.data_type@,
            writable: self.writable,
            process_area: self.process_area@,
            equipment_id: self.equipment_id@,
            normal_range: self.normal_range,
        }
    }
}

/// The model of a [`ConnectResponse`].
pub struct ConnectResponseView {
    pub connected: bool,
    pub server_name: Seq<char>,
    pub protocol_version: Seq<char>,
    pub timestamp: Seq<char>,
}

impl View for ConnectResponse {
    type V = ConnectResponseView;

    open spec fn view(&self) -> ConnectResponseView {
        ConnectResponseView {
            connected: self.connected,
            server_name: self.server_name@,
            protocol_version: self.protocol_version@,
            timestamp: self.timestamp@,
        }
    }
}

/// The model of a [`DisconnectResponse`].
pub struct DisconnectResponseView {
    pub disconnected: bool,
    pub timestamp: Seq<char>,
}

impl View for DisconnectResponse {
    type V = DisconnectResponseView;

    open spec fn view(&self) -> DisconnectResponseView {
        DisconnectResponseView {
            disconnected: self.disconnected,
            timestamp: self.timestamp@,
        }
    }
}

/// The model of a [`ServerInfoResponse`].
pub struct ServerInfoView {
    pub server_name: Seq<char>,
    pub protocol: Seq<char>,
    pub protocol_version: Seq<char>,
    pub connected: bool,
    pub connection_state: Seq<char>,
    pub capabilities: Seq<Seq<char>>,
    pub uptime_seconds: u64,
    pub last_error: Option<Seq<char>>,
}

impl View for ServerInfoResponse {
    type V = ServerInfoView;

    open spec fn view(&self) -> ServerInfoView {
        ServerInfoView {
            server_name: self.server_name@,
            protocol: self.protocol@,
            protocol_version: self.protocol_version@,
            connected: self.connected,
            connection_state: self.connection_state@,
            capabilities: crate::text::texts(self.capabilities@),
            uptime_seconds: self.uptime_seconds,
            last_error: opt_text(self.last_error),
        }
    }
}

/// The model of a [`ScanEntry`].
pub struct ScanEntryView {
    pub topic: Seq<char>,
    pub last_value: Option<TagValueView>,
    pub quality: Quality,
    pub timestamp: Option<Seq<char>>,
}

impl View for ScanEntry {
    type V = ScanEntryView;

    open spec fn view(&self) -> ScanEntryView {
        ScanEntryView {
            topic: self.topic@,
            last_value: match self.last_value {
                Some(v) => Some(v@),
                None => None,
            },
            quality: self.quality,
            timestamp: opt_text(self.timestamp),
        }
    }
}

/// The models of the items of `s`.
pub open spec fn views<T: View>(s: Seq<T>) -> Seq<T::V> {
    s.map_values(|x: T| x@)
}

/// A copy of an optional text.
pub fn copy_opt(s: &Option<String>) -> (r: Option<String>)
    ensures
        opt_text(r) == opt_text(*s),
{
    match s {
        Some(t) => Some(t.clone()),
        None => None,
    }
}

impl TagValue {
    /// A copy of this value.
    pub fn copy(&self) -> (r: TagValue)
        ensures
            r@ == self@,
    {
        match self {
            TagValue::Float(d) => TagValue::Float(*d),
            TagValue::Bool(b) => TagValue::Bool(*b),
            TagValue::Text(s) => TagValue::Text(s.clone()),
        }
    }
}

} // verus!
