//! The tools of the MQTT adapter, as decisions around the broker traffic.
use crate::double::Double;
use crate::envelope;
use crate::envelope::{
    AdapterError, AdapterErrorView, ConnectResponse, ConnectResponseView, ErrorCode, Quality,
    ServerInfoResponse, ServerInfoView, TagDescriptor, TagValueView, Vqt, VqtView, WriteValue,
};
use crate::json;
use crate::json::{Json, JsonView, Number};
use crate::mqtt::connection;
use crate::mqtt::connection::{
    ConnStatus, ConnStatusView, MemberView, MqttConnection, MqttConnectionView, PayloadMembersView,
    PlainValue, ReceivedMessage,
};
use crate::mqtt::feed;
use crate::mqtt::feed::{Feed, FeedView, MqttScanEntry};
use crate::mqtt::topics;
use crate::text;
use crate::tools;
use crate::topology;
use crate::topology::TopologyConfig;
use crate::writing;
use crate::writing::{Disconnected, WriteRequest, WriteRequestView, Written};
use vstd::prelude::*;

verus! {

/// How long a broker may take to accept a connection if nothing else is asked for, and how long a
/// scan listens, in milliseconds.
pub const DEFAULT_WINDOW_MS: u32 = 5000;

/// How long the topic tree listens, in milliseconds.
pub const TREE_WINDOW_MS: u32 = 10000;

/// How long the read of a tag waits for a message, in milliseconds.
pub const READ_WINDOW_MS: u32 = 10000;

/// The error of a tool that needs a connection.
pub open spec fn not_connected_error(tag_id: Option<Seq<char>>) -> AdapterErrorView {
    AdapterErrorView {
        code: ErrorCode::ConnectionError,
        message: "Not connected to an MQTT broker. Call connect first."@,
        tag_id,
    }
}

/// The error of a tool that needs a connection.
pub fn not_connected(tag_id: Option<&str>) -> (r: AdapterError)
    ensures
        r@ == not_connected_error(
            match tag_id {
                Some(t) => Some(t@),
                None => None,
            },
        ),
{
    AdapterError {
        code: ErrorCode::ConnectionError,
        message: "Not connected to an MQTT broker. Call connect first.".to_owned(),
        tag_id: match tag_id {
            Some(t) => Some(t.to_owned()),
            None => None,
        },
    }
}

/// The message on a subscription that failed. How it failed stays out of it.
pub open spec fn subscribe_message() -> Seq<char> {
    "The subscription could not be made."@
}

fn subscribe_failure() -> (r: String)
    ensures
        r@ == subscribe_message(),
{
    "The subscription could not be made.".to_owned()
}

/// What a connect is asked to use.
#[derive(Debug)]
pub struct ConnectSettings {
    pub client_id: String,
    pub keep_alive_secs: u64,
    pub clean_session: bool,
    /// User name and password.
    pub credentials: Option<(String, String)>,
    pub timeout_ms: u32,
}

/// The model of [`ConnectSettings`].
pub struct ConnectSettingsView {
    pub client_id: Seq<char>,
    pub keep_alive_secs: u64,
    pub clean_session: bool,
    pub credentials: Option<(Seq<char>, Seq<char>)>,
    pub timeout_ms: u32,
}

impl View for ConnectSettings {
    type V = ConnectSettingsView;

    open spec fn view(&self) -> ConnectSettingsView {
        ConnectSettingsView {
            client_id: self.client_id@,
            keep_alive_secs: self.keep_alive_secs,
            clean_session: self.clean_session,
            credentials: match self.credentials {
                Some(c) => Some((c.0@, c.1@)),
                None => None,
            },
            timeout_ms: self.timeout_ms,
        }
    }
}

/// The settings that the options ask for, with the defaults for what is not given. Credentials take
/// both a user name and a password.
pub open spec fn settings_of(timeout_ms: Option<u32>, options: Option<JsonView>) -> ConnectSettingsView {
    ConnectSettingsView {
        client_id: match tools::text_option(options, "client_id"@) {
            Some(t) => t,
            None => "fieldworks-mqtt-mcp"@,
        },
        keep_alive_secs: match tools::option_at(options, "keep_alive_secs"@) {
            Some(v) => match v.unsigned() {
                Some(n) => n,
                None => 60,
            },
            None => 60,
        },
        clean_session: match tools::option_at(options, "clean_session"@) {
            Some(v) => match v.boolean() {
                Some(b) => b,
                None => true,
            },
            None => true,
        },
        credentials: match (
            tools::text_option(options, "username"@),
            tools::text_option(options, "password"@),
        ) {
            (Some(u), Some(p)) => Some((u, p)),
            _ => None,
        },
        timeout_ms: match timeout_ms {
            Some(ms) => ms,
            None => DEFAULT_WINDOW_MS,
        },
    }
}

/// The settings that the options ask for, with the defaults for what is not given.
pub fn connect_settings(timeout_ms: Option<u32>, options: &Option<Json>) -> (r: ConnectSettings)
    ensures
        r@ == settings_of(timeout_ms, tools::opt_json(*options)),
{
    let client_id: String = match tools::opt_str(options, "client_id") {
        Some(t) => t.to_owned(),
        None => "fieldworks-mqtt-mcp".to_owned(),
    };
    let keep_alive_secs: u64 = match tools::get_option(options, "keep_alive_secs") {
        Some(v) => match v.as_u64() {
            Some(n) => n,
            None => 60,
        },
        None => 60,
    };
    let clean_session: bool = match tools::get_option(options, "clean_session") {
        Some(v) => match v.as_bool() {
            Some(b) => b,
            None => true,
        },
        None => true,
    };
    let credentials: Option<(String, String)> = match (
        tools::opt_str(options, "username"),
        tools::opt_str(options, "password"),
    ) {
        (Some(u), Some(p)) => Some((u.to_owned(), p.to_owned())),
        _ => None,
    };
    let timeout_ms: u32 = match timeout_ms {
        Some(ms) => ms,
        None => DEFAULT_WINDOW_MS,
    };
    ConnectSettings { client_id, keep_alive_secs, clean_session, credentials, timeout_ms }
}

/// How an attempt to connect went.
#[derive(Debug)]
pub enum ConnectAttempt {
    Connected,
    Failed(String),
    TimedOut,
}

/// How an attempt to connect went, as far as the state of the connection tells: still open if it
/// does not. `closed` says that nobody will report a state any more.
pub fn connect_progress(status: &ConnStatus, closed: bool) -> (r: Option<ConnectAttempt>)
    ensures
        match (status@, r) {
            (ConnStatusView::Connected, Some(ConnectAttempt::Connected)) => true,
            (ConnStatusView::Error(e), Some(ConnectAttempt::Failed(got))) => got@ == e,
            (ConnStatusView::Connecting, Some(ConnectAttempt::Failed(got))) => closed && got@
                == "connection channel closed"@,
            (ConnStatusView::Connecting, None) => !closed,
            _ => false,
        },
{
    match status {
        ConnStatus::Connected => Some(ConnectAttempt::Connected),
        ConnStatus::Error(e) => Some(ConnectAttempt::Failed(e.clone())),
        ConnStatus::Connecting => if closed {
            Some(ConnectAttempt::Failed("connection channel closed".to_owned()))
        } else {
            None
        },
    }
}

/// The error on an attempt to connect, if it failed.
pub open spec fn connect_failure(
    host: Seq<char>,
    port: u16,
    timeout_ms: u32,
    attempt: ConnectAttempt,
) -> Option<AdapterErrorView> {
    let at = tools::endpoint(host, port);
    match attempt {
        ConnectAttempt::Connected => None,
        ConnectAttempt::Failed(_) => Some(
            envelope::plain_error(
                ErrorCode::ConnectionError,
                "Failed to connect to "@ + at,
            ),
        ),
        ConnectAttempt::TimedOut => Some(
            envelope::plain_error(
                ErrorCode::Timeout,
                "Connection to "@ + at + " timed out after "@ + text::decimal_text(
                    timeout_ms as nat,
                ) + "ms"@,
            ),
        ),
    }
}

/// A subscription to a pattern of topics, and how long to listen.
#[derive(Debug)]
pub struct Subscription {
    pub pattern: String,
    pub window_ms: u32,
}

/// How listening went: the subscription failed, for a reason that is for the log alone, or these
/// messages came in.
#[derive(Debug)]
pub enum Heard {
    Refused(String),
    Messages(Vec<ReceivedMessage>),
}

/// How waiting for a message on a topic went.
#[derive(Debug)]
pub enum Awaited {
    Refused(String),
    Message(ReceivedMessage),
    Nothing,
}

/// What a message to publish holds: its text, or a document whose number has a fraction to write in
/// decimal.
#[derive(Debug)]
pub enum Payload {
    Text(String),
    Document(Json),
}

/// A message to publish once, with the promise that it arrives at least once.
#[derive(Debug)]
pub struct Publication {
    pub topic: String,
    pub payload: Payload,
    pub retain: bool,
}

/// The plain value of a document: a boolean or an integer.
pub open spec fn plain_value(v: JsonView) -> Option<PlainValue> {
    match v {
        JsonView::Bool(b) => Some(PlainValue::Flag(b)),
        JsonView::Number(Number::Unsigned(n)) => Some(PlainValue::Count(n)),
        JsonView::Number(Number::Negative(n)) => Some(PlainValue::Negative(n)),
        _ => None,
    }
}

fn as_plain(v: &Json) -> (r: Option<PlainValue>)
    ensures
        r == plain_value(v@),
{
    match v {
        Json::Bool(b) => Some(PlainValue::Flag(*b)),
        Json::Number(Number::Unsigned(n)) => Some(PlainValue::Count(*n)),
        Json::Number(Number::Negative(n)) => Some(PlainValue::Negative(*n)),
        _ => None,
    }
}

/// The reading of what a write wrote.
pub open spec fn written_reading(
    req: WriteRequestView,
    value: WriteValue,
    timestamp: Seq<char>,
) -> VqtView {
    VqtView {
        tag_id: req.tag_id,
        value: match value {
            WriteValue::Float(f) => TagValueView::Float(f),
            WriteValue::Bool(b) => TagValueView::Bool(b),
        },
        quality: Quality::Good,
        timestamp,
        units: req.units,
    }
}

/// Whether a payload is read as what a write wrote, whenever it comes in.
pub open spec fn reads_back(
    req: WriteRequestView,
    value: WriteValue,
    timestamp: Seq<char>,
    payload: Seq<char>,
) -> bool {
    forall|number: Option<Double>, received_at: Seq<char>| #[trigger]
        connection::parsed_payload(req.tag_id, payload, number, received_at) == written_reading(
            req,
            value,
            timestamp,
        )
}

/// Whether a payload is what a write publishes: the text of its document where that has no fraction
/// to write, which then reads back as what was written, and else the document.
pub open spec fn publishes(
    req: WriteRequestView,
    value: WriteValue,
    timestamp: Seq<char>,
    payload: Payload,
) -> bool {
    match (plain_value(req.value), payload) {
        (Some(plain), Payload::Text(p)) => {
            &&& p@ == connection::object_text_of(
                ("value"@, plain),
                seq![
                    ("quality"@, "good"@),
                    ("timestamp"@, timestamp),
                    ("units"@, req.units),
                ],
            )
            &&& reads_back(req, value, timestamp, p@)
        },
        (None, Payload::Document(d)) => d@ == payload_document(req.value, timestamp, req.units),
        _ => false,
    }
}

/// The document that a write publishes.
pub open spec fn payload_document(value: JsonView, timestamp: Seq<char>, units: Seq<char>) -> JsonView {
    JsonView::Object(
        Map::<Seq<char>, JsonView>::empty().insert("value"@, value).insert(
            "quality"@,
            JsonView::Text("good"@),
        ).insert("timestamp"@, JsonView::Text(timestamp)).insert("units"@, JsonView::Text(units)),
    )
}

/// The value that a request may write, or why it may not.
pub open spec fn permitted_write(
    link: Option<MqttConnectionView>,
    req: WriteRequestView,
) -> Result<WriteValue, AdapterErrorView> {
    match link {
        None => Err(not_connected_error(Some(req.tag_id))),
        Some(c) => if !c.topology.write_permissions.contains_key(req.tag_id) {
            Err(
                envelope::tag_error(
                    ErrorCode::TagNotWritable,
                    "The tag is not in topology write_permissions. Add it to topology.yaml to allow writes."@,
                    req.tag_id,
                ),
            )
        } else {
            topology::validated(
                c.topology.write_permissions[req.tag_id],
                req.value,
                req.shown,
                req.units,
                req.tag_id,
            )
        },
    }
}

/// The adapter: the plain part of its connection, if it has one.
#[derive(Debug)]
pub struct MqttMcpServer {
    pub inner: Option<MqttConnection>,
}

/// What the read of a tag answers once it has waited: what came in, else what is cached, which is
/// then uncertain, else an error.
pub open spec fn read_answer(
    cache: Map<Seq<char>, VqtView>,
    tag_id: Seq<char>,
    awaited: Awaited,
) -> Result<VqtView, AdapterErrorView> {
    match awaited {
        Awaited::Refused(_) => Err(
            envelope::tag_error(ErrorCode::ConnectionError, subscribe_message(), tag_id),
        ),
        Awaited::Message(m) => Ok(connection::reading(m@)),
        Awaited::Nothing => if cache.contains_key(tag_id) {
            Ok(VqtView { quality: Quality::Uncertain, ..cache[tag_id] })
        } else {
            Err(
                envelope::tag_error(
                    ErrorCode::Timeout,
                    "No message received within 10 seconds. The topic may not exist or no publisher is active."@,
                    tag_id,
                ),
            )
        },
    }
}

/// Whether a connection's state counts as connected, and how it is called.
pub open spec fn state_of(status: ConnStatusView) -> (bool, Seq<char>) {
    match status {
        ConnStatusView::Connected => (true, "connected"@),
        ConnStatusView::Connecting => (false, "connecting"@),
        ConnStatusView::Error(e) => (false, "error: "@ + e),
    }
}

/// The state of the adapter.
pub open spec fn server_info(
    link: Option<MqttConnectionView>,
    status: ConnStatusView,
    last_error: Option<Seq<char>>,
    uptime_seconds: u64,
) -> ServerInfoView {
    let capabilities = tools::tool_names("scan"@, "get_topic_tree"@);
    match link {
        None => ServerInfoView {
            server_name: "mqtt-mcp"@,
            protocol: "MQTT"@,
            protocol_version: "unknown"@,
            connected: false,
            connection_state: "disconnected"@,
            capabilities,
            uptime_seconds: 0,
            last_error: None,
        },
        Some(c) => ServerInfoView {
            server_name: "mqtt-mcp@"@ + tools::endpoint(c.host, c.port),
            protocol: "MQTT"@,
            protocol_version: c.protocol_version,
            connected: state_of(status).0,
            connection_state: state_of(status).1,
            capabilities,
            uptime_seconds,
            last_error,
        },
    }
}

/// Whether a message is on the topic that a read waits for.
pub fn answers(m: &ReceivedMessage, tag_id: &str) -> (r: bool)
    ensures
        r == (m@.topic == tag_id@),
{
    text::same(m.topic.as_str(), tag_id)
}

fn copy_vqt(v: &Vqt) -> (r: Vqt)
    ensures
        r@ == v@,
{
    Vqt {
        tag_id: v.tag_id.clone(),
        value: v.value.copy(),
        quality: v.quality,
        timestamp: v.timestamp.clone(),
        units: v.units.clone(),
    }
}

fn payload(value: Json, timestamp: &str, units: &str) -> (r: Json)
    ensures
        r@ == payload_document(value@, timestamp@, units@),
{
    let mut members: Vec<(String, Json)> = Vec::new();
    json::set_member(&mut members, "value", value);
    json::set_member(&mut members, "quality", Json::Text("good".to_owned()));
    json::set_member(&mut members, "timestamp", Json::Text(timestamp.to_owned()));
    json::set_member(&mut members, "units", Json::Text(units.to_owned()));
    Json::Object(members)
}

fn copy_scalar(value: &Json) -> (r: Json)
    requires
        value@ is Number || value@ is Bool,
    ensures
        r@ == value@,
{
    match value {
        Json::Number(n) => Json::Number(*n),
        Json::Bool(b) => Json::Bool(*b),
        _ => Json::Null,
    }
}

impl MqttMcpServer {
    /// The model of the connection.
    pub open spec fn link(self) -> Option<MqttConnectionView> {
        match self.inner {
            Some(c) => Some(c@),
            None => None,
        }
    }

    /// An adapter without a connection.
    pub fn new() -> (r: MqttMcpServer)
        ensures
            r.link() is None,
    {
        MqttMcpServer { inner: None }
    }

    /// What a connect answers, from how the attempt went. The connection that was open before is
    /// gone in any case.
    pub fn connect(
        &mut self,
        host: String,
        port: u16,
        timeout_ms: u32,
        attempt: ConnectAttempt,
        tried: Vec<Option<TopologyConfig>>,
        timestamp: String,
    ) -> (r: Result<ConnectResponse, AdapterError>)
        ensures
            match connect_failure(host@, port, timeout_ms, attempt) {
                Some(e) => {
                    &&& envelope::outcome_view(r) == Err::<ConnectResponseView, AdapterErrorView>(e)
                    &&& final(self).link() is None
                },
                None => {
                    &&& envelope::outcome_view(r) == Ok::<ConnectResponseView, AdapterErrorView>(
                        ConnectResponseView {
                            connected: true,
                            server_name: tools::endpoint(host@, port),
                            protocol_version: "3.1.1"@,
                            timestamp: timestamp@,
                        },
                    )
                    &&& final(self).link() == Some(
                        MqttConnectionView {
                            host: host@,
                            port,
                            protocol_version: "3.1.1"@,
                            topology: topology::first_loaded(tried@),
                        },
                    )
                },
            },
    {
        self.inner = None;
        let at: String = tools::host_and_port(host.as_str(), port);
        match attempt {
            ConnectAttempt::Failed(_) => {
                let m: String = text::cat2("Failed to connect to ", at.as_str());
                Err(AdapterError::plain(ErrorCode::ConnectionError, m))
            },
            ConnectAttempt::TimedOut => {
                let m: String = text::cat5(
                    "Connection to ",
                    at.as_str(),
                    " timed out after ",
                    text::decimal(timeout_ms as u64).as_str(),
                    "ms",
                );
                Err(AdapterError::plain(ErrorCode::Timeout, m))
            },
            ConnectAttempt::Connected => {
                self.inner = Some(
                    MqttConnection {
                        host,
                        port,
                        protocol_version: "3.1.1".to_owned(),
                        topology: topology::load_topology(tried),
                    },
                );
                Ok(
                    ConnectResponse {
                        connected: true,
                        server_name: at,
                        protocol_version: "3.1.1".to_owned(),
                        timestamp,
                    },
                )
            },
        }
    }

    /// Drops the connection, if there is one. A reason goes into the audit log.
    pub fn disconnect(&mut self, reason: Option<String>, timestamp: String) -> (r: Disconnected)
        ensures
            r@ == writing::disconnected(
                old(self).link() is Some,
                envelope::opt_text(reason),
                timestamp@,
            ),
            final(self).link() is None,
    {
        let connected: bool = self.inner.is_some();
        self.inner = None;
        writing::after_disconnect(connected, reason, timestamp)
    }

    /// The tags that pass the filters: the configured ones, or the cached topics if none is
    /// configured.
    pub fn discover_tags(
        &self,
        feed: &Feed,
        process_area: &Option<String>,
        equipment_id: &Option<String>,
        include_metadata: Option<bool>,
    ) -> (r: Result<Vec<TagDescriptor>, AdapterError>)
        ensures
            match (self.link(), r) {
                (None, Err(e)) => e@ == not_connected_error(None),
                (Some(c), Ok(tags)) => envelope::views(tags@) == topology::as_asked(
                    topology::selected(
                        if c.topology.tags.len() == 0 {
                            feed::cache_descriptors(feed.cache@)
                        } else {
                            topology::described(c.topology.tags)
                        },
                        envelope::opt_text(*process_area),
                        envelope::opt_text(*equipment_id),
                    ),
                    include_metadata,
                ),
                _ => false,
            },
    {
        match &self.inner {
            None => Err(not_connected(None)),
            Some(c) => {
                let all: Vec<TagDescriptor> = if c.topology.tags.len() == 0 {
                    feed.describe_cache()
                } else {
                    topology::describe_tags(&c.topology)
                };
                let tags: Vec<TagDescriptor> = topology::select_tags(all, process_area, equipment_id);
                Ok(topology::apply_metadata_choice(tags, include_metadata))
            },
        }
    }

    /// What a scan subscribes to.
    pub fn scan_subscription(
        &self,
        topic_pattern: Option<String>,
        scan_duration_ms: Option<u32>,
    ) -> (r: Result<Subscription, AdapterError>)
        ensures
            match (self.link(), r) {
                (None, Err(e)) => e@ == not_connected_error(None),
                (Some(_), Ok(s)) => {
                    &&& s.pattern@ == match topic_pattern {
                        Some(p) => p@,
                        None => "#"@,
                    }
                    &&& s.window_ms == match scan_duration_ms {
                        Some(ms) => ms,
                        None => DEFAULT_WINDOW_MS,
                    }
                },
                _ => false,
            },
    {
        if self.inner.is_none() {
            return Err(not_connected(None));
        }
        let pattern: String = match topic_pattern {
            Some(p) => p,
            None => "#".to_owned(),
        };
        let window_ms: u32 = match scan_duration_ms {
            Some(ms) => ms,
            None => DEFAULT_WINDOW_MS,
        };
        Ok(Subscription { pattern, window_ms })
    }

    /// What a scan answers, from what was heard on its subscription: the last reading of each topic.
    pub fn scan(&self, heard: &Heard) -> (r: Result<Vec<MqttScanEntry>, AdapterError>)
        ensures
            match (heard, r) {
                (Heard::Refused(_), Err(got)) => got@ == envelope::plain_error(
                    ErrorCode::ConnectionError,
                    subscribe_message(),
                ),
                (Heard::Messages(m), Ok(entries)) => envelope::views(entries@) == feed::scanned(
                    envelope::views(m@),
                ),
                _ => false,
            },
    {
        match heard {
            Heard::Refused(_) => Err(
                AdapterError::plain(ErrorCode::ConnectionError, subscribe_failure()),
            ),
            Heard::Messages(m) => Ok(feed::scan_entries(m)),
        }
    }

    /// What the topic tree subscribes to: every topic, or those below a prefix.
    pub fn tree_subscription(&self, topic_prefix: Option<String>) -> (r: Result<
        Subscription,
        AdapterError,
    >)
        ensures
            match (self.link(), r) {
                (None, Err(e)) => e@ == not_connected_error(None),
                (Some(_), Ok(s)) => {
                    &&& s.pattern@ == match topic_prefix {
                        Some(p) => if p@.len() == 0 {
                            "#"@
                        } else {
                            p@ + "/#"@
                        },
                        None => "#"@,
                    }
                    &&& s.window_ms == TREE_WINDOW_MS
                },
                _ => false,
            },
    {
        if self.inner.is_none() {
            return Err(not_connected(None));
        }
        let pattern: String = match topic_prefix {
            Some(p) => if p.as_str().is_empty() {
                "#".to_owned()
            } else {
                text::cat2(p.as_str(), "/#")
            },
            None => "#".to_owned(),
        };
        Ok(Subscription { pattern, window_ms: TREE_WINDOW_MS })
    }

    /// What the topic tree answers, from what was heard on its subscription.
    pub fn get_topic_tree(&self, heard: &Heard, include_values: Option<bool>) -> (r:
        Result<Json, AdapterError>)
        ensures
            match (heard, r) {
                (Heard::Refused(_), Err(got)) => got@ == envelope::plain_error(
                    ErrorCode::ConnectionError,
                    subscribe_message(),
                ),
                (Heard::Messages(m), Ok(tree)) => tree@ == JsonView::Object(
                    topics::tree_of(
                        topics::leaves(envelope::views(m@), include_values == Some(true)),
                    ),
                ),
                _ => false,
            },
    {
        match heard {
            Heard::Refused(_) => Err(
                AdapterError::plain(ErrorCode::ConnectionError, subscribe_failure()),
            ),
            Heard::Messages(m) => {
                let with_values: bool = match include_values {
                    Some(b) => b,
                    None => false,
                };
                Ok(topics::topic_tree(m, with_values))
            },
        }
    }

    /// What the read of a tag subscribes to: its topic.
    pub fn read_subscription(&self, tag_id: &str) -> (r: Result<Subscription, AdapterError>)
        ensures
            match (self.link(), r) {
                (None, Err(e)) => e@ == not_connected_error(Some(tag_id@)),
                (Some(_), Ok(s)) => s.pattern@ == tag_id@ && s.window_ms == READ_WINDOW_MS,
                _ => false,
            },
    {
        if self.inner.is_none() {
            return Err(not_connected(Some(tag_id)));
        }
        Ok(Subscription { pattern: tag_id.to_owned(), window_ms: READ_WINDOW_MS })
    }

    /// What the read of a tag answers once it has waited.
    pub fn read_tag(&self, feed: &Feed, tag_id: &str, awaited: &Awaited) -> (r: Result<
        Vqt,
        AdapterError,
    >)
        requires
            feed.wf(),
        ensures
            envelope::outcome_view(r) == read_answer(feed@.cache, tag_id@, *awaited),
    {
        match awaited {
            Awaited::Refused(_) => Err(
                AdapterError::on_tag(ErrorCode::ConnectionError, subscribe_failure(), tag_id),
            ),
            Awaited::Message(m) => Ok(connection::message_vqt(m)),
            Awaited::Nothing => match feed.latest_reading(tag_id) {
                Some(cached) => {
                    let mut vqt: Vqt = copy_vqt(cached);
                    vqt.quality = Quality::Uncertain;
                    Ok(vqt)
                },
                None => {
                    let m: String =
                        "No message received within 10 seconds. The topic may not exist or no publisher is active.".to_owned();
                    Err(AdapterError::on_tag(ErrorCode::Timeout, m, tag_id))
                },
            },
        }
    }

    /// MQTT keeps no history: this is the error on every request for one.
    pub fn read_tag_history(&self, tag_id: &str) -> (r: AdapterError)
        ensures
            r@ == envelope::tag_error(
                ErrorCode::HistoryUnavailable,
                "MQTT v3.1.1 does not support native historical data. Bridge to a time-series store to enable read_tag_history."@,
                tag_id@,
            ),
    {
        AdapterError::on_tag(
            ErrorCode::HistoryUnavailable,
            "MQTT v3.1.1 does not support native historical data. Bridge to a time-series store to enable read_tag_history.".to_owned(),
            tag_id,
        )
    }

    /// What a write publishes, or why it is refused.
    pub fn write_tag_request(&self, req: &WriteRequest, timestamp: &str) -> (r: Result<
        (Publication, WriteValue),
        AdapterError,
    >)
        ensures
            match (permitted_write(self.link(), req@), r) {
                (Err(e), Err(got)) => got@ == e,
                (Ok(v), Ok((publication, value))) => {
                    &&& value == v
                    &&& publication.topic@ == req@.tag_id
                    &&& !publication.retain
                    &&& publishes(req@, v, timestamp@, publication.payload)
                },
                _ => false,
            },
    {
        let tag_id: &str = req.tag_id.as_str();
        let conn: &MqttConnection = match &self.inner {
            None => {
                return Err(not_connected(Some(tag_id)));
            },
            Some(c) => c,
        };
        match topology::permission(&conn.topology, tag_id) {
            None => {
                Err(
                    AdapterError::on_tag(
                        ErrorCode::TagNotWritable,
                        "The tag is not in topology write_permissions. Add it to topology.yaml to allow writes.".to_owned(),
                        tag_id,
                    ),
                )
            },
            Some(perm) => match topology::validate_write(
                perm,
                &req.value,
                req.shown.as_str(),
                req.units.as_str(),
                tag_id,
            ) {
                Err(e) => Err(e),
                Ok(value) => {
                    let payload: Payload = write_payload(req, timestamp, Ghost(self.link()));
                    Ok((Publication { topic: tag_id.to_owned(), payload, retain: false }, value))
                },
            },
        }
    }

    /// What the write of a tag answers, from how publishing went.
    pub fn write_tag(
        &self,
        req: WriteRequest,
        value: WriteValue,
        published: Result<(), String>,
        timestamp: String,
    ) -> (r: Result<Written, AdapterError>)
        ensures
            match (published, r) {
                (Ok(_), Ok(w)) => writing::written_by(
                    req@,
                    value,
                    Quality::Good,
                    timestamp@,
                    w@,
                ),
                (Err(_), Err(got)) => got@ == envelope::tag_error(
                    ErrorCode::ConnectionError,
                    tools::failure_message(ErrorCode::ConnectionError, true),
                    req@.tag_id,
                ),
                _ => false,
            },
    {
        match published {
            Ok(_) => Ok(writing::confirm(req, value, Quality::Good, timestamp)),
            Err(_) => {
                let m: String = tools::tell_failure(ErrorCode::ConnectionError, true);
                Err(AdapterError::on_tag(ErrorCode::ConnectionError, m, req.tag_id.as_str()))
            },
        }
    }

    /// The state of the adapter. `uptime_seconds` is how long the connection has been open.
    pub fn get_server_info(&self, feed: &Feed, uptime_seconds: u64) -> (r: ServerInfoResponse)
        ensures
            r@ == server_info(self.link(), feed@.status, feed@.last_error, uptime_seconds),
    {
        match &self.inner {
            None => ServerInfoResponse {
                server_name: "mqtt-mcp".to_owned(),
                protocol: "MQTT".to_owned(),
                protocol_version: "unknown".to_owned(),
                connected: false,
                connection_state: "disconnected".to_owned(),
                capabilities: tools::capabilities("scan", "get_topic_tree"),
                uptime_seconds: 0,
                last_error: None,
            },
            Some(c) => {
                let (connected, connection_state): (bool, String) = match &feed.status {
                    ConnStatus::Connected => (true, "connected".to_owned()),
                    ConnStatus::Connecting => (false, "connecting".to_owned()),
                    ConnStatus::Error(e) => (false, text::cat2("error: ", e.as_str())),
                };
                ServerInfoResponse {
                    server_name: text::cat2(
                        "mqtt-mcp@",
                        tools::host_and_port(c.host.as_str(), c.port).as_str(),
                    ),
                    protocol: "MQTT".to_owned(),
                    protocol_version: c.protocol_version.clone(),
                    connected,
                    connection_state,
                    capabilities: tools::capabilities("scan", "get_topic_tree"),
                    uptime_seconds,
                    last_error: envelope::copy_opt(&feed.last_error),
                }
            },
        }
    }
}

/// What a document holds as a member of an object.
pub open spec fn member_of(document: Option<JsonView>) -> Option<MemberView> {
    match document {
        None => None,
        Some(v) => Some(
            (
                match v.number() {
                    Some(d) => Some(d.bits),
                    None => None,
                },
                v.boolean(),
                v.string(),
            ),
        ),
    }
}

/// The members of a payload document that the adapter reads.
pub open spec fn document_members(document: JsonView) -> PayloadMembersView {
    PayloadMembersView {
        value: member_of(document.member("value"@)),
        quality: member_of(document.member("quality"@)),
        timestamp: member_of(document.member("timestamp"@)),
        units: member_of(document.member("units"@)),
    }
}

proof fn lemma_payload_keys()
    ensures
        "value"@ != "quality"@,
        "value"@ != "timestamp"@,
        "value"@ != "units"@,
        "quality"@ != "timestamp"@,
        "quality"@ != "units"@,
        "timestamp"@ != "units"@,
{
    reveal_strlit("value");
    reveal_strlit("quality");
    reveal_strlit("timestamp");
    reveal_strlit("units");
    assert("value"@.len() == 5);
    assert("quality"@.len() == 7);
    assert("timestamp"@.len() == 9);
    assert("value"@[0] == 'v');
    assert("units"@[0] == 'u');
}

/// Reading back what was written: a payload text whose members are those of the document that a
/// permitted write publishes is read as the value written, of good quality, with the timestamp and
/// the units of the write. Of a boolean or an integer the text that the write publishes is such a
/// text, as the contract of [`MqttMcpServer::write_tag_request`] has it.
pub proof fn law_write_then_read(
    link: Option<MqttConnectionView>,
    req: WriteRequestView,
    timestamp: Seq<char>,
    payload: Seq<char>,
)
    requires
        permitted_write(link, req) is Ok,
        connection::members_of(payload) == document_members(
            payload_document(req.value, timestamp, req.units),
        ),
    ensures
        reads_back(req, permitted_write(link, req)->Ok_0, timestamp, payload),
{
    lemma_payload_keys();
    let members = connection::members_of(payload);
    assert(members.value == member_of(Some(req.value)));
    assert(connection::member_text(members.quality) == Some("good"@));
    assert(connection::member_text(members.timestamp) == Some(timestamp));
    assert(connection::member_text(members.units) == Some(req.units));
}

/// What a permitted write publishes.
fn write_payload(
    req: &WriteRequest,
    timestamp: &str,
    Ghost(link): Ghost<Option<MqttConnectionView>>,
) -> (r: Payload)
    requires
        permitted_write(link, req@) is Ok,
    ensures
        publishes(req@, permitted_write(link, req@)->Ok_0, timestamp@, r),
{
    match as_plain(&req.value) {
        Some(plain) => {
            proof {
                lemma_payload_keys();
            }
            let p: String = connection::object_text(
                ("value", plain),
                ("quality", "good"),
                ("timestamp", timestamp),
                ("units", req.units.as_str()),
            );
            proof {
                let document = payload_document(req@.value, timestamp@, req@.units);
                let members = connection::members_of(p@);
                assert(document.member("value"@) == Some(req@.value));
                assert(document.member("quality"@) == Some(JsonView::Text("good"@)));
                assert(document.member("timestamp"@) == Some(JsonView::Text(timestamp@)));
                assert(document.member("units"@) == Some(JsonView::Text(req@.units)));
                assert(members.value == member_of(Some(req@.value)));
                assert(members == document_members(document));
                law_write_then_read(link, req@, timestamp@, p@);
            }
            Payload::Text(p)
        },
        None => {
            Payload::Document(
                payload(copy_scalar(&req.value), timestamp, req.units.as_str()),
            )
        },
    }
}

/// No write gets through for a tag that no permission names; without a topology none does.
pub proof fn law_unlisted_tags_are_not_writable(c: MqttConnectionView, req: WriteRequestView)
    requires
        !c.topology.write_permissions.contains_key(req.tag_id),
    ensures
        permitted_write(Some(c), req) is Err,
        permitted_write(Some(c), req)->Err_0.code == ErrorCode::TagNotWritable,
{
}

/// A reading from the cache is never passed off as good: a read that waited in vain answers it as
/// uncertain, and with the cached value, timestamp and units.
pub proof fn law_stale_readings_are_uncertain(feed: FeedView, tag_id: Seq<char>)
    ensures
        match read_answer(feed.cache, tag_id, Awaited::Nothing) {
            Ok(v) => {
                &&& feed.cache.contains_key(tag_id)
                &&& v.quality == Quality::Uncertain
                &&& v.value == feed.cache[tag_id].value
                &&& v.timestamp == feed.cache[tag_id].timestamp
                &&& v.units == feed.cache[tag_id].units
            },
            Err(e) => !feed.cache.contains_key(tag_id) && e.code == ErrorCode::Timeout,
        },
{
}

} // verus!
