//! The tools of the OPC UA adapter, as decisions around the session.
use crate::envelope;
use crate::envelope::{
    AdapterError, AdapterErrorView, ConnectResponse, ConnectResponseView, DisconnectResponse,
    DisconnectResponseView, ErrorCode, Quality, ServerInfoResponse, ServerInfoView, TagDescriptor,
    Vqt, VqtView, WriteValue,
};
use crate::json::{Json, JsonView};
use crate::opcua::browse::FlatBrowse;
use crate::opcua::browse;
use crate::opcua::connection;
use crate::opcua::connection::{
    DataReading, HistoryReadDetails, HistoryReadValueId, HistoryReading, OpcUaConnection,
    OpcUaConnectionView, OpcWriteValue, ReadValueId,
};
use crate::opcua::nodes;
use crate::opcua::nodes::{NodeId, NodeIdView};
use crate::opcua::tree;
use crate::opcua::tree::TreeBrowse;
use crate::text;
use crate::tools;
use crate::topology;
use crate::topology::TopologyConfig;
use crate::writing;
use crate::writing::{WriteRequest, WriteRequestView, Written};
use vstd::prelude::*;

verus! {

/// The error of a tool that needs a session.
pub open spec fn not_connected_error(tag_id: Option<Seq<char>>) -> AdapterErrorView {
    AdapterErrorView {
        code: ErrorCode::ConnectionError,
        message: "not connected — call connect first"@,
        tag_id,
    }
}

/// The error of a tool that needs a session.
pub fn not_connected(tag_id: Option<&str>) -> (r: AdapterError)
    ensures
        r@ == not_connected_error(
            match tag_id {
                Some(t) => Some(t@),
                None => None,
            },
        ),
{
    AdapterError {
        code: ErrorCode::ConnectionError,
        message: "not connected — call connect first".to_owned(),
        tag_id: match tag_id {
            Some(t) => Some(t.to_owned()),
            None => None,
        },
    }
}

/// The error of a tool whose request the server refused. Its status stays out of the message.
pub open spec fn request_error(tag_id: Seq<char>, is_write: bool) -> AdapterErrorView {
    envelope::tag_error(
        ErrorCode::ConnectionError,
        tools::failure_message(ErrorCode::ConnectionError, is_write),
        tag_id,
    )
}

/// The error of a tool whose request the server refused.
pub fn opc_err(tag_id: &str, is_write: bool) -> (r: AdapterError)
    ensures
        r@ == request_error(tag_id@, is_write),
{
    let m: String = tools::tell_failure(ErrorCode::ConnectionError, is_write);
    AdapterError::on_tag(ErrorCode::ConnectionError, m, tag_id)
}

/// How messages are protected.
#[derive(Debug, Clone, Copy, PartialEq, Eq, Structural)]
pub enum SecurityMode {
    Unsecured,
    Sign,
    SignAndEncrypt,
}

/// Who the client is to the server.
#[derive(Debug)]
pub enum Identity {
    Anonymous,
    UserName { user: String, password: String },
}

/// The model of an [`Identity`].
pub enum IdentityView {
    Anonymous,
    UserName { user: Seq<char>, password: Seq<char> },
}

impl View for Identity {
    type V = IdentityView;

    open spec fn view(&self) -> IdentityView {
        match *self {
            Identity::Anonymous => IdentityView::Anonymous,
            Identity::UserName { user, password } => IdentityView::UserName {
                user: user@,
                password: password@,
            },
        }
    }
}

/// How a session is to be set up.
#[derive(Debug)]
pub struct SessionSettings {
    pub endpoint_url: String,
    pub security_mode: SecurityMode,
    pub security_policy: String,
    pub identity: Identity,
    /// How long setting up the session may take, and how long an idle session lives.
    pub timeout_ms: u32,
    /// Whether any certificate of the server is accepted.
    pub trust_server_certs: bool,
    /// Whether the client gets a certificate of its own.
    pub create_sample_keypair: bool,
}

/// The model of [`SessionSettings`].
pub struct SessionSettingsView {
    pub endpoint_url: Seq<char>,
    pub security_mode: SecurityMode,
    pub security_policy: Seq<char>,
    pub identity: IdentityView,
    pub timeout_ms: u32,
    pub trust_server_certs: bool,
    pub create_sample_keypair: bool,
}

impl View for SessionSettings {
    type V = SessionSettingsView;

    open spec fn view(&self) -> SessionSettingsView {
        SessionSettingsView {
            endpoint_url: self.endpoint_url@,
            security_mode: self.security_mode,
            security_policy: self.security_policy@,
            identity: self.identity@,
            timeout_ms: self.timeout_ms,
            trust_server_certs: self.trust_server_certs,
            create_sample_keypair: self.create_sample_keypair,
        }
    }
}

/// The endpoint to connect to: the host itself if it is a URL, else one made of host and port.
pub open spec fn endpoint_of(host: Seq<char>, port: Option<u16>) -> Seq<char> {
    if "opc.tcp://"@.is_prefix_of(host) {
        host
    } else {
        "opc.tcp://"@ + tools::endpoint(
            host,
            match port {
                Some(p) => p,
                None => 4840,
            },
        )
    }
}

/// The security mode that the options name: none unless they name another one.
pub open spec fn mode_in(options: Option<JsonView>) -> SecurityMode {
    match tools::text_option(options, "security_mode"@) {
        Some(m) => if m == "Sign"@ {
            SecurityMode::Sign
        } else if m == "SignAndEncrypt"@ {
            SecurityMode::SignAndEncrypt
        } else {
            SecurityMode::Unsecured
        },
        None => SecurityMode::Unsecured,
    }
}

/// The settings that a connect asks for, with the defaults for what is not given. Without message
/// security no certificate is looked at, and the client needs none.
pub open spec fn settings_of(
    host: Seq<char>,
    port: Option<u16>,
    timeout_ms: Option<u32>,
    options: Option<JsonView>,
) -> SessionSettingsView {
    SessionSettingsView {
        endpoint_url: endpoint_of(host, port),
        security_mode: mode_in(options),
        security_policy: match tools::text_option(options, "security_policy"@) {
            Some(p) => p,
            None => "None"@,
        },
        identity: match tools::text_option(options, "username"@) {
            Some(user) => IdentityView::UserName {
                user,
                password: match tools::text_option(options, "password"@) {
                    Some(p) => p,
                    None => Seq::empty(),
                },
            },
            None => IdentityView::Anonymous,
        },
        timeout_ms: match timeout_ms {
            Some(ms) => ms,
            None => 10000,
        },
        trust_server_certs: mode_in(options) is Unsecured,
        create_sample_keypair: !(mode_in(options) is Unsecured),
    }
}

/// The settings that a connect asks for, with the defaults for what is not given.
pub fn session_settings(
    host: &str,
    port: Option<u16>,
    timeout_ms: Option<u32>,
    options: &Option<Json>,
) -> (r: SessionSettings)
    ensures
        r@ == settings_of(host@, port, timeout_ms, tools::opt_json(*options)),
{
    let endpoint_url: String = if text::starts_with(host, "opc.tcp://") {
        host.to_owned()
    } else {
        let port: u16 = match port {
            Some(p) => p,
            None => 4840,
        };
        text::cat2("opc.tcp://", tools::host_and_port(host, port).as_str())
    };
    let security_mode: SecurityMode = match tools::opt_str(options, "security_mode") {
        Some(m) => if text::same(m, "Sign") {
            SecurityMode::Sign
        } else if text::same(m, "SignAndEncrypt") {
            SecurityMode::SignAndEncrypt
        } else {
            SecurityMode::Unsecured
        },
        None => SecurityMode::Unsecured,
    };
    let security_policy: String = match tools::opt_str(options, "security_policy") {
        Some(p) => p.to_owned(),
        None => "None".to_owned(),
    };
    let identity: Identity = match tools::opt_str(options, "username") {
        Some(u) => {
            let password: String = match tools::opt_str(options, "password") {
                Some(p) => p.to_owned(),
                None => String::new(),
            };
            Identity::UserName { user: u.to_owned(), password }
        },
        None => Identity::Anonymous,
    };
    let timeout_ms: u32 = match timeout_ms {
        Some(ms) => ms,
        None => 10000,
    };
    SessionSettings {
        endpoint_url,
        security_mode,
        security_policy,
        identity,
        timeout_ms,
        trust_server_certs: security_mode == SecurityMode::Unsecured,
        create_sample_keypair: security_mode != SecurityMode::Unsecured,
    }
}

/// How setting up a session went.
#[derive(Debug)]
pub enum ConnectAttempt {
    Connected,
    /// The client could not be made.
    NotBuilt(String),
    /// The server could not be reached, or refused.
    Refused(String),
    /// There was no session within the timeout.
    TimedOut,
}

/// The error on setting up a session, if that failed.
pub open spec fn connect_failure(attempt: ConnectAttempt) -> Option<AdapterErrorView> {
    match attempt {
        ConnectAttempt::Connected => None,
        ConnectAttempt::NotBuilt(_) => Some(
            envelope::plain_error(ErrorCode::ConnectionError, "failed to build OPC-UA client"@),
        ),
        ConnectAttempt::Refused(_) => Some(
            envelope::plain_error(
                ErrorCode::ConnectionError,
                "failed to connect to OPC-UA server"@,
            ),
        ),
        ConnectAttempt::TimedOut => Some(
            envelope::plain_error(
                ErrorCode::Timeout,
                "the connection to the OPC-UA server timed out"@,
            ),
        ),
    }
}

/// What came back on a request: values, or the status with which the server refused.
pub type Reply<T> = Result<Vec<T>, u32>;

/// The error on a node that the server does not have.
pub open spec fn unknown_node_error(tag_id: Seq<char>) -> AdapterErrorView {
    envelope::tag_error(
        ErrorCode::TagNotFound,
        tools::failure_message(ErrorCode::TagNotFound, false),
        tag_id,
    )
}

/// Whether `r` is what the read of a tag answers.
pub open spec fn reads_tag(
    tag_id: Seq<char>,
    units: Seq<char>,
    reply: Reply<DataReading>,
    r: Result<VqtView, AdapterErrorView>,
) -> bool {
    match reply {
        Err(_) => r == Err::<VqtView, AdapterErrorView>(request_error(tag_id, false)),
        Ok(readings) => if readings@.len() == 0 {
            r == Err::<VqtView, AdapterErrorView>(
                envelope::tag_error(
                    ErrorCode::TagNotFound,
                    "The server returned no result."@,
                    tag_id,
                ),
            )
        } else if readings@.last().status == Some(connection::BAD_NODE_ID_UNKNOWN) {
            r == Err::<VqtView, AdapterErrorView>(unknown_node_error(tag_id))
        } else {
            r is Ok && connection::envelopes_now(tag_id, readings@.last(), units, r->Ok_0)
        },
    }
}

/// A request for the past of a node.
#[derive(Debug)]
pub struct HistoryRequest {
    pub details: HistoryReadDetails,
    pub node: HistoryReadValueId,
}

/// The error on a time that cannot be read.
pub open spec fn bad_time_error(time: Seq<char>, tag_id: Seq<char>) -> AdapterErrorView {
    envelope::tag_error(
        ErrorCode::InvalidValue,
        "'"@ + time + "' is not a valid ISO 8601 timestamp"@,
        tag_id,
    )
}

/// The error on a history that the server does not hand out. Its status stays out of the message.
pub open spec fn no_history_error(tag_id: Seq<char>) -> AdapterErrorView {
    envelope::tag_error(
        ErrorCode::HistoryUnavailable,
        tools::failure_message(ErrorCode::HistoryUnavailable, false),
        tag_id,
    )
}

fn no_history(tag_id: &str) -> (r: AdapterError)
    ensures
        r@ == no_history_error(tag_id@),
{
    let m: String = tools::tell_failure(ErrorCode::HistoryUnavailable, false);
    AdapterError::on_tag(ErrorCode::HistoryUnavailable, m, tag_id)
}

/// The readings of the answers that pass the filter, in their order.
pub open spec fn kept(answers: Seq<HistoryReading>, filter: Option<Seq<char>>) -> Seq<DataReading>
    decreases answers.len(),
{
    if answers.len() == 0 {
        Seq::empty()
    } else {
        kept(answers.drop_last(), filter) + passing(answers.last().data@, filter)
    }
}

/// The readings that pass the filter, in their order.
pub open spec fn passing(readings: Seq<DataReading>, filter: Option<Seq<char>>) -> Seq<DataReading> {
    readings.filter(
        |d: DataReading| connection::quality_passes(filter, connection::quality_of(d.status)),
    )
}

/// Whether the envelopes are those of the readings, one by one.
pub open spec fn envelope_each(
    readings: Seq<DataReading>,
    tag_id: Seq<char>,
    units: Seq<char>,
    r: Seq<Vqt>,
) -> bool {
    &&& r.len() == readings.len()
    &&& forall|i: int|
        0 <= i < r.len() ==> connection::envelopes_now(
            tag_id,
            readings[i],
            units,
            (#[trigger] r[i])@,
        )
}

/// Whether no answer tells of failure.
pub open spec fn none_bad(answers: Seq<HistoryReading>) -> bool {
    forall|i: int|
        0 <= i < answers.len() ==> !connection::bad_status((#[trigger] answers[i]).status)
}

/// The most readings to answer with: a thousand if nothing else is asked for.
pub open spec fn point_limit(max_points: Option<u32>) -> nat {
    match max_points {
        Some(n) => n as nat,
        None => 1000,
    }
}

/// The first readings, as many as the limit allows.
pub open spec fn limited(readings: Seq<DataReading>, limit: nat) -> Seq<DataReading> {
    if readings.len() <= limit {
        readings
    } else {
        readings.take(limit as int)
    }
}

/// Whether `r` is what the read of a tag's past answers: the readings that pass the filter, as many
/// as were asked for. A failure in any answer counts for all.
pub open spec fn reads_history(
    tag_id: Seq<char>,
    units: Seq<char>,
    filter: Option<Seq<char>>,
    max_points: Option<u32>,
    reply: Reply<HistoryReading>,
    r: Result<Vec<Vqt>, AdapterError>,
) -> bool {
    match (reply, r) {
        (Ok(answers), Ok(vqts)) => {
            &&& none_bad(answers@)
            &&& envelope_each(
                limited(kept(answers@, filter), point_limit(max_points)),
                tag_id,
                units,
                vqts@,
            )
        },
        (Ok(answers), Err(e)) => !none_bad(answers@) && e@ == no_history_error(tag_id),
        (Err(_), Err(e)) => e@ == no_history_error(tag_id),
        (Err(_), Ok(_)) => false,
    }
}

/// The value that a request may write, or why it may not.
pub open spec fn permitted_write(
    link: Option<OpcUaConnectionView>,
    req: WriteRequestView,
) -> Result<WriteValue, AdapterErrorView> {
    match link {
        None => Err(not_connected_error(Some(req.tag_id))),
        Some(c) => if !c.topology.write_permissions.contains_key(req.tag_id) {
            Err(
                envelope::tag_error(
                    ErrorCode::TagNotWritable,
                    "the tag is not in write_permissions — add it to topology.yaml to enable writes"@,
                    req.tag_id,
                ),
            )
        } else {
            topology::validated(
                c.topology.write_permissions[req.tag_id],
                req.value,
                req.shown,
                req.units,
                req.tag_id,
            )
        },
    }
}

/// The error on a write that the server turned down. Its status stays out of the message.
pub open spec fn rejected_error(code: u32, tag_id: Seq<char>) -> AdapterErrorView {
    envelope::tag_error(
        connection::write_error_code(code),
        tools::failure_message(connection::write_error_code(code), true),
        tag_id,
    )
}

/// The adapter: the plain part of its session, if it has one.
#[derive(Debug)]
pub struct OpcUaMcpServer {
    pub inner: Option<OpcUaConnection>,
}

/// The state of the adapter.
pub open spec fn server_info(link: Option<OpcUaConnectionView>, uptime_seconds: u64) -> ServerInfoView {
    let capabilities = tools::tool_names("browse"@, "get_node_tree"@);
    match link {
        None => ServerInfoView {
            server_name: Seq::empty(),
            protocol: "OPC-UA"@,
            protocol_version: Seq::empty(),
            connected: false,
            connection_state: "disconnected"@,
            capabilities,
            uptime_seconds: 0,
            last_error: None,
        },
        Some(c) => ServerInfoView {
            server_name: c.server_name,
            protocol: "OPC-UA"@,
            protocol_version: c.protocol_version,
            connected: true,
            connection_state: "connected"@,
            capabilities,
            uptime_seconds,
            last_error: None,
        },
    }
}

/// A depth as asked for, within its default and its limit.
pub open spec fn depth_of(depth: Option<u32>, default: u32, limit: u32) -> u32 {
    let d = match depth {
        Some(d) => d,
        None => default,
    };
    if d < limit {
        d
    } else {
        limit
    }
}

fn limited_depth(depth: Option<u32>, default: u32, limit: u32) -> (r: u32)
    ensures
        r == depth_of(depth, default, limit),
{
    let d: u32 = match depth {
        Some(d) => d,
        None => default,
    };
    if d < limit {
        d
    } else {
        limit
    }
}

/// Where a browse starts: at the node named, else at the default.
pub open spec fn start_node(node_id: Option<Seq<char>>, default: NodeIdView) -> Result<
    NodeIdView,
    AdapterErrorView,
> {
    match node_id {
        Some(s) => nodes::node_or_error(s, nodes::node_id_of(s)),
        None => Ok(default),
    }
}

fn resolve_start(node_id: Option<&str>, default: u32) -> (r: Result<NodeId, AdapterError>)
    ensures
        envelope::outcome_view(r) == start_node(
            match node_id {
                Some(s) => Some(s@),
                None => None,
            },
            nodes::numbered(0, default),
        ),
{
    match node_id {
        Some(s) => nodes::parse_node_id(s),
        None => Ok(NodeId::numeric(0, default)),
    }
}

impl OpcUaMcpServer {
    /// The model of the session.
    pub open spec fn link(self) -> Option<OpcUaConnectionView> {
        match self.inner {
            Some(c) => Some(c@),
            None => None,
        }
    }

    /// An adapter without a session.
    pub fn new() -> (r: OpcUaMcpServer)
        ensures
            r.link() is None,
    {
        OpcUaMcpServer { inner: None }
    }

    /// What a connect answers, from how setting up the session went. The session that was open
    /// before is gone in any case.
    pub fn connect(
        &mut self,
        endpoint_url: String,
        attempt: ConnectAttempt,
        tried: Vec<Option<TopologyConfig>>,
        timestamp: String,
    ) -> (r: Result<ConnectResponse, AdapterError>)
        ensures
            match connect_failure(attempt) {
                Some(e) => {
                    &&& envelope::outcome_view(r) == Err::<ConnectResponseView, AdapterErrorView>(e)
                    &&& final(self).link() is None
                },
                None => {
                    &&& envelope::outcome_view(r) == Ok::<ConnectResponseView, AdapterErrorView>(
                        ConnectResponseView {
                            connected: true,
                            server_name: endpoint_url@,
                            protocol_version: "1.05"@,
                            timestamp: timestamp@,
                        },
                    )
                    &&& final(self).link() == Some(
                        OpcUaConnectionView {
                            endpoint_url: endpoint_url@,
                            server_name: endpoint_url@,
                            protocol_version: "1.05"@,
                            topology: topology::first_loaded(tried@),
                        },
                    )
                },
            },
    {
        self.inner = None;
        match attempt {
            ConnectAttempt::NotBuilt(_) => Err(
                AdapterError::plain(
                    ErrorCode::ConnectionError,
                    "failed to build OPC-UA client".to_owned(),
                ),
            ),
            ConnectAttempt::Refused(_) => Err(
                AdapterError::plain(
                    ErrorCode::ConnectionError,
                    "failed to connect to OPC-UA server".to_owned(),
                ),
            ),
            ConnectAttempt::TimedOut => Err(
                AdapterError::plain(
                    ErrorCode::Timeout,
                    "the connection to the OPC-UA server timed out".to_owned(),
                ),
            ),
            ConnectAttempt::Connected => {
                let resp = ConnectResponse {
                    connected: true,
                    server_name: endpoint_url.clone(),
                    protocol_version: "1.05".to_owned(),
                    timestamp,
                };
                self.inner = Some(
                    OpcUaConnection {
                        endpoint_url,
                        server_name: resp.server_name.clone(),
                        protocol_version: resp.protocol_version.clone(),
                        topology: topology::load_topology(tried),
                    },
                );
                Ok(resp)
            },
        }
    }

    /// Drops the session, if there is one.
    pub fn disconnect(&mut self, timestamp: String) -> (r: DisconnectResponse)
        ensures
            r@ == (DisconnectResponseView { disconnected: true, timestamp: timestamp@ }),
            final(self).link() is None,
    {
        self.inner = None;
        DisconnectResponse { disconnected: true, timestamp }
    }

    /// The configured tags that pass the filters.
    pub fn discover_tags(
        &self,
        process_area: &Option<String>,
        equipment_id: &Option<String>,
    ) -> (r: Result<Vec<TagDescriptor>, AdapterError>)
        ensures
            match (self.link(), r) {
                (None, Err(e)) => e@ == not_connected_error(None),
                (Some(c), Ok(tags)) => envelope::views(tags@) == topology::selected(
                    topology::described(c.topology.tags),
                    envelope::opt_text(*process_area),
                    envelope::opt_text(*equipment_id),
                ),
                _ => false,
            },
    {
        match &self.inner {
            None => Err(not_connected(None)),
            Some(c) => Ok(topology::discover_tags(&c.topology, process_area, equipment_id)),
        }
    }

    /// The browse that is asked for: from the objects folder unless another node is named, one level
    /// deep unless more are asked for, and at most five.
    pub fn browse(&self, node_id: Option<&str>, depth: Option<u32>) -> (r: Result<
        FlatBrowse,
        AdapterError,
    >)
        ensures
            self.link() is None ==> r is Err && r->Err_0@ == not_connected_error(None),
            self.link() is Some ==> match (
                start_node(
                    match node_id {
                        Some(s) => Some(s@),
                        None => None,
                    },
                    nodes::numbered(0, 85),
                ),
                r,
            ) {
                (Ok(start), Ok(b)) => b.wf() && b@ == browse::flat_start(
                    start,
                    depth_of(depth, 1, 5) as nat,
                ),
                (Err(e), Err(got)) => got@ == e,
                _ => false,
            },
    {
        if self.inner.is_none() {
            return Err(not_connected(None));
        }
        match resolve_start(node_id, 85) {
            Err(e) => Err(e),
            Ok(start) => Ok(FlatBrowse::new(start, limited_depth(depth, 1, 5))),
        }
    }

    /// The walk that is asked for: from the root folder unless another node is named, three levels
    /// deep unless other is asked for, and at most six.
    pub fn get_node_tree(
        &self,
        root_node: Option<&str>,
        depth: Option<u32>,
        include_values: Option<bool>,
    ) -> (r: Result<TreeBrowse, AdapterError>)
        ensures
            self.link() is None ==> r is Err && r->Err_0@ == not_connected_error(None),
            self.link() is Some ==> match (
                start_node(
                    match root_node {
                        Some(s) => Some(s@),
                        None => None,
                    },
                    nodes::numbered(0, 84),
                ),
                r,
            ) {
                (Ok(root), Ok(b)) => {
                    &&& b.wf()
                    &&& tree::settled(b@.step)
                    &&& b@.asked == 0
                    &&& tree::over_when_answered(b@)
                    &&& tree::comes_to(
                        b@,
                        root,
                        depth_of(depth, 3, 6) as nat,
                        include_values == Some(true),
                    )
                },
                (Err(e), Err(got)) => got@ == e,
                _ => false,
            },
    {
        if self.inner.is_none() {
            return Err(not_connected(None));
        }
        let with_values: bool = match include_values {
            Some(b) => b,
            None => false,
        };
        match resolve_start(root_node, 84) {
            Err(e) => Err(e),
            Ok(root) => Ok(TreeBrowse::new(root, limited_depth(depth, 3, 6), with_values)),
        }
    }

    /// The request that reads a tag, and the tag's units.
    pub fn read_tag_request(&self, tag_id: &str) -> (r: Result<(ReadValueId, String), AdapterError>)
        ensures
            match (self.link(), r) {
                (None, Err(e)) => e@ == not_connected_error(Some(tag_id@)),
                (None, Ok(_)) => false,
                (Some(c), Ok((request, units))) => {
                    &&& nodes::node_id_of(tag_id@) == Some(request.node_id@)
                    &&& request.attribute_id == connection::VALUE_ATTRIBUTE
                    &&& units@ == topology::units_of(c.topology.tags, tag_id@)
                },
                (Some(_), Err(e)) => nodes::node_or_error(tag_id@, nodes::node_id_of(tag_id@))
                    == Err::<NodeIdView, AdapterErrorView>(e@),
            },
    {
        match &self.inner {
            None => Err(not_connected(Some(tag_id))),
            Some(c) => {
                let units: String = topology::tag_units(&c.topology, tag_id);
                match nodes::parse_node_id(tag_id) {
                    Err(e) => Err(e),
                    Ok(n) => Ok((connection::make_read_value_id(n), units)),
                }
            },
        }
    }

    /// What the read of a tag answers, from what came back on its request. A node that the server
    /// does not have is an error; any other bad reading is a reading of bad quality.
    pub fn read_tag(&self, tag_id: &str, units: &str, reply: Reply<DataReading>) -> (r: Result<
        Vqt,
        AdapterError,
    >)
        ensures
            reads_tag(tag_id@, units@, reply, envelope::outcome_view(r)),
    {
        match reply {
            Err(_) => Err(opc_err(tag_id, false)),
            Ok(readings) => {
                if readings.len() == 0 {
                    let m: String = "The server returned no result.".to_owned();
                    return Err(AdapterError::on_tag(ErrorCode::TagNotFound, m, tag_id));
                }
                let dv: &DataReading = &readings[readings.len() - 1];
                if connection::is_node_id_unknown(dv.status) {
                    let m: String = tools::tell_failure(ErrorCode::TagNotFound, false);
                    return Err(AdapterError::on_tag(ErrorCode::TagNotFound, m, tag_id));
                }
                Ok(connection::data_value_to_vqt(tag_id, dv, units))
            },
        }
    }

    /// The request for the past of a tag, and the tag's units.
    pub fn read_tag_history_request(
        &self,
        tag_id: &str,
        start_time: &str,
        end_time: &str,
        max_points: Option<u32>,
    ) -> (r: Result<(HistoryRequest, String), AdapterError>)
        ensures
            match history_refused(self.link(), tag_id@, start_time@, end_time@) {
                Some(e) => r is Err && r->Err_0@ == e,
                None => match r {
                    Ok((request, units)) => {
                        &&& nodes::node_id_of(tag_id@) == Some(request.node.node_id@)
                        &&& request.details == (HistoryReadDetails {
                            is_read_modified: false,
                            start_time: connection::ticks_of(start_time@)->0,
                            end_time: connection::ticks_of(end_time@)->0,
                            num_values_per_node: match max_points {
                                Some(n) => n,
                                None => 1000,
                            },
                            return_bounds: false,
                        })
                        &&& units@ == topology::units_of(self.link()->0.topology.tags, tag_id@)
                    },
                    Err(_) => false,
                },
            },
    {
        let conn: &OpcUaConnection = match &self.inner {
            None => {
                return Err(not_connected(Some(tag_id)));
            },
            Some(c) => c,
        };
        let units: String = topology::tag_units(&conn.topology, tag_id);
        let node_id: NodeId = match nodes::parse_node_id(tag_id) {
            Err(e) => {
                return Err(e);
            },
            Ok(n) => n,
        };
        let start: i64 = match connection::parse_time(start_time) {
            None => {
                return Err(bad_time(start_time, tag_id));
            },
            Some(t) => t,
        };
        let end: i64 = match connection::parse_time(end_time) {
            None => {
                return Err(bad_time(end_time, tag_id));
            },
            Some(t) => t,
        };
        let max_points: u32 = match max_points {
            Some(n) => n,
            None => 1000,
        };
        let details: HistoryReadDetails = connection::make_history_read_details(
            start,
            end,
            max_points,
        );
        let node: HistoryReadValueId = connection::make_history_value_id(node_id);
        Ok((HistoryRequest { details, node }, units))
    }

    /// What the read of a tag's past answers, from what came back on its request. A server may hand
    /// out more than it was asked for: no more than `max_points` readings are answered, a thousand
    /// if that is not given.
    pub fn read_tag_history(
        &self,
        tag_id: &str,
        units: &str,
        quality_filter: &Option<String>,
        max_points: Option<u32>,
        reply: Reply<HistoryReading>,
    ) -> (r: Result<Vec<Vqt>, AdapterError>)
        ensures
            reads_history(
                tag_id@,
                units@,
                envelope::opt_text(*quality_filter),
                max_points,
                reply,
                r,
            ),
    {
        let answers: Vec<HistoryReading> = match reply {
            Err(_) => {
                return Err(no_history(tag_id));
            },
            Ok(a) => a,
        };
        let ghost filter = envelope::opt_text(*quality_filter);
        let mut vqts: Vec<Vqt> = Vec::new();
        let mut i: usize = 0;
        while i < answers.len()
            invariant
                i <= answers.len(),
                reply == Ok::<Vec<HistoryReading>, u32>(answers),
                filter == envelope::opt_text(*quality_filter),
                forall|j: int|
                    0 <= j < i ==> !connection::bad_status((#[trigger] answers@[j]).status),
                envelope_each(kept(answers@.take(i as int), filter), tag_id@, units@, vqts@),
            decreases answers.len() - i,
        {
            let hr: &HistoryReading = &answers[i];
            if connection::is_bad(hr.status) {
                assert(!none_bad(answers@));
                return Err(no_history(tag_id));
            }
            proof {
                assert(answers@.take(i + 1).drop_last() == answers@.take(i as int));
                assert(answers@.take(i + 1).last() == *hr);
            }
            append_passing(&hr.data, quality_filter, tag_id, units, &mut vqts);
            i = i + 1;
        }
        assert(answers@.take(answers@.len() as int) == answers@);
        let limit: usize = match max_points {
            Some(n) => n as usize,
            None => 1000,
        };
        let ghost all = kept(answers@, filter);
        assert(all.take(vqts@.len() as int) == all);
        while vqts.len() > limit
            invariant
                vqts@.len() <= all.len(),
                limit == point_limit(max_points),
                limit < all.len() ==> limit <= vqts@.len(),
                limit >= all.len() ==> vqts@.len() == all.len(),
                envelope_each(all.take(vqts@.len() as int), tag_id@, units@, vqts@),
            decreases vqts.len(),
        {
            let ghost was = vqts@;
            let _ = vqts.pop();
            assert forall|k: int| 0 <= k < vqts@.len() implies connection::envelopes_now(
                tag_id@,
                all.take(vqts@.len() as int)[k],
                units@,
                (#[trigger] vqts@[k])@,
            ) by {
                assert(vqts@[k] == was[k]);
                assert(all.take(was.len() as int)[k] == all[k]);
            }
        }
        assert(all.take(vqts@.len() as int) == limited(all, point_limit(max_points)));
        Ok(vqts)
    }

    /// What a write sends to the server, or why it is refused.
    pub fn write_tag_request(&self, req: &WriteRequest) -> (r: Result<
        (OpcWriteValue, WriteValue),
        AdapterError,
    >)
        ensures
            match (permitted_write(self.link(), req@), r) {
                (Err(e), Err(got)) => got@ == e,
                (Err(_), Ok(_)) => false,
                (Ok(v), Ok((request, value))) => {
                    &&& value == v
                    &&& nodes::node_id_of(req@.tag_id) == Some(request.node_id@)
                    &&& request.attribute_id == connection::VALUE_ATTRIBUTE
                    &&& request.value == connection::wire_value(v)
                },
                (Ok(_), Err(got)) => nodes::node_or_error(
                    req@.tag_id,
                    nodes::node_id_of(req@.tag_id),
                ) == Err::<NodeIdView, AdapterErrorView>(got@),
            },
    {
        let tag_id: &str = req.tag_id.as_str();
        let conn: &OpcUaConnection = match &self.inner {
            None => {
                return Err(not_connected(Some(tag_id)));
            },
            Some(c) => c,
        };
        match topology::permission(&conn.topology, tag_id) {
            None => {
                Err(
                    AdapterError::on_tag(
                        ErrorCode::TagNotWritable,
                        "the tag is not in write_permissions — add it to topology.yaml to enable writes".to_owned(),
                        tag_id,
                    ),
                )
            },
            Some(perm) => match connection::validate_write(
                perm,
                &req.value,
                req.shown.as_str(),
                req.units.as_str(),
                tag_id,
            ) {
                Err(e) => Err(e),
                Ok((variant, value)) => match nodes::parse_node_id(tag_id) {
                    Err(e) => Err(e),
                    Ok(n) => Ok((connection::make_opc_write_value(n, variant), value)),
                },
            },
        }
    }

    /// What the write of a tag answers, from the status codes that came back on its request.
    pub fn write_tag(
        &self,
        req: WriteRequest,
        value: WriteValue,
        reply: Reply<u32>,
        timestamp: String,
    ) -> (r: Result<Written, AdapterError>)
        ensures
            match reply {
                Err(_) => r is Err && r->Err_0@ == request_error(req@.tag_id, true),
                Ok(codes) => if codes@.len() > 0 && connection::bad_status(codes@[0]) {
                    r is Err && r->Err_0@ == rejected_error(codes@[0], req@.tag_id)
                } else {
                    r is Ok && writing::written_by(
                        req@,
                        value,
                        connection::quality_of(
                            if codes@.len() > 0 {
                                Some(codes@[0])
                            } else {
                                None
                            },
                        ),
                        timestamp@,
                        r->Ok_0@,
                    )
                },
            },
    {
        let tag_id: &str = req.tag_id.as_str();
        let codes: Vec<u32> = match reply {
            Err(_) => {
                return Err(opc_err(tag_id, true));
            },
            Ok(c) => c,
        };
        let first: Option<u32> = if codes.len() > 0 {
            Some(codes[0])
        } else {
            None
        };
        if let Some(code) = first {
            if connection::is_bad(code) {
                let mapped: ErrorCode = connection::map_write_status_code(code);
                let m: String = tools::tell_failure(mapped, true);
                return Err(AdapterError::on_tag(mapped, m, tag_id));
            }
        }
        let quality: Quality = connection::status_code_to_quality(first);
        Ok(writing::confirm(req, value, quality, timestamp))
    }

    /// The state of the adapter. `uptime_seconds` is how long the session has been open.
    pub fn get_server_info(&self, uptime_seconds: u64) -> (r: ServerInfoResponse)
        ensures
            r@ == server_info(self.link(), uptime_seconds),
    {
        match &self.inner {
            None => ServerInfoResponse {
                server_name: String::new(),
                protocol: "OPC-UA".to_owned(),
                protocol_version: String::new(),
                connected: false,
                connection_state: "disconnected".to_owned(),
                capabilities: tools::capabilities("browse", "get_node_tree"),
                uptime_seconds: 0,
                last_error: None,
            },
            Some(c) => ServerInfoResponse {
                server_name: c.server_name.clone(),
                protocol: "OPC-UA".to_owned(),
                protocol_version: c.protocol_version.clone(),
                connected: true,
                connection_state: "connected".to_owned(),
                capabilities: tools::capabilities("browse", "get_node_tree"),
                uptime_seconds,
                last_error: None,
            },
        }
    }
}

/// Why a request for the past of a tag is refused, if it is.
pub open spec fn history_refused(
    link: Option<OpcUaConnectionView>,
    tag_id: Seq<char>,
    start_time: Seq<char>,
    end_time: Seq<char>,
) -> Option<AdapterErrorView> {
    if link is None {
        Some(not_connected_error(Some(tag_id)))
    } else {
        match nodes::node_or_error(tag_id, nodes::node_id_of(tag_id)) {
            Err(e) => Some(e),
            Ok(_) => if connection::ticks_of(start_time) is None {
                Some(bad_time_error(start_time, tag_id))
            } else if connection::ticks_of(end_time) is None {
                Some(bad_time_error(end_time, tag_id))
            } else {
                None
            },
        }
    }
}

fn bad_time(time: &str, tag_id: &str) -> (r: AdapterError)
    ensures
        r@ == bad_time_error(time@, tag_id@),
{
    let m: String = text::cat3("'", time, "' is not a valid ISO 8601 timestamp");
    AdapterError::on_tag(ErrorCode::InvalidValue, m, tag_id)
}

fn passes(filter: &Option<String>, quality: Quality) -> (r: bool)
    ensures
        r == connection::quality_passes(envelope::opt_text(*filter), quality),
{
    match filter {
        None => true,
        Some(f) => if text::same(f.as_str(), "good") {
            quality == Quality::Good
        } else if text::same(f.as_str(), "uncertain") {
            quality == Quality::Uncertain
        } else if text::same(f.as_str(), "bad") {
            quality == Quality::Bad
        } else {
            true
        },
    }
}

/// Adds the envelopes of the readings that pass the filter.
fn append_passing(
    data: &Vec<DataReading>,
    filter: &Option<String>,
    tag_id: &str,
    units: &str,
    vqts: &mut Vec<Vqt>,
)
    ensures
        forall|before: Seq<DataReading>| #[trigger]
            envelope_each(before, tag_id@, units@, old(vqts)@) ==> envelope_each(
                before + passing(data@, envelope::opt_text(*filter)),
                tag_id@,
                units@,
                final(vqts)@,
            ),
{
    let ghost f = envelope::opt_text(*filter);
    let ghost pred = |d: DataReading|
        connection::quality_passes(f, connection::quality_of(d.status));
    let ghost was = vqts@;
    let mut i: usize = 0;
    proof {
        reveal(Seq::filter);
        assert(data@.take(0).filter(pred) == Seq::<DataReading>::empty());
        assert forall|before: Seq<DataReading>| #[trigger]
            envelope_each(before, tag_id@, units@, was) implies envelope_each(
            before + passing(data@.take(0), f),
            tag_id@,
            units@,
            vqts@,
        ) by {
            assert(before + passing(data@.take(0), f) == before);
        }
    }
    while i < data.len()
        invariant
            i <= data.len(),
            f == envelope::opt_text(*filter),
            pred == (|d: DataReading|
                connection::quality_passes(f, connection::quality_of(d.status))),
            forall|before: Seq<DataReading>| #[trigger]
                envelope_each(before, tag_id@, units@, was) ==> envelope_each(
                    before + passing(data@.take(i as int), f),
                    tag_id@,
                    units@,
                    vqts@,
                ),
        decreases data.len() - i,
    {
        let dv: &DataReading = &data[i];
        let vqt: Vqt = connection::data_value_to_vqt(tag_id, dv, units);
        let ghost now = vqts@;
        proof {
            reveal(Seq::filter);
            assert(data@.take(i + 1).drop_last() == data@.take(i as int));
            assert(data@.take(i + 1).last() == *dv);
        }
        if passes(filter, vqt.quality) {
            vqts.push(vqt);
            proof {
                assert(passing(data@.take(i + 1), f) == passing(data@.take(i as int), f).push(*dv));
                assert forall|before: Seq<DataReading>| #[trigger]
                    envelope_each(before, tag_id@, units@, was) implies envelope_each(
                    before + passing(data@.take(i + 1), f),
                    tag_id@,
                    units@,
                    vqts@,
                ) by {
                    let p = before + passing(data@.take(i as int), f);
                    let q = before + passing(data@.take(i + 1), f);
                    assert(envelope_each(p, tag_id@, units@, now));
                    assert(q == p.push(*dv));
                    assert forall|k: int| 0 <= k < vqts@.len() implies connection::envelopes_now(
                        tag_id@,
                        q[k],
                        units@,
                        (#[trigger] vqts@[k])@,
                    ) by {
                        if k < now.len() {
                            assert(vqts@[k] == now[k]);
                            assert(q[k] == p[k]);
                        }
                    }
                }
            }
        } else {
            assert(passing(data@.take(i + 1), f) == passing(data@.take(i as int), f));
        }
        i = i + 1;
    }
    assert(data@.take(data@.len() as int) == data@);
}

/// No write gets through for a tag that no permission names; without a topology none does.
pub proof fn law_unlisted_tags_are_not_writable(c: OpcUaConnectionView, req: WriteRequestView)
    requires
        !c.topology.write_permissions.contains_key(req.tag_id),
    ensures
        permitted_write(Some(c), req) is Err,
        permitted_write(Some(c), req)->Err_0.code == ErrorCode::TagNotWritable,
{
}

/// Reading back what was written: a server that hands out the value it was sent is read as the value
/// that the write permitted.
pub proof fn law_write_then_read(
    link: Option<OpcUaConnectionView>,
    req: WriteRequestView,
    back: envelope::TagValueView,
)
    requires
        permitted_write(link, req) is Ok,
        connection::shows(connection::wire_value(permitted_write(link, req)->Ok_0), back),
    ensures
        back == (match permitted_write(link, req)->Ok_0 {
            WriteValue::Float(f) => envelope::TagValueView::Float(f),
            WriteValue::Bool(b) => envelope::TagValueView::Bool(b),
        }),
{
}

} // verus!
