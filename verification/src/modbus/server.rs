//! The tools of the Modbus adapter, as decisions around the device traffic.
//!
//! A tool that talks to the device has two parts: one says what to send, the other takes what came
//! back and says what the tool answers and what becomes of the connection.
use crate::envelope;
use crate::envelope::{
    AdapterError, AdapterErrorView, ConnectResponse, ConnectResponseView, ErrorCode, Quality,
    ServerInfoResponse, ServerInfoView, TagDescriptor, TagValue, TagValueView, Vqt, VqtView,
    WriteValue,
};
use crate::double;
use crate::double::Double;
use crate::json;
use crate::json::{Json, JsonView};
use crate::modbus::connection;
use crate::modbus::connection::{
    DataType, ExceptionCode, ModbusConnection, ModbusConnectionView, ParsedTag, RegisterType,
    TagTree,
};
use crate::text;
use crate::tools;
use crate::topology;
use crate::topology::TopologyConfig;
use crate::writing;
use crate::writing::{Disconnected, WriteRequest, WriteRequestView, Written, WrittenView};
use vstd::prelude::*;

verus! {

/// How long a device may take to answer, in milliseconds.
pub const DEFAULT_TIMEOUT_MS: u64 = 5000;

/// The error of a tool that needs a connection.
pub open spec fn not_connected_error(tag_id: Option<Seq<char>>) -> AdapterErrorView {
    AdapterErrorView {
        code: ErrorCode::ConnectionError,
        message: "Not connected to a Modbus device. Call connect first."@,
        tag_id,
    }
}

/// The error of a tool that needs a connection.
pub fn not_connected(tag_id: Option<&str>) -> (r: AdapterError)
    ensures
        r@ == not_connected_error(
            match tag_id {
                Some(t) => Some(t@),
                None => None,
            },
        ),
{
    AdapterError {
        code: ErrorCode::ConnectionError,
        message: "Not connected to a Modbus device. Call connect first.".to_owned(),
        tag_id: match tag_id {
            Some(t) => Some(t.to_owned()),
            None => None,
        },
    }
}

/// What came back on a request: `None` if nothing did in time, an error if the transport failed,
/// and else the answer or the exception of the device.
pub type Reply<T> = Option<Result<Result<T, ExceptionCode>, String>>;

/// The error of a request that was not answered in time.
pub open spec fn timeout_error(tag_id: Seq<char>, timeout_ms: u64) -> AdapterErrorView {
    envelope::tag_error(
        ErrorCode::Timeout,
        "The device did not answer within "@ + text::decimal_text(timeout_ms as nat) + "ms."@,
        tag_id,
    )
}

/// What arrived within the time allowed, or the error if nothing did.
pub fn timed<T>(reply: Option<T>, timeout_ms: u64, tag_id: &str) -> (r: Result<T, AdapterError>)
    ensures
        match reply {
            Some(v) => r == Ok::<T, AdapterError>(v),
            None => r is Err && r->Err_0@ == timeout_error(tag_id@, timeout_ms),
        },
{
    match reply {
        Some(v) => Ok(v),
        None => {
            let m: String = text::cat3(
                "The device did not answer within ",
                text::decimal(timeout_ms).as_str(),
                "ms.",
            );
            Err(AdapterError::on_tag(ErrorCode::Timeout, m, tag_id))
        },
    }
}

/// The answer of the device, or the error on its exception or on the transport.
pub open spec fn answered<T>(
    result: Result<Result<T, ExceptionCode>, String>,
    tag_id: Seq<char>,
    is_write: bool,
) -> Result<T, AdapterErrorView> {
    match result {
        Ok(Ok(v)) => Ok(v),
        Ok(Err(code)) => Err(connection::exception_error(code, tag_id, is_write)),
        Err(_) => Err(connection::transport_error(tag_id)),
    }
}

/// What a reply means for the tool.
pub open spec fn settled<T>(reply: Reply<T>, tag_id: Seq<char>, is_write: bool) -> Result<
    T,
    AdapterErrorView,
> {
    match reply {
        None => Err(timeout_error(tag_id, DEFAULT_TIMEOUT_MS)),
        Some(result) => answered(result, tag_id, is_write),
    }
}

/// The answer to a read.
pub fn map_read_result<T>(result: Result<Result<T, ExceptionCode>, String>, tag_id: &str) -> (r:
    Result<T, AdapterError>)
    ensures
        envelope::outcome(r) == answered(result, tag_id@, false),
{
    match result {
        Ok(Ok(v)) => Ok(v),
        Ok(Err(code)) => Err(connection::map_exception_code(code, tag_id, false)),
        Err(e) => Err(connection::map_transport_error(e.as_str(), tag_id)),
    }
}

/// The answer to a write.
pub fn map_write_result<T>(result: Result<Result<T, ExceptionCode>, String>, tag_id: &str) -> (r:
    Result<T, AdapterError>)
    ensures
        envelope::outcome(r) == answered(result, tag_id@, true),
{
    match result {
        Ok(Ok(v)) => Ok(v),
        Ok(Err(code)) => Err(connection::map_exception_code(code, tag_id, true)),
        Err(e) => Err(connection::map_transport_error(e.as_str(), tag_id)),
    }
}

fn settle<T>(reply: Reply<T>, tag_id: &str, is_write: bool) -> (r: Result<T, AdapterError>)
    ensures
        envelope::outcome(r) == settled(reply, tag_id@, is_write),
{
    match timed(reply, DEFAULT_TIMEOUT_MS, tag_id) {
        Err(e) => Err(e),
        Ok(result) => if is_write {
            map_write_result(result, tag_id)
        } else {
            map_read_result(result, tag_id)
        },
    }
}

/// A read request to the device.
#[derive(Debug, Clone, Copy, PartialEq, Eq, Structural)]
pub struct ReadRequest {
    pub kind: RegisterType,
    pub address: u16,
    pub count: u16,
}

/// What came back on a read request: registers for holding and input registers, bits for coils and
/// discrete inputs.
#[derive(Debug)]
pub enum ReadReply {
    Registers(Reply<Vec<u16>>),
    Bits(Reply<Vec<bool>>),
}

/// Whether a register type is read by registers, and not by bits.
pub open spec fn by_registers(kind: RegisterType) -> bool {
    kind is Holding || kind is Input
}

/// The number of registers or bits that the tag spans.
pub open spec fn span(tag: ParsedTag) -> nat {
    match tag {
        ParsedTag::Holding { data_type, .. } => connection::width(data_type),
        ParsedTag::Input { data_type, .. } => connection::width(data_type),
        _ => 1,
    }
}

/// The request that reads a tag.
pub fn read_request(tag: ParsedTag) -> (r: ReadRequest)
    ensures
        r.kind == tag.kind(),
        r.address == tag.at(),
        r.count == span(tag),
{
    match tag {
        ParsedTag::Holding { address, data_type } => ReadRequest {
            kind: RegisterType::Holding,
            address,
            count: connection::register_count(data_type),
        },
        ParsedTag::Input { address, data_type } => ReadRequest {
            kind: RegisterType::Input,
            address,
            count: connection::register_count(data_type),
        },
        ParsedTag::Coil { address } => ReadRequest { kind: RegisterType::Coil, address, count: 1 },
        ParsedTag::Discrete { address } => ReadRequest {
            kind: RegisterType::Discrete,
            address,
            count: 1,
        },
    }
}

/// The error on a device response without a bit.
pub open spec fn no_bit_error(kind: RegisterType, tag_id: Seq<char>) -> AdapterErrorView {
    envelope::tag_error(
        ErrorCode::ConnectionError,
        if kind is Coil {
            "expected 1 coil in device response, got 0"@
        } else {
            "expected 1 discrete input in device response, got 0"@
        },
        tag_id,
    )
}

/// Whether `r` is what a reply means for the read of a tag with registers.
pub open spec fn reads_registers(
    data_type: DataType,
    reply: Reply<Vec<u16>>,
    tag_id: Seq<char>,
    r: Result<TagValueView, AdapterErrorView>,
) -> bool {
    match settled(reply, tag_id, false) {
        Err(e) => r == Err::<TagValueView, AdapterErrorView>(e),
        Ok(words) => if words@.len() < connection::width(data_type) {
            r == Err::<TagValueView, AdapterErrorView>(
                connection::short_response(connection::width(data_type), words@.len()),
            )
        } else {
            r is Ok && r->Ok_0 is Float && connection::decodes(
                words@,
                data_type,
                r->Ok_0->Float_0,
            )
        },
    }
}

/// What a reply means for the read of a tag with a bit.
pub open spec fn bit_read(kind: RegisterType, reply: Reply<Vec<bool>>, tag_id: Seq<char>) -> Result<
    TagValueView,
    AdapterErrorView,
> {
    match settled(reply, tag_id, false) {
        Err(e) => Err(e),
        Ok(bits) => if bits@.len() == 0 {
            Err(no_bit_error(kind, tag_id))
        } else {
            Ok(TagValueView::Bool(bits@[0]))
        },
    }
}

/// Whether `r` is what a reply means for the read of a tag.
pub open spec fn reads(
    tag: ParsedTag,
    reply: ReadReply,
    tag_id: Seq<char>,
    r: Result<TagValueView, AdapterErrorView>,
) -> bool {
    match reply {
        ReadReply::Registers(words) => match tag {
            ParsedTag::Holding { data_type, .. } => reads_registers(data_type, words, tag_id, r),
            ParsedTag::Input { data_type, .. } => reads_registers(data_type, words, tag_id, r),
            _ => false,
        },
        ReadReply::Bits(bits) => r == bit_read(tag.kind(), bits, tag_id),
    }
}

/// Whether a reply is of the kind that the register type is read by.
pub open spec fn reply_fits(kind: RegisterType, reply: ReadReply) -> bool {
    by_registers(kind) <==> reply is Registers
}

fn first_bit(kind: RegisterType, bits: Vec<bool>, tag_id: &str) -> (r: Result<
    TagValue,
    AdapterError,
>)
    ensures
        envelope::outcome_view(r) == if bits@.len() == 0 {
            Err(no_bit_error(kind, tag_id@))
        } else {
            Ok(TagValueView::Bool(bits@[0]))
        },
{
    if bits.len() > 0 {
        return Ok(TagValue::Bool(bits[0]));
    }
    let m: String = match kind {
        RegisterType::Coil => "expected 1 coil in device response, got 0".to_owned(),
        _ => "expected 1 discrete input in device response, got 0".to_owned(),
    };
    Err(AdapterError::on_tag(ErrorCode::ConnectionError, m, tag_id))
}

/// The value of a tag, from what came back on its read request.
pub fn read_parsed_tag(tag: ParsedTag, reply: ReadReply, tag_id: &str) -> (r: Result<
    TagValue,
    AdapterError,
>)
    requires
        reply_fits(tag.kind(), reply),
    ensures
        reads(tag, reply, tag_id@, envelope::outcome_view(r)),
{
    match reply {
        ReadReply::Registers(words) => {
            let data_type: DataType = match tag {
                ParsedTag::Holding { data_type, .. } => data_type,
                ParsedTag::Input { data_type, .. } => data_type,
                _ => DataType::Uint16,
            };
            match settle(words, tag_id, false) {
                Err(e) => Err(e),
                Ok(w) => connection::registers_to_value(w.as_slice(), data_type),
            }
        },
        ReadReply::Bits(bits) => {
            let kind: RegisterType = match tag {
                ParsedTag::Coil { .. } => RegisterType::Coil,
                _ => RegisterType::Discrete,
            };
            match settle(bits, tag_id, false) {
                Err(e) => Err(e),
                Ok(b) => first_bit(kind, b, tag_id),
            }
        },
    }
}

/// The adapter: the plain part of its connection, if it has one.
#[derive(Debug)]
pub struct ModbusMcpServer {
    pub inner: Option<ModbusConnection>,
}

/// The connection after a failed device request: a failure of the connection itself drops it, any
/// other is remembered.
pub open spec fn recorded(
    link: Option<ModbusConnectionView>,
    err: AdapterErrorView,
) -> Option<ModbusConnectionView> {
    if err.code == ErrorCode::ConnectionError {
        None
    } else {
        match link {
            None => None,
            Some(c) => Some(
                ModbusConnectionView { last_error: Some(err.message), ..c },
            ),
        }
    }
}

/// Remembers a failed device request.
pub fn record_and_maybe_clear(inner: &mut Option<ModbusConnection>, err: &AdapterError)
    ensures
        opt_link(*final(inner)) == recorded(opt_link(*old(inner)), err@),
{
    if let Some(c) = inner {
        c.last_error = Some(err.message.clone());
    }
    if err.code == ErrorCode::ConnectionError {
        *inner = None;
    }
}

/// The model of an optional connection.
pub open spec fn opt_link(inner: Option<ModbusConnection>) -> Option<ModbusConnectionView> {
    match inner {
        Some(c) => Some(c@),
        None => None,
    }
}

impl ModbusMcpServer {
    /// The model of the connection.
    pub open spec fn link(self) -> Option<ModbusConnectionView> {
        opt_link(self.inner)
    }

    /// An adapter without a connection.
    pub fn new() -> (r: ModbusMcpServer)
        ensures
            r.link() is None,
    {
        ModbusMcpServer { inner: None }
    }

    /// The request that a scan sends.
    pub fn scan_request(&self, register_type: &str, start_address: u16, count: u16) -> (r: Result<
        ReadRequest,
        AdapterError,
    >)
        ensures
            envelope::outcome(r) == scan_requested(
                self.link() is Some,
                text::lowercase(register_type@),
                start_address,
                count,
            ),
    {
        let rt: String = text::ascii_lowercase(register_type);
        let max_count: u16 = if text::same(rt.as_str(), "coil") || text::same(
            rt.as_str(),
            "discrete",
        ) {
            2000
        } else {
            125
        };
        if count == 0 || count > max_count {
            let m: String = text::cat5(
                "count must be between 1 and ",
                text::decimal(max_count as u64).as_str(),
                " for '",
                rt.as_str(),
                "'.",
            );
            return Err(AdapterError::plain(ErrorCode::InvalidValue, m));
        }
        if self.inner.is_none() {
            return Err(not_connected(None));
        }
        match connection::parse_register_type(rt.as_str()) {
            Some(kind) => Ok(ReadRequest { kind, address: start_address, count }),
            None => {
                let m: String = text::cat3(
                    "'",
                    rt.as_str(),
                    "' is not a valid register_type. Expected one of: holding, input, coil, discrete.",
                );
                Err(AdapterError::plain(ErrorCode::InvalidValue, m))
            },
        }
    }

    /// What a scan answers, from what came back on its request.
    pub fn scan(&mut self, request: ReadRequest, reply: ReadReply, timestamp: &str) -> (r: Result<
        Vec<ScanReading>,
        AdapterError,
    >)
        requires
            reply_fits(request.kind, reply),
            request.address + reply_len(reply) <= u32::MAX,
        ensures
            (match r {
                Ok(entries) => Ok(envelope::views(entries@)),
                Err(e) => Err(e@),
            }) == scan_answer(request, reply, timestamp@),
            final(self).link() == match r {
                Ok(_) => old(self).link(),
                Err(e) => recorded(old(self).link(), e@),
            },
    {
        let tag_id: String = numbered_tag(request.kind, request.address as u64);
        let values: Result<Vec<ScanValue>, AdapterError> = match reply {
            ReadReply::Registers(words) => match settle(words, tag_id.as_str(), false) {
                Ok(w) => Ok(word_values(w)),
                Err(e) => Err(e),
            },
            ReadReply::Bits(bits) => match settle(bits, tag_id.as_str(), false) {
                Ok(b) => Ok(bit_values(b)),
                Err(e) => Err(e),
            },
        };
        match values {
            Ok(v) => Ok(scan_entries(request.kind, request.address, v, timestamp)),
            Err(e) => {
                record_and_maybe_clear(&mut self.inner, &e);
                Err(e)
            },
        }
    }

    /// The configured tags, by register type.
    pub fn get_topic_tree(&self) -> (r: Result<TagTree, AdapterError>)
        ensures
            match (self.link(), r) {
                (None, Err(e)) => e@ == not_connected_error(None),
                (Some(c), Ok(tree)) => {
                    &&& envelope::views(tree.holding@) == connection::group(
                        c.topology.tags,
                        RegisterType::Holding,
                    )
                    &&& envelope::views(tree.input@) == connection::group(
                        c.topology.tags,
                        RegisterType::Input,
                    )
                    &&& envelope::views(tree.coil@) == connection::group(
                        c.topology.tags,
                        RegisterType::Coil,
                    )
                    &&& envelope::views(tree.discrete@) == connection::group(
                        c.topology.tags,
                        RegisterType::Discrete,
                    )
                },
                _ => false,
            },
    {
        match &self.inner {
            None => Err(not_connected(None)),
            Some(c) => Ok(connection::build_tag_tree(&c.topology.tags)),
        }
    }

    /// The configured tags that pass the filters.
    pub fn discover_tags(
        &self,
        process_area: &Option<String>,
        equipment_id: &Option<String>,
        include_metadata: Option<bool>,
    ) -> (r: Result<Vec<TagDescriptor>, AdapterError>)
        ensures
            match (self.link(), r) {
                (None, Err(e)) => e@ == not_connected_error(None),
                (Some(c), Ok(tags)) => envelope::views(tags@) == topology::as_asked(
                    topology::selected(
                        topology::described(c.topology.tags),
                        envelope::opt_text(*process_area),
                        envelope::opt_text(*equipment_id),
                    ),
                    include_metadata,
                ),
                _ => false,
            },
    {
        match &self.inner {
            None => Err(not_connected(None)),
            Some(c) => {
                let tags: Vec<TagDescriptor> = topology::discover_tags(
                    &c.topology,
                    process_area,
                    equipment_id,
                );
                Ok(topology::apply_metadata_choice(tags, include_metadata))
            },
        }
    }

    /// The request that reads a tag.
    pub fn read_tag_request(&self, tag_id: &str) -> (r: Result<ReadRequest, AdapterError>)
        ensures
            match (connection::parsed(tag_id@), r) {
                (Err(e), Err(got)) => got@ == e,
                (Ok(tag), Ok(q)) => {
                    &&& self.link() is Some
                    &&& q.kind == tag.kind()
                    &&& q.address == tag.at()
                    &&& q.count == span(tag)
                },
                (Ok(_), Err(got)) => self.link() is None && got@ == not_connected_error(
                    Some(tag_id@),
                ),
                (Err(_), Ok(_)) => false,
            },
    {
        match connection::parse_tag_id(tag_id) {
            Err(e) => Err(e),
            Ok(tag) => if self.inner.is_none() {
                Err(not_connected(Some(tag_id)))
            } else {
                Ok(read_request(tag))
            },
        }
    }

    /// What the read of a tag answers, from what came back on its request.
    pub fn read_tag(&mut self, tag_id: &str, reply: ReadReply, timestamp: String) -> (r: Result<
        Vqt,
        AdapterError,
    >)
        requires
            connection::parsed(tag_id@) matches Ok(tag) ==> reply_fits(tag.kind(), reply),
        ensures
            reads_tag(
                old(self).link(),
                tag_id@,
                reply,
                timestamp@,
                envelope::outcome_view(r),
                final(self).link(),
            ),
    {
        let tag: ParsedTag = match connection::parse_tag_id(tag_id) {
            Err(e) => {
                return Err(e);
            },
            Ok(tag) => tag,
        };
        let units: String = match &self.inner {
            None => {
                return Err(not_connected(Some(tag_id)));
            },
            Some(c) => topology::tag_units(&c.topology, tag_id),
        };
        match read_parsed_tag(tag, reply, tag_id) {
            Ok(value) => Ok(
                Vqt { tag_id: tag_id.to_owned(), value, quality: Quality::Good, timestamp, units },
            ),
            Err(e) => {
                record_and_maybe_clear(&mut self.inner, &e);
                Err(e)
            },
        }
    }

    /// Modbus keeps no history: this is the error on every request for one.
    pub fn read_tag_history(&self, tag_id: &str) -> (r: AdapterError)
        ensures
            r@ == envelope::tag_error(
                ErrorCode::HistoryUnavailable,
                "Modbus does not support native historical data. Bridge to a time-series store to enable read_tag_history."@,
                tag_id@,
            ),
    {
        AdapterError::on_tag(
            ErrorCode::HistoryUnavailable,
            "Modbus does not support native historical data. Bridge to a time-series store to enable read_tag_history.".to_owned(),
            tag_id,
        )
    }

    /// What a write sends to the device, or why it is refused.
    pub fn write_tag_request(&self, req: &WriteRequest) -> (r: Result<
        (WriteCommand, WriteValue),
        AdapterError,
    >)
        ensures
            match (permitted_write(self.link(), req@), r) {
                (Err(e), Err(got)) => got@ == e,
                (Ok((tag, value)), _) => commands(tag, value, req@, command_outcome(r)),
                _ => false,
            },
    {
        let tag_id: &str = req.tag_id.as_str();
        let tag: ParsedTag = match connection::parse_tag_id(tag_id) {
            Err(e) => {
                return Err(e);
            },
            Ok(tag) => tag,
        };
        if !tag.is_writable_type() {
            let m: String = text::cat3(
                "The tag is a ",
                tag.register_type_name(),
                " register, which is read-only in Modbus.",
            );
            return Err(AdapterError::on_tag(ErrorCode::TagNotWritable, m, tag_id));
        }
        let conn: &ModbusConnection = match &self.inner {
            None => {
                return Err(not_connected(Some(tag_id)));
            },
            Some(c) => c,
        };
        match topology::permission(&conn.topology, tag_id) {
            None => {
                Err(
                    AdapterError::on_tag(
                        ErrorCode::TagNotWritable,
                        "The tag is not in topology write_permissions. Add it to topology.yaml to allow writes.".to_owned(),
                        tag_id,
                    ),
                )
            },
            Some(perm) => match topology::validate_write(
                perm,
                &req.value,
                req.shown.as_str(),
                req.units.as_str(),
                tag_id,
            ) {
                Err(e) => Err(e),
                Ok(value) => write_command(tag, value, req.shown.as_str(), tag_id),
            },
        }
    }

    /// What the write of a tag answers, from what came back on its command.
    pub fn write_tag(
        &mut self,
        req: WriteRequest,
        value: WriteValue,
        reply: Reply<()>,
        timestamp: String,
    ) -> (r: Result<Written, AdapterError>)
        ensures
            match settled(reply, req@.tag_id, true) {
                Ok(_) => {
                    &&& r is Ok
                    &&& writing::written_by(req@, value, Quality::Good, timestamp@, r->Ok_0@)
                    &&& final(self).link() == old(self).link()
                },
                Err(e) => {
                    &&& envelope::outcome_view(r) == Err::<WrittenView, AdapterErrorView>(e)
                    &&& final(self).link() == recorded(old(self).link(), e)
                },
            },
    {
        match settle(reply, req.tag_id.as_str(), true) {
            Ok(_) => Ok(writing::confirm(req, value, Quality::Good, timestamp)),
            Err(e) => {
                record_and_maybe_clear(&mut self.inner, &e);
                Err(e)
            },
        }
    }

    /// What a connect answers, from how the attempt went. The connection that was open before is
    /// gone in any case.
    pub fn connect(
        &mut self,
        host: String,
        port: u16,
        settings: ConnectSettings,
        attempt: ConnectAttempt,
        tried: Vec<Option<TopologyConfig>>,
        timestamp: String,
    ) -> (r: Result<ConnectResponse, AdapterError>)
        ensures
            match connect_failure(host@, port, settings.timeout_ms, attempt) {
                Some(e) => {
                    &&& envelope::outcome_view(r) == Err::<ConnectResponseView, AdapterErrorView>(e)
                    &&& final(self).link() is None
                },
                None => {
                    &&& envelope::outcome_view(r) == Ok::<ConnectResponseView, AdapterErrorView>(
                        ConnectResponseView {
                            connected: true,
                            server_name: tools::endpoint(host@, port),
                            protocol_version: protocol_version(),
                            timestamp: timestamp@,
                        },
                    )
                    &&& final(self).link() == Some(
                        ModbusConnectionView {
                            host: host@,
                            port,
                            slave: settings.slave,
                            last_error: None,
                            topology: topology::first_loaded(tried@),
                        },
                    )
                },
            },
    {
        self.inner = None;
        let at: String = tools::host_and_port(host.as_str(), port);
        match attempt {
            ConnectAttempt::Unresolved(_) => {
                let m: String = text::cat2("DNS resolution failed for ", at.as_str());
                Err(AdapterError::plain(ErrorCode::ConnectionError, m))
            },
            ConnectAttempt::TimedOut => {
                let m: String = text::cat5(
                    "Connection to ",
                    at.as_str(),
                    " timed out after ",
                    text::decimal(settings.timeout_ms as u64).as_str(),
                    "ms",
                );
                Err(AdapterError::plain(ErrorCode::Timeout, m))
            },
            ConnectAttempt::Refused(failures) => {
                if failures.len() == 0 {
                    let m: String = text::cat2("No addresses found for ", at.as_str());
                    return Err(AdapterError::plain(ErrorCode::ConnectionError, m));
                }
                let m: String = text::cat5(
                    "Failed to connect to ",
                    at.as_str(),
                    " (tried ",
                    text::decimal(failures.len() as u64).as_str(),
                    " address(es))",
                );
                Err(AdapterError::plain(ErrorCode::ConnectionError, m))
            },
            ConnectAttempt::Connected => {
                self.inner = Some(
                    ModbusConnection {
                        host,
                        port,
                        slave: settings.slave,
                        last_error: None,
                        topology: topology::load_topology(tried),
                    },
                );
                Ok(
                    ConnectResponse {
                        connected: true,
                        server_name: at,
                        protocol_version: "Modbus Application Protocol V1.1b3".to_owned(),
                        timestamp,
                    },
                )
            },
        }
    }

    /// Drops the connection, if there is one. A reason goes into the audit log.
    pub fn disconnect(&mut self, reason: Option<String>, timestamp: String) -> (r: Disconnected)
        ensures
            r@ == writing::disconnected(
                old(self).link() is Some,
                envelope::opt_text(reason),
                timestamp@,
            ),
            final(self).link() is None,
    {
        let connected: bool = self.inner.is_some();
        self.inner = None;
        writing::after_disconnect(connected, reason, timestamp)
    }

    /// The state of the adapter. `uptime_seconds` is how long the connection has been open.
    pub fn get_server_info(&self, uptime_seconds: u64) -> (r: ModbusServerInfo)
        ensures
            (r.info@, r.slave_id) == server_info(self.link(), uptime_seconds),
    {
        match &self.inner {
            None => ModbusServerInfo {
                info: ServerInfoResponse {
                    server_name: "modbus-mcp".to_owned(),
                    protocol: "Modbus TCP".to_owned(),
                    protocol_version: "unknown".to_owned(),
                    connected: false,
                    connection_state: "disconnected".to_owned(),
                    capabilities: tools::capabilities("scan", "get_topic_tree"),
                    uptime_seconds: 0,
                    last_error: None,
                },
                slave_id: None,
            },
            Some(c) => ModbusServerInfo {
                info: ServerInfoResponse {
                    server_name: text::cat2(
                        "modbus-mcp@",
                        tools::host_and_port(c.host.as_str(), c.port).as_str(),
                    ),
                    protocol: "Modbus TCP".to_owned(),
                    protocol_version: "Modbus Application Protocol V1.1b3".to_owned(),
                    connected: true,
                    connection_state: "connected".to_owned(),
                    capabilities: tools::capabilities("scan", "get_topic_tree"),
                    uptime_seconds,
                    last_error: envelope::copy_opt(&c.last_error),
                },
                slave_id: Some(c.slave),
            },
        }
    }
}

/// The most addresses that one scan may cover, by the protocol's limits.
pub open spec fn scan_limit(register_type: Seq<char>) -> u16 {
    if register_type == "coil"@ || register_type == "discrete"@ {
        2000
    } else {
        125
    }
}

/// The request that a scan sends, or why it is refused. `register_type` is in lower case.
pub open spec fn scan_requested(
    connected: bool,
    register_type: Seq<char>,
    start_address: u16,
    count: u16,
) -> Result<ReadRequest, AdapterErrorView> {
    if count == 0 || count > scan_limit(register_type) {
        Err(
            envelope::plain_error(
                ErrorCode::InvalidValue,
                "count must be between 1 and "@ + text::decimal_text(
                    scan_limit(register_type) as nat,
                ) + " for '"@ + register_type + "'."@,
            ),
        )
    } else if !connected {
        Err(not_connected_error(None))
    } else {
        match connection::register_type_named(register_type) {
            Some(kind) => Ok(ReadRequest { kind, address: start_address, count }),
            None => Err(
                envelope::plain_error(
                    ErrorCode::InvalidValue,
                    "'"@ + register_type
                        + "' is not a valid register_type. Expected one of: holding, input, coil, discrete."@,
                ),
            ),
        }
    }
}

/// A raw register or bit.
#[derive(Debug, Clone, Copy, PartialEq, Eq, Structural)]
pub enum ScanValue {
    Word(u16),
    Bit(bool),
}

/// One address that a scan read.
#[derive(Debug)]
pub struct ScanReading {
    pub tag_id: String,
    pub value: ScanValue,
    pub quality: Quality,
    pub timestamp: String,
}

/// The model of a [`ScanReading`].
pub struct ScanReadingView {
    pub tag_id: Seq<char>,
    pub value: ScanValue,
    pub quality: Quality,
    pub timestamp: Seq<char>,
}

impl View for ScanReading {
    type V = ScanReadingView;

    open spec fn view(&self) -> ScanReadingView {
        ScanReadingView {
            tag_id: self.tag_id@,
            value: self.value,
            quality: self.quality,
            timestamp: self.timestamp@,
        }
    }
}

/// The number of registers or bits in a reply.
pub open spec fn reply_len(reply: ReadReply) -> nat {
    match reply {
        ReadReply::Registers(Some(Ok(Ok(words)))) => words@.len(),
        ReadReply::Bits(Some(Ok(Ok(bits)))) => bits@.len(),
        _ => 0,
    }
}

/// The identifier of the tag at an address.
pub open spec fn tag_at(kind: RegisterType, address: nat) -> Seq<char> {
    kind.name() + ":"@ + text::decimal_text(address)
}

/// The entries for a run of values, one address after the other.
pub open spec fn entries_from(
    kind: RegisterType,
    start_address: u16,
    values: Seq<ScanValue>,
    timestamp: Seq<char>,
) -> Seq<ScanReadingView> {
    Seq::new(
        values.len(),
        |i: int|
            ScanReadingView {
                tag_id: tag_at(kind, (start_address + i) as nat),
                value: values[i],
                quality: Quality::Good,
                timestamp,
            },
    )
}

/// Registers as scan values.
pub open spec fn as_words(words: Seq<u16>) -> Seq<ScanValue> {
    words.map_values(|w: u16| ScanValue::Word(w))
}

/// Bits as scan values.
pub open spec fn as_bits(bits: Seq<bool>) -> Seq<ScanValue> {
    bits.map_values(|b: bool| ScanValue::Bit(b))
}

/// The values in a reply to a scan, or the error.
pub open spec fn scan_values(request: ReadRequest, reply: ReadReply) -> Result<
    Seq<ScanValue>,
    AdapterErrorView,
> {
    let tag_id = tag_at(request.kind, request.address as nat);
    match reply {
        ReadReply::Registers(words) => match settled(words, tag_id, false) {
            Ok(w) => Ok(as_words(w@)),
            Err(e) => Err(e),
        },
        ReadReply::Bits(bits) => match settled(bits, tag_id, false) {
            Ok(b) => Ok(as_bits(b@)),
            Err(e) => Err(e),
        },
    }
}

/// What a scan answers.
pub open spec fn scan_answer(request: ReadRequest, reply: ReadReply, timestamp: Seq<char>) -> Result<
    Seq<ScanReadingView>,
    AdapterErrorView,
> {
    match scan_values(request, reply) {
        Ok(values) => Ok(entries_from(request.kind, request.address, values, timestamp)),
        Err(e) => Err(e),
    }
}

fn numbered_tag(kind: RegisterType, address: u64) -> (r: String)
    ensures
        r@ == tag_at(kind, address as nat),
{
    let name: &str = match kind {
        RegisterType::Holding => "holding",
        RegisterType::Input => "input",
        RegisterType::Coil => "coil",
        RegisterType::Discrete => "discrete",
    };
    text::cat3(name, ":", text::decimal(address).as_str())
}

fn word_values(words: Vec<u16>) -> (r: Vec<ScanValue>)
    ensures
        r@ == as_words(words@),
{
    let mut r: Vec<ScanValue> = Vec::new();
    let mut i: usize = 0;
    while i < words.len()
        invariant
            i <= words.len(),
            r@ == as_words(words@.take(i as int)),
        decreases words.len() - i,
    {
        r.push(ScanValue::Word(words[i]));
        assert(r@ == as_words(words@.take(i + 1)));
        i = i + 1;
    }
    assert(words@.take(words@.len() as int) == words@);
    r
}

fn bit_values(bits: Vec<bool>) -> (r: Vec<ScanValue>)
    ensures
        r@ == as_bits(bits@),
{
    let mut r: Vec<ScanValue> = Vec::new();
    let mut i: usize = 0;
    while i < bits.len()
        invariant
            i <= bits.len(),
            r@ == as_bits(bits@.take(i as int)),
        decreases bits.len() - i,
    {
        r.push(ScanValue::Bit(bits[i]));
        assert(r@ == as_bits(bits@.take(i + 1)));
        i = i + 1;
    }
    assert(bits@.take(bits@.len() as int) == bits@);
    r
}

fn scan_entries(
    kind: RegisterType,
    start_address: u16,
    values: Vec<ScanValue>,
    timestamp: &str,
) -> (r: Vec<ScanReading>)
    requires
        start_address + values@.len() <= u32::MAX,
    ensures
        envelope::views(r@) == entries_from(kind, start_address, values@, timestamp@),
{
    let mut r: Vec<ScanReading> = Vec::new();
    let mut i: usize = 0;
    while i < values.len()
        invariant
            i <= values.len(),
            start_address + values@.len() <= u32::MAX,
            r@.len() == i,
            forall|j: int|
                0 <= j < i ==> (#[trigger] r@[j])@ == (ScanReadingView {
                    tag_id: tag_at(kind, (start_address + j) as nat),
                    value: values@[j],
                    quality: Quality::Good,
                    timestamp: timestamp@,
                }),
        decreases values.len() - i,
    {
        r.push(
            ScanReading {
                tag_id: numbered_tag(kind, start_address as u64 + i as u64),
                value: values[i],
                quality: Quality::Good,
                timestamp: timestamp.to_owned(),
            },
        );
        i = i + 1;
    }
    assert(envelope::views(r@) == entries_from(kind, start_address, values@, timestamp@));
    r
}

/// Whether `r` is what the read of a tag answers, and `after` the connection it leaves.
pub open spec fn reads_tag(
    link: Option<ModbusConnectionView>,
    tag_id: Seq<char>,
    reply: ReadReply,
    timestamp: Seq<char>,
    r: Result<VqtView, AdapterErrorView>,
    after: Option<ModbusConnectionView>,
) -> bool {
    match connection::parsed(tag_id) {
        Err(e) => r == Err::<VqtView, AdapterErrorView>(e) && after == link,
        Ok(tag) => match (link, r) {
            (None, _) => {
                &&& r == Err::<VqtView, AdapterErrorView>(not_connected_error(Some(tag_id)))
                &&& after == link
            },
            (Some(c), Ok(vqt)) => {
                &&& reads(tag, reply, tag_id, Ok(vqt.value))
                &&& vqt.tag_id == tag_id
                &&& vqt.quality == Quality::Good
                &&& vqt.timestamp == timestamp
                &&& vqt.units == topology::units_of(c.topology.tags, tag_id)
                &&& after == link
            },
            (Some(_), Err(e)) => reads(tag, reply, tag_id, Err(e)) && after == recorded(link, e),
        },
    }
}

/// What a write sends to the device.
#[derive(Debug)]
pub enum WriteCommand {
    Coil { address: u16, on: bool },
    Register { address: u16, word: u16 },
    Registers { address: u16, words: Vec<u16> },
}

/// The error on a write to a register type that Modbus has no write function for.
pub open spec fn read_only_error(tag: ParsedTag, tag_id: Seq<char>) -> AdapterErrorView {
    envelope::tag_error(
        ErrorCode::TagNotWritable,
        "The tag is a "@ + tag.kind().name() + " register, which is read-only in Modbus."@,
        tag_id,
    )
}

/// The error on a write to a tag that no permission names.
pub open spec fn no_permission_error(tag_id: Seq<char>) -> AdapterErrorView {
    envelope::tag_error(
        ErrorCode::TagNotWritable,
        "The tag is not in topology write_permissions. Add it to topology.yaml to allow writes."@,
        tag_id,
    )
}

/// The tag and the value that a request may write, or why it may not.
pub open spec fn permitted_write(
    link: Option<ModbusConnectionView>,
    req: WriteRequestView,
) -> Result<(ParsedTag, WriteValue), AdapterErrorView> {
    match connection::parsed(req.tag_id) {
        Err(e) => Err(e),
        Ok(tag) => if !tag.writable() {
            Err(read_only_error(tag, req.tag_id))
        } else {
            match link {
                None => Err(not_connected_error(Some(req.tag_id))),
                Some(c) => if !c.topology.write_permissions.contains_key(req.tag_id) {
                    Err(no_permission_error(req.tag_id))
                } else {
                    match topology::validated(
                        c.topology.write_permissions[req.tag_id],
                        req.value,
                        req.shown,
                        req.units,
                        req.tag_id,
                    ) {
                        Err(e) => Err(e),
                        Ok(value) => Ok((tag, value)),
                    }
                },
            }
        },
    }
}

/// The model of a [`WriteCommand`].
pub enum WriteCommandView {
    Coil { address: u16, on: bool },
    Register { address: u16, word: u16 },
    Registers { address: u16, words: Seq<u16> },
}

impl View for WriteCommand {
    type V = WriteCommandView;

    open spec fn view(&self) -> WriteCommandView {
        match *self {
            WriteCommand::Coil { address, on } => WriteCommandView::Coil { address, on },
            WriteCommand::Register { address, word } => WriteCommandView::Register { address, word },
            WriteCommand::Registers { address, words } => WriteCommandView::Registers {
                address,
                words: words@,
            },
        }
    }
}

/// A planned write with its command by the model.
pub open spec fn command_outcome(r: Result<(WriteCommand, WriteValue), AdapterError>) -> Result<
    (WriteCommandView, WriteValue),
    AdapterErrorView,
> {
    match r {
        Ok((command, value)) => Ok((command@, value)),
        Err(e) => Err(e@),
    }
}

/// The number that a value puts into registers; a boolean counts as one or zero.
pub open spec fn number_of(value: WriteValue) -> Double {
    match value {
        WriteValue::Float(f) => f,
        WriteValue::Bool(b) => double::of_integer(
            if b {
                1
            } else {
                0
            },
        ),
    }
}

/// The words that a command puts into registers.
pub open spec fn command_words(command: WriteCommandView) -> Seq<u16> {
    match command {
        WriteCommandView::Coil { .. } => Seq::empty(),
        WriteCommandView::Register { word, .. } => seq![word],
        WriteCommandView::Registers { words, .. } => words,
    }
}

/// The address that a command writes to.
pub open spec fn command_address(command: WriteCommandView) -> u16 {
    match command {
        WriteCommandView::Coil { address, .. } => address,
        WriteCommandView::Register { address, .. } => address,
        WriteCommandView::Registers { address, .. } => address,
    }
}

/// Whether `r` is the command that writes a permitted value to a tag, or the error where the tag
/// cannot hold it. One register is written with the function for a single register.
pub open spec fn commands(
    tag: ParsedTag,
    value: WriteValue,
    req: WriteRequestView,
    r: Result<(WriteCommandView, WriteValue), AdapterErrorView>,
) -> bool {
    match tag {
        ParsedTag::Holding { address, data_type } => {
            let document = json::number_document(number_of(value));
            match r {
                Ok((command, v)) => {
                    &&& v == value
                    &&& !(command is Coil)
                    &&& (command is Register <==> connection::width(data_type) == 1)
                    &&& command_address(command) == address
                    &&& connection::encoded(
                        document,
                        req.shown,
                        data_type,
                        req.tag_id,
                        Ok(command_words(command)),
                    )
                },
                Err(e) => connection::encoded(document, req.shown, data_type, req.tag_id, Err(e)),
            }
        },
        _ => match value {
            WriteValue::Bool(on) => r == Ok::<(WriteCommandView, WriteValue), AdapterErrorView>(
                (WriteCommandView::Coil { address: tag.at(), on }, value),
            ),
            WriteValue::Float(_) => r == Err::<(WriteCommandView, WriteValue), AdapterErrorView>(
                envelope::tag_error(
                    ErrorCode::InvalidValue,
                    "coil writes require a boolean value."@,
                    req.tag_id,
                ),
            ),
        },
    }
}

/// The command that writes a permitted value to a tag.
fn write_command(tag: ParsedTag, value: WriteValue, shown: &str, tag_id: &str) -> (r: Result<
    (WriteCommand, WriteValue),
    AdapterError,
>)
    requires
        tag.writable(),
    ensures
        forall|req: WriteRequestView|
            req.shown == shown@ && req.tag_id == tag_id@ ==> #[trigger] commands(
                tag,
                value,
                req,
                command_outcome(r),
            ),
{
    match tag {
        ParsedTag::Holding { address, data_type } => {
            let f: Double = match value {
                WriteValue::Float(f) => f,
                WriteValue::Bool(b) => Double::from_u64(
                    if b {
                        1
                    } else {
                        0
                    },
                ),
            };
            match connection::value_to_registers(&json::from_double(f), shown, data_type, tag_id) {
                Err(e) => Err(e),
                Ok(words) => {
                    if words.len() == 1 {
                        let word: u16 = words[0];
                        assert(seq![word] == words@);
                        Ok((WriteCommand::Register { address, word }, value))
                    } else {
                        Ok((WriteCommand::Registers { address, words }, value))
                    }
                },
            }
        },
        _ => match value {
            WriteValue::Bool(on) => Ok((WriteCommand::Coil { address: tag.address(), on }, value)),
            WriteValue::Float(_) => Err(
                AdapterError::on_tag(
                    ErrorCode::InvalidValue,
                    "coil writes require a boolean value.".to_owned(),
                    tag_id,
                ),
            ),
        },
    }
}

/// What a connect is asked to use.
#[derive(Debug, Clone, Copy, PartialEq, Eq, Structural)]
pub struct ConnectSettings {
    /// The unit that every read and write addresses.
    pub slave: u8,
    pub timeout_ms: u32,
}

/// The unit that the options name: 1 if they name none.
pub open spec fn slave_in(options: Option<JsonView>) -> u8 {
    match tools::option_at(options, "slave_id"@) {
        Some(v) => match v.unsigned() {
            Some(n) => (n % 256) as u8,
            None => 1,
        },
        None => 1,
    }
}

/// The settings of a connect, with the defaults for what is not given.
pub fn connect_settings(timeout_ms: Option<u32>, options: &Option<Json>) -> (r: ConnectSettings)
    ensures
        r.slave == slave_in(tools::opt_json(*options)),
        r.timeout_ms == match timeout_ms {
            Some(ms) => ms as u64,
            None => DEFAULT_TIMEOUT_MS,
        },
{
    let slave: u8 = match tools::get_option(options, "slave_id") {
        Some(v) => match v.as_u64() {
            Some(n) => (n % 256) as u8,
            None => 1,
        },
        None => 1,
    };
    let timeout_ms: u32 = match timeout_ms {
        Some(ms) => ms,
        None => 5000,
    };
    ConnectSettings { slave, timeout_ms }
}

/// How an attempt to connect went. The addresses of the host are tried in turn; `Refused` holds why
/// each of them failed. The reasons are for the log alone.
#[derive(Debug)]
pub enum ConnectAttempt {
    Unresolved(String),
    TimedOut,
    Refused(Vec<String>),
    Connected,
}

/// An attempt to reach a host: how many addresses it has, and why those failed that were tried.
#[derive(Debug)]
pub struct Dialing {
    pub addresses: usize,
    pub failures: Vec<String>,
}

impl Dialing {
    /// An attempt that has not tried any address yet.
    pub fn new(addresses: usize) -> (r: Dialing)
        ensures
            r.addresses == addresses,
            r.failures@ == Seq::<String>::empty(),
    {
        Dialing { addresses, failures: Vec::new() }
    }

    /// The address to try next: the first one that has not failed. None if all have.
    pub fn next(&self) -> (r: Option<usize>)
        ensures
            r == if self.failures@.len() < self.addresses {
                Some(self.failures@.len() as usize)
            } else {
                None
            },
    {
        if self.failures.len() < self.addresses {
            Some(self.failures.len())
        } else {
            None
        }
    }

    /// Takes in that the address that was tried failed.
    pub fn failed(&mut self, e: String)
        ensures
            final(self).failures@ == old(self).failures@.push(e),
            final(self).addresses == old(self).addresses,
    {
        self.failures.push(e);
    }

    /// How the attempt went, once an address accepted or none is left.
    pub fn attempt(self, connected: bool) -> (r: ConnectAttempt)
        ensures
            r == if connected {
                ConnectAttempt::Connected
            } else {
                ConnectAttempt::Refused(self.failures)
            },
    {
        if connected {
            ConnectAttempt::Connected
        } else {
            ConnectAttempt::Refused(self.failures)
        }
    }
}

/// How an attempt goes that tries the addresses one by one, after these failures: whether an address
/// accepted, and the failures until then. `replies` holds, for each address, how it would fail, or
/// none if it would accept.
pub open spec fn dialed(replies: Seq<Option<String>>, failures: Seq<String>) -> (bool, Seq<String>)
    decreases replies.len() - failures.len(),
{
    if failures.len() >= replies.len() {
        (false, failures)
    } else {
        match replies[failures.len() as int] {
            None => (true, failures),
            Some(e) => dialed(replies, failures.push(e)),
        }
    }
}

/// Whether the addresses before the one at `i` would all fail, and it would accept.
pub open spec fn first_to_accept(replies: Seq<Option<String>>, i: int) -> bool {
    &&& 0 <= i < replies.len()
    &&& replies[i] is None
    &&& forall|j: int| 0 <= j < i ==> (#[trigger] replies[j]) is Some
}

proof fn lemma_dialed(replies: Seq<Option<String>>, failures: Seq<String>)
    requires
        failures.len() <= replies.len(),
        forall|j: int| 0 <= j < failures.len() ==> (#[trigger] replies[j]) == Some(failures[j]),
    ensures
        dialed(replies, failures).0 ==> first_to_accept(
            replies,
            dialed(replies, failures).1.len() as int,
        ),
        !dialed(replies, failures).0 ==> dialed(replies, failures).1.len() == replies.len(),
        forall|j: int|
            0 <= j < dialed(replies, failures).1.len() ==> (#[trigger] replies[j]) == Some(
                dialed(replies, failures).1[j],
            ),
    decreases replies.len() - failures.len(),
{
    if failures.len() < replies.len() {
        if let Some(e) = replies[failures.len() as int] {
            lemma_dialed(replies, failures.push(e));
        }
    }
}

/// Dialing ends at the first address that accepts, in the order of the addresses, and tries none
/// behind it. It comes to nothing only if every address fails; then it holds the failure of each.
pub proof fn law_first_accepting_address_wins(replies: Seq<Option<String>>)
    ensures
        ({
            let (connected, failures) = dialed(replies, Seq::empty());
            &&& connected <==> exists|i: int| first_to_accept(replies, i)
            &&& connected ==> first_to_accept(replies, failures.len() as int)
            &&& !connected ==> failures.len() == replies.len()
            &&& forall|j: int|
                0 <= j < failures.len() ==> (#[trigger] replies[j]) == Some(failures[j])
        }),
{
    lemma_dialed(replies, Seq::empty());
}

/// The version of the protocol.
pub open spec fn protocol_version() -> Seq<char> {
    "Modbus Application Protocol V1.1b3"@
}

/// The error on an attempt to connect, if it failed.
pub open spec fn connect_failure(
    host: Seq<char>,
    port: u16,
    timeout_ms: u32,
    attempt: ConnectAttempt,
) -> Option<AdapterErrorView> {
    let at = tools::endpoint(host, port);
    match attempt {
        ConnectAttempt::Connected => None,
        ConnectAttempt::Unresolved(_) => Some(
            envelope::plain_error(
                ErrorCode::ConnectionError,
                "DNS resolution failed for "@ + at,
            ),
        ),
        ConnectAttempt::TimedOut => Some(
            envelope::plain_error(
                ErrorCode::Timeout,
                "Connection to "@ + at + " timed out after "@ + text::decimal_text(
                    timeout_ms as nat,
                ) + "ms"@,
            ),
        ),
        ConnectAttempt::Refused(failures) => Some(
            envelope::plain_error(
                ErrorCode::ConnectionError,
                if failures@.len() == 0 {
                    "No addresses found for "@ + at
                } else {
                    "Failed to connect to "@ + at + " (tried "@ + text::decimal_text(
                        failures@.len(),
                    ) + " address(es))"@
                },
            ),
        ),
    }
}

/// The state of the adapter, and the unit it addresses while it is connected.
#[derive(Debug)]
pub struct ModbusServerInfo {
    pub info: ServerInfoResponse,
    pub slave_id: Option<u8>,
}

/// The state of the adapter, and the unit it addresses while it is connected.
pub open spec fn server_info(link: Option<ModbusConnectionView>, uptime_seconds: u64) -> (
    ServerInfoView,
    Option<u8>,
) {
    match link {
        None => (
            ServerInfoView {
                server_name: "modbus-mcp"@,
                protocol: "Modbus TCP"@,
                protocol_version: "unknown"@,
                connected: false,
                connection_state: "disconnected"@,
                capabilities: tools::tool_names("scan"@, "get_topic_tree"@),
                uptime_seconds: 0,
                last_error: None,
            },
            None,
        ),
        Some(c) => (
            ServerInfoView {
                server_name: "modbus-mcp@"@ + tools::endpoint(c.host, c.port),
                protocol: "Modbus TCP"@,
                protocol_version: protocol_version(),
                connected: true,
                connection_state: "connected"@,
                capabilities: tools::tool_names("scan"@, "get_topic_tree"@),
                uptime_seconds,
                last_error: c.last_error,
            },
            Some(c.slave),
        ),
    }
}

proof fn lemma_name_has_no_colon(kind: RegisterType)
    ensures
        !kind.name().contains(':'),
        connection::register_type_named(kind.name()) == Some(kind),
{
    reveal_strlit("holding");
    reveal_strlit("input");
    reveal_strlit("coil");
    reveal_strlit("discrete");
    assert("coil"@[0] == 'c');
    assert("discrete"@[0] == 'd');
    assert("holding"@[0] == 'h');
    assert("input"@[0] == 'i');
}

/// The identifier that a scan gives to an address names that address, as a 16-bit register or a
/// bit.
pub proof fn law_scan_ids_name_their_address(kind: RegisterType, address: u16)
    ensures
        connection::parsed(tag_at(kind, address as nat)) == Ok::<ParsedTag, AdapterErrorView>(
            connection::tag_of(kind, address, DataType::Uint16),
        ),
{
    let name = kind.name();
    let digits = text::decimal_text(address as nat);
    lemma_name_has_no_colon(kind);
    text::lemma_decimal_reads_back(address as nat, 65535);
    assert(!digits.contains(':')) by {
        assert forall|i: int| 0 <= i < digits.len() implies digits[i] != ':' by {
            assert(text::digit(digits[i]));
        }
    }
    text::lemma_split_one(name, ':');
    text::lemma_split_next(name, digits, ':');
    reveal_strlit(":");
    assert(name + ":"@ == name.push(':'));
    let parts = text::split_on(tag_at(kind, address as nat), ':');
    assert(parts == seq![name, digits]);
}

/// Input registers and discrete inputs are never writable, connected or not.
pub proof fn law_read_only_types_are_not_writable(
    link: Option<ModbusConnectionView>,
    req: WriteRequestView,
)
    requires
        connection::parsed(req.tag_id) is Ok,
        connection::parsed(req.tag_id)->Ok_0 is Input || connection::parsed(
            req.tag_id,
        )->Ok_0 is Discrete,
    ensures
        permitted_write(link, req) is Err,
        permitted_write(link, req)->Err_0.code == ErrorCode::TagNotWritable,
{
}

/// No write gets through for a tag that no permission names; without a topology none does.
pub proof fn law_unlisted_tags_are_not_writable(c: ModbusConnectionView, req: WriteRequestView)
    requires
        connection::parsed(req.tag_id) is Ok,
        !c.topology.write_permissions.contains_key(req.tag_id),
    ensures
        permitted_write(Some(c), req) is Err,
        permitted_write(Some(c), req)->Err_0.code == ErrorCode::TagNotWritable,
{
}

/// A write that gets through is for a holding register or a coil that a permission names, and its
/// value lies within the permitted range and has fitting units.
pub proof fn law_permitted_writes(link: Option<ModbusConnectionView>, req: WriteRequestView)
    requires
        permitted_write(link, req) is Ok,
    ensures
        link is Some,
        link->0.topology.write_permissions.contains_key(req.tag_id),
        permitted_write(link, req)->Ok_0.0 is Holding || permitted_write(link, req)->Ok_0.0 is Coil,
        ({
            let perm = link->0.topology.write_permissions[req.tag_id];
            &&& topology::units_fit(perm, req.units)
            &&& permitted_write(link, req)->Ok_0.1 matches WriteValue::Float(f) ==> {
                &&& perm.min matches Some(l) ==> !f.below(l.at)
                &&& perm.max matches Some(l) ==> !l.at.below(f)
            }
        }),
{
    topology::law_validated_in_range(
        link->0.topology.write_permissions[req.tag_id],
        req.value,
        req.shown,
        req.units,
        req.tag_id,
    );
}

/// A failure of the connection drops it, so that the adapter then reports itself disconnected; any
/// other failure of a request leaves the connection open and shows up as its last error.
pub proof fn law_failures_show(c: ModbusConnectionView, err: AdapterErrorView, uptime_seconds: u64)
    ensures
        err.code == ErrorCode::ConnectionError ==> {
            &&& recorded(Some(c), err) is None
            &&& !server_info(recorded(Some(c), err), uptime_seconds).0.connected
        },
        err.code != ErrorCode::ConnectionError ==> {
            &&& server_info(recorded(Some(c), err), uptime_seconds).0.connected
            &&& server_info(recorded(Some(c), err), uptime_seconds).0.last_error == Some(
                err.message,
            )
            &&& recorded(Some(c), err)->0.topology == c.topology
        },
{
}

/// Reading back what was written: if the device answers a read of a holding tag with the words of
/// the command that wrote it, the value read is the number written. For a tag of binary32 values it
/// is the number rounded to binary32, which is the number itself where binary32 can hold it.
pub proof fn law_write_then_read(
    tag: ParsedTag,
    value: WriteValue,
    req: WriteRequestView,
    command: WriteCommandView,
    words: Vec<u16>,
    back: Double,
)
    requires
        tag is Holding,
        number_of(value).finite(),
        commands(tag, value, req, Ok((command, value))),
        words@ == command_words(command),
        reads(
            tag,
            ReadReply::Registers(Some(Ok(Ok(words)))),
            req.tag_id,
            Ok(TagValueView::Float(back)),
        ),
    ensures
        !(tag->Holding_data_type is Float32) ==> back.finite() && back.value() == number_of(
            value,
        ).value(),
        tag->Holding_data_type is Float32 ==> exists|single: u32| #[trigger]
            number_of(value).narrows(single) && back.widens(single),
        tag->Holding_data_type is Float32 && (exists|single: u32| #[trigger]
            number_of(value).widens(single)) ==> back == number_of(value),
{
    let f = number_of(value);
    let data_type = tag->Holding_data_type;
    assert(connection::encodes(f, data_type, words@));
    if data_type is Float32 {
        assert(f.narrows(connection::joined(words@[0], words@[1])));
        if exists|single: u32| #[trigger] f.widens(single) {
            let single = choose|single: u32| f.widens(single);
            connection::law_float_round_trip(f, single, words@, back);
        }
    } else {
        connection::law_integer_round_trip(f, data_type, words@, back);
    }
}

/// Reading back what was written: if the device answers a read of a coil with the state that the
/// command set, that state is the value read.
pub proof fn law_coil_write_then_read(
    tag: ParsedTag,
    value: WriteValue,
    req: WriteRequestView,
    on: bool,
    bits: Vec<bool>,
)
    requires
        tag is Coil,
        commands(tag, value, req, Ok((WriteCommandView::Coil { address: tag.at(), on }, value))),
        bits@ == seq![on],
    ensures
        value == WriteValue::Bool(on),
        reads(
            tag,
            ReadReply::Bits(Some(Ok(Ok(bits)))),
            req.tag_id,
            Ok(TagValueView::Bool(on)),
        ),
{
}

} // verus!
