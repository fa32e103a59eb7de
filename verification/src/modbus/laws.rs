//! What the Modbus adapter keeps to, whatever the device answers.
use crate::double;
use crate::double::Double;
use crate::envelope;
use crate::envelope::{
    AdapterError, AdapterErrorView, ConnectResponse, ErrorCode, Quality, TagDescriptor, TagValue,
    TagValueView, Vqt, WriteValue,
};
use crate::json;
use crate::json::{Json, JsonView, Number};
use crate::laws;
use crate::modbus::connection;
use crate::modbus::connection::{
    DataType, ParsedTag, RegisterType, TagTree, TagTreeEntry,
};
use crate::modbus::server;
use crate::modbus::server::{
    ConnectAttempt, ConnectSettings, Dialing, ModbusMcpServer, ModbusServerInfo, ReadReply,
    ReadRequest, Reply, ScanReading, ScanValue, WriteCommand,
};
use crate::text;
use crate::topology;
use crate::topology::{TopologyConfig, TopologyTag};
use crate::writing::{Disconnected, WriteRequest, Written};
use vstd::arithmetic::power2::pow2;
use vstd::prelude::*;

verus! {

/// How a register type is called in a tag identifier.
pub open spec fn kind_name(kind: RegisterType) -> Seq<char> {
    match kind {
        RegisterType::Holding => "holding"@,
        RegisterType::Input => "input"@,
        RegisterType::Coil => "coil"@,
        RegisterType::Discrete => "discrete"@,
    }
}

/// How a data type is called in a tag identifier.
pub open spec fn data_name(data_type: DataType) -> Seq<char> {
    match data_type {
        DataType::Uint16 => "uint16"@,
        DataType::Int16 => "int16"@,
        DataType::Float32 => "float32"@,
        DataType::Int32 => "int32"@,
    }
}

/// The tag of a register type at an address. Coils and discrete inputs have no data type.
pub open spec fn tag_with(kind: RegisterType, address: u16, data_type: DataType) -> ParsedTag {
    match kind {
        RegisterType::Holding => ParsedTag::Holding { address, data_type },
        RegisterType::Input => ParsedTag::Input { address, data_type },
        RegisterType::Coil => ParsedTag::Coil { address },
        RegisterType::Discrete => ParsedTag::Discrete { address },
    }
}

/// Whether a scan entry stands for an address: it names the address, and read as a tag identifier it
/// names the register or bit there.
pub open spec fn names_address(kind: RegisterType, address: int, e: ScanReading) -> bool {
    &&& e.tag_id@ == kind_name(kind) + ":"@ + text::decimal_text(address as nat)
    &&& address <= 65535 ==> connection::parsed(e.tag_id@) == Ok::<ParsedTag, AdapterErrorView>(
        tag_with(kind, address as u16, DataType::Uint16),
    )
}

/// A scan of registers reports the i-th word that the device answers under the i-th address, for
/// every word, and nothing else. It leaves the connection as it is.
pub proof fn law_scan_reports_each_word_under_its_address(
    s: &mut ModbusMcpServer,
    request: ReadRequest,
    words: Vec<u16>,
    timestamp: &str,
    r: Result<Vec<ScanReading>, AdapterError>,
)
    requires
        call_ensures(
            ModbusMcpServer::scan,
            (s, request, ReadReply::Registers(Some(Ok(Ok(words)))), timestamp),
            r,
        ),
    ensures
        r is Ok,
        r->Ok_0@.len() == words@.len(),
        forall|i: int|
            0 <= i < words@.len() ==> {
                &&& (#[trigger] r->Ok_0@[i]).value == ScanValue::Word(words@[i])
                &&& names_address(request.kind, request.address + i, r->Ok_0@[i])
                &&& r->Ok_0@[i].quality == Quality::Good
                &&& r->Ok_0@[i].timestamp@ == timestamp@
            },
        final(s).link() == old(s).link(),
{
    let reply = ReadReply::Registers(Some(Ok(Ok(words))));
    let answer = server::scan_answer(request, reply, timestamp@);
    assert(answer is Ok);
    let entries = r->Ok_0@;
    laws::lemma_views(entries);
    assert(envelope::views(entries) == answer->Ok_0);
    assert forall|i: int| 0 <= i < words@.len() implies {
        &&& (#[trigger] entries[i]).value == ScanValue::Word(words@[i])
        &&& names_address(request.kind, request.address + i, entries[i])
        &&& entries[i].quality == Quality::Good
        &&& entries[i].timestamp@ == timestamp@
    } by {
        assert(envelope::views(entries)[i] == entries[i]@);
        if request.address + i <= 65535 {
            server::law_scan_ids_name_their_address(request.kind, (request.address + i) as u16);
        }
    }
}

/// A scan of bits reports the i-th bit that the device answers under the i-th address, for every
/// bit, and nothing else. It leaves the connection as it is.
pub proof fn law_scan_reports_each_bit_under_its_address(
    s: &mut ModbusMcpServer,
    request: ReadRequest,
    bits: Vec<bool>,
    timestamp: &str,
    r: Result<Vec<ScanReading>, AdapterError>,
)
    requires
        call_ensures(
            ModbusMcpServer::scan,
            (s, request, ReadReply::Bits(Some(Ok(Ok(bits)))), timestamp),
            r,
        ),
    ensures
        r is Ok,
        r->Ok_0@.len() == bits@.len(),
        forall|i: int|
            0 <= i < bits@.len() ==> {
                &&& (#[trigger] r->Ok_0@[i]).value == ScanValue::Bit(bits@[i])
                &&& names_address(request.kind, request.address + i, r->Ok_0@[i])
                &&& r->Ok_0@[i].quality == Quality::Good
                &&& r->Ok_0@[i].timestamp@ == timestamp@
            },
        final(s).link() == old(s).link(),
{
    let reply = ReadReply::Bits(Some(Ok(Ok(bits))));
    let answer = server::scan_answer(request, reply, timestamp@);
    assert(answer is Ok);
    let entries = r->Ok_0@;
    laws::lemma_views(entries);
    assert(envelope::views(entries) == answer->Ok_0);
    assert forall|i: int| 0 <= i < bits@.len() implies {
        &&& (#[trigger] entries[i]).value == ScanValue::Bit(bits@[i])
        &&& names_address(request.kind, request.address + i, entries[i])
        &&& entries[i].quality == Quality::Good
        &&& entries[i].timestamp@ == timestamp@
    } by {
        assert(envelope::views(entries)[i] == entries[i]@);
        if request.address + i <= 65535 {
            server::law_scan_ids_name_their_address(request.kind, (request.address + i) as u16);
        }
    }
}

/// The number of registers that a value of the data type takes.
pub open spec fn registers_for(data_type: DataType) -> nat {
    if data_type is Float32 || data_type is Int32 {
        2
    } else {
        1
    }
}

/// The number that binary32 bits stand for, in steps of 2^-1074: `fraction` has 23 bits, and
/// `exponent` is less than 255.
pub open spec fn binary32_steps(exponent: nat, fraction: nat) -> nat {
    if exponent == 0 {
        fraction * pow2(925)
    } else {
        (0x80_0000 + fraction) * pow2((exponent - 1) as nat) * pow2(925)
    }
}

/// Whether registers hold a number: one register an unsigned or a two's complement number, two
/// registers, the high one first, a two's complement number or a binary32 number.
pub open spec fn hold(words: Seq<u16>, data_type: DataType, d: Double) -> bool {
    let hi = words[0] as int;
    let lo = words[1] as int;
    match data_type {
        DataType::Uint16 => d.is_integer(hi),
        DataType::Int16 => d.is_integer(
            if hi < 0x8000 {
                hi
            } else {
                hi - 0x1_0000
            },
        ),
        DataType::Int32 => d.is_integer(
            if hi < 0x8000 {
                hi * 0x1_0000 + lo
            } else {
                hi * 0x1_0000 + lo - 0x1_0000_0000
            },
        ),
        DataType::Float32 => {
            let exponent = (hi % 0x8000) / 0x80;
            let fraction = (hi % 0x80) * 0x1_0000 + lo;
            if exponent == 255 {
                &&& !d.finite()
                &&& d.nan() <==> fraction != 0
                &&& fraction == 0 ==> d.negative() == (hi >= 0x8000)
            } else {
                let steps = binary32_steps(exponent as nat, fraction as nat) as int;
                &&& d.finite()
                &&& d.negative() == (hi >= 0x8000)
                &&& d.value() == if hi >= 0x8000 {
                    -steps
                } else {
                    steps
                }
            }
        },
    }
}

proof fn lemma_decoded_registers(words: Seq<u16>, data_type: DataType, d: Double)
    requires
        words.len() >= registers_for(data_type),
        connection::decodes(words, data_type, d),
    ensures
        hold(words, data_type, d),
{
    let hi = words[0];
    let lo = words[1];
    match data_type {
        DataType::Uint16 => {
            double::lemma_of_integer_exact(hi as int);
        },
        DataType::Int16 => {
            double::lemma_of_integer_exact(connection::signed16(hi));
        },
        DataType::Int32 => {
            double::lemma_of_integer_exact(connection::signed32(hi, lo));
        },
        DataType::Float32 => {
            let bits = connection::joined(hi, lo);
            let m = double::single_magnitude(bits);
            let exponent = ((hi % 0x8000) / 0x80) as nat;
            let fraction = ((hi % 0x80) * 0x1_0000 + lo) as nat;
            assert(pow2(23) == 0x80_0000) by {
                vstd::arithmetic::power2::lemma2_to64();
            }
            assert(m == exponent * 0x80_0000 + fraction);
            assert(m / 0x80_0000 == exponent && m % 0x80_0000 == fraction);
        },
    }
}

/// Reading a tag by registers, holding or input, gives the number that the first registers of the
/// device's answer hold in the tag's data type; it fails exactly if there are too few of them.
pub proof fn law_read_gives_the_number_in_the_registers(
    tag: ParsedTag,
    data_type: DataType,
    words: Vec<u16>,
    tag_id: &str,
    r: Result<TagValue, AdapterError>,
)
    requires
        match tag {
            ParsedTag::Holding { data_type: t, .. } => t == data_type,
            ParsedTag::Input { data_type: t, .. } => t == data_type,
            _ => false,
        },
        call_ensures(
            server::read_parsed_tag,
            (tag, ReadReply::Registers(Some(Ok(Ok(words)))), tag_id),
            r,
        ),
    ensures
        r is Ok <==> words@.len() >= registers_for(data_type),
        r matches Ok(v) ==> v matches TagValue::Float(d) && hold(words@, data_type, d),
        r matches Err(e) ==> e.code == ErrorCode::ConnectionError,
{
    if words@.len() >= registers_for(data_type) {
        lemma_decoded_registers(words@, data_type, r->Ok_0@->Float_0);
    }
}

/// Input registers are read like holding registers: for one reply a tag of either type and of one
/// data type has one value, or fails with one error. Of a NaN, only that it is one.
pub proof fn law_input_registers_read_like_holding_registers(
    a: u16,
    b: u16,
    data_type: DataType,
    reply: ReadReply,
    tag_id: &str,
    input: Result<TagValue, AdapterError>,
    holding: Result<TagValue, AdapterError>,
)
    requires
        reply is Registers,
        call_ensures(
            server::read_parsed_tag,
            (ParsedTag::Input { address: a, data_type }, reply, tag_id),
            input,
        ),
        call_ensures(
            server::read_parsed_tag,
            (ParsedTag::Holding { address: b, data_type }, reply, tag_id),
            holding,
        ),
    ensures
        envelope::outcome_view(input) == envelope::outcome_view(holding) || match (input, holding) {
            (Ok(TagValue::Float(x)), Ok(TagValue::Float(y))) => x.nan() && y.nan(),
            _ => false,
        },
{
    if let (Ok(TagValue::Float(x)), Ok(TagValue::Float(y))) = (input, holding) {
        if data_type is Float32 {
            let words = reply->Registers_0->0->Ok_0->Ok_0@;
            let bits = connection::joined(words[0], words[1]);
            assert(x.widens(bits) && y.widens(bits));
            if !double::single_nan(bits) {
                double::lemma_widen_unique(bits, x, y);
            }
        }
    }
}

/// Reading a coil or a discrete input gives the first bit of the device's answer; it fails exactly if
/// there is none.
pub proof fn law_read_gives_the_bit(
    tag: ParsedTag,
    bits: Vec<bool>,
    tag_id: &str,
    r: Result<TagValue, AdapterError>,
)
    requires
        tag is Coil || tag is Discrete,
        call_ensures(
            server::read_parsed_tag,
            (tag, ReadReply::Bits(Some(Ok(Ok(bits)))), tag_id),
            r,
        ),
    ensures
        r is Ok <==> bits@.len() > 0,
        r matches Ok(v) ==> v == TagValue::Bool(bits@[0]),
        r matches Err(e) ==> e.code == ErrorCode::ConnectionError,
{
}

/// How a read or a write that the device did not carry out is classed, for every way in which that
/// can come about; none if the device answered.
pub open spec fn failure_class<T>(reply: Reply<T>, is_write: bool) -> Option<ErrorCode> {
    match reply {
        Some(Ok(Ok(_))) => None,
        None => Some(ErrorCode::Timeout),
        Some(Err(_)) => Some(ErrorCode::ConnectionError),
        Some(Ok(Err(code))) => if code is IllegalDataAddress {
            Some(ErrorCode::TagNotFound)
        } else if code is IllegalDataValue {
            Some(ErrorCode::InvalidValue)
        } else if code is IllegalFunction && is_write {
            Some(ErrorCode::TagNotWritable)
        } else {
            Some(ErrorCode::ConnectionError)
        },
    }
}

/// What a reply is to the adapter as to its class.
pub open spec fn reply_class(reply: ReadReply) -> Option<ErrorCode> {
    match reply {
        ReadReply::Registers(words) => failure_class(words, false),
        ReadReply::Bits(bits) => failure_class(bits, false),
    }
}

/// A read of a well-formed tag on an open connection answers the value that the reply gives, of good
/// quality, with the time of the read and the units of the tag. If the device did not answer, it
/// fails with the class of the failure, on that tag.
pub proof fn law_read_tag(
    s: &mut ModbusMcpServer,
    tag: ParsedTag,
    tag_id: &str,
    reply: ReadReply,
    timestamp: String,
    r: Result<Vqt, AdapterError>,
)
    requires
        old(s).link() is Some,
        connection::parsed(tag_id@) == Ok::<ParsedTag, AdapterErrorView>(tag),
        reply is Registers <==> tag is Holding || tag is Input,
        call_ensures(ModbusMcpServer::read_tag, (s, tag_id, reply, timestamp), r),
    ensures
        r matches Ok(v) ==> {
            &&& reply_class(reply) is None
            &&& match (tag, reply) {
                (
                    ParsedTag::Holding { data_type, .. },
                    ReadReply::Registers(Some(Ok(Ok(words)))),
                ) => v.value@ is Float && hold(words@, data_type, v.value@->Float_0),
                (
                    ParsedTag::Input { data_type, .. },
                    ReadReply::Registers(Some(Ok(Ok(words)))),
                ) => v.value@ is Float && hold(words@, data_type, v.value@->Float_0),
                (_, ReadReply::Bits(Some(Ok(Ok(bits))))) => bits@.len() > 0 && v.value@
                    == TagValueView::Bool(bits@[0]),
                _ => false,
            }
            &&& v.tag_id@ == tag_id@
            &&& v.quality == Quality::Good
            &&& v.timestamp@ == timestamp@
            &&& v.units@ == topology::units_of(old(s).link()->0.topology.tags, tag_id@)
            &&& final(s).link() == old(s).link()
        },
        reply_class(reply) matches Some(code) ==> {
            &&& r matches Err(e) && e.code == code && e.tag_id is Some && e.tag_id->0@ == tag_id@
        },
        reply matches ReadReply::Registers(Some(Ok(Ok(words)))) && tag is Holding && words@.len()
            >= registers_for(tag->Holding_data_type) ==> r is Ok,
        reply matches ReadReply::Registers(Some(Ok(Ok(words)))) && tag is Input && words@.len()
            >= registers_for(tag->Input_data_type) ==> r is Ok,
        reply matches ReadReply::Bits(Some(Ok(Ok(bits)))) && bits@.len() > 0 ==> r is Ok,
        r is Err ==> final(s).link() == server::recorded(old(s).link(), r->Err_0@),
{
    if let (Ok(v), ReadReply::Registers(Some(Ok(Ok(words))))) = (r, reply) {
        match tag {
            ParsedTag::Holding { data_type, .. } => {
                lemma_decoded_registers(words@, data_type, v.value@->Float_0);
            },
            ParsedTag::Input { data_type, .. } => {
                lemma_decoded_registers(words@, data_type, v.value@->Float_0);
            },
            _ => {},
        }
    }
    if r is Err {
        assert(server::reads(tag, reply, tag_id@, Err(r->Err_0@)));
    }
}

/// What a scan shows of a register is what a read of the entry's identifier gives if the device
/// answers that read with the same word.
pub proof fn law_scan_shows_what_read_tag_reads(
    s: &mut ModbusMcpServer,
    request: ReadRequest,
    words: Vec<u16>,
    at: &str,
    entries: Result<Vec<ScanReading>, AdapterError>,
    i: int,
    t: &mut ModbusMcpServer,
    tag_id: &str,
    word: Vec<u16>,
    timestamp: String,
    r: Result<Vqt, AdapterError>,
)
    requires
        call_ensures(
            ModbusMcpServer::scan,
            (s, request, ReadReply::Registers(Some(Ok(Ok(words)))), at),
            entries,
        ),
        request.kind is Holding || request.kind is Input,
        0 <= i < words@.len(),
        request.address + i <= 65535,
        old(t).link() is Some,
        tag_id@ == entries->Ok_0@[i].tag_id@,
        word@ == seq![words@[i]],
        call_ensures(
            ModbusMcpServer::read_tag,
            (t, tag_id, ReadReply::Registers(Some(Ok(Ok(word)))), timestamp),
            r,
        ),
    ensures
        r is Ok,
        entries->Ok_0@[i].value matches ScanValue::Word(w) && r->Ok_0.value
            matches TagValue::Float(d) && d.is_integer(w as int),
{
    law_scan_reports_each_word_under_its_address(s, request, words, at, entries);
    let e = entries->Ok_0@[i];
    assert(names_address(request.kind, request.address + i, e));
    let tag = tag_with(request.kind, (request.address + i) as u16, DataType::Uint16);
    let reply = ReadReply::Registers(Some(Ok(Ok(word))));
    law_read_tag(t, tag, tag_id, reply, timestamp, r);
    assert(word@[0] == words@[i]);
    assert(r is Ok) by {
        if r is Err {
            assert(server::reads(tag, reply, tag_id@, Err(r->Err_0@)));
        }
    }
    lemma_decoded_registers(word@, DataType::Uint16, r->Ok_0.value@->Float_0);
}

/// The request that reads a tag asks for the registers or the bit that the tag names: its register
/// type, its address, and as many registers as its data type takes.
pub proof fn law_read_request_names_the_tag(tag: ParsedTag, q: ReadRequest)
    requires
        call_ensures(server::read_request, (tag,), q),
    ensures
        match tag {
            ParsedTag::Holding { address, data_type } => q == (ReadRequest {
                kind: RegisterType::Holding,
                address,
                count: registers_for(data_type) as u16,
            }),
            ParsedTag::Input { address, data_type } => q == (ReadRequest {
                kind: RegisterType::Input,
                address,
                count: registers_for(data_type) as u16,
            }),
            ParsedTag::Coil { address } => q == (ReadRequest {
                kind: RegisterType::Coil,
                address,
                count: 1,
            }),
            ParsedTag::Discrete { address } => q == (ReadRequest {
                kind: RegisterType::Discrete,
                address,
                count: 1,
            }),
        },
{
}

/// A read asks the device for what the tag's identifier names, if there is a connection.
pub proof fn law_read_tag_request(
    s: &ModbusMcpServer,
    tag: ParsedTag,
    tag_id: &str,
    r: Result<ReadRequest, AdapterError>,
    q: ReadRequest,
)
    requires
        call_ensures(ModbusMcpServer::read_tag_request, (s, tag_id), r),
        connection::parsed(tag_id@) == Ok::<ParsedTag, AdapterErrorView>(tag),
        call_ensures(server::read_request, (tag,), q),
    ensures
        s.link() is Some ==> r == Ok::<ReadRequest, AdapterError>(q),
        s.link() is None ==> r is Err && r->Err_0.code == ErrorCode::ConnectionError,
{
}

/// A scan asks for the registers or bits of the type that is named, from the start address on: at
/// least one, and at most 125 registers or 2000 bits.
pub proof fn law_scan_request(
    s: &ModbusMcpServer,
    kind: RegisterType,
    name: &str,
    start_address: u16,
    count: u16,
    r: Result<ReadRequest, AdapterError>,
)
    requires
        call_ensures(ModbusMcpServer::scan_request, (s, name, start_address, count), r),
        text::lowercase(name@) == kind_name(kind),
    ensures
        ({
            let most = if kind is Coil || kind is Discrete {
                2000int
            } else {
                125
            };
            &&& r is Ok <==> s.link() is Some && 1 <= count <= most
            &&& r is Ok ==> r->Ok_0 == (ReadRequest { kind, address: start_address, count })
            &&& !(1 <= count <= most) ==> r->Err_0.code == ErrorCode::InvalidValue
            &&& 1 <= count <= most && s.link() is None ==> r->Err_0.code
                == ErrorCode::ConnectionError
        }),
{
    lemma_kind_names(kind);
}

proof fn lemma_kind_names(kind: RegisterType)
    ensures
        connection::register_type_named(kind_name(kind)) == Some(kind),
        !kind_name(kind).contains(':'),
        kind_name(kind) == "coil"@ <==> kind is Coil,
        kind_name(kind) == "discrete"@ <==> kind is Discrete,
{
    reveal_strlit("holding");
    reveal_strlit("input");
    reveal_strlit("coil");
    reveal_strlit("discrete");
    assert("coil"@[0] == 'c');
    assert("discrete"@[0] == 'd');
    assert("holding"@[0] == 'h');
    assert("input"@[0] == 'i');
}

proof fn lemma_data_names(data_type: DataType)
    ensures
        connection::data_type_named(data_name(data_type)) == Some(data_type),
        !data_name(data_type).contains(':'),
{
    reveal_strlit("uint16");
    reveal_strlit("int16");
    reveal_strlit("float32");
    reveal_strlit("int32");
    assert("uint16"@.len() == 6);
    assert("int16"@.len() == 5);
    assert("float32"@.len() == 7);
    assert("int32"@.len() == 5);
    assert("int16"@[3] == '1');
    assert("int32"@[3] == '3');
}

/// An identifier made of a register type and an address names that address, read as one unsigned
/// register or as a bit.
pub proof fn law_short_identifiers(
    kind: RegisterType,
    address: u16,
    tag_id: &str,
    r: Result<ParsedTag, AdapterError>,
)
    requires
        call_ensures(connection::parse_tag_id, (tag_id,), r),
        tag_id@ == kind_name(kind) + ":"@ + text::decimal_text(address as nat),
    ensures
        r == Ok::<ParsedTag, AdapterError>(tag_with(kind, address, DataType::Uint16)),
{
    server::law_scan_ids_name_their_address(kind, address);
    assert(server::tag_at(kind, address as nat) == tag_id@);
}

/// An identifier with a data type names registers of that type; of coils and discrete inputs, which
/// have none, it names nothing.
pub proof fn law_typed_identifiers(
    kind: RegisterType,
    address: u16,
    data_type: DataType,
    tag_id: &str,
    r: Result<ParsedTag, AdapterError>,
)
    requires
        call_ensures(connection::parse_tag_id, (tag_id,), r),
        tag_id@ == kind_name(kind) + ":"@ + text::decimal_text(address as nat) + ":"@ + data_name(
            data_type,
        ),
    ensures
        kind is Holding || kind is Input ==> r == Ok::<ParsedTag, AdapterError>(
            tag_with(kind, address, data_type),
        ),
        kind is Coil || kind is Discrete ==> r is Err && r->Err_0.code == ErrorCode::TagNotFound,
{
    let name = kind_name(kind);
    let digits = text::decimal_text(address as nat);
    let typed = data_name(data_type);
    lemma_kind_names(kind);
    lemma_data_names(data_type);
    text::lemma_decimal_reads_back(address as nat, 65535);
    assert(!digits.contains(':')) by {
        assert forall|i: int| 0 <= i < digits.len() implies digits[i] != ':' by {
            assert(text::digit(digits[i]));
        }
    }
    reveal_strlit(":");
    text::lemma_split_one(name, ':');
    text::lemma_split_next(name, digits, ':');
    let head = name.push(':') + digits;
    text::lemma_split_next(head, typed, ':');
    assert(name + ":"@ == name.push(':'));
    assert(head + ":"@ == head.push(':'));
    assert(tag_id@ == head.push(':') + typed);
    assert(text::split_on(tag_id@, ':') == seq![name, digits, typed]);
}

/// Whether an identifier is made of a register type, a number in decimal, and perhaps a data type.
pub open spec fn spells(tag_id: Seq<char>, tag: ParsedTag, digits: Seq<char>) -> bool {
    let (kind, address, data_type) = match tag {
        ParsedTag::Holding { address, data_type } => (RegisterType::Holding, address, data_type),
        ParsedTag::Input { address, data_type } => (RegisterType::Input, address, data_type),
        ParsedTag::Coil { address } => (RegisterType::Coil, address, DataType::Uint16),
        ParsedTag::Discrete { address } => (RegisterType::Discrete, address, DataType::Uint16),
    };
    let short = kind_name(kind) + ":"@ + digits;
    &&& text::unsigned(digits, 65535) == Some(address as nat)
    &&& tag_id == short && data_type is Uint16 || {
        &&& tag_id == short + ":"@ + data_name(data_type)
        &&& kind is Holding || kind is Input
    }
}

/// Every identifier that names a tag is made of the tag's register type, its address in decimal, and
/// perhaps its data type. What names no tag is not found.
pub proof fn law_identifiers_spell_their_tag(tag_id: &str, r: Result<ParsedTag, AdapterError>)
    requires
        call_ensures(connection::parse_tag_id, (tag_id,), r),
    ensures
        r matches Ok(tag) ==> exists|digits: Seq<char>| #[trigger] spells(tag_id@, tag, digits),
        r matches Err(e) ==> {
            &&& e.code == ErrorCode::TagNotFound
            &&& e.tag_id is Some && e.tag_id->0@ == tag_id@
        },
{
    if let Ok(tag) = r {
        let parts = text::split_on(tag_id@, ':');
        text::lemma_split_join(tag_id@, ':');
        reveal_strlit(":");
        let a = parts[0];
        let b = parts[1];
        assert(a + ":"@ == a.push(':'));
        if parts.len() == 2 {
            assert(parts.drop_last() == seq![a]);
            assert(text::join_with(seq![a], ':') == a);
            assert(tag_id@ == a.push(':') + b);
        } else {
            let c = parts[2];
            assert(parts.drop_last() == seq![a, b]);
            assert(seq![a, b].drop_last() == seq![a]);
            assert(text::join_with(seq![a], ':') == a);
            assert(text::join_with(seq![a, b], ':') == a.push(':') + b);
            let head = a.push(':') + b;
            assert(head + ":"@ == head.push(':'));
            assert(tag_id@ == head.push(':') + c);
        }
        assert(spells(tag_id@, tag, b));
    }
}

/// Whether a command puts a value to write into what a tag names: a boolean into a coil, a number
/// into the registers of its data type, one with the function for a single register. Into registers a
/// boolean goes as one or zero. A binary32 register pair holds the number rounded to nearest, which is
/// the number as it is, if that is a binary32 number.
pub open spec fn puts(tag: ParsedTag, value: WriteValue, command: WriteCommand) -> bool {
    match (tag, command) {
        (ParsedTag::Coil { address }, WriteCommand::Coil { address: at, on }) => {
            &&& at == address
            &&& value == WriteValue::Bool(on)
        },
        (
            ParsedTag::Holding { address, data_type },
            WriteCommand::Register { address: at, word },
        ) => {
            &&& at == address
            &&& registers_for(data_type) == 1
            &&& puts_number(seq![word], data_type, value)
        },
        (
            ParsedTag::Holding { address, data_type },
            WriteCommand::Registers { address: at, words },
        ) => {
            &&& at == address
            &&& registers_for(data_type) == 2
            &&& words@.len() == 2
            &&& puts_number(words@, data_type, value)
        },
        _ => false,
    }
}

/// Whether words hold a value to write in a data type, as they are read back.
pub open spec fn puts_number(words: Seq<u16>, data_type: DataType, value: WriteValue) -> bool {
    match value {
        WriteValue::Bool(b) => exists|d: Double|
            #![trigger hold(words, data_type, d)]
            d.is_integer(
                if b {
                    1
                } else {
                    0
                },
            ) && hold(words, data_type, d),
        WriteValue::Float(f) => {
            &&& f.finite()
            &&& !(data_type is Float32) ==> hold(words, data_type, f)
            &&& data_type is Float32 ==> f.narrows((words[0] * 0x1_0000 + words[1]) as u32)
            &&& data_type is Float32 ==> (exists|single: u32| #[trigger] f.widens(single)) ==> hold(
                words,
                data_type,
                f,
            )
        },
    }
}

proof fn lemma_encoded_number(f: Double, data_type: DataType, words: Seq<u16>)
    requires
        f.finite(),
        connection::encodes(f, data_type, words),
    ensures
        words.len() == registers_for(data_type),
        data_type is Float32 ==> f.narrows((words[0] * 0x1_0000 + words[1]) as u32),
        !(data_type is Float32) ==> hold(words, data_type, f),
        data_type is Float32 && (exists|single: u32| #[trigger] f.widens(single)) ==> hold(
            words,
            data_type,
            f,
        ),
{
    if data_type is Float32 {
        if exists|single: u32| #[trigger] f.widens(single) {
            let single = choose|single: u32| #[trigger] f.widens(single);
            double::lemma_widen_narrow(single, f, connection::joined(words[0], words[1]));
            lemma_decoded_registers(words, data_type, f);
        }
    }
}

proof fn lemma_small_integer_single(d: Double, n: int)
    requires
        n == 0 || n == 1,
        d == double::of_integer(n),
    ensures
        exists|single: u32| #[trigger] d.widens(single),
        d.is_integer(n),
{
    double::lemma_of_integer_exact(n);
    vstd::arithmetic::power2::lemma2_to64();
    let single: u32 = if n == 0 {
        0
    } else {
        0x3f80_0000
    };
    let m = double::single_magnitude(single);
    assert(m / 0x80_0000 == if n == 0 { 0int } else { 127 });
    assert(m % 0x80_0000 == 0);
    vstd::arithmetic::power2::lemma_pow2_adds(126, 925);
    vstd::arithmetic::power2::lemma_pow2_adds(23, 1051);
    vstd::arithmetic::mul::lemma_mul_is_associative(
        pow2(23) as int,
        pow2(126) as int,
        pow2(925) as int,
    );
    assert(double::steps(m, 23) * double::single_step() == n * double::one());
    vstd::arithmetic::power2::lemma_pow2_pos(1074);
    assert(d.widens(single));
}

/// What a write sends is what the request asks for: a tag that a permission names, and that is a
/// holding register or a coil; the value of the document, within the permitted range; and exactly the
/// configured units, where any are configured.
pub proof fn law_write_request(
    s: &ModbusMcpServer,
    req: &WriteRequest,
    command: WriteCommand,
    value: WriteValue,
)
    requires
        call_ensures(
            ModbusMcpServer::write_tag_request,
            (s, req),
            Ok::<(WriteCommand, WriteValue), AdapterError>((command, value)),
        ),
    ensures
        s.inner is Some,
        s.link()->0.topology.write_permissions.contains_key(req.tag_id@),
        ({
            let perm = s.link()->0.topology.write_permissions[req.tag_id@];
            &&& perm.units matches Some(u) ==> u.len() == 0 || u == req.units@
            &&& value matches WriteValue::Float(f) ==> {
                &&& perm.min matches Some(l) ==> l.at.nan() || f.nan() || l.at.value() <= f.value()
                &&& perm.max matches Some(l) ==> l.at.nan() || f.nan() || f.value() <= l.at.value()
            }
        }),
        laws::is_document(req.value, value),
        connection::parsed(req.tag_id@) is Ok,
        puts(connection::parsed(req.tag_id@)->Ok_0, value, command),
{
    let tag = connection::parsed(req.tag_id@)->Ok_0;
    laws::lemma_document(req.value, value);
    if let ParsedTag::Holding { data_type, .. } = tag {
        let f = server::number_of(value);
        let words = server::command_words(command@);
        let document = json::number_document(f);
        assert(connection::encoded(document, req.shown@, data_type, req.tag_id@, Ok(words)));
        assert(f.finite());
        lemma_encoded_number(f, data_type, words);
        if let WriteValue::Bool(b) = value {
            let n: int = if b {
                1
            } else {
                0
            };
            lemma_small_integer_single(f, n);
            assert(hold(words, data_type, f));
        }
        match command {
            WriteCommand::Register { word, .. } => {
                assert(puts_number(seq![word], data_type, value));
            },
            WriteCommand::Registers { words: w, .. } => {
                assert(puts_number(w@, data_type, value));
            },
            _ => {},
        }
    }
}

/// A number that is permitted and fits is sent: to a holding register a whole number in the range of
/// its data type, or any number that rounds to a binary32 number.
pub proof fn law_numbers_that_fit_are_sent(
    s: &ModbusMcpServer,
    req: &WriteRequest,
    address: u16,
    data_type: DataType,
    f: Double,
    n: int,
    r: Result<(WriteCommand, WriteValue), AdapterError>,
)
    requires
        call_ensures(ModbusMcpServer::write_tag_request, (s, req), r),
        req.value == Json::Number(Number::Float(f)),
        connection::parsed(req.tag_id@) == Ok::<ParsedTag, AdapterErrorView>(
            ParsedTag::Holding { address, data_type },
        ),
        s.link() is Some,
        s.link()->0.topology.write_permissions.contains_key(req.tag_id@),
        ({
            let perm = s.link()->0.topology.write_permissions[req.tag_id@];
            &&& perm.units matches Some(u) ==> u.len() == 0 || u == req.units@
            &&& perm.min matches Some(l) ==> l.at.value() <= f.value()
            &&& perm.max matches Some(l) ==> f.value() <= l.at.value()
        }),
        match data_type {
            DataType::Uint16 => f.is_integer(n) && 0 <= n <= 65535,
            DataType::Int16 => f.is_integer(n) && -32768 <= n <= 32767,
            DataType::Int32 => f.is_integer(n) && -2147483648 <= n <= 2147483647,
            DataType::Float32 => f.magnitude() < 0x47ef_ffff_f000_0000,
        },
    ensures
        r matches Ok((_, value)) && value == WriteValue::Float(f),
{
    if data_type is Float32 {
        connection::law_float_range(f);
    } else {
        connection::law_integer_range(f, n, data_type);
    }
}

/// A boolean that is permitted is sent to a coil.
pub proof fn law_booleans_are_sent_to_coils(
    s: &ModbusMcpServer,
    req: &WriteRequest,
    address: u16,
    on: bool,
    r: Result<(WriteCommand, WriteValue), AdapterError>,
)
    requires
        call_ensures(ModbusMcpServer::write_tag_request, (s, req), r),
        req.value == Json::Bool(on),
        connection::parsed(req.tag_id@) == Ok::<ParsedTag, AdapterErrorView>(
            ParsedTag::Coil { address },
        ),
        s.link() is Some,
        s.link()->0.topology.write_permissions.contains_key(req.tag_id@),
        s.link()->0.topology.write_permissions[req.tag_id@].units matches Some(u) ==> u.len() == 0
            || u == req.units@,
    ensures
        r == Ok::<(WriteCommand, WriteValue), AdapterError>(
            (WriteCommand::Coil { address, on }, WriteValue::Bool(on)),
        ),
{
}

/// What is refused is refused for a reason: there is no such tag, it is of a type that Modbus cannot
/// write, there is no connection, no permission names it, or its value is not one that is permitted
/// and fits.
pub proof fn law_refused_writes(
    s: &ModbusMcpServer,
    req: &WriteRequest,
    e: AdapterError,
)
    requires
        call_ensures(
            ModbusMcpServer::write_tag_request,
            (s, req),
            Err::<(WriteCommand, WriteValue), AdapterError>(e),
        ),
    ensures
        match connection::parsed(req.tag_id@) {
            Err(_) => e.code == ErrorCode::TagNotFound,
            Ok(tag) => if tag is Input || tag is Discrete {
                e.code == ErrorCode::TagNotWritable
            } else if s.inner is None {
                e.code == ErrorCode::ConnectionError
            } else if !s.link()->0.topology.write_permissions.contains_key(req.tag_id@) {
                e.code == ErrorCode::TagNotWritable
            } else {
                e.code == ErrorCode::InvalidValue
            },
        },
        e.tag_id is Some && e.tag_id->0@ == req.tag_id@,
{
}

/// A write that the device carried out is confirmed, with the value, the units, the operator and the
/// time of the write, and leaves the connection as it is. One that it did not carry out fails with
/// the class of the failure.
pub proof fn law_write_tag(
    s: &mut ModbusMcpServer,
    req: WriteRequest,
    value: WriteValue,
    reply: Reply<()>,
    timestamp: String,
    r: Result<Written, AdapterError>,
)
    requires
        call_ensures(ModbusMcpServer::write_tag, (s, req, value, reply, timestamp), r),
    ensures
        match failure_class(reply, true) {
            None => r matches Ok(w) && {
                &&& w.confirmation.tag_id@ == req.tag_id@
                &&& w.confirmation.value_written == value
                &&& w.confirmation.quality == Quality::Good
                &&& w.confirmation.timestamp@ == timestamp@
                &&& w.confirmation.units@ == req.units@
                &&& w.confirmation.operator_id@ == req.operator_id@
                &&& w.audit.tag_id@ == req.tag_id@
                &&& w.audit.value@ == req.value@
                &&& w.audit.units@ == req.units@
                &&& w.audit.operator_id@ == req.operator_id@
                &&& w.audit.reason@ == req.reason@
                &&& final(s).link() == old(s).link()
            },
            Some(code) => r matches Err(e) && e.code == code && e.tag_id is Some && e.tag_id->0@
                == req.tag_id@ && final(s).link() == server::recorded(old(s).link(), e@),
        },
{
}

/// A scan that the device did not answer fails with the class of the failure.
pub proof fn law_failed_scans(
    s: &mut ModbusMcpServer,
    request: ReadRequest,
    reply: ReadReply,
    timestamp: &str,
    r: Result<Vec<ScanReading>, AdapterError>,
)
    requires
        call_ensures(ModbusMcpServer::scan, (s, request, reply, timestamp), r),
    ensures
        r is Ok <==> reply_class(reply) is None,
        r matches Err(e) ==> reply_class(reply) == Some(e.code),
        r is Err ==> final(s).link() == server::recorded(old(s).link(), r->Err_0@),
{
}

/// A failure of the connection drops it. Any other failure of a request leaves it open, to the same
/// device and with the same topology, and is its last error from then on.
pub proof fn law_failures_are_recorded(
    c: connection::ModbusConnectionView,
    e: AdapterErrorView,
)
    ensures
        e.code == ErrorCode::ConnectionError ==> server::recorded(Some(c), e) is None,
        e.code != ErrorCode::ConnectionError ==> {
            &&& server::recorded(Some(c), e) is Some
            &&& server::recorded(Some(c), e)->0.host == c.host
            &&& server::recorded(Some(c), e)->0.port == c.port
            &&& server::recorded(Some(c), e)->0.slave == c.slave
            &&& server::recorded(Some(c), e)->0.topology == c.topology
            &&& server::recorded(Some(c), e)->0.last_error == Some(e.message)
        },
        server::recorded(None, e) is None,
{
}

/// A connect that reached the device leaves a connection to the host, the port and the unit that were
/// asked for, without an error, and answers with host and port. One that did not leaves none, and is
/// a timeout if that was the reason.
pub proof fn law_connect(
    s: &mut ModbusMcpServer,
    host: String,
    port: u16,
    settings: ConnectSettings,
    attempt: ConnectAttempt,
    tried: Vec<Option<TopologyConfig>>,
    timestamp: String,
    r: Result<ConnectResponse, AdapterError>,
)
    requires
        call_ensures(
            ModbusMcpServer::connect,
            (s, host, port, settings, attempt, tried, timestamp),
            r,
        ),
    ensures
        r is Ok <==> attempt is Connected,
        r matches Ok(c) ==> {
            &&& c.connected
            &&& c.server_name@ == host@ + ":"@ + text::decimal_text(port as nat)
            &&& c.timestamp@ == timestamp@
            &&& final(s).link() matches Some(l) && {
                &&& l.host == host@
                &&& l.port == port
                &&& l.slave == settings.slave
                &&& l.last_error is None
                &&& l.topology == topology::first_loaded(tried@)
            }
        },
        r matches Err(e) ==> {
            &&& final(s).link() is None
            &&& e.tag_id is None
            &&& e.code == if attempt is TimedOut {
                ErrorCode::Timeout
            } else {
                ErrorCode::ConnectionError
            }
        },
{
}

/// The unit is the one that the options name; it is 1 if they name none. The timeout is the one asked
/// for, five seconds if none is.
pub proof fn law_connect_settings(timeout_ms: Option<u32>, options: &Option<Json>, c: ConnectSettings)
    requires
        call_ensures(server::connect_settings, (timeout_ms, options), c),
    ensures
        match laws::option_named(*options, "slave_id"@) {
            Some(JsonView::Number(Number::Unsigned(n))) => n <= 255
                ==> c.slave == n,
            _ => c.slave == 1,
        },
        timeout_ms is None ==> c.timeout_ms == 5000,
        timeout_ms matches Some(ms) ==> c.timeout_ms == ms,
{
}

/// A disconnect drops the connection, if there is one, and logs the reason if one is given.
pub proof fn law_disconnect(
    s: &mut ModbusMcpServer,
    reason: Option<String>,
    timestamp: String,
    d: Disconnected,
)
    requires
        call_ensures(ModbusMcpServer::disconnect, (s, reason, timestamp), d),
    ensures
        final(s).link() is None,
        d.response.disconnected,
        d.response.timestamp@ == timestamp@,
        d.audit is Some <==> old(s).link() is Some && reason is Some,
        d.audit matches Some(e) ==> e.reason@ == reason->0@ && e.timestamp@ == timestamp@,
{
}

/// The adapter reports itself connected exactly if it has a connection, and then to which device and
/// unit, for how long, and with which last error.
pub proof fn law_server_info(s: &ModbusMcpServer, uptime_seconds: u64, info: ModbusServerInfo)
    requires
        call_ensures(ModbusMcpServer::get_server_info, (s, uptime_seconds), info),
    ensures
        info.info.connected <==> s.link() is Some,
        s.link() matches Some(c) ==> {
            &&& info.slave_id == Some(c.slave)
            &&& info.info.server_name@ == "modbus-mcp@"@ + (c.host + ":"@ + text::decimal_text(
                c.port as nat,
            ))
            &&& info.info.uptime_seconds == uptime_seconds
            &&& info.info.connection_state@ == "connected"@
            &&& envelope::opt_text(info.info.last_error) == c.last_error
        },
        s.link() is None ==> {
            &&& info.slave_id is None
            &&& info.info.uptime_seconds == 0
            &&& info.info.connection_state@ == "disconnected"@
            &&& info.info.last_error is None
        },
        info.info.capabilities@.len() == 9,
{
    assert(text::texts(info.info.capabilities@).len() == 9);
}

/// The entries of one register type in a tag tree.
pub open spec fn entries_under(tree: TagTree, kind: RegisterType) -> Seq<TagTreeEntry> {
    match kind {
        RegisterType::Holding => tree.holding@,
        RegisterType::Input => tree.input@,
        RegisterType::Coil => tree.coil@,
        RegisterType::Discrete => tree.discrete@,
    }
}

/// Whether an identifier is well-formed and of a register type.
pub open spec fn is_of_type(tag_id: Seq<char>, kind: RegisterType) -> bool {
    match connection::parsed(tag_id) {
        Ok(ParsedTag::Holding { .. }) => kind is Holding,
        Ok(ParsedTag::Input { .. }) => kind is Input,
        Ok(ParsedTag::Coil { .. }) => kind is Coil,
        Ok(ParsedTag::Discrete { .. }) => kind is Discrete,
        Err(_) => false,
    }
}

/// The tag tree lists each configured tag under its register type, in the order of the tags, with its
/// identifier, name, units and whether it is writable; a malformed one is listed nowhere. So one more
/// tag adds one entry at the end of its type, and changes nothing else.
pub proof fn law_tag_tree_grows_tag_by_tag(
    tags: &Vec<TopologyTag>,
    before: &Vec<TopologyTag>,
    tree: TagTree,
    tree_before: TagTree,
    kind: RegisterType,
)
    requires
        tags@.len() > 0,
        before@ == tags@.drop_last(),
        call_ensures(connection::build_tag_tree, (tags,), tree),
        call_ensures(connection::build_tag_tree, (before,), tree_before),
    ensures
        ({
            let t = tags@.last();
            let new = entries_under(tree, kind);
            let old_entries = entries_under(tree_before, kind);
            if is_of_type(t.tag_id@, kind) {
                &&& new.len() == old_entries.len() + 1
                &&& envelope::views(new).drop_last() == envelope::views(old_entries)
                &&& new.last().tag_id@ == t.tag_id@
                &&& new.last().name@ == t.name@
                &&& new.last().units@ == t.units@
                &&& new.last().writable == t.writable
            } else {
                envelope::views(new) == envelope::views(old_entries)
            }
        }),
{
    reveal(Seq::filter);
    let all = envelope::views(tags@);
    let t = tags@.last();
    let new = entries_under(tree, kind);
    let old_entries = entries_under(tree_before, kind);
    assert(all.drop_last() == envelope::views(before@));
    assert(all.last() == t@);
    let pred = |x: topology::TopologyTagView| connection::of_type(x, kind);
    assert(envelope::views(new) == connection::group(all, kind));
    assert(envelope::views(old_entries) == connection::group(all.drop_last(), kind));
    laws::lemma_views(new);
    laws::lemma_views(old_entries);
    if pred(all.last()) {
        assert(all.filter(pred) == all.drop_last().filter(pred).push(t@));
        assert(connection::group(all, kind) == connection::group(all.drop_last(), kind).push(
            connection::tree_entry(t@),
        ));
        assert(envelope::views(new).last() == new.last()@);
    }
}

/// The tag tree of no tags is empty.
pub proof fn law_no_tags_no_tree(tags: &Vec<TopologyTag>, tree: TagTree, kind: RegisterType)
    requires
        tags@.len() == 0,
        call_ensures(connection::build_tag_tree, (tags,), tree),
    ensures
        entries_under(tree, kind).len() == 0,
{
    reveal(Seq::filter);
    laws::lemma_views(entries_under(tree, kind));
    assert(envelope::views(tags@) == Seq::<topology::TopologyTagView>::empty());
}

/// Discovery lists the configured tags that are asked for, with their metadata unless that is
/// declined.
pub proof fn law_discover_tags(
    s: &ModbusMcpServer,
    config: &TopologyConfig,
    process_area: &Option<String>,
    equipment_id: &Option<String>,
    include_metadata: Option<bool>,
    r: Result<Vec<TagDescriptor>, AdapterError>,
    found: Vec<TagDescriptor>,
    shown: Vec<TagDescriptor>,
)
    requires
        call_ensures(
            ModbusMcpServer::discover_tags,
            (s, process_area, equipment_id, include_metadata),
            r,
        ),
        call_ensures(topology::discover_tags, (config, process_area, equipment_id), found),
        call_ensures(topology::apply_metadata_choice, (found, include_metadata), shown),
        s.inner is Some ==> s.link()->0.topology == config@,
    ensures
        s.inner is None ==> r is Err && r->Err_0.code == ErrorCode::ConnectionError,
        s.inner is Some ==> r is Ok && envelope::views(r->Ok_0@) == envelope::views(shown@),
{
}

/// The tag tree of an open connection is the tree of its configured tags.
pub proof fn law_get_topic_tree(
    s: &ModbusMcpServer,
    tags: &Vec<TopologyTag>,
    r: Result<TagTree, AdapterError>,
    tree: TagTree,
    kind: RegisterType,
)
    requires
        call_ensures(ModbusMcpServer::get_topic_tree, (s,), r),
        call_ensures(connection::build_tag_tree, (tags,), tree),
        s.inner is Some ==> s.link()->0.topology.tags == envelope::views(tags@),
    ensures
        s.inner is None ==> r is Err && r->Err_0.code == ErrorCode::ConnectionError,
        s.inner is Some ==> r is Ok && envelope::views(entries_under(r->Ok_0, kind))
            == envelope::views(entries_under(tree, kind)),
{
}

/// Modbus has no history to read.
pub proof fn law_no_history(s: &ModbusMcpServer, tag_id: &str, e: AdapterError)
    requires
        call_ensures(ModbusMcpServer::read_tag_history, (s, tag_id), e),
    ensures
        e.code == ErrorCode::HistoryUnavailable,
        e.tag_id is Some && e.tag_id->0@ == tag_id@,
{
}

/// The four bytes of two registers are those of the high one and then those of the low one, each with
/// its high byte first; and they come back as the two registers.
pub proof fn law_bytes_of_registers(hi: u16, lo: u16, bytes: [u8; 4], words: Vec<u16>)
    requires
        call_ensures(connection::be_bytes_from_words, (hi, lo), bytes),
        call_ensures(connection::words_from_be_bytes, (bytes,), words),
    ensures
        bytes@[0] * 256 + bytes@[1] == hi,
        bytes@[2] * 256 + bytes@[3] == lo,
        words@ == seq![hi, lo],
{
    let s = connection::bytes_of(hi, lo);
    assert(bytes@ == s);
    let t = connection::bytes_of(words@[0], words@[1]);
    assert(s == t);
    assert(s[0] == t[0] && s[1] == t[1] && s[2] == t[2] && s[3] == t[3]);
    assert(words@[0] == hi && words@[1] == lo);
    assert(words@ =~= seq![hi, lo]);
}

/// A tag tells its address, its register type by name, and that holding registers and coils can be
/// written and nothing else.
pub proof fn law_parsed_tags(
    kind: RegisterType,
    address: u16,
    data_type: DataType,
    at: u16,
    name: &'static str,
    writable: bool,
    count: u16,
)
    requires
        call_ensures(ParsedTag::address, (&tag_with(kind, address, data_type),), at),
        call_ensures(ParsedTag::register_type_name, (&tag_with(kind, address, data_type),), name),
        call_ensures(ParsedTag::is_writable_type, (&tag_with(kind, address, data_type),), writable),
        call_ensures(connection::register_count, (data_type,), count),
    ensures
        at == address,
        name@ == kind_name(kind),
        writable <==> kind is Holding || kind is Coil,
        count == registers_for(data_type),
{
}

/// The name of a register type is read as that type, and no other text is read as one.
pub proof fn law_register_types(s: &str, kind: RegisterType, r: Option<RegisterType>)
    requires
        call_ensures(connection::parse_register_type, (s,), r),
    ensures
        r == Some(kind) <==> s@ == kind_name(kind),
{
    lemma_kind_names(kind);
}

/// A scan of a type that does not exist is refused.
pub proof fn law_unknown_types_are_not_scanned(
    s: &ModbusMcpServer,
    name: &str,
    start_address: u16,
    count: u16,
    r: Result<ReadRequest, AdapterError>,
)
    requires
        call_ensures(ModbusMcpServer::scan_request, (s, name, start_address, count), r),
        forall|kind: RegisterType| text::lowercase(name@) != #[trigger] kind_name(kind),
    ensures
        r is Err,
        s.inner is Some ==> r->Err_0.code == ErrorCode::InvalidValue,
{
    assert(text::lowercase(name@) != kind_name(RegisterType::Holding));
    assert(text::lowercase(name@) != kind_name(RegisterType::Input));
    assert(text::lowercase(name@) != kind_name(RegisterType::Coil));
    assert(text::lowercase(name@) != kind_name(RegisterType::Discrete));
}

/// Dialing tries the addresses in their order: the next one is the one behind those that failed, as
/// long as there is one. An attempt that came to nothing tells all the failures.
pub proof fn law_dialing_tries_in_order(
    d: &Dialing,
    next: Option<usize>,
    reached: ConnectAttempt,
    refused: ConnectAttempt,
)
    requires
        call_ensures(Dialing::next, (d,), next),
        call_ensures(Dialing::attempt, (*d, true), reached),
        call_ensures(Dialing::attempt, (*d, false), refused),
    ensures
        next is Some <==> d.failures@.len() < d.addresses,
        next matches Some(i) ==> i == d.failures@.len(),
        reached is Connected,
        refused matches ConnectAttempt::Refused(f) && f@ == d.failures@,
{
}

/// What arrived in time is passed on as it is; what did not is a timeout on the tag.
pub proof fn law_timed<T>(
    reply: Option<T>,
    timeout_ms: u64,
    tag_id: &str,
    r: Result<T, AdapterError>,
)
    requires
        call_ensures(server::timed::<T>, (reply, timeout_ms, tag_id), r),
    ensures
        reply matches Some(v) ==> r == Ok::<T, AdapterError>(v),
        reply is None ==> r is Err && r->Err_0.code == ErrorCode::Timeout,
{
}

/// The message on a failed connect names the host and the port.
pub proof fn law_failed_connects_name_the_device(
    s: &mut ModbusMcpServer,
    host: String,
    port: u16,
    settings: ConnectSettings,
    attempt: ConnectAttempt,
    tried: Vec<Option<TopologyConfig>>,
    timestamp: String,
    e: AdapterError,
) -> (at: int)
    requires
        call_ensures(
            ModbusMcpServer::connect,
            (s, host, port, settings, attempt, tried, timestamp),
            Err::<ConnectResponse, AdapterError>(e),
        ),
    ensures
        ({
            let name = host@ + ":"@ + text::decimal_text(port as nat);
            &&& 0 <= at
            &&& at + name.len() <= e.message@.len()
            &&& e.message@.subrange(at, at + name.len()) == name
        }),
{
    let name = host@ + ":"@ + text::decimal_text(port as nat);
    let head = match attempt {
        ConnectAttempt::Unresolved(_) => "DNS resolution failed for "@,
        ConnectAttempt::TimedOut => "Connection to "@,
        ConnectAttempt::Refused(f) => if f@.len() == 0 {
            "No addresses found for "@
        } else {
            "Failed to connect to "@
        },
        ConnectAttempt::Connected => Seq::empty(),
    };
    let at = head.len() as int;
    assert(e.message@.subrange(at, at + name.len()) =~= name);
    at
}

/// What an operator is told of a failed transport does not depend on how it failed, nor on the tag.
pub proof fn law_transport_failures_are_told_alike(
    a: &str,
    tag_a: &str,
    b: &str,
    tag_b: &str,
    x: AdapterError,
    y: AdapterError,
)
    requires
        call_ensures(connection::map_transport_error, (a, tag_a), x),
        call_ensures(connection::map_transport_error, (b, tag_b), y),
    ensures
        x.message@ == y.message@,
        x.code == ErrorCode::ConnectionError,
        x.tag_id is Some && x.tag_id->0@ == tag_a@,
{
}

} // verus!
