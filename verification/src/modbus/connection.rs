//! Tag identifiers, register values and error mapping of the Modbus adapter.
//!
//! A tag is called `register_type:address[:data_type]`, such as `holding:100`,
//! `holding:100:float32` or `coil:5`. A value of two registers has its high word first.
use crate::double;
use crate::double::Double;
use crate::envelope;
use crate::envelope::{AdapterError, AdapterErrorView, ErrorCode, TagValue};
use crate::json::{Json, JsonView};
use crate::text;
use crate::tools;
use crate::topology::{TopologyConfig, TopologyConfigView, TopologyTag, TopologyTagView};
use vstd::prelude::*;

verus! {

/// How the registers of a tag are read.
#[derive(Debug, Clone, Copy, PartialEq, Eq, Structural)]
pub enum DataType {
    Uint16,
    Int16,
    Float32,
    Int32,
}

/// A tag identifier, taken apart.
#[derive(Debug, Clone, Copy, PartialEq, Eq, Structural)]
pub enum ParsedTag {
    Holding { address: u16, data_type: DataType },
    Input { address: u16, data_type: DataType },
    Coil { address: u16 },
    Discrete { address: u16 },
}

/// The four register types.
#[derive(Debug, Clone, Copy, PartialEq, Eq, Structural)]
pub enum RegisterType {
    Holding,
    Input,
    Coil,
    Discrete,
}

impl RegisterType {
    /// The name of the register type in a tag identifier.
    pub open spec fn name(self) -> Seq<char> {
        match self {
            RegisterType::Holding => "holding"@,
            RegisterType::Input => "input"@,
            RegisterType::Coil => "coil"@,
            RegisterType::Discrete => "discrete"@,
        }
    }
}

impl ParsedTag {
    /// The address of the tag.
    pub open spec fn at(self) -> u16 {
        match self {
            ParsedTag::Holding { address, .. } => address,
            ParsedTag::Input { address, .. } => address,
            ParsedTag::Coil { address } => address,
            ParsedTag::Discrete { address } => address,
        }
    }

    /// The register type of the tag.
    pub open spec fn kind(self) -> RegisterType {
        match self {
            ParsedTag::Holding { .. } => RegisterType::Holding,
            ParsedTag::Input { .. } => RegisterType::Input,
            ParsedTag::Coil { .. } => RegisterType::Coil,
            ParsedTag::Discrete { .. } => RegisterType::Discrete,
        }
    }

    /// Whether a Modbus device has a function that writes the tag.
    pub open spec fn writable(self) -> bool {
        self is Holding || self is Coil
    }

    /// The address of the tag.
    pub fn address(&self) -> (r: u16)
        ensures
            r == self.at(),
    {
        match self {
            ParsedTag::Holding { address, .. } => *address,
            ParsedTag::Input { address, .. } => *address,
            ParsedTag::Coil { address } => *address,
            ParsedTag::Discrete { address } => *address,
        }
    }

    /// The register type of the tag, by name.
    pub fn register_type_name(&self) -> (r: &'static str)
        ensures
            r@ == self.kind().name(),
    {
        match self {
            ParsedTag::Holding { .. } => "holding",
            ParsedTag::Input { .. } => "input",
            ParsedTag::Coil { .. } => "coil",
            ParsedTag::Discrete { .. } => "discrete",
        }
    }

    /// Whether the tag can be written: input registers and discrete inputs are read-only.
    pub fn is_writable_type(&self) -> (r: bool)
        ensures
            r == self.writable(),
    {
        match self {
            ParsedTag::Holding { .. } => true,
            ParsedTag::Coil { .. } => true,
            _ => false,
        }
    }
}

/// The data type of a tag for which the topology names none.
pub fn default_data_type() -> (r: String)
    ensures
        r@ == "uint16"@,
{
    "uint16".to_owned()
}

/// The data type called `s`.
pub open spec fn data_type_named(s: Seq<char>) -> Option<DataType> {
    if s == "uint16"@ {
        Some(DataType::Uint16)
    } else if s == "int16"@ {
        Some(DataType::Int16)
    } else if s == "float32"@ {
        Some(DataType::Float32)
    } else if s == "int32"@ {
        Some(DataType::Int32)
    } else {
        None
    }
}

/// The register type called `s`.
pub open spec fn register_type_named(s: Seq<char>) -> Option<RegisterType> {
    if s == "coil"@ {
        Some(RegisterType::Coil)
    } else if s == "discrete"@ {
        Some(RegisterType::Discrete)
    } else if s == "holding"@ {
        Some(RegisterType::Holding)
    } else if s == "input"@ {
        Some(RegisterType::Input)
    } else {
        None
    }
}

fn parse_data_type(s: &str) -> (r: Option<DataType>)
    ensures
        r == data_type_named(s@),
{
    if text::same(s, "uint16") {
        Some(DataType::Uint16)
    } else if text::same(s, "int16") {
        Some(DataType::Int16)
    } else if text::same(s, "float32") {
        Some(DataType::Float32)
    } else if text::same(s, "int32") {
        Some(DataType::Int32)
    } else {
        None
    }
}

/// Reads the name of a register type.
pub fn parse_register_type(s: &str) -> (r: Option<RegisterType>)
    ensures
        r == register_type_named(s@),
{
    if text::same(s, "coil") {
        Some(RegisterType::Coil)
    } else if text::same(s, "discrete") {
        Some(RegisterType::Discrete)
    } else if text::same(s, "holding") {
        Some(RegisterType::Holding)
    } else if text::same(s, "input") {
        Some(RegisterType::Input)
    } else {
        None
    }
}

/// The error on a malformed tag identifier: there is no such tag.
pub open spec fn bad_tag(message: Seq<char>, tag_id: Seq<char>) -> AdapterErrorView {
    envelope::tag_error(ErrorCode::TagNotFound, message, tag_id)
}

/// The tag that a register type, an address and perhaps a data type name.
pub open spec fn tag_of(kind: RegisterType, address: u16, data_type: DataType) -> ParsedTag {
    match kind {
        RegisterType::Holding => ParsedTag::Holding { address, data_type },
        RegisterType::Input => ParsedTag::Input { address, data_type },
        RegisterType::Coil => ParsedTag::Coil { address },
        RegisterType::Discrete => ParsedTag::Discrete { address },
    }
}

/// What a tag identifier means, or the error on it.
pub open spec fn parsed(tag_id: Seq<char>) -> Result<ParsedTag, AdapterErrorView> {
    let parts = text::split_on(tag_id, ':');
    if parts.len() < 2 || parts.len() > 3 {
        Err(
            bad_tag(
                "'"@ + tag_id
                    + "' is not a valid tag_id. Expected \"register_type:address[:data_type]\"."@,
                tag_id,
            ),
        )
    } else {
        match text::unsigned(parts[1], 65535) {
            None => Err(
                bad_tag(
                    "'"@ + parts[1] + "' is not a valid Modbus register address (0-65535)."@,
                    tag_id,
                ),
            ),
            Some(address) => match register_type_named(parts[0]) {
                None => Err(
                    bad_tag(
                        "'"@ + parts[0]
                            + "' is not a valid register type. Expected one of: holding, input, coil, discrete."@,
                        tag_id,
                    ),
                ),
                Some(kind) => if parts.len() == 2 {
                    Ok(tag_of(kind, address as u16, DataType::Uint16))
                } else if kind is Coil || kind is Discrete {
                    Err(
                        bad_tag(
                            "'"@ + parts[0]
                                + "' registers are boolean and must not carry a data_type suffix."@,
                            tag_id,
                        ),
                    )
                } else {
                    match data_type_named(parts[2]) {
                        Some(data_type) => Ok(tag_of(kind, address as u16, data_type)),
                        None => Err(
                            bad_tag(
                                "'"@ + parts[2]
                                    + "' is not a valid data_type. Expected one of: uint16, int16, float32, int32."@,
                                tag_id,
                            ),
                        ),
                    }
                },
            },
        }
    }
}

fn make_tag(kind: RegisterType, address: u16, data_type: DataType) -> (r: ParsedTag)
    ensures
        r == tag_of(kind, address, data_type),
{
    match kind {
        RegisterType::Holding => ParsedTag::Holding { address, data_type },
        RegisterType::Input => ParsedTag::Input { address, data_type },
        RegisterType::Coil => ParsedTag::Coil { address },
        RegisterType::Discrete => ParsedTag::Discrete { address },
    }
}

fn reject(a: &str, b: &str, c: &str, tag_id: &str) -> (r: AdapterError)
    ensures
        r@ == bad_tag(a@ + b@ + c@, tag_id@),
{
    AdapterError::on_tag(ErrorCode::TagNotFound, text::cat3(a, b, c), tag_id)
}

/// Takes a tag identifier apart.
pub fn parse_tag_id(tag_id: &str) -> (r: Result<ParsedTag, AdapterError>)
    ensures
        envelope::outcome(r) == parsed(tag_id@),
{
    let parts: Vec<String> = text::split(tag_id, ':');
    let ghost pieces = text::split_on(tag_id@, ':');
    assert(pieces.len() == parts.len());
    assert(forall|i: int| 0 <= i < parts.len() ==> pieces[i] == (#[trigger] parts@[i])@);
    if parts.len() < 2 || parts.len() > 3 {
        return Err(
            reject(
                "'",
                tag_id,
                "' is not a valid tag_id. Expected \"register_type:address[:data_type]\".",
                tag_id,
            ),
        );
    }
    let name: &str = parts[0].as_str();
    let address: u16 = match text::parse_unsigned(parts[1].as_str(), 65535) {
        Some(n) => n as u16,
        None => {
            return Err(
                reject(
                    "'",
                    parts[1].as_str(),
                    "' is not a valid Modbus register address (0-65535).",
                    tag_id,
                ),
            );
        },
    };
    match parse_register_type(name) {
        None => Err(
            reject(
                "'",
                name,
                "' is not a valid register type. Expected one of: holding, input, coil, discrete.",
                tag_id,
            ),
        ),
        Some(kind) => {
            if parts.len() == 2 {
                Ok(make_tag(kind, address, DataType::Uint16))
            } else if kind == RegisterType::Coil || kind == RegisterType::Discrete {
                Err(
                    reject(
                        "'",
                        name,
                        "' registers are boolean and must not carry a data_type suffix.",
                        tag_id,
                    ),
                )
            } else {
                match parse_data_type(parts[2].as_str()) {
                    Some(data_type) => Ok(make_tag(kind, address, data_type)),
                    None => Err(
                        reject(
                            "'",
                            parts[2].as_str(),
                            "' is not a valid data_type. Expected one of: uint16, int16, float32, int32.",
                            tag_id,
                        ),
                    ),
                }
            }
        },
    }
}

/// The number of registers that a value of the data type spans.
pub open spec fn width(data_type: DataType) -> nat {
    match data_type {
        DataType::Uint16 | DataType::Int16 => 1,
        DataType::Float32 | DataType::Int32 => 2,
    }
}

/// The number of registers that a value of the data type spans.
pub fn register_count(data_type: DataType) -> (r: u16)
    ensures
        r == width(data_type),
{
    match data_type {
        DataType::Uint16 => 1,
        DataType::Int16 => 1,
        DataType::Float32 => 2,
        DataType::Int32 => 2,
    }
}

/// A word read as a two's complement number.
pub open spec fn signed16(w: u16) -> int {
    if w < 0x8000 {
        w as int
    } else {
        w - 0x1_0000
    }
}

/// The two words as one number, high word first.
pub open spec fn joined(hi: u16, lo: u16) -> u32 {
    (hi * 0x1_0000 + lo) as u32
}

/// The two words read as a two's complement number, high word first.
pub open spec fn signed32(hi: u16, lo: u16) -> int {
    if joined(hi, lo) < 0x8000_0000 {
        joined(hi, lo) as int
    } else {
        joined(hi, lo) - 0x1_0000_0000
    }
}

/// The bytes of two words, high word and high byte first.
pub open spec fn bytes_of(hi: u16, lo: u16) -> Seq<u8> {
    seq![(hi / 256) as u8, (hi % 256) as u8, (lo / 256) as u8, (lo % 256) as u8]
}

/// The bytes of two words, high word and high byte first.
pub fn be_bytes_from_words(hi: u16, lo: u16) -> (r: [u8; 4])
    ensures
        r@ == bytes_of(hi, lo),
{
    let r: [u8; 4] = [(hi / 256) as u8, (hi % 256) as u8, (lo / 256) as u8, (lo % 256) as u8];
    assert(r@ == bytes_of(hi, lo));
    r
}

/// The two words of four bytes, high word and high byte first.
pub fn words_from_be_bytes(bytes: [u8; 4]) -> (r: Vec<u16>)
    ensures
        r@.len() == 2,
        bytes_of(r@[0], r@[1]) == bytes@,
{
    let mut r: Vec<u16> = Vec::new();
    r.push(bytes[0] as u16 * 256 + bytes[1] as u16);
    r.push(bytes[2] as u16 * 256 + bytes[3] as u16);
    assert(bytes_of(r@[0], r@[1]) == bytes@);
    r
}

/// The number of four bytes, high byte first.
fn from_be_bytes(bytes: [u8; 4]) -> (r: u32)
    ensures
        forall|hi: u16, lo: u16| #[trigger] bytes_of(hi, lo) == bytes@ ==> r == joined(hi, lo),
{
    let r: u32 = ((bytes[0] as u32 * 256 + bytes[1] as u32) * 256 + bytes[2] as u32) * 256
        + bytes[3] as u32;
    proof {
        assert forall|hi: u16, lo: u16| #[trigger] bytes_of(hi, lo) == bytes@ implies r == joined(
            hi,
            lo,
        ) by {
            let s = bytes_of(hi, lo);
            assert(s[0] == bytes[0] && s[1] == bytes[1] && s[2] == bytes[2] && s[3] == bytes[3]);
        }
    }
    r
}

/// The bytes of a number, high byte first.
fn to_be_bytes(n: u32) -> (r: [u8; 4])
    ensures
        forall|hi: u16, lo: u16| #[trigger] bytes_of(hi, lo) == r@ ==> n == joined(hi, lo),
{
    let r: [u8; 4] = [
        (n / 0x100_0000) as u8,
        (n / 0x1_0000 % 256) as u8,
        (n / 256 % 256) as u8,
        (n % 256) as u8,
    ];
    proof {
        assert forall|hi: u16, lo: u16| #[trigger] bytes_of(hi, lo) == r@ implies n == joined(
            hi,
            lo,
        ) by {
            let s = bytes_of(hi, lo);
            assert(s[0] == r[0] && s[1] == r[1] && s[2] == r[2] && s[3] == r[3]);
        }
    }
    r
}

/// The error on a device response with fewer registers than asked for.
pub open spec fn short_response(expected: nat, got: nat) -> AdapterErrorView {
    envelope::plain_error(
        ErrorCode::ConnectionError,
        "expected "@ + text::decimal_text(expected) + " register(s) in device response, got "@
            + text::decimal_text(got),
    )
}

/// The first `n` words, or the error on a short response.
pub fn expect_words(words: &[u16], n: usize) -> (r: Result<Vec<u16>, AdapterError>)
    ensures
        match r {
            Ok(w) => words@.len() >= n && w@ == words@.take(n as int),
            Err(e) => words@.len() < n && e@ == short_response(n as nat, words@.len()),
        },
{
    if words.len() < n {
        let mut m: String = text::cat3(
            "expected ",
            text::decimal(n as u64).as_str(),
            " register(s) in device response, got ",
        );
        m = text::cat2(m.as_str(), text::decimal(words.len() as u64).as_str());
        return Err(AdapterError::plain(ErrorCode::ConnectionError, m));
    }
    let mut w: Vec<u16> = Vec::new();
    let mut i: usize = 0;
    while i < n
        invariant
            i <= n <= words@.len(),
            w@ == words@.take(i as int),
        decreases n - i,
    {
        w.push(words[i]);
        assert(words@.take(i + 1) == words@.take(i as int).push(words@[i as int]));
        i = i + 1;
    }
    Ok(w)
}

/// Whether `d` is the value of the registers.
pub open spec fn decodes(words: Seq<u16>, data_type: DataType, d: Double) -> bool {
    match data_type {
        DataType::Uint16 => d == double::of_integer(words[0] as int),
        DataType::Int16 => d == double::of_integer(signed16(words[0])),
        DataType::Float32 => d.widens(joined(words[0], words[1])),
        DataType::Int32 => d == double::of_integer(signed32(words[0], words[1])),
    }
}

/// The value of a tag's registers. Registers past those that the data type spans are ignored.
pub fn registers_to_value(words: &[u16], data_type: DataType) -> (r: Result<TagValue, AdapterError>)
    ensures
        match r {
            Ok(v) => {
                &&& words@.len() >= width(data_type)
                &&& v@ is Float
                &&& decodes(words@, data_type, v@->Float_0)
            },
            Err(e) => {
                &&& words@.len() < width(data_type)
                &&& e@ == short_response(width(data_type), words@.len())
            },
        },
{
    match data_type {
        DataType::Uint16 => match expect_words(words, 1) {
            Err(e) => Err(e),
            Ok(w) => Ok(TagValue::Float(Double::from_u64(w[0] as u64))),
        },
        DataType::Int16 => match expect_words(words, 1) {
            Err(e) => Err(e),
            Ok(w) => {
                let n: i64 = if w[0] < 0x8000 {
                    w[0] as i64
                } else {
                    w[0] as i64 - 0x1_0000
                };
                Ok(TagValue::Float(Double::from_i64(n)))
            },
        },
        DataType::Float32 => match expect_words(words, 2) {
            Err(e) => Err(e),
            Ok(w) => {
                let bits: u32 = from_be_bytes(be_bytes_from_words(w[0], w[1]));
                Ok(TagValue::Float(Double::from_single(bits)))
            },
        },
        DataType::Int32 => match expect_words(words, 2) {
            Err(e) => Err(e),
            Ok(w) => {
                let bits: u32 = from_be_bytes(be_bytes_from_words(w[0], w[1]));
                let n: i64 = if bits < 0x8000_0000 {
                    bits as i64
                } else {
                    bits as i64 - 0x1_0000_0000
                };
                Ok(TagValue::Float(Double::from_i64(n)))
            },
        },
    }
}

/// Whether the registers `words` hold the value `f`: a whole number exactly, a binary32 rounded to
/// nearest and not beyond its range.
pub open spec fn encodes(f: Double, data_type: DataType, words: Seq<u16>) -> bool {
    &&& words.len() == width(data_type)
    &&& match data_type {
        DataType::Uint16 => f.is_integer(words[0] as int),
        DataType::Int16 => f.is_integer(signed16(words[0])),
        DataType::Float32 => f.narrows(joined(words[0], words[1])) && double::single_finite(
            joined(words[0], words[1]),
        ),
        DataType::Int32 => f.is_integer(signed32(words[0], words[1])),
    }
}

/// Whether registers of the data type can hold the value.
pub open spec fn encodable(f: Double, data_type: DataType) -> bool {
    exists|words: Seq<u16>| encodes(f, data_type, words)
}

/// The message on a value that registers of the data type cannot hold.
pub open spec fn range_message(shown: Seq<char>, data_type: DataType) -> Seq<char> {
    "value "@ + shown + match data_type {
        DataType::Uint16 => " is out of range for uint16 (0-65535)."@,
        DataType::Int16 => " is out of range for int16 (-32768..=32767)."@,
        DataType::Float32 => " is out of range for float32."@,
        DataType::Int32 => " is out of range for int32."@,
    }
}

/// Whether `r` answers the request to put a document into registers.
pub open spec fn encoded(
    value: JsonView,
    shown: Seq<char>,
    data_type: DataType,
    tag_id: Seq<char>,
    r: Result<Seq<u16>, AdapterErrorView>,
) -> bool {
    match value.number() {
        None => r == Err::<Seq<u16>, AdapterErrorView>(
            envelope::tag_error(
                ErrorCode::InvalidValue,
                "write_tag value must be a number for register writes."@,
                tag_id,
            ),
        ),
        Some(f) => if encodable(f, data_type) {
            r is Ok && encodes(f, data_type, r->Ok_0)
        } else {
            r == Err::<Seq<u16>, AdapterErrorView>(
                envelope::tag_error(
                    ErrorCode::InvalidValue,
                    range_message(shown, data_type),
                    tag_id,
                ),
            )
        },
    }
}

proof fn lemma_not_encodable(f: Double, data_type: DataType, n: Option<i64>, lo: int, hi: int)
    requires
        !(data_type is Float32),
        match n {
            Some(i) => f.is_integer(i as int) && !(lo <= i <= hi),
            None => forall|i: int|
                -2 * double::LEAD < i < 2 * double::LEAD ==> !#[trigger] f.is_integer(i),
        },
        data_type is Uint16 ==> lo == 0 && hi == 0xffff,
        data_type is Int16 ==> lo == -0x8000 && hi == 0x7fff,
        data_type is Int32 ==> lo == -0x8000_0000 && hi == 0x7fff_ffff,
    ensures
        !encodable(f, data_type),
{
    if encodable(f, data_type) {
        let words = choose|words: Seq<u16>| encodes(f, data_type, words);
        let held = match data_type {
            DataType::Uint16 => words[0] as int,
            DataType::Int16 => signed16(words[0]),
            _ => signed32(words[0], words[1]),
        };
        assert(f.is_integer(held));
        assert(lo <= held <= hi);
        if let Some(i) = n {
            double::lemma_one_integer(f, i as int, held);
        }
    }
}

proof fn lemma_beyond_single(f: Double, bits: u32)
    requires
        f.narrows(bits),
        !double::single_finite(bits),
    ensures
        !encodable(f, DataType::Float32),
{
    if encodable(f, DataType::Float32) {
        let words = choose|words: Seq<u16>| encodes(f, DataType::Float32, words);
        assert(!f.nan());
        double::lemma_narrow_unique(f, bits, joined(words[0], words[1]));
    }
}

/// The registers that hold the number of a document. `shown` is the number in decimal, for the
/// message.
pub fn value_to_registers(value: &Json, shown: &str, data_type: DataType, tag_id: &str) -> (r: Result<
    Vec<u16>,
    AdapterError,
>)
    ensures
        encoded(value@, shown@, data_type, tag_id@, envelope::outcome_view(r)),
{
    let f: Double = match value.as_f64() {
        Some(f) => f,
        None => {
            let m: String = "write_tag value must be a number for register writes.".to_owned();
            return Err(AdapterError::on_tag(ErrorCode::InvalidValue, m, tag_id));
        },
    };
    number_to_registers(f, shown, data_type, tag_id)
}

/// The registers that hold a number. `shown` is the number in decimal, for the message.
pub fn number_to_registers(f: Double, shown: &str, data_type: DataType, tag_id: &str) -> (r: Result<
    Vec<u16>,
    AdapterError,
>)
    ensures
        match r {
            Ok(words) => encodable(f, data_type) && encodes(f, data_type, words@),
            Err(e) => {
                &&& !encodable(f, data_type)
                &&& e@ == envelope::tag_error(
                    ErrorCode::InvalidValue,
                    range_message(shown@, data_type),
                    tag_id@,
                )
            },
        },
{
    let mut words: Vec<u16> = Vec::new();
    match data_type {
        DataType::Uint16 => {
            let n: Option<i64> = f.to_integer();
            if let Some(i) = n {
                if 0 <= i && i <= 0xffff {
                    words.push(i as u16);
                    assert(encodes(f, data_type, words@));
                    return Ok(words);
                }
            }
            proof {
                lemma_not_encodable(f, data_type, n, 0, 0xffff);
            }
            let m: String = text::cat3("value ", shown, " is out of range for uint16 (0-65535).");
            Err(AdapterError::on_tag(ErrorCode::InvalidValue, m, tag_id))
        },
        DataType::Int16 => {
            let n: Option<i64> = f.to_integer();
            if let Some(i) = n {
                if -0x8000 <= i && i <= 0x7fff {
                    let w: u16 = if i < 0 {
                        (i + 0x1_0000) as u16
                    } else {
                        i as u16
                    };
                    words.push(w);
                    assert(signed16(w) == i);
                    assert(encodes(f, data_type, words@));
                    return Ok(words);
                }
            }
            proof {
                lemma_not_encodable(f, data_type, n, -0x8000, 0x7fff);
            }
            let m: String = text::cat3(
                "value ",
                shown,
                " is out of range for int16 (-32768..=32767).",
            );
            Err(AdapterError::on_tag(ErrorCode::InvalidValue, m, tag_id))
        },
        DataType::Float32 => {
            let bits: u32 = f.to_single();
            if bits % double::SIGN_SINGLE < double::INFINITE_SINGLE {
                words = words_from_be_bytes(to_be_bytes(bits));
                assert(encodes(f, data_type, words@));
                return Ok(words);
            }
            proof {
                lemma_beyond_single(f, bits);
            }
            let m: String = text::cat3("value ", shown, " is out of range for float32.");
            Err(AdapterError::on_tag(ErrorCode::InvalidValue, m, tag_id))
        },
        DataType::Int32 => {
            let n: Option<i64> = f.to_integer();
            if let Some(i) = n {
                if -0x8000_0000 <= i && i <= 0x7fff_ffff {
                    let bits: u32 = if i < 0 {
                        (i + 0x1_0000_0000) as u32
                    } else {
                        i as u32
                    };
                    words = words_from_be_bytes(to_be_bytes(bits));
                    assert(signed32(words@[0], words@[1]) == i);
                    assert(encodes(f, data_type, words@));
                    return Ok(words);
                }
            }
            proof {
                lemma_not_encodable(f, data_type, n, -0x8000_0000, 0x7fff_ffff);
            }
            let m: String = text::cat3("value ", shown, " is out of range for int32.");
            Err(AdapterError::on_tag(ErrorCode::InvalidValue, m, tag_id))
        },
    }
}

/// Reading back what was written: the registers that hold a whole number decode to its value.
pub proof fn law_integer_round_trip(f: Double, data_type: DataType, words: Seq<u16>, back: Double)
    requires
        !(data_type is Float32),
        encodes(f, data_type, words),
        decodes(words, data_type, back),
    ensures
        back.finite(),
        back.value() == f.value(),
{
    let n = match data_type {
        DataType::Uint16 => words[0] as int,
        DataType::Int16 => signed16(words[0]),
        _ => signed32(words[0], words[1]),
    };
    double::lemma_of_integer_exact(n);
}

/// Reading back what was written: the registers of a value that binary32 holds decode to that
/// value.
pub proof fn law_float_round_trip(f: Double, single: u32, words: Seq<u16>, back: Double)
    requires
        !double::single_nan(single),
        f.widens(single),
        encodes(f, DataType::Float32, words),
        decodes(words, DataType::Float32, back),
    ensures
        back == f,
{
    double::lemma_widen_narrow(single, f, joined(words[0], words[1]));
    double::lemma_widen_unique(single, f, back);
}

/// Writing back what was read: the value of registers can be written, and encodes to those registers
/// and no others, unless they hold a binary32 infinity or NaN.
pub proof fn law_register_round_trip(words: Seq<u16>, data_type: DataType, d: Double)
    requires
        words.len() == width(data_type),
        data_type is Float32 ==> double::single_finite(joined(words[0], words[1])),
        decodes(words, data_type, d),
    ensures
        encodable(d, data_type),
        encodes(d, data_type, words),
        forall|back: Seq<u16>| #[trigger] encodes(d, data_type, back) ==> back == words,
{
    match data_type {
        DataType::Uint16 => {
            double::lemma_of_integer_exact(words[0] as int);
        },
        DataType::Int16 => {
            double::lemma_of_integer_exact(signed16(words[0]));
        },
        DataType::Float32 => {
            double::lemma_widen_exact(joined(words[0], words[1]), d);
        },
        DataType::Int32 => {
            double::lemma_of_integer_exact(signed32(words[0], words[1]));
        },
    }
    assert(encodes(d, data_type, words));
    assert forall|back: Seq<u16>| #[trigger] encodes(d, data_type, back) implies back == words by {
        law_encoding_unique(d, data_type, back, words);
    }
}

/// A number has one encoding.
pub proof fn law_encoding_unique(f: Double, data_type: DataType, a: Seq<u16>, b: Seq<u16>)
    requires
        encodes(f, data_type, a),
        encodes(f, data_type, b),
    ensures
        a == b,
{
    match data_type {
        DataType::Uint16 => {
            double::lemma_one_integer(f, a[0] as int, b[0] as int);
        },
        DataType::Int16 => {
            double::lemma_one_integer(f, signed16(a[0]), signed16(b[0]));
        },
        DataType::Float32 => {
            assert(!f.nan());
            double::lemma_narrow_unique(f, joined(a[0], a[1]), joined(b[0], b[1]));
        },
        DataType::Int32 => {
            double::lemma_one_integer(f, signed32(a[0], a[1]), signed32(b[0], b[1]));
        },
    }
    assert(a =~= b);
}

/// A whole number can be written exactly if it lies in the range of its data type.
pub proof fn law_integer_range(f: Double, n: int, data_type: DataType)
    requires
        f.is_integer(n),
        !(data_type is Float32),
    ensures
        encodable(f, data_type) <==> match data_type {
            DataType::Uint16 => 0 <= n <= 0xffff,
            DataType::Int16 => -0x8000 <= n <= 0x7fff,
            _ => -0x8000_0000 <= n <= 0x7fff_ffff,
        },
{
    if encodable(f, data_type) {
        let words = choose|words: Seq<u16>| encodes(f, data_type, words);
        let held = match data_type {
            DataType::Uint16 => words[0] as int,
            DataType::Int16 => signed16(words[0]),
            _ => signed32(words[0], words[1]),
        };
        double::lemma_one_integer(f, n, held);
    }
    match data_type {
        DataType::Uint16 => {
            if 0 <= n <= 0xffff {
                assert(encodes(f, data_type, seq![n as u16]));
            }
        },
        DataType::Int16 => {
            if -0x8000 <= n <= 0x7fff {
                let w = (if n < 0 { n + 0x1_0000 } else { n }) as u16;
                assert(signed16(w) == n);
                assert(encodes(f, data_type, seq![w]));
            }
        },
        _ => {
            if -0x8000_0000 <= n <= 0x7fff_ffff {
                let bits = (if n < 0 { n + 0x1_0000_0000 } else { n }) as u32;
                let words = seq![(bits / 0x1_0000) as u16, (bits % 0x1_0000) as u16];
                assert(joined(words[0], words[1]) == bits);
                assert(signed32(words[0], words[1]) == n);
                assert(encodes(f, data_type, words));
            }
        },
    }
}

/// A number can be written to binary32 registers exactly if it lies in their range: nearer to the
/// largest finite binary32 value than to the next power of two. Infinities and NaNs do not.
pub proof fn law_float_range(f: Double)
    ensures
        encodable(f, DataType::Float32) <==> f.magnitude() < double::BEYOND_SINGLE,
{
    double::lemma_narrow_finite(f);
    if f.magnitude() < double::BEYOND_SINGLE {
        let bits = choose|bits: u32| #[trigger] f.narrows(bits) && double::single_finite(bits);
        let words = seq![(bits / 0x1_0000) as u16, (bits % 0x1_0000) as u16];
        assert(joined(words[0], words[1]) == bits);
        assert(encodes(f, DataType::Float32, words));
    } else if encodable(f, DataType::Float32) {
        let words = choose|words: Seq<u16>| encodes(f, DataType::Float32, words);
        assert(f.narrows(joined(words[0], words[1])));
    }
}

/// An exception that a Modbus device answers.
#[derive(Debug, Clone, Copy, PartialEq, Eq, Structural)]
pub enum ExceptionCode {
    IllegalFunction,
    IllegalDataAddress,
    IllegalDataValue,
    ServerDeviceFailure,
    Acknowledge,
    ServerDeviceBusy,
    MemoryParityError,
    GatewayPathUnavailable,
    GatewayTargetDevice,
    Custom(u8),
}

/// The error on a failed transport. How it failed stays out of the message.
pub open spec fn transport_error(tag_id: Seq<char>) -> AdapterErrorView {
    envelope::tag_error(
        ErrorCode::ConnectionError,
        "The connection to the device failed."@,
        tag_id,
    )
}

/// The error on a failed transport. How it failed stays out of the message.
pub fn map_transport_error(_err: &str, tag_id: &str) -> (r: AdapterError)
    ensures
        r@ == transport_error(tag_id@),
{
    let m: String = "The connection to the device failed.".to_owned();
    AdapterError::on_tag(ErrorCode::ConnectionError, m, tag_id)
}

/// The error code of an exception. Only a write finds a function that the device lacks to be the
/// tag's fault.
pub open spec fn exception_error_code(code: ExceptionCode, is_write: bool) -> ErrorCode {
    match code {
        ExceptionCode::IllegalDataAddress => ErrorCode::TagNotFound,
        ExceptionCode::IllegalFunction => if is_write {
            ErrorCode::TagNotWritable
        } else {
            ErrorCode::ConnectionError
        },
        ExceptionCode::IllegalDataValue => ErrorCode::InvalidValue,
        _ => ErrorCode::ConnectionError,
    }
}

/// The error on an exception.
pub open spec fn exception_error(
    code: ExceptionCode,
    tag_id: Seq<char>,
    is_write: bool,
) -> AdapterErrorView {
    envelope::tag_error(
        exception_error_code(code, is_write),
        tools::failure_message(exception_error_code(code, is_write), is_write),
        tag_id,
    )
}

/// The error on an exception.
pub fn map_exception_code(code: ExceptionCode, tag_id: &str, is_write: bool) -> (r: AdapterError)
    ensures
        r@ == exception_error(code, tag_id@, is_write),
{
    let mapped: ErrorCode = match code {
        ExceptionCode::IllegalDataAddress => ErrorCode::TagNotFound,
        ExceptionCode::IllegalFunction => if is_write {
            ErrorCode::TagNotWritable
        } else {
            ErrorCode::ConnectionError
        },
        ExceptionCode::IllegalDataValue => ErrorCode::InvalidValue,
        _ => ErrorCode::ConnectionError,
    };
    let m: String = tools::tell_failure(mapped, is_write);
    AdapterError::on_tag(mapped, m, tag_id)
}

/// What an operator is told of an exception does not tell which exception it was or at which tag:
/// exceptions with one error code are told alike.
pub proof fn law_exceptions_are_told_alike(
    a: ExceptionCode,
    tag_a: Seq<char>,
    b: ExceptionCode,
    tag_b: Seq<char>,
    is_write: bool,
)
    requires
        exception_error_code(a, is_write) == exception_error_code(b, is_write),
    ensures
        exception_error(a, tag_a, is_write).message == exception_error(b, tag_b, is_write).message,
        exception_error(a, tag_a, is_write).tag_id == Some(tag_a),
{
}

/// The plain part of an open connection.
#[derive(Debug)]
pub struct ModbusConnection {
    pub host: String,
    pub port: u16,
    pub slave: u8,
    pub last_error: Option<String>,
    pub topology: TopologyConfig,
}

/// The model of a [`ModbusConnection`].
pub struct ModbusConnectionView {
    pub host: Seq<char>,
    pub port: u16,
    pub slave: u8,
    pub last_error: Option<Seq<char>>,
    pub topology: TopologyConfigView,
}

impl View for ModbusConnection {
    type V = ModbusConnectionView;

    open spec fn view(&self) -> ModbusConnectionView {
        ModbusConnectionView {
            host: self.host@,
            port: self.port,
            slave: self.slave,
            last_error: envelope::opt_text(self.last_error),
            topology: self.topology@,
        }
    }
}

/// A tag in the tag tree.
#[derive(Debug)]
pub struct TagTreeEntry {
    pub tag_id: String,
    pub name: String,
    pub units: String,
    pub writable: bool,
}

/// The configured tags by register type.
#[derive(Debug)]
pub struct TagTree {
    pub holding: Vec<TagTreeEntry>,
    pub input: Vec<TagTreeEntry>,
    pub coil: Vec<TagTreeEntry>,
    pub discrete: Vec<TagTreeEntry>,
}

/// The model of a [`TagTreeEntry`].
pub struct TagTreeEntryView {
    pub tag_id: Seq<char>,
    pub name: Seq<char>,
    pub units: Seq<char>,
    pub writable: bool,
}

impl View for TagTreeEntry {
    type V = TagTreeEntryView;

    open spec fn view(&self) -> TagTreeEntryView {
        TagTreeEntryView {
            tag_id: self.tag_id@,
            name: self.name@,
            units: self.units@,
            writable: self.writable,
        }
    }
}

/// Whether a tag's identifier is well-formed and of the register type.
pub open spec fn of_type(t: TopologyTagView, kind: RegisterType) -> bool {
    parsed(t.tag_id) is Ok && parsed(t.tag_id)->Ok_0.kind() == kind
}

/// The entry of a tag in the tag tree.
pub open spec fn tree_entry(t: TopologyTagView) -> TagTreeEntryView {
    TagTreeEntryView { tag_id: t.tag_id, name: t.name, units: t.units, writable: t.writable }
}

/// The entries of the tags of one register type, in their order. Malformed tags have no entry.
pub open spec fn group(tags: Seq<TopologyTagView>, kind: RegisterType) -> Seq<TagTreeEntryView> {
    tags.filter(|t: TopologyTagView| of_type(t, kind)).map_values(|t: TopologyTagView| tree_entry(t))
}

proof fn lemma_group_next(tags: Seq<TopologyTagView>, i: int, kind: RegisterType)
    requires
        0 <= i < tags.len(),
    ensures
        group(tags.take(i + 1), kind) == if of_type(tags[i], kind) {
            group(tags.take(i), kind).push(tree_entry(tags[i]))
        } else {
            group(tags.take(i), kind)
        },
{
    reveal(Seq::filter);
    let pred = |t: TopologyTagView| of_type(t, kind);
    assert(tags.take(i + 1).drop_last() == tags.take(i));
    assert(tags.take(i + 1).last() == tags[i]);
    if pred(tags[i]) {
        assert(tags.take(i + 1).filter(pred) == tags.take(i).filter(pred).push(tags[i]));
        assert(group(tags.take(i + 1), kind) == group(tags.take(i), kind).push(tree_entry(tags[i])));
    }
}

proof fn lemma_group_empty(tags: Seq<TopologyTagView>, kind: RegisterType)
    ensures
        group(tags.take(0), kind) == Seq::<TagTreeEntryView>::empty(),
{
    reveal(Seq::filter);
}

fn add_entry(group: &mut Vec<TagTreeEntry>, entry: TagTreeEntry)
    ensures
        envelope::views(final(group)@) == envelope::views(old(group)@).push(entry@),
{
    let ghost was = group@;
    group.push(entry);
    assert(envelope::views(group@) == envelope::views(was).push(entry@));
}

/// Groups the configured tags by register type.
pub fn build_tag_tree(tags: &Vec<TopologyTag>) -> (r: TagTree)
    ensures
        envelope::views(r.holding@) == group(envelope::views(tags@), RegisterType::Holding),
        envelope::views(r.input@) == group(envelope::views(tags@), RegisterType::Input),
        envelope::views(r.coil@) == group(envelope::views(tags@), RegisterType::Coil),
        envelope::views(r.discrete@) == group(envelope::views(tags@), RegisterType::Discrete),
{
    let ghost all = envelope::views(tags@);
    let mut holding: Vec<TagTreeEntry> = Vec::new();
    let mut input: Vec<TagTreeEntry> = Vec::new();
    let mut coil: Vec<TagTreeEntry> = Vec::new();
    let mut discrete: Vec<TagTreeEntry> = Vec::new();
    proof {
        lemma_group_empty(all, RegisterType::Holding);
        lemma_group_empty(all, RegisterType::Input);
        lemma_group_empty(all, RegisterType::Coil);
        lemma_group_empty(all, RegisterType::Discrete);
        assert(envelope::views(holding@) == Seq::<TagTreeEntryView>::empty());
    }
    let mut i: usize = 0;
    while i < tags.len()
        invariant
            i <= tags.len(),
            all == envelope::views(tags@),
            envelope::views(holding@) == group(all.take(i as int), RegisterType::Holding),
            envelope::views(input@) == group(all.take(i as int), RegisterType::Input),
            envelope::views(coil@) == group(all.take(i as int), RegisterType::Coil),
            envelope::views(discrete@) == group(all.take(i as int), RegisterType::Discrete),
        decreases tags.len() - i,
    {
        let t: &TopologyTag = &tags[i];
        let entry = TagTreeEntry {
            tag_id: t.tag_id.clone(),
            name: t.name.clone(),
            units: t.units.clone(),
            writable: t.writable,
        };
        proof {
            assert(all[i as int] == t@);
            assert(entry@ == tree_entry(t@));
            lemma_group_next(all, i as int, RegisterType::Holding);
            lemma_group_next(all, i as int, RegisterType::Input);
            lemma_group_next(all, i as int, RegisterType::Coil);
            lemma_group_next(all, i as int, RegisterType::Discrete);
        }
        match parse_tag_id(t.tag_id.as_str()) {
            Ok(ParsedTag::Holding { .. }) => add_entry(&mut holding, entry),
            Ok(ParsedTag::Input { .. }) => add_entry(&mut input, entry),
            Ok(ParsedTag::Coil { .. }) => add_entry(&mut coil, entry),
            Ok(ParsedTag::Discrete { .. }) => add_entry(&mut discrete, entry),
            Err(_) => {},
        }
        i = i + 1;
    }
    assert(all.take(all.len() as int) == all);
    TagTree { holding, input, coil, discrete }
}

/// The number of tags with a well-formed identifier.
pub open spec fn well_formed_tags(tags: Seq<TopologyTagView>) -> nat
    decreases tags.len(),
{
    if tags.len() == 0 {
        0
    } else {
        well_formed_tags(tags.drop_last()) + if parsed(tags.last().tag_id) is Ok {
            1nat
        } else {
            0
        }
    }
}

proof fn lemma_group_holds(tags: Seq<TopologyTagView>, i: int, kind: RegisterType)
    requires
        0 <= i < tags.len(),
        of_type(tags[i], kind),
    ensures
        group(tags, kind).contains(tree_entry(tags[i])),
{
    let pred = |t: TopologyTagView| of_type(t, kind);
    broadcast use vstd::seq_lib::group_filter_ensures;

    let kept = tags.filter(pred);
    assert(kept.contains(tags[i]));
    let j = choose|j: int| 0 <= j < kept.len() && kept[j] == tags[i];
    assert(group(tags, kind)[j] == tree_entry(tags[i]));
}

/// Every tag with a well-formed identifier has an entry under its register type in the tag tree, and
/// the tree has no more entries than there are such tags.
pub proof fn law_tag_tree_partition(tags: Seq<TopologyTagView>)
    ensures
        forall|i: int|
            0 <= i < tags.len() && parsed((#[trigger] tags[i]).tag_id) is Ok ==> group(
                tags,
                parsed(tags[i].tag_id)->Ok_0.kind(),
            ).contains(tree_entry(tags[i])),
        group(tags, RegisterType::Holding).len() + group(tags, RegisterType::Input).len() + group(
            tags,
            RegisterType::Coil,
        ).len() + group(tags, RegisterType::Discrete).len() == well_formed_tags(tags),
    decreases tags.len(),
{
    assert forall|i: int|
        0 <= i < tags.len() && parsed((#[trigger] tags[i]).tag_id) is Ok implies group(
        tags,
        parsed(tags[i].tag_id)->Ok_0.kind(),
    ).contains(tree_entry(tags[i])) by {
        lemma_group_holds(tags, i, parsed(tags[i].tag_id)->Ok_0.kind());
    }
    if tags.len() == 0 {
        assert(tags.take(0) == tags);
        lemma_group_empty(tags, RegisterType::Holding);
        lemma_group_empty(tags, RegisterType::Input);
        lemma_group_empty(tags, RegisterType::Coil);
        lemma_group_empty(tags, RegisterType::Discrete);
    } else {
        let i = tags.len() - 1;
        law_tag_tree_partition(tags.drop_last());
        assert(tags.take(i) == tags.drop_last());
        assert(tags.take(i + 1) == tags);
        lemma_group_next(tags, i, RegisterType::Holding);
        lemma_group_next(tags, i, RegisterType::Input);
        lemma_group_next(tags, i, RegisterType::Coil);
        lemma_group_next(tags, i, RegisterType::Discrete);
    }
}

} // verus!
