//! What the three adapters share of their nine tools.
use crate::envelope::{ErrorCode, TagValue, TagValueView};
use crate::json;
use crate::json::{Json, JsonView};
use crate::text;
use vstd::prelude::*;

verus! {

/// The names of the nine tools. Two of them are called as the protocol has it: the one that explores
/// the address space, and the one that dumps it.
pub open spec fn tool_names(explore: Seq<char>, dump: Seq<char>) -> Seq<Seq<char>> {
    seq![
        "connect"@,
        "disconnect"@,
        "discover_tags"@,
        explore,
        dump,
        "read_tag"@,
        "read_tag_history"@,
        "write_tag"@,
        "get_server_info"@,
    ]
}

/// The names of the nine tools.
pub fn capabilities(explore: &str, dump: &str) -> (r: Vec<String>)
    ensures
        text::texts(r@) == tool_names(explore@, dump@),
{
    let mut r: Vec<String> = Vec::new();
    r.push("connect".to_owned());
    r.push("disconnect".to_owned());
    r.push("discover_tags".to_owned());
    r.push(explore.to_owned());
    r.push(dump.to_owned());
    r.push("read_tag".to_owned());
    r.push("read_tag_history".to_owned());
    r.push("write_tag".to_owned());
    r.push("get_server_info".to_owned());
    assert(text::texts(r@) == tool_names(explore@, dump@));
    r
}

/// Host and port.
pub open spec fn endpoint(host: Seq<char>, port: u16) -> Seq<char> {
    host + ":"@ + text::decimal_text(port as nat)
}

/// Host and port.
pub fn host_and_port(host: &str, port: u16) -> (r: String)
    ensures
        r@ == endpoint(host@, port),
{
    text::cat3(host, ":", text::decimal(port as u64).as_str())
}

/// What an operator is told of a read or a write that the other end turned down or could not carry
/// out. It depends on the error code and on what was asked for alone: what the protocol says of the
/// failure, and the address of the tag, stay out of it.
pub open spec fn failure_message(code: ErrorCode, is_write: bool) -> Seq<char> {
    match code {
        ErrorCode::TagNotFound => "The tag was not found."@,
        ErrorCode::TagNotWritable => "The tag cannot be written."@,
        ErrorCode::ConnectionError => if is_write {
            "The write could not be carried out."@
        } else {
            "The read could not be carried out."@
        },
        ErrorCode::Timeout => "The operation took too long."@,
        ErrorCode::InvalidValue => if is_write {
            "The value was not accepted."@
        } else {
            "The request was not accepted."@
        },
        ErrorCode::PermissionDenied => "The operation is not permitted."@,
        ErrorCode::HistoryUnavailable => "No history is available for the tag."@,
    }
}

/// What an operator is told of a read or a write that the other end turned down or could not carry
/// out.
pub fn tell_failure(code: ErrorCode, is_write: bool) -> (r: String)
    ensures
        r@ == failure_message(code, is_write),
{
    match code {
        ErrorCode::TagNotFound => "The tag was not found.".to_owned(),
        ErrorCode::TagNotWritable => "The tag cannot be written.".to_owned(),
        ErrorCode::ConnectionError => if is_write {
            "The write could not be carried out.".to_owned()
        } else {
            "The read could not be carried out.".to_owned()
        },
        ErrorCode::Timeout => "The operation took too long.".to_owned(),
        ErrorCode::InvalidValue => if is_write {
            "The value was not accepted.".to_owned()
        } else {
            "The request was not accepted.".to_owned()
        },
        ErrorCode::PermissionDenied => "The operation is not permitted.".to_owned(),
        ErrorCode::HistoryUnavailable => "No history is available for the tag.".to_owned(),
    }
}

/// The model of optional options.
pub open spec fn opt_json(options: Option<Json>) -> Option<JsonView> {
    match options {
        Some(o) => Some(o@),
        None => None,
    }
}

/// The option `key`, if it is given.
pub open spec fn option_at(options: Option<JsonView>, key: Seq<char>) -> Option<JsonView> {
    match options {
        Some(o) => o.member(key),
        None => None,
    }
}

/// The text of the option `key`, if it is given and a text.
pub open spec fn text_option(options: Option<JsonView>, key: Seq<char>) -> Option<Seq<char>> {
    match option_at(options, key) {
        Some(v) => v.string(),
        None => None,
    }
}

/// The option `key`, if it is given.
pub fn get_option<'a>(options: &'a Option<Json>, key: &str) -> (r: Option<&'a Json>)
    ensures
        match r {
            Some(v) => option_at(opt_json(*options), key@) == Some(v@),
            None => option_at(opt_json(*options), key@) is None,
        },
{
    match options {
        Some(o) => o.get(key),
        None => None,
    }
}

/// The text of the option `key`, if it is given and a text.
pub fn opt_str<'a>(options: &'a Option<Json>, key: &str) -> (r: Option<&'a str>)
    ensures
        match r {
            Some(t) => text_option(opt_json(*options), key@) == Some(t@),
            None => text_option(opt_json(*options), key@) is None,
        },
{
    match get_option(options, key) {
        Some(v) => v.as_str(),
        None => None,
    }
}

/// The document of a tag's value.
pub open spec fn value_document(v: TagValueView) -> JsonView {
    match v {
        TagValueView::Float(d) => json::number_document(d),
        TagValueView::Bool(b) => JsonView::Bool(b),
        TagValueView::Text(s) => JsonView::Text(s),
    }
}

/// The document of a tag's value.
pub fn to_document(v: &TagValue) -> (r: Json)
    ensures
        r@ == value_document(v@),
{
    match v {
        TagValue::Float(d) => json::from_double(*d),
        TagValue::Bool(b) => Json::Bool(*b),
        TagValue::Text(s) => Json::Text(s.clone()),
    }
}

} // verus!
