//! Requests to write a tag, and what a write leaves behind: a confirmation and an audit entry. A
//! disconnect for a reason leaves an audit entry too.
use crate::clock;
use crate::envelope;
use crate::envelope::{
    AdapterError, AdapterErrorView, DisconnectResponse, DisconnectResponseView, ErrorCode, Quality,
    WriteConfirmation, WriteConfirmationView, WriteValue,
};
use crate::json::{Json, JsonView};
use vstd::prelude::*;

verus! {

/// A request to write a tag.
#[derive(Debug)]
pub struct WriteRequest {
    pub tag_id: String,
    pub value: Json,
    /// The value's number in decimal, for messages.
    pub shown: String,
    pub units: String,
    /// Who approved the write.
    pub operator_id: String,
    pub reason: String,
}

/// The model of a [`WriteRequest`].
pub struct WriteRequestView {
    pub tag_id: Seq<char>,
    pub value: JsonView,
    pub shown: Seq<char>,
    pub units: Seq<char>,
    pub operator_id: Seq<char>,
    pub reason: Seq<char>,
}

impl View for WriteRequest {
    type V = WriteRequestView;

    open spec fn view(&self) -> WriteRequestView {
        WriteRequestView {
            tag_id: self.tag_id@,
            value: self.value@,
            shown: self.shown@,
            units: self.units@,
            operator_id: self.operator_id@,
            reason: self.reason@,
        }
    }
}

/// A line of the audit log.
#[derive(Debug)]
pub struct AuditEntry {
    pub timestamp: String,
    pub tag_id: String,
    pub value: Json,
    pub units: String,
    pub operator_id: String,
    pub reason: String,
}

/// The model of an [`AuditEntry`].
pub struct AuditEntryView {
    pub timestamp: Seq<char>,
    pub tag_id: Seq<char>,
    pub value: JsonView,
    pub units: Seq<char>,
    pub operator_id: Seq<char>,
    pub reason: Seq<char>,
}

impl View for AuditEntry {
    type V = AuditEntryView;

    open spec fn view(&self) -> AuditEntryView {
        AuditEntryView {
            timestamp: self.timestamp@,
            tag_id: self.tag_id@,
            value: self.value@,
            units: self.units@,
            operator_id: self.operator_id@,
            reason: self.reason@,
        }
    }
}

/// The audit entry of a request.
pub open spec fn audit_of(req: WriteRequestView, timestamp: Seq<char>) -> AuditEntryView {
    AuditEntryView {
        timestamp,
        tag_id: req.tag_id,
        value: req.value,
        units: req.units,
        operator_id: req.operator_id,
        reason: req.reason,
    }
}

/// The confirmation of a request.
pub open spec fn confirmation_of(
    req: WriteRequestView,
    written: WriteValue,
    quality: Quality,
    timestamp: Seq<char>,
) -> WriteConfirmationView {
    WriteConfirmationView {
        tag_id: req.tag_id,
        value_written: written,
        quality,
        timestamp,
        units: req.units,
        operator_id: req.operator_id,
    }
}

/// What a write that was carried out leaves behind: its confirmation and its audit entry.
#[derive(Debug)]
pub struct Written {
    pub confirmation: WriteConfirmation,
    pub audit: AuditEntry,
}

/// The model of a [`Written`].
pub struct WrittenView {
    pub confirmation: WriteConfirmationView,
    pub audit: AuditEntryView,
}

impl View for Written {
    type V = WrittenView;

    open spec fn view(&self) -> WrittenView {
        WrittenView { confirmation: self.confirmation@, audit: self.audit@ }
    }
}

/// Whether `w` is what the write of a request leaves behind. When it was logged is up to the clock.
pub open spec fn written_by(
    req: WriteRequestView,
    written: WriteValue,
    quality: Quality,
    timestamp: Seq<char>,
    w: WrittenView,
) -> bool {
    &&& w.confirmation == confirmation_of(req, written, quality, timestamp)
    &&& w.audit == audit_of(req, w.audit.timestamp)
    &&& clock::iso_shape(w.audit.timestamp)
}

/// The line that the audit log gets for a request that is logged at a given time.
pub fn audit_entry(req: WriteRequest, logged_at: String) -> (r: AuditEntry)
    ensures
        r@ == audit_of(req@, logged_at@),
{
    AuditEntry {
        timestamp: logged_at,
        tag_id: req.tag_id,
        value: req.value,
        units: req.units,
        operator_id: req.operator_id,
        reason: req.reason,
    }
}

/// The line that the audit log gets for a request that is logged now.
pub fn log_write_audit(req: WriteRequest) -> (r: AuditEntry)
    ensures
        r@ == audit_of(req@, r@.timestamp),
        clock::iso_shape(r@.timestamp),
{
    audit_entry(req, clock::now_iso())
}

/// The error on a write that cannot be logged. `sent` says whether it was carried out all the same:
/// without its audit entry no write counts as successful.
pub open spec fn unlogged_error(sent: bool, tag_id: Seq<char>) -> AdapterErrorView {
    envelope::tag_error(
        ErrorCode::PermissionDenied,
        if sent {
            "The write was carried out, but could not be logged for audit."@
        } else {
            "The write was not carried out, since it cannot be logged for audit."@
        },
        tag_id,
    )
}

/// The error on a write that cannot be logged.
pub fn unlogged(sent: bool, tag_id: &str) -> (r: AdapterError)
    ensures
        r@ == unlogged_error(sent, tag_id@),
{
    let m: String = if sent {
        "The write was carried out, but could not be logged for audit.".to_owned()
    } else {
        "The write was not carried out, since it cannot be logged for audit.".to_owned()
    };
    AdapterError::on_tag(ErrorCode::PermissionDenied, m, tag_id)
}

/// What is answered on a write that was carried out. It is confirmed only once its audit entry is in
/// the log; `appended` says whether it is.
pub fn logged(w: Written, appended: bool) -> (r: Result<WriteConfirmation, AdapterError>)
    ensures
        envelope::outcome_view(r) == if appended {
            Ok(w@.confirmation)
        } else {
            Err(unlogged_error(true, w@.confirmation.tag_id))
        },
{
    if appended {
        Ok(w.confirmation)
    } else {
        Err(unlogged(true, w.confirmation.tag_id.as_str()))
    }
}

/// The line that the audit log gets for a disconnect.
#[derive(Debug)]
pub struct DisconnectEntry {
    pub timestamp: String,
    pub reason: String,
}

/// What a disconnect leaves behind: its answer, and an audit entry if it has a reason and there was
/// a connection.
#[derive(Debug)]
pub struct Disconnected {
    pub response: DisconnectResponse,
    pub audit: Option<DisconnectEntry>,
}

/// The model of a [`Disconnected`]: the entry is a time and a reason.
pub struct DisconnectedView {
    pub response: DisconnectResponseView,
    pub audit: Option<(Seq<char>, Seq<char>)>,
}

impl View for Disconnected {
    type V = DisconnectedView;

    open spec fn view(&self) -> DisconnectedView {
        DisconnectedView {
            response: self.response@,
            audit: match self.audit {
                Some(e) => Some((e.timestamp@, e.reason@)),
                None => None,
            },
        }
    }
}

/// What a disconnect leaves behind.
pub open spec fn disconnected(
    connected: bool,
    reason: Option<Seq<char>>,
    timestamp: Seq<char>,
) -> DisconnectedView {
    DisconnectedView {
        response: DisconnectResponseView { disconnected: true, timestamp },
        audit: match reason {
            Some(r) => if connected {
                Some((timestamp, r))
            } else {
                None
            },
            None => None,
        },
    }
}

/// What a disconnect leaves behind.
pub fn after_disconnect(connected: bool, reason: Option<String>, timestamp: String) -> (r:
    Disconnected)
    ensures
        r@ == disconnected(connected, envelope::opt_text(reason), timestamp@),
{
    let audit: Option<DisconnectEntry> = match reason {
        Some(reason) => if connected {
            Some(DisconnectEntry { timestamp: timestamp.clone(), reason })
        } else {
            None
        },
        None => None,
    };
    Disconnected { response: DisconnectResponse { disconnected: true, timestamp }, audit }
}

/// The confirmation and the audit entry of a write that was carried out.
pub fn confirm(req: WriteRequest, written: WriteValue, quality: Quality, timestamp: String) -> (r:
    Written)
    ensures
        written_by(req@, written, quality, timestamp@, r@),
{
    let confirmation = WriteConfirmation {
        tag_id: req.tag_id.clone(),
        value_written: written,
        quality,
        timestamp,
        units: req.units.clone(),
        operator_id: req.operator_id.clone(),
    };
    Written { confirmation, audit: log_write_audit(req) }
}

} // verus!
