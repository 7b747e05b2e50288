//! The decisions of the HTTP entry points: which multipart form field is
//! which, how an inbound message takes its direction from the route, and
//! how screening and dispatch outcomes map to responses.
//!
//! The request plumbing itself (deserialization, multipart streaming,
//! response construction) lives outside this crate.

use vstd::prelude::*;
use vstd::string::StringExecFns;

use crate::errors::ServiceError;
use crate::mailer::{spec_blocked, Msg, SpamFilter};
use crate::strs::str_eq;

verus! {

/// What a multipart form field is to the attachment route.
#[derive(Debug, Clone, Copy, PartialEq, Eq, Structural)]
pub enum FieldKind {
    /// The single `mail` field.
    MailField,
    /// The single `subject` field.
    SubjectField,
    /// The single `text` field.
    TextField,
    /// Any other field with a file name: a binary attachment.
    FileField,
    /// Any other field without a file name: a hard error.
    UnknownField,
}

/// The kind a form field of the given name is treated as.
pub open spec fn spec_field_kind(name: Seq<char>, has_filename: bool) -> FieldKind {
    if name == "mail"@ {
        FieldKind::MailField
    } else if name == "subject"@ {
        FieldKind::SubjectField
    } else if name == "text"@ {
        FieldKind::TextField
    } else if has_filename {
        FieldKind::FileField
    } else {
        FieldKind::UnknownField
    }
}

/// Classifies one multipart form field by its name and whether it carries
/// a file name.
pub fn classify_field(name: &str, has_filename: bool) -> (k: FieldKind)
    ensures
        k == spec_field_kind(name@, has_filename),
{
    if str_eq(name, "mail") {
        FieldKind::MailField
    } else if str_eq(name, "subject") {
        FieldKind::SubjectField
    } else if str_eq(name, "text") {
        FieldKind::TextField
    } else if has_filename {
        FieldKind::FileField
    } else {
        FieldKind::UnknownField
    }
}

/// The error answered for a form field that is neither a known field nor
/// a file: a conflict naming the field.
pub fn unknown_field_error(name: &str) -> (e: ServiceError)
    ensures
        e matches ServiceError::Conflict(m) && m@ == "Unknown form data: "@ + name@,
{
    let mut m = String::from_str("Unknown form data: ");
    m.append(name);
    ServiceError::Conflict(m)
}

impl Msg {
    /// This message with its direction taken from the route context: a
    /// direction in the request body never survives.
    pub fn with_direction(self, direction: String) -> (r: Msg)
        ensures
            r.direction == Some(direction),
            r.allow_html == self.allow_html,
            r.mail == self.mail,
            r.subject == self.subject,
            r.text == self.text,
            r.attachment == self.attachment,
    {
        Msg { direction: Some(direction), ..self }
    }
}

/// Screens a message before any composition work: a message the
/// block-word filter rejects is answered as rejected content, and never
/// reaches the dispatcher.
pub fn screen_spam(msg: &Msg, filter: &SpamFilter) -> (r: Result<(), ServiceError>)
    ensures
        r is Err <==> spec_blocked(filter.words_view(), msg.subject@, msg.text@),
        r matches Err(e) ==> e matches ServiceError::UnprocessableEntity(m) && m@
            == "Message contains blocked words"@,
{
    if msg.is_spam(filter) {
        Err(ServiceError::UnprocessableEntity(String::from_str("Message contains blocked words")))
    } else {
        Ok(())
    }
}

/// The response of a mail route once the worker ran: the fixed success
/// text, or an internal error that names no cause.
pub fn worker_response(delivered: bool) -> (r: Result<&'static str, ServiceError>)
    ensures
        delivered ==> (r matches Ok(t) && t@ == "Send success!"@),
        !delivered ==> r == Err::<&'static str, ServiceError>(ServiceError::InternalServerError),
{
    if delivered {
        Ok("Send success!")
    } else {
        Err(ServiceError::InternalServerError)
    }
}

} // verus!
