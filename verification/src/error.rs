//! Domain errors and what a client is told about them.
use vstd::prelude::*;

use crate::text::{has_prefix, push_str, starts_with_chars, str_chars};

verus! {

/// Errors of the gallery's use cases.
#[derive(Debug)]
pub enum DomainError {
    Database(String),
    Ai(String),
    Hashing(String),
    Io(String),
    DuplicateMedia,
    NotFound,
    ModelLoad(String),
    Network(String),
}

/// Human-readable text of an error (what `Display` shows).
pub open spec fn error_text(e: DomainError) -> Seq<char> {
    match e {
        DomainError::Database(s) => "Database error: "@ + s@,
        DomainError::Ai(s) => "AI processing error: "@ + s@,
        DomainError::Hashing(s) => "Hashing error: "@ + s@,
        DomainError::Io(s) => "IO error: "@ + s@,
        DomainError::DuplicateMedia => "Media already exists"@,
        DomainError::NotFound => "Media not found"@,
        DomainError::ModelLoad(s) => "Model loading error: "@ + s@,
        DomainError::Network(s) => "Network error: "@ + s@,
    }
}

impl DomainError {
    /// Human-readable text of the error.
    pub fn describe(&self) -> (text: String)
        ensures
            text@ == error_text(*self),
    {
        let mut out = String::new();
        match self {
            DomainError::Database(s) => {
                push_str(&mut out, "Database error: ");
                push_str(&mut out, s.as_str());
            },
            DomainError::Ai(s) => {
                push_str(&mut out, "AI processing error: ");
                push_str(&mut out, s.as_str());
            },
            DomainError::Hashing(s) => {
                push_str(&mut out, "Hashing error: ");
                push_str(&mut out, s.as_str());
            },
            DomainError::Io(s) => {
                push_str(&mut out, "IO error: ");
                push_str(&mut out, s.as_str());
            },
            DomainError::DuplicateMedia => {
                push_str(&mut out, "Media already exists");
            },
            DomainError::NotFound => {
                push_str(&mut out, "Media not found");
            },
            DomainError::ModelLoad(s) => {
                push_str(&mut out, "Model loading error: ");
                push_str(&mut out, s.as_str());
            },
            DomainError::Network(s) => {
                push_str(&mut out, "Network error: ");
                push_str(&mut out, s.as_str());
            },
        }
        out
    }
}

/// HTTP status and message sent to a client for an error.
pub struct ErrorReply {
    pub status: u16,
    pub message: String,
}

/// I/O messages that are meant for the user and are passed on as they are.
pub open spec fn is_user_facing(msg: Seq<char>) -> bool {
    has_prefix(msg, "No file"@) || has_prefix(msg, "Folder"@) || has_prefix(msg, "Too many"@)
        || has_prefix(msg, "File type"@)
}

/// Status code and message of the reply for `e`; internal details are replaced
/// by a generic message.
pub open spec fn reply_for(e: DomainError) -> (u16, Seq<char>) {
    match e {
        DomainError::DuplicateMedia => (409, "Media already exists"@),
        DomainError::NotFound => (404, "Media not found"@),
        DomainError::Ai(s) => (400, s@),
        DomainError::Io(s) => (500, if is_user_facing(s@) {
            s@
        } else {
            "Internal server error"@
        }),
        _ => (500, "Internal server error"@),
    }
}

fn user_facing(msg: &str) -> (r: bool)
    ensures
        r == is_user_facing(msg@),
{
    let m = str_chars(msg);
    starts_with_chars(&m, &str_chars("No file")) || starts_with_chars(&m, &str_chars("Folder"))
        || starts_with_chars(&m, &str_chars("Too many")) || starts_with_chars(
        &m,
        &str_chars("File type"),
    )
}

/// The reply sent to a client for `e`.
pub fn error_reply(e: DomainError) -> (reply: ErrorReply)
    ensures
        (reply.status, reply.message@) == reply_for(e),
{
    let internal = "Internal server error";
    match e {
        DomainError::DuplicateMedia => ErrorReply { status: 409, message: "Media already exists".to_owned() },
        DomainError::NotFound => ErrorReply { status: 404, message: "Media not found".to_owned() },
        DomainError::Ai(s) => ErrorReply { status: 400, message: s },
        DomainError::Io(s) => {
            if user_facing(s.as_str()) {
                ErrorReply { status: 500, message: s }
            } else {
                ErrorReply { status: 500, message: internal.to_owned() }
            }
        },
        _ => ErrorReply { status: 500, message: internal.to_owned() },
    }
}

} // verus!
