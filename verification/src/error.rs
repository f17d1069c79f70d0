//! Errors of serial operations, with recovery hints and categories.

use crate::text::cat;
use vstd::prelude::*;
use vstd::string::*;

verus! {

/// An error of a serial operation.
pub enum SerialError {
    ConnectionFailed(String),
    OperationTimeout,
    CommandCancelled,
    InvalidConfig(String),
    /// An input or output error, as text.
    Io(String),
    /// A serialization error, as text.
    Json(String),
    Internal(String),
}

impl SerialError {
    /// Whether the operation may be tried again.
    pub fn is_recoverable(&self) -> (r: bool)
        ensures
            r == (self is OperationTimeout || self is CommandCancelled || self is ConnectionFailed),
    {
        matches!(
            self,
            SerialError::OperationTimeout | SerialError::CommandCancelled
                | SerialError::ConnectionFailed(_)
        )
    }

    /// The category for logs and metrics.
    pub fn category(&self) -> (r: &'static str)
        ensures
            r@ == (match *self {
                SerialError::ConnectionFailed(_) => "connection"@,
                SerialError::OperationTimeout | SerialError::CommandCancelled => "communication"@,
                SerialError::InvalidConfig(_) => "configuration"@,
                SerialError::Io(_) => "system"@,
                SerialError::Json(_) => "serialization"@,
                SerialError::Internal(_) => "internal"@,
            }),
    {
        match self {
            SerialError::ConnectionFailed(_) => "connection",
            SerialError::OperationTimeout => "communication",
            SerialError::CommandCancelled => "communication",
            SerialError::InvalidConfig(_) => "configuration",
            SerialError::Io(_) => "system",
            SerialError::Json(_) => "serialization",
            SerialError::Internal(_) => "internal",
        }
    }

    /// The message shown to the user.
    pub fn message(&self) -> (r: String)
        ensures
            r@ == (match *self {
                SerialError::ConnectionFailed(m) => "Connection failed: "@ + m@,
                SerialError::OperationTimeout => "Operation timed out"@,
                SerialError::CommandCancelled => "Command cancelled"@,
                SerialError::InvalidConfig(m) => "Invalid configuration: "@ + m@,
                SerialError::Io(m) => "I/O error: "@ + m@,
                SerialError::Json(m) => "Serialization error: "@ + m@,
                SerialError::Internal(m) => "Internal error: "@ + m@,
            }),
    {
        match self {
            SerialError::ConnectionFailed(m) => cat("Connection failed: ", m),
            SerialError::OperationTimeout => "Operation timed out".to_owned(),
            SerialError::CommandCancelled => "Command cancelled".to_owned(),
            SerialError::InvalidConfig(m) => cat("Invalid configuration: ", m),
            SerialError::Io(m) => cat("I/O error: ", m),
            SerialError::Json(m) => cat("Serialization error: ", m),
            SerialError::Internal(m) => cat("Internal error: ", m),
        }
    }
}

// ── Laws ────────────────────────────────────────────────────────────────────

/// Law: what may be tried again is a connection or a command that ran out of time or was
/// cancelled; its category says as much.
pub proof fn law_recoverable_errors(e: SerialError, r: bool, c: &'static str)
    requires
        call_ensures(SerialError::is_recoverable, (&e,), r),
        call_ensures(SerialError::category, (&e,), c),
    ensures
        r <==> e is ConnectionFailed || e is OperationTimeout || e is CommandCancelled,
        r <==> c@ == "connection"@ || c@ == "communication"@,
        e is InvalidConfig <==> c@ == "configuration"@,
        e is Io <==> c@ == "system"@,
        e is Json <==> c@ == "serialization"@,
        e is Internal <==> c@ == "internal"@,
{
    reveal_strlit("connection");
    reveal_strlit("communication");
    reveal_strlit("configuration");
    reveal_strlit("system");
    reveal_strlit("serialization");
    reveal_strlit("internal");
    assert("connection"@.len() == 10 && "communication"@.len() == 13 && "configuration"@.len() == 13
        && "system"@.len() == 6 && "serialization"@.len() == 13 && "internal"@.len() == 8);
    assert("communication"@[3] == 'm' && "configuration"@[3] == 'f' && "serialization"@[3] == 'i');
}

} // verus!
