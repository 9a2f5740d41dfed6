//! What can go wrong around the engine, and how far each failure reaches.

use crate::identity::DecodeError;
use vstd::prelude::*;

verus! {

/// A failure that the transport layer meets.
#[derive(Debug, Clone, Copy, PartialEq, Eq)]
pub enum Fault {
    /// The node's ring value is not a decimal non-negative integer.
    MalformedNodeValue,
    /// The readiness multiplexer could not be created.
    MultiplexerCreation,
    /// The listening socket reported an error or a hang-up.
    ListenerFailure,
    /// The listening address could not be parsed.
    AddressParse,
    /// The listening socket could not be bound.
    Bind,
    /// The listener or the command queue could not be registered.
    SourceRegistration,
    /// A read or a write would block.
    WouldBlock,
    /// A read on a connection failed.
    Read,
    /// A write on a connection failed.
    Write,
    /// A received handshake was refused.
    Decode(DecodeError),
    /// A connection reported an error or a hang-up.
    ConnectionHangup,
    /// A connection could not be registered or registered anew.
    ConnectionRegistration,
    /// A connection could not be enqueued to its worker.
    HandOff,
}

/// How far a failure reaches.
#[derive(Debug, Clone, Copy, PartialEq, Eq)]
pub enum Severity {
    /// The node cannot go on: without its identity, its multiplexer or its
    /// listener it serves nobody.
    Fatal,
    /// The loop cannot start; the caller learns of it and decides.
    LoopAbort,
    /// Nothing failed: the operation is tried again on the next readiness.
    Retry,
    /// The connection is closed; the others are served on.
    CloseConnection,
}

/// How far `fault` reaches.
pub open spec fn severity_of(fault: Fault) -> Severity {
    match fault {
        Fault::MalformedNodeValue | Fault::MultiplexerCreation | Fault::ListenerFailure => {
            Severity::Fatal
        },
        Fault::AddressParse | Fault::Bind | Fault::SourceRegistration => Severity::LoopAbort,
        Fault::WouldBlock => Severity::Retry,
        Fault::Read
        | Fault::Write
        | Fault::Decode(_)
        | Fault::ConnectionHangup
        | Fault::ConnectionRegistration
        | Fault::HandOff => Severity::CloseConnection,
    }
}

/// Says how far `fault` reaches.
pub fn severity(fault: Fault) -> (reach: Severity)
    ensures
        reach == severity_of(fault),
{
    match fault {
        Fault::MalformedNodeValue => Severity::Fatal,
        Fault::MultiplexerCreation => Severity::Fatal,
        Fault::ListenerFailure => Severity::Fatal,
        Fault::AddressParse => Severity::LoopAbort,
        Fault::Bind => Severity::LoopAbort,
        Fault::SourceRegistration => Severity::LoopAbort,
        Fault::WouldBlock => Severity::Retry,
        Fault::Read => Severity::CloseConnection,
        Fault::Write => Severity::CloseConnection,
        Fault::Decode(_) => Severity::CloseConnection,
        Fault::ConnectionHangup => Severity::CloseConnection,
        Fault::ConnectionRegistration => Severity::CloseConnection,
        Fault::HandOff => Severity::CloseConnection,
    }
}

} // verus!
