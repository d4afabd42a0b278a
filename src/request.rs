use vstd::prelude::*;

verus! {

/// A command for the device transport: set the attribute of device slot
/// `slot` to `raw`; the reply to it is correlated by `id`.
#[derive(Clone, Copy, Debug, PartialEq, Eq, Structural)]
pub struct Command {
    pub id: u64,
    pub slot: u8,
    pub raw: u8,
}

/// The record of one dispatched command that has not been resolved yet.
#[derive(Clone, Copy, Debug, PartialEq, Eq, Structural)]
pub struct PendingRequest {
    pub id: u64,
    pub slot: u8,
    pub raw: u8,
    /// The request times out once the clock reaches this instant.
    pub deadline: u64,
}

/// What the device transport reports for a command.
#[derive(Clone, Debug)]
pub enum Reply {
    /// The device answered, with its reply payload.
    Ack(Vec<u8>),
    /// The command could not be delivered, or the channel failed; the text
    /// gives the cause.
    Failed(String),
}

/// The terminal result of a request: exactly one of a reply, a timeout, or
/// a transport error.
#[derive(Clone, Debug)]
pub enum RequestOutcome {
    Response(Vec<u8>),
    Timeout,
    TransportError(String),
}

/// A request that has just been resolved, with its outcome.
#[derive(Clone, Debug)]
pub struct Resolution {
    pub id: u64,
    pub slot: u8,
    pub outcome: RequestOutcome,
}

/// The outcome that a transport report resolves a request with.
pub open spec fn outcome_of_reply(reply: Reply) -> RequestOutcome {
    match reply {
        Reply::Ack(payload) => RequestOutcome::Response(payload),
        Reply::Failed(cause) => RequestOutcome::TransportError(cause),
    }
}

/// The resolution of a request whose deadline has passed.
pub open spec fn timeout_resolution(p: PendingRequest) -> Resolution {
    Resolution { id: p.id, slot: p.slot, outcome: RequestOutcome::Timeout }
}

impl Reply {
    /// The outcome that this report resolves a request with.
    pub fn into_outcome(self) -> (r: RequestOutcome)
        ensures
            r == outcome_of_reply(self),
    {
        match self {
            Reply::Ack(payload) => RequestOutcome::Response(payload),
            Reply::Failed(cause) => RequestOutcome::TransportError(cause),
        }
    }
}

} // verus!
