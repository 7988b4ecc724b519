//! Messages wrapped with the metadata that delivery needs.

use vstd::prelude::*;
use crate::addr::Addr;

verus! {

/// How an envelope takes part in the protocol.
#[derive(Clone, Copy, PartialEq, Eq, Structural, Debug)]
pub enum MessageKind {
    /// A one-way message.
    Regular { sender: Addr },
    /// A message that expects one response, correlated by `correlation_id`
    /// in the request table of `sender`.
    Request { sender: Addr, correlation_id: u64 },
    /// The response to the request with this `correlation_id`.
    Response { sender: Addr, correlation_id: u64 },
}

impl MessageKind {
    pub open spec fn spec_sender(self) -> Addr {
        match self {
            MessageKind::Regular { sender } => sender,
            MessageKind::Request { sender, .. } => sender,
            MessageKind::Response { sender, .. } => sender,
        }
    }

    /// The address that the envelope came from.
    #[verifier::when_used_as_spec(spec_sender)]
    pub fn sender(self) -> (sender: Addr)
        ensures
            sender == self.spec_sender(),
    {
        match self {
            MessageKind::Regular { sender } => sender,
            MessageKind::Request { sender, .. } => sender,
            MessageKind::Response { sender, .. } => sender,
        }
    }
}

/// The sole right to answer one request. It cannot be copied, and answering
/// consumes it.
#[derive(Debug)]
pub struct ResponseToken {
    sender: Addr,
    correlation_id: u64,
}

impl ResponseToken {
    /// The requester, in whose table the response is awaited.
    pub closed spec fn spec_sender(&self) -> Addr {
        self.sender
    }

    /// The slot of the requester's table that the response fills.
    pub closed spec fn spec_correlation_id(&self) -> u64 {
        self.correlation_id
    }

    pub(crate) fn new(sender: Addr, correlation_id: u64) -> (token: ResponseToken)
        ensures
            token.spec_sender() == sender,
            token.spec_correlation_id() == correlation_id,
    {
        ResponseToken { sender, correlation_id }
    }

    #[verifier::when_used_as_spec(spec_sender)]
    pub fn sender(&self) -> (sender: Addr)
        ensures
            sender == self.spec_sender(),
    {
        self.sender
    }

    #[verifier::when_used_as_spec(spec_correlation_id)]
    pub fn correlation_id(&self) -> (correlation_id: u64)
        ensures
            correlation_id == self.spec_correlation_id(),
    {
        self.correlation_id
    }
}

/// A message with its kind and the instant it was created at.
///
/// The instant serves diagnostics only: delivery order is queue order.
#[derive(Debug)]
pub struct Envelope<M> {
    pub message: M,
    pub kind: MessageKind,
    pub created_at: u64,
}

impl<M> Envelope<M> {
    pub fn new(message: M, kind: MessageKind, created_at: u64) -> (envelope: Envelope<M>)
        ensures
            envelope == (Envelope { message, kind, created_at }),
    {
        Envelope { message, kind, created_at }
    }

    pub open spec fn spec_sender(&self) -> Addr {
        self.kind.spec_sender()
    }

    /// The address that the envelope came from.
    #[verifier::when_used_as_spec(spec_sender)]
    pub fn sender(&self) -> (sender: Addr)
        ensures
            sender == self.spec_sender(),
    {
        self.kind.sender()
    }

    pub open spec fn spec_is_request(&self) -> bool {
        self.kind is Request
    }

    #[verifier::when_used_as_spec(spec_is_request)]
    pub fn is_request(&self) -> (request: bool)
        ensures
            request == self.spec_is_request(),
    {
        match self.kind {
            MessageKind::Request { .. } => true,
            _ => false,
        }
    }

    pub fn message(&self) -> (message: &M)
        ensures
            *message == self.message,
    {
        &self.message
    }

    /// Splits the envelope into its message and, for a request, the token
    /// that answers it. The envelope is consumed, so one request yields one
    /// token.
    pub fn unpack(self) -> (parts: (M, Option<ResponseToken>))
        ensures
            parts.0 == self.message,
            match self.kind {
                MessageKind::Request { sender, correlation_id } => parts.1 is Some
                    && parts.1->0.spec_sender() == sender && parts.1->0.spec_correlation_id()
                    == correlation_id,
                _ => parts.1 is None,
            },
    {
        let token = match self.kind {
            MessageKind::Request { sender, correlation_id } => Some(
                ResponseToken::new(sender, correlation_id),
            ),
            _ => None,
        };
        (self.message, token)
    }
}

} // verus!
