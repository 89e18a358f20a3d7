//! Messages as the session core sees them: opaque, taggable values that
//! carry the request handle correlating them with their exchange, plus the
//! headers and the subscription acknowledgement record.

use vstd::prelude::*;
use crate::basic_types::{DateTime, ExtensionObject, NodeId, StatusCode, UAString};

verus! {

/// The header stamped onto every outgoing request.
#[derive(Clone, PartialEq, Debug)]
pub struct RequestHeader {
    pub authentication_token: NodeId,
    pub timestamp: DateTime,
    pub request_handle: u32,
    pub return_diagnostics: u32,
    pub audit_entry_id: UAString,
    pub timeout_hint: u32,
    pub additional_header: ExtensionObject,
}

/// The header of every incoming response, echoing the request handle.
#[derive(Clone, PartialEq, Debug)]
pub struct ResponseHeader {
    pub timestamp: DateTime,
    pub request_handle: u32,
    pub service_result: StatusCode,
}

/// A message of the protocol. The session core treats the body as opaque;
/// all it reads is the embedded request handle.
#[derive(Clone, PartialEq, Debug)]
pub enum SupportedMessage {
    Request(RequestHeader),
    Response(ResponseHeader),
}

impl SupportedMessage {
    /// The request handle embedded in the message's header.
    pub open spec fn spec_request_handle(self) -> u32 {
        match self {
            SupportedMessage::Request(h) => h.request_handle,
            SupportedMessage::Response(h) => h.request_handle,
        }
    }

    pub fn request_handle(&self) -> (r: u32)
        ensures
            r == self.spec_request_handle(),
    {
        match self {
            SupportedMessage::Request(h) => h.request_handle,
            SupportedMessage::Response(h) => h.request_handle,
        }
    }
}

/// One pending acknowledgement of a delivered notification: the
/// subscription it belongs to and the sequence number acknowledged.
#[derive(Clone, Copy, PartialEq, Eq, Structural, Debug)]
pub struct SubscriptionAcknowledgement {
    pub subscription_id: u32,
    pub sequence_number: u32,
}

} // verus!
