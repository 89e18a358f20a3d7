//! Plain models of the protocol's basic value types, as far as the session
//! core reads them: node identifiers, text, qualified names, timestamps,
//! extension objects and status codes. Unset identity fields are carried as
//! explicit null sentinels, matching the wire requirement that every field
//! be present in encoded form even before a real value exists.

use vstd::prelude::*;

verus! {

/// A node identifier: a namespace index and a numeric identifier.
/// The pair (0, 0) is the well-known null identifier.
#[derive(Clone, Copy, PartialEq, Eq, Structural, Debug)]
pub struct NodeId {
    pub namespace: u16,
    pub value: u32,
}

impl NodeId {
    pub open spec fn spec_is_null(self) -> bool {
        self.namespace == 0 && self.value == 0
    }

    /// The null node identifier, used while a field is still unset.
    pub fn null() -> (r: NodeId)
        ensures
            r.spec_is_null(),
    {
        NodeId { namespace: 0, value: 0 }
    }

    pub fn new(namespace: u16, value: u32) -> (r: NodeId)
        ensures
            r == (NodeId { namespace, value }),
    {
        NodeId { namespace, value }
    }

    pub fn is_null(&self) -> (r: bool)
        ensures
            r == self.spec_is_null(),
    {
        self.namespace == 0 && self.value == 0
    }
}

/// Text carried as its UTF-8 bytes; `None` is the null string.
#[derive(Clone, PartialEq, Debug)]
pub struct UAString {
    pub value: Option<Vec<u8>>,
}

impl View for UAString {
    type V = Option<Seq<u8>>;

    open spec fn view(&self) -> Option<Seq<u8>> {
        match self.value {
            None => None,
            Some(b) => Some(b@),
        }
    }
}

impl UAString {
    pub open spec fn spec_is_null(self) -> bool {
        self.value is None
    }

    /// The null string, used while a field is still unset.
    pub fn null() -> (r: UAString)
        ensures
            r.spec_is_null(),
    {
        UAString { value: None }
    }

    pub fn from_bytes(bytes: Vec<u8>) -> (r: UAString)
        ensures
            r.value == Some(bytes),
    {
        UAString { value: Some(bytes) }
    }

    pub fn is_null(&self) -> (r: bool)
        ensures
            r == self.spec_is_null(),
    {
        self.value.is_none()
    }
}

/// A name qualified by the namespace it belongs to.
#[derive(Clone, PartialEq, Debug)]
pub struct QualifiedName {
    pub namespace_index: u16,
    pub name: UAString,
}

impl QualifiedName {
    pub fn null() -> (r: QualifiedName)
        ensures
            r.namespace_index == 0,
            r.name.spec_is_null(),
    {
        QualifiedName { namespace_index: 0, name: UAString::null() }
    }
}

/// A structure carried opaquely, identified by the node id of its encoding.
#[derive(Clone, PartialEq, Debug)]
pub struct ExtensionObject {
    pub node_id: NodeId,
    pub body: Option<Vec<u8>>,
}

impl ExtensionObject {
    pub open spec fn spec_is_null(self) -> bool {
        self.node_id.spec_is_null() && self.body is None
    }

    /// The null extension object, used where a header carries no extra data.
    pub fn null() -> (r: ExtensionObject)
        ensures
            r.spec_is_null(),
    {
        ExtensionObject { node_id: NodeId { namespace: 0, value: 0 }, body: None }
    }
}

/// A timestamp, carried as milliseconds since the Unix epoch. The session
/// core only stamps timestamps into headers; it never computes with them.
#[derive(Clone, Copy, PartialEq, Eq, Structural, Debug)]
pub struct DateTime {
    pub ticks: u64,
}

impl DateTime {
    /// The clock reading now. Relies on `std::time::SystemTime::now` and
    /// `SystemTime::duration_since` for the wall clock; a reading from
    /// before the epoch is reported as 0. Nothing is promised of the
    /// result: it depends on the machine's clock.
    #[verifier::external_body]
    pub fn now() -> (r: DateTime) {
        let ms = std::time::SystemTime::now()
            .duration_since(std::time::UNIX_EPOCH)
            .map(|d| d.as_millis() as u64)
            .unwrap_or(0);
        DateTime { ticks: ms }
    }

    pub fn epoch() -> (r: DateTime)
        ensures
            r.ticks == 0,
    {
        DateTime { ticks: 0 }
    }
}

/// The outcome of a service-level operation, as far as this crate reports
/// one: decoding is the only operation here that can fail.
#[derive(Clone, Copy, PartialEq, Eq, Structural, Debug)]
pub enum StatusCode {
    Good,
    BadDecodingError,
}

} // verus!
