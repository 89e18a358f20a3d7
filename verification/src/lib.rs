//! Session-level request/response correlation engine for an OPC UA-style
//! client: handle generation, outbound request queuing, in-flight tracking,
//! response correlation and subscription-acknowledgement bookkeeping, plus
//! the binary form of the browse-path service types.

pub mod basic_types;
pub mod browse_path;
pub mod encoding;
pub mod handle;
pub mod message;
pub mod node_ids;
pub mod relative_path;
pub mod relative_path_element;
pub mod session_state;
