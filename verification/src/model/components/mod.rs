use vstd::prelude::*;

/// calculate the remaining length
pub mod remaining_length;
/// manage encoded strings
pub mod encoded_string;
/// quality of service
pub mod qos;
/// fixed header of MQTT packets
pub mod fixed_header;
/// topic levels
pub mod topic_level;
/// topic name
pub mod topic_name;
/// topic filter
pub mod topic_filter;
/// login
pub mod login;
/// will
pub mod will;

verus! {

/// The byte that separates the levels of a topic.
pub const FORWARD_SLASH: u8 = 0x2F;

/// The byte that starts the topics reserved by the server.
pub const SERVER_RESERVED: u8 = 0x24;

} // verus!
