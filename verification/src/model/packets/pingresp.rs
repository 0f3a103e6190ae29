use vstd::prelude::*;

use super::{bare_packet, bare_packet_bytes, fixed_header_flags, RESERVED_FIXED_HEADER_FLAGS, PINGRESP_PACKET_TYPE};
use crate::errors::error::{MqttError, MqttErrorModel, MqttResult};
use crate::model::components::fixed_header::FixedHeader;

verus! {

/// Represents a PINGRESP packet of MQTT. The server uses it to answer a PINGREQ.
#[derive(Debug, PartialEq)]
pub struct Pingresp {}

/// Reading a PINGRESP packet: it has no content, and its fixed header must carry no flags.
pub open spec fn check_pingresp_flags(first_byte: u8) -> Result<(), MqttErrorModel> {
    if fixed_header_flags(first_byte) != RESERVED_FIXED_HEADER_FLAGS {
        Err(MqttErrorModel::InvalidFixedHeaderFlags)
    } else {
        Ok(())
    }
}

impl Pingresp {
    pub fn new() -> (packet: Self) {
        Pingresp {}
    }

    /// Converts a fixed header into a Pingresp: the packet has no content to read.
    pub fn from_bytes(fixed_header: FixedHeader) -> (result: MqttResult<Self>)
        ensures
            match check_pingresp_flags(fixed_header@.first_byte) {
                Ok(()) => result is Ok,
                Err(e) => result matches Err(err) && err@ == e,
            },
    {
        let fixed_header_flags = fixed_header.first_byte() & 0b0000_1111;

        if fixed_header_flags != RESERVED_FIXED_HEADER_FLAGS {
            return Err(MqttError::InvalidFixedHeaderFlags);
        }

        Ok(Pingresp::new())
    }

    /// Converts the Pingresp into a vector of bytes: its fixed header alone, with a remaining
    /// length of zero. Its content is empty, so nothing is encrypted and the key is not used.
    pub fn to_bytes(&self, _key: &[u8]) -> (bytes: Vec<u8>)
        ensures
            bytes@ == bare_packet(PINGRESP_PACKET_TYPE),
    {
        bare_packet_bytes(PINGRESP_PACKET_TYPE)
    }
}

} // verus!
