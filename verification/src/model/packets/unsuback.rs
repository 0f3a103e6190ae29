use vstd::prelude::*;

use super::{fixed_header_flags, packet_header, seal_packet, sealed_packet, RESERVED_FIXED_HEADER_FLAGS,
    UNSUBACK_PACKET_TYPE};
use crate::errors::error::{MqttError, MqttErrorModel, MqttResult};
use crate::model::components::fixed_header::{FixedHeader, FixedHeaderModel};
use crate::stream::{be_bytes, be_u16, is_suffix, u16_to_be, ByteStream};

verus! {

/// Represents an UNSUBACK packet from MQTT. The server uses it to confirm the unsubscription of one or more topics.
#[derive(Debug)]
pub struct Unsuback {
    packet_identifier: u16,
}

impl View for Unsuback {
    type V = u16;

    /// The packet identifier.
    closed spec fn view(&self) -> u16 {
        self.packet_identifier
    }
}

/// Reading the content of an UNSUBACK packet: the fixed header must carry no flags; the content
/// is the packet identifier, two bytes big-endian.
pub open spec fn decode_unsuback(h: FixedHeaderModel, s: Seq<u8>) -> Result<(u16, Seq<u8>), MqttErrorModel> {
    if fixed_header_flags(h.first_byte) != RESERVED_FIXED_HEADER_FLAGS {
        Err(MqttErrorModel::InvalidFixedHeaderFlags)
    } else if s.len() < 2 {
        Err(MqttErrorModel::IoError)
    } else {
        Ok((be_u16(s[0], s[1]), s.skip(2)))
    }
}

/// The first byte of the fixed header of an UNSUBACK packet.
pub open spec fn unsuback_first_byte() -> u8 {
    UNSUBACK_PACKET_TYPE << 4 | RESERVED_FIXED_HEADER_FLAGS
}

impl Unsuback {
    pub fn new(packet_identifier: u16) -> (u: Self)
        ensures
            u@ == packet_identifier,
    {
        Self { packet_identifier }
    }

    /// Converts a stream of bytes into an Unsuback.
    pub fn from_bytes(fixed_header: FixedHeader, stream: &mut ByteStream) -> (result: MqttResult<Self>)
        ensures
            match decode_unsuback(fixed_header@, old(stream)@) {
                Ok((id, rest)) => result matches Ok(u) && u@ == id && final(stream)@ == rest,
                Err(e) => result matches Err(err) && err@ == e && is_suffix(final(stream)@, old(stream)@),
            },
    {
        proof {
            crate::stream::lemma_suffix_refl(stream@);
        }
        // Fixed Header
        let fixed_header_flags = fixed_header.first_byte() & 0b0000_1111;

        if fixed_header_flags != RESERVED_FIXED_HEADER_FLAGS {
            return Err(MqttError::InvalidFixedHeaderFlags);
        }

        // Variable Header
        let packet_identifier = stream.read_u16()?;

        Ok(Unsuback::new(packet_identifier))
    }

    /// Converts the Unsuback into a vector of bytes.
    pub fn to_bytes(&self, key: &[u8]) -> (bytes: Vec<u8>)
        requires
            key@.len() == 32,
        ensures
            sealed_packet(bytes@, packet_header(unsuback_first_byte(), 2), be_bytes(self@), key@),
    {
        // Variable Header
        let variable_header_bytes = u16_to_be(self.packet_identifier);

        seal_packet(UNSUBACK_PACKET_TYPE << 4 | RESERVED_FIXED_HEADER_FLAGS, variable_header_bytes, key)
    }

    /// Returns the packet identifier.
    pub fn packet_identifier(&self) -> (id: u16)
        ensures
            id == self@,
    {
        self.packet_identifier
    }
}

/// Reading back the content of an UNSUBACK packet gives its packet identifier back, and leaves
/// the bytes that follow.
pub proof fn lemma_unsuback_roundtrip(id: u16, remaining_length: nat, rest: Seq<u8>)
    ensures
        decode_unsuback(
            FixedHeaderModel { first_byte: unsuback_first_byte(), remaining_length },
            be_bytes(id) + rest,
        ) == Ok::<(u16, Seq<u8>), MqttErrorModel>((id, rest)),
{
    let s = be_bytes(id) + rest;
    assert(s.skip(2) =~= rest);
    crate::stream::lemma_be_u16_roundtrip(id);
    assert(fixed_header_flags(unsuback_first_byte()) == 0) by (bit_vector);
}

} // verus!
