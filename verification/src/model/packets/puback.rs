use vstd::prelude::*;

use super::{fixed_header_flags, packet_header, seal_packet, sealed_packet, PUBACK_PACKET_TYPE,
    RESERVED_FIXED_HEADER_FLAGS};
use crate::errors::error::{MqttError, MqttErrorModel, MqttResult};
use crate::model::components::fixed_header::{FixedHeader, FixedHeaderModel};
use crate::stream::{be_bytes, be_u16, is_suffix, u16_to_be, ByteStream};

verus! {

/// Represents a PUBACK packet from MQTT. The server uses it to confirm the reception of a PUBLISH packet.
#[derive(Debug, PartialEq)]
pub struct Puback {
    packet_identifier: Option<u16>,
}

impl View for Puback {
    type V = Option<u16>;

    /// The packet identifier.
    closed spec fn view(&self) -> Option<u16> {
        self.packet_identifier
    }
}

/// Reading the content of a PUBACK packet: the fixed header must carry no flags; the content
/// is the packet identifier, two bytes big-endian.
pub open spec fn decode_puback(h: FixedHeaderModel, s: Seq<u8>) -> Result<(Option<u16>, Seq<u8>), MqttErrorModel> {
    if fixed_header_flags(h.first_byte) != RESERVED_FIXED_HEADER_FLAGS {
        Err(MqttErrorModel::InvalidFixedHeaderFlags)
    } else if s.len() < 2 {
        Err(MqttErrorModel::IoError)
    } else {
        Ok((Some(be_u16(s[0], s[1])), s.skip(2)))
    }
}

/// The content of a PUBACK packet: the packet identifier when there is one, else nothing.
pub open spec fn encode_puback_content(packet_identifier: Option<u16>) -> Seq<u8> {
    match packet_identifier {
        Some(id) => be_bytes(id),
        None => Seq::<u8>::empty(),
    }
}

/// The first byte of the fixed header of a PUBACK packet.
pub open spec fn puback_first_byte() -> u8 {
    PUBACK_PACKET_TYPE << 4 | RESERVED_FIXED_HEADER_FLAGS
}

impl Puback {
    pub fn new(packet_identifier: Option<u16>) -> (p: Self)
        ensures
            p@ == packet_identifier,
    {
        Self { packet_identifier }
    }

    /// Converts a stream of bytes into a Puback.
    pub fn from_bytes(fixed_header: FixedHeader, stream: &mut ByteStream) -> (result: MqttResult<Self>)
        ensures
            match decode_puback(fixed_header@, old(stream)@) {
                Ok((p, rest)) => result matches Ok(puback) && puback@ == p && final(stream)@ == rest,
                Err(e) => result matches Err(err) && err@ == e && is_suffix(final(stream)@, old(stream)@),
            },
    {
        proof {
            crate::stream::lemma_suffix_refl(stream@);
        }
        // Fixed Header
        let fixed_header_flags = fixed_header.first_byte() & 0b0000_1111;

        if fixed_header_flags != RESERVED_FIXED_HEADER_FLAGS {
            return Err(MqttError::InvalidFixedHeaderFlags);
        }

        // Variable Header
        let packet_identifier = Some(stream.read_u16()?);

        Ok(Puback::new(packet_identifier))
    }

    /// Converts the Puback into a vector of bytes.
    pub fn to_bytes(&self, key: &[u8]) -> (bytes: Vec<u8>)
        requires
            key@.len() == 32,
        ensures
            sealed_packet(
                bytes@,
                packet_header(puback_first_byte(), encode_puback_content(self@).len()),
                encode_puback_content(self@),
                key@,
            ),
    {
        // Variable Header
        let mut variable_header_bytes = vec![];

        if let Some(packet_identifier) = self.packet_identifier {
            crate::bytes::append_bytes(&mut variable_header_bytes, u16_to_be(packet_identifier).as_slice());
        }
        assert(variable_header_bytes@ =~= encode_puback_content(self@));

        seal_packet(PUBACK_PACKET_TYPE << 4 | RESERVED_FIXED_HEADER_FLAGS, variable_header_bytes, key)
    }

    /// Returns the packet identifier.
    pub fn packet_identifier(&self) -> (id: Option<u16>)
        ensures
            id == self@,
    {
        self.packet_identifier
    }
}

/// Reading back the content of a PUBACK packet that carries a packet identifier gives it back,
/// and leaves the bytes that follow.
pub proof fn lemma_puback_roundtrip(id: u16, remaining_length: nat, rest: Seq<u8>)
    ensures
        decode_puback(
            FixedHeaderModel { first_byte: puback_first_byte(), remaining_length },
            encode_puback_content(Some(id)) + rest,
        ) == Ok::<(Option<u16>, Seq<u8>), MqttErrorModel>((Some(id), rest)),
{
    let s = encode_puback_content(Some(id)) + rest;
    assert(s.skip(2) =~= rest);
    crate::stream::lemma_be_u16_roundtrip(id);
    assert(fixed_header_flags(puback_first_byte()) == 0) by (bit_vector);
}

} // verus!
