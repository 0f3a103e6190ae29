use vstd::prelude::*;

use crate::encryptation::EXTRA_DATA_SIZE;
use crate::errors::error::{MqttErrorModel, MqttResult};
use crate::model::components::remaining_length::{
    decode_remaining_length, encode_remaining_length, RemainingLength,
};
use crate::model::packets::{
    CONNACK_PACKET_TYPE, CONNECT_PACKET_TYPE, PUBACK_PACKET_TYPE, PUBLISH_PACKET_TYPE, SUBACK_PACKET_TYPE,
    SUBSCRIBE_PACKET_TYPE, UNSUBACK_PACKET_TYPE, UNSUBSCRIBE_PACKET_TYPE,
};
use crate::stream::{is_suffix, ByteStream};

verus! {

/// Represents the fixed header of an MQTT packet.
pub struct FixedHeader {
    first_byte: u8,
    remaining_length: RemainingLength,
}

/// The value of a [`FixedHeader`]: its first byte and its remaining length.
pub struct FixedHeaderModel {
    pub first_byte: u8,
    pub remaining_length: nat,
}

impl View for FixedHeader {
    type V = FixedHeaderModel;

    closed spec fn view(&self) -> FixedHeaderModel {
        FixedHeaderModel { first_byte: self.first_byte, remaining_length: self.remaining_length@ }
    }
}

/// The bytes of a fixed header: its first byte, then its remaining length.
pub open spec fn encode_fixed_header(h: FixedHeaderModel) -> Seq<u8> {
    seq![h.first_byte] + encode_remaining_length(h.remaining_length)
}

/// Reading a fixed header from the front of `s`: one byte, then a remaining length.
pub open spec fn decode_fixed_header(s: Seq<u8>) -> Result<(FixedHeaderModel, Seq<u8>), MqttErrorModel> {
    if s.len() < 1 {
        Err(MqttErrorModel::IoError)
    } else {
        match decode_remaining_length(s.skip(1)) {
            Ok((v, rest)) => Ok((FixedHeaderModel { first_byte: s[0], remaining_length: v }, rest)),
            Err(e) => Err(e),
        }
    }
}

/// The packet type, held in the four high bits of the first byte.
pub open spec fn packet_type_of(first_byte: u8) -> u8 {
    first_byte / 16
}

/// The packet types whose content travels encrypted.
pub open spec fn is_encrypted_type(packet_type: u8) -> bool {
    packet_type == CONNECT_PACKET_TYPE || packet_type == CONNACK_PACKET_TYPE || packet_type
        == SUBSCRIBE_PACKET_TYPE || packet_type == SUBACK_PACKET_TYPE || packet_type
        == PUBLISH_PACKET_TYPE || packet_type == PUBACK_PACKET_TYPE || packet_type
        == UNSUBSCRIBE_PACKET_TYPE || packet_type == UNSUBACK_PACKET_TYPE
}

/// The number of bytes that follow the fixed header on the wire: the remaining length, plus the
/// nonce and tag for the packet types whose content is encrypted.
pub open spec fn encrypted_length(h: FixedHeaderModel) -> nat {
    if is_encrypted_type(packet_type_of(h.first_byte)) {
        (h.remaining_length + EXTRA_DATA_SIZE) as nat
    } else {
        h.remaining_length
    }
}

impl FixedHeader {
    pub fn new(first_byte: u8, remaining_length: RemainingLength) -> (h: FixedHeader)
        ensures
            h@ == (FixedHeaderModel { first_byte, remaining_length: remaining_length@ }),
    {
        FixedHeader { first_byte, remaining_length }
    }

    /// Converts a byte stream into a FixedHeader.
    pub fn from_bytes(stream: &mut ByteStream) -> (result: MqttResult<FixedHeader>)
        ensures
            match decode_fixed_header(old(stream)@) {
                Ok((h, rest)) => result matches Ok(fh) && fh@ == h && final(stream)@ == rest,
                Err(e) => result matches Err(err) && err@ == e && is_suffix(final(stream)@, old(stream)@),
            },
    {
        let ghost s = stream@;
        let first_byte = match stream.read_u8() {
            Ok(byte) => byte,
            Err(e) => {
                proof {
                    crate::stream::lemma_suffix_refl(s);
                }
                return Err(e);
            },
        };
        let remaining_length = match RemainingLength::from_bytes(stream) {
            Ok(rl) => rl,
            Err(e) => {
                proof {
                    crate::stream::lemma_suffix_skip(s, 1);
                    crate::stream::lemma_suffix_trans(stream@, s.skip(1), s);
                }
                return Err(e);
            },
        };

        Ok(FixedHeader { first_byte, remaining_length })
    }

    /// Converts the FixedHeader into a byte vector.
    pub fn to_bytes(&self) -> (bytes: Vec<u8>)
        ensures
            bytes@ == encode_fixed_header(self@),
    {
        let mut fixed_header_bytes = vec![self.first_byte];
        let rest = self.remaining_length.to_bytes();
        let mut i: usize = 0;
        while i < rest.len()
            invariant
                i <= rest.len(),
                fixed_header_bytes@ == seq![self.first_byte] + rest@.take(i as int),
            decreases rest.len() - i,
        {
            fixed_header_bytes.push(rest[i]);
            i = i + 1;
            assert(fixed_header_bytes@ =~= seq![self.first_byte] + rest@.take(i as int));
        }
        assert(rest@.take(i as int) =~= rest@);
        fixed_header_bytes
    }

    /// Returns the first byte of the fixed header.
    pub fn first_byte(&self) -> (b: u8)
        ensures
            b == self@.first_byte,
    {
        self.first_byte
    }

    /// Returns the remaining length of the fixed header.
    pub fn remaining_length(&self) -> (rl: &RemainingLength)
        ensures
            rl@ == self@.remaining_length,
    {
        &self.remaining_length
    }

    /// Return the remaining length of the fixed header considering encrypted data.
    pub fn remaining_length_encrypted(&self) -> (n: usize)
        ensures
            n == encrypted_length(self@),
    {
        let first_byte = self.first_byte;
        let packet_type = first_byte >> 4;
        assert(packet_type == first_byte / 16) by (bit_vector)
            requires
                packet_type == first_byte >> 4,
        ;
        let value = self.remaining_length.value();
        match packet_type {
            CONNECT_PACKET_TYPE
            | CONNACK_PACKET_TYPE
            | SUBSCRIBE_PACKET_TYPE
            | SUBACK_PACKET_TYPE
            | PUBLISH_PACKET_TYPE
            | PUBACK_PACKET_TYPE
            | UNSUBSCRIBE_PACKET_TYPE
            | UNSUBACK_PACKET_TYPE => value + EXTRA_DATA_SIZE,
            _ => value,
        }
    }
}

} // verus!
