use vstd::prelude::*;

use crate::encryptation::encryping_tool::{encrypt, open_message, NONCE_SIZE, TAG_SIZE};
use crate::model::components::remaining_length::{encode_remaining_length, RemainingLength, MAX_LENGTH};

/// CONNECT packets
pub mod connect;
/// CONNACK packets
pub mod connack;
/// PUBACK packets
pub mod puback;
/// UNSUBACK packets
pub mod unsuback;
/// SUBACK packets
pub mod suback;
/// PUBLISH packets
pub mod publish;
/// SUBSCRIBE packets
pub mod subscribe;
/// UNSUBSCRIBE packets
pub mod unsubscribe;
/// PINGREQ packets
pub mod pingreq;
/// PINGRESP packets
pub mod pingresp;
/// DISCONNECT packets
pub mod disconnect;

verus! {

pub const CONNECT_PACKET_TYPE: u8 = 0x01;
pub const CONNACK_PACKET_TYPE: u8 = 0x02;
pub const PUBLISH_PACKET_TYPE: u8 = 0x03;
pub const PUBACK_PACKET_TYPE: u8 = 0x04;
pub const SUBSCRIBE_PACKET_TYPE: u8 = 0x08;
pub const SUBACK_PACKET_TYPE: u8 = 0x09;
pub const UNSUBSCRIBE_PACKET_TYPE: u8 = 0x0A;
pub const UNSUBACK_PACKET_TYPE: u8 = 0x0B;
pub const PINGREQ_PACKET_TYPE: u8 = 0x0C;
pub const PINGRESP_PACKET_TYPE: u8 = 0x0D;
pub const DISCONNECT_PACKET_TYPE: u8 = 0x0E;

/// The flags of the fixed header that packets without flags of their own must carry.
pub const RESERVED_FIXED_HEADER_FLAGS: u8 = 0x00;

/// The length of the variable header that holds a packet identifier.
pub const DEFAULT_VARIABLE_HEADER_LENGTH: usize = 2;

/// The flags of a fixed header: the four low bits of its first byte.
pub open spec fn fixed_header_flags(first_byte: u8) -> u8 {
    first_byte & 0x0F
}

/// The bytes of a packet without content: its type, no flags, and a remaining length of zero.
pub open spec fn bare_packet(packet_type: u8) -> Seq<u8> {
    seq![packet_type << 4 | RESERVED_FIXED_HEADER_FLAGS, 0u8]
}

/// Builds the bytes of a packet without content.
pub fn bare_packet_bytes(packet_type: u8) -> (bytes: Vec<u8>)
    ensures
        bytes@ == bare_packet(packet_type),
{
    let bytes = vec![packet_type << 4 | RESERVED_FIXED_HEADER_FLAGS, 0u8];
    assert(bytes@ =~= bare_packet(packet_type));
    bytes
}

/// The remaining length that a packet with `n` bytes of content declares: `n`, clamped to the
/// largest remaining length.
pub open spec fn declared_length(n: nat) -> nat {
    if n > MAX_LENGTH {
        MAX_LENGTH as nat
    } else {
        n
    }
}

/// The fixed header of a packet: its first byte, then the remaining length of its content.
pub open spec fn packet_header(first_byte: u8, content_length: nat) -> Seq<u8> {
    seq![first_byte] + encode_remaining_length(declared_length(content_length))
}

/// `bytes` is a packet made of `header` followed by an encryption of `content` under `key`.
pub open spec fn sealed_packet(bytes: Seq<u8>, header: Seq<u8>, content: Seq<u8>, key: Seq<u8>) -> bool {
    &&& bytes.len() == header.len() + content.len() + NONCE_SIZE + TAG_SIZE
    &&& bytes.take(header.len() as int) == header
    &&& open_message(key, bytes.skip(header.len() as int)) == Some(content)
}

/// Builds a packet: the fixed header made of `first_byte` and the length of `content`, then
/// `content` encrypted under `key`.
pub fn seal_packet(first_byte: u8, content: Vec<u8>, key: &[u8]) -> (bytes: Vec<u8>)
    requires
        key@.len() == 32,
        content@.len() <= u32::MAX,
    ensures
        sealed_packet(bytes@, packet_header(first_byte, content@.len()), content@, key@),
{
    let ghost plain = content@;
    let mut fixed_header_bytes = vec![first_byte];
    let remaining_length_value = content.len() as u32;
    let remaining_length_bytes = RemainingLength::new(remaining_length_value).to_bytes();
    crate::bytes::append_bytes(&mut fixed_header_bytes, remaining_length_bytes.as_slice());
    let ghost header = fixed_header_bytes@;
    assert(header =~= packet_header(first_byte, plain.len()));

    let encrypted_bytes = match encrypt(content, key) {
        Ok(bytes) => bytes,
        Err(_) => {
            assert(false);
            return vec![];
        },
    };

    let mut packet_bytes = vec![];
    crate::bytes::append_bytes(&mut packet_bytes, fixed_header_bytes.as_slice());
    crate::bytes::append_bytes(&mut packet_bytes, encrypted_bytes.as_slice());
    assert(packet_bytes@.take(header.len() as int) =~= header);
    assert(packet_bytes@.skip(header.len() as int) =~= encrypted_bytes@);

    packet_bytes
}

} // verus!
