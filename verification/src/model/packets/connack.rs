use vstd::prelude::*;

use super::{fixed_header_flags, packet_header, seal_packet, sealed_packet, CONNACK_PACKET_TYPE,
    DEFAULT_VARIABLE_HEADER_LENGTH, RESERVED_FIXED_HEADER_FLAGS};
use crate::errors::error::{MqttError, MqttErrorModel, MqttResult};
use crate::model::components::fixed_header::{FixedHeader, FixedHeaderModel};
use crate::model::return_codes::connect_return_code::{
    connect_return_code_byte, connect_return_code_of_byte, ConnectReturnCode,
};
use crate::stream::{is_suffix, ByteStream};

verus! {

/// Represents a CONNACK packet of MQTT that is used to accept a connection from a client.
#[derive(Debug)]
pub struct Connack {
    // Variable Header Fields
    session_present: bool,
    connect_return_code: ConnectReturnCode,
}

/// The value of a [`Connack`].
pub struct ConnackModel {
    pub session_present: bool,
    pub connect_return_code: ConnectReturnCode,
}

impl View for Connack {
    type V = ConnackModel;

    closed spec fn view(&self) -> ConnackModel {
        ConnackModel { session_present: self.session_present, connect_return_code: self.connect_return_code }
    }
}

/// Reading the content of a CONNACK packet: the fixed header must carry no flags; the content
/// is two bytes, the first whose low bit tells whether a session is present, the second the
/// return code.
pub open spec fn decode_connack(h: FixedHeaderModel, s: Seq<u8>) -> Result<(ConnackModel, Seq<u8>), MqttErrorModel> {
    if fixed_header_flags(h.first_byte) != RESERVED_FIXED_HEADER_FLAGS {
        Err(MqttErrorModel::InvalidFixedHeaderFlags)
    } else if s.len() < 2 {
        Err(MqttErrorModel::IoError)
    } else {
        match connect_return_code_of_byte(s[1]) {
            Err(e) => Err(e),
            Ok(code) => Ok((ConnackModel { session_present: s[0] & 0x01 == 0x01, connect_return_code: code }, s.skip(2))),
        }
    }
}

/// The content of a CONNACK packet.
pub open spec fn encode_connack_content(c: ConnackModel) -> Seq<u8> {
    seq![if c.session_present { 0x01u8 } else { 0x00u8 }, connect_return_code_byte(c.connect_return_code)]
}

/// The first byte of the fixed header of a CONNACK packet.
pub open spec fn connack_first_byte() -> u8 {
    CONNACK_PACKET_TYPE << 4 | RESERVED_FIXED_HEADER_FLAGS
}

impl Connack {
    pub fn new(session_present: bool, connect_return_code: ConnectReturnCode) -> (c: Self)
        ensures
            c@ == (ConnackModel { session_present, connect_return_code }),
    {
        Self { session_present, connect_return_code }
    }

    /// Converts a stream of bytes into a Connack.
    pub fn from_bytes(fixed_header: FixedHeader, stream: &mut ByteStream) -> (result: MqttResult<Self>)
        ensures
            match decode_connack(fixed_header@, old(stream)@) {
                Ok((c, rest)) => result matches Ok(connack) && connack@ == c && final(stream)@ == rest,
                Err(e) => result matches Err(err) && err@ == e && is_suffix(final(stream)@, old(stream)@),
            },
    {
        let ghost s = stream@;
        proof {
            crate::stream::lemma_suffix_refl(s);
        }
        // Fixed Header
        let fixed_header_flags = fixed_header.first_byte() & 0b0000_1111;

        if fixed_header_flags != RESERVED_FIXED_HEADER_FLAGS {
            return Err(MqttError::InvalidFixedHeaderFlags);
        }

        // Variable Header
        let variable_header_buffer = stream.read_exact(DEFAULT_VARIABLE_HEADER_LENGTH)?;
        proof {
            crate::stream::lemma_suffix_skip(s, 2);
        }

        let connect_ack = variable_header_buffer[0];

        let session_present = (connect_ack & 0b0000_0001) == 0b0000_0001;

        let connect_return_code = ConnectReturnCode::from_byte(variable_header_buffer[1])?;

        Ok(Connack::new(session_present, connect_return_code))
    }

    /// Converts the Connack into a vector of bytes.
    pub fn to_bytes(&self, key: &[u8]) -> (bytes: Vec<u8>)
        requires
            key@.len() == 32,
        ensures
            sealed_packet(bytes@, packet_header(connack_first_byte(), 2), encode_connack_content(self@), key@),
    {
        // Variable Header
        let mut variable_header_bytes = vec![];

        let session_present = if self.session_present { 0x01 } else { 0x00 };

        variable_header_bytes.push(session_present);

        let connect_return_code_bytes = self.connect_return_code.to_byte();

        variable_header_bytes.push(connect_return_code_bytes);
        assert(variable_header_bytes@ =~= encode_connack_content(self@));

        seal_packet(CONNACK_PACKET_TYPE << 4 | RESERVED_FIXED_HEADER_FLAGS, variable_header_bytes, key)
    }

    /// Returns if the session is present.
    pub fn session_present(&self) -> (present: bool)
        ensures
            present == self@.session_present,
    {
        self.session_present
    }

    /// Returns the connection return code.
    pub fn connect_return_code(&self) -> (code: &ConnectReturnCode)
        ensures
            *code == self@.connect_return_code,
    {
        &self.connect_return_code
    }
}

/// Reading back the content of a CONNACK packet under its own fixed header gives it back, and
/// leaves the bytes that follow.
pub proof fn lemma_connack_roundtrip(c: ConnackModel, remaining_length: nat, rest: Seq<u8>)
    ensures
        decode_connack(
            FixedHeaderModel { first_byte: connack_first_byte(), remaining_length },
            encode_connack_content(c) + rest,
        ) == Ok::<(ConnackModel, Seq<u8>), MqttErrorModel>((c, rest)),
{
    let s = encode_connack_content(c) + rest;
    assert(s.skip(2) =~= rest);
    assert(0x01u8 & 0x01 == 0x01 && 0x00u8 & 0x01 == 0x00) by (bit_vector);
    assert(fixed_header_flags(connack_first_byte()) == 0) by (bit_vector);
    crate::model::return_codes::connect_return_code::lemma_connect_return_code_roundtrip(c.connect_return_code, 0);
}

} // verus!
