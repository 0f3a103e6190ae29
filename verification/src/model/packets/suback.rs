use vstd::prelude::*;

use super::{fixed_header_flags, packet_header, seal_packet, sealed_packet, DEFAULT_VARIABLE_HEADER_LENGTH,
    RESERVED_FIXED_HEADER_FLAGS, SUBACK_PACKET_TYPE};
use crate::errors::error::{MqttError, MqttErrorModel, MqttResult};
use crate::model::components::fixed_header::{FixedHeader, FixedHeaderModel};
use crate::model::return_codes::suback_return_code::{
    suback_return_code_byte, suback_return_code_of_byte, SubackReturnCode,
};
use crate::stream::{be_bytes, be_u16, is_suffix, u16_to_be, ByteStream};

verus! {

/// Represents a SUBACK packet of MQTT. The server uses it to confirm the subscription to one or more topics.
#[derive(Debug)]
pub struct Suback {
    packet_identifier: u16,
    suback_return_codes: Vec<SubackReturnCode>,
}

/// The value of a [`Suback`].
#[verifier::ext_equal]
pub struct SubackModel {
    pub packet_identifier: u16,
    pub suback_return_codes: Seq<SubackReturnCode>,
}

impl View for Suback {
    type V = SubackModel;

    closed spec fn view(&self) -> SubackModel {
        SubackModel { packet_identifier: self.packet_identifier, suback_return_codes: self.suback_return_codes@ }
    }
}

/// Reads every byte as a return code, in order; the first byte that is refused gives the error.
pub open spec fn suback_return_codes_of(bytes: Seq<u8>) -> Result<Seq<SubackReturnCode>, MqttErrorModel>
    decreases bytes.len(),
{
    if bytes.len() == 0 {
        Ok(Seq::<SubackReturnCode>::empty())
    } else {
        match suback_return_codes_of(bytes.drop_last()) {
            Err(e) => Err(e),
            Ok(codes) => match suback_return_code_of_byte(bytes.last()) {
                Err(e) => Err(e),
                Ok(code) => Ok(codes.push(code)),
            },
        }
    }
}

/// Reading the content of a SUBACK packet: the fixed header must carry no flags; the content is
/// the packet identifier, two bytes big-endian, then one return code per byte up to the
/// remaining length. `None` when the remaining length is below two: the packet cannot be read.
pub open spec fn decode_suback(h: FixedHeaderModel, s: Seq<u8>) -> Option<Result<(SubackModel, Seq<u8>), MqttErrorModel>> {
    if fixed_header_flags(h.first_byte) != RESERVED_FIXED_HEADER_FLAGS {
        Some(Err(MqttErrorModel::InvalidFixedHeaderFlags))
    } else if s.len() < 2 {
        Some(Err(MqttErrorModel::IoError))
    } else if h.remaining_length < 2 {
        None
    } else {
        let n = h.remaining_length - 2;
        let payload = s.skip(2);
        if payload.len() < n {
            Some(Err(MqttErrorModel::IoError))
        } else {
            match suback_return_codes_of(payload.take(n)) {
                Err(e) => Some(Err(e)),
                Ok(codes) => Some(
                    Ok((SubackModel { packet_identifier: be_u16(s[0], s[1]), suback_return_codes: codes }, payload.skip(n))),
                ),
            }
        }
    }
}

/// The content of a SUBACK packet: the packet identifier, then the byte of each return code.
pub open spec fn encode_suback_content(m: SubackModel) -> Seq<u8> {
    be_bytes(m.packet_identifier) + m.suback_return_codes.map_values(|code: SubackReturnCode| suback_return_code_byte(code))
}

/// The first byte of the fixed header of a SUBACK packet.
pub open spec fn suback_first_byte() -> u8 {
    SUBACK_PACKET_TYPE << 4 | RESERVED_FIXED_HEADER_FLAGS
}

impl Suback {
    pub fn new(packet_identifier: u16, suback_return_codes: Vec<SubackReturnCode>) -> (s: Self)
        ensures
            s@ == (SubackModel { packet_identifier, suback_return_codes: suback_return_codes@ }),
    {
        Self { packet_identifier, suback_return_codes }
    }

    /// Converts a stream of bytes into a Suback.
    pub fn from_bytes(fixed_header: FixedHeader, stream: &mut ByteStream) -> (result: MqttResult<Self>)
        requires
            decode_suback(fixed_header@, old(stream)@) is Some,
        ensures
            match decode_suback(fixed_header@, old(stream)@) {
                Some(Ok((m, rest))) => result matches Ok(suback) && suback@ == m && final(stream)@ == rest,
                Some(Err(e)) => result matches Err(err) && err@ == e && is_suffix(final(stream)@, old(stream)@),
                None => false,
            },
    {
        match Self::try_from_bytes(fixed_header, stream) {
            Some(result) => result,
            None => {
                assert(false);
                Err(MqttError::IoError)
            },
        }
    }

    /// Converts a stream of bytes into a Suback, or gives `None` when the remaining length is below two and the
    /// packet cannot be read.
    pub fn try_from_bytes(fixed_header: FixedHeader, stream: &mut ByteStream) -> (result: Option<MqttResult<Self>>)
        ensures
            match decode_suback(fixed_header@, old(stream)@) {
                Some(Ok((m, rest))) => result matches Some(Ok(suback)) && suback@ == m && final(stream)@ == rest,
                Some(Err(e)) => result matches Some(Err(err)) && err@ == e && is_suffix(final(stream)@, old(stream)@),
                None => result is None,
            },
    {
        let ghost s = stream@;
        proof {
            crate::stream::lemma_suffix_refl(s);
        }
        // Fixed Header
        let fixed_header_flags = fixed_header.first_byte() & 0b0000_1111;

        if fixed_header_flags != RESERVED_FIXED_HEADER_FLAGS {
            return Some(Err(MqttError::InvalidFixedHeaderFlags));
        }

        let remaining_length = fixed_header.remaining_length().value();

        // Variable Header
        let packet_identifier = match stream.read_u16() {
            Ok(id) => id,
            Err(e) => {
                return Some(Err(e));
            },
        };
        proof {
            crate::stream::lemma_suffix_skip(s, 2);
        }

        let mut return_codes = vec![];

        if remaining_length < DEFAULT_VARIABLE_HEADER_LENGTH {
            return None;
        }

        // Payload
        let payload_buffer = match stream.read_exact(remaining_length - DEFAULT_VARIABLE_HEADER_LENGTH) {
            Ok(payload) => payload,
            Err(e) => {
                return Some(Err(e));
            },
        };
        let ghost payload = payload_buffer@;
        proof {
            crate::stream::lemma_suffix_skip(s.skip(2), payload.len() as int);
            crate::stream::lemma_suffix_trans(stream@, s.skip(2), s);
        }

        let mut i: usize = 0;
        assert(payload.take(0) =~= Seq::<u8>::empty());
        while i < payload_buffer.len()
            invariant
                i <= payload_buffer.len(),
                payload == payload_buffer@,
                s == old(stream)@,
                fixed_header_flags == RESERVED_FIXED_HEADER_FLAGS,
                fixed_header_flags == fixed_header@.first_byte & 0x0F,
                s.len() >= 2,
                fixed_header@.remaining_length >= 2,
                s.skip(2).len() >= fixed_header@.remaining_length - 2,
                payload == s.skip(2).take(fixed_header@.remaining_length - 2),
                is_suffix(stream@, s),
                suback_return_codes_of(payload.take(i as int)) == Ok::<Seq<SubackReturnCode>, MqttErrorModel>(return_codes@),
            decreases payload_buffer.len() - i,
        {
            assert(payload.take(i + 1).drop_last() =~= payload.take(i as int));
            assert(payload.take(i + 1).last() == payload[i as int]);
            let return_code = match SubackReturnCode::from_byte(payload_buffer[i]) {
                Ok(return_code) => return_code,
                Err(e) => {
                    proof {
                        lemma_suback_codes_prefix(payload, i as int + 1);
                    }
                    return Some(Err(e));
                },
            };
            return_codes.push(return_code);
            i = i + 1;
        }
        assert(payload.take(i as int) =~= payload);

        Some(Ok(Suback::new(packet_identifier, return_codes)))
    }

    /// The content of the packet, before it is encrypted.
    pub(crate) fn content(&self) -> (bytes: Vec<u8>)
        ensures
            bytes@ == encode_suback_content(self@),
    {
        // Variable Header
        let mut variable_header_bytes = u16_to_be(self.packet_identifier);
        let ghost codes = self@.suback_return_codes.map_values(|code: SubackReturnCode| suback_return_code_byte(code));

        // Payload
        let mut i: usize = 0;
        while i < self.suback_return_codes.len()
            invariant
                i <= self.suback_return_codes.len(),
                codes == self@.suback_return_codes.map_values(|code: SubackReturnCode| suback_return_code_byte(code)),
                variable_header_bytes@ == be_bytes(self.packet_identifier) + codes.take(i as int),
            decreases self.suback_return_codes.len() - i,
        {
            variable_header_bytes.push(self.suback_return_codes[i].to_byte());
            i = i + 1;
            assert(variable_header_bytes@ =~= be_bytes(self.packet_identifier) + codes.take(i as int));
        }
        assert(codes.take(i as int) =~= codes);
        variable_header_bytes
    }

    /// Converts the Suback into a vector of bytes.
    pub fn to_bytes(&self, key: &[u8]) -> (bytes: Vec<u8>)
        requires
            key@.len() == 32,
            encode_suback_content(self@).len() <= u32::MAX,
        ensures
            sealed_packet(
                bytes@,
                packet_header(suback_first_byte(), encode_suback_content(self@).len()),
                encode_suback_content(self@),
                key@,
            ),
    {
        seal_packet(SUBACK_PACKET_TYPE << 4 | RESERVED_FIXED_HEADER_FLAGS, self.content(), key)
    }

    /// Returns the packet identifier.
    pub fn packet_identifier(&self) -> (id: u16)
        ensures
            id == self@.packet_identifier,
    {
        self.packet_identifier
    }

    /// Returns the Suback return codes.
    pub fn suback_return_codes(&self) -> (codes: &Vec<SubackReturnCode>)
        ensures
            codes@ == self@.suback_return_codes,
    {
        &self.suback_return_codes
    }
}

/// When the bytes before `k - 1` are read and byte `k - 1` is refused, reading all the bytes
/// fails with that byte's error.
proof fn lemma_suback_codes_prefix(bytes: Seq<u8>, k: int)
    requires
        1 <= k <= bytes.len(),
        suback_return_codes_of(bytes.take(k - 1)) is Ok,
        suback_return_code_of_byte(bytes[k - 1]) is Err,
    ensures
        suback_return_codes_of(bytes) == match suback_return_code_of_byte(bytes[k - 1]) {
            Err(e) => Err::<Seq<SubackReturnCode>, MqttErrorModel>(e),
            Ok(_) => Ok(Seq::<SubackReturnCode>::empty()),
        },
    decreases bytes.len(),
{
    if k < bytes.len() {
        assert(bytes.drop_last().take(k - 1) =~= bytes.take(k - 1));
        assert(bytes.drop_last()[k - 1] == bytes[k - 1]);
        lemma_suback_codes_prefix(bytes.drop_last(), k);
    } else {
        assert(bytes.drop_last() =~= bytes.take(k - 1));
    }
}

/// The bytes of return codes are read back as those codes.
proof fn lemma_suback_codes_roundtrip(codes: Seq<SubackReturnCode>)
    ensures
        suback_return_codes_of(codes.map_values(|code: SubackReturnCode| suback_return_code_byte(code)))
            == Ok::<Seq<SubackReturnCode>, MqttErrorModel>(codes),
    decreases codes.len(),
{
    let bytes = codes.map_values(|code: SubackReturnCode| suback_return_code_byte(code));
    if codes.len() > 0 {
        lemma_suback_codes_roundtrip(codes.drop_last());
        assert(bytes.drop_last() =~= codes.drop_last().map_values(|code: SubackReturnCode| suback_return_code_byte(code)));
        crate::model::return_codes::suback_return_code::lemma_suback_return_code_roundtrip(codes.last(), 0);
        assert(codes.drop_last().push(codes.last()) =~= codes);
    } else {
        assert(bytes =~= Seq::<u8>::empty());
        assert(codes =~= Seq::<SubackReturnCode>::empty());
    }
}

/// Reading back the content of a SUBACK packet, under a fixed header that declares its length,
/// gives it back and leaves the bytes that follow.
pub proof fn lemma_suback_roundtrip(m: SubackModel, rest: Seq<u8>)
    ensures
        decode_suback(
            FixedHeaderModel { first_byte: suback_first_byte(), remaining_length: encode_suback_content(m).len() },
            encode_suback_content(m) + rest,
        ) == Some(Ok::<(SubackModel, Seq<u8>), MqttErrorModel>((m, rest))),
{
    let content = encode_suback_content(m);
    let s = content + rest;
    let codes = m.suback_return_codes.map_values(|code: SubackReturnCode| suback_return_code_byte(code));
    let n = (content.len() - 2) as nat;
    assert(s.skip(2).take(n as int) =~= codes);
    assert(s.skip(2).skip(n as int) =~= rest);
    crate::stream::lemma_be_u16_roundtrip(m.packet_identifier);
    lemma_suback_codes_roundtrip(m.suback_return_codes);
    assert(fixed_header_flags(suback_first_byte()) == 0) by (bit_vector);
}

} // verus!
