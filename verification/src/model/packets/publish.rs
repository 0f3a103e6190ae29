use vstd::prelude::*;

use super::{packet_header, seal_packet, sealed_packet, DEFAULT_VARIABLE_HEADER_LENGTH, PUBLISH_PACKET_TYPE};
use crate::errors::error::{MqttError, MqttErrorModel, MqttResult};
use crate::model::components::fixed_header::{FixedHeader, FixedHeaderModel};
use crate::model::components::qos::{qos_byte, qos_of_byte, QoS};
use crate::model::components::remaining_length::MAX_LENGTH;
use crate::model::components::topic_name::{
    decode_topic_name, encode_topic_name, topic_name_wf, TopicName, TopicNameModel,
};
use crate::stream::{be_bytes, be_u16, is_suffix, u16_to_be, ByteStream};

verus! {

/// Represents a PUBLISH packet of MQTT. The client uses it to publish a message to a topic.
#[derive(Debug)]
pub struct Publish {
    dup: bool,
    qos: QoS,
    retain: bool,
    topic: TopicName,
    package_identifier: Option<u16>,
    message: Vec<u8>,
}

/// The value of a [`Publish`].
#[verifier::ext_equal]
pub struct PublishModel {
    pub dup: bool,
    pub qos: QoS,
    pub retain: bool,
    pub topic: TopicNameModel,
    pub package_identifier: Option<u16>,
    pub message: Seq<u8>,
}

impl View for Publish {
    type V = PublishModel;

    closed spec fn view(&self) -> PublishModel {
        PublishModel {
            dup: self.dup,
            qos: self.qos,
            retain: self.retain,
            topic: self.topic@,
            package_identifier: self.package_identifier,
            message: self.message@,
        }
    }
}

/// Reading the content of a PUBLISH packet. The flags of the fixed header hold the dup flag
/// (bit 3), the quality of service (bits 1 and 2) and the retain flag (bit 0). The content is
/// the topic, then a packet identifier unless the quality of service is "at most once", then the
/// message, which takes what is left of the remaining length. `None` when the remaining length
/// is shorter than the topic and the packet identifier: the packet cannot be read.
pub open spec fn decode_publish(h: FixedHeaderModel, s: Seq<u8>) -> Option<Result<(PublishModel, Seq<u8>), MqttErrorModel>> {
    let flags = h.first_byte & 0x0F;
    let dup = (flags >> 3) & 1 == 1;
    let retain = flags & 1 == 1;
    match qos_of_byte((flags >> 1) & 0x03) {
        Err(e) => Some(Err(e)),
        Ok(qos) => match decode_topic_name(s) {
            Err(e) => Some(Err(e)),
            Ok((topic, after_topic)) => {
                let id_length: nat = if qos == QoS::AtMost { 0 } else { 2 };
                if after_topic.len() < id_length {
                    Some(Err(MqttErrorModel::IoError))
                } else {
                    let package_identifier = if qos == QoS::AtMost {
                        None
                    } else {
                        Some(be_u16(after_topic[0], after_topic[1]))
                    };
                    let after_id = after_topic.skip(id_length as int);
                    let variable_header_length = encode_topic_name(topic).len() + id_length;
                    if h.remaining_length < variable_header_length {
                        None
                    } else {
                        let n = h.remaining_length - variable_header_length;
                        if after_id.len() < n {
                            Some(Err(MqttErrorModel::IoError))
                        } else {
                            Some(Ok((PublishModel { dup, qos, retain, topic, package_identifier, message: after_id.take(n) }, after_id.skip(n))))
                        }
                    }
                }
            },
        },
    }
}

/// The content of a PUBLISH packet: the topic, the packet identifier when there is one, the message.
pub open spec fn encode_publish_content(m: PublishModel) -> Seq<u8> {
    encode_topic_name(m.topic) + match m.package_identifier {
        Some(id) => be_bytes(id),
        None => Seq::<u8>::empty(),
    } + m.message
}

/// The first byte of the fixed header of a PUBLISH packet: its type, then the dup flag, the
/// quality of service and the retain flag.
pub open spec fn publish_first_byte(m: PublishModel) -> u8 {
    PUBLISH_PACKET_TYPE << 4 | ((if m.dup { 1u8 } else { 0u8 }) << 3 | (qos_byte(m.qos) << 1) | (if m.retain { 1u8 } else { 0u8 }))
}

/// A PUBLISH packet as reading yields one: a well-formed topic, a packet identifier exactly when
/// the quality of service asks for one, and a content that fits in a remaining length.
pub open spec fn publish_wf(m: PublishModel) -> bool {
    &&& topic_name_wf(m.topic)
    &&& (m.package_identifier is Some <==> m.qos != QoS::AtMost)
    &&& encode_publish_content(m).len() <= MAX_LENGTH
}

impl Publish {
    pub fn new(
        dup: bool,
        qos: QoS,
        retain: bool,
        topic: TopicName,
        package_identifier: Option<u16>,
        message: Vec<u8>,
    ) -> (p: Self)
        ensures
            p@ == (PublishModel { dup, qos, retain, topic: topic@, package_identifier, message: message@ }),
    {
        Self { dup, qos, retain, topic, package_identifier, message }
    }

    /// Converts a stream of bytes into a Publish.
    pub fn from_bytes(fixed_header: FixedHeader, stream: &mut ByteStream) -> (result: MqttResult<Self>)
        requires
            decode_publish(fixed_header@, old(stream)@) is Some,
        ensures
            match decode_publish(fixed_header@, old(stream)@) {
                Some(Ok((m, rest))) => result matches Ok(p) && p@ == m && final(stream)@ == rest,
                Some(Err(e)) => result matches Err(err) && err@ == e && is_suffix(final(stream)@, old(stream)@),
                None => false,
            },
    {
        match Self::try_from_bytes(fixed_header, stream) {
            Some(result) => result,
            None => {
                assert(false);
                Err(MqttError::IoError)
            },
        }
    }

    /// Converts a stream of bytes into a Publish, or gives `None` when the remaining length is
    /// shorter than the variable header and the packet cannot be read.
    pub fn try_from_bytes(fixed_header: FixedHeader, stream: &mut ByteStream) -> (result: Option<MqttResult<Self>>)
        ensures
            match decode_publish(fixed_header@, old(stream)@) {
                Some(Ok((m, rest))) => result matches Some(Ok(p)) && p@ == m && final(stream)@ == rest,
                Some(Err(e)) => result matches Some(Err(err)) && err@ == e && is_suffix(final(stream)@, old(stream)@),
                None => result is None,
            },
    {
        let ghost s = stream@;
        proof {
            crate::stream::lemma_suffix_refl(s);
        }
        // Fixed Header

        let fixed_header_flags = fixed_header.first_byte() & 0b0000_1111;

        let dup = (fixed_header_flags >> 3) & 1 == 1;
        let qos = match QoS::from_byte((fixed_header_flags >> 1) & 0b11) {
            Ok(qos) => qos,
            Err(e) => {
                return Some(Err(e));
            },
        };
        let retain = fixed_header_flags & 1 == 1;

        let remaining_length = fixed_header.remaining_length().value();

        // Variable Header

        let topic = match TopicName::from_bytes(stream) {
            Ok(topic) => topic,
            Err(e) => {
                return Some(Err(e));
            },
        };
        let ghost after_topic = stream@;
        proof {
            crate::model::components::topic_name::lemma_topic_name_suffix(s);
        }

        let package_identifier = match qos {
            QoS::AtMost => None,
            _ => {
                let id = match stream.read_u16() {
                    Ok(id) => id,
                    Err(e) => {
                        return Some(Err(e));
                    },
                };
                Some(id)
            },
        };
        let ghost after_id = stream@;
        proof {
            if qos != QoS::AtMost {
                crate::stream::lemma_suffix_skip(after_topic, 2);
                crate::stream::lemma_suffix_trans(after_id, after_topic, s);
            }
        }

        let id_length = match package_identifier {
            Some(_) => DEFAULT_VARIABLE_HEADER_LENGTH,
            None => 0,
        };
        let topic_len = topic.length();

        // Payload

        if remaining_length < id_length || remaining_length - id_length < topic_len {
            return None;
        }
        let payload_len = remaining_length - id_length - topic_len;

        let message = match stream.read_exact(payload_len) {
            Ok(message) => message,
            Err(e) => {
                return Some(Err(e));
            },
        };

        Some(Ok(Publish::new(dup, qos, retain, topic, package_identifier, message)))
    }

    /// The content of the packet, before it is encrypted.
    pub(crate) fn content(&self) -> (bytes: Vec<u8>)
        ensures
            bytes@ == encode_publish_content(self@),
    {
        // Variable Header
        let mut data_bytes = self.topic.to_bytes();

        if let Some(package_identifier) = self.package_identifier {
            crate::bytes::append_bytes(&mut data_bytes, u16_to_be(package_identifier).as_slice());
        }

        // Payload
        crate::bytes::append_bytes(&mut data_bytes, self.message.as_slice());
        assert(data_bytes@ =~= encode_publish_content(self@));
        data_bytes
    }

    /// Converts the Publish into a vector of bytes.
    pub fn to_bytes(&self, key: &[u8]) -> (bytes: Vec<u8>)
        requires
            key@.len() == 32,
            encode_publish_content(self@).len() <= u32::MAX,
        ensures
            sealed_packet(
                bytes@,
                packet_header(publish_first_byte(self@), encode_publish_content(self@).len()),
                encode_publish_content(self@),
                key@,
            ),
    {
        // Fixed Header
        let fixed_header_flags = (if self.dup { 1 } else { 0 } << 3) | (self.qos.to_byte() << 1) | (if self.retain { 1 } else { 0 });

        seal_packet(PUBLISH_PACKET_TYPE << 4 | fixed_header_flags, self.content(), key)
    }

    /// Returns whether the packet is duplicated.
    pub fn dup(&self) -> (dup: bool)
        ensures
            dup == self@.dup,
    {
        self.dup
    }

    /// Returns the quality of service of the packet.
    pub fn qos(&self) -> (qos: &QoS)
        ensures
            *qos == self@.qos,
    {
        &self.qos
    }

    /// Returns whether the packet should be retained.
    pub fn retain(&self) -> (retain: bool)
        ensures
            retain == self@.retain,
    {
        self.retain
    }

    /// Returns the topic of the packet.
    pub fn topic(&self) -> (topic: &TopicName)
        ensures
            topic@ == self@.topic,
    {
        &self.topic
    }

    /// Returns the package identifier of the packet.
    pub fn package_identifier(&self) -> (id: Option<u16>)
        ensures
            id == self@.package_identifier,
    {
        self.package_identifier
    }

    /// Returns the message of the packet.
    pub fn message(&self) -> (message: &Vec<u8>)
        ensures
            message@ == self@.message,
    {
        &self.message
    }
}

impl Clone for Publish {
    fn clone(&self) -> (copy: Publish)
        ensures
            copy@ == self@,
    {
        Publish {
            dup: self.dup,
            qos: self.qos,
            retain: self.retain,
            topic: self.topic.clone(),
            package_identifier: self.package_identifier,
            message: vstd::slice::slice_to_vec(self.message.as_slice()),
        }
    }
}

/// Reading back the content of a well-formed PUBLISH packet, under the fixed header it is
/// sent with, gives it back and leaves the bytes that follow.
pub proof fn lemma_publish_roundtrip(m: PublishModel, rest: Seq<u8>)
    requires
        publish_wf(m),
    ensures
        decode_publish(
            FixedHeaderModel { first_byte: publish_first_byte(m), remaining_length: encode_publish_content(m).len() },
            encode_publish_content(m) + rest,
        ) == Some(Ok::<(PublishModel, Seq<u8>), MqttErrorModel>((m, rest))),
{
    let d: u8 = if m.dup { 1 } else { 0 };
    let r: u8 = if m.retain { 1 } else { 0 };
    let q: u8 = qos_byte(m.qos);
    let f = publish_first_byte(m);
    assert(f == PUBLISH_PACKET_TYPE << 4 | (d << 3 | (q << 1) | r));
    assert(((f & 0x0F) >> 3) & 1 == d && ((f & 0x0F) >> 1) & 0x03 == q && (f & 0x0F) & 1 == r) by (bit_vector)
        requires
            d <= 1,
            r <= 1,
            q <= 2,
            f == 0x03u8 << 4 | (d << 3 | (q << 1) | r),
    ;
    crate::model::components::qos::lemma_qos_byte_roundtrip(m.qos, 0);
    let topic_bytes = encode_topic_name(m.topic);
    let id_bytes = match m.package_identifier {
        Some(id) => be_bytes(id),
        None => Seq::<u8>::empty(),
    };
    let after_topic = id_bytes + m.message + rest;
    assert(encode_publish_content(m) + rest =~= topic_bytes + after_topic);
    crate::model::components::topic_name::lemma_topic_name_roundtrip(m.topic, after_topic, Seq::<u8>::empty());
    if let Some(id) = m.package_identifier {
        crate::stream::lemma_be_u16_roundtrip(id);
        assert(after_topic.skip(2) =~= m.message + rest);
    } else {
        assert(after_topic.skip(0) =~= m.message + rest);
    }
    assert((m.message + rest).take(m.message.len() as int) =~= m.message);
    assert((m.message + rest).skip(m.message.len() as int) =~= rest);
}

} // verus!
