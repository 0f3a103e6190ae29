use vstd::prelude::*;

use crate::encryptation::encryping_tool::{decrypt, open_message, NONCE_SIZE};
use crate::errors::error::{decimal, push_decimal, MqttError, MqttErrorModel, MqttResult};
use crate::model::components::fixed_header::{
    decode_fixed_header, encrypted_length, packet_type_of, FixedHeader, FixedHeaderModel,
};
use crate::model::components::remaining_length::MAX_LENGTH;
use crate::model::components::topic_filter::topic_filter_wf;
use crate::model::packets::connack::{connack_first_byte, decode_connack, encode_connack_content, Connack, ConnackModel};
use crate::model::packets::connect::{connect_wf, decode_connect, encode_connect_content, Connect, ConnectModel};
use crate::model::packets::disconnect::{check_disconnect_flags, Disconnect};
use crate::model::packets::pingreq::{check_pingreq_flags, Pingreq};
use crate::model::packets::pingresp::{check_pingresp_flags, Pingresp};
use crate::model::packets::puback::{decode_puback, encode_puback_content, puback_first_byte, Puback};
use crate::model::packets::publish::{
    decode_publish, encode_publish_content, publish_first_byte, publish_wf, Publish, PublishModel,
};
use crate::model::packets::suback::{decode_suback, encode_suback_content, suback_first_byte, Suback, SubackModel};
use crate::model::packets::subscribe::{
    decode_subscribe, encode_subscribe_content, subscribe_first_byte, Subscribe, SubscribeModel,
};
use crate::model::packets::unsuback::{decode_unsuback, unsuback_first_byte, Unsuback};
use crate::model::packets::unsubscribe::{
    decode_unsubscribe, encode_unsubscribe_content, unsubscribe_first_byte, Unsubscribe, UnsubscribeModel,
};
use crate::model::packets::{
    bare_packet, fixed_header_flags, packet_header, sealed_packet, RESERVED_FIXED_HEADER_FLAGS,
    CONNACK_PACKET_TYPE, CONNECT_PACKET_TYPE, DISCONNECT_PACKET_TYPE, PINGREQ_PACKET_TYPE,
    PINGRESP_PACKET_TYPE, PUBACK_PACKET_TYPE, PUBLISH_PACKET_TYPE, SUBACK_PACKET_TYPE,
    SUBSCRIBE_PACKET_TYPE, UNSUBACK_PACKET_TYPE, UNSUBSCRIBE_PACKET_TYPE,
};
use crate::stream::{be_bytes, is_suffix, ByteStream};

verus! {

/// A packet of information that is sent over the network. MQTT has fourteen types of packets.
#[derive(Debug)]
pub enum Packet {
    Connect(Connect),
    Connack(Connack),
    Publish(Publish),
    Puback(Puback),
    Subscribe(Subscribe),
    Suback(Suback),
    Unsubscribe(Unsubscribe),
    Unsuback(Unsuback),
    Pingreq(Pingreq),
    Pingresp(Pingresp),
    Disconnect(Disconnect),
}

/// The value of a [`Packet`].
pub enum PacketModel {
    Connect(ConnectModel),
    Connack(ConnackModel),
    Publish(PublishModel),
    Puback(Option<u16>),
    Subscribe(SubscribeModel),
    Suback(SubackModel),
    Unsubscribe(UnsubscribeModel),
    Unsuback(u16),
    Pingreq,
    Pingresp,
    Disconnect,
}

impl View for Packet {
    type V = PacketModel;

    open spec fn view(&self) -> PacketModel {
        match self {
            Packet::Connect(p) => PacketModel::Connect(p@),
            Packet::Connack(p) => PacketModel::Connack(p@),
            Packet::Publish(p) => PacketModel::Publish(p@),
            Packet::Puback(p) => PacketModel::Puback(p@),
            Packet::Subscribe(p) => PacketModel::Subscribe(p@),
            Packet::Suback(p) => PacketModel::Suback(p@),
            Packet::Unsubscribe(p) => PacketModel::Unsubscribe(p@),
            Packet::Unsuback(p) => PacketModel::Unsuback(p@),
            Packet::Pingreq(_) => PacketModel::Pingreq,
            Packet::Pingresp(_) => PacketModel::Pingresp,
            Packet::Disconnect(_) => PacketModel::Disconnect,
        }
    }
}

/// A packet read from decrypted content is accepted only when it used up the whole content.
pub open spec fn whole_content(left: Seq<u8>, p: PacketModel) -> Result<PacketModel, MqttErrorModel> {
    if left.len() == 0 {
        Ok(p)
    } else {
        Err(MqttErrorModel::InvalidRemainingLength)
    }
}

/// Reading a packet of a type that may not be read whole: `None` stays `None`.
pub open spec fn read_whole<T>(
    read: Option<Result<(T, Seq<u8>), MqttErrorModel>>,
    packet: spec_fn(T) -> PacketModel,
) -> Option<Result<PacketModel, MqttErrorModel>> {
    match read {
        None => None,
        Some(Err(e)) => Some(Err(e)),
        Some(Ok((m, left))) => Some(whole_content(left, packet(m))),
    }
}

/// Reading a packet of a type that is always read.
pub open spec fn read_always<T>(
    read: Result<(T, Seq<u8>), MqttErrorModel>,
    packet: spec_fn(T) -> PacketModel,
) -> Option<Result<PacketModel, MqttErrorModel>> {
    match read {
        Err(e) => Some(Err(e)),
        Ok((m, left)) => Some(whole_content(left, packet(m))),
    }
}

/// Reading a packet without content, once its flags are checked.
pub open spec fn read_bare(
    check: Result<(), MqttErrorModel>,
    content: Seq<u8>,
    packet: PacketModel,
) -> Option<Result<PacketModel, MqttErrorModel>> {
    match check {
        Err(e) => Some(Err(e)),
        Ok(()) => Some(whole_content(content, packet)),
    }
}

/// Reading the packet that the decrypted `content` holds, by the type in its fixed header `h`.
/// `None` when that content cannot be read.
pub open spec fn decode_packet_content(h: FixedHeaderModel, content: Seq<u8>) -> Option<Result<PacketModel, MqttErrorModel>> {
    let t = packet_type_of(h.first_byte);
    if t == CONNECT_PACKET_TYPE {
        read_always(decode_connect(h, content), |m: ConnectModel| PacketModel::Connect(m))
    } else if t == CONNACK_PACKET_TYPE {
        read_always(decode_connack(h, content), |m: ConnackModel| PacketModel::Connack(m))
    } else if t == PUBLISH_PACKET_TYPE {
        read_whole(decode_publish(h, content), |m: PublishModel| PacketModel::Publish(m))
    } else if t == SUBSCRIBE_PACKET_TYPE {
        read_whole(decode_subscribe(h, content), |m: SubscribeModel| PacketModel::Subscribe(m))
    } else if t == SUBACK_PACKET_TYPE {
        read_whole(decode_suback(h, content), |m: SubackModel| PacketModel::Suback(m))
    } else if t == PUBACK_PACKET_TYPE {
        read_always(decode_puback(h, content), |m: Option<u16>| PacketModel::Puback(m))
    } else if t == DISCONNECT_PACKET_TYPE {
        read_bare(check_disconnect_flags(h.first_byte), content, PacketModel::Disconnect)
    } else if t == PINGREQ_PACKET_TYPE {
        read_bare(check_pingreq_flags(h.first_byte), content, PacketModel::Pingreq)
    } else if t == PINGRESP_PACKET_TYPE {
        read_bare(check_pingresp_flags(h.first_byte), content, PacketModel::Pingresp)
    } else if t == UNSUBSCRIBE_PACKET_TYPE {
        read_whole(decode_unsubscribe(h, content), |m: UnsubscribeModel| PacketModel::Unsubscribe(m))
    } else if t == UNSUBACK_PACKET_TYPE {
        read_always(decode_unsuback(h, content), |m: u16| PacketModel::Unsuback(m))
    } else {
        Some(Err(MqttErrorModel::InvalidPacketType(decimal(t as nat))))
    }
}

/// The message of the error that a failed decryption gives.
pub open spec fn decryption_error_message() -> Seq<char> {
    "Error decrypting data"@
}

/// The types of the packets without content: PINGREQ, PINGRESP and DISCONNECT.
pub open spec fn is_bare_type(packet_type: u8) -> bool {
    packet_type == PINGREQ_PACKET_TYPE || packet_type == PINGRESP_PACKET_TYPE || packet_type == DISCONNECT_PACKET_TYPE
}

/// Reading a packet from the front of `s` under `key`: the fixed header, then as many bytes as
/// it announces (the nonce and tag included for the types whose content is encrypted), which
/// are decrypted and read as the packet of that type. A packet without content that announces
/// no bytes is read as it is, with nothing to decrypt. `None` when the packet cannot be read:
/// fewer bytes than a nonce to decrypt, or a content that cannot be read.
pub open spec fn decode_packet(s: Seq<u8>, key: Seq<u8>) -> Option<Result<(PacketModel, Seq<u8>), MqttErrorModel>> {
    match decode_fixed_header(s) {
        Err(e) => Some(Err(e)),
        Ok((h, r)) => {
            let n = encrypted_length(h);
            if r.len() < n {
                Some(Err(MqttErrorModel::IoError))
            } else if n == 0 && is_bare_type(packet_type_of(h.first_byte)) {
                match decode_packet_content(h, Seq::<u8>::empty()) {
                    None => None,
                    Some(Err(e)) => Some(Err(e)),
                    Some(Ok(p)) => Some(Ok((p, r))),
                }
            } else if n < NONCE_SIZE {
                None
            } else {
                match open_message(key, r.take(n as int)) {
                    None => Some(Err(MqttErrorModel::ErrorDecryption(decryption_error_message()))),
                    Some(content) => match decode_packet_content(h, content) {
                        None => None,
                        Some(Err(e)) => Some(Err(e)),
                        Some(Ok(p)) => Some(Ok((p, r.skip(n as int)))),
                    },
                }
            }
        },
    }
}

/// The packets without content, which travel as a bare fixed header.
pub open spec fn is_bare(p: PacketModel) -> bool {
    p is Pingreq || p is Pingresp || p is Disconnect
}

/// The first byte of the fixed header of a packet: its type and its flags.
pub open spec fn packet_first_byte(p: PacketModel) -> u8 {
    match p {
        PacketModel::Connect(_) => CONNECT_PACKET_TYPE << 4 | RESERVED_FIXED_HEADER_FLAGS,
        PacketModel::Connack(_) => connack_first_byte(),
        PacketModel::Publish(m) => publish_first_byte(m),
        PacketModel::Puback(_) => puback_first_byte(),
        PacketModel::Subscribe(_) => subscribe_first_byte(),
        PacketModel::Suback(_) => suback_first_byte(),
        PacketModel::Unsubscribe(_) => unsubscribe_first_byte(),
        PacketModel::Unsuback(_) => unsuback_first_byte(),
        PacketModel::Pingreq => PINGREQ_PACKET_TYPE << 4 | RESERVED_FIXED_HEADER_FLAGS,
        PacketModel::Pingresp => PINGRESP_PACKET_TYPE << 4 | RESERVED_FIXED_HEADER_FLAGS,
        PacketModel::Disconnect => DISCONNECT_PACKET_TYPE << 4 | RESERVED_FIXED_HEADER_FLAGS,
    }
}

/// The content of a packet, before it is encrypted.
pub open spec fn encode_packet_content(p: PacketModel) -> Seq<u8> {
    match p {
        PacketModel::Connect(m) => encode_connect_content(m),
        PacketModel::Connack(m) => encode_connack_content(m),
        PacketModel::Publish(m) => encode_publish_content(m),
        PacketModel::Puback(id) => encode_puback_content(id),
        PacketModel::Subscribe(m) => encode_subscribe_content(m),
        PacketModel::Suback(m) => encode_suback_content(m),
        PacketModel::Unsubscribe(m) => encode_unsubscribe_content(m),
        PacketModel::Unsuback(id) => be_bytes(id),
        _ => Seq::<u8>::empty(),
    }
}

/// `bytes` are what sending `p` under `key` gives: the bare fixed header for a packet without
/// content; otherwise the fixed header, then the content encrypted under `key`.
pub open spec fn packet_bytes(p: PacketModel, bytes: Seq<u8>, key: Seq<u8>) -> bool {
    if is_bare(p) {
        bytes == seq![packet_first_byte(p), 0u8]
    } else {
        sealed_packet(bytes, packet_header(packet_first_byte(p), encode_packet_content(p).len()), encode_packet_content(p), key)
    }
}

/// A packet as reading yields one: its strings, topics and filters are well formed, a PUBACK
/// carries a packet identifier, and a SUBSCRIBE or UNSUBSCRIBE at least one filter.
pub open spec fn packet_wf(p: PacketModel) -> bool {
    match p {
        PacketModel::Connect(m) => connect_wf(m),
        PacketModel::Publish(m) => publish_wf(m),
        PacketModel::Puback(id) => id is Some,
        PacketModel::Subscribe(m) => m.topics.len() >= 1 && forall|i: int|
            0 <= i < m.topics.len() ==> topic_filter_wf(#[trigger] m.topics[i].0),
        PacketModel::Unsubscribe(m) => m.topics.len() >= 1 && forall|i: int|
            0 <= i < m.topics.len() ==> topic_filter_wf(#[trigger] m.topics[i]),
        _ => true,
    }
}

impl Packet {
    /// Converts a byte stream into an MQTT packet.
    pub fn from_bytes(stream: &mut ByteStream, key: &[u8]) -> (result: MqttResult<Self>)
        requires
            key@.len() == 32,
            decode_packet(old(stream)@, key@) is Some,
        ensures
            match decode_packet(old(stream)@, key@) {
                Some(Ok((p, rest))) => result matches Ok(packet) && packet@ == p && final(stream)@ == rest,
                Some(Err(e)) => result matches Err(err) && err@ == e,
                None => false,
            },
            is_suffix(final(stream)@, old(stream)@),
    {
        match Self::try_from_bytes(stream, key) {
            Some(result) => result,
            None => {
                assert(false);
                Err(MqttError::IoError)
            },
        }
    }

    /// Converts a byte stream into an MQTT packet, or gives `None` when the packet cannot be
    /// read: it announces fewer bytes than a nonce, or its content overruns its remaining length.
    pub fn try_from_bytes(stream: &mut ByteStream, key: &[u8]) -> (result: Option<MqttResult<Self>>)
        requires
            key@.len() == 32,
        ensures
            match decode_packet(old(stream)@, key@) {
                Some(Ok((p, rest))) => result matches Some(Ok(packet)) && packet@ == p && final(stream)@ == rest,
                Some(Err(e)) => result matches Some(Err(err)) && err@ == e,
                None => result is None,
            },
            is_suffix(final(stream)@, old(stream)@),
    {
        let ghost s = stream@;
        let fixed_header = match FixedHeader::from_bytes(stream) {
            Ok(fixed_header) => fixed_header,
            Err(e) => {
                return Some(Err(e));
            },
        };
        let ghost r = stream@;
        proof {
            crate::stream::lemma_suffix_skip(s, s.len() - r.len());
            assert(r =~= s.skip(s.len() - r.len()));
        }

        let first_byte = fixed_header.first_byte();
        let packet_type = first_byte >> 4;
        assert(packet_type == first_byte / 16) by (bit_vector)
            requires
                packet_type == first_byte >> 4,
        ;
        let remaining_length = fixed_header.remaining_length_encrypted();

        let encrypted_content = stream.read_exact(remaining_length);
        proof {
            if remaining_length <= r.len() {
                crate::stream::lemma_suffix_skip(r, remaining_length as int);
                crate::stream::lemma_suffix_trans(stream@, r, s);
            }
        }
        let encrypted_content = match encrypted_content {
            Ok(bytes) => bytes,
            Err(e) => {
                return Some(Err(e));
            },
        };

        let bare = encrypted_content.len() == 0 && (packet_type == PINGREQ_PACKET_TYPE || packet_type
            == PINGRESP_PACKET_TYPE || packet_type == DISCONNECT_PACKET_TYPE);
        let content = if bare {
            Vec::new()
        } else {
            if encrypted_content.len() < NONCE_SIZE {
                return None;
            }
            match decrypt(encrypted_content.as_slice(), key) {
                Ok(content) => content,
                Err(err) => {
                    return Some(Err(MqttError::ErrorDecryption(err)));
                },
            }
        };
        let ghost h = fixed_header@;
        let ghost c = content@;
        let content_stream = &mut ByteStream::new(content);

        let packet = match packet_type {
            CONNECT_PACKET_TYPE => match Connect::from_bytes(fixed_header, content_stream) {
                Err(e) => {
                    return Some(Err(e));
                },
                Ok(p) => Packet::Connect(p),
            },
            CONNACK_PACKET_TYPE => match Connack::from_bytes(fixed_header, content_stream) {
                Err(e) => {
                    return Some(Err(e));
                },
                Ok(p) => Packet::Connack(p),
            },
            PUBLISH_PACKET_TYPE => match Publish::try_from_bytes(fixed_header, content_stream) {
                None => {
                    return None;
                },
                Some(Err(e)) => {
                    return Some(Err(e));
                },
                Some(Ok(p)) => Packet::Publish(p),
            },
            SUBSCRIBE_PACKET_TYPE => match Subscribe::try_from_bytes(fixed_header, content_stream) {
                None => {
                    return None;
                },
                Some(Err(e)) => {
                    return Some(Err(e));
                },
                Some(Ok(p)) => Packet::Subscribe(p),
            },
            SUBACK_PACKET_TYPE => match Suback::try_from_bytes(fixed_header, content_stream) {
                None => {
                    return None;
                },
                Some(Err(e)) => {
                    return Some(Err(e));
                },
                Some(Ok(p)) => Packet::Suback(p),
            },
            PUBACK_PACKET_TYPE => match Puback::from_bytes(fixed_header, content_stream) {
                Err(e) => {
                    return Some(Err(e));
                },
                Ok(p) => Packet::Puback(p),
            },
            DISCONNECT_PACKET_TYPE => match Disconnect::from_bytes(fixed_header) {
                Err(e) => {
                    return Some(Err(e));
                },
                Ok(p) => Packet::Disconnect(p),
            },
            PINGREQ_PACKET_TYPE => match Pingreq::from_bytes(fixed_header) {
                Err(e) => {
                    return Some(Err(e));
                },
                Ok(p) => Packet::Pingreq(p),
            },
            PINGRESP_PACKET_TYPE => match Pingresp::from_bytes(fixed_header) {
                Err(e) => {
                    return Some(Err(e));
                },
                Ok(p) => Packet::Pingresp(p),
            },
            UNSUBSCRIBE_PACKET_TYPE => match Unsubscribe::try_from_bytes(fixed_header, content_stream) {
                None => {
                    return None;
                },
                Some(Err(e)) => {
                    return Some(Err(e));
                },
                Some(Ok(p)) => Packet::Unsubscribe(p),
            },
            UNSUBACK_PACKET_TYPE => match Unsuback::from_bytes(fixed_header, content_stream) {
                Err(e) => {
                    return Some(Err(e));
                },
                Ok(p) => Packet::Unsuback(p),
            },
            _ => {
                let mut message = String::new();
                push_decimal(&mut message, packet_type);
                assert(message@ =~= decimal(packet_type as nat));
                return Some(Err(MqttError::InvalidPacketType(message)));
            },
        };

        if content_stream.remaining() != 0 {
            return Some(Err(MqttError::InvalidRemainingLength));
        }

        Some(Ok(packet))
    }
    /// Converts the packet into bytes, or gives `None` when its content is longer than
    /// `u32::MAX` bytes, too long for its length to be written.
    pub fn try_to_bytes(&self, key: &[u8]) -> (bytes: Option<Vec<u8>>)
        requires
            key@.len() == 32,
        ensures
            match bytes {
                Some(b) => packet_bytes(self@, b@, key@),
                None => encode_packet_content(self@).len() > u32::MAX,
            },
    {
        let limit = u32::MAX as usize;
        let fits = match self {
            Packet::Connect(connect_packet) => connect_packet.content().len() <= limit,
            Packet::Publish(publish_packet) => publish_packet.content().len() <= limit,
            Packet::Subscribe(subscribe_packet) => subscribe_packet.content().len() <= limit,
            Packet::Suback(suback_packet) => suback_packet.content().len() <= limit,
            Packet::Unsubscribe(unsubscribe_packet) => unsubscribe_packet.content().len() <= limit,
            _ => true,
        };
        if fits {
            Some(self.to_bytes(key))
        } else {
            None
        }
    }

    /// Converts the MQTT packet into a byte vector.
    pub fn to_bytes(&self, key: &[u8]) -> (bytes: Vec<u8>)
        requires
            key@.len() == 32,
            encode_packet_content(self@).len() <= u32::MAX,
        ensures
            packet_bytes(self@, bytes@, key@),
    {
        match self {
            Packet::Connect(connect_packet) => connect_packet.to_bytes(key),
            Packet::Connack(connack_packet) => connack_packet.to_bytes(key),
            Packet::Publish(publish_packet) => publish_packet.to_bytes(key),
            Packet::Subscribe(subscribe_packet) => subscribe_packet.to_bytes(key),
            Packet::Suback(suback_packet) => suback_packet.to_bytes(key),
            Packet::Puback(puback_packet) => puback_packet.to_bytes(key),
            Packet::Disconnect(disconnect_packet) => disconnect_packet.to_bytes(key),
            Packet::Pingreq(pingreq_packet) => pingreq_packet.to_bytes(key),
            Packet::Pingresp(pingresp_packet) => pingresp_packet.to_bytes(key),
            Packet::Unsubscribe(unsubscribe_packet) => unsubscribe_packet.to_bytes(key),
            Packet::Unsuback(unsuback_packet) => unsuback_packet.to_bytes(key),
        }
    }
}


/// The type held in the first byte of the fixed header of every packet is that packet's type.
proof fn lemma_packet_type_of_first_byte(p: PacketModel)
    ensures
        packet_type_of(packet_first_byte(p)) == match p {
            PacketModel::Connect(_) => CONNECT_PACKET_TYPE,
            PacketModel::Connack(_) => CONNACK_PACKET_TYPE,
            PacketModel::Publish(_) => PUBLISH_PACKET_TYPE,
            PacketModel::Puback(_) => PUBACK_PACKET_TYPE,
            PacketModel::Subscribe(_) => SUBSCRIBE_PACKET_TYPE,
            PacketModel::Suback(_) => SUBACK_PACKET_TYPE,
            PacketModel::Unsubscribe(_) => UNSUBSCRIBE_PACKET_TYPE,
            PacketModel::Unsuback(_) => UNSUBACK_PACKET_TYPE,
            PacketModel::Pingreq => PINGREQ_PACKET_TYPE,
            PacketModel::Pingresp => PINGRESP_PACKET_TYPE,
            PacketModel::Disconnect => DISCONNECT_PACKET_TYPE,
        },
{
    match p {
        PacketModel::Publish(m) => {
            let d: u8 = if m.dup { 1 } else { 0 };
            let r: u8 = if m.retain { 1 } else { 0 };
            let q: u8 = crate::model::components::qos::qos_byte(m.qos);
            let f = publish_first_byte(m);
            assert(f == 0x03u8 << 4 | (d << 3 | (q << 1) | r));
            assert(f / 16 == 3) by (bit_vector)
                requires
                    d <= 1,
                    r <= 1,
                    q <= 2,
                    f == 0x03u8 << 4 | (d << 3 | (q << 1) | r),
            ;
        },
        _ => {
            assert((0x01u8 << 4 | 0x00u8) / 16 == 0x01 && (0x02u8 << 4 | 0x00u8) / 16 == 0x02 && (0x04u8 << 4 | 0x00u8) / 16 == 0x04
                && (0x08u8 << 4 | 0x00u8) / 16 == 0x08 && (0x09u8 << 4 | 0x00u8) / 16 == 0x09 && (0x0Au8 << 4 | 0x00u8) / 16 == 0x0A
                && (0x0Bu8 << 4 | 0x00u8) / 16 == 0x0B && (0x0Cu8 << 4 | 0x00u8) / 16 == 0x0C && (0x0Du8 << 4 | 0x00u8) / 16 == 0x0D
                && (0x0Eu8 << 4 | 0x00u8) / 16 == 0x0E) by (bit_vector);
        },
    }
}

/// Reading back the content of a well-formed packet that has content, under the fixed header
/// it is sent with, gives the packet back and uses up the content.
proof fn lemma_packet_content_roundtrip(p: PacketModel)
    requires
        packet_wf(p),
        !is_bare(p),
    ensures
        decode_packet_content(
            FixedHeaderModel { first_byte: packet_first_byte(p), remaining_length: encode_packet_content(p).len() },
            encode_packet_content(p),
        ) == Some(Ok::<PacketModel, MqttErrorModel>(p)),
{
    let content = encode_packet_content(p);
    let empty = Seq::<u8>::empty();
    assert(content + empty =~= content);
    lemma_packet_type_of_first_byte(p);
    match p {
        PacketModel::Connect(m) => {
            crate::model::packets::connect::lemma_connect_roundtrip(m, empty);
        },
        PacketModel::Connack(m) => {
            crate::model::packets::connack::lemma_connack_roundtrip(m, content.len(), empty);
        },
        PacketModel::Publish(m) => {
            crate::model::packets::publish::lemma_publish_roundtrip(m, empty);
        },
        PacketModel::Puback(id) => {
            crate::model::packets::puback::lemma_puback_roundtrip(id->0, content.len(), empty);
        },
        PacketModel::Subscribe(m) => {
            crate::model::packets::subscribe::lemma_subscribe_roundtrip(m, empty);
        },
        PacketModel::Suback(m) => {
            crate::model::packets::suback::lemma_suback_roundtrip(m, empty);
        },
        PacketModel::Unsubscribe(m) => {
            crate::model::packets::unsubscribe::lemma_unsubscribe_roundtrip(m, empty);
        },
        PacketModel::Unsuback(id) => {
            crate::model::packets::unsuback::lemma_unsuback_roundtrip(id, content.len(), empty);
        },
        _ => {},
    }
}

/// What one side sends, the other reads: the bytes of a well-formed packet with content, sent
/// under a key, are read back under that key as the same packet, and the bytes that follow are
/// left unread. This holds for every content of at most 268,435,455 bytes, the largest length
/// a remaining length holds.
pub proof fn lemma_packet_roundtrip(p: PacketModel, bytes: Seq<u8>, key: Seq<u8>, rest: Seq<u8>)
    requires
        packet_wf(p),
        !is_bare(p),
        encode_packet_content(p).len() <= MAX_LENGTH,
        packet_bytes(p, bytes, key),
    ensures
        decode_packet(bytes + rest, key) == Some(Ok::<(PacketModel, Seq<u8>), MqttErrorModel>((p, rest))),
{
    let content = encode_packet_content(p);
    let first = packet_first_byte(p);
    let header = packet_header(first, content.len());
    let s = bytes + rest;
    let encrypted = bytes.skip(header.len() as int);
    let h = FixedHeaderModel { first_byte: first, remaining_length: content.len() };
    assert(header == seq![first] + crate::model::components::remaining_length::encode_remaining_length(content.len()));
    assert(sealed_packet(bytes, header, content, key));
    assert(bytes.take(header.len() as int) == header);
    assert(bytes =~= bytes.take(header.len() as int) + encrypted);
    assert(s =~= seq![first] + crate::model::components::remaining_length::encode_remaining_length(content.len()) + (encrypted + rest));
    assert(s.skip(1) =~= crate::model::components::remaining_length::encode_remaining_length(content.len()) + (encrypted + rest));
    crate::model::components::remaining_length::lemma_remaining_length_roundtrip(content.len(), encrypted + rest);
    assert(s[0] == first);
    assert(decode_fixed_header(s) == Ok::<(FixedHeaderModel, Seq<u8>), MqttErrorModel>((h, encrypted + rest)));
    lemma_packet_type_of_first_byte(p);
    let n = encrypted_length(h);
    assert(n == encrypted.len());
    assert((encrypted + rest).take(n as int) =~= encrypted);
    assert((encrypted + rest).skip(n as int) =~= rest);
    lemma_packet_content_roundtrip(p);
}

/// A packet without content is read back: its fixed header alone, announcing no bytes, is
/// read as the same packet, and the bytes that follow are left unread.
pub proof fn lemma_bare_packet_roundtrip(p: PacketModel, bytes: Seq<u8>, key: Seq<u8>, rest: Seq<u8>)
    requires
        is_bare(p),
        packet_bytes(p, bytes, key),
    ensures
        decode_packet(bytes + rest, key) == Some(Ok::<(PacketModel, Seq<u8>), MqttErrorModel>((p, rest))),
{
    let s = bytes + rest;
    let first = packet_first_byte(p);
    assert(bytes == seq![first, 0u8]);
    assert(s[0] == first);
    assert(s.skip(1) =~= crate::model::components::remaining_length::encode_remaining_length(0) + rest);
    crate::model::components::remaining_length::lemma_remaining_length_roundtrip(0, rest);
    lemma_packet_type_of_first_byte(p);
    let h = FixedHeaderModel { first_byte: first, remaining_length: 0 };
    assert(decode_fixed_header(s) == Ok::<(FixedHeaderModel, Seq<u8>), MqttErrorModel>((h, rest)));
    assert(encrypted_length(h) == 0);
    assert(fixed_header_flags(first) == RESERVED_FIXED_HEADER_FLAGS) by {
        assert(first & 0x0F == 0) by (bit_vector)
            requires
                first == PINGREQ_PACKET_TYPE << 4 | RESERVED_FIXED_HEADER_FLAGS || first == PINGRESP_PACKET_TYPE << 4
                    | RESERVED_FIXED_HEADER_FLAGS || first == DISCONNECT_PACKET_TYPE << 4 | RESERVED_FIXED_HEADER_FLAGS,
        ;
    }
    assert(decode_packet_content(h, Seq::<u8>::empty()) == Some(Ok::<PacketModel, MqttErrorModel>(p)));
}

/// What the packet of each type writes on its own (each packet type's `to_bytes`): its fixed
/// header, then its content, encrypted; a packet without content writes its bare fixed header.
pub open spec fn own_packet_bytes(p: PacketModel, bytes: Seq<u8>, key: Seq<u8>) -> bool {
    match p {
        PacketModel::Connect(m) => sealed_packet(
            bytes,
            packet_header(CONNECT_PACKET_TYPE << 4 | RESERVED_FIXED_HEADER_FLAGS, encode_connect_content(m).len()),
            encode_connect_content(m),
            key,
        ),
        PacketModel::Connack(m) => sealed_packet(bytes, packet_header(connack_first_byte(), 2), encode_connack_content(m), key),
        PacketModel::Publish(m) => sealed_packet(
            bytes,
            packet_header(publish_first_byte(m), encode_publish_content(m).len()),
            encode_publish_content(m),
            key,
        ),
        PacketModel::Puback(id) => sealed_packet(
            bytes,
            packet_header(puback_first_byte(), encode_puback_content(id).len()),
            encode_puback_content(id),
            key,
        ),
        PacketModel::Subscribe(m) => sealed_packet(
            bytes,
            packet_header(subscribe_first_byte(), encode_subscribe_content(m).len()),
            encode_subscribe_content(m),
            key,
        ),
        PacketModel::Suback(m) => sealed_packet(
            bytes,
            packet_header(suback_first_byte(), encode_suback_content(m).len()),
            encode_suback_content(m),
            key,
        ),
        PacketModel::Unsubscribe(m) => sealed_packet(
            bytes,
            packet_header(unsubscribe_first_byte(), encode_unsubscribe_content(m).len()),
            encode_unsubscribe_content(m),
            key,
        ),
        PacketModel::Unsuback(id) => sealed_packet(bytes, packet_header(unsuback_first_byte(), 2), be_bytes(id), key),
        PacketModel::Pingreq => bytes == bare_packet(PINGREQ_PACKET_TYPE),
        PacketModel::Pingresp => bytes == bare_packet(PINGRESP_PACKET_TYPE),
        PacketModel::Disconnect => bytes == bare_packet(DISCONNECT_PACKET_TYPE),
    }
}

/// Sending a packet writes what the packet of its type writes on its own: the same fixed
/// header, then the same content, encrypted; a packet without content is the same bare fixed
/// header.
pub proof fn lemma_packet_bytes_of_variant(p: PacketModel, bytes: Seq<u8>, key: Seq<u8>)
    ensures
        packet_bytes(p, bytes, key) == own_packet_bytes(p, bytes, key),
{
}

/// Sending a packet and having the packet of its type write itself give bytes of the same
/// length that start with the same fixed header, after which both decrypt to the same content;
/// only the nonce, drawn at random, may tell them apart. A packet without content gives the
/// same bytes either way.
pub proof fn lemma_packet_bytes_match_own_bytes(p: PacketModel, sent: Seq<u8>, own: Seq<u8>, key: Seq<u8>)
    requires
        packet_bytes(p, sent, key),
        own_packet_bytes(p, own, key),
    ensures
        ({
            let header = packet_header(packet_first_byte(p), encode_packet_content(p).len());
            if is_bare(p) {
                sent == own
            } else {
                &&& sent.len() == own.len()
                &&& sent.take(header.len() as int) == own.take(header.len() as int)
                &&& sent.take(header.len() as int) == header
                &&& open_message(key, sent.skip(header.len() as int)) == Some(encode_packet_content(p))
                &&& open_message(key, own.skip(header.len() as int)) == Some(encode_packet_content(p))
            }
        }),
{
    lemma_packet_bytes_of_variant(p, own, key);
}

} // verus!
