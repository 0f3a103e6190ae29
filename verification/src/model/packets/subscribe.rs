use vstd::prelude::*;

use super::{fixed_header_flags, packet_header, seal_packet, sealed_packet, RESERVED_FIXED_HEADER_FLAGS,
    SUBSCRIBE_PACKET_TYPE};
use crate::errors::error::{MqttError, MqttErrorModel, MqttResult};
use crate::model::components::fixed_header::{FixedHeader, FixedHeaderModel};
use crate::model::components::qos::{qos_byte, qos_of_byte, QoS};
use crate::model::components::remaining_length::MAX_LENGTH;
use crate::model::components::topic_filter::{
    decode_topic_filter, encode_topic_filter, topic_filter_wf, TopicFilter, TopicFilterModel,
};
use crate::stream::{be_bytes, be_u16, is_suffix, u16_to_be, ByteStream};

verus! {

/// Represents a SUBSCRIBE packet of MQTT. The client uses it to subscribe to one or more topics.
#[derive(Debug)]
pub struct Subscribe {
    packet_identifier: u16,
    topics: Vec<(TopicFilter, QoS)>,
}

/// The value of a [`Subscribe`].
#[verifier::ext_equal]
pub struct SubscribeModel {
    pub packet_identifier: u16,
    pub topics: Seq<(TopicFilterModel, QoS)>,
}

/// The values of the subscriptions held in a vector.
pub open spec fn subscriptions_view(topics: Seq<(TopicFilter, QoS)>) -> Seq<(TopicFilterModel, QoS)> {
    topics.map_values(|t: (TopicFilter, QoS)| (t.0@, t.1))
}

impl View for Subscribe {
    type V = SubscribeModel;

    closed spec fn view(&self) -> SubscribeModel {
        SubscribeModel { packet_identifier: self.packet_identifier, topics: subscriptions_view(self.topics@) }
    }
}

/// What reading goes on with: `None` stays `None`, an error stays an error, and subscriptions
/// read later are put after `prefix`.
pub open spec fn after_subscriptions(
    prefix: Seq<(TopicFilterModel, QoS)>,
    later: Option<Result<(Seq<(TopicFilterModel, QoS)>, Seq<u8>), MqttErrorModel>>,
) -> Option<Result<(Seq<(TopicFilterModel, QoS)>, Seq<u8>), MqttErrorModel>> {
    match later {
        None => None,
        Some(Err(e)) => Some(Err(e)),
        Some(Ok((topics, rest))) => Some(Ok((prefix + topics, rest))),
    }
}

/// Reading subscriptions while `remaining` bytes of the packet are left: each is a topic filter
/// and a quality-of-service byte, and uses up the length of the filter's bytes plus one.
/// `None` when a subscription uses more than what is left: the packet cannot be read.
pub open spec fn decode_subscriptions(s: Seq<u8>, remaining: nat) -> Option<Result<(Seq<(TopicFilterModel, QoS)>, Seq<u8>), MqttErrorModel>>
    decreases remaining,
{
    if remaining == 0 {
        Some(Ok((Seq::<(TopicFilterModel, QoS)>::empty(), s)))
    } else {
        match decode_topic_filter(s) {
            Err(e) => Some(Err(e)),
            Ok((filter, after_filter)) => if after_filter.len() < 1 {
                Some(Err(MqttErrorModel::IoError))
            } else {
                match qos_of_byte(after_filter[0]) {
                    Err(e) => Some(Err(e)),
                    Ok(qos) => {
                        let used = encode_topic_filter(filter).len() + 1;
                        if remaining < used {
                            None
                        } else {
                            after_subscriptions(
                                seq![(filter, qos)],
                                decode_subscriptions(after_filter.skip(1), (remaining - used) as nat),
                            )
                        }
                    },
                }
            },
        }
    }
}

/// Reading the content of a SUBSCRIBE packet: the fixed header must carry no flags; the content
/// is the packet identifier, two bytes big-endian, then subscriptions up to the remaining
/// length, at least one. `None` when the packet cannot be read: a remaining length below two,
/// or a subscription that overruns it.
pub open spec fn decode_subscribe(h: FixedHeaderModel, s: Seq<u8>) -> Option<Result<(SubscribeModel, Seq<u8>), MqttErrorModel>> {
    if fixed_header_flags(h.first_byte) != RESERVED_FIXED_HEADER_FLAGS {
        Some(Err(MqttErrorModel::InvalidFixedHeaderFlags))
    } else if s.len() < 2 {
        Some(Err(MqttErrorModel::IoError))
    } else if h.remaining_length < 2 {
        None
    } else {
        match decode_subscriptions(s.skip(2), (h.remaining_length - 2) as nat) {
            None => None,
            Some(Err(e)) => Some(Err(e)),
            Some(Ok((topics, rest))) => if topics.len() == 0 {
                Some(Err(MqttErrorModel::NoTopicsSpecified))
            } else {
                Some(Ok((SubscribeModel { packet_identifier: be_u16(s[0], s[1]), topics }, rest)))
            },
        }
    }
}

/// The bytes of subscriptions: for each, its filter then the byte of its quality of service.
pub open spec fn encode_subscriptions(topics: Seq<(TopicFilterModel, QoS)>) -> Seq<u8>
    decreases topics.len(),
{
    if topics.len() == 0 {
        Seq::<u8>::empty()
    } else {
        encode_topic_filter(topics[0].0) + seq![qos_byte(topics[0].1)] + encode_subscriptions(topics.drop_first())
    }
}

/// The content of a SUBSCRIBE packet: the packet identifier, then the subscriptions.
pub open spec fn encode_subscribe_content(m: SubscribeModel) -> Seq<u8> {
    be_bytes(m.packet_identifier) + encode_subscriptions(m.topics)
}

/// The first byte of the fixed header of a SUBSCRIBE packet.
pub open spec fn subscribe_first_byte() -> u8 {
    SUBSCRIBE_PACKET_TYPE << 4 | RESERVED_FIXED_HEADER_FLAGS
}

/// Encoding one more subscription appends its bytes.
proof fn lemma_encode_subscriptions_push(topics: Seq<(TopicFilterModel, QoS)>, t: (TopicFilterModel, QoS))
    ensures
        encode_subscriptions(topics.push(t)) == encode_subscriptions(topics) + encode_topic_filter(t.0) + seq![qos_byte(t.1)],
    decreases topics.len(),
{
    if topics.len() == 0 {
        assert(topics.push(t).drop_first() =~= Seq::<(TopicFilterModel, QoS)>::empty());
        assert(topics.push(t)[0] == t);
        assert(encode_subscriptions(topics.push(t).drop_first()) == Seq::<u8>::empty());
        assert(encode_subscriptions(topics.push(t)) == encode_topic_filter(t.0) + seq![qos_byte(t.1)] + encode_subscriptions(topics.push(t).drop_first()));
        assert(encode_subscriptions(topics.push(t)) =~= encode_subscriptions(topics) + encode_topic_filter(t.0) + seq![qos_byte(t.1)]);
    } else {
        lemma_encode_subscriptions_push(topics.drop_first(), t);
        assert(topics.push(t).drop_first() =~= topics.drop_first().push(t));
        assert(topics.push(t)[0] == topics[0]);
        let head = encode_topic_filter(topics[0].0) + seq![qos_byte(topics[0].1)];
        assert(encode_subscriptions(topics.push(t)) == head + encode_subscriptions(topics.drop_first().push(t)));
        assert(encode_subscriptions(topics) == head + encode_subscriptions(topics.drop_first()));
        assert(encode_subscriptions(topics.push(t)) =~= encode_subscriptions(topics) + encode_topic_filter(t.0) + seq![qos_byte(t.1)]);
    }
}

impl Subscribe {
    pub fn new(packet_identifier: u16, topics: Vec<(TopicFilter, QoS)>) -> (s: Self)
        ensures
            s@ == (SubscribeModel { packet_identifier, topics: subscriptions_view(topics@) }),
    {
        Self { packet_identifier, topics }
    }

    /// Converts a byte stream into a Subscribe.
    pub fn from_bytes(fixed_header: FixedHeader, stream: &mut ByteStream) -> (result: MqttResult<Self>)
        requires
            decode_subscribe(fixed_header@, old(stream)@) is Some,
        ensures
            match decode_subscribe(fixed_header@, old(stream)@) {
                Some(Ok((m, rest))) => result matches Ok(sub) && sub@ == m && final(stream)@ == rest,
                Some(Err(e)) => result matches Err(err) && err@ == e && is_suffix(final(stream)@, old(stream)@),
                None => false,
            },
    {
        match Self::try_from_bytes(fixed_header, stream) {
            Some(result) => result,
            None => {
                assert(false);
                Err(MqttError::IoError)
            },
        }
    }

    /// Converts a byte stream into a Subscribe, or gives `None` when the remaining length is
    /// below two or a subscription overruns it, and the packet cannot be read.
    pub fn try_from_bytes(fixed_header: FixedHeader, stream: &mut ByteStream) -> (result: Option<MqttResult<Self>>)
        ensures
            match decode_subscribe(fixed_header@, old(stream)@) {
                Some(Ok((m, rest))) => result matches Some(Ok(sub)) && sub@ == m && final(stream)@ == rest,
                Some(Err(e)) => result matches Some(Err(err)) && err@ == e && is_suffix(final(stream)@, old(stream)@),
                None => result is None,
            },
    {
        let ghost s = stream@;
        proof {
            crate::stream::lemma_suffix_refl(s);
        }
        // Fixed Header
        let fixed_header_flags = fixed_header.first_byte() & 0b0000_1111;

        if fixed_header_flags != RESERVED_FIXED_HEADER_FLAGS {
            return Some(Err(MqttError::InvalidFixedHeaderFlags));
        }

        // Variable Header
        let packet_identifier = match stream.read_u16() {
            Ok(id) => id,
            Err(e) => {
                return Some(Err(e));
            },
        };
        proof {
            crate::stream::lemma_suffix_skip(s, 2);
        }

        // Payload
        let mut topics: Vec<(TopicFilter, QoS)> = Vec::new();
        if fixed_header.remaining_length().value() < 2 {
            return None;
        }
        let mut remaining_length = fixed_header.remaining_length().value() - 2;
        let ghost whole = decode_subscriptions(s.skip(2), remaining_length as nat);
        assert(subscriptions_view(topics@) + Seq::<(TopicFilterModel, QoS)>::empty() =~= Seq::<(TopicFilterModel, QoS)>::empty());
        assert(whole == after_subscriptions(subscriptions_view(topics@), whole)) by {
            match whole {
                Some(Ok((t, r))) => {
                    assert(subscriptions_view(topics@) + t =~= t);
                },
                _ => {},
            }
        }

        while remaining_length > 0
            invariant
                s == old(stream)@,
                s.len() >= 2,
                fixed_header_flags == RESERVED_FIXED_HEADER_FLAGS,
                fixed_header_flags == fixed_header@.first_byte & 0x0F,
                fixed_header@.remaining_length >= 2,
                packet_identifier == be_u16(s[0], s[1]),
                whole == decode_subscriptions(s.skip(2), (fixed_header@.remaining_length - 2) as nat),
                whole == after_subscriptions(subscriptions_view(topics@), decode_subscriptions(stream@, remaining_length as nat)),
                is_suffix(stream@, s),
            decreases remaining_length,
        {
            let ghost current = stream@;
            let topic_filter = match TopicFilter::from_bytes(stream) {
                Ok(topic_filter) => topic_filter,
                Err(e) => {
                    proof {
                        crate::stream::lemma_suffix_trans(stream@, current, s);
                    }
                    return Some(Err(e));
                },
            };
            proof {
                if let Ok((es, _)) = crate::model::components::encoded_string::decode_encoded_string(current) {
                    crate::stream::lemma_suffix_skip(current, 2 + es.length);
                }
                crate::stream::lemma_suffix_trans(stream@, current, s);
            }
            let ghost after_filter = stream@;

            let qos_byte = match stream.read_u8() {
                Ok(byte) => byte,
                Err(e) => {
                    return Some(Err(e));
                },
            };
            let qos = match QoS::from_byte(qos_byte) {
                Ok(qos) => qos,
                Err(e) => {
                    proof {
                        crate::stream::lemma_suffix_skip(after_filter, 1);
                        crate::stream::lemma_suffix_trans(stream@, after_filter, s);
                    }
                    return Some(Err(e));
                },
            };
            proof {
                crate::stream::lemma_suffix_skip(after_filter, 1);
                crate::stream::lemma_suffix_trans(stream@, after_filter, s);
            }

            let used = topic_filter.length();
            let ghost prefix = subscriptions_view(topics@);
            let ghost entry = (topic_filter@, qos);
            if used >= remaining_length {
                return None;
            }
            remaining_length = remaining_length - used - 1;

            topics.push((topic_filter, qos));
            proof {
                assert(subscriptions_view(topics@) =~= prefix + seq![entry]);
                let later = decode_subscriptions(stream@, remaining_length as nat);
                match later {
                    Some(Ok((t, r))) => {
                        assert(prefix + (seq![entry] + t) =~= subscriptions_view(topics@) + t);
                    },
                    _ => {},
                }
            }
        }

        if topics.len() == 0 {
            return Some(Err(MqttError::NoTopicsSpecified));
        }

        Some(Ok(Self { packet_identifier, topics }))
    }

    /// The content of the packet, before it is encrypted.
    pub(crate) fn content(&self) -> (bytes: Vec<u8>)
        ensures
            bytes@ == encode_subscribe_content(self@),
    {
        // Variable Header
        let mut data_bytes = u16_to_be(self.packet_identifier);
        let ghost all = subscriptions_view(self.topics@);

        // Payload
        let mut i: usize = 0;
        assert(all.take(0) =~= Seq::<(TopicFilterModel, QoS)>::empty());
        while i < self.topics.len()
            invariant
                i <= self.topics.len(),
                all == subscriptions_view(self.topics@),
                data_bytes@ == be_bytes(self.packet_identifier) + encode_subscriptions(all.take(i as int)),
            decreases self.topics.len() - i,
        {
            let (topic_filter, qos) = &self.topics[i];
            crate::bytes::append_bytes(&mut data_bytes, topic_filter.to_bytes().as_slice());
            data_bytes.push(qos.to_byte());
            proof {
                assert(all.take(i + 1) =~= all.take(i as int).push(all[i as int]));
                lemma_encode_subscriptions_push(all.take(i as int), all[i as int]);
            }
            i = i + 1;
            assert(data_bytes@ =~= be_bytes(self.packet_identifier) + encode_subscriptions(all.take(i as int)));
        }
        assert(all.take(i as int) =~= all);
        data_bytes
    }

    /// Converts the Subscribe into a vector of bytes.
    pub fn to_bytes(&self, key: &[u8]) -> (bytes: Vec<u8>)
        requires
            key@.len() == 32,
            encode_subscribe_content(self@).len() <= u32::MAX,
        ensures
            sealed_packet(
                bytes@,
                packet_header(subscribe_first_byte(), encode_subscribe_content(self@).len()),
                encode_subscribe_content(self@),
                key@,
            ),
    {
        seal_packet(SUBSCRIBE_PACKET_TYPE << 4 | RESERVED_FIXED_HEADER_FLAGS, self.content(), key)
    }

    /// Returns the packet identifier.
    pub fn packet_identifier(&self) -> (id: u16)
        ensures
            id == self@.packet_identifier,
    {
        self.packet_identifier
    }

    /// Returns the topics to which the client subscribes.
    pub fn topics(&self) -> (topics: Vec<(TopicFilter, QoS)>)
        ensures
            subscriptions_view(topics@) == self@.topics,
    {
        let mut topics: Vec<(TopicFilter, QoS)> = Vec::new();
        let mut i: usize = 0;
        while i < self.topics.len()
            invariant
                i <= self.topics.len(),
                topics@.len() == i,
                subscriptions_view(topics@) == subscriptions_view(self.topics@).take(i as int),
            decreases self.topics.len() - i,
        {
            let (topic_filter, qos) = &self.topics[i];
            let ghost prev = topics@;
            let copy = topic_filter.clone();
            assert(copy@ == self.topics@[i as int].0@);
            topics.push((copy, *qos));
            assert(topics@[i as int] == (copy, *qos));
            assert(subscriptions_view(topics@) =~= subscriptions_view(self.topics@).take(i + 1)) by {
                assert forall|j: int| 0 <= j < i + 1 implies #[trigger] subscriptions_view(topics@)[j] == subscriptions_view(self.topics@)[j] by {
                    if j < i {
                        assert(topics@[j] == prev[j]);
                        assert(subscriptions_view(prev)[j] == subscriptions_view(self.topics@).take(i as int)[j]);
                    }
                }
            }
            i = i + 1;
        }
        assert(subscriptions_view(self.topics@).take(i as int) =~= subscriptions_view(self.topics@));
        topics
    }
}

/// Reading back the bytes of well-formed subscriptions, over exactly their length, gives them
/// back and leaves the bytes that follow.
#[verifier::rlimit(50)]
proof fn lemma_subscriptions_roundtrip(topics: Seq<(TopicFilterModel, QoS)>, rest: Seq<u8>)
    requires
        forall|i: int| 0 <= i < topics.len() ==> topic_filter_wf(#[trigger] topics[i].0),
    ensures
        decode_subscriptions(encode_subscriptions(topics) + rest, encode_subscriptions(topics).len())
            == Some(Ok::<(Seq<(TopicFilterModel, QoS)>, Seq<u8>), MqttErrorModel>((topics, rest))),
    decreases topics.len(),
{
    if topics.len() == 0 {
        assert(encode_subscriptions(topics) + rest =~= rest);
        assert(topics =~= Seq::<(TopicFilterModel, QoS)>::empty());
    } else {
        let first = topics[0];
        let tail = topics.drop_first();
        assert forall|i: int| 0 <= i < tail.len() implies topic_filter_wf(#[trigger] tail[i].0) by {
            assert(tail[i] == topics[i + 1]);
        }
        lemma_subscriptions_roundtrip(tail, rest);
        let tail_bytes = encode_subscriptions(tail);
        let filter_bytes = encode_topic_filter(first.0);
        let after_filter = seq![qos_byte(first.1)] + tail_bytes + rest;
        let whole = encode_subscriptions(topics);
        assert(whole == filter_bytes + seq![qos_byte(first.1)] + tail_bytes);
        assert(whole + rest =~= filter_bytes + after_filter);
        crate::model::components::topic_filter::lemma_topic_filter_roundtrip(first.0, after_filter);
        crate::model::components::qos::lemma_qos_byte_roundtrip(first.1, 0);
        assert(after_filter.skip(1) =~= tail_bytes + rest);
        assert(after_filter[0] == qos_byte(first.1));
        let used = filter_bytes.len() + 1;
        assert(whole.len() - used == tail_bytes.len());
        assert(decode_subscriptions(whole + rest, whole.len()) == after_subscriptions(
            seq![(first.0, first.1)],
            decode_subscriptions(after_filter.skip(1), tail_bytes.len()),
        ));
        assert(seq![first] + tail =~= topics);
    }
}

/// Reading back the content of a SUBSCRIBE packet with at least one well-formed subscription,
/// under the fixed header it is sent with, gives it back and leaves the bytes that follow.
pub proof fn lemma_subscribe_roundtrip(m: SubscribeModel, rest: Seq<u8>)
    requires
        m.topics.len() >= 1,
        forall|i: int| 0 <= i < m.topics.len() ==> topic_filter_wf(#[trigger] m.topics[i].0),
    ensures
        decode_subscribe(
            FixedHeaderModel { first_byte: subscribe_first_byte(), remaining_length: encode_subscribe_content(m).len() },
            encode_subscribe_content(m) + rest,
        ) == Some(Ok::<(SubscribeModel, Seq<u8>), MqttErrorModel>((m, rest))),
{
    let s = encode_subscribe_content(m) + rest;
    assert(s.skip(2) =~= encode_subscriptions(m.topics) + rest);
    lemma_subscriptions_roundtrip(m.topics, rest);
    crate::stream::lemma_be_u16_roundtrip(m.packet_identifier);
    assert(fixed_header_flags(subscribe_first_byte()) == 0) by (bit_vector);
}

} // verus!
