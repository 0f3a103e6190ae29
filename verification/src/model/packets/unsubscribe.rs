use vstd::prelude::*;

use super::{fixed_header_flags, packet_header, seal_packet, sealed_packet, RESERVED_FIXED_HEADER_FLAGS,
    UNSUBSCRIBE_PACKET_TYPE};
use crate::errors::error::{MqttError, MqttErrorModel, MqttResult};
use crate::model::components::fixed_header::{FixedHeader, FixedHeaderModel};
use crate::model::components::topic_filter::{
    decode_topic_filter, encode_topic_filter, topic_filter_wf, TopicFilter, TopicFilterModel,
};
use crate::stream::{be_bytes, be_u16, is_suffix, u16_to_be, ByteStream};

verus! {

/// Represents an UNSUBSCRIBE packet from MQTT. The client uses it to unsubscribe from one or more topics.
#[derive(Debug)]
pub struct Unsubscribe {
    // Variable Header
    packet_identifier: u16,
    // Payload
    topics: Vec<TopicFilter>,
}

/// The value of an [`Unsubscribe`].
#[verifier::ext_equal]
pub struct UnsubscribeModel {
    pub packet_identifier: u16,
    pub topics: Seq<TopicFilterModel>,
}

/// The values of the topic filters held in a vector.
pub open spec fn filters_view(topics: Seq<TopicFilter>) -> Seq<TopicFilterModel> {
    topics.map_values(|t: TopicFilter| t@)
}

impl View for Unsubscribe {
    type V = UnsubscribeModel;

    closed spec fn view(&self) -> UnsubscribeModel {
        UnsubscribeModel { packet_identifier: self.packet_identifier, topics: filters_view(self.topics@) }
    }
}

/// What reading goes on with: `None` stays `None`, an error stays an error, and filters read
/// later are put after `prefix`.
pub open spec fn after_filters(
    prefix: Seq<TopicFilterModel>,
    later: Option<Result<(Seq<TopicFilterModel>, Seq<u8>), MqttErrorModel>>,
) -> Option<Result<(Seq<TopicFilterModel>, Seq<u8>), MqttErrorModel>> {
    match later {
        None => None,
        Some(Err(e)) => Some(Err(e)),
        Some(Ok((topics, rest))) => Some(Ok((prefix + topics, rest))),
    }
}

/// Reading topic filters while `remaining` bytes of the packet are left; each uses up the
/// length of its bytes. `None` when a filter uses more than what is left: the packet cannot
/// be read.
pub open spec fn decode_filters(s: Seq<u8>, remaining: nat) -> Option<Result<(Seq<TopicFilterModel>, Seq<u8>), MqttErrorModel>>
    decreases remaining,
{
    if remaining == 0 {
        Some(Ok((Seq::<TopicFilterModel>::empty(), s)))
    } else {
        match decode_topic_filter(s) {
            Err(e) => Some(Err(e)),
            Ok((filter, after_filter)) => {
                let used = encode_topic_filter(filter).len();
                if remaining < used {
                    None
                } else {
                    after_filters(seq![filter], decode_filters(after_filter, (remaining - used) as nat))
                }
            },
        }
    }
}

/// Reading the content of an UNSUBSCRIBE packet: the fixed header must carry no flags; the
/// content is the packet identifier, two bytes big-endian, then topic filters up to the
/// remaining length, at least one. `None` when the packet cannot be read: a remaining length
/// below two, or a filter that overruns it.
pub open spec fn decode_unsubscribe(h: FixedHeaderModel, s: Seq<u8>) -> Option<Result<(UnsubscribeModel, Seq<u8>), MqttErrorModel>> {
    if fixed_header_flags(h.first_byte) != RESERVED_FIXED_HEADER_FLAGS {
        Some(Err(MqttErrorModel::InvalidFixedHeaderFlags))
    } else if s.len() < 2 {
        Some(Err(MqttErrorModel::IoError))
    } else if h.remaining_length < 2 {
        None
    } else {
        match decode_filters(s.skip(2), (h.remaining_length - 2) as nat) {
            None => None,
            Some(Err(e)) => Some(Err(e)),
            Some(Ok((topics, rest))) => if topics.len() == 0 {
                Some(Err(MqttErrorModel::NoTopicsSpecified))
            } else {
                Some(Ok((UnsubscribeModel { packet_identifier: be_u16(s[0], s[1]), topics }, rest)))
            },
        }
    }
}

/// The bytes of topic filters, one after the other.
pub open spec fn encode_filters(topics: Seq<TopicFilterModel>) -> Seq<u8>
    decreases topics.len(),
{
    if topics.len() == 0 {
        Seq::<u8>::empty()
    } else {
        encode_topic_filter(topics[0]) + encode_filters(topics.drop_first())
    }
}

/// The content of an UNSUBSCRIBE packet: the packet identifier, then the topic filters.
pub open spec fn encode_unsubscribe_content(m: UnsubscribeModel) -> Seq<u8> {
    be_bytes(m.packet_identifier) + encode_filters(m.topics)
}

/// The first byte of the fixed header of an UNSUBSCRIBE packet.
pub open spec fn unsubscribe_first_byte() -> u8 {
    UNSUBSCRIBE_PACKET_TYPE << 4 | RESERVED_FIXED_HEADER_FLAGS
}

/// Encoding one more filter appends its bytes.
proof fn lemma_encode_filters_push(topics: Seq<TopicFilterModel>, t: TopicFilterModel)
    ensures
        encode_filters(topics.push(t)) == encode_filters(topics) + encode_topic_filter(t),
    decreases topics.len(),
{
    if topics.len() == 0 {
        assert(topics.push(t).drop_first() =~= Seq::<TopicFilterModel>::empty());
        assert(topics.push(t)[0] == t);
        assert(encode_filters(topics.push(t).drop_first()) == Seq::<u8>::empty());
        assert(encode_filters(topics.push(t)) == encode_topic_filter(t) + encode_filters(topics.push(t).drop_first()));
        assert(encode_filters(topics.push(t)) =~= encode_filters(topics) + encode_topic_filter(t));
    } else {
        lemma_encode_filters_push(topics.drop_first(), t);
        assert(topics.push(t).drop_first() =~= topics.drop_first().push(t));
        assert(topics.push(t)[0] == topics[0]);
        let head = encode_topic_filter(topics[0]);
        assert(encode_filters(topics.push(t)) == head + encode_filters(topics.drop_first().push(t)));
        assert(encode_filters(topics) == head + encode_filters(topics.drop_first()));
        assert(encode_filters(topics.push(t)) =~= encode_filters(topics) + encode_topic_filter(t));
    }
}

impl Unsubscribe {
    pub fn new(packet_identifier: u16, topics: Vec<TopicFilter>) -> (u: Self)
        ensures
            u@ == (UnsubscribeModel { packet_identifier, topics: filters_view(topics@) }),
    {
        Self { packet_identifier, topics }
    }

    /// Converts a stream of bytes into an Unsubscribe.
    pub fn from_bytes(fixed_header: FixedHeader, stream: &mut ByteStream) -> (result: MqttResult<Self>)
        requires
            decode_unsubscribe(fixed_header@, old(stream)@) is Some,
        ensures
            match decode_unsubscribe(fixed_header@, old(stream)@) {
                Some(Ok((m, rest))) => result matches Ok(u) && u@ == m && final(stream)@ == rest,
                Some(Err(e)) => result matches Err(err) && err@ == e && is_suffix(final(stream)@, old(stream)@),
                None => false,
            },
    {
        match Self::try_from_bytes(fixed_header, stream) {
            Some(result) => result,
            None => {
                assert(false);
                Err(MqttError::IoError)
            },
        }
    }

    /// Converts a stream of bytes into an Unsubscribe, or gives `None` when the remaining length is below two or a topic filter overruns it and the
    /// packet cannot be read.
    pub fn try_from_bytes(fixed_header: FixedHeader, stream: &mut ByteStream) -> (result: Option<MqttResult<Self>>)
        ensures
            match decode_unsubscribe(fixed_header@, old(stream)@) {
                Some(Ok((m, rest))) => result matches Some(Ok(u)) && u@ == m && final(stream)@ == rest,
                Some(Err(e)) => result matches Some(Err(err)) && err@ == e && is_suffix(final(stream)@, old(stream)@),
                None => result is None,
            },
    {
        let ghost s = stream@;
        proof {
            crate::stream::lemma_suffix_refl(s);
        }
        // Fixed Header
        let fixed_header_flags = fixed_header.first_byte() & 0b0000_1111;

        if fixed_header_flags != RESERVED_FIXED_HEADER_FLAGS {
            return Some(Err(MqttError::InvalidFixedHeaderFlags));
        }

        // Variable Header
        let packet_identifier = match stream.read_u16() {
            Ok(id) => id,
            Err(e) => {
                return Some(Err(e));
            },
        };
        proof {
            crate::stream::lemma_suffix_skip(s, 2);
        }

        if fixed_header.remaining_length().value() < 2 {
            return None;
        }
        let mut remaining_length = fixed_header.remaining_length().value() - 2;
        let ghost whole = decode_filters(s.skip(2), remaining_length as nat);

        // Payload
        let mut topics: Vec<TopicFilter> = vec![];
        assert(whole == after_filters(filters_view(topics@), whole)) by {
            match whole {
                Some(Ok((t, r))) => {
                    assert(filters_view(topics@) + t =~= t);
                },
                _ => {},
            }
        }
        while remaining_length > 0
            invariant
                s == old(stream)@,
                s.len() >= 2,
                fixed_header_flags == RESERVED_FIXED_HEADER_FLAGS,
                fixed_header_flags == fixed_header@.first_byte & 0x0F,
                fixed_header@.remaining_length >= 2,
                packet_identifier == be_u16(s[0], s[1]),
                whole == decode_filters(s.skip(2), (fixed_header@.remaining_length - 2) as nat),
                whole == after_filters(filters_view(topics@), decode_filters(stream@, remaining_length as nat)),
                is_suffix(stream@, s),
            decreases remaining_length,
        {
            let ghost current = stream@;
            let topic_filter = match TopicFilter::from_bytes(stream) {
                Ok(topic_filter) => topic_filter,
                Err(e) => {
                    proof {
                        crate::stream::lemma_suffix_trans(stream@, current, s);
                    }
                    return Some(Err(e));
                },
            };
            proof {
                if let Ok((es, _)) = crate::model::components::encoded_string::decode_encoded_string(current) {
                    crate::stream::lemma_suffix_skip(current, 2 + es.length);
                }
                crate::stream::lemma_suffix_trans(stream@, current, s);
            }
            let ghost prefix = filters_view(topics@);
            let ghost entry = topic_filter@;
            let used = topic_filter.length();
            if used > remaining_length {
                return None;
            }
            remaining_length = remaining_length - used;

            topics.push(topic_filter);
            proof {
                assert(filters_view(topics@) =~= prefix + seq![entry]);
                let later = decode_filters(stream@, remaining_length as nat);
                match later {
                    Some(Ok((t, r))) => {
                        assert(prefix + (seq![entry] + t) =~= filters_view(topics@) + t);
                    },
                    _ => {},
                }
            }
        }

        if topics.len() == 0 {
            return Some(Err(MqttError::NoTopicsSpecified));
        }

        Some(Ok(Self { packet_identifier, topics }))
    }

    /// The content of the packet, before it is encrypted.
    pub(crate) fn content(&self) -> (bytes: Vec<u8>)
        ensures
            bytes@ == encode_unsubscribe_content(self@),
    {
        // Variable Header
        let mut data_bytes = u16_to_be(self.packet_identifier);
        let ghost all = filters_view(self.topics@);

        // Payload
        let mut i: usize = 0;
        assert(all.take(0) =~= Seq::<TopicFilterModel>::empty());
        while i < self.topics.len()
            invariant
                i <= self.topics.len(),
                all == filters_view(self.topics@),
                data_bytes@ == be_bytes(self.packet_identifier) + encode_filters(all.take(i as int)),
            decreases self.topics.len() - i,
        {
            crate::bytes::append_bytes(&mut data_bytes, self.topics[i].to_bytes().as_slice());
            proof {
                assert(all.take(i + 1) =~= all.take(i as int).push(all[i as int]));
                lemma_encode_filters_push(all.take(i as int), all[i as int]);
            }
            i = i + 1;
            assert(data_bytes@ =~= be_bytes(self.packet_identifier) + encode_filters(all.take(i as int)));
        }
        assert(all.take(i as int) =~= all);
        data_bytes
    }

    /// Converts the Unsubscribe into a vector of bytes.
    pub fn to_bytes(&self, key: &[u8]) -> (bytes: Vec<u8>)
        requires
            key@.len() == 32,
            encode_unsubscribe_content(self@).len() <= u32::MAX,
        ensures
            sealed_packet(
                bytes@,
                packet_header(unsubscribe_first_byte(), encode_unsubscribe_content(self@).len()),
                encode_unsubscribe_content(self@),
                key@,
            ),
    {
        seal_packet(UNSUBSCRIBE_PACKET_TYPE << 4 | RESERVED_FIXED_HEADER_FLAGS, self.content(), key)
    }

    /// Returns the packet identifier.
    pub fn packet_identifier(&self) -> (id: u16)
        ensures
            id == self@.packet_identifier,
    {
        self.packet_identifier
    }

    /// Returns the topics to unsubscribe from.
    pub fn topics(&self) -> (topics: &Vec<TopicFilter>)
        ensures
            filters_view(topics@) == self@.topics,
    {
        &self.topics
    }
}

/// Reading back the bytes of well-formed topic filters, over exactly their length, gives them
/// back and leaves the bytes that follow.
#[verifier::rlimit(50)]
proof fn lemma_filters_roundtrip(topics: Seq<TopicFilterModel>, rest: Seq<u8>)
    requires
        forall|i: int| 0 <= i < topics.len() ==> topic_filter_wf(#[trigger] topics[i]),
    ensures
        decode_filters(encode_filters(topics) + rest, encode_filters(topics).len())
            == Some(Ok::<(Seq<TopicFilterModel>, Seq<u8>), MqttErrorModel>((topics, rest))),
    decreases topics.len(),
{
    if topics.len() == 0 {
        assert(encode_filters(topics) + rest =~= rest);
        assert(topics =~= Seq::<TopicFilterModel>::empty());
    } else {
        let first = topics[0];
        let tail = topics.drop_first();
        assert forall|i: int| 0 <= i < tail.len() implies topic_filter_wf(#[trigger] tail[i]) by {
            assert(tail[i] == topics[i + 1]);
        }
        lemma_filters_roundtrip(tail, rest);
        let tail_bytes = encode_filters(tail);
        let filter_bytes = encode_topic_filter(first);
        let after_filter = tail_bytes + rest;
        let whole = encode_filters(topics);
        assert(whole == filter_bytes + tail_bytes);
        assert(whole + rest =~= filter_bytes + after_filter);
        crate::model::components::topic_filter::lemma_topic_filter_roundtrip(first, after_filter);
        assert(whole.len() - filter_bytes.len() == tail_bytes.len());
        assert(decode_filters(whole + rest, whole.len()) == after_filters(
            seq![first],
            decode_filters(after_filter, tail_bytes.len()),
        ));
        assert(seq![first] + tail =~= topics);
    }
}

/// Reading back the content of an UNSUBSCRIBE packet with at least one well-formed filter,
/// under the fixed header it is sent with, gives it back and leaves the bytes that follow.
pub proof fn lemma_unsubscribe_roundtrip(m: UnsubscribeModel, rest: Seq<u8>)
    requires
        m.topics.len() >= 1,
        forall|i: int| 0 <= i < m.topics.len() ==> topic_filter_wf(#[trigger] m.topics[i]),
    ensures
        decode_unsubscribe(
            FixedHeaderModel { first_byte: unsubscribe_first_byte(), remaining_length: encode_unsubscribe_content(m).len() },
            encode_unsubscribe_content(m) + rest,
        ) == Some(Ok::<(UnsubscribeModel, Seq<u8>), MqttErrorModel>((m, rest))),
{
    let s = encode_unsubscribe_content(m) + rest;
    assert(s.skip(2) =~= encode_filters(m.topics) + rest);
    lemma_filters_roundtrip(m.topics, rest);
    crate::stream::lemma_be_u16_roundtrip(m.packet_identifier);
    assert(fixed_header_flags(unsubscribe_first_byte()) == 0) by (bit_vector);
}

} // verus!
