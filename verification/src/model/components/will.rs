use vstd::prelude::*;

use crate::errors::error::{MqttErrorModel, MqttResult};
use crate::model::components::encoded_string::{
    decode_encoded_string, encode_encoded_string, EncodedString, EncodedStringModel,
};
use crate::model::components::qos::QoS;
use crate::model::components::topic_name::{decode_topic_name, encode_topic_name, TopicName, TopicNameModel};
use crate::stream::{is_suffix, ByteStream};

verus! {

/// Represents the will of a client: the message the server publishes when the client goes away.
#[derive(Debug, PartialEq)]
pub struct Will {
    qos: QoS,
    retain: bool,
    topic: TopicName,
    message: EncodedString,
}

/// The value of a [`Will`].
pub struct WillModel {
    pub qos: QoS,
    pub retain: bool,
    pub topic: TopicNameModel,
    pub message: EncodedStringModel,
}

impl View for Will {
    type V = WillModel;

    closed spec fn view(&self) -> WillModel {
        WillModel { qos: self.qos, retain: self.retain, topic: self.topic@, message: self.message@ }
    }
}

/// Reading a will from the front of `s`: its topic, then its encoded message; its quality of
/// service and retain flag come from the flags of the CONNECT packet.
pub open spec fn decode_will(s: Seq<u8>, qos: QoS, retain: bool) -> Result<(WillModel, Seq<u8>), MqttErrorModel> {
    match decode_topic_name(s) {
        Err(e) => Err(e),
        Ok((topic, rest)) => match decode_encoded_string(rest) {
            Err(e) => Err(e),
            Ok((message, rest2)) => Ok((WillModel { qos, retain, topic, message }, rest2)),
        },
    }
}

/// The bytes of a will: its topic, then its encoded message.
pub open spec fn encode_will(w: WillModel) -> Seq<u8> {
    encode_topic_name(w.topic) + encode_encoded_string(w.message)
}

impl Will {
    pub fn new(qos: QoS, retain: bool, topic: TopicName, message: EncodedString) -> (will: Will)
        ensures
            will@ == (WillModel { qos, retain, topic: topic@, message: message@ }),
    {
        Will { qos, retain, topic, message }
    }

    /// Converts a stream of bytes into a Will.
    pub fn from_bytes(stream: &mut ByteStream, qos: QoS, retain: bool) -> (result: MqttResult<Will>)
        ensures
            match decode_will(old(stream)@, qos, retain) {
                Ok((w, rest)) => result matches Ok(will) && will@ == w && final(stream)@ == rest,
                Err(e) => result matches Err(err) && err@ == e,
            },
            is_suffix(final(stream)@, old(stream)@),
    {
        let ghost s = stream@;
        let topic = TopicName::from_bytes(stream)?;
        let ghost middle = stream@;
        proof {
            crate::model::components::topic_name::lemma_topic_name_suffix(s);
        }
        let message = EncodedString::from_bytes(stream);
        proof {
            crate::stream::lemma_suffix_trans(stream@, middle, s);
        }
        let message = message?;

        Ok(Will::new(qos, retain, topic, message))
    }

    /// Converts the Will into a vector of bytes.
    pub fn to_bytes(&self) -> (bytes: Vec<u8>)
        ensures
            bytes@ == encode_will(self@),
    {
        let mut bytes = self.topic.to_bytes();
        crate::bytes::append_bytes(&mut bytes, self.message.to_bytes().as_slice());
        bytes
    }

    /// Returns the quality of service of the will.
    pub fn qos(&self) -> (qos: &QoS)
        ensures
            *qos == self@.qos,
    {
        &self.qos
    }

    /// Returns whether the will is retained.
    pub fn retain(&self) -> (retain: bool)
        ensures
            retain == self@.retain,
    {
        self.retain
    }

    /// Returns the topic of the will.
    pub fn topic(&self) -> (topic: &TopicName)
        ensures
            topic@ == self@.topic,
    {
        &self.topic
    }

    /// Returns the message of the will.
    pub fn message(&self) -> (message: &EncodedString)
        ensures
            message@ == self@.message,
    {
        &self.message
    }
}

/// Reading back the bytes of a will whose topic and message are well formed, with its quality
/// of service and retain flag, gives it back and leaves the bytes that follow.
pub proof fn lemma_will_roundtrip(w: WillModel, rest: Seq<u8>)
    requires
        crate::model::components::topic_name::topic_name_wf(w.topic),
        crate::model::components::encoded_string::encoded_string_wf(w.message),
    ensures
        decode_will(encode_will(w) + rest, w.qos, w.retain) == Ok::<(WillModel, Seq<u8>), MqttErrorModel>((w, rest)),
{
    let tail = encode_encoded_string(w.message) + rest;
    assert(encode_will(w) + rest =~= encode_topic_name(w.topic) + tail);
    crate::model::components::topic_name::lemma_topic_name_roundtrip(w.topic, tail, Seq::<u8>::empty());
    crate::model::components::encoded_string::lemma_encoded_string_roundtrip(w.message, rest);
}

} // verus!
