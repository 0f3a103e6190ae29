use vstd::prelude::*;

use super::{FORWARD_SLASH, SERVER_RESERVED};
use crate::bytes::{byte_seqs, bytes_equal, join_bytes, join_on, split_bytes, split_on};
use crate::errors::error::{MqttError, MqttErrorModel, MqttResult};
use crate::model::components::encoded_string::{
    decode_encoded_string, encode_encoded_string, encoded_string_of, EncodedString,
};
use crate::model::components::topic_level::{
    topic_level_of_bytes, TopicLevel, TopicLevelModel, MULTI_LEVEL_WILDCARD, SINGLE_LEVEL_WILDCARD,
};
use crate::stream::{is_suffix, ByteStream};
use crate::text::{join_chars, lossy_string, utf8_lossy};

verus! {

/// Represents the name of a topic in MQTT.
#[derive(Debug, PartialEq, Eq, Hash)]
pub struct TopicName {
    levels: Vec<Vec<u8>>,
    server_reserved: bool,
}

/// The value of a [`TopicName`]: its levels and whether the server reserved it.
#[verifier::ext_equal]
pub struct TopicNameModel {
    pub levels: Seq<Seq<u8>>,
    pub server_reserved: bool,
}

impl View for TopicName {
    type V = TopicNameModel;

    closed spec fn view(&self) -> TopicNameModel {
        TopicNameModel { levels: byte_seqs(self.levels@), server_reserved: self.server_reserved }
    }
}

/// The message of the error for a wildcard in a topic name.
pub open spec fn wildcard_in_name_message() -> Seq<char> {
    "Wildcard not allowed in topic name"@
}

/// A level of a topic name must read as a literal level.
pub open spec fn check_name_level(level: Seq<u8>) -> Result<(), MqttErrorModel> {
    match topic_level_of_bytes(level) {
        Err(e) => Err(e),
        Ok(TopicLevelModel::Literal(_)) => Ok(()),
        Ok(_) => Err(MqttErrorModel::InvalidWildcard(wildcard_in_name_message())),
    }
}

/// Every level of a topic name must read as a literal level; the first one that does not
/// gives the error.
pub open spec fn check_name_levels(levels: Seq<Seq<u8>>) -> Result<(), MqttErrorModel>
    decreases levels.len(),
{
    if levels.len() == 0 {
        Ok(())
    } else {
        match check_name_levels(levels.drop_last()) {
            Err(e) => Err(e),
            Ok(_) => check_name_level(levels.last()),
        }
    }
}

/// The topic name that the content of an encoded string stands for: it must not be empty,
/// its levels are the pieces between slashes, and it is reserved by the server when it
/// starts with `$`.
pub open spec fn topic_name_of_content(content: Seq<u8>) -> Result<TopicNameModel, MqttErrorModel> {
    if content.len() == 0 {
        Err(MqttErrorModel::InvalidTopicName)
    } else {
        let levels = split_bytes(content, FORWARD_SLASH);
        match check_name_levels(levels) {
            Err(e) => Err(e),
            Ok(_) => Ok(TopicNameModel { levels, server_reserved: content[0] == SERVER_RESERVED }),
        }
    }
}

/// Reading a topic name from the front of `s`: an encoded string whose content is a topic name.
pub open spec fn decode_topic_name(s: Seq<u8>) -> Result<(TopicNameModel, Seq<u8>), MqttErrorModel> {
    match decode_encoded_string(s) {
        Err(e) => Err(e),
        Ok((es, rest)) => match topic_name_of_content(es.content) {
            Ok(t) => Ok((t, rest)),
            Err(e) => Err(e),
        },
    }
}

/// The bytes of a topic name: the encoded string of its levels joined by slashes.
pub open spec fn encode_topic_name(t: TopicNameModel) -> Seq<u8> {
    encode_encoded_string(encoded_string_of(join_bytes(t.levels, FORWARD_SLASH)))
}

/// A topic name as reading yields one: at least one level, no level holding a slash or a
/// wildcard character, a non-empty text short enough for an encoded string, reserved
/// exactly when it starts with `$`.
pub open spec fn topic_name_wf(t: TopicNameModel) -> bool {
    let content = join_bytes(t.levels, FORWARD_SLASH);
    &&& t.levels.len() >= 1
    &&& forall|i: int|
        #![trigger t.levels[i]]
        0 <= i < t.levels.len() ==> !t.levels[i].contains(FORWARD_SLASH) && !t.levels[i].contains(
            MULTI_LEVEL_WILDCARD,
        ) && !t.levels[i].contains(SINGLE_LEVEL_WILDCARD)
    &&& 1 <= content.len() <= u16::MAX
    &&& t.server_reserved == (content[0] == SERVER_RESERVED)
}

impl TopicName {
    pub fn new(levels: Vec<Vec<u8>>, server_reserved: bool) -> (t: Self)
        ensures
            t@ == (TopicNameModel { levels: byte_seqs(levels@), server_reserved }),
    {
        Self { levels, server_reserved }
    }

    /// Converts a stream of bytes into a TopicName.
    pub fn from_bytes(stream: &mut ByteStream) -> (result: MqttResult<Self>)
        ensures
            match decode_topic_name(old(stream)@) {
                Ok((t, rest)) => result matches Ok(tn) && tn@ == t && final(stream)@ == rest,
                Err(e) => result matches Err(err) && err@ == e && is_suffix(final(stream)@, old(stream)@),
            },
    {
        let ghost s = stream@;
        let encoded_string_topic_name = EncodedString::from_bytes(stream)?;
        let bytes = encoded_string_topic_name.content();
        proof {
            let length = encoded_string_topic_name@.length;
            crate::stream::lemma_suffix_skip(s, 2 + length);
        }

        if bytes.len() == 0 {
            return Err(MqttError::InvalidTopicName);
        }

        let server_reserved = bytes[0] == SERVER_RESERVED;

        let levels_bytes = split_on(bytes.as_slice(), FORWARD_SLASH);
        let ghost all = byte_seqs(levels_bytes@);
        let ghost es_model = encoded_string_topic_name@;

        let mut i: usize = 0;
        while i < levels_bytes.len()
            invariant
                i <= levels_bytes.len(),
                all == byte_seqs(levels_bytes@),
                all == split_bytes(bytes@, FORWARD_SLASH),
                is_suffix(stream@, s),
                s == old(stream)@,
                decode_encoded_string(s) == Ok::<(crate::model::components::encoded_string::EncodedStringModel, Seq<u8>), MqttErrorModel>((es_model, stream@)),
                es_model.content == bytes@,
                bytes@.len() > 0,
                server_reserved == (bytes@[0] == SERVER_RESERVED),
                check_name_levels(all.take(i as int)) == Ok::<(), MqttErrorModel>(()),
            decreases levels_bytes.len() - i,
        {
            let level = vstd::slice::slice_to_vec(levels_bytes[i].as_slice());
            assert(all.take(i + 1).drop_last() =~= all.take(i as int));
            assert(all.take(i + 1).last() == level@);
            match TopicLevel::from_bytes(level) {
                Ok(TopicLevel::Literal(_)) => {},
                Ok(_) => {
                    proof {
                        lemma_check_name_levels_prefix(all, i as int + 1);
                    }
                    return Err(
                        MqttError::InvalidWildcard(String::from_str("Wildcard not allowed in topic name")),
                    );
                },
                Err(e) => {
                    proof {
                        lemma_check_name_levels_prefix(all, i as int + 1);
                    }
                    return Err(e);
                },
            }
            i = i + 1;
        }
        assert(all.take(i as int) =~= all);

        Ok(Self { levels: levels_bytes, server_reserved })
    }

    /// Converts the TopicName into a vector of bytes.
    pub fn to_bytes(&self) -> (bytes: Vec<u8>)
        ensures
            bytes@ == encode_topic_name(self@),
    {
        let topic_bytes = join_on(&self.levels, FORWARD_SLASH);
        EncodedString::new(topic_bytes).to_bytes()
    }

    /// The levels, each made into text, joined by slashes.
    pub fn serialize(&self) -> (text: String)
        ensures
            text@ == join_chars(self@.levels.map_values(|level: Seq<u8>| utf8_lossy(level)), "/"@),
    {
        let ghost texts = self@.levels.map_values(|level: Seq<u8>| utf8_lossy(level));
        let mut text = String::new();
        let mut i: usize = 0;
        proof {
            reveal_strlit("/");
        }
        while i < self.levels.len()
            invariant
                i <= self.levels.len(),
                texts == self@.levels.map_values(|level: Seq<u8>| utf8_lossy(level)),
                texts.len() == self.levels.len(),
                text@ == join_chars(texts.take(i as int), "/"@),
                "/"@ == seq!['/'],
            decreases self.levels.len() - i,
        {
            let ghost next = texts.take(i + 1);
            assert(next.drop_last() =~= texts.take(i as int));
            if i > 0 {
                text.append("/");
            }
            let level_text = lossy_string(self.levels[i].as_slice());
            assert(level_text@ == texts[i as int]);
            text.append(level_text.as_str());
            i = i + 1;
            assert(text@ =~= join_chars(next, "/"@));
        }
        assert(texts.take(i as int) =~= texts);
        text
    }

    /// Reads a topic name from the text that [`TopicName::serialize`] makes: its levels are the
    /// pieces of its bytes between slashes; the name is never reserved by the server.
    pub fn deserialize(serialized: &str) -> (result: Result<TopicName, String>)
        ensures
            result matches Ok(t) && t@ == (TopicNameModel {
                levels: split_bytes(vstd::utf8::encode_utf8(serialized@), FORWARD_SLASH),
                server_reserved: false,
            }),
    {
        let levels = split_on(serialized.as_bytes(), FORWARD_SLASH);

        Ok(TopicName { levels, server_reserved: false })
    }

    /// Whether two topic names are the same: the same levels, equally reserved.
    pub fn same_as(&self, other: &TopicName) -> (same: bool)
        ensures
            same == (self@ == other@),
    {
        if self.server_reserved != other.server_reserved || self.levels.len() != other.levels.len() {
            proof {
                if self@ == other@ {
                    assert(self@.levels.len() == other@.levels.len());
                }
            }
            return false;
        }
        let mut i: usize = 0;
        while i < self.levels.len()
            invariant
                i <= self.levels.len(),
                self.levels.len() == other.levels.len(),
                forall|j: int| 0 <= j < i ==> self.levels@[j]@ == other.levels@[j]@,
            decreases self.levels.len() - i,
        {
            if !bytes_equal(self.levels[i].as_slice(), other.levels[i].as_slice()) {
                proof {
                    if self@ == other@ {
                        assert(self@.levels[i as int] == other@.levels[i as int]);
                    }
                }
                return false;
            }
            i = i + 1;
        }
        assert(self@.levels =~= other@.levels);
        true
    }

    /// Returns the levels of the topic.
    pub fn levels(&self) -> (levels: &Vec<Vec<u8>>)
        ensures
            byte_seqs(levels@) == self@.levels,
    {
        &self.levels
    }

    /// Returns the length of the topic.
    pub fn length(&self) -> (n: usize)
        ensures
            n == encode_topic_name(self@).len(),
    {
        self.to_bytes().len()
    }

    /// Returns whether the topic is reserved by the server.
    pub fn server_reserved(&self) -> (reserved: bool)
        ensures
            reserved == self@.server_reserved,
    {
        self.server_reserved
    }
}

impl Clone for TopicName {
    fn clone(&self) -> (copy: TopicName)
        ensures
            copy@ == self@,
    {
        TopicName { levels: crate::bytes::copy_byte_vecs(&self.levels), server_reserved: self.server_reserved }
    }
}

/// When the levels before `k - 1` pass and level `k - 1` fails, the check of all levels fails
/// with that level's error; when they all pass, the prefix passes.
proof fn lemma_check_name_levels_prefix(levels: Seq<Seq<u8>>, k: int)
    requires
        1 <= k <= levels.len(),
        check_name_levels(levels.take(k - 1)) == Ok::<(), MqttErrorModel>(()),
    ensures
        check_name_level(levels[k - 1]) is Err ==> check_name_levels(levels) == check_name_level(levels[k - 1]),
    decreases levels.len(),
{
    if k < levels.len() {
        assert(levels.drop_last().take(k - 1) =~= levels.take(k - 1));
        assert(levels.drop_last()[k - 1] == levels[k - 1]);
        lemma_check_name_levels_prefix(levels.drop_last(), k);
    } else {
        assert(levels.drop_last() =~= levels.take(k - 1));
    }
}

/// Levels free of slashes and wildcard characters pass the check.
proof fn lemma_check_name_levels_ok(levels: Seq<Seq<u8>>)
    requires
        forall|i: int|
            #![trigger levels[i]]
            0 <= i < levels.len() ==> !levels[i].contains(MULTI_LEVEL_WILDCARD) && !levels[i].contains(
                SINGLE_LEVEL_WILDCARD,
            ),
    ensures
        check_name_levels(levels) == Ok::<(), MqttErrorModel>(()),
    decreases levels.len(),
{
    if levels.len() > 0 {
        lemma_check_name_levels_ok(levels.drop_last());
        let last = levels.last();
        assert(last == levels[levels.len() - 1]);
        if last.len() == 1 {
            assert(last.contains(last[0]));
        }
    }
}

/// What is left after reading a topic name is a suffix of what was read.
pub proof fn lemma_topic_name_suffix(s: Seq<u8>)
    ensures
        decode_topic_name(s) matches Ok((_, rest)) ==> is_suffix(rest, s),
{
    if let Ok((es, rest)) = decode_encoded_string(s) {
        crate::stream::lemma_suffix_skip(s, 2 + es.length);
    }
}

/// Reading back the bytes of a well-formed topic name gives it back, and leaves the bytes that
/// follow; and every topic name that reading yields is well formed.
pub proof fn lemma_topic_name_roundtrip(t: TopicNameModel, rest: Seq<u8>, s: Seq<u8>)
    ensures
        topic_name_wf(t) ==> decode_topic_name(encode_topic_name(t) + rest) == Ok::<(TopicNameModel, Seq<u8>), MqttErrorModel>((t, rest)),
        decode_topic_name(s) matches Ok((r, _)) ==> r.levels.len() >= 1 && r.levels == split_bytes(
            join_bytes(r.levels, FORWARD_SLASH),
            FORWARD_SLASH,
        ),
{
    if topic_name_wf(t) {
        let content = join_bytes(t.levels, FORWARD_SLASH);
        crate::model::components::encoded_string::lemma_encoded_string_roundtrip(encoded_string_of(content), rest);
        crate::bytes::lemma_split_join(t.levels, FORWARD_SLASH);
        lemma_check_name_levels_ok(t.levels);
        assert(t == TopicNameModel { levels: t.levels, server_reserved: content[0] == SERVER_RESERVED });
    }
    if let Ok((es, _)) = decode_encoded_string(s) {
        crate::bytes::lemma_split_bytes_shape(es.content, FORWARD_SLASH);
        crate::bytes::lemma_join_split(es.content, FORWARD_SLASH);
    }
}

} // verus!
