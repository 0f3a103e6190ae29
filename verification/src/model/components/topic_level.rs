use vstd::prelude::*;

use crate::bytes::{bytes_equal, contains_byte};
use crate::errors::error::{MqttError, MqttErrorModel, MqttResult};

verus! {

pub const MULTI_LEVEL_WILDCARD: u8 = 0x23;
pub const SINGLE_LEVEL_WILDCARD: u8 = 0x2B;

/// Part of a TopicFilter, indicates if the topic contains a wildcard.
#[derive(Debug, PartialEq)]
pub enum TopicLevel {
    Literal(Vec<u8>),
    MultiLevelWildcard,
    SingleLevelWildcard,
}

/// The value of a [`TopicLevel`].
pub enum TopicLevelModel {
    Literal(Seq<u8>),
    MultiLevelWildcard,
    SingleLevelWildcard,
}

impl View for TopicLevel {
    type V = TopicLevelModel;

    open spec fn view(&self) -> TopicLevelModel {
        match self {
            TopicLevel::Literal(bytes) => TopicLevelModel::Literal(bytes@),
            TopicLevel::MultiLevelWildcard => TopicLevelModel::MultiLevelWildcard,
            TopicLevel::SingleLevelWildcard => TopicLevelModel::SingleLevelWildcard,
        }
    }
}

/// The message of the error for a multi-level wildcard that shares its level with other characters.
pub open spec fn multi_level_wildcard_message() -> Seq<char> {
    "Multi-level wildcard must be the only character"@
}

/// The message of the error for a single-level wildcard that shares its level with other characters.
pub open spec fn single_level_wildcard_message() -> Seq<char> {
    "Single-level wildcard must be the only character"@
}

/// The level that bytes stand for: a lone `#` or `+` is a wildcard; a wildcard character among
/// other characters is refused (`#` checked first); anything else is literal, the empty level included.
pub open spec fn topic_level_of_bytes(bytes: Seq<u8>) -> Result<TopicLevelModel, MqttErrorModel> {
    if bytes.len() == 1 && bytes[0] == MULTI_LEVEL_WILDCARD {
        Ok(TopicLevelModel::MultiLevelWildcard)
    } else if bytes.len() == 1 && bytes[0] == SINGLE_LEVEL_WILDCARD {
        Ok(TopicLevelModel::SingleLevelWildcard)
    } else if bytes.len() == 1 {
        Ok(TopicLevelModel::Literal(bytes))
    } else if bytes.contains(MULTI_LEVEL_WILDCARD) {
        Err(MqttErrorModel::InvalidWildcard(multi_level_wildcard_message()))
    } else if bytes.contains(SINGLE_LEVEL_WILDCARD) {
        Err(MqttErrorModel::InvalidWildcard(single_level_wildcard_message()))
    } else {
        Ok(TopicLevelModel::Literal(bytes))
    }
}

/// The bytes of a level.
pub open spec fn topic_level_bytes(level: TopicLevelModel) -> Seq<u8> {
    match level {
        TopicLevelModel::Literal(bytes) => bytes,
        TopicLevelModel::MultiLevelWildcard => seq![MULTI_LEVEL_WILDCARD],
        TopicLevelModel::SingleLevelWildcard => seq![SINGLE_LEVEL_WILDCARD],
    }
}

/// A level as [`TopicLevel::from_bytes`] yields it: a literal holds no wildcard character,
/// unless it is a single character that is not itself a wildcard.
pub open spec fn topic_level_wf(level: TopicLevelModel) -> bool {
    match level {
        TopicLevelModel::Literal(bytes) => !(bytes.len() == 1 && (bytes[0] == MULTI_LEVEL_WILDCARD
            || bytes[0] == SINGLE_LEVEL_WILDCARD)) && (bytes.len() != 1 ==> !bytes.contains(
            MULTI_LEVEL_WILDCARD,
        ) && !bytes.contains(SINGLE_LEVEL_WILDCARD)),
        _ => true,
    }
}

impl TopicLevel {
    /// Converts a vector of bytes into a TopicLevel.
    pub fn from_bytes(bytes: Vec<u8>) -> (result: MqttResult<TopicLevel>)
        ensures
            match topic_level_of_bytes(bytes@) {
                Ok(level) => result matches Ok(l) && l@ == level,
                Err(e) => result matches Err(err) && err@ == e,
            },
    {
        if bytes.len() == 1 {
            return match bytes[0] {
                MULTI_LEVEL_WILDCARD => Ok(TopicLevel::MultiLevelWildcard),
                SINGLE_LEVEL_WILDCARD => Ok(TopicLevel::SingleLevelWildcard),
                _ => Ok(TopicLevel::Literal(bytes)),
            };
        }

        if contains_byte(bytes.as_slice(), MULTI_LEVEL_WILDCARD) {
            return Err(MqttError::InvalidWildcard(
                String::from_str("Multi-level wildcard must be the only character"),
            ));
        }

        if contains_byte(bytes.as_slice(), SINGLE_LEVEL_WILDCARD) {
            return Err(MqttError::InvalidWildcard(
                String::from_str("Single-level wildcard must be the only character"),
            ));
        }

        Ok(TopicLevel::Literal(bytes))
    }

    /// Converts a TopicLevel into a vector of bytes.
    pub fn to_bytes(&self) -> (bytes: Vec<u8>)
        ensures
            bytes@ == topic_level_bytes(self@),
    {
        match self {
            TopicLevel::Literal(bytes) => {
                let mut copy = Vec::new();
                crate::bytes::append_bytes(&mut copy, bytes.as_slice());
                copy
            },
            TopicLevel::MultiLevelWildcard => vec![MULTI_LEVEL_WILDCARD],
            TopicLevel::SingleLevelWildcard => vec![SINGLE_LEVEL_WILDCARD],
        }
    }

    /// Returns the length of the TopicLevel.
    pub fn length(&self) -> (n: usize)
        ensures
            n == topic_level_bytes(self@).len(),
    {
        match self {
            TopicLevel::Literal(bytes) => bytes.len(),
            TopicLevel::MultiLevelWildcard => 1,
            TopicLevel::SingleLevelWildcard => 1,
        }
    }
}

impl TopicLevel {
    /// Whether two levels are the same level.
    pub fn same_as(&self, other: &TopicLevel) -> (same: bool)
        ensures
            same == (self@ == other@),
    {
        match (self, other) {
            (TopicLevel::Literal(a), TopicLevel::Literal(b)) => bytes_equal(a.as_slice(), b.as_slice()),
            (TopicLevel::MultiLevelWildcard, TopicLevel::MultiLevelWildcard) => true,
            (TopicLevel::SingleLevelWildcard, TopicLevel::SingleLevelWildcard) => true,
            _ => false,
        }
    }
}

impl Clone for TopicLevel {
    fn clone(&self) -> (copy: TopicLevel)
        ensures
            copy@ == self@,
    {
        match self {
            TopicLevel::Literal(bytes) => {
                let mut copy = Vec::new();
                crate::bytes::append_bytes(&mut copy, bytes.as_slice());
                assert(copy@ =~= bytes@);
                TopicLevel::Literal(copy)
            },
            TopicLevel::MultiLevelWildcard => TopicLevel::MultiLevelWildcard,
            TopicLevel::SingleLevelWildcard => TopicLevel::SingleLevelWildcard,
        }
    }
}

/// Every level that [`TopicLevel::from_bytes`] yields is well formed, and reading its bytes
/// again gives the same level; and every well-formed level is read back from its bytes.
pub proof fn lemma_topic_level_roundtrip(bytes: Seq<u8>, level: TopicLevelModel)
    ensures
        topic_level_of_bytes(bytes) matches Ok(l) ==> topic_level_wf(l) && topic_level_bytes(l) == bytes,
        topic_level_wf(level) ==> topic_level_of_bytes(topic_level_bytes(level)) == Ok::<TopicLevelModel, MqttErrorModel>(level),
{
    if let TopicLevelModel::MultiLevelWildcard = level {
        assert(topic_level_bytes(level) =~= seq![MULTI_LEVEL_WILDCARD]);
    }
    if let TopicLevelModel::SingleLevelWildcard = level {
        assert(topic_level_bytes(level) =~= seq![SINGLE_LEVEL_WILDCARD]);
    }
}

} // verus!
