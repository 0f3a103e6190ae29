use vstd::prelude::*;

use super::{FORWARD_SLASH, SERVER_RESERVED};
use crate::bytes::{bytes_equal, byte_seqs, join_bytes, join_on, split_bytes, split_on};
use crate::errors::error::{MqttError, MqttErrorModel, MqttResult};
use crate::model::components::encoded_string::{
    decode_encoded_string, encode_encoded_string, encoded_string_of, EncodedString, EncodedStringModel,
};
use crate::model::components::topic_level::{
    topic_level_bytes, topic_level_of_bytes, TopicLevel, TopicLevelModel,
};
use crate::model::components::topic_name::TopicName;
use crate::stream::{is_suffix, ByteStream};
use crate::text::{join_chars, lossy_string, utf8_lossy};

verus! {

/// Represents a topic filter of MQTT: the levels of a topic, any of which may be a wildcard.
#[derive(Debug, PartialEq)]
pub struct TopicFilter {
    levels: Vec<TopicLevel>,
    server_reserved: bool,
}

/// The value of a [`TopicFilter`]: its levels and whether it starts with `$`.
#[verifier::ext_equal]
pub struct TopicFilterModel {
    pub levels: Seq<TopicLevelModel>,
    pub server_reserved: bool,
}

impl View for TopicFilter {
    type V = TopicFilterModel;

    closed spec fn view(&self) -> TopicFilterModel {
        TopicFilterModel {
            levels: self.levels@.map_values(|level: TopicLevel| level@),
            server_reserved: self.server_reserved,
        }
    }
}

/// Reads every piece as a level, in order; the first piece that is refused gives the error.
pub open spec fn filter_levels_of(pieces: Seq<Seq<u8>>) -> Result<Seq<TopicLevelModel>, MqttErrorModel>
    decreases pieces.len(),
{
    if pieces.len() == 0 {
        Ok(Seq::<TopicLevelModel>::empty())
    } else {
        match filter_levels_of(pieces.drop_last()) {
            Err(e) => Err(e),
            Ok(levels) => match topic_level_of_bytes(pieces.last()) {
                Err(e) => Err(e),
                Ok(level) => Ok(levels.push(level)),
            },
        }
    }
}

/// The topic filter that the content of an encoded string stands for: it must not be empty,
/// its levels are the pieces between slashes, and it starts with `$` when it is reserved.
pub open spec fn topic_filter_of_content(content: Seq<u8>) -> Result<TopicFilterModel, MqttErrorModel> {
    if content.len() == 0 {
        Err(MqttErrorModel::InvalidTopicName)
    } else {
        match filter_levels_of(split_bytes(content, FORWARD_SLASH)) {
            Err(e) => Err(e),
            Ok(levels) => Ok(TopicFilterModel { levels, server_reserved: content[0] == SERVER_RESERVED }),
        }
    }
}

/// Reading a topic filter from the front of `s`: an encoded string whose content is a topic filter.
pub open spec fn decode_topic_filter(s: Seq<u8>) -> Result<(TopicFilterModel, Seq<u8>), MqttErrorModel> {
    match decode_encoded_string(s) {
        Err(e) => Err(e),
        Ok((es, rest)) => match topic_filter_of_content(es.content) {
            Ok(f) => Ok((f, rest)),
            Err(e) => Err(e),
        },
    }
}

/// The text of a topic filter: the bytes of its levels joined by slashes.
pub open spec fn topic_filter_content(f: TopicFilterModel) -> Seq<u8> {
    join_bytes(f.levels.map_values(|level: TopicLevelModel| topic_level_bytes(level)), FORWARD_SLASH)
}

/// The bytes of a topic filter: the encoded string of its text.
pub open spec fn encode_topic_filter(f: TopicFilterModel) -> Seq<u8> {
    encode_encoded_string(encoded_string_of(topic_filter_content(f)))
}

/// Whether filter levels match the levels of a topic name: a literal matches an equal level,
/// a single-level wildcard matches any one level, a multi-level wildcard matches whatever is left.
pub open spec fn levels_match(filter: Seq<TopicLevelModel>, name: Seq<Seq<u8>>) -> bool
    decreases filter.len(),
{
    if filter.len() == 0 {
        name.len() == 0
    } else {
        match filter[0] {
            TopicLevelModel::MultiLevelWildcard => true,
            TopicLevelModel::SingleLevelWildcard => name.len() > 0 && levels_match(
                filter.drop_first(),
                name.drop_first(),
            ),
            TopicLevelModel::Literal(bytes) => name.len() > 0 && name[0] == bytes && levels_match(
                filter.drop_first(),
                name.drop_first(),
            ),
        }
    }
}

/// Whether a level is a wildcard.
pub open spec fn is_wildcard(level: TopicLevelModel) -> bool {
    !(level is Literal)
}

/// Whether a filter matches a topic name: the levels match, and a name reserved by the server
/// is not matched by a filter that starts with a wildcard.
pub open spec fn filter_matches(f: TopicFilterModel, name: crate::model::components::topic_name::TopicNameModel) -> bool {
    &&& !(name.server_reserved && f.levels.len() > 0 && is_wildcard(f.levels[0]))
    &&& levels_match(f.levels, name.levels)
}

impl TopicFilter {
    pub fn new(levels: Vec<TopicLevel>, server_reserved: bool) -> (f: Self)
        ensures
            f@ == (TopicFilterModel { levels: levels@.map_values(|level: TopicLevel| level@), server_reserved }),
    {
        Self { levels, server_reserved }
    }

    /// Converts a stream of bytes into a TopicFilter.
    pub fn from_bytes(stream: &mut ByteStream) -> (result: MqttResult<Self>)
        ensures
            match decode_topic_filter(old(stream)@) {
                Ok((f, rest)) => result matches Ok(tf) && tf@ == f && final(stream)@ == rest,
                Err(e) => result matches Err(err) && err@ == e && is_suffix(final(stream)@, old(stream)@),
            },
    {
        let ghost s = stream@;
        let encoded_string_topic_filter = EncodedString::from_bytes(stream)?;
        let bytes = encoded_string_topic_filter.content();
        proof {
            let length = encoded_string_topic_filter@.length;
            crate::stream::lemma_suffix_skip(s, 2 + length);
        }

        if bytes.len() == 0 {
            return Err(MqttError::InvalidTopicName);
        }

        let server_reserved = bytes[0] == SERVER_RESERVED;

        let levels_bytes = split_on(bytes.as_slice(), FORWARD_SLASH);
        let ghost all = byte_seqs(levels_bytes@);
        let ghost es_model = encoded_string_topic_filter@;

        let mut levels: Vec<TopicLevel> = Vec::new();
        let mut i: usize = 0;
        assert(all.take(0) =~= Seq::<Seq<u8>>::empty());
        assert(levels@.map_values(|level: TopicLevel| level@) =~= Seq::<TopicLevelModel>::empty());
        while i < levels_bytes.len()
            invariant
                i <= levels_bytes.len(),
                all == byte_seqs(levels_bytes@),
                all == split_bytes(bytes@, FORWARD_SLASH),
                filter_levels_of(all.take(i as int)) == Ok::<Seq<TopicLevelModel>, MqttErrorModel>(
                    levels@.map_values(|level: TopicLevel| level@),
                ),
                is_suffix(stream@, s),
                s == old(stream)@,
                decode_encoded_string(s) == Ok::<(EncodedStringModel, Seq<u8>), MqttErrorModel>((es_model, stream@)),
                es_model.content == bytes@,
                bytes@.len() > 0,
                server_reserved == (bytes@[0] == SERVER_RESERVED),
            decreases levels_bytes.len() - i,
        {
            let level = vstd::slice::slice_to_vec(levels_bytes[i].as_slice());
            assert(all.take(i + 1).drop_last() =~= all.take(i as int));
            assert(all.take(i + 1).last() == level@);
            let topic_level = match TopicLevel::from_bytes(level) {
                Ok(topic_level) => topic_level,
                Err(e) => {
                    proof {
                        lemma_filter_levels_prefix(all, i as int + 1);
                    }
                    return Err(e);
                },
            };
            let ghost prev = levels@;
            levels.push(topic_level);
            assert(levels@.map_values(|level: TopicLevel| level@) =~= prev.map_values(|level: TopicLevel| level@).push(topic_level@));
            i = i + 1;
        }
        assert(all.take(i as int) =~= all);

        Ok(Self { levels, server_reserved })
    }

    /// Converts the TopicFilter into a vector of bytes.
    pub fn to_bytes(&self) -> (bytes: Vec<u8>)
        ensures
            bytes@ == encode_topic_filter(self@),
    {
        let mut pieces: Vec<Vec<u8>> = Vec::new();
        let mut i: usize = 0;
        while i < self.levels.len()
            invariant
                i <= self.levels.len(),
                pieces@.len() == i,
                forall|j: int| 0 <= j < i ==> #[trigger] pieces@[j]@ == topic_level_bytes(self.levels@[j]@),
            decreases self.levels.len() - i,
        {
            pieces.push(self.levels[i].to_bytes());
            i = i + 1;
        }
        let ghost texts = self@.levels.map_values(|level: TopicLevelModel| topic_level_bytes(level));
        assert(byte_seqs(pieces@) =~= texts);
        let topic_bytes = join_on(&pieces, FORWARD_SLASH);
        EncodedString::new(topic_bytes).to_bytes()
    }

    /// Returns the length of the TopicFilter in bytes.
    pub fn length(&self) -> (n: usize)
        ensures
            n == encode_topic_filter(self@).len(),
    {
        self.to_bytes().len()
    }

    /// Returns the levels of the filter.
    pub fn levels(&self) -> (levels: &Vec<TopicLevel>)
        ensures
            levels@.map_values(|level: TopicLevel| level@) == self@.levels,
    {
        &self.levels
    }

    /// Returns whether the filter starts with `$`.
    pub fn server_reserved(&self) -> (reserved: bool)
        ensures
            reserved == self@.server_reserved,
    {
        self.server_reserved
    }

    /// Whether two filters are the same filter: the same levels, equally reserved.
    pub fn same_as(&self, other: &TopicFilter) -> (same: bool)
        ensures
            same == (self@ == other@),
    {
        if self.server_reserved != other.server_reserved || self.levels.len() != other.levels.len() {
            proof {
                if self@ == other@ {
                    assert(self@.levels.len() == other@.levels.len());
                }
            }
            return false;
        }
        let mut i: usize = 0;
        while i < self.levels.len()
            invariant
                i <= self.levels.len(),
                self.levels.len() == other.levels.len(),
                forall|j: int| 0 <= j < i ==> self.levels@[j]@ == other.levels@[j]@,
            decreases self.levels.len() - i,
        {
            if !self.levels[i].same_as(&other.levels[i]) {
                proof {
                    if self@ == other@ {
                        assert(self@.levels[i as int] == other@.levels[i as int]);
                    }
                }
                return false;
            }
            i = i + 1;
        }
        assert(self@.levels =~= other@.levels);
        true
    }

    /// The levels, each made into text, joined by slashes.
    pub fn serialize(&self) -> (text: String)
        ensures
            text@ == join_chars(self@.levels.map_values(|level: TopicLevelModel| utf8_lossy(topic_level_bytes(level))), "/"@),
    {
        let ghost texts = self@.levels.map_values(|level: TopicLevelModel| utf8_lossy(topic_level_bytes(level)));
        let mut text = String::new();
        let mut i: usize = 0;
        proof {
            reveal_strlit("/");
        }
        while i < self.levels.len()
            invariant
                i <= self.levels.len(),
                texts == self@.levels.map_values(|level: TopicLevelModel| utf8_lossy(topic_level_bytes(level))),
                texts.len() == self.levels.len(),
                text@ == join_chars(texts.take(i as int), "/"@),
                "/"@ == seq!['/'],
            decreases self.levels.len() - i,
        {
            let ghost next = texts.take(i + 1);
            assert(next.drop_last() =~= texts.take(i as int));
            if i > 0 {
                text.append("/");
            }
            let level_bytes = self.levels[i].to_bytes();
            let level_text = lossy_string(level_bytes.as_slice());
            assert(level_text@ == texts[i as int]);
            text.append(level_text.as_str());
            i = i + 1;
            assert(text@ =~= join_chars(next, "/"@));
        }
        assert(texts.take(i as int) =~= texts);
        text
    }

    /// Returns whether the filter matches the topic name.
    pub fn match_topic_name(&self, topic_name: TopicName) -> (matches: bool)
        ensures
            matches == filter_matches(self@, topic_name@),
    {
        let name_levels = topic_name.levels();
        let ghost filter = self@.levels;
        let ghost name = topic_name@.levels;
        if topic_name.server_reserved() && self.levels.len() > 0 {
            assert(self@.levels[0] == self.levels@[0]@);
            match &self.levels[0] {
                TopicLevel::Literal(_) => {},
                _ => {
                    return false;
                },
            }
        }
        let mut i: usize = 0;
        assert(filter.skip(0) =~= filter);
        assert(name.skip(0) =~= name);
        while i < self.levels.len()
            invariant
                i <= self.levels.len(),
                i <= name_levels.len(),
                filter == self@.levels,
                name == byte_seqs(name_levels@),
                filter.len() == self.levels.len(),
                name == topic_name@.levels,
                name.len() == name_levels.len(),
                !(topic_name@.server_reserved && filter.len() > 0 && is_wildcard(filter[0])),
                levels_match(filter, name) == levels_match(filter.skip(i as int), name.skip(i as int)),
            decreases self.levels.len() - i,
        {
            assert(filter.skip(i as int)[0] == self.levels@[i as int]@);
            assert(filter.skip(i as int).drop_first() =~= filter.skip(i + 1));
            match &self.levels[i] {
                TopicLevel::MultiLevelWildcard => {
                    return true;
                },
                TopicLevel::SingleLevelWildcard => {
                    if i >= name_levels.len() {
                        return false;
                    }
                    assert(name.skip(i as int).drop_first() =~= name.skip(i + 1));
                },
                TopicLevel::Literal(bytes) => {
                    if i >= name_levels.len() {
                        return false;
                    }
                    assert(name.skip(i as int).drop_first() =~= name.skip(i + 1));
                    assert(name.skip(i as int)[0] == name_levels@[i as int]@);
                    if !bytes_equal(bytes.as_slice(), name_levels[i].as_slice()) {
                        return false;
                    }
                },
            }
            i = i + 1;
        }
        assert(filter.skip(i as int).len() == 0);
        i == name_levels.len()
    }
}

impl Clone for TopicFilter {
    fn clone(&self) -> (copy: TopicFilter)
        ensures
            copy@ == self@,
    {
        let mut levels: Vec<TopicLevel> = Vec::new();
        let mut i: usize = 0;
        while i < self.levels.len()
            invariant
                i <= self.levels.len(),
                levels@.len() == i,
                forall|j: int| 0 <= j < i ==> #[trigger] levels@[j]@ == self.levels@[j]@,
            decreases self.levels.len() - i,
        {
            levels.push(self.levels[i].clone());
            i = i + 1;
        }
        let copy = TopicFilter { levels, server_reserved: self.server_reserved };
        assert(copy@.levels =~= self@.levels);
        copy
    }
}

/// A topic filter as reading yields one: at least one level, each well formed and free of
/// slashes, a non-empty text short enough for an encoded string, reserved exactly when it
/// starts with `$`.
pub open spec fn topic_filter_wf(f: TopicFilterModel) -> bool {
    let content = topic_filter_content(f);
    &&& f.levels.len() >= 1
    &&& forall|i: int|
        #![trigger f.levels[i]]
        0 <= i < f.levels.len() ==> crate::model::components::topic_level::topic_level_wf(f.levels[i])
            && !topic_level_bytes(f.levels[i]).contains(FORWARD_SLASH)
    &&& 1 <= content.len() <= u16::MAX
    &&& f.server_reserved == (content[0] == SERVER_RESERVED)
}

/// Reading the bytes of well-formed levels gives the levels back.
proof fn lemma_filter_levels_roundtrip(levels: Seq<TopicLevelModel>)
    requires
        forall|i: int|
            #![trigger levels[i]]
            0 <= i < levels.len() ==> crate::model::components::topic_level::topic_level_wf(levels[i]),
    ensures
        filter_levels_of(levels.map_values(|level: TopicLevelModel| topic_level_bytes(level)))
            == Ok::<Seq<TopicLevelModel>, MqttErrorModel>(levels),
    decreases levels.len(),
{
    let pieces = levels.map_values(|level: TopicLevelModel| topic_level_bytes(level));
    if levels.len() > 0 {
        lemma_filter_levels_roundtrip(levels.drop_last());
        assert(pieces.drop_last() =~= levels.drop_last().map_values(|level: TopicLevelModel| topic_level_bytes(level)));
        assert(levels.last() == levels[levels.len() - 1]);
        crate::model::components::topic_level::lemma_topic_level_roundtrip(Seq::<u8>::empty(), levels.last());
        assert(levels.drop_last().push(levels.last()) =~= levels);
    } else {
        assert(levels =~= Seq::<TopicLevelModel>::empty());
    }
}

/// Reading back the bytes of a well-formed topic filter gives it back, and leaves the bytes
/// that follow.
pub proof fn lemma_topic_filter_roundtrip(f: TopicFilterModel, rest: Seq<u8>)
    requires
        topic_filter_wf(f),
    ensures
        decode_topic_filter(encode_topic_filter(f) + rest) == Ok::<(TopicFilterModel, Seq<u8>), MqttErrorModel>((f, rest)),
{
    let pieces = f.levels.map_values(|level: TopicLevelModel| topic_level_bytes(level));
    let content = topic_filter_content(f);
    crate::model::components::encoded_string::lemma_encoded_string_roundtrip(encoded_string_of(content), rest);
    assert forall|i: int| 0 <= i < pieces.len() implies !(#[trigger] pieces[i]).contains(FORWARD_SLASH) by {
        assert(pieces[i] == topic_level_bytes(f.levels[i]));
    }
    crate::bytes::lemma_split_join(pieces, FORWARD_SLASH);
    lemma_filter_levels_roundtrip(f.levels);
    assert(f == TopicFilterModel { levels: f.levels, server_reserved: content[0] == SERVER_RESERVED });
}

/// When the pieces before `k - 1` are read and piece `k - 1` is refused, reading all the
/// pieces fails with that piece's error.
proof fn lemma_filter_levels_prefix(pieces: Seq<Seq<u8>>, k: int)
    requires
        1 <= k <= pieces.len(),
        filter_levels_of(pieces.take(k - 1)) is Ok,
        topic_level_of_bytes(pieces[k - 1]) is Err,
    ensures
        filter_levels_of(pieces) == match topic_level_of_bytes(pieces[k - 1]) {
            Err(e) => Err::<Seq<TopicLevelModel>, MqttErrorModel>(e),
            Ok(_) => Ok(Seq::<TopicLevelModel>::empty()),
        },
    decreases pieces.len(),
{
    if k < pieces.len() {
        assert(pieces.drop_last().take(k - 1) =~= pieces.take(k - 1));
        assert(pieces.drop_last()[k - 1] == pieces[k - 1]);
        lemma_filter_levels_prefix(pieces.drop_last(), k);
    } else {
        assert(pieces.drop_last() =~= pieces.take(k - 1));
    }
}

/// A filter level without a multi-level wildcard fits a topic level: a single-level wildcard
/// fits any level, a literal only the level equal to it, byte for byte.
pub open spec fn level_fits(level: TopicLevelModel, name_level: Seq<u8>) -> bool {
    level is SingleLevelWildcard || level == TopicLevelModel::Literal(name_level)
}

/// Filter levels without a multi-level wildcard match the levels of a name exactly when there
/// are as many of both and each filter level fits the name level in its place: a literal level
/// matches only the identical level, a single-level wildcard exactly one level.
pub proof fn lemma_levels_match_without_multi_level(filter: Seq<TopicLevelModel>, name: Seq<Seq<u8>>)
    requires
        forall|i: int| 0 <= i < filter.len() ==> !(#[trigger] filter[i] is MultiLevelWildcard),
    ensures
        levels_match(filter, name) <==> (name.len() == filter.len() && forall|i: int|
            0 <= i < filter.len() ==> #[trigger] level_fits(filter[i], name[i])),
    decreases filter.len(),
{
    if filter.len() > 0 {
        let fd = filter.drop_first();
        let nd = name.drop_first();
        assert forall|i: int| 0 <= i < fd.len() implies !(#[trigger] fd[i] is MultiLevelWildcard) by {
            assert(fd[i] == filter[i + 1]);
        }
        lemma_levels_match_without_multi_level(fd, nd);
        assert(!(filter[0] is MultiLevelWildcard));
        if name.len() == filter.len() && forall|i: int| 0 <= i < filter.len() ==> #[trigger] level_fits(filter[i], name[i]) {
            assert(level_fits(filter[0], name[0]));
            assert forall|i: int| 0 <= i < fd.len() implies #[trigger] level_fits(fd[i], nd[i]) by {
                assert(level_fits(filter[i + 1], name[i + 1]));
            }
        }
        if levels_match(filter, name) {
            assert(name.len() > 0);
            assert(level_fits(filter[0], name[0]));
            assert forall|i: int| 0 <= i < filter.len() implies #[trigger] level_fits(filter[i], name[i]) by {
                if i > 0 {
                    assert(level_fits(fd[i - 1], nd[i - 1]));
                }
            }
        }
    }
}

/// A filter ending in a multi-level wildcard, with no other before it, matches the levels of a
/// name exactly when the name has at least the levels before the wildcard and those fit them.
pub proof fn lemma_levels_match_multi_level_tail(prefix: Seq<TopicLevelModel>, name: Seq<Seq<u8>>)
    requires
        forall|i: int| 0 <= i < prefix.len() ==> !(#[trigger] prefix[i] is MultiLevelWildcard),
    ensures
        levels_match(prefix.push(TopicLevelModel::MultiLevelWildcard), name) <==> (name.len() >= prefix.len()
            && forall|i: int| 0 <= i < prefix.len() ==> #[trigger] level_fits(prefix[i], name[i])),
    decreases prefix.len(),
{
    let filter = prefix.push(TopicLevelModel::MultiLevelWildcard);
    if prefix.len() > 0 {
        let pd = prefix.drop_first();
        let nd = name.drop_first();
        assert(filter.drop_first() =~= pd.push(TopicLevelModel::MultiLevelWildcard));
        assert(filter[0] == prefix[0]);
        assert forall|i: int| 0 <= i < pd.len() implies !(#[trigger] pd[i] is MultiLevelWildcard) by {
            assert(pd[i] == prefix[i + 1]);
        }
        lemma_levels_match_multi_level_tail(pd, nd);
        assert(!(prefix[0] is MultiLevelWildcard));
        if name.len() >= prefix.len() && forall|i: int| 0 <= i < prefix.len() ==> #[trigger] level_fits(prefix[i], name[i]) {
            assert(level_fits(prefix[0], name[0]));
            assert forall|i: int| 0 <= i < pd.len() implies #[trigger] level_fits(pd[i], nd[i]) by {
                assert(level_fits(prefix[i + 1], name[i + 1]));
            }
        }
        if levels_match(filter, name) {
            assert(name.len() > 0);
            assert(level_fits(prefix[0], name[0]));
            assert forall|i: int| 0 <= i < prefix.len() implies #[trigger] level_fits(prefix[i], name[i]) by {
                if i > 0 {
                    assert(level_fits(pd[i - 1], nd[i - 1]));
                }
            }
        }
    } else {
        assert(filter[0] is MultiLevelWildcard);
    }
}

/// A filter of literal levels only matches a topic name exactly when the name has the same
/// levels, byte for byte: a literal level never matches a different level, whatever its length.
pub proof fn lemma_literal_filter_matches_exactly(f: TopicFilterModel, name: crate::model::components::topic_name::TopicNameModel)
    requires
        forall|i: int| 0 <= i < f.levels.len() ==> #[trigger] f.levels[i] is Literal,
    ensures
        filter_matches(f, name) <==> (name.levels.len() == f.levels.len() && forall|i: int|
            0 <= i < f.levels.len() ==> #[trigger] f.levels[i] == TopicLevelModel::Literal(name.levels[i])),
{
    assert forall|i: int| 0 <= i < f.levels.len() implies !(#[trigger] f.levels[i] is MultiLevelWildcard) by {
        assert(f.levels[i] is Literal);
    }
    lemma_levels_match_without_multi_level(f.levels, name.levels);
    if f.levels.len() > 0 {
        assert(f.levels[0] is Literal);
    }
    assert forall|i: int| 0 <= i < f.levels.len() implies (#[trigger] level_fits(f.levels[i], name.levels[i]) <==> f.levels[i]
        == TopicLevelModel::Literal(name.levels[i])) by {
        assert(f.levels[i] is Literal);
    }
    if name.levels.len() == f.levels.len() && forall|i: int| 0 <= i < f.levels.len() ==> #[trigger] f.levels[i]
        == TopicLevelModel::Literal(name.levels[i]) {
        assert forall|i: int| 0 <= i < f.levels.len() implies #[trigger] level_fits(f.levels[i], name.levels[i]) by {
            assert(f.levels[i] == TopicLevelModel::Literal(name.levels[i]));
        }
    }
    if filter_matches(f, name) {
        assert forall|i: int| 0 <= i < f.levels.len() implies #[trigger] f.levels[i] == TopicLevelModel::Literal(name.levels[i]) by {
            assert(level_fits(f.levels[i], name.levels[i]));
        }
    }
}

/// A topic reserved by the server is never matched by a filter whose first level is a
/// wildcard; a filter whose first level is a literal matches it as it would any other name.
pub proof fn lemma_reserved_name_needs_literal_start(f: TopicFilterModel, name: crate::model::components::topic_name::TopicNameModel)
    requires
        name.server_reserved,
    ensures
        f.levels.len() > 0 && (f.levels[0] is SingleLevelWildcard || f.levels[0] is MultiLevelWildcard) ==> !filter_matches(f, name),
        f.levels.len() > 0 && f.levels[0] is Literal ==> (filter_matches(f, name) <==> levels_match(f.levels, name.levels)),
{
}

} // verus!
