use vstd::prelude::*;

use crate::errors::error::{MqttErrorModel, MqttResult};
use crate::stream::{be_bytes, be_u16, is_suffix, u16_to_be, ByteStream};

verus! {

const LENGTH_SIZE: usize = 2;

/// Represents an encoded string. Contains the length of the string and the content in a byte vector.
#[derive(Debug, PartialEq)]
pub struct EncodedString {
    length: u16,
    content: Vec<u8>,
}

/// The value of an [`EncodedString`]: the length it declares and its content.
#[verifier::ext_equal]
pub struct EncodedStringModel {
    pub length: u16,
    pub content: Seq<u8>,
}

impl View for EncodedString {
    type V = EncodedStringModel;

    closed spec fn view(&self) -> EncodedStringModel {
        EncodedStringModel { length: self.length, content: self.content@ }
    }
}

/// The encoded string holding `content`, whose declared length is that of the content, cut to 16 bits.
pub open spec fn encoded_string_of(content: Seq<u8>) -> EncodedStringModel {
    EncodedStringModel { length: content.len() as u16, content }
}

/// An encoded string is well formed when its declared length is the length of its content.
pub open spec fn encoded_string_wf(m: EncodedStringModel) -> bool {
    m.length == m.content.len()
}

/// The bytes of an encoded string: its declared length (big-endian, two bytes) then its content.
pub open spec fn encode_encoded_string(m: EncodedStringModel) -> Seq<u8> {
    be_bytes(m.length) + m.content
}

/// Reading an encoded string from the front of `s`: two bytes of length, big-endian, then as
/// many bytes of content. Fails with an I/O error when `s` is too short.
pub open spec fn decode_encoded_string(s: Seq<u8>) -> Result<(EncodedStringModel, Seq<u8>), MqttErrorModel> {
    if s.len() < 2 {
        Err(MqttErrorModel::IoError)
    } else {
        let length = be_u16(s[0], s[1]);
        if s.len() < 2 + length {
            Err(MqttErrorModel::IoError)
        } else {
            Ok((EncodedStringModel { length, content: s.subrange(2, 2 + length) }, s.skip(2 + length)))
        }
    }
}

impl EncodedString {
    pub fn new(content: Vec<u8>) -> (es: Self)
        ensures
            es@ == encoded_string_of(content@),
    {
        Self { length: content.len() as u16, content }
    }

    /// Converts a byte stream into an EncodedString.
    pub fn from_bytes(stream: &mut ByteStream) -> (result: MqttResult<Self>)
        ensures
            match decode_encoded_string(old(stream)@) {
                Ok((m, rest)) => result matches Ok(es) && es@ == m && final(stream)@ == rest,
                Err(e) => result matches Err(err) && err@ == e,
            },
            is_suffix(final(stream)@, old(stream)@),
    {
        let ghost s = stream@;
        let length = match stream.read_u16() {
            Ok(length) => length,
            Err(e) => {
                proof {
                    crate::stream::lemma_suffix_refl(s);
                }
                return Err(e);
            },
        };
        let ghost after_length = stream@;
        let content = match stream.read_exact(length as usize) {
            Ok(content) => content,
            Err(e) => {
                proof {
                    crate::stream::lemma_suffix_skip(s, 2);
                }
                return Err(e);
            },
        };
        assert(content@ =~= s.subrange(2, 2 + length));
        assert(stream@ =~= s.skip(2 + length));
        proof {
            crate::stream::lemma_suffix_skip(s, 2 + length);
        }
        Ok(Self { length, content })
    }

    /// Converts a string into an EncodedString.
    pub fn from_string(string: &String) -> (es: Self)
        ensures
            es@ == encoded_string_of(vstd::utf8::encode_utf8(string@)),
    {
        let bytes = string.as_str().as_bytes();
        let length = bytes.len() as u16;
        let content = vstd::slice::slice_to_vec(bytes);

        Self { length, content }
    }

    /// Converts the EncodedString into a byte vector.
    pub fn to_bytes(&self) -> (bytes: Vec<u8>)
        ensures
            bytes@ == encode_encoded_string(self@),
    {
        let mut bytes = u16_to_be(self.length);
        let mut i: usize = 0;
        while i < self.content.len()
            invariant
                i <= self.content.len(),
                bytes@ == be_bytes(self.length) + self.content@.take(i as int),
            decreases self.content.len() - i,
        {
            bytes.push(self.content[i]);
            i = i + 1;
            assert(bytes@ =~= be_bytes(self.length) + self.content@.take(i as int));
        }
        assert(self.content@.take(i as int) =~= self.content@);
        bytes
    }

    /// Returns the length of the EncodedString.
    pub fn length(&self) -> (n: usize)
        ensures
            n == 2 + self@.length,
    {
        LENGTH_SIZE + self.length as usize
    }

    /// Returns the content of the EncodedString.
    pub fn content(&self) -> (content: &Vec<u8>)
        ensures
            content@ == self@.content,
    {
        &self.content
    }
}

/// Reading back the bytes of a well-formed encoded string gives it back, and leaves the bytes that follow.
pub proof fn lemma_encoded_string_roundtrip(m: EncodedStringModel, rest: Seq<u8>)
    requires
        encoded_string_wf(m),
    ensures
        decode_encoded_string(encode_encoded_string(m) + rest) == Ok::<(EncodedStringModel, Seq<u8>), MqttErrorModel>((m, rest)),
{
    let s = encode_encoded_string(m) + rest;
    crate::stream::lemma_be_u16_roundtrip(m.length);
    assert(s[0] == be_bytes(m.length)[0]);
    assert(s[1] == be_bytes(m.length)[1]);
    assert(s.subrange(2, 2 + m.length) =~= m.content);
    assert(s.skip(2 + m.length) =~= rest);
}

} // verus!
