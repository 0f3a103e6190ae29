use vstd::prelude::*;

use crate::errors::error::{MqttError, MqttErrorModel, MqttResult};
use crate::stream::{is_suffix, ByteStream};

verus! {

/// The multiplier of the fourth and last byte of a remaining length.
pub const MAX_MULTIPLIER: u32 = 2097152;

/// The largest value a remaining length can hold: 268,435,455, four bytes of seven bits.
pub const MAX_LENGTH: u32 = 268435455;

/// Represents the remaining length of an MQTT packet.
///
/// Its view is the length as a natural number.
#[derive(Debug, PartialEq)]
pub struct RemainingLength {
    value: u32,
}

impl View for RemainingLength {
    type V = nat;

    closed spec fn view(&self) -> nat {
        self.value as nat
    }
}

/// The variable-length encoding of `v`: seven bits per byte, least significant group first,
/// the high bit of each byte set when another byte follows.
pub open spec fn encode_remaining_length(v: nat) -> Seq<u8>
    decreases v,
{
    if v < 128 {
        seq![v as u8]
    } else {
        seq![(v % 128 + 128) as u8] + encode_remaining_length(v / 128)
    }
}

/// Decoding a remaining length from the front of `s`: one to four bytes are accepted,
/// each carrying seven bits of the value, least significant group first, with the high bit
/// set when another byte follows. A fourth byte that announces a fifth is refused; a stream
/// that ends early fails with an I/O error. On success, the value and the bytes after the
/// encoding.
pub open spec fn decode_remaining_length(s: Seq<u8>) -> Result<(nat, Seq<u8>), MqttErrorModel> {
    if s.len() < 1 {
        Err(MqttErrorModel::IoError)
    } else if s[0] < 128 {
        Ok((s[0] as nat, s.skip(1)))
    } else if s.len() < 2 {
        Err(MqttErrorModel::IoError)
    } else if s[1] < 128 {
        Ok((((s[0] - 128) + 128 * s[1]) as nat, s.skip(2)))
    } else if s.len() < 3 {
        Err(MqttErrorModel::IoError)
    } else if s[2] < 128 {
        Ok((((s[0] - 128) + 128 * (s[1] - 128) + 16384 * s[2]) as nat, s.skip(3)))
    } else if s.len() < 4 {
        Err(MqttErrorModel::IoError)
    } else if s[3] < 128 {
        Ok((((s[0] - 128) + 128 * (s[1] - 128) + 16384 * (s[2] - 128) + 2097152 * s[3]) as nat, s.skip(4)))
    } else {
        Err(MqttErrorModel::InvalidRemainingLength)
    }
}

/// The value of the first `k` bytes of an encoding whose bytes all carry the continuation bit.
spec fn prefix_value(s: Seq<u8>, k: int) -> nat {
    if k <= 0 {
        0
    } else if k == 1 {
        (s[0] % 128) as nat
    } else if k == 2 {
        (s[0] % 128 + 128 * (s[1] % 128)) as nat
    } else {
        (s[0] % 128 + 128 * (s[1] % 128) + 16384 * (s[2] % 128)) as nat
    }
}

impl RemainingLength {
    #[verifier::type_invariant]
    spec fn bounded(self) -> bool {
        self.value <= MAX_LENGTH
    }

    /// Creates a remaining length; values above [`MAX_LENGTH`] are clamped to it.
    pub fn new(length: u32) -> (rl: RemainingLength)
        ensures
            rl@ == if length > MAX_LENGTH { MAX_LENGTH as nat } else { length as nat },
    {
        if length > MAX_LENGTH {
            return RemainingLength { value: MAX_LENGTH };
        }
        RemainingLength { value: length }
    }

    /// Calculates the remaining length of an MQTT packet from a byte stream.
    pub fn from_bytes(stream: &mut ByteStream) -> (result: MqttResult<RemainingLength>)
        ensures
            match decode_remaining_length(old(stream)@) {
                Ok((v, rest)) => result matches Ok(rl) && rl@ == v && final(stream)@ == rest,
                Err(e) => result matches Err(err) && err@ == e && is_suffix(final(stream)@, old(stream)@),
            },
    {
        let ghost s = stream@;
        let ghost mut k: int = 0;
        let mut multiplier: u32 = 1;
        let mut value: u32 = 0;

        loop
            invariant
                0 <= k <= 3,
                s == old(stream)@,
                s.len() >= k,
                stream@ == s.skip(k),
                forall|i: int| 0 <= i < k ==> s[i] >= 128,
                multiplier == if k == 0 { 1u32 } else if k == 1 { 128u32 } else if k == 2 { 16384u32 } else { 2097152u32 },
                value == prefix_value(s, k),
            decreases 4 - k,
        {
            let ghost before = stream@;
            let byte = match stream.read_u8() {
                Ok(byte) => byte,
                Err(e) => {
                    proof {
                        assert(s.len() == k);
                        assert(decode_remaining_length(s) == Err::<(nat, Seq<u8>), MqttErrorModel>(MqttErrorModel::IoError));
                        assert(s.skip(k) =~= s.subrange(s.len() - s.skip(k).len(), s.len() as int));
                        assert(is_suffix(stream@, s));
                        assert(e@ == MqttErrorModel::IoError);
                        assert(old(stream)@ == s);
                    }
                    return Err(e);
                },
            };
            assert(byte == s[k]);
            assert(byte & 127 == byte % 128) by (bit_vector);
            assert((byte & 128 == 0) == (byte < 128)) by (bit_vector);
            value = value + (byte & 127) as u32 * multiplier;
            proof {
                assert(stream@ =~= s.skip(k + 1));
            }

            if byte & 128 == 0 {
                proof {
                    assert(old(stream)@ == s);
                    if k >= 1 { assert(s[0] % 128 == s[0] - 128); }
                    if k >= 2 { assert(s[1] % 128 == s[1] - 128); }
                    if k >= 3 { assert(s[2] % 128 == s[2] - 128); }
                    assert(byte % 128 == byte);
                    assert(value <= MAX_LENGTH);
                }
                return Ok(RemainingLength { value });
            }

            if multiplier == MAX_MULTIPLIER {
                proof {
                    assert(s.skip(k + 1) =~= s.subrange(s.len() - s.skip(k + 1).len(), s.len() as int));
                    assert(is_suffix(stream@, s));
                    assert(k == 3);
                    assert(decode_remaining_length(s) == Err::<(nat, Seq<u8>), MqttErrorModel>(MqttErrorModel::InvalidRemainingLength));
                }
                return Err(MqttError::InvalidRemainingLength);
            }
            multiplier = multiplier * 128;
            proof {
                k = k + 1;
            }
        }
    }

    /// Converts the remaining length of an MQTT packet into a byte vector.
    pub fn to_bytes(&self) -> (bytes: Vec<u8>)
        ensures
            bytes@ == encode_remaining_length(self@),
    {
        let mut bytes = vec![];
        let mut length = self.value;
        loop
            invariant_except_break
                bytes@ + encode_remaining_length(length as nat) == encode_remaining_length(self@),
            ensures
                bytes@ == encode_remaining_length(self@),
            decreases length,
        {
            let ghost prev = bytes@;
            let ghost current = length as nat;
            let mut byte = length % 128;
            length = length / 128;
            if length > 0 {
                assert(byte | 128 == byte + 128) by (bit_vector)
                    requires
                        byte < 128,
                ;
                byte = byte | 128;
            }
            bytes.push(byte as u8);
            if length == 0 {
                assert(encode_remaining_length(current) == seq![current as u8]);
                assert(bytes@ =~= prev + encode_remaining_length(current));
                break;
            }
            assert(encode_remaining_length(current) == seq![(current % 128 + 128) as u8] + encode_remaining_length(length as nat));
            assert(bytes@ + encode_remaining_length(length as nat) =~= prev + encode_remaining_length(current));
        }
        bytes
    }

    /// Returns the value of the remaining length.
    pub fn value(&self) -> (v: usize)
        ensures
            v == self@,
            v <= MAX_LENGTH,
    {
        proof {
            use_type_invariant(self);
        }
        self.value as usize
    }

    /// Returns the length of the byte vector that represents the remaining length.
    pub fn length(&self) -> (n: usize)
        ensures
            n == encode_remaining_length(self@).len(),
    {
        let mut length: usize = 0;
        let mut value = self.value;
        proof {
            lemma_encode_remaining_length_len_bound(self@);
        }
        loop
            invariant_except_break
                length + encode_remaining_length(value as nat).len() == encode_remaining_length(self@).len(),
                encode_remaining_length(self@).len() <= 5,
            ensures
                length == encode_remaining_length(self@).len(),
            decreases value,
        {
            let ghost current = value as nat;
            value = value / 128;
            length = length + 1;
            if value == 0 {
                break;
            }
            assert(encode_remaining_length(current) == seq![(current % 128 + 128) as u8] + encode_remaining_length(value as nat));
        }
        length
    }
}

/// Every encoding takes at least one byte, and a `u32` takes at most five.
pub proof fn lemma_encode_remaining_length_len_bound(v: nat)
    ensures
        1 <= encode_remaining_length(v).len(),
        v <= u32::MAX ==> encode_remaining_length(v).len() <= 5,
{
    reveal_with_fuel(encode_remaining_length, 6);
}

/// Decoding the encoding of a remaining length gives the length back, and leaves the bytes
/// that follow the encoding, for every length up to the largest, [`MAX_LENGTH`].
pub proof fn lemma_remaining_length_roundtrip(v: nat, rest: Seq<u8>)
    requires
        v <= MAX_LENGTH,
    ensures
        decode_remaining_length(encode_remaining_length(v) + rest) == Ok::<(nat, Seq<u8>), MqttErrorModel>((v, rest)),
{
    let s = encode_remaining_length(v) + rest;
    if v < 128 {
        assert(s.skip(1) =~= rest);
    } else if v < 16384 {
        let q = v / 128;
        assert(encode_remaining_length(q) == seq![q as u8]);
        assert(encode_remaining_length(v) == seq![(v % 128 + 128) as u8] + seq![q as u8]);
        assert(s.skip(2) =~= rest);
        assert(s[0] - 128 + 128 * s[1] == v);
    } else if v < 2097152 {
        let q = v / 128;
        let r = q / 128;
        assert(r < 128);
        assert(encode_remaining_length(r) == seq![r as u8]);
        assert(encode_remaining_length(q) == seq![(q % 128 + 128) as u8] + seq![r as u8]);
        assert(encode_remaining_length(v) == seq![(v % 128 + 128) as u8] + encode_remaining_length(q));
        assert(s.skip(3) =~= rest);
        assert(s[0] == v % 128 + 128);
        assert(s[1] == q % 128 + 128);
        assert(s[2] == r);
        assert(v == v % 128 + 128 * (q % 128) + 16384 * r) by (nonlinear_arith)
            requires
                q == v / 128,
                r == q / 128,
        ;
    } else {
        let q = v / 128;
        let r = q / 128;
        let t = r / 128;
        assert(t < 128);
        assert(encode_remaining_length(t) == seq![t as u8]);
        assert(encode_remaining_length(r) == seq![(r % 128 + 128) as u8] + seq![t as u8]);
        assert(encode_remaining_length(q) == seq![(q % 128 + 128) as u8] + encode_remaining_length(r));
        assert(encode_remaining_length(v) == seq![(v % 128 + 128) as u8] + encode_remaining_length(q));
        assert(s.skip(4) =~= rest);
        assert(s[0] == v % 128 + 128);
        assert(s[1] == q % 128 + 128);
        assert(s[2] == r % 128 + 128);
        assert(s[3] == t);
        assert(v == v % 128 + 128 * (q % 128) + 16384 * (r % 128) + 2097152 * t) by (nonlinear_arith)
            requires
                q == v / 128,
                r == q / 128,
                t == r / 128,
        ;
    }
}

} // verus!
