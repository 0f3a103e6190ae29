use vstd::prelude::*;

use crate::errors::error::{MqttError, MqttResult};

verus! {

/// A stream of bytes held in memory, read from the front.
///
/// Its view is the sequence of bytes that have not been read yet.
pub struct ByteStream {
    bytes: Vec<u8>,
    position: usize,
}

impl View for ByteStream {
    type V = Seq<u8>;

    closed spec fn view(&self) -> Seq<u8> {
        self.bytes@.subrange(self.position as int, self.bytes@.len() as int)
    }
}

/// `rest` is what remains of `s` after some bytes were read from its front.
pub open spec fn is_suffix(rest: Seq<u8>, s: Seq<u8>) -> bool {
    &&& rest.len() <= s.len()
    &&& rest == s.subrange(s.len() - rest.len(), s.len() as int)
}

/// A sequence is a suffix of itself.
pub proof fn lemma_suffix_refl(s: Seq<u8>)
    ensures
        is_suffix(s, s),
{
    assert(s == s.subrange(0, s.len() as int));
}

/// Skipping bytes from the front leaves a suffix.
pub proof fn lemma_suffix_skip(s: Seq<u8>, n: int)
    requires
        0 <= n <= s.len(),
    ensures
        is_suffix(s.skip(n), s),
{
    assert(s.skip(n) =~= s.subrange(s.len() - s.skip(n).len(), s.len() as int));
}

/// A suffix of a suffix is a suffix.
pub proof fn lemma_suffix_trans(a: Seq<u8>, b: Seq<u8>, c: Seq<u8>)
    requires
        is_suffix(a, b),
        is_suffix(b, c),
    ensures
        is_suffix(a, c),
{
    assert(a =~= c.subrange(c.len() - a.len(), c.len() as int));
}

impl ByteStream {
    #[verifier::type_invariant]
    spec fn position_in_bounds(self) -> bool {
        self.position <= self.bytes.len()
    }

    /// Creates a stream that yields the given bytes.
    pub fn new(bytes: Vec<u8>) -> (stream: ByteStream)
        ensures
            stream@ == bytes@,
    {
        let stream = ByteStream { bytes, position: 0 };
        assert(stream@ =~= stream.bytes@);
        stream
    }

    /// The number of bytes that have not been read yet.
    pub fn remaining(&self) -> (n: usize)
        ensures
            n == self@.len(),
    {
        proof {
            use_type_invariant(self);
        }
        self.bytes.len() - self.position
    }

    /// Reads exactly `n` bytes. Fails, reading nothing, when fewer than `n` bytes are left.
    pub fn read_exact(&mut self, n: usize) -> (result: MqttResult<Vec<u8>>)
        ensures
            n <= old(self)@.len() ==> (result matches Ok(bytes) && bytes@ == old(self)@.take(n as int)
                && final(self)@ == old(self)@.skip(n as int)),
            n > old(self)@.len() ==> (result matches Err(MqttError::IoError) && final(self)@ == old(self)@),
    {
        proof {
            use_type_invariant(&*self);
        }
        if n > self.bytes.len() - self.position {
            return Err(MqttError::IoError);
        }
        let ghost before = self@;
        let mut out: Vec<u8> = Vec::new();
        let mut i: usize = 0;
        while i < n
            invariant
                i <= n,
                self.position + n <= self.bytes.len(),
                out@ == self.bytes@.subrange(self.position as int, self.position + i),
            decreases n - i,
        {
            out.push(self.bytes[self.position + i]);
            i = i + 1;
            assert(out@ =~= self.bytes@.subrange(self.position as int, self.position + i));
        }
        self.position = self.position + n;
        assert(out@ =~= before.take(n as int));
        assert(self@ =~= before.skip(n as int));
        Ok(out)
    }

    /// Reads one byte.
    pub fn read_u8(&mut self) -> (result: MqttResult<u8>)
        ensures
            old(self)@.len() >= 1 ==> result == Ok::<u8, MqttError>(old(self)@[0]) && final(self)@
                == old(self)@.skip(1),
            old(self)@.len() < 1 ==> (result matches Err(MqttError::IoError) && final(self)@ == old(self)@),
    {
        proof {
            use_type_invariant(&*self);
        }
        if self.position >= self.bytes.len() {
            return Err(MqttError::IoError);
        }
        let ghost before = self@;
        let byte = self.bytes[self.position];
        self.position = self.position + 1;
        assert(self@ =~= before.skip(1));
        Ok(byte)
    }

    /// Reads two bytes as a big-endian unsigned integer.
    pub fn read_u16(&mut self) -> (result: MqttResult<u16>)
        ensures
            old(self)@.len() >= 2 ==> result == Ok::<u16, MqttError>(be_u16(old(self)@[0], old(self)@[1]))
                && final(self)@ == old(self)@.skip(2),
            old(self)@.len() < 2 ==> (result matches Err(MqttError::IoError) && final(self)@ == old(self)@),
    {
        proof {
            use_type_invariant(&*self);
        }
        if self.bytes.len() - self.position < 2 {
            return Err(MqttError::IoError);
        }
        let ghost before = self@;
        let high = self.bytes[self.position];
        let low = self.bytes[self.position + 1];
        self.position = self.position + 2;
        assert(self@ =~= before.skip(2));
        Ok(u16_from_be(high, low))
    }
}

/// The unsigned integer whose big-endian bytes are `high` then `low`.
pub open spec fn be_u16(high: u8, low: u8) -> u16 {
    (high as nat * 256 + low as nat) as u16
}

/// The big-endian bytes of `v`.
pub open spec fn be_bytes(v: u16) -> Seq<u8> {
    seq![(v / 256) as u8, (v % 256) as u8]
}

/// Combines two big-endian bytes into a `u16`.
pub fn u16_from_be(high: u8, low: u8) -> (v: u16)
    ensures
        v == be_u16(high, low),
{
    high as u16 * 256 + low as u16
}

/// Splits a `u16` into its big-endian bytes.
pub fn u16_to_be(v: u16) -> (bytes: Vec<u8>)
    ensures
        bytes@ == be_bytes(v),
{
    let mut bytes = Vec::new();
    bytes.push((v / 256) as u8);
    bytes.push((v % 256) as u8);
    assert(bytes@ =~= be_bytes(v));
    bytes
}

/// The bytes of a `u16` read back from its big-endian bytes give the same value.
pub proof fn lemma_be_u16_roundtrip(v: u16)
    ensures
        be_u16(be_bytes(v)[0], be_bytes(v)[1]) == v,
{
}

} // verus!
