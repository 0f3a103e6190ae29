use vstd::prelude::*;

verus! {

/// The characters that `String::from_utf8_lossy` makes of `bytes`: valid UTF-8 is decoded,
/// invalid sequences become U+FFFD.
pub uninterp spec fn utf8_lossy(bytes: Seq<u8>) -> Seq<char>;

/// `String::from_utf8_lossy`, made into an owned `String`. Claimed: the result is the named
/// lossy decoding of the bytes, and, as std documents, bytes that are valid UTF-8 are decoded
/// exactly.
#[verifier::external_body]
pub(crate) fn lossy_string(bytes: &[u8]) -> (s: String)
    ensures
        s@ == utf8_lossy(bytes@),
        vstd::utf8::valid_utf8(bytes@) ==> s@ == vstd::utf8::decode_utf8(bytes@),
{
    String::from_utf8_lossy(bytes).into_owned()
}

/// `std::str::from_utf8`, made into an owned `String`. Claimed, as std documents: it succeeds
/// exactly when the bytes are valid UTF-8, and then the text is their decoding.
#[verifier::external_body]
pub(crate) fn utf8_text(bytes: &[u8]) -> (text: Option<String>)
    ensures
        text is Some <==> vstd::utf8::valid_utf8(bytes@),
        text matches Some(t) ==> t@ == vstd::utf8::decode_utf8(bytes@),
{
    match std::str::from_utf8(bytes) {
        Ok(text) => Some(text.to_string()),
        Err(_) => None,
    }
}

/// The pieces joined together, with `sep` between consecutive pieces.
pub open spec fn join_chars(pieces: Seq<Seq<char>>, sep: Seq<char>) -> Seq<char>
    decreases pieces.len(),
{
    if pieces.len() == 0 {
        Seq::<char>::empty()
    } else if pieces.len() == 1 {
        pieces[0]
    } else {
        join_chars(pieces.drop_last(), sep) + sep + pieces.last()
    }
}

/// The encoding of one text followed by another is the encoding of the first followed by the
/// encoding of the second.
pub proof fn lemma_encode_utf8_concat(a: Seq<char>, b: Seq<char>)
    ensures
        vstd::utf8::encode_utf8(a + b) == vstd::utf8::encode_utf8(a) + vstd::utf8::encode_utf8(b),
    decreases a.len(),
{
    if a.len() == 0 {
        assert(a + b =~= b);
        assert(vstd::utf8::encode_utf8(a) =~= Seq::<u8>::empty());
        assert(vstd::utf8::encode_utf8(a) + vstd::utf8::encode_utf8(b) =~= vstd::utf8::encode_utf8(b));
    } else {
        lemma_encode_utf8_concat(a.drop_first(), b);
        assert((a + b).drop_first() =~= a.drop_first() + b);
        assert((a + b)[0] == a[0]);
        assert(vstd::utf8::encode_utf8(a + b) =~= vstd::utf8::encode_scalar(a[0] as u32) + (vstd::utf8::encode_utf8(
            a.drop_first(),
        ) + vstd::utf8::encode_utf8(b)));
    }
}

/// The encoding of a character below 0x80 is that character's byte; every byte of the encoding
/// of a character from 0x80 on is 0x80 or more.
proof fn lemma_encode_scalar_ascii(x: u32)
    requires
        vstd::utf8::is_scalar(x),
    ensures
        x < 0x80 ==> vstd::utf8::encode_scalar(x) == seq![x as u8],
        x >= 0x80 ==> forall|i: int|
            0 <= i < vstd::utf8::encode_scalar(x).len() ==> #[trigger] vstd::utf8::encode_scalar(x)[i] >= 0x80,
{
    let e = vstd::utf8::encode_scalar(x);
    if x < 0x80 {
        assert((x & 0x7F) as u8 == x as u8) by (bit_vector)
            requires
                x < 0x80,
        ;
    } else {
        assert(forall|y: u32| #![auto] (0xC0u8 | ((y >> 6) & 0x1F) as u8) >= 0x80) by (bit_vector);
        assert(forall|y: u32| #![auto] (0xE0u8 | ((y >> 12) & 0x0F) as u8) >= 0x80) by (bit_vector);
        assert(forall|y: u32| #![auto] (0xF0u8 | ((y >> 18) & 0x7) as u8) >= 0x80) by (bit_vector);
        assert(forall|y: u32| #![auto] (0x80u8 | (y & 0x3F) as u8) >= 0x80) by (bit_vector);
        assert(forall|y: u32| #![auto] (0x80u8 | ((y >> 6) & 0x3F) as u8) >= 0x80) by (bit_vector);
        assert(forall|y: u32| #![auto] (0x80u8 | ((y >> 12) & 0x3F) as u8) >= 0x80) by (bit_vector);
    }
}

/// A byte below 0x80 occurs in the encoding of a text exactly when its character occurs in the
/// text.
pub proof fn lemma_encode_utf8_ascii_byte(s: Seq<char>, c: char)
    requires
        (c as u32) < 0x80,
    ensures
        vstd::utf8::encode_utf8(s).contains(c as u8) <==> s.contains(c),
    decreases s.len(),
{
    if s.len() == 0 {
        assert(!vstd::utf8::encode_utf8(s).contains(c as u8));
    } else {
        lemma_encode_utf8_ascii_byte(s.drop_first(), c);
        let x = s[0] as u32;
        vstd::utf8::char_is_scalar(s[0]);
        lemma_encode_scalar_ascii(x);
        let head = vstd::utf8::encode_scalar(x);
        let tail = vstd::utf8::encode_utf8(s.drop_first());
        assert(vstd::utf8::encode_utf8(s) == head + tail);
        if s.contains(c) {
            let k = choose|k: int| 0 <= k < s.len() && s[k] == c;
            if k == 0 {
                assert((c as u32) as u8 == c as u8);
                assert((head + tail)[0] == c as u8);
            } else {
                assert(s.drop_first()[k - 1] == c);
                let j = choose|j: int| 0 <= j < tail.len() && tail[j] == c as u8;
                assert((head + tail)[head.len() + j] == c as u8);
            }
        }
        if vstd::utf8::encode_utf8(s).contains(c as u8) {
            let j = choose|j: int| 0 <= j < (head + tail).len() && (head + tail)[j] == c as u8;
            if j < head.len() {
                assert(head[j] == c as u8);
                assert(x < 0x80);
                let cu = c as u32;
                assert(x == cu) by (bit_vector)
                    requires
                        x < 0x80,
                        cu < 0x80,
                        x as u8 == cu as u8,
                ;
                vstd::utf8::char_u32_cast(s[0], x);
                vstd::utf8::char_u32_cast(c, cu);
                assert(s[0] == c);
            } else {
                assert(tail[j - head.len()] == c as u8);
                let k = choose|k: int| 0 <= k < s.drop_first().len() && s.drop_first()[k] == c;
                assert(s[k + 1] == c);
            }
        }
    }
}

/// `String::push`. Claimed, as std documents: the character is appended.
#[verifier::external_body]
pub(crate) fn push_char(s: &mut String, c: char)
    ensures
        final(s)@ == old(s)@.push(c),
{
    s.push(c);
}

/// The characters of a text, in order.
pub fn chars_of(s: &str) -> (chars: Vec<char>)
    ensures
        chars@ == s@,
{
    broadcast use vstd::string::axiom_spec_iter, vstd::string::next_postcondition;

    let mut chars: Vec<char> = Vec::new();
    let mut it = s.chars();
    loop
        invariant
            chars@ + vstd::std_specs::iter::IteratorSpec::remaining(&it) == s@,
            vstd::std_specs::iter::IteratorSpec::decrease(&it) is Some,
        ensures
            chars@ == s@,
        decreases vstd::std_specs::iter::IteratorSpec::decrease(&it)->0,
    {
        match it.next() {
            Some(c) => {
                chars.push(c);
            },
            None => {
                break;
            },
        }
    }
    chars
}

/// The text made of the characters, in order.
pub fn string_of(chars: &[char]) -> (s: String)
    ensures
        s@ == chars@,
{
    let mut s = String::new();
    let mut i: usize = 0;
    while i < chars.len()
        invariant
            i <= chars.len(),
            s@ == chars@.take(i as int),
        decreases chars.len() - i,
    {
        push_char(&mut s, chars[i]);
        i = i + 1;
        assert(s@ =~= chars@.take(i as int));
    }
    assert(chars@.take(i as int) =~= chars@);
    s
}

} // verus!
