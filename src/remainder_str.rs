//! Text with no length prefix, which takes all of the input that is left.
use crate::bytes::{append_bytes, push_char};
use vstd::prelude::*;
use vstd::utf8::{encode_utf8, is_ascii_chars, is_ascii_chars_encode_utf8};

verus! {

/// The text that the decoder makes of `b`: each byte read as one character
/// of the same number.
pub open spec fn chars_of_bytes(b: Seq<u8>) -> Seq<char> {
    Seq::new(b.len(), |i: int| b[i] as char)
}

/// A text that is encoded as its bytes alone, with no prefix and no
/// terminator.
///
/// Decoding takes every byte left in the input, so a value of this type can
/// only be the last field of a record.
#[derive(Debug)]
pub struct RemainderStr(String);

impl View for RemainderStr {
    type V = Seq<char>;

    closed spec fn view(&self) -> Seq<char> {
        self.0@
    }
}

impl RemainderStr {
    /// Wraps `value`.
    pub fn from(value: String) -> (r: Self)
        ensures
            r@ == value@,
    {
        RemainderStr(value)
    }

    /// Wraps a copy of `value`.
    pub fn from_str(value: &str) -> (r: Self)
        ensures
            r@ == value@,
    {
        RemainderStr(value.to_owned())
    }

    /// The wrapped text.
    pub fn as_str(&self) -> (r: &str)
        ensures
            r@ == self@,
    {
        self.0.as_str()
    }

    /// The number of bytes of the wrapped text's UTF-8 encoding.
    pub fn len(&self) -> (r: usize)
        ensures
            r == encode_utf8(self@).len(),
    {
        self.0.as_str().as_bytes().len()
    }

    /// Appends the UTF-8 bytes of the text to `out`.
    pub fn serialize(&self, out: &mut Vec<u8>)
        ensures
            final(out)@ == old(out)@ + encode_utf8(self@),
    {
        let b = self.0.as_str().as_bytes();
        append_bytes(out, b);
    }

    /// The UTF-8 bytes of the text.
    pub fn to_bytes(&self) -> (r: Vec<u8>)
        ensures
            r@ == encode_utf8(self@),
    {
        let mut out: Vec<u8> = Vec::new();
        self.serialize(&mut out);
        assert(out@ =~= encode_utf8(self@));
        out
    }

    /// Decodes all of `bytes`, one character for each byte.
    pub fn deserialize(bytes: &[u8]) -> (r: Self)
        ensures
            r@ == chars_of_bytes(bytes@),
    {
        let mut s = String::new();
        let n: usize = bytes.len();
        let mut i: usize = 0;
        while i < n
            invariant
                i <= n == bytes@.len(),
                s@ == chars_of_bytes(bytes@.subrange(0, i as int)),
            decreases n - i,
        {
            push_char(&mut s, bytes[i] as char);
            assert(chars_of_bytes(bytes@.subrange(0, i + 1)) =~= chars_of_bytes(
                bytes@.subrange(0, i as int),
            ).push(bytes@[i as int] as char));
            i = i + 1;
        }
        assert(bytes@.subrange(0, n as int) =~= bytes@);
        RemainderStr(s)
    }
}

impl Clone for RemainderStr {
    fn clone(&self) -> (r: Self) {
        RemainderStr(self.0.clone())
    }
}

impl PartialEq for RemainderStr {
    fn eq(&self, other: &Self) -> (r: bool) {
        self.0 == other.0
    }
}

impl vstd::std_specs::cmp::PartialEqSpecImpl for RemainderStr {
    open spec fn obeys_eq_spec() -> bool {
        true
    }

    open spec fn eq_spec(&self, other: &Self) -> bool {
        self@ == other@
    }
}

impl From<String> for RemainderStr {
    fn from(value: String) -> (r: Self) {
        RemainderStr(value)
    }
}

impl vstd::std_specs::convert::FromSpecImpl<String> for RemainderStr {
    open spec fn obeys_from_spec() -> bool {
        true
    }

    closed spec fn from_spec(v: String) -> Self {
        RemainderStr(v)
    }
}

impl core::str::FromStr for RemainderStr {
    type Err = core::convert::Infallible;

    fn from_str(s: &str) -> Result<Self, Self::Err> {
        Ok(RemainderStr(s.to_owned()))
    }
}

impl core::ops::Deref for RemainderStr {
    type Target = str;

    fn deref(&self) -> (r: &str) {
        self.0.as_str()
    }
}

/// Text of ASCII characters alone comes back unchanged from its encoding.
pub proof fn lemma_remainder_ascii_round_trip(s: Seq<char>)
    requires
        is_ascii_chars(s),
    ensures
        chars_of_bytes(encode_utf8(s)) == s,
{
    is_ascii_chars_encode_utf8(s);
    let e = encode_utf8(s);
    assert forall|i: int| 0 <= i < s.len() implies #[trigger] chars_of_bytes(e)[i] == s[i] by {
        let c = s[i];
        assert('\0' <= c <= '\u{7f}');
        assert(e[i] == c as u8);
    }
    assert(chars_of_bytes(e) =~= s);
}

} // verus!
