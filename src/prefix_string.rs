//! Text preceded by its byte length, written in a prefix of a chosen width.
use crate::bytes::{append_bytes, copy_range, string_from_utf8};
use crate::error::Error;
use crate::le::{fits, le_bytes, le_value, lemma_le_round_trip, pow256, read_le, write_le};
use crate::width::FixedUint;
use core::marker::PhantomData;
use vstd::prelude::*;
use vstd::utf8::{decode_utf8, encode_utf8, encode_utf8_decode_utf8, encode_utf8_valid_utf8, valid_utf8};

verus! {

/// The encoding of the text `s` with a length prefix of `w` bytes.
pub open spec fn encode_text(w: nat, s: Seq<char>) -> Seq<u8> {
    le_bytes(encode_utf8(s).len(), w) + encode_utf8(s)
}

/// The text decoded from the front of `b` with a length prefix of `w`
/// bytes, and the number of bytes that it takes.
pub open spec fn decode_text(w: nat, b: Seq<u8>) -> Result<(Seq<char>, nat), Error> {
    if b.len() < w {
        Err(Error::ShortRead)
    } else {
        let n = le_value(b.subrange(0, w as int));
        if b.len() - w < n {
            Err(Error::ShortRead)
        } else {
            let body = b.subrange(w as int, (w + n) as int);
            if valid_utf8(body) {
                Ok((decode_utf8(body), w + n))
            } else {
                Err(Error::InvalidUtf8)
            }
        }
    }
}

/// The text that all of `b` encodes with a length prefix of `w` bytes.
pub open spec fn text_from_slice(w: nat, b: Seq<u8>) -> Result<Seq<char>, Error> {
    match decode_text(w, b) {
        Ok((s, k)) => if k == b.len() {
            Ok(s)
        } else {
            Err(Error::TrailingBytes)
        },
        Err(e) => Err(e),
    }
}

/// A text whose encoding is its byte length, in a little-endian prefix as
/// wide as `P`, followed by its UTF-8 bytes.
#[derive(Debug)]
pub struct PrefixString<P: FixedUint> {
    value: String,
    prefix: PhantomData<P>,
}

/// A text with a one-byte length prefix.
pub type U8PrefixString = PrefixString<u8>;

/// A text with a two-byte length prefix.
pub type U16PrefixString = PrefixString<u16>;

/// A text with an eight-byte length prefix.
pub type U64PrefixString = PrefixString<u64>;

impl<P: FixedUint> View for PrefixString<P> {
    type V = Seq<char>;

    closed spec fn view(&self) -> Seq<char> {
        self.value@
    }
}

impl<P: FixedUint> PrefixString<P> {
    /// Wraps `value`.
    pub fn new(value: String) -> (r: Self)
        ensures
            r@ == value@,
    {
        PrefixString { value, prefix: PhantomData }
    }

    /// Wraps a copy of `value`.
    pub fn from_str(value: &str) -> (r: Self)
        ensures
            r@ == value@,
    {
        PrefixString { value: value.to_owned(), prefix: PhantomData }
    }

    /// The wrapped text.
    pub fn as_str(&self) -> (r: &str)
        ensures
            r@ == self@,
    {
        self.value.as_str()
    }

    /// The number of bytes of the wrapped text's UTF-8 encoding.
    pub fn len(&self) -> (r: usize)
        ensures
            r == encode_utf8(self@).len(),
    {
        self.value.as_str().as_bytes().len()
    }

    /// Appends the encoding of the text to `out`; fails, writing nothing,
    /// when its byte length does not fit the prefix.
    pub fn serialize(&self, out: &mut Vec<u8>) -> (r: Result<(), Error>)
        ensures
            fits(P::spec_width(), encode_utf8(self@).len()) ==> r is Ok && final(out)@ == old(
                out,
            )@ + encode_text(P::spec_width(), self@),
            !fits(P::spec_width(), encode_utf8(self@).len()) ==> r == Err::<(), Error>(
                Error::LengthOverflow {
                    len: encode_utf8(self@).len() as usize,
                    max: (pow256(P::spec_width()) - 1) as u64,
                },
            ) && final(out)@ == old(out)@,
    {
        let b = self.value.as_str().as_bytes();
        let len: usize = b.len();
        let max: u64 = P::max_value();
        if len as u64 > max {
            return Err(Error::LengthOverflow { len, max });
        }
        write_le(len as u64, P::width(), out);
        append_bytes(out, b);
        Ok(())
    }

    /// The encoding of the text, or the error of [`Self::serialize`].
    pub fn try_to_vec(&self) -> (r: Result<Vec<u8>, Error>)
        ensures
            fits(P::spec_width(), encode_utf8(self@).len()) ==> r is Ok && r->Ok_0@
                == encode_text(P::spec_width(), self@),
            !fits(P::spec_width(), encode_utf8(self@).len()) ==> r == Err::<Vec<u8>, Error>(
                Error::LengthOverflow {
                    len: encode_utf8(self@).len() as usize,
                    max: (pow256(P::spec_width()) - 1) as u64,
                },
            ),
    {
        let mut out: Vec<u8> = Vec::new();
        match self.serialize(&mut out) {
            Ok(()) => {
                assert(out@ =~= encode_text(P::spec_width(), self@));
                Ok(out)
            },
            Err(e) => Err(e),
        }
    }

    /// Decodes a text from the front of `bytes`, and says how many bytes it
    /// took.
    pub fn deserialize(bytes: &[u8]) -> (r: Result<(Self, usize), Error>)
        ensures
            r is Ok <==> decode_text(P::spec_width(), bytes@) is Ok,
            r matches Ok((s, k)) ==> decode_text(P::spec_width(), bytes@) == Ok::<
                (Seq<char>, nat),
                Error,
            >((s@, k as nat)),
            r matches Err(e) ==> decode_text(P::spec_width(), bytes@) == Err::<
                (Seq<char>, nat),
                Error,
            >(e),
    {
        let w: usize = P::width();
        let n: usize = bytes.len();
        if n < w {
            return Err(Error::ShortRead);
        }
        let declared: u64 = read_le(bytes, 0, w);
        if declared > (n - w) as u64 {
            return Err(Error::ShortRead);
        }
        let len: usize = declared as usize;
        let body = copy_range(bytes, w, w + len);
        match string_from_utf8(body) {
            None => Err(Error::InvalidUtf8),
            Some(value) => {
                proof {
                    encode_utf8_decode_utf8(value@);
                }
                Ok((PrefixString { value, prefix: PhantomData }, w + len))
            },
        }
    }

    /// Decodes a text that takes all of `bytes`.
    pub fn try_from_slice(bytes: &[u8]) -> (r: Result<Self, Error>)
        ensures
            r is Ok <==> text_from_slice(P::spec_width(), bytes@) is Ok,
            r matches Ok(s) ==> text_from_slice(P::spec_width(), bytes@) == Ok::<
                Seq<char>,
                Error,
            >(s@),
            r matches Err(e) ==> text_from_slice(P::spec_width(), bytes@) == Err::<
                Seq<char>,
                Error,
            >(e),
    {
        match Self::deserialize(bytes) {
            Ok((s, k)) => if k == bytes.len() {
                Ok(s)
            } else {
                Err(Error::TrailingBytes)
            },
            Err(e) => Err(e),
        }
    }
}

impl<P: FixedUint> Clone for PrefixString<P> {
    fn clone(&self) -> (r: Self) {
        PrefixString { value: self.value.clone(), prefix: PhantomData }
    }
}

impl<P: FixedUint> core::ops::Deref for PrefixString<P> {
    type Target = String;

    fn deref(&self) -> (r: &String) {
        &self.value
    }
}

impl<P: FixedUint> PartialEq for PrefixString<P> {
    fn eq(&self, other: &Self) -> (r: bool) {
        self.value == other.value
    }
}

impl<P: FixedUint> vstd::std_specs::cmp::PartialEqSpecImpl for PrefixString<P> {
    open spec fn obeys_eq_spec() -> bool {
        true
    }

    open spec fn eq_spec(&self, other: &Self) -> bool {
        self@ == other@
    }
}

/// Decoding the encoding of a text whose byte length fits the prefix gives
/// the text back, whatever the prefix width.
pub proof fn lemma_text_round_trip(w: nat, s: Seq<char>)
    requires
        1 <= w <= 8,
        fits(w, encode_utf8(s).len()),
    ensures
        decode_text(w, encode_text(w, s)) == Ok::<(Seq<char>, nat), Error>(
            (s, encode_text(w, s).len()),
        ),
        text_from_slice(w, encode_text(w, s)) == Ok::<Seq<char>, Error>(s),
{
    let u = encode_utf8(s);
    let e = encode_text(w, s);
    lemma_le_round_trip(u.len(), w);
    assert(e.subrange(0, w as int) =~= le_bytes(u.len(), w));
    assert(e.subrange(w as int, (w + u.len()) as int) =~= u);
    encode_utf8_valid_utf8(s);
    encode_utf8_decode_utf8(s);
}

} // verus!
