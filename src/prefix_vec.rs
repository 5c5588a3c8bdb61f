//! Sequences of fixed-width integers preceded by their count, written in a
//! prefix of a chosen width.
use crate::error::{Error, ErrorKind};
use crate::le::{
    fits, le_bytes, le_value, lemma_le_bytes_len, lemma_le_round_trip, lemma_le_value_bound, read_le,
    write_le,
};
use crate::width::FixedUint;
use core::marker::PhantomData;
use vstd::arithmetic::div_mod::lemma_fundamental_div_mod_converse;
use vstd::prelude::*;

verus! {

/// The encodings of the elements of `s`, one after another.
pub open spec fn encode_elems<T: FixedUint>(s: Seq<T>) -> Seq<u8>
    decreases s.len(),
{
    if s.len() == 0 {
        Seq::empty()
    } else {
        encode_elems(s.drop_last()) + le_bytes(s.last().spec_value(), T::spec_width())
    }
}

/// The encoding of `s` with a count prefix of `w` bytes.
pub open spec fn encode_seq<T: FixedUint>(w: nat, s: Seq<T>) -> Seq<u8> {
    le_bytes(s.len(), w) + encode_elems(s)
}

/// The element whose encoding starts at position `p` of `b`.
pub open spec fn elem_at<T: FixedUint>(b: Seq<u8>, p: int) -> T {
    T::spec_from_value(le_value(b.subrange(p, p + T::spec_width())))
}

/// The sequence decoded from the front of `b` with a count prefix of `w`
/// bytes, and the number of bytes that it takes.
///
/// Elements are read whole while input is left. Input that ends part way
/// through an element is an error, and so is input that ends cleanly before
/// the declared count.
pub open spec fn decode_seq<T: FixedUint>(w: nat, b: Seq<u8>) -> Result<(Seq<T>, nat), Error> {
    if b.len() < w {
        Err(Error::ShortRead)
    } else {
        let n = le_value(b.subrange(0, w as int));
        let e = T::spec_width();
        let rest = (b.len() - w) as nat;
        if n * e <= rest {
            Ok((Seq::new(n, |i: int| elem_at::<T>(b, w + i * e)), w + n * e))
        } else if rest % e == 0 {
            Err(Error::CountMismatch { decoded: (rest / e) as usize, declared: n as u64 })
        } else {
            Err(Error::ElementSize { read: (rest % e) as usize, expected: e as usize })
        }
    }
}

/// The sequence that all of `b` encodes with a count prefix of `w` bytes.
pub open spec fn seq_from_slice<T: FixedUint>(w: nat, b: Seq<u8>) -> Result<Seq<T>, Error> {
    match decode_seq::<T>(w, b) {
        Ok((s, k)) => if k == b.len() {
            Ok(s)
        } else {
            Err(Error::TrailingBytes)
        },
        Err(e) => Err(e),
    }
}

/// A sequence whose encoding is its number of elements, in a little-endian
/// prefix as wide as `P`, followed by each element's little-endian bytes.
#[derive(Debug)]
pub struct PrefixVec<P: FixedUint, T: FixedUint> {
    items: Vec<T>,
    prefix: PhantomData<P>,
}

/// A sequence with a one-byte count prefix.
pub type U8PrefixVec<T> = PrefixVec<u8, T>;

/// A sequence with a two-byte count prefix.
pub type U16PrefixVec<T> = PrefixVec<u16, T>;

/// A sequence with a four-byte count prefix.
pub type U32PrefixVec<T> = PrefixVec<u32, T>;

/// A sequence with an eight-byte count prefix.
pub type U64PrefixVec<T> = PrefixVec<u64, T>;

impl<P: FixedUint, T: FixedUint> View for PrefixVec<P, T> {
    type V = Seq<T>;

    closed spec fn view(&self) -> Seq<T> {
        self.items@
    }
}

impl<P: FixedUint, T: FixedUint> PrefixVec<P, T> {
    /// Wraps `items`.
    pub fn new(items: Vec<T>) -> (r: Self)
        ensures
            r@ == items@,
    {
        PrefixVec { items, prefix: PhantomData }
    }

    /// The elements.
    pub fn as_slice(&self) -> (r: &[T])
        ensures
            r@ == self@,
    {
        self.items.as_slice()
    }

    /// The wrapped vector, given back.
    pub fn into_inner(self) -> (r: Vec<T>)
        ensures
            r@ == self@,
    {
        self.items
    }

    /// The number of elements.
    pub fn len(&self) -> (r: usize)
        ensures
            r == self@.len(),
    {
        self.items.len()
    }

    /// The element at `i`.
    pub fn get(&self, i: usize) -> (r: T)
        requires
            i < self@.len(),
        ensures
            r == self@[i as int],
    {
        self.items[i]
    }

    /// Replaces the element at `i` with `v`.
    pub fn set(&mut self, i: usize, v: T)
        requires
            i < old(self)@.len(),
        ensures
            final(self)@ == old(self)@.update(i as int, v),
    {
        self.items.set(i, v);
    }

    /// Appends `v`.
    pub fn push(&mut self, v: T)
        ensures
            final(self)@ == old(self)@.push(v),
    {
        self.items.push(v);
    }

    /// Removes and returns the last element, if any.
    pub fn pop(&mut self) -> (r: Option<T>)
        ensures
            old(self)@.len() == 0 ==> r is None && final(self)@ == old(self)@,
            old(self)@.len() > 0 ==> r == Some(old(self)@.last()) && final(self)@
                == old(self)@.drop_last(),
    {
        self.items.pop()
    }

    /// Appends the encoding of the sequence to `out`; fails, writing
    /// nothing, when its count does not fit the prefix.
    pub fn serialize(&self, out: &mut Vec<u8>) -> (r: Result<(), Error>)
        ensures
            fits(P::spec_width(), self@.len()) ==> r is Ok && final(out)@ == old(out)@
                + encode_seq(P::spec_width(), self@),
            !fits(P::spec_width(), self@.len()) ==> r == Err::<(), Error>(
                Error::LengthOverflow {
                    len: self@.len() as usize,
                    max: (crate::le::pow256(P::spec_width()) - 1) as u64,
                },
            ) && final(out)@ == old(out)@,
    {
        let n: usize = self.items.len();
        let max: u64 = P::max_value();
        if n as u64 > max {
            return Err(Error::LengthOverflow { len: n, max });
        }
        write_le(n as u64, P::width(), out);
        let e: usize = T::width();
        let ghost start = out@;
        let mut i: usize = 0;
        assert(self.items@.subrange(0, 0) =~= Seq::<T>::empty());
        assert(start + encode_elems(self.items@.subrange(0, 0)) =~= start);
        while i < n
            invariant
                i <= n == self.items@.len(),
                e == T::spec_width(),
                out@ == start + encode_elems(self.items@.subrange(0, i as int)),
            decreases n - i,
        {
            let item = self.items[i];
            write_le(item.to_u64(), e, out);
            proof {
                let next = self.items@.subrange(0, i + 1);
                assert(next.drop_last() =~= self.items@.subrange(0, i as int));
                assert(next.last() == item);
                assert(out@ =~= start + encode_elems(next));
            }
            i = i + 1;
        }
        assert(self.items@.subrange(0, n as int) =~= self.items@);
        assert(out@ =~= old(out)@ + encode_seq(P::spec_width(), self@));
        Ok(())
    }

    /// The encoding of the sequence, or the error of [`Self::serialize`].
    pub fn try_to_vec(&self) -> (r: Result<Vec<u8>, Error>)
        ensures
            fits(P::spec_width(), self@.len()) ==> r is Ok && r->Ok_0@ == encode_seq(
                P::spec_width(),
                self@,
            ),
            !fits(P::spec_width(), self@.len()) ==> r == Err::<Vec<u8>, Error>(
                Error::LengthOverflow {
                    len: self@.len() as usize,
                    max: (crate::le::pow256(P::spec_width()) - 1) as u64,
                },
            ),
    {
        let mut out: Vec<u8> = Vec::new();
        match self.serialize(&mut out) {
            Ok(()) => {
                assert(out@ =~= encode_seq(P::spec_width(), self@));
                Ok(out)
            },
            Err(e) => Err(e),
        }
    }

    /// Decodes a sequence from the front of `bytes`, and says how many bytes
    /// it took.
    pub fn deserialize(bytes: &[u8]) -> (r: Result<(Self, usize), Error>)
        ensures
            r is Ok <==> decode_seq::<T>(P::spec_width(), bytes@) is Ok,
            r matches Ok((s, k)) ==> decode_seq::<T>(P::spec_width(), bytes@) == Ok::<
                (Seq<T>, nat),
                Error,
            >((s@, k as nat)),
            r matches Err(e) ==> decode_seq::<T>(P::spec_width(), bytes@) == Err::<
                (Seq<T>, nat),
                Error,
            >(e),
    {
        let w: usize = P::width();
        let len: usize = bytes.len();
        if len < w {
            return Err(Error::ShortRead);
        }
        let declared: u64 = read_le(bytes, 0, w);
        let e: usize = T::width();
        let ghost b = bytes@;
        let ghost n = declared as nat;
        let ghost rest = (len - w) as nat;
        let mut items: Vec<T> = Vec::new();
        let mut p: usize = w;
        let mut c: usize = 0;
        while (c as u64) < declared
            invariant
                b == bytes@,
                len == b.len(),
                1 <= w <= 8,
                w == P::spec_width(),
                1 <= e <= 8,
                e == T::spec_width(),
                n == declared,
                n == le_value(b.subrange(0, w as int)),
                rest == len - w,
                w <= p <= len,
                p == w + c * e,
                c <= n,
                c <= p,
                items@ == Seq::new(c as nat, |i: int| elem_at::<T>(b, w + i * e)),
            decreases n - c,
        {
            let remaining: usize = len - p;
            if remaining == 0 {
                proof {
                    lemma_fundamental_div_mod_converse(rest as int, e as int, c as int, 0);
                    assert(n * e > rest) by (nonlinear_arith)
                        requires
                            rest == c * e,
                            c < n,
                            e >= 1,
                    ;
                }
                return Err(Error::CountMismatch { decoded: c, declared });
            }
            if remaining < e {
                proof {
                    lemma_fundamental_div_mod_converse(
                        rest as int,
                        e as int,
                        c as int,
                        remaining as int,
                    );
                    assert(n * e > rest) by (nonlinear_arith)
                        requires
                            rest == c * e + remaining,
                            remaining < e,
                            c < n,
                    ;
                }
                return Err(Error::ElementSize { read: remaining, expected: e });
            }
            let v: u64 = read_le(bytes, p, e);
            proof {
                lemma_le_value_bound(b.subrange(p as int, p + e));
            }
            let item = T::from_u64(v);
            items.push(item);
            proof {
                assert(items@ =~= Seq::new((c + 1) as nat, |i: int| elem_at::<T>(b, w + i * e)));
                assert(p + e == w + (c + 1) * e) by (nonlinear_arith)
                    requires
                        p == w + c * e,
                ;
            }
            p = p + e;
            c = c + 1;
        }
        proof {
            assert(n * e <= rest) by (nonlinear_arith)
                requires
                    p == w + c * e,
                    p <= len,
                    rest == len - w,
                    c == n,
            ;
        }
        Ok((PrefixVec { items, prefix: PhantomData }, p))
    }

    /// Decodes a sequence that takes all of `bytes`.
    pub fn try_from_slice(bytes: &[u8]) -> (r: Result<Self, Error>)
        ensures
            r is Ok <==> seq_from_slice::<T>(P::spec_width(), bytes@) is Ok,
            r matches Ok(s) ==> seq_from_slice::<T>(P::spec_width(), bytes@) == Ok::<
                Seq<T>,
                Error,
            >(s@),
            r matches Err(e) ==> seq_from_slice::<T>(P::spec_width(), bytes@) == Err::<
                Seq<T>,
                Error,
            >(e),
    {
        match Self::deserialize(bytes) {
            Ok((s, k)) => if k == bytes.len() {
                Ok(s)
            } else {
                Err(Error::TrailingBytes)
            },
            Err(e) => Err(e),
        }
    }
}

impl<P: FixedUint, T: FixedUint> Clone for PrefixVec<P, T> {
    fn clone(&self) -> (r: Self) {
        let mut items: Vec<T> = Vec::new();
        let n: usize = self.items.len();
        let mut i: usize = 0;
        while i < n
            invariant
                i <= n == self.items@.len(),
            decreases n - i,
        {
            items.push(self.items[i]);
            i = i + 1;
        }
        PrefixVec { items, prefix: PhantomData }
    }
}

impl<P: FixedUint, T: FixedUint> core::ops::Deref for PrefixVec<P, T> {
    type Target = Vec<T>;

    fn deref(&self) -> (r: &Vec<T>) {
        &self.items
    }
}

impl<P: FixedUint, T: FixedUint> core::ops::DerefMut for PrefixVec<P, T> {
    fn deref_mut(&mut self) -> (r: &mut Vec<T>) {
        &mut self.items
    }
}

impl<P: FixedUint, T: FixedUint> PartialEq for PrefixVec<P, T> {
    fn eq(&self, other: &Self) -> (r: bool) {
        let n: usize = self.items.len();
        if n != other.items.len() {
            return false;
        }
        let mut i: usize = 0;
        while i < n
            invariant
                i <= n == self.items@.len() == other.items@.len(),
                forall|j: int| 0 <= j < i ==> self.items@[j] == other.items@[j],
            decreases n - i,
        {
            let a = self.items[i];
            let b = other.items[i];
            if a.to_u64() != b.to_u64() {
                return false;
            }
            proof {
                T::lemma_value(a);
                T::lemma_value(b);
            }
            i = i + 1;
        }
        assert(self.items@ =~= other.items@);
        true
    }
}

impl<P: FixedUint, T: FixedUint> vstd::std_specs::cmp::PartialEqSpecImpl for PrefixVec<P, T> {
    open spec fn obeys_eq_spec() -> bool {
        true
    }

    open spec fn eq_spec(&self, other: &Self) -> bool {
        self@ == other@
    }
}

proof fn lemma_encode_elems_len<T: FixedUint>(s: Seq<T>)
    ensures
        encode_elems(s).len() == s.len() * T::spec_width(),
    decreases s.len(),
{
    if s.len() > 0 {
        lemma_encode_elems_len(s.drop_last());
        lemma_le_bytes_len(s.last().spec_value(), T::spec_width());
        let k = s.len();
        let e = T::spec_width();
        assert((k - 1) * e + e == k * e) by (nonlinear_arith)
            requires
                k >= 1,
        ;
    }
}

proof fn lemma_encode_elems_index<T: FixedUint>(s: Seq<T>, i: int)
    requires
        0 <= i < s.len(),
    ensures
        encode_elems(s).subrange(i * T::spec_width(), i * T::spec_width() + T::spec_width())
            == le_bytes(s[i].spec_value(), T::spec_width()),
    decreases s.len(),
{
    let e = T::spec_width();
    let front = s.drop_last();
    lemma_encode_elems_len(front);
    lemma_le_bytes_len(s.last().spec_value(), e);
    let all = encode_elems(s);
    if i < s.len() - 1 {
        lemma_encode_elems_index(front, i);
        assert(i * e + e <= front.len() * e) by (nonlinear_arith)
            requires
                i < front.len(),
        ;
        assert(all.subrange(i * e, i * e + e) =~= encode_elems(front).subrange(i * e, i * e + e));
    } else {
        assert(all.subrange(i * e, i * e + e) =~= le_bytes(s.last().spec_value(), e));
    }
}

/// Decoding the encoding of a sequence whose count fits the prefix gives
/// the same elements back in the same order, whatever the prefix width and
/// the element type.
pub proof fn lemma_seq_round_trip<T: FixedUint>(w: nat, s: Seq<T>)
    requires
        1 <= w <= 8,
        fits(w, s.len()),
    ensures
        decode_seq::<T>(w, encode_seq(w, s)) == Ok::<(Seq<T>, nat), Error>(
            (s, encode_seq(w, s).len()),
        ),
        seq_from_slice::<T>(w, encode_seq(w, s)) == Ok::<Seq<T>, Error>(s),
{
    let e = T::spec_width();
    T::lemma_width();
    let b = encode_seq(w, s);
    let elems = encode_elems(s);
    lemma_le_round_trip(s.len(), w);
    lemma_encode_elems_len(s);
    assert(b.subrange(0, w as int) =~= le_bytes(s.len(), w));
    let d = Seq::new(s.len(), |i: int| elem_at::<T>(b, w + i * e));
    assert forall|i: int| 0 <= i < s.len() implies d[i] == s[i] by {
        lemma_encode_elems_index(s, i);
        assert(i * e + e <= s.len() * e) by (nonlinear_arith)
            requires
                i < s.len(),
        ;
        assert(b.subrange(w + i * e, w + i * e + e) =~= elems.subrange(i * e, i * e + e));
        T::lemma_value(s[i]);
        lemma_le_round_trip(s[i].spec_value(), e);
    }
    assert(d =~= s);
}

/// Input that holds fewer whole elements than its prefix declares is
/// rejected as invalid data, and never read as a shorter sequence; where it
/// ends part way through an element, the error gives the size of that part.
pub proof fn lemma_short_input_rejected<T: FixedUint>(w: nat, b: Seq<u8>)
    requires
        w <= b.len(),
        le_value(b.subrange(0, w as int)) * T::spec_width() > b.len() - w,
    ensures
        decode_seq::<T>(w, b) is Err,
        decode_seq::<T>(w, b)->Err_0.spec_kind() == ErrorKind::InvalidData,
        seq_from_slice::<T>(w, b) == Err::<Seq<T>, Error>(decode_seq::<T>(w, b)->Err_0),
        (b.len() - w) % (T::spec_width() as int) != 0 ==> decode_seq::<T>(w, b) == Err::<
            (Seq<T>, nat),
            Error,
        >(
            Error::ElementSize {
                read: ((b.len() - w) % (T::spec_width() as int)) as usize,
                expected: T::spec_width() as usize,
            },
        ),
{
}

} // verus!
