//! The fixed-width unsigned integer types used as length prefixes and as
//! sequence elements.
use crate::le::{le_value, lemma_pow256_values, pow256, read_le};
use vstd::prelude::*;

verus! {

/// An unsigned integer type whose encoding is its bytes, lowest first.
pub trait FixedUint: Sized + Copy {
    /// The number of bytes of the encoding.
    spec fn spec_width() -> nat;

    /// The integer that a value stands for.
    spec fn spec_value(&self) -> nat;

    /// The value that stands for the integer `v`.
    spec fn spec_from_value(v: nat) -> Self;

    proof fn lemma_width()
        ensures
            1 <= Self::spec_width() <= 8,
    ;

    proof fn lemma_value(x: Self)
        ensures
            x.spec_value() < pow256(Self::spec_width()),
            Self::spec_from_value(x.spec_value()) == x,
    ;

    proof fn lemma_from_value(v: nat)
        requires
            v < pow256(Self::spec_width()),
        ensures
            Self::spec_from_value(v).spec_value() == v,
    ;

    fn width() -> (r: usize)
        ensures
            r as nat == Self::spec_width(),
            1 <= r <= 8,
    ;

    fn max_value() -> (r: u64)
        ensures
            r as nat == pow256(Self::spec_width()) - 1,
    ;

    fn to_u64(&self) -> (r: u64)
        ensures
            r as nat == self.spec_value(),
    ;

    fn from_u64(v: u64) -> (r: Self)
        requires
            (v as nat) < pow256(Self::spec_width()),
        ensures
            r == Self::spec_from_value(v as nat),
    ;
}

/// The length or count held in `prefix`, a prefix as wide as `P`.
pub fn read_prefix<P: FixedUint>(prefix: &[u8]) -> (r: u64)
    requires
        prefix@.len() == P::spec_width(),
    ensures
        r as nat == le_value(prefix@),
{
    let w: usize = P::width();
    let r = read_le(prefix, 0, w);
    assert(prefix@.subrange(0, w as int) =~= prefix@);
    r
}

impl FixedUint for u8 {
    open spec fn spec_width() -> nat {
        1
    }

    open spec fn spec_value(&self) -> nat {
        *self as nat
    }

    open spec fn spec_from_value(v: nat) -> u8 {
        v as u8
    }

    proof fn lemma_width() {
    }

    proof fn lemma_value(x: u8) {
        lemma_pow256_values();
    }

    proof fn lemma_from_value(v: nat) {
        lemma_pow256_values();
    }

    fn width() -> (r: usize) {
        1
    }

    fn max_value() -> (r: u64) {
        proof {
            lemma_pow256_values();
        }
        u8::MAX as u64
    }

    fn to_u64(&self) -> (r: u64) {
        *self as u64
    }

    fn from_u64(v: u64) -> (r: u8) {
        v as u8
    }
}

impl FixedUint for u16 {
    open spec fn spec_width() -> nat {
        2
    }

    open spec fn spec_value(&self) -> nat {
        *self as nat
    }

    open spec fn spec_from_value(v: nat) -> u16 {
        v as u16
    }

    proof fn lemma_width() {
    }

    proof fn lemma_value(x: u16) {
        lemma_pow256_values();
    }

    proof fn lemma_from_value(v: nat) {
        lemma_pow256_values();
    }

    fn width() -> (r: usize) {
        2
    }

    fn max_value() -> (r: u64) {
        proof {
            lemma_pow256_values();
        }
        u16::MAX as u64
    }

    fn to_u64(&self) -> (r: u64) {
        *self as u64
    }

    fn from_u64(v: u64) -> (r: u16) {
        v as u16
    }
}

impl FixedUint for u32 {
    open spec fn spec_width() -> nat {
        4
    }

    open spec fn spec_value(&self) -> nat {
        *self as nat
    }

    open spec fn spec_from_value(v: nat) -> u32 {
        v as u32
    }

    proof fn lemma_width() {
    }

    proof fn lemma_value(x: u32) {
        lemma_pow256_values();
    }

    proof fn lemma_from_value(v: nat) {
        lemma_pow256_values();
    }

    fn width() -> (r: usize) {
        4
    }

    fn max_value() -> (r: u64) {
        proof {
            lemma_pow256_values();
        }
        u32::MAX as u64
    }

    fn to_u64(&self) -> (r: u64) {
        *self as u64
    }

    fn from_u64(v: u64) -> (r: u32) {
        v as u32
    }
}

impl FixedUint for u64 {
    open spec fn spec_width() -> nat {
        8
    }

    open spec fn spec_value(&self) -> nat {
        *self as nat
    }

    open spec fn spec_from_value(v: nat) -> u64 {
        v as u64
    }

    proof fn lemma_width() {
    }

    proof fn lemma_value(x: u64) {
        lemma_pow256_values();
    }

    proof fn lemma_from_value(v: nat) {
        lemma_pow256_values();
    }

    fn width() -> (r: usize) {
        8
    }

    fn max_value() -> (r: u64) {
        proof {
            lemma_pow256_values();
        }
        u64::MAX as u64
    }

    fn to_u64(&self) -> (r: u64) {
        *self
    }

    fn from_u64(v: u64) -> (r: u64) {
        v
    }
}

} // verus!
