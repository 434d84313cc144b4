//! Values with a fixed layout in guest memory.

use vstd::prelude::*;

use crate::byte_order::{
    encode_le, law_le_value_of_bytes, le_bytes, le_value, lemma_le_bytes_len, lemma_pow256_values,
    read_le_u16, read_le_u32, read_le_u64, resized,
};

verus! {

/// A value that guest memory holds as a fixed number of bytes.
pub trait GuestObject: Sized + Copy {
    /// How many bytes a value takes.
    spec fn size() -> nat;

    /// The bytes of a value.
    spec fn encode(self) -> Seq<u8>;

    /// The value that given bytes stand for.
    spec fn decode(s: Seq<u8>) -> Self;

    /// Every value is recovered from its bytes.
    proof fn decode_of_encode(self)
        ensures
            self.encode().len() == Self::size(),
            Self::decode(self.encode()) == self,
    ;

    /// How many bytes a value takes.
    fn byte_len() -> (n: usize)
        ensures
            n == Self::size(),
            0 < n <= 64,
    ;

    /// The bytes of the value.
    fn to_bytes(&self) -> (r: Vec<u8>)
        ensures
            r@ == self.encode(),
            r@.len() == Self::size(),
    ;

    /// The value that `s` stands for.
    fn from_bytes(s: &[u8]) -> (r: Self)
        requires
            s@.len() == Self::size(),
        ensures
            r == Self::decode(s@),
    ;
}

impl GuestObject for u8 {
    open spec fn size() -> nat {
        1
    }

    open spec fn encode(self) -> Seq<u8> {
        seq![self]
    }

    open spec fn decode(s: Seq<u8>) -> u8 {
        s[0]
    }

    proof fn decode_of_encode(self) {
    }

    fn byte_len() -> (n: usize) {
        1
    }

    fn to_bytes(&self) -> (r: Vec<u8>) {
        vec![*self]
    }

    fn from_bytes(s: &[u8]) -> (r: u8) {
        s[0]
    }
}

impl GuestObject for u16 {
    open spec fn size() -> nat {
        2
    }

    open spec fn encode(self) -> Seq<u8> {
        le_bytes(self as nat, 2)
    }

    open spec fn decode(s: Seq<u8>) -> u16 {
        le_value(s) as u16
    }

    proof fn decode_of_encode(self) {
        lemma_pow256_values();
        lemma_le_bytes_len(self as nat, 2);
        law_le_value_of_bytes(self as nat, 2);
    }

    fn byte_len() -> (n: usize) {
        2
    }

    fn to_bytes(&self) -> (r: Vec<u8>) {
        proof {
            lemma_le_bytes_len(*self as nat, 2);
        }
        encode_le(*self as u64, 2)
    }

    fn from_bytes(s: &[u8]) -> (r: u16) {
        assert(resized(s@, 2) =~= s@);
        read_le_u16(s)
    }
}

impl GuestObject for u32 {
    open spec fn size() -> nat {
        4
    }

    open spec fn encode(self) -> Seq<u8> {
        le_bytes(self as nat, 4)
    }

    open spec fn decode(s: Seq<u8>) -> u32 {
        le_value(s) as u32
    }

    proof fn decode_of_encode(self) {
        lemma_pow256_values();
        lemma_le_bytes_len(self as nat, 4);
        law_le_value_of_bytes(self as nat, 4);
    }

    fn byte_len() -> (n: usize) {
        4
    }

    fn to_bytes(&self) -> (r: Vec<u8>) {
        proof {
            lemma_le_bytes_len(*self as nat, 4);
        }
        encode_le(*self as u64, 4)
    }

    fn from_bytes(s: &[u8]) -> (r: u32) {
        assert(resized(s@, 4) =~= s@);
        read_le_u32(s)
    }
}

impl GuestObject for u64 {
    open spec fn size() -> nat {
        8
    }

    open spec fn encode(self) -> Seq<u8> {
        le_bytes(self as nat, 8)
    }

    open spec fn decode(s: Seq<u8>) -> u64 {
        le_value(s) as u64
    }

    proof fn decode_of_encode(self) {
        lemma_pow256_values();
        lemma_le_bytes_len(self as nat, 8);
        law_le_value_of_bytes(self as nat, 8);
    }

    fn byte_len() -> (n: usize) {
        8
    }

    fn to_bytes(&self) -> (r: Vec<u8>) {
        proof {
            lemma_le_bytes_len(*self as nat, 8);
        }
        encode_le(*self, 8)
    }

    fn from_bytes(s: &[u8]) -> (r: u64) {
        assert(resized(s@, 8) =~= s@);
        read_le_u64(s)
    }
}

} // verus!
