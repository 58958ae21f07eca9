//! Typed, bounds-checked offsets into guest linear memory.

use vstd::prelude::*;
use crate::codec::{AscType, AscValue, le_bytes_of, le_value_of, lemma_le_bytes_len,
    lemma_le_round_trip, lemma_le_value_bound, lemma_pow256_values, encode_le_bytes,
    decode_le_bytes};
use crate::errors::DeterministicHostError;

verus! {

/// A typed offset into one guest module instance's linear memory,
/// parameterized by the logical type it references.
///
/// It is not an owning reference: the guest allocator owns the backing
/// storage, and the host holds only this offset. It carries no validity of
/// its own — every dereference re-validates the offset against the current
/// memory size (see [`crate::heap::asc_get`]), so a stale offset fails
/// deterministically instead of reading adjacent memory. No pointer
/// arithmetic is exposed.
#[verifier::reject_recursive_types(T)]
pub struct AscPtr<T> {
    offset: u32,
    marker: core::marker::PhantomData<T>,
}

impl<T> AscPtr<T> {
    /// The raw offset this pointer carries.
    pub closed spec fn offset_spec(&self) -> u32 {
        self.offset
    }

    /// The pointer at a given offset (as handed out by the guest allocator).
    pub closed spec fn from_offset(offset: u32) -> AscPtr<T> {
        AscPtr { offset, marker: core::marker::PhantomData }
    }

    /// Two pointers to the same type are the same value exactly when their
    /// offsets agree.
    pub proof fn lemma_offset_determines_ptr(a: AscPtr<T>, b: AscPtr<T>)
        ensures
            (a == b) <==> a.offset_spec() == b.offset_spec(),
    {
    }

    /// Wraps the offset the guest allocator returned.
    pub fn new(offset: u32) -> (r: AscPtr<T>)
        ensures
            r.offset_spec() == offset,
            r == AscPtr::<T>::from_offset(offset),
    {
        AscPtr { offset, marker: core::marker::PhantomData }
    }

    /// The numeric offset, as passed to guest mapping entry points.
    pub fn wasm_ptr(&self) -> (r: u32)
        ensures
            r == self.offset_spec(),
    {
        self.offset
    }
}

impl<T> Clone for AscPtr<T> {
    fn clone(&self) -> (r: Self)
        ensures
            r == *self,
    {
        AscPtr { offset: self.offset, marker: core::marker::PhantomData }
    }
}

impl<T> Copy for AscPtr<T> {

}

impl<T> Default for AscPtr<T> {
    /// The null offset.
    fn default() -> (r: Self)
        ensures
            r.offset_spec() == 0,
    {
        AscPtr { offset: 0, marker: core::marker::PhantomData }
    }
}

/// The on-the-wire representation of a pointer is just its numeric offset,
/// little-endian at 4 bytes, so pointers are themselves `AscValue`s.
impl<T> AscType for AscPtr<T> {
    open spec fn asc_size_spec() -> nat {
        4
    }

    open spec fn asc_encoded(&self) -> Seq<u8> {
        le_bytes_of(self.offset_spec() as nat, 4)
    }

    open spec fn asc_decoded(bytes: Seq<u8>) -> Option<AscPtr<T>> {
        if bytes.len() == 4 {
            Some(AscPtr::from_offset(le_value_of(bytes) as u32))
        } else {
            None
        }
    }

    proof fn lemma_encoded_len(&self) {
        lemma_le_bytes_len(self.offset_spec() as nat, 4);
    }

    proof fn lemma_round_trip(&self) {
        lemma_le_bytes_len(self.offset_spec() as nat, 4);
        lemma_pow256_values();
        lemma_le_round_trip(self.offset_spec() as nat, 4);
    }

    proof fn lemma_decoded_len(bytes: Seq<u8>) {
    }

    fn asc_size() -> (n: usize) {
        4
    }

    fn to_asc_bytes(&self) -> (r: Result<Vec<u8>, DeterministicHostError>) {
        let mut out: Vec<u8> = Vec::new();
        proof {
            lemma_pow256_values();
        }
        encode_le_bytes(self.offset as u64, 4, &mut out);
        Ok(out)
    }

    fn from_asc_bytes(bytes: &[u8]) -> (r: Result<AscPtr<T>, DeterministicHostError>) {
        if bytes.len() != 4 {
            Err(DeterministicHostError::BadSize { expected: 4, got: bytes.len() })
        } else {
            let v = decode_le_bytes(bytes);
            proof {
                lemma_le_value_bound(bytes@);
                lemma_pow256_values();
            }
            Ok(AscPtr::new(v as u32))
        }
    }
}

impl<T> AscValue for AscPtr<T> {

}

} // verus!
