//! The heap accessor: allocation, reads and writes into guest linear memory,
//! and the conversion boundary `asc_new` / `asc_get`.
//!
//! Every operation re-validates its offsets against the current memory size
//! and fails deterministically on any out-of-range access; nothing here can
//! read or write adjacent bytes, and nothing here panics.

use vstd::prelude::*;
use crate::asc_ptr::AscPtr;
use crate::codec::{AscType, AscValue};
use crate::errors::DeterministicHostError;

verus! {

/// `mem` with the range starting at `off` overwritten by `bytes`.
pub open spec fn splice(mem: Seq<u8>, off: nat, bytes: Seq<u8>) -> Seq<u8>
    recommends
        off + bytes.len() <= mem.len(),
{
    mem.subrange(0, off as int) + bytes + mem.subrange((off + bytes.len()) as int, mem.len() as int)
}

/// The heap accessor contract consumed by the conversion boundary. The guest
/// execution environment supplies the implementation; [`LinearMemory`] is the
/// in-crate model of one guest instance's memory.
///
/// All three operations are bounds-checked against the current memory size
/// and fallible; allocation appends at the end of memory and never returns
/// an offset past `u32::MAX`.
pub trait AscHeap: Sized {
    /// The current contents of the guest instance's linear memory.
    spec fn mem(&self) -> Seq<u8>;

    /// The current size of the guest memory, in bytes.
    fn size(&self) -> (n: usize)
        ensures
            n == self.mem().len(),
    ;

    /// Allocates `bytes.len()` bytes in guest memory, writes `bytes` there,
    /// and returns the offset; fails exactly when the new end of memory
    /// would not fit in a `u32`.
    fn raw_new(&mut self, bytes: &[u8]) -> (r: Result<u32, DeterministicHostError>)
        ensures
            (r is Ok) <==> old(self).mem().len() + bytes@.len() <= u32::MAX,
            r matches Ok(off) ==> final(self).mem() == old(self).mem() + bytes@
                && off as nat == old(self).mem().len(),
            r is Err ==> final(self).mem() == old(self).mem(),
    ;

    /// Reads `len` bytes at `offset`; fails exactly when the range ends past
    /// the current memory size.
    fn read(&self, offset: u32, len: usize) -> (r: Result<Vec<u8>, DeterministicHostError>)
        ensures
            (r is Ok) <==> offset + len <= self.mem().len(),
            r matches Ok(b) ==> b@ == self.mem().subrange(
                offset as int,
                offset + len,
            ),
    ;

    /// Overwrites `bytes.len()` bytes at `offset`; fails exactly when the
    /// range ends past the current memory size, leaving memory unchanged.
    fn write(&mut self, offset: u32, bytes: &[u8]) -> (r: Result<(), DeterministicHostError>)
        ensures
            (r is Ok) <==> offset + bytes@.len() <= old(self).mem().len(),
            r is Ok ==> final(self).mem() == splice(old(self).mem(), offset as nat, bytes@),
            r is Err ==> final(self).mem() == old(self).mem(),
    ;
}

/// A guest module instance's linear memory, modelled directly: a growable
/// byte array with bump allocation at its end.
pub struct LinearMemory {
    mem: Vec<u8>,
}

impl LinearMemory {
    /// An instance with empty memory.
    pub fn new() -> (r: LinearMemory)
        ensures
            r.mem() == Seq::<u8>::empty(),
    {
        LinearMemory { mem: Vec::new() }
    }
}

impl AscHeap for LinearMemory {
    closed spec fn mem(&self) -> Seq<u8> {
        self.mem@
    }

    fn size(&self) -> (n: usize) {
        self.mem.len()
    }

    fn raw_new(&mut self, bytes: &[u8]) -> (r: Result<u32, DeterministicHostError>) {
        let base = self.mem.len();
        if bytes.len() as u64 > u32::MAX as u64 || base as u64 > u32::MAX as u64 - bytes.len() as u64 {
            return Err(DeterministicHostError::AllocationTooLarge { requested: bytes.len() as u64 });
        }
        let mut i: usize = 0;
        while i < bytes.len()
            invariant
                i <= bytes@.len(),
                self.mem@ =~= old(self).mem@ + bytes@.subrange(0, i as int),
            decreases bytes@.len() - i,
        {
            self.mem.push(bytes[i]);
            proof {
                assert(bytes@.subrange(0, i + 1) =~= bytes@.subrange(0, i as int).push(bytes@[i as int]));
            }
            i = i + 1;
        }
        proof {
            assert(bytes@.subrange(0, bytes@.len() as int) =~= bytes@);
        }
        Ok(base as u32)
    }

    fn read(&self, offset: u32, len: usize) -> (r: Result<Vec<u8>, DeterministicHostError>) {
        let m = self.mem.len();
        if len as u64 > m as u64 || offset as u64 > m as u64 - len as u64 {
            return Err(DeterministicHostError::OutOfBounds {
                offset: offset as u64,
                len: len as u64,
                memory: m as u64,
            });
        }
        let mut out: Vec<u8> = Vec::new();
        let mut i: usize = 0;
        while i < len
            invariant
                i <= len,
                m == self.mem@.len(),
                offset + len <= m,
                out@ =~= self.mem@.subrange(offset as int, offset + i),
            decreases len - i,
        {
            out.push(self.mem[offset as usize + i]);
            proof {
                assert(self.mem@.subrange(offset as int, offset + i + 1) =~= self.mem@.subrange(
                    offset as int,
                    offset + i,
                ).push(self.mem@[offset + i]));
            }
            i = i + 1;
        }
        Ok(out)
    }

    fn write(&mut self, offset: u32, bytes: &[u8]) -> (r: Result<(), DeterministicHostError>) {
        let m = self.mem.len();
        if bytes.len() as u64 > m as u64 || offset as u64 > m as u64 - bytes.len() as u64 {
            return Err(DeterministicHostError::OutOfBounds {
                offset: offset as u64,
                len: bytes.len() as u64,
                memory: m as u64,
            });
        }
        let mut i: usize = 0;
        while i < bytes.len()
            invariant
                i <= bytes@.len(),
                m == self.mem@.len(),
                offset + bytes@.len() <= m,
                self.mem@.len() == old(self).mem@.len(),
                self.mem@ =~= splice(old(self).mem@, offset as nat, bytes@.subrange(0, i as int)),
            decreases bytes@.len() - i,
        {
            self.mem.set(offset as usize + i, bytes[i]);
            proof {
                assert(self.mem@ =~= splice(
                    old(self).mem@,
                    offset as nat,
                    bytes@.subrange(0, i + 1),
                ));
            }
            i = i + 1;
        }
        proof {
            assert(bytes@.subrange(0, bytes@.len() as int) =~= bytes@);
        }
        Ok(())
    }
}

/// Allocates guest memory sized to `value`'s encoding, writes the encoded
/// bytes, and returns a typed pointer to them. This and [`asc_get`] are the
/// only sanctioned ways to move values across the host/guest boundary.
pub fn asc_new<T: AscType, H: AscHeap>(heap: &mut H, value: &T) -> (r: Result<
    AscPtr<T>,
    DeterministicHostError,
>)
    ensures
        (r is Ok) <==> old(heap).mem().len() + T::asc_size_spec() <= u32::MAX,
        r matches Ok(p) ==> final(heap).mem() == old(heap).mem() + value.asc_encoded()
            && p.offset_spec() as nat == old(heap).mem().len(),
        r is Err ==> final(heap).mem() == old(heap).mem(),
{
    proof {
        value.lemma_encoded_len();
    }
    let bytes = match value.to_asc_bytes() {
        Ok(b) => b,
        Err(e) => {
            return Err(e);
        },
    };
    let off = match heap.raw_new(bytes.as_slice()) {
        Ok(o) => o,
        Err(e) => {
            return Err(e);
        },
    };
    Ok(AscPtr::new(off))
}

/// Re-validates `ptr` against the current memory size, reads the encoded
/// byte range, and decodes it back into a host value. An offset whose range
/// ends past the current memory size fails deterministically — on every
/// attempt — and never reads adjacent bytes.
pub fn asc_get<T: AscType, H: AscHeap>(heap: &H, ptr: &AscPtr<T>) -> (r: Result<
    T,
    DeterministicHostError,
>)
    ensures
        (r is Ok) <==> ptr.offset_spec() + T::asc_size_spec() <= heap.mem().len(),
        r matches Ok(v) ==> Some(v) == T::asc_decoded(
            heap.mem().subrange(
                ptr.offset_spec() as int,
                ptr.offset_spec() + T::asc_size_spec(),
            ),
        ),
{
    let size = T::asc_size();
    let bytes = match heap.read(ptr.wasm_ptr(), size) {
        Ok(b) => b,
        Err(e) => {
            return Err(e);
        },
    };
    proof {
        T::lemma_decoded_len(bytes@);
    }
    match T::from_asc_bytes(bytes.as_slice()) {
        Ok(v) => Ok(v),
        Err(e) => {
            proof {
                assert(false);
            }
            Err(e)
        },
    }
}

/// The flat encoding of a sequence of values: each element's encoding, in
/// order, with no separators — the guest's layout for arrays of fixed-size
/// values.
pub open spec fn encoded_seq<T: AscType>(s: Seq<T>) -> Seq<u8>
    decreases s.len(),
{
    if s.len() == 0 {
        Seq::empty()
    } else {
        encoded_seq(s.drop_last()) + s.last().asc_encoded()
    }
}

/// A flat encoding is exactly `len * size` bytes long.
pub proof fn lemma_encoded_seq_len<T: AscType>(s: Seq<T>)
    ensures
        encoded_seq(s).len() == s.len() * T::asc_size_spec(),
    decreases s.len(),
{
    if s.len() == 0 {
    } else {
        lemma_encoded_seq_len(s.drop_last());
        s.last().lemma_encoded_len();
        assert((s.len() - 1) * T::asc_size_spec() + T::asc_size_spec() == s.len()
            * T::asc_size_spec()) by (nonlinear_arith);
    }
}

/// Writes a whole array of bulk-copyable values into guest memory as one
/// contiguous allocation and returns a typed pointer to its first element.
#[verifier::loop_isolation(false)]
pub fn asc_new_array<T: AscValue, H: AscHeap>(heap: &mut H, values: &Vec<T>) -> (r: Result<
    AscPtr<T>,
    DeterministicHostError,
>)
    ensures
        (r is Ok) <==> old(heap).mem().len() + values@.len() * T::asc_size_spec() <= u32::MAX,
        r matches Ok(p) ==> final(heap).mem() == old(heap).mem() + encoded_seq(values@)
            && p.offset_spec() as nat == old(heap).mem().len(),
        r is Err ==> final(heap).mem() == old(heap).mem(),
{
    let mut buf: Vec<u8> = Vec::new();
    let mut i: usize = 0;
    proof {
        assert(values@.subrange(0, 0) =~= Seq::<T>::empty());
    }
    while i < values.len()
        invariant
            i <= values@.len(),
            buf@ == encoded_seq(values@.subrange(0, i as int)),
        decreases values@.len() - i,
    {
        let bytes = match values[i].to_asc_bytes() {
            Ok(b) => b,
            Err(e) => {
                proof {
                    assert(false);
                }
                return Err(e);
            },
        };
        let ghost buf0 = buf@;
        let mut j: usize = 0;
        while j < bytes.len()
            invariant
                j <= bytes@.len(),
                buf@ == buf0 + bytes@.subrange(0, j as int),
            decreases bytes@.len() - j,
        {
            buf.push(bytes[j]);
            proof {
                assert(bytes@.subrange(0, j + 1) =~= bytes@.subrange(0, j as int).push(
                    bytes@[j as int],
                ));
                assert(buf0 + bytes@.subrange(0, j + 1) =~= (buf0 + bytes@.subrange(
                    0,
                    j as int,
                )).push(bytes@[j as int]));
            }
            j = j + 1;
        }
        proof {
            assert(bytes@.subrange(0, bytes@.len() as int) =~= bytes@);
            let upto = values@.subrange(0, i + 1);
            assert(upto.drop_last() =~= values@.subrange(0, i as int));
            assert(upto.last() == values@[i as int]);
            assert(buf@ == encoded_seq(values@.subrange(0, i + 1)));
        }
        i = i + 1;
    }
    proof {
        assert(values@.subrange(0, values@.len() as int) =~= values@);
        lemma_encoded_seq_len(values@);
    }
    let off = match heap.raw_new(buf.as_slice()) {
        Ok(o) => o,
        Err(e) => {
            return Err(e);
        },
    };
    Ok(AscPtr::new(off))
}

/// Reads `len` bulk-copyable values from one contiguous guest range. Each
/// element decodes from its own fixed-size chunk; a range past the current
/// memory size fails deterministically.
#[verifier::loop_isolation(false)]
pub fn asc_get_array<T: AscValue, H: AscHeap>(heap: &H, ptr: &AscPtr<T>, len: usize) -> (r: Result<
    Vec<T>,
    DeterministicHostError,
>)
    ensures
        (r is Ok) <==> (len * T::asc_size_spec() <= u32::MAX && ptr.offset_spec() + len
            * T::asc_size_spec() <= heap.mem().len()),
        r matches Ok(v) ==> v@.len() == len && forall|q: int|
            0 <= q < len ==> Some(v@[q]) == T::asc_decoded(
                heap.mem().subrange(
                    ptr.offset_spec() + q * T::asc_size_spec(),
                    ptr.offset_spec() + (q + 1) * T::asc_size_spec(),
                ),
            ),
{
    let size = T::asc_size();
    proof {
        assert((len as nat) * (size as nat) <= (u64::MAX as nat) * (u64::MAX as nat))
            by (nonlinear_arith)
            requires
                (len as nat) <= u64::MAX as nat,
                (size as nat) <= u64::MAX as nat,
        ;
    }
    let total128 = (len as u128) * (size as u128);
    if total128 > u32::MAX as u128 {
        return Err(
            DeterministicHostError::OutOfBounds {
                offset: ptr.wasm_ptr() as u64,
                len: u64::MAX,
                memory: heap.size() as u64,
            },
        );
    }
    let total = total128 as usize;
    proof {
        assert(total == len * T::asc_size_spec());
    }
    let bytes = match heap.read(ptr.wasm_ptr(), total) {
        Ok(b) => b,
        Err(e) => {
            return Err(e);
        },
    };
    let ghost off = ptr.offset_spec() as int;
    let mut out: Vec<T> = Vec::new();
    let mut pos: usize = 0;
    let mut i: usize = 0;
    while i < len
        invariant
            i <= len,
            out@.len() == i,
            pos == i * size,
            forall|q: int|
                0 <= q < i ==> Some(#[trigger] out@[q]) == T::asc_decoded(
                    bytes@.subrange(q * size, (q + 1) * size),
                ),
        decreases len - i,
    {
        proof {
            assert((i + 1) * size <= len * size && i * size + size == (i + 1) * size && i * size
                >= 0) by (nonlinear_arith)
                requires i < len;
        }
        let chunk = &bytes.as_slice()[pos..pos + size];
        let v = match T::from_asc_bytes(chunk) {
            Ok(v) => v,
            Err(e) => {
                proof {
                    T::lemma_decoded_len(chunk@);
                    assert(false);
                }
                return Err(e);
            },
        };
        out.push(v);
        pos = pos + size;
        i = i + 1;
    }
    proof {
        assert forall|q: int| 0 <= q < len implies Some(out@[q]) == T::asc_decoded(
            heap.mem().subrange(off + q * size, off + (q + 1) * size),
        ) by {
            assert((q + 1) * size <= len * size && q * size + size == (q + 1) * size && q * size
                >= 0) by (nonlinear_arith)
                requires 0 <= q < len;
            assert(bytes@.subrange(q * size, (q + 1) * size) =~= heap.mem().subrange(
                off + q * size,
                off + (q + 1) * size,
            ));
        }
    }
    Ok(out)
}

/// Round trip across the conversion boundary: a value written by [`asc_new`]
/// is read back unchanged by [`asc_get`] through the returned pointer.
pub proof fn lemma_heap_round_trip<T: AscType>(mem0: Seq<u8>, value: T)
    requires
        mem0.len() + T::asc_size_spec() <= u32::MAX,
    ensures
        ({
            let mem1 = mem0 + value.asc_encoded();
            T::asc_decoded(mem1.subrange(mem0.len() as int, (mem0.len() + T::asc_size_spec()) as int))
                == Some(value)
        }),
{
    value.lemma_encoded_len();
    value.lemma_round_trip();
    let mem1 = mem0 + value.asc_encoded();
    assert(mem1.subrange(mem0.len() as int, (mem0.len() + T::asc_size_spec()) as int) =~= value.asc_encoded());
}

} // verus!
