//! The deterministic byte codec of the guest ABI.
//!
//! The guest module's memory is little-endian, so every fixed-width integer
//! encodes to exactly its little-endian bytes at its natural size, and a
//! boolean encodes to one byte. The encoding is produced arithmetically
//! (least-significant byte first), so it is little-endian on every host.
//! Decoding fails deterministically whenever the input length differs from
//! the exact encoded size of the type.

use vstd::prelude::*;
use crate::errors::DeterministicHostError;

verus! {

/// `256^n`: the number of values representable in `n` bytes.
pub open spec fn pow256(n: nat) -> nat
    decreases n,
{
    if n == 0 {
        1
    } else {
        256 * pow256((n - 1) as nat)
    }
}

/// The `n` little-endian bytes of `v` (least significant byte first).
pub open spec fn le_bytes_of(v: nat, n: nat) -> Seq<u8>
    decreases n,
{
    if n == 0 {
        Seq::empty()
    } else {
        seq![(v % 256) as u8] + le_bytes_of(v / 256, (n - 1) as nat)
    }
}

/// The value of a little-endian byte sequence.
pub open spec fn le_value_of(s: Seq<u8>) -> nat
    decreases s.len(),
{
    if s.len() == 0 {
        0
    } else {
        (s[0] + 256 * le_value_of(s.subrange(1, s.len() as int))) as nat
    }
}

pub proof fn lemma_pow256_positive(n: nat)
    ensures
        pow256(n) >= 1,
    decreases n,
{
    if n > 0 {
        lemma_pow256_positive((n - 1) as nat);
    }
}

pub proof fn lemma_pow256_monotonic(m: nat, n: nat)
    requires
        m <= n,
    ensures
        pow256(m) <= pow256(n),
    decreases n,
{
    if m < n {
        lemma_pow256_monotonic(m, (n - 1) as nat);
        lemma_pow256_positive((n - 1) as nat);
    }
}

pub proof fn lemma_le_bytes_len(v: nat, n: nat)
    ensures
        le_bytes_of(v, n).len() == n,
    decreases n,
{
    if n > 0 {
        lemma_le_bytes_len(v / 256, (n - 1) as nat);
    }
}

/// The value of a byte sequence is bounded by `256^len`.
pub proof fn lemma_le_value_bound(s: Seq<u8>)
    ensures
        le_value_of(s) < pow256(s.len()),
    decreases s.len(),
{
    if s.len() == 0 {
    } else {
        let rest = s.subrange(1, s.len() as int);
        lemma_le_value_bound(rest);
        assert(s[0] < 256);
        assert(le_value_of(s) == s[0] + 256 * le_value_of(rest));
        assert(256 * le_value_of(rest) <= 256 * (pow256(rest.len()) - 1))
            by (nonlinear_arith)
            requires le_value_of(rest) <= pow256(rest.len()) - 1;
        assert(pow256(s.len()) == 256 * pow256(rest.len()));
    }
}

/// Round trip: reading back the `n` little-endian bytes of `v` yields `v`,
/// for every `v` that fits in `n` bytes.
pub proof fn lemma_le_round_trip(v: nat, n: nat)
    requires
        v < pow256(n),
    ensures
        le_value_of(le_bytes_of(v, n)) == v,
    decreases n,
{
    if n == 0 {
    } else {
        let s = le_bytes_of(v, n);
        let rest = le_bytes_of(v / 256, (n - 1) as nat);
        lemma_le_bytes_len(v / 256, (n - 1) as nat);
        assert(s.subrange(1, s.len() as int) =~= rest);
        assert(v / 256 < pow256((n - 1) as nat)) by (nonlinear_arith)
            requires v < pow256(n), pow256(n) == 256 * pow256((n - 1) as nat);
        lemma_le_round_trip(v / 256, (n - 1) as nat);
        assert(le_value_of(s) == v % 256 + 256 * (v / 256));
        assert(v % 256 + 256 * (v / 256) == v) by (nonlinear_arith);
    }
}

/// Appends the `n` little-endian bytes of `v` to `out`.
pub fn encode_le_bytes(v: u64, n: usize, out: &mut Vec<u8>)
    requires
        n <= 8,
        (v as nat) < pow256(n as nat),
    ensures
        final(out)@ == old(out)@ + le_bytes_of(v as nat, n as nat),
{
    let ghost orig = out@;
    let mut x: u64 = v;
    let mut i: usize = 0;
    while i < n
        invariant
            i <= n,
            out@.len() == orig.len() + i,
            orig + le_bytes_of(v as nat, n as nat) =~= out@ + le_bytes_of(
                x as nat,
                (n - i) as nat,
            ),
        decreases n - i,
    {
        let b: u8 = (x % 256) as u8;
        let ghost before = out@;
        out.push(b);
        proof {
            assert(le_bytes_of(x as nat, (n - i) as nat) =~= seq![b] + le_bytes_of(
                (x / 256) as nat,
                (n - i - 1) as nat,
            ));
            assert(before + le_bytes_of(x as nat, (n - i) as nat) =~= out@ + le_bytes_of(
                (x / 256) as nat,
                (n - i - 1) as nat,
            ));
        }
        x = x / 256;
        i = i + 1;
    }
    proof {
        assert(le_bytes_of(x as nat, 0) =~= Seq::<u8>::empty());
        assert(orig + le_bytes_of(v as nat, n as nat) =~= out@);
    }
}

/// Reads a little-endian byte sequence of at most 8 bytes as a `u64`.
pub fn decode_le_bytes(bytes: &[u8]) -> (r: u64)
    requires
        bytes@.len() <= 8,
    ensures
        r as nat == le_value_of(bytes@),
{
    let n = bytes.len();
    let mut r: u64 = 0;
    let mut i: usize = n;
    proof {
        assert(bytes@.subrange(n as int, n as int) =~= Seq::<u8>::empty());
    }
    while i > 0
        invariant
            i <= n,
            n == bytes@.len() <= 8,
            r as nat == le_value_of(bytes@.subrange(i as int, n as int)),
            (r as nat) < pow256((n - i) as nat),
        decreases i,
    {
        let ghost old_r = r;
        let ghost suffix = bytes@.subrange(i as int, n as int);
        proof {
            lemma_pow256_monotonic((n - i) as nat, 7);
            assert(pow256(7) == 0x100000000000000) by {
                reveal_with_fuel(pow256, 9);
            }
            assert(256 * (r as nat) <= 256 * (pow256((n - i) as nat) - 1))
                by (nonlinear_arith)
                requires (r as nat) <= pow256((n - i) as nat) - 1;
        }
        let shifted: u64 = r * 256;
        i = i - 1;
        let b: u8 = bytes[i];
        r = shifted + (b as u64);
        proof {
            let longer = bytes@.subrange(i as int, n as int);
            assert(longer.subrange(1, longer.len() as int) =~= suffix);
            assert(le_value_of(longer) == b + 256 * le_value_of(suffix));
            assert(pow256((n - i) as nat) == 256 * pow256((n - i - 1) as nat));
            assert(r as nat == b + 256 * old_r);
            assert(b + 256 * (old_r as nat) < 256 * pow256((n - i - 1) as nat))
                by (nonlinear_arith)
                requires
                    (old_r as nat) < pow256((n - i - 1) as nat),
                    b < 256,
            ;
        }
    }
    proof {
        assert(bytes@.subrange(0, n as int) =~= bytes@);
    }
    r
}

/// A host value with a defined, deterministic byte encoding matching the
/// guest module's in-memory layout for its logical type.
///
/// The codec is closed, total and symmetric: `asc_encoded` always has exactly
/// `asc_size_spec()` bytes, decoding succeeds exactly on sequences of that
/// length, and decoding an encoding reproduces the original value bit for
/// bit. Each implementation carries the proofs of these laws.
pub trait AscType: Sized {
    /// The exact encoded size of this type, in bytes.
    spec fn asc_size_spec() -> nat;

    /// The encoded bytes of this value.
    spec fn asc_encoded(&self) -> Seq<u8>;

    /// What a byte sequence decodes to; `None` exactly when the length is
    /// wrong.
    spec fn asc_decoded(bytes: Seq<u8>) -> Option<Self>;

    /// Law: an encoding has exactly the encoded size of the type.
    proof fn lemma_encoded_len(&self)
        ensures
            self.asc_encoded().len() == Self::asc_size_spec(),
    ;

    /// Round-trip law: decoding an encoding gives back the value.
    proof fn lemma_round_trip(&self)
        ensures
            Self::asc_decoded(self.asc_encoded()) == Some(*self),
    ;

    /// Size law: decoding succeeds exactly on inputs of the encoded size.
    proof fn lemma_decoded_len(bytes: Seq<u8>)
        ensures
            (Self::asc_decoded(bytes) is Some) <==> bytes.len() == Self::asc_size_spec(),
    ;

    /// The exact encoded size of this type, in bytes.
    fn asc_size() -> (n: usize)
        ensures
            n as nat == Self::asc_size_spec(),
    ;

    /// Encodes this value for the guest. Total for every type in this crate,
    /// but fallible by contract so composite encoders can propagate failures.
    fn to_asc_bytes(&self) -> (r: Result<Vec<u8>, DeterministicHostError>)
        ensures
            r matches Ok(b) && b@ == self.asc_encoded(),
    ;

    /// Decodes a value from guest bytes; fails deterministically on any
    /// input whose length differs from the exact encoded size.
    fn from_asc_bytes(bytes: &[u8]) -> (r: Result<Self, DeterministicHostError>)
        ensures
            match Self::asc_decoded(bytes@) {
                Some(v) => r matches Ok(w) && w == v,
                None => r is Err,
            },
    ;
}

/// An `AscType` whose host and guest representations are byte-identical,
/// fixed-size, and whose size equals its alignment: eligible for direct
/// bulk copies without per-field conversion.
pub trait AscValue: AscType + Copy + Default {

}

impl AscType for bool {
    open spec fn asc_size_spec() -> nat {
        1
    }

    open spec fn asc_encoded(&self) -> Seq<u8> {
        seq![if *self { 1u8 } else { 0u8 }]
    }

    open spec fn asc_decoded(bytes: Seq<u8>) -> Option<bool> {
        if bytes.len() == 1 {
            Some(bytes[0] != 0)
        } else {
            None
        }
    }

    proof fn lemma_encoded_len(&self) {
    }

    proof fn lemma_round_trip(&self) {
    }

    proof fn lemma_decoded_len(bytes: Seq<u8>) {
    }

    fn asc_size() -> (n: usize) {
        1
    }

    fn to_asc_bytes(&self) -> (r: Result<Vec<u8>, DeterministicHostError>) {
        let mut out: Vec<u8> = Vec::new();
        out.push(if *self { 1u8 } else { 0u8 });
        Ok(out)
    }

    fn from_asc_bytes(bytes: &[u8]) -> (r: Result<bool, DeterministicHostError>) {
        if bytes.len() != 1 {
            Err(DeterministicHostError::BadSize { expected: 1, got: bytes.len() })
        } else {
            Ok(bytes[0] != 0)
        }
    }
}

impl AscValue for bool {

}

/// Any single non-zero byte decodes to `true`, the single zero byte decodes
/// to `false`, and any other length fails.
pub proof fn lemma_bool_decode(bytes: Seq<u8>)
    ensures
        bytes.len() == 1 ==> <bool as AscType>::asc_decoded(bytes) == Some(bytes[0] != 0),
        bytes.len() != 1 ==> <bool as AscType>::asc_decoded(bytes) is None,
{
}

/// Unfolds `pow256` at each width used by the primitive codecs.
pub proof fn lemma_pow256_values()
    ensures
        pow256(1) == 0x100,
        pow256(2) == 0x10000,
        pow256(4) == 0x100000000,
        pow256(8) == 0x10000000000000000,
{
    reveal_with_fuel(pow256, 9);
}

/// The two's-complement bit pattern of an `i32`, as a natural number.
pub open spec fn sign_bits_32(v: i32) -> nat {
    if v >= 0 {
        v as nat
    } else {
        (v + 0x100000000) as nat
    }
}

/// The `i32` whose two's-complement bit pattern is `u`.
pub open spec fn sign_value_32(u: nat) -> i32 {
    if u < 0x80000000 {
        u as i32
    } else {
        (u - 0x100000000) as i32
    }
}

/// The two's-complement bit pattern of an `i64`, as a natural number.
pub open spec fn sign_bits_64(v: i64) -> nat {
    if v >= 0 {
        v as nat
    } else {
        (v + 0x10000000000000000) as nat
    }
}

/// The `i64` whose two's-complement bit pattern is `u`.
pub open spec fn sign_value_64(u: nat) -> i64 {
    if u < 0x8000000000000000 {
        u as i64
    } else {
        (u - 0x10000000000000000) as i64
    }
}

/// The two's-complement bit pattern of an `i8`, as a natural number.
pub open spec fn sign_bits_8(v: i8) -> nat {
    if v >= 0 {
        v as nat
    } else {
        (v + 0x100) as nat
    }
}

/// The `i8` whose two's-complement bit pattern is `u`.
pub open spec fn sign_value_8(u: nat) -> i8 {
    if u < 0x80 {
        u as i8
    } else {
        (u - 0x100) as i8
    }
}

impl AscType for u8 {
    open spec fn asc_size_spec() -> nat {
        1
    }

    open spec fn asc_encoded(&self) -> Seq<u8> {
        le_bytes_of(*self as nat, 1)
    }

    open spec fn asc_decoded(bytes: Seq<u8>) -> Option<u8> {
        if bytes.len() == 1 {
            Some(le_value_of(bytes) as u8)
        } else {
            None
        }
    }

    proof fn lemma_encoded_len(&self) {
        lemma_le_bytes_len(*self as nat, 1);
    }

    proof fn lemma_round_trip(&self) {
        lemma_le_bytes_len(*self as nat, 1);
        lemma_pow256_values();
        lemma_le_round_trip(*self as nat, 1);
    }

    proof fn lemma_decoded_len(bytes: Seq<u8>) {
    }

    fn asc_size() -> (n: usize) {
        1
    }

    fn to_asc_bytes(&self) -> (r: Result<Vec<u8>, DeterministicHostError>) {
        let mut out: Vec<u8> = Vec::new();
        proof {
            lemma_pow256_values();
        }
        encode_le_bytes(*self as u64, 1, &mut out);
        Ok(out)
    }

    fn from_asc_bytes(bytes: &[u8]) -> (r: Result<u8, DeterministicHostError>) {
        if bytes.len() != 1 {
            Err(DeterministicHostError::BadSize { expected: 1, got: bytes.len() })
        } else {
            let v = decode_le_bytes(bytes);
            proof {
                lemma_le_value_bound(bytes@);
                lemma_pow256_values();
            }
            Ok(v as u8)
        }
    }
}

impl AscValue for u8 {

}

impl AscType for u16 {
    open spec fn asc_size_spec() -> nat {
        2
    }

    open spec fn asc_encoded(&self) -> Seq<u8> {
        le_bytes_of(*self as nat, 2)
    }

    open spec fn asc_decoded(bytes: Seq<u8>) -> Option<u16> {
        if bytes.len() == 2 {
            Some(le_value_of(bytes) as u16)
        } else {
            None
        }
    }

    proof fn lemma_encoded_len(&self) {
        lemma_le_bytes_len(*self as nat, 2);
    }

    proof fn lemma_round_trip(&self) {
        lemma_le_bytes_len(*self as nat, 2);
        lemma_pow256_values();
        lemma_le_round_trip(*self as nat, 2);
    }

    proof fn lemma_decoded_len(bytes: Seq<u8>) {
    }

    fn asc_size() -> (n: usize) {
        2
    }

    fn to_asc_bytes(&self) -> (r: Result<Vec<u8>, DeterministicHostError>) {
        let mut out: Vec<u8> = Vec::new();
        proof {
            lemma_pow256_values();
        }
        encode_le_bytes(*self as u64, 2, &mut out);
        Ok(out)
    }

    fn from_asc_bytes(bytes: &[u8]) -> (r: Result<u16, DeterministicHostError>) {
        if bytes.len() != 2 {
            Err(DeterministicHostError::BadSize { expected: 2, got: bytes.len() })
        } else {
            let v = decode_le_bytes(bytes);
            proof {
                lemma_le_value_bound(bytes@);
                lemma_pow256_values();
            }
            Ok(v as u16)
        }
    }
}

impl AscValue for u16 {

}

impl AscType for u32 {
    open spec fn asc_size_spec() -> nat {
        4
    }

    open spec fn asc_encoded(&self) -> Seq<u8> {
        le_bytes_of(*self as nat, 4)
    }

    open spec fn asc_decoded(bytes: Seq<u8>) -> Option<u32> {
        if bytes.len() == 4 {
            Some(le_value_of(bytes) as u32)
        } else {
            None
        }
    }

    proof fn lemma_encoded_len(&self) {
        lemma_le_bytes_len(*self as nat, 4);
    }

    proof fn lemma_round_trip(&self) {
        lemma_le_bytes_len(*self as nat, 4);
        lemma_pow256_values();
        lemma_le_round_trip(*self as nat, 4);
    }

    proof fn lemma_decoded_len(bytes: Seq<u8>) {
    }

    fn asc_size() -> (n: usize) {
        4
    }

    fn to_asc_bytes(&self) -> (r: Result<Vec<u8>, DeterministicHostError>) {
        let mut out: Vec<u8> = Vec::new();
        proof {
            lemma_pow256_values();
        }
        encode_le_bytes(*self as u64, 4, &mut out);
        Ok(out)
    }

    fn from_asc_bytes(bytes: &[u8]) -> (r: Result<u32, DeterministicHostError>) {
        if bytes.len() != 4 {
            Err(DeterministicHostError::BadSize { expected: 4, got: bytes.len() })
        } else {
            let v = decode_le_bytes(bytes);
            proof {
                lemma_le_value_bound(bytes@);
                lemma_pow256_values();
            }
            Ok(v as u32)
        }
    }
}

impl AscValue for u32 {

}

impl AscType for u64 {
    open spec fn asc_size_spec() -> nat {
        8
    }

    open spec fn asc_encoded(&self) -> Seq<u8> {
        le_bytes_of(*self as nat, 8)
    }

    open spec fn asc_decoded(bytes: Seq<u8>) -> Option<u64> {
        if bytes.len() == 8 {
            Some(le_value_of(bytes) as u64)
        } else {
            None
        }
    }

    proof fn lemma_encoded_len(&self) {
        lemma_le_bytes_len(*self as nat, 8);
    }

    proof fn lemma_round_trip(&self) {
        lemma_le_bytes_len(*self as nat, 8);
        lemma_pow256_values();
        lemma_le_round_trip(*self as nat, 8);
    }

    proof fn lemma_decoded_len(bytes: Seq<u8>) {
    }

    fn asc_size() -> (n: usize) {
        8
    }

    fn to_asc_bytes(&self) -> (r: Result<Vec<u8>, DeterministicHostError>) {
        let mut out: Vec<u8> = Vec::new();
        proof {
            lemma_pow256_values();
        }
        encode_le_bytes(*self, 8, &mut out);
        Ok(out)
    }

    fn from_asc_bytes(bytes: &[u8]) -> (r: Result<u64, DeterministicHostError>) {
        if bytes.len() != 8 {
            Err(DeterministicHostError::BadSize { expected: 8, got: bytes.len() })
        } else {
            let v = decode_le_bytes(bytes);
            proof {
                lemma_le_value_bound(bytes@);
                lemma_pow256_values();
            }
            Ok(v)
        }
    }
}

impl AscValue for u64 {

}

impl AscType for i8 {
    open spec fn asc_size_spec() -> nat {
        1
    }

    open spec fn asc_encoded(&self) -> Seq<u8> {
        le_bytes_of(sign_bits_8(*self), 1)
    }

    open spec fn asc_decoded(bytes: Seq<u8>) -> Option<i8> {
        if bytes.len() == 1 {
            Some(sign_value_8(le_value_of(bytes)))
        } else {
            None
        }
    }

    proof fn lemma_encoded_len(&self) {
        lemma_le_bytes_len(sign_bits_8(*self), 1);
    }

    proof fn lemma_round_trip(&self) {
        lemma_le_bytes_len(sign_bits_8(*self), 1);
        lemma_pow256_values();
        lemma_le_round_trip(sign_bits_8(*self), 1);
    }

    proof fn lemma_decoded_len(bytes: Seq<u8>) {
    }

    fn asc_size() -> (n: usize) {
        1
    }

    fn to_asc_bytes(&self) -> (r: Result<Vec<u8>, DeterministicHostError>) {
        let mut out: Vec<u8> = Vec::new();
        proof {
            lemma_pow256_values();
        }
        let bits: u64 = if *self >= 0 {
            *self as u64
        } else {
            ((*self as i64) + 0x100i64) as u64
        };
        encode_le_bytes(bits, 1, &mut out);
        Ok(out)
    }

    fn from_asc_bytes(bytes: &[u8]) -> (r: Result<i8, DeterministicHostError>) {
        if bytes.len() != 1 {
            Err(DeterministicHostError::BadSize { expected: 1, got: bytes.len() })
        } else {
            let v = decode_le_bytes(bytes);
            proof {
                lemma_le_value_bound(bytes@);
                lemma_pow256_values();
            }
            if v < 0x80 {
                Ok(v as i8)
            } else {
                Ok(((v as i64) - 0x100i64) as i8)
            }
        }
    }
}

impl AscValue for i8 {

}

impl AscType for i32 {
    open spec fn asc_size_spec() -> nat {
        4
    }

    open spec fn asc_encoded(&self) -> Seq<u8> {
        le_bytes_of(sign_bits_32(*self), 4)
    }

    open spec fn asc_decoded(bytes: Seq<u8>) -> Option<i32> {
        if bytes.len() == 4 {
            Some(sign_value_32(le_value_of(bytes)))
        } else {
            None
        }
    }

    proof fn lemma_encoded_len(&self) {
        lemma_le_bytes_len(sign_bits_32(*self), 4);
    }

    proof fn lemma_round_trip(&self) {
        lemma_le_bytes_len(sign_bits_32(*self), 4);
        lemma_pow256_values();
        lemma_le_round_trip(sign_bits_32(*self), 4);
    }

    proof fn lemma_decoded_len(bytes: Seq<u8>) {
    }

    fn asc_size() -> (n: usize) {
        4
    }

    fn to_asc_bytes(&self) -> (r: Result<Vec<u8>, DeterministicHostError>) {
        let mut out: Vec<u8> = Vec::new();
        proof {
            lemma_pow256_values();
        }
        let bits: u64 = if *self >= 0 {
            *self as u64
        } else {
            ((*self as i64) + 0x100000000i64) as u64
        };
        encode_le_bytes(bits, 4, &mut out);
        Ok(out)
    }

    fn from_asc_bytes(bytes: &[u8]) -> (r: Result<i32, DeterministicHostError>) {
        if bytes.len() != 4 {
            Err(DeterministicHostError::BadSize { expected: 4, got: bytes.len() })
        } else {
            let v = decode_le_bytes(bytes);
            proof {
                lemma_le_value_bound(bytes@);
                lemma_pow256_values();
            }
            if v < 0x80000000 {
                Ok(v as i32)
            } else {
                Ok(((v as i64) - 0x100000000i64) as i32)
            }
        }
    }
}

impl AscValue for i32 {

}

impl AscType for i64 {
    open spec fn asc_size_spec() -> nat {
        8
    }

    open spec fn asc_encoded(&self) -> Seq<u8> {
        le_bytes_of(sign_bits_64(*self), 8)
    }

    open spec fn asc_decoded(bytes: Seq<u8>) -> Option<i64> {
        if bytes.len() == 8 {
            Some(sign_value_64(le_value_of(bytes)))
        } else {
            None
        }
    }

    proof fn lemma_encoded_len(&self) {
        lemma_le_bytes_len(sign_bits_64(*self), 8);
    }

    proof fn lemma_round_trip(&self) {
        lemma_le_bytes_len(sign_bits_64(*self), 8);
        lemma_pow256_values();
        lemma_le_round_trip(sign_bits_64(*self), 8);
    }

    proof fn lemma_decoded_len(bytes: Seq<u8>) {
    }

    fn asc_size() -> (n: usize) {
        8
    }

    fn to_asc_bytes(&self) -> (r: Result<Vec<u8>, DeterministicHostError>) {
        let mut out: Vec<u8> = Vec::new();
        proof {
            lemma_pow256_values();
        }
        let bits: u64 = if *self >= 0 {
            *self as u64
        } else {
            ((*self as i128) + 0x10000000000000000i128) as u64
        };
        encode_le_bytes(bits, 8, &mut out);
        Ok(out)
    }

    fn from_asc_bytes(bytes: &[u8]) -> (r: Result<i64, DeterministicHostError>) {
        if bytes.len() != 8 {
            Err(DeterministicHostError::BadSize { expected: 8, got: bytes.len() })
        } else {
            let v = decode_le_bytes(bytes);
            proof {
                lemma_le_value_bound(bytes@);
                lemma_pow256_values();
            }
            if v < 0x8000000000000000 {
                Ok(v as i64)
            } else {
                Ok(((v as i128) - 0x10000000000000000i128) as i64)
            }
        }
    }
}

impl AscValue for i64 {

}

} // verus!
