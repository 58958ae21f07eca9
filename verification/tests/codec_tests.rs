use indexer_core::asc_ptr::AscPtr;
use indexer_core::codec::AscType;
use indexer_core::errors::DeterministicHostError;
use indexer_core::heap::{asc_get, asc_new, AscHeap, LinearMemory};

fn round_trip<T: AscType + PartialEq + core::fmt::Debug>(v: T, size: usize) {
    let bytes = v.to_asc_bytes().unwrap();
    assert_eq!(bytes.len(), size);
    let back = T::from_asc_bytes(&bytes).unwrap();
    assert_eq!(back, v);
}

#[test]
fn round_trip_bool() {
    round_trip(false, 1);
    round_trip(true, 1);
}

#[test]
fn round_trip_u8() {
    round_trip(0u8, 1);
    round_trip(1u8, 1);
    round_trip(u8::MAX, 1);
}

#[test]
fn round_trip_u16() {
    round_trip(0u16, 2);
    round_trip(0x1234u16, 2);
    round_trip(u16::MAX, 2);
}

#[test]
fn round_trip_u32() {
    round_trip(0u32, 4);
    round_trip(0xdeadbeefu32, 4);
    round_trip(u32::MAX, 4);
}

#[test]
fn round_trip_u64() {
    round_trip(0u64, 8);
    round_trip(0x0123456789abcdefu64, 8);
    round_trip(u64::MAX, 8);
}

#[test]
fn round_trip_i8() {
    round_trip(0i8, 1);
    round_trip(-1i8, 1);
    round_trip(i8::MIN, 1);
    round_trip(i8::MAX, 1);
}

#[test]
fn round_trip_i32() {
    round_trip(0i32, 4);
    round_trip(-1i32, 4);
    round_trip(i32::MIN, 4);
    round_trip(i32::MAX, 4);
    round_trip(-123456789i32, 4);
}

#[test]
fn round_trip_i64() {
    round_trip(0i64, 8);
    round_trip(-1i64, 8);
    round_trip(i64::MIN, 8);
    round_trip(i64::MAX, 8);
}

#[test]
fn encoding_is_little_endian() {
    assert_eq!(0x12345678u32.to_asc_bytes().unwrap(), vec![0x78, 0x56, 0x34, 0x12]);
    assert_eq!(1u64.to_asc_bytes().unwrap(), vec![1, 0, 0, 0, 0, 0, 0, 0]);
    assert_eq!((-1i32).to_asc_bytes().unwrap(), vec![0xff, 0xff, 0xff, 0xff]);
    assert_eq!(i8::MIN.to_asc_bytes().unwrap(), vec![0x80]);
    assert_eq!(i64::MIN.to_asc_bytes().unwrap(), vec![0, 0, 0, 0, 0, 0, 0, 0x80]);
}

#[test]
fn decode_wrong_size_fails() {
    // 1-byte input against a 4-byte integer decode fails.
    let r = u32::from_asc_bytes(&[1]);
    assert_eq!(r, Err(DeterministicHostError::BadSize { expected: 4, got: 1 }));
    // 2-byte input against boolean decode fails.
    let r = bool::from_asc_bytes(&[0, 1]);
    assert_eq!(r, Err(DeterministicHostError::BadSize { expected: 1, got: 2 }));
    assert!(u64::from_asc_bytes(&[0; 7]).is_err());
    assert!(u64::from_asc_bytes(&[0; 9]).is_err());
    assert!(i32::from_asc_bytes(&[]).is_err());
    assert!(i8::from_asc_bytes(&[1, 2]).is_err());
    assert!(u16::from_asc_bytes(&[9]).is_err());
    assert!(i64::from_asc_bytes(&[0; 4]).is_err());
}

#[test]
fn bool_decode_law() {
    assert_eq!(bool::from_asc_bytes(&[0]), Ok(false));
    assert_eq!(bool::from_asc_bytes(&[1]), Ok(true));
    // Any single non-zero byte decodes to true.
    assert_eq!(bool::from_asc_bytes(&[7]), Ok(true));
    assert_eq!(bool::from_asc_bytes(&[255]), Ok(true));
    // Any length other than one fails.
    assert!(bool::from_asc_bytes(&[]).is_err());
    assert!(bool::from_asc_bytes(&[1, 1]).is_err());
}

#[test]
fn asc_ptr_encodes_as_offset() {
    let p: AscPtr<u64> = AscPtr::new(0x01020304);
    assert_eq!(p.wasm_ptr(), 0x01020304);
    let bytes = p.to_asc_bytes().unwrap();
    assert_eq!(bytes, vec![4, 3, 2, 1]);
    let q: AscPtr<u64> = AscPtr::from_asc_bytes(&bytes).unwrap();
    assert_eq!(q.wasm_ptr(), 0x01020304);
}

#[test]
fn heap_new_and_get() {
    let mut heap = LinearMemory::new();
    let p = asc_new(&mut heap, &0xdeadbeefu32).unwrap();
    assert_eq!(p.wasm_ptr(), 0);
    let q = asc_new(&mut heap, &true).unwrap();
    assert_eq!(q.wasm_ptr(), 4);
    let r = asc_new(&mut heap, &(-77i64)).unwrap();
    assert_eq!(r.wasm_ptr(), 5);
    assert_eq!(heap.size(), 13);
    assert_eq!(asc_get(&heap, &p).unwrap(), 0xdeadbeefu32);
    assert_eq!(asc_get(&heap, &q).unwrap(), true);
    assert_eq!(asc_get(&heap, &r).unwrap(), -77i64);
}

#[test]
fn pointer_past_memory_fails_every_time() {
    let mut heap = LinearMemory::new();
    let _ = asc_new(&mut heap, &5u32).unwrap();
    // One byte short of the four the type needs.
    let stale: AscPtr<u32> = AscPtr::new(1);
    for _ in 0..3 {
        let got = asc_get(&heap, &stale);
        assert!(matches!(got, Err(DeterministicHostError::OutOfBounds { .. })));
    }
    let far: AscPtr<u32> = AscPtr::new(1000);
    assert!(matches!(asc_get(&heap, &far), Err(DeterministicHostError::OutOfBounds { .. })));
    // In-bounds pointer still works after the failures.
    let ok: AscPtr<u32> = AscPtr::new(0);
    assert_eq!(asc_get(&heap, &ok).unwrap(), 5u32);
}

#[test]
fn array_round_trip_through_heap() {
    let mut heap = LinearMemory::new();
    let values: Vec<u32> = vec![0, 1, 0xdeadbeef, u32::MAX];
    let p = indexer_core::heap::asc_new_array(&mut heap, &values).unwrap();
    assert_eq!(p.wasm_ptr(), 0);
    assert_eq!(heap.size(), 16);
    let back: Vec<u32> = indexer_core::heap::asc_get_array(&heap, &p, 4).unwrap();
    assert_eq!(back, values);
    // Elements are laid out contiguously in little-endian order.
    assert_eq!(heap.read(4, 4).unwrap(), vec![1, 0, 0, 0]);
    // Reading one element past the array fails.
    assert!(indexer_core::heap::asc_get_array::<u32, _>(&heap, &p, 5).is_err());

    let signed: Vec<i64> = vec![-1, i64::MIN, i64::MAX];
    let q = indexer_core::heap::asc_new_array(&mut heap, &signed).unwrap();
    assert_eq!(q.wasm_ptr(), 16);
    let back: Vec<i64> = indexer_core::heap::asc_get_array(&heap, &q, 3).unwrap();
    assert_eq!(back, signed);
}

#[test]
fn heap_read_write_bounds() {
    let mut heap = LinearMemory::new();
    let base = heap.raw_new(&[1, 2, 3, 4]).unwrap();
    assert_eq!(base, 0);
    assert_eq!(heap.read(0, 4).unwrap(), vec![1, 2, 3, 4]);
    assert_eq!(heap.read(2, 2).unwrap(), vec![3, 4]);
    assert!(heap.read(2, 3).is_err());
    assert!(heap.read(4, 1).is_err());
    assert!(heap.write(3, &[9, 9]).is_err());
    heap.write(1, &[7, 8]).unwrap();
    assert_eq!(heap.read(0, 4).unwrap(), vec![1, 7, 8, 4]);
    // Out-of-bounds write left memory unchanged.
    assert_eq!(heap.size(), 4);
}
