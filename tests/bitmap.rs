use tinyalloc::bitmap::{Bitmap, BitmapError};

#[test]
fn test_basic_bit_operations() {
    let storage: Vec<u32> = vec![0; 2];
    let n = storage.len() * u32::BITS as usize;
    let mut bitmap = Bitmap::zero(storage, n).unwrap();

    assert!(!bitmap.get(0).unwrap());
    assert!(!bitmap.get(31).unwrap());

    bitmap.set(0).unwrap();
    assert!(bitmap.get(0).unwrap());
    assert!(!bitmap.get(1).unwrap());

    bitmap.set(31).unwrap();
    assert!(bitmap.get(31).unwrap());

    bitmap.clear(0).unwrap();
    assert!(!bitmap.get(0).unwrap());
    assert!(bitmap.get(31).unwrap());

    bitmap.flip(0).unwrap();
    assert!(bitmap.get(0).unwrap());

    bitmap.flip(0).unwrap();
    assert!(!bitmap.get(0).unwrap());
}

#[test]
fn test_multi_word_operations() {
    let storage: Vec<u64> = vec![0; 2];
    let n = storage.len() * u64::BITS as usize;
    let mut bitmap = Bitmap::zero(storage, n).unwrap();

    bitmap.set(0).unwrap();
    bitmap.set(63).unwrap();
    bitmap.set(64).unwrap();
    bitmap.set(99).unwrap();

    assert!(bitmap.get(0).unwrap());
    assert!(bitmap.get(63).unwrap());
    assert!(bitmap.get(64).unwrap());
    assert!(bitmap.get(99).unwrap());
    assert!(!bitmap.get(32).unwrap());
    assert!(!bitmap.get(96).unwrap());
}

#[test]
fn test_bulk_operations() {
    let storage: Vec<u32> = vec![0; 3];
    let n = storage.len() * u32::BITS as usize;
    let mut bitmap = Bitmap::zero(storage, n).unwrap();

    bitmap.set(5).unwrap();
    bitmap.set(35).unwrap();
    bitmap.set(65).unwrap();

    assert!(bitmap.get(5).unwrap());
    assert!(bitmap.get(35).unwrap());
    assert!(bitmap.get(65).unwrap());

    bitmap.clear_all();
    assert!(!bitmap.get(5).unwrap());
    assert!(!bitmap.get(35).unwrap());
    assert!(!bitmap.get(65).unwrap());

    bitmap.set_all();
    assert!(bitmap.get(0).unwrap());
    assert!(bitmap.get(31).unwrap());
    assert!(bitmap.get(32).unwrap());
    assert!(bitmap.get(63).unwrap());
    assert!(bitmap.get(64).unwrap());
    assert!(bitmap.get(95).unwrap());
}

#[test]
fn test_search_operations() {
    let storage: Vec<u32> = vec![0; 2];
    let n = storage.len() * u32::BITS as usize;
    let mut bitmap = Bitmap::zero(storage, n).unwrap();

    assert_eq!(bitmap.find_fs(), None);
    assert_eq!(bitmap.find_fc(), Some(0));

    bitmap.set(5).unwrap();
    bitmap.set(35).unwrap();

    assert_eq!(bitmap.find_fs(), Some(5));
    assert_eq!(bitmap.find_fc(), Some(0));

    bitmap.set(0).unwrap();
    assert_eq!(bitmap.find_fc(), Some(1));

    bitmap.set_all();
    assert_eq!(bitmap.find_fc(), None);
    assert_eq!(bitmap.find_fs(), Some(0));
}

#[test]
fn test_error_handling() {
    let storage: Vec<u32> = vec![0; 1];
    let n = storage.len() * u32::BITS as usize;
    let err = Bitmap::zero(storage.clone(), n + 1);
    assert!(matches!(
        err,
        Err(BitmapError::InsufficientSize { have, need }) if have < need
    ));

    let mut bitmap = Bitmap::zero(storage, n).unwrap();

    assert!(bitmap.set(31).is_ok());
    assert!(bitmap.set(32).is_err());
    assert!(bitmap.get(32).is_err());
    assert!(bitmap.clear(32).is_err());
    assert!(bitmap.flip(32).is_err());

    let result = bitmap.check(64);
    assert!(result.is_err());
}

#[test]
fn test_partial_word_handling() {
    let storage: Vec<u32> = vec![0; 1];
    let n = storage.len() * u32::BITS as usize;
    let mut bitmap = Bitmap::zero(storage, n).unwrap();

    bitmap.set_all();
    for i in 0..32 {
        assert!(bitmap.get(i).unwrap());
    }

    bitmap.clear_all();
    for i in 0..32 {
        assert!(!bitmap.get(i).unwrap());
    }

    bitmap.set(31).unwrap();
    assert_eq!(bitmap.find_fs(), Some(31));
}

#[test]
fn test_different_word_types() {
    let storage8: Vec<u8> = vec![0; 2];
    let n8 = storage8.len() * u8::BITS as usize;
    let mut bitmap8 = Bitmap::zero(storage8, n8).unwrap();
    bitmap8.set(7).unwrap();
    bitmap8.set(8).unwrap();
    assert!(bitmap8.get(7).unwrap());
    assert!(bitmap8.get(8).unwrap());

    let storage16: Vec<u16> = vec![0; 1];
    let n16 = storage16.len() * u16::BITS as usize;
    let mut bitmap16 = Bitmap::zero(storage16, n16).unwrap();
    bitmap16.set(9).unwrap();
    assert!(bitmap16.get(9).unwrap());
    assert_eq!(bitmap16.find_fs(), Some(9));
}

#[test]
fn test_zero_and_one_constructors() {
    let storage: Vec<u32> = vec![0; 2];
    let n = storage.len() * u32::BITS as usize;

    let bitmap_zero = Bitmap::zero(storage, n).unwrap();
    assert!(bitmap_zero.is_clear());
    assert_eq!(bitmap_zero.find_fs(), None);
    assert_eq!(bitmap_zero.find_fc(), Some(0));

    let storage2: Vec<u32> = vec![0; 2];
    let bitmap_one = Bitmap::one(storage2, n).unwrap();
    assert!(!bitmap_one.is_clear());
    assert_eq!(bitmap_one.find_fs(), Some(0));
    assert_eq!(bitmap_one.find_fc(), None);
}

#[test]
fn bitmap_partial_tail_word() {
    let storage: Vec<u64> = vec![0; 2];
    let mut bitmap = Bitmap::zero(storage, 70).unwrap();
    assert_eq!(Bitmap::<u64>::words(70), 2);
    assert_eq!(Bitmap::<u64>::bytes(70), 16);
    assert_eq!(Bitmap::<u16>::bytes(17), 4);
    assert_eq!(bitmap.available(), 128);
    bitmap.set_all();
    assert!(!bitmap.one_clear());
    assert_eq!(bitmap.find_fc(), None);
    assert_eq!(bitmap.store()[1], 0b11_1111);
    bitmap.clear(69).unwrap();
    assert!(bitmap.one_clear());
    assert_eq!(bitmap.find_fc(), Some(69));
    assert!(matches!(bitmap.get(70), Err(BitmapError::OutOfBounds { index: 70, size: 70 })));
}

#[test]
fn bitmap_counts_exactly() {
    let storage: Vec<u8> = vec![0; 1];
    let mut bitmap = Bitmap::zero(storage, 5).unwrap();
    bitmap.set(2).unwrap();
    bitmap.set(2).unwrap();
    bitmap.clear(2).unwrap();
    assert!(bitmap.is_clear());
    bitmap.flip(4).unwrap();
    assert!(!bitmap.is_clear());
    bitmap.flip(4).unwrap();
    assert!(bitmap.is_clear());
}

#[test]
fn bitmap_within_reads_existing_bits() {
    let storage: Vec<u16> = vec![0b1010, 0];
    let bitmap = Bitmap::within(storage, 20).unwrap();
    assert!(bitmap.get(1).unwrap());
    assert!(!bitmap.get(0).unwrap());
    assert_eq!(bitmap.find_fs(), Some(1));
    assert!(!bitmap.is_clear());
    assert!(matches!(
        Bitmap::within(vec![0u16; 1], 17),
        Err(BitmapError::InsufficientSize { have: 16, need: 17 })
    ));
}
