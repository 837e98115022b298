use tinyalloc::slice::{Slice, SliceError};


#[test]
fn test_slice_new() {
    let mut backing = [0i32; 4];
    let slice = Slice::new(&mut backing);

    assert_eq!(slice.len(), 0);
    assert_eq!(slice.capacity(), 4);
    assert!(slice.is_empty());
    assert!(!slice.is_full());
}

#[test]
fn test_slice_push_pop() {
    let mut backing = [0i32; 3];
    let mut slice = Slice::new(&mut backing);

    assert!(slice.push(1).is_ok());
    assert!(slice.push(2).is_ok());
    assert_eq!(slice.len(), 2);

    assert_eq!(slice.pop(), Some(()));
    assert_eq!(slice.len(), 1);
    assert_eq!(slice.pop(), Some(()));
    assert_eq!(slice.len(), 0);
    assert_eq!(slice.pop(), None);
}

#[test]
fn test_slice_capacity_exceeded() {
    let mut backing = [0i32; 2];
    let mut slice = Slice::new(&mut backing);

    assert!(slice.push(1).is_ok());
    assert!(slice.push(2).is_ok());
    assert!(slice.is_full());

    let result = slice.push(3);
    assert!(result.is_err());
    match result {
        Err(SliceError::InsufficientCapacity { have, need }) => {
            assert_eq!(have, 2);
            assert_eq!(need, 3);
        }
        _ => panic!("Expected InsufficientCapacity error"),
    }
}

#[test]
fn test_slice_get() {
    let mut backing = [0i32; 3];
    let mut slice = Slice::new(&mut backing);

    slice.push(10).unwrap();
    slice.push(20).unwrap();

    assert_eq!(*slice.get(0).unwrap(), 10);
    assert_eq!(*slice.get(1).unwrap(), 20);

    let result = slice.get(2);
    assert!(result.is_err());
    match result {
        Err(SliceError::OutOfBounds { index, size }) => {
            assert_eq!(index, 2);
            assert_eq!(size, 2);
        }
        _ => panic!("Expected OutOfBounds error"),
    }
}

#[test]
fn test_slice_clear() {
    let mut backing = [0i32; 3];
    let mut slice = Slice::new(&mut backing);

    slice.push(1).unwrap();
    slice.push(2).unwrap();
    assert_eq!(slice.len(), 2);

    slice.clear();
    assert_eq!(slice.len(), 0);
    assert!(slice.is_empty());
}

#[test]
fn test_slice_deref() {
    let mut backing = [0i32; 3];
    let mut slice = Slice::new(&mut backing);

    slice.push(1).unwrap();
    slice.push(2).unwrap();

    let slice_ref: &[i32] = &slice;
    assert_eq!(slice_ref.len(), 2);
    assert_eq!(slice_ref[0], 1);
    assert_eq!(slice_ref[1], 2);
}
