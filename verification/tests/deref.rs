use partial_array::{Error, PartialArray};

#[test]
fn deref_full() {
    let partial_array: PartialArray<u8, 4> = PartialArray::from_iter(vec![0, 12, 24, 42]).unwrap();
    assert_eq!(*partial_array.index(0), 0);
    assert_eq!(*partial_array.index(1), 12);
    assert_eq!(*partial_array.index(2), 24);
    assert_eq!(*partial_array.index(3), 42);
}

#[test]
fn full_out_of_bounds() {
    let partial_array: PartialArray<u8, 4> = PartialArray::from_iter(vec![0, 12, 24, 42]).unwrap();
    assert_eq!(partial_array.try_get(5), Err(Error::IndexOutOfBounds { index: 5, len: 4 }));
}

#[test]
fn empty_out_of_bounds() {
    let partial_array: PartialArray<u8, 4> = PartialArray::from_iter(vec![]).unwrap();
    assert_eq!(partial_array.try_get(0), Err(Error::IndexOutOfBounds { index: 0, len: 0 }));
}

#[test]
fn deref_partial() {
    let partial_array: PartialArray<u8, 4> = PartialArray::from_iter(vec![225, 1, 4]).unwrap();
    assert_eq!(*partial_array.index(0), 225);
    assert_eq!(*partial_array.index(1), 1);
    assert_eq!(*partial_array.index(2), 4);
}

#[test]
fn partial_out_of_bounds() {
    let partial_array: PartialArray<u8, 4> = PartialArray::from_iter(vec![225, 1, 4]).unwrap();
    assert_eq!(partial_array.try_get(3), Err(Error::IndexOutOfBounds { index: 3, len: 3 }));
}

#[test]
fn deref_mut() {
    let mut partial_array: PartialArray<u8, 4> = PartialArray::from_iter(vec![225, 1, 4]).unwrap();
    partial_array.set_at(1, 99);
    assert_eq!(*partial_array.index(0), 225);
    assert_eq!(*partial_array.index(1), 99);
    assert_eq!(*partial_array.index(2), 4);
    assert_eq!(partial_array.len(), 3);
}
