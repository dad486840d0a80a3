use partial_array::{Error, PartialArray};

#[test]
fn extend_empty() {
    let mut partial_array: PartialArray<u8, 3> = Default::default();
    partial_array.extend(vec![1, 2]).unwrap();
    assert_eq!(partial_array.len(), 2);
    assert_eq!(*partial_array.index(0), 1);
    assert_eq!(*partial_array.index(1), 2);
}

#[test]
fn nonempty() {
    let mut partial_array: PartialArray<u8, 3> = Default::default();
    partial_array.extend(vec![1, 2]).unwrap();
    partial_array.extend(vec![3]).unwrap();
    assert_eq!(partial_array.len(), 3);
    assert_eq!(*partial_array.index(0), 1);
    assert_eq!(*partial_array.index(2), 3);
}

#[test]
fn extend_full() {
    let mut partial_array: PartialArray<u8, 3> = PartialArray::from_iter(vec![1, 2, 3]).unwrap();
    assert_eq!(partial_array.extend(vec![4]), Err(Error::Overflow { excess: 1 }));
    assert_eq!(partial_array.len(), 3);
    assert_eq!(*partial_array.index(0), 1);
    assert_eq!(*partial_array.index(1), 2);
    assert_eq!(*partial_array.index(2), 3);
}
