use partial_array::PartialArray;

#[test]
fn forward_full() {
    let partial_array: PartialArray<u8, 4> = PartialArray::from_iter(vec![0, 1, 2, 3]).unwrap();
    let mut iter = partial_array.into_iter();
    assert_eq!(iter.next(), Some(0));
    assert_eq!(iter.next(), Some(1));
    assert_eq!(iter.next(), Some(2));
    assert_eq!(iter.next(), Some(3));
    assert_eq!(iter.next(), None);
}

#[test]
fn forward_empty() {
    let partial_array: PartialArray<u8, 4> = PartialArray::from_iter(vec![]).unwrap();
    let mut iter = partial_array.into_iter();
    assert_eq!(iter.next(), None);
}

#[test]
fn forward_partial() {
    let partial_array: PartialArray<u8, 42> = PartialArray::from_iter(vec![0, 1, 2]).unwrap();
    let mut iter = partial_array.into_iter();
    assert_eq!(iter.next(), Some(0));
    assert_eq!(iter.next(), Some(1));
    assert_eq!(iter.next(), Some(2));
    assert_eq!(iter.next(), None);
}

#[test]
fn reverse_full() {
    let partial_array: PartialArray<u8, 4> = PartialArray::from_iter(vec![0, 1, 2, 3]).unwrap();
    let mut iter = partial_array.into_iter();
    assert_eq!(iter.next_back(), Some(3));
    assert_eq!(iter.next_back(), Some(2));
    assert_eq!(iter.next_back(), Some(1));
    assert_eq!(iter.next_back(), Some(0));
    assert_eq!(iter.next_back(), None);
}

#[test]
fn reverse_empty() {
    let partial_array: PartialArray<u8, 4> = PartialArray::from_iter(vec![]).unwrap();
    let mut iter = partial_array.into_iter();
    assert_eq!(iter.next_back(), None);
}

#[test]
fn reverse_partial() {
    let partial_array: PartialArray<u8, 42> = PartialArray::from_iter(vec![0, 1, 2]).unwrap();
    let mut iter = partial_array.into_iter();
    assert_eq!(iter.next_back(), Some(2));
    assert_eq!(iter.next_back(), Some(1));
    assert_eq!(iter.next_back(), Some(0));
    assert_eq!(iter.next_back(), None);
}

#[test]
fn forward_reverse_full() {
    let partial_array: PartialArray<u8, 4> = PartialArray::from_iter(vec![0, 1, 2, 3]).unwrap();
    let mut iter = partial_array.into_iter();
    assert_eq!(iter.next_back(), Some(3));
    assert_eq!(iter.next(), Some(0));
    assert_eq!(iter.next_back(), Some(2));
    assert_eq!(iter.next_back(), Some(1));
    assert_eq!(iter.next_back(), None);
    assert_eq!(iter.next(), None);
}

#[test]
fn forward_reverse_partial() {
    let partial_array: PartialArray<u8, 42> = PartialArray::from_iter(vec![0, 1, 2]).unwrap();
    let mut iter = partial_array.into_iter();
    assert_eq!(iter.next(), Some(0));
    assert_eq!(iter.next_back(), Some(2));
    assert_eq!(iter.next_back(), Some(1));
    assert_eq!(iter.next_back(), None);
    assert_eq!(iter.next(), None);
}
