use partial_array::PartialArray;

fn requires_debug<T: core::fmt::Debug>(_: T) {}

#[test]
fn debug_full() {
    let partial_array: PartialArray<u8, 4> = PartialArray::from_iter(vec![0, 1, 2, 3]).unwrap();
    assert_eq!(partial_array.render(), "[0, 1, 2, 3]");
    assert_eq!(partial_array.into_iter().render(), "[0, 1, 2, 3]");
}

#[test]
fn debug_empty() {
    let partial_array: PartialArray<u8, 4> = PartialArray::from_iter(vec![]).unwrap();
    assert_eq!(partial_array.render(), "[]");
    assert_eq!(partial_array.into_iter().render(), "[]");
}

#[test]
fn debug_partial() {
    let partial_array: PartialArray<u8, 42> = PartialArray::from_iter(vec![0, 1, 2]).unwrap();
    assert_eq!(partial_array.render(), "[0, 1, 2]");
    assert_eq!(partial_array.into_iter().render(), "[0, 1, 2]");
}

#[test]
fn iter() {
    let mut iter = PartialArray::<u8, 5>::from([1, 2, 3, 4, 5]).into_iter();
    assert_eq!(iter.render(), "[1, 2, 3, 4, 5]");
    iter.next();
    assert_eq!(iter.render(), "[2, 3, 4, 5]");
    iter.next_back();
    assert_eq!(iter.render(), "[2, 3, 4]");
    while iter.next().is_some() {}
    assert_eq!(iter.render(), "[]");
}

#[test]
fn debugability() {
    requires_debug(PartialArray::<&str, 1>::from([" "]));
    requires_debug(PartialArray::<i32, 3>::from([1, 2, 7]));
    requires_debug(PartialArray::<f64, 2>::from([0.425, -0.0]));
    requires_debug(PartialArray::<i32, 3>::from([1, 2, 7]));
    requires_debug(PartialArray::<&str, 1>::from([" "]).into_iter());
    requires_debug(PartialArray::<f64, 1>::from([4.07]).into_iter());
}
