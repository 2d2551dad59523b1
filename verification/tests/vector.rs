use concurrency::error::Error;
use concurrency::vector::{dot_product, Vector};

#[test]
fn dot_product_of_equal_lengths() {
    let a = Vector::new(vec![1, 2, 3]);
    let b = Vector::new(vec![4, 5, 6]);
    assert_eq!(dot_product(a, b), Ok(32));
    let a = Vector::new(vec![-2i64, 0, 9, 1]);
    let b = Vector::new(vec![3i64, 100, -1, 1]);
    assert_eq!(dot_product(a, b), Ok(-14));
    let a = Vector::new(vec![255u8]);
    let b = Vector::new(vec![1u8]);
    assert_eq!(dot_product(a, b), Ok(255));
}

#[test]
fn dot_product_of_empty_vectors_is_the_default_value() {
    let a: Vector<i32> = Vector::new(vec![]);
    let b: Vector<i32> = Vector::new(vec![]);
    assert_eq!(dot_product(a, b), Ok(0));
}

#[test]
fn dot_product_refuses_different_lengths() {
    for (n, m) in [(0usize, 1usize), (1, 0), (3, 2), (2, 3), (1, 9), (12, 4)] {
        let a = Vector::new(vec![1i32; n]);
        let b = Vector::new(vec![1i32; m]);
        assert_eq!(dot_product(a, b), Err(Error::DimensionMismatch));
    }
}

#[test]
fn vector_gives_its_elements_back() {
    let v = Vector::new(vec![7, 8, 9]);
    assert_eq!(v.len(), 3);
    assert_eq!(v[0], 7);
    assert_eq!(v[2], 9);
    assert_eq!(v.iter().copied().collect::<Vec<i32>>(), vec![7, 8, 9]);
    assert_eq!(*v, vec![7, 8, 9]);
    assert_eq!(v.first(), Some(&7));
    let empty: Vector<u8> = Vector::new(vec![]);
    assert_eq!(empty.len(), 0);
    assert_eq!(empty.iter().next(), None);
}
