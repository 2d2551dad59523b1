use concurrency::error::Error;
use concurrency::matrix::{check_compatible, Matrix};
use concurrency::pool::{multiply, multiply_with_workers};

#[test]
fn test_matrix() {
    let a = Matrix::new(vec![1, 2, 3, 4, 5, 6], 2, 3);
    let b = Matrix::new(vec![1, 2, 3, 4, 5, 6], 3, 2);
    let c = a * b;
    assert_eq!(c.to_debug_string(), "Matrix(rows=2,cols=2,{22 28, 49 64})");
}

#[test]
fn test_matrix_error() {
    let a = Matrix::new(vec![1, 2, 3, 4, 5, 6, 7, 8, 9], 3, 3);
    let b = Matrix::new(vec![1, 2, 3, 4, 5, 6], 3, 2);
    let c = a * b;
    assert_ne!(c.to_debug_string(), "Matrix(rows=2,cols=2,{22 28, 49 64})");
}

#[test]
fn product_of_two_by_three_and_three_by_two() {
    let a = Matrix::new(vec![1, 2, 3, 4, 5, 6], 2, 3);
    let b = Matrix::new(vec![1, 2, 3, 4, 5, 6], 3, 2);
    let c = multiply(&a, &b).unwrap();
    assert_eq!(c.rows(), 2);
    assert_eq!(c.cols(), 2);
    assert_eq!(c.data(), &vec![22, 28, 49, 64]);
}

#[test]
fn product_of_three_by_three_keeps_all_three_rows() {
    let a = Matrix::new(vec![1, 2, 3, 4, 5, 6, 7, 8, 9], 3, 3);
    let b = Matrix::new(vec![1, 2, 3, 4, 5, 6], 3, 2);
    let c = multiply(&a, &b).unwrap();
    assert_eq!(c.rows(), 3);
    assert_eq!(c.cols(), 2);
    assert_eq!(c.data(), &vec![22, 28, 49, 64, 76, 100]);
    assert_eq!(c.to_debug_string(), "Matrix(rows=3,cols=2,{22 28, 49 64, 76 100})");
}

#[test]
fn product_refused_when_inner_dimensions_differ() {
    let a = Matrix::new(vec![1, 2, 3, 4, 5, 6], 2, 3);
    let b = Matrix::new(vec![1, 2, 3, 4], 2, 2);
    assert!(matches!(multiply(&a, &b), Err(Error::DimensionMismatch)));
    assert!(matches!(multiply_with_workers(&a, &b, 1), Err(Error::DimensionMismatch)));
    assert_eq!(check_compatible(&a, &b), Err(Error::DimensionMismatch));
    assert_eq!(check_compatible(&b, &a), Ok(()));
}

fn reference_product(a: &[i64], b: &[i64], rows: usize, inner: usize, cols: usize) -> Vec<i64> {
    let mut out = vec![0i64; rows * cols];
    for i in 0..rows {
        for j in 0..cols {
            for k in 0..inner {
                out[i * cols + j] += a[i * inner + k] * b[k * cols + j];
            }
        }
    }
    out
}

#[test]
fn product_is_the_same_for_every_number_of_workers() {
    let a_data: Vec<i64> = (0..35).map(|x| (x * 7 % 11) - 5).collect();
    let b_data: Vec<i64> = (0..42).map(|x| (x * 5 % 13) - 6).collect();
    let expected = reference_product(&a_data, &b_data, 5, 7, 6);
    for workers in [1usize, 2, 4, 8] {
        let a = Matrix::new(a_data.clone(), 5, 7);
        let b = Matrix::new(b_data.clone(), 7, 6);
        let c = multiply_with_workers(&a, &b, workers).unwrap();
        assert_eq!(c.rows(), 5);
        assert_eq!(c.cols(), 6);
        assert_eq!(c.data(), &expected);
    }
    let a = Matrix::new(a_data, 5, 7);
    let b = Matrix::new(b_data, 7, 6);
    assert_eq!(multiply(&a, &b).unwrap().data(), &expected);
}

#[test]
fn product_with_more_workers_than_cells() {
    let a = Matrix::new(vec![2u32, 3], 1, 2);
    let b = Matrix::new(vec![5u32, 7], 2, 1);
    let c = multiply_with_workers(&a, &b, 16).unwrap();
    assert_eq!(c.data(), &vec![31u32]);
}

#[test]
fn product_of_empty_shapes() {
    let a: Matrix<i32> = Matrix::new(vec![], 0, 3);
    let b: Matrix<i32> = Matrix::new(vec![], 3, 0);
    let c = multiply(&a, &b).unwrap();
    assert_eq!((c.rows(), c.cols(), c.data().len()), (0, 0, 0));

    let a: Matrix<i32> = Matrix::new(vec![], 2, 0);
    let b: Matrix<i32> = Matrix::new(vec![], 0, 3);
    let c = multiply(&a, &b).unwrap();
    assert_eq!((c.rows(), c.cols()), (2, 3));
    assert_eq!(c.data(), &vec![0, 0, 0, 0, 0, 0]);
}

#[test]
fn rows_and_columns_are_read_from_the_row_major_buffer() {
    let m = Matrix::new(vec![1, 2, 3, 4, 5, 6], 2, 3);
    assert_eq!(*m.row(0), vec![1, 2, 3]);
    assert_eq!(*m.row(1), vec![4, 5, 6]);
    assert_eq!(*m.col(0), vec![1, 4]);
    assert_eq!(*m.col(1), vec![2, 5]);
    assert_eq!(*m.col(2), vec![3, 6]);
}

#[test]
fn checked_constructor_accepts_the_right_length_only() {
    let m = Matrix::try_new(vec![1, 2, 3, 4, 5, 6], 3, 2).unwrap();
    assert_eq!((m.rows(), m.cols()), (3, 2));
    assert_eq!(m.data(), &vec![1, 2, 3, 4, 5, 6]);
    assert!(matches!(Matrix::try_new(vec![1, 2, 3, 4, 5], 3, 2), Err(Error::ShapeMismatch)));
    assert!(matches!(Matrix::try_new(vec![1, 2, 3, 4, 5, 6, 7], 3, 2), Err(Error::ShapeMismatch)));
    assert!(matches!(Matrix::try_new(Vec::<u8>::new(), usize::MAX, 2), Err(Error::ShapeMismatch)));
    assert!(Matrix::try_new(Vec::<u8>::new(), 0, 7).is_ok());
}

#[test]
fn default_matrix_is_empty() {
    let m: Matrix<i32> = Matrix::default();
    assert_eq!((m.rows(), m.cols(), m.data().len()), (0, 0, 0));
    assert_eq!(m.to_string(), "{}");
    assert_eq!(m.to_debug_string(), "Matrix(rows=0,cols=0,{})");
}

#[test]
fn text_of_a_matrix() {
    let m = Matrix::new(vec![1, 2, 3, 4, 5, 6], 2, 3);
    assert_eq!(m.to_string(), "{1 2 3, 4 5 6}");
    assert_eq!(m.to_debug_string(), "Matrix(rows=2,cols=3,{1 2 3, 4 5 6})");
    let m = Matrix::new(vec![1, 2, 3, 4, 5, 6], 3, 2);
    assert_eq!(m.to_string(), "{1 2, 3 4, 5 6}");
    let m = Matrix::new(vec!["a", "b"], 1, 2);
    assert_eq!(m.to_string(), "{\"a\" \"b\"}");
    let m = Matrix::new(vec![-7i64], 1, 1);
    assert_eq!(m.to_string(), "{-7}");
}

#[test]
fn text_of_matrices_without_cells() {
    let m: Matrix<i32> = Matrix::new(vec![], 2, 0);
    assert_eq!(m.to_string(), "{, }");
    let m: Matrix<i32> = Matrix::new(vec![], 0, 3);
    assert_eq!(m.to_string(), "{}");
    let m: Matrix<i32> = Matrix::new(vec![], 3, 0);
    assert_eq!(m.to_debug_string(), "Matrix(rows=3,cols=0,{, , })");
}

#[test]
fn text_is_the_same_each_time() {
    let m = Matrix::new(vec![10, 20, 30, 40], 2, 2);
    let first = m.to_string();
    let second = m.to_string();
    assert_eq!(first, second);
    assert_eq!(first, "{10 20, 30 40}");
    assert_eq!(m.to_debug_string(), m.to_debug_string());
}
