use simple_matrices::dynamic::row_major::DynamicMatrix;
use simple_matrices::errors::indexing_error::IndexingError;
use simple_matrices::errors::shape_error::ShapeError;

fn three_by_three() -> DynamicMatrix<usize> {
    DynamicMatrix::new([[1, 2, 3], [4, 5, 6], [7, 8, 9]])
}

#[test]
fn new_from_nested_array() {
    let mat: DynamicMatrix<isize> = DynamicMatrix::new([[1, 2, 3], [4, 5, 6], [7, 8, 9]]);

    assert_eq!(mat.shape(), (3, 3));
    assert_eq!(mat.as_slice(), [1, 2, 3, 4, 5, 6, 7, 8, 9]);
}

#[test]
fn new_from_nested_array_non_square() {
    let mat: DynamicMatrix<i32> = DynamicMatrix::new([[1, 2], [3, 4], [5, 6]]);

    assert_eq!(mat.shape(), (3, 2));
    assert_eq!(mat.as_slice(), [1, 2, 3, 4, 5, 6]);
    assert_eq!(*mat.get((2, 1)).unwrap(), 6);
}

#[test]
fn new_with_cols_is_empty() {
    let mat: DynamicMatrix<isize> = DynamicMatrix::new_with_cols(3);

    assert_eq!(mat.rows(), 0);
    assert_eq!(mat.cols(), 3);
    assert_eq!(mat.len(), 0);
    assert!(mat.as_slice().is_empty());
}

#[test]
fn with_capacity_reserves_space() {
    let mat: DynamicMatrix<isize> = DynamicMatrix::with_capacity((3, 3));

    assert_eq!(mat.rows(), 0);
    assert_eq!(mat.cols(), 3);
    assert!(mat.capacity() >= 9);
    assert_eq!(mat.len(), 0);
}

#[test]
fn with_capacity_does_not_reallocate_when_filled() {
    let mut mat: DynamicMatrix<isize> = DynamicMatrix::with_capacity((3, 3));
    let before = mat.capacity();

    mat.push_row(vec![1, 2, 3]).unwrap();
    mat.push_row(vec![4, 5, 6]).unwrap();
    mat.push_row(vec![7, 8, 9]).unwrap();

    assert_eq!(mat.capacity(), before);
    assert_eq!(mat.shape(), (3, 3));
}

#[test]
fn capacity_covers_length() {
    let mat = three_by_three();

    assert!(mat.capacity() >= mat.len());
    assert_eq!(mat.len(), 9);
}

#[test]
fn rows_cols_shape_len() {
    let mat = three_by_three();

    assert_eq!(mat.rows(), 3);
    assert_eq!(mat.cols(), 3);
    assert_eq!(mat.shape(), (3, 3));
    assert_eq!(mat.len(), 9);
}

#[test]
fn push_row_appends() {
    let mut mat: DynamicMatrix<isize> = DynamicMatrix::new_with_cols(3);

    mat.push_row(vec![1, 2, 3]).unwrap();
    mat.push_row(vec![4, 5, 6]).unwrap();
    mat.push_row(vec![7, 8, 9]).unwrap();

    assert_eq!(mat.as_slice(), [1, 2, 3, 4, 5, 6, 7, 8, 9]);
    assert_eq!(mat.rows(), 3);
}

#[test]
fn push_row_adds_one_row_at_the_end() {
    let mut mat = three_by_three();

    mat.push_row(vec![10, 11, 12]).unwrap();

    assert_eq!(mat.rows(), 4);
    assert_eq!(mat.cols(), 3);
    assert_eq!(&mat.as_slice()[9..], [10, 11, 12]);
    assert_eq!(mat.len(), mat.rows() * mat.cols());
}

#[test]
fn push_row_rejects_wrong_length() {
    let mut mat: DynamicMatrix<isize> = DynamicMatrix::new_with_cols(3);
    mat.push_row(vec![1, 2, 3]).unwrap();

    let err = mat.push_row(vec![1, 2, 3, 4]).unwrap_err();

    assert_eq!(err.expected_cols, 3);
    assert_eq!(err.cols, 4);
    assert_eq!(err, ShapeError::new_cols_error(4, 3));
    assert_eq!(mat.as_slice(), [1, 2, 3]);
    assert_eq!(mat.shape(), (1, 3));
}

#[test]
fn push_row_rejects_short_row() {
    let mut mat: DynamicMatrix<isize> = DynamicMatrix::new_with_cols(3);

    let err = mat.push_row(vec![1, 2]).unwrap_err();

    assert_eq!(err, ShapeError::new((0, 2), (0, 3)));
    assert_eq!(mat.len(), 0);
}

#[test]
fn push_row_empty_into_zero_columns() {
    let mut mat: DynamicMatrix<isize> = DynamicMatrix::new_with_cols(0);

    assert!(mat.push_row(Vec::new()).is_ok());
    assert_eq!(mat.len(), 0);
    assert_eq!(mat.cols(), 0);
    assert!(mat.push_row(vec![1]).is_err());
}

#[test]
fn push_col_inserts_after_each_row() {
    let mut mat: DynamicMatrix<isize> = DynamicMatrix::new_with_cols(2);

    mat.push_row(vec![1, 2]).unwrap();
    mat.push_row(vec![4, 5]).unwrap();
    mat.push_row(vec![7, 8]).unwrap();

    mat.push_col(vec![3, 6, 9]).unwrap();

    assert_eq!(mat.as_slice(), &[1, 2, 3, 4, 5, 6, 7, 8, 9]);
    assert_eq!(mat.cols(), 3);
    assert_eq!(mat.rows(), 3);
}

#[test]
fn push_col_rejects_wrong_length() {
    let mut mat: DynamicMatrix<isize> = DynamicMatrix::new_with_cols(2);

    mat.push_row(vec![1, 2]).unwrap();
    mat.push_row(vec![4, 5]).unwrap();
    mat.push_row(vec![7, 8]).unwrap();

    let err = mat.push_col(vec![3, 6]).unwrap_err();

    assert_eq!(err.expected_rows, 3);
    assert_eq!(err.rows, 2);
    assert_eq!(err, ShapeError::new_rows_error(2, 3));
    assert_eq!(mat.as_slice(), &[1, 2, 4, 5, 7, 8]);
    assert_eq!(mat.shape(), (3, 2));
}

#[test]
fn push_col_into_zero_rows_grows_width() {
    let mut mat: DynamicMatrix<isize> = DynamicMatrix::new_with_cols(2);

    mat.push_col(Vec::new()).unwrap();

    assert_eq!(mat.cols(), 3);
    assert_eq!(mat.rows(), 0);
    assert_eq!(mat.len(), 0);
    assert!(mat.push_col(vec![1]).is_err());
    mat.push_row(vec![1, 2, 3]).unwrap();
    assert_eq!(mat.shape(), (1, 3));
}

#[test]
fn push_col_twice_keeps_row_major_order() {
    let mut mat: DynamicMatrix<usize> = DynamicMatrix::new([[1], [4]]);

    mat.push_col(vec![2, 5]).unwrap();
    mat.push_col(vec![3, 6]).unwrap();

    assert_eq!(mat.as_slice(), [1, 2, 3, 4, 5, 6]);
    assert_eq!(mat.shape(), (2, 3));
}

#[test]
fn shape_invariant_after_mixed_appends() {
    let mut mat: DynamicMatrix<usize> = DynamicMatrix::new_with_cols(1);

    for k in 0..4 {
        mat.push_row(vec![k]).unwrap();
        assert_eq!(mat.len(), mat.rows() * mat.cols());
    }
    mat.push_col(vec![10, 11, 12, 13]).unwrap();
    assert_eq!(mat.len(), mat.rows() * mat.cols());
    mat.push_row(vec![20, 21]).unwrap();
    assert_eq!(mat.len(), mat.rows() * mat.cols());
    assert!(mat.push_row(vec![1]).is_err());
    assert_eq!(mat.len(), mat.rows() * mat.cols());
    assert_eq!(mat.as_slice(), [0, 10, 1, 11, 2, 12, 3, 13, 20, 21]);
}

#[test]
fn get_returns_row_major_elements() {
    let mat = three_by_three();

    for row in 0..mat.rows() {
        for col in 0..mat.cols() {
            assert_eq!(*mat.get((row, col)).unwrap(), 3 * row + col + 1);
        }
    }
}

#[test]
fn get_from_boxed_slice() {
    let mat = DynamicMatrix::from_boxed_slice(Box::new([1, 2, 3, 4, 5, 6, 7, 8, 9]), 3);

    for row in 0..3 {
        for col in 0..3 {
            assert_eq!(*mat.get((row, col)).unwrap(), 3 * row + col + 1);
        }
    }
}

#[test]
fn get_out_of_bounds_reports_both() {
    let mat = three_by_three();

    let err = mat.get((3, 3)).unwrap_err();

    assert_eq!(err, IndexingError::new((3, 3), (3, 3)));
    assert_eq!(err.row, 3);
    assert_eq!(err.col, 3);
    assert_eq!(err.nrows, 3);
    assert_eq!(err.ncols, 3);
}

#[test]
fn get_out_of_bounds_single_coordinate() {
    let mat = three_by_three();

    assert_eq!(mat.get((3, 0)).unwrap_err(), IndexingError::new((3, 0), (3, 3)));
    assert_eq!(mat.get((0, 3)).unwrap_err(), IndexingError::new((0, 3), (3, 3)));
    assert!(mat.get((2, 2)).is_ok());
}

#[test]
fn get_mut_updates_elements() {
    let mut mat = three_by_three();

    for row in 0..mat.rows() {
        for col in 0..mat.cols() {
            *mat.get_mut((row, col)).unwrap() += 9;
        }
    }

    assert_eq!(mat.as_slice(), &[10, 11, 12, 13, 14, 15, 16, 17, 18]);
}

#[test]
fn get_mut_out_of_bounds() {
    let mut mat = three_by_three();

    let err = mat.get_mut((3, 3)).unwrap_err();

    assert_eq!(err, IndexingError::new((3, 3), (3, 3)));
    assert_eq!(mat.as_slice(), &[1, 2, 3, 4, 5, 6, 7, 8, 9]);
}

#[test]
fn index_operator() {
    let mat = three_by_three();

    for row in 0..mat.rows() {
        for col in 0..mat.cols() {
            assert_eq!(mat[(row, col)], 3 * row + col + 1);
        }
    }
}

#[test]
fn as_mut_slice_writes_through() {
    let mut mat = three_by_three();
    let mat_slice = mat.as_mut_slice();

    mat_slice[0] = 10;
    mat_slice[1] = 11;
    mat_slice[2] = 12;

    assert_eq!(mat.as_slice(), &[10, 11, 12, 4, 5, 6, 7, 8, 9]);
}

#[test]
fn into_boxed_slice_detaches() {
    let mat = three_by_three();

    let (slice, cols) = mat.into_boxed_slice();

    assert_eq!(cols, 3);
    assert_eq!(slice.as_ref(), [1, 2, 3, 4, 5, 6, 7, 8, 9]);
}

#[test]
fn from_boxed_slice_attaches() {
    let boxed_slice = Box::new([1, 2, 3, 4, 5, 6, 7, 8, 9]);
    let mat = DynamicMatrix::from_boxed_slice(boxed_slice, 3);

    assert_eq!(mat.cols(), 3);
    assert_eq!(mat.rows(), 3);
    assert_eq!(mat.as_slice(), &[1, 2, 3, 4, 5, 6, 7, 8, 9]);
}

#[test]
fn boxed_round_trip() {
    let mut mat: DynamicMatrix<usize> = DynamicMatrix::new([[1, 2], [3, 4], [5, 6]]);
    mat.push_col(vec![7, 8, 9]).unwrap();
    let shape = mat.shape();
    let elems = mat.as_slice().to_vec();

    let (slice, cols) = mat.into_boxed_slice();
    let back = DynamicMatrix::from_boxed_slice(slice, cols);

    assert_eq!(back.shape(), shape);
    assert_eq!(back.as_slice(), elems.as_slice());
}

#[test]
fn vec_round_trip() {
    let mat = three_by_three();

    let (data, cols) = mat.into_vec();
    assert_eq!(data, vec![1, 2, 3, 4, 5, 6, 7, 8, 9]);
    assert_eq!(cols, 3);

    let back = DynamicMatrix::from_vec(data, cols);
    assert_eq!(back.shape(), (3, 3));
    assert_eq!(*back.get((1, 2)).unwrap(), 6);
}

#[test]
fn shape_error_constructors() {
    let e = ShapeError::new((2, 3), (4, 5));
    assert_eq!((e.rows, e.cols, e.expected_rows, e.expected_cols), (2, 3, 4, 5));

    let r = ShapeError::new_rows_error(2, 3);
    assert_eq!((r.rows, r.cols, r.expected_rows, r.expected_cols), (2, 0, 3, 0));

    let c = ShapeError::new_cols_error(4, 3);
    assert_eq!((c.rows, c.cols, c.expected_rows, c.expected_cols), (0, 4, 0, 3));
}

#[test]
fn indexing_error_constructor() {
    let e = IndexingError::new((5, 1), (3, 2));
    assert_eq!((e.row, e.col, e.nrows, e.ncols), (5, 1, 3, 2));
}
