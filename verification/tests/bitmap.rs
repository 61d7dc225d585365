use pyxelxl::bitmap::{shape_fits, Bitmap};

#[test]
fn zeros_has_the_shape_and_only_zeros() {
    let b = Bitmap::zeros(2, 3).unwrap();
    assert_eq!(b.nrows(), 2);
    assert_eq!(b.ncols(), 3);
    assert_eq!(b.to_rows(), vec![vec![0, 0, 0], vec![0, 0, 0]]);
}

#[test]
fn zeros_without_rows_keeps_its_width() {
    let b = Bitmap::zeros(0, 5).unwrap();
    assert_eq!(b.nrows(), 0);
    assert_eq!(b.ncols(), 5);
    assert_eq!(b.to_rows(), Vec::<Vec<u8>>::new());
    let c = Bitmap::zeros(4, 0).unwrap();
    assert_eq!(c.nrows(), 4);
    assert_eq!(c.ncols(), 0);
    assert_eq!(c.to_rows(), vec![Vec::<u8>::new(); 4]);
}

#[test]
fn zeros_refuses_what_cannot_be_allocated() {
    assert!(Bitmap::zeros(usize::MAX, 2).is_none());
    assert!(Bitmap::zeros(2, usize::MAX).is_none());
    assert!(Bitmap::zeros(usize::MAX, 0).is_none());
    assert!(Bitmap::zeros(isize::MAX as usize, 2).is_none());
}

#[test]
fn shape_fits_bounds() {
    let limit = isize::MAX as usize;
    assert!(shape_fits(0, 0));
    assert!(shape_fits(limit, 1));
    assert!(shape_fits(1, limit));
    assert!(shape_fits(limit, 0));
    assert!(!shape_fits(limit + 1, 0));
    assert!(!shape_fits(0, limit + 1));
    assert!(!shape_fits(limit, 2));
    assert!(shape_fits(limit / 2, 2));
    assert!(!shape_fits(limit / 2 + 1, 2));
}

#[test]
fn from_rows_and_back() {
    let rows = vec![vec![1, 2, 3], vec![4, 5, 6]];
    let b = Bitmap::from_rows(&rows).unwrap();
    assert_eq!(b.nrows(), 2);
    assert_eq!(b.ncols(), 3);
    assert_eq!(b.to_rows(), rows);
}

#[test]
fn from_rows_of_nothing_is_empty() {
    let b = Bitmap::from_rows(&Vec::new()).unwrap();
    assert_eq!(b.nrows(), 0);
    assert_eq!(b.ncols(), 0);
}

#[test]
fn from_rows_refuses_ragged_rows() {
    assert!(Bitmap::from_rows(&vec![vec![1, 2], vec![3]]).is_none());
    assert!(Bitmap::from_rows(&vec![vec![1], vec![2, 3]]).is_none());
    assert!(Bitmap::from_rows(&vec![vec![], vec![1]]).is_none());
}

#[test]
fn get_reads_row_then_column() {
    let b = Bitmap::from_rows(&vec![vec![1, 2, 3], vec![4, 5, 6]]).unwrap();
    assert_eq!(b.get(0, 0), Some(1));
    assert_eq!(b.get(0, 2), Some(3));
    assert_eq!(b.get(1, 0), Some(4));
    assert_eq!(b.get(1, 2), Some(6));
}

#[test]
fn get_outside_is_none() {
    let b = Bitmap::from_rows(&vec![vec![1, 2, 3], vec![4, 5, 6]]).unwrap();
    assert_eq!(b.get(2, 0), None);
    assert_eq!(b.get(0, 3), None);
    assert_eq!(b.get(usize::MAX, usize::MAX), None);
}

#[test]
fn weight_is_the_number_of_cells() {
    assert_eq!(Bitmap::zeros(7, 9).unwrap().weight(), 63);
    assert_eq!(Bitmap::zeros(0, 9).unwrap().weight(), 0);
    assert_eq!(Bitmap::zeros(1, 1).unwrap().weight(), 1);
}
