use ndarray::ShapeBuilder;
use nshare::{ArrayView2, ArrayView3, ArrayViewMut1, ArrayViewMut3, ConvertError, Layout, View2};

#[test]
fn layout_fits_by_its_extreme_positions() {
    let l = Layout { offset: 5, dim: (2, 3, 4), strides: (-5, 6, 1) };
    assert_eq!(l.position(21, 1, 2, 3), 15);
    assert_eq!(l.position(21, 1, 0, 0), 0);
    assert_eq!(l.position(21, 0, 2, 3), 20);
    assert!(l.fits(21));
    assert!(!l.fits(20));
    let low = Layout { offset: 4, dim: (2, 3, 4), strides: (-5, 6, 1) };
    assert!(!low.fits(100));
    let empty = Layout { offset: 9, dim: (2, 0, 4), strides: (-50, 60, 70) };
    assert!(empty.fits(0));
    let wide = Layout { offset: 0, dim: (1, 1, 2), strides: (0, 0, i128::MAX) };
    assert!(!wide.fits(usize::MAX));
    let single = Layout { offset: 3, dim: (1, 1, 1), strides: (i128::MIN, i128::MAX, -7) };
    assert!(single.fits(4));
    assert!(!single.fits(3));
}

#[test]
fn layout_gathers_in_row_major_order() {
    let data: Vec<u8> = (0..12).collect();
    let l = Layout { offset: 0, dim: (2, 3, 2), strides: (1, 4, 2) };
    assert_eq!(l.gather(&data), vec![0, 2, 4, 6, 8, 10, 1, 3, 5, 7, 9, 11]);
    let reversed = Layout { offset: 11, dim: (1, 3, 4), strides: (0, -4, -1) };
    assert_eq!(reversed.gather(&data), vec![11, 10, 9, 8, 7, 6, 5, 4, 3, 2, 1, 0]);
    let none = Layout { offset: 0, dim: (0, 3, 4), strides: (0, 4, 1) };
    assert_eq!(none.gather(&data), Vec::<u8>::new());
    assert_eq!(l.get(&data, 1, 2, 1), Some(&11));
    assert_eq!(l.get(&data, 2, 0, 0), None);
    assert_eq!(l.get(&data[..11], 0, 0, 0), None);
}

#[test]
fn layout_axes_move_without_moving_elements() {
    let data: Vec<u8> = (0..24).collect();
    let l = Layout { offset: 0, dim: (2, 3, 4), strides: (12, 4, 1) };
    let r = l.to_rotated();
    assert_eq!(r, Layout { offset: 0, dim: (3, 4, 2), strides: (4, 1, 12) });
    let s = l.to_swapped();
    assert_eq!(s, Layout { offset: 0, dim: (2, 4, 3), strides: (12, 1, 4) });
    for i in 0..2 {
        for j in 0..3 {
            for k in 0..4 {
                assert_eq!(r.get(&data, j, k, i), l.get(&data, i, j, k));
                assert_eq!(s.get(&data, i, k, j), l.get(&data, i, j, k));
            }
        }
    }
}

#[test]
fn view_from_shape_checks_the_buffer() {
    let data = [0u8; 12];
    assert_eq!(
        ArrayView2::from_shape(0, (3, 4), (4, 1), &data),
        Ok(View2 { offset: 0, dim: (3, 4), strides: (4, 1) })
    );
    assert_eq!(ArrayView2::from_shape(1, (3, 4), (4, 1), &data), Err(ConvertError::ShapeMismatch));
    assert_eq!(ArrayView2::from_shape(0, (4, 4), (4, 1), &data), Err(ConvertError::ShapeMismatch));
    assert!(ArrayView2::from_shape(11, (3, 4), (-4, -1), &data).is_ok());
    assert!(ArrayView2::from_shape(10, (3, 4), (-4, -1), &data).is_err());
    assert!(ArrayView3::from_shape(0, (2, 2, 3), (6, 3, 1), &data).is_ok());
    assert!(ArrayView3::from_shape(0, (2, 2, 3), (6, 3, 2), &data).is_err());
    assert!(ArrayViewMut1::from_shape(0, 12, 1, &data).is_ok());
    assert!(ArrayViewMut1::from_shape(0, 13, 1, &data).is_err());
    assert!(ArrayViewMut1::from_shape(0, 13, 0, &data).is_ok());
    assert!(ArrayView2::from_shape(0, (0, 4), (4, 1), &data[..0]).is_ok());
    let real = ndarray::ArrayView2::from_shape((3, 4), &data).unwrap();
    assert_eq!(real.strides(), &[4, 1]);
}

#[test]
fn exclusive_view_writes_where_shared_view_reads() {
    let mut data: Vec<u16> = (0..24).collect();
    let writer = ArrayViewMut3 { offset: 0, dim: (2, 3, 4), strides: (12, 4, 1) };
    let reader = ArrayView3 { offset: 0, dim: (2, 3, 4), strides: (12, 4, 1) };
    assert_eq!(*reader.get(&data, 1, 2, 3).unwrap(), 23);
    assert!(writer.set(&mut data, 1, 2, 3, 500));
    assert_eq!(*reader.get(&data, 1, 2, 3).unwrap(), 500);
    assert_eq!(data[23], 500);
    assert!(!writer.set(&mut data, 2, 0, 0, 1));
    assert!(!writer.set(&mut data[..23], 0, 0, 0, 1));
    assert_eq!(data[0], 0);
    assert!(writer.fits(24));
    assert!(!writer.fits(23));
}

#[test]
fn views_that_the_array_crate_builds_are_views_here() {
    let data: Vec<u32> = (0..20).collect();
    let mut accepted = 0;
    for rows in 0..4usize {
        for cols in 0..4usize {
            for s0 in 0..6usize {
                for s1 in 0..6usize {
                    for len in 0..=data.len() {
                        let buffer = &data[..len];
                        let real = ndarray::ArrayView2::from_shape(
                            (rows, cols).strides((s0, s1)),
                            buffer,
                        );
                        let here = ArrayView2::from_shape(
                            0,
                            (rows, cols),
                            (s0 as isize, s1 as isize),
                            buffer,
                        );
                        match (&real, &here) {
                            (Ok(real), Ok(here)) => {
                                accepted += 1;
                                for i in 0..rows {
                                    for j in 0..cols {
                                        assert_eq!(real[[i, j]], *here.get(buffer, i, j).unwrap());
                                    }
                                }
                            }
                            (Ok(_), Err(_)) => panic!("refused a view that fits"),
                            (Err(_), Ok(_)) => assert!(rows == 0 || cols == 0),
                            (Err(_), Err(error)) => assert_eq!(*error, ConvertError::ShapeMismatch),
                        }
                    }
                }
            }
        }
    }
    assert!(accepted > 1000);
}
