#![allow(unused_mut)]

use matrix::Matrix;

#[test]
fn indentity_matrix_basics() {
    let mut u: Matrix<f32> = Matrix::from(&[&[1., 2.], &[3., 4.]]);
    let result = u.identity_matrix();
    assert_eq!(result.positions[0], vec![1., 0.]);
    assert_eq!(result.positions[1], vec![0., 1.]);

    let mut u: Matrix<f32> = Matrix::from(&[&[1., 2., 3.], &[4., 5., 6.], &[7., 8., 9.]]);
    let result = u.identity_matrix();
    assert_eq!(result.positions[0], vec![1., 0., 0.]);
    assert_eq!(result.positions[1], vec![0., 1., 0.]);
    assert_eq!(result.positions[2], vec![0., 0., 1.]);

    let mut u: Matrix<f32> = Matrix::from(&[
        &[1., 2., 3., 4.],
        &[5., 6., 7., 8.],
        &[8., 9., 10., 11.],
        &[12., 13., 14., 15.],
    ]);
    let result = u.identity_matrix();
    assert_eq!(result.positions[0], vec![1., 0., 0., 0.]);
    assert_eq!(result.positions[1], vec![0., 1., 0., 0.]);
    assert_eq!(result.positions[2], vec![0., 0., 1., 0.]);
    assert_eq!(result.positions[3], vec![0., 0., 0., 1.]);
}

#[test]
fn inverse_matrix_2x2() {
    let mut u: Matrix<f32> = Matrix::from(&[&[1., 0.], &[0., 1.]]);
    let result = u.inverse();
    match result {
        Ok(r) => {
            assert_eq!(r.positions[0], vec![1., 0.]);
            assert_eq!(r.positions[1], vec![0., 1.]);
        }
        Err(_) => {
            assert_eq!(0, 1);
        }
    }

    let mut u: Matrix<f32> = Matrix::from(&[&[2., 0.], &[0., 2.]]);
    let result = u.inverse();
    match result {
        Ok(r) => {
            assert_eq!(r.positions[0], vec![0.5, 0.]);
            assert_eq!(r.positions[1], vec![0., 0.5]);
        }
        Err(_) => {
            assert_eq!(0, 1);
        }
    }

    let mut u: Matrix<f32> = Matrix::from(&[&[0.5, 0.], &[0., 0.5]]);
    let result = u.inverse();
    match result {
        Ok(r) => {
            assert_eq!(r.positions[0], vec![2., 0.]);
            assert_eq!(r.positions[1], vec![0., 2.]);
        }
        Err(_) => {
            assert_eq!(0, 1);
        }
    }

    let mut u: Matrix<f32> = Matrix::from(&[&[0., 1.], &[1., 0.]]);
    let result = u.inverse();
    match result {
        Ok(r) => {
            assert_eq!(r.positions[0], vec![0., 1.]);
            assert_eq!(r.positions[1], vec![1., 0.]);
        }
        Err(_) => {
            assert_eq!(0, 1);
        }
    }

    let mut u: Matrix<f32> = Matrix::from(&[&[1., 2.], &[3., 4.]]);
    let result = u.inverse();
    match result {
        Ok(r) => {
            assert_eq!(r.positions[0], vec![-2., 1.]);
            assert_eq!(r.positions[1], vec![1.5, -0.5]);
        }
        Err(_) => {
            assert_eq!(0, 1);
        }
    }

    let mut u: Matrix<f32> = Matrix::from(&[&[4., 7.], &[2., 6.]]);
    let result = u.inverse();
    match result {
        Ok(r) => {
            assert_eq!(r.positions[0], vec![0.6, -0.7]);
            assert_eq!(r.positions[1], vec![-0.2, 0.4]);
        }
        Err(_) => {
            assert_eq!(0, 1);
        }
    }
}

#[test]
fn inverse_matrix_3x3() {
    let mut u: Matrix<f32> = Matrix::from(&[&[1., 0., 0.], &[0., 1., 0.], &[0., 0., 1.]]);
    let result = u.inverse();
    match result {
        Ok(r) => {
            assert_eq!(r.positions[0], vec![1., 0., 0.]);
            assert_eq!(r.positions[1], vec![0., 1., 0.]);
            assert_eq!(r.positions[2], vec![0., 0., 1.]);
        }
        Err(_) => {
            assert_eq!(0, 1);
        }
    }

    let mut u: Matrix<f32> = Matrix::from(&[&[2., 0., 0.], &[0., 2., 0.], &[0., 0., 2.]]);
    let result = u.inverse();
    match result {
        Ok(r) => {
            assert_eq!(r.positions[0], vec![0.5, 0., 0.]);
            assert_eq!(r.positions[1], vec![0., 0.5, 0.]);
            assert_eq!(r.positions[2], vec![0., 0., 0.5]);
        }
        Err(_) => {
            assert_eq!(0, 1);
        }
    }

    let mut u: Matrix<f32> = Matrix::from(&[&[8., 5., -2.], &[4., 7., 20.], &[7., 6., 1.]]);
    let result = u.inverse();
    match result {
        Ok(r) => {
            assert_eq!(r.positions[0], vec![0.649425287, 0.097701149, -0.655172414]);
            assert_eq!(
                r.positions[1],
                vec![-0.781609195, -0.126436782, 0.965517241]
            );
            assert_eq!(r.positions[2], vec![0.143678161, 0.07471265, -0.206896552]);
        }
        Err(_) => {
            assert_eq!(0, 1);
        }
    }
}
