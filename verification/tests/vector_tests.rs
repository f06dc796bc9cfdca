use matrix::Vector;

#[test]
fn vector_add() {
    let mut u = Vector::from(&[2., 3.]);
    let v = Vector::from(&[5., 7.]);
    u.add(&v);
    assert_eq!(vec![7.0, 10.0], u.positions);

    let mut u = Vector::from(&[0, 0]);
    let v = Vector::from(&[0, 0]);
    u.add(&v);
    assert_eq!(vec![0, 0], u.positions);

    let mut u = Vector::from(&[1, 0]);
    let v = Vector::from(&[0, 1]);
    u.add(&v);
    assert_eq!(vec![1, 1], u.positions);

    let mut u = Vector::from(&[1, 1]);
    let v = Vector::from(&[1, 1]);
    u.add(&v);
    assert_eq!(vec![2, 2], u.positions);

    let mut u = Vector::from(&[21, 21]);
    let v = Vector::from(&[21, 21]);
    u.add(&v);
    assert_eq!(vec![42, 42], u.positions);

    let mut u = Vector::from(&[-21, 21]);
    let v = Vector::from(&[21, -21]);
    u.add(&v);
    assert_eq!(vec![0, 0], u.positions);

    let mut u = Vector::from(&[0, 1, 2, 3, 4, 5, 6, 7, 8, 9]);
    let v = Vector::from(&[9, 8, 7, 6, 5, 4, 3, 2, 1, 0]);
    u.add(&v);
    assert_eq!(vec![9, 9, 9, 9, 9, 9, 9, 9, 9, 9], u.positions);
}

#[test]
fn vector_sub() {
    let mut u = Vector::from(&[2., 3.]);
    let v = Vector::from(&[5., 7.]);
    u.sub(&v);
    assert_eq!(vec![-3.0, -4.0], u.positions);

    let mut u = Vector::from(&[0, 0]);
    let v = Vector::from(&[0, 0]);
    u.sub(&v);
    assert_eq!(vec![0, 0], u.positions);

    let mut u = Vector::from(&[1, 0]);
    let v = Vector::from(&[0, 1]);
    u.sub(&v);
    assert_eq!(vec![1, -1], u.positions);

    let mut u = Vector::from(&[1, 1]);
    let v = Vector::from(&[1, 1]);
    u.sub(&v);
    assert_eq!(vec![0, 0], u.positions);

    let mut u = Vector::from(&[21, 21]);
    let v = Vector::from(&[21, 21]);
    u.sub(&v);
    assert_eq!(vec![0, 0], u.positions);

    let mut u = Vector::from(&[-21, 21]);
    let v = Vector::from(&[21, -21]);
    u.sub(&v);
    assert_eq!(vec![-42, 42], u.positions);

    let mut u = Vector::from(&[0, 1, 2, 3, 4, 5, 6, 7, 8, 9]);
    let v = Vector::from(&[9, 8, 7, 6, 5, 4, 3, 2, 1, 0]);
    u.sub(&v);
    assert_eq!(vec![-9, -7, -5, -3, -1, 1, 3, 5, 7, 9], u.positions);
}

#[test]
fn vector_scale() {
    let mut u = Vector::from(&[2., 3.]);
    u.scl(2.);
    assert_eq!(vec![4.0, 6.0], u.positions);

    let mut u = Vector::from(&[0, 0]);
    u.scl(1);
    assert_eq!(vec![0, 0], u.positions);

    let mut u = Vector::from(&[1, 0]);
    u.scl(1);
    assert_eq!(vec![1, 0], u.positions);

    let mut u = Vector::from(&[1, 1]);
    u.scl(2);
    assert_eq!(vec![2, 2], u.positions);

    let mut u = Vector::from(&[21, 21]);
    u.scl(2);
    assert_eq!(vec![42, 42], u.positions);

    let mut u = Vector::from(&[42., 42.]);
    u.scl(0.5);
    assert_eq!(vec![21., 21.], u.positions);
}

#[test]
fn dot_basics() {
    let u = Vector::from(&[0., 0.]);
    let v = Vector::from(&[1., 1.]);
    assert_eq!(0.0, u.dot(v));
    let u = Vector::from(&[1., 1.]);
    let v = Vector::from(&[1., 1.]);
    assert_eq!(2., u.dot(v));
    let u = Vector::from(&[-1., 6.]);
    let v = Vector::from(&[3., 2.]);
    assert_eq!(9., u.dot(v));
}

#[test]
fn dot_more() {
    let u = Vector::from(&[0, 0]);
    let v = Vector::from(&[0, 0]);
    assert_eq!(0, u.dot(v));

    let u = Vector::from(&[1, 0]);
    let v = Vector::from(&[0, 0]);
    assert_eq!(0, u.dot(v));

    let u = Vector::from(&[1, 0]);
    let v = Vector::from(&[1, 0]);
    assert_eq!(1, u.dot(v));

    let u = Vector::from(&[1, 0]);
    let v = Vector::from(&[0, 1]);
    assert_eq!(0, u.dot(v));

    let u = Vector::from(&[1, 1]);
    let v = Vector::from(&[1, 1]);
    assert_eq!(2, u.dot(v));

    let u = Vector::from(&[4, 2]);
    let v = Vector::from(&[2, 1]);
    assert_eq!(10, u.dot(v));
}
