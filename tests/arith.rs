use doctests_exercise::{DivError};

#[test]
fn it_works() {
    let result = doctests_exercise::add(2, 2);
    assert_eq!(result, 4);
}

#[test]
fn add_zero_is_identity() {
    assert_eq!(doctests_exercise::add(17, 0), 17);
    assert_eq!(doctests_exercise::add(0, 0), 0);
}

#[test]
fn add_commutes() {
    assert_eq!(doctests_exercise::add(3, 9), doctests_exercise::add(9, 3));
    assert_eq!(doctests_exercise::add(3, 9), 12);
}

#[test]
fn add_largest() {
    assert_eq!(doctests_exercise::add(usize::MAX - 1, 1), usize::MAX);
}

#[test]
fn div_examples() {
    assert_eq!(doctests_exercise::div(10, 2), Ok(5));
    assert_eq!(doctests_exercise::div(6, 3), Ok(2));
}

#[test]
fn div_by_zero() {
    assert_eq!(doctests_exercise::div(10, 0), Err(DivError::DivideByZero));
    assert_eq!(doctests_exercise::div(0, 0), Err(DivError::DivideByZero));
}

#[test]
fn div_rounds_toward_zero() {
    assert_eq!(doctests_exercise::div(-7, 2), Ok(-3));
    assert_eq!(doctests_exercise::div(7, -2), Ok(-3));
    assert_eq!(doctests_exercise::div(-7, -2), Ok(3));
    assert_eq!(doctests_exercise::div(i32::MIN, 1), Ok(i32::MIN));
    assert_eq!(doctests_exercise::div(i32::MIN, 2), Ok(-1073741824));
}

#[test]
fn div_and_remainder_give_back_dividend() {
    for (a, b) in [(17, 5), (-17, 5), (17, -5), (-17, -5), (4, 7)] {
        let q = doctests_exercise::div(a, b).unwrap();
        assert_eq!(q * b + a % b, a);
    }
}

#[test]
fn sub_examples() {
    assert_eq!(doctests_exercise::sub(9, 2), 7);
    assert_eq!(doctests_exercise::sub(6, 9), -3);
    assert_eq!(doctests_exercise::sub(i32::MIN, 0), i32::MIN);
}
