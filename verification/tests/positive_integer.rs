use graph_algorithms::PositiveInteger;

fn pi(v: u32) -> PositiveInteger {
    PositiveInteger::try_from(v).unwrap()
}

#[test]
fn positive_integer_ok() {
    assert_eq!(PositiveInteger::try_from(1).unwrap().value(), 1);
}

#[test]
fn fails_becuase_zero_as_input_value() {
    assert!(PositiveInteger::try_from(0).is_err());
}

#[test]
fn add() {
    assert_eq!(pi(2) + pi(2), 4);
    assert_eq!(pi(2) + pi(2), pi(4));
}

#[test]
fn add_primitive() {
    assert_eq!(pi(1) + 1, 2);
}

#[test]
fn sub() {
    assert_eq!(pi(5) - pi(1), 4);
    assert_eq!(pi(5) - pi(1), pi(4));
}

#[test]
fn sub_primitive() {
    assert_eq!(pi(2) - 1, 1);
    assert_eq!(pi(2) - 1, pi(1));
}

#[test]
fn eq() {
    assert!(pi(1) == 1);
    assert!(pi(1) == pi(1));
}

#[test]
fn lt() {
    assert!(pi(1) < 2);
    assert!(pi(1) < pi(2));
}

#[test]
fn le() {
    assert!(pi(1) <= 2);
    assert!(pi(1) <= pi(2));
}

#[test]
fn gt() {
    assert!(pi(2) > 1);
    assert!(pi(2) > pi(1));
}

#[test]
fn ge() {
    assert!(pi(2) >= 1);
    assert!(pi(2) >= pi(1));
}

#[test]
fn largest_value_is_kept() {
    assert_eq!(PositiveInteger::try_from(u32::MAX).unwrap().value(), u32::MAX);
}
