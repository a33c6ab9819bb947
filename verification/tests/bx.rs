use mesh::bx::Percentage;

#[test]
fn percentage_keeps_its_value() {
    assert_eq!(Percentage::new(0).value(), 0);
    assert_eq!(Percentage::new(20).value(), 20);
    assert_eq!(Percentage::new(100).value(), 100);
}

#[test]
fn default_percentage_is_zero() {
    assert_eq!(Percentage::default().value(), 0);
}
