use unknown_order::crypto::BigNumber;
use unknown_order::Group;

#[test]
fn values_stay_reduced() {
    let group = Group::new(BigNumber::from(7)).unwrap();
    let three = group.element(BigNumber::from(10));
    let four = group.element(BigNumber::from(11));

    assert_eq!(three.checked_add(&four).unwrap().into_value(), BigNumber::zero());
    assert_eq!(group.product(&[]), BigNumber::one());
}
