use rtlib::scalar::Fixed;

#[test]
fn it_works() {
    assert_eq!(2 + 2, 4);
    assert_eq!((Fixed::from_int(2) + Fixed::from_int(2)).raw, Fixed::from_int(4).raw);
}
