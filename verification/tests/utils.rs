use topcodes::utils::print_bits;

#[test]
fn can_print_the_bits_of_the_13_least_significant_bits() {
    assert_eq!("1 1111 1111 1111 = 31", print_bits(31))
}

#[test]
fn print_bits_shows_the_second_bit_in_every_place() {
    assert_eq!("0 0000 0000 0000 = 0", print_bits(0));
    assert_eq!("0 0000 0000 0000 = 1", print_bits(1));
    assert_eq!("1 1111 1111 1111 = 2", print_bits(2));
    assert_eq!("0 0000 0000 0000 = 8192", print_bits(8192));
}

#[test]
fn print_bits_of_negative_values() {
    assert_eq!("1 1111 1111 1111 = -1", print_bits(-1));
    assert_eq!("1 1111 1111 1111 = -2", print_bits(-2));
    assert_eq!("0 0000 0000 0000 = -3", print_bits(-3));
    assert_eq!("0 0000 0000 0000 = -1204", print_bits(-1204));
    assert_eq!(format!("0 0000 0000 0000 = {}", isize::MIN), print_bits(isize::MIN));
}
