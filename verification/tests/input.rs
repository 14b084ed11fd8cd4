use piet::input::scan_number;

#[test]
fn a_number_ends_at_the_first_byte_that_is_no_digit() {
    assert_eq!(scan_number(b"42\n"), (Some(42), 3));
    assert_eq!(scan_number(b"42"), (Some(42), 2));
    assert_eq!(scan_number(b"7 8"), (Some(7), 2));
    assert_eq!(scan_number(b"007x"), (Some(7), 4));
    assert_eq!(scan_number(b"0"), (Some(0), 1));
    assert_eq!(scan_number(b"12ab"), (Some(12), 3));
}

#[test]
fn a_minus_sign_may_stand_before_the_digits() {
    assert_eq!(scan_number(b"-15\n"), (Some(-15), 4));
    assert_eq!(scan_number(b"-0"), (Some(0), 2));
    assert_eq!(scan_number(b"--1"), (None, 0));
    assert_eq!(scan_number(b"-"), (None, 0));
    assert_eq!(scan_number(b"-\n"), (None, 0));
    assert_eq!(scan_number(b"+1"), (None, 0));
}

#[test]
fn input_without_a_number_is_left_alone() {
    assert_eq!(scan_number(b""), (None, 0));
    assert_eq!(scan_number(b"\n"), (None, 0));
    assert_eq!(scan_number(b"abc"), (None, 0));
    assert_eq!(scan_number(b" 1"), (None, 0));
}

#[test]
fn numbers_beyond_sixty_four_bits_are_used_up_without_a_result() {
    assert_eq!(scan_number(b"9223372036854775807"), (Some(i64::MAX), 19));
    assert_eq!(scan_number(b"9223372036854775808"), (None, 19));
    assert_eq!(scan_number(b"-9223372036854775808\n"), (Some(i64::MIN), 21));
    assert_eq!(scan_number(b"-9223372036854775809\n"), (None, 21));
    assert_eq!(
        scan_number(b"123456789012345678901234567890123456789012345678901234567890 "),
        (None, 61)
    );
    assert_eq!(scan_number(b"00000000000000000000000000000000000000000000012"), (Some(12), 47));
}
