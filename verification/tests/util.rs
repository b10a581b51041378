use bytestring::util::{reverse_bit_endianness, set_bytes, swap_bytes};

#[test]
fn test_rev_bit_endianness_one() {
    let byte = 0b1;
    let expected = 0b10000000;

    assert_eq!(reverse_bit_endianness(byte), expected);
}

#[test]
fn test_rev_bit_endianness_arbitrary() {
    let byte = 0b10011010;
    let expected = 0b01011001;

    assert_eq!(reverse_bit_endianness(byte), expected);
}

#[test]
fn test_swap_bytes() {
    let mut a = 1;
    let mut b = 2;

    swap_bytes(&mut a, &mut b);

    assert_eq!(a, 2);
    assert_eq!(b, 1);
}

#[test]
fn test_rev_bit_endianness_involutive_all_bytes() {
    for b in 0..=255u8 {
        assert_eq!(reverse_bit_endianness(reverse_bit_endianness(b)), b);
    }
}

#[test]
fn test_set_bytes() {
    let mut a = [1u8, 2, 3];
    set_bytes(&mut a, 7);
    assert_eq!(a, [7u8, 7, 7]);

    let mut empty: [u8; 0] = [];
    set_bytes(&mut empty, 9);
    assert_eq!(empty, [0u8; 0]);
}
