use rv32e_16b::runtime::{divmod10, fibonacci, format_hex, format_i32, format_u32};

#[test]
fn fibonacci_values() {
    assert_eq!(fibonacci(0), 0);
    assert_eq!(fibonacci(1), 1);
    assert_eq!(fibonacci(2), 1);
    assert_eq!(fibonacci(10), 55);
    assert_eq!(fibonacci(47), 2971215073);
    // fib(48) = 4807526976 wraps modulo 2^32
    assert_eq!(fibonacci(48), (4807526976u64 % (1u64 << 32)) as u32);
}

#[test]
fn divmod10_values() {
    assert_eq!(divmod10(0), (0, 0));
    assert_eq!(divmod10(9), (0, 9));
    assert_eq!(divmod10(10), (1, 0));
    assert_eq!(divmod10(12345), (1234, 5));
    assert_eq!(divmod10(u32::MAX), (429496729, 5));
}

#[test]
fn decimal_text() {
    assert_eq!(format_u32(0), b"0".to_vec());
    assert_eq!(format_u32(3), b"3".to_vec());
    assert_eq!(format_u32(1000), b"1000".to_vec());
    assert_eq!(format_u32(u32::MAX), b"4294967295".to_vec());
    assert_eq!(format_i32(-42), b"-42".to_vec());
    assert_eq!(format_i32(i32::MIN), b"-2147483648".to_vec());
    assert_eq!(format_i32(7), b"7".to_vec());
}

#[test]
fn hex_text() {
    assert_eq!(format_hex(0), b"0x0".to_vec());
    assert_eq!(format_hex(0xDEADBEEF), b"0xdeadbeef".to_vec());
    assert_eq!(format_hex(0x10), b"0x10".to_vec());
    assert_eq!(format_hex(0x0A0B), b"0xa0b".to_vec());
}
