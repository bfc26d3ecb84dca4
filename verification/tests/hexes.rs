use filesync::bromberg_hash::HashMatrixEx;
use filesync::bromberg_hash::hash_file;
use filesync::hex::{all_hex, read_digit, write_hex};

fn digits(lanes: [&str; 4]) -> Vec<u8> {
    let mut text = Vec::new();
    for lane in lanes {
        text.extend_from_slice(lane.as_bytes());
    }
    text
}

#[test]
fn read_digit_knows_the_sixteen_digits() {
    let text = b"0123456789abcdef";
    for (value, byte) in text.iter().enumerate() {
        assert_eq!(read_digit(*byte), Some(value as u8));
    }
}

#[test]
fn read_digit_refuses_other_bytes() {
    assert_eq!(read_digit(b'g'), None);
    assert_eq!(read_digit(b'A'), None);
    assert_eq!(read_digit(b'F'), None);
    assert_eq!(read_digit(b'/'), None);
    assert_eq!(read_digit(b':'), None);
    assert_eq!(read_digit(b'`'), None);
    assert_eq!(read_digit(0), None);
    assert_eq!(read_digit(255), None);
}

#[test]
fn all_hex_accepts_digits_only() {
    assert!(all_hex(b""));
    assert!(all_hex(b"00ff19ae"));
    assert!(!all_hex(b"00ff19aE"));
    assert!(!all_hex(b"0x10"));
}

#[test]
fn from_hex_reads_four_lanes() {
    let text = digits([
        "00000000000000000000000000000001",
        "000000000000000000000000000000ff",
        "ffffffffffffffffffffffffffffffff",
        "0123456789abcdef0123456789abcdef",
    ]);
    assert_eq!(
        HashMatrixEx::from_hex(&text),
        Some(HashMatrixEx(
            1,
            255,
            u128::MAX,
            0x0123456789abcdef0123456789abcdef
        ))
    );
}

#[test]
fn from_hex_refuses_a_wrong_length() {
    let mut text = digits([
        "00000000000000000000000000000001",
        "00000000000000000000000000000002",
        "00000000000000000000000000000003",
        "00000000000000000000000000000004",
    ]);
    text.pop();
    assert_eq!(HashMatrixEx::from_hex(&text), None);
    text.push(b'4');
    text.push(b'0');
    assert_eq!(HashMatrixEx::from_hex(&text), None);
    assert_eq!(HashMatrixEx::from_hex(b""), None);
}

#[test]
fn from_hex_refuses_upper_case_and_other_bytes() {
    let text = digits([
        "0000000000000000000000000000000A",
        "00000000000000000000000000000002",
        "00000000000000000000000000000003",
        "00000000000000000000000000000004",
    ]);
    assert_eq!(HashMatrixEx::from_hex(&text), None);
    let text = digits([
        "00000000000000000000000000000001",
        "00000000000000000000000000000002",
        "0000000000000000000000000000000 ",
        "00000000000000000000000000000004",
    ]);
    assert_eq!(HashMatrixEx::from_hex(&text), None);
}

#[test]
fn write_hex_pads_with_zeros_and_appends() {
    let mut text = b"x".to_vec();
    write_hex(0xab, 4, &mut text);
    assert_eq!(text, b"x00ab".to_vec());
    write_hex(0, 0, &mut text);
    assert_eq!(text, b"x00ab".to_vec());
    write_hex(u128::MAX, 32, &mut text);
    assert_eq!(text, b"x00abffffffffffffffffffffffffffffffff".to_vec());
}

#[test]
fn write_hex_keeps_the_last_digits_only() {
    let mut text = Vec::new();
    write_hex(0x12345, 3, &mut text);
    assert_eq!(text, b"345".to_vec());
}

#[test]
fn to_hex_writes_four_lanes() {
    let m = HashMatrixEx(1, 255, u128::MAX, 0x0123456789abcdef0123456789abcdef);
    let expected = digits([
        "00000000000000000000000000000001",
        "000000000000000000000000000000ff",
        "ffffffffffffffffffffffffffffffff",
        "0123456789abcdef0123456789abcdef",
    ]);
    assert_eq!(m.to_hex(), expected);
    assert_eq!(HashMatrixEx::from_hex(&m.to_hex()), Some(m));
}

#[test]
fn to_hex_of_a_file_hash_is_the_documented_text() {
    let text = hash_file(b"hello, world! It's fun to hash stuff!").to_hex();
    assert_eq!(
        text,
        b"01c5cf590d32654c87228c0d66441b200aec1439e54e724f05cd3c6c260634e565594b61988933e826e9705de22884ce007df0f733a371516ddd4ac9237f7a46".to_vec()
    );
}

#[test]
fn from_hex_reads_most_significant_digit_first() {
    let text = digits([
        "00000000000000000000000000000010",
        "10000000000000000000000000000000",
        "0000000000000000000000000000abcd",
        "f0000000000000000000000000000000",
    ]);
    assert_eq!(
        HashMatrixEx::from_hex(&text),
        Some(HashMatrixEx(16, 1u128 << 124, 0xabcd, 15u128 << 124))
    );
}

#[test]
fn write_hex_writes_each_digit() {
    let mut text = Vec::new();
    write_hex(0x0123456789abcdef, 16, &mut text);
    assert_eq!(text, b"0123456789abcdef".to_vec());
}
