use varint_codec::UnsignedVarint;

fn check(number: u64, bytes: &[u8]) {
    assert_eq!(UnsignedVarint(number).encode(), bytes.to_vec());
    let (value, used) = UnsignedVarint::decode(bytes).unwrap();
    assert_eq!(value.0, number);
    assert_eq!(used, bytes.len());
}

#[test]
fn zero_is_one_zero_byte() {
    check(0, &[0x00]);
}

#[test]
fn one_is_one_byte() {
    check(1, &[0x01]);
}

#[test]
fn four_is_one_byte() {
    check(4, &[4]);
}

#[test]
fn largest_single_byte_value() {
    check(127, &[0x7f]);
}

#[test]
fn smallest_two_byte_value() {
    check(128, &[128, 0x01]);
}

#[test]
fn value_173() {
    check(0xAD, &[0xAD, 0x01]);
}

#[test]
fn value_1024() {
    check(1024, &[128, 8]);
}

#[test]
fn largest_two_byte_value() {
    check(16383, &[0xff, 0x7f]);
}

#[test]
fn smallest_three_byte_value() {
    check(16384, &[0x80, 0x80, 0x01]);
}

#[test]
fn largest_32_bit_value() {
    check(u32::MAX as u64, &[255, 0xFF, 255, 255, 15]);
}

#[test]
fn largest_nine_byte_value() {
    check(
        (1u64 << 63) - 1,
        &[0xff, 0xff, 0xff, 0xff, 0xff, 0xff, 0xff, 0xff, 0x7f],
    );
}

#[test]
fn smallest_ten_byte_value() {
    check(
        1u64 << 63,
        &[0x80, 0x80, 0x80, 0x80, 0x80, 0x80, 0x80, 0x80, 0x80, 0x01],
    );
}

#[test]
fn largest_value() {
    check(
        u64::MAX,
        &[0xff, 0xff, 0xff, 0xff, 0xff, 0xff, 0xff, 0xff, 0xff, 0x01],
    );
}

#[test]
fn write_to_appends_after_what_is_there() {
    let mut sink = vec![9u8, 9];
    UnsignedVarint(128).write_to(&mut sink);
    assert_eq!(sink, vec![9, 9, 0x80, 0x01]);
    UnsignedVarint(0).write_to(&mut sink);
    assert_eq!(sink, vec![9, 9, 0x80, 0x01, 0x00]);
}

#[test]
fn values_written_in_a_row_decode_in_a_row() {
    let numbers = [0u64, 300, 1, u64::MAX, 127, 128];
    let mut sink = Vec::new();
    for n in numbers {
        UnsignedVarint(n).write_to(&mut sink);
    }
    let mut at = 0;
    for n in numbers {
        let (value, used) = UnsignedVarint::decode(&sink[at..]).unwrap();
        assert_eq!(value.0, n);
        at += used;
    }
    assert_eq!(at, sink.len());
}
