use whp_vmm::byte_order::{
    encode_le, read_be_u16, read_be_u32, read_le_i32, read_le_u16, read_le_u32, read_le_u64, write_be_u16,
    write_be_u32, write_le_i32, write_le_u16, write_le_u32, write_le_u64,
};

#[test]
fn short_input_is_zero_filled() {
    assert_eq!(read_le_u32(&[0x34, 0x12]), 0x1234);
    assert_eq!(read_le_u64(&[]), 0);
}

#[test]
fn short_buffer_takes_the_low_bytes() {
    let mut buf = [0xffu8; 2];
    write_le_u32(&mut buf, 0x0102_0304);
    assert_eq!(buf, [0x04, 0x03]);
}

#[test]
fn little_endian_numbers_read_back() {
    let mut buf = [0u8; 8];
    write_le_u16(&mut buf, 0xBEEF);
    assert_eq!(&buf[0..2], &[0xEF, 0xBE]);
    assert_eq!(read_le_u16(&buf), 0xBEEF);
    write_le_u32(&mut buf, 0xDEAD_BEEF);
    assert_eq!(read_le_u32(&buf), 0xDEAD_BEEF);
    write_le_u64(&mut buf, 0x0123_4567_89AB_CDEF);
    assert_eq!(buf, [0xEF, 0xCD, 0xAB, 0x89, 0x67, 0x45, 0x23, 0x01]);
    assert_eq!(read_le_u64(&buf), 0x0123_4567_89AB_CDEF);
}

#[test]
fn big_endian_numbers_read_back() {
    let mut buf = [0u8; 4];
    write_be_u16(&mut buf, 0x1234);
    assert_eq!(&buf[0..2], &[0x12, 0x34]);
    assert_eq!(read_be_u16(&buf[0..2]), 0x1234);
    write_be_u32(&mut buf, 0xCAFE_F00D);
    assert_eq!(buf, [0xCA, 0xFE, 0xF0, 0x0D]);
    assert_eq!(read_be_u32(&buf), 0xCAFE_F00D);
}

#[test]
fn negative_numbers_read_back() {
    let mut buf = [0i8; 4];
    write_le_i32(&mut buf, -2);
    assert_eq!(buf, [-2, -1, -1, -1]);
    assert_eq!(read_le_i32(&buf), -2);
}

#[test]
fn encoding_has_the_asked_width() {
    assert_eq!(encode_le(0x0102, 4), vec![0x02, 0x01, 0, 0]);
    assert_eq!(encode_le(0x0102, 0), Vec::<u8>::new());
}
