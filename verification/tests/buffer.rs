use boot_console::utils::{format_decimal, format_hex, BufferFull, BufferWriter};

#[test]
fn new_writer_is_empty() {
    let mut storage: [u8; 8] = [0xaa; 8];
    let writer = BufferWriter::new(&mut storage);
    assert_eq!(writer.len(), 0);
    assert_eq!(writer.capacity(), 8);
    assert_eq!(writer.as_bytes(), &[] as &[u8]);
    assert_eq!(writer.as_str(), "");
}

#[test]
fn write_appends() {
    let mut storage: [u8; 8] = [0; 8];
    let mut writer = BufferWriter::new(&mut storage);
    assert_eq!(writer.write(b"abc"), Ok(()));
    assert_eq!(writer.write(b"de"), Ok(()));
    assert_eq!(writer.len(), 5);
    assert_eq!(writer.as_bytes(), b"abcde");
    assert_eq!(writer.as_str(), "abcde");
}

#[test]
fn write_fills_to_capacity_exactly() {
    let mut storage: [u8; 4] = [0; 4];
    let mut writer = BufferWriter::new(&mut storage);
    assert_eq!(writer.write(b"abcd"), Ok(()));
    assert_eq!(writer.len(), 4);
    assert_eq!(writer.write(b""), Ok(()));
    assert_eq!(writer.write(b"e"), Err(BufferFull));
    assert_eq!(writer.as_str(), "abcd");
}

#[test]
fn write_that_does_not_fit_writes_nothing() {
    let mut storage: [u8; 4] = [0; 4];
    let mut writer = BufferWriter::new(&mut storage);
    assert_eq!(writer.write(b"abc"), Ok(()));
    assert_eq!(writer.write(b"de"), Err(BufferFull));
    assert_eq!(writer.len(), 3);
    assert_eq!(writer.as_bytes(), b"abc");
    assert_eq!(writer.write(b"d"), Ok(()));
    assert_eq!(writer.as_bytes(), b"abcd");
}

#[test]
fn write_to_zero_capacity() {
    let mut storage: [u8; 0] = [];
    let mut writer = BufferWriter::new(&mut storage);
    assert_eq!(writer.write(b""), Ok(()));
    assert_eq!(writer.write(b"a"), Err(BufferFull));
    assert_eq!(writer.write_byte(1), Err(BufferFull));
    assert_eq!(writer.len(), 0);
}

#[test]
fn write_of_512_bytes_fits_and_513_do_not() {
    let mut storage: [u8; 512] = [0; 512];
    let mut writer = BufferWriter::new(&mut storage);
    assert_eq!(writer.write(&[b'x'; 513]), Err(BufferFull));
    assert_eq!(writer.len(), 0);
    assert_eq!(writer.write(&[b'x'; 512]), Ok(()));
    assert_eq!(writer.len(), 512);
}

#[test]
fn write_str_appends_utf8() {
    let mut storage: [u8; 16] = [0; 16];
    let mut writer = BufferWriter::new(&mut storage);
    assert_eq!(writer.write_str("h\u{e9}"), Ok(()));
    assert_eq!(writer.as_bytes(), &[b'h', 0xc3, 0xa9]);
    assert_eq!(writer.as_str(), "h\u{e9}");
    assert_eq!(writer.write_str("0123456789abcd"), Err(BufferFull));
    assert_eq!(writer.as_str(), "h\u{e9}");
}

#[test]
fn write_byte_appends() {
    let mut storage: [u8; 2] = [0; 2];
    let mut writer = BufferWriter::new(&mut storage);
    assert_eq!(writer.write_byte(b'o'), Ok(()));
    assert_eq!(writer.write_byte(b'k'), Ok(()));
    assert_eq!(writer.write_byte(b'!'), Err(BufferFull));
    assert_eq!(writer.as_str(), "ok");
}

#[test]
fn as_str_marks_invalid_utf8() {
    let mut storage: [u8; 8] = [0; 8];
    let mut writer = BufferWriter::new(&mut storage);
    assert_eq!(writer.write(&[b'a', 0xff]), Ok(()));
    assert_eq!(writer.as_str(), "<utf8-error>");
    assert_eq!(writer.as_bytes(), &[b'a', 0xff]);
}

#[test]
fn as_str_marks_truncated_sequence() {
    let mut storage: [u8; 8] = [0; 8];
    let mut writer = BufferWriter::new(&mut storage);
    assert_eq!(writer.write(&[0xc3]), Ok(()));
    assert_eq!(writer.as_str(), "<utf8-error>");
    assert_eq!(writer.write(&[0xa9]), Ok(()));
    assert_eq!(writer.as_str(), "\u{e9}");
}

#[test]
fn as_str_ignores_what_the_buffer_held_before() {
    let mut storage: [u8; 4] = [0xff; 4];
    let mut writer = BufferWriter::new(&mut storage);
    assert_eq!(writer.write(b"ab"), Ok(()));
    assert_eq!(writer.as_str(), "ab");
}

#[test]
fn truncate_forgets_the_tail() {
    let mut storage: [u8; 8] = [0; 8];
    let mut writer = BufferWriter::new(&mut storage);
    assert_eq!(writer.write(b"abcdef"), Ok(()));
    writer.truncate(9);
    assert_eq!(writer.as_str(), "abcdef");
    writer.truncate(6);
    assert_eq!(writer.as_str(), "abcdef");
    writer.truncate(2);
    assert_eq!(writer.as_str(), "ab");
    assert_eq!(writer.capacity(), 8);
    assert_eq!(writer.write(b"123456"), Ok(()));
    assert_eq!(writer.as_str(), "ab123456");
    writer.truncate(0);
    assert_eq!(writer.len(), 0);
}

#[test]
fn format_decimal_digits() {
    assert_eq!(format_decimal(0), b"0");
    assert_eq!(format_decimal(7), b"7");
    assert_eq!(format_decimal(10), b"10");
    assert_eq!(format_decimal(4096), b"4096");
    assert_eq!(format_decimal(u64::MAX), b"18446744073709551615");
}

#[test]
fn format_hex_is_lower_case() {
    assert_eq!(format_hex(0), b"0");
    assert_eq!(format_hex(0xf), b"f");
    assert_eq!(format_hex(0x10), b"10");
    assert_eq!(format_hex(0xdead_beef), b"deadbeef");
    assert_eq!(format_hex(u64::MAX), b"ffffffffffffffff");
}

#[test]
fn write_number_is_all_or_nothing() {
    let mut storage: [u8; 4] = [0; 4];
    let mut writer = BufferWriter::new(&mut storage);
    assert_eq!(writer.write_decimal(12345), Err(BufferFull));
    assert_eq!(writer.len(), 0);
    assert_eq!(writer.write_hex(0x12345), Err(BufferFull));
    assert_eq!(writer.len(), 0);
    assert_eq!(writer.write_decimal(12), Ok(()));
    assert_eq!(writer.write_hex(0xab), Ok(()));
    assert_eq!(writer.as_str(), "12ab");
}

#[test]
fn new_leaves_the_buffer_as_it_was() {
    let mut storage: [u8; 4] = [9, 8, 7, 6];
    {
        let writer = BufferWriter::new(&mut storage);
        assert_eq!(writer.len(), 0);
    }
    assert_eq!(storage, [9, 8, 7, 6]);
}

#[test]
fn failed_write_leaves_the_buffer_as_it_was() {
    let mut storage: [u8; 4] = [0; 4];
    {
        let mut writer = BufferWriter::new(&mut storage);
        assert_eq!(writer.write_str("ab"), Ok(()));
        assert_eq!(writer.write_str("cde"), Err(BufferFull));
        assert_eq!(writer.as_str(), "ab");
    }
    assert_eq!(storage, [b'a', b'b', 0, 0]);
}

#[test]
fn over_long_write_leaves_zeroes() {
    let mut storage: [u8; 512] = [0; 512];
    {
        let mut writer = BufferWriter::new(&mut storage);
        assert_eq!(writer.write(&[b'x'; 513]), Err(BufferFull));
        assert_eq!(writer.as_str(), "");
    }
    assert_eq!(storage, [0u8; 512]);
}

#[test]
fn write_changes_only_the_bytes_it_appends() {
    let mut storage: [u8; 6] = [1, 2, 3, 4, 5, 6];
    {
        let mut writer = BufferWriter::new(&mut storage);
        assert_eq!(writer.write(b"ab"), Ok(()));
        assert_eq!(writer.write(b""), Ok(()));
        assert_eq!(writer.write_byte(b'c'), Ok(()));
        assert_eq!(writer.write_byte(b'd'), Ok(()));
    }
    assert_eq!(storage, [b'a', b'b', b'c', b'd', 5, 6]);
}

#[test]
fn write_in_two_steps_or_in_one_fills_the_buffer_alike() {
    let mut first: [u8; 8] = [7; 8];
    let mut second: [u8; 8] = [7; 8];
    {
        let mut writer = BufferWriter::new(&mut first);
        assert_eq!(writer.write_str("boot"), Ok(()));
        assert_eq!(writer.write_str("ed"), Ok(()));
    }
    {
        let mut writer = BufferWriter::new(&mut second);
        assert_eq!(writer.write_str("booted"), Ok(()));
    }
    assert_eq!(first, second);
    assert_eq!(first, [b'b', b'o', b'o', b't', b'e', b'd', 7, 7]);
}

#[test]
fn write_of_numbers_changes_only_the_bytes_it_appends() {
    let mut storage: [u8; 6] = [0xee; 6];
    {
        let mut writer = BufferWriter::new(&mut storage);
        assert_eq!(writer.write_decimal(42), Ok(()));
        assert_eq!(writer.write_hex(0xa), Ok(()));
        assert_eq!(writer.write_decimal(1000), Err(BufferFull));
        assert_eq!(writer.write_hex(0x1000), Err(BufferFull));
    }
    assert_eq!(storage, [b'4', b'2', b'a', 0xee, 0xee, 0xee]);
}

#[test]
fn truncate_leaves_the_buffer_as_it_was() {
    let mut storage: [u8; 4] = [0; 4];
    {
        let mut writer = BufferWriter::new(&mut storage);
        assert_eq!(writer.write_str("abc"), Ok(()));
        writer.truncate(1);
        assert_eq!(writer.as_str(), "a");
    }
    assert_eq!(storage, [b'a', b'b', b'c', 0]);
}

#[test]
fn write_decimal_of_smallest_and_largest() {
    let mut storage: [u8; 32] = [0; 32];
    let mut writer = BufferWriter::new(&mut storage);
    assert_eq!(writer.write_decimal(0), Ok(()));
    assert_eq!(writer.write_byte(b' '), Ok(()));
    assert_eq!(writer.write_decimal(u64::MAX), Ok(()));
    assert_eq!(writer.write_byte(b' '), Ok(()));
    assert_eq!(writer.write_decimal(907), Ok(()));
    assert_eq!(writer.as_str(), "0 18446744073709551615 907");
}

#[test]
fn write_hex_of_smallest_and_largest() {
    let mut storage: [u8; 32] = [0; 32];
    let mut writer = BufferWriter::new(&mut storage);
    assert_eq!(writer.write_hex(0), Ok(()));
    assert_eq!(writer.write_byte(b' '), Ok(()));
    assert_eq!(writer.write_hex(u64::MAX), Ok(()));
    assert_eq!(writer.write_byte(b' '), Ok(()));
    assert_eq!(writer.write_hex(0x9f000), Ok(()));
    assert_eq!(writer.as_str(), "0 ffffffffffffffff 9f000");
}

#[test]
fn write_of_numbers_agrees_with_their_formatting() {
    let samples: [u64; 7] = [0, 9, 10, 15, 16, 0xdead_beef, u64::MAX];
    for n in samples {
        let mut storage: [u8; 40] = [0; 40];
        let mut writer = BufferWriter::new(&mut storage);
        assert_eq!(writer.write_decimal(n), Ok(()));
        assert_eq!(writer.as_bytes(), &format_decimal(n)[..]);
        assert_eq!(writer.as_str(), format!("{}", n));
        writer.truncate(0);
        assert_eq!(writer.write_hex(n), Ok(()));
        assert_eq!(writer.as_bytes(), &format_hex(n)[..]);
        assert_eq!(writer.as_str(), format!("{:x}", n));
    }
}
