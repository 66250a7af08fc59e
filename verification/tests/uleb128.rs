use collection_db::error::FormatError;
use collection_db::uleb128::{read, MAX_BYTES, MAX_LENGTH};

fn encoded(n: usize) -> Vec<u8> {
    let mut sink = Vec::new();
    collection_db::uleb128::write(n, &mut sink);
    sink
}

#[test]
fn small_numbers_take_one_byte() {
    assert_eq!(encoded(0), vec![0x00]);
    assert_eq!(encoded(1), vec![0x01]);
    assert_eq!(encoded(32), vec![0x20]);
    assert_eq!(encoded(127), vec![0x7f]);
}

#[test]
fn larger_numbers_continue() {
    assert_eq!(encoded(128), vec![0x80, 0x01]);
    assert_eq!(encoded(129), vec![0x81, 0x01]);
    assert_eq!(encoded(255), vec![0xff, 0x01]);
    assert_eq!(encoded(300), vec![0xac, 0x02]);
    assert_eq!(encoded(16383), vec![0xff, 0x7f]);
    assert_eq!(encoded(16384), vec![0x80, 0x80, 0x01]);
    assert_eq!(encoded(624485), vec![0xe5, 0x8e, 0x26]);
    assert_eq!(encoded(2097152), vec![0x80, 0x80, 0x80, 0x01]);
    assert_eq!(encoded(268435456), vec![0x80, 0x80, 0x80, 0x80, 0x01]);
    assert_eq!(encoded(0x7fff_ffff), vec![0xff, 0xff, 0xff, 0xff, 0x07]);
}

#[test]
fn limits_are_those_of_a_signed_32_bit_length() {
    assert_eq!(MAX_LENGTH, 2147483647);
    assert_eq!(MAX_BYTES, 5);
}

#[test]
fn writing_appends_to_the_sink() {
    let mut sink = vec![0xaau8];
    collection_db::uleb128::write(300, &mut sink);
    assert_eq!(sink, vec![0xaa, 0xac, 0x02]);
}

#[test]
fn reading_gives_the_number_and_its_width() {
    assert_eq!(read(&[70]), Ok((70, 1)));
    assert_eq!(read(&[129, 2]), Ok((257, 2)));
    assert_eq!(read(&[124, 2]), Ok((124, 1)));
    assert_eq!(read(&[0xe5, 0x8e, 0x26, 0xff]), Ok((624485, 3)));
    assert_eq!(read(&[0xff, 0xff, 0xff, 0xff, 0x07]), Ok((0x7fff_ffff, 5)));
}

#[test]
fn lengths_are_read_back() {
    for n in [0usize, 1, 127, 128, 255, 256, 16383, 16384, 2097151, 2097152, 268435455, 268435456,
        0x7fff_fffe, 0x7fff_ffff]
    {
        let mut bytes = encoded(n);
        let width = bytes.len();
        assert_eq!(read(&bytes), Ok((n, width)));
        bytes.extend_from_slice(&[0x80, 0xff, 0x00]);
        assert_eq!(read(&bytes), Ok((n, width)));
    }
}

#[test]
fn padded_numbers_are_read() {
    assert_eq!(read(&[0x80, 0x00]), Ok((0, 2)));
    assert_eq!(read(&[0x81, 0x80, 0x80, 0x80, 0x00]), Ok((1, 5)));
}

#[test]
fn a_chain_that_ends_early_is_end_of_input() {
    assert_eq!(read(&[]), Err(FormatError::UnexpectedEof));
    assert_eq!(read(&[0x80]), Err(FormatError::UnexpectedEof));
    assert_eq!(read(&[0xff, 0xff, 0xff, 0xff]), Err(FormatError::UnexpectedEof));
}

#[test]
fn a_chain_of_more_than_five_bytes_is_overflow() {
    assert_eq!(read(&[0x80, 0x80, 0x80, 0x80, 0x80]), Err(FormatError::LengthOverflow));
    assert_eq!(read(&[0x80, 0x80, 0x80, 0x80, 0x80, 0x00]), Err(FormatError::LengthOverflow));
    assert_eq!(read(&[0xff, 0xff, 0xff, 0xff, 0xff, 0xff]), Err(FormatError::LengthOverflow));
}

#[test]
fn a_number_above_the_limit_is_overflow() {
    assert_eq!(read(&[0x80, 0x80, 0x80, 0x80, 0x08]), Err(FormatError::LengthOverflow));
    assert_eq!(read(&[0xff, 0xff, 0xff, 0xff, 0x0f]), Err(FormatError::LengthOverflow));
    assert_eq!(read(&[0xff, 0xff, 0xff, 0xff, 0x7f]), Err(FormatError::LengthOverflow));
}
