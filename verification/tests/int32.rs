use collection_db::error::FormatError;
use collection_db::int32::{read_i32, read_u32, write_i32, write_u32};

fn signed(v: i32) -> Vec<u8> {
    let mut sink = Vec::new();
    write_i32(v, &mut sink);
    sink
}

fn unsigned(u: u32) -> Vec<u8> {
    let mut sink = Vec::new();
    write_u32(u, &mut sink);
    sink
}

#[test]
fn signed_fields_are_little_endian() {
    assert_eq!(signed(20220906), vec![0xea, 0x8b, 0x34, 0x01]);
    assert_eq!(signed(0), vec![0, 0, 0, 0]);
    assert_eq!(signed(1), vec![1, 0, 0, 0]);
    assert_eq!(signed(256), vec![0, 1, 0, 0]);
    assert_eq!(signed(i32::MAX), vec![0xff, 0xff, 0xff, 0x7f]);
}

#[test]
fn negative_fields_are_twos_complement() {
    assert_eq!(signed(-1), vec![0xff, 0xff, 0xff, 0xff]);
    assert_eq!(signed(i32::MIN), vec![0, 0, 0, 0x80]);
    assert_eq!(signed(-20220906), vec![22, 116, 203, 254]);
}

#[test]
fn fields_agree_with_the_standard_library() {
    for v in [0, 1, -1, 255, 256, 65535, 65536, 16777216, 20220906, i32::MAX, i32::MIN, -12345] {
        assert_eq!(signed(v), v.to_le_bytes().to_vec());
        assert_eq!(read_i32(&v.to_le_bytes()), Ok(v));
    }
    for u in [0u32, 1, 0x7fff_ffff, 0x8000_0000, u32::MAX, 0x0102_0304] {
        assert_eq!(unsigned(u), u.to_le_bytes().to_vec());
        assert_eq!(read_u32(&u.to_le_bytes()), Ok(u));
    }
}

#[test]
fn writing_appends() {
    let mut sink = vec![9u8, 9];
    write_i32(1, &mut sink);
    write_u32(2, &mut sink);
    assert_eq!(sink, vec![9, 9, 1, 0, 0, 0, 2, 0, 0, 0]);
}

#[test]
fn reading_takes_the_first_four_bytes() {
    assert_eq!(read_i32(&[0xea, 0x8b, 0x34, 0x01, 0xff, 0xff]), Ok(20220906));
    assert_eq!(read_u32(&[10, 10, 0, 0, 3]), Ok(2570));
    assert_eq!(read_i32(&[0xff, 0xff, 0xff, 0xff]), Ok(-1));
    assert_eq!(read_u32(&[0xff, 0xff, 0xff, 0xff]), Ok(u32::MAX));
}

#[test]
fn short_fields_are_end_of_input() {
    assert_eq!(read_i32(&[]), Err(FormatError::UnexpectedEof));
    assert_eq!(read_i32(&[1, 2, 3]), Err(FormatError::UnexpectedEof));
    assert_eq!(read_u32(&[3, 5, 4]), Err(FormatError::UnexpectedEof));
}
