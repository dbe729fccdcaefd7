use epic_mickey::error::Error;
use epic_mickey::file_manipulator::{EndianType, FileManipulator, WriteMode};

fn cursor(data: Vec<u8>, endian: EndianType) -> FileManipulator {
    FileManipulator::new(data, endian, WriteMode::OVERWRITE)
}

#[test]
fn write_then_read_back() {
    let mut fm = cursor(vec![9, 9], EndianType::BIG);
    fm.seek(1);
    fm.write(&[1, 2, 3]);
    assert_eq!(fm.tell(), 4);
    assert_eq!(fm.get_data(), &vec![9, 1, 2, 3]);
    fm.move_pos(-3).unwrap();
    assert_eq!(fm.read(3).unwrap(), vec![1, 2, 3]);
    assert_eq!(fm.tell(), 4);
}

#[test]
fn insert_mode_shifts_the_tail() {
    let mut fm = FileManipulator::new(vec![1, 2, 3, 4], EndianType::BIG, WriteMode::INSERT);
    fm.seek(2);
    fm.write(&[7, 8]);
    assert_eq!(fm.get_data(), &vec![1, 2, 7, 8, 3, 4]);
    assert_eq!(fm.tell(), 4);
    fm.move_pos(-2).unwrap();
    assert_eq!(fm.read(2).unwrap(), vec![7, 8]);
}

#[test]
fn overwrite_mode_replaces_and_grows() {
    let mut fm = cursor(vec![1, 2, 3, 4], EndianType::BIG);
    fm.seek(3);
    fm.write(&[7, 8, 9]);
    assert_eq!(fm.get_data(), &vec![1, 2, 3, 7, 8, 9]);
    assert_eq!(fm.size(), 6);
    assert_eq!(fm.get_size(), 6);
}

#[test]
fn seek_past_end_zero_extends() {
    let mut fm = cursor(vec![5, 6], EndianType::BIG);
    fm.seek(5);
    assert_eq!(fm.tell(), 5);
    assert_eq!(fm.get_data(), &vec![5, 6, 0, 0, 0]);
    fm.seek(1);
    assert_eq!(fm.get_data(), &vec![5, 6, 0, 0, 0]);
    assert_eq!(fm.tell(), 1);
}

#[test]
fn jps_string_frame() {
    let mut fm = cursor(Vec::new(), EndianType::BIG);
    fm.w_str_jps("ab");
    assert_eq!(fm.get_data(), &vec![8, 3, 0x61, 0x62, 0, 0, 0, 0]);
    assert_eq!(fm.tell(), 8);
    fm.seek(0);
    assert_eq!(fm.r_str_jps().unwrap(), "ab");
    assert_eq!(fm.tell(), 8);
}

#[test]
fn jps_string_reader_aligns_without_writing() {
    let mut fm = cursor(vec![4, 3, 0x61, 0x62, 0, 0xAA, 0xBB, 0xCC, 0xDD], EndianType::BIG);
    assert_eq!(fm.r_str_jps().unwrap(), "ab");
    assert_eq!(fm.tell(), 8);
    assert_eq!(fm.get_data(), &vec![4, 3, 0x61, 0x62, 0, 0xAA, 0xBB, 0xCC, 0xDD]);
}

#[test]
fn align_moves_to_the_next_multiple() {
    let mut fm = cursor(vec![0; 9], EndianType::BIG);
    fm.seek(5);
    fm.align(4).unwrap();
    assert_eq!(fm.tell(), 8);
    fm.align(4).unwrap();
    assert_eq!(fm.tell(), 8);
    assert_eq!(fm.size(), 9);
    fm.seek(9);
    assert_eq!(fm.align(4), Err(Error::BadPosition { requested: 12 }));
    assert_eq!(fm.tell(), 9);
}

#[test]
fn jps_string_empty_and_exact_sizes() {
    let mut fm = cursor(Vec::new(), EndianType::LITTLE);
    fm.w_str_jps("");
    assert_eq!(fm.get_data(), &vec![4, 0, 0, 0]);
    fm.w_str_jps("a");
    assert_eq!(fm.get_data(), &vec![4, 0, 0, 0, 4, 2, 0x61, 0]);
    fm.w_str_jps("abcde");
    assert_eq!(&fm.get_data()[8..], &[8, 6, 0x61, 0x62, 0x63, 0x64, 0x65, 0]);
    fm.seek(0);
    assert_eq!(fm.r_str_jps().unwrap(), "");
    assert_eq!(fm.r_str_jps().unwrap(), "a");
    assert_eq!(fm.r_str_jps().unwrap(), "abcde");
    assert_eq!(fm.tell(), 16);
}

#[test]
fn jps_string_of_255_bytes_round_trips() {
    let text = "x".repeat(255);
    let mut fm = cursor(Vec::new(), EndianType::BIG);
    fm.w_str_jps(&text);
    assert_eq!(fm.size(), 260);
    assert_eq!(fm.get_data()[0], 4);
    assert_eq!(fm.get_data()[1], 0);
    fm.seek(0);
    assert_eq!(fm.r_str_jps().unwrap(), text);
    assert_eq!(fm.tell() % 4, 0);
}

#[test]
fn integers_in_both_byte_orders() {
    let mut fm = cursor(Vec::new(), EndianType::BIG);
    fm.w_u16(0x1234);
    fm.w_u32(0xDEADBEEF);
    fm.w_s32(-2);
    fm.w_u64(0x0102030405060708);
    fm.w_s8(-1);
    fm.w_u8(7);
    assert_eq!(
        fm.get_data(),
        &vec![0x12, 0x34, 0xDE, 0xAD, 0xBE, 0xEF, 0xFF, 0xFF, 0xFF, 0xFE, 1, 2, 3, 4, 5, 6, 7, 8, 0xFF, 7]
    );
    fm.seek(0);
    assert_eq!(fm.r_u16().unwrap(), 0x1234);
    assert_eq!(fm.r_u32().unwrap(), 0xDEADBEEF);
    assert_eq!(fm.r_s32().unwrap(), -2);
    assert_eq!(fm.r_u64().unwrap(), 0x0102030405060708);
    assert_eq!(fm.r_s8().unwrap(), -1);
    assert_eq!(fm.r_u8().unwrap(), 7);
    fm.seek(2);
    fm.flip_endian();
    assert_eq!(fm.r_u32().unwrap(), 0xEFBEADDE);
    let mut le = cursor(Vec::new(), EndianType::LITTLE);
    le.w_s16(-2);
    le.w_s64(i64::MIN);
    le.w_u128(1);
    le.w_s128(-1);
    assert_eq!(&le.get_data()[..10], &[0xFE, 0xFF, 0, 0, 0, 0, 0, 0, 0, 0x80]);
    le.seek(0);
    assert_eq!(le.r_s16().unwrap(), -2);
    assert_eq!(le.r_s64().unwrap(), i64::MIN);
    assert_eq!(le.r_u128().unwrap(), 1);
    assert_eq!(le.r_s128().unwrap(), -1);
    assert_eq!(le.r_u8(), Err(Error::UnexpectedEof { at: 42, need: 1 }));
}

#[test]
fn signed_extremes_round_trip() {
    let mut fm = cursor(Vec::new(), EndianType::BIG);
    fm.w_s128(i128::MIN);
    fm.w_s128(i128::MAX);
    fm.w_s16(i16::MIN);
    fm.w_s32(i32::MAX);
    fm.seek(0);
    assert_eq!(fm.r_s128().unwrap(), i128::MIN);
    assert_eq!(fm.r_s128().unwrap(), i128::MAX);
    assert_eq!(fm.r_s16().unwrap(), i16::MIN);
    assert_eq!(fm.r_s32().unwrap(), i32::MAX);
}

#[test]
fn float_bits_pass_through() {
    let mut fm = cursor(Vec::new(), EndianType::BIG);
    fm.w_float(1.5f32.to_bits());
    assert_eq!(fm.get_data(), &vec![0x3F, 0xC0, 0, 0]);
    fm.seek(0);
    assert_eq!(f32::from_bits(fm.r_float().unwrap()), 1.5);
}

#[test]
fn padded_shorts() {
    let mut fm = cursor(Vec::new(), EndianType::BIG);
    fm.w_u16_jps(0x0102, 0);
    fm.w_s16_jps(-2, 1);
    assert_eq!(fm.get_data(), &vec![1, 2, 0xCD, 0xCD, 0xFF, 0xFE, 0xFF, 0xFF]);
    fm.seek(0);
    assert_eq!(fm.r_u16_jps().unwrap(), 0x0102);
    assert_eq!(fm.r_s16_jps().unwrap(), -2);
    assert_eq!(fm.tell(), 8);
    let mut short = cursor(vec![0, 1, 2], EndianType::BIG);
    assert_eq!(short.r_u16_jps(), Err(Error::BadPosition { requested: 4 }));
    assert_eq!(short.tell(), 0);
}

#[test]
fn booleans() {
    let mut fm = cursor(Vec::new(), EndianType::BIG);
    fm.w_bool(true);
    fm.w_bool(false);
    fm.write(&[0xFF, 0xFF, 0xFF, 0xFE]);
    assert_eq!(&fm.get_data()[..8], &[0xFF, 0xFF, 0xFF, 0xFF, 0, 0, 0, 0]);
    fm.seek(0);
    assert_eq!(fm.r_bool(), Ok(true));
    assert_eq!(fm.r_bool(), Ok(false));
    assert_eq!(fm.r_bool(), Ok(false));
    assert_eq!(fm.r_bool(), Err(Error::UnexpectedEof { at: 12, need: 4 }));
}

#[test]
fn strings_plain_and_terminated() {
    let mut fm = cursor(Vec::new(), EndianType::BIG);
    fm.w_str("hé");
    fm.w_str_null("yo");
    assert_eq!(fm.get_data(), &vec![0x68, 0xC3, 0xA9, 0x79, 0x6F, 0]);
    fm.seek(0);
    assert_eq!(fm.r_str(3).unwrap(), "hé");
    assert_eq!(fm.r_str_null().unwrap(), "yo");
    assert_eq!(fm.tell(), 6);
    assert_eq!(fm.r_str_null(), Err(Error::UnexpectedEof { at: 6, need: 1 }));
}

#[test]
fn invalid_utf8_is_refused() {
    let mut fm = cursor(vec![0xFF, 0xFE, 0], EndianType::BIG);
    assert_eq!(fm.r_str(2), Err(Error::BadEncoding));
    assert_eq!(fm.tell(), 0);
    assert_eq!(fm.r_str_null(), Err(Error::BadEncoding));
    assert_eq!(fm.tell(), 0);
    assert_eq!(fm.r_str(4), Err(Error::UnexpectedEof { at: 0, need: 4 }));
}

#[test]
fn read_past_end_fails() {
    let mut fm = cursor(vec![1, 2], EndianType::BIG);
    assert_eq!(fm.r_u32(), Err(Error::UnexpectedEof { at: 0, need: 4 }));
    assert_eq!(fm.read(3), Err(Error::UnexpectedEof { at: 0, need: 3 }));
    assert_eq!(fm.tell(), 0);
    fm.seek(2);
    assert_eq!(fm.read_byte(), Err(Error::UnexpectedEof { at: 2, need: 1 }));
}

#[test]
fn move_pos_outside_is_refused() {
    let mut fm = cursor(vec![1, 2, 3], EndianType::BIG);
    assert_eq!(fm.move_pos(-1), Err(Error::BadPosition { requested: -1 }));
    assert_eq!(fm.move_pos(4), Err(Error::BadPosition { requested: 4 }));
    assert_eq!(fm.move_pos(3), Ok(()));
    assert_eq!(fm.tell(), 3);
}

#[test]
fn read_backwards_gives_buffer_order() {
    let mut fm = cursor(vec![1, 2, 3, 4], EndianType::BIG);
    fm.seek(3);
    assert_eq!(fm.read_backwards(2).unwrap(), vec![2, 3]);
    assert_eq!(fm.tell(), 1);
    assert_eq!(fm.read_backwards(2), Err(Error::BadPosition { requested: -1 }));
}

#[test]
fn pad_writes_zeros() {
    let mut fm = cursor(vec![1, 2, 3], EndianType::BIG);
    fm.seek(3);
    fm.pad(4);
    assert_eq!(fm.get_data(), &vec![1, 2, 3, 0]);
    fm.pad(4);
    assert_eq!(fm.get_data(), &vec![1, 2, 3, 0, 0, 0, 0, 0]);
    fm.write_byte(9);
    assert_eq!(fm.tell(), 9);
}

#[test]
fn endian_names() {
    let mut fm = cursor(Vec::new(), EndianType::BIG);
    assert_eq!(fm.get_struct_order_prefix(), ">");
    fm.set_endian("little");
    assert_eq!(*fm.get_endian(), EndianType::LITTLE);
    assert_eq!(fm.get_struct_order_prefix(), "<");
    fm.set_endian("big");
    assert_eq!(*fm.get_endian(), EndianType::BIG);
}
