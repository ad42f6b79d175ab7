use bitpacker::endian::{signed_of, unsigned_of, word_at, Endian};
use bitpacker::error::CodecError;
use bitpacker::reader::Reader;
use bitpacker::writer::{reserved, Writer};

#[test]
fn writer_starts_empty() {
    let w = Writer::with_capacity(16, Endian::Big);
    assert!(w.is_empty());
    assert_eq!(w.len(), 0);
    assert_eq!(w.byte_order(), Endian::Big);
    assert_eq!(w.finish(), Vec::<u8>::new());
}

#[test]
fn u32_big_endian_layout() {
    let mut w = Writer::with_capacity(4, Endian::Big);
    w.write_u32(0x0102_0304);
    assert_eq!(w.finish(), vec![1, 2, 3, 4]);
}

#[test]
fn u32_little_endian_layout() {
    let mut w = Writer::with_capacity(4, Endian::Little);
    w.write_u32(0x0102_0304);
    assert_eq!(w.finish(), vec![4, 3, 2, 1]);
}

#[test]
fn u32_extremes() {
    for order in [Endian::Big, Endian::Little] {
        let mut w = Writer::with_capacity(8, order);
        w.write_u32(0);
        w.write_u32(u32::MAX);
        let bytes = w.finish();
        assert_eq!(bytes, vec![0, 0, 0, 0, 0xff, 0xff, 0xff, 0xff]);
        let mut r = Reader::new(&bytes, order);
        assert_eq!(r.read_u32(), Ok(0));
        assert_eq!(r.read_u32(), Ok(u32::MAX));
    }
}

#[test]
fn negative_i32_is_twos_complement() {
    let mut w = Writer::with_capacity(4, Endian::Big);
    w.write_i32(-20);
    assert_eq!(w.finish(), vec![0xff, 0xff, 0xff, 0xec]);
    let mut w = Writer::with_capacity(4, Endian::Little);
    w.write_i32(-20);
    assert_eq!(w.finish(), vec![0xec, 0xff, 0xff, 0xff]);
}

#[test]
fn signed_and_unsigned_images() {
    assert_eq!(unsigned_of(0), 0);
    assert_eq!(unsigned_of(1), 1);
    assert_eq!(unsigned_of(-1), 0xffff_ffff);
    assert_eq!(unsigned_of(-20), 0xffff_ffec);
    assert_eq!(unsigned_of(i32::MAX), 0x7fff_ffff);
    assert_eq!(unsigned_of(i32::MIN), 0x8000_0000);
    assert_eq!(signed_of(0xffff_ffff), -1);
    assert_eq!(signed_of(0x8000_0000), i32::MIN);
    assert_eq!(signed_of(0x7fff_ffff), i32::MAX);
    assert_eq!(signed_of(0xffff_ffec), -20);
}

#[test]
fn signed_images_agree_with_casts() {
    for v in [0, 1, -1, 7, -7, 1000, -1000, 65536, -65536, i32::MAX, i32::MIN, i32::MIN + 1] {
        assert_eq!(unsigned_of(v), v as u32);
        assert_eq!(signed_of(v as u32), v);
    }
}

#[test]
fn word_at_reads_in_both_orders() {
    let bytes = [9u8, 0x12, 0x34, 0x56, 0x78, 9];
    assert_eq!(word_at(&bytes, 1, Endian::Big), 0x1234_5678);
    assert_eq!(word_at(&bytes, 1, Endian::Little), 0x7856_3412);
}

#[test]
fn i32_round_trips_in_both_orders() {
    for order in [Endian::Big, Endian::Little] {
        for v in [0, 1, -1, -20, 42, 9999, i32::MAX, i32::MIN, -123_456_789] {
            let mut w = Writer::with_capacity(4, order);
            w.write_i32(v);
            let bytes = w.finish();
            assert_eq!(bytes.len(), 4);
            let mut r = Reader::new(&bytes, order);
            assert_eq!(r.read_i32(), Ok(v));
            assert_eq!(r.remaining(), 0);
        }
    }
}

#[test]
fn bool_is_one_byte() {
    let mut w = Writer::with_capacity(2, Endian::Big);
    w.write_bool(true);
    w.write_bool(false);
    assert_eq!(w.finish(), vec![1, 0]);
}

#[test]
fn nonzero_byte_reads_as_true() {
    let bytes = [0u8, 1, 2, 0xff];
    let mut r = Reader::new(&bytes, Endian::Big);
    assert_eq!(r.read_bool(), Ok(false));
    assert_eq!(r.read_bool(), Ok(true));
    assert_eq!(r.read_bool(), Ok(true));
    assert_eq!(r.read_bool(), Ok(true));
    assert_eq!(r.read_bool(), Err(CodecError::TruncatedInput));
}

#[test]
fn string_is_length_then_utf8() {
    let mut w = Writer::with_capacity(16, Endian::Big);
    assert_eq!(w.write_str("héllo"), Ok(()));
    assert_eq!(w.finish(), vec![0, 0, 0, 6, b'h', 0xc3, 0xa9, b'l', b'l', b'o']);
    let mut w = Writer::with_capacity(16, Endian::Little);
    assert_eq!(w.write_str("héllo"), Ok(()));
    assert_eq!(w.finish(), vec![6, 0, 0, 0, b'h', 0xc3, 0xa9, b'l', b'l', b'o']);
}

#[test]
fn empty_string_is_a_zero_length() {
    let mut w = Writer::with_capacity(0, Endian::Big);
    assert_eq!(w.write_str(""), Ok(()));
    let bytes = w.finish();
    assert_eq!(bytes, vec![0, 0, 0, 0]);
    let mut r = Reader::new(&bytes, Endian::Big);
    assert_eq!(r.read_string(), Ok(String::new()));
}

#[test]
fn string_round_trips_with_wide_characters() {
    let text = "a\u{00e9}\u{20ac}\u{1f600}\u{0}z";
    for order in [Endian::Big, Endian::Little] {
        let mut w = Writer::with_capacity(0, order);
        assert_eq!(w.write_str(text), Ok(()));
        let bytes = w.finish();
        assert_eq!(bytes.len(), 4 + text.len());
        let mut r = Reader::new(&bytes, order);
        assert_eq!(r.read_str(), Ok(text));
        assert_eq!(r.position(), bytes.len());
        let mut r = Reader::new(&bytes, order);
        assert_eq!(r.read_string(), Ok(text.to_string()));
    }
}

#[test]
fn raw_bytes_have_no_prefix() {
    let mut w = Writer::with_capacity(0, Endian::Big);
    w.write_bytes(&[7, 8, 9]);
    w.write_u8(10);
    w.write_bytes(&[]);
    assert_eq!(w.len(), 4);
    assert_eq!(w.finish(), vec![7, 8, 9, 10]);
}

#[test]
fn small_hint_never_fails() {
    let mut w = Writer::with_capacity(0, Endian::Big);
    for i in 0..10_000 {
        w.write_i32(i);
    }
    assert_eq!(w.len(), 40_000);
    let bytes = w.finish();
    let mut r = Reader::new(&bytes, Endian::Big);
    for i in 0..10_000 {
        assert_eq!(r.read_i32(), Ok(i));
    }
}

#[test]
fn huge_hint_never_fails() {
    let mut w = Writer::with_capacity(usize::MAX, Endian::Little);
    w.write_i32(5);
    assert_eq!(w.finish(), vec![5, 0, 0, 0]);
}

#[test]
fn count_is_a_u32_prefix() {
    let mut w = Writer::with_capacity(0, Endian::Big);
    assert_eq!(w.write_count(3), Ok(()));
    assert_eq!(w.write_count(0), Ok(()));
    assert_eq!(w.finish(), vec![0, 0, 0, 3, 0, 0, 0, 0]);
}

#[test]
fn count_beyond_u32_is_refused() {
    if usize::BITS > 32 {
        let mut w = Writer::with_capacity(0, Endian::Big);
        w.write_u8(1);
        let too_many = (u32::MAX as u64 + 1) as usize;
        assert_eq!(w.write_count(too_many), Err(CodecError::InvalidLength));
        assert_eq!(w.finish(), vec![1]);
        let mut w = Writer::with_capacity(0, Endian::Big);
        assert_eq!(w.write_count(u32::MAX as usize), Ok(()));
        assert_eq!(w.finish(), vec![0xff, 0xff, 0xff, 0xff]);
    }
}

#[test]
fn truncate_drops_the_tail() {
    let mut w = Writer::with_capacity(0, Endian::Big);
    w.write_bytes(&[1, 2, 3, 4, 5]);
    w.truncate(9);
    assert_eq!(w.len(), 5);
    w.truncate(2);
    assert_eq!(w.byte_order(), Endian::Big);
    assert_eq!(w.finish(), vec![1, 2]);
}

#[test]
fn reader_starts_at_zero() {
    let bytes = [1u8, 2, 3];
    let r = Reader::new(&bytes, Endian::Little);
    assert_eq!(r.position(), 0);
    assert_eq!(r.remaining(), 3);
    assert_eq!(r.byte_order(), Endian::Little);
}

#[test]
fn reads_advance_by_their_width() {
    let bytes = [0u8, 0, 0, 1, 1, 0, 0, 0, 2, b'h', b'i', 9, 9];
    let mut r = Reader::new(&bytes, Endian::Big);
    assert_eq!(r.read_i32(), Ok(1));
    assert_eq!(r.position(), 4);
    assert_eq!(r.read_bool(), Ok(true));
    assert_eq!(r.position(), 5);
    assert_eq!(r.read_string(), Ok("hi".to_string()));
    assert_eq!(r.position(), 11);
    assert_eq!(r.read_bytes(2), Ok(&[9u8, 9][..]));
    assert_eq!(r.position(), 13);
    assert_eq!(r.remaining(), 0);
}

#[test]
fn read_bytes_borrows_from_the_input() {
    let bytes = [1u8, 2, 3, 4, 5];
    let mut r = Reader::new(&bytes, Endian::Big);
    let run = r.read_bytes(3).unwrap();
    assert_eq!(run.as_ptr(), bytes.as_ptr());
    assert_eq!(run, &[1, 2, 3]);
    assert_eq!(r.read_bytes(0), Ok(&[][..]));
    assert_eq!(r.read_bytes(3), Err(CodecError::TruncatedInput));
    assert_eq!(r.position(), 3);
    assert_eq!(r.read_bytes(2), Ok(&[4u8, 5][..]));
}

#[test]
fn read_str_borrows_from_the_input() {
    let bytes = [0u8, 0, 0, 2, b'o', b'k'];
    let mut r = Reader::new(&bytes, Endian::Big);
    let s = r.read_str().unwrap();
    assert_eq!(s, "ok");
    assert_eq!(s.as_ptr(), bytes[4..].as_ptr());
}

#[test]
fn short_input_is_truncated_input() {
    for n in 0..4 {
        let bytes = vec![0u8; n];
        let mut r = Reader::new(&bytes, Endian::Big);
        assert_eq!(r.read_u32(), Err(CodecError::TruncatedInput));
        assert_eq!(r.read_i32(), Err(CodecError::TruncatedInput));
        assert_eq!(r.read_string(), Err(CodecError::TruncatedInput));
        assert_eq!(r.read_count(1), Err(CodecError::TruncatedInput));
        assert_eq!(r.position(), 0);
    }
    let mut r = Reader::new(&[], Endian::Big);
    assert_eq!(r.read_bool(), Err(CodecError::TruncatedInput));
}

#[test]
fn string_longer_than_input_is_invalid_length() {
    let bytes = [0u8, 0, 0, 5, b'a', b'b', b'c', b'd'];
    let mut r = Reader::new(&bytes, Endian::Big);
    assert_eq!(r.read_string(), Err(CodecError::InvalidLength));
    assert_eq!(r.position(), 0);
    assert_eq!(r.remaining(), 8);
    let huge = [0xffu8, 0xff, 0xff, 0xff, 1, 2];
    let mut r = Reader::new(&huge, Endian::Little);
    assert_eq!(r.read_str(), Err(CodecError::InvalidLength));
    assert_eq!(r.position(), 0);
}

#[test]
fn bad_utf8_is_invalid_encoding() {
    let bytes = [0u8, 0, 0, 2, 0xff, 0xfe, 7];
    let mut r = Reader::new(&bytes, Endian::Big);
    assert_eq!(r.read_string(), Err(CodecError::InvalidEncoding));
    assert_eq!(r.position(), 0);
    let cut_scalar = [0u8, 0, 0, 1, 0xc3, 0xa9];
    let mut r = Reader::new(&cut_scalar, Endian::Big);
    assert_eq!(r.read_str(), Err(CodecError::InvalidEncoding));
    let surrogate = [3u8, 0, 0, 0, 0xed, 0xa0, 0x80];
    let mut r = Reader::new(&surrogate, Endian::Little);
    assert_eq!(r.read_string(), Err(CodecError::InvalidEncoding));
}

#[test]
fn count_is_checked_against_what_remains() {
    let bytes = [0u8, 0, 0, 2, 1, 2, 3, 4, 5, 6, 7, 8];
    let mut r = Reader::new(&bytes, Endian::Big);
    assert_eq!(r.read_count(4), Ok(2));
    assert_eq!(r.position(), 4);
    let mut r = Reader::new(&bytes, Endian::Big);
    assert_eq!(r.read_count(5), Err(CodecError::InvalidLength));
    assert_eq!(r.position(), 0);
    let mut r = Reader::new(&bytes, Endian::Little);
    assert_eq!(r.read_count(1), Err(CodecError::InvalidLength));
    assert_eq!(r.position(), 0);
    let mut r = Reader::new(&bytes, Endian::Big);
    assert_eq!(r.read_count(0), Ok(2));
    let widest = [0xffu8, 0xff, 0xff, 0xff];
    let mut r = Reader::new(&widest, Endian::Big);
    assert_eq!(r.read_count(u32::MAX), Err(CodecError::InvalidLength));
}

#[test]
fn rewind_goes_back_only() {
    let bytes = [1u8, 2, 3, 4, 5, 6];
    let mut r = Reader::new(&bytes, Endian::Big);
    r.read_bytes(4).unwrap();
    r.rewind(5);
    assert_eq!(r.position(), 4);
    r.rewind(1);
    assert_eq!(r.position(), 1);
    assert_eq!(r.read_bytes(2), Ok(&[2u8, 3][..]));
}

#[test]
fn error_classes() {
    assert!(CodecError::TruncatedInput.signals_truncation());
    assert!(CodecError::InvalidLength.signals_truncation());
    assert!(!CodecError::InvalidEncoding.signals_truncation());
    assert!(!CodecError::AllocationFailure.signals_truncation());
}

#[test]
fn room_beyond_any_buffer_is_always_refused() {
    let most = isize::MAX as usize;
    let mut w = Writer::with_capacity(0, Endian::Little);
    assert_eq!(w.reserve(most + 1), Err(CodecError::AllocationFailure));
    w.write_bytes(&[1, 2, 3]);
    assert_eq!(w.reserve(most - 2), Err(CodecError::AllocationFailure));
    assert_eq!(w.reserve(most), Err(CodecError::AllocationFailure));
    assert_eq!(w.reserve(usize::MAX - 3), Err(CodecError::AllocationFailure));
    assert_eq!(w.byte_order(), Endian::Little);
    assert_eq!(w.finish(), vec![1, 2, 3]);
}

#[test]
fn room_for_nothing_is_always_had() {
    let mut w = Writer::with_capacity(0, Endian::Big);
    assert_eq!(w.reserve(0), Ok(()));
    w.write_bytes(&[9; 100]);
    assert_eq!(w.reserve(0), Ok(()));
    assert_eq!(w.len(), 100);
}

#[test]
fn answer_of_the_allocator_is_carried_over() {
    let mut v: Vec<u8> = Vec::new();
    assert_eq!(reserved(v.try_reserve(8)), Ok(()));
    assert_eq!(reserved(v.try_reserve(usize::MAX)), Err(CodecError::AllocationFailure));
    assert_eq!(reserved(Ok(())), Ok(()));
}

#[test]
fn room_that_cannot_be_had_is_allocation_failure() {
    let mut w = Writer::with_capacity(0, Endian::Big);
    w.write_bytes(&[1, 2, 3]);
    assert_eq!(w.reserve(usize::MAX), Err(CodecError::AllocationFailure));
    assert_eq!(w.len(), 3);
    assert_eq!(w.reserve(64), Ok(()));
    assert_eq!(w.reserve(0), Ok(()));
    w.write_u8(4);
    assert_eq!(w.finish(), vec![1, 2, 3, 4]);
}

#[test]
fn error_messages() {
    assert_eq!(CodecError::TruncatedInput.message(), "truncated input");
    assert_eq!(CodecError::InvalidLength.message(), "invalid length");
    assert_eq!(CodecError::InvalidEncoding.message(), "invalid encoding");
    assert_eq!(CodecError::AllocationFailure.message(), "allocation failure");
}
