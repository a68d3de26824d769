use sourisdb::cursor::Cursor;
use sourisdb::integer::{Integer, IntegerSerError, SignedState};

#[test]
fn integer_widths_are_minimal() {
    let cases: Vec<(u128, usize)> = vec![
        (0, 1),
        (0xFF, 1),
        (0x100, 2),
        (0xFFFF, 2),
        (0x1_0000, 4),
        (0xFFFF_FFFF, 4),
        (0x1_0000_0000, 8),
        (u64::MAX as u128, 8),
        (u64::MAX as u128 + 1, 16),
        (u128::MAX, 16),
    ];
    for (m, w) in cases {
        let i = Integer::u128(m);
        assert_eq!(i.width() as usize, w);
        let bytes = i.ser();
        assert_eq!(bytes.len(), 1 + w);
        assert_eq!(bytes[0] as usize, w);
        let (sign, body) = i.ser_magnitude();
        assert_eq!(sign, SignedState::Positive);
        assert_eq!(body.len(), w);
        assert_eq!(&bytes[1..], &body[..]);
    }
}

#[test]
fn integer_bytes_are_big_endian() {
    assert_eq!(Integer::u16(0x0102).ser(), vec![0x02, 0x01, 0x02]);
    assert_eq!(Integer::i16(-0x0102).ser(), vec![0x82, 0x01, 0x02]);
    assert_eq!(
        Integer::u32(123_456_789).ser(),
        vec![0x04, 0x07, 0x5B, 0xCD, 0x15]
    );
    assert_eq!(Integer::u8(0).ser(), vec![0x01, 0x00]);
}

#[test]
fn integers_round_trip() {
    let cases = vec![
        Integer::u8(0),
        Integer::u8(255),
        Integer::i8(-128),
        Integer::i8(127),
        Integer::i16(i16::MIN),
        Integer::u16(u16::MAX),
        Integer::i32(i32::MIN),
        Integer::u32(u32::MAX),
        Integer::i64(i64::MIN),
        Integer::u64(u64::MAX),
        Integer::i128(i128::MIN),
        Integer::i128(i128::MAX),
        Integer::u128(u128::MAX),
        Integer::isize(isize::MIN),
        Integer::usize(usize::MAX),
        Integer::new(SignedState::Negative, 0),
        Integer::new(SignedState::Negative, u128::MAX),
    ];
    for i in cases {
        let mut bytes = i.ser();
        bytes.push(0x55);
        let mut c = Cursor::new(&bytes).unwrap();
        assert_eq!(Integer::deser(&mut c), Ok(i));
        assert_eq!(c.remaining(), 1);

        let (sign, body) = i.ser_magnitude();
        let mut c = Cursor::new(&body).unwrap();
        assert_eq!(
            Integer::deser_magnitude(sign, body.len() as u8, &mut c),
            Ok(i)
        );
        assert_eq!(c.remaining(), 0);
    }
}

#[test]
fn padded_integers_are_refused() {
    let padded = vec![0x02u8, 0x00, 0x05];
    let mut c = Cursor::new(&padded).unwrap();
    assert_eq!(Integer::deser(&mut c), Err(IntegerSerError::NonCanonical));
    assert_eq!(c.position(), 0);

    let padded = vec![0x10u8, 0, 0, 0, 0, 0, 0, 0, 0, 0xFF, 0xFF, 0xFF, 0xFF, 0xFF, 0xFF, 0xFF, 0xFF];
    let mut c = Cursor::new(&padded).unwrap();
    assert_eq!(Integer::deser(&mut c), Err(IntegerSerError::NonCanonical));

    let body = vec![0x00u8, 0x00, 0x00, 0x07];
    let mut c = Cursor::new(&body).unwrap();
    assert_eq!(
        Integer::deser_magnitude(SignedState::Positive, 4, &mut c),
        Err(IntegerSerError::NonCanonical)
    );
}

#[test]
fn integer_decode_errors() {
    let empty: Vec<u8> = vec![];
    assert_eq!(
        Integer::deser(&mut Cursor::new(&empty).unwrap()),
        Err(IntegerSerError::NotEnoughBytes)
    );
    for header in [0x00u8, 0x03, 0x05, 0x11, 0x21, 0x41, 0x7F, 0x80, 0xFF] {
        let bytes = vec![header, 1, 2, 3, 4, 5, 6, 7, 8, 9, 10, 11, 12, 13, 14, 15, 16, 17];
        assert_eq!(
            Integer::deser(&mut Cursor::new(&bytes).unwrap()),
            Err(IntegerSerError::InvalidWidth(header))
        );
    }
    let cut = vec![0x04u8, 1, 2, 3];
    let mut c = Cursor::new(&cut).unwrap();
    assert_eq!(Integer::deser(&mut c), Err(IntegerSerError::NotEnoughBytes));
    assert_eq!(c.position(), 0);
    let body = vec![1u8, 2];
    assert_eq!(
        Integer::deser_magnitude(SignedState::Positive, 3, &mut Cursor::new(&body).unwrap()),
        Err(IntegerSerError::InvalidWidth(3))
    );
}

#[test]
fn narrowing_is_checked() {
    assert_eq!(Integer::u16(255).to_u8(), Ok(255));
    assert_eq!(Integer::u16(256).to_u8(), Err(IntegerSerError::OutOfRange));
    assert_eq!(Integer::i8(-1).to_u8(), Err(IntegerSerError::OutOfRange));
    assert_eq!(Integer::i8(-1).to_u128(), Err(IntegerSerError::OutOfRange));
    assert_eq!(Integer::i16(-128).to_i8(), Ok(-128));
    assert_eq!(Integer::i16(-129).to_i8(), Err(IntegerSerError::OutOfRange));
    assert_eq!(Integer::i16(127).to_i8(), Ok(127));
    assert_eq!(Integer::i16(128).to_i8(), Err(IntegerSerError::OutOfRange));
    assert_eq!(Integer::i128(i128::MIN).to_i128(), Ok(i128::MIN));
    assert_eq!(Integer::i128(i128::MAX).to_i128(), Ok(i128::MAX));
    assert_eq!(
        Integer::u128(i128::MAX as u128 + 1).to_i128(),
        Err(IntegerSerError::OutOfRange)
    );
    assert_eq!(Integer::u128(u128::MAX).to_u128(), Ok(u128::MAX));
    assert_eq!(Integer::i64(i64::MIN).to_i64(), Ok(i64::MIN));
    assert_eq!(Integer::i64(i64::MIN).to_i32(), Err(IntegerSerError::OutOfRange));
    assert_eq!(Integer::isize(isize::MIN).to_isize(), Ok(isize::MIN));
    assert_eq!(Integer::usize(usize::MAX).to_usize(), Ok(usize::MAX));
    assert_eq!(Integer::u32(70_000).to_u16(), Err(IntegerSerError::OutOfRange));
    assert_eq!(Integer::u32(70_000).to_i32(), Ok(70_000));
    assert_eq!(Integer::u32(70_000).to_u64(), Ok(70_000));
    let negative_zero = Integer::new(SignedState::Negative, 0);
    assert_eq!(negative_zero.to_u8(), Err(IntegerSerError::OutOfRange));
    assert_eq!(negative_zero.to_i8(), Ok(0));
}

#[test]
fn constructors_take_sign_and_magnitude_apart() {
    let i = Integer::i8(-15);
    assert_eq!(i.signed_state, SignedState::Negative);
    assert_eq!(i.magnitude, 15);
    assert!(i.is_negative());
    let i = Integer::i128(i128::MIN);
    assert_eq!(i.magnitude, 1u128 << 127);
    let i = Integer::i32(0);
    assert_eq!(i.signed_state, SignedState::Positive);
}
