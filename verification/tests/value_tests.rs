use rusty_man_computer::value::DigitsError;
use rusty_man_computer::value::Value;

#[test]
fn value_works() {
    // Normal data
    Value::new(0).unwrap();
    Value::new(901).unwrap();
    Value::new(-10).unwrap();
    // Boundary data
    Value::new(999).unwrap();
    Value::new(-999).unwrap();
}

#[test]
fn value_equality_check() {
    // We like our zeroes here
    assert!(Value::zero() == 0);
    assert!(Value::new(0).unwrap() == 0);
    assert!(Value::from(0) == Value::new(0).unwrap());
    assert!(Value::zero().is_zero());
    // Let's add in one normal number too
    assert!(Value::new(21).unwrap() == 21);
}

#[test]
fn value_wraps_overflow() {
    // Boundary data
    let mut value = Value::new(999).unwrap();
    value += Value::from(1);
    assert_eq!(value, -999);
}

#[test]
fn value_wraps_underflow() {
    // Boundary data
    let mut value = Value::new(-999).unwrap();
    value -= Value::from(1);
    assert_eq!(value, 999);
}

#[test]
fn value_wraps() {
    // "Normal" data (if we assume that wrapping is the normal behaviour)
    let mut value = Value::new(990).unwrap();
    value += Value::from(21);
    // Checked against Peter Higginson's LMC simulator (wraps to -988)
    assert_eq!(value, -988);
}

#[test]
fn value_to_string() {
    assert_eq!(Value::from(3).to_string(), "3");
    assert_eq!(Value::new(-123).unwrap().to_string(), "-123");
}

#[test]
fn value_disallows_invalid_values() {
    // Boundary data
    assert!(Value::new(1000).is_err());
    assert!(Value::new(-1000).is_err());
    // Invalid data
    assert!(Value::new(2025).is_err());
}

#[test]
fn value_first_and_last_digits() {
    // Testing the functions used to extract operators and operands from instructions
    let instruction = Value::new(599).unwrap();
    assert_eq!(instruction.first_digit(), 5);
    assert_eq!(instruction.last_two_digits(), 99);
    assert_eq!(Value::zero().first_digit(), 0);
    assert_eq!(Value::zero().last_two_digits(), 0);
}

#[test]
fn value_wrap_overflow_covers_every_sum() {
    for v in -1998i16..=1998 {
        let wrapped: i16 = Value::wrap_overflow(v).into();
        assert!((-999..=999).contains(&wrapped));
        assert_eq!((i32::from(v) - i32::from(wrapped)) % 1999, 0);
        if (-999..=999).contains(&v) {
            assert_eq!(wrapped, v);
        }
    }
    assert_eq!(Value::wrap_overflow(1000), -999);
    assert_eq!(Value::wrap_overflow(-1000), 999);
    assert_eq!(Value::wrap_overflow(1998), -1);
    assert_eq!(Value::wrap_overflow(-1998), 1);
    assert_eq!(Value::wrap_overflow(2998), 999);
    assert_eq!(Value::wrap_overflow(-2998), -999);
}

#[test]
fn value_wrap_overflow_is_total() {
    assert_eq!(Value::wrap_overflow(2999), -999);
    assert_eq!(Value::wrap_overflow(i16::MAX), 32767 - 16 * 1999);
    assert_eq!(Value::wrap_overflow(i16::MIN), -32768 + 16 * 1999);
}

#[test]
fn value_new_accepts_exactly_the_domain() {
    for v in i16::MIN..=i16::MAX {
        assert_eq!(Value::new(v).is_ok(), (-999..=999).contains(&v));
    }
    assert_eq!(Value::MIN, -999);
    assert_eq!(Value::MAX, 999);
}

#[test]
fn value_from_digits_round_trip() {
    for opcode in 0i16..=9 {
        for address in 0i16..=99 {
            let word = Value::from_digits(opcode, address).unwrap();
            assert_eq!(word, opcode * 100 + address);
            assert_eq!(word.first_digit(), opcode);
            assert_eq!(word.last_two_digits(), address);
        }
    }
}

#[test]
fn value_from_digits_rejects_digits_out_of_range() {
    assert_eq!(Value::from_digits(10, 0), Err(DigitsError::FirstDigitOutOfRange));
    assert_eq!(Value::from_digits(-1, 0), Err(DigitsError::FirstDigitOutOfRange));
    assert_eq!(Value::from_digits(-1, 100), Err(DigitsError::FirstDigitOutOfRange));
    assert_eq!(Value::from_digits(9, 100), Err(DigitsError::LastTwoDigitsOutOfRange));
    assert_eq!(Value::from_digits(0, -1), Err(DigitsError::LastTwoDigitsOutOfRange));
}

#[test]
fn value_digits_keep_the_sign() {
    let word = Value::new(-599).unwrap();
    assert_eq!(word.first_digit(), -5);
    assert_eq!(word.last_two_digits(), -99);
    let small = Value::new(-42).unwrap();
    assert_eq!(small.first_digit(), 0);
    assert_eq!(small.last_two_digits(), -42);
}

#[test]
fn value_sign_predicates() {
    let negative = Value::new(-1).unwrap();
    let positive = Value::new(1).unwrap();
    let zero = Value::zero();
    assert!(negative.is_negative() && !negative.is_positive());
    assert!(!negative.is_non_negative() && !negative.is_zero());
    assert!(positive.is_positive() && positive.is_non_negative());
    assert!(!positive.is_negative() && !positive.is_zero());
    assert!(zero.is_zero() && zero.is_non_negative());
    assert!(!zero.is_positive() && !zero.is_negative());
}

#[test]
fn value_to_string_of_every_shape() {
    assert_eq!(Value::zero().to_string(), "0");
    assert_eq!(Value::new(7).unwrap().to_string(), "7");
    assert_eq!(Value::new(10).unwrap().to_string(), "10");
    assert_eq!(Value::new(100).unwrap().to_string(), "100");
    assert_eq!(Value::new(999).unwrap().to_string(), "999");
    assert_eq!(Value::new(-999).unwrap().to_string(), "-999");
    assert_eq!(Value::new(-5).unwrap().to_string(), "-5");
    for v in -999i16..=999 {
        assert_eq!(Value::new(v).unwrap().to_string(), format!("{}", v));
    }
}

#[test]
fn value_bytes_are_big_endian() {
    assert_eq!(Value::new(1).unwrap().to_be_bytes(), [0x00, 0x01]);
    assert_eq!(Value::new(901).unwrap().to_be_bytes(), [0x03, 0x85]);
    assert_eq!(Value::new(-1).unwrap().to_be_bytes(), [0xff, 0xff]);
    assert_eq!(Value::new(-999).unwrap().to_be_bytes(), [0xfc, 0x19]);
    for v in -999i16..=999 {
        let value = Value::new(v).unwrap();
        assert_eq!(value.to_be_bytes(), v.to_be_bytes());
        assert_eq!(Value::from_be_bytes(value.to_be_bytes()), Ok(value));
    }
}

#[test]
fn value_from_bytes_rejects_words_outside_the_domain() {
    assert!(Value::from_be_bytes([0x03, 0xe8]).is_err());
    assert!(Value::from_be_bytes([0xfc, 0x18]).is_err());
    assert!(Value::from_be_bytes([0x7f, 0xff]).is_err());
    assert!(Value::from_be_bytes([0x80, 0x00]).is_err());
    assert_eq!(Value::from_be_bytes([0x03, 0xe7]), Ok(Value::new(999).unwrap()));
    assert_eq!(Value::from_be_bytes([0xfc, 0x19]), Ok(Value::new(-999).unwrap()));
}

#[test]
fn value_conversions() {
    let value = Value::new(104).unwrap();
    assert_eq!(i16::from(value), 104);
    assert_eq!(char::from(value), 'h');
    assert_eq!(value.to_char(), 'h');
    assert_eq!(Value::new(300).unwrap().to_char(), ',');
    assert_eq!(Value::new(-1).unwrap().to_char(), '\u{ff}');
    assert_eq!(Value::from(-128i8), -128);
    assert_eq!(Value::try_from(999i16), Ok(Value::new(999).unwrap()));
    assert_eq!(Value::try_from(1000i16), Err("Value out of range"));
    assert_eq!(value.get(), 104);
}
