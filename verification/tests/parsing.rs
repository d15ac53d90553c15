use pistonite_cu::byte_format::ByteFormat;
use pistonite_cu::parse::{
    parse, parse_bool, parse_i128, parse_i16, parse_i32, parse_i64, parse_i8, parse_isize,
    parse_owned, parse_u128, parse_u16, parse_u32, parse_u64, parse_u8, parse_usize, ParseError,
    ParseTo,
};

#[test]
fn doc_examples() {
    assert_eq!(parse::<bool>("0"), Ok(false));
    assert_eq!(parse::<u32>("0"), Ok(0));
    assert_eq!(parse::<i32>("-123"), Ok(-123));
    assert_eq!(parse::<usize>("0x123"), Ok(0x123));
    assert_eq!(
        "imagine some long chaining is used to get this value".parse_to::<String>(),
        Ok(String::from("imagine some long chaining is used to get this value"))
    );
}

#[test]
fn bool_forms() {
    assert_eq!(parse_bool(""), Ok(false));
    assert_eq!(parse_bool("   "), Ok(false));
    assert_eq!(parse_bool("0"), Ok(false));
    assert_eq!(parse_bool("1"), Ok(true));
    assert_eq!(parse_bool("true"), Ok(true));
    assert_eq!(parse_bool("TrUe"), Ok(true));
    assert_eq!(parse_bool(" FALSE\n"), Ok(false));
    assert_eq!(parse_bool("yes"), Err(ParseError::InvalidBool));
    assert_eq!(parse_bool("01"), Err(ParseError::InvalidBool));
    assert_eq!(parse_bool("truee"), Err(ParseError::InvalidBool));
    assert_eq!(parse_bool("tru"), Err(ParseError::InvalidBool));
}

#[test]
fn unsigned_radix_prefixes() {
    assert_eq!(parse_u32("0xff"), Ok(255));
    assert_eq!(parse_u32("0XFF"), Ok(255));
    assert_eq!(parse_u32("0o17"), Ok(15));
    assert_eq!(parse_u32("0b101"), Ok(5));
    assert_eq!(parse_u32("  42  "), Ok(42));
    assert_eq!(parse_u32("+42"), Ok(42));
    assert_eq!(parse_u64("18446744073709551615"), Ok(u64::MAX));
    assert_eq!(parse_u128("0"), Ok(0));
    assert_eq!(parse_usize("7"), Ok(7));
}

#[test]
fn unsigned_errors() {
    assert_eq!(parse_u32("-1"), Err(ParseError::NegativeUnsigned));
    assert_eq!(parse_u32("abc"), Err(ParseError::InvalidNumber));
    assert_eq!(parse_u32(""), Err(ParseError::InvalidNumber));
    assert_eq!(parse_u32("0x"), Err(ParseError::InvalidNumber));
    assert_eq!(parse_u32("4294967296"), Err(ParseError::InvalidNumber));
    assert_eq!(parse_u8("256"), Err(ParseError::OutOfRange));
    assert_eq!(parse_u8("255"), Ok(255));
    assert_eq!(parse_u16("65536"), Err(ParseError::OutOfRange));
    assert_eq!(parse_u16("0xffff"), Ok(65535));
}

#[test]
fn signed_forms() {
    assert_eq!(parse_i8("-128"), Ok(-128));
    assert_eq!(parse_i8("128"), Err(ParseError::OutOfRange));
    assert_eq!(parse_i8("-129"), Err(ParseError::OutOfRange));
    assert_eq!(parse_i16("-0x10"), Err(ParseError::InvalidNumber));
    assert_eq!(parse_i16("0x10"), Ok(16));
    assert_eq!(parse_i32("+7"), Ok(7));
    assert_eq!(parse_i64("-9223372036854775808"), Ok(i64::MIN));
    assert_eq!(parse_i128("-1"), Ok(-1));
    assert_eq!(parse_isize("0b11"), Ok(3));
    assert_eq!(parse_i32("2147483648"), Err(ParseError::InvalidNumber));
}

#[test]
fn generic_entry_points() {
    assert_eq!(parse_owned::<u8>(String::from("12")), Ok(12));
    assert_eq!(parse::<String>("x y"), Ok(String::from("x y")));
    assert_eq!(String::from("true").parse_to::<bool>(), Ok(true));
}

#[test]
fn byte_format_units() {
    assert_eq!(ByteFormat(0).to_string(), "0B");
    assert_eq!(ByteFormat(999).to_string(), "999B");
    assert_eq!(ByteFormat(1000).to_string(), "1.0k");
    assert_eq!(ByteFormat(1550).to_string(), "1.5k");
    assert_eq!(ByteFormat(2_345_678).to_string(), "2.3M");
    assert_eq!(ByteFormat(7_000_000_000).to_string(), "7.0G");
    assert_eq!(ByteFormat(999_999_999_999_999).to_string(), "999.9T");
    let mut s = String::from("size ");
    ByteFormat(1234).write_to(&mut s);
    assert_eq!(s, "size 1.2k");
}
