use effects_core::encoding::{
    check_pure, decode_pure_u64, encode_pure_bytes, encode_pure_u64, PureLayout, StrKind,
};
use effects_core::errors::CommandArgumentError;

fn ok(layout: PureLayout, bytes: Vec<u8>) {
    assert_eq!(check_pure(layout, &bytes), Ok(()));
}

fn bad(layout: PureLayout, bytes: Vec<u8>) {
    assert_eq!(
        check_pure(layout, &bytes),
        Err(CommandArgumentError::InvalidBCSBytes)
    );
}

#[test]
fn test_entry_point_string() {
    // A valid ascii string.
    let ascii_str = "SomeString";
    ok(PureLayout::Str(StrKind::Ascii), bcs::to_bytes(ascii_str).unwrap());

    // The empty string is a valid string of either kind.
    ok(PureLayout::Str(StrKind::Ascii), bcs::to_bytes("").unwrap());
    ok(PureLayout::Str(StrKind::Utf8), bcs::to_bytes("").unwrap());

    // A valid utf8 string.
    let utf8_str = "çå∞≠¢õß∂ƒ∫";
    ok(PureLayout::Str(StrKind::Utf8), bcs::to_bytes(utf8_str).unwrap());

    // A longer valid utf8 string.
    let utf8_str = "çå∞≠¢õß∂ƒ∫çå∞≠¢õß∂ƒ∫çå∞≠¢õß∂ƒ∫çå∞≠¢õß∂ƒ∫çå∞≠¢õß∂ƒ∫çå∞≠¢õß∂ƒ∫";
    ok(PureLayout::Str(StrKind::Utf8), bcs::to_bytes(utf8_str).unwrap());
}

#[test]
fn test_nested_string() {
    // An option utf8 string.
    let utf8_str = Some("çå∞≠¢õß∂ƒ∫");
    ok(PureLayout::StrOption(StrKind::Utf8), bcs::to_bytes(&utf8_str).unwrap());

    // A vector of option utf8 strings.
    let utf8_str = vec![Some("çå∞≠¢õß∂ƒ∫")];
    ok(PureLayout::StrOptionVector(StrKind::Utf8), bcs::to_bytes(&utf8_str).unwrap());

    // An option of a vector of option utf8 strings.
    let utf8_str = Some(vec![Some("çå∞≠¢õß∂ƒ∫")]);
    ok(PureLayout::StrOptionVectorOption(StrKind::Utf8), bcs::to_bytes(&utf8_str).unwrap());

    // An empty option utf8 string.
    let utf8_str: Option<String> = None;
    ok(PureLayout::StrOption(StrKind::Utf8), bcs::to_bytes(&utf8_str).unwrap());

    // An empty vector of option utf8 strings.
    let utf8_str: Vec<Option<String>> = vec![];
    ok(PureLayout::StrOptionVector(StrKind::Utf8), bcs::to_bytes(&utf8_str).unwrap());

    // A vector of None.
    let utf8_str: Vec<Option<String>> = vec![None, None];
    ok(PureLayout::StrOptionVector(StrKind::Utf8), bcs::to_bytes(&utf8_str).unwrap());

    // An option of a vector of None.
    let utf8_str: Option<Vec<Option<String>>> = Some(vec![None, None]);
    ok(PureLayout::StrOptionVectorOption(StrKind::Utf8), bcs::to_bytes(&utf8_str).unwrap());
}

#[test]
fn test_entry_point_string_vec() {
    // A valid utf8 string vector.
    let utf8_str_1 = "çå∞≠¢";
    let utf8_str_2 = "õß∂ƒ∫";
    ok(
        PureLayout::StrVector(StrKind::Utf8),
        bcs::to_bytes(&vec![utf8_str_1, utf8_str_2]).unwrap(),
    );
}

#[test]
fn test_entry_point_string_error() {
    // A utf8 string where ascii is required.
    let utf8_str = "çå∞≠¢õß∂ƒ∫";
    bad(PureLayout::Str(StrKind::Ascii), bcs::to_bytes(utf8_str).unwrap());

    // An invalid ascii string: one byte messed up.
    let ascii_str = "SomeString";
    let mut ascii_u8_vec = ascii_str.as_bytes().to_vec();
    ascii_u8_vec[7] = 255;
    bad(PureLayout::Str(StrKind::Ascii), bcs::to_bytes(&ascii_u8_vec).unwrap());

    // An invalid utf8 string: one byte messed up.
    let utf8_str = "çå∞≠¢õß∂ƒ∫";
    let mut utf8_u8_vec = utf8_str.as_bytes().to_vec();
    utf8_u8_vec[7] = 255;
    bad(PureLayout::Str(StrKind::Utf8), bcs::to_bytes(&utf8_u8_vec).unwrap());
}

#[test]
fn test_entry_point_string_vec_error() {
    // A utf8 string vector with one invalid string.
    let utf8_str_1 = "çå∞≠¢";
    let utf8_str_2 = "õß∂ƒ∫";
    let mut utf8_u8_vec_1 = utf8_str_1.as_bytes().to_vec();
    utf8_u8_vec_1[7] = 255;
    let utf8_u8_vec_2 = utf8_str_2.as_bytes().to_vec();
    bad(
        PureLayout::StrVector(StrKind::Utf8),
        bcs::to_bytes(&[utf8_u8_vec_1, utf8_u8_vec_2]).unwrap(),
    );
}

#[test]
fn test_entry_point_string_option_error() {
    // An ascii string option holding a utf8 string.
    let utf8_str = "çå∞≠¢õß∂ƒ∫";
    bad(PureLayout::StrOption(StrKind::Ascii), bcs::to_bytes(&Some(utf8_str)).unwrap());

    // A utf8 string option holding an invalid string.
    let utf8_str = "çå∞≠¢";
    let mut utf8_u8_vec = utf8_str.as_bytes().to_vec();
    utf8_u8_vec[7] = 255;
    bad(PureLayout::StrOption(StrKind::Utf8), bcs::to_bytes(&Some(utf8_u8_vec)).unwrap());

    // A vector passed where an option is expected.
    let utf8_str_1 = "çå∞≠¢";
    let utf8_str_2 = "õß∂ƒ∫";
    bad(
        PureLayout::StrOption(StrKind::Utf8),
        bcs::to_bytes(&vec![utf8_str_1, utf8_str_2]).unwrap(),
    );
}

#[test]
fn utf8_rejects_surrogates_and_overlong_forms() {
    // An overlong two-byte encoding of a seven-bit character.
    bad(PureLayout::Str(StrKind::Utf8), vec![2, 0xC0, 0xAF]);
    // A surrogate code point.
    bad(PureLayout::Str(StrKind::Utf8), vec![3, 0xED, 0xA0, 0x80]);
    // A code point past the last one.
    bad(PureLayout::Str(StrKind::Utf8), vec![4, 0xF4, 0x90, 0x80, 0x80]);
    // A well-formed four-byte character.
    ok(PureLayout::Str(StrKind::Utf8), vec![4, 0xF0, 0x9F, 0x92, 0x96]);
}

#[test]
fn encoders_agree_with_the_serialization_library() {
    // The integer encoder is the serialization library's: eight
    // little-endian bytes.
    for x in [0_u64, 1, 42, 0xdead_beef, u64::MAX] {
        assert_eq!(encode_pure_u64(x), bcs::to_bytes(&x).unwrap());
        assert_eq!(decode_pure_u64(&encode_pure_u64(x)), Ok(x));
    }

    // The byte-string encoder is the serialization library's: canonical
    // length prefix, then the bytes.
    for len in [0_usize, 1, 127, 128, 300, 16384] {
        let v: Vec<u8> = vec![b'a'; len];
        let encoded = encode_pure_bytes(&v).unwrap();
        assert_eq!(encoded, bcs::to_bytes(&v).unwrap());
        // What was encoded as a string validates as an ascii string.
        assert_eq!(check_pure(PureLayout::Str(StrKind::Ascii), &encoded), Ok(()));
    }
}

#[test]
fn length_prefix_must_be_canonical_and_in_bounds() {
    // A length prefix promising more bytes than the buffer holds.
    bad(PureLayout::Str(StrKind::Ascii), vec![5, b'a', b'b']);
    // Trailing bytes after the value.
    bad(PureLayout::Str(StrKind::Ascii), vec![1, b'a', b'b']);
    // A non-canonical length prefix: 1 encoded in two bytes.
    bad(PureLayout::Str(StrKind::Ascii), vec![0x81, 0x00, b'a']);
    // The canonical form of the same value.
    ok(PureLayout::Str(StrKind::Ascii), vec![1, b'a']);
    // An empty integer buffer is not an integer.
    assert_eq!(
        decode_pure_u64(&vec![]),
        Err(CommandArgumentError::InvalidBCSBytes)
    );
}
