//! Byte-exact scenarios of the wire format, the alias table, the canonical
//! form, and the descriptor metadata.

use binschema::InterchangeBinaryFloatingPointFormat;
use binschema::InterchangeDecimalFloatingPointFormat;
use binschema::Size;
use binschema::Spec;
use binschema::SpecParsingError;
use binschema::StringEncodingFmt;

#[test]
fn test_uint_zero_bytes() {
    let spec = Spec::Uint(0);
    assert_eq!(spec.to_bytes(), vec![0u8]);
    assert_eq!(spec.to_longform_bytes(), vec![33u8, 0]);
    assert_eq!(Spec::read_from_bytes(&[0]).unwrap(), spec);
    assert_eq!(Spec::read_from_bytes(&[33, 0]).unwrap(), spec);
}

#[test]
fn test_utf8_string_bytes() {
    let spec = Spec::String(Size::Variable, StringEncodingFmt::Utf8);
    assert_eq!(spec.to_bytes(), vec![10u8]);
    assert_eq!(spec.to_longform_bytes(), vec![49u8, 1, 0]);
    assert_eq!(Spec::read_from_bytes(&[10]).unwrap(), spec);
    assert_eq!(Spec::read_from_bytes(&[49, 1, 0]).unwrap(), spec);
}

#[test]
fn test_record_bytes() {
    let spec = Spec::Record(vec![
        (String::from("a"), Spec::Bool),
        (String::from("b"), Spec::Int(4)),
    ]);
    let expected: Vec<u8> = vec![42, 2, 1, b'a', 32, 1, b'b', 35, 4];
    assert_eq!(spec.to_bytes(), expected);
    assert_eq!(Spec::read_from_bytes(&expected).unwrap(), spec);
}

#[test]
fn test_alias_bytes() {
    assert_eq!(Spec::Uint(1).to_bytes(), vec![1u8]);
    assert_eq!(Spec::Uint(2).to_bytes(), vec![2u8]);
    assert_eq!(Spec::Uint(3).to_bytes(), vec![3u8]);
    assert_eq!(Spec::Int(0).to_bytes(), vec![4u8]);
    assert_eq!(Spec::Int(1).to_bytes(), vec![5u8]);
    assert_eq!(Spec::Int(2).to_bytes(), vec![6u8]);
    assert_eq!(Spec::Int(3).to_bytes(), vec![7u8]);
    assert_eq!(
        Spec::BinaryFloatingPoint(InterchangeBinaryFloatingPointFormat::Single).to_bytes(),
        vec![8u8],
    );
    assert_eq!(
        Spec::BinaryFloatingPoint(InterchangeBinaryFloatingPointFormat::Double).to_bytes(),
        vec![9u8],
    );
}

#[test]
fn test_general_forms_past_alias_range() {
    assert_eq!(Spec::Uint(4).to_bytes(), vec![33u8, 4]);
    assert_eq!(Spec::Int(4).to_bytes(), vec![35u8, 4]);
    assert_eq!(
        Spec::BinaryFloatingPoint(InterchangeBinaryFloatingPointFormat::Half).to_bytes(),
        vec![36u8, 0],
    );
    assert_eq!(
        Spec::String(Size::Variable, StringEncodingFmt::Utf16).to_bytes(),
        vec![49u8, 1, 1],
    );
}

#[test]
fn test_longform_has_no_aliases_recursively() {
    let spec = Spec::Optional(Box::new(Spec::Uint(0)));
    assert_eq!(spec.to_bytes(), vec![63u8, 0]);
    assert_eq!(spec.to_longform_bytes(), vec![63u8, 33, 0]);
    assert_eq!(Spec::read_from_bytes(&spec.to_longform_bytes()).unwrap(), spec);
}

#[test]
fn test_size_qualifier_varint_boundaries() {
    assert_eq!(Spec::Bytes(Size::Fixed(127)).to_bytes(), vec![48u8, 0, 127]);
    assert_eq!(Spec::Bytes(Size::Fixed(128)).to_bytes(), vec![48u8, 0, 128, 1]);
    assert_eq!(Spec::Bytes(Size::Variable).to_bytes(), vec![48u8, 1]);
    let big = Spec::Bytes(Size::Fixed(u64::MAX));
    assert_eq!(Spec::read_from_bytes(&big.to_bytes()).unwrap(), big);
}

#[test]
fn test_non_canonical_varint_accepted() {
    // A padded variable-length zero decodes like a plain zero.
    assert_eq!(
        Spec::read_from_bytes(&[48, 0, 0x80, 0x00]).unwrap(),
        Spec::Bytes(Size::Fixed(0)),
    );
}

#[test]
fn test_trailing_bytes_ignored() {
    assert_eq!(Spec::read_from_bytes(&[32, 99]).unwrap(), Spec::Bool);
}

#[test]
fn test_empty_input_is_eof() {
    assert!(matches!(
        Spec::read_from_bytes(&[]),
        Err(SpecParsingError::UnexpectedEndOfBytes),
    ));
}

#[test]
fn test_invalid_utf8_name_is_read_error() {
    // A one-byte name holding 0xFF is not UTF-8.
    assert!(matches!(
        Spec::read_from_bytes(&[34, 1, 0xFF, 32]),
        Err(SpecParsingError::ReadError),
    ));
}

#[test]
fn test_multibyte_name_round_trip() {
    let spec = Spec::Name {
        name: String::from("schéma — πλη"),
        spec: Box::new(Spec::Ref { name: String::from("λ") }),
    };
    let decoded = Spec::read_from_bytes(&spec.to_bytes()).unwrap();
    assert_eq!(spec, decoded);
    match decoded {
        Spec::Name { name, .. } => assert_eq!(name, "schéma — πλη"),
        _ => panic!("wrong node"),
    }
}

#[test]
fn test_every_strict_prefix_is_eof() {
    let spec = Spec::Name {
        name: String::from("wrap"),
        spec: Box::new(Spec::Record(vec![
            (String::from("m"), Spec::Mapping {
                size: Size::Fixed(9),
                key_spec: Box::new(Spec::String(Size::Variable, StringEncodingFmt::Utf8)),
                value_spec: Box::new(Spec::Decimal { precision: 300, scale: 2 }),
            }),
            (String::from("u"), Spec::Union(vec![Spec::Void, Spec::Uint(250)])),
        ])),
    };
    let bytes = spec.to_bytes();
    for k in 0..bytes.len() {
        assert!(matches!(
            Spec::read_from_bytes(&bytes[..k]),
            Err(SpecParsingError::UnexpectedEndOfBytes),
        ));
    }
}

#[test]
fn test_longform_is_an_identity_key() {
    let a = Spec::Tuple(vec![Spec::Uint(0), Spec::Bool]);
    let b = Spec::Tuple(vec![Spec::Uint(0), Spec::Bool]);
    let c = Spec::Tuple(vec![Spec::Uint(1), Spec::Bool]);
    assert_eq!(a.to_longform_bytes(), b.to_longform_bytes());
    assert_ne!(a.to_longform_bytes(), c.to_longform_bytes());
    assert_eq!(a, b);
    assert_ne!(a, c);
}

#[test]
fn test_clone_matches_original() {
    let spec = Spec::Enum(vec![
        (String::from("leaf"), Spec::Void),
        (
            String::from("node"),
            Spec::List { size: Size::Variable, value_spec: Box::new(Spec::Uint(8)) },
        ),
    ]);
    let copy = spec.clone();
    assert_eq!(spec, copy);
    assert_eq!(spec.to_longform_bytes(), copy.to_longform_bytes());
}

#[test]
fn test_binary_format_metadata() {
    assert_eq!(InterchangeBinaryFloatingPointFormat::Half.significand_bits(), 11);
    assert_eq!(InterchangeBinaryFloatingPointFormat::Single.significand_bits(), 24);
    assert_eq!(InterchangeBinaryFloatingPointFormat::Double.significand_bits(), 53);
    assert_eq!(InterchangeBinaryFloatingPointFormat::Quadruple.significand_bits(), 113);
    assert_eq!(InterchangeBinaryFloatingPointFormat::Octuple.significand_bits(), 237);
    assert_eq!(InterchangeBinaryFloatingPointFormat::Half.exponent_bits(), 5);
    assert_eq!(InterchangeBinaryFloatingPointFormat::Single.exponent_bits(), 8);
    assert_eq!(InterchangeBinaryFloatingPointFormat::Double.exponent_bits(), 11);
    assert_eq!(InterchangeBinaryFloatingPointFormat::Quadruple.exponent_bits(), 15);
    assert_eq!(InterchangeBinaryFloatingPointFormat::Octuple.exponent_bits(), 19);
}

#[test]
fn test_decimal_format_metadata() {
    assert_eq!(InterchangeDecimalFloatingPointFormat::Dec32.significand_bits(), 7);
    assert_eq!(InterchangeDecimalFloatingPointFormat::Dec64.significand_bits(), 16);
    assert_eq!(InterchangeDecimalFloatingPointFormat::Dec128.significand_bits(), 34);
    assert_eq!(InterchangeDecimalFloatingPointFormat::Dec32.decimal_digits(), 7);
    assert_eq!(InterchangeDecimalFloatingPointFormat::Dec64.decimal_digits(), 16);
    assert_eq!(InterchangeDecimalFloatingPointFormat::Dec128.decimal_digits(), 34);
    assert_eq!(InterchangeDecimalFloatingPointFormat::Dec32.minimum_byes_needed(), 2);
    assert_eq!(InterchangeDecimalFloatingPointFormat::Dec64.minimum_byes_needed(), 4);
    assert_eq!(InterchangeDecimalFloatingPointFormat::Dec128.minimum_byes_needed(), 8);
}

#[test]
fn test_default_string_encoding() {
    assert_eq!(StringEncodingFmt::default(), StringEncodingFmt::Utf8);
}

#[test]
fn test_nested_descriptor_errors() {
    assert!(matches!(
        Spec::read_from_bytes(&[40, 7]),
        Err(SpecParsingError::UnknownSizeFormatFlag(7)),
    ));
    assert!(matches!(
        Spec::read_from_bytes(&[41, 2]),
        Err(SpecParsingError::UnknownSizeFormatFlag(2)),
    ));
}

#[test]
fn test_decimal_bytes() {
    let spec = Spec::Decimal { precision: 300, scale: 2 };
    // 300 = 0b100101100: groups 44 + 128, 2.
    assert_eq!(spec.to_bytes(), vec![46u8, 172, 2, 2]);
    assert_eq!(Spec::read_from_bytes(&[46, 172, 2, 2]).unwrap(), spec);
}

#[test]
fn test_name_node_bytes() {
    let spec = Spec::Name { name: String::from("id"), spec: Box::new(Spec::Uint(0)) };
    assert_eq!(spec.to_bytes(), vec![34u8, 2, b'i', b'd', 0]);
    assert_eq!(spec.to_longform_bytes(), vec![34u8, 2, b'i', b'd', 33, 0]);
    assert_eq!(Spec::read_from_bytes(&[34, 2, b'i', b'd', 0]).unwrap(), spec);
}

#[test]
fn test_longform_record_bytes() {
    let spec = Spec::Record(vec![(String::from("a"), Spec::Uint(0))]);
    assert_eq!(spec.to_bytes(), vec![42u8, 1, 1, b'a', 0]);
    assert_eq!(spec.to_longform_bytes(), vec![42u8, 1, 1, b'a', 33, 0]);
    assert_eq!(Spec::read_from_bytes(&spec.to_longform_bytes()).unwrap(), spec);
}

#[test]
fn test_ref_empty_name_bytes() {
    let spec = Spec::Ref { name: String::from("") };
    assert_eq!(spec.to_bytes(), vec![38u8, 0]);
    assert_eq!(Spec::read_from_bytes(&[38, 0]).unwrap(), spec);
}
