//! Round-trip, size-reporting and failure behaviour of the two schema
//! codecs, over a representative schema of every node kind.

use binschema::InterchangeBinaryFloatingPointFormat;
use binschema::InterchangeDecimalFloatingPointFormat;
use binschema::Size;
use binschema::Spec;
use binschema::SpecParsingError;
use binschema::StringEncodingFmt;

fn all_kinds_specs() -> Vec<Spec> {
    vec![
        Spec::Bool,
        Spec::Void,
        Spec::Uint(0),
        Spec::Uint(1),
        Spec::Uint(2),
        Spec::Uint(3),
        Spec::Uint(4),
        Spec::Uint(255),
        Spec::Int(0),
        Spec::Int(1),
        Spec::Int(2),
        Spec::Int(3),
        Spec::Int(100),
        Spec::BinaryFloatingPoint(InterchangeBinaryFloatingPointFormat::Half),
        Spec::BinaryFloatingPoint(InterchangeBinaryFloatingPointFormat::Single),
        Spec::BinaryFloatingPoint(InterchangeBinaryFloatingPointFormat::Double),
        Spec::BinaryFloatingPoint(InterchangeBinaryFloatingPointFormat::Quadruple),
        Spec::BinaryFloatingPoint(InterchangeBinaryFloatingPointFormat::Octuple),
        Spec::DecimalFloatingPoint(InterchangeDecimalFloatingPointFormat::Dec32),
        Spec::DecimalFloatingPoint(InterchangeDecimalFloatingPointFormat::Dec64),
        Spec::DecimalFloatingPoint(InterchangeDecimalFloatingPointFormat::Dec128),
        Spec::Decimal { precision: 0, scale: 0 },
        Spec::Decimal { precision: u64::MAX, scale: 12345 },
        Spec::String(Size::Variable, StringEncodingFmt::Utf8),
        Spec::String(Size::Variable, StringEncodingFmt::Utf16),
        Spec::String(Size::Variable, StringEncodingFmt::Ascii),
        Spec::String(Size::Fixed(0), StringEncodingFmt::Utf8),
        Spec::String(Size::Fixed(300), StringEncodingFmt::Ascii),
        Spec::Bytes(Size::Variable),
        Spec::Bytes(Size::Fixed(0)),
        Spec::Bytes(Size::Fixed(127)),
        Spec::Bytes(Size::Fixed(128)),
        Spec::Bytes(Size::Fixed(u64::MAX)),
        Spec::Optional(Box::new(Spec::Bool)),
        Spec::Optional(Box::new(Spec::Optional(Box::new(Spec::Uint(9))))),
        Spec::Name {
            name: String::from("point"),
            spec: Box::new(Spec::Record(vec![
                (String::from("x"), Spec::Int(4)),
                (String::from("y"), Spec::Int(4)),
            ])),
        },
        Spec::Name { name: String::from(""), spec: Box::new(Spec::Void) },
        Spec::Name { name: String::from("café_π"), spec: Box::new(Spec::Bool) },
        Spec::Ref { name: String::from("point") },
        Spec::Ref { name: String::from("") },
        Spec::Mapping {
            size: Size::Variable,
            key_spec: Box::new(Spec::String(Size::Variable, StringEncodingFmt::Utf8)),
            value_spec: Box::new(Spec::List {
                size: Size::Fixed(4),
                value_spec: Box::new(Spec::Uint(1)),
            }),
        },
        Spec::List { size: Size::Variable, value_spec: Box::new(Spec::Bool) },
        Spec::List {
            size: Size::Fixed(16),
            value_spec: Box::new(Spec::List {
                size: Size::Variable,
                value_spec: Box::new(Spec::Bytes(Size::Variable)),
            }),
        },
        Spec::Record(vec![]),
        Spec::Record(vec![
            (String::from("a"), Spec::Bool),
            (String::from("b"), Spec::Int(4)),
        ]),
        Spec::Record(vec![(
            String::from("inner"),
            Spec::Record(vec![(String::from("deep"), Spec::Uint(0))]),
        )]),
        Spec::Tuple(vec![]),
        Spec::Tuple(vec![Spec::Bool, Spec::Void, Spec::Uint(200)]),
        Spec::Enum(vec![]),
        Spec::Enum(vec![
            (String::from("ok"), Spec::Void),
            (
                String::from("err"),
                Spec::String(Size::Variable, StringEncodingFmt::Utf8),
            ),
        ]),
        Spec::Union(vec![]),
        Spec::Union(vec![Spec::Bool, Spec::Uint(0)]),
        Spec::Optional(Box::new(Spec::Name {
            name: String::from("tree"),
            spec: Box::new(Spec::Union(vec![
                Spec::Void,
                Spec::Tuple(vec![Spec::Ref { name: String::from("tree") }, Spec::Uint(3)]),
            ])),
        })),
    ]
}

#[test]
fn test_serde() {
    for spec in all_kinds_specs() {
        let decoded = Spec::read_from_bytes(&spec.to_bytes())
            .expect(format!("Unable to read {:?}", spec).as_str());
        assert_eq!(spec, decoded);
    }
}

#[test]
fn test_longform_serde() {
    for spec in all_kinds_specs() {
        let decoded = Spec::read_from_bytes(&spec.to_longform_bytes())
            .expect(format!("Unable to read {:?}", spec).as_str());
        assert_eq!(spec, decoded);
    }
}

#[test]
fn test_write_size() {
    for spec in all_kinds_specs() {
        let mut v: Vec<u8> = Vec::new();
        let reported_size = spec.write_as_bytes(&mut v);
        assert_eq!(v.len(), reported_size);
    }
}

#[test]
fn test_eof_deserialization() {
    for spec in all_kinds_specs() {
        let mut v: Vec<u8> = Vec::new();
        spec.write_as_bytes(&mut v);
        v.truncate(v.len() / 2);
        let res = Spec::read_from_bytes(&v);
        match res {
            Ok(_) => panic!("Unexpectedly parsed bytes to Spec"),
            Err(SpecParsingError::UnexpectedEndOfBytes) => {},
            Err(_) => panic!("EOF error expected for spec: {:?} with bytes {:?}", spec, v),
        }
    }
}

#[test]
fn test_spec_parsing_errors() {
    let never_used: u8 = 0xFF;
    assert!(matches!(
        Spec::read_from_bytes(&[never_used]),
        Err(SpecParsingError::UnknownSpecFlag(0xFF)),
    ));
    assert!(matches!(
        Spec::read_from_bytes(&[36, never_used]),
        Err(SpecParsingError::UnknownBinaryFormatFlag(0xFF)),
    ));
    assert!(matches!(
        Spec::read_from_bytes(&[37, never_used]),
        Err(SpecParsingError::UnknownDecimalFormatFlag(0xFF)),
    ));
    assert!(matches!(
        Spec::read_from_bytes(&[49, 0x01, never_used]),
        Err(SpecParsingError::UnknownStringFormatFlag(0xFF)),
    ));
    assert!(matches!(
        Spec::read_from_bytes(&[48, never_used]),
        Err(SpecParsingError::UnknownSizeFormatFlag(0xFF)),
    ));
    // A size whose variable-length integer runs far past the u64 range.
    assert!(matches!(
        Spec::read_from_bytes(&[
            48, 0x00, 0xFF, 0xFF, 0xFF, 0xFF, 0xFF, 0xFF, 0xFF, 0xFF, 0xFF, 0xFF, 0xFF, 0x01,
        ]),
        Err(SpecParsingError::IntegerOverflowVariableLengthDecodingError(_)),
    ));
}
