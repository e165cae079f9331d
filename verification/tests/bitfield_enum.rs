use wire_repr_macros::dispatch::{
    encode_selector, encode_unknown, enum_dispatch, enum_fixed_size, enum_frame, enum_leading_extent, enum_view, enum_view_plan, EnumFrame,
    EnumFramed, EnumViewError,
};
use wire_repr_macros::bitfield::{
    accept_bit_attribute, accept_bitfield_attribute, bit_value, bits_value, finish_bit_range, is_bitfield,
    is_bool, parse as parse_bitfield, scalar_from_type, text_contains, BitField, BitFieldDecl, BitKey,
    BitfieldData, BitfieldKey, BitfieldSchema,
};
use wire_repr_macros::enumeration::{
    accept_enum_attribute, accept_variant_attribute, check_builder, parse as parse_enum, recursive_view_slots,
    EnumData, EnumKey, EnumSchema, SelectorValue, VariantDecl, VariantKey,
};
use wire_repr_macros::errors::{ErrorKind, SchemaError};
use wire_repr_macros::model::Generics;
use wire_repr_macros::scalar::{Endian, ScalarType};
use wire_repr_macros::schema::ParseFailure;
use wire_repr_macros::syntax::{
    ExprForm, GenericArgument, Literal, PathArguments, PathSegment, TypePath, TypeShape, TypeSyntax, WireExpr,
};

fn path_shape(names: &[&str]) -> TypeShape {
    TypeShape::Path(TypePath {
        leading_colon: false,
        qself: None,
        segments: names
            .iter()
            .map(|n| PathSegment { ident: n.to_string(), arguments: PathArguments::Empty })
            .collect(),
    })
}

fn ty(name: &str) -> TypeSyntax {
    TypeSyntax { shape: path_shape(&[name]), identifiers: vec![name.to_string()] }
}

fn no_generics() -> Generics {
    Generics { params: vec![], identifiers: vec![] }
}

fn int_lit(d: &str) -> Box<WireExpr> {
    Box::new(WireExpr { form: ExprForm::Lit(Literal::Int(d.to_string())), identifiers: vec![] })
}

fn range(start: Option<&str>, end: Option<&str>, closed: bool) -> WireExpr {
    WireExpr { form: ExprForm::Range { closed, start: start.map(int_lit), end: end.map(int_lit) }, identifiers: vec![] }
}

fn field(name: &str, t: &str, start: u32, end: u32) -> BitFieldDecl<String> {
    BitFieldDecl { name: name.to_string(), ty: ty(t), range: Ok((start, end)) }
}

fn bitfield(repr: &str, endian: Option<Endian>, fields: Vec<BitFieldDecl<String>>) -> Result<BitfieldSchema, ParseFailure<String>> {
    parse_bitfield("Flags".to_string(), no_generics(), Some(ty(repr)), endian, BitfieldData::NamedStruct(fields))
}

fn bitfield_refusal(r: Result<BitfieldSchema, ParseFailure<String>>) -> SchemaError {
    match r {
        Err(ParseFailure::Refused(e)) => e,
        _ => panic!("expected a refusal"),
    }
}

#[test]
fn bit_field_masks() {
    let f = BitField { name: "mode".into(), ty: ty("u8"), start: 4, end: 6, is_bool: false };
    assert_eq!(f.width(), 3);
    assert_eq!(f.value_mask(), 0b111);
    assert_eq!(f.shifted_mask(), 0b111_0000);
    let full = BitField { name: "all".into(), ty: ty("u128"), start: 0, end: 127, is_bool: false };
    assert_eq!(full.width(), 128);
    assert_eq!(full.value_mask(), u128::MAX);
    assert_eq!(full.shifted_mask(), u128::MAX);
}

#[test]
fn bitfield_is_accepted_with_disjoint_ranges() {
    let schema = match bitfield("u16", Some(Endian::Big), vec![field("ready", "bool", 0, 0), field("mode", "u8", 1, 3), field("rest", "u16", 4, 15)]) {
        Ok(s) => s,
        Err(_) => panic!("bitfield refused"),
    };
    assert_eq!(schema.representation, ScalarType::U16);
    assert_eq!(schema.endian, Endian::Big);
    assert_eq!(schema.fields.len(), 3);
    assert!(schema.fields[0].is_bool);
    assert!(!schema.fields[1].is_bool);
    assert_eq!((schema.fields[2].start, schema.fields[2].end), (4, 15));
}

#[test]
fn bitfield_ranges_cannot_overlap() {
    let e = bitfield_refusal(bitfield("u8", None, vec![field("a", "u8", 0, 3), field("b", "u8", 3, 5)]));
    assert_eq!(e, SchemaError { field: Some(1), kind: ErrorKind::BitfieldRangesOverlap, subject: None });
}

#[test]
fn bitfield_field_rules() {
    assert_eq!(bitfield_refusal(bitfield("u8", None, vec![field("a", "u8", 0, 8)])).kind, ErrorKind::BitfieldRangeTooWide);
    assert_eq!(bitfield_refusal(bitfield("u8", None, vec![field("a", "Custom", 0, 0)])).kind, ErrorKind::BitfieldSingleBitType);
    assert_eq!(bitfield_refusal(bitfield("u8", None, vec![field("a", "bool", 0, 1)])).kind, ErrorKind::BitfieldMultiBitType);
    assert_eq!(bitfield_refusal(bitfield("u8", None, vec![field("a", "i8", 0, 1)])).kind, ErrorKind::BitfieldMultiBitType);
    assert_eq!(bitfield_refusal(bitfield("u16", Some(Endian::Little), vec![field("a", "u8", 0, 8)])).kind, ErrorKind::BitfieldLogicalTooNarrow);
    assert_eq!(bitfield_refusal(bitfield("u8", None, vec![])).kind, ErrorKind::BitfieldEmpty);
}

#[test]
fn bitfield_representation_rules() {
    assert_eq!(bitfield_refusal(bitfield("i8", None, vec![field("a", "u8", 0, 1)])).kind, ErrorKind::BitfieldNotUnsigned);
    assert_eq!(bitfield_refusal(bitfield("Word", None, vec![field("a", "u8", 0, 1)])).kind, ErrorKind::PrimitiveIntegerExpected);
    assert_eq!(bitfield_refusal(bitfield("u32", None, vec![field("a", "u8", 0, 1)])).kind, ErrorKind::MissingEndian);
    assert_eq!(bitfield_refusal(bitfield("u8", Some(Endian::Little), vec![field("a", "u8", 0, 1)])).kind, ErrorKind::OneByteEndian);
    let missing: Result<BitfieldSchema, ParseFailure<String>> =
        parse_bitfield("Flags".to_string(), no_generics(), None, None, BitfieldData::NamedStruct(vec![]));
    assert_eq!(bitfield_refusal(missing).kind, ErrorKind::BitfieldMissingAs);
    let tuple: Result<BitfieldSchema, ParseFailure<String>> =
        parse_bitfield("Flags".to_string(), no_generics(), Some(ty("u8")), None, BitfieldData::UnnamedStruct);
    assert_eq!(bitfield_refusal(tuple).kind, ErrorKind::BitfieldNotNamed);
    let other: Result<BitfieldSchema, ParseFailure<String>> =
        parse_bitfield("Flags".to_string(), no_generics(), Some(ty("u8")), None, BitfieldData::NotStruct);
    assert_eq!(bitfield_refusal(other).kind, ErrorKind::BitfieldNotStruct);
}

#[test]
fn bitfield_attribute_grammar() {
    assert_eq!(accept_bitfield_attribute(false, false, Some(&"as".to_string())), Ok(BitfieldKey::As));
    assert_eq!(accept_bitfield_attribute(true, false, Some(&"as".to_string())), Err(ErrorKind::BitfieldDuplicateAs));
    assert_eq!(accept_bitfield_attribute(false, false, Some(&"be".to_string())), Ok(BitfieldKey::Endian(Endian::Big)));
    assert_eq!(accept_bitfield_attribute(false, true, Some(&"le".to_string())), Err(ErrorKind::DuplicateEndian));
    assert_eq!(accept_bitfield_attribute(false, false, Some(&"other".to_string())), Err(ErrorKind::BitfieldAttribute));
    assert_eq!(accept_bit_attribute(false, Some(&"bits".to_string())), Ok(BitKey::Bits));
    assert_eq!(accept_bit_attribute(true, Some(&"bit".to_string())), Err(ErrorKind::DuplicateBitRange));
    assert_eq!(accept_bit_attribute(false, None), Err(ErrorKind::BitfieldFieldAttribute));
    assert_eq!(bit_value(&"5".to_string()), Ok((5, 5)));
    assert_eq!(bit_value(&"4294967296".to_string()), Err(ErrorKind::IntegerTooLarge));
    assert_eq!(bits_value(&range(Some("2"), Some("5"), true)), Ok((2, 5)));
    assert_eq!(bits_value(&range(None, Some("5"), true)), Err(ErrorKind::BitfieldBitsNoStart));
    assert_eq!(bits_value(&range(Some("2"), None, true)), Err(ErrorKind::BitfieldBitsNoEnd));
    assert_eq!(bits_value(&range(Some("2"), Some("5"), false)), Err(ErrorKind::BitfieldBitsNotInclusive));
    assert_eq!(bits_value(&int_lit("3")), Err(ErrorKind::BitfieldBitsNotRange));
    assert_eq!(finish_bit_range(None), Err(ErrorKind::BitfieldRangeMissing));
    assert_eq!(finish_bit_range(Some((6, 2))), Err(ErrorKind::BitStartAfterEnd));
    assert_eq!(finish_bit_range(Some((2, 6))), Ok((2, 6)));
}

#[test]
fn bitfield_detection_and_type_reading() {
    assert!(is_bitfield(true, &vec!["as".into(), "u8".into()], &vec!["wire (bits = 0 ..= 3)".into()]));
    assert!(!is_bitfield(true, &vec!["as".into()], &vec!["wire (le)".into()]));
    assert!(!is_bitfield(false, &vec!["as".into()], &vec!["wire (bit = 1)".into()]));
    assert!(text_contains("bits_of", "bit"));
    assert!(!text_contains("bi", "bit"));
    assert!(is_bool(&path_shape(&["bool"])));
    assert!(!is_bool(&path_shape(&["std", "bool"])));
    assert_eq!(scalar_from_type(&path_shape(&["r#u32"])), Some(ScalarType::U32));
    assert_eq!(scalar_from_type(&path_shape(&["core", "u32"])), None);
}

fn selector_value(text: &str) -> Option<SelectorValue> {
    Some(SelectorValue {
        expr: WireExpr { form: ExprForm::Lit(Literal::Int(text.to_string())), identifiers: vec![] },
        tokens: text.to_string(),
    })
}

fn known(name: &str, value: &str) -> VariantDecl<String> {
    VariantDecl { name: name.to_string(), body: Some(ty("Body")), attributes: Ok((selector_value(value), false)) }
}

fn fallback(name: &str) -> VariantDecl<String> {
    VariantDecl {
        name: name.to_string(),
        body: Some(TypeSyntax { shape: path_shape(&["wire", "Bytes"]), identifiers: vec!["wire".into(), "Bytes".into()] }),
        attributes: Ok((None, true)),
    }
}

fn selector_enum(variants: Vec<VariantDecl<String>>) -> Result<EnumSchema, ParseFailure<String>> {
    parse_enum("Message".to_string(), no_generics(), Some(ty("u8")), None, EnumData::Enum(variants))
}

fn enum_refusal(r: Result<EnumSchema, ParseFailure<String>>) -> SchemaError {
    match r {
        Err(ParseFailure::Refused(e)) => e,
        _ => panic!("expected a refusal"),
    }
}

#[test]
fn selector_enum_is_accepted() {
    let schema = match selector_enum(vec![known("Ping", "1"), known("Pong", "2"), fallback("Other")]) {
        Ok(s) => s,
        Err(_) => panic!("enum refused"),
    };
    assert_eq!(schema.selector, ScalarType::U8);
    assert_eq!(schema.endian, Endian::Native);
    assert_eq!(schema.known_variants(), vec![0, 1]);
    assert_eq!(schema.unknown(), Some(2));
}

#[test]
fn selector_values_are_distinct() {
    let e = enum_refusal(selector_enum(vec![known("Ping", "1"), known("Pong", "1")]));
    assert_eq!(e, SchemaError { field: Some(1), kind: ErrorKind::DuplicateSelectorValue, subject: None });
}

#[test]
fn selector_enum_variant_rules() {
    assert_eq!(enum_refusal(selector_enum(vec![known("A", "1"), fallback("B"), fallback("C")])).kind, ErrorKind::UnknownRepeated);
    assert_eq!(enum_refusal(selector_enum(vec![fallback("B")])).kind, ErrorKind::NoKnownVariant);
    assert_eq!(enum_refusal(selector_enum(vec![known("Unknown", "1"), fallback("B")])), SchemaError { field: Some(0), kind: ErrorKind::UnknownNameReserved, subject: None });
    let no_value = VariantDecl { name: "A".to_string(), body: Some(ty("Body")), attributes: Ok((None, false)) };
    assert_eq!(enum_refusal(selector_enum(vec![no_value])).kind, ErrorKind::KnownWithoutValue);
    let no_body = VariantDecl { name: "A".to_string(), body: None, attributes: Ok((selector_value("1"), false)) };
    assert_eq!(enum_refusal(selector_enum(vec![no_body])).kind, ErrorKind::VariantBodyShape);
    let valued_fallback = VariantDecl { name: "B".to_string(), body: Some(ty("Body")), attributes: Ok((selector_value("3"), true)) };
    assert_eq!(enum_refusal(selector_enum(vec![known("A", "1"), valued_fallback])).kind, ErrorKind::UnknownWithValue);
    let typed_fallback = VariantDecl { name: "B".to_string(), body: Some(ty("Body")), attributes: Ok((None, true)) };
    assert_eq!(enum_refusal(selector_enum(vec![known("A", "1"), typed_fallback])).kind, ErrorKind::UnknownBodyNotBytes);
    let known_unknown_without_fallback = selector_enum(vec![known("Unknown", "1")]);
    assert!(known_unknown_without_fallback.is_ok());
}

#[test]
fn selector_enum_header_rules() {
    let wide: Result<EnumSchema, ParseFailure<String>> =
        parse_enum("M".to_string(), no_generics(), Some(ty("u16")), None, EnumData::Enum(vec![known("A", "1")]));
    assert_eq!(enum_refusal(wide).kind, ErrorKind::MissingEndian);
    let signed: Result<EnumSchema, ParseFailure<String>> =
        parse_enum("M".to_string(), no_generics(), Some(ty("i8")), None, EnumData::Enum(vec![known("A", "1")]));
    assert_eq!(enum_refusal(signed).kind, ErrorKind::SelectorNotUnsigned);
    let named: Result<EnumSchema, ParseFailure<String>> =
        parse_enum("M".to_string(), no_generics(), Some(ty("Tag")), None, EnumData::Enum(vec![known("A", "1")]));
    assert_eq!(enum_refusal(named).kind, ErrorKind::SelectorUnsupported);
    let qualified: Result<EnumSchema, ParseFailure<String>> = parse_enum(
        "M".to_string(),
        no_generics(),
        Some(TypeSyntax { shape: path_shape(&["core", "u8"]), identifiers: vec![] }),
        None,
        EnumData::Enum(vec![known("A", "1")]),
    );
    assert_eq!(enum_refusal(qualified).kind, ErrorKind::SelectorNotPrimitive);
    let missing: Result<EnumSchema, ParseFailure<String>> = parse_enum("M".to_string(), no_generics(), None, None, EnumData::NotEnum);
    assert_eq!(enum_refusal(missing).kind, ErrorKind::MissingSelector);
    let not_enum: Result<EnumSchema, ParseFailure<String>> =
        parse_enum("M".to_string(), no_generics(), Some(ty("u8")), None, EnumData::NotEnum);
    assert_eq!(enum_refusal(not_enum).kind, ErrorKind::EnumRequired);
}

#[test]
fn enum_attribute_grammar() {
    assert_eq!(accept_enum_attribute(false, false, Some(&"selector".to_string())), Ok(EnumKey::Selector));
    assert_eq!(accept_enum_attribute(true, false, Some(&"selector".to_string())), Err(ErrorKind::DuplicateSelector));
    assert_eq!(accept_enum_attribute(false, false, Some(&"le".to_string())), Ok(EnumKey::Endian(Endian::Little)));
    assert_eq!(accept_enum_attribute(false, false, Some(&"as".to_string())), Err(ErrorKind::EnumAttribute));
    assert_eq!(accept_variant_attribute(false, false, Some(&"value".to_string())), Ok(VariantKey::Value));
    assert_eq!(accept_variant_attribute(true, false, Some(&"value".to_string())), Err(ErrorKind::DuplicateSelectorValue));
    assert_eq!(accept_variant_attribute(false, true, Some(&"unknown".to_string())), Err(ErrorKind::DuplicateUnknownMarker));
    assert_eq!(accept_variant_attribute(false, false, Some(&"bits".to_string())), Err(ErrorKind::VariantAttribute));
}

#[test]
fn bit_fields_read_back_what_was_set_and_leave_others_alone() {
    let mode = BitField { name: "mode".into(), ty: ty("u8"), start: 4, end: 6, is_bool: false };
    let ready = BitField { name: "ready".into(), ty: ty("bool"), start: 0, end: 0, is_bool: true };
    let raw: u128 = 0b1000_1111;
    let set = mode.set_bits(raw, 0b101);
    assert_eq!(set, 0b1101_1111);
    assert_eq!(mode.get_bits(set), 0b101);
    assert_eq!(ready.get_bits(set), ready.get_bits(raw));
    let cleared = ready.set_bits(set, 0);
    assert_eq!(cleared, 0b1101_1110);
    assert_eq!(mode.get_bits(cleared), 0b101);
    let full = BitField { name: "all".into(), ty: ty("u128"), start: 0, end: 127, is_bool: false };
    assert_eq!(full.get_bits(full.set_bits(7, u128::MAX - 1)), u128::MAX - 1);
}

fn generic_body(outer: &str, args: Vec<TypeShape>) -> TypeSyntax {
    TypeSyntax {
        shape: TypeShape::Path(TypePath {
            leading_colon: false,
            qself: None,
            segments: vec![PathSegment {
                ident: outer.to_string(),
                arguments: PathArguments::AngleBracketed(args.into_iter().map(GenericArgument::Type).collect()),
            }],
        }),
        identifiers: vec![outer.to_string()],
    }
}

fn with_body(name: &str, value: &str, body: TypeSyntax) -> VariantDecl<String> {
    VariantDecl { name: name.to_string(), body: Some(body), attributes: Ok((selector_value(value), false)) }
}

fn accepted_enum(r: Result<EnumSchema, ParseFailure<String>>) -> EnumSchema {
    match r {
        Ok(s) => s,
        Err(_) => panic!("enum refused"),
    }
}

#[test]
fn enum_views_are_recursive_when_a_body_passes_the_root() {
    let plain = accepted_enum(selector_enum(vec![known("Ping", "1"), fallback("Other")]));
    assert_eq!(recursive_view_slots(&plain), Ok(None));
    assert_eq!(check_builder(&plain), Ok(()));

    let pair = generic_body("Pair", vec![path_shape(&["u8"]), path_shape(&["Message"])]);
    let tree = accepted_enum(selector_enum(vec![known("Leaf", "0"), with_body("Node", "1", pair)]));
    assert_eq!(recursive_view_slots(&tree), Ok(Some(vec![None, Some(1)])));
    assert_eq!(
        check_builder(&tree),
        Err(ErrorKind::RecursiveEnumBuilder)
    );
}

#[test]
fn recursive_enum_views_refuse_what_they_cannot_frame() {
    let pair = generic_body("Pair", vec![path_shape(&["Self"])]);
    let with_fallback = accepted_enum(selector_enum(vec![with_body("Node", "1", pair), fallback("Other")]));
    assert_eq!(
        recursive_view_slots(&with_fallback),
        Err(SchemaError { field: None, kind: ErrorKind::RecursiveEnumUnknown, subject: None })
    );

    let twice = generic_body("Pair", vec![path_shape(&["Message"]), path_shape(&["Message"])]);
    let repeated = accepted_enum(selector_enum(vec![known("Leaf", "0"), with_body("Node", "1", twice)]));
    assert_eq!(
        recursive_view_slots(&repeated),
        Err(SchemaError { field: Some(1), kind: ErrorKind::RootSlotRepeated, subject: None })
    );

    let generics = Generics {
        params: vec![wire_repr_macros::model::GenericParam::Type("T".to_string())],
        identifiers: vec!["T".to_string()],
    };
    let pair = generic_body("Pair", vec![path_shape(&["Message"])]);
    let generic = accepted_enum(parse_enum(
        "Message".to_string(),
        generics,
        Some(ty("u8")),
        None,
        EnumData::Enum(vec![with_body("Node", "1", pair)]),
    ));
    assert_eq!(
        recursive_view_slots(&generic),
        Err(SchemaError { field: None, kind: ErrorKind::RecursiveEnumGenerics, subject: None })
    );
}

#[test]
fn enum_views_pick_the_variant_of_the_selector() {
    let with_fallback = accepted_enum(selector_enum(vec![known("Ping", "1"), known("Pong", "2"), fallback("Other")]));
    let plan = enum_view_plan(&with_fallback).expect("planned");
    assert_eq!(plan.selector_width, 1);
    assert_eq!(plan.table, vec![(1, 0), (2, 1)]);
    assert_eq!(plan.unknown, Some(2));
    assert_eq!(enum_dispatch(&plan, &vec![2, 7, 7], 0), Ok(EnumFrame { variant: 1, body_start: 1, selector: 2, fallback: false }));
    assert_eq!(enum_dispatch(&plan, &vec![9], 0), Ok(EnumFrame { variant: 2, body_start: 1, selector: 9, fallback: true }));
    assert_eq!(enum_dispatch(&plan, &vec![], 0), Err(EnumViewError::NeedMore { offset: 0, additional_at_least: 1 }));

    let closed = accepted_enum(selector_enum(vec![known("Ping", "1")]));
    let plan = enum_view_plan(&closed).expect("planned");
    assert_eq!(enum_dispatch(&plan, &vec![1], 0), Ok(EnumFrame { variant: 0, body_start: 1, selector: 1, fallback: false }));
    assert_eq!(enum_dispatch(&plan, &vec![3], 0), Err(EnumViewError::UnknownSelector { selector: 3, offset: 0 }));
}

#[test]
fn written_selector_picks_its_variant() {
    let schema = accepted_enum(selector_enum(vec![known("Ping", "1"), known("Pong", "200"), fallback("Other")]));
    let plan = enum_view_plan(&schema).expect("planned");
    let mut bytes = encode_selector(&plan, 1);
    assert_eq!(bytes, vec![200]);
    bytes.extend_from_slice(&[5, 6]);
    assert_eq!(enum_dispatch(&plan, &bytes, 0), Ok(EnumFrame { variant: 1, body_start: 1, selector: 200, fallback: false }));
}

#[test]
fn equal_selector_values_refuse_every_input() {
    let one = VariantDecl {
        name: "A".to_string(),
        body: Some(ty("Body")),
        attributes: Ok((
            Some(SelectorValue {
                expr: WireExpr { form: ExprForm::Lit(Literal::Int("1".to_string())), identifiers: vec![] },
                tokens: "0x01".to_string(),
            }),
            false,
        )),
    };
    let schema = accepted_enum(selector_enum(vec![known("B", "1"), one]));
    let plan = enum_view_plan(&schema).expect("planned");
    assert_eq!(enum_dispatch(&plan, &vec![1], 0), Err(EnumViewError::DuplicateSelector));
    assert_eq!(enum_dispatch(&plan, &vec![], 0), Err(EnumViewError::DuplicateSelector));
}

#[test]
fn enum_frames_bound_the_body_and_refuse_trailing_bytes() {
    let with_fallback = accepted_enum(selector_enum(vec![known("Ping", "1"), known("Pong", "2"), fallback("Other")]));
    let plan = enum_view_plan(&with_fallback).expect("planned");
    let bodies = vec![Some(2), Some(0), None];
    assert_eq!(
        enum_frame(&plan, &vec![1, 5, 5, 9], 10, &bodies),
        Ok(EnumFramed { frame: EnumFrame { variant: 0, body_start: 1, selector: 1, fallback: false }, consumed: 3 })
    );
    assert_eq!(
        enum_view(&plan, &vec![1, 5, 5, 9], &bodies),
        Err(EnumViewError::Trailing { consumed: 3, len: 4 })
    );
    assert_eq!(
        enum_frame(&plan, &vec![1, 5], 10, &bodies),
        Err(EnumViewError::InvalidFrame { offset: 11, consumed: 2, available: 1 })
    );
    assert_eq!(enum_frame(&plan, &vec![], 10, &bodies), Err(EnumViewError::NeedMore { offset: 10, additional_at_least: 1 }));
    assert_eq!(
        enum_view(&plan, &vec![7, 1, 2], &bodies),
        Ok(EnumFramed { frame: EnumFrame { variant: 2, body_start: 1, selector: 7, fallback: true }, consumed: 3 })
    );
    assert_eq!(enum_fixed_size(&plan, &vec![Some(2), Some(2)]), None);
    assert!(!enum_leading_extent(&plan, &vec![true, true]));

    let closed = accepted_enum(selector_enum(vec![known("Ping", "1"), known("Pong", "2")]));
    let plan = enum_view_plan(&closed).expect("planned");
    assert_eq!(enum_fixed_size(&plan, &vec![Some(2), Some(2)]), Some(3));
    assert_eq!(enum_fixed_size(&plan, &vec![Some(2), Some(3)]), None);
    assert!(enum_leading_extent(&plan, &vec![true, true]));
    assert!(!enum_leading_extent(&plan, &vec![true, false]));
    assert_eq!(enum_frame(&plan, &vec![3], 4, &vec![Some(0), Some(0)]), Err(EnumViewError::UnknownSelector { selector: 3, offset: 4 }));
    assert_eq!(enum_frame(&plan, &vec![2], 0, &vec![Some(0), None]), Err(EnumViewError::Body { variant: 1 }));
}

#[test]
fn unknown_variants_are_forwarded_whole() {
    let with_fallback = accepted_enum(selector_enum(vec![known("Ping", "1"), known("Pong", "2"), fallback("Other")]));
    let plan = enum_view_plan(&with_fallback).expect("planned");
    let written = encode_unknown(&plan, 7, &vec![4, 5, 6]);
    assert_eq!(written, vec![7, 4, 5, 6]);
    assert_eq!(
        enum_view(&plan, &written, &vec![Some(2), Some(0), None]),
        Ok(EnumFramed { frame: EnumFrame { variant: 2, body_start: 1, selector: 7, fallback: true }, consumed: 4 })
    );
    let mut known_bytes = encode_selector(&plan, 0);
    known_bytes.extend_from_slice(&[8, 8]);
    assert_eq!(
        enum_view(&plan, &known_bytes, &vec![Some(2), Some(0), None]),
        Ok(EnumFramed { frame: EnumFrame { variant: 0, body_start: 1, selector: 1, fallback: false }, consumed: 3 })
    );
}
