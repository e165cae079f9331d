use wire_repr_macros::builder::{field_write, scalar_source, FieldWrite, ScalarSource};
use wire_repr_macros::attributes::FieldAttributes;
use wire_repr_macros::errors::{ControllerRole, ErrorKind, SchemaError};
use wire_repr_macros::model::{DynamicExtent, FieldKind, Generics, Schema, SizeTerm};
use wire_repr_macros::scalar::{Endian, ScalarType, ValueType};
use wire_repr_macros::schema::{parse_schema, schema_source_identifiers, FieldDecl, ParseFailure, SchemaData};
use wire_repr_macros::syntax::{
    ExprForm, ExprPath, GenericArgument, Literal, PathArguments, PathSegment, TypePath, TypeShape,
    TypeSyntax, WireExpr,
};

fn segment(name: &str) -> PathSegment {
    PathSegment { ident: name.to_string(), arguments: PathArguments::Empty }
}

fn path_shape(names: &[&str]) -> TypeShape {
    TypeShape::Path(TypePath {
        leading_colon: false,
        qself: None,
        segments: names.iter().map(|n| segment(n)).collect(),
    })
}

fn ty(name: &str) -> TypeSyntax {
    TypeSyntax { shape: path_shape(&[name]), identifiers: vec![name.to_string()] }
}

fn wire_bytes() -> TypeSyntax {
    TypeSyntax { shape: path_shape(&["wire", "Bytes"]), identifiers: vec!["wire".into(), "Bytes".into()] }
}

fn wire_array(item: &str) -> TypeSyntax {
    let mut last = segment("Array");
    last.arguments = PathArguments::AngleBracketed(vec![GenericArgument::Type(path_shape(&[item]))]);
    TypeSyntax {
        shape: TypeShape::Path(TypePath { leading_colon: false, qself: None, segments: vec![segment("wire"), last] }),
        identifiers: vec!["wire".into(), "Array".into(), item.into()],
    }
}

fn name_expr(name: &str) -> WireExpr {
    WireExpr {
        form: ExprForm::Path(ExprPath { qself: false, segments: vec![name.to_string()] }),
        identifiers: vec![name.to_string()],
    }
}

fn int_expr(digits: &str) -> WireExpr {
    WireExpr { form: ExprForm::Lit(Literal::Int(digits.to_string())), identifiers: vec![] }
}

fn call_expr(func: &str, args: Vec<WireExpr>) -> WireExpr {
    WireExpr {
        form: ExprForm::Call { func: Box::new(name_expr(func)), args },
        identifiers: vec![func.to_string()],
    }
}

fn decl(name: &str, t: TypeSyntax, attributes: FieldAttributes) -> FieldDecl<String> {
    FieldDecl { name: name.to_string(), ty: t, attributes: Ok(attributes) }
}

fn plain() -> FieldAttributes {
    FieldAttributes::new()
}

fn le() -> FieldAttributes {
    let mut a = FieldAttributes::new();
    a.endian = Some(Endian::Little);
    a
}

fn no_generics() -> Generics {
    Generics { params: vec![], identifiers: vec![] }
}

fn parse(decls: Vec<FieldDecl<String>>) -> Result<Schema, ParseFailure<String>> {
    parse_schema("Packet".to_string(), no_generics(), SchemaData::NamedStruct(decls), vec![])
}

fn refusal(r: Result<Schema, ParseFailure<String>>) -> SchemaError {
    match r {
        Err(ParseFailure::Refused(e)) => e,
        Err(ParseFailure::Attributes(e)) => panic!("attribute failure {e}"),
        Ok(_) => panic!("schema was accepted"),
    }
}

fn accepted(r: Result<Schema, ParseFailure<String>>) -> Schema {
    match r {
        Ok(s) => s,
        Err(ParseFailure::Refused(e)) => panic!("refused: {e:?}"),
        Err(ParseFailure::Attributes(e)) => panic!("attribute failure {e}"),
    }
}

#[test]
fn fixed_scalars_are_placed_in_order() {
    let schema = accepted(parse(vec![decl("kind", ty("u8"), plain()), decl("length", ty("u16"), le())]));
    assert_eq!(schema.fields.len(), 2);
    assert!(schema.fields[0].offset.terms.is_empty());
    assert_eq!(schema.fields[1].offset.terms, vec![SizeTerm::Fixed(1)]);
    match &schema.fields[1].kind {
        FieldKind::Scalar(s) => {
            assert_eq!(s.wire_type, ScalarType::U16);
            assert_eq!(s.endian, Endian::Little);
            assert_eq!(s.value_type, ValueType::Scalar(ScalarType::U16));
        }
        other => panic!("unexpected kind {other:?}"),
    }
    assert!(schema.computed_order.is_empty());
    assert!(schema.is_syntactically_fixed());
    assert!(!schema.layout_can_fail());
}

#[test]
fn multi_byte_scalar_needs_byte_order() {
    let e = refusal(parse(vec![decl("length", ty("u32"), plain())]));
    assert_eq!(e, SchemaError { field: Some(0), kind: ErrorKind::MissingEndian, subject: None });
}

#[test]
fn one_byte_scalar_takes_no_byte_order() {
    let e = refusal(parse(vec![decl("kind", ty("u8"), le())]));
    assert_eq!(e.kind, ErrorKind::OneByteEndian);
    assert_eq!(e.field, Some(0));
}

#[test]
fn only_named_structs_are_schemas() {
    let r: Result<Schema, ParseFailure<String>> =
        parse_schema("Packet".to_string(), no_generics(), SchemaData::UnnamedStruct, vec![]);
    assert_eq!(refusal(r).kind, ErrorKind::NamedStructRequired);
    let r: Result<Schema, ParseFailure<String>> =
        parse_schema("Packet".to_string(), no_generics(), SchemaData::NotStruct, vec![]);
    assert_eq!(refusal(r).kind, ErrorKind::StructRequired);
}

#[test]
fn attribute_failure_is_reported_in_field_order() {
    let decls = vec![
        decl("kind", ty("u8"), plain()),
        FieldDecl { name: "bad".to_string(), ty: ty("u8"), attributes: Err("unreadable".to_string()) },
        decl("later", ty("u32"), plain()),
    ];
    match parse(decls) {
        Err(ParseFailure::Attributes(e)) => assert_eq!(e, "unreadable"),
        _ => panic!("expected the attribute failure"),
    }
}

#[test]
fn bounded_bytes_follow_their_length() {
    let mut bytes = plain();
    bytes.bytes = Some("len".to_string());
    let schema = accepted(parse(vec![decl("len", ty("u8"), plain()), decl("payload", wire_bytes(), bytes)]));
    match &schema.fields[1].kind {
        FieldKind::RawBytes(DynamicExtent::Bounded(c)) => assert_eq!(c, "len"),
        other => panic!("unexpected kind {other:?}"),
    }
    assert!(schema.is_length_controller(&"len".to_string()));
    assert_eq!(schema.length_dependents(&"len".to_string()), vec![1]);
    assert!(schema.layout_can_fail());
    assert!(schema.has_leading_extent());
}

#[test]
fn length_controller_must_be_unsigned() {
    let mut bytes = plain();
    bytes.bytes = Some("len".to_string());
    let e = refusal(parse(vec![decl("len", ty("i8"), plain()), decl("payload", wire_bytes(), bytes)]));
    assert_eq!(e.kind, ErrorKind::ControllerNotUnsigned { role: ControllerRole::ByteLength });
    assert_eq!(e.field, Some(1));
    assert_eq!(e.subject, Some("len".to_string()));
}

#[test]
fn length_controller_must_exist() {
    let mut bytes = plain();
    bytes.bytes = Some("missing".to_string());
    let e = refusal(parse(vec![decl("len", ty("u8"), plain()), decl("payload", wire_bytes(), bytes)]));
    assert_eq!(e.kind, ErrorKind::ControllerUnknown { role: ControllerRole::ByteLength });
}

#[test]
fn rest_must_be_last() {
    let mut rest = plain();
    rest.rest = true;
    let e = refusal(parse(vec![decl("tail", wire_bytes(), rest), decl("after", ty("u8"), plain())]));
    assert_eq!(e.kind, ErrorKind::RestNotLast);
    assert_eq!(e.field, Some(0));
}

#[test]
fn rest_bytes_end_the_schema() {
    let mut rest = plain();
    rest.rest = true;
    let schema = accepted(parse(vec![decl("kind", ty("u8"), plain()), decl("tail", wire_bytes(), rest)]));
    assert!(!schema.has_leading_extent());
}

#[test]
fn bytes_and_rest_exclude_each_other() {
    let mut both = plain();
    both.rest = true;
    both.bytes = Some("len".to_string());
    let e = refusal(parse(vec![decl("len", ty("u8"), plain()), decl("tail", wire_bytes(), both)]));
    assert_eq!(e.kind, ErrorKind::BytesAndRest);
}

fn flag_schema(dependents: Vec<FieldDecl<String>>) -> Result<Schema, ParseFailure<String>> {
    let mut flag = plain();
    flag.flag = Some("present".to_string());
    let mut stored = plain();
    stored.representation = Some(ScalarType::U8);
    let mut decls = vec![decl("present", ty("bool"), stored), decl("has_extra", ty("bool"), flag)];
    decls.extend(dependents);
    parse(decls)
}

fn depends_on(name: &str) -> FieldAttributes {
    let mut a = plain();
    a.condition = Some(name.to_string());
    a
}

#[test]
fn conditional_group_is_accepted() {
    let schema = accepted(flag_schema(vec![
        decl("extra", ty("u8"), depends_on("has_extra")),
        decl("more", ty("u8"), depends_on("has_extra")),
    ]));
    assert!(schema.is_presence_controller(&"present".to_string()));
    assert_eq!(schema.condition_dependents(&"has_extra".to_string()), vec![2, 3]);
}

#[test]
fn flag_needs_dependents() {
    let e = refusal(flag_schema(vec![decl("extra", ty("u8"), plain())]));
    assert_eq!(e, SchemaError { field: Some(1), kind: ErrorKind::FlagWithoutDependents, subject: None });
}

#[test]
fn conditional_group_must_be_contiguous() {
    let e = refusal(flag_schema(vec![
        decl("extra", ty("u8"), depends_on("has_extra")),
        decl("gap", ty("u8"), plain()),
        decl("more", ty("u8"), depends_on("has_extra")),
    ]));
    assert_eq!(e.kind, ErrorKind::ConditionalNotContiguous);
}

#[test]
fn condition_must_name_a_flag() {
    let e = refusal(parse(vec![decl("a", ty("u8"), plain()), decl("b", ty("u8"), depends_on("a"))]));
    assert_eq!(e, SchemaError { field: Some(1), kind: ErrorKind::ConditionNotEarlierFlag, subject: None });
    let e = refusal(parse(vec![decl("b", ty("u8"), depends_on("nothing"))]));
    assert_eq!(e.kind, ErrorKind::ConditionUnknown);
}

#[test]
fn counted_array_is_accepted_and_its_controller_counts_once() {
    let mut counted = plain();
    counted.counted_by = Some("count".to_string());
    let schema = accepted(parse(vec![decl("count", ty("u8"), plain()), decl("items", wire_array("Item"), counted)]));
    assert!(schema.is_count_controller(&"count".to_string()));

    let mut first = plain();
    first.counted_by = Some("count".to_string());
    let mut second = plain();
    second.counted_by = Some("count".to_string());
    let e = refusal(parse(vec![
        decl("count", ty("u8"), plain()),
        decl("items", wire_array("Item"), first),
        decl("others", wire_array("Item"), second),
    ]));
    assert_eq!(e.kind, ErrorKind::CountControllerShared);
    assert_eq!(e.field, Some(2));
    assert_eq!(e.subject, Some("count".to_string()));
}

#[test]
fn array_needs_a_count() {
    let e = refusal(parse(vec![decl("items", wire_array("Item"), plain())]));
    assert_eq!(e.kind, ErrorKind::ArrayNeedsCountedBy);
}

fn computed(callback: WireExpr) -> FieldAttributes {
    let mut a = plain();
    a.computed = Some(callback);
    a
}

#[test]
fn computed_fields_run_after_what_they_read() {
    let schema = accepted(parse(vec![
        decl("total", ty("u8"), computed(call_expr("sum", vec![name_expr("partial")]))),
        decl("partial", ty("u8"), computed(call_expr("half", vec![name_expr("value")]))),
        decl("value", ty("u8"), plain()),
    ]));
    assert_eq!(schema.computed_order, vec![1, 0]);
}

#[test]
fn computed_cycle_is_refused() {
    let e = refusal(parse(vec![
        decl("a", ty("u8"), computed(call_expr("f", vec![name_expr("b")]))),
        decl("b", ty("u8"), computed(call_expr("g", vec![name_expr("a")]))),
    ]));
    assert_eq!(e.kind, ErrorKind::ComputedCycle);
    assert_eq!(e.field, Some(0));
}

#[test]
fn computed_callback_must_read_known_fields() {
    let e = refusal(parse(vec![decl("a", ty("u8"), computed(call_expr("f", vec![name_expr("ghost")])))]));
    assert_eq!(e, SchemaError { field: Some(0), kind: ErrorKind::ComputedUnknownField, subject: None });
}

#[test]
fn computed_field_cannot_control_geometry() {
    let mut bytes = plain();
    bytes.bytes = Some("len".to_string());
    let e = refusal(parse(vec![
        decl("len", ty("u8"), computed(call_expr("length", vec![name_expr("payload")]))),
        decl("payload", wire_bytes(), bytes),
    ]));
    assert_eq!(e.kind, ErrorKind::ComputedControlsGeometry);
    assert_eq!(e.field, Some(0));
}

fn bits_of(controller: &str, start: u32, end: u32) -> FieldAttributes {
    let mut a = plain();
    a.bits_of = Some(controller.to_string());
    a.bits = Some((start, end));
    a
}

#[test]
fn bit_projections_share_a_controller_without_overlap() {
    let schema = accepted(parse(vec![
        decl("flags", ty("u8"), plain()),
        decl("low", ty("u8"), bits_of("flags", 0, 3)),
        decl("high", ty("u8"), bits_of("flags", 4, 7)),
    ]));
    assert!(schema.is_bit_controller(&"flags".to_string()));
    let e = refusal(parse(vec![
        decl("flags", ty("u8"), plain()),
        decl("low", ty("u8"), bits_of("flags", 0, 3)),
        decl("high", ty("u8"), bits_of("flags", 3, 7)),
    ]));
    assert_eq!(e.kind, ErrorKind::BitRangesOverlap);
    assert_eq!(e.field, Some(2));
}

#[test]
fn bit_projection_must_fit_its_controller() {
    let e = refusal(parse(vec![decl("flags", ty("u8"), plain()), decl("wide", ty("u16"), bits_of("flags", 0, 8))]));
    assert_eq!(e.kind, ErrorKind::BitControllerTooNarrow);
}

#[test]
fn bit_controller_plays_one_role() {
    let mut bytes = plain();
    bytes.bytes = Some("flags".to_string());
    let e = refusal(parse(vec![
        decl("flags", ty("u8"), plain()),
        decl("low", ty("u8"), bits_of("flags", 0, 3)),
        decl("payload", wire_bytes(), bytes),
    ]));
    assert_eq!(e, SchemaError { field: Some(1), kind: ErrorKind::BitControllerOtherRole, subject: Some("flags".to_string()) });
}

#[test]
fn static_position_behind_cursor_is_refused() {
    let mut at = plain();
    at.position = Some(int_expr("0"));
    let e = refusal(parse(vec![decl("a", ty("u8"), plain()), decl("b", ty("u8"), at)]));
    assert_eq!(e.kind, ErrorKind::AtBeforeCursor { requested: 0, current: 1 });
}

#[test]
fn source_identifiers_cover_name_fields_and_types() {
    let schema = accepted(parse(vec![decl("r#type", ty("u8"), plain()), decl("length", ty("u16"), le())]));
    let mut ids = schema_source_identifiers(&schema);
    ids.sort();
    assert_eq!(ids, vec!["Packet", "length", "type", "u16", "u8"]);
}

fn be() -> FieldAttributes {
    let mut a = FieldAttributes::new();
    a.endian = Some(Endian::Big);
    a
}

#[test]
fn quick_start_packet_has_no_length_or_constant_setter() {
    let mut magic = be();
    magic.constant = Some(int_expr("22354"));
    let mut payload = plain();
    payload.bytes = Some("payload_len".to_string());
    let schema = accepted(parse(vec![
        decl("magic", ty("u16"), magic),
        decl("kind", ty("u8"), plain()),
        decl("payload_len", ty("u16"), be()),
        decl("payload", wire_bytes(), payload),
    ]));
    assert_eq!(schema.fields[3].offset.terms, vec![SizeTerm::Fixed(2), SizeTerm::Fixed(1), SizeTerm::Fixed(2)]);
    let slots = wire_repr_macros::builder::slots(&schema);
    let set: Vec<usize> = slots.iter().map(|slot| slot.field).collect();
    assert_eq!(set, vec![1, 3]);
}

#[test]
fn generic_items_are_counted_by_an_ordinary_field() {
    let mut values = plain();
    values.counted_by = Some("count".to_string());
    let generics = Generics {
        params: vec![wire_repr_macros::model::GenericParam::Type("T".to_string())],
        identifiers: vec!["T".to_string()],
    };
    let schema = match parse_schema(
        "Items".to_string(),
        generics,
        SchemaData::NamedStruct(vec![decl("count", ty("u16"), le()), decl("values", wire_array("T"), values)]),
        vec![],
    ) {
        Ok(s) => s,
        Err(_) => panic!("refused"),
    };
    assert!(schema.is_count_controller(&"count".to_string()));
    let slots = wire_repr_macros::recursive::schema_slots(&schema);
    assert_eq!(slots.len(), 1);
    assert_eq!(slots[0].fields, vec![1]);
}

#[test]
fn checksum_over_everything_but_itself() {
    let exclude_self = call_expr("exclude", vec![name_expr("self")]);
    let mut checksum = be();
    checksum.computed = Some(call_expr("checksum", vec![exclude_self]));
    let schema = accepted(parse(vec![
        decl("kind", ty("u8"), plain()),
        decl("value", ty("u16"), be()),
        decl("checksum", ty("u16"), checksum),
    ]));
    assert_eq!(schema.computed_order, vec![2]);
    assert!(matches!(&schema.fields[2].kind, FieldKind::Scalar(s) if s.computed.is_some()));
    let callback = call_expr("checksum", vec![call_expr("exclude", vec![name_expr("self")])]);
    let names = wire_repr_macros::computed::computed_dependency_names(&callback, &"checksum".to_string(), &schema.fields);
    assert_eq!(names, Ok(vec!["kind".to_string(), "value".to_string()]));
}

#[test]
fn conditional_group_is_written_at_its_first_field() {
    let schema = accepted(flag_schema(vec![
        decl("extra", ty("u8"), depends_on("has_extra")),
        decl("more", ty("u8"), depends_on("has_extra")),
    ]));
    assert!(matches!(field_write(&schema, 0), FieldWrite::Alone));
    assert!(matches!(field_write(&schema, 1), FieldWrite::Alone));
    assert!(matches!(field_write(&schema, 2), FieldWrite::ChoiceGroup(c) if c == "has_extra"));
    assert!(matches!(field_write(&schema, 3), FieldWrite::Skip));
}

#[test]
fn written_scalars_take_their_values_from_the_right_place() {
    let mut magic = be();
    magic.constant = Some(int_expr("22354"));
    let mut payload = plain();
    payload.bytes = Some("payload_len".to_string());
    let packet = accepted(parse(vec![
        decl("magic", ty("u16"), magic),
        decl("kind", ty("u8"), plain()),
        decl("payload_len", ty("u16"), be()),
        decl("payload", wire_bytes(), payload),
    ]));
    assert!(matches!(scalar_source(&packet, 0), ScalarSource::Constant));
    assert!(matches!(scalar_source(&packet, 1), ScalarSource::Slot));
    assert!(matches!(scalar_source(&packet, 2), ScalarSource::DerivedLength { first: 3, checks } if checks.is_empty()));

    let flagged = accepted(flag_schema(vec![decl("extra", ty("u8"), depends_on("has_extra"))]));
    assert!(matches!(scalar_source(&flagged, 0), ScalarSource::Presence(1)));

    let mut counted = plain();
    counted.counted_by = Some("count".to_string());
    let array = accepted(parse(vec![decl("count", ty("u8"), plain()), decl("items", wire_array("Item"), counted)]));
    assert!(matches!(scalar_source(&array, 0), ScalarSource::Placeholder));

    let summed = accepted(parse(vec![
        decl("total", ty("u8"), computed(call_expr("sum", vec![name_expr("value")]))),
        decl("value", ty("u8"), plain()),
    ]));
    assert!(matches!(scalar_source(&summed, 0), ScalarSource::Placeholder));
    assert!(matches!(scalar_source(&summed, 1), ScalarSource::Slot));

    let bits = accepted(parse(vec![
        decl("flags", ty("u8"), plain()),
        decl("low", ty("u8"), bits_of("flags", 0, 3)),
    ]));
    assert!(matches!(scalar_source(&bits, 0), ScalarSource::BitController));
}

#[test]
fn widest_bit_range_without_a_controller_is_refused() {
    let mut wide = plain();
    wide.bits = Some((0, u32::MAX));
    let e = refusal(parse(vec![decl("flags", ty("u8"), plain()), decl("all", ty("u32"), wide)]));
    assert_eq!(e.kind, ErrorKind::BitWithoutBitsOf);
    assert_eq!(e.field, Some(1));
}

#[test]
fn widest_bit_projection_overflows_after_earlier_fields_are_checked() {
    let e = refusal(parse(vec![decl("flags", ty("u8"), plain()), decl("all", ty("u32"), bits_of("flags", 0, u32::MAX))]));
    assert_eq!(e.kind, ErrorKind::BitRangeOverflow);
    assert_eq!(e.field, Some(1));
    let e = refusal(parse(vec![
        decl("loose", wire_bytes(), plain()),
        decl("all", ty("u32"), bits_of("flags", 0, u32::MAX)),
    ]));
    assert_eq!(e.field, Some(0));
}

#[test]
fn counted_generic_items_get_a_recursive_body() {
    let generics = || Generics {
        params: vec![wire_repr_macros::model::GenericParam::Type("T".to_string())],
        identifiers: vec!["T".to_string()],
    };
    let mut values = plain();
    values.counted_by = Some("count".to_string());
    let schema = match parse_schema(
        "Items".to_string(),
        generics(),
        SchemaData::NamedStruct(vec![decl("count", ty("u16"), le()), decl("values", wire_array("T"), values)]),
        vec![],
    ) {
        Ok(s) => s,
        Err(_) => panic!("refused"),
    };
    let plan = wire_repr_macros::recursive::recursive_body_plan(&schema).expect("planned");
    assert_eq!(plan.generic, "T");
    assert_eq!(plan.count_width, 2);
    assert!(!plan.big_endian);

    let mut values = plain();
    values.counted_by = Some("count".to_string());
    let other = match parse_schema(
        "Items".to_string(),
        generics(),
        SchemaData::NamedStruct(vec![decl("count", ty("u16"), le()), decl("values", wire_array("Item"), values)]),
        vec![],
    ) {
        Ok(s) => s,
        Err(_) => panic!("refused"),
    };
    assert!(wire_repr_macros::recursive::recursive_body_plan(&other).is_none());
}
