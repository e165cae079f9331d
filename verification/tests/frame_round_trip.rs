use wire_repr_macros::attributes::FieldAttributes;
use wire_repr_macros::frame::{
    encode, fixed_size, frame_places, frame_steps, view_frame, write_plan, At, ChildReport, FieldSpan, FrameStep,
    Placement, SlotValue, ValueCheck, ViewError, WriteError, WriteSource,
};
use wire_repr_macros::model::{Generics, Schema};
use wire_repr_macros::scalar::{Endian, ScalarType};
use wire_repr_macros::schema::{parse_schema, FieldDecl, SchemaData};
use wire_repr_macros::syntax::{
    ExprForm, GenericArgument, Literal, PathArguments, PathSegment, TypePath, TypeShape, TypeSyntax, WireExpr,
};

fn path_type(names: &[&str]) -> TypeSyntax {
    TypeSyntax {
        shape: TypeShape::Path(TypePath {
            leading_colon: false,
            qself: None,
            segments: names
                .iter()
                .map(|n| PathSegment { ident: n.to_string(), arguments: PathArguments::Empty })
                .collect(),
        }),
        identifiers: names.iter().map(|n| n.to_string()).collect(),
    }
}

fn big() -> FieldAttributes {
    let mut a = FieldAttributes::new();
    a.endian = Some(Endian::Big);
    a
}

fn decl(name: &str, ty: TypeSyntax, attributes: FieldAttributes) -> FieldDecl<String> {
    FieldDecl { name: name.to_string(), ty, attributes: Ok(attributes) }
}

fn quick_start_packet() -> Schema {
    let mut magic = big();
    magic.constant = Some(WireExpr { form: ExprForm::Lit(Literal::Int("22354".into())), identifiers: vec![] });
    let mut payload = FieldAttributes::new();
    payload.bytes = Some("payload_len".to_string());
    match parse_schema(
        "Packet".to_string(),
        Generics { params: vec![], identifiers: vec![] },
        SchemaData::NamedStruct(vec![
            decl("magic", path_type(&["u16"]), magic),
            decl("kind", path_type(&["u8"]), FieldAttributes::new()),
            decl("payload_len", path_type(&["u16"]), big()),
            decl("payload", path_type(&["wire", "Bytes"]), payload),
        ]),
        vec![],
    ) {
        Ok(s) => s,
        Err(_) => panic!("quick start packet refused"),
    }
}

const QUICK_START_BYTES: [u8; 10] = [0x57, 0x52, 7, 0, 5, b'h', b'e', b'l', b'l', b'o'];

#[test]
fn quick_start_packet_plans_its_frame() {
    let schema = quick_start_packet();
    let steps = frame_steps(&schema).expect("planned");
    assert_eq!(
        steps,
        vec![
            FrameStep::Scalar { width: 2, big_endian: true, constant: Some(0x5752), check: ValueCheck::Any },
            FrameStep::Scalar { width: 1, big_endian: false, constant: None, check: ValueCheck::Any },
            FrameStep::Scalar { width: 2, big_endian: true, constant: None, check: ValueCheck::Any },
            FrameStep::Bounded { controller: 2 },
        ]
    );
    let plan = write_plan(&schema).expect("planned");
    assert_eq!(plan.sources, vec![WriteSource::Constant, WriteSource::Slot(0), WriteSource::Length, WriteSource::Slot(1)]);
}

#[test]
fn quick_start_packet_views_its_bytes() {
    let steps = frame_steps(&quick_start_packet()).expect("planned");
    let spans = view_frame(&steps, &vec![], &QUICK_START_BYTES.to_vec(), &vec![], &vec![]).expect("framed");
    assert_eq!(
        spans,
        vec![
            FieldSpan { start: 0, end: 2, value: 0x5752 },
            FieldSpan { start: 2, end: 3, value: 7 },
            FieldSpan { start: 3, end: 5, value: 5 },
            FieldSpan { start: 5, end: 10, value: 0 },
        ]
    );
}

#[test]
fn quick_start_packet_writes_and_reads_back() {
    let plan = write_plan(&quick_start_packet()).expect("planned");
    let written = encode(&plan, &vec![SlotValue::Scalar(7), SlotValue::Bytes(b"hello".to_vec())]).expect("written");
    assert_eq!(written, QUICK_START_BYTES.to_vec());
    let spans = view_frame(&plan.steps, &vec![], &written, &vec![], &vec![]).expect("framed");
    assert_eq!(spans[1].value, 7);
    assert_eq!(&written[spans[3].start..spans[3].end], b"hello");
}

#[test]
fn incomplete_input_asks_for_more() {
    let steps = frame_steps(&quick_start_packet()).expect("planned");
    assert_eq!(
        view_frame(&steps, &vec![], &QUICK_START_BYTES[..7].to_vec(), &vec![], &vec![]),
        Err(ViewError::NeedMore { field: 3, offset: 7, additional_at_least: 3 })
    );
    assert_eq!(
        view_frame(&steps, &vec![], &QUICK_START_BYTES[..1].to_vec(), &vec![], &vec![]),
        Err(ViewError::NeedMore { field: 0, offset: 1, additional_at_least: 1 })
    );
}

#[test]
fn wrong_constant_and_trailing_bytes_are_refused() {
    let steps = frame_steps(&quick_start_packet()).expect("planned");
    let mut wrong = QUICK_START_BYTES.to_vec();
    wrong[1] = 0;
    assert_eq!(view_frame(&steps, &vec![], &wrong, &vec![], &vec![]), Err(ViewError::ConstantMismatch { field: 0, offset: 0, expected: 0x5752, actual: 0x5700 }));
    let mut longer = QUICK_START_BYTES.to_vec();
    longer.push(0);
    assert_eq!(view_frame(&steps, &vec![], &longer, &vec![], &vec![]), Err(ViewError::Trailing { consumed: 10, len: 11 }));
}

#[test]
fn bool_fields_hold_zero_or_one_and_lengths_must_agree() {
    let steps = vec![
        FrameStep::Scalar { width: 1, big_endian: false, constant: None, check: ValueCheck::Bool },
        FrameStep::Scalar { width: 1, big_endian: false, constant: None, check: ValueCheck::Any },
        FrameStep::Bounded { controller: 1 },
        FrameStep::Bounded { controller: 1 },
    ];
    assert_eq!(view_frame(&steps, &vec![], &vec![2, 0], &vec![], &vec![]), Err(ViewError::InvalidValue { field: 0, offset: 0, actual: 2 }));
    let plan = wire_repr_macros::frame::WritePlan {
        steps: steps.clone(),
        places: vec![],
        sources: vec![WriteSource::Slot(0), WriteSource::Length, WriteSource::Slot(1), WriteSource::Slot(2)],
    };
    let agree = encode(&plan, &vec![SlotValue::Scalar(1), SlotValue::Bytes(vec![9, 9]), SlotValue::Bytes(vec![8, 8])]);
    assert_eq!(agree, Ok(vec![1, 2, 9, 9, 8, 8]));
    let differ = encode(&plan, &vec![SlotValue::Scalar(1), SlotValue::Bytes(vec![9]), SlotValue::Bytes(vec![8, 8])]);
    assert_eq!(differ, Err(WriteError::LengthConflict { field: 1, expected: 1, actual: 2 }));
    let long = encode(&plan, &vec![SlotValue::Scalar(0), SlotValue::Bytes(vec![0; 256]), SlotValue::Bytes(vec![0; 256])]);
    assert_eq!(long, Err(WriteError::LengthOverflow { field: 1 }));
}

#[test]
fn fixed_size_is_the_sum_of_fixed_fields() {
    let steps = frame_steps(&quick_start_packet()).expect("planned");
    assert_eq!(fixed_size(&steps, &vec![], &vec![]), None);
    let fixed = vec![
        FrameStep::Scalar { width: 2, big_endian: true, constant: None, check: ValueCheck::Any },
        FrameStep::Fixed { len: 4 },
        FrameStep::Scalar { width: 1, big_endian: false, constant: None, check: ValueCheck::Bool },
    ];
    assert_eq!(fixed_size(&fixed, &vec![], &vec![]), Some(7));
    assert!(view_frame(&fixed, &vec![], &vec![0; 7], &vec![], &vec![]).is_ok());
    assert_eq!(view_frame(&fixed, &vec![], &vec![0; 8], &vec![], &vec![]), Err(ViewError::Trailing { consumed: 7, len: 8 }));
}

#[test]
fn readme_errors_name_the_field_and_values() {
    let steps = frame_steps(&quick_start_packet()).expect("planned");
    assert_eq!(
        view_frame(&steps, &vec![], &vec![0x00, 0x00, 7, 0, 0], &vec![], &vec![]),
        Err(ViewError::ConstantMismatch { field: 0, offset: 0, expected: 0x5752, actual: 0 })
    );
    assert_eq!(
        view_frame(&steps, &vec![], &vec![0x57, 0x52, 7, 0, 5, b'h'], &vec![], &vec![]),
        Err(ViewError::NeedMore { field: 3, offset: 6, additional_at_least: 4 })
    );
}

#[test]
fn validators_run_before_the_trailing_check() {
    let mut schema = quick_start_packet();
    schema.validators.push(wire_repr_macros::model::Validator { segments: vec!["check".into()], identifiers: vec!["check".into()] });
    let steps = frame_steps(&schema).expect("planned");
    assert!(view_frame(&steps, &vec![], &QUICK_START_BYTES.to_vec(), &vec![], &vec![true]).is_ok());
    let mut longer = QUICK_START_BYTES.to_vec();
    longer.push(0);
    assert_eq!(view_frame(&steps, &vec![], &longer, &vec![], &vec![false]), Err(ViewError::Validator { index: 0 }));
    assert_eq!(view_frame(&steps, &vec![], &longer, &vec![], &vec![true]), Err(ViewError::Trailing { consumed: 10, len: 11 }));
    assert_eq!(
        view_frame(&steps, &vec![], &QUICK_START_BYTES[..3].to_vec(), &vec![], &vec![false]),
        Err(ViewError::NeedMore { field: 2, offset: 3, additional_at_least: 2 })
    );
}

#[test]
fn bit_projections_read_their_controller_bits() {
    let mut low = FieldAttributes::new();
    low.bits_of = Some("flags".to_string());
    low.bits = Some((0, 3));
    let mut high = FieldAttributes::new();
    high.bits_of = Some("flags".to_string());
    high.bits = Some((4, 7));
    let schema = match parse_schema(
        "Flags".to_string(),
        Generics { params: vec![], identifiers: vec![] },
        SchemaData::NamedStruct(vec![
            decl("flags", path_type(&["u8"]), FieldAttributes::new()),
            decl("low", path_type(&["u8"]), low),
            decl("high", path_type(&["u8"]), high),
        ]),
        vec![],
    ) {
        Ok(s) => s,
        Err(_) => panic!("refused"),
    };
    let steps = frame_steps(&schema).expect("planned");
    assert_eq!(steps[1], FrameStep::Bits { controller: 0, start: 0, end: 3 });
    let spans = view_frame(&steps, &vec![], &vec![0xA5], &vec![], &vec![]).expect("framed");
    assert_eq!(spans[1], FieldSpan { start: 1, end: 1, value: 0x5 });
    assert_eq!(spans[2], FieldSpan { start: 1, end: 1, value: 0xA });
    assert_eq!(fixed_size(&steps, &vec![], &vec![]), Some(1));
    let plan = write_plan(&schema).expect("planned");
    let written = encode(&plan, &vec![SlotValue::Scalar(0xA5), SlotValue::Bytes(vec![]), SlotValue::Bytes(vec![])]).expect("written");
    assert_eq!(written, vec![0xA5]);
}

fn array_type(elem: &str, len: &str) -> TypeSyntax {
    TypeSyntax {
        shape: TypeShape::Array {
            elem: Box::new(path_type(&[elem]).shape),
            len: WireExpr { form: ExprForm::Lit(Literal::Int(len.into())), identifiers: vec![] },
            len_types: vec![],
        },
        identifiers: vec![elem.to_string()],
    }
}

#[test]
fn struct_fixed_size_sums_known_field_sizes() {
    let mut little = FieldAttributes::new();
    little.endian = Some(Endian::Little);
    let schema = match parse_schema(
        "Record".to_string(),
        Generics { params: vec![], identifiers: vec![] },
        SchemaData::NamedStruct(vec![
            decl("kind", path_type(&["u16"]), big()),
            decl("data", array_type("u8", "4"), FieldAttributes::new()),
            decl("words", array_type("u16", "3"), little),
            decl("header", path_type(&["Header"]), FieldAttributes::new()),
        ]),
        vec![],
    ) {
        Ok(s) => s,
        Err(_) => panic!("refused"),
    };
    let lengths = vec![0, 4, 3, 0];
    assert_eq!(wire_repr_macros::sizes::struct_fixed_size(&schema, &lengths, &vec![None, None, None, Some(6)]), Some(18));
    assert_eq!(wire_repr_macros::sizes::struct_fixed_size(&schema, &lengths, &vec![None, None, None, None]), None);
    let packet = quick_start_packet();
    assert_eq!(wire_repr_macros::sizes::struct_fixed_size(&packet, &vec![0; 4], &vec![None; 4]), None);
}

fn record_schema() -> Schema {
    let mut little = FieldAttributes::new();
    little.endian = Some(Endian::Little);
    match parse_schema(
        "Record".to_string(),
        Generics { params: vec![], identifiers: vec![] },
        SchemaData::NamedStruct(vec![
            decl("kind", path_type(&["u16"]), big()),
            decl("data", array_type("u8", "4"), FieldAttributes::new()),
            decl("words", array_type("u16", "3"), little),
            decl("header", path_type(&["Header"]), FieldAttributes::new()),
        ]),
        vec![],
    ) {
        Ok(s) => s,
        Err(_) => panic!("refused"),
    }
}

#[test]
fn nested_fields_and_scalar_arrays_are_planned() {
    let steps = frame_steps(&record_schema()).expect("planned");
    assert_eq!(
        steps,
        vec![
            FrameStep::Scalar { width: 2, big_endian: true, constant: None, check: ValueCheck::Any },
            FrameStep::Fixed { len: 4 },
            FrameStep::Fixed { len: 6 },
            FrameStep::Nested { terminal: true },
        ]
    );
    let header = ChildReport { consumed: Some(6), fixed_size: Some(6) };
    let children = vec![ChildReport { consumed: None, fixed_size: None }; 3].into_iter().chain([header]).collect::<Vec<_>>();
    assert_eq!(fixed_size(&steps, &vec![], &children), Some(18));
    assert_eq!(fixed_size(&steps, &vec![], &vec![]), None);
    let spans = view_frame(&steps, &vec![], &vec![0; 18], &children, &vec![]).expect("framed");
    assert_eq!(spans[2], FieldSpan { start: 6, end: 12, value: 0 });
    assert_eq!(spans[3], FieldSpan { start: 12, end: 18, value: 0 });
}

#[test]
fn nested_field_refusals_follow_the_child_report() {
    let steps = frame_steps(&record_schema()).expect("planned");
    let mut children = vec![ChildReport { consumed: None, fixed_size: None }; 4];
    assert_eq!(view_frame(&steps, &vec![], &vec![0; 18], &children, &vec![]), Err(ViewError::Nested { field: 3, offset: 12 }));
    children[3] = ChildReport { consumed: Some(7), fixed_size: None };
    assert_eq!(
        view_frame(&steps, &vec![], &vec![0; 18], &children, &vec![]),
        Err(ViewError::InvalidFrame { field: 3, offset: 12, consumed: 7, available: 6 })
    );
    children[3] = ChildReport { consumed: Some(2), fixed_size: None };
    assert_eq!(view_frame(&steps, &vec![], &vec![0; 18], &children, &vec![]), Err(ViewError::Trailing { consumed: 14, len: 18 }));
    let inner = vec![
        FrameStep::Nested { terminal: false },
        FrameStep::Scalar { width: 1, big_endian: false, constant: None, check: ValueCheck::Any },
    ];
    let unsized_child = vec![ChildReport { consumed: Some(2), fixed_size: None }];
    assert_eq!(view_frame(&inner, &vec![], &vec![0; 3], &unsized_child, &vec![]), Err(ViewError::LayoutUnavailable { field: 0 }));
    let other_size = vec![ChildReport { consumed: Some(2), fixed_size: Some(3) }];
    assert_eq!(
        view_frame(&inner, &vec![], &vec![0; 3], &other_size, &vec![]),
        Err(ViewError::InvalidFrame { field: 0, offset: 0, consumed: 2, available: 3 })
    );
    let sized = vec![ChildReport { consumed: Some(2), fixed_size: Some(2) }];
    assert!(view_frame(&inner, &vec![], &vec![0; 3], &sized, &vec![]).is_ok());
}

#[test]
fn nested_record_reads_back_what_was_written() {
    let schema = record_schema();
    let plan = write_plan(&schema).expect("planned");
    assert_eq!(plan.sources, vec![WriteSource::Slot(0), WriteSource::Slot(1), WriteSource::Slot(2), WriteSource::Slot(3)]);
    let values = vec![
        SlotValue::Scalar(0x0102),
        SlotValue::Bytes(vec![1, 2, 3, 4]),
        SlotValue::Bytes(vec![5, 0, 6, 0, 7, 0]),
        SlotValue::Bytes(vec![9, 8, 7]),
    ];
    let written = encode(&plan, &values).expect("written");
    assert_eq!(written, vec![1, 2, 1, 2, 3, 4, 5, 0, 6, 0, 7, 0, 9, 8, 7]);
    let mut children = vec![ChildReport { consumed: None, fixed_size: None }; 4];
    children[3] = ChildReport { consumed: Some(3), fixed_size: None };
    let spans = view_frame(&plan.steps, &vec![], &written, &children, &vec![]).expect("framed");
    assert_eq!(spans[0].value, 0x0102);
    assert_eq!(&written[spans[3].start..spans[3].end], &[9, 8, 7]);
}

fn literal(digits: &str) -> WireExpr {
    WireExpr { form: ExprForm::Lit(Literal::Int(digits.into())), identifiers: vec![] }
}

fn padded_schema() -> Schema {
    let mut second = FieldAttributes::new();
    second.pad_before = Some(literal("1"));
    let mut third = big();
    third.align_before = Some(literal("4"));
    match parse_schema(
        "Padded".to_string(),
        Generics { params: vec![], identifiers: vec![] },
        SchemaData::NamedStruct(vec![
            decl("tag", path_type(&["u8"]), FieldAttributes::new()),
            decl("flags", path_type(&["u8"]), second),
            decl("word", path_type(&["u16"]), third),
        ]),
        vec![],
    ) {
        Ok(s) => s,
        Err(_) => panic!("refused"),
    }
}

#[test]
fn padding_and_alignment_place_fields() {
    let schema = padded_schema();
    let steps = frame_steps(&schema).expect("planned");
    let places = frame_places(&schema);
    assert_eq!(
        places,
        vec![
            Placement { pad: None, align: None, at: None, when: None },
            Placement { pad: Some(1), align: None, at: None, when: None },
            Placement { pad: None, align: Some(4), at: None, when: None },
        ]
    );
    let spans = view_frame(&steps, &places, &vec![7, 0xEE, 3, 0xEE, 0x12, 0x34], &vec![], &vec![]).expect("framed");
    assert_eq!(spans[1], FieldSpan { start: 2, end: 3, value: 3 });
    assert_eq!(spans[2], FieldSpan { start: 4, end: 6, value: 0x1234 });
    assert_eq!(
        view_frame(&steps, &places, &vec![7, 0xEE, 3], &vec![], &vec![]),
        Err(ViewError::NeedMore { field: 2, offset: 3, additional_at_least: 3 })
    );
    assert_eq!(fixed_size(&steps, &places, &vec![]), None);
    assert_eq!(fixed_size(&steps, &vec![], &vec![]), Some(4));
}

#[test]
fn padding_is_written_as_zeros_and_read_back() {
    let plan = write_plan(&padded_schema()).expect("planned");
    let written = encode(&plan, &vec![SlotValue::Scalar(7), SlotValue::Scalar(3), SlotValue::Scalar(0x1234)]).expect("written");
    assert_eq!(written, vec![7, 0, 3, 0, 0x12, 0x34]);
    let spans = view_frame(&plan.steps, &plan.places, &written, &vec![], &vec![]).expect("framed");
    assert_eq!(spans.iter().map(|s| s.value).collect::<Vec<_>>(), vec![7, 3, 0x1234]);
}

fn optional_schema() -> Schema {
    let mut stored = FieldAttributes::new();
    stored.representation = Some(ScalarType::U8);
    let mut flag = FieldAttributes::new();
    flag.flag = Some("present".to_string());
    let mut extra = big();
    extra.condition = Some("has_extra".to_string());
    match parse_schema(
        "Optional".to_string(),
        Generics { params: vec![], identifiers: vec![] },
        SchemaData::NamedStruct(vec![
            decl("present", path_type(&["bool"]), stored),
            decl("has_extra", path_type(&["bool"]), flag),
            decl("extra", path_type(&["u16"]), extra),
            decl("tail", path_type(&["u8"]), FieldAttributes::new()),
        ]),
        vec![],
    ) {
        Ok(s) => s,
        Err(_) => panic!("refused"),
    }
}

#[test]
fn conditional_fields_follow_their_flag() {
    let schema = optional_schema();
    let steps = frame_steps(&schema).expect("planned");
    assert_eq!(steps[1], FrameStep::Flag { controller: 0 });
    let places = frame_places(&schema);
    assert_eq!(places[2], Placement { pad: None, align: None, at: None, when: Some(1) });
    let present = view_frame(&steps, &places, &vec![1, 0x12, 0x34, 9], &vec![], &vec![]).expect("framed");
    assert_eq!(present[1], FieldSpan { start: 1, end: 1, value: 1 });
    assert_eq!(present[2], FieldSpan { start: 1, end: 3, value: 0x1234 });
    assert_eq!(present[3], FieldSpan { start: 3, end: 4, value: 9 });
    let absent = view_frame(&steps, &places, &vec![0, 9], &vec![], &vec![]).expect("framed");
    assert_eq!(absent[2], FieldSpan { start: 1, end: 1, value: 0 });
    assert_eq!(absent[3], FieldSpan { start: 1, end: 2, value: 9 });
    assert_eq!(view_frame(&steps, &places, &vec![2, 9], &vec![], &vec![]), Err(ViewError::InvalidValue { field: 0, offset: 0, actual: 2 }));
    assert_eq!(fixed_size(&steps, &places, &vec![]), None);
    let plan = write_plan(&schema).expect("planned");
    let with_extra = encode(
        &plan,
        &vec![SlotValue::Scalar(1), SlotValue::Bytes(vec![]), SlotValue::Scalar(0x1234), SlotValue::Scalar(9)],
    )
    .expect("written");
    assert_eq!(with_extra, vec![1, 0x12, 0x34, 9]);
    let without = encode(
        &plan,
        &vec![SlotValue::Scalar(0), SlotValue::Bytes(vec![]), SlotValue::Scalar(0x1234), SlotValue::Scalar(9)],
    )
    .expect("written");
    assert_eq!(without, vec![0, 9]);
    let read = view_frame(&plan.steps, &plan.places, &without, &vec![], &vec![]).expect("framed");
    assert_eq!(read[2], FieldSpan { start: 1, end: 1, value: 0 });
}

#[test]
fn placed_fields_start_where_they_are_put() {
    let steps = vec![
        FrameStep::Scalar { width: 1, big_endian: false, constant: None, check: ValueCheck::Any },
        FrameStep::Scalar { width: 1, big_endian: false, constant: None, check: ValueCheck::Any },
        FrameStep::Scalar { width: 1, big_endian: false, constant: None, check: ValueCheck::Any },
    ];
    let none = Placement { pad: None, align: None, at: None, when: None };
    let places = vec![none, Placement { at: Some(At::Static(3)), ..none }, Placement { at: Some(At::Field(0)), ..none }];
    let spans = view_frame(&steps, &places, &vec![5, 0, 0, 7, 0, 8], &vec![], &vec![]).expect("framed");
    assert_eq!(spans[1], FieldSpan { start: 3, end: 4, value: 7 });
    assert_eq!(spans[2], FieldSpan { start: 5, end: 6, value: 8 });
    assert_eq!(
        view_frame(&steps, &places, &vec![2, 0, 0, 7, 0, 8], &vec![], &vec![]),
        Err(ViewError::PositionBeforeCursor { field: 2, position: 2, cursor: 4 })
    );
    let plan = wire_repr_macros::frame::WritePlan {
        steps: steps.clone(),
        places: places.clone(),
        sources: vec![WriteSource::Slot(0), WriteSource::Slot(1), WriteSource::Slot(2)],
    };
    let written = encode(&plan, &vec![SlotValue::Scalar(5), SlotValue::Scalar(7), SlotValue::Scalar(8)]).expect("written");
    assert_eq!(written, vec![5, 0, 0, 7, 0, 8]);
    assert_eq!(
        encode(&plan, &vec![SlotValue::Scalar(2), SlotValue::Scalar(7), SlotValue::Scalar(8)]),
        Err(WriteError::Layout { field: 2 })
    );
}

fn array_of(item: &str) -> TypeSyntax {
    let plain = |n: &str| PathSegment { ident: n.to_string(), arguments: PathArguments::Empty };
    let last = PathSegment {
        ident: "Array".to_string(),
        arguments: PathArguments::AngleBracketed(vec![GenericArgument::Type(path_type(&[item]).shape)]),
    };
    TypeSyntax {
        shape: TypeShape::Path(TypePath { leading_colon: false, qself: None, segments: vec![plain("wire"), last] }),
        identifiers: vec!["wire".into(), "Array".into(), item.into()],
    }
}

#[test]
fn counted_arrays_take_what_their_items_frame() {
    let mut counted = FieldAttributes::new();
    counted.counted_by = Some("count".to_string());
    let schema = match parse_schema(
        "Listing".to_string(),
        Generics { params: vec![], identifiers: vec![] },
        SchemaData::NamedStruct(vec![
            decl("count", path_type(&["u8"]), FieldAttributes::new()),
            decl("items", array_of("Item"), counted),
            decl("tail", path_type(&["u8"]), FieldAttributes::new()),
        ]),
        vec![],
    ) {
        Ok(s) => s,
        Err(_) => panic!("refused"),
    };
    let steps = frame_steps(&schema).expect("planned");
    assert_eq!(steps[1], FrameStep::Counted { controller: 0, terminal: false });
    let mut children = vec![ChildReport { consumed: None, fixed_size: None }; 3];
    children[1] = ChildReport { consumed: Some(4), fixed_size: None };
    let spans = view_frame(&steps, &vec![], &vec![2, 1, 1, 2, 2, 9], &children, &vec![]).expect("framed");
    assert_eq!(spans[1], FieldSpan { start: 1, end: 5, value: 0 });
    assert_eq!(spans[2], FieldSpan { start: 5, end: 6, value: 9 });
    children[1] = ChildReport { consumed: None, fixed_size: None };
    assert_eq!(
        view_frame(&steps, &vec![], &vec![2, 1, 1, 2, 2, 9], &children, &vec![]),
        Err(ViewError::Nested { field: 1, offset: 1 })
    );
    let plan = write_plan(&schema).expect("planned");
    let written = encode(&plan, &vec![SlotValue::Scalar(2), SlotValue::Bytes(vec![1, 1, 2, 2]), SlotValue::Scalar(9)]).expect("written");
    assert_eq!(written, vec![2, 1, 1, 2, 2, 9]);
}

#[test]
fn bounded_nested_fields_take_their_declared_bytes() {
    let mut bounded = FieldAttributes::new();
    bounded.bytes = Some("len".to_string());
    let schema = match parse_schema(
        "Envelope".to_string(),
        Generics { params: vec![], identifiers: vec![] },
        SchemaData::NamedStruct(vec![
            decl("len", path_type(&["u8"]), FieldAttributes::new()),
            decl("body", path_type(&["Header"]), bounded),
            decl("tail", path_type(&["u8"]), FieldAttributes::new()),
        ]),
        vec![],
    ) {
        Ok(s) => s,
        Err(_) => panic!("refused"),
    };
    let steps = frame_steps(&schema).expect("planned");
    assert_eq!(steps[1], FrameStep::NestedBounded { controller: 0 });
    let mut children = vec![ChildReport { consumed: None, fixed_size: None }; 3];
    children[1] = ChildReport { consumed: Some(2), fixed_size: None };
    let spans = view_frame(&steps, &vec![], &vec![2, 7, 7, 9], &children, &vec![]).expect("framed");
    assert_eq!(spans[1], FieldSpan { start: 1, end: 3, value: 0 });
    children[1] = ChildReport { consumed: Some(1), fixed_size: None };
    assert_eq!(
        view_frame(&steps, &vec![], &vec![2, 7, 7, 9], &children, &vec![]),
        Err(ViewError::InvalidFrame { field: 1, offset: 1, consumed: 1, available: 2 })
    );
    assert_eq!(
        view_frame(&steps, &vec![], &vec![5, 7], &children, &vec![]),
        Err(ViewError::NeedMore { field: 1, offset: 2, additional_at_least: 4 })
    );
    let plan = write_plan(&schema).expect("planned");
    assert_eq!(plan.sources, vec![WriteSource::Length, WriteSource::Slot(0), WriteSource::Slot(1)]);
    let written = encode(&plan, &vec![SlotValue::Bytes(vec![7, 7, 7]), SlotValue::Scalar(9)]).expect("written");
    assert_eq!(written, vec![3, 7, 7, 7, 9]);
}

#[test]
fn scalar_array_elements_round_trip_through_their_bytes() {
    let words = vec![0x0105, 0x0006, 0x0007];
    let little = wire_repr_macros::bytes::encode_elements(&words, 2, false);
    assert_eq!(little, vec![5, 1, 6, 0, 7, 0]);
    assert_eq!(wire_repr_macros::bytes::decode_elements(&little, 2, false), Some(words.clone()));
    let big_words = wire_repr_macros::bytes::encode_elements(&words, 2, true);
    assert_eq!(big_words, vec![1, 5, 0, 6, 0, 7]);
    assert_eq!(wire_repr_macros::bytes::decode_elements(&big_words, 2, true), Some(words));
    assert_eq!(wire_repr_macros::bytes::decode_elements(&vec![1, 2, 3], 2, true), None);
}

#[test]
fn converted_scalars_check_their_stored_values() {
    let mut wide = big();
    wide.representation = Some(ScalarType::U32);
    let schema = match parse_schema(
        "Letter".to_string(),
        Generics { params: vec![], identifiers: vec![] },
        SchemaData::NamedStruct(vec![decl("letter", path_type(&["char"]), wide)]),
        vec![],
    ) {
        Ok(s) => s,
        Err(_) => panic!("refused"),
    };
    let steps = frame_steps(&schema).expect("planned");
    assert_eq!(steps[0], FrameStep::Scalar { width: 4, big_endian: true, constant: None, check: ValueCheck::Char });
    let spans = view_frame(&steps, &vec![], &vec![0, 0, 0, 0x41], &vec![], &vec![]).expect("framed");
    assert_eq!(spans[0].value, 0x41);
    assert_eq!(
        view_frame(&steps, &vec![], &vec![0, 0, 0xD8, 0], &vec![], &vec![]),
        Err(ViewError::InvalidValue { field: 0, offset: 0, actual: 0xD800 })
    );
    assert_eq!(
        view_frame(&steps, &vec![], &vec![0, 0x11, 0, 0], &vec![], &vec![]),
        Err(ViewError::InvalidValue { field: 0, offset: 0, actual: 0x110000 })
    );
}
