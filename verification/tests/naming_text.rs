use wire_repr_macros::errors::{ControllerRole, ErrorKind};
use wire_repr_macros::messages::message;
use wire_repr_macros::attributes::FieldAttributes;
use wire_repr_macros::model::{GenericParam, Generics, Schema, Validator};
use wire_repr_macros::naming::{
    choice_final_ident, choice_start_ident, choice_state_ident, choice_trait_ident, error_names,
    fresh_field_ident, fresh_lifetime, fresh_schema_lifetime, fresh_type_ident, private_ident,
    type_param_names, unique_variant, variant_method_names, variant_type_stems, writer_error_names,
};
use wire_repr_macros::scalar::{Endian, ScalarType};
use wire_repr_macros::schema::{parse_schema, FieldDecl, ParseFailure, SchemaData};
use wire_repr_macros::syntax::{
    ExprForm, Literal, PathArguments, PathSegment, TypePath, TypeShape, TypeSyntax, WireExpr,
};
use wire_repr_macros::text::{decimal, free_name, pascal, snake, text_is, text_lt, unraw};

fn ty(name: &str) -> TypeSyntax {
    TypeSyntax {
        shape: TypeShape::Path(TypePath {
            leading_colon: false,
            qself: None,
            segments: vec![PathSegment { ident: name.to_string(), arguments: PathArguments::Empty }],
        }),
        identifiers: vec![name.to_string()],
    }
}

fn schema_with(decls: Vec<FieldDecl<String>>, generics: Generics, validators: Vec<Validator>) -> Schema {
    match parse_schema("Frame".to_string(), generics, SchemaData::NamedStruct(decls), validators) {
        Ok(s) => s,
        Err(ParseFailure::Refused(e)) => panic!("refused: {e:?}"),
        Err(ParseFailure::Attributes(e)) => panic!("attributes: {e}"),
    }
}

fn decl(name: &str, t: TypeSyntax, a: FieldAttributes) -> FieldDecl<String> {
    FieldDecl { name: name.to_string(), ty: t, attributes: Ok(a) }
}

fn no_generics() -> Generics {
    Generics { params: vec![], identifiers: vec![] }
}

#[test]
fn pascal_case_of_snake_identifiers() {
    assert_eq!(pascal("frame_length"), "FrameLength");
    assert_eq!(pascal("r#type"), "Type");
    assert_eq!(pascal("__x"), "X");
    assert_eq!(pascal(""), "");
}

#[test]
fn snake_case_of_pascal_identifiers() {
    assert_eq!(snake("FrameLength"), "frame_length");
    assert_eq!(snake("r#Type"), "type");
    assert_eq!(snake("already_snake"), "already_snake");
}

#[test]
fn raw_prefix_is_stripped() {
    assert_eq!(unraw("r#match"), "match");
    assert_eq!(unraw("rust"), "rust");
    assert_eq!(unraw("r"), "r");
}

#[test]
fn decimal_text_of_numbers() {
    assert_eq!(decimal(0), "0");
    assert_eq!(decimal(42), "42");
    assert_eq!(decimal(1907), "1907");
    assert_eq!(wire_repr_macros::text::concat("ab", "cd"), "abcd");
    assert!(text_is("abc", "abc"));
    assert!(!text_is("abc", "abd"));
}

#[test]
fn text_order_is_string_order() {
    assert!(text_lt("a", "b"));
    assert!(text_lt("ab", "abc"));
    assert!(!text_lt("abc", "ab"));
    assert!(!text_lt("same", "same"));
    assert!(text_lt("Z", "a"));
}

#[test]
fn free_name_counts_up_past_taken_names() {
    let used = vec!["x".to_string(), "x1".to_string(), "x2".to_string()];
    assert_eq!(free_name(&"y".to_string(), &"y".to_string(), 1, &used), "y");
    assert_eq!(free_name(&"x".to_string(), &"x".to_string(), 1, &used), "x3");
}

#[test]
fn unique_variants_are_numbered_from_two() {
    let mut used = vec!["Trailing".to_string()];
    assert_eq!(unique_variant(&mut used, "Len"), "Len");
    assert_eq!(unique_variant(&mut used, "Len"), "Len2");
    assert_eq!(unique_variant(&mut used, "Len"), "Len3");
    assert_eq!(unique_variant(&mut used, "Trailing"), "Trailing2");
    assert_eq!(used, vec!["Trailing", "Len", "Len2", "Len3", "Trailing2"]);
}

#[test]
fn variant_stems_and_methods_are_distinct() {
    let variants = vec!["Ping".to_string(), "ping".to_string(), "Unknown".to_string()];
    let stems = variant_type_stems(&variants, true);
    assert_eq!(stems, vec!["Ping", "Ping2", "Unknown2"]);
    let methods = variant_method_names(&variants, true);
    assert_eq!(methods, vec!["ping", "ping_2", "unknown_2"]);
    let without_fallback = variant_type_stems(&variants, false);
    assert_eq!(without_fallback, vec!["Ping", "Ping2", "Unknown"]);
}

#[test]
fn fresh_type_parameter_avoids_generics() {
    let generics = Generics {
        params: vec![
            GenericParam::Type("__WireReprOutput".to_string()),
            GenericParam::Const("__WireReprOutput1".to_string()),
            GenericParam::Lifetime("__WireReprOutput2".to_string()),
        ],
        identifiers: vec!["__WireReprOutput".into(), "__WireReprOutput1".into(), "__WireReprOutput2".into()],
    };
    assert_eq!(type_param_names(&generics), vec!["__WireReprOutput", "__WireReprOutput1"]);
    assert_eq!(fresh_type_ident(&generics, "Output"), "__WireReprOutput2");
    assert_eq!(fresh_type_ident(&generics, "Holder"), "__WireReprHolder");
}

#[test]
fn fresh_lifetime_avoids_generic_identifiers() {
    let generics = Generics {
        params: vec![GenericParam::Lifetime("__wire_repr_view".to_string())],
        identifiers: vec!["__wire_repr_view".to_string()],
    };
    assert_eq!(fresh_lifetime(&generics, "view"), "__wire_repr_view_1");
    assert_eq!(fresh_lifetime(&generics, "other"), "__wire_repr_other");
    let schema = schema_with(vec![decl("a", ty("u8"), FieldAttributes::new())], no_generics(), vec![]);
    assert_eq!(fresh_schema_lifetime(&schema, &generics, "view"), "__wire_repr_frame_view");
}

#[test]
fn fresh_field_and_private_names_avoid_the_source() {
    let schema = schema_with(
        vec![
            decl("__wire_repr_state", ty("u8"), FieldAttributes::new()),
            decl("__wire_repr_frame_cursor", ty("u8"), FieldAttributes::new()),
        ],
        no_generics(),
        vec![],
    );
    assert_eq!(fresh_field_ident(&schema, "state"), "__wire_repr_state_1");
    assert_eq!(fresh_field_ident(&schema, "other"), "__wire_repr_other");
    assert_eq!(private_ident(&schema, "cursor"), "__wire_repr_frame_cursor_1");
    assert_eq!(private_ident(&schema, "end"), "__wire_repr_frame_end");
}

#[test]
fn choice_items_are_named_by_flag_position() {
    let mut stored = FieldAttributes::new();
    stored.representation = Some(ScalarType::U8);
    let mut flag = FieldAttributes::new();
    flag.flag = Some("present".to_string());
    let mut dependent = FieldAttributes::new();
    dependent.condition = Some("has_extra".to_string());
    let schema = schema_with(
        vec![
            decl("present", ty("bool"), stored),
            decl("has_extra", ty("bool"), flag),
            decl("extra", ty("u8"), dependent),
        ],
        no_generics(),
        vec![],
    );
    let flag_name = "has_extra".to_string();
    assert_eq!(choice_trait_ident(&schema, &flag_name), "__WireReprFrameChoice1Value");
    assert_eq!(choice_start_ident(&schema, &flag_name), "__WireReprFrameChoice1");
    assert_eq!(choice_state_ident(&schema, &flag_name), "__WireReprFrameChoice1State");
    assert_eq!(choice_final_ident(&schema, &flag_name), "__WireReprFrameChoice1Final");
}

#[test]
fn view_error_names_are_distinct() {
    let mut constant = FieldAttributes::new();
    constant.constant = Some(WireExpr { form: ExprForm::Lit(Literal::Int("7".to_string())), identifiers: vec![] });
    let mut converted = FieldAttributes::new();
    converted.representation = Some(ScalarType::U8);
    let validator = Validator { segments: vec!["checks".into(), "trailing".into()], identifiers: vec!["checks".into(), "trailing".into()] };
    let schema = schema_with(
        vec![
            decl("magic", ty("u8"), constant),
            decl("enabled", ty("bool"), converted),
            decl("len", ty("u8"), FieldAttributes::new()),
        ],
        no_generics(),
        vec![validator],
    );
    let names = error_names(&schema);
    assert_eq!(names.fields[0].mismatch.as_deref(), Some("MagicConstant"));
    assert_eq!(names.fields[0].shortage, "MagicNeedMore");
    assert_eq!(names.fields[1].conversion.as_deref(), Some("EnabledValue"));
    assert_eq!(names.fields[1].shortage, "EnabledNeedMore");
    assert_eq!(names.fields[2].shortage, "Len");
    assert!(names.fields[2].mismatch.is_none());
    assert_eq!(names.validators, vec!["Trailing2"]);
}

#[test]
fn writer_error_names_are_distinct() {
    let mut converted = FieldAttributes::new();
    converted.representation = Some(ScalarType::U8);
    let mut wide = FieldAttributes::new();
    wide.endian = Some(Endian::Big);
    let schema = schema_with(
        vec![decl("layout", ty("bool"), converted), decl("count", ty("u16"), wide)],
        no_generics(),
        vec![],
    );
    let (conversions, nested) = writer_error_names(&schema);
    assert_eq!(conversions, vec![Some("LayoutValue".to_string()), None]);
    assert_eq!(nested, vec![None, None]);
}

#[test]
fn snake_case_names_survive_a_pascal_round_trip() {
    for name in ["payload_len", "kind", "r#type", "a1_b2_c3", "message_id"] {
        let pascal_name = wire_repr_macros::text::pascal(name);
        let back = wire_repr_macros::text::snake(&pascal_name);
        assert_eq!(back, name.trim_start_matches("r#"));
    }
    assert_eq!(wire_repr_macros::text::pascal("payload_len"), "PayloadLen");
    assert_eq!(wire_repr_macros::text::snake("PayloadLen"), "payload_len");
}

#[test]
fn scalar_type_names_read_back() {
    use_scalar_names();
}

fn use_scalar_names() {
    for t in [
        ScalarType::U8,
        ScalarType::I8,
        ScalarType::U16,
        ScalarType::I16,
        ScalarType::U32,
        ScalarType::I32,
        ScalarType::U64,
        ScalarType::I64,
        ScalarType::U128,
        ScalarType::I128,
        ScalarType::F32,
        ScalarType::F64,
    ] {
        assert_eq!(ScalarType::from_name(t.name()), Some(t));
    }
    assert_eq!(ScalarType::U16.name(), "u16");
}

#[test]
fn refusal_texts_name_the_derive_and_controller() {
    use_messages();
}

fn use_messages() {
    assert_eq!(message(&ErrorKind::StructRequired, "WireView", ""), "WireView supports schema structs only");
    assert_eq!(
        message(&ErrorKind::ControllerUnknown { role: ControllerRole::ByteLength }, "WireView", "len"),
        "byte length controller `len` is not a schema field"
    );
    assert_eq!(
        message(&ErrorKind::AtBeforeCursor { requested: 2, current: 10 }, "WireView", ""),
        "static `at` position 2 precedes cursor 10"
    );
}
