use wire_repr_macros::attributes::FieldAttributes;
use wire_repr_macros::builder::{slots, SlotKind};
use wire_repr_macros::computed::{computed_error_ident, requires_view, selection_parts, selection_path};
use wire_repr_macros::errors::{ErrorKind, SchemaError};
use wire_repr_macros::geometry::{retains_geometry_end, retains_geometry_start};
use wire_repr_macros::model::{Computed, GenericParam, Generics, Schema};
use wire_repr_macros::recursive::{
    contains_root_generic_argument, recursive_positions, root_slot_marker, schema_slots, type_is_root,
    write_marker,
};
use wire_repr_macros::recursive_demand;
use wire_repr_macros::recursive_object;
use wire_repr_macros::scalar::Endian;
use wire_repr_macros::schema::{parse_schema, FieldDecl, ParseFailure, SchemaData};
use wire_repr_macros::syntax::{
    ExprForm, ExprPath, GenericArgument, Literal, Member, PathArguments, PathSegment, TypePath, TypeShape,
    TypeSyntax, WireExpr,
};

fn segment(name: &str) -> PathSegment {
    PathSegment { ident: name.to_string(), arguments: PathArguments::Empty }
}

fn path_shape(names: &[&str]) -> TypeShape {
    TypeShape::Path(TypePath { leading_colon: false, qself: None, segments: names.iter().map(|n| segment(n)).collect() })
}

fn generic_shape(names: &[&str], args: Vec<GenericArgument>) -> TypeShape {
    let mut segments: Vec<PathSegment> = names.iter().map(|n| segment(n)).collect();
    let last = segments.len() - 1;
    segments[last].arguments = PathArguments::AngleBracketed(args);
    TypeShape::Path(TypePath { leading_colon: false, qself: None, segments })
}

fn ty(name: &str) -> TypeSyntax {
    TypeSyntax { shape: path_shape(&[name]), identifiers: vec![name.to_string()] }
}

fn marker(marker: &str, item: &str) -> TypeSyntax {
    TypeSyntax {
        shape: generic_shape(&["wire", marker], vec![GenericArgument::Type(path_shape(&[item]))]),
        identifiers: vec!["wire".into(), marker.into(), item.into()],
    }
}

fn decl(name: &str, t: TypeSyntax, a: FieldAttributes) -> FieldDecl<String> {
    FieldDecl { name: name.to_string(), ty: t, attributes: Ok(a) }
}

fn plain() -> FieldAttributes {
    FieldAttributes::new()
}

fn schema(name: &str, generics: Generics, decls: Vec<FieldDecl<String>>) -> Schema {
    match parse_schema(name.to_string(), generics, SchemaData::NamedStruct(decls), vec![]) {
        Ok(s) => s,
        Err(ParseFailure::Refused(e)) => panic!("refused: {e:?}"),
        Err(ParseFailure::Attributes(e)) => panic!("attributes: {e}"),
    }
}

fn one_param(name: &str) -> Generics {
    Generics { params: vec![GenericParam::Type(name.to_string())], identifiers: vec![name.to_string()] }
}

fn name_expr(name: &str) -> WireExpr {
    WireExpr { form: ExprForm::Path(ExprPath { qself: false, segments: vec![name.to_string()] }), identifiers: vec![name.to_string()] }
}

fn field_expr(base: WireExpr, member: Member) -> WireExpr {
    WireExpr { form: ExprForm::Field { base: Box::new(base), member }, identifiers: vec![] }
}

#[test]
fn root_is_found_anywhere_in_a_body() {
    let root = "Tree".to_string();
    assert!(type_is_root(&path_shape(&["Self"]), &root));
    assert!(type_is_root(&path_shape(&["Tree"]), &root));
    assert!(!type_is_root(&path_shape(&["crate", "Tree"]), &root));
    let nested = generic_shape(&["Pair"], vec![GenericArgument::Type(generic_shape(&["Box"], vec![GenericArgument::Type(path_shape(&["Self"]))]))]);
    assert!(contains_root_generic_argument(&nested, &root));
    assert!(!contains_root_generic_argument(&path_shape(&["Leaf"]), &root));
}

#[test]
fn root_slot_is_the_type_argument_that_passes_the_root() {
    let root = "Tree".to_string();
    let body = generic_shape(
        &["Node"],
        vec![GenericArgument::Other(vec![]), GenericArgument::Type(path_shape(&["u8"])), GenericArgument::Type(path_shape(&["Self"]))],
    );
    assert_eq!(root_slot_marker(&body, &root), Ok(Some(1)));
    assert_eq!(root_slot_marker(&path_shape(&["Leaf"]), &root), Ok(None));
    let twice = generic_shape(&["Node"], vec![GenericArgument::Type(path_shape(&["Tree"])), GenericArgument::Type(path_shape(&["Self"]))]);
    assert_eq!(root_slot_marker(&twice, &root), Err(ErrorKind::RootSlotRepeated));
    let inner = generic_shape(&["Node"], vec![GenericArgument::Type(generic_shape(&["Box"], vec![GenericArgument::Type(path_shape(&["Self"]))]))]);
    assert_eq!(root_slot_marker(&inner, &root), Err(ErrorKind::RootSlotIndirect));
    let other = TypeShape::Other(vec![path_shape(&["Self"])]);
    assert_eq!(root_slot_marker(&other, &root), Err(ErrorKind::RootSlotNotPath));
    let inside_first = TypeShape::Path(TypePath {
        leading_colon: false,
        qself: None,
        segments: vec![
            PathSegment { ident: "m".to_string(), arguments: PathArguments::AngleBracketed(vec![GenericArgument::Type(path_shape(&["Self"]))]) },
            segment("Node"),
        ],
    });
    assert_eq!(root_slot_marker(&inside_first, &root), Err(ErrorKind::RootSlotNotAngleBracketed));
}

#[test]
fn recursive_slots_are_type_parameters_used_as_array_items() {
    let mut counted = plain();
    counted.counted_by = Some("count".to_string());
    let s = schema("Node", one_param("T"), vec![decl("count", ty("u8"), plain()), decl("children", marker("Array", "T"), counted)]);
    let found = schema_slots(&s);
    assert_eq!(found.len(), 1);
    assert_eq!(found[0].generic, "T");
    assert_eq!(found[0].index, 0);
    assert_eq!(found[0].marker, "__WireReprNodeRecursiveSlot0");
    assert_eq!(found[0].fields, vec![1]);
    assert_eq!(write_marker(&s, &found[0]), "__WireReprNodeRecursiveWriteSlot0");
}

#[test]
fn recursive_object_rules() {
    let s = schema("Expr", one_param("R"), vec![decl("op", ty("u8"), plain()), decl("next", marker("Recursive", "R"), plain())]);
    assert_eq!(recursive_positions(&s), vec![1]);
    assert_eq!(recursive_object::validate(&s, &"R".to_string()), Ok(()));
    assert_eq!(
        recursive_object::validate(&s, &"Q".to_string()),
        Err(SchemaError { field: Some(1), kind: ErrorKind::RecursiveRootNotParameter, subject: None })
    );
    let flat = schema("Flat", Generics { params: vec![], identifiers: vec![] }, vec![decl("op", ty("u8"), plain())]);
    assert_eq!(
        recursive_object::validate(&flat, &"R".to_string()),
        Err(SchemaError { field: None, kind: ErrorKind::RecursiveWithoutContinuation, subject: None })
    );
}

#[test]
fn recursive_demand_rules() {
    let mut bytes = plain();
    bytes.bytes = Some("len".to_string());
    let mut wide = plain();
    wide.endian = Some(Endian::Little);
    let s = schema(
        "Demand",
        one_param("R"),
        vec![
            decl("len", ty("u8"), plain()),
            decl("left", marker("Recursive", "R"), plain()),
            decl("data", TypeSyntax { shape: path_shape(&["wire", "Bytes"]), identifiers: vec![] }, bytes),
            decl("tag", ty("u16"), wide),
            decl("right", marker("Recursive", "R"), plain()),
        ],
    );
    let demand = match recursive_demand::validate(&s, &"R".to_string()) {
        Ok(d) => d,
        Err(e) => panic!("refused: {e:?}"),
    };
    assert_eq!((demand.controller, demand.left, demand.bytes, demand.scalar, demand.right), (0, 1, 2, 3, 4));
    let short = schema("Short", one_param("R"), vec![decl("len", ty("u8"), plain())]);
    assert_eq!(
        recursive_demand::validate(&short, &"R".to_string()),
        Err(SchemaError { field: None, kind: ErrorKind::DemandShape, subject: None })
    );
}

#[test]
fn selection_paths_resolve_self() {
    let dest = "total".to_string();
    let nested = field_expr(name_expr("header"), Member::Named("len".to_string()));
    assert_eq!(selection_path(&nested, &dest), Ok(vec!["header".to_string(), "len".to_string()]));
    assert_eq!(selection_path(&name_expr("self"), &dest), Ok(vec!["total".to_string()]));
    let inner_self = field_expr(name_expr("self"), Member::Named("len".to_string()));
    assert_eq!(selection_path(&inner_self, &dest), Err(ErrorKind::SelfNotRoot));
    let unnamed = field_expr(name_expr("pair"), Member::Unnamed);
    assert_eq!(selection_path(&unnamed, &dest), Err(ErrorKind::SelectionNamedFields));
    let literal = WireExpr { form: ExprForm::Lit(Literal::Other), identifiers: vec![] };
    assert_eq!(selection_path(&literal, &dest), Err(ErrorKind::SelectionPhysicalPaths));
}

#[test]
fn selections_name_their_operation_and_paths() {
    let dest = "total".to_string();
    let parts = selection_parts(&name_expr("exclude"), &vec![name_expr("self"), name_expr("crc")], &dest);
    assert_eq!(parts, Ok(("exclude".to_string(), vec![vec!["total".to_string()], vec!["crc".to_string()]])));
    assert_eq!(selection_parts(&name_expr("only"), &vec![name_expr("a")], &dest), Err(ErrorKind::SelectionOperationRequired));
    assert_eq!(selection_parts(&name_expr("include"), &vec![], &dest), Err(ErrorKind::SelectionEmpty));
}

#[test]
fn callbacks_and_their_error_names() {
    let no_args = Computed { expression: WireExpr { form: ExprForm::Call { func: Box::new(name_expr("now")), args: vec![] }, identifiers: vec![] }, fallible: false };
    assert!(!requires_view(&no_args));
    let with_args = Computed { expression: WireExpr { form: ExprForm::Call { func: Box::new(name_expr("sum")), args: vec![name_expr("a")] }, identifiers: vec![] }, fallible: true };
    assert!(requires_view(&with_args));
    assert_eq!(computed_error_ident(&"check_sum".to_string()), "CheckSumComputed");
}

#[test]
fn builder_slots_skip_controlled_fields() {
    let mut bytes = plain();
    bytes.bytes = Some("len".to_string());
    let mut constant = plain();
    constant.constant = Some(WireExpr { form: ExprForm::Lit(Literal::Int("1".to_string())), identifiers: vec![] });
    let s = schema(
        "Frame",
        one_param("__WireReprPayloadState"),
        vec![
            decl("version", ty("u8"), constant),
            decl("len", ty("u8"), plain()),
            decl("payload", TypeSyntax { shape: path_shape(&["wire", "Bytes"]), identifiers: vec![] }, bytes),
            decl("kind", ty("u8"), plain()),
        ],
    );
    let found = slots(&s);
    assert_eq!(found.len(), 2);
    assert_eq!(found[0].field, 2);
    assert_eq!(found[0].kind, SlotKind::RawBytes);
    assert_eq!(found[0].state, "__WireReprPayloadState1");
    assert_eq!(found[1].field, 3);
    assert_eq!(found[1].kind, SlotKind::Value);
    assert_eq!(found[1].state, "__WireReprKindState");
}

#[test]
fn view_keeps_run_time_boundaries() {
    let mut bytes = plain();
    bytes.bytes = Some("len".to_string());
    let mut padded = plain();
    padded.pad_before = Some(WireExpr { form: ExprForm::Lit(Literal::Int("2".to_string())), identifiers: vec![] });
    let s = schema(
        "Frame",
        Generics { params: vec![], identifiers: vec![] },
        vec![
            decl("len", ty("u8"), plain()),
            decl("payload", TypeSyntax { shape: path_shape(&["wire", "Bytes"]), identifiers: vec![] }, bytes),
            decl("tail", ty("u8"), padded),
        ],
    );
    assert!(!retains_geometry_start(&s, 0));
    assert!(!retains_geometry_end(&s, 0));
    assert!(retains_geometry_end(&s, 1));
    assert!(retains_geometry_start(&s, 2));
    assert!(retains_geometry_end(&s, 2));
    let fixed = schema("Fixed", Generics { params: vec![], identifiers: vec![] }, vec![decl("a", ty("u8"), plain())]);
    assert!(!retains_geometry_end(&fixed, 0));
}

#[test]
fn root_named_in_an_array_length_counts_as_mentioned() {
    let root = "Tree".to_string();
    let length = WireExpr { form: ExprForm::Other, identifiers: vec!["size_of".into(), "Tree".into()] };
    let array = TypeShape::Array {
        elem: Box::new(path_shape(&["u8"])),
        len: length,
        len_types: vec![path_shape(&["Tree"])],
    };
    assert!(contains_root_generic_argument(&array, &root));
    let plain = TypeShape::Array {
        elem: Box::new(path_shape(&["u8"])),
        len: WireExpr { form: ExprForm::Lit(Literal::Int("4".into())), identifiers: vec![] },
        len_types: vec![],
    };
    assert!(!contains_root_generic_argument(&plain, &root));
}

#[test]
fn plain_self_arguments_are_found_by_position() {
    let body = generic_shape(
        &["Node"],
        vec![
            GenericArgument::Type(path_shape(&["Self"])),
            GenericArgument::Other(vec![]),
            GenericArgument::Type(generic_shape(&["Box"], vec![GenericArgument::Type(path_shape(&["Self"]))])),
            GenericArgument::Type(path_shape(&["Self"])),
        ],
    );
    assert_eq!(wire_repr_macros::recursive::self_arguments(&body), vec![0, 3]);
    assert!(wire_repr_macros::recursive::self_arguments(&path_shape(&["Self"])).is_empty());
}
