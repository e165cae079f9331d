//! Recursive schemas: where a body type passes the recursion root, and which
//! generic parameters of a schema are recursive slots.

use vstd::prelude::*;
use crate::errors::ErrorKind;
use crate::model::{
    FieldKind, FieldQuery, GenericParam, KindTag, Schema, lemma_index_filter_step, spec_is_index_filter,
    spec_selects,
};
use crate::syntax::{
    GenericArgument, PathArguments, PathSegment, TypeShape, array_item_type, array_marker,
    spec_marker_item, spec_type_is_parameter, type_is_parameter,
};
use crate::text::{concat, decimal, lemma_names_push, names, spec_decimal, spec_unraw, text_is, unraw};

verus! {

/// Whether a type is written as the plain root name or as `Self`.
pub open spec fn spec_type_is_root(ty: TypeShape, root: Seq<char>) -> bool {
    spec_type_is_parameter(ty, root) || spec_type_is_parameter(ty, "Self"@)
}

/// Whether a type is written as the plain root name or as `Self`.
pub fn type_is_root(ty: &TypeShape, root: &String) -> (r: bool)
    ensures
        r == spec_type_is_root(*ty, root@),
{
    if type_is_parameter(ty, root) {
        return true;
    }
    match ty {
        TypeShape::Path(p) => p.qself.is_none() && p.segments.len() == 1 && matches!(
            p.segments[0].arguments,
            PathArguments::Empty
        ) && text_is(p.segments[0].ident.as_str(), "Self"),
        _ => false,
    }
}

/// Whether a type, or any type written inside it, is the root.
pub open spec fn spec_contains_root(ty: TypeShape, root: Seq<char>) -> bool
    decreases ty, 0int,
{
    if spec_type_is_root(ty, root) {
        true
    } else {
        match ty {
            TypeShape::Path(p) => (match p.qself {
                Some(q) => spec_contains_root(*q, root),
                None => false,
            }) || spec_segments_contain_root(p.segments@, 0, root),
            TypeShape::Array { elem, len_types, .. } => spec_contains_root(*elem, root) || spec_types_contain_root(
                len_types@,
                0,
                root,
            ),
            TypeShape::Other(inner) => spec_types_contain_root(inner@, 0, root),
        }
    }
}

/// Whether any of `types[i..]` contains the root.
pub open spec fn spec_types_contain_root(types: Seq<TypeShape>, i: int, root: Seq<char>) -> bool
    decreases types, types.len() - i,
{
    if i < 0 || i >= types.len() {
        false
    } else {
        spec_contains_root(types[i], root) || spec_types_contain_root(types, i + 1, root)
    }
}

/// Whether the arguments of any of `segments[i..]` contain the root.
pub open spec fn spec_segments_contain_root(segments: Seq<PathSegment>, i: int, root: Seq<char>) -> bool
    decreases segments, segments.len() - i,
{
    if i < 0 || i >= segments.len() {
        false
    } else {
        (match segments[i].arguments {
            PathArguments::Empty => false,
            PathArguments::AngleBracketed(args) => spec_arguments_contain_root(args@, 0, root),
            PathArguments::Parenthesized(types) => spec_types_contain_root(types@, 0, root),
        }) || spec_segments_contain_root(segments, i + 1, root)
    }
}

/// Whether any of the generic arguments `args[i..]` contains the root.
pub open spec fn spec_arguments_contain_root(args: Seq<GenericArgument>, i: int, root: Seq<char>) -> bool
    decreases args, args.len() - i,
{
    if i < 0 || i >= args.len() {
        false
    } else {
        (match args[i] {
            GenericArgument::Type(t) => spec_contains_root(t, root),
            GenericArgument::Other(types) => spec_types_contain_root(types@, 0, root),
        }) || spec_arguments_contain_root(args, i + 1, root)
    }
}

/// Whether a body type mentions the recursion root anywhere, as the root's
/// name or as `Self`.
pub fn contains_root_generic_argument(body: &TypeShape, root: &String) -> (r: bool)
    ensures
        r == spec_contains_root(*body, root@),
    decreases body, 0int,
{
    if type_is_root(body, root) {
        return true;
    }
    match body {
        TypeShape::Path(p) => {
            let in_qself = match &p.qself {
                Some(q) => contains_root_generic_argument(q, root),
                None => false,
            };
            in_qself || segments_contain_root(&p.segments, 0, root)
        },
        TypeShape::Array { elem, len_types, .. } => contains_root_generic_argument(elem, root) || types_contain_root(
            len_types,
            0,
            root,
        ),
        TypeShape::Other(inner) => types_contain_root(inner, 0, root),
    }
}

fn types_contain_root(types: &Vec<TypeShape>, i: usize, root: &String) -> (r: bool)
    ensures
        r == spec_types_contain_root(types@, i as int, root@),
    decreases types@, types@.len() - i,
{
    if i >= types.len() {
        return false;
    }
    if contains_root_generic_argument(&types[i], root) {
        return true;
    }
    types_contain_root(types, i + 1, root)
}

fn segments_contain_root(segments: &Vec<PathSegment>, i: usize, root: &String) -> (r: bool)
    ensures
        r == spec_segments_contain_root(segments@, i as int, root@),
    decreases segments@, segments@.len() - i,
{
    if i >= segments.len() {
        return false;
    }
    let here = match &segments[i].arguments {
        PathArguments::Empty => false,
        PathArguments::AngleBracketed(args) => arguments_contain_root(args, 0, root),
        PathArguments::Parenthesized(types) => types_contain_root(types, 0, root),
    };
    here || segments_contain_root(segments, i + 1, root)
}

fn arguments_contain_root(args: &Vec<GenericArgument>, i: usize, root: &String) -> (r: bool)
    ensures
        r == spec_arguments_contain_root(args@, i as int, root@),
    decreases args@, args@.len() - i,
{
    if i >= args.len() {
        return false;
    }
    let here = match &args[i] {
        GenericArgument::Type(t) => contains_root_generic_argument(t, root),
        GenericArgument::Other(types) => types_contain_root(types, 0, root),
    };
    here || arguments_contain_root(args, i + 1, root)
}

/// Scans the generic arguments `args[i..]` of a recursive body: type
/// arguments are counted from `type_index`; exactly one may be the root, and
/// no other may contain it.
pub open spec fn spec_root_slot_scan(
    args: Seq<GenericArgument>,
    i: int,
    root: Seq<char>,
    type_index: int,
    selected: Option<int>,
) -> Result<Option<int>, ErrorKind>
    decreases args.len() - i,
{
    if i < 0 || i >= args.len() {
        Ok(selected)
    } else {
        match args[i] {
            GenericArgument::Other(_) => spec_root_slot_scan(args, i + 1, root, type_index, selected),
            GenericArgument::Type(t) => if spec_type_is_root(t, root) {
                if selected is Some {
                    Err(ErrorKind::RootSlotRepeated)
                } else {
                    spec_root_slot_scan(args, i + 1, root, type_index + 1, Some(type_index))
                }
            } else if spec_contains_root(t, root) {
                Err(ErrorKind::RootSlotIndirect)
            } else {
                spec_root_slot_scan(args, i + 1, root, type_index + 1, selected)
            },
        }
    }
}

/// Which type argument of a recursive enum body passes the root: none when
/// the body does not mention the root; refused unless the body is a plain
/// path whose last segment passes the root directly in exactly one type
/// argument and mentions it nowhere else in its arguments.
pub open spec fn spec_root_slot(body: TypeShape, root: Seq<char>) -> Result<Option<int>, ErrorKind> {
    if !spec_contains_root(body, root) {
        Ok(None)
    } else {
        match body {
            TypeShape::Path(p) => if p.qself is Some {
                Err(ErrorKind::RootSlotQualified)
            } else if p.segments@.len() == 0 {
                Err(ErrorKind::RootSlotEmpty)
            } else {
                match p.segments@.last().arguments {
                    PathArguments::AngleBracketed(args) => match spec_root_slot_scan(args@, 0, root, 0, None) {
                        Err(k) => Err(k),
                        Ok(None) => Err(ErrorKind::RootSlotMissing),
                        Ok(Some(slot)) => Ok(Some(slot)),
                    },
                    _ => Err(ErrorKind::RootSlotNotAngleBracketed),
                }
            },
            _ => Err(ErrorKind::RootSlotNotPath),
        }
    }
}

/// The recursive slot of an enum body: the position, among the type
/// arguments of the body's last path segment, of the one that passes the
/// root (the marker type is that slot of the body type).
pub fn root_slot_marker(body: &TypeShape, root: &String) -> (r: Result<Option<usize>, ErrorKind>)
    ensures
        match r {
            Ok(None) => spec_root_slot(*body, root@) == Ok::<Option<int>, ErrorKind>(None),
            Ok(Some(slot)) => spec_root_slot(*body, root@) == Ok::<Option<int>, ErrorKind>(Some(slot as int)),
            Err(k) => spec_root_slot(*body, root@) == Err::<Option<int>, ErrorKind>(k),
        },
{
    if !contains_root_generic_argument(body, root) {
        return Ok(None);
    }
    let p = match body {
        TypeShape::Path(p) => p,
        _ => return Err(ErrorKind::RootSlotNotPath),
    };
    if p.qself.is_some() {
        return Err(ErrorKind::RootSlotQualified);
    }
    if p.segments.len() == 0 {
        return Err(ErrorKind::RootSlotEmpty);
    }
    let args = match &p.segments[p.segments.len() - 1].arguments {
        PathArguments::AngleBracketed(args) => args,
        _ => return Err(ErrorKind::RootSlotNotAngleBracketed),
    };
    let mut type_index: usize = 0;
    let mut selected: Option<usize> = None;
    let mut i: usize = 0;
    while i < args.len()
        invariant
            spec_contains_root(*body, root@),
            *body == TypeShape::Path(*p),
            p.qself is None,
            p.segments@.len() > 0,
            p.segments@.last().arguments == PathArguments::AngleBracketed(*args),
            i <= args@.len(),
            type_index <= i,
            selected matches Some(s) ==> s < type_index,
            spec_root_slot_scan(args@, 0, root@, 0, None) == spec_root_slot_scan(
                args@,
                i as int,
                root@,
                type_index as int,
                match selected {
                    Some(s) => Some(s as int),
                    None => None,
                },
            ),
        decreases args.len() - i,
    {
        match &args[i] {
            GenericArgument::Other(_) => {},
            GenericArgument::Type(t) => {
                if type_is_root(t, root) {
                    if selected.is_some() {
                        return Err(ErrorKind::RootSlotRepeated);
                    }
                    selected = Some(type_index);
                } else if contains_root_generic_argument(t, root) {
                    return Err(ErrorKind::RootSlotIndirect);
                }
                type_index = type_index + 1;
            },
        }
        i = i + 1;
    }
    match selected {
        Some(s) => Ok(Some(s)),
        None => Err(ErrorKind::RootSlotMissing),
    }
}

/// The names of the type parameters (not lifetimes or consts), in order.
pub open spec fn spec_type_params(params: Seq<GenericParam>) -> Seq<Seq<char>>
    decreases params.len(),
{
    if params.len() == 0 {
        seq![]
    } else {
        let rest = spec_type_params(params.drop_last());
        match params.last() {
            GenericParam::Type(name) => rest.push(name@),
            _ => rest,
        }
    }
}

/// A type parameter of a schema through which its arrays recurse.
#[derive(Debug)]
pub struct RecursiveSlot {
    /// The type parameter.
    pub generic: String,
    /// Its position among the type parameters.
    pub index: usize,
    /// The marker type generated for the slot.
    pub marker: String,
    /// The array fields whose item type is the parameter.
    pub fields: Vec<usize>,
}

/// The marker type name of slot `index` of a schema.
pub open spec fn spec_slot_marker(s: Schema, index: int) -> Seq<char> {
    "__WireRepr"@ + spec_unraw(s.name@) + "RecursiveSlot"@ + spec_decimal(index as nat)
}

/// Whether some array field of the schema has the parameter as item type.
pub open spec fn spec_is_slot(s: Schema, g: Seq<char>) -> bool {
    exists|k: int| 0 <= k < s.fields@.len() && #[trigger] spec_selects(s.fields@, FieldQuery::ArrayOf(g), k)
}

/// What a recursive slot of the schema is: a type parameter with its
/// position, its marker, and the array fields it is the item type of.
pub open spec fn spec_slot_ok(s: Schema, slot: RecursiveSlot) -> bool {
    let params = spec_type_params(s.generics.params@);
    &&& slot.index < params.len()
    &&& slot.generic@ == params[slot.index as int]
    &&& slot.marker@ == spec_slot_marker(s, slot.index as int)
    &&& slot.fields@.len() > 0
    &&& spec_is_index_filter(slot.fields@, s.fields@.len(), s.fields@, FieldQuery::ArrayOf(slot.generic@))
}

fn type_params(params: &Vec<GenericParam>) -> (r: Vec<String>)
    ensures
        names(r@) == spec_type_params(params@),
{
    let mut out: Vec<String> = Vec::new();
    let mut i: usize = 0;
    while i < params.len()
        invariant
            i <= params@.len(),
            names(out@) == spec_type_params(params@.take(i as int)),
        decreases params.len() - i,
    {
        let ghost before = out@;
        match &params[i] {
            GenericParam::Type(name) => {
                let name = name.clone();
                out.push(name);
                proof {
                    lemma_names_push(before, name);
                }
            },
            _ => {},
        }
        proof {
            assert(params@.take(i + 1).drop_last() =~= params@.take(i as int));
        }
        i = i + 1;
    }
    assert(params@.take(params@.len() as int) =~= params@);
    out
}

/// The array fields whose item type is the parameter `g`, in order.
fn array_fields_of(schema: &Schema, g: &String) -> (r: Vec<usize>)
    ensures
        spec_is_index_filter(r@, schema.fields@.len(), schema.fields@, FieldQuery::ArrayOf(g@)),
{
    let mut out: Vec<usize> = Vec::new();
    let mut i: usize = 0;
    while i < schema.fields.len()
        invariant
            i <= schema.fields@.len(),
            spec_is_index_filter(out@, i as nat, schema.fields@, FieldQuery::ArrayOf(g@)),
        decreases schema.fields.len() - i,
    {
        let ghost before = out@;
        let f = &schema.fields[i];
        let selected = match &f.kind {
            FieldKind::Array(_) => match array_item_type(&f.ty.shape) {
                Some(item) => type_is_parameter(item, g),
                None => false,
            },
            _ => false,
        };
        if selected {
            out.push(i);
        }
        proof {
            lemma_index_filter_step(before, out@, i, schema.fields@, FieldQuery::ArrayOf(g@));
        }
        i = i + 1;
    }
    out
}

/// The recursive slots of a schema: each type parameter that is the item
/// type of some array field, in parameter order.
pub fn schema_slots(schema: &Schema) -> (r: Vec<RecursiveSlot>)
    ensures
        forall|k: int| 0 <= k < r@.len() ==> spec_slot_ok(*schema, #[trigger] r@[k]),
        forall|k: int, m: int| 0 <= k < m < r@.len() ==> r@[k].index < r@[m].index,
        forall|j: int|
            0 <= j < spec_type_params(schema.generics.params@).len() && spec_is_slot(
                *schema,
                #[trigger] spec_type_params(schema.generics.params@)[j],
            ) ==> exists|k: int| 0 <= k < r@.len() && r@[k].index == j,
{
    let params = type_params(&schema.generics.params);
    let ghost tparams = spec_type_params(schema.generics.params@);
    let name = unraw(schema.name.as_str());
    let mut out: Vec<RecursiveSlot> = Vec::new();
    let mut j: usize = 0;
    while j < params.len()
        invariant
            names(params@) == tparams,
            tparams == spec_type_params(schema.generics.params@),
            name@ == spec_unraw(schema.name@),
            j <= params@.len(),
            forall|k: int| 0 <= k < out@.len() ==> spec_slot_ok(*schema, #[trigger] out@[k]),
            forall|k: int| 0 <= k < out@.len() ==> (#[trigger] out@[k]).index < j,
            forall|k: int, m: int| 0 <= k < m < out@.len() ==> out@[k].index < out@[m].index,
            forall|q: int|
                0 <= q < j && spec_is_slot(*schema, #[trigger] tparams[q]) ==> exists|k: int|
                    0 <= k < out@.len() && out@[k].index == q,
        decreases params.len() - j,
    {
        let generic = params[j].clone();
        assert(generic@ == tparams[j as int]);
        let fields = array_fields_of(schema, &generic);
        if fields.len() > 0 {
            let a = concat("__WireRepr", name.as_str());
            let b = concat(a.as_str(), "RecursiveSlot");
            let marker = concat(b.as_str(), decimal(j).as_str());
            let slot = RecursiveSlot { generic, index: j, marker, fields };
            let ghost before = out@;
            out.push(slot);
            proof {
                assert(spec_slot_ok(*schema, out@[out@.len() - 1]));
                assert forall|q: int|
                    0 <= q < j + 1 && spec_is_slot(*schema, #[trigger] tparams[q]) implies exists|k: int|
                        0 <= k < out@.len() && out@[k].index == q by {
                    if q == j {
                        assert(out@[out@.len() - 1].index == q);
                    } else {
                        let k = choose|k: int| 0 <= k < before.len() && before[k].index == q;
                        assert(out@[k].index == q);
                    }
                }
            }
        } else {
            proof {
                assert forall|q: int|
                    0 <= q < j + 1 && spec_is_slot(*schema, #[trigger] tparams[q]) implies exists|k: int|
                        0 <= k < out@.len() && out@[k].index == q by {
                    if q == j {
                        let m = choose|m: int|
                            0 <= m < schema.fields@.len() && #[trigger] spec_selects(
                                schema.fields@,
                                FieldQuery::ArrayOf(tparams[q]),
                                m,
                            );
                        assert(fields@.contains(m as usize));
                    }
                }
            }
        }
        j = j + 1;
    }
    out
}

/// The positions of the `wire::Recursive<T>` fields, in order.
pub fn recursive_positions(schema: &Schema) -> (r: Vec<usize>)
    ensures
        spec_is_index_filter(r@, schema.fields@.len(), schema.fields@, FieldQuery::Kind(KindTag::Recursive)),
{
    schema.fields_of_kind(KindTag::Recursive)
}

/// The marker type of a recursive slot's writer.
pub fn write_marker(schema: &Schema, slot: &RecursiveSlot) -> (r: String)
    ensures
        r@ == "__WireRepr"@ + spec_unraw(schema.name@) + "RecursiveWriteSlot"@ + spec_decimal(slot.index as nat),
{
    let name = unraw(schema.name.as_str());
    let a = concat("__WireRepr", name.as_str());
    let b = concat(a.as_str(), "RecursiveWriteSlot");
    concat(b.as_str(), decimal(slot.index).as_str())
}

/// Whether a generic argument is the plain type `Self`.
pub open spec fn spec_is_plain_self(a: GenericArgument) -> bool {
    a matches GenericArgument::Type(TypeShape::Path(p)) && p.qself is None && p.segments@.len() == 1
        && p.segments@[0].ident@ == "Self"@ && p.segments@[0].arguments is Empty
}

/// The generic arguments of a body's last path segment, when it has angle
/// brackets.
pub open spec fn spec_last_arguments(body: TypeShape) -> Option<Seq<GenericArgument>> {
    match body {
        TypeShape::Path(p) => if p.segments@.len() == 0 {
            None
        } else {
            match p.segments@.last().arguments {
                PathArguments::AngleBracketed(args) => Some(args@),
                _ => None,
            }
        },
        _ => None,
    }
}

fn is_plain_self(a: &GenericArgument) -> (r: bool)
    ensures
        r == spec_is_plain_self(*a),
{
    proof {
        reveal_strlit("Self");
    }
    match a {
        GenericArgument::Type(TypeShape::Path(p)) => p.qself.is_none() && p.segments.len() == 1 && text_is(
            p.segments[0].ident.as_str(),
            "Self",
        ) && matches!(p.segments[0].arguments, PathArguments::Empty),
        _ => false,
    }
}

/// The positions, among the generic arguments of a body's last path
/// segment, of those written as the plain type `Self`: the arguments that
/// a recursive body's root takes the place of.
pub fn self_arguments(body: &TypeShape) -> (r: Vec<usize>)
    ensures
        match spec_last_arguments(*body) {
            Some(args) => {
                &&& forall|a: int, b: int| 0 <= a < b < r@.len() ==> r@[a] < r@[b]
                &&& forall|k: int| 0 <= k < r@.len() ==> r@[k] < args.len() && spec_is_plain_self(args[r@[k] as int])
                &&& forall|j: int| 0 <= j < args.len() && spec_is_plain_self(#[trigger] args[j]) ==> r@.contains(
                    j as usize,
                )
            },
            None => r@.len() == 0,
        },
{
    let mut out: Vec<usize> = Vec::new();
    let p = match body {
        TypeShape::Path(p) => p,
        _ => return out,
    };
    if p.segments.len() == 0 {
        return out;
    }
    let args = match &p.segments[p.segments.len() - 1].arguments {
        PathArguments::AngleBracketed(args) => args,
        _ => return out,
    };
    assert(spec_last_arguments(*body) == Some(args@));
    let mut i: usize = 0;
    while i < args.len()
        invariant
            spec_last_arguments(*body) == Some(args@),
            i <= args@.len(),
            forall|a: int, b: int| 0 <= a < b < out@.len() ==> out@[a] < out@[b],
            forall|k: int| 0 <= k < out@.len() ==> out@[k] < i && spec_is_plain_self(args@[out@[k] as int]),
            forall|j: int| 0 <= j < i && spec_is_plain_self(#[trigger] args@[j]) ==> out@.contains(j as usize),
        decreases args.len() - i,
    {
        if is_plain_self(&args[i]) {
            let ghost before = out@;
            out.push(i);
            assert forall|j: int| 0 <= j < i + 1 && spec_is_plain_self(#[trigger] args@[j]) implies out@.contains(
                j as usize,
            ) by {
                if j < i {
                    assert(before.contains(j as usize));
                    let k = choose|k: int| 0 <= k < before.len() && before[k] == j as usize;
                    assert(out@[k] == j as usize);
                } else {
                    assert(out@[before.len() as int] == i);
                }
            }
        }
        i = i + 1;
    }
    out
}

/// The recursive-array body a schema gets: the schema's one type parameter
/// is the item type of a counted array that follows its count directly.
#[derive(Debug)]
pub struct RecursiveBodyPlan {
    /// The type parameter the items take.
    pub generic: String,
    /// The count's width in bytes.
    pub count_width: usize,
    /// Whether the count is big-endian.
    pub big_endian: bool,
}

/// Whether field `k` has no padding, alignment, placement or condition.
pub open spec fn spec_unplaced(fields: Seq<crate::model::Field>, k: int) -> bool {
    !fields[k].layout.spec_has_geometry()
}

/// The recursive-array body of a schema: its only generic parameter is a
/// type `T`; it has two fields, an unsigned stored count (no constant, no
/// callback) and then an array of `T` counted by it; neither is padded,
/// aligned, placed or conditional.
pub open spec fn spec_recursive_body_plan(s: Schema) -> Option<(Seq<char>, nat, bool)> {
    let fields = s.fields@;
    if s.generics.params@.len() == 1 && s.generics.params@[0] is Type && fields.len() == 2 {
        let g = s.generics.params@[0]->Type_0@;
        match (fields[0].kind, fields[1].kind) {
            (FieldKind::Scalar(c), FieldKind::Array(a)) => if spec_selects(fields, FieldQuery::ArrayOf(g), 1)
                && fields[0].name@ == a.controller@ && c.wire_type.spec_is_unsigned_integer() && c.constant is None
                && c.computed is None && spec_unplaced(fields, 0) && spec_unplaced(fields, 1) {
                Some((g, c.wire_type.spec_width(), c.endian is Big))
            } else {
                None
            },
            _ => None,
        }
    } else {
        None
    }
}

/// The recursive-array body of a schema, when it has one.
pub fn recursive_body_plan(schema: &Schema) -> (r: Option<RecursiveBodyPlan>)
    ensures
        match r {
            Some(p) => spec_recursive_body_plan(*schema) == Some((p.generic@, p.count_width as nat, p.big_endian)),
            None => spec_recursive_body_plan(*schema) is None,
        },
{
    if schema.generics.params.len() != 1 || schema.fields.len() != 2 {
        return None;
    }
    let g = match &schema.generics.params[0] {
        GenericParam::Type(g) => g,
        _ => return None,
    };
    let fields = &schema.fields;
    let c = match &fields[0].kind {
        FieldKind::Scalar(c) => c,
        _ => return None,
    };
    let a = match &fields[1].kind {
        FieldKind::Array(a) => a,
        _ => return None,
    };
    let items = array_fields_of(schema, g);
    let selected = items.len() > 0 && items[items.len() - 1] == 1;
    proof {
        if spec_selects(fields@, FieldQuery::ArrayOf(g@), 1) {
            assert(items@.contains(1usize));
        }
    }
    let l0 = &fields[0].layout;
    let l1 = &fields[1].layout;
    if selected && fields[0].name == a.controller && c.wire_type.is_unsigned_integer() && c.constant.is_none()
        && c.computed.is_none() && !(l0.pad_before.is_some() || l0.align_before.is_some()
        || l0.position.is_some() || l0.condition.is_some()) && !(l1.pad_before.is_some()
        || l1.align_before.is_some() || l1.position.is_some() || l1.condition.is_some()) {
        Some(
            RecursiveBodyPlan {
                generic: g.clone(),
                count_width: c.wire_type.width(),
                big_endian: matches!(c.endian, crate::scalar::Endian::Big),
            },
        )
    } else {
        None
    }
}

} // verus!
