//! Reading one declared field into the layout model: what kind of field its
//! type and attributes make it, which combinations are refused, and how the
//! static offset of the next field grows.

use vstd::prelude::*;
use crate::attributes::FieldAttributes;
use crate::controller::{spec_check_unsigned_controller, validate_unsigned_controller};
use crate::errors::{ControllerRole, ErrorKind};
use crate::model::{
    ArrayField, BitProjection, Computed, DynamicExtent, Field, FieldKind, FieldLayout,
    FixedBytes, FixedScalarArray, LayoutOffset, NestedField, Position, Scalar, SizeTerm,
    find_field, spec_field_index,
};
use crate::scalar::{Endian, EndianError, ScalarType, ValueType, scalar_endian, spec_scalar_endian};
use crate::syntax::{
    ExprForm, Literal, TypeShape, TypeSyntax, WireExpr, array_item_type, is_raw_bytes,
    parse_decimal, primitive_name, recursive_item_type, simple_path, spec_int_literal,
    spec_is_raw_bytes, spec_marker_item, spec_parse_decimal, spec_primitive_name,
    spec_simple_path, array_marker, recursive_marker,
};

verus! {

/// The integer literal that is the array length of a field's type, by its digits.
pub open spec fn spec_array_len_literal(f: Field) -> Option<Seq<char>> {
    match f.ty.shape {
        TypeShape::Array { elem, len, .. } => spec_int_literal(len),
        _ => None,
    }
}

/// The byte width a term stands for when it is a literal, if it fits `usize`.
pub open spec fn spec_term_width(term: SizeTerm, fields: Seq<Field>) -> Option<int> {
    match term {
        SizeTerm::Fixed(w) => Some(w as int),
        SizeTerm::Expr(i) => if i < fields.len() {
            match spec_array_len_literal(fields[i as int]) {
                Some(d) => spec_parse_decimal(d, usize::MAX as int),
                None => None,
            }
        } else {
            None
        },
        SizeTerm::Scaled(i, scale) => if i < fields.len() {
            match spec_array_len_literal(fields[i as int]) {
                Some(d) => match spec_parse_decimal(d, usize::MAX as int) {
                    Some(l) => if l * scale <= usize::MAX {
                        Some(l * scale)
                    } else {
                        None
                    },
                    None => None,
                },
                None => None,
            }
        } else {
            None
        },
        _ => None,
    }
}

/// The end of the first `n` terms when each is a literal width and the sum
/// fits `usize`.
pub open spec fn spec_static_end(terms: Seq<SizeTerm>, fields: Seq<Field>, n: nat) -> Option<int>
    decreases n,
{
    if n == 0 || n > terms.len() {
        if n == 0 {
            Some(0)
        } else {
            None
        }
    } else {
        match (spec_static_end(terms, fields, (n - 1) as nat), spec_term_width(terms[n - 1], fields)) {
            (Some(p), Some(w)) => if p + w <= usize::MAX {
                Some(p + w)
            } else {
                None
            },
            _ => None,
        }
    }
}

pub(crate) fn array_len_literal(f: &Field) -> (r: Option<&String>)
    ensures
        r matches Some(d) ==> spec_array_len_literal(*f) == Some(d@),
        r is None ==> spec_array_len_literal(*f) is None,
{
    match &f.ty.shape {
        TypeShape::Array { elem, len, .. } => match &len.form {
            ExprForm::Lit(Literal::Int(digits)) => Some(digits),
            _ => None,
        },
        _ => None,
    }
}

fn term_width(term: SizeTerm, fields: &Vec<Field>) -> (r: Option<usize>)
    ensures
        r matches Some(w) ==> spec_term_width(term, fields@) == Some(w as int),
        r is None ==> spec_term_width(term, fields@) is None,
{
    match term {
        SizeTerm::Fixed(w) => Some(w),
        SizeTerm::Expr(i) => {
            if i >= fields.len() {
                return None;
            }
            match array_len_literal(&fields[i]) {
                Some(d) => match parse_decimal(d.as_str(), usize::MAX as u128) {
                    Some(v) => Some(v as usize),
                    None => None,
                },
                None => None,
            }
        },
        SizeTerm::Scaled(i, scale) => {
            if i >= fields.len() {
                return None;
            }
            match array_len_literal(&fields[i]) {
                Some(d) => match parse_decimal(d.as_str(), usize::MAX as u128) {
                    Some(v) => (v as usize).checked_mul(scale),
                    None => None,
                },
                None => None,
            }
        },
        _ => None,
    }
}

/// The byte offset reached by terms that are all literal widths, or nothing
/// when a term is not, or the sum does not fit `usize`.
pub fn static_geometry_end(terms: &Vec<SizeTerm>, fields: &Vec<Field>) -> (r: Option<usize>)
    ensures
        r matches Some(e) ==> spec_static_end(terms@, fields@, terms@.len()) == Some(e as int),
        r is None ==> spec_static_end(terms@, fields@, terms@.len()) is None,
{
    let mut position: usize = 0;
    let mut i: usize = 0;
    while i < terms.len()
        invariant
            i <= terms@.len(),
            spec_static_end(terms@, fields@, i as nat) == Some(position as int),
        decreases terms.len() - i,
    {
        let width = match term_width(terms[i], fields) {
            Some(w) => w,
            None => {
                proof {
                    lemma_static_end_stays_none(terms@, fields@, (i + 1) as nat);
                }
                return None;
            },
        };
        position = match position.checked_add(width) {
            Some(p) => p,
            None => {
                proof {
                    lemma_static_end_stays_none(terms@, fields@, (i + 1) as nat);
                }
                return None;
            },
        };
        i = i + 1;
    }
    Some(position)
}

proof fn lemma_static_end_stays_none(terms: Seq<SizeTerm>, fields: Seq<Field>, n: nat)
    requires
        n <= terms.len(),
        spec_static_end(terms, fields, n) is None,
    ensures
        spec_static_end(terms, fields, terms.len()) is None,
    decreases terms.len() - n,
{
    if n < terms.len() {
        lemma_static_end_stays_none(terms, fields, n + 1);
    }
}

/// `at = name` places a field at an earlier field's value; anything else is a
/// static position expression.
pub open spec fn spec_classify_position(e: WireExpr, previous: Seq<Field>) -> Position {
    match spec_simple_path(e) {
        Some(id) => if exists|j: int| #![trigger previous[j]] 0 <= j < previous.len() && previous[j].name@ == id {
            Position::Field(e.form->Path_0.segments@[0])
        } else {
            Position::Static(e)
        },
        None => Position::Static(e),
    }
}

fn any_field_named(fields: &Vec<Field>, name: &String) -> (r: bool)
    ensures
        r == exists|j: int| #![trigger fields@[j]] 0 <= j < fields@.len() && fields@[j].name@ == name@,
{
    find_field(fields, name).is_some()
}

/// Where `at = ...` places a field.
pub fn classify_position(position: WireExpr, previous: &Vec<Field>) -> (r: Position)
    ensures
        r == spec_classify_position(position, previous@),
{
    let field_name = match simple_path(&position) {
        Some(identifier) => {
            if any_field_named(previous, identifier) {
                Some(identifier.clone())
            } else {
                None
            }
        },
        None => None,
    };
    match field_name {
        Some(name) => Position::Field(name),
        None => Position::Static(position),
    }
}

/// The rules on a field's placement: `at` excludes padding and alignment; a
/// static `at` is an integer literal no smaller than the static cursor; a
/// literal alignment is nonzero.
pub open spec fn spec_check_layout(
    position: Option<Position>,
    pad_before: bool,
    align_before: Option<WireExpr>,
    preceding: Seq<SizeTerm>,
    fields: Seq<Field>,
) -> Result<(), ErrorKind> {
    if position is Some && (pad_before || align_before is Some) {
        Err(ErrorKind::AtWithPadding)
    } else {
        let at = match position {
            Some(Position::Static(e)) => match e.form {
                ExprForm::Lit(Literal::Int(d)) => match spec_parse_decimal(d@, usize::MAX as int) {
                    None => Err(ErrorKind::IntegerTooLarge),
                    Some(requested) => match spec_static_end(preceding, fields, preceding.len()) {
                        Some(current) => if requested < current {
                            Err(
                                ErrorKind::AtBeforeCursor {
                                    requested: requested as usize,
                                    current: current as usize,
                                },
                            )
                        } else {
                            Ok(())
                        },
                        None => Ok(()),
                    },
                },
                ExprForm::Lit(Literal::Other) => Err(ErrorKind::AtNotInteger),
                _ => Err(ErrorKind::AtNotLiteralOrField),
            },
            _ => Ok(()),
        };
        match at {
            Err(k) => Err(k),
            Ok(_) => match align_before {
                Some(e) => match spec_int_literal(e) {
                    Some(d) => match spec_parse_decimal(d, usize::MAX as int) {
                        None => Err(ErrorKind::IntegerTooLarge),
                        Some(v) => if v == 0 {
                            Err(ErrorKind::AlignZero)
                        } else {
                            Ok(())
                        },
                    },
                    None => Ok(()),
                },
                None => Ok(()),
            },
        }
    }
}

/// Checks a field's placement attributes.
pub fn validate_field_layout(
    position: &Option<Position>,
    pad_before: bool,
    align_before: &Option<WireExpr>,
    preceding: &Vec<SizeTerm>,
    fields: &Vec<Field>,
) -> (r: Result<(), ErrorKind>)
    ensures
        r == spec_check_layout(*position, pad_before, *align_before, preceding@, fields@),
{
    if position.is_some() && (pad_before || align_before.is_some()) {
        return Err(ErrorKind::AtWithPadding);
    }
    if let Some(Position::Static(e)) = position {
        match &e.form {
            ExprForm::Lit(Literal::Int(digits)) => {
                let requested = match parse_decimal(digits.as_str(), usize::MAX as u128) {
                    Some(v) => v as usize,
                    None => return Err(ErrorKind::IntegerTooLarge),
                };
                if let Some(current) = static_geometry_end(preceding, fields) {
                    if requested < current {
                        return Err(ErrorKind::AtBeforeCursor { requested, current });
                    }
                }
            },
            ExprForm::Lit(Literal::Other) => return Err(ErrorKind::AtNotInteger),
            _ => return Err(ErrorKind::AtNotLiteralOrField),
        }
    }
    if let Some(e) = align_before {
        if let ExprForm::Lit(Literal::Int(digits)) = &e.form {
            match parse_decimal(digits.as_str(), usize::MAX as u128) {
                Some(v) => {
                    if v == 0 {
                        return Err(ErrorKind::AlignZero);
                    }
                },
                None => return Err(ErrorKind::IntegerTooLarge),
            }
        }
    }
    Ok(())
}

/// The logical type a field's type has: a primitive by name, or a custom type
/// when an `as` wire type is declared.
pub open spec fn spec_value_type(ty: TypeShape, representation: Option<ScalarType>) -> Option<ValueType> {
    let named = match spec_primitive_name(ty) {
        Some(n) => ValueType::spec_from_name(n),
        None => None,
    };
    match named {
        Some(v) => Some(v),
        None => if representation is Some {
            Some(ValueType::Custom)
        } else {
            None
        },
    }
}

/// The logical type a field's type has.
pub fn value_type_of(ty: &TypeShape, representation: Option<ScalarType>) -> (r: Option<ValueType>)
    ensures
        r == spec_value_type(*ty, representation),
{
    let named = match primitive_name(ty) {
        Some(n) => ValueType::from_name(n.as_str()),
        None => None,
    };
    match named {
        Some(v) => Some(v),
        None => if representation.is_some() {
            Some(ValueType::Custom)
        } else {
            None
        },
    }
}

/// Whether a logical type can hold a bit range of the given width.
pub open spec fn spec_bit_width_fits(value_type: Option<ValueType>, width: int) -> bool {
    match value_type {
        Some(ValueType::Bool) => width == 1,
        Some(ValueType::Scalar(s)) => s.spec_is_unsigned_integer() && width <= s.spec_width() * 8,
        Some(ValueType::Usize) => width <= usize::BITS,
        _ => false,
    }
}

/// Whether two inclusive bit ranges share a bit.
pub open spec fn spec_ranges_overlap(a_start: u32, a_end: u32, b_start: u32, b_end: u32) -> bool {
    a_start <= b_end && b_start <= a_end
}

/// Whether some earlier field projects an overlapping range of `controller`.
pub open spec fn spec_projection_overlaps(fields: Seq<Field>, controller: Seq<char>, start: u32, end: u32) -> bool {
    exists|j: int|
        #![trigger fields[j]]
        0 <= j < fields.len() && (fields[j].kind matches FieldKind::BitProjection(p) && p.controller@
            == controller && spec_ranges_overlap(start, end, p.start, p.end))
}

/// The attribute presence a bit projection, flag, or recursive field reads.
#[derive(Clone, Copy, Debug, PartialEq, Eq, Structural)]
pub struct AttributePresence {
    pub endian: bool,
    pub constant: bool,
    pub representation: bool,
    pub bytes: bool,
    pub rest: bool,
    pub counted_by: bool,
    pub computed: bool,
    pub pad_before: bool,
    pub align_before: bool,
    pub position: bool,
    pub condition: bool,
}

/// The presence flags of a set of attributes.
pub open spec fn spec_presence(a: FieldAttributes) -> AttributePresence {
    AttributePresence {
        endian: a.endian is Some,
        constant: a.constant is Some,
        representation: a.representation is Some,
        bytes: a.bytes is Some,
        rest: a.rest,
        counted_by: a.counted_by is Some,
        computed: a.computed is Some || a.try_computed is Some,
        pad_before: a.pad_before is Some,
        align_before: a.align_before is Some,
        position: a.position is Some,
        condition: a.condition is Some,
    }
}

/// The rules on a bit projection of `controller`: an ordered range whose
/// width the logical type holds, no physical attributes, an earlier unsigned
/// controller at a static offset, wide enough, and no overlap with another
/// projection of the same controller.
pub open spec fn spec_check_bit_projection(
    fields: Seq<Field>,
    value_type: Option<ValueType>,
    controller: Seq<char>,
    start: u32,
    end: u32,
    p: AttributePresence,
) -> Result<(), ErrorKind> {
    if start > end {
        Err(ErrorKind::BitStartAfterEnd)
    } else if start == 0 && end == u32::MAX {
        Err(ErrorKind::BitRangeOverflow)
    } else if !spec_bit_width_fits(value_type, end - start + 1) {
        Err(ErrorKind::BitProjectionType)
    } else if p.endian || p.constant || p.representation || p.bytes || p.rest || p.counted_by
        || p.pad_before || p.align_before || p.position || p.condition {
        Err(ErrorKind::BitProjectionAttributes)
    } else {
        spec_check_bit_controller(fields, controller, start, end)
    }
}

/// The rules on the controller of a bit projection of `start..=end`.
pub open spec fn spec_check_bit_controller(fields: Seq<Field>, controller: Seq<char>, start: u32, end: u32) -> Result<(), ErrorKind> {
    if spec_field_index(fields, controller) is None {
        Err(ErrorKind::BitControllerNotEarlier)
    } else {
        match spec_check_unsigned_controller(
            fields,
            fields.len() as int,
            controller,
            ControllerRole::BitProjection,
            false,
        ) {
            Err(k) => Err(k),
            Ok(_) => {
                let f = fields[spec_field_index(fields, controller).unwrap()];
                match f.kind {
                    FieldKind::Scalar(s) => if !(s.value_type matches ValueType::Scalar(v)
                        && v.spec_is_unsigned_integer()) {
                        Err(ErrorKind::BitControllerNotFixedUnsigned)
                    } else if end >= s.wire_type.spec_width() * 8 {
                        Err(ErrorKind::BitControllerTooNarrow)
                    } else if spec_projection_overlaps(fields, controller, start, end) {
                        Err(ErrorKind::BitRangesOverlap)
                    } else {
                        Ok(())
                    },
                    _ => Err(ErrorKind::BitControllerNotFixedUnsigned),
                }
            },
        }
    }
}

fn projection_overlaps(fields: &Vec<Field>, controller: &String, start: u32, end: u32) -> (r: bool)
    ensures
        r == spec_projection_overlaps(fields@, controller@, start, end),
{
    let mut j: usize = 0;
    while j < fields.len()
        invariant
            j <= fields@.len(),
            forall|k: int|
                #![trigger fields@[k]]
                0 <= k < j ==> !(fields@[k].kind matches FieldKind::BitProjection(q)
                    && q.controller@ == controller@ && spec_ranges_overlap(start, end, q.start, q.end)),
        decreases fields.len() - j,
    {
        if let FieldKind::BitProjection(projection) = &fields[j].kind {
            if projection.controller == *controller && start <= projection.end && projection.start
                <= end {
                assert(spec_projection_overlaps(fields@, controller@, start, end));
                return true;
            }
        }
        j = j + 1;
    }
    false
}

#[verifier::rlimit(30)]
fn check_bit_controller(fields: &Vec<Field>, controller: &String, start: u32, end: u32) -> (r: Result<(), ErrorKind>)
    ensures
        r == spec_check_bit_controller(fields@, controller@, start, end),
{
    let index = match find_field(fields, controller) {
        Some(i) => i,
        None => return Err(ErrorKind::BitControllerNotEarlier),
    };
    validate_unsigned_controller(
        fields,
        fields.len(),
        controller,
        ControllerRole::BitProjection,
        false,
    )?;
    let scalar = match &fields[index].kind {
        FieldKind::Scalar(scalar) => scalar,
        _ => return Err(ErrorKind::BitControllerNotFixedUnsigned),
    };
    let fixed_unsigned = match scalar.value_type {
        ValueType::Scalar(v) => v.is_unsigned_integer(),
        _ => false,
    };
    if !fixed_unsigned {
        return Err(ErrorKind::BitControllerNotFixedUnsigned);
    }
    if (end as usize) >= scalar.wire_type.width() * 8 {
        return Err(ErrorKind::BitControllerTooNarrow);
    }
    if projection_overlaps(fields, controller, start, end) {
        return Err(ErrorKind::BitRangesOverlap);
    }
    Ok(())
}

/// Checks a bit projection of `controller` against the fields before it.
pub fn validate_bit_projection(
    fields: &Vec<Field>,
    value_type: Option<ValueType>,
    controller: &String,
    start: u32,
    end: u32,
    p: AttributePresence,
) -> (r: Result<(), ErrorKind>)
    ensures
        r == spec_check_bit_projection(fields@, value_type, controller@, start, end, p),
{
    if start > end {
        return Err(ErrorKind::BitStartAfterEnd);
    }
    if start == 0 && end == u32::MAX {
        return Err(ErrorKind::BitRangeOverflow);
    }
    let width = end - start + 1;
    let valid_logical = match value_type {
        Some(ValueType::Bool) => width == 1,
        Some(ValueType::Scalar(scalar)) => scalar.is_unsigned_integer() && (width as usize)
            <= scalar.width() * 8,
        Some(ValueType::Usize) => width <= usize::BITS,
        _ => false,
    };
    if !valid_logical {
        return Err(ErrorKind::BitProjectionType);
    }
    if p.endian || p.constant || p.representation || p.bytes || p.rest || p.counted_by
        || p.pad_before || p.align_before || p.position || p.condition {
        return Err(ErrorKind::BitProjectionAttributes);
    }
    check_bit_controller(fields, controller, start, end)
}

/// The inclusive bit range declared by `bit = N` or `bits = A..=B`.
pub open spec fn spec_bit_range(a: FieldAttributes) -> Option<(u32, u32)> {
    match a.bit {
        Some(b) => Some((b, b)),
        None => a.bits,
    }
}

/// The callback declared by `computed` or `try_computed`.
pub open spec fn spec_computed_of(a: FieldAttributes) -> Option<Computed> {
    match a.computed {
        Some(e) => Some(Computed { expression: e, fallible: false }),
        None => match a.try_computed {
            Some(e) => Some(Computed { expression: e, fallible: true }),
            None => None,
        },
    }
}

/// The wire type of a scalar field: the primitive itself, or the declared
/// `as` type, which `usize`, `bool` and `char` need unsigned and `isize`
/// signed.
pub open spec fn spec_wire_type(vt: ValueType, representation: Option<ScalarType>) -> Result<ScalarType, ErrorKind> {
    match vt {
        ValueType::Scalar(s) => if representation is Some {
            Err(ErrorKind::AsOnPrimitive)
        } else {
            Ok(s)
        },
        ValueType::Usize | ValueType::Bool | ValueType::Char => match representation {
            None => Err(ErrorKind::AsRequired),
            Some(w) => if !w.spec_is_unsigned_integer() {
                Err(ErrorKind::AsUnsignedRequired)
            } else {
                Ok(w)
            },
        },
        ValueType::Isize => match representation {
            None => Err(ErrorKind::IsizeAsRequired),
            Some(w) => if !w.spec_is_signed_integer() {
                Err(ErrorKind::IsizeSignedRequired)
            } else {
                Ok(w)
            },
        },
        ValueType::Custom => match representation {
            Some(w) => Ok(w),
            None => Err(ErrorKind::AsRequired),
        },
    }
}

pub open spec fn spec_endian_error(e: EndianError) -> ErrorKind {
    match e {
        EndianError::OneByteDeclared => ErrorKind::OneByteEndian,
        EndianError::Missing => ErrorKind::MissingEndian,
    }
}

/// A scalar field of logical type `vt`.
pub open spec fn spec_scalar_kind(
    vt: ValueType,
    endian: Option<Endian>,
    representation: Option<ScalarType>,
    constant: Option<WireExpr>,
    computed: Option<Computed>,
    p: AttributePresence,
) -> Result<FieldKind, ErrorKind> {
    if p.bytes || p.rest || p.counted_by {
        Err(ErrorKind::ScalarDynamicExtent)
    } else {
        match spec_wire_type(vt, representation) {
            Err(k) => Err(k),
            Ok(w) => if vt is Custom && constant is Some {
                Err(ErrorKind::CustomConstant)
            } else {
                match spec_scalar_endian(w, endian) {
                    Err(e) => Err(spec_endian_error(e)),
                    Ok(e) => if constant is Some && computed is Some {
                        Err(ErrorKind::ComputedConstant)
                    } else {
                        Ok(
                            FieldKind::Scalar(
                                Scalar { value_type: vt, wire_type: w, endian: e, constant, computed },
                            ),
                        )
                    },
                }
            },
        }
    }
}

fn wire_type_of(vt: ValueType, representation: Option<ScalarType>) -> (r: Result<ScalarType, ErrorKind>)
    ensures
        r == spec_wire_type(vt, representation),
{
    match vt {
        ValueType::Scalar(s) => {
            if representation.is_some() {
                Err(ErrorKind::AsOnPrimitive)
            } else {
                Ok(s)
            }
        },
        ValueType::Usize | ValueType::Bool | ValueType::Char => match representation {
            None => Err(ErrorKind::AsRequired),
            Some(w) => {
                if !w.is_unsigned_integer() {
                    Err(ErrorKind::AsUnsignedRequired)
                } else {
                    Ok(w)
                }
            },
        },
        ValueType::Isize => match representation {
            None => Err(ErrorKind::IsizeAsRequired),
            Some(w) => {
                if !w.is_signed_integer() {
                    Err(ErrorKind::IsizeSignedRequired)
                } else {
                    Ok(w)
                }
            },
        },
        ValueType::Custom => match representation {
            Some(w) => Ok(w),
            None => Err(ErrorKind::AsRequired),
        },
    }
}

fn endian_error(e: EndianError) -> (r: ErrorKind)
    ensures
        r == spec_endian_error(e),
{
    match e {
        EndianError::OneByteDeclared => ErrorKind::OneByteEndian,
        EndianError::Missing => ErrorKind::MissingEndian,
    }
}

fn scalar_kind(
    vt: ValueType,
    endian: Option<Endian>,
    representation: Option<ScalarType>,
    constant: Option<WireExpr>,
    computed: Option<Computed>,
    p: AttributePresence,
) -> (r: Result<FieldKind, ErrorKind>)
    ensures
        r == spec_scalar_kind(vt, endian, representation, constant, computed, p),
{
    if p.bytes || p.rest || p.counted_by {
        return Err(ErrorKind::ScalarDynamicExtent);
    }
    let wire_type = wire_type_of(vt, representation)?;
    if matches!(vt, ValueType::Custom) && constant.is_some() {
        return Err(ErrorKind::CustomConstant);
    }
    let endian = match scalar_endian(wire_type, endian) {
        Ok(e) => e,
        Err(e) => return Err(endian_error(e)),
    };
    if constant.is_some() && computed.is_some() {
        return Err(ErrorKind::ComputedConstant);
    }
    Ok(FieldKind::Scalar(Scalar { value_type: vt, wire_type, endian, constant, computed }))
}

/// The element scalar of a fixed array type, or nothing when the type is not
/// an array; arrays of anything but a primitive scalar are refused.
pub open spec fn spec_fixed_array(ty: TypeShape) -> Result<Option<ScalarType>, ErrorKind> {
    match ty {
        TypeShape::Array { elem, len, .. } => match spec_primitive_name(*elem) {
            Some(n) => match ScalarType::spec_from_name(n) {
                Some(s) => Ok(Some(s)),
                None => Err(ErrorKind::FixedArrayNotPrimitive),
            },
            None => Err(ErrorKind::FixedArrayNotPrimitive),
        },
        _ => Ok(None),
    }
}

/// The element scalar of a fixed array type.
pub fn fixed_scalar_array(ty: &TypeShape) -> (r: Result<Option<ScalarType>, ErrorKind>)
    ensures
        r == spec_fixed_array(*ty),
{
    match ty {
        TypeShape::Array { elem, len, .. } => {
            let element = match primitive_name(elem) {
                Some(n) => ScalarType::from_name(n.as_str()),
                None => None,
            };
            match element {
                Some(s) => Ok(Some(s)),
                None => Err(ErrorKind::FixedArrayNotPrimitive),
            }
        },
        _ => Ok(None),
    }
}

/// A fixed array field of `element`: `[u8; N]` is a byte field that may be a
/// constant; other primitives need a byte order and take no `as`, constant
/// or callback.
pub open spec fn spec_array_kind(
    element: ScalarType,
    endian: Option<Endian>,
    constant: Option<WireExpr>,
    p: AttributePresence,
) -> Result<FieldKind, ErrorKind> {
    if p.bytes || p.rest || p.counted_by {
        Err(ErrorKind::FixedArrayDynamicExtent)
    } else if element is U8 {
        if p.endian || p.representation {
            Err(ErrorKind::ByteArrayEndianOrAs)
        } else if p.computed {
            Err(ErrorKind::ComputedNotScalar)
        } else {
            Ok(FieldKind::Bytes(FixedBytes { constant }))
        }
    } else if p.representation || p.constant || p.computed {
        Err(ErrorKind::ScalarArrayAttributes)
    } else {
        match spec_scalar_endian(element, endian) {
            Err(e) => Err(spec_endian_error(e)),
            Ok(e) => Ok(FieldKind::ScalarArray(FixedScalarArray { element, endian: e })),
        }
    }
}

fn array_kind(
    element: ScalarType,
    endian: Option<Endian>,
    constant: Option<WireExpr>,
    p: AttributePresence,
) -> (r: Result<FieldKind, ErrorKind>)
    ensures
        r == spec_array_kind(element, endian, constant, p),
{
    if p.bytes || p.rest || p.counted_by {
        return Err(ErrorKind::FixedArrayDynamicExtent);
    }
    if matches!(element, ScalarType::U8) {
        if p.endian || p.representation {
            return Err(ErrorKind::ByteArrayEndianOrAs);
        }
        if p.computed {
            return Err(ErrorKind::ComputedNotScalar);
        }
        return Ok(FieldKind::Bytes(FixedBytes { constant }));
    }
    if p.representation || p.constant || p.computed {
        return Err(ErrorKind::ScalarArrayAttributes);
    }
    match scalar_endian(element, endian) {
        Ok(e) => Ok(FieldKind::ScalarArray(FixedScalarArray { element, endian: e })),
        Err(e) => Err(endian_error(e)),
    }
}

/// A field whose type is neither a scalar nor a fixed array:
/// `wire::Recursive<T>`, `wire::Array<T>`, `wire::Bytes`, or a nested schema.
pub open spec fn spec_other_kind(
    ty: TypeShape,
    bytes: Option<String>,
    counted_by: Option<String>,
    index: usize,
    count: usize,
    p: AttributePresence,
) -> Result<FieldKind, ErrorKind> {
    if spec_marker_item(ty, recursive_marker()) is Some {
        if p.endian || p.representation || p.constant || p.computed || p.bytes || p.rest
            || p.counted_by || p.condition || p.position || p.pad_before || p.align_before {
            Err(ErrorKind::RecursiveAttributes)
        } else {
            Ok(FieldKind::Recursive)
        }
    } else if spec_marker_item(ty, array_marker()) is Some {
        if p.endian || p.representation || p.constant || p.bytes || p.rest {
            Err(ErrorKind::ArrayAttributes)
        } else {
            match counted_by {
                Some(c) => Ok(FieldKind::Array(ArrayField { controller: c })),
                None => Err(ErrorKind::ArrayNeedsCountedBy),
            }
        }
    } else if spec_is_raw_bytes(ty) {
        if p.endian || p.representation || p.constant || p.counted_by {
            Err(ErrorKind::RawBytesAttributes)
        } else {
            match bytes {
                Some(c) => if p.rest {
                    Err(ErrorKind::BytesAndRest)
                } else {
                    Ok(FieldKind::RawBytes(DynamicExtent::Bounded(c)))
                },
                None => if p.rest {
                    Ok(FieldKind::RawBytes(DynamicExtent::Rest))
                } else {
                    Err(ErrorKind::RawBytesNeedsExtent)
                },
            }
        }
    } else if p.endian || p.constant || p.representation || p.rest || p.counted_by {
        Err(ErrorKind::NestedAttributes)
    } else {
        Ok(FieldKind::Nested(NestedField { terminal: index + 1 == count, extent: bytes }))
    }
}

fn other_kind(
    ty: &TypeShape,
    bytes: Option<String>,
    counted_by: Option<String>,
    index: usize,
    count: usize,
    p: AttributePresence,
) -> (r: Result<FieldKind, ErrorKind>)
    requires
        index < count,
    ensures
        r == spec_other_kind(*ty, bytes, counted_by, index, count, p),
{
    if recursive_item_type(ty).is_some() {
        if p.endian || p.representation || p.constant || p.computed || p.bytes || p.rest
            || p.counted_by || p.condition || p.position || p.pad_before || p.align_before {
            return Err(ErrorKind::RecursiveAttributes);
        }
        return Ok(FieldKind::Recursive);
    }
    if array_item_type(ty).is_some() {
        if p.endian || p.representation || p.constant || p.bytes || p.rest {
            return Err(ErrorKind::ArrayAttributes);
        }
        return match counted_by {
            Some(c) => Ok(FieldKind::Array(ArrayField { controller: c })),
            None => Err(ErrorKind::ArrayNeedsCountedBy),
        };
    }
    if is_raw_bytes(ty) {
        if p.endian || p.representation || p.constant || p.counted_by {
            return Err(ErrorKind::RawBytesAttributes);
        }
        return match bytes {
            Some(c) => {
                if p.rest {
                    Err(ErrorKind::BytesAndRest)
                } else {
                    Ok(FieldKind::RawBytes(DynamicExtent::Bounded(c)))
                }
            },
            None => {
                if p.rest {
                    Ok(FieldKind::RawBytes(DynamicExtent::Rest))
                } else {
                    Err(ErrorKind::RawBytesNeedsExtent)
                }
            },
        };
    }
    if p.endian || p.constant || p.representation || p.rest || p.counted_by {
        return Err(ErrorKind::NestedAttributes);
    }
    Ok(FieldKind::Nested(NestedField { terminal: index + 1 == count, extent: bytes }))
}

/// What kind of field a declaration is, once its placement is accepted.
pub open spec fn spec_kind(
    ty: TypeShape,
    a: FieldAttributes,
    index: usize,
    count: usize,
    parsed: Seq<Field>,
) -> Result<FieldKind, ErrorKind> {
    let vt = spec_value_type(ty, a.representation);
    let p = spec_presence(a);
    let computed = spec_computed_of(a);
    if computed is Some && vt is None {
        Err(ErrorKind::ComputedNotScalar)
    } else if computed is Some && a.bits_of is Some {
        Err(ErrorKind::ComputedBitProjection)
    } else if a.bits_of is Some {
        match spec_bit_range(a) {
            None => Err(ErrorKind::BitsOfWithoutRange),
            Some((start, end)) => match spec_check_bit_projection(
                parsed,
                vt,
                a.bits_of.unwrap()@,
                start,
                end,
                p,
            ) {
                Err(k) => Err(k),
                Ok(_) => Ok(
                    FieldKind::BitProjection(
                        BitProjection { controller: a.bits_of.unwrap(), start, end },
                    ),
                ),
            },
        }
    } else if spec_bit_range(a) is Some {
        Err(ErrorKind::BitWithoutBitsOf)
    } else if a.flag is Some {
        if vt != Some(ValueType::Bool) || p.endian || p.constant || p.representation || p.bytes
            || p.rest || p.pad_before || p.align_before || p.position || p.condition
            || p.counted_by {
            Err(ErrorKind::FlagNotPlainBool)
        } else {
            Ok(FieldKind::Flag(a.flag.unwrap()))
        }
    } else if vt is Some {
        spec_scalar_kind(vt.unwrap(), a.endian, a.representation, a.constant, computed, p)
    } else {
        match spec_fixed_array(ty) {
            Err(k) => Err(k),
            Ok(Some(element)) => spec_array_kind(element, a.endian, a.constant, p),
            Ok(None) => spec_other_kind(ty, a.bytes, a.counted_by, index, count, p),
        }
    }
}

/// Where `at` places the field, classified against the earlier fields.
pub open spec fn spec_layout_position(a: FieldAttributes, parsed: Seq<Field>) -> Option<Position> {
    match a.position {
        Some(e) => Some(spec_classify_position(e, parsed)),
        None => None,
    }
}

/// The placement a declaration gives its field.
pub open spec fn spec_layout(a: FieldAttributes, parsed: Seq<Field>) -> FieldLayout {
    FieldLayout {
        pad_before: a.pad_before,
        align_before: a.align_before,
        position: spec_layout_position(a, parsed),
        condition: a.condition,
    }
}

/// The field kind a declaration yields, or why it is refused: `bytes` and
/// `rest` exclude each other, `rest` only ends a schema, placement follows
/// [`spec_check_layout`], and the kind follows [`spec_kind`].
pub open spec fn spec_normalize(
    ty: TypeShape,
    a: FieldAttributes,
    index: usize,
    count: usize,
    parsed: Seq<Field>,
    preceding: Seq<SizeTerm>,
) -> Result<FieldKind, ErrorKind> {
    if a.bytes is Some && a.rest {
        Err(ErrorKind::BytesAndRest)
    } else if a.rest && index + 1 != count {
        Err(ErrorKind::RestNotLast)
    } else {
        match spec_check_layout(
            spec_layout_position(a, parsed),
            a.pad_before is Some,
            a.align_before,
            preceding,
            parsed,
        ) {
            Err(k) => Err(k),
            Ok(_) => spec_kind(ty, a, index, count, parsed),
        }
    }
}

/// Whether a field ends the run of statically placed fields: it is bounded
/// nested, dynamic, or placed by padding, alignment, position or condition.
pub open spec fn spec_resets_static(kind: FieldKind, layout: FieldLayout, index: usize) -> bool {
    (kind matches FieldKind::Nested(n) && n.extent is Some) || kind.spec_size_term(index) is Dynamic
        || layout.spec_has_geometry()
}

/// The offset terms of the field after one at `index`.
pub open spec fn spec_next_terms(
    preceding: Seq<SizeTerm>,
    kind: FieldKind,
    layout: FieldLayout,
    index: usize,
) -> Seq<SizeTerm> {
    if spec_resets_static(kind, layout, index) {
        seq![SizeTerm::Dynamic]
    } else {
        preceding.push(kind.spec_size_term(index))
    }
}

#[verifier::rlimit(30)]
fn field_kind(
    ty: &TypeSyntax,
    endian: Option<Endian>,
    constant: Option<WireExpr>,
    representation: Option<ScalarType>,
    bytes: Option<String>,
    flag: Option<String>,
    counted_by: Option<String>,
    bits_of: Option<String>,
    bit_range: Option<(u32, u32)>,
    computed: Option<Computed>,
    p: AttributePresence,
    index: usize,
    field_count: usize,
    parsed: &Vec<Field>,
    Ghost(a): Ghost<FieldAttributes>,
) -> (r: Result<FieldKind, ErrorKind>)
    requires
        index < field_count,
        endian == a.endian,
        constant == a.constant,
        representation == a.representation,
        bytes == a.bytes,
        flag == a.flag,
        counted_by == a.counted_by,
        bits_of == a.bits_of,
        bit_range == spec_bit_range(a),
        computed == spec_computed_of(a),
        p == spec_presence(a),
    ensures
        r == spec_kind(ty.shape, a, index, field_count, parsed@),
{
    let value_type = value_type_of(&ty.shape, representation);
    if computed.is_some() && value_type.is_none() {
        return Err(ErrorKind::ComputedNotScalar);
    }
    if computed.is_some() && bits_of.is_some() {
        return Err(ErrorKind::ComputedBitProjection);
    }
    if let Some(controller) = bits_of {
        let (start, end) = match bit_range {
            Some(range) => range,
            None => return Err(ErrorKind::BitsOfWithoutRange),
        };
        validate_bit_projection(parsed, value_type, &controller, start, end, p)?;
        Ok(FieldKind::BitProjection(BitProjection { controller, start, end }))
    } else if bit_range.is_some() {
        return Err(ErrorKind::BitWithoutBitsOf);
    } else if let Some(controller) = flag {
        let plain_bool = match value_type {
            Some(ValueType::Bool) => true,
            _ => false,
        };
        if !plain_bool || p.endian || p.constant || p.representation || p.bytes || p.rest
            || p.pad_before || p.align_before || p.position || p.condition || p.counted_by {
            return Err(ErrorKind::FlagNotPlainBool);
        }
        Ok(FieldKind::Flag(controller))
    } else if let Some(vt) = value_type {
        scalar_kind(vt, endian, representation, constant, computed, p)
    } else {
        match fixed_scalar_array(&ty.shape)? {
            Some(element) => array_kind(element, endian, constant, p),
            None => other_kind(&ty.shape, bytes, counted_by, index, field_count, p),
        }
    }
}

/// Reads the field declared at `index` of `field_count`, after the fields in
/// `parsed`, whose static offset terms are `preceding`. On success the field
/// is placed at `preceding`, which becomes the terms of the next field.
pub fn normalize_field(
    name: String,
    ty: TypeSyntax,
    attributes: FieldAttributes,
    index: usize,
    field_count: usize,
    parsed: &Vec<Field>,
    preceding: &mut Vec<SizeTerm>,
) -> (r: Result<Field, ErrorKind>)
    requires
        index < field_count,
        !(attributes.bit is Some && attributes.bits is Some),
        !(attributes.computed is Some && attributes.try_computed is Some),
    ensures
        match spec_normalize(ty.shape, attributes, index, field_count, parsed@, old(preceding)@) {
            Err(k) => r == Err::<Field, ErrorKind>(k) && final(preceding)@ == old(preceding)@,
            Ok(kind) => r matches Ok(f) && f.name == name && f.ty == ty && f.kind == kind
                && f.layout == spec_layout(attributes, parsed@) && f.offset.terms@ == old(
                preceding,
            )@ && final(preceding)@ == spec_next_terms(
                old(preceding)@,
                kind,
                f.layout,
                index,
            ),
        },
        r is Err ==> final(preceding)@ == old(preceding)@,
        r matches Ok(f) ==> f.offset.terms@ == old(preceding)@ && if spec_resets_static(f.kind, f.layout, index) {
            final(preceding)@ == seq![SizeTerm::Dynamic]
        } else {
            final(preceding)@ == old(preceding)@.push(f.kind.spec_size_term(index))
        },
{
    let ghost a = attributes;
    let p = AttributePresence {
        endian: attributes.endian.is_some(),
        constant: attributes.constant.is_some(),
        representation: attributes.representation.is_some(),
        bytes: attributes.bytes.is_some(),
        rest: attributes.rest,
        counted_by: attributes.counted_by.is_some(),
        computed: attributes.computed.is_some() || attributes.try_computed.is_some(),
        pad_before: attributes.pad_before.is_some(),
        align_before: attributes.align_before.is_some(),
        position: attributes.position.is_some(),
        condition: attributes.condition.is_some(),
    };
    let FieldAttributes {
        endian,
        constant,
        representation,
        bytes,
        rest,
        pad_before,
        align_before,
        position,
        flag,
        condition,
        counted_by,
        bits_of,
        bit,
        bits,
        computed,
        try_computed,
    } = attributes;
    if bytes.is_some() && rest {
        return Err(ErrorKind::BytesAndRest);
    }
    if rest && index + 1 != field_count {
        return Err(ErrorKind::RestNotLast);
    }
    let position = match position {
        Some(e) => Some(classify_position(e, parsed)),
        None => None,
    };
    validate_field_layout(&position, pad_before.is_some(), &align_before, preceding, parsed)?;
    let layout = FieldLayout { pad_before, align_before, position, condition };
    let bit_range = match bit {
        Some(b) => Some((b, b)),
        None => bits,
    };
    let computed = match computed {
        Some(expression) => Some(Computed { expression, fallible: false }),
        None => match try_computed {
            Some(expression) => Some(Computed { expression, fallible: true }),
            None => None,
        },
    };
    let kind = field_kind(
        &ty,
        endian,
        constant,
        representation,
        bytes,
        flag,
        counted_by,
        bits_of,
        bit_range,
        computed,
        p,
        index,
        field_count,
        parsed,
        Ghost(a),
    )?;
    let offset = LayoutOffset { terms: preceding.clone() };
    let bounded_nested = match &kind {
        FieldKind::Nested(nested) => nested.extent.is_some(),
        _ => false,
    };
    let size = kind.size_term(index);
    let resets_static_geometry = bounded_nested || matches!(size, SizeTerm::Dynamic)
        || layout.pad_before.is_some() || layout.align_before.is_some()
        || layout.position.is_some() || layout.condition.is_some();
    if resets_static_geometry {
        preceding.clear();
        preceding.push(SizeTerm::Dynamic);
    } else {
        preceding.push(size);
    }
    Ok(Field { name, ty, kind, layout, offset })
}

} // verus!
