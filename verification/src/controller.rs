//! The shared rule for a field that controls a later field's length,
//! position, item count or bits.

use vstd::prelude::*;
use crate::errors::{ControllerRole, ErrorKind};
use crate::model::{Field, FieldKind, find_field, has_dynamic, spec_field_index, spec_has_dynamic};
use crate::scalar::{ScalarType, ValueType};

verus! {

/// Whether a logical type is an unsigned integer a controller may have.
pub open spec fn spec_is_unsigned_value(v: ValueType) -> bool {
    match v {
        ValueType::Scalar(s) => s.spec_is_unsigned_integer(),
        ValueType::Usize => true,
        _ => false,
    }
}

/// The rule a controller of the field at `dependent` obeys: it is a field,
/// physically earlier, placed without padding, alignment, position or
/// condition (and, unless `allow_dynamic_offset`, at a static offset), a
/// stored unsigned integer scalar, and not a constant.
pub open spec fn spec_check_unsigned_controller(
    fields: Seq<Field>,
    dependent: int,
    controller: Seq<char>,
    role: ControllerRole,
    allow_dynamic_offset: bool,
) -> Result<(), ErrorKind> {
    match spec_field_index(fields, controller) {
        None => Err(ErrorKind::ControllerUnknown { role }),
        Some(i) => if i >= dependent {
            Err(ErrorKind::ControllerNotEarlier { role })
        } else {
            let f = fields[i];
            if f.layout.spec_has_geometry() || (!allow_dynamic_offset && spec_has_dynamic(
                f.offset.terms@,
            )) {
                Err(ErrorKind::ControllerGeometry { role })
            } else {
                match f.kind {
                    FieldKind::Scalar(s) => if !s.wire_type.spec_is_unsigned_integer()
                        || !spec_is_unsigned_value(s.value_type) {
                        Err(ErrorKind::ControllerNotUnsigned { role })
                    } else if s.constant is Some {
                        Err(ErrorKind::ControllerConstant { role })
                    } else {
                        Ok(())
                    },
                    _ => Err(ErrorKind::ControllerNotInteger { role }),
                }
            }
        },
    }
}

/// Whether `controller` may control the field at `dependent` in `role`.
pub fn validate_unsigned_controller(
    fields: &Vec<Field>,
    dependent: usize,
    controller: &String,
    role: ControllerRole,
    allow_dynamic_offset: bool,
) -> (r: Result<(), ErrorKind>)
    ensures
        r == spec_check_unsigned_controller(
            fields@,
            dependent as int,
            controller@,
            role,
            allow_dynamic_offset,
        ),
{
    let index = match find_field(fields, controller) {
        Some(i) => i,
        None => return Err(ErrorKind::ControllerUnknown { role }),
    };
    if index >= dependent {
        return Err(ErrorKind::ControllerNotEarlier { role });
    }
    let field = &fields[index];
    if field.layout.pad_before.is_some() || field.layout.align_before.is_some()
        || field.layout.position.is_some() || field.layout.condition.is_some() || (
    !allow_dynamic_offset && has_dynamic(&field.offset.terms)) {
        return Err(ErrorKind::ControllerGeometry { role });
    }
    let scalar = match &field.kind {
        FieldKind::Scalar(scalar) => scalar,
        _ => return Err(ErrorKind::ControllerNotInteger { role }),
    };
    let unsigned_value = match scalar.value_type {
        ValueType::Scalar(s) => s.is_unsigned_integer(),
        ValueType::Usize => true,
        _ => false,
    };
    if !scalar.wire_type.is_unsigned_integer() || !unsigned_value {
        return Err(ErrorKind::ControllerNotUnsigned { role });
    }
    if scalar.constant.is_some() {
        return Err(ErrorKind::ControllerConstant { role });
    }
    Ok(())
}

} // verus!
