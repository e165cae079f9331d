//! The rules for a recursive demand body: an unsigned controller, a left
//! child, bytes bounded by the controller, a fixed scalar and a right child.

use vstd::prelude::*;
use crate::errors::{ErrorKind, SchemaError};
use crate::model::{DynamicExtent, Field, FieldKind, Schema};
use crate::syntax::{recursive_item_type, recursive_marker, spec_marker_item, spec_type_is_parameter, type_is_parameter};

verus! {

/// The positions of the five parts of a recursive demand body.
#[derive(Clone, Copy, Debug, PartialEq, Eq, Structural)]
pub struct Demand {
    pub controller: usize,
    pub left: usize,
    pub bytes: usize,
    pub scalar: usize,
    pub right: usize,
}

/// Whether a field continues the recursion through the root parameter itself.
pub open spec fn spec_child_of_root(f: Field, root: Seq<char>) -> bool {
    spec_marker_item(f.ty.shape, recursive_marker()) matches Some(t) && spec_type_is_parameter(t, root)
}

/// Whether no field is conditional or placed, and only the scalar (field 3)
/// has padding or alignment before it.
pub open spec fn spec_demand_placement_ok(fields: Seq<Field>) -> bool {
    &&& forall|i: int| 0 <= i < fields.len() ==> (#[trigger] fields[i]).layout.condition is None
        && fields[i].layout.position is None
    &&& forall|i: int| 0 <= i < fields.len() && i != 3 ==> (#[trigger] fields[i]).layout.pad_before is None
        && fields[i].layout.align_before is None
}

/// The error at part `i` of the body.
pub open spec fn at_part(i: usize, kind: ErrorKind) -> Result<Demand, SchemaError> {
    Err(SchemaError { field: Some(i), kind, subject: None })
}

/// The error about the whole body.
pub open spec fn whole(kind: ErrorKind) -> Result<Demand, SchemaError> {
    Err(SchemaError { field: None, kind, subject: None })
}

/// The outcome of checking a recursive demand body, rule by rule in order.
pub open spec fn spec_demand_check(s: Schema, root: Seq<char>) -> Result<Demand, SchemaError> {
    let f = s.fields@;
    if s.validators@.len() > 0 || f.len() != 5 {
        whole(ErrorKind::DemandShape)
    } else if !(f[0].kind is Scalar) {
        at_part(0, ErrorKind::DemandControllerNotScalar)
    } else if ({
        let c = f[0].kind->Scalar_0;
        !c.wire_type.spec_is_unsigned_integer() || c.value_type.spec_is_converted() || c.constant is Some
            || c.computed is Some
    }) {
        at_part(0, ErrorKind::DemandControllerNotStored)
    } else if !(f[1].kind is Recursive) {
        at_part(1, ErrorKind::DemandLeftNotRecursive)
    } else if !(f[2].kind matches FieldKind::RawBytes(DynamicExtent::Bounded(_))) {
        at_part(2, ErrorKind::DemandBytesNotBounded)
    } else if !(f[3].kind is Scalar) {
        at_part(3, ErrorKind::DemandScalarMissing)
    } else if ({
        let c = f[3].kind->Scalar_0;
        c.value_type.spec_is_converted() || c.constant is Some || c.computed is Some
    }) {
        at_part(3, ErrorKind::DemandScalarNotDirect)
    } else if !(f[4].kind is Recursive) {
        at_part(4, ErrorKind::DemandRightNotRecursive)
    } else if !spec_child_of_root(f[1], root) || !spec_child_of_root(f[4], root) {
        whole(ErrorKind::DemandChildRoot)
    } else if f[0].name@ != f[2].kind->RawBytes_0->Bounded_0@ {
        Err(
            SchemaError {
                field: Some(2),
                kind: ErrorKind::DemandBytesController,
                subject: Some(f[2].kind->RawBytes_0->Bounded_0),
            },
        )
    } else if !spec_demand_placement_ok(f) {
        whole(ErrorKind::DemandPlacement)
    } else {
        Ok(Demand { controller: 0, left: 1, bytes: 2, scalar: 3, right: 4 })
    }
}

fn child_of_root(f: &Field, root: &String) -> (r: bool)
    ensures
        r == spec_child_of_root(*f, root@),
{
    match recursive_item_type(&f.ty.shape) {
        Some(t) => type_is_parameter(t, root),
        None => false,
    }
}

/// Checks a recursive demand body against the recursion root `root`.
pub fn validate(schema: &Schema, root: &String) -> (r: Result<Demand, SchemaError>)
    ensures
        r == spec_demand_check(*schema, root@),
{
    if schema.validators.len() > 0 || schema.fields.len() != 5 {
        return Err(SchemaError { field: None, kind: ErrorKind::DemandShape, subject: None });
    }
    let f = &schema.fields;
    let controller_scalar = match &f[0].kind {
        FieldKind::Scalar(s) => s,
        _ => return Err(SchemaError { field: Some(0), kind: ErrorKind::DemandControllerNotScalar, subject: None }),
    };
    if !controller_scalar.wire_type.is_unsigned_integer() || controller_scalar.value_type.is_converted()
        || controller_scalar.constant.is_some() || controller_scalar.computed.is_some() {
        return Err(SchemaError { field: Some(0), kind: ErrorKind::DemandControllerNotStored, subject: None });
    }
    if !matches!(f[1].kind, FieldKind::Recursive) {
        return Err(SchemaError { field: Some(1), kind: ErrorKind::DemandLeftNotRecursive, subject: None });
    }
    let controller = match &f[2].kind {
        FieldKind::RawBytes(DynamicExtent::Bounded(c)) => c,
        _ => return Err(SchemaError { field: Some(2), kind: ErrorKind::DemandBytesNotBounded, subject: None }),
    };
    let scalar_field = match &f[3].kind {
        FieldKind::Scalar(s) => s,
        _ => return Err(SchemaError { field: Some(3), kind: ErrorKind::DemandScalarMissing, subject: None }),
    };
    if scalar_field.value_type.is_converted() || scalar_field.constant.is_some()
        || scalar_field.computed.is_some() {
        return Err(SchemaError { field: Some(3), kind: ErrorKind::DemandScalarNotDirect, subject: None });
    }
    if !matches!(f[4].kind, FieldKind::Recursive) {
        return Err(SchemaError { field: Some(4), kind: ErrorKind::DemandRightNotRecursive, subject: None });
    }
    if !child_of_root(&f[1], root) || !child_of_root(&f[4], root) {
        return Err(SchemaError { field: None, kind: ErrorKind::DemandChildRoot, subject: None });
    }
    if f[0].name != *controller {
        return Err(SchemaError { field: Some(2), kind: ErrorKind::DemandBytesController, subject: Some(controller.clone()) });
    }
    assert(spec_demand_check(*schema, root@) == if spec_demand_placement_ok(f@) {
        Ok::<Demand, SchemaError>(Demand { controller: 0, left: 1, bytes: 2, scalar: 3, right: 4 })
    } else {
        whole(ErrorKind::DemandPlacement)
    });
    let mut i: usize = 0;
    while i < 5
        invariant
            spec_demand_check(*schema, root@) == if spec_demand_placement_ok(f@) {
                Ok::<Demand, SchemaError>(Demand { controller: 0, left: 1, bytes: 2, scalar: 3, right: 4 })
            } else {
                whole(ErrorKind::DemandPlacement)
            },
            *f == schema.fields,
            i <= 5,
            f@.len() == 5,
            forall|j: int| 0 <= j < i ==> (#[trigger] f@[j]).layout.condition is None && f@[j].layout.position is None,
            forall|j: int| 0 <= j < i && j != 3 ==> (#[trigger] f@[j]).layout.pad_before is None
                && f@[j].layout.align_before is None,
        decreases 5 - i,
    {
        let field = &f[i];
        if field.layout.condition.is_some() || field.layout.position.is_some() || (i != 3 && (
        field.layout.pad_before.is_some() || field.layout.align_before.is_some())) {
            return Err(SchemaError { field: None, kind: ErrorKind::DemandPlacement, subject: None });
        }
        i = i + 1;
    }
    Ok(Demand { controller: 0, left: 1, bytes: 2, scalar: 3, right: 4 })
}

} // verus!
