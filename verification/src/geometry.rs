//! Which field boundaries a view keeps at run time, rather than computing
//! them from static offsets.

use vstd::prelude::*;
use crate::model::{FieldKind, Schema, spec_has_explicit_geometry};

verus! {

/// Whether the view keeps where field `index` starts: the schema has
/// run-time geometry and the field is padded, aligned or placed.
pub open spec fn spec_retains_geometry_start(s: Schema, index: int) -> bool {
    let f = s.fields@[index];
    spec_has_explicit_geometry(s.fields@) && (f.layout.pad_before is Some || f.layout.align_before is Some
        || f.layout.position is Some)
}

/// Whether the view keeps where field `index` starts.
pub fn retains_geometry_start(schema: &Schema, index: usize) -> (r: bool)
    requires
        index < schema.fields@.len(),
    ensures
        r == spec_retains_geometry_start(*schema, index as int),
{
    let f = &schema.fields[index];
    schema.has_explicit_geometry() && (f.layout.pad_before.is_some() || f.layout.align_before.is_some()
        || f.layout.position.is_some())
}

/// Whether the view keeps where field `index` ends: the schema has run-time
/// geometry, the field is not a flag, and it is dynamic, nested,
/// conditional, padded, aligned or placed.
pub open spec fn spec_retains_geometry_end(s: Schema, index: int) -> bool {
    let f = s.fields@[index];
    &&& spec_has_explicit_geometry(s.fields@)
    &&& !(f.kind is Flag)
    &&& (f.kind is RawBytes || f.kind is Array || f.kind is Nested || f.layout.spec_has_geometry())
}

/// Whether the view keeps where field `index` ends.
pub fn retains_geometry_end(schema: &Schema, index: usize) -> (r: bool)
    requires
        index < schema.fields@.len(),
    ensures
        r == spec_retains_geometry_end(*schema, index as int),
{
    if !schema.has_explicit_geometry() {
        return false;
    }
    let f = &schema.fields[index];
    if matches!(f.kind, FieldKind::Flag(_)) {
        return false;
    }
    matches!(f.kind, FieldKind::RawBytes(_) | FieldKind::Array(_) | FieldKind::Nested(_))
        || f.layout.condition.is_some() || f.layout.pad_before.is_some() || f.layout.align_before.is_some()
        || f.layout.position.is_some()
}

} // verus!
