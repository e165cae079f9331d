//! Whole-schema rules: each dependency controller plays one role, flags lead
//! contiguous conditional groups, and computed fields stay out of geometry.

use vstd::prelude::*;
use crate::computed::{spec_greedy, spec_covers, spec_names_check, spec_stuck, validate_computed_dependencies};
use crate::controller::{spec_check_unsigned_controller, validate_unsigned_controller};
use crate::errors::{ControllerRole, ErrorKind, SchemaError};
use crate::model::{
    DynamicExtent, Field, FieldKind, Position, find_field, has_dynamic, spec_field_index,
    spec_has_dynamic, spec_is_bit_controller, spec_is_count_controller, spec_is_length_controller,
    spec_is_presence_controller,
};
use crate::scalar::ValueType;
use crate::text::{lemma_text_lt_transitive, spec_text_lt, text_lt};

verus! {

/// The error for field `i`.
pub open spec fn at(i: int, kind: ErrorKind, subject: Option<String>) -> Option<SchemaError> {
    Some(SchemaError { field: Some(i as usize), kind, subject })
}

/// Whether some field is placed by `at = name`.
pub open spec fn spec_is_position_controller(fields: Seq<Field>, name: Seq<char>) -> bool {
    exists|k: int|
        #![trigger fields[k]]
        0 <= k < fields.len() && (fields[k].layout.position matches Some(Position::Field(c)) && c@ == name)
}

/// The dependency roles a field name plays.
#[derive(Clone, Copy, Debug, PartialEq, Eq, Structural)]
pub struct Roles {
    pub length: bool,
    pub count: bool,
    pub presence: bool,
    pub bits: bool,
    pub position: bool,
}

pub open spec fn spec_roles(fields: Seq<Field>, name: Seq<char>) -> Roles {
    Roles {
        length: spec_is_length_controller(fields, name),
        count: spec_is_count_controller(fields, name),
        presence: spec_is_presence_controller(fields, name),
        bits: spec_is_bit_controller(fields, name),
        position: spec_is_position_controller(fields, name),
    }
}

/// The dependency roles `name` plays among the fields.
pub fn roles_of(fields: &Vec<Field>, name: &String) -> (r: Roles)
    ensures
        r == spec_roles(fields@, name@),
{
    let mut r = Roles { length: false, count: false, presence: false, bits: false, position: false };
    let mut k: usize = 0;
    while k < fields.len()
        invariant
            k <= fields@.len(),
            r.length == exists|j: int| #![trigger fields@[j]] 0 <= j < k && fields@[j].kind.spec_length_controller() == Some(name@),
            r.count == exists|j: int| #![trigger fields@[j]] 0 <= j < k && (fields@[j].kind matches FieldKind::Array(a) && a.controller@ == name@),
            r.presence == exists|j: int| #![trigger fields@[j]] 0 <= j < k && (fields@[j].kind matches FieldKind::Flag(c) && c@ == name@),
            r.bits == exists|j: int| #![trigger fields@[j]] 0 <= j < k && (fields@[j].kind matches FieldKind::BitProjection(p) && p.controller@ == name@),
            r.position == exists|j: int| #![trigger fields@[j]] 0 <= j < k && (fields@[j].layout.position matches Some(Position::Field(c)) && c@ == name@),
        decreases fields.len() - k,
    {
        let f = &fields[k];
        if let Some(c) = f.kind.length_controller() {
            if *c == *name {
                r.length = true;
            }
        }
        match &f.kind {
            FieldKind::Array(a) => {
                if a.controller == *name {
                    r.count = true;
                }
            },
            FieldKind::Flag(c) => {
                if *c == *name {
                    r.presence = true;
                }
            },
            FieldKind::BitProjection(p) => {
                if p.controller == *name {
                    r.bits = true;
                }
            },
            _ => {},
        }
        if let Some(Position::Field(c)) = &f.layout.position {
            if *c == *name {
                r.position = true;
            }
        }
        k = k + 1;
    }
    r
}

// ---------------------------------------------------------------------------
// Computed destinations.

/// A computed destination is unconditional, unplaced, and at a static offset.
pub open spec fn spec_computed_placement_at(fields: Seq<Field>, i: int) -> Option<SchemaError> {
    let f = fields[i];
    if f.kind.spec_computed() is None {
        None
    } else if f.layout.condition is Some {
        at(i, ErrorKind::ComputedConditional, None)
    } else if f.layout.pad_before is Some || f.layout.align_before is Some || f.layout.position is Some {
        at(i, ErrorKind::ComputedPlacement, None)
    } else if spec_has_dynamic(f.offset.terms@) {
        at(i, ErrorKind::ComputedDynamicOffset, None)
    } else {
        None
    }
}

fn computed_placement_at(fields: &Vec<Field>, i: usize) -> (r: Option<SchemaError>)
    requires
        i < fields@.len(),
    ensures
        r == spec_computed_placement_at(fields@, i as int),
{
    let f = &fields[i];
    if f.kind.computed().is_none() {
        None
    } else if f.layout.condition.is_some() {
        Some(SchemaError { field: Some(i), kind: ErrorKind::ComputedConditional, subject: None })
    } else if f.layout.pad_before.is_some() || f.layout.align_before.is_some()
        || f.layout.position.is_some() {
        Some(SchemaError { field: Some(i), kind: ErrorKind::ComputedPlacement, subject: None })
    } else if has_dynamic(&f.offset.terms) {
        Some(SchemaError { field: Some(i), kind: ErrorKind::ComputedDynamicOffset, subject: None })
    } else {
        None
    }
}

/// A computed field controls no geometry: no length, count, presence, bits
/// or position depends on it.
pub open spec fn spec_computed_role_at(fields: Seq<Field>, i: int) -> Option<SchemaError> {
    if fields[i].kind.spec_computed() is None {
        None
    } else {
        let r = spec_roles(fields, fields[i].name@);
        if r.length || r.count || r.presence || r.bits || r.position {
            at(i, ErrorKind::ComputedControlsGeometry, None)
        } else {
            None
        }
    }
}

fn computed_role_at(fields: &Vec<Field>, i: usize) -> (r: Option<SchemaError>)
    requires
        i < fields@.len(),
    ensures
        r == spec_computed_role_at(fields@, i as int),
{
    if fields[i].kind.computed().is_none() {
        return None;
    }
    let r = roles_of(fields, &fields[i].name);
    if r.length || r.count || r.presence || r.bits || r.position {
        Some(SchemaError { field: Some(i), kind: ErrorKind::ComputedControlsGeometry, subject: None })
    } else {
        None
    }
}

// ---------------------------------------------------------------------------
// Flags and conditional groups.

/// The rules on a flag: its controller controls no other flag, and is an
/// earlier nonconstant `bool` scalar at a static offset, with no placement.
pub open spec fn spec_flag_at(fields: Seq<Field>, i: int) -> Option<SchemaError> {
    match fields[i].kind {
        FieldKind::Flag(c) => if exists|j: int|
            #![trigger fields[j]]
            0 <= j < i && (fields[j].kind matches FieldKind::Flag(c2) && c2@ == c@) {
            at(i, ErrorKind::PresenceControllerShared, Some(c))
        } else {
            match spec_field_index(fields, c@) {
                None => at(i, ErrorKind::FlagControllerUnknown, None),
                Some(ci) => if ci >= i {
                    at(i, ErrorKind::FlagControllerNotEarlier, None)
                } else {
                    match fields[ci].kind {
                        FieldKind::Scalar(s) => if s.value_type != ValueType::Bool || s.constant is Some {
                            at(i, ErrorKind::FlagControllerNotPlainBool, None)
                        } else if fields[ci].layout.spec_has_geometry() || spec_has_dynamic(
                            fields[ci].offset.terms@,
                        ) {
                            at(i, ErrorKind::PresenceControllerGeometry, None)
                        } else {
                            None
                        },
                        _ => at(i, ErrorKind::FlagControllerNotScalar, None),
                    }
                },
            }
        },
        _ => None,
    }
}

/// The rules on a field conditional on a flag: the flag is an earlier flag
/// field; the field has no placement of its own and is a direct,
/// nonconstant scalar.
pub open spec fn spec_condition_at(fields: Seq<Field>, i: int) -> Option<SchemaError> {
    match fields[i].layout.condition {
        None => None,
        Some(cond) => match spec_field_index(fields, cond@) {
            None => at(i, ErrorKind::ConditionUnknown, None),
            Some(fi) => if fi >= i || !(fields[fi].kind is Flag) {
                at(i, ErrorKind::ConditionNotEarlierFlag, None)
            } else if fields[i].layout.pad_before is Some || fields[i].layout.align_before is Some
                || fields[i].layout.position is Some {
                at(i, ErrorKind::ConditionalGeometry, None)
            } else {
                match fields[i].kind {
                    FieldKind::Scalar(s) => if s.constant is Some || s.value_type.spec_is_converted() {
                        at(i, ErrorKind::ConditionalNotDirect, None)
                    } else {
                        None
                    },
                    _ => at(i, ErrorKind::ConditionalNotScalar, None),
                }
            },
        },
    }
}

/// Whether field `k` is conditional on the field named `name`.
pub open spec fn spec_is_dependent(fields: Seq<Field>, k: int, name: Seq<char>) -> bool {
    fields[k].layout.condition matches Some(c) && c@ == name
}

/// Whether the fields conditional on `name` are exactly a nonempty run that
/// starts right after position `fi`.
pub open spec fn spec_contiguous_group(fields: Seq<Field>, fi: int, name: Seq<char>) -> bool {
    &&& fi + 1 < fields.len()
    &&& spec_is_dependent(fields, fi + 1, name)
    &&& forall|k: int| 0 <= k <= fi ==> !#[trigger] spec_is_dependent(fields, k, name)
    &&& forall|j: int, k: int|
        fi + 1 <= j <= k < fields.len() && #[trigger] spec_is_dependent(fields, k, name) ==> #[trigger] spec_is_dependent(fields, j, name)
}

/// The rule on a flag's group: it has dependents, and they follow it contiguously.
pub open spec fn spec_group_at(fields: Seq<Field>, i: int) -> Option<SchemaError> {
    if !(fields[i].kind is Flag) {
        None
    } else if !exists|k: int| 0 <= k < fields.len() && #[trigger] spec_is_dependent(fields, k, fields[i].name@) {
        at(i, ErrorKind::FlagWithoutDependents, None)
    } else if !spec_contiguous_group(fields, spec_field_index(fields, fields[i].name@)->Some_0, fields[i].name@) {
        at(i, ErrorKind::ConditionalNotContiguous, None)
    } else {
        None
    }
}

/// A flag whose group passes has its dependents as one run that starts at
/// the field right after the flag: that field is conditional on the flag,
/// no field up to the flag is, and every field between the flag and a
/// dependent is a dependent too.
pub proof fn law_group_follows_flag(fields: Seq<Field>, i: int)
    requires
        0 <= i < fields.len(),
        fields[i].kind is Flag,
        spec_group_at(fields, i) is None,
    ensures
        ({
            let fi = spec_field_index(fields, fields[i].name@)->Some_0;
            &&& fi + 1 < fields.len()
            &&& fields[fi + 1].layout.condition matches Some(c) && c@ == fields[i].name@
            &&& forall|k: int|
                #![trigger fields[k]]
                0 <= k < fields.len() && (fields[k].layout.condition matches Some(c) && c@ == fields[i].name@)
                    ==> fi < k && forall|j: int|
                    fi < j <= k ==> (#[trigger] fields[j].layout.condition matches Some(c2) && c2@
                        == fields[i].name@)
        }),
{
    let name = fields[i].name@;
    let fi = spec_field_index(fields, name)->Some_0;
    assert(spec_contiguous_group(fields, fi, name));
    assert forall|k: int|
        #![trigger fields[k]]
        0 <= k < fields.len() && (fields[k].layout.condition matches Some(c) && c@ == name) implies fi < k
        && forall|j: int| fi < j <= k ==> (#[trigger] fields[j].layout.condition matches Some(c2) && c2@ == name) by {
        assert(spec_is_dependent(fields, k, name));
        if k <= fi {
            assert(!spec_is_dependent(fields, k, name));
        }
        assert forall|j: int| fi < j <= k implies (#[trigger] fields[j].layout.condition matches Some(c2) && c2@
            == name) by {
            assert(spec_is_dependent(fields, j, name));
        }
    }
}

fn flag_at(fields: &Vec<Field>, i: usize) -> (r: Option<SchemaError>)
    requires
        i < fields@.len(),
    ensures
        r == spec_flag_at(fields@, i as int),
{
    let c = match &fields[i].kind {
        FieldKind::Flag(c) => c,
        _ => return None,
    };
    let mut j: usize = 0;
    while j < i
        invariant
            i < fields@.len(),
            fields@[i as int].kind == FieldKind::Flag(*c),
            j <= i,
            forall|k: int| #![trigger fields@[k]] 0 <= k < j ==> !(fields@[k].kind matches FieldKind::Flag(c2) && c2@ == c@),
        decreases i - j,
    {
        if let FieldKind::Flag(c2) = &fields[j].kind {
            if *c2 == *c {
                return Some(SchemaError { field: Some(i), kind: ErrorKind::PresenceControllerShared, subject: Some(c.clone()) });
            }
        }
        j = j + 1;
    }
    let ci = match find_field(fields, c) {
        Some(ci) => ci,
        None => return Some(SchemaError { field: Some(i), kind: ErrorKind::FlagControllerUnknown, subject: None }),
    };
    if ci >= i {
        return Some(SchemaError { field: Some(i), kind: ErrorKind::FlagControllerNotEarlier, subject: None });
    }
    let controller = &fields[ci];
    match &controller.kind {
        FieldKind::Scalar(s) => {
            if !matches!(s.value_type, ValueType::Bool) || s.constant.is_some() {
                return Some(SchemaError { field: Some(i), kind: ErrorKind::FlagControllerNotPlainBool, subject: None });
            }
        },
        _ => return Some(SchemaError { field: Some(i), kind: ErrorKind::FlagControllerNotScalar, subject: None }),
    }
    if controller.layout.pad_before.is_some() || controller.layout.align_before.is_some()
        || controller.layout.position.is_some() || controller.layout.condition.is_some()
        || has_dynamic(&controller.offset.terms) {
        return Some(SchemaError { field: Some(i), kind: ErrorKind::PresenceControllerGeometry, subject: None });
    }
    None
}

fn condition_at(fields: &Vec<Field>, i: usize) -> (r: Option<SchemaError>)
    requires
        i < fields@.len(),
    ensures
        r == spec_condition_at(fields@, i as int),
{
    let cond = match &fields[i].layout.condition {
        Some(c) => c,
        None => return None,
    };
    let fi = match find_field(fields, cond) {
        Some(fi) => fi,
        None => return Some(SchemaError { field: Some(i), kind: ErrorKind::ConditionUnknown, subject: None }),
    };
    if fi >= i || !matches!(fields[fi].kind, FieldKind::Flag(_)) {
        return Some(SchemaError { field: Some(i), kind: ErrorKind::ConditionNotEarlierFlag, subject: None });
    }
    let f = &fields[i];
    if f.layout.pad_before.is_some() || f.layout.align_before.is_some() || f.layout.position.is_some() {
        return Some(SchemaError { field: Some(i), kind: ErrorKind::ConditionalGeometry, subject: None });
    }
    match &f.kind {
        FieldKind::Scalar(s) => {
            if s.constant.is_some() || s.value_type.is_converted() {
                Some(SchemaError { field: Some(i), kind: ErrorKind::ConditionalNotDirect, subject: None })
            } else {
                None
            }
        },
        _ => Some(SchemaError { field: Some(i), kind: ErrorKind::ConditionalNotScalar, subject: None }),
    }
}

fn is_dependent(fields: &Vec<Field>, k: usize, name: &String) -> (r: bool)
    requires
        k < fields@.len(),
    ensures
        r == spec_is_dependent(fields@, k as int, name@),
{
    match &fields[k].layout.condition {
        Some(c) => *c == *name,
        None => false,
    }
}

fn group_at(fields: &Vec<Field>, i: usize) -> (r: Option<SchemaError>)
    requires
        i < fields@.len(),
    ensures
        r == spec_group_at(fields@, i as int),
{
    if !matches!(fields[i].kind, FieldKind::Flag(_)) {
        return None;
    }
    let name = &fields[i].name;
    let n = fields.len();
    // The first and last dependents.
    let mut first: Option<usize> = None;
    let mut last: usize = 0;
    let mut k: usize = 0;
    while k < n
        invariant
            n == fields@.len(),
            i < n,
            name == fields@[i as int].name,
            k <= n,
            first is None ==> forall|m: int| 0 <= m < k ==> !#[trigger] spec_is_dependent(fields@, m, name@),
            first matches Some(f) ==> f <= last < k && spec_is_dependent(fields@, f as int, name@)
                && spec_is_dependent(fields@, last as int, name@)
                && (forall|m: int| 0 <= m < f ==> !#[trigger] spec_is_dependent(fields@, m, name@))
                && (forall|m: int| last < m < k ==> !#[trigger] spec_is_dependent(fields@, m, name@)),
        decreases n - k,
    {
        if is_dependent(fields, k, name) {
            if first.is_none() {
                first = Some(k);
            }
            last = k;
        }
        k = k + 1;
    }
    let first = match first {
        Some(f) => f,
        None => return Some(SchemaError { field: Some(i), kind: ErrorKind::FlagWithoutDependents, subject: None }),
    };
    let fi = match find_field(fields, name) {
        Some(fi) => fi,
        None => {
            assert(fields@[i as int].name@ == name@);
            return None;
        },
    };
    if first != fi + 1 {
        proof {
            if spec_contiguous_group(fields@, fi as int, name@) {
                if first < fi + 1 {
                    assert(!spec_is_dependent(fields@, first as int, name@));
                } else {
                    assert(!spec_is_dependent(fields@, fi + 1, name@));
                }
            }
        }
        return Some(SchemaError { field: Some(i), kind: ErrorKind::ConditionalNotContiguous, subject: None });
    }
    let mut m: usize = first;
    while m <= last
        invariant
            n == fields@.len(),
            i < n,
            first == fi + 1,
            spec_field_index(fields@, name@) == Some(fi as int),
            fields@[i as int].kind is Flag,
            name == fields@[i as int].name,
            first <= m,
            last < n,
            spec_is_dependent(fields@, last as int, name@),
            forall|q: int| 0 <= q < first ==> !#[trigger] spec_is_dependent(fields@, q, name@),
            forall|q: int| last < q < n ==> !#[trigger] spec_is_dependent(fields@, q, name@),
            forall|q: int| first <= q < m ==> #[trigger] spec_is_dependent(fields@, q, name@),
            spec_is_dependent(fields@, first as int, name@),
        decreases last + 1 - m,
    {
        if !is_dependent(fields, m, name) {
            proof {
                assert(spec_is_dependent(fields@, first as int, name@));
                if spec_contiguous_group(fields@, fi as int, name@) {
                    assert(spec_is_dependent(fields@, last as int, name@));
                    assert(!spec_is_dependent(fields@, m as int, name@));
                }
            }
            return Some(SchemaError { field: Some(i), kind: ErrorKind::ConditionalNotContiguous, subject: None });
        }
        m = m + 1;
    }
    proof {
        assert forall|j: int, k2: int|
            fi + 1 <= j <= k2 < fields@.len() && #[trigger] spec_is_dependent(fields@, k2, name@) implies #[trigger] spec_is_dependent(fields@, j, name@) by {
            if k2 > last {
            } else {
                assert(first <= j <= last);
            }
        }
    }
    None
}

// ---------------------------------------------------------------------------
// Length, position and count controllers.

/// The string naming the field that bounds this kind's byte length.
pub open spec fn spec_length_controller_str(kind: FieldKind) -> Option<String> {
    match kind {
        FieldKind::RawBytes(DynamicExtent::Bounded(c)) => Some(c),
        FieldKind::Nested(n) => n.extent,
        _ => None,
    }
}

/// A length controller obeys the controller rule in the byte-length role.
pub open spec fn spec_length_at(fields: Seq<Field>, i: int) -> Option<SchemaError> {
    match spec_length_controller_str(fields[i].kind) {
        None => None,
        Some(c) => match spec_check_unsigned_controller(fields, i, c@, ControllerRole::ByteLength, false) {
            Err(k) => at(i, k, Some(c)),
            Ok(_) => None,
        },
    }
}

/// A position controller bounds no length and obeys the controller rule.
pub open spec fn spec_position_at(fields: Seq<Field>, i: int) -> Option<SchemaError> {
    match fields[i].layout.position {
        Some(Position::Field(c)) => if spec_is_length_controller(fields, c@) {
            at(i, ErrorKind::LengthAndPosition, Some(c))
        } else {
            match spec_check_unsigned_controller(fields, i, c@, ControllerRole::FieldPosition, false) {
                Err(k) => at(i, k, Some(c)),
                Ok(_) => None,
            }
        },
        _ => None,
    }
}

/// A count controller counts one array, is not conditional, plays no other
/// role, and obeys the controller rule (its offset may be dynamic).
pub open spec fn spec_array_at(fields: Seq<Field>, i: int) -> Option<SchemaError> {
    match fields[i].kind {
        FieldKind::Array(a) => {
            let c = a.controller;
            if exists|j: int|
                #![trigger fields[j]]
                0 <= j < i && (fields[j].kind matches FieldKind::Array(b) && b.controller@ == c@) {
                at(i, ErrorKind::CountControllerShared, Some(c))
            } else if fields[i].layout.condition is Some {
                at(i, ErrorKind::ArrayConditional, None)
            } else {
                let r = spec_roles(fields, c@);
                if r.length || r.presence || r.bits || r.position {
                    at(i, ErrorKind::CountControllerOtherRole, Some(c))
                } else {
                    match spec_check_unsigned_controller(fields, i, c@, ControllerRole::ItemCount, true) {
                        Err(k) => at(i, k, Some(c)),
                        Ok(_) => None,
                    }
                }
            }
        },
        _ => None,
    }
}

fn length_at(fields: &Vec<Field>, i: usize) -> (r: Option<SchemaError>)
    requires
        i < fields@.len(),
    ensures
        r == spec_length_at(fields@, i as int),
{
    let c = match &fields[i].kind {
        FieldKind::RawBytes(DynamicExtent::Bounded(c)) => c,
        FieldKind::Nested(n) => match &n.extent {
            Some(c) => c,
            None => return None,
        },
        _ => return None,
    };
    match validate_unsigned_controller(fields, i, c, ControllerRole::ByteLength, false) {
        Err(k) => Some(SchemaError { field: Some(i), kind: k, subject: Some(c.clone()) }),
        Ok(_) => None,
    }
}

fn position_at(fields: &Vec<Field>, i: usize) -> (r: Option<SchemaError>)
    requires
        i < fields@.len(),
    ensures
        r == spec_position_at(fields@, i as int),
{
    let c = match &fields[i].layout.position {
        Some(Position::Field(c)) => c,
        _ => return None,
    };
    if roles_of(fields, c).length {
        return Some(SchemaError { field: Some(i), kind: ErrorKind::LengthAndPosition, subject: Some(c.clone()) });
    }
    match validate_unsigned_controller(fields, i, c, ControllerRole::FieldPosition, false) {
        Err(k) => Some(SchemaError { field: Some(i), kind: k, subject: Some(c.clone()) }),
        Ok(_) => None,
    }
}

fn array_at(fields: &Vec<Field>, i: usize) -> (r: Option<SchemaError>)
    requires
        i < fields@.len(),
    ensures
        r == spec_array_at(fields@, i as int),
{
    let c = match &fields[i].kind {
        FieldKind::Array(a) => &a.controller,
        _ => return None,
    };
    let mut j: usize = 0;
    while j < i
        invariant
            i < fields@.len(),
            fields@[i as int].kind matches FieldKind::Array(a) && a.controller == *c,
            j <= i,
            forall|k: int| #![trigger fields@[k]] 0 <= k < j ==> !(fields@[k].kind matches FieldKind::Array(b) && b.controller@ == c@),
        decreases i - j,
    {
        if let FieldKind::Array(b) = &fields[j].kind {
            if b.controller == *c {
                return Some(SchemaError { field: Some(i), kind: ErrorKind::CountControllerShared, subject: Some(c.clone()) });
            }
        }
        j = j + 1;
    }
    if fields[i].layout.condition.is_some() {
        return Some(SchemaError { field: Some(i), kind: ErrorKind::ArrayConditional, subject: None });
    }
    let r = roles_of(fields, c);
    if r.length || r.presence || r.bits || r.position {
        return Some(SchemaError { field: Some(i), kind: ErrorKind::CountControllerOtherRole, subject: Some(c.clone()) });
    }
    match validate_unsigned_controller(fields, i, c, ControllerRole::ItemCount, true) {
        Err(k) => Some(SchemaError { field: Some(i), kind: k, subject: Some(c.clone()) }),
        Ok(_) => None,
    }
}

// ---------------------------------------------------------------------------
// Bit projection controllers.

/// Whether a bit projection controller also bounds a length, counts an
/// array, controls a flag, or places a field.
pub open spec fn spec_bit_role_conflict(fields: Seq<Field>, c: Seq<char>) -> bool {
    let r = spec_roles(fields, c);
    r.bits && (r.length || r.count || r.presence || r.position)
}

/// Whether no bit projection controller plays another role.
pub open spec fn spec_bit_roles_pass(fields: Seq<Field>) -> bool {
    forall|c: Seq<char>| !#[trigger] spec_bit_role_conflict(fields, c)
}

/// The refusal of the conflicting bit controller that sorts first, reported
/// at the first projection of it.
pub open spec fn spec_bit_roles_error(fields: Seq<Field>, e: SchemaError) -> bool {
    &&& e.kind == ErrorKind::BitControllerOtherRole
    &&& e.subject matches Some(s) && spec_bit_role_conflict(fields, s@) && forall|c: Seq<char>|
        #[trigger] spec_bit_role_conflict(fields, c) ==> !spec_text_lt(c, s@)
    &&& e.field matches Some(j) && j < fields.len() && (fields[j as int].kind matches FieldKind::BitProjection(p)
        && p.controller@ == e.subject->Some_0@) && forall|k: int|
        #![trigger fields[k]]
        0 <= k < j ==> !(fields[k].kind matches FieldKind::BitProjection(p) && p.controller@ == e.subject->Some_0@)
}

/// Refuses a bit projection controller that plays another dependency role.
pub fn validate_bit_controller_roles(fields: &Vec<Field>) -> (r: Result<(), SchemaError>)
    ensures
        r is Ok <==> spec_bit_roles_pass(fields@),
        r matches Err(e) ==> spec_bit_roles_error(fields@, e),
{
    // The conflicting controller that sorts first, and where it is first projected.
    let mut best: Option<(usize, String)> = None;
    let mut k: usize = 0;
    while k < fields.len()
        invariant
            k <= fields@.len(),
            best is None ==> forall|m: int| #![trigger fields@[m]] 0 <= m < k ==> !(fields@[m].kind matches FieldKind::BitProjection(p) && spec_bit_role_conflict(fields@, p.controller@)),
            best matches Some((j, s)) ==> j < k && (fields@[j as int].kind matches FieldKind::BitProjection(p) && p.controller@ == s@)
                && spec_bit_role_conflict(fields@, s@)
                && (forall|m: int| #![trigger fields@[m]] 0 <= m < j ==> !(fields@[m].kind matches FieldKind::BitProjection(p) && p.controller@ == s@))
                && (forall|m: int| #![trigger fields@[m]] 0 <= m < k && (fields@[m].kind matches FieldKind::BitProjection(p) && spec_bit_role_conflict(fields@, p.controller@)) ==> !spec_text_lt(fields@[m].kind->BitProjection_0.controller@, s@)),
        decreases fields.len() - k,
    {
        if let FieldKind::BitProjection(p) = &fields[k].kind {
            let roles = roles_of(fields, &p.controller);
            if roles.length || roles.count || roles.presence || roles.position {
                assert(roles.bits) by {
                    assert(fields@[k as int].kind matches FieldKind::BitProjection(q) && q.controller@ == p.controller@);
                }
                let replace = match &best {
                    None => true,
                    Some((_, s)) => text_lt(p.controller.as_str(), s.as_str()),
                };
                if replace {
                    proof {
                        if let Some((j, s)) = best {
                            assert forall|m: int| #![trigger fields@[m]] 0 <= m < k && (fields@[m].kind matches FieldKind::BitProjection(q) && spec_bit_role_conflict(fields@, q.controller@)) implies !spec_text_lt(fields@[m].kind->BitProjection_0.controller@, p.controller@) by {
                                let x = fields@[m].kind->BitProjection_0.controller@;
                                if spec_text_lt(x, p.controller@) {
                                    lemma_text_lt_transitive(x, p.controller@, s@);
                                }
                            }
                            assert forall|m: int| #![trigger fields@[m]] 0 <= m < k implies !(fields@[m].kind matches FieldKind::BitProjection(q) && q.controller@ == p.controller@) by {
                                if fields@[m].kind matches FieldKind::BitProjection(q) && q.controller@ == p.controller@ {
                                    assert(!spec_text_lt(p.controller@, s@));
                                }
                            }
                        }
                    }
                    best = Some((k, p.controller.clone()));
                    proof {
                        lemma_text_lt_irreflexive(p.controller@);
                    }
                }
            }
        }
        k = k + 1;
    }
    match best {
        None => {
            proof {
                assert forall|c: Seq<char>| !#[trigger] spec_bit_role_conflict(fields@, c) by {
                    if spec_bit_role_conflict(fields@, c) {
                        let m = choose|m: int| #![trigger fields@[m]] 0 <= m < fields@.len() && (fields@[m].kind matches FieldKind::BitProjection(p) && p.controller@ == c);
                        assert(!(fields@[m].kind matches FieldKind::BitProjection(p) && spec_bit_role_conflict(fields@, p.controller@)));
                    }
                }
            }
            Ok(())
        },
        Some((j, s)) => {
            proof {
                assert forall|c: Seq<char>| #[trigger] spec_bit_role_conflict(fields@, c) implies !spec_text_lt(c, s@) by {
                    let m = choose|m: int| #![trigger fields@[m]] 0 <= m < fields@.len() && (fields@[m].kind matches FieldKind::BitProjection(p) && p.controller@ == c);
                    assert(fields@[m].kind->BitProjection_0.controller@ == c);
                }
            }
            Err(SchemaError { field: Some(j), kind: ErrorKind::BitControllerOtherRole, subject: Some(s) })
        },
    }
}

proof fn lemma_text_lt_irreflexive(a: Seq<char>)
    ensures
        !crate::text::spec_text_lt(a, a),
    decreases a.len(),
{
    if a.len() > 0 {
        lemma_text_lt_irreflexive(a.drop_first());
    }
}


// ---------------------------------------------------------------------------
// The whole pass.

/// The per-field rules, in the order the schema is checked.
#[derive(Clone, Copy, Debug, PartialEq, Eq, Structural)]
pub enum Rule {
    ComputedPlacement,
    FlagsAndConditions,
    Groups,
    Lengths,
    Positions,
    Arrays,
    ComputedRoles,
}

/// What rule `rule` says of field `i`.
pub open spec fn spec_rule_at(rule: Rule, fields: Seq<Field>, i: int) -> Option<SchemaError> {
    match rule {
        Rule::ComputedPlacement => spec_computed_placement_at(fields, i),
        Rule::FlagsAndConditions => match spec_flag_at(fields, i) {
            Some(e) => Some(e),
            None => spec_condition_at(fields, i),
        },
        Rule::Groups => spec_group_at(fields, i),
        Rule::Lengths => spec_length_at(fields, i),
        Rule::Positions => spec_position_at(fields, i),
        Rule::Arrays => spec_array_at(fields, i),
        Rule::ComputedRoles => spec_computed_role_at(fields, i),
    }
}

fn rule_at(rule: Rule, fields: &Vec<Field>, i: usize) -> (r: Option<SchemaError>)
    requires
        i < fields@.len(),
    ensures
        r == spec_rule_at(rule, fields@, i as int),
{
    match rule {
        Rule::ComputedPlacement => computed_placement_at(fields, i),
        Rule::FlagsAndConditions => match flag_at(fields, i) {
            Some(e) => Some(e),
            None => condition_at(fields, i),
        },
        Rule::Groups => group_at(fields, i),
        Rule::Lengths => length_at(fields, i),
        Rule::Positions => position_at(fields, i),
        Rule::Arrays => array_at(fields, i),
        Rule::ComputedRoles => computed_role_at(fields, i),
    }
}

/// The first refusal of `rule` among the first `n` fields.
pub open spec fn spec_first_violation(rule: Rule, fields: Seq<Field>, n: nat) -> Option<SchemaError>
    decreases n,
{
    if n == 0 {
        None
    } else {
        match spec_first_violation(rule, fields, (n - 1) as nat) {
            Some(e) => Some(e),
            None => spec_rule_at(rule, fields, n - 1),
        }
    }
}

/// Checks one rule on every field, in order, and returns its first refusal.
pub fn first_violation(rule: Rule, fields: &Vec<Field>) -> (r: Option<SchemaError>)
    ensures
        r == spec_first_violation(rule, fields@, fields@.len()),
{
    let mut i: usize = 0;
    while i < fields.len()
        invariant
            i <= fields@.len(),
            spec_first_violation(rule, fields@, i as nat) is None,
        decreases fields.len() - i,
    {
        let e = rule_at(rule, fields, i);
        if e.is_some() {
            proof {
                lemma_first_violation_stays(rule, fields@, (i + 1) as nat, fields@.len());
            }
            return e;
        }
        i = i + 1;
    }
    None
}

proof fn lemma_first_violation_stays(rule: Rule, fields: Seq<Field>, m: nat, n: nat)
    requires
        m <= n,
        spec_first_violation(rule, fields, m) is Some,
    ensures
        spec_first_violation(rule, fields, n) == spec_first_violation(rule, fields, m),
    decreases n - m,
{
    if m < n {
        lemma_first_violation_stays(rule, fields, m, (n - 1) as nat);
    }
}

/// A rule refuses nothing exactly when it refuses no field.
pub proof fn lemma_first_violation_none(rule: Rule, fields: Seq<Field>, n: nat)
    ensures
        spec_first_violation(rule, fields, n) is None <==> forall|i: int|
            0 <= i < n ==> #[trigger] spec_rule_at(rule, fields, i) is None,
    decreases n,
{
    if n > 0 {
        lemma_first_violation_none(rule, fields, (n - 1) as nat);
    }
}

/// The first refusal of the per-field rules that run before the bit
/// projection controllers are checked.
pub open spec fn spec_structural_violation(fields: Seq<Field>) -> Option<SchemaError> {
    let n = fields.len();
    match spec_first_violation(Rule::ComputedPlacement, fields, n) {
        Some(e) => Some(e),
        None => match spec_first_violation(Rule::FlagsAndConditions, fields, n) {
            Some(e) => Some(e),
            None => match spec_first_violation(Rule::Groups, fields, n) {
                Some(e) => Some(e),
                None => match spec_first_violation(Rule::Lengths, fields, n) {
                    Some(e) => Some(e),
                    None => match spec_first_violation(Rule::Positions, fields, n) {
                        Some(e) => Some(e),
                        None => spec_first_violation(Rule::Arrays, fields, n),
                    },
                },
            },
        },
    }
}

/// What `validate` gives back, as a relation: the first refusal in rule
/// order, or else the order in which computed fields run.
pub open spec fn spec_validated(fields: Seq<Field>, r: Result<Seq<usize>, SchemaError>) -> bool {
    match spec_structural_violation(fields) {
        Some(e) => r == Err::<Seq<usize>, SchemaError>(e),
        None => if !spec_bit_roles_pass(fields) {
            r matches Err(e) && spec_bit_roles_error(fields, e)
        } else {
            match spec_first_violation(Rule::ComputedRoles, fields, fields.len()) {
                Some(e) => r == Err::<Seq<usize>, SchemaError>(e),
                None => match spec_names_check(fields, fields.len()) {
                    Some((c, k)) => r == Err::<Seq<usize>, SchemaError>(
                        SchemaError { field: Some(c as usize), kind: k, subject: None },
                    ),
                    None => match r {
                        Ok(order) => spec_greedy(fields, order) && spec_covers(fields, order),
                        Err(e) => e.kind == ErrorKind::ComputedCycle && e.subject is None && e.field is Some
                            && exists|done: Seq<usize>|
                            spec_greedy(fields, done) && spec_stuck(fields, done, e.field->Some_0 as int),
                    },
                },
            }
        },
    }
}

/// Checks the whole-schema rules on normalized fields, and gives the order
/// in which computed fields are to be filled.
pub fn validate(fields: &Vec<Field>) -> (r: Result<Vec<usize>, SchemaError>)
    ensures
        spec_validated(
            fields@,
            match r {
                Ok(v) => Ok(v@),
                Err(e) => Err(e),
            },
        ),
{
    if let Some(e) = first_violation(Rule::ComputedPlacement, fields) {
        return Err(e);
    }
    if let Some(e) = first_violation(Rule::FlagsAndConditions, fields) {
        return Err(e);
    }
    if let Some(e) = first_violation(Rule::Groups, fields) {
        return Err(e);
    }
    if let Some(e) = first_violation(Rule::Lengths, fields) {
        return Err(e);
    }
    if let Some(e) = first_violation(Rule::Positions, fields) {
        return Err(e);
    }
    if let Some(e) = first_violation(Rule::Arrays, fields) {
        return Err(e);
    }
    if let Err(e) = validate_bit_controller_roles(fields) {
        return Err(e);
    }
    if let Some(e) = first_violation(Rule::ComputedRoles, fields) {
        return Err(e);
    }
    validate_computed_dependencies(fields)
}

} // verus!
