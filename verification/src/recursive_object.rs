//! The rules for a recursive object body: a schema whose fields are plain
//! fixed fields and continuations of the recursion root.

use vstd::prelude::*;
use crate::errors::{ErrorKind, SchemaError};
use crate::model::{Field, FieldKind, FieldQuery, KindTag, Schema, spec_is_index_filter};
use crate::recursive::recursive_positions;
use crate::syntax::{recursive_item_type, recursive_marker, spec_marker_item, spec_type_is_parameter, type_is_parameter};

verus! {

/// Why a field of a recursive object body is refused, if it is: it is
/// placed or conditional; it continues the recursion through anything but
/// the root parameter itself; or it is other than a plain stored scalar or a
/// fixed byte array without a constant.
pub open spec fn spec_object_field(f: Field, root: Seq<char>) -> Option<ErrorKind> {
    if f.layout.spec_has_geometry() {
        Some(ErrorKind::RecursiveNotSequential)
    } else {
        match f.kind {
            FieldKind::Recursive => if spec_marker_item(f.ty.shape, recursive_marker()) matches Some(t)
                && spec_type_is_parameter(t, root) {
                None
            } else {
                Some(ErrorKind::RecursiveRootNotParameter)
            },
            FieldKind::Scalar(s) => if s.constant is None && s.computed is None
                && !s.value_type.spec_is_converted() {
                None
            } else {
                Some(ErrorKind::RecursiveFieldUnsupported)
            },
            FieldKind::Bytes(b) => if b.constant is None {
                None
            } else {
                Some(ErrorKind::RecursiveFieldUnsupported)
            },
            _ => Some(ErrorKind::RecursiveFieldUnsupported),
        }
    }
}

/// In a recursive object body, a sequential, unplaced fixed byte array is
/// accepted exactly when it has no constant; one with a constant is refused
/// as unsupported.
pub proof fn law_object_byte_arrays(f: Field, root: Seq<char>)
    requires
        f.kind is Bytes,
        f.layout.pad_before is None,
        f.layout.align_before is None,
        f.layout.position is None,
        f.layout.condition is None,
    ensures
        f.kind->Bytes_0.constant is None ==> spec_object_field(f, root) is None,
        f.kind->Bytes_0.constant is Some ==> spec_object_field(f, root) == Some(ErrorKind::RecursiveFieldUnsupported),
{
}

/// A recursive object body without validators, with between one and
/// `u32::MAX` continuations, whose fields are all sequential and unplaced
/// fixed byte arrays without constants or plain stored scalars, or
/// continuations of the root parameter, is accepted.
pub proof fn law_object_accepts_plain_fields(s: Schema, root: Seq<char>)
    requires
        s.validators@.len() == 0,
        1 <= spec_continuations(s.fields@) <= u32::MAX,
        forall|i: int|
            0 <= i < s.fields@.len() ==> #[trigger] spec_plain_object_field(s.fields@[i], root),
    ensures
        spec_object_check(s, root) == Ok::<(), SchemaError>(()),
{
    lemma_no_violation(s.fields@, root, s.fields@.len());
}

/// A sequential, unplaced field that is a byte array without a constant, a
/// stored scalar with neither constant, computation nor conversion, or a
/// continuation of the root parameter.
pub open spec fn spec_plain_object_field(f: Field, root: Seq<char>) -> bool {
    &&& f.layout.pad_before is None
    &&& f.layout.align_before is None
    &&& f.layout.position is None
    &&& f.layout.condition is None
    &&& match f.kind {
        FieldKind::Bytes(b) => b.constant is None,
        FieldKind::Scalar(sc) => sc.constant is None && sc.computed is None && !sc.value_type.spec_is_converted(),
        FieldKind::Recursive => spec_marker_item(f.ty.shape, recursive_marker()) matches Some(t)
            && spec_type_is_parameter(t, root),
        _ => false,
    }
}

proof fn lemma_no_violation(fields: Seq<Field>, root: Seq<char>, n: nat)
    requires
        n <= fields.len(),
        forall|i: int| 0 <= i < fields.len() ==> #[trigger] spec_plain_object_field(fields[i], root),
    ensures
        spec_object_violation(fields, root, n) is None,
    decreases n,
{
    if n > 0 {
        lemma_no_violation(fields, root, (n - 1) as nat);
        assert(spec_plain_object_field(fields[n - 1], root));
    }
}

/// The first field refusal among the first `n` fields.
pub open spec fn spec_object_violation(fields: Seq<Field>, root: Seq<char>, n: nat) -> Option<(int, ErrorKind)>
    decreases n,
{
    if n == 0 {
        None
    } else {
        match spec_object_violation(fields, root, (n - 1) as nat) {
            Some(v) => Some(v),
            None => match spec_object_field(fields[n - 1], root) {
                Some(k) => Some((n - 1, k)),
                None => None,
            },
        }
    }
}

/// How many fields are `wire::Recursive<T>` continuations.
pub open spec fn spec_continuations(fields: Seq<Field>) -> nat
    decreases fields.len(),
{
    if fields.len() == 0 {
        0
    } else {
        spec_continuations(fields.drop_last()) + if fields.last().kind is Recursive {
            1nat
        } else {
            0nat
        }
    }
}

/// The outcome of checking a recursive object body: no validators; at least
/// one and at most `u32::MAX` continuations; then the first refused field.
pub open spec fn spec_object_check(s: Schema, root: Seq<char>) -> Result<(), SchemaError> {
    if s.validators@.len() > 0 {
        Err(SchemaError { field: None, kind: ErrorKind::RecursiveValidators, subject: None })
    } else if spec_continuations(s.fields@) == 0 {
        Err(SchemaError { field: None, kind: ErrorKind::RecursiveWithoutContinuation, subject: None })
    } else if spec_continuations(s.fields@) > u32::MAX {
        Err(SchemaError { field: None, kind: ErrorKind::RecursiveTooManyContinuations, subject: None })
    } else {
        match spec_object_violation(s.fields@, root, s.fields@.len()) {
            Some((i, k)) => Err(SchemaError { field: Some(i as usize), kind: k, subject: None }),
            None => Ok(()),
        }
    }
}

proof fn lemma_filter_counts(r: Seq<usize>, fields: Seq<Field>, n: nat)
    requires
        n <= fields.len(),
        n <= usize::MAX,
        spec_is_index_filter(r, n, fields, FieldQuery::Kind(KindTag::Recursive)),
    ensures
        r.len() == spec_continuations(fields.take(n as int)),
    decreases n,
{
    if n > 0 {
        let m = (n - 1) as nat;
        assert(fields.take(n as int).drop_last() =~= fields.take(m as int));
        if fields[m as int].kind is Recursive {
            assert(crate::model::spec_selects(fields, FieldQuery::Kind(KindTag::Recursive), m as int));
            assert(r.contains(m as usize));
            let k = choose|k: int| 0 <= k < r.len() && r[k] == m as usize;
            if k < r.len() - 1 {
                assert(r[k] < r[r.len() - 1]);
            }
            let s = r.drop_last();
            assert forall|k2: int| 0 <= k2 < m && #[trigger] crate::model::spec_selects(fields, FieldQuery::Kind(KindTag::Recursive), k2) implies s.contains(k2 as usize) by {
                let j = choose|j: int| 0 <= j < r.len() && r[j] == k2 as usize;
                if j == r.len() - 1 {
                    if k < r.len() - 1 {
                        assert(r[k] < r[j]);
                    }
                    assert(r[j] == m as usize);
                }
                assert(s[j] == k2 as usize);
            }
            lemma_filter_counts(s, fields, m);
        } else {
            assert forall|k2: int| 0 <= k2 < r.len() implies r[k2] < m by {
                if r[k2] == m as usize {
                    assert(crate::model::spec_selects(fields, FieldQuery::Kind(KindTag::Recursive), m as int));
                }
            }
            lemma_filter_counts(r, fields, m);
        }
    } else {
        if r.len() > 0 {
            assert(r[0] < 0);
        }
    }
}

fn object_field(f: &Field, root: &String) -> (r: Option<ErrorKind>)
    ensures
        r == spec_object_field(*f, root@),
{
    if f.layout.pad_before.is_some() || f.layout.align_before.is_some() || f.layout.position.is_some()
        || f.layout.condition.is_some() {
        return Some(ErrorKind::RecursiveNotSequential);
    }
    match &f.kind {
        FieldKind::Recursive => match recursive_item_type(&f.ty.shape) {
            Some(t) => if type_is_parameter(t, root) {
                None
            } else {
                Some(ErrorKind::RecursiveRootNotParameter)
            },
            None => Some(ErrorKind::RecursiveRootNotParameter),
        },
        FieldKind::Scalar(s) => if s.constant.is_none() && s.computed.is_none() && !s.value_type.is_converted() {
            None
        } else {
            Some(ErrorKind::RecursiveFieldUnsupported)
        },
        FieldKind::Bytes(b) => if b.constant.is_none() {
            None
        } else {
            Some(ErrorKind::RecursiveFieldUnsupported)
        },
        _ => Some(ErrorKind::RecursiveFieldUnsupported),
    }
}

/// Checks a recursive object body against the recursion root `root`.
pub fn validate(schema: &Schema, root: &String) -> (r: Result<(), SchemaError>)
    ensures
        r == spec_object_check(*schema, root@),
{
    if schema.validators.len() > 0 {
        return Err(SchemaError { field: None, kind: ErrorKind::RecursiveValidators, subject: None });
    }
    let positions = recursive_positions(schema);
    assert(schema.fields@.len() == schema.fields.len());
    proof {
        lemma_filter_counts(positions@, schema.fields@, schema.fields@.len());
        assert(schema.fields@.take(schema.fields@.len() as int) =~= schema.fields@);
    }
    if positions.len() == 0 {
        return Err(SchemaError { field: None, kind: ErrorKind::RecursiveWithoutContinuation, subject: None });
    }
    if positions.len() > 4294967295 {
        return Err(SchemaError { field: None, kind: ErrorKind::RecursiveTooManyContinuations, subject: None });
    }
    let mut i: usize = 0;
    while i < schema.fields.len()
        invariant
            i <= schema.fields@.len(),
            schema.validators@.len() == 0,
            1 <= spec_continuations(schema.fields@) <= u32::MAX,
            spec_object_violation(schema.fields@, root@, i as nat) is None,
        decreases schema.fields.len() - i,
    {
        if let Some(k) = object_field(&schema.fields[i], root) {
            proof {
                lemma_violation_stays(schema.fields@, root@, (i + 1) as nat, schema.fields@.len());
            }
            return Err(SchemaError { field: Some(i), kind: k, subject: None });
        }
        i = i + 1;
    }
    Ok(())
}

proof fn lemma_violation_stays(fields: Seq<Field>, root: Seq<char>, m: nat, n: nat)
    requires
        m <= n,
        spec_object_violation(fields, root, m) is Some,
    ensures
        spec_object_violation(fields, root, n) == spec_object_violation(fields, root, m),
    decreases n - m,
{
    if m < n {
        lemma_violation_stays(fields, root, m, (n - 1) as nat);
    }
}

} // verus!
