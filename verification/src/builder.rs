//! The builder's type-state slots: one per field the builder sets directly,
//! each with a state type parameter of its own.

use vstd::prelude::*;
use crate::model::{
    Field, FieldKind, FieldQuery, Schema, lemma_index_filter_step, spec_is_bit_controller,
    spec_is_count_controller, spec_is_index_filter, spec_is_presence_controller, spec_is_settable,
    spec_selects,
};
use crate::naming::{spec_type_param_names, type_param_names};
use crate::text::{concat, free_name, lemma_free_name_is_free, lemma_names_push, names, pascal, spec_free_name, spec_pascal, spec_unraw};

verus! {

/// What a builder slot takes.
#[derive(Clone, Copy, Debug, PartialEq, Eq, Structural)]
pub enum SlotKind {
    /// A value of the field's logical type.
    Value,
    /// Raw bytes.
    RawBytes,
    /// The items of an array.
    Array,
    /// The choice a flag makes.
    Choice,
    /// A nested schema's builder.
    Nested,
}

/// A builder slot: the field it sets, its state type parameter, and what it
/// takes.
#[derive(Debug)]
pub struct Slot {
    pub field: usize,
    pub state: String,
    pub kind: SlotKind,
}

/// The slot kind of a settable field's kind.
pub open spec fn spec_slot_kind(kind: FieldKind) -> SlotKind {
    match kind {
        FieldKind::RawBytes(_) => SlotKind::RawBytes,
        FieldKind::Array(_) => SlotKind::Array,
        FieldKind::Flag(_) => SlotKind::Choice,
        FieldKind::Nested(_) => SlotKind::Nested,
        _ => SlotKind::Value,
    }
}

/// The stem of a slot's state parameter: `__WireRepr`, the field's
/// `PascalCase` name, then `State`.
pub open spec fn spec_state_stem(name: Seq<char>) -> Seq<char> {
    "__WireRepr"@ + spec_pascal(spec_unraw(name)) + "State"@
}

/// The state names of the first `n` slots, each the first free name after
/// the type and const parameters and the states before it.
pub open spec fn spec_slot_states(params: Seq<Seq<char>>, stems: Seq<Seq<char>>) -> Seq<Seq<char>>
    decreases stems.len(),
{
    if stems.len() == 0 {
        seq![]
    } else {
        let before = spec_slot_states(params, stems.drop_last());
        before.push(spec_free_name(stems.last(), stems.last(), 1, params + before))
    }
}

/// The builder's slots, in field order: one for each field it sets
/// directly, with a fresh state parameter.
pub fn slots(schema: &Schema) -> (r: Vec<Slot>)
    requires
        schema.generics.params@.len() + schema.fields@.len() < usize::MAX,
        forall|k: int|
            0 <= k < schema.fields@.len() && spec_is_settable(schema.fields@, k) ==> (#[trigger] schema.fields@[k]).kind !is Recursive,
    ensures
        spec_is_index_filter(
            r@.map_values(|s: Slot| s.field),
            schema.fields@.len(),
            schema.fields@,
            FieldQuery::Settable,
        ),
        r@.map_values(|s: Slot| s.state@) == spec_slot_states(
            spec_type_param_names(schema.generics.params@),
            r@.map_values(|s: Slot| spec_state_stem(schema.fields@[s.field as int].name@)),
        ),
        forall|k: int| 0 <= k < r@.len() ==> (#[trigger] r@[k]).kind == spec_slot_kind(
            schema.fields@[r@[k].field as int].kind,
        ),
        forall|k: int|
            0 <= k < r@.len() ==> !spec_type_param_names(schema.generics.params@).contains(
                (#[trigger] r@[k]).state@,
            ),
        forall|j: int, k: int| 0 <= j < k < r@.len() ==> (#[trigger] r@[j]).state@ != (#[trigger] r@[k]).state@,
{
    let mut used = type_param_names(&schema.generics);
    let ghost params = spec_type_param_names(schema.generics.params@);
    proof {
        crate::naming::lemma_type_param_names_len(schema.generics.params@);
    }
    let mut out: Vec<Slot> = Vec::new();
    let mut i: usize = 0;
    while i < schema.fields.len()
        invariant
            params == spec_type_param_names(schema.generics.params@),
            params.len() <= schema.generics.params@.len(),
            schema.generics.params@.len() + schema.fields@.len() < usize::MAX,
            forall|k: int|
                0 <= k < schema.fields@.len() && spec_is_settable(schema.fields@, k) ==> (#[trigger] schema.fields@[k]).kind !is Recursive,
            i <= schema.fields@.len(),
            out@.len() <= i,
            spec_is_index_filter(out@.map_values(|s: Slot| s.field), i as nat, schema.fields@, FieldQuery::Settable),
            names(used@) == params + out@.map_values(|s: Slot| s.state@),
            out@.map_values(|s: Slot| s.state@) == spec_slot_states(
                params,
                out@.map_values(|s: Slot| spec_state_stem(schema.fields@[s.field as int].name@)),
            ),
            forall|k: int| 0 <= k < out@.len() ==> (#[trigger] out@[k]).field < i && out@[k].kind == spec_slot_kind(
                schema.fields@[out@[k].field as int].kind,
            ),
            forall|k: int| 0 <= k < out@.len() ==> !params.contains((#[trigger] out@[k]).state@),
            forall|j: int, k: int| 0 <= j < k < out@.len() ==> (#[trigger] out@[j]).state@ != (#[trigger] out@[k]).state@,
        decreases schema.fields.len() - i,
    {
        let f = &schema.fields[i];
        let ghost before = out@;
        let settable = f.kind.constant().is_none() && f.kind.computed().is_none()
            && !schema.is_length_controller(&f.name) && !schema.is_count_controller(&f.name)
            && !schema.is_presence_controller(&f.name) && !schema.is_bit_controller(&f.name)
            && f.layout.condition.is_none();
        if settable {
            let kind = match &f.kind {
                FieldKind::RawBytes(_) => SlotKind::RawBytes,
                FieldKind::Array(_) => SlotKind::Array,
                FieldKind::Flag(_) => SlotKind::Choice,
                FieldKind::Nested(_) => SlotKind::Nested,
                _ => SlotKind::Value,
            };
            let a = concat("__WireRepr", pascal(f.name.as_str()).as_str());
            let stem = concat(a.as_str(), "State");
            assert(stem@ == spec_state_stem(f.name@));
            assert(used@.len() == names(used@).len());
            let state = free_name(&stem, &stem, 1, &used);
            proof {
                lemma_free_name_is_free(stem@, stem@, 1, names(used@));
            }
            let ghost used_before = used@;
            used.push(state.clone());
            proof {
                lemma_names_push(used_before, state);
            }
            out.push(Slot { field: i, state, kind });
            proof {
                let fields_of = |s: Slot| s.field;
                let states_of = |s: Slot| s.state@;
                let stems_of = |s: Slot| spec_state_stem(schema.fields@[s.field as int].name@);
                assert(out@.map_values(fields_of) =~= before.map_values(fields_of).push(i));
                assert(out@.map_values(states_of) =~= before.map_values(states_of).push(state@));
                assert(out@.map_values(stems_of) =~= before.map_values(stems_of).push(stem@));
                assert(out@.map_values(stems_of).drop_last() =~= before.map_values(stems_of));
                assert(names(used@) =~= params + out@.map_values(states_of));
                assert forall|k: int| 0 <= k < out@.len() implies !params.contains((#[trigger] out@[k]).state@) by {
                    if k == before.len() {
                        if params.contains(state@) {
                            let m = choose|m: int| 0 <= m < params.len() && params[m] == state@;
                            assert((params + before.map_values(states_of))[m] == state@);
                        }
                    }
                }
                assert forall|j: int, k: int| 0 <= j < k < out@.len() implies (#[trigger] out@[j]).state@
                    != (#[trigger] out@[k]).state@ by {
                    if k == before.len() {
                        assert((params + before.map_values(states_of))[params.len() + j] == before[j].state@);
                    }
                }
                lemma_index_filter_step(
                    before.map_values(fields_of),
                    out@.map_values(fields_of),
                    i,
                    schema.fields@,
                    FieldQuery::Settable,
                );
            }
        } else {
            proof {
                let fields_of = |s: Slot| s.field;
                lemma_index_filter_step(
                    before.map_values(fields_of),
                    out@.map_values(fields_of),
                    i,
                    schema.fields@,
                    FieldQuery::Settable,
                );
            }
        }
        i = i + 1;
    }
    out
}

/// The first field that `query` selects.
pub open spec fn spec_first_selected(fields: Seq<Field>, query: FieldQuery) -> Option<int> {
    if exists|k: int| 0 <= k < fields.len() && #[trigger] spec_selects(fields, query, k) {
        Some(
            choose|k: int|
                0 <= k < fields.len() && #[trigger] spec_selects(fields, query, k) && forall|j: int|
                    0 <= j < k ==> !#[trigger] spec_selects(fields, query, j),
        )
    } else {
        None
    }
}

proof fn lemma_filter_first(r: Seq<usize>, fields: Seq<Field>, query: FieldQuery)
    requires
        fields.len() <= usize::MAX,
        spec_is_index_filter(r, fields.len(), fields, query),
    ensures
        (r.len() > 0) == (spec_first_selected(fields, query) is Some),
        r.len() > 0 ==> spec_first_selected(fields, query) == Some(r[0] as int),
{
    if r.len() > 0 {
        let f0 = r[0] as int;
        assert(spec_selects(fields, query, f0));
        assert forall|k: int| 0 <= k < f0 implies !#[trigger] spec_selects(fields, query, k) by {
            if spec_selects(fields, query, k) {
                assert(r.contains(k as usize));
                let m = choose|m: int| 0 <= m < r.len() && r[m] == k as usize;
                if m > 0 {
                    assert(r[0] < r[m]);
                }
            }
        }
        let c = choose|k: int|
            0 <= k < fields.len() && #[trigger] spec_selects(fields, query, k) && forall|j: int|
                0 <= j < k ==> !#[trigger] spec_selects(fields, query, j);
        assert(0 <= f0 < fields.len() && spec_selects(fields, query, f0) && forall|j: int|
            0 <= j < f0 ==> !#[trigger] spec_selects(fields, query, j));
        if c < f0 {
            assert(!spec_selects(fields, query, c));
        } else if c > f0 {
            assert(!spec_selects(fields, query, f0));
        }
    } else {
        if exists|k: int| 0 <= k < fields.len() && #[trigger] spec_selects(fields, query, k) {
            let k = choose|k: int| 0 <= k < fields.len() && #[trigger] spec_selects(fields, query, k);
            assert(r.contains(k as usize));
        }
    }
}

/// How a field takes part in a write: a conditional field is written with
/// its whole group, at the group's first field; others are written alone.
#[derive(Debug)]
pub enum FieldWrite {
    /// Written as part of its group, by an earlier field.
    Skip,
    /// Writes the group conditional on the named flag.
    ChoiceGroup(String),
    /// Written on its own.
    Alone,
}

/// How field `i` takes part in a write.
pub open spec fn spec_field_write(s: Schema, i: int) -> FieldWrite {
    match s.fields@[i].layout.condition {
        None => FieldWrite::Alone,
        Some(c) => if s.fields@[spec_first_selected(s.fields@, FieldQuery::ConditionOf(c@))->Some_0].name@
            != s.fields@[i].name@ {
            FieldWrite::Skip
        } else {
            FieldWrite::ChoiceGroup(c)
        },
    }
}

/// How field `i` takes part in a write.
pub fn field_write(schema: &Schema, i: usize) -> (r: FieldWrite)
    requires
        i < schema.fields@.len(),
    ensures
        r == spec_field_write(*schema, i as int),
{
    match &schema.fields[i].layout.condition {
        None => FieldWrite::Alone,
        Some(c) => {
            let group = schema.condition_dependents(c);
            assert(schema.fields@.len() == schema.fields.len());
            proof {
                lemma_filter_first(group@, schema.fields@, FieldQuery::ConditionOf(c@));
                assert(spec_selects(schema.fields@, FieldQuery::ConditionOf(c@), i as int));
                assert(group@.contains(i));
            }
            let first = group[0];
            if schema.fields[first].name != schema.fields[i].name {
                FieldWrite::Skip
            } else {
                FieldWrite::ChoiceGroup(c.clone())
            }
        },
    }
}

/// Where a written scalar's value comes from.
#[derive(Debug)]
pub enum ScalarSource {
    /// Its constant.
    Constant,
    /// A placeholder that a later step fills in: a computed field, a count
    /// controller, or the length of a nested dependent.
    Placeholder,
    /// Whether the choice of the flag at this position is present.
    Presence(usize),
    /// The bits its projections were given.
    BitController,
    /// The value set on the builder.
    Slot,
    /// The length of its first dependent's bytes, which the other byte
    /// dependents listed must match.
    DerivedLength { first: usize, checks: Vec<usize> },
}

/// Whether field `k` is a flag controlled by `name`.
pub open spec fn spec_is_flag_of(fields: Seq<Field>, k: int, name: Seq<char>) -> bool {
    fields[k].kind matches FieldKind::Flag(c) && c@ == name
}

/// The first flag controlled by `name`.
pub open spec fn spec_first_flag_of(fields: Seq<Field>, name: Seq<char>) -> int {
    choose|k: int|
        0 <= k < fields.len() && #[trigger] spec_is_flag_of(fields, k, name) && forall|j: int|
            0 <= j < k ==> !#[trigger] spec_is_flag_of(fields, j, name)
}

/// Whether `checks` lists, in order, the byte dependents of `name` after
/// position `first`.
pub open spec fn spec_length_checks(fields: Seq<Field>, name: Seq<char>, first: int, checks: Seq<usize>) -> bool {
    &&& forall|a: int, b: int| 0 <= a < b < checks.len() ==> checks[a] < checks[b]
    &&& forall|a: int|
        0 <= a < checks.len() ==> first < checks[a] < fields.len() && fields[checks[a] as int].kind is RawBytes
            && spec_selects(fields, FieldQuery::LengthOf(name), checks[a] as int)
    &&& forall|k: int|
        first < k < fields.len() && fields[k].kind is RawBytes && #[trigger] spec_selects(
            fields,
            FieldQuery::LengthOf(name),
            k,
        ) ==> checks.contains(k as usize)
}

/// Where scalar field `i`'s written value comes from: its constant; a
/// placeholder for computed fields and count controllers; a presence
/// controller's flag; a bit controller's projections; the builder's slot
/// when it bounds no length; the length of its first dependent when that is
/// bytes; a placeholder otherwise.
pub open spec fn spec_scalar_source_ok(s: Schema, i: int, r: ScalarSource) -> bool {
    let f = s.fields@[i];
    let fields = s.fields@;
    let name = f.name@;
    if f.kind.spec_constant() is Some {
        r is Constant
    } else if f.kind.spec_computed() is Some || spec_is_count_controller(fields, name) {
        r is Placeholder
    } else if spec_is_presence_controller(fields, name) {
        r == ScalarSource::Presence(spec_first_flag_of(fields, name) as usize)
    } else if spec_is_bit_controller(fields, name) {
        r is BitController
    } else {
        match spec_first_selected(fields, FieldQuery::LengthOf(name)) {
            None => r is Slot,
            Some(first) => if fields[first].kind is RawBytes {
                r matches ScalarSource::DerivedLength { first: f0, checks } && f0 == first
                    && spec_length_checks(fields, name, first, checks@)
            } else {
                r is Placeholder
            },
        }
    }
}

/// Where a written scalar's value comes from.
pub fn scalar_source(schema: &Schema, i: usize) -> (r: ScalarSource)
    requires
        i < schema.fields@.len(),
        schema.fields@[i as int].kind is Scalar,
    ensures
        spec_scalar_source_ok(*schema, i as int, r),
{
    let f = &schema.fields[i];
    if f.kind.constant().is_some() {
        return ScalarSource::Constant;
    }
    if f.kind.computed().is_some() || schema.is_count_controller(&f.name) {
        return ScalarSource::Placeholder;
    }
    if schema.is_presence_controller(&f.name) {
        let ghost name = f.name@;
        let mut k: usize = 0;
        while k < schema.fields.len()
            invariant
                i < schema.fields@.len(),
                k <= schema.fields@.len(),
                schema.fields@[i as int].kind.spec_constant() is None,
                schema.fields@[i as int].kind.spec_computed() is None,
                !spec_is_count_controller(schema.fields@, name),
                name == schema.fields@[i as int].name@,
                spec_is_presence_controller(schema.fields@, name),
                forall|j: int| 0 <= j < k ==> !#[trigger] spec_is_flag_of(schema.fields@, j, name),
            decreases schema.fields.len() - k,
        {
            let found = match &schema.fields[k].kind {
                FieldKind::Flag(c) => *c == schema.fields[i].name,
                _ => false,
            };
            if found {
                proof {
                    assert(spec_is_flag_of(schema.fields@, k as int, name));
                    let c = spec_first_flag_of(schema.fields@, name);
                    if c < k {
                    } else if c > k {
                        assert(!spec_is_flag_of(schema.fields@, k as int, name));
                    }
                }
                return ScalarSource::Presence(k);
            }
            k = k + 1;
        }
        proof {
            let w = choose|w: int| #![trigger schema.fields@[w]] 0 <= w < schema.fields@.len()
                && (schema.fields@[w].kind matches FieldKind::Flag(c) && c@ == name);
            assert(spec_is_flag_of(schema.fields@, w, name));
        }
        return ScalarSource::Placeholder;
    }
    if schema.is_bit_controller(&f.name) {
        return ScalarSource::BitController;
    }
    let dependents = schema.length_dependents(&f.name);
    assert(schema.fields@.len() == schema.fields.len());
    proof {
        lemma_filter_first(dependents@, schema.fields@, FieldQuery::LengthOf(f.name@));
    }
    if dependents.len() == 0 {
        return ScalarSource::Slot;
    }
    let first = dependents[0];
    if !matches!(schema.fields[first].kind, FieldKind::RawBytes(_)) {
        return ScalarSource::Placeholder;
    }
    let mut checks: Vec<usize> = Vec::new();
    let mut m: usize = 1;
    while m < dependents.len()
        invariant
            1 <= m <= dependents@.len(),
            dependents@[0] == first,
            spec_is_index_filter(dependents@, schema.fields@.len(), schema.fields@, FieldQuery::LengthOf(f.name@)),
            forall|a: int, b: int| 0 <= a < b < checks@.len() ==> checks@[a] < checks@[b],
            forall|a: int|
                0 <= a < checks@.len() ==> first < checks@[a] < schema.fields@.len()
                    && schema.fields@[checks@[a] as int].kind is RawBytes && spec_selects(
                    schema.fields@,
                    FieldQuery::LengthOf(f.name@),
                    checks@[a] as int,
                ) && exists|q: int| 1 <= q < m && dependents@[q] == checks@[a],
            forall|q: int| 1 <= q < m && schema.fields@[dependents@[q] as int].kind is RawBytes ==> checks@.contains(
                #[trigger] dependents@[q],
            ),
        decreases dependents.len() - m,
    {
        let d = dependents[m];
        if matches!(schema.fields[d].kind, FieldKind::RawBytes(_)) {
            let ghost before = checks@;
            proof {
                assert forall|a: int| 0 <= a < before.len() implies before[a] < d by {
                    let q = choose|q: int| 1 <= q < m && dependents@[q] == before[a];
                    assert(dependents@[q] < dependents@[m as int]);
                }
            }
            checks.push(d);
            proof {
                assert forall|q: int| 1 <= q < m + 1 && schema.fields@[dependents@[q] as int].kind is RawBytes implies checks@.contains(
                    #[trigger] dependents@[q],
                ) by {
                    if q < m {
                        let t = choose|t: int| 0 <= t < before.len() && before[t] == dependents@[q];
                        assert(checks@[t] == dependents@[q]);
                    } else {
                        assert(checks@[checks@.len() - 1] == dependents@[q]);
                    }
                }
            }
        }
        proof {
            assert(dependents@[0] < dependents@[m as int]);
        }
        m = m + 1;
    }
    assert(schema.fields@.len() == schema.fields.len());
    proof {
        assert forall|k: int|
            first < k < schema.fields@.len() && schema.fields@[k].kind is RawBytes && #[trigger] spec_selects(
                schema.fields@,
                FieldQuery::LengthOf(f.name@),
                k,
            ) implies checks@.contains(k as usize) by {
            assert(dependents@.contains(k as usize));
            let q = choose|q: int| 0 <= q < dependents@.len() && dependents@[q] == k as usize;
            if q == 0 {
                assert(dependents@[q] == first);
            }
        }
    }
    ScalarSource::DerivedLength { first, checks }
}

} // verus!
