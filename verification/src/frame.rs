//! The framing plan of a struct layout, what a view of it reads from input
//! bytes, and what a writer of it emits.
//!
//! The plan covers stored scalars (with an integer-literal constant, or a
//! `bool`, `usize` or `char` logical type over an unsigned stored type),
//! `[u8; N]` and `[T; N]` arrays with a literal length,
//! bytes bounded by an earlier unsigned scalar, terminal rest bytes, bit
//! projections, flags and the scalars present under them, counted arrays and
//! nested schema types (framed by the item or nested type's own view, whose
//! report the plan takes as given), and literal padding, alignment and `at`
//! placement. A writer covers the same layouts, as long as no conditional
//! field bounds bytes, places another field, or controls a flag or a bit
//! projection.

use vstd::prelude::*;
use crate::bytes::{
    fits, lemma_pow256_16, lemma_pow256_mono, lemma_value_bound, lemma_value_of_bytes, pow256, push_bytes,
    read_value, spec_bytes, spec_value,
};
use crate::model::{
    DynamicExtent, Field, FieldKind, Position, Scalar, Schema, find_field, lemma_field_index_range, spec_field_index,
};
use crate::bitfield::{lemma_value_mask_shape, spec_get_bits, spec_value_mask};
use crate::normalization::{array_len_literal, spec_array_len_literal};
use crate::scalar::{Endian, ValueType};
use crate::syntax::{
    ExprForm, Literal, WireExpr, lemma_parse_decimal_range, parse_decimal, spec_int_literal, spec_parse_decimal,
};

verus! {

/// How a view frames one field.
#[derive(Clone, Copy, Debug, PartialEq, Eq, Structural)]
pub enum FrameStep {
    /// A stored scalar of `width` bytes; the value it must hold, if it is a
    /// constant; the values its logical type takes.
    Scalar { width: usize, big_endian: bool, constant: Option<u128>, check: ValueCheck },
    /// `len` bytes.
    Fixed { len: usize },
    /// As many bytes as the scalar at position `controller` holds.
    Bounded { controller: usize },
    /// The rest of the input.
    Rest,
    /// No bytes: bits `start..=end` of the scalar at position `controller`.
    Bits { controller: usize, start: u32, end: u32 },
    /// No bytes: the value of the `bool` scalar at position `controller`.
    Flag { controller: usize },
    /// A nested schema type over as many bytes as the scalar at position
    /// `controller` holds, which its frame must consume exactly.
    NestedBounded { controller: usize },
    /// Items counted by the scalar at position `controller`: the rest of the
    /// input when `terminal` (the last field), otherwise the bytes that the
    /// frame of the item type over that many items reports.
    Counted { controller: usize, terminal: bool },
    /// A nested schema type, framed by its own view; `terminal` when it is
    /// the last field and may end wherever its frame ends, otherwise it must
    /// take exactly its type's fixed size.
    Nested { terminal: bool },
}

/// The stored values a scalar's logical type takes.
#[derive(Clone, Copy, Debug, PartialEq, Eq, Structural)]
pub enum ValueCheck {
    /// Every value (the logical type is the stored one).
    Any,
    /// 0 or 1 (`bool`).
    Bool,
    /// Those that fit `usize`.
    Usize,
    /// Unicode scalar values (`char`).
    Char,
}

/// Whether a stored value is one that `check` takes.
pub open spec fn spec_check_ok(check: ValueCheck, v: nat) -> bool {
    match check {
        ValueCheck::Any => true,
        ValueCheck::Bool => v <= 1,
        ValueCheck::Usize => v <= usize::MAX,
        ValueCheck::Char => v <= 0x10FFFF && !(0xD800 <= v <= 0xDFFF),
    }
}

fn check_ok(check: ValueCheck, v: u128) -> (r: bool)
    ensures
        r == spec_check_ok(check, v as nat),
{
    match check {
        ValueCheck::Any => true,
        ValueCheck::Bool => v <= 1,
        ValueCheck::Usize => v <= usize::MAX as u128,
        ValueCheck::Char => v <= 0x10FFFF && !(0xD800 <= v && v <= 0xDFFF),
    }
}

/// What a nested field type's own frame reports on the input from the
/// field's start.
#[derive(Clone, Copy, Debug, PartialEq, Eq, Structural)]
pub struct ChildReport {
    /// The bytes its frame consumed, or `None` when it refused the input.
    pub consumed: Option<usize>,
    /// Its type's fixed size, if it declares one.
    pub fixed_size: Option<usize>,
}

/// Where a field placed by `at` starts.
#[derive(Clone, Copy, Debug, PartialEq, Eq, Structural)]
pub enum At {
    /// At this offset.
    Static(usize),
    /// At the value of the scalar at this position.
    Field(usize),
}

/// The bytes skipped before a field (`pad`), and the multiple its start is
/// then rounded up to (`align`), where the field declares them; where the
/// field is placed instead (`at`); and the flag at the position `when` that
/// the field is present under.
#[derive(Clone, Copy, Debug, PartialEq, Eq, Structural)]
pub struct Placement {
    pub pad: Option<usize>,
    pub align: Option<usize>,
    pub at: Option<At>,
    pub when: Option<usize>,
}

/// The placement of field `i`: none is no padding and no alignment.
pub open spec fn spec_place(places: Seq<Placement>, i: int) -> Placement {
    if 0 <= i < places.len() {
        places[i]
    } else {
        Placement { pad: None, align: None, at: None, when: None }
    }
}

/// `x` rounded up to a multiple of `a` (unchanged when `a` is 0 or 1).
pub open spec fn spec_align_up(x: int, a: int) -> int {
    if a <= 1 || x % a == 0 {
        x
    } else {
        x + (a - x % a)
    }
}

/// Where a field placed by `p` starts when the fields before it end at `cur`.
pub open spec fn spec_start(p: Placement, cur: int) -> int {
    let padded = match p.pad {
        Some(n) => cur + n,
        None => cur,
    };
    match p.align {
        Some(a) => spec_align_up(padded, a as int),
        None => padded,
    }
}

proof fn lemma_start_after(p: Placement, cur: int)
    requires
        0 <= cur,
    ensures
        cur <= spec_start(p, cur),
        p == (Placement { pad: None, align: None, at: None, when: None }) ==> spec_start(p, cur) == cur,
{
    let padded = match p.pad {
        Some(n) => cur + n,
        None => cur,
    };
    if let Some(a) = p.align {
        if a > 1 {
            vstd::arithmetic::div_mod::lemma_mod_pos_bound(padded, a as int);
        }
    }
}

/// Where a field placed by `p` starts after `cur`, if that is addressable.
fn start_of(p: Placement, cur: usize) -> (r: Option<usize>)
    ensures
        match r {
            Some(s) => s == spec_start(p, cur as int),
            None => spec_start(p, cur as int) > usize::MAX,
        },
{
    proof {
        lemma_start_after(p, cur as int);
    }
    let x = match p.pad {
        Some(n) => match cur.checked_add(n) {
            Some(x) => x,
            None => return None,
        },
        None => cur,
    };
    let a = match p.align {
        Some(a) => a,
        None => return Some(x),
    };
    if a <= 1 {
        return Some(x);
    }
    let r = x % a;
    if r == 0 {
        Some(x)
    } else {
        x.checked_add(a - r)
    }
}

/// Whether a step's extent comes from a child frame's report, and if so
/// whether it may end wherever that frame ends (no fixed size demanded).
pub open spec fn spec_child_framed(step: FrameStep) -> Option<bool> {
    match step {
        FrameStep::Nested { terminal } => Some(terminal),
        FrameStep::Counted { terminal: false, .. } => Some(true),
        _ => None,
    }
}

/// The report for field `i`: none is a refusal with no fixed size.
pub open spec fn spec_report(children: Seq<ChildReport>, i: int) -> ChildReport {
    if 0 <= i < children.len() {
        children[i]
    } else {
        ChildReport { consumed: None, fixed_size: None }
    }
}

/// The step of a stored scalar (a computed one is read as stored; its
/// writer slot holds what its callback gives).
pub open spec fn spec_scalar_step(sc: Scalar) -> Option<FrameStep> {
    let w = sc.wire_type.spec_width();
    let big = sc.endian is Big;
    if w > 1 && sc.endian is Native {
        None
    } else {
        match sc.value_type {
            ValueType::Scalar(t) => match sc.constant {
                None => Some(FrameStep::Scalar { width: w as usize, big_endian: big, constant: None, check: ValueCheck::Any }),
                Some(e) => if t == sc.wire_type && t.spec_is_unsigned_integer() {
                    match spec_int_literal(e) {
                        Some(d) => match spec_parse_decimal(d, u128::MAX as int) {
                            Some(v) => if v < pow256(w) {
                                Some(
                                    FrameStep::Scalar {
                                        width: w as usize,
                                        big_endian: big,
                                        constant: Some(v as u128),
                                        check: ValueCheck::Any,
                                    },
                                )
                            } else {
                                None
                            },
                            None => None,
                        },
                        None => None,
                    }
                } else {
                    None
                },
            },
            ValueType::Bool => if sc.constant is None && sc.wire_type.spec_is_unsigned_integer() {
                Some(FrameStep::Scalar { width: w as usize, big_endian: big, constant: None, check: ValueCheck::Bool })
            } else {
                None
            },
            ValueType::Usize => if sc.constant is None && sc.wire_type.spec_is_unsigned_integer() {
                Some(FrameStep::Scalar { width: w as usize, big_endian: big, constant: None, check: ValueCheck::Usize })
            } else {
                None
            },
            ValueType::Char => if sc.constant is None && sc.wire_type.spec_is_unsigned_integer() {
                Some(FrameStep::Scalar { width: w as usize, big_endian: big, constant: None, check: ValueCheck::Char })
            } else {
                None
            },
            _ => None,
        }
    }
}

/// The value of an integer-literal expression, if it fits `usize`.
pub open spec fn spec_literal_usize(e: WireExpr) -> Option<int> {
    match spec_int_literal(e) {
        Some(d) => spec_parse_decimal(d, usize::MAX as int),
        None => None,
    }
}

/// A field's placement, when its padding and alignment are integer literals
/// (an alignment being nonzero).
pub open spec fn spec_field_place(f: Field) -> Option<Placement> {
    let pad: Option<Option<usize>> = match f.layout.pad_before {
        None => Some(None),
        Some(e) => match spec_literal_usize(e) {
            Some(n) => Some(Some(n as usize)),
            None => None,
        },
    };
    let align: Option<Option<usize>> = match f.layout.align_before {
        None => Some(None),
        Some(e) => match spec_literal_usize(e) {
            Some(a) => if a >= 1 {
                Some(Some(a as usize))
            } else {
                None
            },
            None => None,
        },
    };
    match (pad, align) {
        (Some(p), Some(a)) => Some(Placement { pad: p, align: a, at: None, when: None }),
        _ => None,
    }
}

fn literal_usize(e: &WireExpr) -> (r: Option<usize>)
    ensures
        match r {
            Some(n) => spec_literal_usize(*e) == Some(n as int),
            None => spec_literal_usize(*e) is None,
        },
{
    match &e.form {
        ExprForm::Lit(Literal::Int(d)) => {
            proof {
                lemma_parse_decimal_range(d@, usize::MAX as int);
            }
            match parse_decimal(d.as_str(), usize::MAX as u128) {
                Some(n) => Some(n as usize),
                None => None,
            }
        },
        _ => None,
    }
}

fn field_place(f: &Field) -> (r: Option<Placement>)
    ensures
        r == spec_field_place(*f),
{
    let pad = match &f.layout.pad_before {
        None => None,
        Some(e) => match literal_usize(e) {
            Some(n) => Some(n),
            None => return None,
        },
    };
    let align = match &f.layout.align_before {
        None => None,
        Some(e) => match literal_usize(e) {
            Some(a) => if a >= 1 {
                Some(a)
            } else {
                return None;
            },
            None => return None,
        },
    };
    Some(Placement { pad, align, at: None, when: None })
}

/// Where field `i` is placed by `at`: an integer literal, or an earlier
/// unsigned scalar that is not a constant.
pub open spec fn spec_field_at(fields: Seq<Field>, i: int) -> Option<Option<At>> {
    match fields[i].layout.position {
        None => Some(None),
        Some(Position::Static(e)) => match spec_literal_usize(e) {
            Some(n) => Some(Some(At::Static(n as usize))),
            None => None,
        },
        Some(Position::Field(name)) => match spec_field_index(fields, name@) {
            Some(c) => if c < i && spec_is_length_source(fields[c]) {
                Some(Some(At::Field(c as usize)))
            } else {
                None
            },
            None => None,
        },
    }
}

/// The earlier flag field that scalar field `i` is present under.
pub open spec fn spec_field_when(fields: Seq<Field>, i: int) -> Option<Option<usize>> {
    match fields[i].layout.condition {
        None => Some(None),
        Some(name) => if fields[i].kind is Scalar {
            match spec_field_index(fields, name@) {
                Some(k) => if k < i && fields[k].kind is Flag {
                    Some(Some(k as usize))
                } else {
                    None
                },
                None => None,
            }
        } else {
            None
        },
    }
}

/// The placement of field `i`, when the plan covers it.
pub open spec fn spec_placement(fields: Seq<Field>, i: int) -> Option<Placement> {
    match (spec_field_place(fields[i]), spec_field_at(fields, i), spec_field_when(fields, i)) {
        (Some(p), Some(at), Some(when)) => Some(Placement { pad: p.pad, align: p.align, at, when }),
        _ => None,
    }
}

fn field_at(fields: &Vec<Field>, i: usize) -> (r: Option<Option<At>>)
    requires
        i < fields@.len(),
    ensures
        r == spec_field_at(fields@, i as int),
{
    match &fields[i].layout.position {
        None => Some(None),
        Some(Position::Static(e)) => match literal_usize(e) {
            Some(n) => Some(Some(At::Static(n))),
            None => None,
        },
        Some(Position::Field(name)) => match find_field(fields, name) {
            Some(c) => if c < i && is_length_source(&fields[c]) {
                Some(Some(At::Field(c)))
            } else {
                None
            },
            None => None,
        },
    }
}

fn field_when(fields: &Vec<Field>, i: usize) -> (r: Option<Option<usize>>)
    requires
        i < fields@.len(),
    ensures
        r == spec_field_when(fields@, i as int),
{
    match &fields[i].layout.condition {
        None => Some(None),
        Some(name) => if matches!(fields[i].kind, FieldKind::Scalar(_)) {
            match find_field(fields, name) {
                Some(k) => if k < i && matches!(fields[k].kind, FieldKind::Flag(_)) {
                    Some(Some(k))
                } else {
                    None
                },
                None => None,
            }
        } else {
            None
        },
    }
}

fn placement(fields: &Vec<Field>, i: usize) -> (r: Option<Placement>)
    requires
        i < fields@.len(),
    ensures
        r == spec_placement(fields@, i as int),
{
    match (field_place(&fields[i]), field_at(fields, i), field_when(fields, i)) {
        (Some(p), Some(at), Some(when)) => Some(Placement { pad: p.pad, align: p.align, at, when }),
        _ => None,
    }
}

/// The placement of every field (none where the plan does not cover it).
pub open spec fn spec_frame_places(s: Schema) -> Seq<Placement> {
    Seq::new(
        s.fields@.len(),
        |i: int|
            match spec_placement(s.fields@, i) {
                Some(p) => p,
                None => Placement { pad: None, align: None, at: None, when: None },
            },
    )
}

proof fn lemma_places_wf(s: Schema)
    requires
        spec_frame_steps(s) is Some,
    ensures
        spec_places_wf(spec_frame_steps(s)->Some_0, spec_frame_places(s)),
{
    let fields = s.fields@;
    let steps = spec_frame_steps(s)->Some_0;
    let places = spec_frame_places(s);
    assert forall|i: int| 0 <= i < steps.len() implies #[trigger] spec_place_wf(steps, spec_place(places, i), i) by {
        assert(spec_field_step(fields, i) is Some);
        assert(spec_placement(fields, i) is Some);
        let p = spec_placement(fields, i)->Some_0;
        assert(spec_place(places, i) == p);
        if let Some(k) = p.when {
            let name = fields[i].layout.condition->Some_0;
            let c = spec_field_index(fields, name@)->Some_0;
            lemma_field_index_range(fields, name@);
            assert(fields.len() <= usize::MAX) by {
                assert(s.fields@.len() == s.fields.len());
            }
            assert(k as int == c);
            assert(spec_field_step(fields, c) is Some);
            assert(steps[c] == spec_field_step(fields, c)->Some_0);
            if let FieldKind::Scalar(sc) = fields[i].kind {
                assert(steps[i] == spec_scalar_step(sc)->Some_0);
            }
        }
        if let Some(At::Field(k)) = p.at {
            if let Some(Position::Field(name)) = fields[i].layout.position {
                let c = spec_field_index(fields, name@)->Some_0;
                lemma_field_index_range(fields, name@);
                assert(fields.len() <= usize::MAX) by {
                    assert(s.fields@.len() == s.fields.len());
                }
                assert(k as int == c);
                assert(spec_field_step(fields, c) is Some);
                assert(steps[c] == spec_field_step(fields, c)->Some_0);
                if let FieldKind::Scalar(sc) = fields[c].kind {
                    assert(steps[c] == spec_scalar_step(sc)->Some_0);
                }
            }
        }
    }
}

/// The placement of every field of a schema.
pub fn frame_places(schema: &Schema) -> (r: Vec<Placement>)
    ensures
        r@ == spec_frame_places(*schema),
        spec_frame_steps(*schema) matches Some(steps) ==> spec_places_wf(steps, r@),
{
    let mut places: Vec<Placement> = Vec::new();
    let mut i: usize = 0;
    while i < schema.fields.len()
        invariant
            i <= schema.fields@.len(),
            places@.len() == i,
            forall|k: int|
                0 <= k < i ==> #[trigger] places@[k] == match spec_placement(schema.fields@, k) {
                    Some(p) => p,
                    None => Placement { pad: None, align: None, at: None, when: None },
                },
        decreases schema.fields.len() - i,
    {
        let p = match placement(&schema.fields, i) {
            Some(p) => p,
            None => Placement { pad: None, align: None, at: None, when: None },
        };
        places.push(p);
        i = i + 1;
    }
    assert(places@ =~= spec_frame_places(*schema));
    proof {
        if spec_frame_steps(*schema) is Some {
            lemma_places_wf(*schema);
        }
    }
    places
}

/// Whether a field can bound the length of later bytes: an unsigned stored
/// scalar that is not a constant.
pub open spec fn spec_is_length_source(f: Field) -> bool {
    match f.kind {
        FieldKind::Scalar(sc) => sc.constant is None && match sc.value_type {
            ValueType::Scalar(t) => t.spec_is_unsigned_integer(),
            _ => false,
        },
        _ => false,
    }
}

/// Whether a field can control a flag: a stored `bool` scalar that is not a
/// constant.
pub open spec fn spec_is_bool_source(f: Field) -> bool {
    match f.kind {
        FieldKind::Scalar(sc) => sc.constant is None && sc.value_type is Bool,
        _ => false,
    }
}

fn is_bool_source(f: &Field) -> (r: bool)
    ensures
        r == spec_is_bool_source(*f),
{
    match &f.kind {
        FieldKind::Scalar(sc) => sc.constant.is_none() && matches!(sc.value_type, ValueType::Bool),
        _ => false,
    }
}

/// The step of field `i`, if the plan covers it.
pub open spec fn spec_field_step(fields: Seq<Field>, i: int) -> Option<FrameStep> {
    let f = fields[i];
    if spec_placement(fields, i) is None {
        None
    } else {
        match f.kind {
            FieldKind::Scalar(sc) => spec_scalar_step(sc),
            FieldKind::Bytes(b) => if b.constant is None {
                match spec_array_len_literal(f) {
                    Some(d) => match spec_parse_decimal(d, usize::MAX as int) {
                        Some(n) => Some(FrameStep::Fixed { len: n as usize }),
                        None => None,
                    },
                    None => None,
                }
            } else {
                None
            },
            FieldKind::ScalarArray(a) => if a.endian is Native {
                None
            } else {
                match spec_array_len_literal(f) {
                    Some(d) => match spec_parse_decimal(d, usize::MAX as int) {
                        Some(n) => if n * a.element.spec_width() <= usize::MAX {
                            Some(FrameStep::Fixed { len: (n * a.element.spec_width()) as usize })
                        } else {
                            None
                        },
                        None => None,
                    },
                    None => None,
                }
            },
            FieldKind::Nested(n) => match n.extent {
                None => Some(FrameStep::Nested { terminal: n.terminal }),
                Some(name) => match spec_field_index(fields, name@) {
                    Some(c) => if c < i && spec_is_length_source(fields[c]) {
                        Some(FrameStep::NestedBounded { controller: c as usize })
                    } else {
                        None
                    },
                    None => None,
                },
            },
            FieldKind::RawBytes(DynamicExtent::Bounded(name)) => match spec_field_index(fields, name@) {
                Some(c) => if c < i && spec_is_length_source(fields[c]) {
                    Some(FrameStep::Bounded { controller: c as usize })
                } else {
                    None
                },
                None => None,
            },
            FieldKind::RawBytes(DynamicExtent::Rest) => if i == fields.len() - 1 {
                Some(FrameStep::Rest)
            } else {
                None
            },
            FieldKind::Array(a) => match spec_field_index(fields, a.controller@) {
                Some(c) => if c < i && spec_is_length_source(fields[c]) {
                    Some(FrameStep::Counted { controller: c as usize, terminal: i == fields.len() - 1 })
                } else {
                    None
                },
                None => None,
            },
            FieldKind::Flag(name) => match spec_field_index(fields, name@) {
                Some(c) => if c < i && spec_is_bool_source(fields[c]) && f.layout.pad_before is None
                    && f.layout.align_before is None && f.layout.position is None {
                    Some(FrameStep::Flag { controller: c as usize })
                } else {
                    None
                },
                None => None,
            },
            FieldKind::BitProjection(bp) => match spec_field_index(fields, bp.controller@) {
                Some(c) => if c < i && fields[c].kind is Scalar && bp.start <= bp.end < 128 && f.layout.pad_before is None
                    && f.layout.align_before is None && f.layout.position is None {
                    Some(FrameStep::Bits { controller: c as usize, start: bp.start, end: bp.end })
                } else {
                    None
                },
                None => None,
            },
            _ => None,
        }
    }
}

/// The framing plan of a schema: one step per field, or nothing when some
/// field is outside what the plan covers.
pub open spec fn spec_frame_steps(s: Schema) -> Option<Seq<FrameStep>> {
    if forall|i: int| 0 <= i < s.fields@.len() ==> (#[trigger] spec_field_step(s.fields@, i)) is Some {
        Some(Seq::new(s.fields@.len(), |i: int| spec_field_step(s.fields@, i)->Some_0))
    } else {
        None
    }
}

/// Whether step `i` can run: a scalar fits in 16 bytes and its constant in
/// its width; bounded bytes follow their controller, a plain scalar; rest
/// bytes come last.
pub open spec fn spec_step_wf(steps: Seq<FrameStep>, i: int) -> bool {
    match steps[i] {
            FrameStep::Scalar { width, constant, check, .. } => width <= 16 && (constant matches Some(c) ==> c
                < pow256(width as nat)) && (check != ValueCheck::Any ==> constant is None),
            FrameStep::Fixed { .. } => true,
            FrameStep::Bounded { controller } | FrameStep::NestedBounded { controller } => controller < i
                && steps[controller as int] matches FrameStep::Scalar {
                constant: None,
                check: ValueCheck::Any,
                ..
            },
        FrameStep::Rest => i == steps.len() - 1,
        FrameStep::Bits { controller, start, end } => controller < i && steps[controller as int] is Scalar && start
            <= end < 128,
        FrameStep::Flag { controller } => controller < i && steps[controller as int] matches FrameStep::Scalar {
            constant: None,
            check: ValueCheck::Bool,
            ..
        },
        FrameStep::Counted { controller, terminal } => controller < i && (terminal ==> i == steps.len() - 1) && (
        steps[controller as int] matches FrameStep::Scalar { constant: None, check: ValueCheck::Any, .. }),
        FrameStep::Nested { .. } => true,
    }
}

/// Steps a view and a writer can run.
#[verifier::opaque]
pub open spec fn spec_steps_wf(steps: Seq<FrameStep>) -> bool {
    &&& steps.len() <= usize::MAX
    &&& forall|i: int| 0 <= i < steps.len() ==> #[trigger] spec_step_wf(steps, i)
}

/// What well-formed steps promise of step `i`.
pub proof fn lemma_step_wf(steps: Seq<FrameStep>, i: int)
    requires
        spec_steps_wf(steps),
        0 <= i < steps.len(),
    ensures
        spec_step_wf(steps, i),
        steps.len() <= usize::MAX,
{
    reveal(spec_steps_wf);
}

fn scalar_step(sc: &Scalar) -> (r: Option<FrameStep>)
    ensures
        r == spec_scalar_step(*sc),
{
    let w = sc.wire_type.width();
    let big = matches!(sc.endian, Endian::Big);
    if w > 1 && matches!(sc.endian, Endian::Native) {
        return None;
    }
    match sc.value_type {
        ValueType::Scalar(t) => match &sc.constant {
            None => Some(FrameStep::Scalar { width: w, big_endian: big, constant: None, check: ValueCheck::Any }),
            Some(e) => {
                if !(t == sc.wire_type && t.is_unsigned_integer()) {
                    return None;
                }
                let digits = match &e.form {
                    ExprForm::Lit(Literal::Int(d)) => d,
                    _ => return None,
                };
                match parse_decimal(digits.as_str(), u128::MAX) {
                    Some(v) => if w <= 16 && fits(v, w) {
                        Some(FrameStep::Scalar { width: w, big_endian: big, constant: Some(v), check: ValueCheck::Any })
                    } else {
                        None
                    },
                    None => None,
                }
            },
        },
        ValueType::Bool => if sc.constant.is_none() && sc.wire_type.is_unsigned_integer() {
            Some(FrameStep::Scalar { width: w, big_endian: big, constant: None, check: ValueCheck::Bool })
        } else {
            None
        },
        ValueType::Usize => if sc.constant.is_none() && sc.wire_type.is_unsigned_integer() {
            Some(FrameStep::Scalar { width: w, big_endian: big, constant: None, check: ValueCheck::Usize })
        } else {
            None
        },
        ValueType::Char => if sc.constant.is_none() && sc.wire_type.is_unsigned_integer() {
            Some(FrameStep::Scalar { width: w, big_endian: big, constant: None, check: ValueCheck::Char })
        } else {
            None
        },
        _ => None,
    }
}

fn is_length_source(f: &Field) -> (r: bool)
    ensures
        r == spec_is_length_source(*f),
{
    match &f.kind {
        FieldKind::Scalar(sc) => sc.constant.is_none() && match sc.value_type {
            ValueType::Scalar(t) => t.is_unsigned_integer(),
            _ => false,
        },
        _ => false,
    }
}

fn field_step(fields: &Vec<Field>, i: usize) -> (r: Option<FrameStep>)
    requires
        i < fields@.len(),
    ensures
        r == spec_field_step(fields@, i as int),
{
    let f = &fields[i];
    if placement(fields, i).is_none() {
        return None;
    }
    match &f.kind {
        FieldKind::Scalar(sc) => scalar_step(sc),
        FieldKind::Bytes(b) => {
            if b.constant.is_some() {
                return None;
            }
            match array_len_literal(f) {
                Some(d) => match parse_decimal(d.as_str(), usize::MAX as u128) {
                    Some(n) => Some(FrameStep::Fixed { len: n as usize }),
                    None => None,
                },
                None => None,
            }
        },
        FieldKind::ScalarArray(a) => {
            if matches!(a.endian, Endian::Native) {
                return None;
            }
            match array_len_literal(f) {
                Some(d) => match parse_decimal(d.as_str(), usize::MAX as u128) {
                    Some(n) => match (n as usize).checked_mul(a.element.width()) {
                        Some(len) => Some(FrameStep::Fixed { len }),
                        None => None,
                    },
                    None => None,
                },
                None => None,
            }
        },
        FieldKind::Nested(n) => match &n.extent {
            None => Some(FrameStep::Nested { terminal: n.terminal }),
            Some(name) => match find_field(fields, name) {
                Some(c) => if c < i && is_length_source(&fields[c]) {
                    Some(FrameStep::NestedBounded { controller: c })
                } else {
                    None
                },
                None => None,
            },
        },
        FieldKind::RawBytes(DynamicExtent::Bounded(name)) => match find_field(fields, name) {
            Some(c) => if c < i && is_length_source(&fields[c]) {
                Some(FrameStep::Bounded { controller: c })
            } else {
                None
            },
            None => None,
        },
        FieldKind::RawBytes(DynamicExtent::Rest) => if i == fields.len() - 1 {
            Some(FrameStep::Rest)
        } else {
            None
        },
        FieldKind::Array(a) => match find_field(fields, &a.controller) {
            Some(c) => if c < i && is_length_source(&fields[c]) {
                Some(FrameStep::Counted { controller: c, terminal: i == fields.len() - 1 })
            } else {
                None
            },
            None => None,
        },
        FieldKind::Flag(name) => match find_field(fields, name) {
            Some(c) => if c < i && is_bool_source(&fields[c]) && f.layout.pad_before.is_none()
                && f.layout.align_before.is_none() && f.layout.position.is_none() {
                Some(FrameStep::Flag { controller: c })
            } else {
                None
            },
            None => None,
        },
        FieldKind::BitProjection(bp) => match find_field(fields, &bp.controller) {
            Some(c) => if c < i && matches!(fields[c].kind, FieldKind::Scalar(_)) && bp.start <= bp.end && bp.end
                < 128 && f.layout.pad_before.is_none() && f.layout.align_before.is_none()
                && f.layout.position.is_none() {
                Some(FrameStep::Bits { controller: c, start: bp.start, end: bp.end })
            } else {
                None
            },
            None => None,
        },
        _ => None,
    }
}

proof fn lemma_width_at_most_16(sc: Scalar)
    ensures
        sc.wire_type.spec_width() <= 16,
{
}

proof fn lemma_steps_wf(s: Schema)
    requires
        spec_frame_steps(s) is Some,
    ensures
        spec_steps_wf(spec_frame_steps(s)->Some_0),
{
    let fields = s.fields@;
    let steps = spec_frame_steps(s)->Some_0;
    reveal(spec_steps_wf);
    assert(steps.len() <= usize::MAX) by {
        assert(s.fields@.len() == s.fields.len());
    }
    assert forall|i: int| 0 <= i < steps.len() implies #[trigger] spec_step_wf(steps, i) by {
        assert(spec_field_step(fields, i) is Some);
        assert(steps[i] == spec_field_step(fields, i)->Some_0);
        if let FieldKind::Scalar(sc) = fields[i].kind {
            lemma_width_at_most_16(sc);
            if spec_placement(fields, i) is Some {
                assert(steps[i] == spec_scalar_step(sc)->Some_0);
                if let Some(e) = sc.constant {
                    if let Some(d) = spec_int_literal(e) {
                        lemma_parse_decimal_range(d, u128::MAX as int);
                    }
                }
            }
        }
        if let FieldKind::Array(a) = fields[i].kind {
            if spec_placement(fields, i) is Some {
                let c = spec_field_index(fields, a.controller@)->Some_0;
                lemma_field_index_range(fields, a.controller@);
                assert(fields.len() <= usize::MAX) by {
                    assert(s.fields@.len() == s.fields.len());
                }
                assert(c as usize as int == c);
                assert(spec_field_step(fields, c) is Some);
                assert(steps[c] == spec_field_step(fields, c)->Some_0);
                if let FieldKind::Scalar(sc) = fields[c].kind {
                    assert(spec_scalar_step(sc) is Some);
                    assert(steps[c] == spec_scalar_step(sc)->Some_0);
                }
                assert(steps[i] == FrameStep::Counted { controller: c as usize, terminal: i == fields.len() - 1 });
            }
        }
        if let FieldKind::Flag(name) = fields[i].kind {
            if spec_placement(fields, i) is Some {
                let c = spec_field_index(fields, name@)->Some_0;
                lemma_field_index_range(fields, name@);
                assert(fields.len() <= usize::MAX) by {
                    assert(s.fields@.len() == s.fields.len());
                }
                assert(c as usize as int == c);
                assert(spec_field_step(fields, c) is Some);
                assert(steps[c] == spec_field_step(fields, c)->Some_0);
                if let FieldKind::Scalar(sc) = fields[c].kind {
                    assert(steps[c] == spec_scalar_step(sc)->Some_0);
                }
                assert(steps[i] == FrameStep::Flag { controller: c as usize });
            }
        }
        if let FieldKind::Nested(n) = fields[i].kind {
            if spec_placement(fields, i) is Some && n.extent is Some {
                let name = n.extent->Some_0;
                let c = spec_field_index(fields, name@)->Some_0;
                lemma_field_index_range(fields, name@);
                assert(fields.len() <= usize::MAX) by {
                    assert(s.fields@.len() == s.fields.len());
                }
                assert(c as usize as int == c);
                assert(spec_field_step(fields, c) is Some);
                assert(steps[c] == spec_field_step(fields, c)->Some_0);
                if let FieldKind::Scalar(sc) = fields[c].kind {
                    assert(spec_scalar_step(sc) is Some);
                    assert(steps[c] == spec_scalar_step(sc)->Some_0);
                }
                assert(steps[i] == FrameStep::NestedBounded { controller: c as usize });
            }
        }
        if let FieldKind::RawBytes(DynamicExtent::Bounded(name)) = fields[i].kind {
            if spec_placement(fields, i) is Some {
                let c = spec_field_index(fields, name@)->Some_0;
                lemma_field_index_range(fields, name@);
                assert(0 <= c < fields.len());
                assert(fields.len() <= usize::MAX) by {
                    assert(s.fields@.len() == s.fields.len());
                }
                assert(c as usize as int == c);
                assert(spec_field_step(fields, c) is Some);
                assert(steps[c] == spec_field_step(fields, c)->Some_0);
                if let FieldKind::Scalar(sc) = fields[c].kind {
                    assert(spec_scalar_step(sc) is Some);
                    assert(steps[c] == spec_scalar_step(sc)->Some_0);
                    assert(steps[c] matches FrameStep::Scalar { constant: None, check: ValueCheck::Any, .. });
                }
                assert(steps[i] == FrameStep::Bounded { controller: c as usize });
            }
        }
        if let FieldKind::BitProjection(bp) = fields[i].kind {
            if spec_placement(fields, i) is Some {
                let c = spec_field_index(fields, bp.controller@)->Some_0;
                lemma_field_index_range(fields, bp.controller@);
                assert(0 <= c < fields.len());
                assert(fields.len() <= usize::MAX) by {
                    assert(s.fields@.len() == s.fields.len());
                }
                assert(c as usize as int == c);
                assert(spec_field_step(fields, c) is Some);
                assert(steps[c] == spec_field_step(fields, c)->Some_0);
                if let FieldKind::Scalar(sc) = fields[c].kind {
                    assert(steps[c] == spec_scalar_step(sc)->Some_0);
                }
                assert(steps[i] == FrameStep::Bits { controller: c as usize, start: bp.start, end: bp.end });
            }
        }
    }
}

/// The framing plan of a schema, when the plan covers every field.
pub fn frame_steps(schema: &Schema) -> (r: Option<Vec<FrameStep>>)
    ensures
        match r {
            Some(v) => spec_frame_steps(*schema) == Some(v@) && spec_steps_wf(v@),
            None => spec_frame_steps(*schema) is None,
        },
{
    let mut steps: Vec<FrameStep> = Vec::new();
    let mut i: usize = 0;
    while i < schema.fields.len()
        invariant
            i <= schema.fields@.len(),
            steps@.len() == i,
            forall|k: int| 0 <= k < i ==> spec_field_step(schema.fields@, k) == Some(#[trigger] steps@[k]),
        decreases schema.fields.len() - i,
    {
        match field_step(&schema.fields, i) {
            Some(step) => steps.push(step),
            None => {
                assert(!(spec_field_step(schema.fields@, i as int) is Some));
                return None;
            },
        }
        i = i + 1;
    }
    assert forall|k: int| 0 <= k < schema.fields@.len() implies (#[trigger] spec_field_step(schema.fields@, k)) is Some by {
        assert(spec_field_step(schema.fields@, k) == Some(steps@[k]));
    }
    assert(steps@ =~= Seq::new(schema.fields@.len(), |k: int| spec_field_step(schema.fields@, k)->Some_0));
    proof {
        lemma_steps_wf(*schema);
    }
    Some(steps)
}

/// Where a field lies in the input, and the value of a scalar field (zero
/// for bytes).
#[derive(Clone, Copy, Debug, PartialEq, Eq, Structural)]
pub struct FieldSpan {
    pub start: usize,
    pub end: usize,
    pub value: u128,
}

/// Why input bytes do not frame as the layout.
#[derive(Clone, Copy, Debug, PartialEq, Eq, Structural)]
pub enum ViewError {
    /// The input ends before field `field` does: it needs at least
    /// `additional_at_least` bytes beyond `offset`, the input's end.
    NeedMore { field: usize, offset: usize, additional_at_least: usize },
    /// A constant field holds `actual` rather than `expected`.
    ConstantMismatch { field: usize, offset: usize, expected: u128, actual: u128 },
    /// A `bool` field holds `actual`, neither 0 nor 1.
    InvalidValue { field: usize, offset: usize, actual: u128 },
    /// A field would end past the addressable range.
    InvalidExtent { field: usize },
    /// Bytes are left after the last field.
    Trailing { consumed: usize, len: usize },
    /// The schema validator at this position refused the framed fields.
    Validator { index: usize },
    /// The frame of nested field `field`, starting at `offset`, refused.
    Nested { field: usize, offset: usize },
    /// Nested field `field` consumed `consumed` bytes where `available`
    /// were there (or its fixed size demands).
    InvalidFrame { field: usize, offset: usize, consumed: usize, available: usize },
    /// Nested field `field` is not last and its type has no fixed size.
    LayoutUnavailable { field: usize },
    /// Field `field` is placed at `position`, before `cursor`, where the
    /// fields before it end.
    PositionBeforeCursor { field: usize, position: usize, cursor: usize },
}

/// Where the next field starts, after the fields framed so far.
pub open spec fn spec_cursor(spans: Seq<FieldSpan>) -> int {
    if spans.len() == 0 {
        0
    } else {
        spans.last().end as int
    }
}

/// Where field `i`, starting at `start`, would end, given the fields framed
/// before it.
pub open spec fn spec_step_end(step: FrameStep, start: int, spans: Seq<FieldSpan>, len: int) -> int {
    match step {
        FrameStep::Scalar { width, .. } => start + width,
        FrameStep::Fixed { len: n } => start + n,
        FrameStep::Bounded { controller } => start + spans[controller as int].value,
        FrameStep::NestedBounded { controller } => start + spans[controller as int].value,
        FrameStep::Rest => if start <= len {
            len
        } else {
            start
        },
        FrameStep::Bits { .. } => start,
        FrameStep::Flag { .. } => start,
        FrameStep::Counted { .. } => if start <= len {
            len
        } else {
            start
        },
        FrameStep::Nested { .. } => start,
    }
}

/// Frames nested field `i`, starting at `cur`, from the report of its
/// type's frame: a start past the input's end, a refusal,
/// more bytes consumed than remain, a non-terminal type without a fixed size
/// or one that consumed other than it, or the bytes it consumed.
pub open spec fn spec_nested_step(
    terminal: bool,
    report: ChildReport,
    input: Seq<u8>,
    i: int,
    spans: Seq<FieldSpan>,
    cur: int,
) -> Result<Seq<FieldSpan>, ViewError> {
    let len = input.len() as int;
    let avail = len - cur;
    if cur > len {
        Err(ViewError::NeedMore { field: i as usize, offset: len as usize, additional_at_least: (cur - len) as usize })
    } else {
        match report.consumed {
        None => Err(ViewError::Nested { field: i as usize, offset: cur as usize }),
        Some(c) => if c > avail {
            Err(ViewError::InvalidFrame { field: i as usize, offset: cur as usize, consumed: c, available: avail as usize })
        } else if !terminal && report.fixed_size is None {
            Err(ViewError::LayoutUnavailable { field: i as usize })
        } else if !terminal && report.fixed_size != Some(c) {
            Err(
                ViewError::InvalidFrame {
                    field: i as usize,
                    offset: cur as usize,
                    consumed: c,
                    available: report.fixed_size->Some_0,
                },
            )
        } else {
            Ok(spans.push(FieldSpan { start: cur as usize, end: (cur + c) as usize, value: 0 }))
        }
    }
    }
}

/// Frames field `i` after the fields framed before it.
pub open spec fn spec_view_step(
    steps: Seq<FrameStep>,
    places: Seq<Placement>,
    input: Seq<u8>,
    children: Seq<ChildReport>,
    i: int,
    spans: Seq<FieldSpan>,
) -> Result<Seq<FieldSpan>, ViewError> {
    let p = spec_place(places, i);
    let cur = spec_cursor(spans);
    if p.when matches Some(k) && spans[k as int].value == 0 {
        Ok(spans.push(FieldSpan { start: cur as usize, end: cur as usize, value: 0 }))
    } else {
        let start = spec_field_start(p, spans);
        if start > usize::MAX {
            Err(ViewError::InvalidExtent { field: i as usize })
        } else if start < cur {
            Err(ViewError::PositionBeforeCursor { field: i as usize, position: start as usize, cursor: cur as usize })
        } else if let Some(terminal) = spec_child_framed(steps[i]) {
            spec_nested_step(terminal, spec_report(children, i), input, i, spans, start)
        } else if steps[i] is NestedBounded {
            match spec_plain_step(steps, input, i, spans, start) {
                Err(e) => Err(e),
                Ok(next) => match spec_report(children, i).consumed {
                    None => Err(ViewError::Nested { field: i as usize, offset: start as usize }),
                    Some(c) => if c != next.last().end - start {
                        Err(
                            ViewError::InvalidFrame {
                                field: i as usize,
                                offset: start as usize,
                                consumed: c,
                                available: (next.last().end - start) as usize,
                            },
                        )
                    } else {
                        Ok(next)
                    },
                },
            }
        } else {
            spec_plain_step(steps, input, i, spans, start)
        }
    }
}

/// Where a present field placed by `p` starts after the fields framed
/// before it.
pub open spec fn spec_field_start(p: Placement, spans: Seq<FieldSpan>) -> int {
    match p.at {
        Some(At::Static(n)) => n as int,
        Some(At::Field(c)) => spans[c as int].value as int,
        None => spec_start(p, spec_cursor(spans)),
    }
}

/// Whether a placement can run at field `i`: the flag it is present under
/// and the scalar it is placed at come earlier, and only a scalar is
/// conditional.
pub open spec fn spec_place_wf(steps: Seq<FrameStep>, p: Placement, i: int) -> bool {
    &&& p.when matches Some(k) ==> k < i && steps[k as int] is Flag && steps[i] is Scalar
    &&& p.at matches Some(At::Field(c)) ==> c < i && steps[c as int] matches FrameStep::Scalar {
        constant: None,
        check: ValueCheck::Any,
        ..
    }
}

/// Placements a view can run.
pub open spec fn spec_places_wf(steps: Seq<FrameStep>, places: Seq<Placement>) -> bool {
    forall|i: int| 0 <= i < steps.len() ==> #[trigger] spec_place_wf(steps, spec_place(places, i), i)
}

/// Frames field `i`, not a nested one, starting at `cur`, after the fields
/// framed before it.
pub open spec fn spec_plain_step(
    steps: Seq<FrameStep>,
    input: Seq<u8>,
    i: int,
    spans: Seq<FieldSpan>,
    cur: int,
) -> Result<Seq<FieldSpan>, ViewError> {
    let len = input.len() as int;
    let end = spec_step_end(steps[i], cur, spans, len);
    if end > usize::MAX {
        Err(ViewError::InvalidExtent { field: i as usize })
    } else if end > len {
        Err(ViewError::NeedMore { field: i as usize, offset: len as usize, additional_at_least: (end - len) as usize })
    } else {
        let v: nat = match steps[i] {
            FrameStep::Scalar { big_endian, .. } => spec_value(input.subrange(cur, end), big_endian),
            FrameStep::Bits { controller, start, end: last } => spec_get_bits(
                spans[controller as int].value,
                start,
                spec_value_mask(last - start + 1),
            ) as nat,
            FrameStep::Flag { controller } => spans[controller as int].value as nat,
            _ => 0,
        };
        if steps[i] matches FrameStep::Scalar { constant: Some(c), .. } && v != c {
            Err(
                ViewError::ConstantMismatch {
                    field: i as usize,
                    offset: cur as usize,
                    expected: steps[i]->constant->Some_0,
                    actual: v as u128,
                },
            )
        } else if steps[i] is Scalar && !spec_check_ok(steps[i]->check, v) {
            Err(ViewError::InvalidValue { field: i as usize, offset: cur as usize, actual: v as u128 })
        } else {
            Ok(spans.push(FieldSpan { start: cur as usize, end: end as usize, value: v as u128 }))
        }
    }
}

/// Frames the first `n` fields.
pub open spec fn spec_view_prefix(
    steps: Seq<FrameStep>,
    places: Seq<Placement>,
    input: Seq<u8>,
    children: Seq<ChildReport>,
    n: nat,
) -> Result<Seq<FieldSpan>, ViewError>
    decreases n,
{
    if n == 0 {
        Ok(Seq::empty())
    } else {
        match spec_view_prefix(steps, places, input, children, (n - 1) as nat) {
            Err(e) => Err(e),
            Ok(spans) => spec_view_step(steps, places, input, children, n - 1, spans),
        }
    }
}

/// What a view of `input` finds, given what the frames of nested field
/// types report (`children`, by field position): each field's span, in
/// order, the first refusal, or the bytes left after the last field.
pub open spec fn spec_view(
    steps: Seq<FrameStep>,
    places: Seq<Placement>,
    input: Seq<u8>,
    children: Seq<ChildReport>,
) -> Result<
    Seq<FieldSpan>,
    ViewError,
> {
    match spec_view_prefix(steps, places, input, children, steps.len()) {
        Err(e) => Err(e),
        Ok(spans) => if spec_cursor(spans) < input.len() {
            Err(ViewError::Trailing { consumed: spec_cursor(spans) as usize, len: input.len() as usize })
        } else {
            Ok(spans)
        },
    }
}

proof fn lemma_view_prefix_shape(
    steps: Seq<FrameStep>,
    places: Seq<Placement>,
    input: Seq<u8>,
    children: Seq<ChildReport>,
    n: nat,
)
    requires
        spec_view_prefix(steps, places, input, children, n) is Ok,
        n <= steps.len(),
    ensures
        spec_view_prefix(steps, places, input, children, n)->Ok_0.len() == n,
        0 <= spec_cursor(spec_view_prefix(steps, places, input, children, n)->Ok_0) <= input.len(),
        forall|k: int|
            0 <= k < n ==> (#[trigger] spec_view_prefix(steps, places, input, children, n)->Ok_0[k]) == spec_view_prefix(
                steps,
                places,
                input,
                children,
                (k + 1) as nat,
            )->Ok_0.last(),
    decreases n,
{
    if n > 0 {
        lemma_view_prefix_shape(steps, places, input, children, (n - 1) as nat);
    }
}

/// The first validator that refuses, by position.
pub open spec fn spec_first_refusal(ok: Seq<bool>) -> Option<usize> {
    if exists|k: int| 0 <= k < ok.len() && !ok[k] {
        Some(
            (choose|k: int| 0 <= k < ok.len() && !ok[k] && forall|j: int| 0 <= j < k ==> #[trigger] ok[j]) as usize,
        )
    } else {
        None
    }
}

proof fn lemma_first_refusal(ok: Seq<bool>, k: int)
    requires
        0 <= k < ok.len() <= usize::MAX,
        !ok[k],
        forall|j: int| 0 <= j < k ==> #[trigger] ok[j],
    ensures
        spec_first_refusal(ok) == Some(k as usize),
{
    let c = choose|c: int| 0 <= c < ok.len() && !ok[c] && forall|j: int| 0 <= j < c ==> #[trigger] ok[j];
    if c < k {
        assert(ok[c]);
    } else if c > k {
        assert(ok[k]);
    }
}

proof fn lemma_no_refusal(ok: Seq<bool>)
    requires
        forall|j: int| 0 <= j < ok.len() ==> #[trigger] ok[j],
    ensures
        spec_first_refusal(ok) is None,
{
}

/// What a view of `input` finds when the schema's validators, in order,
/// accept (`true`) or refuse the framed fields: the framing refusal, the
/// first refusing validator, or the framing's result.
pub open spec fn spec_view_checked(
    steps: Seq<FrameStep>,
    places: Seq<Placement>,
    input: Seq<u8>,
    children: Seq<ChildReport>,
    validators_ok: Seq<bool>,
) -> Result<Seq<FieldSpan>, ViewError> {
    match spec_view_prefix(steps, places, input, children, steps.len()) {
        Err(e) => Err(e),
        Ok(_) => match spec_first_refusal(validators_ok) {
            Some(k) => Err(ViewError::Validator { index: k }),
            None => spec_view(steps, places, input, children),
        },
    }
}

/// Validators that all accept change nothing a view finds.
pub proof fn law_accepting_validators(
    steps: Seq<FrameStep>,
    places: Seq<Placement>,
    input: Seq<u8>,
    children: Seq<ChildReport>,
    validators_ok: Seq<bool>,
)
    requires
        forall|j: int| 0 <= j < validators_ok.len() ==> #[trigger] validators_ok[j],
    ensures
        spec_view_checked(steps, places, input, children, validators_ok) == spec_view(steps, places, input, children),
{
}

proof fn lemma_view_refusal_persists(
    steps: Seq<FrameStep>,
    places: Seq<Placement>,
    input: Seq<u8>,
    children: Seq<ChildReport>,
    n: nat,
    e: ViewError,
)
    requires
        n <= steps.len(),
        spec_view_prefix(steps, places, input, children, n) == Err::<Seq<FieldSpan>, ViewError>(e),
    ensures
        spec_view(steps, places, input, children) == Err::<Seq<FieldSpan>, ViewError>(e),
        spec_view_prefix(steps, places, input, children, steps.len()) == Err::<Seq<FieldSpan>, ViewError>(e),
    decreases steps.len() - n,
{
    if n < steps.len() {
        lemma_view_refusal_persists(steps, places, input, children, n + 1, e);
    }
}

/// Where nested field `i`, starting at `cur` in an input of `len` bytes,
/// ends, from its type's report.
fn nested_end(terminal: bool, report: ChildReport, len: usize, cur: usize, i: usize) -> (r: Result<usize, ViewError>)
    ensures
        forall|input: Seq<u8>, spans: Seq<FieldSpan>|
            #![trigger spec_nested_step(terminal, report, input, i as int, spans, cur as int)]
            input.len() == len ==> match r {
                Ok(end) => spec_nested_step(terminal, report, input, i as int, spans, cur as int) == Ok::<
                    Seq<FieldSpan>,
                    ViewError,
                >(spans.push(FieldSpan { start: cur, end, value: 0 })) && cur <= end <= len,
                Err(e) => spec_nested_step(terminal, report, input, i as int, spans, cur as int) == Err::<
                    Seq<FieldSpan>,
                    ViewError,
                >(e),
            },
{
    if cur > len {
        return Err(ViewError::NeedMore { field: i, offset: len, additional_at_least: cur - len });
    }
    let avail = len - cur;
    match report.consumed {
        None => Err(ViewError::Nested { field: i, offset: cur }),
        Some(c) => if c > avail {
            Err(ViewError::InvalidFrame { field: i, offset: cur, consumed: c, available: avail })
        } else if !terminal {
            match report.fixed_size {
                None => Err(ViewError::LayoutUnavailable { field: i }),
                Some(x) => if x != c {
                    Err(ViewError::InvalidFrame { field: i, offset: cur, consumed: c, available: x })
                } else {
                    Ok(cur + c)
                },
            }
        } else {
            Ok(cur + c)
        },
    }
}

/// Frames `input` as the layout of `steps` placed by `places`, given what the frames of nested
/// field types report on the input from each nested field's start
/// (`children`, by field position) and whether each schema validator
/// accepts (`validators_ok`).
pub fn view_frame(
    steps: &Vec<FrameStep>,
    places: &Vec<Placement>,
    input: &Vec<u8>,
    children: &Vec<ChildReport>,
    validators_ok: &Vec<bool>,
) -> (r: Result<Vec<FieldSpan>, ViewError>)
    requires
        spec_steps_wf(steps@),
        spec_places_wf(steps@, places@),
    ensures
        match r {
            Ok(v) => spec_view_checked(steps@, places@, input@, children@, validators_ok@) == Ok::<Seq<FieldSpan>, ViewError>(v@),
            Err(e) => spec_view_checked(steps@, places@, input@, children@, validators_ok@) == Err::<Seq<FieldSpan>, ViewError>(e),
        },
{
    let len = input.len();
    let mut spans: Vec<FieldSpan> = Vec::new();
    let mut cur: usize = 0;
    let mut i: usize = 0;
    while i < steps.len()
        invariant
            spec_steps_wf(steps@),
            spec_places_wf(steps@, places@),
            len == input@.len(),
            i <= steps@.len(),
            spec_view_prefix(steps@, places@, input@, children@, i as nat) == Ok::<Seq<FieldSpan>, ViewError>(spans@),
            cur == spec_cursor(spans@),
            spans@.len() == i,
            cur <= len,
        decreases steps.len() - i,
    {
        let step = steps[i];
        assert(steps@[i as int] == step);
        proof {
            lemma_step_wf(steps@, i as int);
        }
        let ghost before = spans@;
        let place = if i < places.len() {
            places[i]
        } else {
            Placement { pad: None, align: None, at: None, when: None }
        };
        assert(place == spec_place(places@, i as int));
        assert(spec_place_wf(steps@, place, i as int));
        let absent = match place.when {
            Some(k) => spans[k].value == 0,
            None => false,
        };
        let at_start: Option<usize> = match place.at {
            Some(At::Static(n)) => Some(n),
            Some(At::Field(c)) => if spans[c].value <= usize::MAX as u128 {
                Some(spans[c].value as usize)
            } else {
                None
            },
            None => start_of(place, cur),
        };
        let refused: Option<ViewError> = if absent {
            spans.push(FieldSpan { start: cur, end: cur, value: 0 });
            None
        } else if at_start.is_none() {
            Some(ViewError::InvalidExtent { field: i })
        } else if at_start.unwrap() < cur {
            Some(ViewError::PositionBeforeCursor { field: i, position: at_start.unwrap(), cursor: cur })
        } else {
            let start = at_start.unwrap();
            assert(start == spec_field_start(place, before));
            let child_framed = match step {
                FrameStep::Nested { terminal } => Some(terminal),
                FrameStep::Counted { terminal: false, .. } => Some(true),
                _ => None,
            };
            assert(child_framed == spec_child_framed(step));
            if let Some(terminal) = child_framed {
                let report = if i < children.len() {
                    children[i]
                } else {
                    ChildReport { consumed: None, fixed_size: None }
                };
                assert(report == spec_report(children@, i as int));
                match nested_end(terminal, report, len, start, i) {
                    Err(e) => Some(e),
                    Ok(end) => {
                        spans.push(FieldSpan { start, end, value: 0 });
                        cur = end;
                        None
                    },
                }
            } else {
                let need: u128 = match step {
                    FrameStep::Scalar { width, .. } => width as u128,
                    FrameStep::Fixed { len: n } => n as u128,
                    FrameStep::Bounded { controller } => spans[controller].value,
                    FrameStep::NestedBounded { controller } => spans[controller].value,
                    FrameStep::Rest => if start <= len {
                        (len - start) as u128
                    } else {
                        0
                    },
                    FrameStep::Bits { .. } => 0,
                    FrameStep::Flag { .. } => 0,
                    FrameStep::Counted { .. } => if start <= len {
                        (len - start) as u128
                    } else {
                        0
                    },
                    FrameStep::Nested { .. } => 0,
                };
                if need > (usize::MAX - start) as u128 {
                    Some(ViewError::InvalidExtent { field: i })
                } else {
                    let end: usize = start + need as usize;
                    assert(end == spec_step_end(step, start as int, before, len as int));
                    if end > len {
                        Some(ViewError::NeedMore { field: i, offset: len, additional_at_least: end - len })
                    } else {
                        let value: u128 = match step {
                            FrameStep::Scalar { big_endian, .. } => read_value(input, start, end, big_endian),
                            FrameStep::Bits { controller, start: first, end: last } => {
                                let raw = spans[controller].value;
                                let w = last - first + 1;
                                let mask: u128 = if w == 128 {
                                    u128::MAX
                                } else {
                                    assert(1u128 << w >= 1) by (bit_vector)
                                        requires
                                            w < 128,
                                    ;
                                    (1u128 << w) - 1
                                };
                                proof {
                                    lemma_value_mask_shape(w);
                                }
                                (raw >> first) & mask
                            },
                            FrameStep::Flag { controller } => spans[controller].value,
                            _ => 0,
                        };
                        let refusal = match step {
                            FrameStep::Scalar { constant: Some(c), .. } => if value != c {
                                Some(ViewError::ConstantMismatch { field: i, offset: start, expected: c, actual: value })
                            } else {
                                None
                            },
                            FrameStep::Scalar { check, .. } => if !check_ok(check, value) {
                                Some(ViewError::InvalidValue { field: i, offset: start, actual: value })
                            } else {
                                None
                            },
                            FrameStep::NestedBounded { .. } => {
                                let report = if i < children.len() {
                                    children[i]
                                } else {
                                    ChildReport { consumed: None, fixed_size: None }
                                };
                                assert(report == spec_report(children@, i as int));
                                match report.consumed {
                                    None => Some(ViewError::Nested { field: i, offset: start }),
                                    Some(c) => if c != end - start {
                                        Some(
                                            ViewError::InvalidFrame {
                                                field: i,
                                                offset: start,
                                                consumed: c,
                                                available: end - start,
                                            },
                                        )
                                    } else {
                                        None
                                    },
                                }
                            },
                            _ => None,
                        };
                        if refusal.is_none() {
                            spans.push(FieldSpan { start, end, value });
                            cur = end;
                        }
                        refusal
                    }
                }
            }
        };
        if let Some(e) = refused {
            proof {
                assert(spec_view_step(steps@, places@, input@, children@, i as int, before) == Err::<
                    Seq<FieldSpan>,
                    ViewError,
                >(e));
                lemma_view_refusal_persists(steps@, places@, input@, children@, (i + 1) as nat, e);
            }
            return Err(e);
        }
        i = i + 1;
    }
    assert(spec_view_prefix(steps@, places@, input@, children@, steps@.len()) == Ok::<Seq<FieldSpan>, ViewError>(spans@));
    let mut k: usize = 0;
    while k < validators_ok.len()
        invariant
            k <= validators_ok@.len(),
            validators_ok@.len() == validators_ok.len(),
            forall|j: int| 0 <= j < k ==> #[trigger] validators_ok@[j],
            spec_view_prefix(steps@, places@, input@, children@, steps@.len()) == Ok::<Seq<FieldSpan>, ViewError>(spans@),
        decreases validators_ok.len() - k,
    {
        if !validators_ok[k] {
            assert(spec_first_refusal(validators_ok@) == Some(k as usize)) by {
                lemma_first_refusal(validators_ok@, k as int);
            }
            return Err(ViewError::Validator { index: k });
        }
        k = k + 1;
    }
    assert(spec_first_refusal(validators_ok@) is None) by {
        lemma_no_refusal(validators_ok@);
    }
    if cur < len {
        return Err(ViewError::Trailing { consumed: cur, len });
    }
    Ok(spans)
}

/// Where a writer takes the bytes of a field from.
#[derive(Clone, Copy, Debug, PartialEq, Eq, Structural)]
pub enum WriteSource {
    /// The field's constant.
    Constant,
    /// The length of the bytes that the field bounds.
    Length,
    /// The value set for the slot at this position.
    Slot(usize),
}

/// A value set on a writer's slot.
#[derive(Debug)]
pub enum SlotValue {
    Scalar(u128),
    Bytes(Vec<u8>),
}

/// Why a writer refuses the values it was given.
#[derive(Clone, Copy, Debug, PartialEq, Eq, Structural)]
pub enum WriteError {
    /// Bytes bounded by the same controller differ in length: the first
    /// has `expected` bytes, the first that differs `actual`.
    LengthConflict { field: usize, expected: usize, actual: usize },
    /// The bytes' length does not fit in their controller.
    LengthOverflow { field: usize },
    /// Field `field` would start before what was written, or past the
    /// addressable range.
    Layout { field: usize },
}

/// A framing plan with each field's placement and the source of its bytes.
pub struct WritePlan {
    pub steps: Vec<FrameStep>,
    pub places: Vec<Placement>,
    pub sources: Vec<WriteSource>,
}

/// Whether field `j` is bytes bounded by field `i`.
pub open spec fn spec_is_dependent(steps: Seq<FrameStep>, j: int, i: int) -> bool {
    steps[j] == FrameStep::Bounded { controller: i as usize } || steps[j] == FrameStep::NestedBounded {
        controller: i as usize,
    }
}

/// Whether some field is bytes bounded by field `i`.
pub open spec fn spec_has_dependent(steps: Seq<FrameStep>, i: int) -> bool {
    exists|j: int| 0 <= j < steps.len() && #[trigger] spec_is_dependent(steps, j, i)
}

/// Whether field `i` takes its bytes from a slot: it is neither a constant
/// nor a length controller.
pub open spec fn spec_takes_slot(steps: Seq<FrameStep>, i: int) -> bool {
    !(steps[i] matches FrameStep::Scalar { constant: Some(_), .. }) && !(steps[i] is Scalar && spec_has_dependent(
        steps,
        i,
    ))
}

/// How many of the first `n` fields take a slot.
pub open spec fn spec_slots_before(steps: Seq<FrameStep>, n: nat) -> nat
    decreases n,
{
    if n == 0 {
        0
    } else {
        spec_slots_before(steps, (n - 1) as nat) + if spec_takes_slot(steps, n - 1) {
            1nat
        } else {
            0nat
        }
    }
}

/// Where field `i` takes its bytes from.
pub open spec fn spec_source(steps: Seq<FrameStep>, i: int) -> WriteSource {
    if steps[i] matches FrameStep::Scalar { constant: Some(_), .. } {
        WriteSource::Constant
    } else if steps[i] is Scalar && spec_has_dependent(steps, i) {
        WriteSource::Length
    } else {
        WriteSource::Slot(spec_slots_before(steps, i as nat) as usize)
    }
}

/// The source of every field.
pub open spec fn spec_sources(steps: Seq<FrameStep>) -> Seq<WriteSource> {
    Seq::new(steps.len(), |i: int| spec_source(steps, i))
}

/// The scalar a slot value holds (zero for bytes).
pub open spec fn spec_slot_scalar(v: SlotValue) -> nat {
    match v {
        SlotValue::Scalar(x) => x as nat,
        SlotValue::Bytes(_) => 0,
    }
}

/// The bytes a slot value holds (none for a scalar).
pub open spec fn spec_slot_bytes(v: SlotValue) -> Seq<u8> {
    match v {
        SlotValue::Scalar(_) => Seq::empty(),
        SlotValue::Bytes(b) => b@,
    }
}

/// Whether a value suits a field: a scalar that fits its width (0 or 1 for
/// a `bool`), or bytes (of the declared length for an array).
pub open spec fn spec_value_fits(step: FrameStep, v: SlotValue) -> bool {
    match step {
        FrameStep::Scalar { width, check, .. } => v is Scalar && spec_slot_scalar(v) < pow256(width as nat)
            && spec_check_ok(check, spec_slot_scalar(v)),
        FrameStep::Fixed { len } => v is Bytes && spec_slot_bytes(v).len() == len,
        FrameStep::Bits { .. } => v is Bytes && spec_slot_bytes(v).len() == 0,
        FrameStep::Flag { .. } => v is Bytes && spec_slot_bytes(v).len() == 0,
        _ => v is Bytes,
    }
}

/// Whether `values` holds one suitable value per slot, in field order.
#[verifier::opaque]
pub open spec fn spec_values_fit(steps: Seq<FrameStep>, values: Seq<SlotValue>) -> bool {
    &&& values.len() == spec_slots_before(steps, steps.len())
    &&& forall|i: int|
        0 <= i < steps.len() && #[trigger] spec_takes_slot(steps, i) ==> spec_value_fits(
            steps[i],
            values[spec_slots_before(steps, i as nat) as int],
        )
}

/// The first field from `from` on that field `i` bounds.
pub open spec fn spec_first_dependent(steps: Seq<FrameStep>, i: int, from: int) -> Option<int>
    decreases steps.len() - from,
{
    if from < 0 || from >= steps.len() {
        None
    } else if spec_is_dependent(steps, from, i) {
        Some(from)
    } else {
        spec_first_dependent(steps, i, from + 1)
    }
}

/// The length of the bytes that field `i` bounds: that of its first
/// dependent.
pub open spec fn spec_dependent_len(steps: Seq<FrameStep>, values: Seq<SlotValue>, i: int) -> nat {
    match spec_first_dependent(steps, i, 0) {
        Some(j) => spec_slot_bytes(values[spec_slots_before(steps, j as nat) as int]).len(),
        None => 0,
    }
}

/// Whether the bytes that field `i` bounds differ in length.
pub open spec fn spec_dependent_conflict(steps: Seq<FrameStep>, values: Seq<SlotValue>, i: int) -> bool {
    exists|j: int|
        0 <= j < steps.len() && #[trigger] spec_is_dependent(steps, j, i) && spec_slot_bytes(
            values[spec_slots_before(steps, j as nat) as int],
        ).len() != spec_dependent_len(steps, values, i)
}

/// The length of the first bytes from position `from` on that field `i`
/// bounds and that differ in length from its first dependent.
pub open spec fn spec_conflict_len(steps: Seq<FrameStep>, values: Seq<SlotValue>, i: int, from: int) -> nat
    decreases steps.len() - from,
{
    if from < 0 || from >= steps.len() {
        0
    } else if spec_is_dependent(steps, from, i) && spec_slot_bytes(
        values[spec_slots_before(steps, from as nat) as int],
    ).len() != spec_dependent_len(steps, values, i) {
        spec_slot_bytes(values[spec_slots_before(steps, from as nat) as int]).len()
    } else {
        spec_conflict_len(steps, values, i, from + 1)
    }
}

/// The bytes a writer emits for field `i`: a constant; a controller's
/// derived length, refused when its dependents disagree or it does not fit;
/// or the slot's value.
pub open spec fn spec_field_bytes(steps: Seq<FrameStep>, values: Seq<SlotValue>, i: int) -> Result<
    Seq<u8>,
    WriteError,
> {
    match steps[i] {
        FrameStep::Scalar { width, big_endian, constant, .. } => match constant {
            Some(c) => Ok(spec_bytes(c as nat, width as nat, big_endian)),
            None => if spec_has_dependent(steps, i) {
                let l = spec_dependent_len(steps, values, i);
                if spec_dependent_conflict(steps, values, i) {
                    Err(
                        WriteError::LengthConflict {
                            field: i as usize,
                            expected: l as usize,
                            actual: spec_conflict_len(steps, values, i, 0) as usize,
                        },
                    )
                } else if l >= pow256(width as nat) {
                    Err(WriteError::LengthOverflow { field: i as usize })
                } else {
                    Ok(spec_bytes(l, width as nat, big_endian))
                }
            } else {
                Ok(
                    spec_bytes(
                        spec_slot_scalar(values[spec_slots_before(steps, i as nat) as int]),
                        width as nat,
                        big_endian,
                    ),
                )
            },
        },
        _ => Ok(spec_slot_bytes(values[spec_slots_before(steps, i as nat) as int])),
    }
}

/// `n` zero bytes.
pub open spec fn spec_zeros(n: int) -> Seq<u8> {
    Seq::new(n as nat, |k: int| 0u8)
}

/// The bytes of the first `n` fields, or the first refusal: each present
/// field's bytes follow zeros up to where its placement starts it, refused
/// where that is before what was written or past the addressable range.
pub open spec fn spec_encode_prefix(
    steps: Seq<FrameStep>,
    places: Seq<Placement>,
    values: Seq<SlotValue>,
    n: nat,
) -> Result<Seq<u8>, WriteError>
    decreases n,
{
    if n == 0 {
        Ok(Seq::empty())
    } else {
        match spec_encode_prefix(steps, places, values, (n - 1) as nat) {
            Err(e) => Err(e),
            Ok(b) => if !spec_present(steps, places, values, n - 1) {
                Ok(b)
            } else {
                let start = spec_write_start(steps, places, values, n - 1, b.len() as int);
                if start > usize::MAX || start < b.len() {
                    Err(WriteError::Layout { field: (n - 1) as usize })
                } else {
                    match spec_field_bytes(steps, values, n - 1) {
                        Err(e) => Err(e),
                        Ok(f) => Ok(b + spec_zeros(start - b.len()) + f),
                    }
                }
            },
        }
    }
}

/// What a writer emits for the values of its slots.
pub open spec fn spec_encode(steps: Seq<FrameStep>, places: Seq<Placement>, values: Seq<SlotValue>) -> Result<
    Seq<u8>,
    WriteError,
> {
    spec_encode_prefix(steps, places, values, steps.len())
}

/// What reading field `i` back gives matches what was written for it.
pub open spec fn spec_reads_back(
    steps: Seq<FrameStep>,
    places: Seq<Placement>,
    values: Seq<SlotValue>,
    b: Seq<u8>,
    spans: Seq<FieldSpan>,
    i: int,
) -> bool {
    if !spec_present(steps, places, values, i) {
        spans[i].start == spans[i].end && spans[i].value == 0
    } else {
        match spec_source(steps, i) {
            WriteSource::Constant => steps[i] matches FrameStep::Scalar { constant: Some(c), .. } && spans[i].value
                == c,
            WriteSource::Length => spans[i].value == spec_dependent_len(steps, values, i),
            WriteSource::Slot(k) => if steps[i] is Scalar {
                spans[i].value == spec_slot_scalar(values[k as int])
            } else if steps[i] is Flag {
                spans[i].value == spec_flag_written(steps, values, i) && b.subrange(
                    spans[i].start as int,
                    spans[i].end as int,
                ) == spec_slot_bytes(values[k as int])
            } else if let FrameStep::Bits { controller, start, end } = steps[i] {
                spans[i].value == spec_get_bits(
                    spec_written_scalar(steps, values, controller as int) as u128,
                    start,
                    spec_value_mask(end - start + 1),
                ) && b.subrange(spans[i].start as int, spans[i].end as int) == spec_slot_bytes(values[k as int])
            } else {
                b.subrange(spans[i].start as int, spans[i].end as int) == spec_slot_bytes(values[k as int])
            },
        }
    }
}

/// The value written for the flag at position `k`: that of its controller.
pub open spec fn spec_flag_written(steps: Seq<FrameStep>, values: Seq<SlotValue>, k: int) -> nat {
    match steps[k] {
        FrameStep::Flag { controller } => spec_written_scalar(steps, values, controller as int),
        _ => 0,
    }
}

/// Whether field `i` is written: unless the flag it is present under was
/// written false.
pub open spec fn spec_present(steps: Seq<FrameStep>, places: Seq<Placement>, values: Seq<SlotValue>, i: int) -> bool {
    !(spec_place(places, i).when matches Some(k) && spec_flag_written(steps, values, k as int) == 0)
}

/// Where a writer starts field `i` after `cur` bytes: at its `at` offset,
/// at the value written for its `at` field, or after padding and alignment.
pub open spec fn spec_write_start(
    steps: Seq<FrameStep>,
    places: Seq<Placement>,
    values: Seq<SlotValue>,
    i: int,
    cur: int,
) -> int {
    let p = spec_place(places, i);
    match p.at {
        Some(At::Static(n)) => n as int,
        Some(At::Field(c)) => spec_written_scalar(steps, values, c as int) as int,
        None => spec_start(p, cur),
    }
}

/// Placements a writer can emit: a conditional field bounds no bytes, and
/// the field an `at` names and the controller of a flag or of a bit
/// projection are unconditional.
pub open spec fn spec_places_writable(steps: Seq<FrameStep>, places: Seq<Placement>) -> bool {
    forall|i: int|
        #![trigger spec_place(places, i)]
        0 <= i < steps.len() ==> (spec_place(places, i).when is Some ==> !spec_has_dependent(steps, i)) && (spec_place(
            places,
            i,
        ).at matches Some(At::Field(c)) ==> spec_place(places, c as int).when is None) && (
        steps[i] matches FrameStep::Flag { controller } ==> spec_place(places, controller as int).when is None) && (
        steps[i] matches FrameStep::Bits { controller, .. } ==> spec_place(places, controller as int).when is None)
}

/// The length of the bytes set on the slot of field `i`.
pub open spec fn spec_slot_len(steps: Seq<FrameStep>, values: Seq<SlotValue>, i: int) -> nat {
    spec_slot_bytes(values[spec_slots_before(steps, i as nat) as int]).len()
}

/// Whether the frame of each nested field's type (and of each counted
/// array's items but the last field's) consumes exactly the bytes written
/// for the field, and the type of each nested field but the last has that
/// many bytes as its fixed size.
pub open spec fn spec_children_frame_written(
    steps: Seq<FrameStep>,
    values: Seq<SlotValue>,
    children: Seq<ChildReport>,
) -> bool {
    forall|i: int|
        #![trigger steps[i]]
        0 <= i < steps.len() && (spec_child_framed(steps[i]) is Some || steps[i] is NestedBounded) ==> spec_report(
            children,
            i,
        ).consumed == Some(
            spec_slot_len(steps, values, i) as usize,
        ) && (spec_child_framed(steps[i]) == Some(false) ==> spec_report(children, i).fixed_size == Some(
            spec_slot_len(steps, values, i) as usize,
        ))
}

proof fn lemma_slots_mono(steps: Seq<FrameStep>, a: nat, b: nat)
    requires
        a <= b,
    ensures
        spec_slots_before(steps, a) <= spec_slots_before(steps, b),
    decreases b,
{
    if a < b {
        lemma_slots_mono(steps, a, (b - 1) as nat);
    }
}

proof fn lemma_slots_at_most(steps: Seq<FrameStep>, n: nat)
    ensures
        spec_slots_before(steps, n) <= n,
    decreases n,
{
    if n > 0 {
        lemma_slots_at_most(steps, (n - 1) as nat);
    }
}

proof fn lemma_slot_in_range(steps: Seq<FrameStep>, i: int)
    requires
        0 <= i < steps.len(),
        spec_takes_slot(steps, i),
    ensures
        spec_slots_before(steps, i as nat) < spec_slots_before(steps, steps.len()),
{
    lemma_slots_mono(steps, (i + 1) as nat, steps.len());
}

/// What suitable values promise of the slot of field `i`.
proof fn lemma_fit_at(steps: Seq<FrameStep>, values: Seq<SlotValue>, i: int)
    requires
        spec_values_fit(steps, values),
        0 <= i < steps.len(),
        spec_takes_slot(steps, i),
    ensures
        spec_slots_before(steps, i as nat) < values.len(),
        spec_value_fits(steps[i], values[spec_slots_before(steps, i as nat) as int]),
{
    reveal(spec_values_fit);
    lemma_slot_in_range(steps, i);
}

proof fn lemma_first_dependent(steps: Seq<FrameStep>, i: int, from: int, j: int)
    requires
        0 <= from <= j < steps.len(),
        spec_is_dependent(steps, j, i),
    ensures
        spec_first_dependent(steps, i, from) matches Some(k) && 0 <= k < steps.len() && spec_is_dependent(
            steps,
            k,
            i,
        ),
    decreases steps.len() - from,
{
    if !spec_is_dependent(steps, from, i) {
        lemma_first_dependent(steps, i, from + 1, j);
    }
}

proof fn lemma_encode_prefixes(steps: Seq<FrameStep>, places: Seq<Placement>, values: Seq<SlotValue>, m: nat, n: nat)
    requires
        n <= m,
        spec_encode_prefix(steps, places, values, m) is Ok,
    ensures
        spec_encode_prefix(steps, places, values, n) is Ok,
        spec_encode_prefix(steps, places, values, n)->Ok_0.len() <= spec_encode_prefix(steps, places, values, m)->Ok_0.len(),
        spec_encode_prefix(steps, places, values, m)->Ok_0.subrange(0, spec_encode_prefix(steps, places, values, n)->Ok_0.len() as int)
            == spec_encode_prefix(steps, places, values, n)->Ok_0,
    decreases m,
{
    let bm = spec_encode_prefix(steps, places, values, m)->Ok_0;
    if n == m {
        assert(bm.subrange(0, bm.len() as int) =~= bm);
    } else {
        lemma_encode_prefixes(steps, places, values, (m - 1) as nat, n);
        let bp = spec_encode_prefix(steps, places, values, (m - 1) as nat)->Ok_0;
        let bn = spec_encode_prefix(steps, places, values, n)->Ok_0;
        if spec_present(steps, places, values, m - 1) {
            let start = spec_write_start(steps, places, values, m - 1, bp.len() as int);
            assert(bm == bp + spec_zeros(start - bp.len()) + spec_field_bytes(steps, values, m - 1)->Ok_0);
        } else {
            assert(bm == bp);
        }
        assert(bm.subrange(0, bn.len() as int) =~= bp.subrange(0, bn.len() as int));
    }
}

/// The scalar a writer emits for scalar field `i`.
pub open spec fn spec_written_scalar(steps: Seq<FrameStep>, values: Seq<SlotValue>, i: int) -> nat {
    match steps[i] {
        FrameStep::Scalar { constant: Some(c), .. } => c as nat,
        _ => if spec_has_dependent(steps, i) {
            spec_dependent_len(steps, values, i)
        } else {
            spec_slot_scalar(values[spec_slots_before(steps, i as nat) as int])
        },
    }
}

proof fn lemma_scalar_written(steps: Seq<FrameStep>, values: Seq<SlotValue>, i: int, fb: Seq<u8>)
    requires
        spec_steps_wf(steps),
        spec_values_fit(steps, values),
        0 <= i < steps.len(),
        steps[i] is Scalar,
        spec_field_bytes(steps, values, i) == Ok::<Seq<u8>, WriteError>(fb),
    ensures
        fb.len() == steps[i]->width,
        spec_value(fb, steps[i]->big_endian) == spec_written_scalar(steps, values, i),
        spec_check_ok(steps[i]->check, spec_written_scalar(steps, values, i)),
        spec_written_scalar(steps, values, i) <= u128::MAX,
{
    let step = steps[i];
    let width = step->width;
    let big = step->big_endian;
    let x = spec_written_scalar(steps, values, i);
    lemma_step_wf(steps, i);
    if step->constant is Some {
        assert(fb == spec_bytes(x, width as nat, big));
        assert(x < pow256(width as nat));
    } else if spec_has_dependent(steps, i) {
        assert(fb == spec_bytes(x, width as nat, big));
        assert(x < pow256(width as nat));
        let j = choose|j: int| 0 <= j < steps.len() && #[trigger] spec_is_dependent(steps, j, i);
        lemma_step_wf(steps, j);
        assert(step->check == ValueCheck::Any);

    } else {
        assert(spec_takes_slot(steps, i));
        lemma_fit_at(steps, values, i);
        assert(fb == spec_bytes(x, width as nat, big));
        assert(x < pow256(width as nat));
    }
    lemma_value_of_bytes(x, width as nat, big);
    lemma_pow256_mono(width as nat, 16);
    lemma_pow256_16();
}

/// A present scalar that reads back as what was written for it reads as the
/// scalar written for it.
proof fn lemma_scalar_read(
    steps: Seq<FrameStep>,
    places: Seq<Placement>,
    values: Seq<SlotValue>,
    b: Seq<u8>,
    spans: Seq<FieldSpan>,
    c: int,
)
    requires
        0 <= c < steps.len(),
        steps.len() <= usize::MAX,
        spec_reads_back(steps, places, values, b, spans, c),
        spec_present(steps, places, values, c),
        steps[c] is Scalar,
    ensures
        spans[c].value == spec_written_scalar(steps, values, c),
{
    lemma_slots_at_most(steps, c as nat);
    match spec_source(steps, c) {
        WriteSource::Constant => {
            assert(steps[c] matches FrameStep::Scalar { constant: Some(_), .. });
        },
        WriteSource::Length => {
            assert(!(steps[c] matches FrameStep::Scalar { constant: Some(_), .. }));
            assert(spec_has_dependent(steps, c));
        },
        WriteSource::Slot(k) => {
            assert(!(steps[c] matches FrameStep::Scalar { constant: Some(_), .. }));
            assert(!spec_has_dependent(steps, c));
            assert(k == spec_slots_before(steps, c as nat) as usize);
        },
    }
}

/// What the places a writer can emit promise of field `i`.
proof fn lemma_place_at(steps: Seq<FrameStep>, places: Seq<Placement>, i: int)
    requires
        spec_places_wf(steps, places),
        spec_places_writable(steps, places),
        0 <= i < steps.len(),
    ensures
        spec_place_wf(steps, spec_place(places, i), i),
        spec_place(places, i).when is Some ==> !spec_has_dependent(steps, i),
        spec_place(places, i).at matches Some(At::Field(c)) ==> spec_place(places, c as int).when is None,
        steps[i] matches FrameStep::Flag { controller } ==> spec_place(places, controller as int).when is None,
        steps[i] matches FrameStep::Bits { controller, .. } ==> spec_place(places, controller as int).when is None,
{
}

proof fn lemma_bytes_written(
    steps: Seq<FrameStep>,
    places: Seq<Placement>,
    values: Seq<SlotValue>,
    b: Seq<u8>,
    i: int,
    spans: Seq<FieldSpan>,
    start: int,
    fb: Seq<u8>,
)
    requires
        spec_steps_wf(steps),
        spec_places_wf(steps, places),
        spec_places_writable(steps, places),
        spec_values_fit(steps, values),
        0 <= i < steps.len(),
        !(steps[i] is Scalar),
        spans.len() == i,
        start + fb.len() <= b.len(),
        i == steps.len() - 1 ==> start + fb.len() == b.len(),
        spec_field_bytes(steps, values, i) == Ok::<Seq<u8>, WriteError>(fb),
        forall|k: int|
            0 <= k < i && spec_present(steps, places, values, k) ==> (#[trigger] spec_field_bytes(steps, values, k)) is Ok,
        forall|k: int| 0 <= k < i ==> #[trigger] spec_reads_back(steps, places, values, b, spans, k),
    ensures
        spec_child_framed(steps[i]) is None ==> spec_step_end(steps[i], start, spans, b.len() as int) == start
            + fb.len(),
        spec_takes_slot(steps, i),
        spec_slots_before(steps, i as nat) < values.len(),
        fb == spec_slot_bytes(values[spec_slots_before(steps, i as nat) as int]),
{
    lemma_step_wf(steps, i);
    assert(spec_takes_slot(steps, i));
    lemma_fit_at(steps, values, i);
    match steps[i] {
        FrameStep::Bounded { controller } | FrameStep::NestedBounded { controller } => {
            let c = controller as int;
            lemma_step_wf(steps, c);
            assert(c < i);
            assert(spec_is_dependent(steps, i, c));
            assert(spec_has_dependent(steps, c));
            lemma_place_at(steps, places, c);
            assert(spec_present(steps, places, values, c));
            assert(spec_source(steps, c) == WriteSource::Length);
            assert(spec_reads_back(steps, places, values, b, spans, c));
            assert(spec_field_bytes(steps, values, c) is Ok);
            assert(!spec_dependent_conflict(steps, values, c));
        },
        _ => {},
    }
}

/// Where field `i` starts when it is written after `cur` bytes.
pub open spec fn spec_written_start(
    steps: Seq<FrameStep>,
    places: Seq<Placement>,
    values: Seq<SlotValue>,
    i: int,
    cur: int,
) -> int {
    if spec_present(steps, places, values, i) {
        spec_write_start(steps, places, values, i, cur)
    } else {
        cur
    }
}

/// The bytes written for field `i` frame as that field and read back as
/// what was written for it.
#[verifier::rlimit(60)]
#[verifier::spinoff_prover]
proof fn lemma_step_reads_back(
    steps: Seq<FrameStep>,
    places: Seq<Placement>,
    values: Seq<SlotValue>,
    children: Seq<ChildReport>,
    b: Seq<u8>,
    i: int,
    spans: Seq<FieldSpan>,
    fb: Seq<u8>,
)
    requires
        spec_places_wf(steps, places),
        spec_places_writable(steps, places),
        spec_steps_wf(steps),
        spec_values_fit(steps, values),
        spec_children_frame_written(steps, values, children),
        b.len() <= usize::MAX,
        0 <= i < steps.len(),
        spans.len() == i,
        0 <= spec_cursor(spans),
        spec_cursor(spans) <= spec_written_start(steps, places, values, i, spec_cursor(spans)) <= usize::MAX,
        spec_written_start(steps, places, values, i, spec_cursor(spans)) + fb.len() <= b.len(),
        i == steps.len() - 1 ==> spec_written_start(steps, places, values, i, spec_cursor(spans)) + fb.len()
            == b.len(),
        b.subrange(
            spec_written_start(steps, places, values, i, spec_cursor(spans)),
            spec_written_start(steps, places, values, i, spec_cursor(spans)) + fb.len(),
        ) == fb,
        spec_present(steps, places, values, i) ==> spec_field_bytes(steps, values, i) == Ok::<Seq<u8>, WriteError>(
            fb,
        ),
        !spec_present(steps, places, values, i) ==> fb.len() == 0,
        forall|k: int|
            0 <= k < i && spec_present(steps, places, values, k) ==> (#[trigger] spec_field_bytes(steps, values, k)) is Ok,
        forall|k: int| 0 <= k < i ==> #[trigger] spec_reads_back(steps, places, values, b, spans, k),
    ensures
        spec_view_step(steps, places, b, children, i, spans) is Ok,
        spec_view_step(steps, places, b, children, i, spans)->Ok_0.len() == i + 1,
        spec_cursor(spec_view_step(steps, places, b, children, i, spans)->Ok_0) == spec_written_start(
            steps,
            places,
            values,
            i,
            spec_cursor(spans),
        ) + fb.len(),
        forall|k: int|
            0 <= k <= i ==> #[trigger] spec_reads_back(
                steps,
                places,
                values,
                b,
                spec_view_step(steps, places, b, children, i, spans)->Ok_0,
                k,
            ),
{
    let p = spec_place(places, i);
    lemma_place_at(steps, places, i);
    lemma_step_wf(steps, i);
    if let Some(k) = p.when {
        assert(steps[k as int] is Flag);
        assert(spec_reads_back(steps, places, values, b, spans, k as int));
        lemma_place_at(steps, places, k as int);
        lemma_step_wf(steps, k as int);
        assert(spec_present(steps, places, values, k as int));
        assert(spans[k as int].value == spec_flag_written(steps, values, k as int));
    }
    if let Some(At::Field(c)) = p.at {
        lemma_place_at(steps, places, c as int);
        assert(spec_present(steps, places, values, c as int));
        assert(spec_reads_back(steps, places, values, b, spans, c as int));
        lemma_scalar_read(steps, places, values, b, spans, c as int);
    }
    let next = spec_view_step(steps, places, b, children, i, spans);
    if !spec_present(steps, places, values, i) {
        assert(next is Ok);
        let spans2 = next->Ok_0;
        assert forall|k: int| 0 <= k <= i implies #[trigger] spec_reads_back(steps, places, values, b, spans2, k) by {
            if k < i {
                assert(spans2[k] == spans[k]);
                assert(spec_reads_back(steps, places, values, b, spans, k));
            }
        }
    } else {
        let cur = spec_written_start(steps, places, values, i, spec_cursor(spans));
        lemma_start_after(p, spec_cursor(spans));
        assert(spec_field_start(p, spans) == cur);
        if steps[i] is Scalar {
            lemma_scalar_written(steps, values, i, fb);
        } else {
            lemma_bytes_written(steps, places, values, b, i, spans, cur, fb);
        }
        if spec_child_framed(steps[i]) is Some {
            assert(spec_report(children, i).consumed == Some(fb.len() as usize));
        } else {
            assert(spec_step_end(steps[i], cur, spans, b.len() as int) == cur + fb.len());
        }
        if let FrameStep::Flag { controller } = steps[i] {
            let c = controller as int;
            lemma_place_at(steps, places, c);
            lemma_step_wf(steps, c);
            assert(spec_present(steps, places, values, c));
            assert(spec_reads_back(steps, places, values, b, spans, c));
            lemma_scalar_read(steps, places, values, b, spans, c);
        }
        if let FrameStep::Bits { controller, .. } = steps[i] {
            let c = controller as int;
            lemma_place_at(steps, places, c);
            lemma_step_wf(steps, c);
            assert(spec_present(steps, places, values, c));
            assert(spec_reads_back(steps, places, values, b, spans, c));
            lemma_scalar_read(steps, places, values, b, spans, c);
        }
        assert(next is Ok);
        let spans2 = next->Ok_0;
        lemma_slots_at_most(steps, i as nat);
        assert(spans2[i].start == cur && spans2[i].end == cur + fb.len());
        assert(b.subrange(spans2[i].start as int, spans2[i].end as int) == fb);
        if steps[i] is Scalar {
            assert(spans2[i].value == spec_written_scalar(steps, values, i));
        }
        assert(spec_reads_back(steps, places, values, b, spans2, i));
        assert forall|k: int| 0 <= k <= i implies #[trigger] spec_reads_back(steps, places, values, b, spans2, k) by {
            if k < i {
                assert(spans2[k] == spans[k]);
                assert(spec_reads_back(steps, places, values, b, spans, k));
            }
        }
    }
}

/// Framing the first `n` fields of written bytes finds what was written.
proof fn lemma_round_trip_prefix(
    steps: Seq<FrameStep>,
    places: Seq<Placement>,
    values: Seq<SlotValue>,
    children: Seq<ChildReport>,
    b: Seq<u8>,
    n: nat,
)
    requires
        spec_places_wf(steps, places),
        spec_places_writable(steps, places),
        spec_steps_wf(steps),
        spec_values_fit(steps, values),
        spec_children_frame_written(steps, values, children),
        spec_encode(steps, places, values) == Ok::<Seq<u8>, WriteError>(b),
        b.len() <= usize::MAX,
        n <= steps.len(),
    ensures
        spec_encode_prefix(steps, places, values, n) is Ok,
        spec_view_prefix(steps, places, b, children, n) is Ok,
        spec_view_prefix(steps, places, b, children, n)->Ok_0.len() == n,
        spec_cursor(spec_view_prefix(steps, places, b, children, n)->Ok_0) == spec_encode_prefix(
            steps,
            places,
            values,
            n,
        )->Ok_0.len(),
        forall|i: int|
            0 <= i < n ==> #[trigger] spec_reads_back(
                steps,
                places,
                values,
                b,
                spec_view_prefix(steps, places, b, children, n)->Ok_0,
                i,
            ),
    decreases n,
{
    lemma_encode_prefixes(steps, places, values, steps.len(), n);
    if n == 0 {
        assert(spec_encode_prefix(steps, places, values, 0) == Ok::<Seq<u8>, WriteError>(Seq::empty()));
    } else {
        let i = n - 1;
        lemma_round_trip_prefix(steps, places, values, children, b, (n - 1) as nat);
        lemma_encode_prefixes(steps, places, values, steps.len(), (n - 1) as nat);
        let spans = spec_view_prefix(steps, places, b, children, (n - 1) as nat)->Ok_0;
        let bp = spec_encode_prefix(steps, places, values, (n - 1) as nat)->Ok_0;
        let bn = spec_encode_prefix(steps, places, values, n)->Ok_0;
        assert forall|k: int|
            0 <= k < i && spec_present(steps, places, values, k) implies (#[trigger] spec_field_bytes(
            steps,
            values,
            k,
        )) is Ok by {
            lemma_encode_prefixes(steps, places, values, steps.len(), (k + 1) as nat);
        }
        if i == steps.len() - 1 {
            assert(bn == b);
        }
        if spec_present(steps, places, values, i) {
            let fb = spec_field_bytes(steps, values, i)->Ok_0;
            let cur = spec_write_start(steps, places, values, i, bp.len() as int);
            assert(bn == bp + spec_zeros(cur - bp.len()) + fb);
            assert(b.subrange(cur, cur + fb.len()) =~= fb) by {
                assert(b.subrange(0, bn.len() as int) == bn);
                assert forall|k: int| 0 <= k < fb.len() implies b.subrange(cur, cur + fb.len())[k] == fb[k] by {
                    assert(b.subrange(0, bn.len() as int)[cur + k] == bn[cur + k]);
                }
            }
            lemma_step_reads_back(steps, places, values, children, b, i, spans, fb);
        } else {
            assert(bn == bp);
            let fb = Seq::<u8>::empty();
            let cur = bp.len() as int;
            assert(b.subrange(cur, cur) =~= fb);
            lemma_step_reads_back(steps, places, values, children, b, i, spans, fb);
        }
    }
}

/// What a view reads from bytes that a writer emitted is what was written:
/// when each nested field's type frames exactly the bytes written for it,
/// the bytes frame as the layout, every constant reads as itself, every
/// length controller as the length of the bytes it bounds, every flag as
/// its controller, every slot as the value set on it, and every field whose
/// flag was written false as absent.
pub proof fn law_read_what_was_written(
    steps: Seq<FrameStep>,
    places: Seq<Placement>,
    values: Seq<SlotValue>,
    children: Seq<ChildReport>,
    b: Seq<u8>,
)
    requires
        spec_places_wf(steps, places),
        spec_places_writable(steps, places),
        spec_steps_wf(steps),
        spec_values_fit(steps, values),
        spec_children_frame_written(steps, values, children),
        spec_encode(steps, places, values) == Ok::<Seq<u8>, WriteError>(b),
        b.len() <= usize::MAX,
    ensures
        spec_view(steps, places, b, children) is Ok,
        spec_view(steps, places, b, children)->Ok_0.len() == steps.len(),
        forall|i: int|
            0 <= i < steps.len() ==> #[trigger] spec_reads_back(
                steps,
                places,
                values,
                b,
                spec_view(steps, places, b, children)->Ok_0,
                i,
            ),
{
    lemma_round_trip_prefix(steps, places, values, children, b, steps.len());
}

fn has_dependent(steps: &Vec<FrameStep>, i: usize) -> (r: bool)
    ensures
        r == spec_has_dependent(steps@, i as int),
{
    let mut j: usize = 0;
    while j < steps.len()
        invariant
            j <= steps@.len(),
            forall|k: int| 0 <= k < j ==> !#[trigger] spec_is_dependent(steps@, k, i as int),
        decreases steps.len() - j,
    {
        if steps[j] == (FrameStep::Bounded { controller: i }) || steps[j] == (FrameStep::NestedBounded { controller: i }) {
            assert(spec_is_dependent(steps@, j as int, i as int));
            return true;
        }
        j = j + 1;
    }
    false
}

/// The write plan of a schema: its framing plan, its placements and where
/// each field's bytes come from, when the plan covers every field and a
/// writer can emit its placements.
pub fn write_plan(schema: &Schema) -> (r: Option<WritePlan>)
    ensures
        match r {
            Some(p) => spec_frame_steps(*schema) == Some(p.steps@) && spec_steps_wf(p.steps@) && p.sources@
                == spec_sources(p.steps@) && p.places@ == spec_frame_places(*schema)
                && spec_places_wf(p.steps@, p.places@) && spec_places_writable(p.steps@, p.places@),
            None => !(spec_frame_steps(*schema) matches Some(steps) && spec_places_writable(
                steps,
                spec_frame_places(*schema),
            )),
        },
{
    let steps = match frame_steps(schema) {
        Some(s) => s,
        None => return None,
    };
    let places = frame_places(schema);
    assert(places@.len() == steps@.len());
    let mut q: usize = 0;
    while q < places.len()
        invariant
            q <= places@.len(),
            places@.len() == steps@.len(),
            places@ == spec_frame_places(*schema),
            spec_frame_steps(*schema) == Some(steps@),
            forall|k: int|
                #![trigger spec_place(places@, k)]
                0 <= k < q ==> (spec_place(places@, k).when is Some ==> !spec_has_dependent(steps@, k)) && (spec_place(
                    places@,
                    k,
                ).at matches Some(At::Field(c)) ==> spec_place(places@, c as int).when is None) && (
                steps@[k] matches FrameStep::Flag { controller } ==> spec_place(places@, controller as int).when
                    is None) && (steps@[k] matches FrameStep::Bits { controller, .. } ==> spec_place(
                    places@,
                    controller as int,
                ).when is None),
        decreases places.len() - q,
    {
        let place = places[q];
        assert(place == spec_place(places@, q as int));
        let conditional_controller = place.when.is_some() && has_dependent(&steps, q);
        let placed_after_conditional = match place.at {
            Some(At::Field(c)) => c < places.len() && places[c].when.is_some(),
            _ => false,
        };
        let flag_of_conditional = match steps[q] {
            FrameStep::Flag { controller } | FrameStep::Bits { controller, .. } => controller < places.len()
                && places[controller].when.is_some(),
            _ => false,
        };
        if conditional_controller || placed_after_conditional || flag_of_conditional {
            assert(!spec_places_writable(steps@, places@)) by {
                assert(spec_place(places@, q as int) == place);
            }
            return None;
        }
        q = q + 1;
    }
    assert(steps@.len() == steps.len());
    let mut sources: Vec<WriteSource> = Vec::new();
    let mut count: usize = 0;
    let mut i: usize = 0;
    while i < steps.len()
        invariant
            i <= steps@.len(),
            steps@.len() <= usize::MAX,
            sources@.len() == i,
            count == spec_slots_before(steps@, i as nat),
            forall|k: int| 0 <= k < i ==> #[trigger] sources@[k] == spec_source(steps@, k),
        decreases steps.len() - i,
    {
        proof {
            lemma_slots_at_most(steps@, i as nat);
        }
        let source = match steps[i] {
            FrameStep::Scalar { constant: Some(_), .. } => WriteSource::Constant,
            FrameStep::Scalar { .. } => if has_dependent(&steps, i) {
                WriteSource::Length
            } else {
                WriteSource::Slot(count)
            },
            _ => WriteSource::Slot(count),
        };
        assert(source == spec_source(steps@, i as int));
        if matches!(source, WriteSource::Slot(_)) {
            count = count + 1;
        }
        sources.push(source);
        i = i + 1;
    }
    assert(sources@ =~= spec_sources(steps@));
    Some(WritePlan { steps, places, sources })
}

proof fn lemma_encode_refusal_persists(
    steps: Seq<FrameStep>,
    places: Seq<Placement>,
    values: Seq<SlotValue>,
    n: nat,
    e: WriteError,
)
    requires
        n <= steps.len(),
        spec_encode_prefix(steps, places, values, n) == Err::<Seq<u8>, WriteError>(e),
    ensures
        spec_encode(steps, places, values) == Err::<Seq<u8>, WriteError>(e),
    decreases steps.len() - n,
{
    if n < steps.len() {
        lemma_encode_refusal_persists(steps, places, values, n + 1, e);
    }
}

/// The length of the first bytes that field `i` bounds.
fn dependent_len(plan: &WritePlan, values: &Vec<SlotValue>, i: usize) -> (r: usize)
    requires
        spec_steps_wf(plan.steps@),
        plan.sources@ == spec_sources(plan.steps@),
        spec_values_fit(plan.steps@, values@),
        i < plan.steps@.len(),
    ensures
        r == spec_dependent_len(plan.steps@, values@, i as int),
{
    let ghost steps = plan.steps@;
    let mut j: usize = 0;
    while j < plan.steps.len()
        invariant
            steps == plan.steps@,
            plan.sources@ == spec_sources(steps),
            spec_steps_wf(steps),
            spec_values_fit(steps, values@),
            j <= steps.len(),
            spec_first_dependent(steps, i as int, 0) == spec_first_dependent(steps, i as int, j as int),
        decreases plan.steps.len() - j,
    {
        if plan.steps[j] == (FrameStep::Bounded { controller: i }) || plan.steps[j] == (FrameStep::NestedBounded {
            controller: i,
        }) {
            assert(spec_is_dependent(steps, j as int, i as int));
            assert(spec_takes_slot(steps, j as int));
            proof {
                lemma_fit_at(steps, values@, j as int);
                lemma_slots_at_most(steps, j as nat);
            }
            assert(plan.sources@[j as int] == spec_source(steps, j as int));
            let k = match plan.sources[j] {
                WriteSource::Slot(k) => k,
                _ => 0,
            };
            return match &values[k] {
                SlotValue::Bytes(b) => b.len(),
                SlotValue::Scalar(_) => 0,
            };
        }
        j = j + 1;
    }
    0
}

/// The length of the first bytes that field `i` bounds and that differ in
/// length from `len`, if any do.
fn dependent_conflict(plan: &WritePlan, values: &Vec<SlotValue>, i: usize, len: usize) -> (r: Option<usize>)
    requires
        spec_steps_wf(plan.steps@),
        plan.sources@ == spec_sources(plan.steps@),
        spec_values_fit(plan.steps@, values@),
        i < plan.steps@.len(),
        len == spec_dependent_len(plan.steps@, values@, i as int),
    ensures
        r is Some == spec_dependent_conflict(plan.steps@, values@, i as int),
        r matches Some(n) ==> n == spec_conflict_len(plan.steps@, values@, i as int, 0),
{
    let ghost steps = plan.steps@;
    let mut j: usize = 0;
    while j < plan.steps.len()
        invariant
            steps == plan.steps@,
            plan.sources@ == spec_sources(steps),
            spec_steps_wf(steps),
            spec_values_fit(steps, values@),
            j <= steps.len(),
            len == spec_dependent_len(steps, values@, i as int),
            forall|k: int|
                0 <= k < j && #[trigger] spec_is_dependent(steps, k, i as int) ==> spec_slot_bytes(
                    values@[spec_slots_before(steps, k as nat) as int],
                ).len() == len,
            spec_conflict_len(steps, values@, i as int, 0) == spec_conflict_len(steps, values@, i as int, j as int),
        decreases plan.steps.len() - j,
    {
        if plan.steps[j] == (FrameStep::Bounded { controller: i }) || plan.steps[j] == (FrameStep::NestedBounded {
            controller: i,
        }) {
            assert(spec_is_dependent(steps, j as int, i as int));
            assert(spec_takes_slot(steps, j as int));
            proof {
                lemma_fit_at(steps, values@, j as int);
                lemma_slots_at_most(steps, j as nat);
            }
            assert(plan.sources@[j as int] == spec_source(steps, j as int));
            let k = match plan.sources[j] {
                WriteSource::Slot(k) => k,
                _ => 0,
            };
            let n = match &values[k] {
                SlotValue::Bytes(b) => b.len(),
                SlotValue::Scalar(_) => 0,
            };
            if n != len {
                return Some(n);
            }
        }
        j = j + 1;
    }
    None
}

/// The scalar a writer emits for scalar field `c`.
fn written_scalar(plan: &WritePlan, values: &Vec<SlotValue>, c: usize) -> (r: u128)
    requires
        spec_steps_wf(plan.steps@),
        plan.sources@ == spec_sources(plan.steps@),
        spec_values_fit(plan.steps@, values@),
        c < plan.steps@.len(),
        plan.steps@[c as int] is Scalar,
    ensures
        r == spec_written_scalar(plan.steps@, values@, c as int),
{
    let ghost steps = plan.steps@;
    proof {
        lemma_slots_at_most(steps, c as nat);
    }
    assert(plan.sources@[c as int] == spec_source(steps, c as int));
    match plan.steps[c] {
        FrameStep::Scalar { constant: Some(x), .. } => x,
        _ => match plan.sources[c] {
            WriteSource::Length => dependent_len(plan, values, c) as u128,
            WriteSource::Slot(m) => {
                proof {
                    lemma_fit_at(steps, values@, c as int);
                }
                match &values[m] {
                    SlotValue::Scalar(x) => *x,
                    SlotValue::Bytes(_) => 0,
                }
            },
            WriteSource::Constant => 0,
        },
    }
}

/// The value a writer emits for the flag at position `k`: its controller's.
fn flag_written(plan: &WritePlan, values: &Vec<SlotValue>, k: usize) -> (r: u128)
    requires
        spec_steps_wf(plan.steps@),
        plan.sources@ == spec_sources(plan.steps@),
        spec_values_fit(plan.steps@, values@),
        k < plan.steps@.len(),
    ensures
        r == spec_flag_written(plan.steps@, values@, k as int),
{
    proof {
        lemma_step_wf(plan.steps@, k as int);
    }
    match plan.steps[k] {
        FrameStep::Flag { controller } => written_scalar(plan, values, controller),
        _ => 0,
    }
}

/// The bytes a writer emits for the values of its slots, or why it refuses
/// them; what a view reads back from those bytes is what was written.
pub fn encode(plan: &WritePlan, values: &Vec<SlotValue>) -> (r: Result<Vec<u8>, WriteError>)
    requires
        spec_steps_wf(plan.steps@),
        plan.sources@ == spec_sources(plan.steps@),
        spec_values_fit(plan.steps@, values@),
        spec_places_wf(plan.steps@, plan.places@),
        spec_places_writable(plan.steps@, plan.places@),
    ensures
        match r {
            Ok(out) => spec_encode(plan.steps@, plan.places@, values@) == Ok::<Seq<u8>, WriteError>(out@),
            Err(e) => spec_encode(plan.steps@, plan.places@, values@) == Err::<Seq<u8>, WriteError>(e),
        },
        r matches Ok(out) ==> forall|children: Seq<ChildReport>|
            #![trigger spec_view(plan.steps@, plan.places@, out@, children)]
            spec_children_frame_written(plan.steps@, values@, children) ==> spec_view(plan.steps@, plan.places@, out@, children) is Ok
                && forall|i: int|
                0 <= i < plan.steps@.len() ==> #[trigger] spec_reads_back(
                    plan.steps@,
                    plan.places@,
                    values@,
                    out@,
                    spec_view(plan.steps@, plan.places@, out@, children)->Ok_0,
                    i,
                ),
{
    let ghost steps = plan.steps@;
    let ghost places = plan.places@;
    let mut out: Vec<u8> = Vec::new();
    let mut i: usize = 0;
    while i < plan.steps.len()
        invariant
            steps == plan.steps@,
            places == plan.places@,
            plan.sources@ == spec_sources(steps),
            spec_steps_wf(steps),
            spec_values_fit(steps, values@),
            spec_places_wf(steps, places),
            spec_places_writable(steps, places),
            i <= steps.len(),
            spec_encode_prefix(steps, places, values@, i as nat) == Ok::<Seq<u8>, WriteError>(out@),
        decreases plan.steps.len() - i,
    {
        proof {
            lemma_step_wf(steps, i as int);
            lemma_slots_at_most(steps, i as nat);
        }
        let ghost prior = out@;
        let place = if i < plan.places.len() {
            plan.places[i]
        } else {
            Placement { pad: None, align: None, at: None, when: None }
        };
        assert(place == spec_place(places, i as int));
        assert(spec_place_wf(steps, place, i as int));
        let present = match place.when {
            Some(k) => flag_written(plan, values, k) != 0,
            None => true,
        };
        assert(present == spec_present(steps, places, values@, i as int));
        if present {
            let at_start: Option<usize> = match place.at {
                Some(At::Static(n)) => Some(n),
                Some(At::Field(c)) => {
                    let v = written_scalar(plan, values, c);
                    if v <= usize::MAX as u128 {
                        Some(v as usize)
                    } else {
                        None
                    }
                },
                None => start_of(place, out.len()),
            };
            proof {
                lemma_start_after(place, out.len() as int);
            }
            let start = match at_start {
                Some(x) => if x < out.len() {
                    let e = WriteError::Layout { field: i };
                    proof {
                        lemma_encode_refusal_persists(steps, places, values@, (i + 1) as nat, e);
                    }
                    return Err(e);
                } else {
                    x
                },
                None => {
                    let e = WriteError::Layout { field: i };
                    proof {
                        lemma_encode_refusal_persists(steps, places, values@, (i + 1) as nat, e);
                    }
                    return Err(e);
                },
            };
            assert(start == spec_write_start(steps, places, values@, i as int, prior.len() as int));
            while out.len() < start
                invariant
                    prior.len() <= out@.len() <= start,
                    out@ == prior + spec_zeros(out@.len() - prior.len()),
                decreases start - out.len(),
            {
                out.push(0);
                assert(out@ =~= prior + spec_zeros(out@.len() - prior.len()));
            }
            let ghost before = out@;
            assert(before =~= prior + spec_zeros(start - prior.len()));
            assert(plan.sources@[i as int] == spec_source(steps, i as int));
            match plan.steps[i] {
                FrameStep::Scalar { width, big_endian, constant, .. } => {
                    match plan.sources[i] {
                        WriteSource::Constant => {
                            let c = match constant {
                                Some(c) => c,
                                None => 0,
                            };
                            push_bytes(&mut out, c, width, big_endian);
                        },
                        WriteSource::Length => {
                            let l = dependent_len(plan, values, i);
                            if let Some(actual) = dependent_conflict(plan, values, i, l) {
                                let e = WriteError::LengthConflict { field: i, expected: l, actual };
                                proof {
                                    lemma_encode_refusal_persists(steps, places, values@, (i + 1) as nat, e);
                                }
                                return Err(e);
                            }
                            if !fits(l as u128, width) {
                                let e = WriteError::LengthOverflow { field: i };
                                proof {
                                    lemma_encode_refusal_persists(steps, places, values@, (i + 1) as nat, e);
                                }
                                return Err(e);
                            }
                            push_bytes(&mut out, l as u128, width, big_endian);
                        },
                        WriteSource::Slot(k) => {
                            proof {
                                lemma_fit_at(steps, values@, i as int);
                            }
                            let x = match &values[k] {
                                SlotValue::Scalar(x) => *x,
                                SlotValue::Bytes(_) => 0,
                            };
                            push_bytes(&mut out, x, width, big_endian);
                        },
                    }
                },
                _ => {
                    proof {
                        lemma_fit_at(steps, values@, i as int);
                    }
                    let k = match plan.sources[i] {
                        WriteSource::Slot(k) => k,
                        _ => 0,
                    };
                    match &values[k] {
                        SlotValue::Bytes(b) => {
                            let mut m: usize = 0;
                            while m < b.len()
                                invariant
                                    m <= b@.len(),
                                    out@ == before + b@.take(m as int),
                                decreases b.len() - m,
                            {
                                out.push(b[m]);
                                m = m + 1;
                                assert(out@ =~= before + b@.take(m as int));
                            }
                            assert(b@.take(b@.len() as int) =~= b@);
                        },
                        SlotValue::Scalar(_) => {},
                    }
                },
            }
            assert(out@ == before + spec_field_bytes(steps, values@, i as int)->Ok_0);
        }
        i = i + 1;
    }
    assert(out@.len() == out.len());
    proof {
        assert forall|children: Seq<ChildReport>| spec_children_frame_written(steps, values@, children) implies spec_view(
            steps,
            places,
            out@,
            children,
        ) is Ok && forall|i: int|
            0 <= i < steps.len() ==> #[trigger] spec_reads_back(
                steps,
                places,
                values@,
                out@,
                spec_view(steps, places, out@, children)->Ok_0,
                i,
            ) by {
            law_read_what_was_written(steps, places, values@, children, out@);
        }
    }
    Ok(out)
}

/// The bytes the first `n` fields take when all of them have a fixed size.
pub open spec fn spec_fixed_sum(
    steps: Seq<FrameStep>,
    places: Seq<Placement>,
    children: Seq<ChildReport>,
    n: nat,
) -> Option<nat>
    decreases n,
{
    if n == 0 {
        Some(0)
    } else {
        match spec_fixed_sum(steps, places, children, (n - 1) as nat) {
            None => None,
            Some(s) => if spec_place(places, n - 1) != (Placement { pad: None, align: None, at: None, when: None }) {
                None
            } else {
                match steps[n - 1] {
                FrameStep::Scalar { width, .. } => Some(s + width as nat),
                FrameStep::Fixed { len } => Some(s + len as nat),
                FrameStep::Bits { .. } => Some(s),
                FrameStep::Nested { .. } => match spec_report(children, n - 1).fixed_size {
                    Some(x) => Some(s + x as nat),
                    None => None,
                },
                _ => None,
            }
            },
        }
    }
}

/// The fixed size of the layout: none with padding or alignment; otherwise
/// the sum of its fields' sizes (a nested field's being its type's fixed
/// size) when every field has a fixed size and the sum is addressable.
pub open spec fn spec_fixed_size(steps: Seq<FrameStep>, places: Seq<Placement>, children: Seq<ChildReport>) -> Option<
    usize,
> {
    match spec_fixed_sum(steps, places, children, steps.len()) {
        Some(s) => if s <= usize::MAX {
            Some(s as usize)
        } else {
            None
        },
        None => None,
    }
}

proof fn lemma_fixed_sum_grows(
    steps: Seq<FrameStep>,
    places: Seq<Placement>,
    children: Seq<ChildReport>,
    m: nat,
    n: nat,
)
    requires
        m <= n,
        spec_fixed_sum(steps, places, children, n) is Some,
    ensures
        spec_fixed_sum(steps, places, children, m) is Some,
        spec_fixed_sum(steps, places, children, m)->Some_0 <= spec_fixed_sum(steps, places, children, n)->Some_0,
    decreases n,
{
    if m < n {
        lemma_fixed_sum_grows(steps, places, children, m, (n - 1) as nat);
    }
}

/// The fixed size of the layout placed by `places`, if it has one, given
/// the fixed size each nested field's type reports (`children`, by field
/// position).
pub fn fixed_size(steps: &Vec<FrameStep>, places: &Vec<Placement>, children: &Vec<ChildReport>) -> (r: Option<usize>)
    ensures
        r == spec_fixed_size(steps@, places@, children@),
{
    let mut total: usize = 0;
    let mut i: usize = 0;
    while i < steps.len()
        invariant
            i <= steps@.len(),
            spec_fixed_sum(steps@, places@, children@, i as nat) == Some(total as nat),
        decreases steps.len() - i,
    {
        let place = if i < places.len() {
            places[i]
        } else {
            Placement { pad: None, align: None, at: None, when: None }
        };
        assert(place == spec_place(places@, i as int));
        if place.pad.is_some() || place.align.is_some() || place.at.is_some() || place.when.is_some() {
            proof {
                lemma_fixed_none_stays(steps@, places@, children@, (i + 1) as nat);
            }
            return None;
        }
        let size = match steps[i] {
            FrameStep::Scalar { width, .. } => width,
            FrameStep::Fixed { len } => len,
            FrameStep::Bits { .. } => 0,
            FrameStep::Nested { .. } => {
                let known = if i < children.len() {
                    children[i].fixed_size
                } else {
                    None
                };
                assert(known == spec_report(children@, i as int).fixed_size);
                match known {
                    Some(x) => x,
                    None => {
                        proof {
                            lemma_fixed_none_stays(steps@, places@, children@, (i + 1) as nat);
                        }
                        return None;
                    },
                }
            },
            _ => {
                proof {
                    lemma_fixed_none_stays(steps@, places@, children@, (i + 1) as nat);
                }
                return None;
            },
        };
        if size > usize::MAX - total {
            proof {
                if spec_fixed_sum(steps@, places@, children@, steps@.len()) is Some {
                    lemma_fixed_sum_grows(steps@, places@, children@, (i + 1) as nat, steps@.len());
                }
            }
            return None;
        }
        total = total + size;
        i = i + 1;
    }
    Some(total)
}

proof fn lemma_fixed_none_stays(steps: Seq<FrameStep>, places: Seq<Placement>, children: Seq<ChildReport>, n: nat)
    requires
        n <= steps.len(),
        spec_fixed_sum(steps, places, children, n) is None,
    ensures
        spec_fixed_sum(steps, places, children, steps.len()) is None,
    decreases steps.len() - n,
{
    if n < steps.len() {
        lemma_fixed_none_stays(steps, places, children, n + 1);
    }
}

proof fn lemma_view_cursor_fixed(
    steps: Seq<FrameStep>,
    places: Seq<Placement>,
    input: Seq<u8>,
    children: Seq<ChildReport>,
    n: nat,
)
    requires
        n <= steps.len(),
        spec_view_prefix(steps, places, input, children, n) is Ok,
        spec_fixed_sum(steps, places, children, n) is Some,
        spec_children_sized(steps, children),
        input.len() <= usize::MAX,
    ensures
        spec_cursor(spec_view_prefix(steps, places, input, children, n)->Ok_0) == spec_fixed_sum(steps, places, children, n)->Some_0,
    decreases n,
{
    if n > 0 {
        lemma_view_cursor_fixed(steps, places, input, children, (n - 1) as nat);
        if let FrameStep::Nested { terminal } = steps[n - 1] {
            let spans = spec_view_prefix(steps, places, input, children, (n - 1) as nat)->Ok_0;
            let r = spec_report(children, n - 1);
            assert(r.fixed_size is Some);
            assert(spec_nested_step(terminal, r, input, n - 1, spans, spec_cursor(spans)) is Ok);
            assert(r.consumed is Some);
            assert(r.consumed == r.fixed_size);
            let c = r.consumed->Some_0;
            assert(spec_cursor(spans) + c <= input.len());
            assert(spec_view_prefix(steps, places, input, children, n) == spec_nested_step(
                terminal,
                r,
                input,
                n - 1,
                spans,
                spec_cursor(spans),
            ));
            assert(spec_cursor(spec_view_prefix(steps, places, input, children, n)->Ok_0) == spec_cursor(spans) + c);
        } else {
            let spans = spec_view_prefix(steps, places, input, children, (n - 1) as nat)->Ok_0;
            assert(spec_view_prefix(steps, places, input, children, n) == spec_plain_step(
                steps,
                input,
                n - 1,
                spans,
                spec_cursor(spans),
            ));
        }
    }
}

/// Whether each nested field's type whose frame succeeded and that has a
/// fixed size consumed exactly that size.
pub open spec fn spec_children_sized(steps: Seq<FrameStep>, children: Seq<ChildReport>) -> bool {
    forall|i: int|
        #![trigger steps[i]]
        0 <= i < steps.len() && steps[i] is Nested && spec_report(children, i).fixed_size is Some && spec_report(
            children,
            i,
        ).consumed is Some ==> spec_report(children, i).consumed == spec_report(children, i).fixed_size
}

/// Every input that a layout of fixed size frames has exactly that size,
/// when each nested field's type frames exactly its own fixed size.
pub proof fn law_fixed_size_frames(
    steps: Seq<FrameStep>,
    places: Seq<Placement>,
    input: Seq<u8>,
    children: Seq<ChildReport>,
)
    requires
        spec_children_sized(steps, children),
        input.len() <= usize::MAX,
        spec_fixed_size(steps, places, children) is Some,
        spec_view(steps, places, input, children) is Ok,
    ensures
        input.len() == spec_fixed_size(steps, places, children)->Some_0,
{
    lemma_view_cursor_fixed(steps, places, input, children, steps.len());
    lemma_view_prefix_shape(steps, places, input, children, steps.len());
}

} // verus!
