//! The view plan of a selector enum and how a view picks the variant whose
//! body follows the selector.

use vstd::prelude::*;
use crate::bytes::{fits, lemma_value_of_bytes, pow256, push_bytes, read_value, spec_bytes, spec_value};
use crate::enumeration::{EnumSchema, Variant};
use crate::scalar::Endian;
use crate::syntax::{
    ExprForm, Literal, parse_decimal, spec_int_literal, spec_parse_decimal,
};

verus! {

/// How a view of a selector enum reads its selector and picks a variant.
#[derive(Debug)]
pub struct EnumViewPlan {
    /// The selector's width in bytes.
    pub selector_width: usize,
    pub big_endian: bool,
    /// Each known variant's selector value and position, in declaration order.
    pub table: Vec<(u128, usize)>,
    /// The position of the fallback variant, if any.
    pub unknown: Option<usize>,
}

/// The variant a view picks, where its body starts, and the selector value
/// it read.
#[derive(Clone, Copy, Debug, PartialEq, Eq, Structural)]
pub struct EnumFrame {
    pub variant: usize,
    pub body_start: usize,
    pub selector: u128,
    /// Whether the fallback variant took the selector.
    pub fallback: bool,
}

/// Why input bytes do not start a known variant.
#[derive(Clone, Copy, Debug, PartialEq, Eq, Structural)]
pub enum EnumViewError {
    /// Two known variants have the same selector value: every input is
    /// refused.
    DuplicateSelector,
    /// The input ends inside the selector, at absolute `offset`.
    NeedMore { offset: usize, additional_at_least: usize },
    /// No variant takes the selector and there is no fallback.
    UnknownSelector { selector: u128, offset: usize },
    /// The body's absolute offset is past the addressable range.
    Layout { variant: usize },
    /// The chosen variant's body refused its bytes.
    Body { variant: usize },
    /// The body reported more bytes than follow the selector.
    InvalidFrame { offset: usize, consumed: usize, available: usize },
    /// Bytes are left after the variant.
    Trailing { consumed: usize, len: usize },
}

/// The selector value of a known variant, when it is an integer literal
/// that fits the selector's width.
pub open spec fn spec_variant_value(v: Variant, width: nat) -> Option<u128> {
    match v.value {
        Some(sv) => match spec_int_literal(sv.expr) {
            Some(d) => match spec_parse_decimal(d, u128::MAX as int) {
                Some(x) => if x < pow256(width) {
                    Some(x as u128)
                } else {
                    None
                },
                None => None,
            },
            None => None,
        },
        None => None,
    }
}

/// The table of the first `n` variants: each known one's value and
/// position; nothing when a known value is not a fitting integer literal.
pub open spec fn spec_table(variants: Seq<Variant>, width: nat, n: nat) -> Option<Seq<(u128, usize)>>
    decreases n,
{
    if n == 0 {
        Some(Seq::empty())
    } else {
        match spec_table(variants, width, (n - 1) as nat) {
            None => None,
            Some(t) => if variants[n - 1].unknown {
                Some(t)
            } else {
                match spec_variant_value(variants[n - 1], width) {
                    Some(x) => Some(t.push((x, (n - 1) as usize))),
                    None => None,
                }
            },
        }
    }
}

/// The first fallback variant among the first `n`.
pub open spec fn spec_first_unknown(variants: Seq<Variant>, n: nat) -> Option<usize>
    decreases n,
{
    if n == 0 {
        None
    } else {
        match spec_first_unknown(variants, (n - 1) as nat) {
            Some(u) => Some(u),
            None => if variants[n - 1].unknown {
                Some((n - 1) as usize)
            } else {
                None
            },
        }
    }
}

/// Whether the plan covers the enum: an unsigned selector whose byte order
/// is settled, and integer-literal selector values that fit it.
pub open spec fn spec_enum_plannable(s: EnumSchema) -> bool {
    &&& s.selector.spec_is_unsigned_integer()
    &&& !(s.selector.spec_width() > 1 && s.endian is Native)
    &&& spec_table(s.variants@, s.selector.spec_width(), s.variants@.len()) is Some
}

/// Whether `p` is the view plan of `s`.
pub open spec fn spec_enum_view_plan(s: EnumSchema, p: EnumViewPlan) -> bool {
    &&& p.selector_width == s.selector.spec_width()
    &&& p.big_endian == (s.endian is Big)
    &&& spec_table(s.variants@, s.selector.spec_width(), s.variants@.len()) == Some(p.table@)
    &&& p.unknown == spec_first_unknown(s.variants@, s.variants@.len())
}

/// The view plan of a selector enum, when the plan covers it.
pub fn enum_view_plan(schema: &EnumSchema) -> (r: Option<EnumViewPlan>)
    ensures
        match r {
            Some(p) => spec_enum_plannable(*schema) && spec_enum_view_plan(*schema, p),
            None => !spec_enum_plannable(*schema),
        },
{
    let width = schema.selector.width();
    if !schema.selector.is_unsigned_integer() || (width > 1 && matches!(schema.endian, Endian::Native)) {
        return None;
    }
    let ghost variants = schema.variants@;
    let mut table: Vec<(u128, usize)> = Vec::new();
    let mut unknown: Option<usize> = None;
    let mut i: usize = 0;
    while i < schema.variants.len()
        invariant
            variants == schema.variants@,
            width == schema.selector.spec_width(),
            width <= 16,
            i <= variants.len(),
            spec_table(variants, width as nat, i as nat) == Some(table@),
            unknown == spec_first_unknown(variants, i as nat),
        decreases schema.variants.len() - i,
    {
        let v = &schema.variants[i];
        if v.unknown {
            if unknown.is_none() {
                unknown = Some(i);
            }
        } else {
            let value = match &v.value {
                Some(sv) => match &sv.expr.form {
                    ExprForm::Lit(Literal::Int(d)) => parse_decimal(d.as_str(), u128::MAX),
                    _ => None,
                },
                None => None,
            };
            match value {
                Some(x) => {
                    if !fits(x, width) {
                        proof {
                            lemma_table_refused(variants, width as nat, (i + 1) as nat);
                        }
                        return None;
                    }
                    table.push((x, i));
                },
                None => {
                    proof {
                        lemma_table_refused(variants, width as nat, (i + 1) as nat);
                    }
                    return None;
                },
            }
        }
        i = i + 1;
    }
    Some(EnumViewPlan { selector_width: width, big_endian: matches!(schema.endian, Endian::Big), table, unknown })
}

proof fn lemma_table_refused(variants: Seq<Variant>, width: nat, n: nat)
    requires
        n <= variants.len(),
        spec_table(variants, width, n) is None,
    ensures
        spec_table(variants, width, variants.len()) is None,
    decreases variants.len() - n,
{
    if n < variants.len() {
        lemma_table_refused(variants, width, n + 1);
    }
}

/// The position of the first table entry holding `x`.
pub open spec fn spec_lookup(table: Seq<(u128, usize)>, x: u128, n: nat) -> Option<usize>
    decreases n,
{
    if n == 0 {
        None
    } else {
        match spec_lookup(table, x, (n - 1) as nat) {
            Some(v) => Some(v),
            None => if table[n - 1].0 == x {
                Some(table[n - 1].1)
            } else {
                None
            },
        }
    }
}

/// Whether two known variants have the same selector value.
pub open spec fn spec_has_duplicate(table: Seq<(u128, usize)>) -> bool {
    exists|a: int, b: int| 0 <= a < b < table.len() && (#[trigger] table[a]).0 == (#[trigger] table[b]).0
}

/// Which variant a view of `input` picks, where its body starts and the
/// selector it read: the known variant with the selector's value, else the
/// fallback; every input is refused when two known variants share a value.
pub open spec fn spec_enum_dispatch(p: EnumViewPlan, input: Seq<u8>, offset: usize) -> Result<EnumFrame, EnumViewError> {
    let w = p.selector_width;
    if spec_has_duplicate(p.table@) {
        Err(EnumViewError::DuplicateSelector)
    } else if input.len() < w {
        Err(
            EnumViewError::NeedMore {
                offset: if offset + input.len() > usize::MAX {
                    usize::MAX
                } else {
                    (offset + input.len()) as usize
                },
                additional_at_least: (w - input.len()) as usize,
            },
        )
    } else {
        let x = spec_value(input.subrange(0, w as int), p.big_endian) as u128;
        match spec_lookup(p.table@, x, p.table@.len()) {
            Some(v) => Ok(EnumFrame { variant: v, body_start: w, selector: x, fallback: false }),
            None => match p.unknown {
                Some(u) => Ok(EnumFrame { variant: u, body_start: w, selector: x, fallback: true }),
                None => Err(EnumViewError::UnknownSelector { selector: x, offset }),
            },
        }
    }
}

/// Reads the selector and picks the variant.
pub fn enum_dispatch(plan: &EnumViewPlan, input: &Vec<u8>, offset: usize) -> (r: Result<EnumFrame, EnumViewError>)
    requires
        plan.selector_width <= 16,
    ensures
        r == spec_enum_dispatch(*plan, input@, offset),
{
    if has_duplicate(&plan.table) {
        return Err(EnumViewError::DuplicateSelector);
    }
    let w = plan.selector_width;
    if input.len() < w {
        return Err(EnumViewError::NeedMore { offset: offset.saturating_add(input.len()), additional_at_least: w - input.len() });
    }
    let x = read_value(input, 0, w, plan.big_endian);
    let mut i: usize = 0;
    while i < plan.table.len()
        invariant
            i <= plan.table@.len(),
            spec_lookup(plan.table@, x, i as nat) is None,
            x == spec_value(input@.subrange(0, w as int), plan.big_endian) as u128,
            w == plan.selector_width,
            w <= input@.len(),
            !spec_has_duplicate(plan.table@),
        decreases plan.table.len() - i,
    {
        if plan.table[i].0 == x {
            assert(spec_lookup(plan.table@, x, (i + 1) as nat) == Some(plan.table@[i as int].1));
            proof {
                lemma_lookup_found(plan.table@, x, (i + 1) as nat);
            }
            return Ok(EnumFrame { variant: plan.table[i].1, body_start: w, selector: x, fallback: false });
        }
        i = i + 1;
    }
    match plan.unknown {
        Some(u) => Ok(EnumFrame { variant: u, body_start: w, selector: x, fallback: true }),
        None => Err(EnumViewError::UnknownSelector { selector: x, offset }),
    }
}

/// Whether two known variants have the same selector value.
fn has_duplicate(table: &Vec<(u128, usize)>) -> (r: bool)
    ensures
        r == spec_has_duplicate(table@),
{
    let mut b: usize = 0;
    while b < table.len()
        invariant
            b <= table@.len(),
            forall|x: int, y: int| 0 <= x < y < b ==> (#[trigger] table@[x]).0 != (#[trigger] table@[y]).0,
        decreases table.len() - b,
    {
        let mut a: usize = 0;
        while a < b
            invariant
                a <= b < table@.len(),
                forall|x: int, y: int| 0 <= x < y < b ==> (#[trigger] table@[x]).0 != (#[trigger] table@[y]).0,
                forall|x: int| 0 <= x < a ==> (#[trigger] table@[x]).0 != table@[b as int].0,
            decreases b - a,
        {
            if table[a].0 == table[b].0 {
                assert(table@[a as int].0 == table@[b as int].0);
                return true;
            }
            a = a + 1;
        }
        b = b + 1;
    }
    false
}

proof fn lemma_lookup_found(table: Seq<(u128, usize)>, x: u128, n: nat)
    requires
        1 <= n <= table.len(),
        spec_lookup(table, x, n) is Some,
    ensures
        spec_lookup(table, x, table.len()) == spec_lookup(table, x, n),
    decreases table.len() - n,
{
    if n < table.len() {
        lemma_lookup_found(table, x, n + 1);
    }
}

/// The selector bytes a writer emits before the body of the known variant
/// at table entry `k`.
pub fn encode_selector(plan: &EnumViewPlan, k: usize) -> (r: Vec<u8>)
    requires
        k < plan.table@.len(),
        plan.selector_width <= 16,
    ensures
        r@ == spec_bytes(plan.table@[k as int].0 as nat, plan.selector_width as nat, plan.big_endian),
{
    let mut out: Vec<u8> = Vec::new();
    push_bytes(&mut out, plan.table[k].0, plan.selector_width, plan.big_endian);
    assert(out@ =~= spec_bytes(plan.table@[k as int].0 as nat, plan.selector_width as nat, plan.big_endian));
    out
}

proof fn lemma_lookup_first(table: Seq<(u128, usize)>, k: int, n: nat)
    requires
        0 <= k < n <= table.len(),
        forall|j: int| 0 <= j < k ==> (#[trigger] table[j]).0 != table[k].0,
    ensures
        spec_lookup(table, table[k].0, n) == Some(table[k].1),
    decreases n,
{
    if n - 1 > k {
        lemma_lookup_first(table, k, (n - 1) as nat);
    } else {
        lemma_lookup_none(table, table[k].0, k as nat);
    }
}

proof fn lemma_lookup_none(table: Seq<(u128, usize)>, x: u128, n: nat)
    requires
        n <= table.len(),
        forall|j: int| 0 <= j < n ==> (#[trigger] table[j]).0 != x,
    ensures
        spec_lookup(table, x, n) is None,
    decreases n,
{
    if n > 0 {
        lemma_lookup_none(table, x, (n - 1) as nat);
    }
}

/// A view of what an enum writer emitted for a known variant (its selector,
/// then any body) picks that variant, with its body right after the
/// selector, when no two known variants share a selector value.
pub proof fn law_dispatch_reads_written_selector(plan: EnumViewPlan, k: int, body: Seq<u8>, offset: usize)
    requires
        plan.selector_width <= 16,
        0 <= k < plan.table@.len(),
        plan.table@[k].0 < pow256(plan.selector_width as nat),
        !spec_has_duplicate(plan.table@),
    ensures
        spec_enum_dispatch(
            plan,
            spec_bytes(plan.table@[k].0 as nat, plan.selector_width as nat, plan.big_endian) + body,
            offset,
        ) == Ok::<EnumFrame, EnumViewError>(
            EnumFrame {
                variant: plan.table@[k].1,
                body_start: plan.selector_width,
                selector: plan.table@[k].0,
                fallback: false,
            },
        ),
{
    let w = plan.selector_width;
    let x = plan.table@[k].0;
    let sel = spec_bytes(x as nat, w as nat, plan.big_endian);
    lemma_value_of_bytes(x as nat, w as nat, plan.big_endian);
    let input = sel + body;
    assert(input.subrange(0, w as int) =~= sel);
    assert forall|j: int| 0 <= j < k implies (#[trigger] plan.table@[j]).0 != plan.table@[k].0 by {
        if plan.table@[j].0 == plan.table@[k].0 {
            assert(spec_has_duplicate(plan.table@));
        }
    }
    lemma_lookup_first(plan.table@, k, plan.table@.len());
}

/// The bytes a writer emits for the fallback variant: the selector value it
/// holds, then its body, both as they were read.
pub fn encode_unknown(plan: &EnumViewPlan, selector: u128, body: &Vec<u8>) -> (r: Vec<u8>)
    requires
        plan.selector_width <= 16,
        selector < pow256(plan.selector_width as nat),
    ensures
        r@ == spec_bytes(selector as nat, plan.selector_width as nat, plan.big_endian) + body@,
{
    let mut out: Vec<u8> = Vec::new();
    push_bytes(&mut out, selector, plan.selector_width, plan.big_endian);
    let ghost head = out@;
    let mut m: usize = 0;
    while m < body.len()
        invariant
            m <= body@.len(),
            out@ == head + body@.take(m as int),
        decreases body.len() - m,
    {
        out.push(body[m]);
        m = m + 1;
        assert(out@ =~= head + body@.take(m as int));
    }
    assert(body@.take(body@.len() as int) =~= body@);
    out
}

/// What a view reads back from a fallback variant that a writer forwarded:
/// with a selector value that no known variant has, the view picks the
/// fallback, keeps that selector, and takes the body whole.
pub proof fn law_unknown_body_forwarded(plan: EnumViewPlan, x: u128, body: Seq<u8>, bodies: Seq<Option<usize>>)
    requires
        plan.selector_width <= 16,
        x < pow256(plan.selector_width as nat),
        plan.unknown is Some,
        spec_lookup(plan.table@, x, plan.table@.len()) is None,
        !spec_has_duplicate(plan.table@),
        plan.selector_width + body.len() <= usize::MAX,
    ensures
        spec_enum_view(plan, spec_bytes(x as nat, plan.selector_width as nat, plan.big_endian) + body, bodies)
            == Ok::<EnumFramed, EnumViewError>(
            EnumFramed {
                frame: EnumFrame {
                    variant: plan.unknown->Some_0,
                    body_start: plan.selector_width,
                    selector: x,
                    fallback: true,
                },
                consumed: (plan.selector_width + body.len()) as usize,
            },
        ),
{
    let w = plan.selector_width;
    let sel = spec_bytes(x as nat, w as nat, plan.big_endian);
    lemma_value_of_bytes(x as nat, w as nat, plan.big_endian);
    let input = sel + body;
    assert(input.subrange(0, w as int) =~= sel);
}

/// What a view reads back from a known variant that a writer emitted (its
/// selector, then a body that the variant's body frame takes whole) is that
/// variant, taking every byte, when no two known variants share a selector.
pub proof fn law_known_variant_reads_back(plan: EnumViewPlan, k: int, body: Seq<u8>, bodies: Seq<Option<usize>>)
    requires
        plan.selector_width <= 16,
        0 <= k < plan.table@.len(),
        plan.table@[k].0 < pow256(plan.selector_width as nat),
        !spec_has_duplicate(plan.table@),
        plan.table@[k].1 < bodies.len(),
        bodies[plan.table@[k].1 as int] == Some(body.len() as usize),
        plan.selector_width + body.len() <= usize::MAX,
    ensures
        spec_enum_view(
            plan,
            spec_bytes(plan.table@[k].0 as nat, plan.selector_width as nat, plan.big_endian) + body,
            bodies,
        ) == Ok::<EnumFramed, EnumViewError>(
            EnumFramed {
                frame: EnumFrame {
                    variant: plan.table@[k].1,
                    body_start: plan.selector_width,
                    selector: plan.table@[k].0,
                    fallback: false,
                },
                consumed: (plan.selector_width + body.len()) as usize,
            },
        ),
{
    law_dispatch_reads_written_selector(plan, k, body, 0);
    lemma_value_of_bytes(plan.table@[k].0 as nat, plan.selector_width as nat, plan.big_endian);
}

/// The variant a view frames and how many bytes it takes.
#[derive(Clone, Copy, Debug, PartialEq, Eq, Structural)]
pub struct EnumFramed {
    pub frame: EnumFrame,
    pub consumed: usize,
}

/// How a view frames an enum at absolute `offset`: the chosen known
/// variant's body frames the bytes after the selector (`bodies[v]` is what
/// variant `v`'s body reports: the bytes it takes, or `None` for a refusal)
/// and may not claim more than there are; the fallback takes every byte.
pub open spec fn spec_enum_frame(p: EnumViewPlan, input: Seq<u8>, offset: usize, bodies: Seq<Option<usize>>) -> Result<
    EnumFramed,
    EnumViewError,
> {
    match spec_enum_dispatch(p, input, offset) {
        Err(e) => Err(e),
        Ok(f) => if f.fallback {
            Ok(EnumFramed { frame: f, consumed: input.len() as usize })
        } else if offset + f.body_start > usize::MAX {
            Err(EnumViewError::Layout { variant: f.variant })
        } else {
            match bodies[f.variant as int] {
                None => Err(EnumViewError::Body { variant: f.variant }),
                Some(c) => if c > input.len() - f.body_start {
                    Err(
                        EnumViewError::InvalidFrame {
                            offset: (offset + f.body_start) as usize,
                            consumed: c,
                            available: (input.len() - f.body_start) as usize,
                        },
                    )
                } else {
                    Ok(EnumFramed { frame: f, consumed: (f.body_start + c) as usize })
                },
            }
        },
    }
}

/// Whether every variant the table names has a body report.
pub open spec fn spec_bodies_cover(p: EnumViewPlan, bodies: Seq<Option<usize>>) -> bool {
    &&& forall|k: int| 0 <= k < p.table@.len() ==> (#[trigger] p.table@[k]).1 < bodies.len()
}

/// Frames an enum at absolute `offset`.
pub fn enum_frame(plan: &EnumViewPlan, input: &Vec<u8>, offset: usize, bodies: &Vec<Option<usize>>) -> (r: Result<
    EnumFramed,
    EnumViewError,
>)
    requires
        plan.selector_width <= 16,
        spec_bodies_cover(*plan, bodies@),
    ensures
        r == spec_enum_frame(*plan, input@, offset, bodies@),
{
    let f = match enum_dispatch(plan, input, offset) {
        Err(e) => return Err(e),
        Ok(f) => f,
    };
    if f.fallback {
        return Ok(EnumFramed { frame: f, consumed: input.len() });
    }
    proof {
        lemma_lookup_entry(plan.table@, f.selector, plan.table@.len());
    }
    if offset > usize::MAX - f.body_start {
        return Err(EnumViewError::Layout { variant: f.variant });
    }
    match bodies[f.variant] {
        None => Err(EnumViewError::Body { variant: f.variant }),
        Some(c) => {
            let available = input.len() - f.body_start;
            if c > available {
                Err(EnumViewError::InvalidFrame { offset: offset + f.body_start, consumed: c, available })
            } else {
                Ok(EnumFramed { frame: f, consumed: f.body_start + c })
            }
        },
    }
}

proof fn lemma_lookup_entry(table: Seq<(u128, usize)>, x: u128, n: nat)
    requires
        n <= table.len(),
    ensures
        spec_lookup(table, x, n) matches Some(v) ==> exists|k: int| 0 <= k < n && (#[trigger] table[k]).1 == v,
    decreases n,
{
    if n > 0 {
        lemma_lookup_entry(table, x, (n - 1) as nat);
        if spec_lookup(table, x, (n - 1) as nat) is None && table[n - 1].0 == x {
            assert(table[n - 1].1 == spec_lookup(table, x, n)->Some_0);
        }
    }
}

/// What a view of a whole input finds: the frame, unless bytes are left
/// after the variant.
pub open spec fn spec_enum_view(p: EnumViewPlan, input: Seq<u8>, bodies: Seq<Option<usize>>) -> Result<
    EnumFramed,
    EnumViewError,
> {
    match spec_enum_frame(p, input, 0, bodies) {
        Err(e) => Err(e),
        Ok(f) => if f.consumed < input.len() {
            Err(EnumViewError::Trailing { consumed: f.consumed, len: input.len() as usize })
        } else {
            Ok(f)
        },
    }
}

/// A view of a whole input is decided by the frame at offset 0: the
/// frame's refusal; or, the frame taking `c` bytes, which never exceed the
/// input, the bytes left after them, or the frame itself when none are.
pub proof fn law_enum_view_of_frame(p: EnumViewPlan, input: Seq<u8>, bodies: Seq<Option<usize>>)
    requires
        input.len() <= usize::MAX,
    ensures
        match spec_enum_frame(p, input, 0, bodies) {
            Err(e) => spec_enum_view(p, input, bodies) == Err::<EnumFramed, EnumViewError>(e),
            Ok(f) => f.consumed <= input.len() && (f.consumed < input.len() ==> spec_enum_view(p, input, bodies)
                == Err::<EnumFramed, EnumViewError>(
                EnumViewError::Trailing { consumed: f.consumed, len: input.len() as usize },
            )) && (f.consumed == input.len() ==> spec_enum_view(p, input, bodies) == Ok::<
                EnumFramed,
                EnumViewError,
            >(f)),
        },
{
}

/// Views a whole input as the enum.
pub fn enum_view(plan: &EnumViewPlan, input: &Vec<u8>, bodies: &Vec<Option<usize>>) -> (r: Result<
    EnumFramed,
    EnumViewError,
>)
    requires
        plan.selector_width <= 16,
        spec_bodies_cover(*plan, bodies@),
    ensures
        r == spec_enum_view(*plan, input@, bodies@),
{
    let f = enum_frame(plan, input, 0, bodies)?;
    if f.consumed < input.len() {
        return Err(EnumViewError::Trailing { consumed: f.consumed, len: input.len() });
    }
    Ok(f)
}

/// The enum's fixed size: none with a fallback variant; otherwise the
/// selector's width plus the size every known body has, when they all have
/// the same fixed size and the sum is addressable.
pub open spec fn spec_enum_fixed_size(p: EnumViewPlan, body_sizes: Seq<Option<usize>>) -> Option<usize> {
    if p.unknown is Some || body_sizes.len() == 0 {
        None
    } else if forall|k: int| 0 <= k < body_sizes.len() ==> #[trigger] body_sizes[k] == body_sizes[0] {
        match body_sizes[0] {
            Some(x) => if p.selector_width + x <= usize::MAX {
                Some((p.selector_width + x) as usize)
            } else {
                None
            },
            None => None,
        }
    } else {
        None
    }
}

/// An enum has a fixed size only when it has no fallback and every known
/// body has one and the same fixed size; that size is the selector's width
/// plus the bodies' size. Bodies of two different fixed sizes leave the enum
/// without one.
pub proof fn law_enum_fixed_size_needs_equal_bodies(p: EnumViewPlan, body_sizes: Seq<Option<usize>>)
    ensures
        spec_enum_fixed_size(p, body_sizes) matches Some(n) ==> p.unknown is None && body_sizes.len() > 0
            && n >= p.selector_width && forall|k: int|
            0 <= k < body_sizes.len() ==> #[trigger] body_sizes[k] == Some((n - p.selector_width) as usize),
        (exists|j: int, k: int|
            0 <= j < body_sizes.len() && 0 <= k < body_sizes.len() && #[trigger] body_sizes[j]
                != #[trigger] body_sizes[k]) ==> spec_enum_fixed_size(p, body_sizes) is None,
{
    if let Some(n) = spec_enum_fixed_size(p, body_sizes) {
        assert forall|k: int| 0 <= k < body_sizes.len() implies #[trigger] body_sizes[k] == Some(
            (n - p.selector_width) as usize,
        ) by {
            assert(body_sizes[k] == body_sizes[0]);
        }
    }
    if exists|j: int, k: int|
        0 <= j < body_sizes.len() && 0 <= k < body_sizes.len() && #[trigger] body_sizes[j] != #[trigger] body_sizes[k] {
        let (j, k) = choose|j: int, k: int|
            0 <= j < body_sizes.len() && 0 <= k < body_sizes.len() && #[trigger] body_sizes[j]
                != #[trigger] body_sizes[k];
        if spec_enum_fixed_size(p, body_sizes) is Some {
            assert(body_sizes[j] == body_sizes[0]);
            assert(body_sizes[k] == body_sizes[0]);
        }
    }
}

/// The enum's fixed size, given each known body's fixed size.
pub fn enum_fixed_size(plan: &EnumViewPlan, body_sizes: &Vec<Option<usize>>) -> (r: Option<usize>)
    ensures
        r == spec_enum_fixed_size(*plan, body_sizes@),
{
    if plan.unknown.is_some() || body_sizes.len() == 0 {
        return None;
    }
    let first = body_sizes[0];
    let mut k: usize = 0;
    while k < body_sizes.len()
        invariant
            k <= body_sizes@.len(),
            body_sizes@.len() > 0,
            first == body_sizes@[0],
            forall|j: int| 0 <= j < k ==> #[trigger] body_sizes@[j] == first,
        decreases body_sizes.len() - k,
    {
        if body_sizes[k] != first {
            return None;
        }
        k = k + 1;
    }
    match first {
        Some(x) => if x <= usize::MAX - plan.selector_width {
            Some(plan.selector_width + x)
        } else {
            None
        },
        None => None,
    }
}

/// Whether the enum's extent is known from its leading bytes: never with a
/// fallback variant; otherwise exactly when every known body's is.
pub open spec fn spec_enum_leading_extent(p: EnumViewPlan, body_extents: Seq<bool>) -> bool {
    p.unknown is None && forall|k: int| 0 <= k < body_extents.len() ==> #[trigger] body_extents[k]
}

/// Whether the enum's extent is known from its leading bytes, given each
/// known body's.
pub fn enum_leading_extent(plan: &EnumViewPlan, body_extents: &Vec<bool>) -> (r: bool)
    ensures
        r == spec_enum_leading_extent(*plan, body_extents@),
{
    if plan.unknown.is_some() {
        return false;
    }
    let mut k: usize = 0;
    while k < body_extents.len()
        invariant
            k <= body_extents@.len(),
            forall|j: int| 0 <= j < k ==> #[trigger] body_extents@[j],
        decreases body_extents.len() - k,
    {
        if !body_extents[k] {
            return false;
        }
        k = k + 1;
    }
    true
}

} // verus!
