//! Nominal bitfields: logical fields packed into bit ranges of one unsigned
//! integer.

use vstd::prelude::*;
use vstd::arithmetic::power2::{lemma_pow2_pos, lemma_pow2_unfold, pow2};
use crate::errors::{ErrorKind, SchemaError};
use crate::model::Generics;
use crate::scalar::{Endian, EndianError, ScalarType, scalar_endian, spec_scalar_endian};
use crate::schema::ParseFailure;
use crate::syntax::{
    ExprForm, Literal, PathArguments, TypeShape, TypeSyntax, WireExpr, parse_decimal, spec_int_literal,
    spec_parse_decimal,
};
use crate::text::{chars_of, contains_name, names, spec_unraw, text_is, unraw};

verus! {

/// The mask of bits `start..=end` of a `u128`.
pub open spec fn spec_range_mask(start: u32, end: u32) -> u128 {
    if end - start + 1 == 128 {
        u128::MAX
    } else {
        ((((1u128 << ((end - start + 1) as u32)) - 1) as u128) << start) as u128
    }
}

/// Bits `0..=e`.
spec fn low_bits(e: u32) -> u128 {
    u128::MAX >> ((127 - e) as u32)
}

/// Bits `s..=127`.
spec fn high_bits(s: u32) -> u128 {
    u128::MAX << s
}

proof fn lemma_mask_split(s: u32, e: u32)
    requires
        s <= e < 128,
    ensures
        spec_range_mask(s, e) == low_bits(e) & high_bits(s),
{
    assert(spec_range_mask(s, e) == (u128::MAX >> ((127 - e) as u32)) & (u128::MAX << s)) by (bit_vector)
        requires
            s <= e < 128,
    ;
}

proof fn lemma_low_meet(a: u32, b: u32)
    requires
        a <= b < 128,
    ensures
        low_bits(a) & low_bits(b) == low_bits(a),
{
    assert((u128::MAX >> ((127 - a) as u32)) & (u128::MAX >> ((127 - b) as u32)) == (u128::MAX >> ((127 - a) as u32))) by (bit_vector)
        requires
            a <= b < 128,
    ;
}

proof fn lemma_high_meet(a: u32, b: u32)
    requires
        a <= b < 128,
    ensures
        high_bits(a) & high_bits(b) == high_bits(b),
{
    assert((u128::MAX << a) & (u128::MAX << b) == (u128::MAX << b)) by (bit_vector)
        requires
            a <= b < 128,
    ;
}

proof fn lemma_low_high_empty(e: u32, s: u32)
    requires
        e < 128,
        s < 128,
    ensures
        (low_bits(e) & high_bits(s) == 0) <==> e < s,
{
    assert(((u128::MAX >> ((127 - e) as u32)) & (u128::MAX << s) == 0) <==> e < s) by (bit_vector)
        requires
            e < 128,
            s < 128,
    ;
}

proof fn lemma_and_shuffle(a: u128, b: u128, c: u128, d: u128)
    ensures
        (a & b) & (c & d) == (a & c) & (b & d),
{
    assert((a & b) & (c & d) == (a & c) & (b & d)) by (bit_vector);
}

/// Two range masks share a bit exactly when the ranges overlap.
pub proof fn lemma_masks_disjoint(s1: u32, e1: u32, s2: u32, e2: u32)
    requires
        s1 <= e1 < 128,
        s2 <= e2 < 128,
    ensures
        (spec_range_mask(s1, e1) & spec_range_mask(s2, e2) == 0) <==> (e1 < s2 || e2 < s1),
{
    lemma_mask_split(s1, e1);
    lemma_mask_split(s2, e2);
    lemma_and_shuffle(low_bits(e1), high_bits(s1), low_bits(e2), high_bits(s2));
    let lo = if e1 <= e2 { e1 } else { e2 };
    let hi = if s1 <= s2 { s2 } else { s1 };
    if e1 <= e2 {
        lemma_low_meet(e1, e2);
    } else {
        lemma_low_meet(e2, e1);
        assert(low_bits(e1) & low_bits(e2) == low_bits(e2) & low_bits(e1)) by {
            let x = low_bits(e1);
            let y = low_bits(e2);
            assert(x & y == y & x) by (bit_vector);
        }
    }
    if s1 <= s2 {
        lemma_high_meet(s1, s2);
    } else {
        lemma_high_meet(s2, s1);
        assert(high_bits(s1) & high_bits(s2) == high_bits(s2) & high_bits(s1)) by {
            let x = high_bits(s1);
            let y = high_bits(s2);
            assert(x & y == y & x) by (bit_vector);
        }
    }
    lemma_low_high_empty(lo, hi);
}

/// The `u128` whose low `w` bits are set.
pub open spec fn spec_value_mask(w: int) -> u128 {
    (pow2(w as nat) - 1) as u128
}

proof fn lemma_shl_is_pow2(w: u32)
    requires
        w < 128,
    ensures
        (1u128 << w) as int == pow2(w as nat),
    decreases w,
{
    if w == 0 {
        assert(1u128 << 0u32 == 1u128) by (bit_vector);
        assert(pow2(0) == 1) by {
            reveal(vstd::arithmetic::power::pow);
        }
    } else {
        let v = (w - 1) as u32;
        lemma_shl_is_pow2(v);
        assert((1u128 << w) == (1u128 << v) * 2) by (bit_vector)
            requires
                w < 128,
                v == w - 1,
        ;
        lemma_pow2_unfold(w as nat);
    }
}

proof fn lemma_full_mask()
    ensures
        u128::MAX as int == pow2(128) - 1,
{
    lemma_shl_is_pow2(127);
    assert((1u128 << 127u32) as int == 0x8000_0000_0000_0000_0000_0000_0000_0000) by {
        assert((1u128 << 127u32) == 0x8000_0000_0000_0000_0000_0000_0000_0000u128) by (bit_vector);
    }
    lemma_pow2_unfold(128);
}

/// A logical field of a bitfield: bits `start..=end` of the representation.
#[derive(Debug)]
pub struct BitField {
    pub name: String,
    pub ty: TypeSyntax,
    pub start: u32,
    pub end: u32,
    pub is_bool: bool,
}

impl BitField {
    /// How many bits the field spans.
    pub open spec fn spec_width(&self) -> int {
        self.end - self.start + 1
    }

    /// How many bits the field spans.
    pub fn width(&self) -> (r: u32)
        requires
            self.start <= self.end,
            self.end - self.start < u32::MAX,
        ensures
            r == self.spec_width(),
    {
        self.end - self.start + 1
    }

    /// The field's value bits, unshifted: the low `width` bits.
    pub fn value_mask(&self) -> (r: u128)
        requires
            self.start <= self.end,
            self.spec_width() <= 128,
        ensures
            r == spec_value_mask(self.spec_width()),
    {
        let w = self.width();
        if w == 128 {
            proof {
                lemma_full_mask();
            }
            u128::MAX
        } else {
            proof {
                lemma_shl_is_pow2(w);
                lemma_pow2_pos(w as nat);
            }
            (1u128 << w) - 1
        }
    }

    /// The field's bits in place: the value mask shifted up to `start`.
    pub fn shifted_mask(&self) -> (r: u128)
        requires
            self.start <= self.end,
            self.spec_width() <= 128,
            self.start < 128,
        ensures
            r == spec_value_mask(self.spec_width()) << self.start,
    {
        self.value_mask() << self.start
    }
}

/// Whether two inclusive bit ranges share a bit.
pub open spec fn spec_ranges_meet(a: (u32, u32), b: (u32, u32)) -> bool {
    !(a.1 < b.0 || b.1 < a.0)
}

/// The union of the masks of the ranges.
pub open spec fn spec_used_mask(ranges: Seq<(u32, u32)>) -> u128
    decreases ranges.len(),
{
    if ranges.len() == 0 {
        0
    } else {
        spec_used_mask(ranges.drop_last()) | spec_range_mask(ranges.last().0, ranges.last().1)
    }
}

proof fn lemma_or_and_zero(a: u128, b: u128, m: u128)
    ensures
        ((a | b) & m == 0) <==> (a & m == 0 && b & m == 0),
{
    assert(((a | b) & m == 0) <==> (a & m == 0 && b & m == 0)) by (bit_vector);
}

proof fn lemma_zero_and(m: u128)
    ensures
        0u128 & m == 0,
{
    assert(0u128 & m == 0) by (bit_vector);
}

/// A range's mask misses the union of earlier masks exactly when the range
/// meets none of the earlier ranges.
proof fn lemma_used_mask_misses(ranges: Seq<(u32, u32)>, s: u32, e: u32)
    requires
        s <= e < 128,
        forall|j: int| 0 <= j < ranges.len() ==> (#[trigger] ranges[j]).0 <= ranges[j].1 < 128,
    ensures
        (spec_used_mask(ranges) & spec_range_mask(s, e) == 0) <==> !exists|j: int|
            0 <= j < ranges.len() && spec_ranges_meet(#[trigger] ranges[j], (s, e)),
    decreases ranges.len(),
{
    if ranges.len() == 0 {
        lemma_zero_and(spec_range_mask(s, e));
    } else {
        let rest = ranges.drop_last();
        lemma_used_mask_misses(rest, s, e);
        let last = ranges.last();
        lemma_or_and_zero(spec_used_mask(rest), spec_range_mask(last.0, last.1), spec_range_mask(s, e));
        lemma_masks_disjoint(last.0, last.1, s, e);
        if exists|j: int| 0 <= j < ranges.len() && spec_ranges_meet(#[trigger] ranges[j], (s, e)) {
            let j = choose|j: int| 0 <= j < ranges.len() && spec_ranges_meet(#[trigger] ranges[j], (s, e));
            if j < rest.len() {
                assert(rest[j] == ranges[j]);
            }
        }
        if exists|j: int| 0 <= j < rest.len() && spec_ranges_meet(#[trigger] rest[j], (s, e)) {
            let j = choose|j: int| 0 <= j < rest.len() && spec_ranges_meet(#[trigger] rest[j], (s, e));
            assert(ranges[j] == rest[j]);
        }
    }
}

/// A key of a bitfield's own `#[wire(..)]` list.
#[derive(Clone, Copy, Debug, PartialEq, Eq, Structural)]
pub enum BitfieldKey {
    /// `as = Type`: the representation.
    As,
    /// `le` or `be`.
    Endian(Endian),
}

/// The key a bitfield's own attribute names: `as` once, one byte order once.
pub open spec fn spec_accept_bitfield(has_representation: bool, has_endian: bool, key: Option<Seq<char>>) -> Result<
    BitfieldKey,
    ErrorKind,
> {
    match key {
        Some(k) => if k == seq!['a', 's'] {
            if has_representation {
                Err(ErrorKind::BitfieldDuplicateAs)
            } else {
                Ok(BitfieldKey::As)
            }
        } else if k == seq!['l', 'e'] || k == seq!['b', 'e'] {
            if has_endian {
                Err(ErrorKind::DuplicateEndian)
            } else if k == seq!['l', 'e'] {
                Ok(BitfieldKey::Endian(Endian::Little))
            } else {
                Ok(BitfieldKey::Endian(Endian::Big))
            }
        } else {
            Err(ErrorKind::BitfieldAttribute)
        },
        None => Err(ErrorKind::BitfieldAttribute),
    }
}

/// Accepts a key of a bitfield's own attribute list, given which keys were
/// already given.
pub fn accept_bitfield_attribute(has_representation: bool, has_endian: bool, key: Option<&String>) -> (r: Result<
    BitfieldKey,
    ErrorKind,
>)
    ensures
        r == spec_accept_bitfield(has_representation, has_endian, match key {
            Some(k) => Some(k@),
            None => None,
        }),
{
    proof {
        reveal_strlit("as");
        reveal_strlit("le");
        reveal_strlit("be");
    }
    assert("as"@ =~= seq!['a', 's']);
    assert("le"@ =~= seq!['l', 'e']);
    assert("be"@ =~= seq!['b', 'e']);
    let k = match key {
        Some(k) => k.as_str(),
        None => return Err(ErrorKind::BitfieldAttribute),
    };
    if text_is(k, "as") {
        if has_representation {
            Err(ErrorKind::BitfieldDuplicateAs)
        } else {
            Ok(BitfieldKey::As)
        }
    } else if text_is(k, "le") || text_is(k, "be") {
        if has_endian {
            Err(ErrorKind::DuplicateEndian)
        } else if text_is(k, "le") {
            Ok(BitfieldKey::Endian(Endian::Little))
        } else {
            Ok(BitfieldKey::Endian(Endian::Big))
        }
    } else {
        Err(ErrorKind::BitfieldAttribute)
    }
}

/// A key of a bitfield field's `#[wire(..)]` list.
#[derive(Clone, Copy, Debug, PartialEq, Eq, Structural)]
pub enum BitKey {
    /// `bit = N`.
    Bit,
    /// `bits = A..=B`.
    Bits,
}

/// The key a bitfield field's attribute names: `bit` or `bits`, and only one
/// range in all.
pub open spec fn spec_accept_bit(has_range: bool, key: Option<Seq<char>>) -> Result<BitKey, ErrorKind> {
    match key {
        Some(k) => if k == seq!['b', 'i', 't'] || k == seq!['b', 'i', 't', 's'] {
            if has_range {
                Err(ErrorKind::DuplicateBitRange)
            } else if k == seq!['b', 'i', 't'] {
                Ok(BitKey::Bit)
            } else {
                Ok(BitKey::Bits)
            }
        } else {
            Err(ErrorKind::BitfieldFieldAttribute)
        },
        None => Err(ErrorKind::BitfieldFieldAttribute),
    }
}

/// Accepts a key of a bitfield field's attribute list.
pub fn accept_bit_attribute(has_range: bool, key: Option<&String>) -> (r: Result<BitKey, ErrorKind>)
    ensures
        r == spec_accept_bit(has_range, match key {
            Some(k) => Some(k@),
            None => None,
        }),
{
    proof {
        reveal_strlit("bit");
        reveal_strlit("bits");
    }
    assert("bit"@ =~= seq!['b', 'i', 't']);
    assert("bits"@ =~= seq!['b', 'i', 't', 's']);
    let k = match key {
        Some(k) => k.as_str(),
        None => return Err(ErrorKind::BitfieldFieldAttribute),
    };
    if text_is(k, "bit") || text_is(k, "bits") {
        if has_range {
            Err(ErrorKind::DuplicateBitRange)
        } else if text_is(k, "bit") {
            Ok(BitKey::Bit)
        } else {
            Ok(BitKey::Bits)
        }
    } else {
        Err(ErrorKind::BitfieldFieldAttribute)
    }
}

/// The one-bit range `bit = N` names, `N` given by its decimal digits.
pub fn bit_value(digits: &String) -> (r: Result<(u32, u32), ErrorKind>)
    ensures
        match spec_parse_decimal(digits@, u32::MAX as int) {
            Some(b) => r == Ok::<(u32, u32), ErrorKind>((b as u32, b as u32)),
            None => r == Err::<(u32, u32), ErrorKind>(ErrorKind::IntegerTooLarge),
        },
{
    match parse_decimal(digits.as_str(), 0xffff_ffff) {
        Some(b) => Ok((b as u32, b as u32)),
        None => Err(ErrorKind::IntegerTooLarge),
    }
}

/// The range `bits = A..=B` names: a range with both bounds, inclusive,
/// whose bounds are integer literals that fit a `u32`.
pub open spec fn spec_bitfield_range(e: WireExpr) -> Result<(u32, u32), ErrorKind> {
    match e.form {
        ExprForm::Range { closed, start, end } => if start is None {
            Err(ErrorKind::BitfieldBitsNoStart)
        } else if end is None {
            Err(ErrorKind::BitfieldBitsNoEnd)
        } else if !closed {
            Err(ErrorKind::BitfieldBitsNotInclusive)
        } else {
            let s = *start.unwrap();
            let t = *end.unwrap();
            if spec_int_literal(s) is None || spec_int_literal(t) is None {
                Err(ErrorKind::BitfieldBoundNotInteger)
            } else {
                let a = spec_parse_decimal(spec_int_literal(s).unwrap(), u32::MAX as int);
                let b = spec_parse_decimal(spec_int_literal(t).unwrap(), u32::MAX as int);
                if a is None || b is None {
                    Err(ErrorKind::IntegerTooLarge)
                } else {
                    Ok((a.unwrap() as u32, b.unwrap() as u32))
                }
            }
        },
        _ => Err(ErrorKind::BitfieldBitsNotRange),
    }
}

fn int_digits(e: &WireExpr) -> (r: Option<&String>)
    ensures
        r matches Some(d) ==> spec_int_literal(*e) == Some(d@),
        r is None ==> spec_int_literal(*e) is None,
{
    match &e.form {
        ExprForm::Lit(Literal::Int(digits)) => Some(digits),
        _ => None,
    }
}

/// The range `bits = A..=B` names.
pub fn bits_value(e: &WireExpr) -> (r: Result<(u32, u32), ErrorKind>)
    ensures
        r == spec_bitfield_range(*e),
{
    match &e.form {
        ExprForm::Range { closed, start, end } => {
            let start = match start {
                Some(s) => s,
                None => return Err(ErrorKind::BitfieldBitsNoStart),
            };
            let end = match end {
                Some(t) => t,
                None => return Err(ErrorKind::BitfieldBitsNoEnd),
            };
            if !*closed {
                return Err(ErrorKind::BitfieldBitsNotInclusive);
            }
            let (sd, td) = match (int_digits(start), int_digits(end)) {
                (Some(sd), Some(td)) => (sd, td),
                _ => return Err(ErrorKind::BitfieldBoundNotInteger),
            };
            match (parse_decimal(sd.as_str(), 0xffff_ffff), parse_decimal(td.as_str(), 0xffff_ffff)) {
                (Some(a), Some(b)) => Ok((a as u32, b as u32)),
                _ => Err(ErrorKind::IntegerTooLarge),
            }
        },
        _ => Err(ErrorKind::BitfieldBitsNotRange),
    }
}

/// A field's declared range, once all its attributes are read: one must be
/// given, and its start may not exceed its end.
pub fn finish_bit_range(range: Option<(u32, u32)>) -> (r: Result<(u32, u32), ErrorKind>)
    ensures
        match range {
            None => r == Err::<(u32, u32), ErrorKind>(ErrorKind::BitfieldRangeMissing),
            Some((s, e)) => if s > e {
                r == Err::<(u32, u32), ErrorKind>(ErrorKind::BitStartAfterEnd)
            } else {
                r == Ok::<(u32, u32), ErrorKind>((s, e))
            },
        },
{
    match range {
        None => Err(ErrorKind::BitfieldRangeMissing),
        Some((s, e)) => if s > e {
            Err(ErrorKind::BitStartAfterEnd)
        } else {
            Ok((s, e))
        },
    }
}

/// The scalar a type written as a plain primitive name denotes.
pub open spec fn spec_scalar_from_type(ty: TypeShape) -> Option<ScalarType> {
    match ty {
        TypeShape::Path(p) => if p.qself is None && p.segments@.len() == 1 {
            ScalarType::spec_from_name(spec_unraw(p.segments@[0].ident@))
        } else {
            None
        },
        _ => None,
    }
}

/// The scalar a type written as a plain primitive name denotes.
pub fn scalar_from_type(ty: &TypeShape) -> (r: Option<ScalarType>)
    ensures
        r == spec_scalar_from_type(*ty),
{
    match ty {
        TypeShape::Path(p) => if p.qself.is_none() && p.segments.len() == 1 {
            let name = unraw(p.segments[0].ident.as_str());
            ScalarType::from_name(name.as_str())
        } else {
            None
        },
        _ => None,
    }
}

/// Whether a type is written as exactly `bool`.
pub open spec fn spec_is_bool(ty: TypeShape) -> bool {
    match ty {
        TypeShape::Path(p) => p.qself is None && !p.leading_colon && p.segments@.len() == 1
            && p.segments@[0].arguments is Empty && p.segments@[0].ident@ == "bool"@,
        _ => false,
    }
}

/// Whether a type is written as exactly `bool`.
pub fn is_bool(ty: &TypeShape) -> (r: bool)
    ensures
        r == spec_is_bool(*ty),
{
    match ty {
        TypeShape::Path(p) => p.qself.is_none() && !p.leading_colon && p.segments.len() == 1 && matches!(
            p.segments[0].arguments,
            PathArguments::Empty
        ) && text_is(p.segments[0].ident.as_str(), "bool"),
        _ => false,
    }
}

/// A declared field of a bitfield: its name, its type, and the range its
/// attributes give, or why they give none.
pub struct BitFieldDecl<E> {
    pub name: String,
    pub ty: TypeSyntax,
    pub range: Result<(u32, u32), ParseFailure<E>>,
}

/// The body of a declaration that a bitfield derive is applied to.
pub enum BitfieldData<E> {
    NamedStruct(Vec<BitFieldDecl<E>>),
    UnnamedStruct,
    NotStruct,
}

/// A nominal bitfield: logical fields in bit ranges of one unsigned integer.
#[derive(Debug)]
pub struct BitfieldSchema {
    pub name: String,
    pub generics: Generics,
    pub representation: ScalarType,
    pub endian: Endian,
    pub fields: Vec<BitField>,
}

/// Why field `ty` with bits `start..=end` is refused after the ranges
/// `earlier`, in a representation of `bits` bits: the range must fit the
/// representation; one bit is a `bool` or an unsigned integer, several bits
/// an unsigned integer wide enough; and no earlier range may share a bit.
pub open spec fn spec_bit_field_check(
    ty: TypeShape,
    start: u32,
    end: u32,
    bits: int,
    earlier: Seq<(u32, u32)>,
) -> Option<ErrorKind> {
    let w = end - start + 1;
    let logical = spec_scalar_from_type(ty);
    let b = spec_is_bool(ty);
    if end >= bits {
        Some(ErrorKind::BitfieldRangeTooWide)
    } else if w == 1 && !b && logical is None {
        Some(ErrorKind::BitfieldSingleBitType)
    } else if w > 1 && (b || !(logical matches Some(l) && l.spec_is_unsigned_integer())) {
        Some(ErrorKind::BitfieldMultiBitType)
    } else if logical matches Some(l) && w > l.spec_width() * 8 {
        Some(ErrorKind::BitfieldLogicalTooNarrow)
    } else if exists|j: int| 0 <= j < earlier.len() && spec_ranges_meet(#[trigger] earlier[j], (start, end)) {
        Some(ErrorKind::BitfieldRangesOverlap)
    } else {
        None
    }
}

/// The ranges of the first `n` declarations.
pub open spec fn spec_decl_ranges<E>(decls: Seq<BitFieldDecl<E>>, n: int) -> Seq<(u32, u32)> {
    decls.take(n).map_values(|d: BitFieldDecl<E>| d.range->Ok_0)
}

/// The first refused declaration among the first `n`, with why.
pub open spec fn spec_bit_fields_scan<E>(decls: Seq<BitFieldDecl<E>>, bits: int, n: nat) -> Option<
    (int, ParseFailure<E>),
>
    decreases n,
{
    if n == 0 {
        None
    } else {
        match spec_bit_fields_scan(decls, bits, (n - 1) as nat) {
            Some(v) => Some(v),
            None => {
                let i = n - 1;
                match decls[i].range {
                    Err(f) => Some((i, f)),
                    Ok((s, e)) => match spec_bit_field_check(decls[i].ty.shape, s, e, bits, spec_decl_ranges(decls, i)) {
                        Some(k) => Some(
                            (i, ParseFailure::Refused(SchemaError { field: Some(i as usize), kind: k, subject: None })),
                        ),
                        None => None,
                    },
                }
            },
        }
    }
}

/// The representation and byte order a bitfield's own attributes give, or
/// why they give none: `as` is required and names an unsigned primitive,
/// whose byte order follows the scalar rule.
pub open spec fn spec_bitfield_header(representation: Option<TypeSyntax>, declared: Option<Endian>) -> Result<
    (ScalarType, Endian),
    ErrorKind,
> {
    match representation {
        None => Err(ErrorKind::BitfieldMissingAs),
        Some(t) => match spec_scalar_from_type(t.shape) {
            None => Err(ErrorKind::PrimitiveIntegerExpected),
            Some(repr) => if !repr.spec_is_unsigned_integer() {
                Err(ErrorKind::BitfieldNotUnsigned)
            } else {
                match spec_scalar_endian(repr, declared) {
                    Ok(e) => Ok((repr, e)),
                    Err(EndianError::OneByteDeclared) => Err(ErrorKind::OneByteEndian),
                    Err(EndianError::Missing) => Err(ErrorKind::MissingEndian),
                }
            },
        },
    }
}

/// Whether a field is what declaration `d` yields.
pub open spec fn spec_bit_field_from<E>(f: BitField, d: BitFieldDecl<E>) -> bool {
    &&& d.range matches Ok((s, e)) && f.start == s && f.end == e
    &&& f.name == d.name
    &&& f.ty == d.ty
    &&& f.is_bool == spec_is_bool(d.ty.shape)
}

/// The refusal of the whole declaration with `kind`.
pub open spec fn refused<E>(kind: ErrorKind) -> ParseFailure<E> {
    ParseFailure::Refused(SchemaError { field: None, kind, subject: None })
}

/// Whether declared ranges are usable: each starts no later than it ends.
pub open spec fn spec_ranges_ordered<E>(decls: Seq<BitFieldDecl<E>>) -> bool {
    forall|i: int| 0 <= i < decls.len() ==> ((#[trigger] decls[i]).range matches Ok((s, e)) ==> s <= e)
}

/// Reads a bitfield declaration: its representation and byte order, then
/// each field in order, refusing the first field that does not fit.
pub fn parse<E>(
    name: String,
    generics: Generics,
    representation: Option<TypeSyntax>,
    declared_endian: Option<Endian>,
    data: BitfieldData<E>,
) -> (r: Result<BitfieldSchema, ParseFailure<E>>)
    requires
        data matches BitfieldData::NamedStruct(decls) ==> spec_ranges_ordered(decls@),
    ensures
        match spec_bitfield_header(representation, declared_endian) {
            Err(k) => r == Err::<BitfieldSchema, ParseFailure<E>>(refused(k)),
            Ok((repr, endian)) => match data {
                BitfieldData::NotStruct => r == Err::<BitfieldSchema, ParseFailure<E>>(
                    refused(ErrorKind::BitfieldNotStruct),
                ),
                BitfieldData::UnnamedStruct => r == Err::<BitfieldSchema, ParseFailure<E>>(
                    refused(ErrorKind::BitfieldNotNamed),
                ),
                BitfieldData::NamedStruct(decls) => match spec_bit_fields_scan(
                    decls@,
                    (repr.spec_width() * 8) as int,
                    decls@.len(),
                ) {
                    Some((_, f)) => r == Err::<BitfieldSchema, ParseFailure<E>>(f),
                    None => if decls@.len() == 0 {
                        r == Err::<BitfieldSchema, ParseFailure<E>>(refused(ErrorKind::BitfieldEmpty))
                    } else {
                        r matches Ok(s) && s.name == name && s.generics == generics && s.representation
                            == repr && s.endian == endian && s.fields@.len() == decls@.len() && forall|i: int|
                            0 <= i < decls@.len() ==> spec_bit_field_from(
                                #[trigger] s.fields@[i],
                                decls@[i],
                            )
                    },
                },
            },
        },
{
    let repr_ty = match representation {
        Some(t) => t,
        None => return Err(ParseFailure::Refused(SchemaError { field: None, kind: ErrorKind::BitfieldMissingAs, subject: None })),
    };
    let repr = match scalar_from_type(&repr_ty.shape) {
        Some(repr) => repr,
        None => return Err(ParseFailure::Refused(SchemaError { field: None, kind: ErrorKind::PrimitiveIntegerExpected, subject: None })),
    };
    if !repr.is_unsigned_integer() {
        return Err(ParseFailure::Refused(SchemaError { field: None, kind: ErrorKind::BitfieldNotUnsigned, subject: None }));
    }
    let endian = match scalar_endian(repr, declared_endian) {
        Ok(e) => e,
        Err(EndianError::OneByteDeclared) => return Err(ParseFailure::Refused(SchemaError { field: None, kind: ErrorKind::OneByteEndian, subject: None })),
        Err(EndianError::Missing) => return Err(ParseFailure::Refused(SchemaError { field: None, kind: ErrorKind::MissingEndian, subject: None })),
    };
    let decls = match data {
        BitfieldData::NamedStruct(decls) => decls,
        BitfieldData::UnnamedStruct => return Err(ParseFailure::Refused(SchemaError { field: None, kind: ErrorKind::BitfieldNotNamed, subject: None })),
        BitfieldData::NotStruct => return Err(ParseFailure::Refused(SchemaError { field: None, kind: ErrorKind::BitfieldNotStruct, subject: None })),
    };
    let ghost all = decls@;
    let bits: u32 = (repr.width() * 8) as u32;
    let count = decls.len();
    let mut rest = decls;
    let mut used: u128 = 0;
    let mut fields: Vec<BitField> = Vec::new();
    let mut index: usize = 0;
    while index < count
        invariant
            all == decls@,
            spec_bitfield_header(representation, declared_endian) == Ok::<(ScalarType, Endian), ErrorKind>(
                (repr, endian),
            ),
            data matches BitfieldData::NamedStruct(d) && d@ == all,
            count == all.len(),
            spec_ranges_ordered(all),
            index <= count,
            bits == repr.spec_width() * 8,
            bits <= 128,
            rest@ == all.skip(index as int),
            fields@.len() == index,
            spec_bit_fields_scan(all, bits as int, index as nat) is None,
            forall|i: int| 0 <= i < index ==> spec_bit_field_from(#[trigger] fields@[i], all[i]),
            forall|i: int| 0 <= i < index ==> (#[trigger] spec_decl_ranges(all, index as int)[i]).0 <= spec_decl_ranges(all, index as int)[i].1 < 128,
            used == spec_used_mask(spec_decl_ranges(all, index as int)),
        decreases count - index,
    {
        assert(rest@[0] == all[index as int]);
        let decl = rest.remove(0);
        assert(rest@ =~= all.skip(index + 1));
        let BitFieldDecl { name: field_name, ty, range } = decl;
        let ghost earlier = spec_decl_ranges(all, index as int);
        let (start, end) = match range {
            Ok(r) => r,
            Err(f) => {
                proof {
                    lemma_scan_stays(all, bits as int, (index + 1) as nat, count as nat);
                }
                return Err(f);
            },
        };
        assert(start <= end);
        let check = if end >= bits {
            Some(ErrorKind::BitfieldRangeTooWide)
        } else {
            let width = end - start + 1;
            let logical = scalar_from_type(&ty.shape);
            let b = is_bool(&ty.shape);
            let unsigned_logical = match logical {
                Some(l) => l.is_unsigned_integer(),
                None => false,
            };
            if width == 1 && !b && logical.is_none() {
                Some(ErrorKind::BitfieldSingleBitType)
            } else if width > 1 && (b || !unsigned_logical) {
                Some(ErrorKind::BitfieldMultiBitType)
            } else if match logical {
                Some(l) => (width as usize) > l.width() * 8,
                None => false,
            } {
                Some(ErrorKind::BitfieldLogicalTooNarrow)
            } else {
                let mask: u128 = if width == 128 {
                    u128::MAX
                } else {
                    proof {
                        lemma_shl_is_pow2(width);
                        lemma_pow2_pos(width as nat);
                    }
                    ((1u128 << width) - 1) << start
                };
                proof {
                    assert(mask == spec_range_mask(start, end));
                    lemma_used_mask_misses(earlier, start, end);
                }
                if used & mask != 0 {
                    Some(ErrorKind::BitfieldRangesOverlap)
                } else {
                    used = used | mask;
                    None
                }
            }
        };
        if let Some(k) = check {
            proof {
                assert(spec_bit_field_check(ty.shape, start, end, bits as int, earlier) == Some(k));
                lemma_scan_stays(all, bits as int, (index + 1) as nat, count as nat);
            }
            return Err(ParseFailure::Refused(SchemaError { field: Some(index), kind: k, subject: None }));
        }
        let is_bool = is_bool(&ty.shape);
        fields.push(BitField { name: field_name, ty, start, end, is_bool });
        proof {
            assert(spec_bit_field_check(all[index as int].ty.shape, start, end, bits as int, earlier) is None);
            assert(spec_decl_ranges(all, index + 1) =~= earlier.push((start, end)));
            assert(spec_decl_ranges(all, index + 1).drop_last() =~= earlier);
        }
        index = index + 1;
    }
    if count == 0 {
        return Err(ParseFailure::Refused(SchemaError { field: None, kind: ErrorKind::BitfieldEmpty, subject: None }));
    }
    Ok(BitfieldSchema { name, generics, representation: repr, endian, fields })
}

proof fn lemma_scan_stays<E>(decls: Seq<BitFieldDecl<E>>, bits: int, m: nat, n: nat)
    requires
        m <= n,
        spec_bit_fields_scan(decls, bits, m) is Some,
    ensures
        spec_bit_fields_scan(decls, bits, n) == spec_bit_fields_scan(decls, bits, m),
    decreases n - m,
{
    if m < n {
        lemma_scan_stays(decls, bits, m, (n - 1) as nat);
    }
}

/// The ranges of an accepted bitfield fit its representation and share no
/// bit.
pub proof fn law_bitfield_ranges_disjoint<E>(decls: Seq<BitFieldDecl<E>>, bits: int, i: int, j: int)
    requires
        spec_bit_fields_scan(decls, bits, decls.len()) is None,
        0 <= i < j < decls.len(),
    ensures
        decls[i].range is Ok && decls[j].range is Ok,
        decls[i].range->Ok_0.1 < bits && decls[j].range->Ok_0.1 < bits,
        !spec_ranges_meet(decls[i].range->Ok_0, decls[j].range->Ok_0),
{
    lemma_scan_prefix_none(decls, bits, decls.len(), (j + 1) as nat);
    lemma_scan_prefix_none(decls, bits, decls.len(), (i + 1) as nat);
    let earlier = spec_decl_ranges(decls, j);
    assert(earlier[i] == decls[i].range->Ok_0);
    if spec_ranges_meet(decls[i].range->Ok_0, decls[j].range->Ok_0) {
        let (a, b) = decls[i].range->Ok_0;
        let (c, d) = decls[j].range->Ok_0;
        assert(spec_ranges_meet(earlier[i], (c, d)));
    }
}

proof fn lemma_scan_prefix_none<E>(decls: Seq<BitFieldDecl<E>>, bits: int, n: nat, m: nat)
    requires
        m <= n,
        spec_bit_fields_scan(decls, bits, n) is None,
    ensures
        spec_bit_fields_scan(decls, bits, m) is None,
    decreases n - m,
{
    if m < n {
        lemma_scan_prefix_none(decls, bits, (n - 1) as nat, m);
    }
}

/// Whether `text` holds `part` somewhere.
pub open spec fn spec_text_contains(text: Seq<char>, part: Seq<char>) -> bool {
    exists|i: int| 0 <= i <= text.len() - part.len() && #[trigger] text.subrange(i, i + part.len()) == part
}

/// Whether `text` holds `part` somewhere.
pub fn text_contains(text: &str, part: &str) -> (r: bool)
    ensures
        r == spec_text_contains(text@, part@),
{
    let t = chars_of(text);
    let p = chars_of(part);
    if p.len() > t.len() {
        return false;
    }
    let mut i: usize = 0;
    while i <= t.len() - p.len()
        invariant
            t@ == text@,
            p@ == part@,
            p@.len() <= t@.len(),
            i <= t@.len() - p@.len() + 1,
            forall|k: int| 0 <= k < i ==> #[trigger] text@.subrange(k, k + part@.len()) != part@,
        decreases t.len() - p.len() + 1 - i,
    {
        let mut j: usize = 0;
        let mut same = true;
        while j < p.len()
            invariant
                t@ == text@,
                p@ == part@,
                i + p@.len() <= t@.len(),
                t@.len() <= usize::MAX,
                j <= p@.len(),
                same == (forall|m: int| 0 <= m < j ==> t@[i + m] == p@[m]),
            decreases p.len() - j,
        {
            if t[i + j] != p[j] {
                same = false;
            }
            j = j + 1;
        }
        if same {
            assert(text@.subrange(i as int, i + part@.len()) =~= part@);
            return true;
        }
        assert(text@.subrange(i as int, i + part@.len()) != part@) by {
            let m = choose|m: int| 0 <= m < p@.len() && t@[i + m] != p@[m];
            assert(text@.subrange(i as int, i + part@.len())[m] == t@[i + m]);
        }
        i = i + 1;
    }
    false
}

/// Whether a declaration is a nominal bitfield: a struct whose own `wire`
/// attributes spell the identifier `as`, and one of whose fields has a
/// `wire` attribute whose text mentions `bit`.
pub open spec fn spec_is_bitfield(is_struct: bool, item_idents: Seq<Seq<char>>, field_attribute_texts: Seq<Seq<char>>) -> bool {
    is_struct && item_idents.contains("as"@) && exists|i: int|
        0 <= i < field_attribute_texts.len() && spec_text_contains(#[trigger] field_attribute_texts[i], "bit"@)
}

/// Whether a declaration is a nominal bitfield; given whether it is a
/// struct, the identifiers its own `wire` attribute lists spell, and the
/// text of each `wire` attribute of its fields.
pub fn is_bitfield(is_struct: bool, item_idents: &Vec<String>, field_attribute_texts: &Vec<String>) -> (r: bool)
    ensures
        r == spec_is_bitfield(is_struct, names(item_idents@), names(field_attribute_texts@)),
{
    if !is_struct {
        return false;
    }
    let key = String::from_str("as");
    if !contains_name(item_idents, &key) {
        return false;
    }
    assert(key@ == "as"@);
    let mut i: usize = 0;
    while i < field_attribute_texts.len()
        invariant
            is_struct,
            names(item_idents@).contains("as"@),
            i <= field_attribute_texts@.len(),
            forall|k: int| 0 <= k < i ==> !spec_text_contains(#[trigger] names(field_attribute_texts@)[k], "bit"@),
        decreases field_attribute_texts.len() - i,
    {
        if text_contains(field_attribute_texts[i].as_str(), "bit") {
            assert(names(field_attribute_texts@)[i as int] == field_attribute_texts@[i as int]@);
            assert(spec_text_contains(names(field_attribute_texts@)[i as int], "bit"@));
            assert(names(item_idents@).contains("as"@));
            return true;
        }
        assert(names(field_attribute_texts@)[i as int] == field_attribute_texts@[i as int]@);
        i = i + 1;
    }
    false
}

/// What a generated setter stores: `raw` with the field's bits replaced by
/// the low bits of `value`.
pub open spec fn spec_set_bits(raw: u128, start: u32, value_mask: u128, value: u128) -> u128 {
    (raw & !(value_mask << start)) | ((value << start) & (value_mask << start))
}

/// What a generated getter reads: the field's bits of `raw`, shifted down.
pub open spec fn spec_get_bits(raw: u128, start: u32, value_mask: u128) -> u128 {
    (raw >> start) & value_mask
}

impl BitField {
    /// The representation after the field is set to `value` (as the
    /// generated setters do).
    pub fn set_bits(&self, raw: u128, value: u128) -> (r: u128)
        requires
            self.start <= self.end,
            self.spec_width() <= 128,
            self.start < 128,
        ensures
            r == spec_set_bits(raw, self.start, spec_value_mask(self.spec_width()), value),
    {
        let shifted = self.shifted_mask();
        (raw & !shifted) | ((value << self.start) & shifted)
    }

    /// The field's value in the representation (as the generated getters
    /// read it).
    pub fn get_bits(&self, raw: u128) -> (r: u128)
        requires
            self.start <= self.end,
            self.spec_width() <= 128,
            self.start < 128,
        ensures
            r == spec_get_bits(raw, self.start, spec_value_mask(self.spec_width())),
    {
        (raw >> self.start) & self.value_mask()
    }
}

pub proof fn lemma_value_mask_shape(w: u32)
    requires
        1 <= w <= 128,
    ensures
        w < 128 ==> spec_value_mask(w as int) == ((1u128 << w) - 1) as u128,
        w == 128 ==> spec_value_mask(w as int) == u128::MAX,
{
    if w < 128 {
        lemma_shl_is_pow2(w);
        lemma_pow2_pos(w as nat);
    } else {
        lemma_full_mask();
    }
}

/// Reading a field back after setting it gives the value set, when the
/// value fits the field and the field fits the representation.
pub proof fn law_bits_round_trip(raw: u128, start: u32, end: u32, value: u128)
    requires
        start <= end < 128,
        value <= spec_value_mask(end - start + 1),
    ensures
        spec_get_bits(
            spec_set_bits(raw, start, spec_value_mask(end - start + 1), value),
            start,
            spec_value_mask(end - start + 1),
        ) == value,
{
    let w = (end - start + 1) as u32;
    lemma_value_mask_shape(w);
    let m = spec_value_mask(w as int);
    if w == 128 {
        assert(start == 0);
        assert((((raw & !(m << start)) | ((value << start) & (m << start))) >> start) & m == value) by (bit_vector)
            requires
                m == u128::MAX,
                start == 0u32,
        ;
    } else {
        assert((((raw & !(m << start)) | ((value << start) & (m << start))) >> start) & m == value) by (bit_vector)
            requires
                w < 128,
                start < 128,
                start + w <= 128,
                m == ((1u128 << w) - 1) as u128,
                value <= m,
        ;
    }
}

proof fn lemma_update_outside(raw: u128, a: u128, x: u128, b: u128)
    by (bit_vector)
    requires
        a & b == 0,
    ensures
        ((raw & !a) | (x & a)) & b == raw & b,
{
}

#[verifier::rlimit(60)]
proof fn lemma_shr_and(x: u128, y: u128, s: u32)
    by (bit_vector)
    requires
        s < 128,
    ensures
        (x & y) >> s == (x >> s) & (y >> s),
{
}

proof fn lemma_shl_shr(n: u128, s: u32, v: u32)
    by (bit_vector)
    requires
        v < 128,
        s + v <= 128,
        n == ((1u128 << v) - 1) as u128,
    ensures
        (n << s) >> s == n,
{
}

/// What a getter reads depends only on the bits of its field.
proof fn lemma_read_through_mask(x: u128, y: u128, os: u32, v: u32, n: u128)
    requires
        1 <= v < 128,
        os + v <= 128,
        n == ((1u128 << v) - 1) as u128,
        x & (n << os) == y & (n << os),
    ensures
        (x >> os) & n == (y >> os) & n,
{
    lemma_shl_shr(n, os, v);
    lemma_shr_and(x, n << os, os);
    lemma_shr_and(y, n << os, os);
}

/// Setting one field leaves every field whose bits it does not share as it
/// was.
pub proof fn law_bits_independent(raw: u128, start: u32, end: u32, other_start: u32, other_end: u32, value: u128)
    requires
        start <= end < 128,
        other_start <= other_end < 128,
        end < other_start || other_end < start,
    ensures
        spec_get_bits(
            spec_set_bits(raw, start, spec_value_mask(end - start + 1), value),
            other_start,
            spec_value_mask(other_end - other_start + 1),
        ) == spec_get_bits(raw, other_start, spec_value_mask(other_end - other_start + 1)),
{
    let w = (end - start + 1) as u32;
    let v = (other_end - other_start + 1) as u32;
    lemma_value_mask_shape(w);
    lemma_value_mask_shape(v);
    let m = spec_value_mask(w as int);
    let n = spec_value_mask(v as int);
    let a = m << start;
    let b = n << other_start;
    lemma_masks_disjoint(start, end, other_start, other_end);
    assert(a == spec_range_mask(start, end));
    assert(b == spec_range_mask(other_start, other_end));
    lemma_update_outside(raw, a, value << start, b);
    let updated = spec_set_bits(raw, start, m, value);
    lemma_read_through_mask(updated, raw, other_start, v, n);
}

} // verus!
