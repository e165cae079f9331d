//! Selector enums: each known variant is chosen by a selector value that
//! precedes its body; one fallback variant may take the unknown values.

use vstd::prelude::*;
use crate::bitfield::{BitfieldKey, scalar_from_type, spec_scalar_from_type};
use crate::errors::{ErrorKind, SchemaError};
use crate::model::Generics;
use crate::recursive::{contains_root_generic_argument, root_slot_marker, spec_contains_root, spec_root_slot};
use crate::scalar::{Endian, EndianError, ScalarType, scalar_endian, spec_scalar_endian};
use crate::schema::ParseFailure;
use crate::syntax::{TypeShape, TypeSyntax, WireExpr, is_raw_bytes, spec_is_raw_bytes};
use crate::text::{contains_name, names, text_is};

verus! {

/// A key of a selector enum's own `#[wire(..)]` list.
#[derive(Clone, Copy, Debug, PartialEq, Eq, Structural)]
pub enum EnumKey {
    /// `selector = Type`.
    Selector,
    /// `le` or `be`.
    Endian(Endian),
}

/// The key an enum's own attribute names: `selector` once, one byte order
/// once.
pub open spec fn spec_accept_enum(has_selector: bool, has_endian: bool, key: Option<Seq<char>>) -> Result<
    EnumKey,
    ErrorKind,
> {
    match key {
        Some(k) => if k == "selector"@ {
            if has_selector {
                Err(ErrorKind::DuplicateSelector)
            } else {
                Ok(EnumKey::Selector)
            }
        } else if k == "le"@ || k == "be"@ {
            if has_endian {
                Err(ErrorKind::DuplicateEndian)
            } else if k == "le"@ {
                Ok(EnumKey::Endian(Endian::Little))
            } else {
                Ok(EnumKey::Endian(Endian::Big))
            }
        } else {
            Err(ErrorKind::EnumAttribute)
        },
        None => Err(ErrorKind::EnumAttribute),
    }
}

/// Accepts a key of an enum's own attribute list.
pub fn accept_enum_attribute(has_selector: bool, has_endian: bool, key: Option<&String>) -> (r: Result<
    EnumKey,
    ErrorKind,
>)
    ensures
        r == spec_accept_enum(has_selector, has_endian, match key {
            Some(k) => Some(k@),
            None => None,
        }),
{
    let k = match key {
        Some(k) => k.as_str(),
        None => return Err(ErrorKind::EnumAttribute),
    };
    if text_is(k, "selector") {
        if has_selector {
            Err(ErrorKind::DuplicateSelector)
        } else {
            Ok(EnumKey::Selector)
        }
    } else if text_is(k, "le") || text_is(k, "be") {
        if has_endian {
            Err(ErrorKind::DuplicateEndian)
        } else if text_is(k, "le") {
            Ok(EnumKey::Endian(Endian::Little))
        } else {
            Ok(EnumKey::Endian(Endian::Big))
        }
    } else {
        Err(ErrorKind::EnumAttribute)
    }
}

/// A key of a variant's `#[wire(..)]` list.
#[derive(Clone, Copy, Debug, PartialEq, Eq, Structural)]
pub enum VariantKey {
    /// `value = expr`: the selector value.
    Value,
    /// `unknown`: the fallback variant.
    Unknown,
}

/// The key a variant's attribute names: `value` once, `unknown` once.
pub open spec fn spec_accept_variant(has_value: bool, unknown: bool, key: Option<Seq<char>>) -> Result<
    VariantKey,
    ErrorKind,
> {
    match key {
        Some(k) => if k == "value"@ {
            if has_value {
                Err(ErrorKind::DuplicateSelectorValue)
            } else {
                Ok(VariantKey::Value)
            }
        } else if k == "unknown"@ {
            if unknown {
                Err(ErrorKind::DuplicateUnknownMarker)
            } else {
                Ok(VariantKey::Unknown)
            }
        } else {
            Err(ErrorKind::VariantAttribute)
        },
        None => Err(ErrorKind::VariantAttribute),
    }
}

/// Accepts a key of a variant's attribute list.
pub fn accept_variant_attribute(has_value: bool, unknown: bool, key: Option<&String>) -> (r: Result<
    VariantKey,
    ErrorKind,
>)
    ensures
        r == spec_accept_variant(has_value, unknown, match key {
            Some(k) => Some(k@),
            None => None,
        }),
{
    let k = match key {
        Some(k) => k.as_str(),
        None => return Err(ErrorKind::VariantAttribute),
    };
    if text_is(k, "value") {
        if has_value {
            Err(ErrorKind::DuplicateSelectorValue)
        } else {
            Ok(VariantKey::Value)
        }
    } else if text_is(k, "unknown") {
        if unknown {
            Err(ErrorKind::DuplicateUnknownMarker)
        } else {
            Ok(VariantKey::Unknown)
        }
    } else {
        Err(ErrorKind::VariantAttribute)
    }
}

/// A variant's selector value: the expression, and its token text, by
/// which values are told apart.
#[derive(Debug)]
pub struct SelectorValue {
    pub expr: WireExpr,
    pub tokens: String,
}

/// A declared variant: its name, its one unnamed body type if it has
/// exactly one unnamed field, and its selector value and fallback marker,
/// or why its attributes could not be read.
pub struct VariantDecl<E> {
    pub name: String,
    pub body: Option<TypeSyntax>,
    pub attributes: Result<(Option<SelectorValue>, bool), ParseFailure<E>>,
}

/// The body of a declaration that the enum derive is applied to.
pub enum EnumData<E> {
    Enum(Vec<VariantDecl<E>>),
    NotEnum,
}

/// A variant of a selector enum.
#[derive(Debug)]
pub struct Variant {
    pub name: String,
    pub body: TypeSyntax,
    pub value: Option<SelectorValue>,
    pub unknown: bool,
}

/// A selector enum.
#[derive(Debug)]
pub struct EnumSchema {
    pub name: String,
    pub generics: Generics,
    pub selector: ScalarType,
    pub endian: Endian,
    pub variants: Vec<Variant>,
}

impl EnumSchema {
    /// The positions of the known variants, in order.
    pub fn known_variants(&self) -> (r: Vec<usize>)
        ensures
            forall|i: int, j: int| 0 <= i < j < r@.len() ==> r@[i] < r@[j],
            forall|i: int| 0 <= i < r@.len() ==> r@[i] < self.variants@.len() && !self.variants@[r@[i] as int].unknown,
            forall|k: int| 0 <= k < self.variants@.len() && !(#[trigger] self.variants@[k]).unknown ==> r@.contains(k as usize),
    {
        let mut out: Vec<usize> = Vec::new();
        let mut i: usize = 0;
        while i < self.variants.len()
            invariant
                i <= self.variants@.len(),
                forall|a: int, b: int| 0 <= a < b < out@.len() ==> out@[a] < out@[b],
                forall|a: int| 0 <= a < out@.len() ==> out@[a] < i && !self.variants@[out@[a] as int].unknown,
                forall|k: int| 0 <= k < i && !(#[trigger] self.variants@[k]).unknown ==> out@.contains(k as usize),
            decreases self.variants.len() - i,
        {
            if !self.variants[i].unknown {
                let ghost before = out@;
                out.push(i);
                assert forall|k: int| 0 <= k < i + 1 && !(#[trigger] self.variants@[k]).unknown implies out@.contains(k as usize) by {
                    if k < i {
                        let m = choose|m: int| 0 <= m < before.len() && before[m] == k as usize;
                        assert(out@[m] == k as usize);
                    } else {
                        assert(out@[out@.len() - 1] == k as usize);
                    }
                }
            }
            i = i + 1;
        }
        out
    }

    /// The position of the fallback variant, if there is one.
    pub fn unknown(&self) -> (r: Option<usize>)
        ensures
            r matches Some(i) ==> i < self.variants@.len() && self.variants@[i as int].unknown && forall|j: int|
                0 <= j < i ==> !(#[trigger] self.variants@[j]).unknown,
            r is None ==> forall|j: int| 0 <= j < self.variants@.len() ==> !(#[trigger] self.variants@[j]).unknown,
    {
        let mut i: usize = 0;
        while i < self.variants.len()
            invariant
                i <= self.variants@.len(),
                forall|j: int| 0 <= j < i ==> !(#[trigger] self.variants@[j]).unknown,
            decreases self.variants.len() - i,
        {
            if self.variants[i].unknown {
                return Some(i);
            }
            i = i + 1;
        }
        None
    }
}

/// The refusal of the variant at `i`.
pub open spec fn refused_at<E>(i: int, kind: ErrorKind) -> ParseFailure<E> {
    ParseFailure::Refused(SchemaError { field: Some(i as usize), kind, subject: None })
}

/// The refusal of the whole declaration.
pub open spec fn refused_whole<E>(kind: ErrorKind) -> ParseFailure<E> {
    ParseFailure::Refused(SchemaError { field: None, kind, subject: None })
}

/// The selector and byte order an enum's own attributes give, or why they
/// give none: a selector is required, must be a plain primitive type that
/// is an unsigned integer, and its byte order follows the scalar rule.
pub open spec fn spec_enum_header(selector: Option<TypeSyntax>, declared: Option<Endian>) -> Result<
    (ScalarType, Endian),
    ErrorKind,
> {
    match selector {
        None => Err(ErrorKind::MissingSelector),
        Some(t) => if !(t.shape matches TypeShape::Path(p) && p.qself is None && p.segments@.len() == 1) {
            Err(ErrorKind::SelectorNotPrimitive)
        } else {
            match spec_scalar_from_type(t.shape) {
                None => Err(ErrorKind::SelectorUnsupported),
                Some(s) => if !s.spec_is_unsigned_integer() {
                    Err(ErrorKind::SelectorNotUnsigned)
                } else {
                    match spec_scalar_endian(s, declared) {
                        Ok(e) => Ok((s, e)),
                        Err(EndianError::OneByteDeclared) => Err(ErrorKind::OneByteEndian),
                        Err(EndianError::Missing) => Err(ErrorKind::MissingEndian),
                    }
                },
            }
        },
    }
}

/// One variant's step: whether a fallback was seen and the selector value
/// texts so far, before and after declaration `d` at position `i`.
pub open spec fn spec_variant_step<E>(d: VariantDecl<E>, i: int, seen: bool, values: Seq<Seq<char>>) -> Result<
    (bool, Seq<Seq<char>>),
    ParseFailure<E>,
> {
    match d.attributes {
        Err(f) => Err(f),
        Ok((value, unknown)) => if unknown && seen {
            Err(refused_at(i, ErrorKind::UnknownRepeated))
        } else {
            match d.body {
                None => Err(refused_at(i, ErrorKind::VariantBodyShape)),
                Some(body) => if unknown {
                    if value is Some {
                        Err(refused_at(i, ErrorKind::UnknownWithValue))
                    } else if !spec_is_raw_bytes(body.shape) {
                        Err(refused_at(i, ErrorKind::UnknownBodyNotBytes))
                    } else {
                        Ok((true, values))
                    }
                } else {
                    match value {
                        None => Err(refused_at(i, ErrorKind::KnownWithoutValue)),
                        Some(v) => if values.contains(v.tokens@) {
                            Err(refused_at(i, ErrorKind::DuplicateSelectorValue))
                        } else {
                            Ok((seen, values.push(v.tokens@)))
                        },
                    }
                },
            }
        },
    }
}

/// The state after the first `n` declarations, or the first failure.
pub open spec fn spec_variants_state<E>(decls: Seq<VariantDecl<E>>, n: nat) -> Result<
    (bool, Seq<Seq<char>>),
    ParseFailure<E>,
>
    decreases n,
{
    if n == 0 {
        Ok((false, seq![]))
    } else {
        match spec_variants_state(decls, (n - 1) as nat) {
            Err(f) => Err(f),
            Ok((seen, values)) => spec_variant_step(decls[n - 1], n - 1, seen, values),
        }
    }
}

/// Whether a variant is what declaration `d` yields.
pub open spec fn spec_variant_from<E>(v: Variant, d: VariantDecl<E>) -> bool {
    &&& d.attributes matches Ok((value, unknown)) && v.value == value && v.unknown == unknown
    &&& d.body == Some(v.body)
    &&& v.name == d.name
}

/// Whether a variant is known and named `Unknown`.
pub open spec fn spec_known_named_unknown<E>(d: VariantDecl<E>) -> bool {
    d.attributes matches Ok((_, unknown)) && !unknown && d.name@ == "Unknown"@
}

/// The first known variant named `Unknown`, if any.
pub open spec fn spec_first_known_unknown<E>(decls: Seq<VariantDecl<E>>) -> Option<int> {
    if exists|k: int| 0 <= k < decls.len() && spec_known_named_unknown(#[trigger] decls[k]) {
        Some(
            choose|k: int|
                0 <= k < decls.len() && spec_known_named_unknown(#[trigger] decls[k]) && forall|j: int|
                    0 <= j < k ==> !spec_known_named_unknown(#[trigger] decls[j]),
        )
    } else {
        None
    }
}

/// Whether a declared variant is known (not the fallback).
pub open spec fn spec_is_known<E>(d: VariantDecl<E>) -> bool {
    d.attributes matches Ok((_, unknown)) && !unknown
}

/// Whether some declared variant is known.
pub open spec fn spec_has_known<E>(decls: Seq<VariantDecl<E>>) -> bool {
    exists|k: int| 0 <= k < decls.len() && spec_is_known(#[trigger] decls[k])
}

/// The outcome of reading a declared enum body, once the header is read.
pub open spec fn spec_enum_body<E>(decls: Seq<VariantDecl<E>>) -> Result<(), ParseFailure<E>> {
    match spec_variants_state(decls, decls.len()) {
        Err(f) => Err(f),
        Ok((seen, _)) => if !spec_has_known(decls) {
            Err(refused_whole(ErrorKind::NoKnownVariant))
        } else if seen && spec_first_known_unknown(decls) is Some {
            Err(refused_at(spec_first_known_unknown(decls)->Some_0, ErrorKind::UnknownNameReserved))
        } else {
            Ok(())
        },
    }
}

proof fn lemma_state_stays<E>(decls: Seq<VariantDecl<E>>, m: nat, n: nat)
    requires
        m <= n,
        spec_variants_state(decls, m) is Err,
    ensures
        spec_variants_state(decls, n) == spec_variants_state(decls, m),
    decreases n - m,
{
    if m < n {
        lemma_state_stays(decls, m, (n - 1) as nat);
    }
}

/// Reads a selector enum declaration: its selector and byte order, then
/// each variant in order; at least one variant must be known, and with a
/// fallback none may be named `Unknown`.
pub fn parse<E>(
    name: String,
    generics: Generics,
    selector: Option<TypeSyntax>,
    declared_endian: Option<Endian>,
    data: EnumData<E>,
) -> (r: Result<EnumSchema, ParseFailure<E>>)
    ensures
        match spec_enum_header(selector, declared_endian) {
            Err(k) => r == Err::<EnumSchema, ParseFailure<E>>(refused_whole(k)),
            Ok((sel, endian)) => match data {
                EnumData::NotEnum => r == Err::<EnumSchema, ParseFailure<E>>(refused_whole(ErrorKind::EnumRequired)),
                EnumData::Enum(decls) => match spec_enum_body(decls@) {
                    Err(f) => r == Err::<EnumSchema, ParseFailure<E>>(f),
                    Ok(_) => r matches Ok(s) && s.name == name && s.generics == generics && s.selector == sel
                        && s.endian == endian && s.variants@.len() == decls@.len() && forall|i: int|
                        0 <= i < decls@.len() ==> spec_variant_from(#[trigger] s.variants@[i], decls@[i]),
                },
            },
        },
{
    let sel_ty = match selector {
        Some(t) => t,
        None => return Err(ParseFailure::Refused(SchemaError { field: None, kind: ErrorKind::MissingSelector, subject: None })),
    };
    let plain = match &sel_ty.shape {
        TypeShape::Path(p) => p.qself.is_none() && p.segments.len() == 1,
        _ => false,
    };
    if !plain {
        return Err(ParseFailure::Refused(SchemaError { field: None, kind: ErrorKind::SelectorNotPrimitive, subject: None }));
    }
    let sel = match scalar_from_type(&sel_ty.shape) {
        Some(s) => s,
        None => return Err(ParseFailure::Refused(SchemaError { field: None, kind: ErrorKind::SelectorUnsupported, subject: None })),
    };
    if !sel.is_unsigned_integer() {
        return Err(ParseFailure::Refused(SchemaError { field: None, kind: ErrorKind::SelectorNotUnsigned, subject: None }));
    }
    let endian = match scalar_endian(sel, declared_endian) {
        Ok(e) => e,
        Err(EndianError::OneByteDeclared) => return Err(ParseFailure::Refused(SchemaError { field: None, kind: ErrorKind::OneByteEndian, subject: None })),
        Err(EndianError::Missing) => return Err(ParseFailure::Refused(SchemaError { field: None, kind: ErrorKind::MissingEndian, subject: None })),
    };
    let decls = match data {
        EnumData::Enum(decls) => decls,
        EnumData::NotEnum => return Err(ParseFailure::Refused(SchemaError { field: None, kind: ErrorKind::EnumRequired, subject: None })),
    };
    let ghost all = decls@;
    let count = decls.len();
    let mut rest = decls;
    let mut variants: Vec<Variant> = Vec::new();
    let mut values: Vec<String> = Vec::new();
    let mut unknown_seen = false;
    assert(names(values@) =~= Seq::<Seq<char>>::empty());
    let mut index: usize = 0;
    while index < count
        invariant
            all == decls@,
            spec_enum_header(selector, declared_endian) == Ok::<(ScalarType, Endian), ErrorKind>((sel, endian)),
            data matches EnumData::Enum(d) && d@ == all,
            count == all.len(),
            index <= count,
            rest@ == all.skip(index as int),
            variants@.len() == index,
            spec_variants_state(all, index as nat) == Ok::<(bool, Seq<Seq<char>>), ParseFailure<E>>(
                (unknown_seen, names(values@)),
            ),
            forall|i: int| 0 <= i < index ==> spec_variant_from(#[trigger] variants@[i], all[i]),
        decreases count - index,
    {
        assert(rest@[0] == all[index as int]);
        let decl = rest.remove(0);
        assert(rest@ =~= all.skip(index + 1));
        let VariantDecl { name: variant_name, body, attributes } = decl;
        let (value, unknown) = match attributes {
            Ok(a) => a,
            Err(f) => {
                proof {
                    lemma_state_stays(all, (index + 1) as nat, count as nat);
                }
                return Err(f);
            },
        };
        if unknown && unknown_seen {
            proof {
                lemma_state_stays(all, (index + 1) as nat, count as nat);
            }
            return Err(ParseFailure::Refused(SchemaError { field: Some(index), kind: ErrorKind::UnknownRepeated, subject: None }));
        }
        let body = match body {
            Some(b) => b,
            None => {
                proof {
                    lemma_state_stays(all, (index + 1) as nat, count as nat);
                }
                return Err(ParseFailure::Refused(SchemaError { field: Some(index), kind: ErrorKind::VariantBodyShape, subject: None }));
            },
        };
        if unknown {
            if value.is_some() {
                proof {
                    lemma_state_stays(all, (index + 1) as nat, count as nat);
                }
                return Err(ParseFailure::Refused(SchemaError { field: Some(index), kind: ErrorKind::UnknownWithValue, subject: None }));
            }
            if !is_raw_bytes(&body.shape) {
                proof {
                    lemma_state_stays(all, (index + 1) as nat, count as nat);
                }
                return Err(ParseFailure::Refused(SchemaError { field: Some(index), kind: ErrorKind::UnknownBodyNotBytes, subject: None }));
            }
            unknown_seen = true;
        } else {
            let v = match &value {
                Some(v) => v,
                None => {
                    proof {
                        lemma_state_stays(all, (index + 1) as nat, count as nat);
                    }
                    return Err(ParseFailure::Refused(SchemaError { field: Some(index), kind: ErrorKind::KnownWithoutValue, subject: None }));
                },
            };
            if contains_name(&values, &v.tokens) {
                proof {
                    lemma_state_stays(all, (index + 1) as nat, count as nat);
                }
                return Err(ParseFailure::Refused(SchemaError { field: Some(index), kind: ErrorKind::DuplicateSelectorValue, subject: None }));
            }
            let ghost before = values@;
            values.push(v.tokens.clone());
            proof {
                assert(names(values@) =~= names(before).push(v.tokens@));
            }
        }
        variants.push(Variant { name: variant_name, body, value, unknown });
        index = index + 1;
    }
    // At least one variant must be known.
    let mut k: usize = 0;
    let mut has_known = false;
    while k < variants.len()
        invariant
            spec_enum_header(selector, declared_endian) == Ok::<(ScalarType, Endian), ErrorKind>((sel, endian)),
            data matches EnumData::Enum(d) && d@ == all,
            spec_variants_state(all, all.len()) == Ok::<(bool, Seq<Seq<char>>), ParseFailure<E>>(
                (unknown_seen, names(values@)),
            ),
            variants@.len() == all.len(),
            forall|i: int| 0 <= i < all.len() ==> spec_variant_from(#[trigger] variants@[i], all[i]),
            k <= variants@.len(),
            has_known == exists|j: int| 0 <= j < k && spec_is_known(#[trigger] all[j]),
        decreases variants.len() - k,
    {
        if !variants[k].unknown {
            assert(spec_variant_from(variants@[k as int], all[k as int]));
            has_known = true;
        }
        k = k + 1;
    }
    if !has_known {
        return Err(ParseFailure::Refused(SchemaError { field: None, kind: ErrorKind::NoKnownVariant, subject: None }));
    }
    if unknown_seen {
        let mut m: usize = 0;
        while m < variants.len()
            invariant
                spec_enum_header(selector, declared_endian) == Ok::<(ScalarType, Endian), ErrorKind>((sel, endian)),
                data matches EnumData::Enum(d) && d@ == all,
                spec_variants_state(all, all.len()) == Ok::<(bool, Seq<Seq<char>>), ParseFailure<E>>(
                    (unknown_seen, names(values@)),
                ),
                unknown_seen,
                spec_has_known(all),
                variants@.len() == all.len(),
                forall|i: int| 0 <= i < all.len() ==> spec_variant_from(#[trigger] variants@[i], all[i]),
                m <= variants@.len(),
                forall|j: int| 0 <= j < m ==> !spec_known_named_unknown(#[trigger] all[j]),
            decreases variants.len() - m,
        {
            assert(spec_variant_from(variants@[m as int], all[m as int]));
            if !variants[m].unknown && text_is(variants[m].name.as_str(), "Unknown") {
                proof {
                    assert(spec_known_named_unknown(all[m as int]));
                    let c = choose|c: int|
                        0 <= c < all.len() && spec_known_named_unknown(#[trigger] all[c]) && forall|j: int|
                            0 <= j < c ==> !spec_known_named_unknown(#[trigger] all[j]);
                    if c < m {
                    } else if c > m {
                        assert(!spec_known_named_unknown(all[m as int]));
                    }
                }
                return Err(ParseFailure::Refused(SchemaError { field: Some(m), kind: ErrorKind::UnknownNameReserved, subject: None }));
            }
            m = m + 1;
        }
    }
    Ok(EnumSchema { name, generics, selector: sel, endian, variants })
}

/// Whether a declared variant is the fallback.
pub open spec fn spec_is_fallback<E>(d: VariantDecl<E>) -> bool {
    d.attributes matches Ok((_, unknown)) && unknown
}

/// The token text of a declared variant's selector value.
pub open spec fn spec_value_tokens<E>(d: VariantDecl<E>) -> Seq<char> {
    d.attributes->Ok_0.0->Some_0.tokens@
}

proof fn lemma_state_facts<E>(decls: Seq<VariantDecl<E>>, n: nat)
    requires
        n <= decls.len(),
        spec_variants_state(decls, n) is Ok,
    ensures
        ({
            let (seen, values) = spec_variants_state(decls, n)->Ok_0;
            &&& seen <==> exists|j: int| 0 <= j < n && spec_is_fallback(#[trigger] decls[j])
            &&& forall|j: int| 0 <= j < n && spec_is_known(#[trigger] decls[j]) ==> values.contains(spec_value_tokens(decls[j]))
        }),
        forall|j: int| 0 <= j < n ==> (#[trigger] decls[j]).attributes is Ok,
        forall|j: int| 0 <= j < n && spec_is_known(#[trigger] decls[j]) ==> decls[j].attributes->Ok_0.0 is Some,
        forall|i: int, j: int|
            0 <= i < j < n && spec_is_known(#[trigger] decls[i]) && spec_is_known(#[trigger] decls[j])
                ==> spec_value_tokens(decls[i]) != spec_value_tokens(decls[j]),
        forall|i: int, j: int|
            0 <= i < j < n ==> !(spec_is_fallback(#[trigger] decls[i]) && spec_is_fallback(#[trigger] decls[j])),
    decreases n,
{
    if n > 0 {
        let m = (n - 1) as nat;
        lemma_state_facts(decls, m);
        let (seen, values) = spec_variants_state(decls, m)->Ok_0;
        let d = decls[m as int];
        let (seen2, values2) = spec_variants_state(decls, n)->Ok_0;
        if spec_is_known(d) {
            assert(!values.contains(spec_value_tokens(d)));
            assert(seen2 == seen);
            assert(values2 == values.push(spec_value_tokens(d)));
        } else {
            assert(seen2);
            assert(values2 == values);
        }
        assert forall|j: int| 0 <= j < n && spec_is_known(#[trigger] decls[j]) implies values2.contains(
            spec_value_tokens(decls[j]),
        ) by {
            if j < m {
                assert(values.contains(spec_value_tokens(decls[j])));
                if spec_is_known(d) {
                    let k = choose|k: int| 0 <= k < values.len() && values[k] == spec_value_tokens(decls[j]);
                    assert(values2[k] == values[k]);
                }
            } else {
                assert(values2[values2.len() - 1] == spec_value_tokens(d));
            }
        }
        if seen2 {
            if !spec_is_fallback(d) {
                let w = choose|w: int| 0 <= w < m && spec_is_fallback(#[trigger] decls[w]);
                assert(0 <= w < n && spec_is_fallback(decls[w]));
            } else {
                assert(spec_is_fallback(decls[m as int]));
            }
        }
        if exists|j: int| 0 <= j < n && spec_is_fallback(#[trigger] decls[j]) {
            let w = choose|w: int| 0 <= w < n && spec_is_fallback(#[trigger] decls[w]);
            if w < m {
                assert(seen);
            }
        }
    }
}

/// An accepted selector enum has at least one known variant, at most one
/// fallback, and no two known variants with the same selector value text.
pub proof fn law_enum_variants<E>(decls: Seq<VariantDecl<E>>)
    requires
        spec_enum_body(decls) is Ok,
    ensures
        exists|k: int| 0 <= k < decls.len() && spec_is_known(#[trigger] decls[k]),
        forall|i: int, j: int|
            0 <= i < j < decls.len() && spec_is_known(#[trigger] decls[i]) && spec_is_known(#[trigger] decls[j])
                ==> spec_value_tokens(decls[i]) != spec_value_tokens(decls[j]),
        forall|i: int, j: int|
            0 <= i < j < decls.len() ==> !(spec_is_fallback(#[trigger] decls[i]) && spec_is_fallback(
                #[trigger] decls[j],
            )),
{
    lemma_state_facts(decls, decls.len());
}

/// The recursive slot of each known variant, in order; or the position and
/// refusal of the first known variant whose body passes the root in a way
/// that is refused.
pub open spec fn spec_known_slots(variants: Seq<Variant>, root: Seq<char>) -> Result<
    Seq<Option<int>>,
    (int, ErrorKind),
>
    decreases variants.len(),
{
    if variants.len() == 0 {
        Ok(Seq::empty())
    } else {
        match spec_known_slots(variants.drop_last(), root) {
            Err(e) => Err(e),
            Ok(slots) => if variants.last().unknown {
                Ok(slots)
            } else {
                match spec_root_slot(variants.last().body.shape, root) {
                    Err(k) => Err((variants.len() - 1, k)),
                    Ok(slot) => Ok(slots.push(slot)),
                }
            },
        }
    }
}

/// Whether some known variant passes the root.
pub open spec fn spec_any_slot(slots: Seq<Option<int>>) -> bool {
    exists|j: int| 0 <= j < slots.len() && slots[j] is Some
}

/// How an enum's view is derived: `None` for an ordinary view; the
/// recursive slot of each known variant for a recursive one, which takes no
/// generics and no fallback variant. A refusal names the variant it is
/// about, if any.
pub open spec fn spec_enum_view(s: EnumSchema) -> Result<Option<Seq<Option<int>>>, (Option<int>, ErrorKind)> {
    match spec_known_slots(s.variants@, s.name@) {
        Err((i, k)) => Err((Some(i), k)),
        Ok(slots) => if !spec_any_slot(slots) {
            Ok(None)
        } else if s.generics.params@.len() > 0 {
            Err((None, ErrorKind::RecursiveEnumGenerics))
        } else if exists|k: int| 0 <= k < s.variants@.len() && (#[trigger] s.variants@[k]).unknown {
            Err((None, ErrorKind::RecursiveEnumUnknown))
        } else {
            Ok(Some(slots))
        },
    }
}

/// The slots as integers.
pub open spec fn spec_slot_ints(slots: Seq<Option<usize>>) -> Seq<Option<int>> {
    slots.map_values(
        |o: Option<usize>|
            match o {
                Some(x) => Some(x as int),
                None => None,
            },
    )
}

proof fn lemma_known_slots_refused(variants: Seq<Variant>, root: Seq<char>, n: int, e: (int, ErrorKind))
    requires
        0 <= n <= variants.len(),
        spec_known_slots(variants.subrange(0, n), root) == Err::<Seq<Option<int>>, (int, ErrorKind)>(e),
    ensures
        spec_known_slots(variants, root) == Err::<Seq<Option<int>>, (int, ErrorKind)>(e),
    decreases variants.len() - n,
{
    if n < variants.len() {
        assert(variants.subrange(0, n + 1).drop_last() =~= variants.subrange(0, n));
        lemma_known_slots_refused(variants, root, n + 1, e);
    } else {
        assert(variants.subrange(0, n) =~= variants);
    }
}

/// How the enum's view is derived: `Ok(None)` for an ordinary view; for a
/// recursive one, the slot through which each known variant's body passes
/// the root (`None` for a variant that does not).
pub fn recursive_view_slots(schema: &EnumSchema) -> (r: Result<Option<Vec<Option<usize>>>, SchemaError>)
    ensures
        match r {
            Ok(None) => spec_enum_view(*schema) == Ok::<Option<Seq<Option<int>>>, (Option<int>, ErrorKind)>(None),
            Ok(Some(v)) => spec_enum_view(*schema) == Ok::<Option<Seq<Option<int>>>, (Option<int>, ErrorKind)>(
                Some(spec_slot_ints(v@)),
            ),
            Err(e) => e.subject is None && spec_enum_view(*schema) == Err::<
                Option<Seq<Option<int>>>,
                (Option<int>, ErrorKind),
            >(
                (
                    match e.field {
                        Some(i) => Some(i as int),
                        None => None,
                    },
                    e.kind,
                ),
            ),
        },
{
    let ghost variants = schema.variants@;
    let ghost root = schema.name@;
    let mut slots: Vec<Option<usize>> = Vec::new();
    let mut any = false;
    let mut i: usize = 0;
    assert(variants.subrange(0, 0).len() == 0);
    assert(spec_slot_ints(slots@) =~= Seq::<Option<int>>::empty());
    while i < schema.variants.len()
        invariant
            variants == schema.variants@,
            root == schema.name@,
            i <= variants.len(),
            spec_known_slots(variants.subrange(0, i as int), root) == Ok::<Seq<Option<int>>, (int, ErrorKind)>(
                spec_slot_ints(slots@),
            ),
            any == spec_any_slot(spec_slot_ints(slots@)),
        decreases schema.variants.len() - i,
    {
        let v = &schema.variants[i];
        assert(variants.subrange(0, i + 1).drop_last() =~= variants.subrange(0, i as int));
        assert(variants.subrange(0, i + 1).last() == variants[i as int]);
        if !v.unknown {
            match root_slot_marker(&v.body.shape, &schema.name) {
                Err(k) => {
                    proof {
                        lemma_known_slots_refused(variants, root, i + 1, (i as int, k));
                    }
                    return Err(SchemaError { field: Some(i), kind: k, subject: None });
                },
                Ok(slot) => {
                    let ghost before = slots@;
                    slots.push(slot);
                    proof {
                        let o: Option<int> = match slot {
                            Some(x) => Some(x as int),
                            None => None,
                        };
                        assert(spec_slot_ints(slots@) =~= spec_slot_ints(before).push(o));
                        if slot.is_some() {
                            assert(spec_slot_ints(slots@)[before.len() as int] is Some);
                        }
                        if any {
                            let j = choose|j: int|
                                0 <= j < spec_slot_ints(before).len() && spec_slot_ints(before)[j] is Some;
                            assert(spec_slot_ints(slots@)[j] is Some);
                        }
                        if spec_any_slot(spec_slot_ints(slots@)) && slot.is_none() {
                            let j = choose|j: int|
                                0 <= j < spec_slot_ints(slots@).len() && spec_slot_ints(slots@)[j] is Some;
                            assert(j < before.len());
                            assert(spec_slot_ints(before)[j] is Some);
                        }
                    }
                    if slot.is_some() {
                        any = true;
                    }
                },
            }
        }
        i = i + 1;
    }
    assert(variants.subrange(0, i as int) =~= variants);
    if !any {
        return Ok(None);
    }
    if schema.generics.params.len() > 0 {
        return Err(SchemaError { field: None, kind: ErrorKind::RecursiveEnumGenerics, subject: None });
    }
    match schema.unknown() {
        Some(_) => Err(SchemaError { field: None, kind: ErrorKind::RecursiveEnumUnknown, subject: None }),
        None => Ok(Some(slots)),
    }
}

/// Whether a known variant's body mentions the enum itself.
pub open spec fn spec_builder_refused(s: EnumSchema) -> bool {
    exists|k: int|
        0 <= k < s.variants@.len() && !s.variants@[k].unknown && spec_contains_root(
            (#[trigger] s.variants@[k]).body.shape,
            s.name@,
        )
}

/// Builders are derived only for enums none of whose known variants
/// mentions the enum itself.
pub fn check_builder(schema: &EnumSchema) -> (r: Result<(), ErrorKind>)
    ensures
        r == (if spec_builder_refused(*schema) {
            Err::<(), ErrorKind>(ErrorKind::RecursiveEnumBuilder)
        } else {
            Ok::<(), ErrorKind>(())
        }),
{
    let mut i: usize = 0;
    while i < schema.variants.len()
        invariant
            i <= schema.variants@.len(),
            forall|k: int|
                0 <= k < i ==> !(!schema.variants@[k].unknown && spec_contains_root(
                    (#[trigger] schema.variants@[k]).body.shape,
                    schema.name@,
                )),
        decreases schema.variants.len() - i,
    {
        let v = &schema.variants[i];
        if !v.unknown && contains_root_generic_argument(&v.body.shape, &schema.name) {
            assert(!schema.variants@[i as int].unknown && spec_contains_root(schema.variants@[i as int].body.shape, schema.name@));
            return Err(ErrorKind::RecursiveEnumBuilder);
        }
        i = i + 1;
    }
    Ok(())
}

} // verus!
