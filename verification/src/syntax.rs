//! The parts of a schema's source syntax that the layout rules read:
//! expressions in attributes and the shapes of field types.

use vstd::prelude::*;
use crate::text::{text_is, chars_of};

verus! {

/// A literal as written in the source.
#[derive(Debug)]
pub enum Literal {
    /// An integer literal, given by its decimal digits (radix prefix, separators
    /// and suffix already resolved).
    Int(String),
    /// Any other literal.
    Other,
}

/// A path expression such as `len` or `module::CONST`.
#[derive(Debug)]
pub struct ExprPath {
    /// Whether the path has a qualified self type (`<T as Trait>::X`).
    pub qself: bool,
    /// The identifiers of the path's segments, as written.
    pub segments: Vec<String>,
}

/// The member named by a field access expression.
#[derive(Debug)]
pub enum Member {
    Named(String),
    Unnamed,
}

/// The form of an attribute expression.
#[derive(Debug)]
pub enum ExprForm {
    Lit(Literal),
    Path(ExprPath),
    Call { func: Box<WireExpr>, args: Vec<WireExpr> },
    Field { base: Box<WireExpr>, member: Member },
    Range { closed: bool, start: Option<Box<WireExpr>>, end: Option<Box<WireExpr>> },
    Other,
}

/// An expression written in a schema attribute.
#[derive(Debug)]
pub struct WireExpr {
    pub form: ExprForm,
    /// Every identifier token that the expression spells, without raw prefixes.
    pub identifiers: Vec<String>,
}

/// A generic argument inside angle brackets.
#[derive(Debug)]
pub enum GenericArgument {
    Type(TypeShape),
    /// Any other argument, with the types written inside it.
    Other(Vec<TypeShape>),
}

/// The arguments of a path segment.
#[derive(Debug)]
pub enum PathArguments {
    Empty,
    AngleBracketed(Vec<GenericArgument>),
    /// `Fn(A, B) -> C` style arguments: the types written inside.
    Parenthesized(Vec<TypeShape>),
}

/// One segment of a type path.
#[derive(Debug)]
pub struct PathSegment {
    /// The segment's identifier, as written (a raw identifier keeps `r#`).
    pub ident: String,
    pub arguments: PathArguments,
}

/// A type path such as `wire::Array<T>`.
#[derive(Debug)]
pub struct TypePath {
    /// Whether the path starts with `::`.
    pub leading_colon: bool,
    /// The qualified self type of `<T as Trait>::X`, if any.
    pub qself: Option<Box<TypeShape>>,
    pub segments: Vec<PathSegment>,
}

/// The shape of a type as written.
#[derive(Debug)]
pub enum TypeShape {
    Path(TypePath),
    /// `[elem; len]`, with the types written inside the length expression.
    Array { elem: Box<TypeShape>, len: WireExpr, len_types: Vec<TypeShape> },
    /// Any other type, with the types written inside it.
    Other(Vec<TypeShape>),
}

/// A type written in the schema.
#[derive(Debug)]
pub struct TypeSyntax {
    pub shape: TypeShape,
    /// Every identifier token that the type spells, without raw prefixes.
    pub identifiers: Vec<String>,
}

/// The value of a decimal digit character.
pub open spec fn spec_digit_value(c: char) -> int {
    (c as int) - ('0' as int)
}

pub open spec fn is_digit(c: char) -> bool {
    '0' <= c && c <= '9'
}

/// The number that a string of decimal digits denotes.
pub open spec fn spec_digits_value(s: Seq<char>) -> int
    decreases s.len(),
{
    if s.len() == 0 {
        0
    } else {
        spec_digits_value(s.drop_last()) * 10 + spec_digit_value(s.last())
    }
}

/// What parsing decimal digits into an integer no greater than `max` gives:
/// the value, or nothing when the text is empty, holds a non-digit, or the
/// value exceeds `max`.
pub open spec fn spec_parse_decimal(s: Seq<char>, max: int) -> Option<int> {
    if s.len() > 0 && (forall|i: int| 0 <= i < s.len() ==> is_digit(#[trigger] s[i]))
        && spec_digits_value(s) <= max {
        Some(spec_digits_value(s))
    } else {
        None
    }
}

proof fn lemma_digits_value_grows(s: Seq<char>, i: int)
    requires
        0 <= i <= s.len(),
        forall|j: int| 0 <= j < s.len() ==> is_digit(#[trigger] s[j]),
    ensures
        spec_digits_value(s.take(i)) <= spec_digits_value(s),
        0 <= spec_digits_value(s.take(i)),
    decreases s.len() - i,
{
    if i < s.len() {
        lemma_digits_value_grows(s, i + 1);
        assert(s.take(i + 1).drop_last() =~= s.take(i));
    } else {
        assert(s.take(i) =~= s);
    }
    lemma_digits_value_nonneg(s.take(i));
}

proof fn lemma_digits_value_nonneg(s: Seq<char>)
    requires
        forall|j: int| 0 <= j < s.len() ==> is_digit(#[trigger] s[j]),
    ensures
        0 <= spec_digits_value(s),
    decreases s.len(),
{
    if s.len() > 0 {
        lemma_digits_value_nonneg(s.drop_last());
    }
}

/// A parsed value lies between zero and the bound it was parsed against.
pub proof fn lemma_parse_decimal_range(s: Seq<char>, max: int)
    ensures
        spec_parse_decimal(s, max) matches Some(v) ==> 0 <= v <= max,
{
    if spec_parse_decimal(s, max) is Some {
        lemma_digits_value_nonneg(s);
    }
}

/// Parses decimal digits into an integer no greater than `max`.
pub fn parse_decimal(digits: &str, max: u128) -> (r: Option<u128>)
    ensures
        r matches Some(v) ==> spec_parse_decimal(digits@, max as int) == Some(v as int),
        r is None ==> spec_parse_decimal(digits@, max as int) is None,
{
    let chars = chars_of(digits);
    let n = chars.len();
    if n == 0 {
        return None;
    }
    let mut value: u128 = 0;
    let mut i: usize = 0;
    while i < n
        invariant
            n == chars@.len(),
            chars@ == digits@,
            i <= n,
            forall|j: int| 0 <= j < i ==> is_digit(#[trigger] chars@[j]),
            value as int == spec_digits_value(chars@.take(i as int)),
            value <= max,
        decreases n - i,
    {
        let c = chars[i];
        if !('0' <= c && c <= '9') {
            return None;
        }
        let d = ((c as u32) - ('0' as u32)) as u128;
        assert(chars@.take(i + 1).drop_last() =~= chars@.take(i as int));
        if value > max / 10 || d > max || value * 10 > max - d {
            proof {
                if forall|j: int| 0 <= j < n ==> is_digit(#[trigger] chars@[j]) {
                    lemma_digits_value_grows(chars@, i + 1);
                }
            }
            return None;
        }
        value = value * 10 + d;
        i = i + 1;
    }
    assert(chars@.take(n as int) =~= chars@);
    Some(value)
}

/// The integer literal that an expression is, by its digits, if it is one.
pub open spec fn spec_int_literal(e: WireExpr) -> Option<Seq<char>> {
    match e.form {
        ExprForm::Lit(Literal::Int(digits)) => Some(digits@),
        _ => None,
    }
}

/// The single identifier of a plain one-segment path expression.
pub open spec fn spec_simple_path(e: WireExpr) -> Option<Seq<char>> {
    match e.form {
        ExprForm::Path(p) => if !p.qself && p.segments@.len() == 1 {
            Some(p.segments@[0]@)
        } else {
            None
        },
        _ => None,
    }
}

/// The single identifier of a plain one-segment path expression.
pub fn simple_path(e: &WireExpr) -> (r: Option<&String>)
    ensures
        r matches Some(s) ==> spec_simple_path(*e) == Some(s@) && *s == e.form->Path_0.segments@[0],
        r is None ==> spec_simple_path(*e) is None,
{
    match &e.form {
        ExprForm::Path(p) => {
            if !p.qself && p.segments.len() == 1 {
                Some(&p.segments[0])
            } else {
                None
            }
        },
        _ => None,
    }
}

/// The name of a type written as a single plain path segment, as written.
pub open spec fn spec_primitive_name(ty: TypeShape) -> Option<Seq<char>> {
    match ty {
        TypeShape::Path(p) => if p.qself is None && p.segments@.len() == 1 {
            Some(p.segments@[0].ident@)
        } else {
            None
        },
        _ => None,
    }
}

/// The name of a type written as a single plain path segment, as written.
pub fn primitive_name(ty: &TypeShape) -> (r: Option<&String>)
    ensures
        r matches Some(s) ==> spec_primitive_name(*ty) == Some(s@),
        r is None ==> spec_primitive_name(*ty) is None,
{
    match ty {
        TypeShape::Path(p) => {
            if p.qself.is_none() && p.segments.len() == 1 {
                Some(&p.segments[0].ident)
            } else {
                None
            }
        },
        _ => None,
    }
}

/// Whether the last two segments of a type path are `wire` and `name`.
pub open spec fn spec_is_wire_marker(ty: TypeShape, name: Seq<char>) -> bool {
    match ty {
        TypeShape::Path(p) => {
            let n = p.segments@.len();
            n >= 2 && p.segments@[n - 1].ident@ == name && p.segments@[n - 2].ident@ == seq![
                'w',
                'i',
                'r',
                'e',
            ]
        },
        _ => false,
    }
}

fn is_wire_marker(ty: &TypeShape, name: &str) -> (r: bool)
    ensures
        r == spec_is_wire_marker(*ty, name@),
{
    match ty {
        TypeShape::Path(p) => {
            let n = p.segments.len();
            if n < 2 {
                return false;
            }
            proof {
                reveal_strlit("wire");
                assert("wire"@ =~= seq!['w', 'i', 'r', 'e']);
            }
            text_is(p.segments[n - 1].ident.as_str(), name) && text_is(
                p.segments[n - 2].ident.as_str(),
                "wire",
            )
        },
        _ => false,
    }
}

/// Whether a type is `wire::Bytes` (by its last two path segments).
pub open spec fn spec_is_raw_bytes(ty: TypeShape) -> bool {
    spec_is_wire_marker(ty, seq!['B', 'y', 't', 'e', 's'])
}

/// Whether a type is `wire::Bytes` (by its last two path segments).
pub fn is_raw_bytes(ty: &TypeShape) -> (r: bool)
    ensures
        r == spec_is_raw_bytes(*ty),
{
    proof {
        reveal_strlit("Bytes");
        assert("Bytes"@ =~= seq!['B', 'y', 't', 'e', 's']);
    }
    is_wire_marker(ty, "Bytes")
}

/// The single type argument of `wire::<marker><T>`, if the type has that form.
pub open spec fn spec_marker_item(ty: TypeShape, marker: Seq<char>) -> Option<TypeShape> {
    if !spec_is_wire_marker(ty, marker) {
        None
    } else {
        match ty {
            TypeShape::Path(p) => {
                let last = p.segments@[p.segments@.len() - 1];
                match last.arguments {
                    PathArguments::AngleBracketed(args) => if args@.len() == 1 {
                        match args@[0] {
                            GenericArgument::Type(item) => Some(item),
                            _ => None,
                        }
                    } else {
                        None
                    },
                    _ => None,
                }
            },
            _ => None,
        }
    }
}

/// The single type argument of `wire::<marker><T>`, if the type has that form.
pub fn marker_item_type<'a>(ty: &'a TypeShape, marker: &str) -> (r: Option<&'a TypeShape>)
    ensures
        r matches Some(t) ==> spec_marker_item(*ty, marker@) == Some(*t),
        r is None ==> spec_marker_item(*ty, marker@) is None,
{
    if !is_wire_marker(ty, marker) {
        return None;
    }
    match ty {
        TypeShape::Path(p) => {
            let last = &p.segments[p.segments.len() - 1];
            match &last.arguments {
                PathArguments::AngleBracketed(args) => {
                    if args.len() != 1 {
                        return None;
                    }
                    match &args[0] {
                        GenericArgument::Type(item) => Some(item),
                        _ => None,
                    }
                },
                _ => None,
            }
        },
        _ => None,
    }
}

pub open spec fn array_marker() -> Seq<char> {
    seq!['A', 'r', 'r', 'a', 'y']
}

pub open spec fn recursive_marker() -> Seq<char> {
    seq!['R', 'e', 'c', 'u', 'r', 's', 'i', 'v', 'e']
}

/// The item type of `wire::Array<T>`.
pub fn array_item_type(ty: &TypeShape) -> (r: Option<&TypeShape>)
    ensures
        r matches Some(t) ==> spec_marker_item(*ty, array_marker()) == Some(*t),
        r is None ==> spec_marker_item(*ty, array_marker()) is None,
{
    proof {
        reveal_strlit("Array");
        assert("Array"@ =~= seq!['A', 'r', 'r', 'a', 'y']);
    }
    marker_item_type(ty, "Array")
}

/// The root type of `wire::Recursive<T>`.
pub fn recursive_item_type(ty: &TypeShape) -> (r: Option<&TypeShape>)
    ensures
        r matches Some(t) ==> spec_marker_item(*ty, recursive_marker()) == Some(*t),
        r is None ==> spec_marker_item(*ty, recursive_marker()) is None,
{
    proof {
        reveal_strlit("Recursive");
        assert("Recursive"@ =~= seq!['R', 'e', 'c', 'u', 'r', 's', 'i', 'v', 'e']);
    }
    marker_item_type(ty, "Recursive")
}

/// Whether a type is written as exactly the plain identifier `parameter`.
pub open spec fn spec_type_is_parameter(ty: TypeShape, parameter: Seq<char>) -> bool {
    match ty {
        TypeShape::Path(p) => p.qself is None && p.segments@.len() == 1
            && p.segments@[0].arguments is Empty && p.segments@[0].ident@ == parameter,
        _ => false,
    }
}

/// Whether a type is written as exactly the plain identifier `parameter`.
pub fn type_is_parameter(ty: &TypeShape, parameter: &String) -> (r: bool)
    ensures
        r == spec_type_is_parameter(*ty, parameter@),
{
    match ty {
        TypeShape::Path(p) => {
            p.qself.is_none() && p.segments.len() == 1 && matches!(
                p.segments[0].arguments,
                PathArguments::Empty
            ) && p.segments[0].ident == *parameter
        },
        _ => false,
    }
}

} // verus!
