//! Fixed-width wire scalars, the logical Rust types they stand for, and byte order.

use vstd::prelude::*;
use crate::text::text_is;

verus! {

/// A fixed-width primitive that a field occupies on the wire.
#[derive(Clone, Copy, Debug, PartialEq, Eq, Structural)]
pub enum ScalarType {
    U8,
    I8,
    U16,
    I16,
    U32,
    I32,
    U64,
    I64,
    U128,
    I128,
    F32,
    F64,
}

/// The logical Rust type of a scalar field.
#[derive(Clone, Copy, Debug, PartialEq, Eq, Structural)]
pub enum ValueType {
    Scalar(ScalarType),
    Usize,
    Isize,
    Bool,
    Char,
    /// A user type converted from its `as` wire type through `TryFrom`.
    Custom,
}

/// Byte order of a multi-byte scalar. One-byte scalars are `Native`.
#[derive(Clone, Copy, Debug, PartialEq, Eq, Structural)]
pub enum Endian {
    Native,
    Little,
    Big,
}

/// Why a scalar's byte order cannot be settled.
#[derive(Clone, Copy, Debug, PartialEq, Eq, Structural)]
pub enum EndianError {
    /// A one-byte scalar declared `le` or `be`.
    OneByteDeclared,
    /// A multi-byte scalar declared neither `le` nor `be`.
    Missing,
}

impl ScalarType {
    /// Width in bytes.
    pub open spec fn spec_width(self) -> nat {
        match self {
            ScalarType::U8 | ScalarType::I8 => 1,
            ScalarType::U16 | ScalarType::I16 => 2,
            ScalarType::U32 | ScalarType::I32 | ScalarType::F32 => 4,
            ScalarType::U64 | ScalarType::I64 | ScalarType::F64 => 8,
            ScalarType::U128 | ScalarType::I128 => 16,
        }
    }

    pub open spec fn spec_is_unsigned_integer(self) -> bool {
        self is U8 || self is U16 || self is U32 || self is U64 || self is U128
    }

    pub open spec fn spec_is_signed_integer(self) -> bool {
        self is I8 || self is I16 || self is I32 || self is I64 || self is I128
    }

    /// Width in bytes.
    pub fn width(self) -> (r: usize)
        ensures
            r == self.spec_width(),
    {
        match self {
            ScalarType::U8 | ScalarType::I8 => 1,
            ScalarType::U16 | ScalarType::I16 => 2,
            ScalarType::U32 | ScalarType::I32 | ScalarType::F32 => 4,
            ScalarType::U64 | ScalarType::I64 | ScalarType::F64 => 8,
            ScalarType::U128 | ScalarType::I128 => 16,
        }
    }

    /// Whether this is `u8`, `u16`, `u32`, `u64` or `u128`.
    pub fn is_unsigned_integer(self) -> (r: bool)
        ensures
            r == self.spec_is_unsigned_integer(),
    {
        matches!(
            self,
            ScalarType::U8 | ScalarType::U16 | ScalarType::U32 | ScalarType::U64 | ScalarType::U128
        )
    }

    /// Whether this is `i8`, `i16`, `i32`, `i64` or `i128`.
    pub fn is_signed_integer(self) -> (r: bool)
        ensures
            r == self.spec_is_signed_integer(),
    {
        matches!(
            self,
            ScalarType::I8 | ScalarType::I16 | ScalarType::I32 | ScalarType::I64 | ScalarType::I128
        )
    }

    /// The scalar that a primitive type name denotes.
    pub open spec fn spec_from_name(name: Seq<char>) -> Option<ScalarType> {
        if name == seq!['u', '8'] {
            Some(ScalarType::U8)
        } else if name == seq!['i', '8'] {
            Some(ScalarType::I8)
        } else if name == seq!['u', '1', '6'] {
            Some(ScalarType::U16)
        } else if name == seq!['i', '1', '6'] {
            Some(ScalarType::I16)
        } else if name == seq!['u', '3', '2'] {
            Some(ScalarType::U32)
        } else if name == seq!['i', '3', '2'] {
            Some(ScalarType::I32)
        } else if name == seq!['u', '6', '4'] {
            Some(ScalarType::U64)
        } else if name == seq!['i', '6', '4'] {
            Some(ScalarType::I64)
        } else if name == seq!['u', '1', '2', '8'] {
            Some(ScalarType::U128)
        } else if name == seq!['i', '1', '2', '8'] {
            Some(ScalarType::I128)
        } else if name == seq!['f', '3', '2'] {
            Some(ScalarType::F32)
        } else if name == seq!['f', '6', '4'] {
            Some(ScalarType::F64)
        } else {
            None
        }
    }

    /// The scalar that a primitive type name (`u8` ... `f64`) denotes.
    pub fn from_name(name: &str) -> (r: Option<ScalarType>)
        ensures
            r == Self::spec_from_name(name@),
    {
        proof {
            reveal_strlit("u8");
            reveal_strlit("i8");
            reveal_strlit("u16");
            reveal_strlit("i16");
            reveal_strlit("u32");
            reveal_strlit("i32");
            reveal_strlit("u64");
            reveal_strlit("i64");
            reveal_strlit("u128");
            reveal_strlit("i128");
            reveal_strlit("f32");
            reveal_strlit("f64");
            assert("u8"@ =~= seq!['u', '8']);
            assert("i8"@ =~= seq!['i', '8']);
            assert("u16"@ =~= seq!['u', '1', '6']);
            assert("i16"@ =~= seq!['i', '1', '6']);
            assert("u32"@ =~= seq!['u', '3', '2']);
            assert("i32"@ =~= seq!['i', '3', '2']);
            assert("u64"@ =~= seq!['u', '6', '4']);
            assert("i64"@ =~= seq!['i', '6', '4']);
            assert("u128"@ =~= seq!['u', '1', '2', '8']);
            assert("i128"@ =~= seq!['i', '1', '2', '8']);
            assert("f32"@ =~= seq!['f', '3', '2']);
            assert("f64"@ =~= seq!['f', '6', '4']);
        }
        if text_is(name, "u8") {
            Some(ScalarType::U8)
        } else if text_is(name, "i8") {
            Some(ScalarType::I8)
        } else if text_is(name, "u16") {
            Some(ScalarType::U16)
        } else if text_is(name, "i16") {
            Some(ScalarType::I16)
        } else if text_is(name, "u32") {
            Some(ScalarType::U32)
        } else if text_is(name, "i32") {
            Some(ScalarType::I32)
        } else if text_is(name, "u64") {
            Some(ScalarType::U64)
        } else if text_is(name, "i64") {
            Some(ScalarType::I64)
        } else if text_is(name, "u128") {
            Some(ScalarType::U128)
        } else if text_is(name, "i128") {
            Some(ScalarType::I128)
        } else if text_is(name, "f32") {
            Some(ScalarType::F32)
        } else if text_is(name, "f64") {
            Some(ScalarType::F64)
        } else {
            None
        }
    }
    /// The name the type is written with.
    pub open spec fn spec_name(self) -> Seq<char> {
        match self {
            ScalarType::U8 => seq!['u', '8'],
            ScalarType::I8 => seq!['i', '8'],
            ScalarType::U16 => seq!['u', '1', '6'],
            ScalarType::I16 => seq!['i', '1', '6'],
            ScalarType::U32 => seq!['u', '3', '2'],
            ScalarType::I32 => seq!['i', '3', '2'],
            ScalarType::U64 => seq!['u', '6', '4'],
            ScalarType::I64 => seq!['i', '6', '4'],
            ScalarType::U128 => seq!['u', '1', '2', '8'],
            ScalarType::I128 => seq!['i', '1', '2', '8'],
            ScalarType::F32 => seq!['f', '3', '2'],
            ScalarType::F64 => seq!['f', '6', '4'],
        }
    }

    /// The name the type is written with.
    pub fn name(self) -> (r: &'static str)
        ensures
            r@ == self.spec_name(),
    {
        proof {
            reveal_strlit("u8");
            assert("u8"@ =~= seq!['u', '8']);
            reveal_strlit("i8");
            assert("i8"@ =~= seq!['i', '8']);
            reveal_strlit("u16");
            assert("u16"@ =~= seq!['u', '1', '6']);
            reveal_strlit("i16");
            assert("i16"@ =~= seq!['i', '1', '6']);
            reveal_strlit("u32");
            assert("u32"@ =~= seq!['u', '3', '2']);
            reveal_strlit("i32");
            assert("i32"@ =~= seq!['i', '3', '2']);
            reveal_strlit("u64");
            assert("u64"@ =~= seq!['u', '6', '4']);
            reveal_strlit("i64");
            assert("i64"@ =~= seq!['i', '6', '4']);
            reveal_strlit("u128");
            assert("u128"@ =~= seq!['u', '1', '2', '8']);
            reveal_strlit("i128");
            assert("i128"@ =~= seq!['i', '1', '2', '8']);
            reveal_strlit("f32");
            assert("f32"@ =~= seq!['f', '3', '2']);
            reveal_strlit("f64");
            assert("f64"@ =~= seq!['f', '6', '4']);
        }
        match self {
            ScalarType::U8 => "u8",
            ScalarType::I8 => "i8",
            ScalarType::U16 => "u16",
            ScalarType::I16 => "i16",
            ScalarType::U32 => "u32",
            ScalarType::I32 => "i32",
            ScalarType::U64 => "u64",
            ScalarType::I64 => "i64",
            ScalarType::U128 => "u128",
            ScalarType::I128 => "i128",
            ScalarType::F32 => "f32",
            ScalarType::F64 => "f64",
        }
    }
}

/// Reading a scalar type's name gives the type back, and a name that reads
/// as a type is that type's name.
pub proof fn law_scalar_names_round_trip(t: ScalarType, n: Seq<char>)
    ensures
        ScalarType::spec_from_name(t.spec_name()) == Some(t),
        ScalarType::spec_from_name(n) == Some(t) ==> n == t.spec_name(),
{
}

impl ValueType {
    /// The logical type that a primitive type name denotes.
    pub open spec fn spec_from_name(name: Seq<char>) -> Option<ValueType> {
        if name == seq!['u', 's', 'i', 'z', 'e'] {
            Some(ValueType::Usize)
        } else if name == seq!['i', 's', 'i', 'z', 'e'] {
            Some(ValueType::Isize)
        } else if name == seq!['b', 'o', 'o', 'l'] {
            Some(ValueType::Bool)
        } else if name == seq!['c', 'h', 'a', 'r'] {
            Some(ValueType::Char)
        } else {
            match ScalarType::spec_from_name(name) {
                Some(s) => Some(ValueType::Scalar(s)),
                None => None,
            }
        }
    }

    /// The logical type that a primitive type name denotes.
    pub fn from_name(name: &str) -> (r: Option<ValueType>)
        ensures
            r == Self::spec_from_name(name@),
    {
        proof {
            reveal_strlit("usize");
            reveal_strlit("isize");
            reveal_strlit("bool");
            reveal_strlit("char");
            assert("usize"@ =~= seq!['u', 's', 'i', 'z', 'e']);
            assert("isize"@ =~= seq!['i', 's', 'i', 'z', 'e']);
            assert("bool"@ =~= seq!['b', 'o', 'o', 'l']);
            assert("char"@ =~= seq!['c', 'h', 'a', 'r']);
        }
        if text_is(name, "usize") {
            Some(ValueType::Usize)
        } else if text_is(name, "isize") {
            Some(ValueType::Isize)
        } else if text_is(name, "bool") {
            Some(ValueType::Bool)
        } else if text_is(name, "char") {
            Some(ValueType::Char)
        } else {
            match ScalarType::from_name(name) {
                Some(s) => Some(ValueType::Scalar(s)),
                None => None,
            }
        }
    }

    /// Whether reading or writing the value passes through a conversion.
    pub open spec fn spec_is_converted(self) -> bool {
        !(self is Scalar)
    }

    /// Whether reading or writing the value passes through a conversion.
    pub fn is_converted(self) -> (r: bool)
        ensures
            r == self.spec_is_converted(),
    {
        !matches!(self, ValueType::Scalar(_))
    }
}

/// The byte order a scalar is stored in: `Native` for one-byte scalars, which
/// may not declare one; the declared order for wider scalars, which must.
pub open spec fn spec_scalar_endian(ty: ScalarType, declared: Option<Endian>) -> Result<
    Endian,
    EndianError,
> {
    if ty.spec_width() == 1 {
        if declared is Some {
            Err(EndianError::OneByteDeclared)
        } else {
            Ok(Endian::Native)
        }
    } else {
        match declared {
            Some(e) => Ok(e),
            None => Err(EndianError::Missing),
        }
    }
}

/// The byte order a scalar is stored in.
pub fn scalar_endian(ty: ScalarType, declared: Option<Endian>) -> (r: Result<Endian, EndianError>)
    ensures
        r == spec_scalar_endian(ty, declared),
{
    if ty.width() == 1 {
        if declared.is_some() {
            return Err(EndianError::OneByteDeclared);
        }
        return Ok(Endian::Native);
    }
    match declared {
        Some(e) => Ok(e),
        None => Err(EndianError::Missing),
    }
}

} // verus!
