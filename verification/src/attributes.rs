//! The `#[wire(..)]` attribute grammar of schema fields: which keys exist,
//! which may not repeat or combine, and what each key's value must be.

use vstd::prelude::*;
use crate::errors::ErrorKind;
use crate::scalar::{Endian, ScalarType};
use crate::syntax::{ExprForm, ExprPath, Literal, TypeSyntax, WireExpr, lemma_parse_decimal_range, parse_decimal, primitive_name, spec_int_literal, spec_parse_decimal, spec_primitive_name};
use crate::text::text_is;

verus! {

/// The attributes gathered from a field's `#[wire(..)]` lists.
#[derive(Debug)]
pub struct FieldAttributes {
    pub endian: Option<Endian>,
    pub constant: Option<WireExpr>,
    pub representation: Option<ScalarType>,
    pub bytes: Option<String>,
    pub rest: bool,
    pub pad_before: Option<WireExpr>,
    pub align_before: Option<WireExpr>,
    pub position: Option<WireExpr>,
    pub flag: Option<String>,
    pub condition: Option<String>,
    pub counted_by: Option<String>,
    pub bits_of: Option<String>,
    pub bit: Option<u32>,
    pub bits: Option<(u32, u32)>,
    pub computed: Option<WireExpr>,
    pub try_computed: Option<WireExpr>,
}

/// A recognised field attribute key, and so what its value must be parsed as.
#[derive(Clone, Copy, Debug, PartialEq, Eq, Structural)]
pub enum AttrSlot {
    /// `le` or `be`: no value.
    Endian(Endian),
    /// `as = Type`.
    As,
    /// `constant = expr`.
    Constant,
    /// `bytes = ident`.
    Bytes,
    /// `rest`: no value.
    Rest,
    /// `pad_before = expr`.
    PadBefore,
    /// `align_before = expr`.
    AlignBefore,
    /// `counted_by = ident`.
    CountedBy,
    /// `at = expr`.
    At,
    /// `flag = ident`.
    Flag,
    /// `depends_on = ident`.
    DependsOn,
    /// `bits_of = ident`.
    BitsOf,
    /// `bit = integer literal`.
    Bit,
    /// `bits = A..=B`.
    Bits,
    /// `computed = callback(..)`.
    Computed,
    /// `try_computed = callback(..)`.
    TryComputed,
}

/// An attribute value, parsed as its key requires.
#[derive(Debug)]
pub enum AttrValue {
    Absent,
    Ident(String),
    Expr(WireExpr),
    Type(TypeSyntax),
    /// The decimal digits of an integer literal.
    IntDigits(String),
}

/// What kind of value a key takes.
pub open spec fn spec_value_fits(slot: AttrSlot, value: AttrValue) -> bool {
    match slot {
        AttrSlot::Endian(_) | AttrSlot::Rest => value is Absent,
        AttrSlot::As => value is Type,
        AttrSlot::Bytes | AttrSlot::CountedBy | AttrSlot::Flag | AttrSlot::DependsOn
        | AttrSlot::BitsOf => value is Ident,
        AttrSlot::Bit => value is IntDigits,
        _ => value is Expr,
    }
}

/// The slot a key names, given the attributes gathered so far: keys are
/// single identifiers; a key may not repeat, the two byte orders exclude each
/// other, as do `bit` and `bits`, and `computed` and `try_computed`.
pub open spec fn spec_accept(a: FieldAttributes, key: Option<Seq<char>>) -> Result<AttrSlot, ErrorKind> {
    match key {
        None => Err(ErrorKind::UnsupportedFieldAttribute),
        Some(k) => if k == seq!['l', 'e'] || k == seq!['b', 'e'] {
            if a.endian is Some {
                Err(ErrorKind::DuplicateEndian)
            } else if k == seq!['l', 'e'] {
                Ok(AttrSlot::Endian(Endian::Little))
            } else {
                Ok(AttrSlot::Endian(Endian::Big))
            }
        } else if k == seq!['a', 's'] {
            if a.representation is Some {
                Err(ErrorKind::DuplicateAs)
            } else {
                Ok(AttrSlot::As)
            }
        } else if k == seq!['c', 'o', 'n', 's', 't', 'a', 'n', 't'] {
            if a.constant is Some {
                Err(ErrorKind::DuplicateConstant)
            } else {
                Ok(AttrSlot::Constant)
            }
        } else if k == seq!['b', 'y', 't', 'e', 's'] {
            if a.bytes is Some {
                Err(ErrorKind::DuplicateBytes)
            } else {
                Ok(AttrSlot::Bytes)
            }
        } else if k == seq!['r', 'e', 's', 't'] {
            if a.rest {
                Err(ErrorKind::DuplicateRest)
            } else {
                Ok(AttrSlot::Rest)
            }
        } else if k == seq!['p', 'a', 'd', '_', 'b', 'e', 'f', 'o', 'r', 'e'] {
            if a.pad_before is Some {
                Err(ErrorKind::DuplicatePadBefore)
            } else {
                Ok(AttrSlot::PadBefore)
            }
        } else if k == seq!['a', 'l', 'i', 'g', 'n', '_', 'b', 'e', 'f', 'o', 'r', 'e'] {
            if a.align_before is Some {
                Err(ErrorKind::DuplicateAlignBefore)
            } else {
                Ok(AttrSlot::AlignBefore)
            }
        } else if k == seq!['c', 'o', 'u', 'n', 't', 'e', 'd', '_', 'b', 'y'] {
            if a.counted_by is Some {
                Err(ErrorKind::DuplicateCountedBy)
            } else {
                Ok(AttrSlot::CountedBy)
            }
        } else if k == seq!['a', 't'] {
            if a.position is Some {
                Err(ErrorKind::DuplicateAt)
            } else {
                Ok(AttrSlot::At)
            }
        } else if k == seq!['f', 'l', 'a', 'g'] {
            if a.flag is Some {
                Err(ErrorKind::DuplicateFlag)
            } else {
                Ok(AttrSlot::Flag)
            }
        } else if k == seq!['d', 'e', 'p', 'e', 'n', 'd', 's', '_', 'o', 'n'] {
            if a.condition is Some {
                Err(ErrorKind::DuplicateDependsOn)
            } else {
                Ok(AttrSlot::DependsOn)
            }
        } else if k == seq!['b', 'i', 't', 's', '_', 'o', 'f'] {
            if a.bits_of is Some {
                Err(ErrorKind::DuplicateBitsOf)
            } else {
                Ok(AttrSlot::BitsOf)
            }
        } else if k == seq!['b', 'i', 't'] || k == seq!['b', 'i', 't', 's'] {
            if a.bit is Some || a.bits is Some {
                Err(ErrorKind::DuplicateBitRange)
            } else if k == seq!['b', 'i', 't'] {
                Ok(AttrSlot::Bit)
            } else {
                Ok(AttrSlot::Bits)
            }
        } else if k == seq!['c', 'o', 'm', 'p', 'u', 't', 'e', 'd'] || k == seq![
            't',
            'r',
            'y',
            '_',
            'c',
            'o',
            'm',
            'p',
            'u',
            't',
            'e',
            'd',
        ] {
            if a.computed is Some || a.try_computed is Some {
                Err(ErrorKind::DuplicateComputed)
            } else if k == seq!['c', 'o', 'm', 'p', 'u', 't', 'e', 'd'] {
                Ok(AttrSlot::Computed)
            } else {
                Ok(AttrSlot::TryComputed)
            }
        } else {
            Err(ErrorKind::UnsupportedFieldAttribute)
        },
    }
}

/// The inclusive bit range that `bits = A..=B` denotes.
pub open spec fn spec_parse_bit_range(e: WireExpr) -> Result<(u32, u32), ErrorKind> {
    match e.form {
        ExprForm::Range { closed, start, end } => if !closed {
            Err(ErrorKind::BitsNotInclusive)
        } else if start is None {
            Err(ErrorKind::BitsNoStart)
        } else if end is None {
            Err(ErrorKind::BitsNoEnd)
        } else {
            let s = *start.unwrap();
            let t = *end.unwrap();
            if spec_int_literal(s) is None || spec_int_literal(t) is None {
                Err(ErrorKind::BitBoundNotInteger)
            } else {
                let a = spec_parse_decimal(spec_int_literal(s).unwrap(), u32::MAX as int);
                let b = spec_parse_decimal(spec_int_literal(t).unwrap(), u32::MAX as int);
                if a is None || b is None {
                    Err(ErrorKind::IntegerTooLarge)
                } else if a.unwrap() > b.unwrap() {
                    Err(ErrorKind::BitStartAfterEnd)
                } else {
                    Ok((a.unwrap() as u32, b.unwrap() as u32))
                }
            }
        },
        _ => Err(ErrorKind::BitsNotRange),
    }
}

/// `bits = A..=B` denotes bits `A` through `B`: a parsed range's first
/// component is the value of the start literal, its second that of the end
/// literal, and the start never follows the end.
pub proof fn law_bit_range_bounds(e: WireExpr)
    ensures
        spec_parse_bit_range(e) matches Ok((a, b)) ==> a <= b && (e.form matches ExprForm::Range {
            closed,
            start,
            end,
        } ==> closed && start is Some && end is Some && spec_literal_value(*start.unwrap()) == Some(a as int)
            && spec_literal_value(*end.unwrap()) == Some(b as int)),
{
    if let ExprForm::Range { closed, start, end } = e.form {
        if let (Some(s), Some(t)) = (start, end) {
            if let (Some(ds), Some(dt)) = (spec_int_literal(*s), spec_int_literal(*t)) {
                lemma_parse_decimal_range(ds, u32::MAX as int);
                lemma_parse_decimal_range(dt, u32::MAX as int);
            }
        }
    }
}

/// The value of an integer-literal expression, if it fits `u32`.
pub open spec fn spec_literal_value(e: WireExpr) -> Option<int> {
    match e.form {
        ExprForm::Lit(Literal::Int(d)) => spec_parse_decimal(d@, u32::MAX as int),
        _ => None,
    }
}

fn int_literal(e: &WireExpr) -> (r: Option<&String>)
    ensures
        r matches Some(d) ==> spec_int_literal(*e) == Some(d@),
        r is None ==> spec_int_literal(*e) is None,
{
    match &e.form {
        ExprForm::Lit(Literal::Int(digits)) => Some(digits),
        _ => None,
    }
}

/// The inclusive bit range that `bits = A..=B` denotes.
pub fn parse_bit_range(e: &WireExpr) -> (r: Result<(u32, u32), ErrorKind>)
    ensures
        r == spec_parse_bit_range(*e),
{
    match &e.form {
        ExprForm::Range { closed, start, end } => {
            if !*closed {
                return Err(ErrorKind::BitsNotInclusive);
            }
            let start = match start {
                Some(s) => s,
                None => return Err(ErrorKind::BitsNoStart),
            };
            let end = match end {
                Some(t) => t,
                None => return Err(ErrorKind::BitsNoEnd),
            };
            let (sd, td) = match (int_literal(start), int_literal(end)) {
                (Some(sd), Some(td)) => (sd, td),
                _ => return Err(ErrorKind::BitBoundNotInteger),
            };
            let a = parse_decimal(sd.as_str(), 0xffff_ffff);
            let b = parse_decimal(td.as_str(), 0xffff_ffff);
            match (a, b) {
                (Some(a), Some(b)) => {
                    if a > b {
                        Err(ErrorKind::BitStartAfterEnd)
                    } else {
                        Ok((a as u32, b as u32))
                    }
                },
                _ => Err(ErrorKind::IntegerTooLarge),
            }
        },
        _ => Err(ErrorKind::BitsNotRange),
    }
}

/// Whether a computed callback is a call of a named function.
pub open spec fn spec_callback_check(e: WireExpr) -> Result<(), ErrorKind> {
    match e.form {
        ExprForm::Call { func, args } => match func.form {
            ExprForm::Path(_) => Ok(()),
            _ => Err(ErrorKind::ComputedNotNamed),
        },
        _ => Err(ErrorKind::ComputedNotCall),
    }
}

/// The path of the function a computed callback calls.
pub fn computed_callback_path(e: &WireExpr) -> (r: Result<&ExprPath, ErrorKind>)
    ensures
        r is Ok <==> spec_callback_check(*e) is Ok,
        r matches Err(k) ==> spec_callback_check(*e) == Err::<(), ErrorKind>(k),
        r matches Ok(p) ==> (e.form matches ExprForm::Call { func, args } && func.form == ExprForm::Path(
            *p,
        )),
{
    match &e.form {
        ExprForm::Call { func, args } => match &func.form {
            ExprForm::Path(path) => Ok(path),
            _ => Err(ErrorKind::ComputedNotNamed),
        },
        _ => Err(ErrorKind::ComputedNotCall),
    }
}

/// The one key a schema's own `#[wire(..)]` list accepts.
pub open spec fn validate_key() -> Seq<char> {
    seq!['v', 'a', 'l', 'i', 'd', 'a', 't', 'e']
}

/// Accepts a key of a schema's own `#[wire(..)]` list: only `validate = path`
/// is known.
pub fn accept_schema_attribute(key: Option<&String>) -> (r: Result<(), ErrorKind>)
    ensures
        r is Ok <==> (key matches Some(k) && k@ == validate_key()),
        r matches Err(k) ==> k == ErrorKind::UnsupportedSchemaAttribute,
{
    proof {
        reveal_strlit("validate");
    }
    assert("validate"@ =~= validate_key());
    match key {
        Some(k) => if text_is(k.as_str(), "validate") {
            Ok(())
        } else {
            Err(ErrorKind::UnsupportedSchemaAttribute)
        },
        None => Err(ErrorKind::UnsupportedSchemaAttribute),
    }
}

impl FieldAttributes {
    /// No attributes.
    pub fn new() -> (r: FieldAttributes)
        ensures
            r.endian is None && r.constant is None && r.representation is None && r.bytes is None
                && !r.rest && r.pad_before is None && r.align_before is None && r.position is None
                && r.flag is None && r.condition is None && r.counted_by is None && r.bits_of is None
                && r.bit is None && r.bits is None && r.computed is None && r.try_computed is None,
    {
        FieldAttributes {
            endian: None,
            constant: None,
            representation: None,
            bytes: None,
            rest: false,
            pad_before: None,
            align_before: None,
            position: None,
            flag: None,
            condition: None,
            counted_by: None,
            bits_of: None,
            bit: None,
            bits: None,
            computed: None,
            try_computed: None,
        }
    }

    /// The slot a key names, given the attributes gathered so far.
    pub fn accept(&self, key: Option<&String>) -> (r: Result<AttrSlot, ErrorKind>)
        ensures
            r == spec_accept(*self, match key {
                Some(k) => Some(k@),
                None => None,
            }),
    {
        let key = match key {
            Some(k) => k.as_str(),
            None => return Err(ErrorKind::UnsupportedFieldAttribute),
        };
        proof {
            reveal_strlit("le");
            reveal_strlit("be");
            reveal_strlit("as");
            reveal_strlit("constant");
            reveal_strlit("bytes");
            reveal_strlit("rest");
            reveal_strlit("pad_before");
            reveal_strlit("align_before");
            reveal_strlit("counted_by");
            reveal_strlit("at");
            reveal_strlit("flag");
            reveal_strlit("depends_on");
            reveal_strlit("bits_of");
            reveal_strlit("bit");
            reveal_strlit("bits");
            reveal_strlit("computed");
            reveal_strlit("try_computed");
            assert("le"@ =~= seq!['l', 'e']);
            assert("be"@ =~= seq!['b', 'e']);
            assert("as"@ =~= seq!['a', 's']);
            assert("constant"@ =~= seq!['c', 'o', 'n', 's', 't', 'a', 'n', 't']);
            assert("bytes"@ =~= seq!['b', 'y', 't', 'e', 's']);
            assert("rest"@ =~= seq!['r', 'e', 's', 't']);
            assert("pad_before"@ =~= seq!['p', 'a', 'd', '_', 'b', 'e', 'f', 'o', 'r', 'e']);
            assert("align_before"@ =~= seq!['a', 'l', 'i', 'g', 'n', '_', 'b', 'e', 'f', 'o', 'r', 'e']);
            assert("counted_by"@ =~= seq!['c', 'o', 'u', 'n', 't', 'e', 'd', '_', 'b', 'y']);
            assert("at"@ =~= seq!['a', 't']);
            assert("flag"@ =~= seq!['f', 'l', 'a', 'g']);
            assert("depends_on"@ =~= seq!['d', 'e', 'p', 'e', 'n', 'd', 's', '_', 'o', 'n']);
            assert("bits_of"@ =~= seq!['b', 'i', 't', 's', '_', 'o', 'f']);
            assert("bit"@ =~= seq!['b', 'i', 't']);
            assert("bits"@ =~= seq!['b', 'i', 't', 's']);
            assert("computed"@ =~= seq!['c', 'o', 'm', 'p', 'u', 't', 'e', 'd']);
            assert("try_computed"@ =~= seq!['t', 'r', 'y', '_', 'c', 'o', 'm', 'p', 'u', 't', 'e', 'd']);
        }
        let le = text_is(key, "le");
        if le || text_is(key, "be") {
            if self.endian.is_some() {
                return Err(ErrorKind::DuplicateEndian);
            }
            return Ok(AttrSlot::Endian(if le { Endian::Little } else { Endian::Big }));
        }
        if text_is(key, "as") {
            return if self.representation.is_some() {
                Err(ErrorKind::DuplicateAs)
            } else {
                Ok(AttrSlot::As)
            };
        }
        if text_is(key, "constant") {
            return if self.constant.is_some() {
                Err(ErrorKind::DuplicateConstant)
            } else {
                Ok(AttrSlot::Constant)
            };
        }
        if text_is(key, "bytes") {
            return if self.bytes.is_some() {
                Err(ErrorKind::DuplicateBytes)
            } else {
                Ok(AttrSlot::Bytes)
            };
        }
        if text_is(key, "rest") {
            return if self.rest {
                Err(ErrorKind::DuplicateRest)
            } else {
                Ok(AttrSlot::Rest)
            };
        }
        if text_is(key, "pad_before") {
            return if self.pad_before.is_some() {
                Err(ErrorKind::DuplicatePadBefore)
            } else {
                Ok(AttrSlot::PadBefore)
            };
        }
        if text_is(key, "align_before") {
            return if self.align_before.is_some() {
                Err(ErrorKind::DuplicateAlignBefore)
            } else {
                Ok(AttrSlot::AlignBefore)
            };
        }
        if text_is(key, "counted_by") {
            return if self.counted_by.is_some() {
                Err(ErrorKind::DuplicateCountedBy)
            } else {
                Ok(AttrSlot::CountedBy)
            };
        }
        if text_is(key, "at") {
            return if self.position.is_some() {
                Err(ErrorKind::DuplicateAt)
            } else {
                Ok(AttrSlot::At)
            };
        }
        if text_is(key, "flag") {
            return if self.flag.is_some() {
                Err(ErrorKind::DuplicateFlag)
            } else {
                Ok(AttrSlot::Flag)
            };
        }
        if text_is(key, "depends_on") {
            return if self.condition.is_some() {
                Err(ErrorKind::DuplicateDependsOn)
            } else {
                Ok(AttrSlot::DependsOn)
            };
        }
        if text_is(key, "bits_of") {
            return if self.bits_of.is_some() {
                Err(ErrorKind::DuplicateBitsOf)
            } else {
                Ok(AttrSlot::BitsOf)
            };
        }
        let bit = text_is(key, "bit");
        if bit || text_is(key, "bits") {
            if self.bit.is_some() || self.bits.is_some() {
                return Err(ErrorKind::DuplicateBitRange);
            }
            return Ok(if bit { AttrSlot::Bit } else { AttrSlot::Bits });
        }
        let computed = text_is(key, "computed");
        if computed || text_is(key, "try_computed") {
            if self.computed.is_some() || self.try_computed.is_some() {
                return Err(ErrorKind::DuplicateComputed);
            }
            return Ok(if computed { AttrSlot::Computed } else { AttrSlot::TryComputed });
        }
        Err(ErrorKind::UnsupportedFieldAttribute)
    }

    /// Records the value of an accepted key. `as` needs a primitive scalar
    /// type, `bit` a literal that fits in `u32`, `bits` an inclusive literal
    /// range, and `try_computed` a call of a named function.
    pub fn store(&mut self, slot: AttrSlot, value: AttrValue) -> (r: Result<(), ErrorKind>)
        requires
            spec_value_fits(slot, value),
        ensures
            match slot {
                AttrSlot::Endian(e) => r is Ok && *final(self) == (FieldAttributes {
                    endian: Some(e),
                    ..*old(self)
                }),
                AttrSlot::Rest => r is Ok && *final(self) == (FieldAttributes { rest: true, ..*old(self) }),
                AttrSlot::As => match value {
                    AttrValue::Type(t) => match spec_primitive_name(t.shape) {
                        Some(n) => match ScalarType::spec_from_name(n) {
                            Some(s) => r is Ok && *final(self) == (FieldAttributes {
                                representation: Some(s),
                                ..*old(self)
                            }),
                            None => r == Err::<(), ErrorKind>(ErrorKind::AsNotPrimitive),
                        },
                        None => r == Err::<(), ErrorKind>(ErrorKind::AsNotPrimitive),
                    },
                    _ => false,
                },
                AttrSlot::Constant => r is Ok && *final(self) == (FieldAttributes {
                    constant: Some(value->Expr_0),
                    ..*old(self)
                }),
                AttrSlot::PadBefore => r is Ok && *final(self) == (FieldAttributes {
                    pad_before: Some(value->Expr_0),
                    ..*old(self)
                }),
                AttrSlot::AlignBefore => r is Ok && *final(self) == (FieldAttributes {
                    align_before: Some(value->Expr_0),
                    ..*old(self)
                }),
                AttrSlot::At => r is Ok && *final(self) == (FieldAttributes {
                    position: Some(value->Expr_0),
                    ..*old(self)
                }),
                AttrSlot::Computed => r is Ok && *final(self) == (FieldAttributes {
                    computed: Some(value->Expr_0),
                    ..*old(self)
                }),
                AttrSlot::TryComputed => match spec_callback_check(value->Expr_0) {
                    Ok(_) => r is Ok && *final(self) == (FieldAttributes {
                        try_computed: Some(value->Expr_0),
                        ..*old(self)
                    }),
                    Err(k) => r == Err::<(), ErrorKind>(k),
                },
                AttrSlot::Bytes => r is Ok && *final(self) == (FieldAttributes {
                    bytes: Some(value->Ident_0),
                    ..*old(self)
                }),
                AttrSlot::CountedBy => r is Ok && *final(self) == (FieldAttributes {
                    counted_by: Some(value->Ident_0),
                    ..*old(self)
                }),
                AttrSlot::Flag => r is Ok && *final(self) == (FieldAttributes {
                    flag: Some(value->Ident_0),
                    ..*old(self)
                }),
                AttrSlot::DependsOn => r is Ok && *final(self) == (FieldAttributes {
                    condition: Some(value->Ident_0),
                    ..*old(self)
                }),
                AttrSlot::BitsOf => r is Ok && *final(self) == (FieldAttributes {
                    bits_of: Some(value->Ident_0),
                    ..*old(self)
                }),
                AttrSlot::Bit => match spec_parse_decimal(value->IntDigits_0@, u32::MAX as int) {
                    Some(v) => r is Ok && *final(self) == (FieldAttributes {
                        bit: Some(v as u32),
                        ..*old(self)
                    }),
                    None => r == Err::<(), ErrorKind>(ErrorKind::IntegerTooLarge),
                },
                AttrSlot::Bits => match spec_parse_bit_range(value->Expr_0) {
                    Ok(range) => r is Ok && *final(self) == (FieldAttributes {
                        bits: Some(range),
                        ..*old(self)
                    }),
                    Err(k) => r == Err::<(), ErrorKind>(k),
                },
            },
    {
        match slot {
            AttrSlot::Endian(e) => {
                self.endian = Some(e);
                Ok(())
            },
            AttrSlot::Rest => {
                self.rest = true;
                Ok(())
            },
            AttrSlot::As => {
                if let AttrValue::Type(t) = value {
                    let representation = match primitive_name(&t.shape) {
                        Some(name) => ScalarType::from_name(name.as_str()),
                        None => None,
                    };
                    match representation {
                        Some(s) => {
                            self.representation = Some(s);
                            Ok(())
                        },
                        None => Err(ErrorKind::AsNotPrimitive),
                    }
                } else {
                    Err(ErrorKind::AsNotPrimitive)
                }
            },
            AttrSlot::Bit => {
                if let AttrValue::IntDigits(digits) = value {
                    match parse_decimal(digits.as_str(), 0xffff_ffff) {
                        Some(v) => {
                            self.bit = Some(v as u32);
                            Ok(())
                        },
                        None => Err(ErrorKind::IntegerTooLarge),
                    }
                } else {
                    Err(ErrorKind::IntegerTooLarge)
                }
            },
            AttrSlot::Bytes | AttrSlot::CountedBy | AttrSlot::Flag | AttrSlot::DependsOn
            | AttrSlot::BitsOf => {
                if let AttrValue::Ident(name) = value {
                    match slot {
                        AttrSlot::Bytes => self.bytes = Some(name),
                        AttrSlot::CountedBy => self.counted_by = Some(name),
                        AttrSlot::Flag => self.flag = Some(name),
                        AttrSlot::DependsOn => self.condition = Some(name),
                        _ => self.bits_of = Some(name),
                    }
                }
                Ok(())
            },
            _ => {
                if let AttrValue::Expr(e) = value {
                    match slot {
                        AttrSlot::Bits => {
                            let range = parse_bit_range(&e)?;
                            self.bits = Some(range);
                        },
                        AttrSlot::TryComputed => {
                            computed_callback_path(&e)?;
                            self.try_computed = Some(e);
                        },
                        AttrSlot::Constant => self.constant = Some(e),
                        AttrSlot::PadBefore => self.pad_before = Some(e),
                        AttrSlot::AlignBefore => self.align_before = Some(e),
                        AttrSlot::At => self.position = Some(e),
                        _ => self.computed = Some(e),
                    }
                }
                Ok(())
            },
        }
    }
}

} // verus!
