//! The physical layout model of a schema struct: each field's kind, its
//! placement, and the static offset terms that precede it.

use vstd::prelude::*;
use crate::scalar::{Endian, ScalarType, ValueType};
use crate::syntax::{TypeSyntax, WireExpr, array_marker, spec_marker_item, spec_type_is_parameter};

verus! {

/// A stored scalar: its logical type, wire type and byte order, and whether it
/// is a constant or a computed value.
#[derive(Debug)]
pub struct Scalar {
    pub value_type: ValueType,
    pub wire_type: ScalarType,
    pub endian: Endian,
    pub constant: Option<WireExpr>,
    pub computed: Option<Computed>,
}

/// A computed field's callback; `fallible` for `try_computed`.
#[derive(Debug)]
pub struct Computed {
    pub expression: WireExpr,
    pub fallible: bool,
}

/// A `[u8; N]` field; its length is the array length of the field's type.
#[derive(Debug)]
pub struct FixedBytes {
    pub constant: Option<WireExpr>,
}

/// A fixed array of a multi-byte primitive; its length is the array length
/// of the field's type.
#[derive(Debug)]
pub struct FixedScalarArray {
    pub element: ScalarType,
    pub endian: Endian,
}

/// How far a `wire::Bytes` field extends.
#[derive(Debug)]
pub enum DynamicExtent {
    /// As many bytes as the named earlier field says.
    Bounded(String),
    /// To the end of the input.
    Rest,
}

/// A `wire::Array<T>` field counted by an earlier field; the item type is the
/// argument of the field's type.
#[derive(Debug)]
pub struct ArrayField {
    pub controller: String,
}

/// A field of another schema type (the field's type).
#[derive(Debug)]
pub struct NestedField {
    /// Whether it is the last field.
    pub terminal: bool,
    /// The earlier field that bounds its byte length, if any.
    pub extent: Option<String>,
}

/// A logical field read from bits `start..=end` of an earlier scalar.
#[derive(Debug)]
pub struct BitProjection {
    pub controller: String,
    pub start: u32,
    pub end: u32,
}

/// What a field is.
#[derive(Debug)]
pub enum FieldKind {
    Scalar(Scalar),
    Bytes(FixedBytes),
    ScalarArray(FixedScalarArray),
    RawBytes(DynamicExtent),
    Array(ArrayField),
    /// A `wire::Recursive<T>` field (the root is the argument of its type).
    Recursive,
    /// A logical `bool` that the named earlier bool field controls.
    Flag(String),
    Nested(NestedField),
    BitProjection(BitProjection),
}

/// Where a field's placement is fixed.
#[derive(Debug)]
pub enum Position {
    Static(WireExpr),
    Field(String),
}

/// Placement attributes of a field.
#[derive(Debug)]
pub struct FieldLayout {
    pub pad_before: Option<WireExpr>,
    pub align_before: Option<WireExpr>,
    pub position: Option<Position>,
    pub condition: Option<String>,
}

/// The byte size a field contributes to the offset of what follows it.
/// Expression terms name the field whose type carries the length.
#[derive(Clone, Copy, Debug, PartialEq, Eq, Structural)]
pub enum SizeTerm {
    Fixed(usize),
    /// The array length of field `.0`'s type.
    Expr(usize),
    /// The fixed size of field `.0`'s nested schema type.
    Nested(usize),
    Dynamic,
    /// The array length of field `.0`'s type times `.1`.
    Scaled(usize, usize),
}

/// The sum of terms that places a field: everything since the last field
/// whose geometry is only known at run time.
#[derive(Debug)]
pub struct LayoutOffset {
    pub terms: Vec<SizeTerm>,
}

/// One field of a schema struct.
#[derive(Debug)]
pub struct Field {
    pub name: String,
    pub ty: TypeSyntax,
    pub kind: FieldKind,
    pub layout: FieldLayout,
    pub offset: LayoutOffset,
}

/// A generic parameter of the schema type.
#[derive(Debug)]
pub enum GenericParam {
    Type(String),
    Const(String),
    Lifetime(String),
}

/// The generics of the schema type.
#[derive(Debug)]
pub struct Generics {
    pub params: Vec<GenericParam>,
    /// Every identifier token the generics spell (lifetime names included).
    pub identifiers: Vec<String>,
}

/// A schema-level validator path.
#[derive(Debug)]
pub struct Validator {
    pub segments: Vec<String>,
    pub identifiers: Vec<String>,
}

/// A schema struct: its fields in physical order and the order in which its
/// computed fields are evaluated.
#[derive(Debug)]
pub struct Schema {
    pub name: String,
    pub generics: Generics,
    pub fields: Vec<Field>,
    pub validators: Vec<Validator>,
    pub computed_order: Vec<usize>,
}

impl FieldKind {
    pub open spec fn spec_constant(&self) -> Option<WireExpr> {
        match self {
            FieldKind::Scalar(s) => s.constant,
            FieldKind::Bytes(b) => b.constant,
            _ => None,
        }
    }

    /// The constant a field is stored with, if any.
    pub fn constant(&self) -> (r: Option<&WireExpr>)
        ensures
            r matches Some(e) ==> self.spec_constant() == Some(*e),
            r is None ==> self.spec_constant() is None,
    {
        match self {
            FieldKind::Scalar(scalar) => scalar.constant.as_ref(),
            FieldKind::Bytes(bytes) => bytes.constant.as_ref(),
            _ => None,
        }
    }

    pub open spec fn spec_computed(&self) -> Option<Computed> {
        match self {
            FieldKind::Scalar(s) => s.computed,
            _ => None,
        }
    }

    /// The callback a field is computed by, if any.
    pub fn computed(&self) -> (r: Option<&Computed>)
        ensures
            r matches Some(c) ==> self.spec_computed() == Some(*c),
            r is None ==> self.spec_computed() is None,
    {
        match self {
            FieldKind::Scalar(scalar) => scalar.computed.as_ref(),
            _ => None,
        }
    }

    /// The size term of this kind for the field at `index`.
    pub open spec fn spec_size_term(&self, index: usize) -> SizeTerm {
        match self {
            FieldKind::Scalar(s) => SizeTerm::Fixed(s.wire_type.spec_width() as usize),
            FieldKind::Bytes(_) => SizeTerm::Expr(index),
            FieldKind::ScalarArray(a) => SizeTerm::Scaled(index, a.element.spec_width() as usize),
            FieldKind::RawBytes(_) | FieldKind::Array(_) | FieldKind::Recursive => SizeTerm::Dynamic,
            FieldKind::Flag(_) | FieldKind::BitProjection(_) => SizeTerm::Fixed(0),
            FieldKind::Nested(_) => SizeTerm::Nested(index),
        }
    }

    /// The size term of this kind for the field at `index`.
    pub fn size_term(&self, index: usize) -> (r: SizeTerm)
        ensures
            r == self.spec_size_term(index),
    {
        match self {
            FieldKind::Scalar(scalar) => SizeTerm::Fixed(scalar.wire_type.width()),
            FieldKind::Bytes(_) => SizeTerm::Expr(index),
            FieldKind::ScalarArray(array) => SizeTerm::Scaled(index, array.element.width()),
            FieldKind::RawBytes(_) | FieldKind::Array(_) | FieldKind::Recursive => SizeTerm::Dynamic,
            FieldKind::Flag(_) | FieldKind::BitProjection(_) => SizeTerm::Fixed(0),
            FieldKind::Nested(_) => SizeTerm::Nested(index),
        }
    }

    /// The field that bounds this field's byte length, if any.
    pub open spec fn spec_length_controller(&self) -> Option<Seq<char>> {
        match self {
            FieldKind::RawBytes(DynamicExtent::Bounded(c)) => Some(c@),
            FieldKind::Nested(n) => match n.extent {
                Some(c) => Some(c@),
                None => None,
            },
            _ => None,
        }
    }

    /// The field that bounds this field's byte length, if any.
    pub fn length_controller(&self) -> (r: Option<&String>)
        ensures
            r matches Some(c) ==> self.spec_length_controller() == Some(c@),
            r is None ==> self.spec_length_controller() is None,
    {
        match self {
            FieldKind::RawBytes(DynamicExtent::Bounded(controller)) => Some(controller),
            FieldKind::Nested(nested) => nested.extent.as_ref(),
            _ => None,
        }
    }
}

impl FieldLayout {
    /// Whether the field declares padding, alignment, a position or a condition.
    pub open spec fn spec_has_geometry(&self) -> bool {
        self.pad_before is Some || self.align_before is Some || self.position is Some
            || self.condition is Some
    }
}

/// Whether a list of offset terms holds a run-time term.
pub open spec fn spec_has_dynamic(terms: Seq<SizeTerm>) -> bool {
    exists|i: int| 0 <= i < terms.len() && terms[i] is Dynamic
}

/// Whether a list of offset terms holds a run-time term.
pub fn has_dynamic(terms: &Vec<SizeTerm>) -> (r: bool)
    ensures
        r == spec_has_dynamic(terms@),
{
    let mut i: usize = 0;
    while i < terms.len()
        invariant
            i <= terms@.len(),
            forall|j: int| 0 <= j < i ==> !(terms@[j] is Dynamic),
        decreases terms.len() - i,
    {
        if matches!(terms[i], SizeTerm::Dynamic) {
            return true;
        }
        i = i + 1;
    }
    false
}

/// A selection of fields by a property.
pub ghost enum FieldQuery {
    /// Fields whose byte length the named field bounds.
    LengthOf(Seq<char>),
    /// Fields conditional on the named flag.
    ConditionOf(Seq<char>),
    /// Fields of one kind.
    Kind(KindTag),
    /// Array fields whose item type is the named type parameter.
    ArrayOf(Seq<char>),
    /// Fields a builder sets directly: no constant, no callback, no
    /// condition, and controlling no other field.
    Settable,
}

/// Whether field `k` is selected by `query`.
pub open spec fn spec_selects(fields: Seq<Field>, query: FieldQuery, k: int) -> bool {
    match query {
        FieldQuery::LengthOf(name) => fields[k].kind.spec_length_controller() == Some(name),
        FieldQuery::ConditionOf(name) => fields[k].layout.condition matches Some(c) && c@ == name,
        FieldQuery::Kind(tag) => spec_has_tag(fields[k].kind, tag),
        FieldQuery::ArrayOf(parameter) => fields[k].kind is Array && (spec_marker_item(
            fields[k].ty.shape,
            array_marker(),
        ) matches Some(t) && spec_type_is_parameter(t, parameter)),
        FieldQuery::Settable => spec_is_settable(fields, k),
    }
}

/// The positions below `n` that `query` selects, in increasing order.
pub open spec fn spec_is_index_filter(r: Seq<usize>, n: nat, fields: Seq<Field>, query: FieldQuery) -> bool {
    &&& forall|i: int, j: int| 0 <= i < j < r.len() ==> r[i] < r[j]
    &&& forall|i: int| 0 <= i < r.len() ==> r[i] < n && spec_selects(fields, query, r[i] as int)
    &&& forall|k: int| 0 <= k < n && #[trigger] spec_selects(fields, query, k) ==> r.contains(k as usize)
}

pub proof fn lemma_index_filter_step(
    before: Seq<usize>,
    after: Seq<usize>,
    n: usize,
    fields: Seq<Field>,
    query: FieldQuery,
)
    requires
        spec_is_index_filter(before, n as nat, fields, query),
        spec_selects(fields, query, n as int) ==> after == before.push(n),
        !spec_selects(fields, query, n as int) ==> after == before,
    ensures
        spec_is_index_filter(after, (n + 1) as nat, fields, query),
{
    if spec_selects(fields, query, n as int) {
        assert(after[after.len() - 1] == n);
        assert forall|k: int| 0 <= k < n + 1 && #[trigger] spec_selects(fields, query, k) implies after.contains(k as usize) by {
            if k < n {
                let m = choose|m: int| 0 <= m < before.len() && before[m] == k as usize;
                assert(after[m] == k as usize);
            }
        }
    }
}

/// Which kind of field a query selects.
#[derive(Clone, Copy, Debug, PartialEq, Eq, Structural)]
pub enum KindTag {
    Nested,
    Flag,
    BitProjection,
    Array,
    Recursive,
}

pub open spec fn spec_has_tag(kind: FieldKind, tag: KindTag) -> bool {
    match tag {
        KindTag::Nested => kind is Nested,
        KindTag::Flag => kind is Flag,
        KindTag::BitProjection => kind is BitProjection,
        KindTag::Array => kind is Array,
        KindTag::Recursive => kind is Recursive,
    }
}

fn has_tag(kind: &FieldKind, tag: KindTag) -> (r: bool)
    ensures
        r == spec_has_tag(*kind, tag),
{
    match tag {
        KindTag::Nested => matches!(kind, FieldKind::Nested(_)),
        KindTag::Flag => matches!(kind, FieldKind::Flag(_)),
        KindTag::BitProjection => matches!(kind, FieldKind::BitProjection(_)),
        KindTag::Array => matches!(kind, FieldKind::Array(_)),
        KindTag::Recursive => matches!(kind, FieldKind::Recursive),
    }
}

/// Whether a builder sets field `k` directly: it has no constant, no
/// callback and no condition, and its name controls no length, count,
/// presence or bit projection.
pub open spec fn spec_is_settable(fields: Seq<Field>, k: int) -> bool {
    let f = fields[k];
    &&& f.kind.spec_constant() is None
    &&& f.kind.spec_computed() is None
    &&& !spec_is_length_controller(fields, f.name@)
    &&& !spec_is_count_controller(fields, f.name@)
    &&& !spec_is_presence_controller(fields, f.name@)
    &&& !spec_is_bit_controller(fields, f.name@)
    &&& f.layout.condition is None
}

/// Whether some field is a flag controlled by `name`.
pub open spec fn spec_is_presence_controller(fields: Seq<Field>, name: Seq<char>) -> bool {
    exists|i: int| #![trigger fields[i]] 0 <= i < fields.len() && (fields[i].kind matches FieldKind::Flag(c) && c@ == name)
}

/// Whether some field is a bit projection of `name`.
pub open spec fn spec_is_bit_controller(fields: Seq<Field>, name: Seq<char>) -> bool {
    exists|i: int| #![trigger fields[i]]
        0 <= i < fields.len() && (fields[i].kind matches FieldKind::BitProjection(p) && p.controller@
            == name)
}

/// Whether some field is an array counted by `name`.
pub open spec fn spec_is_count_controller(fields: Seq<Field>, name: Seq<char>) -> bool {
    exists|i: int| #![trigger fields[i]]
        0 <= i < fields.len() && (fields[i].kind matches FieldKind::Array(a) && a.controller@ == name)
}

/// Whether some field's byte length is bounded by `name`.
pub open spec fn spec_is_length_controller(fields: Seq<Field>, name: Seq<char>) -> bool {
    exists|i: int| #![trigger fields[i]] 0 <= i < fields.len() && fields[i].kind.spec_length_controller() == Some(name)
}

/// Whether any field has run-time geometry: dynamic bytes, arrays, flags,
/// bounded nested fields, or placement attributes.
pub open spec fn spec_has_explicit_geometry(fields: Seq<Field>) -> bool {
    exists|i: int| #![trigger fields[i]]
        0 <= i < fields.len() && {
            let f = fields[i];
            f.kind is RawBytes || f.kind is Array || f.kind is Flag || (f.kind matches FieldKind::Nested(
                n,
            ) && n.extent is Some) || f.layout.spec_has_geometry()
        }
}

/// Whether the sizes of all fields are known before any input is seen.
pub open spec fn spec_all_sizes_fixed(fields: Seq<Field>) -> bool {
    forall|i: int| #![trigger fields[i]] 0 <= i < fields.len() ==> fields[i].kind.spec_size_term(i as usize) is Fixed
}

/// Whether building the layout can fail at run time.
pub open spec fn spec_layout_can_fail(fields: Seq<Field>) -> bool {
    spec_has_explicit_geometry(fields) || (exists|i: int| #![trigger fields[i]]
        0 <= i < fields.len() && fields[i].kind is BitProjection) || (exists|i: int| #![trigger fields[i]]
        0 <= i < fields.len() && fields[i].kind.spec_computed() is Some) || !spec_all_sizes_fixed(
        fields,
    )
}

/// Whether the schema's size follows from its declaration alone.
pub open spec fn spec_is_syntactically_fixed(fields: Seq<Field>) -> bool {
    !spec_has_explicit_geometry(fields) && forall|i: int| #![trigger fields[i]]
        0 <= i < fields.len() ==> {
            let k = fields[i].kind;
            k is Scalar || k is Bytes || k is ScalarArray || k is BitProjection
        }
}

/// Whether the schema's extent is known from its leading bytes: it is
/// syntactically fixed, or its last field is not `rest` bytes.
pub open spec fn spec_has_leading_extent(fields: Seq<Field>) -> bool {
    spec_is_syntactically_fixed(fields) || !(fields.len() > 0 && (fields.last().kind matches FieldKind::RawBytes(
        e,
    ) && e is Rest))
}

/// The position of the first field named `name`.
#[verifier::opaque]
pub open spec fn spec_field_index(fields: Seq<Field>, name: Seq<char>) -> Option<int> {
    if exists|i: int| #![trigger fields[i]] 0 <= i < fields.len() && fields[i].name@ == name {
        Some(
            choose|i: int|
                #![trigger fields[i]]
                0 <= i < fields.len() && fields[i].name@ == name && forall|j: int|
                    #![trigger fields[j]]
                    0 <= j < i ==> fields[j].name@ != name,
        )
    } else {
        None
    }
}

proof fn lemma_first_named(fields: Seq<Field>, name: Seq<char>, k: int)
    requires
        0 <= k < fields.len(),
        fields[k].name@ == name,
    ensures
        exists|m: int|
            #![trigger fields[m]]
            0 <= m < fields.len() && fields[m].name@ == name && forall|j: int|
                #![trigger fields[j]]
                0 <= j < m ==> fields[j].name@ != name,
    decreases k,
{
    if exists|j: int| #![trigger fields[j]] 0 <= j < k && fields[j].name@ == name {
        let j = choose|j: int| #![trigger fields[j]] 0 <= j < k && fields[j].name@ == name;
        lemma_first_named(fields, name, j);
    } else {
        assert(fields[k].name@ == name);
    }
}

/// The position of the first field named `name` is a field of that name.
pub proof fn lemma_field_index_range(fields: Seq<Field>, name: Seq<char>)
    ensures
        spec_field_index(fields, name) matches Some(c) ==> 0 <= c < fields.len() && fields[c].name@ == name,
{
    reveal(spec_field_index);
    if exists|i: int| #![trigger fields[i]] 0 <= i < fields.len() && fields[i].name@ == name {
        let k = choose|i: int| #![trigger fields[i]] 0 <= i < fields.len() && fields[i].name@ == name;
        lemma_first_named(fields, name, k);
    }
}

/// The position of the first field named `name`.
pub fn find_field(fields: &Vec<Field>, name: &String) -> (r: Option<usize>)
    ensures
        r matches Some(i) ==> spec_field_index(fields@, name@) == Some(i as int),
        r is None ==> spec_field_index(fields@, name@) is None,
        r matches Some(i) ==> i < fields@.len() && fields@[i as int].name@ == name@,
        r is None ==> forall|j: int| #![trigger fields@[j]] 0 <= j < fields@.len() ==> fields@[j].name@ != name@,
{
    reveal(spec_field_index);
    let mut i: usize = 0;
    while i < fields.len()
        invariant
            i <= fields@.len(),
            forall|j: int| #![trigger fields@[j]] 0 <= j < i ==> fields@[j].name@ != name@,
        decreases fields.len() - i,
    {
        if fields[i].name == *name {
            proof {
                reveal(spec_field_index);
            }
            let ghost c = choose|k: int|
                #![trigger fields@[k]]
                0 <= k < fields@.len() && fields@[k].name@ == name@ && forall|j: int|
                    #![trigger fields@[j]]
                    0 <= j < k ==> fields@[j].name@ != name@;
            assert(fields@[i as int].name@ == name@);
            proof {
                if c < i {
                } else if c > i {
                    assert(fields@[i as int].name@ != name@);
                }
            }
            return Some(i);
        }
        i = i + 1;
    }
    None
}

impl Schema {
    /// Whether some field is a flag controlled by `name`.
    pub fn is_presence_controller(&self, name: &String) -> (r: bool)
        ensures
            r == spec_is_presence_controller(self.fields@, name@),
    {
        let mut i: usize = 0;
        while i < self.fields.len()
            invariant
                i <= self.fields@.len(),
                forall|j: int| #![trigger self.fields@[j]]
                    0 <= j < i ==> !(self.fields@[j].kind matches FieldKind::Flag(c) && c@ == name@),
            decreases self.fields.len() - i,
        {
            if let FieldKind::Flag(controller) = &self.fields[i].kind {
                if *controller == *name {
                    return true;
                }
            }
            i = i + 1;
        }
        false
    }

    /// Whether some field is a bit projection of `name`.
    pub fn is_bit_controller(&self, name: &String) -> (r: bool)
        ensures
            r == spec_is_bit_controller(self.fields@, name@),
    {
        let mut i: usize = 0;
        while i < self.fields.len()
            invariant
                i <= self.fields@.len(),
                forall|j: int| #![trigger self.fields@[j]]
                    0 <= j < i ==> !(self.fields@[j].kind matches FieldKind::BitProjection(p)
                        && p.controller@ == name@),
            decreases self.fields.len() - i,
        {
            if let FieldKind::BitProjection(projection) = &self.fields[i].kind {
                if projection.controller == *name {
                    return true;
                }
            }
            i = i + 1;
        }
        false
    }

    /// Whether some field is an array counted by `name`.
    pub fn is_count_controller(&self, name: &String) -> (r: bool)
        ensures
            r == spec_is_count_controller(self.fields@, name@),
    {
        let mut i: usize = 0;
        while i < self.fields.len()
            invariant
                i <= self.fields@.len(),
                forall|j: int| #![trigger self.fields@[j]]
                    0 <= j < i ==> !(self.fields@[j].kind matches FieldKind::Array(a) && a.controller@
                        == name@),
            decreases self.fields.len() - i,
        {
            if let FieldKind::Array(array) = &self.fields[i].kind {
                if array.controller == *name {
                    return true;
                }
            }
            i = i + 1;
        }
        false
    }

    /// Whether some field's byte length is bounded by `name`.
    pub fn is_length_controller(&self, name: &String) -> (r: bool)
        ensures
            r == spec_is_length_controller(self.fields@, name@),
    {
        let mut i: usize = 0;
        while i < self.fields.len()
            invariant
                i <= self.fields@.len(),
                forall|j: int| #![trigger self.fields@[j]]
                    0 <= j < i ==> self.fields@[j].kind.spec_length_controller() != Some(name@),
            decreases self.fields.len() - i,
        {
            if let Some(controller) = self.fields[i].kind.length_controller() {
                if *controller == *name {
                    return true;
                }
            }
            i = i + 1;
        }
        false
    }

    /// The positions of the fields whose byte length `name` bounds.
    pub fn length_dependents(&self, name: &String) -> (r: Vec<usize>)
        ensures
            spec_is_index_filter(r@, self.fields@.len(), self.fields@, FieldQuery::LengthOf(name@)),
    {
        let mut out: Vec<usize> = Vec::new();
        let mut i: usize = 0;
        while i < self.fields.len()
            invariant
                i <= self.fields@.len(),
                spec_is_index_filter(out@, i as nat, self.fields@, FieldQuery::LengthOf(name@)),
            decreases self.fields.len() - i,
        {
            let ghost before = out@;
            if let Some(controller) = self.fields[i].kind.length_controller() {
                if *controller == *name {
                    out.push(i);
                }
            }
            proof {
                lemma_index_filter_step(before, out@, i, self.fields@, FieldQuery::LengthOf(name@));
            }
            i = i + 1;
        }
        out
    }

    /// The positions of the fields whose condition is the flag `name`.
    pub fn condition_dependents(&self, name: &String) -> (r: Vec<usize>)
        ensures
            spec_is_index_filter(r@, self.fields@.len(), self.fields@, FieldQuery::ConditionOf(name@)),
    {
        let mut out: Vec<usize> = Vec::new();
        let mut i: usize = 0;
        while i < self.fields.len()
            invariant
                i <= self.fields@.len(),
                spec_is_index_filter(out@, i as nat, self.fields@, FieldQuery::ConditionOf(name@)),
            decreases self.fields.len() - i,
        {
            let ghost before = out@;
            if let Some(condition) = &self.fields[i].layout.condition {
                if *condition == *name {
                    out.push(i);
                }
            }
            proof {
                lemma_index_filter_step(before, out@, i, self.fields@, FieldQuery::ConditionOf(name@));
            }
            i = i + 1;
        }
        out
    }

    /// The positions of the fields of one kind, in order.
    pub fn fields_of_kind(&self, tag: KindTag) -> (r: Vec<usize>)
        ensures
            spec_is_index_filter(r@, self.fields@.len(), self.fields@, FieldQuery::Kind(tag)),
    {
        let mut out: Vec<usize> = Vec::new();
        let mut i: usize = 0;
        while i < self.fields.len()
            invariant
                i <= self.fields@.len(),
                spec_is_index_filter(out@, i as nat, self.fields@, FieldQuery::Kind(tag)),
            decreases self.fields.len() - i,
        {
            let ghost before = out@;
            if has_tag(&self.fields[i].kind, tag) {
                out.push(i);
            }
            proof {
                lemma_index_filter_step(before, out@, i, self.fields@, FieldQuery::Kind(tag));
            }
            i = i + 1;
        }
        out
    }

    /// The size term of every field, in order.
    pub fn size_terms(&self) -> (r: Vec<SizeTerm>)
        ensures
            r@.len() == self.fields@.len(),
            forall|i: int|
                0 <= i < r@.len() ==> r@[i] == self.fields@[i].kind.spec_size_term(i as usize),
    {
        let mut out: Vec<SizeTerm> = Vec::new();
        let mut i: usize = 0;
        while i < self.fields.len()
            invariant
                i <= self.fields@.len(),
                out@.len() == i,
                forall|k: int|
                    0 <= k < i ==> out@[k] == self.fields@[k].kind.spec_size_term(k as usize),
            decreases self.fields.len() - i,
        {
            out.push(self.fields[i].kind.size_term(i));
            i = i + 1;
        }
        out
    }

    /// Whether any field has run-time geometry.
    pub fn has_explicit_geometry(&self) -> (r: bool)
        ensures
            r == spec_has_explicit_geometry(self.fields@),
    {
        let mut i: usize = 0;
        while i < self.fields.len()
            invariant
                i <= self.fields@.len(),
                forall|j: int| #![trigger self.fields@[j]]
                    0 <= j < i ==> !({
                        let f = self.fields@[j];
                        f.kind is RawBytes || f.kind is Array || f.kind is Flag || (
                        f.kind matches FieldKind::Nested(n) && n.extent is Some)
                            || f.layout.spec_has_geometry()
                    }),
            decreases self.fields.len() - i,
        {
            let field = &self.fields[i];
            let bounded_nested = match &field.kind {
                FieldKind::Nested(nested) => nested.extent.is_some(),
                _ => false,
            };
            if matches!(field.kind, FieldKind::RawBytes(_) | FieldKind::Array(_) | FieldKind::Flag(_))
                || bounded_nested || field.layout.pad_before.is_some()
                || field.layout.align_before.is_some() || field.layout.position.is_some()
                || field.layout.condition.is_some() {
                return true;
            }
            i = i + 1;
        }
        false
    }

    /// Whether building the layout can fail at run time.
    pub fn layout_can_fail(&self) -> (r: bool)
        ensures
            r == spec_layout_can_fail(self.fields@),
    {
        if self.has_explicit_geometry() {
            return true;
        }
        let mut i: usize = 0;
        while i < self.fields.len()
            invariant
                i <= self.fields@.len(),
                forall|j: int| #![trigger self.fields@[j]]
                    0 <= j < i ==> !(self.fields@[j].kind is BitProjection) && self.fields@[j].kind.spec_computed() is None
                        && self.fields@[j].kind.spec_size_term(j as usize) is Fixed,
            decreases self.fields.len() - i,
        {
            let kind = &self.fields[i].kind;
            if matches!(kind, FieldKind::BitProjection(_)) || kind.computed().is_some()
                || !matches!(kind.size_term(i), SizeTerm::Fixed(_)) {
                return true;
            }
            i = i + 1;
        }
        false
    }

    /// Whether the schema's size follows from its declaration alone.
    pub fn is_syntactically_fixed(&self) -> (r: bool)
        ensures
            r == spec_is_syntactically_fixed(self.fields@),
    {
        if self.has_explicit_geometry() {
            return false;
        }
        let mut i: usize = 0;
        while i < self.fields.len()
            invariant
                i <= self.fields@.len(),
                forall|j: int| #![trigger self.fields@[j]]
                    0 <= j < i ==> {
                        let k = self.fields@[j].kind;
                        k is Scalar || k is Bytes || k is ScalarArray || k is BitProjection
                    },
            decreases self.fields.len() - i,
        {
            if !matches!(
                self.fields[i].kind,
                FieldKind::Scalar(_) | FieldKind::Bytes(_) | FieldKind::ScalarArray(_)
                    | FieldKind::BitProjection(_)
            ) {
                return false;
            }
            i = i + 1;
        }
        true
    }

    /// Whether the schema's extent is known from its leading bytes.
    pub fn has_leading_extent(&self) -> (r: bool)
        ensures
            r == spec_has_leading_extent(self.fields@),
    {
        if self.is_syntactically_fixed() {
            return true;
        }
        let n = self.fields.len();
        if n == 0 {
            return true;
        }
        !matches!(self.fields[n - 1].kind, FieldKind::RawBytes(DynamicExtent::Rest))
    }
}

} // verus!
