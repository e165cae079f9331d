//! Names of generated items: each is a base name, or the base with the first
//! free number, chosen so that it collides with no name already taken.

use vstd::prelude::*;
use crate::model::{Field, FieldKind, GenericParam, Generics, Schema, Validator, find_field, spec_field_index};
use crate::schema::{schema_source_identifiers, spec_source_identifiers};
use crate::text::{
    concat, contains_name, free_name, lemma_free_name_is_free, lemma_free_name_minimal, numbered, decimal, lemma_names_push, names, spec_decimal, unraw, pascal, snake, spec_free_name,
    spec_pascal, spec_snake, spec_unraw,
};

verus! {

/// The names of the type and const parameters of generics.
pub open spec fn spec_type_param_names(params: Seq<GenericParam>) -> Seq<Seq<char>>
    decreases params.len(),
{
    if params.len() == 0 {
        seq![]
    } else {
        let rest = spec_type_param_names(params.drop_last());
        match params.last() {
            GenericParam::Type(name) | GenericParam::Const(name) => rest.push(name@),
            GenericParam::Lifetime(_) => rest,
        }
    }
}

/// The names of the type and const parameters of generics, in order.
pub fn type_param_names(generics: &Generics) -> (r: Vec<String>)
    ensures
        names(r@) == spec_type_param_names(generics.params@),
{
    let mut out: Vec<String> = Vec::new();
    let mut i: usize = 0;
    while i < generics.params.len()
        invariant
            i <= generics.params@.len(),
            names(out@) == spec_type_param_names(generics.params@.take(i as int)),
        decreases generics.params.len() - i,
    {
        let ghost before = out@;
        match &generics.params[i] {
            GenericParam::Type(name) | GenericParam::Const(name) => {
                out.push(name.clone());
            },
            GenericParam::Lifetime(_) => {},
        }
        proof {
            assert(generics.params@.take(i + 1).drop_last() =~= generics.params@.take(i as int));
            assert(names(out@) =~= spec_type_param_names(generics.params@.take(i + 1)));
        }
        i = i + 1;
    }
    assert(generics.params@.take(generics.params@.len() as int) =~= generics.params@);
    out
}

/// `__WireRepr` followed by a stem.
pub open spec fn spec_type_stem(stem: Seq<char>) -> Seq<char> {
    "__WireRepr"@ + stem
}

/// A generated type parameter name: `__WireRepr{stem}`, or the same with
/// the first number from 1 that makes it differ from every type and const
/// parameter of the schema's generics.
pub fn fresh_type_ident(generics: &Generics, stem: &str) -> (r: String)
    requires
        generics.params@.len() < usize::MAX,
    ensures
        r@ == spec_free_name(
            spec_type_stem(stem@),
            spec_type_stem(stem@),
            1,
            spec_type_param_names(generics.params@),
        ),
        !spec_type_param_names(generics.params@).contains(r@),
{
    let base = concat("__WireRepr", stem);
    let used = type_param_names(generics);
    proof {
        lemma_type_param_names_len(generics.params@);
    }
    free_name(&base, &base, 1, &used)
}

/// There are no more type and const parameter names than parameters.
pub proof fn lemma_type_param_names_len(params: Seq<GenericParam>)
    ensures
        spec_type_param_names(params).len() <= params.len(),
    decreases params.len(),
{
    if params.len() > 0 {
        lemma_type_param_names_len(params.drop_last());
    }
}

/// The names of a schema's fields, as written.
pub open spec fn spec_field_names(s: Schema) -> Seq<Seq<char>> {
    s.fields@.map_values(|f: crate::model::Field| f.name@)
}

/// `__wire_repr_` followed by a stem.
pub open spec fn spec_private_stem(stem: Seq<char>) -> Seq<char> {
    "__wire_repr_"@ + stem
}

/// A generated field name: `__wire_repr_{stem}`, or `__wire_repr_{stem}_{n}`
/// with the first `n` from 1 that no field of the schema is named.
pub fn fresh_field_ident(schema: &Schema, stem: &str) -> (r: String)
    requires
        schema.fields@.len() < usize::MAX,
    ensures
        r@ == spec_free_name(
            spec_private_stem(stem@),
            spec_private_stem(stem@) + "_"@,
            1,
            spec_field_names(*schema),
        ),
        !spec_field_names(*schema).contains(r@),
{
    let base = concat("__wire_repr_", stem);
    let prefix = concat(base.as_str(), "_");
    let mut used: Vec<String> = Vec::new();
    let mut i: usize = 0;
    while i < schema.fields.len()
        invariant
            i <= schema.fields@.len(),
            names(used@) == spec_field_names(*schema).take(i as int),
        decreases schema.fields.len() - i,
    {
        let ghost before = used@;
        let name = schema.fields[i].name.clone();
        used.push(name);
        proof {
            assert(used@ == before.push(name));
            assert(names(before).len() == before.len());
            assert(before.len() == i);
            assert(names(used@).len() == i + 1);
            assert forall|k: int| 0 <= k < i + 1 implies names(used@)[k] == spec_field_names(*schema)[k] by {
                if k < i {
                    assert(names(used@)[k] == names(before)[k]);
                }
            }
        }
        i = i + 1;
        assert(names(used@) =~= spec_field_names(*schema).take(i as int));
    }
    assert(spec_field_names(*schema).take(i as int) =~= spec_field_names(*schema));
    free_name(&base, &prefix, 1, &used)
}

/// The stem of the schema's private names: `{snake name}_{stem}`.
pub open spec fn spec_schema_stem(s: Schema, stem: Seq<char>) -> Seq<char> {
    spec_snake(spec_unraw(s.name@)) + "_"@ + stem
}

/// A private item name: `__wire_repr_{schema}_{stem}`, or the same with `_{n}`
/// and the first `n` from 1 that makes it differ from every identifier the
/// schema's source spells.
pub fn private_ident(schema: &Schema, stem: &str) -> (r: String)
    requires
        spec_source_identifiers(*schema).len() < usize::MAX,
    ensures
        !spec_source_identifiers(*schema).contains(r@),
        !spec_source_identifiers(*schema).contains(spec_private_stem(spec_schema_stem(*schema, stem@))) ==> r@
            == spec_private_stem(spec_schema_stem(*schema, stem@)),
        spec_source_identifiers(*schema).contains(spec_private_stem(spec_schema_stem(*schema, stem@))) ==> exists|
            n: nat,
        |
            1 <= n && r@ == numbered(spec_private_stem(spec_schema_stem(*schema, stem@)) + "_"@, n) && forall|j: nat|
                1 <= j < n ==> spec_source_identifiers(*schema).contains(
                    #[trigger] numbered(spec_private_stem(spec_schema_stem(*schema, stem@)) + "_"@, j),
                ),
{
    let schema_name = snake(schema.name.as_str());
    let with_sep = concat(schema_name.as_str(), "_");
    let full_stem = concat(with_sep.as_str(), stem);
    let base = concat("__wire_repr_", full_stem.as_str());
    let prefix = concat(base.as_str(), "_");
    let used = schema_source_identifiers(schema);
    proof {
        names(used@).unique_seq_to_set();
    }
    let r = free_name(&base, &prefix, 1, &used);
    proof {
        let u = names(used@);
        assert(u.to_set().contains(r@) ==> u.contains(r@));
        assert(u.to_set().contains(base@) <==> u.contains(base@));
        if u.contains(base@) {
            lemma_free_name_minimal(base@, prefix@, 1, u);
            let n = choose|n: nat|
                1 <= n && spec_free_name(base@, prefix@, 1, u) == numbered(prefix@, n) && forall|j: nat|
                    1 <= j < n ==> u.contains(#[trigger] numbered(prefix@, j));
            assert forall|j: nat| 1 <= j < n implies spec_source_identifiers(*schema).contains(
                #[trigger] numbered(prefix@, j),
            ) by {
                assert(u.contains(numbered(prefix@, j)));
                assert(u.to_set().contains(numbered(prefix@, j)));
            }
        }
    }
    r
}

/// A generated lifetime's name (without its apostrophe):
/// `__wire_repr_{stem}`, or `__wire_repr_{stem}_{n}` with the first `n` from
/// 1 that no identifier of the generics spells.
pub fn fresh_lifetime(generics: &Generics, stem: &str) -> (r: String)
    requires
        generics.identifiers@.len() < usize::MAX,
    ensures
        r@ == spec_free_name(
            spec_private_stem(stem@),
            spec_private_stem(stem@) + "_"@,
            1,
            names(generics.identifiers@),
        ),
        !names(generics.identifiers@).contains(r@),
{
    let base = concat("__wire_repr_", stem);
    let prefix = concat(base.as_str(), "_");
    free_name(&base, &prefix, 1, &generics.identifiers)
}

/// A generated lifetime for one schema: [`fresh_lifetime`] with the stem
/// `{snake name}_{stem}`.
pub fn fresh_schema_lifetime(schema: &Schema, generics: &Generics, stem: &str) -> (r: String)
    requires
        generics.identifiers@.len() < usize::MAX,
    ensures
        r@ == spec_free_name(
            spec_private_stem(spec_schema_stem(*schema, stem@)),
            spec_private_stem(spec_schema_stem(*schema, stem@)) + "_"@,
            1,
            names(generics.identifiers@),
        ),
        !names(generics.identifiers@).contains(r@),
{
    let schema_name = snake(schema.name.as_str());
    let with_sep = concat(schema_name.as_str(), "_");
    let full_stem = concat(with_sep.as_str(), stem);
    fresh_lifetime(generics, full_stem.as_str())
}

/// The name given to `base` after the names `used`: `base` itself, or
/// `base`, then `sep`, then the first number from 2 that makes a name not
/// used.
pub open spec fn spec_unique(used: Seq<Seq<char>>, base: Seq<char>, sep: Seq<char>) -> Seq<char> {
    spec_free_name(base, base + sep, 2, used)
}

/// Takes a name for `base` (see [`spec_unique`]) that `used` does not hold,
/// and adds it to `used`.
fn unique_name(used: &mut Vec<String>, base: &str, sep: &str) -> (r: String)
    requires
        old(used)@.len() + 2 <= usize::MAX,
    ensures
        r@ == spec_unique(names(old(used)@), base@, sep@),
        !names(old(used)@).contains(r@),
        names(final(used)@) == names(old(used)@).push(r@),
{
    let first = String::from_str(base);
    let prefix = concat(base, sep);
    let name = free_name(&first, &prefix, 2, used);
    let ghost before = used@;
    used.push(name.clone());
    assert(names(used@) =~= names(before).push(name@));
    name
}

/// Takes a variant name for `base` that `used` does not hold: `base`, or
/// `base` followed by the first free number from 2; and adds it to `used`.
pub fn unique_variant(used: &mut Vec<String>, base: &str) -> (r: String)
    requires
        old(used)@.len() + 2 <= usize::MAX,
    ensures
        r@ == spec_unique(names(old(used)@), base@, seq![]),
        !names(old(used)@).contains(r@),
        names(final(used)@) == names(old(used)@).push(r@),
{
    proof {
        reveal_strlit("");
    }
    assert(base@ + ""@ =~= base@);
    unique_name(used, base, "")
}

/// The names given to each base in turn, after `used`.
pub open spec fn spec_unique_all(used: Seq<Seq<char>>, bases: Seq<Seq<char>>, sep: Seq<char>) -> Seq<
    Seq<char>,
>
    decreases bases.len(),
{
    if bases.len() == 0 {
        seq![]
    } else {
        let before = spec_unique_all(used, bases.drop_last(), sep);
        before.push(spec_unique(used + before, bases.last(), sep))
    }
}

/// Names given one after another are distinct from one another and from
/// every name used before them.
pub proof fn law_unique_names_distinct(used: Seq<Seq<char>>, bases: Seq<Seq<char>>, sep: Seq<char>)
    requires
        used.no_duplicates(),
    ensures
        (used + spec_unique_all(used, bases, sep)).no_duplicates(),
        spec_unique_all(used, bases, sep).len() == bases.len(),
    decreases bases.len(),
{
    if bases.len() > 0 {
        law_unique_names_distinct(used, bases.drop_last(), sep);
        let before = spec_unique_all(used, bases.drop_last(), sep);
        let n = spec_unique(used + before, bases.last(), sep);
        lemma_free_name_is_free(bases.last(), bases.last() + sep, 2, used + before);
        assert(used + spec_unique_all(used, bases, sep) =~= (used + before).push(n));
    }
}

/// Gives each base a name in turn, after `reserved`.
fn unique_all(reserved: &Vec<String>, bases: &Vec<String>, sep: &str) -> (r: Vec<String>)
    requires
        reserved@.len() + bases@.len() + 2 <= usize::MAX,
    ensures
        names(r@) == spec_unique_all(names(reserved@), names(bases@), sep@),
{
    let mut used = reserved.clone();
    let mut out: Vec<String> = Vec::new();
    let mut i: usize = 0;
    while i < bases.len()
        invariant
            i <= bases@.len(),
            reserved@.len() + bases@.len() + 2 <= usize::MAX,
            names(out@) == spec_unique_all(names(reserved@), names(bases@).take(i as int), sep@),
            names(used@) == names(reserved@) + names(out@),
            used@.len() == reserved@.len() + i,
        decreases bases.len() - i,
    {
        let ghost before = out@;
        let ghost used_before = used@;
        let name = unique_name(&mut used, bases[i].as_str(), sep);
        assert(names(used@).len() == used@.len() && names(used_before).len() == used_before.len());
        out.push(name);
        proof {
            assert(names(bases@).take(i + 1).drop_last() =~= names(bases@).take(i as int));
            assert(names(bases@).take(i + 1).last() == bases@[i as int]@);
            assert(names(out@) =~= names(before).push(name@));
        }
        i = i + 1;
        assert(names(used@) =~= names(reserved@) + names(out@));
    }
    assert(names(bases@).take(bases@.len() as int) =~= names(bases@));
    out
}

/// `PascalCase` forms of identifiers.
pub open spec fn spec_pascal_all(v: Seq<Seq<char>>) -> Seq<Seq<char>> {
    v.map_values(|s: Seq<char>| spec_pascal(spec_unraw(s)))
}

/// `snake_case` forms of identifiers.
pub open spec fn spec_snake_all(v: Seq<Seq<char>>) -> Seq<Seq<char>> {
    v.map_values(|s: Seq<char>| spec_snake(spec_unraw(s)))
}

/// The names reserved for an unknown-variant fallback, if there is one.
pub open spec fn spec_reserved(reserve: bool, name: Seq<char>) -> Seq<Seq<char>> {
    if reserve {
        seq![name]
    } else {
        seq![]
    }
}

fn reserved_list(reserve: bool, name: &str) -> (r: Vec<String>)
    ensures
        names(r@) == spec_reserved(reserve, name@),
        r@.len() <= 1,
{
    let mut r: Vec<String> = Vec::new();
    if reserve {
        r.push(String::from_str(name));
        assert(names(r@) =~= seq![name@]);
    } else {
        assert(names(r@) =~= Seq::<Seq<char>>::empty());
    }
    r
}

/// The type-name stems of enum variants: each variant's `PascalCase` name,
/// numbered from 2 where it would repeat an earlier stem or, with a fallback
/// variant, `Unknown`.
pub fn variant_type_stems(variants: &Vec<String>, reserve_unknown: bool) -> (r: Vec<String>)
    requires
        variants@.len() + 3 <= usize::MAX,
    ensures
        names(r@) == spec_unique_all(
            spec_reserved(reserve_unknown, "Unknown"@),
            spec_pascal_all(names(variants@)),
            ""@,
        ),
        (spec_reserved(reserve_unknown, "Unknown"@) + names(r@)).no_duplicates(),
        r@.len() == variants@.len(),
{
    let reserved = reserved_list(reserve_unknown, "Unknown");
    let mut bases: Vec<String> = Vec::new();
    let mut i: usize = 0;
    while i < variants.len()
        invariant
            i <= variants@.len(),
            names(bases@) == spec_pascal_all(names(variants@)).take(i as int),
            bases@.len() == i,
        decreases variants.len() - i,
    {
        let ghost before = bases@;
        let base = pascal(variants[i].as_str());
        bases.push(base);
        proof {
            lemma_names_push(before, base);
            assert(spec_pascal_all(names(variants@)).take(i + 1) =~= spec_pascal_all(names(variants@)).take(
                i as int,
            ).push(base@));
        }
        i = i + 1;
    }
    assert(spec_pascal_all(names(variants@)).take(i as int) =~= spec_pascal_all(names(variants@)));
    let r = unique_all(&reserved, &bases, "");
    proof {
        law_unique_names_distinct(names(reserved@), names(bases@), ""@);
        assert(names(r@).len() == r@.len());
    }
    r
}

/// The method names of enum variants: each variant's `snake_case` name,
/// followed by `_` and a number from 2 where it would repeat an earlier name
/// or, with a fallback variant, `unknown`.
pub fn variant_method_names(variants: &Vec<String>, reserve_unknown: bool) -> (r: Vec<String>)
    requires
        variants@.len() + 3 <= usize::MAX,
    ensures
        names(r@) == spec_unique_all(
            spec_reserved(reserve_unknown, "unknown"@),
            spec_snake_all(names(variants@)),
            "_"@,
        ),
        (spec_reserved(reserve_unknown, "unknown"@) + names(r@)).no_duplicates(),
        r@.len() == variants@.len(),
{
    let reserved = reserved_list(reserve_unknown, "unknown");
    let mut bases: Vec<String> = Vec::new();
    let mut i: usize = 0;
    while i < variants.len()
        invariant
            i <= variants@.len(),
            names(bases@) == spec_snake_all(names(variants@)).take(i as int),
            bases@.len() == i,
        decreases variants.len() - i,
    {
        let ghost before = bases@;
        let base = snake(variants[i].as_str());
        bases.push(base);
        proof {
            lemma_names_push(before, base);
            assert(spec_snake_all(names(variants@)).take(i + 1) =~= spec_snake_all(names(variants@)).take(
                i as int,
            ).push(base@));
        }
        i = i + 1;
    }
    assert(spec_snake_all(names(variants@)).take(i as int) =~= spec_snake_all(names(variants@)));
    let r = unique_all(&reserved, &bases, "_");
    proof {
        law_unique_names_distinct(names(reserved@), names(bases@), "_"@);
        assert(names(r@).len() == r@.len());
    }
    r
}

proof fn lemma_unique_all_push(used: Seq<Seq<char>>, bases: Seq<Seq<char>>, b: Seq<char>, sep: Seq<char>)
    ensures
        spec_unique_all(used, bases.push(b), sep) == spec_unique_all(used, bases, sep).push(
            spec_unique(used + spec_unique_all(used, bases, sep), b, sep),
        ),
{
    assert(bases.push(b).drop_last() =~= bases);
}

/// Gives `base` the next name after the names given to `bases` following
/// `reserved`, keeping `used` as `reserved` followed by every name given.
fn assign(
    used: &mut Vec<String>,
    base: &str,
    Ghost(reserved): Ghost<Seq<Seq<char>>>,
    Ghost(bases): Ghost<Seq<Seq<char>>>,
) -> (r: String)
    requires
        names(old(used)@) == reserved + spec_unique_all(reserved, bases, ""@),
        old(used)@.len() + 2 <= usize::MAX,
    ensures
        names(final(used)@) == reserved + spec_unique_all(reserved, bases.push(base@), ""@),
        r@ == spec_unique_all(reserved, bases.push(base@), ""@).last(),
        final(used)@.len() == old(used)@.len() + 1,
{
    let ghost before = used@;
    let r = unique_name(used, base, "");
    proof {
        lemma_unique_all_push(reserved, bases, base@, ""@);
        assert(names(used@).len() == used@.len() && names(before).len() == before.len());
        assert(names(used@) =~= reserved + spec_unique_all(reserved, bases.push(base@), ""@));
    }
    r
}

/// The error variant names of one field of a view.
#[derive(Debug)]
pub struct FieldErrorNames {
    /// The input ended inside the field.
    pub shortage: String,
    /// The field's constant did not match.
    pub mismatch: Option<String>,
    /// The field's wire value did not convert to its logical type.
    pub conversion: Option<String>,
    /// The nested schema, or an array item, was refused.
    pub nested: Option<String>,
    /// The nested schema did not fill its extent.
    pub extent: Option<String>,
}

/// The error variant names of a view: per field, then per validator.
#[derive(Debug)]
pub struct ErrorNames {
    pub fields: Vec<FieldErrorNames>,
    pub validators: Vec<String>,
}

/// The variant names every view error has.
pub open spec fn spec_view_error_reserved() -> Seq<Seq<char>> {
    seq!["InvalidFrame"@, "LayoutUnavailable"@, "PositionBeforeCursor"@, "Trailing"@]
}

/// A one-item list when `b` holds, else an empty one.
pub open spec fn spec_opt(b: bool, x: Seq<char>) -> Seq<Seq<char>> {
    if b {
        seq![x]
    } else {
        seq![]
    }
}

/// Whether a field stores a scalar whose logical type converts.
pub open spec fn spec_converted_scalar(kind: FieldKind) -> bool {
    kind matches FieldKind::Scalar(s) && s.value_type.spec_is_converted()
}

/// Whether a field reads through another schema type.
pub open spec fn spec_has_child(kind: FieldKind) -> bool {
    kind is Nested || kind is Array
}

/// The base names a field's errors are given, in order: constant mismatch,
/// conversion, nested refusal, extent, then the shortage (decorated with
/// `NeedMore` when any of the first three exists).
pub open spec fn spec_field_error_bases(f: Field) -> Seq<Seq<char>> {
    let base = spec_pascal(spec_unraw(f.name@));
    let m = f.kind.spec_constant() is Some;
    let c = spec_converted_scalar(f.kind);
    let n = spec_has_child(f.kind);
    spec_opt(m, base + "Constant"@) + spec_opt(c, base + "Value"@) + spec_opt(n, base) + spec_opt(
        f.kind is Nested,
        base + "Extent"@,
    ) + seq![if m || c || n { base + "NeedMore"@ } else { base }]
}

/// The base names of all fields' errors, in order.
pub open spec fn spec_fields_error_bases(fields: Seq<Field>) -> Seq<Seq<char>>
    decreases fields.len(),
{
    if fields.len() == 0 {
        seq![]
    } else {
        spec_fields_error_bases(fields.drop_last()) + spec_field_error_bases(fields.last())
    }
}

/// A validator's error base name: its last path segment in `PascalCase`.
pub open spec fn spec_validator_base(v: Validator) -> Seq<char> {
    spec_pascal(spec_unraw(v.segments@.last()@))
}

/// The base names of every error variant of a view, in the order they are
/// given names.
pub open spec fn spec_error_bases(s: Schema) -> Seq<Seq<char>> {
    spec_fields_error_bases(s.fields@) + s.validators@.map_values(|v: Validator| spec_validator_base(v))
}

/// The names held by an optional name.
pub open spec fn spec_optv(n: Option<String>) -> Seq<Seq<char>> {
    match n {
        Some(s) => seq![s@],
        None => seq![],
    }
}

/// A field's error names, in the order they were given.
pub open spec fn spec_field_names_flat(n: FieldErrorNames) -> Seq<Seq<char>> {
    spec_optv(n.mismatch) + spec_optv(n.conversion) + spec_optv(n.nested) + spec_optv(n.extent) + seq![
        n.shortage@,
    ]
}

/// All fields' error names, in order.
pub open spec fn spec_fields_names_flat(v: Seq<FieldErrorNames>) -> Seq<Seq<char>>
    decreases v.len(),
{
    if v.len() == 0 {
        seq![]
    } else {
        spec_fields_names_flat(v.drop_last()) + spec_field_names_flat(v.last())
    }
}

/// Every error name of a view, in the order they were given.
pub open spec fn spec_error_names_flat(r: ErrorNames) -> Seq<Seq<char>> {
    spec_fields_names_flat(r.fields@) + names(r.validators@)
}

/// Which names a field's errors have.
pub open spec fn spec_field_names_shape(n: FieldErrorNames, f: Field) -> bool {
    &&& (n.mismatch is Some <==> f.kind.spec_constant() is Some)
    &&& (n.conversion is Some <==> spec_converted_scalar(f.kind))
    &&& (n.nested is Some <==> spec_has_child(f.kind))
    &&& (n.extent is Some <==> f.kind is Nested)
}

/// A bound on how many names a view's errors take.
pub open spec fn spec_error_name_room(s: Schema) -> bool {
    5 * s.fields@.len() + s.validators@.len() + 8 <= usize::MAX
}

proof fn lemma_field_bases_len(f: Field)
    ensures
        1 <= spec_field_error_bases(f).len() <= 5,
{
}

proof fn lemma_fields_bases_len(fields: Seq<Field>)
    ensures
        spec_fields_error_bases(fields).len() <= 5 * fields.len(),
    decreases fields.len(),
{
    if fields.len() > 0 {
        lemma_fields_bases_len(fields.drop_last());
        lemma_field_bases_len(fields.last());
    }
}

fn assign_if(
    cond: bool,
    used: &mut Vec<String>,
    base: &str,
    Ghost(reserved): Ghost<Seq<Seq<char>>>,
    Ghost(bases): Ghost<Seq<Seq<char>>>,
) -> (r: Option<String>)
    requires
        names(old(used)@) == reserved + spec_unique_all(reserved, bases, ""@),
        old(used)@.len() + 2 <= usize::MAX,
    ensures
        names(final(used)@) == reserved + spec_unique_all(reserved, bases + spec_opt(cond, base@), ""@),
        names(final(used)@) == names(old(used)@) + spec_optv(r),
        r is Some <==> cond,
        final(used)@.len() == old(used)@.len() + (if cond { 1int } else { 0int }),
{
    let ghost before = used@;
    if cond {
        let n = assign(used, base, Ghost(reserved), Ghost(bases));
        proof {
            assert(bases + spec_opt(cond, base@) =~= bases.push(base@));
            lemma_unique_all_push(reserved, bases, base@, ""@);
            assert(names(used@) =~= names(before) + spec_optv(Some(n)));
        }
        Some(n)
    } else {
        proof {
            assert(bases + spec_opt(cond, base@) =~= bases);
            assert(names(used@) =~= names(before) + spec_optv(None));
        }
        None
    }
}

/// Names the errors of one field after the bases `bases`.
fn field_error_names(
    f: &Field,
    used: &mut Vec<String>,
    Ghost(reserved): Ghost<Seq<Seq<char>>>,
    Ghost(bases): Ghost<Seq<Seq<char>>>,
) -> (r: FieldErrorNames)
    requires
        names(old(used)@) == reserved + spec_unique_all(reserved, bases, ""@),
        old(used)@.len() + 7 <= usize::MAX,
    ensures
        names(final(used)@) == reserved + spec_unique_all(reserved, bases + spec_field_error_bases(*f), ""@),
        names(final(used)@) == names(old(used)@) + spec_field_names_flat(r),
        spec_field_names_shape(r, *f),
        final(used)@.len() <= old(used)@.len() + 5,
{
    let ghost start = used@;
    let base = pascal(f.name.as_str());
    let m = f.kind.constant().is_some();
    let c = match &f.kind {
        FieldKind::Scalar(scalar) => scalar.value_type.is_converted(),
        _ => false,
    };
    let n = match &f.kind {
        FieldKind::Nested(_) | FieldKind::Array(_) => true,
        _ => false,
    };
    let e = match &f.kind {
        FieldKind::Nested(_) => true,
        _ => false,
    };
    let b0 = Ghost(bases);
    let mismatch = assign_if(m, used, concat(base.as_str(), "Constant").as_str(), Ghost(reserved), b0);
    let b1 = Ghost(bases + spec_opt(m, base@ + "Constant"@));
    let conversion = assign_if(c, used, concat(base.as_str(), "Value").as_str(), Ghost(reserved), b1);
    let b2 = Ghost(b1@ + spec_opt(c, base@ + "Value"@));
    let nested = assign_if(n, used, base.as_str(), Ghost(reserved), b2);
    let b3 = Ghost(b2@ + spec_opt(n, base@));
    let extent = assign_if(e, used, concat(base.as_str(), "Extent").as_str(), Ghost(reserved), b3);
    let b4 = Ghost(b3@ + spec_opt(e, base@ + "Extent"@));
    let shortage_base = if m || c || n {
        concat(base.as_str(), "NeedMore")
    } else {
        base.clone()
    };
    let ghost before_shortage = used@;
    let shortage = assign(used, shortage_base.as_str(), Ghost(reserved), b4);
    let r = FieldErrorNames { shortage, mismatch, conversion, nested, extent };
    proof {
        assert(b4@.push(shortage_base@) =~= bases + spec_field_error_bases(*f));
        lemma_unique_all_push(reserved, b4@, shortage_base@, ""@);
        assert(names(used@) =~= names(before_shortage) + seq![shortage@]);
        assert(names(used@) =~= names(start) + spec_field_names_flat(r));
    }
    r
}

/// The error variant names of a view: each name is given in turn, numbered
/// from 2 where it would repeat the reserved names or an earlier name.
pub fn error_names(schema: &Schema) -> (r: ErrorNames)
    requires
        spec_error_name_room(*schema),
        forall|j: int| 0 <= j < schema.validators@.len() ==> (#[trigger] schema.validators@[j]).segments@.len() > 0,
    ensures
        spec_error_names_flat(r) == spec_unique_all(spec_view_error_reserved(), spec_error_bases(*schema), ""@),
        r.fields@.len() == schema.fields@.len(),
        forall|i: int| 0 <= i < r.fields@.len() ==> spec_field_names_shape(#[trigger] r.fields@[i], schema.fields@[i]),
        r.validators@.len() == schema.validators@.len(),
{
    let mut used: Vec<String> = Vec::new();
    used.push(String::from_str("InvalidFrame"));
    used.push(String::from_str("LayoutUnavailable"));
    used.push(String::from_str("PositionBeforeCursor"));
    used.push(String::from_str("Trailing"));
    let ghost reserved = names(used@);
    assert(reserved =~= spec_view_error_reserved());
    assert(names(used@) =~= reserved + spec_unique_all(reserved, seq![], ""@));
    let mut fields: Vec<FieldErrorNames> = Vec::new();
    let mut i: usize = 0;
    while i < schema.fields.len()
        invariant
            i <= schema.fields@.len(),
            spec_error_name_room(*schema),
            reserved == spec_view_error_reserved(),
            names(used@) == reserved + spec_unique_all(reserved, spec_fields_error_bases(schema.fields@.take(i as int)), ""@),
            names(used@) == reserved + spec_fields_names_flat(fields@),
            used@.len() <= 4 + 5 * i,
            fields@.len() == i,
            forall|k: int| 0 <= k < i ==> spec_field_names_shape(#[trigger] fields@[k], schema.fields@[k]),
        decreases schema.fields.len() - i,
    {
        let ghost before = fields@;
        let ghost bases = spec_fields_error_bases(schema.fields@.take(i as int));
        let n = field_error_names(&schema.fields[i], &mut used, Ghost(reserved), Ghost(bases));
        fields.push(n);
        proof {
            assert(schema.fields@.take(i + 1).drop_last() =~= schema.fields@.take(i as int));
            assert(fields@.drop_last() =~= before);
            assert(spec_fields_names_flat(fields@) =~= spec_fields_names_flat(before) + spec_field_names_flat(n));
        }
        i = i + 1;
    }
    assert(schema.fields@.take(i as int) =~= schema.fields@);
    let ghost field_bases = spec_fields_error_bases(schema.fields@);
    let mut validators: Vec<String> = Vec::new();
    let mut j: usize = 0;
    while j < schema.validators.len()
        invariant
            j <= schema.validators@.len(),
            i == schema.fields@.len(),
            spec_error_name_room(*schema),
            forall|k: int| 0 <= k < schema.validators@.len() ==> (#[trigger] schema.validators@[k]).segments@.len() > 0,
            names(used@) == reserved + spec_unique_all(
                reserved,
                field_bases + schema.validators@.take(j as int).map_values(|v: Validator| spec_validator_base(v)),
                ""@,
            ),
            names(used@) == reserved + spec_fields_names_flat(fields@) + names(validators@),
            used@.len() <= 4 + 5 * i + j,
            validators@.len() == j,
        decreases schema.validators.len() - j,
    {
        let v = &schema.validators[j];
        let last = &v.segments[v.segments.len() - 1];
        let base = pascal(last.as_str());
        let ghost bases = field_bases + schema.validators@.take(j as int).map_values(|v: Validator| spec_validator_base(v));
        let ghost before = used@;
        let ghost vbefore = validators@;
        let name = assign(&mut used, base.as_str(), Ghost(reserved), Ghost(bases));
        validators.push(name);
        proof {
            assert(schema.validators@.take(j + 1).map_values(|v: Validator| spec_validator_base(v))
                =~= schema.validators@.take(j as int).map_values(|v: Validator| spec_validator_base(v)).push(base@));
            assert(bases.push(base@) =~= field_bases + schema.validators@.take(j + 1).map_values(
                |v: Validator| spec_validator_base(v),
            ));
            lemma_unique_all_push(reserved, bases, base@, ""@);
            lemma_names_push(vbefore, name);
            assert(names(used@) =~= names(before).push(name@));
            assert(names(used@) =~= reserved + spec_fields_names_flat(fields@) + names(validators@));
        }
        j = j + 1;
    }
    assert(schema.validators@.take(j as int) =~= schema.validators@);
    let r = ErrorNames { fields, validators };
    assert(spec_error_names_flat(r) =~= spec_unique_all(reserved, spec_error_bases(*schema), ""@)) by {
        assert(field_bases + schema.validators@.map_values(|v: Validator| spec_validator_base(v)) =~= spec_error_bases(*schema));
        assert(names(used@) =~= reserved + spec_error_names_flat(r));
        assert(spec_error_names_flat(r) =~= names(used@).skip(4));
        assert(spec_unique_all(reserved, spec_error_bases(*schema), ""@) =~= names(used@).skip(4));
    }
    r
}

/// The error variants of a view are named distinctly, and none takes a
/// reserved name.
pub proof fn law_error_names_distinct(s: Schema)
    ensures
        (spec_view_error_reserved() + spec_unique_all(spec_view_error_reserved(), spec_error_bases(s), ""@)).no_duplicates(),
{
    reveal_strlit("InvalidFrame");
    reveal_strlit("LayoutUnavailable");
    reveal_strlit("PositionBeforeCursor");
    reveal_strlit("Trailing");
    let r = spec_view_error_reserved();
    assert(r[0] != r[1] && r[0] != r[2] && r[0] != r[3] && r[1] != r[2] && r[1] != r[3] && r[2] != r[3]) by {
        assert(r[0].len() != r[1].len());
        assert(r[0].len() != r[2].len());
        assert(r[0].len() != r[3].len());
        assert(r[1].len() != r[2].len());
        assert(r[1].len() != r[3].len());
        assert(r[2].len() != r[3].len());
    }
    law_unique_names_distinct(r, spec_error_bases(s), ""@);
}

/// The variant names every writer error has.
pub open spec fn spec_writer_error_reserved() -> Seq<Seq<char>> {
    seq!["Layout"@, "LengthConflict"@]
}

/// The conversion-error base names of the fields, in order.
pub open spec fn spec_conversion_bases(fields: Seq<Field>) -> Seq<Seq<char>>
    decreases fields.len(),
{
    if fields.len() == 0 {
        seq![]
    } else {
        spec_conversion_bases(fields.drop_last()) + spec_opt(
            spec_converted_scalar(fields.last().kind),
            spec_pascal(spec_unraw(fields.last().name@)) + "Value"@,
        )
    }
}

/// The child-error base names of the fields, in order.
pub open spec fn spec_child_bases(fields: Seq<Field>) -> Seq<Seq<char>>
    decreases fields.len(),
{
    if fields.len() == 0 {
        seq![]
    } else {
        spec_child_bases(fields.drop_last()) + spec_opt(
            spec_has_child(fields.last().kind),
            spec_pascal(spec_unraw(fields.last().name@)),
        )
    }
}

/// The names held by a list of optional names, in order.
pub open spec fn spec_optvs(v: Seq<Option<String>>) -> Seq<Seq<char>>
    decreases v.len(),
{
    if v.len() == 0 {
        seq![]
    } else {
        spec_optvs(v.drop_last()) + spec_optv(v.last())
    }
}

/// The error variant names of a writer: a conversion error for each field
/// whose logical type converts, then a child error for each nested or array
/// field; each given in turn after `Layout` and `LengthConflict`, numbered
/// from 2 where it would repeat.
pub fn writer_error_names(schema: &Schema) -> (r: (Vec<Option<String>>, Vec<Option<String>>))
    requires
        2 * schema.fields@.len() + 8 <= usize::MAX,
    ensures
        spec_optvs(r.0@) + spec_optvs(r.1@) == spec_unique_all(
            spec_writer_error_reserved(),
            spec_conversion_bases(schema.fields@) + spec_child_bases(schema.fields@),
            ""@,
        ),
        r.0@.len() == schema.fields@.len(),
        r.1@.len() == schema.fields@.len(),
        forall|i: int| 0 <= i < schema.fields@.len() ==> ((#[trigger] r.0@[i]) is Some <==> spec_converted_scalar(
            schema.fields@[i].kind,
        )),
        forall|i: int| 0 <= i < schema.fields@.len() ==> ((#[trigger] r.1@[i]) is Some <==> spec_has_child(
            schema.fields@[i].kind,
        )),
{
    let mut used: Vec<String> = Vec::new();
    used.push(String::from_str("Layout"));
    used.push(String::from_str("LengthConflict"));
    let ghost reserved = names(used@);
    assert(reserved =~= spec_writer_error_reserved());
    assert(names(used@) =~= reserved + spec_unique_all(reserved, seq![], ""@));
    let n = schema.fields.len();
    let mut conversions: Vec<Option<String>> = Vec::new();
    let mut i: usize = 0;
    while i < n
        invariant
            n == schema.fields@.len(),
            2 * n + 8 <= usize::MAX,
            i <= n,
            reserved == spec_writer_error_reserved(),
            names(used@) == reserved + spec_unique_all(reserved, spec_conversion_bases(schema.fields@.take(i as int)), ""@),
            names(used@) == reserved + spec_optvs(conversions@),
            used@.len() <= 2 + i,
            conversions@.len() == i,
            forall|k: int| 0 <= k < i ==> ((#[trigger] conversions@[k]) is Some <==> spec_converted_scalar(schema.fields@[k].kind)),
        decreases n - i,
    {
        let f = &schema.fields[i];
        let c = match &f.kind {
            FieldKind::Scalar(scalar) => scalar.value_type.is_converted(),
            _ => false,
        };
        let base = concat(pascal(f.name.as_str()).as_str(), "Value");
        let ghost bases = spec_conversion_bases(schema.fields@.take(i as int));
        let ghost before = conversions@;
        let name = assign_if(c, &mut used, base.as_str(), Ghost(reserved), Ghost(bases));
        conversions.push(name);
        proof {
            assert(schema.fields@.take(i + 1).drop_last() =~= schema.fields@.take(i as int));
            assert(conversions@.drop_last() =~= before);
            assert(names(used@) =~= reserved + spec_optvs(conversions@));
        }
        i = i + 1;
    }
    assert(schema.fields@.take(n as int) =~= schema.fields@);
    let ghost conv = spec_conversion_bases(schema.fields@);
    let mut nested: Vec<Option<String>> = Vec::new();
    let mut j: usize = 0;
    while j < n
        invariant
            n == schema.fields@.len(),
            2 * n + 8 <= usize::MAX,
            j <= n,
            reserved == spec_writer_error_reserved(),
            conv == spec_conversion_bases(schema.fields@),
            names(used@) == reserved + spec_unique_all(reserved, conv + spec_child_bases(schema.fields@.take(j as int)), ""@),
            names(used@) == reserved + spec_optvs(conversions@) + spec_optvs(nested@),
            used@.len() <= 2 + n + j,
            nested@.len() == j,
            forall|k: int| 0 <= k < j ==> ((#[trigger] nested@[k]) is Some <==> spec_has_child(schema.fields@[k].kind)),
        decreases n - j,
    {
        let f = &schema.fields[j];
        let c = match &f.kind {
            FieldKind::Nested(_) | FieldKind::Array(_) => true,
            _ => false,
        };
        let base = pascal(f.name.as_str());
        let ghost bases = conv + spec_child_bases(schema.fields@.take(j as int));
        let ghost before = nested@;
        let name = assign_if(c, &mut used, base.as_str(), Ghost(reserved), Ghost(bases));
        nested.push(name);
        proof {
            assert(schema.fields@.take(j + 1).drop_last() =~= schema.fields@.take(j as int));
            assert(bases + spec_opt(c, base@) =~= conv + spec_child_bases(schema.fields@.take(j + 1)));
            assert(nested@.drop_last() =~= before);
            assert(names(used@) =~= reserved + spec_optvs(conversions@) + spec_optvs(nested@));
        }
        j = j + 1;
    }
    assert(schema.fields@.take(n as int) =~= schema.fields@);
    assert(spec_optvs(conversions@) + spec_optvs(nested@) =~= names(used@).skip(2));
    (conversions, nested)
}

/// The error variants of a writer are named distinctly, and none takes a
/// reserved name.
pub proof fn law_writer_error_names_distinct(fields: Seq<Field>)
    ensures
        (spec_writer_error_reserved() + spec_unique_all(
            spec_writer_error_reserved(),
            spec_conversion_bases(fields) + spec_child_bases(fields),
            ""@,
        )).no_duplicates(),
{
    reveal_strlit("Layout");
    reveal_strlit("LengthConflict");
    let r = spec_writer_error_reserved();
    assert(r[0].len() != r[1].len());
    law_unique_names_distinct(r, spec_conversion_bases(fields) + spec_child_bases(fields), ""@);
}

/// The name of a generated item of a flag's choice: `__WireRepr`, the
/// schema's name, `Choice`, the flag's field position, then `suffix`.
pub open spec fn spec_choice_ident(s: Schema, flag: Seq<char>, suffix: Seq<char>) -> Seq<char> {
    "__WireRepr"@ + spec_unraw(s.name@) + "Choice"@ + spec_decimal(
        spec_field_index(s.fields@, flag)->Some_0 as nat,
    ) + suffix
}

fn choice_ident(schema: &Schema, flag: &String, suffix: &str) -> (r: String)
    requires
        spec_field_index(schema.fields@, flag@) is Some,
    ensures
        r@ == spec_choice_ident(*schema, flag@, suffix@),
{
    let index = match find_field(&schema.fields, flag) {
        Some(index) => index,
        None => {
            assert(false);
            0
        },
    };
    let name = unraw(schema.name.as_str());
    let a = concat("__WireRepr", name.as_str());
    let b = concat(a.as_str(), "Choice");
    let c = concat(b.as_str(), decimal(index).as_str());
    concat(c.as_str(), suffix)
}

/// The trait a flag's choice of value implements.
pub fn choice_trait_ident(schema: &Schema, flag: &String) -> (r: String)
    requires
        spec_field_index(schema.fields@, flag@) is Some,
    ensures
        r@ == spec_choice_ident(*schema, flag@, "Value"@),
{
    choice_ident(schema, flag, "Value")
}

/// The state a flag's choice starts in.
pub fn choice_start_ident(schema: &Schema, flag: &String) -> (r: String)
    requires
        spec_field_index(schema.fields@, flag@) is Some,
    ensures
        r@ == spec_choice_ident(*schema, flag@, ""@),
{
    choice_ident(schema, flag, "")
}

/// The state type parameter of a flag's choice.
pub fn choice_state_ident(schema: &Schema, flag: &String) -> (r: String)
    requires
        spec_field_index(schema.fields@, flag@) is Some,
    ensures
        r@ == spec_choice_ident(*schema, flag@, "State"@),
{
    choice_ident(schema, flag, "State")
}

/// The state a flag's choice ends in.
pub fn choice_final_ident(schema: &Schema, flag: &String) -> (r: String)
    requires
        spec_field_index(schema.fields@, flag@) is Some,
    ensures
        r@ == spec_choice_ident(*schema, flag@, "Final"@),
{
    choice_ident(schema, flag, "Final")
}

} // verus!
