//! Reading a declared struct into a [`Schema`]: each field is normalized in
//! physical order after the ones before it, then the whole-schema rules run.

use vstd::prelude::*;
use crate::attributes::FieldAttributes;
use crate::errors::{ErrorKind, SchemaError};
use crate::model::{Field, Generics, Schema, SizeTerm, Validator};
use crate::normalization::{normalize_field, spec_layout, spec_next_terms, spec_normalize};
use crate::syntax::TypeSyntax;
use crate::text::{contains_name, names, spec_unraw, unraw};
use crate::validation::{spec_validated, validate};

verus! {

/// A declared field: its name as written, its type, and its `#[wire(..)]`
/// attributes, or the error `E` that reading them gave.
pub struct FieldDecl<E> {
    pub name: String,
    pub ty: TypeSyntax,
    pub attributes: Result<FieldAttributes, E>,
}

/// The body of a declaration that a schema derive is applied to.
pub enum SchemaData<E> {
    /// A struct with named fields.
    NamedStruct(Vec<FieldDecl<E>>),
    /// A tuple or unit struct.
    UnnamedStruct,
    /// An enum or a union.
    NotStruct,
}

/// Why a declaration does not become a schema: a field's attributes could not
/// be read, or the schema rules refuse it.
pub enum ParseFailure<E> {
    Attributes(E),
    Refused(SchemaError),
}

/// Attributes a field can be normalized with: what the attribute grammar
/// never yields is left out.
pub open spec fn spec_attributes_usable(a: FieldAttributes) -> bool {
    &&& !(a.bit is Some && a.bits is Some)
    &&& !(a.computed is Some && a.try_computed is Some)
}

/// Whether a declaration's attributes, where they were read, are usable.
pub open spec fn spec_decl_usable<E>(d: FieldDecl<E>) -> bool {
    match d.attributes {
        Ok(a) => spec_attributes_usable(a),
        Err(_) => true,
    }
}

/// The offset terms that follow the fields `fields`.
pub open spec fn spec_terms_after(fields: Seq<Field>) -> Seq<SizeTerm>
    decreases fields.len(),
{
    if fields.len() == 0 {
        seq![]
    } else {
        spec_next_terms(
            spec_terms_after(fields.drop_last()),
            fields.last().kind,
            fields.last().layout,
            (fields.len() - 1) as usize,
        )
    }
}

/// Whether `fields[i]` is what declaration `i` normalizes to, after
/// `fields[..i]`.
pub open spec fn spec_normalized_at<E>(decls: Seq<FieldDecl<E>>, fields: Seq<Field>, i: int) -> bool {
    let d = decls[i];
    let before = fields.take(i);
    &&& d.attributes matches Ok(a) && spec_normalize(
        d.ty.shape,
        a,
        i as usize,
        decls.len() as usize,
        before,
        spec_terms_after(before),
    ) == Ok::<_, ErrorKind>(fields[i].kind) && fields[i].layout == spec_layout(a, before)
    &&& fields[i].name == d.name
    &&& fields[i].ty == d.ty
    &&& fields[i].offset.terms@ == spec_terms_after(before)
}

/// Whether `fields` is what the first `fields.len()` declarations normalize to.
pub open spec fn spec_normalized_prefix<E>(decls: Seq<FieldDecl<E>>, fields: Seq<Field>) -> bool {
    &&& fields.len() <= decls.len()
    &&& forall|i: int| 0 <= i < fields.len() ==> #[trigger] spec_normalized_at(decls, fields, i)
}

/// Whether declaration `fields.len()` fails after `fields` normalized, and
/// how.
pub open spec fn spec_fails_after<E>(
    decls: Seq<FieldDecl<E>>,
    fields: Seq<Field>,
    failure: ParseFailure<E>,
) -> bool {
    let i = fields.len() as int;
    &&& spec_normalized_prefix(decls, fields)
    &&& i < decls.len()
    &&& match decls[i].attributes {
        Err(e) => failure == ParseFailure::<E>::Attributes(e),
        Ok(a) => spec_normalize(
            decls[i].ty.shape,
            a,
            i as usize,
            decls.len() as usize,
            fields,
            spec_terms_after(fields),
        ) matches Err(k) && failure == ParseFailure::<E>::Refused(
            SchemaError { field: Some(i as usize), kind: k, subject: None },
        ),
    }
}

proof fn lemma_prefix_push<E>(decls: Seq<FieldDecl<E>>, fields: Seq<Field>, f: Field)
    requires
        spec_normalized_prefix(decls, fields),
        fields.len() < decls.len(),
        spec_normalized_at(decls, fields.push(f), fields.len() as int),
    ensures
        spec_normalized_prefix(decls, fields.push(f)),
{
    let g = fields.push(f);
    assert forall|i: int| 0 <= i < g.len() implies #[trigger] spec_normalized_at(decls, g, i) by {
        if i < fields.len() {
            assert(g.take(i) =~= fields.take(i));
            assert(spec_normalized_at(decls, fields, i));
        }
    }
}

/// Normalizes the declared fields in order, each after the ones before it;
/// stops at the first field whose attributes could not be read or that the
/// field rules refuse.
pub fn normalize_fields<E>(decls: Vec<FieldDecl<E>>) -> (r: Result<Vec<Field>, ParseFailure<E>>)
    requires
        forall|i: int|
            0 <= i < decls@.len() ==> spec_decl_usable(#[trigger] decls@[i]),
    ensures
        match r {
            Ok(fields) => fields@.len() == decls@.len() && spec_normalized_prefix(decls@, fields@),
            Err(failure) => exists|fields: Seq<Field>| spec_fails_after(decls@, fields, failure),
        },
{
    let ghost all = decls@;
    let count = decls.len();
    let mut rest = decls;
    let mut parsed: Vec<Field> = Vec::new();
    let mut preceding: Vec<SizeTerm> = Vec::new();
    let mut index: usize = 0;
    while index < count
        invariant
            all == decls@,
            count == all.len(),
            index <= count,
            rest@ == all.skip(index as int),
            parsed@.len() == index,
            spec_normalized_prefix(all, parsed@),
            preceding@ == spec_terms_after(parsed@),
            forall|i: int|
                0 <= i < all.len() ==> spec_decl_usable(#[trigger] all[i]),
        decreases count - index,
    {
        assert(rest@[0] == all[index as int]);
        let decl = rest.remove(0);
        assert(rest@ =~= all.skip(index + 1));
        let FieldDecl { name, ty, attributes } = decl;
        let attributes = match attributes {
            Ok(a) => a,
            Err(e) => {
                assert(spec_fails_after(all, parsed@, ParseFailure::Attributes(e)));
                return Err(ParseFailure::Attributes(e));
            },
        };
        let ghost before = parsed@;
        let ghost a = attributes;
        assert(parsed@.take(index as int) =~= parsed@);
        match normalize_field(name, ty, attributes, index, count, &parsed, &mut preceding) {
            Ok(field) => {
                parsed.push(field);
                proof {
                    let g = parsed@;
                    assert(g.take(index as int) =~= before);
                    assert(g.drop_last() =~= before);
                    lemma_prefix_push(all, before, field);
                }
            },
            Err(k) => {
                let failure = ParseFailure::Refused(SchemaError { field: Some(index), kind: k, subject: None });
                assert(spec_fails_after(all, parsed@, failure));
                return Err(failure);
            },
        }
        index = index + 1;
    }
    Ok(parsed)
}

/// Reads a declaration into a schema: it must be a struct with named fields;
/// its fields are normalized, then checked together.
pub fn parse_schema<E>(
    name: String,
    generics: Generics,
    data: SchemaData<E>,
    validators: Vec<Validator>,
) -> (r: Result<Schema, ParseFailure<E>>)
    requires
        data matches SchemaData::NamedStruct(decls) ==> forall|i: int|
            0 <= i < decls@.len() ==> spec_decl_usable(#[trigger] decls@[i]),
    ensures
        match data {
            SchemaData::NotStruct => r matches Err(ParseFailure::Refused(e)) && e == SchemaError {
                field: None,
                kind: ErrorKind::StructRequired,
                subject: None,
            },
            SchemaData::UnnamedStruct => r matches Err(ParseFailure::Refused(e)) && e == SchemaError {
                field: None,
                kind: ErrorKind::NamedStructRequired,
                subject: None,
            },
            SchemaData::NamedStruct(decls) => match r {
                Ok(s) => s.name == name && s.generics == generics && s.validators == validators
                    && s.fields@.len() == decls@.len() && spec_normalized_prefix(decls@, s.fields@)
                    && spec_validated(s.fields@, Ok(s.computed_order@)),
                Err(ParseFailure::Attributes(e)) => exists|fields: Seq<Field>|
                    spec_fails_after(decls@, fields, ParseFailure::Attributes(e)),
                Err(ParseFailure::Refused(e)) => (exists|fields: Seq<Field>|
                    spec_fails_after(decls@, fields, ParseFailure::Refused(e))) || (exists|
                    fields: Seq<Field>,
                |
                    fields.len() == decls@.len() && spec_normalized_prefix(decls@, fields)
                        && spec_validated(fields, Err(e))),
            },
        },
{
    let decls = match data {
        SchemaData::NamedStruct(decls) => decls,
        SchemaData::UnnamedStruct => {
            return Err(ParseFailure::Refused(SchemaError { field: None, kind: ErrorKind::NamedStructRequired, subject: None }));
        },
        SchemaData::NotStruct => {
            return Err(ParseFailure::Refused(SchemaError { field: None, kind: ErrorKind::StructRequired, subject: None }));
        },
    };
    let ghost all = decls@;
    let fields = match normalize_fields(decls) {
        Ok(fields) => fields,
        Err(failure) => {
            proof {
                let w = choose|w: Seq<Field>| spec_fails_after(all, w, failure);
                if failure is Attributes {
                    assert(spec_fails_after(all, w, ParseFailure::Attributes(failure->Attributes_0)));
                } else {
                    assert(spec_fails_after(all, w, ParseFailure::Refused(failure->Refused_0)));
                }
            }
            return Err(failure);
        },
    };
    match validate(&fields) {
        Ok(computed_order) => Ok(Schema { name, generics, fields, validators, computed_order }),
        Err(e) => Err(ParseFailure::Refused(e)),
    }
}

/// The identifiers a field's source spells: its name, its type's
/// identifiers, and those of its constant, if any.
pub open spec fn spec_field_identifiers(f: Field) -> Set<Seq<char>> {
    let constant = match f.kind.spec_constant() {
        Some(c) => names(c.identifiers@).to_set(),
        None => Set::empty(),
    };
    set![spec_unraw(f.name@)] + names(f.ty.identifiers@).to_set() + constant
}

/// Every identifier the schema's source spells, without raw prefixes: its
/// name, its generics, its fields (see [`spec_field_identifiers`]) and its
/// validator paths.
pub open spec fn spec_source_identifiers(s: Schema) -> Set<Seq<char>> {
    let fields = Set::new(
        |x: Seq<char>|
            exists|i: int| 0 <= i < s.fields@.len() && #[trigger] spec_field_identifiers(s.fields@[i]).contains(x),
    );
    let validators = Set::new(
        |x: Seq<char>|
            exists|j: int|
                0 <= j < s.validators@.len() && #[trigger] names(s.validators@[j].identifiers@).contains(x),
    );
    set![spec_unraw(s.name@)] + names(s.generics.identifiers@).to_set() + fields + validators
}

/// Adds `s` to a list of distinct names, unless it is already there.
fn add_name(out: &mut Vec<String>, s: String)
    requires
        names(old(out)@).no_duplicates(),
    ensures
        names(final(out)@).no_duplicates(),
        names(final(out)@).to_set() == names(old(out)@).to_set().insert(s@),
{
    if contains_name(out, &s) {
        assert(names(out@).to_set() =~= names(out@).to_set().insert(s@));
        return;
    }
    let ghost before = out@;
    out.push(s);
    proof {
        assert(names(out@) =~= names(before).push(s@));
        assert(names(out@).to_set() =~= names(before).to_set().insert(s@)) by {
            assert forall|x: Seq<char>| names(out@).contains(x) implies names(before).contains(x) || x == s@ by {
                let k = choose|k: int| 0 <= k < names(out@).len() && names(out@)[k] == x;
                if k < before.len() {
                    assert(names(before)[k] == x);
                }
            }
            assert forall|x: Seq<char>| names(before).contains(x) implies names(out@).contains(x) by {
                let k = choose|k: int| 0 <= k < names(before).len() && names(before)[k] == x;
                assert(names(out@)[k] == x);
            }
            assert(names(out@)[before.len() as int] == s@);
        }
    }
}

/// Adds each of `v` to a list of distinct names.
fn add_names(out: &mut Vec<String>, v: &Vec<String>)
    requires
        names(old(out)@).no_duplicates(),
    ensures
        names(final(out)@).no_duplicates(),
        names(final(out)@).to_set() == names(old(out)@).to_set() + names(v@).to_set(),
{
    let ghost start = names(out@).to_set();
    let mut i: usize = 0;
    while i < v.len()
        invariant
            i <= v@.len(),
            names(out@).no_duplicates(),
            names(out@).to_set() == start + names(v@.take(i as int)).to_set(),
        decreases v.len() - i,
    {
        let ghost before = names(out@).to_set();
        add_name(out, v[i].clone());
        proof {
            assert(names(v@.take(i + 1)) =~= names(v@.take(i as int)).push(v@[i as int]@));
            assert(names(v@.take(i + 1)).to_set() =~= names(v@.take(i as int)).to_set().insert(v@[i as int]@)) by {
                let a = names(v@.take(i as int));
                let b = names(v@.take(i + 1));
                assert forall|x: Seq<char>| b.contains(x) implies a.contains(x) || x == v@[i as int]@ by {
                    let k = choose|k: int| 0 <= k < b.len() && b[k] == x;
                    if k < a.len() {
                        assert(a[k] == x);
                    }
                }
                assert forall|x: Seq<char>| a.contains(x) implies b.contains(x) by {
                    let k = choose|k: int| 0 <= k < a.len() && a[k] == x;
                    assert(b[k] == x);
                }
                assert(b[i as int] == v@[i as int]@);
            }
            assert(names(out@).to_set() =~= start + names(v@.take(i + 1)).to_set());
        }
        i = i + 1;
    }
    assert(v@.take(v@.len() as int) =~= v@);
}

/// Every identifier the schema's source spells, once each; a generated name
/// that is none of them cannot collide with the user's code.
pub fn schema_source_identifiers(schema: &Schema) -> (r: Vec<String>)
    ensures
        names(r@).no_duplicates(),
        names(r@).to_set() == spec_source_identifiers(*schema),
{
    let mut out: Vec<String> = Vec::new();
    assert(names(out@).to_set() =~= Set::<Seq<char>>::empty());
    add_name(&mut out, unraw(schema.name.as_str()));
    add_names(&mut out, &schema.generics.identifiers);
    let ghost head = set![spec_unraw(schema.name@)] + names(schema.generics.identifiers@).to_set();
    assert(names(out@).to_set() =~= head);
    let mut i: usize = 0;
    while i < schema.fields.len()
        invariant
            i <= schema.fields@.len(),
            names(out@).no_duplicates(),
            names(out@).to_set() == head + Set::new(
                |x: Seq<char>|
                    exists|k: int| 0 <= k < i && #[trigger] spec_field_identifiers(schema.fields@[k]).contains(x),
            ),
        decreases schema.fields.len() - i,
    {
        let f = &schema.fields[i];
        let ghost before = names(out@).to_set();
        add_name(&mut out, unraw(f.name.as_str()));
        add_names(&mut out, &f.ty.identifiers);
        let ghost mid = names(out@).to_set();
        match f.kind.constant() {
            Some(c) => {
                add_names(&mut out, &c.identifiers);
            },
            None => {},
        }
        proof {
            assert(names(out@).to_set() =~= before + spec_field_identifiers(schema.fields@[i as int]));
            assert(names(out@).to_set() =~= head + Set::new(
                |x: Seq<char>|
                    exists|k: int| 0 <= k < i + 1 && #[trigger] spec_field_identifiers(schema.fields@[k]).contains(x),
            ));
        }
        i = i + 1;
    }
    let ghost with_fields = names(out@).to_set();
    let mut j: usize = 0;
    while j < schema.validators.len()
        invariant
            j <= schema.validators@.len(),
            names(out@).no_duplicates(),
            names(out@).to_set() == with_fields + Set::new(
                |x: Seq<char>|
                    exists|k: int| 0 <= k < j && #[trigger] names(schema.validators@[k].identifiers@).contains(x),
            ),
        decreases schema.validators.len() - j,
    {
        let ghost before = names(out@).to_set();
        add_names(&mut out, &schema.validators[j].identifiers);
        proof {
            assert(names(out@).to_set() =~= with_fields + Set::new(
                |x: Seq<char>|
                    exists|k: int| 0 <= k < j + 1 && #[trigger] names(schema.validators@[k].identifiers@).contains(x),
            )) by {
                assert(names(out@).to_set() == before + names(schema.validators@[j as int].identifiers@).to_set());
            }
        }
        j = j + 1;
    }
    assert(names(out@).to_set() =~= spec_source_identifiers(*schema));
    out
}

} // verus!
