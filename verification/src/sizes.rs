//! The fixed size a struct view declares: known before any input only when
//! the layout has no run-time geometry and every field's size is known.

use vstd::prelude::*;
use crate::model::{Schema, SizeTerm, spec_has_explicit_geometry};

verus! {

/// The size a term contributes, given the value of each field's array
/// length (`lengths`) and each nested field type's fixed size (`nested`).
pub open spec fn spec_term_size(t: SizeTerm, lengths: Seq<usize>, nested: Seq<Option<usize>>) -> Option<nat> {
    match t {
        SizeTerm::Fixed(w) => Some(w as nat),
        SizeTerm::Expr(i) => Some(lengths[i as int] as nat),
        SizeTerm::Scaled(i, w) => Some(lengths[i as int] as nat * w as nat),
        SizeTerm::Nested(i) => match nested[i as int] {
            Some(x) => Some(x as nat),
            None => None,
        },
        SizeTerm::Dynamic => None,
    }
}

/// The sum of the sizes of the first `n` terms, when all are known.
pub open spec fn spec_terms_sum(
    terms: Seq<SizeTerm>,
    lengths: Seq<usize>,
    nested: Seq<Option<usize>>,
    n: nat,
) -> Option<nat>
    decreases n,
{
    if n == 0 {
        Some(0)
    } else {
        match (spec_terms_sum(terms, lengths, nested, (n - 1) as nat), spec_term_size(terms[n - 1], lengths, nested)) {
            (Some(a), Some(b)) => Some(a + b),
            _ => None,
        }
    }
}

/// The fixed size of a struct view: none with run-time geometry; otherwise
/// the sum of its fields' sizes (scalar widths, array lengths, element
/// arrays' lengths times element widths, nested types' fixed sizes), when
/// every one is known and the sum is addressable.
pub open spec fn spec_struct_fixed_size(s: Schema, lengths: Seq<usize>, nested: Seq<Option<usize>>) -> Option<usize> {
    if spec_has_explicit_geometry(s.fields@) {
        None
    } else {
        let terms = Seq::new(s.fields@.len(), |i: int| s.fields@[i].kind.spec_size_term(i as usize));
        match spec_terms_sum(terms, lengths, nested, terms.len()) {
            Some(x) => if x <= usize::MAX {
                Some(x as usize)
            } else {
                None
            },
            None => None,
        }
    }
}

proof fn lemma_sum_grows(terms: Seq<SizeTerm>, lengths: Seq<usize>, nested: Seq<Option<usize>>, m: nat, n: nat)
    requires
        m <= n,
        spec_terms_sum(terms, lengths, nested, n) is Some,
    ensures
        spec_terms_sum(terms, lengths, nested, m) is Some,
        spec_terms_sum(terms, lengths, nested, m)->Some_0 <= spec_terms_sum(terms, lengths, nested, n)->Some_0,
    decreases n,
{
    if m < n {
        lemma_sum_grows(terms, lengths, nested, m, (n - 1) as nat);
    }
}

proof fn lemma_sum_unknown(terms: Seq<SizeTerm>, lengths: Seq<usize>, nested: Seq<Option<usize>>, m: nat, n: nat)
    requires
        m <= n,
        spec_terms_sum(terms, lengths, nested, m) is None,
    ensures
        spec_terms_sum(terms, lengths, nested, n) is None,
    decreases n,
{
    if m < n {
        lemma_sum_unknown(terms, lengths, nested, m, (n - 1) as nat);
    }
}

/// The fixed size of a struct view, given the value of each field's array
/// length and each nested field type's fixed size (by field position).
pub fn struct_fixed_size(schema: &Schema, lengths: &Vec<usize>, nested: &Vec<Option<usize>>) -> (r: Option<usize>)
    requires
        lengths@.len() == schema.fields@.len(),
        nested@.len() == schema.fields@.len(),
    ensures
        r == spec_struct_fixed_size(*schema, lengths@, nested@),
{
    if schema.has_explicit_geometry() {
        return None;
    }
    let terms = schema.size_terms();
    let ghost t = Seq::new(schema.fields@.len(), |i: int| schema.fields@[i].kind.spec_size_term(i as usize));
    assert(terms@ =~= t);
    let n = terms.len();
    let mut total: usize = 0;
    let mut i: usize = 0;
    while i < n
        invariant
            terms@ == t,
            t == Seq::new(schema.fields@.len(), |j: int| schema.fields@[j].kind.spec_size_term(j as usize)),
            n == t.len(),
            lengths@.len() == t.len(),
            nested@.len() == t.len(),
            i <= n,
            spec_terms_sum(t, lengths@, nested@, i as nat) == Some(total as nat),
        decreases n - i,
    {
        assert(t[i as int] == schema.fields@[i as int].kind.spec_size_term(i));
        let size: Option<usize> = match terms[i] {
            SizeTerm::Fixed(w) => Some(w),
            SizeTerm::Expr(k) => Some(lengths[k]),
            SizeTerm::Scaled(k, w) => lengths[k].checked_mul(w),
            SizeTerm::Nested(k) => nested[k],
            SizeTerm::Dynamic => None,
        };
        match size {
            None => {
                proof {
                    if !(terms@[i as int] is Scaled) {
                        lemma_sum_unknown(t, lengths@, nested@, (i + 1) as nat, n as nat);
                    } else if spec_terms_sum(t, lengths@, nested@, n as nat) is Some {
                        lemma_sum_grows(t, lengths@, nested@, (i + 1) as nat, n as nat);
                    }
                }
                return None;
            },
            Some(x) => {
                if x > usize::MAX - total {
                    proof {
                        if spec_terms_sum(t, lengths@, nested@, n as nat) is Some {
                            lemma_sum_grows(t, lengths@, nested@, (i + 1) as nat, n as nat);
                        }
                    }
                    return None;
                }
                total = total + x;
            },
        }
        i = i + 1;
    }
    Some(total)
}

} // verus!
