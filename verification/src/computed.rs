//! Computed fields: which fields a callback reads, and the order in which
//! callbacks run so that each runs after the computed fields it reads.

use vstd::prelude::*;
use crate::errors::{ErrorKind, SchemaError};
use crate::model::{Computed, Field, FieldKind, find_field, spec_field_index};
use crate::syntax::{ExprForm, ExprPath, Member, WireExpr};
use crate::text::{concat, contains_name, lemma_names_push, names, pascal, spec_pascal, spec_unraw, text_is};

verus! {

pub open spec fn self_name() -> Seq<char> {
    seq!['s', 'e', 'l', 'f']
}

pub open spec fn include_name() -> Seq<char> {
    seq!['i', 'n', 'c', 'l', 'u', 'd', 'e']
}

pub open spec fn exclude_name() -> Seq<char> {
    seq!['e', 'x', 'c', 'l', 'u', 'd', 'e']
}

/// The one identifier of a plain path, or a refusal.
pub open spec fn spec_simple_name(p: ExprPath) -> Result<String, ErrorKind> {
    if p.qself || p.segments@.len() != 1 {
        Err(ErrorKind::SimpleNameExpected)
    } else {
        Ok(p.segments@[0])
    }
}

fn simple_computed_name(p: &ExprPath) -> (r: Result<&String, ErrorKind>)
    ensures
        match spec_simple_name(*p) {
            Ok(s) => r matches Ok(t) && *t == s,
            Err(k) => r == Err::<&String, ErrorKind>(k),
        },
{
    if p.qself || p.segments.len() != 1 {
        return Err(ErrorKind::SimpleNameExpected);
    }
    Ok(&p.segments[0])
}

/// `self` stands for the destination field.
pub open spec fn spec_resolve_self(name: Seq<char>, destination: Seq<char>) -> Seq<char> {
    if name == self_name() {
        destination
    } else {
        name
    }
}

/// The root field of a selection path, and whether the path selects it whole.
pub open spec fn spec_selection_root(e: WireExpr) -> Result<(Seq<char>, bool), ErrorKind>
    decreases e,
{
    match e.form {
        ExprForm::Path(p) => match spec_simple_name(p) {
            Ok(s) => Ok((s@, true)),
            Err(k) => Err(k),
        },
        ExprForm::Field { base, member } => match member {
            Member::Named(_) => match spec_selection_root(*base) {
                Ok((root, _)) => Ok((root, false)),
                Err(k) => Err(k),
            },
            Member::Unnamed => Err(ErrorKind::SelectionNamedFields),
        },
        _ => Err(ErrorKind::SelectionPhysicalPaths),
    }
}

fn selection_root(e: &WireExpr) -> (r: Result<(String, bool), ErrorKind>)
    ensures
        match spec_selection_root(*e) {
            Ok((s, w)) => r matches Ok((t, v)) && t@ == s && v == w,
            Err(k) => r == Err::<(String, bool), ErrorKind>(k),
        },
    decreases e,
{
    match &e.form {
        ExprForm::Path(p) => {
            let name = simple_computed_name(p)?;
            Ok((name.clone(), true))
        },
        ExprForm::Field { base, member } => match member {
            Member::Named(_) => {
                let (root, _) = selection_root(base)?;
                Ok((root, false))
            },
            Member::Unnamed => Err(ErrorKind::SelectionNamedFields),
        },
        _ => Err(ErrorKind::SelectionPhysicalPaths),
    }
}

/// The roots of the first `n` selection paths, `self` resolved.
pub open spec fn spec_selected(args: Seq<WireExpr>, n: nat, destination: Seq<char>) -> Result<
    Seq<(Seq<char>, bool)>,
    ErrorKind,
>
    decreases n,
{
    if n == 0 || n > args.len() {
        Ok(Seq::empty())
    } else {
        match spec_selected(args, (n - 1) as nat, destination) {
            Err(k) => Err(k),
            Ok(prev) => match spec_selection_root(args[n - 1]) {
                Err(k) => Err(k),
                Ok((name, whole)) => Ok(prev.push((spec_resolve_self(name, destination), whole))),
            },
        }
    }
}

/// The names of the first `n` fields that are not in `excluded`.
pub open spec fn spec_fields_not_in(fields: Seq<Field>, excluded: Seq<Seq<char>>, n: nat) -> Seq<
    Seq<char>,
>
    decreases n,
{
    if n == 0 || n > fields.len() {
        Seq::empty()
    } else {
        let prev = spec_fields_not_in(fields, excluded, (n - 1) as nat);
        if excluded.contains(fields[n - 1].name@) {
            prev
        } else {
            prev.push(fields[n - 1].name@)
        }
    }
}

/// The roots of a selection that are selected whole.
pub open spec fn spec_whole_roots(selected: Seq<(Seq<char>, bool)>) -> Seq<Seq<char>>
    decreases selected.len(),
{
    if selected.len() == 0 {
        Seq::empty()
    } else {
        let prev = spec_whole_roots(selected.drop_last());
        if selected.last().1 {
            prev.push(selected.last().0)
        } else {
            prev
        }
    }
}

/// The field names one callback argument reads: a logical field, or an
/// `include(..)` / `exclude(..)` selection of physical field paths. An
/// exclusion reads every field not wholly excluded.
pub open spec fn spec_argument_names(arg: WireExpr, destination: Seq<char>, fields: Seq<Field>) -> Result<
    Seq<Seq<char>>,
    ErrorKind,
> {
    match arg.form {
        ExprForm::Path(p) => match spec_simple_name(p) {
            Ok(s) => Ok(seq![spec_resolve_self(s@, destination)]),
            Err(k) => Err(k),
        },
        ExprForm::Call { func, args } => match func.form {
            ExprForm::Path(op) => match spec_simple_name(op) {
                Err(k) => Err(k),
                Ok(operation) => match spec_selected(args@, args@.len(), destination) {
                    Err(k) => Err(k),
                    Ok(selected) => if operation@ == include_name() {
                        Ok(selected.map_values(|s: (Seq<char>, bool)| s.0))
                    } else if operation@ == exclude_name() {
                        Ok(spec_fields_not_in(fields, spec_whole_roots(selected), fields.len()))
                    } else {
                        Err(ErrorKind::SelectionOperation)
                    },
                },
            },
            _ => Err(ErrorKind::SelectionOperation),
        },
        _ => Err(ErrorKind::ComputedArgument),
    }
}

/// Whether `name` is the root field that selection path `a` reads, `self`
/// standing for the destination.
pub open spec fn spec_reads_root(a: WireExpr, destination: Seq<char>, name: Seq<char>) -> bool {
    match spec_selection_root(a) {
        Ok((root, _)) => name == spec_resolve_self(root, destination),
        Err(_) => false,
    }
}

proof fn lemma_selected_roots(args: Seq<WireExpr>, n: nat, destination: Seq<char>)
    requires
        n <= args.len(),
    ensures
        spec_selected(args, n, destination) matches Ok(s) ==> s.len() == n && forall|k: int|
            0 <= k < n ==> #[trigger] spec_reads_root(args[k], destination, s[k].0),
        spec_selected(args, n, destination) is Err ==> exists|k: int|
            0 <= k < n && (#[trigger] spec_selection_root(args[k])) is Err,
    decreases n,
{
    if n > 0 {
        lemma_selected_roots(args, (n - 1) as nat, destination);
        if let Ok(s) = spec_selected(args, n, destination) {
            let prev = spec_selected(args, (n - 1) as nat, destination)->Ok_0;
            assert forall|k: int| 0 <= k < n implies #[trigger] spec_reads_root(args[k], destination, s[k].0) by {
                if k < n - 1 {
                    assert(s[k] == prev[k]);
                }
            }
        }
        if spec_selected(args, (n - 1) as nat, destination) is Ok && spec_selected(args, n, destination) is Err {
            assert(spec_selection_root(args[n - 1]) is Err);
        }
    }
}

/// An `include(p1, .., pn)` argument reads exactly the root fields of
/// `p1`..`pn`, in order, `self` standing for the destination; it is refused
/// only when some path is not a selection.
pub proof fn law_include_reads_selected_roots(arg: WireExpr, destination: Seq<char>, fields: Seq<Field>)
    requires
        arg.form is Call,
        arg.form->Call_func.form is Path,
        spec_simple_name(arg.form->Call_func.form->Path_0) matches Ok(o) && o@ == include_name(),
    ensures
        spec_argument_names(arg, destination, fields) matches Ok(ns) ==> ns.len() == arg.form->Call_args@.len()
            && forall|k: int|
            0 <= k < ns.len() ==> #[trigger] spec_reads_root(arg.form->Call_args@[k], destination, ns[k]),
        spec_argument_names(arg, destination, fields) is Err ==> exists|k: int|
            0 <= k < arg.form->Call_args@.len() && (#[trigger] spec_selection_root(arg.form->Call_args@[k])) is Err,
{
    let args = arg.form->Call_args@;
    lemma_selected_roots(args, args.len(), destination);
}

proof fn lemma_fields_not_in(fields: Seq<Field>, excluded: Seq<Seq<char>>, n: nat)
    requires
        n <= fields.len(),
    ensures
        forall|k: int|
            0 <= k < n && !excluded.contains(#[trigger] fields[k].name@) ==> spec_fields_not_in(
                fields,
                excluded,
                n,
            ).contains(fields[k].name@),
        forall|m: int|
            0 <= m < spec_fields_not_in(fields, excluded, n).len() ==> !excluded.contains(
                #[trigger] spec_fields_not_in(fields, excluded, n)[m],
            ) && exists|k: int| 0 <= k < n && fields[k].name@ == spec_fields_not_in(fields, excluded, n)[m],
    decreases n,
{
    if n > 0 {
        lemma_fields_not_in(fields, excluded, (n - 1) as nat);
        let prev = spec_fields_not_in(fields, excluded, (n - 1) as nat);
        let cur = spec_fields_not_in(fields, excluded, n);
        assert forall|k: int| 0 <= k < n && !excluded.contains(#[trigger] fields[k].name@) implies cur.contains(
            fields[k].name@,
        ) by {
            if k < n - 1 {
                let m = choose|m: int| 0 <= m < prev.len() && prev[m] == fields[k].name@;
                assert(cur[m] == prev[m]);
            } else {
                assert(cur[cur.len() - 1] == fields[k].name@);
            }
        }
        assert forall|m: int| 0 <= m < cur.len() implies !excluded.contains(#[trigger] cur[m]) && exists|k: int|
            0 <= k < n && fields[k].name@ == cur[m] by {
            if m < prev.len() {
                assert(cur[m] == prev[m]);
                let k = choose|k: int| 0 <= k < n - 1 && fields[k].name@ == prev[m];
                assert(0 <= k < n);
            } else {
                assert(cur[m] == fields[n - 1].name@);
            }
        }
    }
}

/// An `exclude(p1, .., pn)` argument reads the name of every field that no
/// `pi` selects whole, and nothing else.
pub proof fn law_exclude_reads_the_rest(arg: WireExpr, destination: Seq<char>, fields: Seq<Field>)
    requires
        arg.form is Call,
        arg.form->Call_func.form is Path,
        spec_simple_name(arg.form->Call_func.form->Path_0) matches Ok(o) && o@ == exclude_name(),
    ensures
        spec_argument_names(arg, destination, fields) matches Ok(ns) ==> (forall|k: int|
            0 <= k < fields.len() && !spec_whole_roots(
                spec_selected(arg.form->Call_args@, arg.form->Call_args@.len(), destination)->Ok_0,
            ).contains(#[trigger] fields[k].name@) ==> ns.contains(fields[k].name@)) && (forall|m: int|
            0 <= m < ns.len() ==> exists|k: int| 0 <= k < fields.len() && fields[k].name@ == #[trigger] ns[m]),
{
    let args = arg.form->Call_args@;
    if let Ok(selected) = spec_selected(args, args.len(), destination) {
        lemma_fields_not_in(fields, spec_whole_roots(selected), fields.len());
    }
}

/// The names the first `n` callback arguments read, in order.
pub open spec fn spec_arguments_names(
    args: Seq<WireExpr>,
    n: nat,
    destination: Seq<char>,
    fields: Seq<Field>,
) -> Result<Seq<Seq<char>>, ErrorKind>
    decreases n,
{
    if n == 0 || n > args.len() {
        Ok(Seq::empty())
    } else {
        match spec_arguments_names(args, (n - 1) as nat, destination, fields) {
            Err(k) => Err(k),
            Ok(prev) => match spec_argument_names(args[n - 1], destination, fields) {
                Err(k) => Err(k),
                Ok(more) => Ok(prev + more),
            },
        }
    }
}

/// Whether every name is the name of some field.
pub open spec fn spec_all_known(ns: Seq<Seq<char>>, fields: Seq<Field>) -> bool {
    forall|k: int|
        #![trigger ns[k]]
        0 <= k < ns.len() ==> exists|j: int|
            #![trigger fields[j]]
            0 <= j < fields.len() && fields[j].name@ == ns[k]
}

/// The field names a computed callback reads, in argument order: the callback
/// must be a call, and every name must be a field of the schema.
pub open spec fn spec_dependency_names(expression: WireExpr, destination: Seq<char>, fields: Seq<Field>) -> Result<
    Seq<Seq<char>>,
    ErrorKind,
> {
    match expression.form {
        ExprForm::Call { func, args } => match spec_arguments_names(
            args@,
            args@.len(),
            destination,
            fields,
        ) {
            Err(k) => Err(k),
            Ok(ns) => if spec_all_known(ns, fields) {
                Ok(ns)
            } else {
                Err(ErrorKind::ComputedUnknownField)
            },
        },
        _ => Err(ErrorKind::ComputedCallbackNotCall),
    }
}

fn resolve_self(name: &String, destination: &String) -> (r: String)
    ensures
        r@ == spec_resolve_self(name@, destination@),
{
    proof {
        reveal_strlit("self");
        assert("self"@ =~= self_name());
    }
    if text_is(name.as_str(), "self") {
        destination.clone()
    } else {
        name.clone()
    }
}

fn selected_roots(args: &Vec<WireExpr>, destination: &String) -> (r: Result<Vec<(String, bool)>, ErrorKind>)
    ensures
        match spec_selected(args@, args@.len(), destination@) {
            Ok(s) => r matches Ok(v) && v@.len() == s.len() && forall|k: int|
                #![trigger v@[k]]
                0 <= k < s.len() ==> v@[k].0@ == s[k].0 && v@[k].1 == s[k].1,
            Err(k) => r == Err::<Vec<(String, bool)>, ErrorKind>(k),
        },
{
    let mut out: Vec<(String, bool)> = Vec::new();
    let mut i: usize = 0;
    while i < args.len()
        invariant
            i <= args@.len(),
            spec_selected(args@, i as nat, destination@) matches Ok(s) && out@.len() == s.len()
                && forall|k: int|
                #![trigger out@[k]]
                0 <= k < s.len() ==> out@[k].0@ == s[k].0 && out@[k].1 == s[k].1,
        decreases args.len() - i,
    {
        let (name, whole) = match selection_root(&args[i]) {
            Ok(root) => root,
            Err(k) => {
                proof {
                    lemma_selected_stays_err(args@, (i + 1) as nat, destination@);
                }
                return Err(k);
            },
        };
        let resolved = resolve_self(&name, destination);
        out.push((resolved, whole));
        i = i + 1;
    }
    Ok(out)
}

proof fn lemma_selected_stays_err(args: Seq<WireExpr>, n: nat, destination: Seq<char>)
    requires
        n <= args.len(),
        spec_selected(args, n, destination) is Err,
    ensures
        spec_selected(args, args.len(), destination) == spec_selected(args, n, destination),
    decreases args.len() - n,
{
    if n < args.len() {
        lemma_selected_stays_err(args, n + 1, destination);
    }
}

proof fn lemma_arguments_stays_err(args: Seq<WireExpr>, n: nat, destination: Seq<char>, fields: Seq<Field>)
    requires
        n <= args.len(),
        spec_arguments_names(args, n, destination, fields) is Err,
    ensures
        spec_arguments_names(args, args.len(), destination, fields) == spec_arguments_names(
            args,
            n,
            destination,
            fields,
        ),
    decreases args.len() - n,
{
    if n < args.len() {
        lemma_arguments_stays_err(args, n + 1, destination, fields);
    }
}

fn contains_text(v: &Vec<String>, s: &String) -> (r: bool)
    ensures
        r == exists|k: int| #![trigger v@[k]] 0 <= k < v@.len() && v@[k]@ == s@,
{
    let mut i: usize = 0;
    while i < v.len()
        invariant
            i <= v@.len(),
            forall|k: int| #![trigger v@[k]] 0 <= k < i ==> v@[k]@ != s@,
        decreases v.len() - i,
    {
        if v[i] == *s {
            return true;
        }
        i = i + 1;
    }
    false
}

fn argument_names(arg: &WireExpr, destination: &String, fields: &Vec<Field>) -> (r: Result<
    Vec<String>,
    ErrorKind,
>)
    ensures
        match spec_argument_names(*arg, destination@, fields@) {
            Ok(ns) => r matches Ok(v) && v@.len() == ns.len() && forall|k: int|
                #![trigger v@[k]]
                0 <= k < ns.len() ==> v@[k]@ == ns[k],
            Err(k) => r == Err::<Vec<String>, ErrorKind>(k),
        },
{
    match &arg.form {
        ExprForm::Path(p) => {
            let name = simple_computed_name(p)?;
            let mut out: Vec<String> = Vec::new();
            out.push(resolve_self(name, destination));
            Ok(out)
        },
        ExprForm::Call { func, args } => {
            let op = match &func.form {
                ExprForm::Path(op) => op,
                _ => return Err(ErrorKind::SelectionOperation),
            };
            let operation = simple_computed_name(op)?;
            let selected = selected_roots(args, destination)?;
            let ghost sel = spec_selected(args@, args@.len(), destination@)->Ok_0;
            proof {
                reveal_strlit("include");
                reveal_strlit("exclude");
                assert("include"@ =~= include_name());
                assert("exclude"@ =~= exclude_name());
            }
            if text_is(operation.as_str(), "include") {
                let mut out: Vec<String> = Vec::new();
                let mut i: usize = 0;
                while i < selected.len()
                    invariant
                        i <= selected@.len(),
                        selected@.len() == sel.len(),
                        forall|k: int|
                            #![trigger selected@[k]]
                            0 <= k < sel.len() ==> selected@[k].0@ == sel[k].0,
                        out@.len() == i,
                        forall|k: int| #![trigger out@[k]] 0 <= k < i ==> out@[k]@ == sel[k].0,
                    decreases selected.len() - i,
                {
                    out.push(selected[i].0.clone());
                    i = i + 1;
                }
                Ok(out)
            } else if text_is(operation.as_str(), "exclude") {
                let mut whole: Vec<String> = Vec::new();
                let mut i: usize = 0;
                while i < selected.len()
                    invariant
                        i <= selected@.len(),
                        selected@.len() == sel.len(),
                        forall|k: int|
                            #![trigger selected@[k]]
                            0 <= k < sel.len() ==> selected@[k].0@ == sel[k].0 && selected@[k].1
                                == sel[k].1,
                        whole@.len() == spec_whole_roots(sel.take(i as int)).len(),
                        forall|k: int|
                            #![trigger whole@[k]]
                            0 <= k < whole@.len() ==> whole@[k]@ == spec_whole_roots(
                                sel.take(i as int),
                            )[k],
                    decreases selected.len() - i,
                {
                    assert(sel.take(i + 1).drop_last() =~= sel.take(i as int));
                    if selected[i].1 {
                        whole.push(selected[i].0.clone());
                    }
                    i = i + 1;
                }
                assert(sel.take(sel.len() as int) =~= sel);
                let ghost excluded = spec_whole_roots(sel);
                let mut out: Vec<String> = Vec::new();
                let mut j: usize = 0;
                while j < fields.len()
                    invariant
                        j <= fields@.len(),
                        whole@.len() == excluded.len(),
                        forall|k: int| #![trigger whole@[k]] 0 <= k < whole@.len() ==> whole@[k]@ == excluded[k],
                        out@.len() == spec_fields_not_in(fields@, excluded, j as nat).len(),
                        forall|k: int|
                            #![trigger out@[k]]
                            0 <= k < out@.len() ==> out@[k]@ == spec_fields_not_in(
                                fields@,
                                excluded,
                                j as nat,
                            )[k],
                    decreases fields.len() - j,
                {
                    let present = contains_text(&whole, &fields[j].name);
                    proof {
                        if present {
                            let k = choose|k: int| #![trigger whole@[k]] 0 <= k < whole@.len() && whole@[k]@ == fields@[j as int].name@;
                            assert(excluded[k] == fields@[j as int].name@);
                        } else {
                            assert forall|k: int| 0 <= k < excluded.len() implies excluded[k] != fields@[j as int].name@ by {
                                assert(whole@[k]@ == excluded[k]);
                            }
                        }
                    }
                    if !present {
                        out.push(fields[j].name.clone());
                    }
                    j = j + 1;
                }
                Ok(out)
            } else {
                Err(ErrorKind::SelectionOperation)
            }
        },
        _ => Err(ErrorKind::ComputedArgument),
    }
}

/// The field names a computed callback reads, in argument order, `self`
/// being the destination field.
pub fn computed_dependency_names(expression: &WireExpr, destination: &String, fields: &Vec<Field>) -> (r:
    Result<Vec<String>, ErrorKind>)
    ensures
        match spec_dependency_names(*expression, destination@, fields@) {
            Ok(ns) => r matches Ok(v) && v@.len() == ns.len() && forall|k: int|
                #![trigger v@[k]]
                0 <= k < ns.len() ==> v@[k]@ == ns[k],
            Err(k) => r == Err::<Vec<String>, ErrorKind>(k),
        },
{
    let args = match &expression.form {
        ExprForm::Call { func, args } => args,
        _ => return Err(ErrorKind::ComputedCallbackNotCall),
    };
    assert(expression.form matches ExprForm::Call { args: a, .. } && a@ == args@);
    let mut found: Vec<String> = Vec::new();
    let mut i: usize = 0;
    while i < args.len()
        invariant
            expression.form matches ExprForm::Call { args: a, .. } && a@ == args@,
            i <= args@.len(),
            spec_arguments_names(args@, i as nat, destination@, fields@) matches Ok(ns) && found@.len()
                == ns.len() && forall|k: int|
                #![trigger found@[k]]
                0 <= k < ns.len() ==> found@[k]@ == ns[k],
        decreases args.len() - i,
    {
        let more = match argument_names(&args[i], destination, fields) {
            Ok(m) => m,
            Err(k) => {
                proof {
                    lemma_arguments_stays_err(args@, (i + 1) as nat, destination@, fields@);
                    assert(spec_arguments_names(args@, (i + 1) as nat, destination@, fields@) == Err::<Seq<Seq<char>>, ErrorKind>(k));
                }
                return Err(k);
            },
        };
        let ghost prev = found@;
        let mut j: usize = 0;
        while j < more.len()
            invariant
                j <= more@.len(),
                found@.len() == prev.len() + j,
                forall|k: int| #![trigger found@[k]] 0 <= k < prev.len() ==> found@[k] == prev[k],
                forall|k: int| #![trigger more@[k]] 0 <= k < j ==> found@[prev.len() + k] == more@[k],
            decreases more.len() - j,
        {
            found.push(more[j].clone());
            j = j + 1;
        }
        i = i + 1;
        proof {
            let ns = spec_arguments_names(args@, i as nat, destination@, fields@)->Ok_0;
            assert forall|k: int| #![trigger found@[k]] 0 <= k < ns.len() implies found@[k]@ == ns[k] by {
                if k >= prev.len() {
                    assert(found@[prev.len() + (k - prev.len())] == more@[k - prev.len()]);
                }
            }
        }
    }
    let ghost ns = spec_arguments_names(args@, args@.len(), destination@, fields@)->Ok_0;
    let mut k: usize = 0;
    while k < found.len()
        invariant
            expression.form matches ExprForm::Call { args: a, .. } && a@ == args@,
            ns == spec_arguments_names(args@, args@.len(), destination@, fields@)->Ok_0,
            spec_arguments_names(args@, args@.len(), destination@, fields@) is Ok,
            k <= found@.len(),
            found@.len() == ns.len(),
            forall|m: int| #![trigger found@[m]] 0 <= m < ns.len() ==> found@[m]@ == ns[m],
            forall|m: int|
                #![trigger ns[m]]
                0 <= m < k ==> exists|j: int|
                    #![trigger fields@[j]]
                    0 <= j < fields@.len() && fields@[j].name@ == ns[m],
        decreases found.len() - k,
    {
        match find_field(fields, &found[k]) {
            Some(j) => {
                assert(fields@[j as int].name@ == ns[k as int]);
            },
            None => {
                proof {
                    if exists|j: int| #![trigger fields@[j]] 0 <= j < fields@.len() && fields@[j].name@ == ns[k as int] {
                        let j = choose|j: int| #![trigger fields@[j]] 0 <= j < fields@.len() && fields@[j].name@ == ns[k as int];
                        assert(fields@[j].name@ == found@[k as int]@);
                    }
                    assert(!spec_all_known(ns, fields@)) by {
                        assert(ns[k as int] == ns[k as int]);
                    }
                }
                return Err(ErrorKind::ComputedUnknownField);
            },
        }
        k = k + 1;
    }
    assert(spec_all_known(ns, fields@)) by {
        assert forall|m: int| #![trigger ns[m]] 0 <= m < ns.len() implies exists|j: int|
            #![trigger fields@[j]]
            0 <= j < fields@.len() && fields@[j].name@ == ns[m] by {
            assert(ns[m] == ns[m]);
        }
    }
    assert(spec_dependency_names(*expression, destination@, fields@) == Ok::<Seq<Seq<char>>, ErrorKind>(ns));
    Ok(found)
}

/// Whether field `i` has a computed callback.
pub open spec fn spec_is_computed(fields: Seq<Field>, i: int) -> bool {
    0 <= i < fields.len() && fields[i].kind.spec_computed() is Some
}

/// The names field `i`'s callback reads.
#[verifier::opaque]
pub open spec fn spec_names_of(fields: Seq<Field>, i: int) -> Result<Seq<Seq<char>>, ErrorKind> {
    spec_dependency_names(fields[i].kind.spec_computed()->Some_0.expression, fields[i].name@, fields)
}

/// Whether computed field `i`'s callback reads computed field `j` (a name
/// resolves to the first field so named).
#[verifier::opaque]
pub open spec fn spec_depends_on(fields: Seq<Field>, i: int, j: int) -> bool {
    spec_is_computed(fields, j) && match spec_names_of(fields, i) {
        Ok(ns) => exists|k: int| #![trigger ns[k]] 0 <= k < ns.len() && spec_field_index(fields, ns[k]) == Some(j),
        Err(_) => false,
    }
}

/// The first computed field below `n` whose callback arguments are refused.
pub open spec fn spec_names_check(fields: Seq<Field>, n: nat) -> Option<(int, ErrorKind)>
    decreases n,
{
    if n == 0 {
        None
    } else {
        match spec_names_check(fields, (n - 1) as nat) {
            Some(e) => Some(e),
            None => if spec_is_computed(fields, n - 1) {
                match spec_names_of(fields, n - 1) {
                    Err(k) => Some(((n - 1) as int, k)),
                    Ok(_) => None,
                }
            } else {
                None
            },
        }
    }
}

/// Whether computed field `c` may run after the fields in `done`: it has not
/// run, and every computed field it reads has.
pub open spec fn spec_ready(fields: Seq<Field>, done: Seq<usize>, c: int) -> bool {
    &&& spec_is_computed(fields, c)
    &&& !done.contains(c as usize)
    &&& forall|j: int| #[trigger] spec_depends_on(fields, c, j) ==> done.contains(j as usize)
}

/// Whether `order` is the schedule that always runs the first ready field.
pub open spec fn spec_greedy(fields: Seq<Field>, order: Seq<usize>) -> bool {
    forall|p: int|
        #![trigger order[p]]
        0 <= p < order.len() ==> spec_ready(fields, order.take(p), order[p] as int) && forall|c: int|
            0 <= c < order[p] ==> !#[trigger] spec_ready(fields, order.take(p), c)
}

/// Whether `order` runs every computed field.
pub open spec fn spec_covers(fields: Seq<Field>, order: Seq<usize>) -> bool {
    forall|c: int| #[trigger] spec_is_computed(fields, c) ==> order.contains(c as usize)
}

/// Whether no computed field is ready after `done`, though some has not run;
/// `first` is the first that has not run.
pub open spec fn spec_stuck(fields: Seq<Field>, done: Seq<usize>, first: int) -> bool {
    &&& forall|c: int| !#[trigger] spec_ready(fields, done, c)
    &&& spec_is_computed(fields, first) && !done.contains(first as usize)
    &&& forall|c: int| 0 <= c < first && #[trigger] spec_is_computed(fields, c) ==> done.contains(c as usize)
}

proof fn lemma_push_take<T>(s: Seq<T>, x: T, p: int)
    requires
        0 <= p <= s.len(),
    ensures
        s.push(x).take(p) == s.take(p),
        s.push(x).take(s.len() as int) == s,
{
    assert(s.push(x).take(p) =~= s.take(p));
    assert(s.push(x).take(s.len() as int) =~= s);
}

/// The computed fields, in increasing order.
pub open spec fn spec_computed_list(fields: Seq<Field>, computed: Seq<usize>) -> bool {
    &&& forall|a: int, b: int| 0 <= a < b < computed.len() ==> #[trigger] computed[a] < #[trigger] computed[b]
    &&& forall|t: int| #![trigger computed[t]] 0 <= t < computed.len() ==> spec_is_computed(fields, computed[t] as int)
    &&& forall|c: int| #[trigger] spec_is_computed(fields, c) ==> computed.contains(c as usize)
}

/// `deps[t]` lists what `computed[t]` reads among the computed fields.
pub open spec fn spec_deps_table(fields: Seq<Field>, computed: Seq<usize>, deps: Seq<Vec<usize>>) -> bool {
    &&& deps.len() == computed.len()
    &&& forall|t: int, e: int| 0 <= t < deps.len() && 0 <= e < deps[t]@.len() ==> spec_depends_on(fields, computed[t] as int, #[trigger] deps[t]@[e] as int) && spec_is_computed(fields, deps[t]@[e] as int)
    &&& forall|t: int, j: int| 0 <= t < deps.len() && #[trigger] spec_depends_on(fields, computed[t] as int, j) ==> deps[t]@.contains(j as usize)
}

/// Which fields are computed and have not run yet.
pub open spec fn spec_remaining(fields: Seq<Field>, remaining: Seq<bool>, order: Seq<usize>) -> bool {
    &&& remaining.len() == fields.len()
    &&& forall|c: int| 0 <= c < fields.len() ==> #[trigger] remaining[c] == (spec_is_computed(fields, c) && !order.contains(c as usize))
}

fn computed_fields(fields: &Vec<Field>) -> (r: Vec<usize>)
    ensures
        spec_computed_list(fields@, r@),
{
    let mut out: Vec<usize> = Vec::new();
    let mut i: usize = 0;
    while i < fields.len()
        invariant
            i <= fields@.len(),
            forall|a: int, b: int| 0 <= a < b < out@.len() ==> #[trigger] out@[a] < #[trigger] out@[b],
            forall|t: int| #![trigger out@[t]] 0 <= t < out@.len() ==> out@[t] < i && spec_is_computed(fields@, out@[t] as int),
            forall|c: int| 0 <= c < i && #[trigger] spec_is_computed(fields@, c) ==> out@.contains(c as usize),
        decreases fields.len() - i,
    {
        let ghost before = out@;
        if fields[i].kind.computed().is_some() {
            out.push(i);
        }
        proof {
            assert forall|c: int| 0 <= c < i + 1 && #[trigger] spec_is_computed(fields@, c) implies out@.contains(c as usize) by {
                if c == i {
                    assert(out@.last() == i);
                } else {
                    let q = choose|q: int| 0 <= q < before.len() && before[q] == c as usize;
                    assert(out@[q] == c as usize);
                }
            }
        }
        i = i + 1;
    }
    out
}

fn dependencies_of(fields: &Vec<Field>, i: usize) -> (r: Result<Vec<usize>, ErrorKind>)
    requires
        spec_is_computed(fields@, i as int),
    ensures
        match spec_names_of(fields@, i as int) {
            Err(k) => r == Err::<Vec<usize>, ErrorKind>(k),
            Ok(_) => r matches Ok(v) && (forall|e: int| 0 <= e < v@.len() ==> spec_depends_on(fields@, i as int, #[trigger] v@[e] as int) && spec_is_computed(fields@, v@[e] as int))
                && (forall|j: int| #[trigger] spec_depends_on(fields@, i as int, j) ==> v@.contains(j as usize)),
        },
{
    let c = match fields[i].kind.computed() {
        Some(c) => c,
        None => return Ok(Vec::new()),
    };
    proof {
        reveal(spec_names_of);
    }
    let names = computed_dependency_names(&c.expression, &fields[i].name, fields)?;
    let ghost ns = spec_names_of(fields@, i as int)->Ok_0;
    let mut mine: Vec<usize> = Vec::new();
    let mut k: usize = 0;
    while k < names.len()
        invariant
            names@.len() == ns.len(),
            forall|m: int| #![trigger names@[m]] 0 <= m < ns.len() ==> names@[m]@ == ns[m],
            k <= names@.len(),
            forall|e: int| #![trigger mine@[e]] 0 <= e < mine@.len() ==> spec_is_computed(fields@, mine@[e] as int) && exists|m: int| 0 <= m < k && #[trigger] spec_field_index(fields@, ns[m]) == Some(mine@[e] as int),
            forall|m: int| #![trigger ns[m]] 0 <= m < k ==> match spec_field_index(fields@, ns[m]) {
                Some(j) => spec_is_computed(fields@, j) ==> mine@.contains(j as usize),
                None => true,
            },
        decreases names.len() - k,
    {
        let ghost before = mine@;
        match find_field(fields, &names[k]) {
            Some(j) => {
                if fields[j].kind.computed().is_some() {
                    mine.push(j);
                }
            },
            None => {},
        }
        proof {
            assert forall|e: int| #![trigger mine@[e]] 0 <= e < mine@.len() implies spec_is_computed(fields@, mine@[e] as int) && exists|m: int| 0 <= m < k + 1 && #[trigger] spec_field_index(fields@, ns[m]) == Some(mine@[e] as int) by {
                if e < before.len() {
                    assert(mine@[e] == before[e]);
                    let m = choose|m: int| 0 <= m < k && #[trigger] spec_field_index(fields@, ns[m]) == Some(before[e] as int);
                    assert(spec_field_index(fields@, ns[m]) == Some(mine@[e] as int));
                } else {
                    assert(spec_field_index(fields@, ns[k as int]) == Some(mine@[e] as int));
                }
            }
            assert forall|m: int| #![trigger ns[m]] 0 <= m < k + 1 implies match spec_field_index(fields@, ns[m]) {
                Some(j) => spec_is_computed(fields@, j) ==> mine@.contains(j as usize),
                None => true,
            } by {
                if m < k {
                    match spec_field_index(fields@, ns[m]) {
                        Some(j) => if spec_is_computed(fields@, j) {
                            let q = choose|q: int| 0 <= q < before.len() && before[q] == j as usize;
                            assert(mine@[q] == j as usize);
                        },
                        None => {},
                    }
                } else {
                    match spec_field_index(fields@, ns[m]) {
                        Some(j) => if spec_is_computed(fields@, j) {
                            assert(mine@.last() == j as usize);
                        },
                        None => {},
                    }
                }
            }
        }
        k = k + 1;
    }
    proof {
        reveal(spec_depends_on);
        assert forall|e: int| 0 <= e < mine@.len() implies spec_depends_on(fields@, i as int, #[trigger] mine@[e] as int) && spec_is_computed(fields@, mine@[e] as int) by {
            let m = choose|m: int| 0 <= m < k && #[trigger] spec_field_index(fields@, ns[m]) == Some(mine@[e] as int);
            assert(ns[m] == ns[m]);
        }
        assert forall|j: int| #[trigger] spec_depends_on(fields@, i as int, j) implies mine@.contains(j as usize) by {
            let m = choose|m: int| #![trigger ns[m]] 0 <= m < ns.len() && spec_field_index(fields@, ns[m]) == Some(j);
            assert(ns[m] == ns[m]);
        }
    }
    Ok(mine)
}

fn first_ready(
    fields: &Vec<Field>,
    computed: &Vec<usize>,
    deps: &Vec<Vec<usize>>,
    remaining: &Vec<bool>,
    Ghost(order): Ghost<Seq<usize>>,
) -> (r: Option<usize>)
    requires
        fields@.len() <= usize::MAX,
        spec_computed_list(fields@, computed@),
        spec_deps_table(fields@, computed@, deps@),
        spec_remaining(fields@, remaining@, order),
    ensures
        r matches Some(c) ==> spec_ready(fields@, order, c as int) && forall|c2: int| 0 <= c2 < c ==> !#[trigger] spec_ready(fields@, order, c2),
        r is None ==> forall|c2: int| !#[trigger] spec_ready(fields@, order, c2),
{
    let mut t: usize = 0;
    while t < computed.len()
        invariant
            fields@.len() <= usize::MAX,
            spec_computed_list(fields@, computed@),
            spec_deps_table(fields@, computed@, deps@),
            spec_remaining(fields@, remaining@, order),
            t <= computed@.len(),
            forall|t2: int| 0 <= t2 < t ==> !spec_ready(fields@, order, #[trigger] computed@[t2] as int),
        decreases computed.len() - t,
    {
        let c = computed[t];
        assert(spec_is_computed(fields@, c as int));
        if remaining[c] {
            let mut ready = true;
            let mut d: usize = 0;
            while d < deps[t].len()
                invariant
                    spec_deps_table(fields@, computed@, deps@),
                    spec_remaining(fields@, remaining@, order),
                    t < computed@.len(),
                    c == computed@[t as int],
                    d <= deps@[t as int]@.len(),
                    ready ==> forall|e: int| 0 <= e < d ==> order.contains(#[trigger] deps@[t as int]@[e]),
                    !ready ==> exists|e: int| 0 <= e < deps@[t as int]@.len() && !order.contains(#[trigger] deps@[t as int]@[e]),
                decreases deps@[t as int]@.len() - d,
            {
                let j = deps[t][d];
                assert(spec_depends_on(fields@, c as int, j as int));
                if remaining[j] {
                    ready = false;
                }
                d = d + 1;
            }
            if ready {
                proof {
                    assert forall|j: int| #[trigger] spec_depends_on(fields@, c as int, j) implies order.contains(j as usize) by {
                        assert(deps@[t as int]@.contains(j as usize));
                        let e = choose|e: int| 0 <= e < deps@[t as int]@.len() && deps@[t as int]@[e] == j as usize;
                        assert(order.contains(deps@[t as int]@[e]));
                    }
                    assert forall|c2: int| 0 <= c2 < c implies !#[trigger] spec_ready(fields@, order, c2) by {
                        if spec_ready(fields@, order, c2) {
                            let t2 = choose|t2: int| 0 <= t2 < computed@.len() && computed@[t2] == c2 as usize;
                            if t2 >= t {
                                if t2 > t {
                                    assert(computed@[t as int] < computed@[t2]);
                                }
                            } else {
                                assert(!spec_ready(fields@, order, computed@[t2] as int));
                            }
                        }
                    }
                }
                return Some(c);
            } else {
                proof {
                    let e = choose|e: int| 0 <= e < deps@[t as int]@.len() && !order.contains(#[trigger] deps@[t as int]@[e]);
                    assert(spec_depends_on(fields@, c as int, deps@[t as int]@[e] as int));
                }
            }
        }
        t = t + 1;
    }
    proof {
        assert forall|c2: int| !#[trigger] spec_ready(fields@, order, c2) by {
            if spec_ready(fields@, order, c2) {
                let t2 = choose|t2: int| 0 <= t2 < computed@.len() && computed@[t2] == c2 as usize;
                assert(computed@[t2] as int == c2);
                assert(!spec_ready(fields@, order, computed@[t2] as int));
            }
        }
    }
    None
}

fn first_remaining(fields: &Vec<Field>, computed: &Vec<usize>, remaining: &Vec<bool>, Ghost(order): Ghost<Seq<usize>>) -> (r: Option<usize>)
    requires
        fields@.len() <= usize::MAX,
        spec_computed_list(fields@, computed@),
        spec_remaining(fields@, remaining@, order),
    ensures
        r matches Some(c) ==> spec_is_computed(fields@, c as int) && !order.contains(c) && forall|c2: int| 0 <= c2 < c && #[trigger] spec_is_computed(fields@, c2) ==> order.contains(c2 as usize),
        r is None ==> spec_covers(fields@, order),
{
    let mut u: usize = 0;
    while u < computed.len()
        invariant
            fields@.len() <= usize::MAX,
            spec_computed_list(fields@, computed@),
            spec_remaining(fields@, remaining@, order),
            u <= computed@.len(),
            forall|t2: int| 0 <= t2 < u ==> order.contains(#[trigger] computed@[t2]),
        decreases computed.len() - u,
    {
        let c = computed[u];
        assert(spec_is_computed(fields@, c as int));
        if remaining[c] {
            proof {
                assert forall|c2: int| 0 <= c2 < c && #[trigger] spec_is_computed(fields@, c2) implies order.contains(c2 as usize) by {
                    let t2 = choose|t2: int| 0 <= t2 < computed@.len() && computed@[t2] == c2 as usize;
                    if t2 >= u {
                        if t2 > u {
                            assert(computed@[u as int] < computed@[t2]);
                        }
                    } else {
                        assert(order.contains(computed@[t2]));
                    }
                }
            }
            return Some(c);
        }
        u = u + 1;
    }
    proof {
        assert forall|c: int| #[trigger] spec_is_computed(fields@, c) implies order.contains(c as usize) by {
            let t2 = choose|t2: int| 0 <= t2 < computed@.len() && computed@[t2] == c as usize;
            assert(order.contains(computed@[t2]));
        }
    }
    None
}

/// The order in which computed fields run: always the first ready field
/// next. Refused when a callback's arguments are, or when the remaining
/// fields all wait on one another.
pub fn validate_computed_dependencies(fields: &Vec<Field>) -> (r: Result<Vec<usize>, SchemaError>)
    ensures
        match spec_names_check(fields@, fields@.len()) {
            Some((c, k)) => r == Err::<Vec<usize>, SchemaError>(
                SchemaError { field: Some(c as usize), kind: k, subject: None },
            ),
            None => match r {
                Ok(order) => spec_greedy(fields@, order@) && spec_covers(fields@, order@),
                Err(e) => e.kind == ErrorKind::ComputedCycle && e.subject is None && e.field is Some && exists|done: Seq<usize>|
                    spec_greedy(fields@, done) && spec_stuck(fields@, done, e.field->Some_0 as int),
            },
        },
{
    let computed = computed_fields(fields);
    assert(fields@.len() <= usize::MAX) by {
        assert(fields@.len() == fields.len());
    }
    let mut deps: Vec<Vec<usize>> = Vec::new();
    let mut t: usize = 0;
    while t < computed.len()
        invariant
            fields@.len() <= usize::MAX,
            spec_computed_list(fields@, computed@),
            fields@.len() <= usize::MAX,
            t <= computed@.len(),
            deps@.len() == t,
            forall|t2: int, e: int| 0 <= t2 < t && 0 <= e < deps@[t2]@.len() ==> spec_depends_on(fields@, computed@[t2] as int, #[trigger] deps@[t2]@[e] as int) && spec_is_computed(fields@, deps@[t2]@[e] as int),
            forall|t2: int, j: int| 0 <= t2 < t && #[trigger] spec_depends_on(fields@, computed@[t2] as int, j) ==> deps@[t2]@.contains(j as usize),
            forall|c: int| 0 <= c < fields@.len() && (t < computed@.len() ==> c < computed@[t as int]) && spec_is_computed(fields@, c) ==> #[trigger] spec_names_of(fields@, c) is Ok,
        decreases computed.len() - t,
    {
        let c = computed[t];
        assert(spec_is_computed(fields@, c as int));
        match dependencies_of(fields, c) {
            Ok(mine) => {
                deps.push(mine);
            },
            Err(k) => {
                proof {
                    lemma_names_check_first(fields@, c as int, k);
                }
                return Err(SchemaError { field: Some(c), kind: k, subject: None });
            },
        }
        proof {
            if t + 1 < computed@.len() {
                assert(computed@[t as int] < computed@[t + 1]);
            }
            assert forall|c2: int| 0 <= c2 < fields@.len() && (t + 1 < computed@.len() ==> c2 < computed@[t + 1]) && spec_is_computed(fields@, c2) implies #[trigger] spec_names_of(fields@, c2) is Ok by {
                if c2 > c {
                    let t2 = choose|t2: int| 0 <= t2 < computed@.len() && computed@[t2] == c2 as usize;
                    if t2 <= t {
                        if t2 < t {
                            assert(computed@[t2] < computed@[t as int]);
                        }
                    } else if t2 > t + 1 {
                        assert(computed@[t + 1] < computed@[t2]);
                    }
                }
            }
        }
        t = t + 1;
    }
    proof {
        lemma_names_check_none(fields@, fields@.len());
    }
    let mut remaining: Vec<bool> = Vec::new();
    let mut q: usize = 0;
    while q < fields.len()
        invariant
            q <= fields@.len(),
            fields@.len() <= usize::MAX,
            remaining@.len() == q,
            forall|c: int| 0 <= c < q ==> #[trigger] remaining@[c] == spec_is_computed(fields@, c),
        decreases fields.len() - q,
    {
        remaining.push(fields[q].kind.computed().is_some());
        q = q + 1;
    }
    let mut order: Vec<usize> = Vec::new();
    proof {
        assert(computed@.no_duplicates()) by {
            assert forall|a: int, b: int| 0 <= a < computed@.len() && 0 <= b < computed@.len() && a != b implies computed@[a] != computed@[b] by {
                if a < b {
                    assert(computed@[a] < computed@[b]);
                } else {
                    assert(computed@[b] < computed@[a]);
                }
            }
        }
        computed@.unique_seq_to_set();
    }
    loop
        invariant
            fields@.len() <= usize::MAX,
            spec_computed_list(fields@, computed@),
            spec_deps_table(fields@, computed@, deps@),
            spec_remaining(fields@, remaining@, order@),
            computed@.to_set().len() == computed@.len(),
            spec_greedy(fields@, order@),
            order@.no_duplicates(),
            forall|p: int| #![trigger order@[p]] 0 <= p < order@.len() ==> spec_is_computed(fields@, order@[p] as int),
            order@.len() <= computed@.len(),
            spec_names_check(fields@, fields@.len()) is None,
        decreases computed@.len() - order@.len(),
    {
        match first_ready(fields, &computed, &deps, &remaining, Ghost(order@)) {
            Some(c) => {
                proof {
                    let done = order@.to_set().insert(c);
                    assert forall|x: usize| done.contains(x) implies computed@.to_set().contains(x) by {
                        if x != c {
                            let p = choose|p: int| 0 <= p < order@.len() && order@[p] == x;
                            assert(spec_is_computed(fields@, order@[p] as int));
                        }
                        assert(computed@.contains(x));
                    }
                    order@.unique_seq_to_set();
                    vstd::set_lib::lemma_len_subset(done, computed@.to_set());
                }
                let ghost old_rem = remaining@;
                remaining.set(c, false);
                let ghost before = order@;
                order.push(c);
                proof {
                    assert forall|p: int| #![trigger order@[p]] 0 <= p < order@.len() implies spec_ready(fields@, order@.take(p), order@[p] as int) && forall|c2: int|
                        0 <= c2 < order@[p] ==> !#[trigger] spec_ready(fields@, order@.take(p), c2) by {
                        lemma_push_take(before, c, p);
                        if p < before.len() {
                            assert(before[p] == order@[p]);
                        } else {
                            assert(order@.take(p) == before);
                        }
                    }
                    assert forall|x: int| 0 <= x < fields@.len() implies #[trigger] remaining@[x] == (spec_is_computed(fields@, x) && !order@.contains(x as usize)) by {
                        if x != c {
                            assert(remaining@[x] == old_rem[x]);
                            if order@.contains(x as usize) {
                                let p = choose|p: int| 0 <= p < order@.len() && order@[p] == x as usize;
                                assert(before[p] == x as usize);
                            }
                            if before.contains(x as usize) {
                                let p = choose|p: int| 0 <= p < before.len() && before[p] == x as usize;
                                assert(order@[p] == x as usize);
                            }
                        } else {
                            assert(order@[before.len() as int] == c);
                        }
                    }
                    assert forall|a: int, b: int| 0 <= a < order@.len() && 0 <= b < order@.len() && a != b implies order@[a] != order@[b] by {
                        if a < before.len() && b < before.len() {
                            assert(before[a] != before[b]);
                        }
                    }
                }
            },
            None => {
                match first_remaining(fields, &computed, &remaining, Ghost(order@)) {
                    Some(first) => {
                        assert(spec_stuck(fields@, order@, first as int));
                        return Err(
                            SchemaError { field: Some(first), kind: ErrorKind::ComputedCycle, subject: None },
                        );
                    },
                    None => {
                        return Ok(order);
                    },
                }
            },
        }
    }
}

proof fn lemma_names_check_first(fields: Seq<Field>, c: int, k: ErrorKind)
    requires
        spec_is_computed(fields, c),
        spec_names_of(fields, c) == Err::<Seq<Seq<char>>, ErrorKind>(k),
        forall|c2: int| 0 <= c2 < c && spec_is_computed(fields, c2) ==> #[trigger] spec_names_of(fields, c2) is Ok,
    ensures
        spec_names_check(fields, fields.len()) == Some((c, k)),
{
    lemma_names_check_prefix_none(fields, c as nat);
    assert(spec_names_check(fields, (c + 1) as nat) == Some((c, k)));
    lemma_names_check_stays(fields, (c + 1) as nat, c, k);
}

proof fn lemma_names_check_prefix_none(fields: Seq<Field>, m: nat)
    requires
        m <= fields.len(),
        forall|c2: int| 0 <= c2 < m && spec_is_computed(fields, c2) ==> #[trigger] spec_names_of(fields, c2) is Ok,
    ensures
        spec_names_check(fields, m) is None,
    decreases m,
{
    if m > 0 {
        lemma_names_check_prefix_none(fields, (m - 1) as nat);
    }
}

proof fn lemma_names_check_none(fields: Seq<Field>, m: nat)
    requires
        m <= fields.len(),
        forall|c2: int| 0 <= c2 < fields.len() && spec_is_computed(fields, c2) ==> #[trigger] spec_names_of(fields, c2) is Ok,
    ensures
        spec_names_check(fields, m) is None,
{
    lemma_names_check_prefix_none(fields, m);
}

proof fn lemma_names_check_stays(fields: Seq<Field>, m: nat, c: int, k: ErrorKind)
    requires
        m <= fields.len(),
        spec_names_check(fields, m) == Some((c, k)),
    ensures
        spec_names_check(fields, fields.len()) == Some((c, k)),
    decreases fields.len() - m,
{
    if m < fields.len() {
        lemma_names_check_stays(fields, m + 1, c, k);
    }
}

/// What a callback reads among the computed fields is computed.
pub proof fn lemma_dependency_is_computed(fields: Seq<Field>, i: int, j: int)
    requires
        spec_depends_on(fields, i, j),
    ensures
        spec_is_computed(fields, j),
{
    reveal(spec_depends_on);
}

/// Every computed field runs after each computed field its callback reads.
pub proof fn law_schedule_respects_dependencies(fields: Seq<Field>, order: Seq<usize>, p: int, j: int)
    requires
        fields.len() <= usize::MAX,
        spec_greedy(fields, order),
        0 <= p < order.len(),
        spec_depends_on(fields, order[p] as int, j),
    ensures
        exists|q: int| 0 <= q < p && order[q] as int == j,
{
    lemma_dependency_is_computed(fields, order[p] as int, j);
    assert(spec_ready(fields, order.take(p), order[p] as int));
    assert(order.take(p).contains(j as usize));
    let q = choose|q: int| 0 <= q < order.take(p).len() && order.take(p)[q] == j as usize;
    assert(order[q] == j as usize);
    assert(order[q] as int == j);
}

/// A schedule runs each computed field once, and nothing else.
pub proof fn law_schedule_is_permutation(fields: Seq<Field>, order: Seq<usize>)
    requires
        spec_greedy(fields, order),
        spec_covers(fields, order),
    ensures
        order.no_duplicates(),
        forall|p: int| 0 <= p < order.len() ==> spec_is_computed(fields, #[trigger] order[p] as int),
        forall|c: int| #[trigger] spec_is_computed(fields, c) ==> order.contains(c as usize),
{
    assert forall|a: int, b: int| 0 <= a < order.len() && 0 <= b < order.len() && a != b implies order[a] != order[b] by {
        if a < b {
            assert(spec_ready(fields, order.take(b), order[b] as int));
            assert(order.take(b)[a] == order[a]);
        } else {
            assert(spec_ready(fields, order.take(a), order[a] as int));
            assert(order.take(a)[b] == order[b]);
        }
    }
    assert forall|p: int| 0 <= p < order.len() implies spec_is_computed(fields, #[trigger] order[p] as int) by {
        assert(spec_ready(fields, order.take(p), order[p] as int));
    }
}

/// When the schedule is refused, each computed field it could not run reads
/// another such field: their dependencies form a cycle.
pub proof fn law_refused_schedule_has_cycle(fields: Seq<Field>, done: Seq<usize>, first: int, c: int)
    requires
        spec_stuck(fields, done, first),
        spec_is_computed(fields, c),
        !done.contains(c as usize),
    ensures
        exists|j: int|
            spec_depends_on(fields, c, j) && spec_is_computed(fields, j) && !done.contains(j as usize),
{
    assert(!spec_ready(fields, done, c));
    let j = choose|j: int| #[trigger] spec_depends_on(fields, c, j) && !done.contains(j as usize);
    lemma_dependency_is_computed(fields, c, j);
}

/// Whether computed field `c` reads a member of `cycle`.
#[verifier::opaque]
pub open spec fn spec_reads_member(fields: Seq<Field>, cycle: Set<int>, c: int) -> bool {
    exists|j: int| cycle.contains(j) && spec_depends_on(fields, c, j)
}

proof fn lemma_member_read(fields: Seq<Field>, cycle: Set<int>, c: int) -> (j: int)
    requires
        spec_reads_member(fields, cycle, c),
    ensures
        cycle.contains(j) && spec_depends_on(fields, c, j),
{
    reveal(spec_reads_member);
    choose|j: int| cycle.contains(j) && spec_depends_on(fields, c, j)
}

/// No schedule exists for computed fields that each read another of them: a
/// set of computed fields each of which reads a member of the set is empty
/// whenever all computed fields can be scheduled.
pub proof fn law_schedule_excludes_cycles(fields: Seq<Field>, order: Seq<usize>, cycle: Set<int>)
    requires
        fields.len() <= usize::MAX,
        spec_greedy(fields, order),
        spec_covers(fields, order),
        forall|c: int| #[trigger] cycle.contains(c) ==> spec_is_computed(fields, c),
        forall|c: int| #[trigger] cycle.contains(c) ==> spec_reads_member(fields, cycle, c),
    ensures
        cycle.is_empty(),
{
    if !cycle.is_empty() {
        let c0 = cycle.choose();
        assert(spec_is_computed(fields, c0));
        assert(order.contains(c0 as usize));
        let first_pos = lemma_first_member(order, cycle, c0);
        let c = order[first_pos] as int;
        assert(cycle.contains(c));
        assert(spec_reads_member(fields, cycle, c));
        let j = lemma_member_read(fields, cycle, c);
        law_schedule_respects_dependencies(fields, order, first_pos, j);
        let q = choose|q: int| 0 <= q < first_pos && order[q] as int == j;
        assert(!cycle.contains(order[q] as int));
    }
}

proof fn lemma_first_member(order: Seq<usize>, cycle: Set<int>, c0: int) -> (p: int)
    requires
        cycle.contains(c0),
        order.contains(c0 as usize),
        0 <= c0 <= usize::MAX,
    ensures
        0 <= p < order.len(),
        cycle.contains(order[p] as int),
        forall|q: int| 0 <= q < p ==> !cycle.contains(#[trigger] order[q] as int),
{
    let p0 = choose|p: int| 0 <= p < order.len() && order[p] == c0 as usize;
    lemma_first_member_below(order, cycle, p0)
}

proof fn lemma_first_member_below(order: Seq<usize>, cycle: Set<int>, p0: int) -> (p: int)
    requires
        0 <= p0 < order.len(),
        cycle.contains(order[p0] as int),
    ensures
        0 <= p <= p0,
        cycle.contains(order[p] as int),
        forall|q: int| 0 <= q < p ==> !cycle.contains(#[trigger] order[q] as int),
    decreases p0,
{
    if exists|q: int| 0 <= q < p0 && cycle.contains(#[trigger] order[q] as int) {
        let q = choose|q: int| 0 <= q < p0 && cycle.contains(#[trigger] order[q] as int);
        lemma_first_member_below(order, cycle, q)
    } else {
        p0
    }
}

/// The field names along a selection path, base first.
pub open spec fn spec_collect_path(e: WireExpr) -> Result<Seq<Seq<char>>, ErrorKind>
    decreases e,
{
    match e.form {
        ExprForm::Path(p) => match spec_simple_name(p) {
            Ok(s) => Ok(seq![s@]),
            Err(k) => Err(k),
        },
        ExprForm::Field { base, member } => match spec_collect_path(*base) {
            Err(k) => Err(k),
            Ok(path) => match member {
                Member::Named(n) => Ok(path.push(n@)),
                Member::Unnamed => Err(ErrorKind::SelectionNamedFields),
            },
        },
        _ => Err(ErrorKind::SelectionPhysicalPaths),
    }
}

fn collect_path(e: &WireExpr, out: &mut Vec<String>)
    -> (r: Result<(), ErrorKind>)
    ensures
        match spec_collect_path(*e) {
            Ok(path) => r is Ok && names(final(out)@) == names(old(out)@) + path,
            Err(k) => r == Err::<(), ErrorKind>(k),
        },
    decreases e,
{
    match &e.form {
        ExprForm::Path(p) => {
            let name = simple_computed_name(p)?;
            let ghost before = out@;
            out.push(name.clone());
            proof {
                lemma_names_push(before, *name);
                assert(names(out@) =~= names(before) + seq![name@]);
            }
            Ok(())
        },
        ExprForm::Field { base, member } => {
            let ghost start = out@;
            collect_path(base, out)?;
            match member {
                Member::Named(n) => {
                    let ghost before = out@;
                    out.push(n.clone());
                    proof {
                        lemma_names_push(before, *n);
                        let path = spec_collect_path(**base)->Ok_0;
                        assert(names(out@) =~= names(start) + path.push(n@));
                    }
                    Ok(())
                },
                Member::Unnamed => Err(ErrorKind::SelectionNamedFields),
            }
        },
        _ => Err(ErrorKind::SelectionPhysicalPaths),
    }
}

/// The selection path an argument of `include(..)` or `exclude(..)` names:
/// `self` alone stands for the destination; `self` elsewhere is refused.
pub open spec fn spec_selection_path(e: WireExpr, destination: Seq<char>) -> Result<Seq<Seq<char>>, ErrorKind> {
    match spec_collect_path(e) {
        Err(k) => Err(k),
        Ok(path) => if path.len() == 1 && path[0] == self_name() {
            Ok(seq![destination])
        } else if path.contains(self_name()) {
            Err(ErrorKind::SelfNotRoot)
        } else {
            Ok(path)
        },
    }
}

/// The field names along a selection path, base first.
pub fn selection_path(e: &WireExpr, destination: &String) -> (r: Result<Vec<String>, ErrorKind>)
    ensures
        match spec_selection_path(*e, destination@) {
            Ok(path) => r matches Ok(v) && names(v@) == path,
            Err(k) => r == Err::<Vec<String>, ErrorKind>(k),
        },
{
    proof {
        reveal_strlit("self");
    }
    assert("self"@ =~= self_name());
    let mut path: Vec<String> = Vec::new();
    assert(names(path@) =~= Seq::<Seq<char>>::empty());
    collect_path(e, &mut path)?;
    assert(names(path@) =~= spec_collect_path(*e)->Ok_0);
    if path.len() == 1 && text_is(path[0].as_str(), "self") {
        let mut v: Vec<String> = Vec::new();
        v.push(destination.clone());
        assert(names(v@) =~= seq![destination@]);
        return Ok(v);
    }
    let self_text = String::from_str("self");
    if contains_name(&path, &self_text) {
        return Err(ErrorKind::SelfNotRoot);
    }
    Ok(path)
}

/// Whether a computed callback reads the view: every callback but a call
/// with no arguments does.
pub fn requires_view(computed: &Computed) -> (r: bool)
    ensures
        r == !(computed.expression.form matches ExprForm::Call { func, args } && args@.len() == 0),
{
    match &computed.expression.form {
        ExprForm::Call { func, args } => args.len() != 0,
        _ => true,
    }
}

/// The checks on an `include(..)` / `exclude(..)` selection argument: the
/// callee is `include` or `exclude`, there is at least one path, and each is
/// a selection path.
pub open spec fn spec_selection_parts(func: WireExpr, args: Seq<WireExpr>, destination: Seq<char>) -> Result<
    (Seq<char>, Seq<Seq<Seq<char>>>),
    ErrorKind,
> {
    match func.form {
        ExprForm::Path(p) => match spec_simple_name(p) {
            Err(k) => Err(k),
            Ok(op) => if op@ != include_name() && op@ != exclude_name() {
                Err(ErrorKind::SelectionOperationRequired)
            } else if args.len() == 0 {
                Err(ErrorKind::SelectionEmpty)
            } else {
                match spec_selection_paths(args, args.len(), destination) {
                    Err(k) => Err(k),
                    Ok(paths) => Ok((op@, paths)),
                }
            },
        },
        _ => Err(ErrorKind::SelectionOperationRequired),
    }
}

/// The paths of the first `n` selection arguments, or the first refusal.
pub open spec fn spec_selection_paths(args: Seq<WireExpr>, n: nat, destination: Seq<char>) -> Result<
    Seq<Seq<Seq<char>>>,
    ErrorKind,
>
    decreases n,
{
    if n == 0 || n > args.len() {
        Ok(seq![])
    } else {
        match spec_selection_paths(args, (n - 1) as nat, destination) {
            Err(k) => Err(k),
            Ok(paths) => match spec_selection_path(args[n - 1], destination) {
                Err(k) => Err(k),
                Ok(p) => Ok(paths.push(p)),
            },
        }
    }
}

/// The operation and the paths of an `include(..)` / `exclude(..)`
/// selection, in argument order.
pub fn selection_parts(func: &WireExpr, args: &Vec<WireExpr>, destination: &String) -> (r: Result<
    (String, Vec<Vec<String>>),
    ErrorKind,
>)
    ensures
        match spec_selection_parts(*func, args@, destination@) {
            Ok((op, paths)) => r matches Ok((o, v)) && o@ == op && v@.len() == paths.len() && forall|i: int|
                0 <= i < paths.len() ==> names(#[trigger] v@[i]@) == paths[i],
            Err(k) => r == Err::<(String, Vec<Vec<String>>), ErrorKind>(k),
        },
{
    proof {
        reveal_strlit("include");
        reveal_strlit("exclude");
    }
    assert("include"@ =~= include_name());
    assert("exclude"@ =~= exclude_name());
    let op = match &func.form {
        ExprForm::Path(p) => simple_computed_name(p)?,
        _ => return Err(ErrorKind::SelectionOperationRequired),
    };
    if !text_is(op.as_str(), "include") && !text_is(op.as_str(), "exclude") {
        return Err(ErrorKind::SelectionOperationRequired);
    }
    if args.len() == 0 {
        return Err(ErrorKind::SelectionEmpty);
    }
    let mut paths: Vec<Vec<String>> = Vec::new();
    let mut i: usize = 0;
    assert(spec_selection_parts(*func, args@, destination@) == match spec_selection_paths(args@, args@.len(), destination@) {
        Err(k) => Err(k),
        Ok(ps) => Ok((op@, ps)),
    });
    while i < args.len()
        invariant
            spec_selection_parts(*func, args@, destination@) == match spec_selection_paths(args@, args@.len(), destination@) {
                Err(k) => Err(k),
                Ok(ps) => Ok((op@, ps)),
            },
            i <= args@.len(),
            spec_selection_paths(args@, i as nat, destination@) matches Ok(ps) && ps.len() == paths@.len()
                && forall|j: int| 0 <= j < ps.len() ==> names(#[trigger] paths@[j]@) == ps[j],
        decreases args.len() - i,
    {
        match selection_path(&args[i], destination) {
            Ok(p) => {
                let ghost before = paths@;
                paths.push(p);
                proof {
                    let ps = spec_selection_paths(args@, i as nat, destination@)->Ok_0;
                    assert forall|j: int| 0 <= j < ps.len() + 1 implies names(#[trigger] paths@[j]@) == ps.push(
                        spec_selection_path(args@[i as int], destination@)->Ok_0,
                    )[j] by {
                        if j < ps.len() {
                            assert(paths@[j] == before[j]);
                        }
                    }
                }
            },
            Err(k) => {
                proof {
                    lemma_selection_paths_stays(args@, (i + 1) as nat, args@.len(), destination@);
                }
                return Err(k);
            },
        }
        i = i + 1;
    }
    Ok((op.clone(), paths))
}

proof fn lemma_selection_paths_stays(args: Seq<WireExpr>, m: nat, n: nat, destination: Seq<char>)
    requires
        m <= n <= args.len(),
        spec_selection_paths(args, m, destination) is Err,
    ensures
        spec_selection_paths(args, n, destination) == spec_selection_paths(args, m, destination),
    decreases n - m,
{
    if m < n {
        lemma_selection_paths_stays(args, m, (n - 1) as nat, destination);
    }
}

/// The error variant of a computed field's callback failure: the field's
/// `PascalCase` name followed by `Computed`.
pub fn computed_error_ident(field: &String) -> (r: String)
    ensures
        r@ == spec_pascal(spec_unraw(field@)) + "Computed"@,
{
    concat(pascal(field.as_str()).as_str(), "Computed")
}

} // verus!
