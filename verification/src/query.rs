//! The parsed query document: selection trees, named fragments, and the
//! expansion of fragment spreads into inline fragments.

use vstd::prelude::*;
use crate::store::{StoreVal, SVal};
use crate::errors::{ErrV, QueryExecutionError};

verus! {

broadcast use vstd::std_specs::vec::axiom_vec_index_decreases, vstd::seq::axiom_seq_index_decreases;

/// One named argument of a requested field.
pub struct Argument {
    pub name: String,
    pub value: StoreVal,
}

/// A requested field: optional alias, name, arguments, and its nested
/// selection set.
pub struct FieldSel {
    pub alias: Option<String>,
    pub name: String,
    pub arguments: Vec<Argument>,
    pub selection_set: Vec<Selection>,
}

/// One member of a selection set.
pub enum Selection {
    Field(FieldSel),
    /// A type-conditioned (or unconditioned) sub-selection.
    InlineFragment(Option<String>, Vec<Selection>),
    /// A spread of a named fragment.
    FragmentSpread(String),
}

/// A reusable named fragment with its type condition.
pub struct FragmentDef {
    pub name: String,
    pub type_condition: String,
    pub selection_set: Vec<Selection>,
}

/// A parsed query document: the operation's selection set and the named
/// fragments it may spread.
pub struct Document {
    pub selections: Vec<Selection>,
    pub fragments: Vec<FragmentDef>,
}

/// The mathematical model of a requested field.
#[verifier::ext_equal]
pub struct FieldSelS {
    pub alias: Option<Seq<char>>,
    pub name: Seq<char>,
    pub arguments: Seq<(Seq<char>, SVal)>,
    pub selection_set: Seq<SelS>,
}

/// The mathematical model of a selection.
#[verifier::ext_equal]
pub enum SelS {
    Field(FieldSelS),
    InlineFragment(Option<Seq<char>>, Seq<SelS>),
    FragmentSpread(Seq<char>),
}

pub open spec fn alias_view(a: Option<String>) -> Option<Seq<char>> {
    match a {
        Some(s) => Some(s@),
        None => None,
    }
}

pub open spec fn args_view(args: Vec<Argument>) -> Seq<(Seq<char>, SVal)> {
    Seq::new(args@.len(), |i: int| (args@[i].name@, args@[i].value@))
}

/// The model of a requested field.
pub open spec fn fieldsel_view(fs: FieldSel) -> FieldSelS
    decreases fs, 0int,
{
    FieldSelS {
        alias: alias_view(fs.alias),
        name: fs.name@,
        arguments: args_view(fs.arguments),
        selection_set: sels_view_upto(fs.selection_set, fs.selection_set.len() as int),
    }
}

/// The model of a selection.
pub open spec fn sel_view(s: Selection) -> SelS
    decreases s, 0int,
{
    match s {
        Selection::Field(fs) => SelS::Field(fieldsel_view(fs)),
        Selection::InlineFragment(cond, body) => SelS::InlineFragment(
            alias_view(cond),
            sels_view_upto(body, body.len() as int),
        ),
        Selection::FragmentSpread(name) => SelS::FragmentSpread(name@),
    }
}

/// The models of the first `n` selections.
pub open spec fn sels_view_upto(v: Vec<Selection>, n: int) -> Seq<SelS>
    decreases v, n,
{
    if n <= 0 || n > v.len() {
        Seq::empty()
    } else {
        sels_view_upto(v, n - 1).push(sel_view(v[n - 1]))
    }
}

pub open spec fn sels_view(v: Vec<Selection>) -> Seq<SelS> {
    sels_view_upto(v, v.len() as int)
}

pub proof fn lemma_sels_view_upto(v: Vec<Selection>, n: int)
    requires
        0 <= n <= v.len(),
    ensures
        sels_view_upto(v, n).len() == n,
        forall|k: int| 0 <= k < n ==> sels_view_upto(v, n)[k] == sel_view(v@[k]),
    decreases n,
{
    if n > 0 {
        lemma_sels_view_upto(v, n - 1);
    }
}

pub proof fn lemma_sels_view(v: Vec<Selection>)
    ensures
        sels_view(v).len() == v@.len(),
        forall|k: int| 0 <= k < v@.len() ==> sels_view(v)[k] == sel_view(v@[k]),
{
    lemma_sels_view_upto(v, v.len() as int);
}

/// A copy of the arguments with the same model.
pub fn duplicate_args(args: &Vec<Argument>) -> (r: Vec<Argument>)
    ensures
        args_view(r) == args_view(*args),
{
    let mut r: Vec<Argument> = Vec::new();
    let mut i: usize = 0;
    while i < args.len()
        invariant
            i <= args.len(),
            r@.len() == i as int,
            forall|k: int|
                0 <= k < i as int ==> (#[trigger] r@[k]).name@ == args@[k].name@ && r@[k].value@
                    == args@[k].value@,
        decreases args.len() - i,
    {
        r.push(Argument { name: args[i].name.clone(), value: args[i].value.duplicate() });
        i += 1;
    }
    assert(args_view(r) =~= args_view(*args));
    r
}

/// A copy of an optional name with the same model.
pub fn duplicate_alias(a: &Option<String>) -> (r: Option<String>)
    ensures
        alias_view(r) == alias_view(*a),
{
    match a {
        Some(s) => Some(s.clone()),
        None => None,
    }
}

/// A copy of a selection with the same model.
pub fn duplicate_sel(s: &Selection) -> (r: Selection)
    ensures
        sel_view(r) == sel_view(*s),
    decreases *s, 0int,
{
    match s {
        Selection::Field(fs) => {
            let sub = duplicate_sels(&fs.selection_set);
            proof {
                lemma_sels_view(sub);
                lemma_sels_view(fs.selection_set);
                assert(sels_view(sub) =~= sels_view(fs.selection_set));
            }
            let r = Selection::Field(
                FieldSel {
                    alias: duplicate_alias(&fs.alias),
                    name: fs.name.clone(),
                    arguments: duplicate_args(&fs.arguments),
                    selection_set: sub,
                },
            );
            proof {
                assert(sel_view(r) =~= sel_view(*s));
            }
            r
        },
        Selection::InlineFragment(cond, body) => {
            let sub = duplicate_sels(body);
            proof {
                lemma_sels_view(sub);
                lemma_sels_view(*body);
                assert(sels_view(sub) =~= sels_view(*body));
            }
            let r = Selection::InlineFragment(duplicate_alias(cond), sub);
            proof {
                assert(sel_view(r) =~= sel_view(*s));
            }
            r
        },
        Selection::FragmentSpread(name) => Selection::FragmentSpread(name.clone()),
    }
}

/// A copy of a selection list with the same models.
pub fn duplicate_sels(v: &Vec<Selection>) -> (r: Vec<Selection>)
    ensures
        r@.len() == v@.len(),
        forall|k: int| 0 <= k < v@.len() ==> sel_view(#[trigger] r@[k]) == sel_view(v@[k]),
    decreases *v, 1int,
{
    let mut r: Vec<Selection> = Vec::new();
    let mut i: usize = 0;
    while i < v.len()
        invariant
            i <= v.len(),
            r@.len() == i as int,
            forall|k: int| 0 <= k < i as int ==> sel_view(#[trigger] r@[k]) == sel_view(v@[k]),
        decreases v.len() - i,
    {
        let c = duplicate_sel(&v[i]);
        r.push(c);
        i += 1;
    }
    r
}

/// The models of the first `n` requested fields.
pub open spec fn fieldsels_view_upto(v: Vec<FieldSel>, n: int) -> Seq<FieldSelS>
    decreases n,
{
    if n <= 0 || n > v.len() {
        Seq::empty()
    } else {
        fieldsels_view_upto(v, n - 1).push(fieldsel_view(v[n - 1]))
    }
}

pub open spec fn fieldsels_view(v: Vec<FieldSel>) -> Seq<FieldSelS> {
    fieldsels_view_upto(v, v.len() as int)
}

pub proof fn lemma_fieldsels_view(v: Vec<FieldSel>)
    ensures
        fieldsels_view(v).len() == v@.len(),
        forall|k: int| 0 <= k < v@.len() ==> fieldsels_view(v)[k] == fieldsel_view(v@[k]),
{
    lemma_fieldsels_view_upto(v, v.len() as int);
}

pub proof fn lemma_fieldsels_view_upto(v: Vec<FieldSel>, n: int)
    requires
        0 <= n <= v.len(),
    ensures
        fieldsels_view_upto(v, n).len() == n,
        forall|k: int| 0 <= k < n ==> fieldsels_view_upto(v, n)[k] == fieldsel_view(v@[k]),
    decreases n,
{
    if n > 0 {
        lemma_fieldsels_view_upto(v, n - 1);
    }
}

/// Pushing one selection extends the model by its model.
pub proof fn lemma_sels_view_push(older: Vec<Selection>, newer: Vec<Selection>, x: Selection)
    requires
        newer@ == older@.push(x),
    ensures
        sels_view(newer) == sels_view(older).push(sel_view(x)),
{
    lemma_sels_view(older);
    lemma_sels_view(newer);
    assert(sels_view(newer) =~= sels_view(older).push(sel_view(x)));
}

/// Pushing one requested field extends the model by its model.
pub proof fn lemma_fieldsels_view_push(older: Vec<FieldSel>, newer: Vec<FieldSel>, x: FieldSel)
    requires
        newer@ == older@.push(x),
    ensures
        fieldsels_view(newer) == fieldsels_view(older).push(fieldsel_view(x)),
{
    lemma_fieldsels_view(older);
    lemma_fieldsels_view(newer);
    assert(fieldsels_view(newer) =~= fieldsels_view(older).push(fieldsel_view(x)));
}

/// A copy of a requested field with the same model.
pub fn duplicate_fieldsel(fs: &FieldSel) -> (r: FieldSel)
    ensures
        fieldsel_view(r) == fieldsel_view(*fs),
{
    let sub = duplicate_sels(&fs.selection_set);
    proof {
        lemma_sels_view(sub);
        lemma_sels_view(fs.selection_set);
        assert(sels_view(sub) =~= sels_view(fs.selection_set));
    }
    let r = FieldSel {
        alias: duplicate_alias(&fs.alias),
        name: fs.name.clone(),
        arguments: duplicate_args(&fs.arguments),
        selection_set: sub,
    };
    proof {
        assert(fieldsel_view(r) =~= fieldsel_view(*fs));
    }
    r
}

/// The first fragment among the first `n` with the given name.
pub open spec fn s_lookup_fragment_upto(frags: Seq<FragmentDef>, name: Seq<char>, n: int) -> Option<
    FragmentDef,
>
    decreases n,
{
    if n <= 0 || n > frags.len() {
        None
    } else if s_lookup_fragment_upto(frags, name, n - 1) is Some {
        s_lookup_fragment_upto(frags, name, n - 1)
    } else if frags[n - 1].name@ == name {
        Some(frags[n - 1])
    } else {
        None
    }
}

pub open spec fn s_lookup_fragment(frags: Seq<FragmentDef>, name: Seq<char>) -> Option<FragmentDef> {
    s_lookup_fragment_upto(frags, name, frags.len() as int)
}

pub proof fn lemma_lookup_fragment_stable(frags: Seq<FragmentDef>, name: Seq<char>, n: int)
    requires
        0 <= n <= frags.len(),
        s_lookup_fragment_upto(frags, name, n) is Some,
    ensures
        s_lookup_fragment(frags, name) == s_lookup_fragment_upto(frags, name, n),
    decreases frags.len() - n,
{
    if n < frags.len() {
        lemma_lookup_fragment_stable(frags, name, n + 1);
    }
}

/// Looks a named fragment up in the document's definitions.
pub fn find_fragment<'a>(frags: &'a Vec<FragmentDef>, name: &String) -> (r: Option<
    &'a FragmentDef,
>)
    ensures
        (match r {
            Some(f) => s_lookup_fragment(frags@, name@) == Some(*f),
            None => s_lookup_fragment(frags@, name@) is None,
        }),
{
    let mut i: usize = 0;
    while i < frags.len()
        invariant
            i <= frags.len(),
            s_lookup_fragment_upto(frags@, name@, i as int) is None,
        decreases frags.len() - i,
    {
        if frags[i].name == *name {
            assert(s_lookup_fragment_upto(frags@, name@, i + 1) == Some(frags@[i as int]));
            proof {
                lemma_lookup_fragment_stable(frags@, name@, i + 1);
            }
            return Some(&frags[i]);
        }
        i += 1;
    }
    None
}

/// What expanding one selection yields: named spreads become inline
/// fragments carrying the fragment's type condition; `fuel` bounds the
/// nesting of spreads and runs out only on a cycle.
pub open spec fn s_inline_sel(frags: Seq<FragmentDef>, s: Selection, fuel: nat) -> Result<
    SelS,
    ErrV,
>
    decreases fuel, s, 0int,
{
    match s {
        Selection::Field(fs) => {
            match s_inline_sels(frags, fs.selection_set, fuel, fs.selection_set.len() as int) {
                Ok(sub) => Ok(
                    SelS::Field(
                        FieldSelS {
                            alias: alias_view(fs.alias),
                            name: fs.name@,
                            arguments: args_view(fs.arguments),
                            selection_set: sub,
                        },
                    ),
                ),
                Err(e) => Err(e),
            }
        },
        Selection::InlineFragment(cond, body) => {
            match s_inline_sels(frags, body, fuel, body.len() as int) {
                Ok(sub) => Ok(SelS::InlineFragment(alias_view(cond), sub)),
                Err(e) => Err(e),
            }
        },
        Selection::FragmentSpread(name) => {
            match s_lookup_fragment(frags, name@) {
                None => Err(ErrV::UnknownFragment(name@)),
                Some(f) => {
                    if fuel == 0 {
                        Err(ErrV::FragmentCycle(name@))
                    } else {
                        match s_inline_sels(
                            frags,
                            f.selection_set,
                            (fuel - 1) as nat,
                            f.selection_set.len() as int,
                        ) {
                            Ok(sub) => Ok(SelS::InlineFragment(Some(f.type_condition@), sub)),
                            Err(e) => Err(e),
                        }
                    }
                },
            }
        },
    }
}

/// What expanding the first `n` selections yields; the first failure wins.
pub open spec fn s_inline_sels(frags: Seq<FragmentDef>, v: Vec<Selection>, fuel: nat, n: int) -> Result<
    Seq<SelS>,
    ErrV,
>
    decreases fuel, v, n,
{
    if n <= 0 || n > v.len() {
        Ok(Seq::empty())
    } else {
        match s_inline_sels(frags, v, fuel, n - 1) {
            Err(e) => Err(e),
            Ok(prefix) => {
                match s_inline_sel(frags, v[n - 1], fuel) {
                    Ok(s) => Ok(prefix.push(s)),
                    Err(e) => Err(e),
                }
            },
        }
    }
}

/// Expands one selection.
pub fn inline_sel(frags: &Vec<FragmentDef>, s: &Selection, fuel: u64) -> (r: Result<
    Selection,
    QueryExecutionError,
>)
    ensures
        (match r {
            Ok(out) => s_inline_sel(frags@, *s, fuel as nat) == Ok::<SelS, ErrV>(sel_view(out)),
            Err(e) => s_inline_sel(frags@, *s, fuel as nat) == Err::<SelS, ErrV>(e@),
        }),
    decreases fuel, *s, 0int,
{
    match s {
        Selection::Field(fs) => {
            match inline_sels(frags, &fs.selection_set, fuel) {
                Ok(sub) => {
                    proof {
                        lemma_sels_view(sub);
                    }
                    Ok(
                        Selection::Field(
                            FieldSel {
                                alias: duplicate_alias(&fs.alias),
                                name: fs.name.clone(),
                                arguments: duplicate_args(&fs.arguments),
                                selection_set: sub,
                            },
                        ),
                    )
                },
                Err(e) => Err(e),
            }
        },
        Selection::InlineFragment(cond, body) => {
            match inline_sels(frags, body, fuel) {
                Ok(sub) => {
                    proof {
                        lemma_sels_view(sub);
                    }
                    Ok(Selection::InlineFragment(duplicate_alias(cond), sub))
                },
                Err(e) => Err(e),
            }
        },
        Selection::FragmentSpread(name) => {
            match find_fragment(frags, name) {
                None => Err(QueryExecutionError::UnknownFragment(name.clone())),
                Some(f) => {
                    if fuel == 0 {
                        Err(QueryExecutionError::FragmentCycle(name.clone()))
                    } else {
                        match inline_sels(frags, &f.selection_set, fuel - 1) {
                            Ok(sub) => {
                                proof {
                                    lemma_sels_view(sub);
                                }
                                Ok(
                                    Selection::InlineFragment(
                                        Some(f.type_condition.clone()),
                                        sub,
                                    ),
                                )
                            },
                            Err(e) => Err(e),
                        }
                    }
                },
            }
        },
    }
}

/// Expands a selection list, replacing every named spread.
pub fn inline_sels(frags: &Vec<FragmentDef>, v: &Vec<Selection>, fuel: u64) -> (r: Result<
    Vec<Selection>,
    QueryExecutionError,
>)
    ensures
        (match r {
            Ok(out) => s_inline_sels(frags@, *v, fuel as nat, v@.len() as int) == Ok::<
                Seq<SelS>,
                ErrV,
            >(sels_view(out)),
            Err(e) => s_inline_sels(frags@, *v, fuel as nat, v@.len() as int) == Err::<
                Seq<SelS>,
                ErrV,
            >(e@),
        }),
    decreases fuel, *v, 1int,
{
    let mut out: Vec<Selection> = Vec::new();
    let mut i: usize = 0;
    while i < v.len()
        invariant
            i <= v.len(),
            s_inline_sels(frags@, *v, fuel as nat, i as int) == Ok::<Seq<SelS>, ErrV>(
                sels_view(out),
            ),
        decreases v.len() - i,
    {
        match inline_sel(frags, &v[i], fuel) {
            Ok(s) => {
                let ghost old_out = out;
                let ghost sv = sel_view(s);
                proof {
                    lemma_sels_view(old_out);
                }
                out.push(s);
                proof {
                    lemma_sels_view(out);
                    assert(sels_view(out) =~= sels_view(old_out).push(sv));
                }
            },
            Err(e) => {
                proof {
                    assert(s_inline_sels(frags@, *v, fuel as nat, i + 1) == Err::<Seq<SelS>, ErrV>(
                        e@,
                    ));
                    lemma_inline_sels_err_stable(frags@, *v, fuel as nat, i + 1);
                }
                return Err(e);
            },
        }
        i += 1;
    }
    Ok(out)
}

/// Once expansion of a prefix has failed, expanding more keeps the failure.
pub proof fn lemma_inline_sels_err_stable(frags: Seq<FragmentDef>, v: Vec<Selection>, fuel: nat, n: int)
    requires
        0 <= n <= v.len(),
        s_inline_sels(frags, v, fuel, n) is Err,
    ensures
        s_inline_sels(frags, v, fuel, v.len() as int) == s_inline_sels(frags, v, fuel, n),
    decreases v.len() - n,
{
    if n < v.len() {
        lemma_inline_sels_err_stable(frags, v, fuel, n + 1);
    }
}

} // verus!
