//! The selection planner: for one concrete type, flatten a selection set's
//! plain fields and applicable fragments into an ordered, alias-keyed field
//! list, merging repeated response keys instead of duplicating them.

use vstd::prelude::*;
use crate::schema::{
    Schema, contains_name, implementors_of, s_contains_name, s_find_interface, s_implementors,
};
use crate::store::SVal;
use crate::query::{
    Argument, FieldSel, FieldSelS, SelS, Selection, args_view, alias_view, duplicate_args,
    duplicate_fieldsel, duplicate_sels, fieldsel_view, fieldsels_view,
    lemma_fieldsels_view, lemma_sels_view, sel_view, sels_view,
};

verus! {

broadcast use vstd::std_specs::vec::axiom_vec_index_decreases, vstd::seq::axiom_seq_index_decreases;

/// The response key of a requested field: its alias, or its name.
pub open spec fn s_key(fs: FieldSelS) -> Seq<char> {
    match fs.alias {
        Some(a) => a,
        None => fs.name,
    }
}

/// Whether a type condition lets a fragment apply to a concrete type: no
/// condition, the type's own name, or an interface the type implements.
pub open spec fn s_applies(schema: Schema, cond: Option<Seq<char>>, concrete: Seq<char>) -> bool {
    match cond {
        None => true,
        Some(c) => c == concrete || (s_find_interface(schema.interface_types@, c) is Some
            && s_contains_name(s_implementors(schema.object_types@, c), concrete)),
    }
}

/// The requests one selection contributes for a concrete type, in document
/// order: a plain field contributes itself; a fragment contributes its
/// body's requests when its condition applies, and nothing otherwise.
pub open spec fn s_sel_contribs(schema: Schema, concrete: Seq<char>, s: SelS) -> Seq<FieldSelS>
    decreases s, 0int,
{
    match s {
        SelS::Field(fs) => seq![fs],
        SelS::InlineFragment(cond, body) => {
            if s_applies(schema, cond, concrete) {
                s_contribs(schema, concrete, body, body.len() as int)
            } else {
                Seq::empty()
            }
        },
        SelS::FragmentSpread(_) => Seq::empty(),
    }
}

/// The requests the first `n` selections contribute, concatenated.
pub open spec fn s_contribs(schema: Schema, concrete: Seq<char>, sels: Seq<SelS>, n: int) -> Seq<
    FieldSelS,
>
    decreases sels, n,
{
    if n <= 0 || n > sels.len() {
        Seq::empty()
    } else {
        s_contribs(schema, concrete, sels, n - 1) + s_sel_contribs(schema, concrete, sels[n - 1])
    }
}

/// One merged entry of a resolution plan.
#[verifier::ext_equal]
pub struct PlanEntryS {
    pub key: Seq<char>,
    pub name: Seq<char>,
    pub arguments: Seq<(Seq<char>, SVal)>,
    pub subsels: Seq<SelS>,
}

/// The index of the first plan entry among the first `n` with the key.
pub open spec fn s_find_key_upto(plan: Seq<PlanEntryS>, key: Seq<char>, n: int) -> Option<int>
    decreases n,
{
    if n <= 0 || n > plan.len() {
        None
    } else if s_find_key_upto(plan, key, n - 1) is Some {
        s_find_key_upto(plan, key, n - 1)
    } else if plan[n - 1].key == key {
        Some(n - 1)
    } else {
        None
    }
}

pub open spec fn s_find_key(plan: Seq<PlanEntryS>, key: Seq<char>) -> Option<int> {
    s_find_key_upto(plan, key, plan.len() as int)
}

/// Merging the first `n` requests: a request whose key is present extends
/// that entry's nested selection set; a new key appends an entry.
pub open spec fn s_merge(cs: Seq<FieldSelS>, n: int) -> Seq<PlanEntryS>
    decreases n,
{
    if n <= 0 || n > cs.len() {
        Seq::empty()
    } else {
        let prev = s_merge(cs, n - 1);
        let c = cs[n - 1];
        match s_find_key(prev, s_key(c)) {
            Some(i) => prev.update(
                i,
                PlanEntryS {
                    key: prev[i].key,
                    name: prev[i].name,
                    arguments: prev[i].arguments,
                    subsels: prev[i].subsels + c.selection_set,
                },
            ),
            None => prev.push(
                PlanEntryS {
                    key: s_key(c),
                    name: c.name,
                    arguments: c.arguments,
                    subsels: c.selection_set,
                },
            ),
        }
    }
}

/// The resolution plan for one concrete type: its applicable requests,
/// merged by response key, first occurrence fixing position and arguments.
pub open spec fn s_plan(schema: Schema, concrete: Seq<char>, sels: Seq<SelS>) -> Seq<PlanEntryS> {
    let cs = s_contribs(schema, concrete, sels, sels.len() as int);
    s_merge(cs, cs.len() as int)
}

/// Whether one of the first `n` requests has the key.
pub open spec fn s_key_occurs(cs: Seq<FieldSelS>, n: int, k: Seq<char>) -> bool
    decreases n,
{
    if n <= 0 || n > cs.len() {
        false
    } else {
        s_key_occurs(cs, n - 1, k) || s_key(cs[n - 1]) == k
    }
}

/// The concatenated nested selections of every request with the key among
/// the first `n`.
pub open spec fn s_subsels_for_key(cs: Seq<FieldSelS>, n: int, k: Seq<char>) -> Seq<SelS>
    decreases n,
{
    if n <= 0 || n > cs.len() {
        Seq::empty()
    } else if s_key(cs[n - 1]) == k {
        s_subsels_for_key(cs, n - 1, k) + cs[n - 1].selection_set
    } else {
        s_subsels_for_key(cs, n - 1, k)
    }
}

pub proof fn lemma_find_key_upto_props(plan: Seq<PlanEntryS>, k: Seq<char>, n: int)
    requires
        0 <= n <= plan.len(),
    ensures
        (match s_find_key_upto(plan, k, n) {
            Some(i) => 0 <= i < n && plan[i].key == k,
            None => forall|j: int| 0 <= j < n ==> (#[trigger] plan[j]).key != k,
        }),
    decreases n,
{
    if n > 0 {
        lemma_find_key_upto_props(plan, k, n - 1);
    }
}

/// A key scan reads only the first `n` entries, so plans agreeing there
/// scan alike.
pub proof fn lemma_find_key_upto_congruence(
    p1: Seq<PlanEntryS>,
    p2: Seq<PlanEntryS>,
    k: Seq<char>,
    n: int,
)
    requires
        0 <= n <= p1.len(),
        n <= p2.len(),
        forall|j: int| 0 <= j < n ==> (#[trigger] p1[j]).key == p2[j].key,
    ensures
        s_find_key_upto(p1, k, n) == s_find_key_upto(p2, k, n),
    decreases n,
{
    if n > 0 {
        lemma_find_key_upto_congruence(p1, p2, k, n - 1);
    }
}

pub proof fn lemma_find_key_stable(plan: Seq<PlanEntryS>, k: Seq<char>, n: int)
    requires
        0 <= n <= plan.len(),
        s_find_key_upto(plan, k, n) is Some,
    ensures
        s_find_key(plan, k) == s_find_key_upto(plan, k, n),
    decreases plan.len() - n,
{
    if n < plan.len() {
        lemma_find_key_stable(plan, k, n + 1);
    }
}

/// Keys without an occurrence collect no nested selections.
pub proof fn lemma_no_occurrence_no_subsels(cs: Seq<FieldSelS>, n: int, k: Seq<char>)
    requires
        0 <= n <= cs.len(),
        !s_key_occurs(cs, n, k),
    ensures
        s_subsels_for_key(cs, n, k) == Seq::<SelS>::empty(),
    decreases n,
{
    if n > 0 {
        lemma_no_occurrence_no_subsels(cs, n - 1, k);
    }
}

/// The shape of the merged plan of the first `n` requests, at one key:
/// the key is present exactly when some request carries it, the entry's
/// key matches, its nested selections are the concatenation of every such
/// request's nested selections, and its name and arguments come from the
/// first such request.
pub proof fn lemma_merge_at_key(cs: Seq<FieldSelS>, n: int, k: Seq<char>)
    requires
        0 <= n <= cs.len(),
    ensures
        s_merge(cs, n).len() <= n,
        (match s_find_key(s_merge(cs, n), k) {
            Some(i) => {
                &&& 0 <= i < s_merge(cs, n).len()
                &&& s_merge(cs, n)[i].key == k
                &&& s_key_occurs(cs, n, k)
                &&& s_merge(cs, n)[i].subsels == s_subsels_for_key(cs, n, k)
            },
            None => !s_key_occurs(cs, n, k),
        }),
    decreases n,
{
    if n > 0 {
        lemma_merge_at_key(cs, n - 1, k);
        let prev = s_merge(cs, n - 1);
        let c = cs[n - 1];
        let merged = s_merge(cs, n);
        lemma_find_key_upto_props(prev, s_key(c), prev.len() as int);
        match s_find_key(prev, s_key(c)) {
            Some(j) => {
                assert(merged =~= prev.update(
                    j,
                    PlanEntryS {
                        key: prev[j].key,
                        name: prev[j].name,
                        arguments: prev[j].arguments,
                        subsels: prev[j].subsels + c.selection_set,
                    },
                ));
                assert(forall|x: int|
                    0 <= x < prev.len() ==> (#[trigger] merged[x]).key == prev[x].key);
                lemma_find_key_upto_congruence(merged, prev, k, prev.len() as int);
                assert(s_find_key(merged, k) == s_find_key(prev, k));
                lemma_find_key_upto_props(prev, k, prev.len() as int);
                match s_find_key(prev, k) {
                    Some(i) => {
                        if k == s_key(c) {
                            assert(i == j);
                            assert(merged[i].subsels =~= s_subsels_for_key(cs, n, k));
                        } else {
                            assert(i != j);
                            assert(merged[i] == prev[i]);
                        }
                    },
                    None => {
                        assert(!s_key_occurs(cs, n - 1, k));
                        assert(s_key(c) != k);
                    },
                }
            },
            None => {
                let e = PlanEntryS {
                    key: s_key(c),
                    name: c.name,
                    arguments: c.arguments,
                    subsels: c.selection_set,
                };
                assert(merged =~= prev.push(e));
                lemma_find_key_upto_congruence(merged, prev, k, prev.len() as int);
                assert(s_find_key_upto(merged, k, prev.len() as int) == s_find_key(prev, k));
                lemma_find_key_upto_props(prev, k, prev.len() as int);
                match s_find_key(prev, k) {
                    Some(i) => {
                        lemma_find_key_stable(merged, k, prev.len() as int);
                        assert(s_find_key(merged, k) == Some(i));
                        assert(merged[i] == prev[i]);
                        if k == s_key(c) {
                            assert(prev[i].key == k);
                            assert(false);
                        }
                    },
                    None => {
                        if s_key(c) == k {
                            assert(s_find_key(merged, k) == Some(prev.len() as int));
                            assert(!s_key_occurs(cs, n - 1, k));
                            lemma_no_occurrence_no_subsels(cs, n - 1, k);
                            assert(merged[prev.len() as int].subsels =~= s_subsels_for_key(
                                cs,
                                n,
                                k,
                            ));
                        } else {
                            assert(s_find_key(merged, k) is None);
                        }
                    },
                }
            },
        }
    }
}

/// Law: for one concrete type, a response key requested several times over
/// - directly and through fragments - appears in the plan exactly once,
/// carrying the concatenation of the nested selections of every applicable
/// request with that key; a key with no applicable request is absent.
pub proof fn lemma_plan_merges_once(
    schema: Schema,
    concrete: Seq<char>,
    sels: Seq<SelS>,
    k: Seq<char>,
)
    ensures
        (forall|i: int, j: int|
            0 <= i < j < s_plan(schema, concrete, sels).len() ==> (#[trigger] s_plan(
                schema,
                concrete,
                sels,
            )[i]).key != (#[trigger] s_plan(schema, concrete, sels)[j]).key),
        ({
            let cs = s_contribs(schema, concrete, sels, sels.len() as int);
            let plan = s_plan(schema, concrete, sels);
            match s_find_key(plan, k) {
                Some(i) => {
                    &&& 0 <= i < plan.len()
                    &&& plan[i].key == k
                    &&& s_key_occurs(cs, cs.len() as int, k)
                    &&& plan[i].subsels == s_subsels_for_key(cs, cs.len() as int, k)
                },
                None => !s_key_occurs(cs, cs.len() as int, k),
            }
        }),
{
    let cs = s_contribs(schema, concrete, sels, sels.len() as int);
    let plan = s_plan(schema, concrete, sels);
    lemma_merge_at_key(cs, cs.len() as int, k);
    lemma_merge_keys_distinct(cs, cs.len() as int);
}

/// Merged plans never repeat a response key.
pub proof fn lemma_merge_keys_distinct(cs: Seq<FieldSelS>, n: int)
    requires
        0 <= n <= cs.len(),
    ensures
        (forall|i: int, j: int|
            0 <= i < j < s_merge(cs, n).len() ==> (#[trigger] s_merge(cs, n)[i]).key != (
            #[trigger] s_merge(cs, n)[j]).key),
    decreases n,
{
    if n > 0 {
        lemma_merge_keys_distinct(cs, n - 1);
        let prev = s_merge(cs, n - 1);
        let c = cs[n - 1];
        let merged = s_merge(cs, n);
        lemma_find_key_upto_props(prev, s_key(c), prev.len() as int);
        match s_find_key(prev, s_key(c)) {
            Some(j) => {
                assert(forall|x: int|
                    0 <= x < prev.len() ==> (#[trigger] merged[x]).key == prev[x].key);
            },
            None => {
                assert(forall|x: int|
                    0 <= x < prev.len() ==> (#[trigger] merged[x]).key == prev[x].key);
                assert(merged[merged.len() - 1].key == s_key(c));
            },
        }
    }
}

/// Law: a fragment whose type condition a concrete type fails contributes
/// no requests at all, and a key requested by no applicable request is
/// left out of the plan entirely rather than planned as a null field.
pub proof fn lemma_unsatisfied_condition_omits_fields(
    schema: Schema,
    concrete: Seq<char>,
    cond: Option<Seq<char>>,
    body: Seq<SelS>,
    sels: Seq<SelS>,
    k: Seq<char>,
)
    requires
        !s_applies(schema, cond, concrete),
    ensures
        s_sel_contribs(schema, concrete, SelS::InlineFragment(cond, body)) == Seq::<
            FieldSelS,
        >::empty(),
        !s_key_occurs(
            s_contribs(schema, concrete, sels, sels.len() as int),
            s_contribs(schema, concrete, sels, sels.len() as int).len() as int,
            k,
        ) ==> s_find_key(s_plan(schema, concrete, sels), k) is None,
{
    let cs = s_contribs(schema, concrete, sels, sels.len() as int);
    lemma_merge_at_key(cs, cs.len() as int, k);
}

/// One merged entry of an executable resolution plan.
pub struct PlanEntry {
    pub key: String,
    pub name: String,
    pub arguments: Vec<Argument>,
    pub subsels: Vec<Selection>,
}

pub open spec fn plan_entry_view(e: PlanEntry) -> PlanEntryS {
    PlanEntryS {
        key: e.key@,
        name: e.name@,
        arguments: args_view(e.arguments),
        subsels: sels_view(e.subsels),
    }
}

pub open spec fn plan_view_upto(v: Vec<PlanEntry>, n: int) -> Seq<PlanEntryS>
    decreases n,
{
    if n <= 0 || n > v.len() {
        Seq::empty()
    } else {
        plan_view_upto(v, n - 1).push(plan_entry_view(v[n - 1]))
    }
}

pub open spec fn plan_view(v: Vec<PlanEntry>) -> Seq<PlanEntryS> {
    plan_view_upto(v, v.len() as int)
}

pub proof fn lemma_plan_view(v: Vec<PlanEntry>)
    ensures
        plan_view(v).len() == v@.len(),
        forall|k: int| 0 <= k < v@.len() ==> plan_view(v)[k] == plan_entry_view(v@[k]),
{
    lemma_plan_view_upto(v, v.len() as int);
}

pub proof fn lemma_plan_view_upto(v: Vec<PlanEntry>, n: int)
    requires
        0 <= n <= v.len(),
    ensures
        plan_view_upto(v, n).len() == n,
        forall|k: int| 0 <= k < n ==> plan_view_upto(v, n)[k] == plan_entry_view(v@[k]),
    decreases n,
{
    if n > 0 {
        lemma_plan_view_upto(v, n - 1);
    }
}

/// Whether the fragment condition lets the fragment apply to the type.
pub fn applies(schema: &Schema, cond: &Option<String>, concrete: &String) -> (r: bool)
    ensures
        r == s_applies(*schema, alias_view(*cond), concrete@),
{
    match cond {
        None => true,
        Some(c) => {
            if *c == *concrete {
                true
            } else {
                match schema.interface_type(c) {
                    None => false,
                    Some(_) => {
                        let impls = implementors_of(&schema.object_types, c);
                        contains_name(&impls, concrete)
                    },
                }
            }
        },
    }
}

/// The response key of a requested field.
pub fn response_key<'a>(fs: &'a FieldSel) -> (r: &'a String)
    ensures
        r@ == s_key(fieldsel_view(*fs)),
{
    match &fs.alias {
        Some(a) => a,
        None => &fs.name,
    }
}

/// Collects, in document order, the requests the selections contribute for
/// one concrete type: plain fields, and the bodies of applicable fragments.
pub fn contribs(schema: &Schema, concrete: &String, sels: &Vec<Selection>) -> (r: Vec<FieldSel>)
    ensures
        fieldsels_view(r) == s_contribs(
            *schema,
            concrete@,
            sels_view(*sels),
            sels_view(*sels).len() as int,
        ),
    decreases *sels,
{
    proof {
        lemma_sels_view(*sels);
    }
    let ghost sv = sels_view(*sels);
    let mut r: Vec<FieldSel> = Vec::new();
    let mut i: usize = 0;
    while i < sels.len()
        invariant
            i <= sels.len(),
            sv == sels_view(*sels),
            sv.len() == sels@.len(),
            forall|k: int| 0 <= k < sels@.len() ==> sv[k] == sel_view(sels@[k]),
            fieldsels_view(r) == s_contribs(*schema, concrete@, sv, i as int),
        decreases sels.len() - i,
    {
        let ghost old_r = r;
        match &sels[i] {
            Selection::Field(fs) => {
                let c = duplicate_fieldsel(fs);
                let ghost cvw = fieldsel_view(c);
                r.push(c);
                proof {
                    crate::query::lemma_fieldsels_view_push(old_r, r, r@[r@.len() - 1]);
                    assert(fieldsels_view(old_r).push(cvw) =~= fieldsels_view(old_r)
                        + seq![cvw]);
                    assert(sels@[i as int] == Selection::Field(*fs));
                    assert(sv[i as int] == sel_view(sels@[i as int]));
                    assert(s_sel_contribs(*schema, concrete@, sv[i as int]) =~= seq![cvw]);
                    assert(fieldsels_view(r) == s_contribs(*schema, concrete@, sv, i + 1));
                }
            },
            Selection::InlineFragment(cond, body) => {
                if applies(schema, cond, concrete) {
                    let sub = contribs(schema, concrete, body);
                    let ghost subv = fieldsels_view(sub);
                    proof {
                        lemma_fieldsels_view(old_r);
                        lemma_fieldsels_view(sub);
                        lemma_sels_view(*body);
                    }
                    proof {
                        assert(fieldsels_view(r) =~= fieldsels_view(old_r) + subv.subrange(
                            0,
                            0,
                        ));
                    }
                    let mut j: usize = 0;
                    while j < sub.len()
                        invariant
                            j <= sub.len(),
                            subv == fieldsels_view(sub),
                            subv.len() == sub@.len(),
                            forall|k: int|
                                0 <= k < sub@.len() ==> subv[k] == fieldsel_view(sub@[k]),
                            fieldsels_view(r) == fieldsels_view(old_r) + subv.subrange(
                                0,
                                j as int,
                            ),
                        decreases sub.len() - j,
                    {
                        let ghost mid_r = r;
                        let c = duplicate_fieldsel(&sub[j]);
                        let ghost cvw = fieldsel_view(c);
                        r.push(c);
                        proof {
                            crate::query::lemma_fieldsels_view_push(mid_r, r, r@[r@.len() - 1]);
                            assert(cvw == subv[j as int]);
                            assert((fieldsels_view(old_r) + subv.subrange(0, j as int)).push(
                                subv[j as int],
                            ) =~= fieldsels_view(old_r) + subv.subrange(0, j + 1));
                        }
                        j += 1;
                    }
                    proof {
                        assert(subv.subrange(0, sub@.len() as int) =~= subv);
                        assert(sels@[i as int] == Selection::InlineFragment(*cond, *body));
                        assert(sv[i as int] == sel_view(sels@[i as int]));
                        assert(s_sel_contribs(*schema, concrete@, sv[i as int]) == subv);
                        assert(fieldsels_view(r) =~= s_contribs(*schema, concrete@, sv, i + 1));
                    }
                } else {
                    proof {
                        assert(sels@[i as int] == Selection::InlineFragment(*cond, *body));
                        assert(sv[i as int] == sel_view(sels@[i as int]));
                        assert(s_sel_contribs(*schema, concrete@, sv[i as int]) == Seq::<
                            FieldSelS,
                        >::empty());
                        assert(fieldsels_view(r) =~= s_contribs(*schema, concrete@, sv, i + 1));
                    }
                }
            },
            Selection::FragmentSpread(_) => {
                proof {
                    assert(sv[i as int] == sel_view(sels@[i as int]));
                    assert(s_sel_contribs(*schema, concrete@, sv[i as int]) == Seq::<
                        FieldSelS,
                    >::empty());
                    assert(s_contribs(*schema, concrete@, sv, i + 1) == s_contribs(
                        *schema,
                        concrete@,
                        sv,
                        i as int,
                    ) + s_sel_contribs(*schema, concrete@, sv[i as int]));
                    assert(s_contribs(*schema, concrete@, sv, i as int) + Seq::<
                        FieldSelS,
                    >::empty() =~= s_contribs(*schema, concrete@, sv, i as int));
                    assert(fieldsels_view(r) == s_contribs(*schema, concrete@, sv, i + 1));
                }
            },
        }
        i += 1;
    }
    r
}

/// The index of the plan entry with the key, if present.
fn find_key(plan: &Vec<PlanEntry>, key: &String) -> (r: Option<usize>)
    ensures
        (match r {
            Some(i) => i < plan@.len() && s_find_key(plan_view(*plan), key@) == Some(i as int),
            None => s_find_key(plan_view(*plan), key@) is None,
        }),
{
    proof {
        lemma_plan_view(*plan);
    }
    let mut i: usize = 0;
    while i < plan.len()
        invariant
            i <= plan.len(),
            plan_view(*plan).len() == plan@.len(),
            forall|k: int|
                0 <= k < plan@.len() ==> plan_view(*plan)[k] == plan_entry_view(plan@[k]),
            s_find_key_upto(plan_view(*plan), key@, i as int) is None,
        decreases plan.len() - i,
    {
        if plan[i].key == *key {
            assert(s_find_key_upto(plan_view(*plan), key@, i + 1) == Some(i as int));
            proof {
                lemma_find_key_stable(plan_view(*plan), key@, i + 1);
            }
            return Some(i);
        }
        i += 1;
    }
    None
}

/// Merges the collected requests by response key, in first-occurrence
/// order: a repeated key extends the entry's nested selection set.
pub fn merge_contribs(cs: &Vec<FieldSel>) -> (r: Vec<PlanEntry>)
    ensures
        plan_view(r) == s_merge(fieldsels_view(*cs), fieldsels_view(*cs).len() as int),
{
    proof {
        lemma_fieldsels_view(*cs);
    }
    let ghost cv = fieldsels_view(*cs);
    let mut r: Vec<PlanEntry> = Vec::new();
    let mut i: usize = 0;
    while i < cs.len()
        invariant
            i <= cs.len(),
            cv == fieldsels_view(*cs),
            cv.len() == cs@.len(),
            forall|k: int| 0 <= k < cs@.len() ==> cv[k] == fieldsel_view(cs@[k]),
            plan_view(r) == s_merge(cv, i as int),
        decreases cs.len() - i,
    {
        let ghost old_r = r;
        let c = &cs[i];
        let key = response_key(c);
        match find_key(&r, key) {
            Some(idx) => {
                let mut nsubs = duplicate_sels(&r[idx].subsels);
                proof {
                    lemma_plan_view(old_r);
                    lemma_sels_view(nsubs);
                    lemma_sels_view(r@[idx as int].subsels);
                    assert(sels_view(nsubs) =~= sels_view(r@[idx as int].subsels));
                }
                let ghost base = sels_view(nsubs);
                let ghost ext = sels_view(c.selection_set);
                proof {
                    lemma_sels_view(c.selection_set);
                }
                proof {
                    assert(sels_view(nsubs) =~= base + ext.subrange(0, 0));
                }
                let mut j: usize = 0;
                while j < c.selection_set.len()
                    invariant
                        j <= c.selection_set.len(),
                        *c == cs@[i as int],
                        ext == sels_view(cs@[i as int].selection_set),
                        ext.len() == cs@[i as int].selection_set@.len(),
                        forall|k: int|
                            0 <= k < ext.len() ==> ext[k] == sel_view(
                                cs@[i as int].selection_set@[k],
                            ),
                        sels_view(nsubs) == base + ext.subrange(0, j as int),
                    decreases c.selection_set.len() - j,
                {
                    let ghost mid = nsubs;
                    let d = crate::query::duplicate_sel(&c.selection_set[j]);
                    let ghost dv = sel_view(d);
                    nsubs.push(d);
                    proof {
                        crate::query::lemma_sels_view_push(mid, nsubs, nsubs@[nsubs@.len() - 1]);
                        assert(dv == ext[j as int]);
                        assert((base + ext.subrange(0, j as int)).push(ext[j as int]) =~= base
                            + ext.subrange(0, j + 1));
                    }
                    j += 1;
                }
                proof {
                    assert(ext.subrange(0, ext.len() as int) =~= ext);
                }
                let e = PlanEntry {
                    key: r[idx].key.clone(),
                    name: r[idx].name.clone(),
                    arguments: duplicate_args(&r[idx].arguments),
                    subsels: nsubs,
                };
                let ghost ev = plan_entry_view(e);
                r.set(idx, e);
                proof {
                    lemma_plan_view(r);
                    let prev = s_merge(cv, i as int);
                    let target = PlanEntryS {
                        key: prev[idx as int].key,
                        name: prev[idx as int].name,
                        arguments: prev[idx as int].arguments,
                        subsels: prev[idx as int].subsels + cv[i as int].selection_set,
                    };
                    assert(ev =~= target);
                    assert(plan_view(r) =~= prev.update(idx as int, target));
                    assert(plan_view(r) =~= s_merge(cv, i + 1));
                }
                i += 1;
            },
            None => {
                let e = PlanEntry {
                    key: key.clone(),
                    name: c.name.clone(),
                    arguments: duplicate_args(&c.arguments),
                    subsels: duplicate_sels(&c.selection_set),
                };
                let ghost ev = plan_entry_view(e);
                r.push(e);
                proof {
                    lemma_plan_view(old_r);
                    lemma_plan_view(r);
                    let target = PlanEntryS {
                        key: s_key(cv[i as int]),
                        name: cv[i as int].name,
                        arguments: cv[i as int].arguments,
                        subsels: cv[i as int].selection_set,
                    };
                    lemma_sels_view(r@[r@.len() - 1].subsels);
                    lemma_sels_view(cs@[i as int].selection_set);
                    assert(ev.subsels =~= target.subsels);
                    assert(ev =~= target);
                    assert(plan_view(r) =~= plan_view(old_r).push(ev));
                    assert(plan_view(r) =~= s_merge(cv, i + 1));
                }
                i += 1;
            },
        }
    }
    r
}

/// The resolution plan for one concrete type.
pub fn plan_for_type(schema: &Schema, concrete: &String, sels: &Vec<Selection>) -> (r: Vec<
    PlanEntry,
>)
    ensures
        plan_view(r) == s_plan(*schema, concrete@, sels_view(*sels)),
{
    let cs = contribs(schema, concrete, sels);
    merge_contribs(&cs)
}

} // verus!
