//! Laws of the engine: interface collections with no stored implementors
//! come back empty, id lookups agree with collection items, combined
//! interface results are globally ordered, and `__typename` always names
//! the entity's actual concrete type.

use vstd::prelude::*;
use vstd::seq_lib::lemma_multiset_commutative;
use crate::schema::{FieldDef, ObjectTypeDef, Schema, s_contains_name, s_find_field};
use crate::store::EntS;
use crate::query::SelS;
use crate::plan::{PlanEntryS, s_plan};
use crate::value::Val;
use crate::exec::{
    s_ent_le, s_entities_of, s_entities_of_upto, s_exec_root_field, s_find_across, s_first_arg,
    s_id_arg, s_insert_ent, s_is_composite, s_order_by_arg, s_paginate, s_render_entity,
    s_render_field, s_render_list_upto, s_render_plan_upto, s_skip_arg, s_sort_ents,
    s_sort_ents_upto, s_str_le, s_str_le_from, s_strlist_le_from, s_str_lt, s_sval_le,
    s_sval_rank, s_target_types, s_order_val,
};

verus! {

/// The string order is total.
pub proof fn lemma_str_le_total(a: Seq<char>, b: Seq<char>, i: int)
    ensures
        s_str_le_from(a, b, i) || s_str_le_from(b, a, i),
    decreases a.len() - i,
{
    if i < 0 || i >= a.len() || i >= b.len() {
    } else if a[i] == b[i] {
        lemma_str_le_total(a, b, i + 1);
    } else {
        vstd::utf8::char_u32_cast(a[i], a[i] as u32);
        vstd::utf8::char_u32_cast(b[i], b[i] as u32);
        assert(a[i] as u32 != b[i] as u32);
    }
}

/// The id-list order is total.
pub proof fn lemma_strlist_le_total(a: Seq<Seq<char>>, b: Seq<Seq<char>>, i: int)
    ensures
        s_strlist_le_from(a, b, i) || s_strlist_le_from(b, a, i),
    decreases a.len() - i,
{
    if i < 0 || i >= a.len() || i >= b.len() {
    } else if a[i] == b[i] {
        lemma_strlist_le_total(a, b, i + 1);
    } else {
        lemma_str_le_total(a[i], b[i], 0);
    }
}

/// The stored-value order is total.
pub proof fn lemma_sval_le_total(a: crate::store::SVal, b: crate::store::SVal)
    ensures
        s_sval_le(a, b) || s_sval_le(b, a),
{
    if s_sval_rank(a) == s_sval_rank(b) {
        match (a, b) {
            (crate::store::SVal::Str(x), crate::store::SVal::Str(y)) => {
                lemma_str_le_total(x, y, 0);
            },
            (crate::store::SVal::StrList(x), crate::store::SVal::StrList(y)) => {
                lemma_strlist_le_total(x, y, 0);
            },
            _ => {},
        }
    }
}

/// The entity order is total.
pub proof fn lemma_ent_le_total(ob: Option<Seq<char>>, a: EntS, b: EntS)
    ensures
        s_ent_le(ob, a, b) || s_ent_le(ob, b, a),
{
    if s_order_val(a, ob) == s_order_val(b, ob) {
        lemma_str_le_total(a.id, b.id, 0);
    } else {
        lemma_sval_le_total(s_order_val(a, ob), s_order_val(b, ob));
    }
}

/// The string order holds of equal strings both ways, and both ways only
/// of equal strings.
pub proof fn lemma_str_le_antisym(a: Seq<char>, b: Seq<char>, i: int)
    requires
        0 <= i <= a.len(),
        i <= b.len(),
        s_str_le_from(a, b, i),
        s_str_le_from(b, a, i),
    ensures
        a.len() == b.len(),
        forall|k: int| i <= k < a.len() ==> a[k] == b[k],
    decreases a.len() - i,
{
    if i >= a.len() {
        assert(i >= b.len());
    } else if i >= b.len() {
        assert(false);
    } else if a[i] == b[i] {
        lemma_str_le_antisym(a, b, i + 1);
    } else {
        vstd::utf8::char_u32_cast(a[i], a[i] as u32);
        vstd::utf8::char_u32_cast(b[i], b[i] as u32);
        assert(false);
    }
}

/// Strings ordered both ways are the same string.
pub proof fn lemma_str_le_antisym_eq(a: Seq<char>, b: Seq<char>)
    requires
        s_str_le(a, b),
        s_str_le(b, a),
    ensures
        a == b,
{
    lemma_str_le_antisym(a, b, 0);
    assert(a =~= b);
}

/// The string order is transitive.
pub proof fn lemma_str_le_trans(a: Seq<char>, b: Seq<char>, c: Seq<char>, i: int)
    requires
        0 <= i,
        s_str_le_from(a, b, i),
        s_str_le_from(b, c, i),
    ensures
        s_str_le_from(a, c, i),
    decreases a.len() - i,
{
    if i >= a.len() {
    } else {
        assert(i < b.len());
        assert(i < c.len());
        if a[i] == b[i] && b[i] == c[i] {
            lemma_str_le_trans(a, b, c, i + 1);
        } else {
            vstd::utf8::char_u32_cast(a[i], a[i] as u32);
            vstd::utf8::char_u32_cast(c[i], c[i] as u32);
        }
    }
}

/// The id-list order is antisymmetric.
pub proof fn lemma_strlist_le_antisym(a: Seq<Seq<char>>, b: Seq<Seq<char>>, i: int)
    requires
        0 <= i <= a.len(),
        i <= b.len(),
        s_strlist_le_from(a, b, i),
        s_strlist_le_from(b, a, i),
    ensures
        a.len() == b.len(),
        forall|k: int| i <= k < a.len() ==> a[k] == b[k],
    decreases a.len() - i,
{
    if i >= a.len() {
        assert(i >= b.len());
    } else if i >= b.len() {
        assert(false);
    } else if a[i] == b[i] {
        lemma_strlist_le_antisym(a, b, i + 1);
    } else {
        lemma_str_le_antisym_eq(a[i], b[i]);
        assert(false);
    }
}

/// The strict string order is transitive.
pub proof fn lemma_str_lt_trans(a: Seq<char>, b: Seq<char>, c: Seq<char>)
    requires
        s_str_lt(a, b),
        s_str_lt(b, c),
    ensures
        s_str_lt(a, c),
{
    lemma_str_le_trans(a, b, c, 0);
    if a == c {
        lemma_str_le_antisym_eq(a, b);
    }
}

/// The id-list order is transitive.
pub proof fn lemma_strlist_le_trans(a: Seq<Seq<char>>, b: Seq<Seq<char>>, c: Seq<Seq<char>>, i: int)
    requires
        0 <= i,
        s_strlist_le_from(a, b, i),
        s_strlist_le_from(b, c, i),
    ensures
        s_strlist_le_from(a, c, i),
    decreases a.len() - i,
{
    if i >= a.len() {
    } else {
        assert(i < b.len());
        assert(i < c.len());
        if a[i] == b[i] && b[i] == c[i] {
            lemma_strlist_le_trans(a, b, c, i + 1);
        } else if a[i] == b[i] {
            assert(s_str_lt(a[i], c[i]));
        } else if b[i] == c[i] {
            assert(s_str_lt(a[i], c[i]));
        } else {
            lemma_str_lt_trans(a[i], b[i], c[i]);
        }
    }
}

/// The stored-value order is antisymmetric.
pub proof fn lemma_sval_le_antisym(a: crate::store::SVal, b: crate::store::SVal)
    requires
        s_sval_le(a, b),
        s_sval_le(b, a),
    ensures
        a == b,
{
    match (a, b) {
        (crate::store::SVal::Str(x), crate::store::SVal::Str(y)) => {
            lemma_str_le_antisym_eq(x, y);
        },
        (crate::store::SVal::StrList(x), crate::store::SVal::StrList(y)) => {
            lemma_strlist_le_antisym(x, y, 0);
            assert(x =~= y);
        },
        _ => {},
    }
}

/// The stored-value order is transitive.
pub proof fn lemma_sval_le_trans(
    a: crate::store::SVal,
    b: crate::store::SVal,
    c: crate::store::SVal,
)
    requires
        s_sval_le(a, b),
        s_sval_le(b, c),
    ensures
        s_sval_le(a, c),
{
    if s_sval_rank(a) == s_sval_rank(b) && s_sval_rank(b) == s_sval_rank(c) {
        match (a, b, c) {
            (
                crate::store::SVal::Str(x),
                crate::store::SVal::Str(y),
                crate::store::SVal::Str(z),
            ) => {
                lemma_str_le_trans(x, y, z, 0);
            },
            (
                crate::store::SVal::StrList(x),
                crate::store::SVal::StrList(y),
                crate::store::SVal::StrList(z),
            ) => {
                lemma_strlist_le_trans(x, y, z, 0);
            },
            _ => {},
        }
    }
}

/// The entity order is transitive.
pub proof fn lemma_ent_le_trans(ob: Option<Seq<char>>, a: EntS, b: EntS, c: EntS)
    requires
        s_ent_le(ob, a, b),
        s_ent_le(ob, b, c),
    ensures
        s_ent_le(ob, a, c),
{
    let ka = s_order_val(a, ob);
    let kb = s_order_val(b, ob);
    let kc = s_order_val(c, ob);
    if ka == kb && kb == kc {
        lemma_str_le_trans(a.id, b.id, c.id, 0);
    } else if ka != kb && kb != kc {
        lemma_sval_le_trans(ka, kb, kc);
        if ka == kc {
            lemma_sval_le_antisym(ka, kb);
        }
    }
}

/// Every adjacent pair of the run is in order.
pub open spec fn s_sorted_run(ob: Option<Seq<char>>, s: Seq<EntS>) -> bool {
    forall|i: int| 0 <= i < s.len() - 1 ==> s_ent_le(ob, s[i], #[trigger] s[i + 1])
}

/// Every pair of the run, however far apart, is in order.
pub open spec fn s_sorted_global(ob: Option<Seq<char>>, s: Seq<EntS>) -> bool {
    forall|i: int, j: int| 0 <= i < j < s.len() ==> s_ent_le(ob, #[trigger] s[i], #[trigger] s[j])
}

proof fn lemma_le_span(ob: Option<Seq<char>>, s: Seq<EntS>, i: int, j: int)
    requires
        s_sorted_run(ob, s),
        0 <= i < j < s.len(),
    ensures
        s_ent_le(ob, s[i], s[j]),
    decreases j - i,
{
    if j == i + 1 {
        assert(s_ent_le(ob, s[i], s[i + 1]));
    } else {
        lemma_le_span(ob, s, i, j - 1);
        let k = j - 1;
        assert(s_ent_le(ob, s[k], s[k + 1]));
        lemma_ent_le_trans(ob, s[i], s[j - 1], s[j]);
    }
}

/// A run whose adjacent pairs are ordered is ordered between every pair.
pub proof fn lemma_run_globally_sorted(ob: Option<Seq<char>>, s: Seq<EntS>)
    requires
        s_sorted_run(ob, s),
    ensures
        s_sorted_global(ob, s),
{
    assert forall|i: int, j: int| 0 <= i < j < s.len() implies s_ent_le(
        ob,
        #[trigger] s[i],
        #[trigger] s[j],
    ) by {
        lemma_le_span(ob, s, i, j);
    }
}

/// Inserting into an ordered run keeps it ordered and adds exactly the
/// inserted entity.
pub proof fn lemma_insert_ent_sorted(ob: Option<Seq<char>>, e: EntS, s: Seq<EntS>)
    requires
        s_sorted_run(ob, s),
    ensures
        s_sorted_run(ob, s_insert_ent(ob, e, s)),
        s_insert_ent(ob, e, s).to_multiset() == s.to_multiset().insert(e),
        s_insert_ent(ob, e, s).len() == s.len() + 1,
        (s_insert_ent(ob, e, s)[0] == e || (s.len() > 0 && s_insert_ent(ob, e, s)[0] == s[0])),
    decreases s.len(),
{
    broadcast use vstd::seq_lib::group_to_multiset_ensures;

    if s.len() == 0 {
        assert(seq![e] =~= Seq::<EntS>::empty().push(e));
        assert(seq![e].to_multiset() == Seq::<EntS>::empty().to_multiset().insert(e));
        assert(s.to_multiset() =~= Seq::<EntS>::empty().to_multiset());
    } else if s_ent_le(ob, s[0], e) {
        let rest = s.drop_first();
        assert(s_sorted_run(ob, rest)) by {
            assert(forall|i: int|
                0 <= i < rest.len() - 1 ==> (#[trigger] rest[i + 1]) == s[i + 2] && rest[i] == s[
                    i + 1
                ]);
        }
        lemma_insert_ent_sorted(ob, e, rest);
        let sub = s_insert_ent(ob, e, rest);
        let whole = s_insert_ent(ob, e, s);
        assert(whole == seq![s[0]] + sub);
        assert(whole.len() == sub.len() + 1);
        assert forall|i: int| 0 <= i < whole.len() - 1 implies s_ent_le(
            ob,
            whole[i],
            #[trigger] whole[i + 1],
        ) by {
            if i == 0 {
                assert(whole[0] == s[0]);
                assert(whole[1] == sub[0]);
                if sub[0] == e {
                    assert(s_ent_le(ob, s[0], e));
                } else {
                    assert(rest.len() > 0 && sub[0] == rest[0]);
                    assert(s_ent_le(ob, s[0], s[1]));
                }
            } else {
                let j = i - 1;
                assert(whole[i] == sub[j] && whole[i + 1] == sub[j + 1]);
                assert(s_ent_le(ob, sub[j], sub[j + 1]));
            }
        }
        lemma_multiset_commutative(seq![s[0]], sub);
        lemma_multiset_commutative(seq![s[0]], rest);
        assert(seq![s[0]] + rest =~= s);
        assert(seq![s[0]].to_multiset() =~= Seq::<EntS>::empty().push(s[0]).to_multiset());
        assert(whole.to_multiset() =~= s.to_multiset().insert(e));
    } else {
        lemma_ent_le_total(ob, s[0], e);
        let whole = s_insert_ent(ob, e, s);
        assert(whole == seq![e] + s);
        assert forall|i: int| 0 <= i < whole.len() - 1 implies s_ent_le(
            ob,
            whole[i],
            #[trigger] whole[i + 1],
        ) by {
            if i == 0 {
                assert(whole[0] == e && whole[1] == s[0]);
            } else {
                let j = i - 1;
                assert(whole[i] == s[j] && whole[i + 1] == s[j + 1]);
                assert(s_ent_le(ob, s[j], s[j + 1]));
            }
        }
        lemma_multiset_commutative(seq![e], s);
        assert(seq![e].to_multiset() =~= Seq::<EntS>::empty().push(e).to_multiset());
        assert(whole.to_multiset() =~= s.to_multiset().insert(e));
    }
}

/// Law: sorting candidate entities yields an ordered permutation of them:
/// results collected across all implementor concrete types are ordered as
/// one combined run, never grouped by type.
pub proof fn lemma_sort_globally_ordered(ob: Option<Seq<char>>, es: Seq<EntS>, n: int)
    requires
        0 <= n <= es.len(),
    ensures
        s_sorted_run(ob, s_sort_ents_upto(ob, es, n)),
        s_sorted_global(ob, s_sort_ents_upto(ob, es, n)),
        s_sort_ents_upto(ob, es, n).to_multiset() == es.subrange(0, n).to_multiset(),
        s_sort_ents_upto(ob, es, n).len() == n,
    decreases n,
{
    broadcast use vstd::seq_lib::group_to_multiset_ensures;

    if n <= 0 {
        assert(es.subrange(0, 0) =~= Seq::<EntS>::empty());
    } else {
        lemma_sort_globally_ordered(ob, es, n - 1);
        lemma_insert_ent_sorted(ob, es[n - 1], s_sort_ents_upto(ob, es, n - 1));
        assert(es.subrange(0, n) =~= es.subrange(0, n - 1).push(es[n - 1]));
    }
    lemma_run_globally_sorted(ob, s_sort_ents_upto(ob, es, n));
}

/// Law: an interface collection whose implementors have no stored
/// entities resolves to an empty, error-free list.
pub proof fn lemma_empty_interface_collection(
    schema: Schema,
    store: Seq<EntS>,
    qt: ObjectTypeDef,
    entry: PlanEntryS,
    fd: FieldDef,
    fuel: nat,
)
    requires
        entry.name != "__typename"@,
        s_find_field(qt.fields@, entry.name) == Some(fd),
        s_is_composite(schema, fd.value_type@),
        fd.is_list,
        forall|k: int|
            0 <= k < store.len() ==> !s_contains_name(
                s_target_types(schema, fd.value_type@),
                (#[trigger] store[k]).etype,
            ),
    ensures
        s_exec_root_field(schema, store, qt, entry, fuel) == Val::List(Seq::<Val>::empty()),
{
    let names = s_target_types(schema, fd.value_type@);
    lemma_entities_of_empty(store, names, store.len() as int);
    assert(s_entities_of(store, names) =~= Seq::<EntS>::empty());
    assert(s_sort_ents(s_order_by_arg(entry.arguments), Seq::<EntS>::empty())
        == Seq::<EntS>::empty());
    let page = s_paginate(
        Seq::<EntS>::empty(),
        s_skip_arg(entry.arguments),
        s_first_arg(entry.arguments),
    );
    assert(page =~= Seq::<EntS>::empty());
}

proof fn lemma_entities_of_empty(store: Seq<EntS>, names: Seq<String>, n: int)
    requires
        0 <= n <= store.len(),
        forall|k: int|
            0 <= k < store.len() ==> !s_contains_name(names, (#[trigger] store[k]).etype),
    ensures
        s_entities_of_upto(store, names, n) == Seq::<EntS>::empty(),
    decreases n,
{
    if n > 0 {
        lemma_entities_of_empty(store, names, n - 1);
    }
}

/// Each item of a rendered page is the rendering of its entity.
pub proof fn lemma_render_list_index(
    schema: Schema,
    store: Seq<EntS>,
    sels: Seq<SelS>,
    page: Seq<EntS>,
    fuel: nat,
    n: int,
    i: int,
)
    requires
        0 <= i < n <= page.len(),
    ensures
        s_render_list_upto(schema, store, sels, page, fuel, n).len() == n,
        s_render_list_upto(schema, store, sels, page, fuel, n)[i] == s_render_entity(
            schema,
            store,
            sels,
            page[i],
            fuel,
        ),
    decreases n,
{
    if i < n - 1 {
        lemma_render_list_index(schema, store, sels, page, fuel, n - 1, i);
        lemma_render_list_len(schema, store, sels, page, fuel, n - 1);
    } else {
        lemma_render_list_len(schema, store, sels, page, fuel, n - 1);
    }
}

proof fn lemma_render_list_len(
    schema: Schema,
    store: Seq<EntS>,
    sels: Seq<SelS>,
    page: Seq<EntS>,
    fuel: nat,
    n: int,
)
    requires
        0 <= n <= page.len(),
    ensures
        s_render_list_upto(schema, store, sels, page, fuel, n).len() == n,
    decreases n,
{
    if n > 0 {
        lemma_render_list_len(schema, store, sels, page, fuel, n - 1);
    }
}

/// Law: a value reached by id returns the identical sub-object as the
/// corresponding item of a collection: both are the one per-entity
/// rendering of the same stored entity under the same sub-selection.
pub proof fn lemma_get_by_id_matches_collection(
    schema: Schema,
    store: Seq<EntS>,
    qt: ObjectTypeDef,
    list_entry: PlanEntryS,
    get_entry: PlanEntryS,
    list_fd: FieldDef,
    get_fd: FieldDef,
    fuel: nat,
    i: int,
    id: Seq<char>,
)
    requires
        list_entry.name != "__typename"@,
        get_entry.name != "__typename"@,
        s_find_field(qt.fields@, list_entry.name) == Some(list_fd),
        s_find_field(qt.fields@, get_entry.name) == Some(get_fd),
        s_is_composite(schema, list_fd.value_type@),
        s_is_composite(schema, get_fd.value_type@),
        list_fd.is_list,
        !get_fd.is_list,
        list_fd.value_type@ == get_fd.value_type@,
        list_entry.subsels == get_entry.subsels,
        s_id_arg(get_entry.arguments) == Some(id),
        ({
            let names = s_target_types(schema, list_fd.value_type@);
            let page = s_paginate(
                s_sort_ents(s_order_by_arg(list_entry.arguments), s_entities_of(store, names)),
                s_skip_arg(list_entry.arguments),
                s_first_arg(list_entry.arguments),
            );
            &&& 0 <= i < page.len()
            &&& s_find_across(store, names, id) == Some(page[i])
        }),
    ensures
        ({
            let names = s_target_types(schema, list_fd.value_type@);
            let page = s_paginate(
                s_sort_ents(s_order_by_arg(list_entry.arguments), s_entities_of(store, names)),
                s_skip_arg(list_entry.arguments),
                s_first_arg(list_entry.arguments),
            );
            &&& (s_exec_root_field(schema, store, qt, list_entry, fuel) matches Val::List(items)
                && 0 <= i < items.len() && items[i] == s_exec_root_field(
                schema,
                store,
                qt,
                get_entry,
                fuel,
            ))
        }),
{
    let names = s_target_types(schema, list_fd.value_type@);
    let page = s_paginate(
        s_sort_ents(s_order_by_arg(list_entry.arguments), s_entities_of(store, names)),
        s_skip_arg(list_entry.arguments),
        s_first_arg(list_entry.arguments),
    );
    lemma_render_list_index(
        schema,
        store,
        list_entry.subsels,
        page,
        fuel,
        page.len() as int,
        i,
    );
}

/// Each entry of a rendered object carries its plan key and the rendering
/// of its plan entry.
pub proof fn lemma_render_plan_index(
    schema: Schema,
    store: Seq<EntS>,
    e: EntS,
    plan: Seq<PlanEntryS>,
    fuel: nat,
    n: int,
    i: int,
)
    requires
        0 <= i < n <= plan.len(),
    ensures
        s_render_plan_upto(schema, store, e, plan, fuel, n).len() == n,
        s_render_plan_upto(schema, store, e, plan, fuel, n)[i] == (
        plan[i].key,
        s_render_field(schema, store, e, plan[i], fuel),
        ),
    decreases n,
{
    if i < n - 1 {
        lemma_render_plan_index(schema, store, e, plan, fuel, n - 1, i);
        lemma_render_plan_len(schema, store, e, plan, fuel, n - 1);
    } else {
        lemma_render_plan_len(schema, store, e, plan, fuel, n - 1);
    }
}

proof fn lemma_render_plan_len(
    schema: Schema,
    store: Seq<EntS>,
    e: EntS,
    plan: Seq<PlanEntryS>,
    fuel: nat,
    n: int,
)
    requires
        0 <= n <= plan.len(),
    ensures
        s_render_plan_upto(schema, store, e, plan, fuel, n).len() == n,
    decreases n,
{
    if n > 0 {
        lemma_render_plan_len(schema, store, e, plan, fuel, n - 1);
    }
}

/// Law: requesting `__typename` on any position always yields the
/// entity's actual concrete type name, under whatever response key the
/// request used.
pub proof fn lemma_typename_names_concrete_type(
    schema: Schema,
    store: Seq<EntS>,
    sels: Seq<SelS>,
    e: EntS,
    fuel: nat,
    i: int,
)
    requires
        0 <= i < s_plan(schema, e.etype, sels).len(),
        s_plan(schema, e.etype, sels)[i].name == "__typename"@,
    ensures
        ({
            let plan = s_plan(schema, e.etype, sels);
            s_render_entity(schema, store, sels, e, fuel) matches Val::Object(entries)
                && 0 <= i < entries.len() && entries[i] == (plan[i].key, Val::Str(e.etype))
        }),
{
    let plan = s_plan(schema, e.etype, sels);
    lemma_render_plan_index(schema, store, e, plan, fuel, plan.len() as int, i);
}

} // verus!
