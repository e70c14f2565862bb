//! The execution engine: validation of a selection set against the schema,
//! interface fan-out over the entity store, global ordering and pagination,
//! relation resolution, and assembly of the result value tree.

use vstd::prelude::*;
use crate::schema::{
    FieldDef, ObjectTypeDef, Schema, s_find_field, s_find_field_upto, s_find_interface,
    s_find_object, s_contains_name, s_implementors, implementors_of, contains_name,
};
use crate::store::{EntS, EntityStore, SVal, StoreVal, StoredEntity, s_attr};
use crate::query::{SelS, Selection, sel_view, sels_view};
use crate::plan::{PlanEntryS, s_plan};
use crate::errors::{ErrV, QueryExecutionError};
use vstd::string::StrSliceExecFns;

verus! {

broadcast use vstd::std_specs::vec::axiom_vec_index_decreases, vstd::seq::axiom_seq_index_decreases;

/// Lexicographic order on character sequences, from position `i` on.
pub open spec fn s_str_le_from(a: Seq<char>, b: Seq<char>, i: int) -> bool
    decreases a.len() - i,
{
    if i < 0 || i >= a.len() {
        true
    } else if i >= b.len() {
        false
    } else if a[i] == b[i] {
        s_str_le_from(a, b, i + 1)
    } else {
        (a[i] as u32) < (b[i] as u32)
    }
}

/// Lexicographic order on character sequences by code point.
pub open spec fn s_str_le(a: Seq<char>, b: Seq<char>) -> bool {
    s_str_le_from(a, b, 0)
}

pub open spec fn s_str_lt(a: Seq<char>, b: Seq<char>) -> bool {
    s_str_le(a, b) && a != b
}

/// Lexicographic order on sequences of strings, from position `i` on.
pub open spec fn s_strlist_le_from(a: Seq<Seq<char>>, b: Seq<Seq<char>>, i: int) -> bool
    decreases a.len() - i,
{
    if i < 0 || i >= a.len() {
        true
    } else if i >= b.len() {
        false
    } else if a[i] == b[i] {
        s_strlist_le_from(a, b, i + 1)
    } else {
        s_str_lt(a[i], b[i])
    }
}

/// The rank of a stored value's shape, ordering nulls before integers
/// before strings before id lists.
pub open spec fn s_sval_rank(v: SVal) -> int {
    match v {
        SVal::Null => 0,
        SVal::Int(_) => 1,
        SVal::Str(_) => 2,
        SVal::StrList(_) => 3,
    }
}

/// The total order on stored values used for `orderBy`.
pub open spec fn s_sval_le(a: SVal, b: SVal) -> bool {
    if s_sval_rank(a) != s_sval_rank(b) {
        s_sval_rank(a) < s_sval_rank(b)
    } else {
        match (a, b) {
            (SVal::Null, SVal::Null) => true,
            (SVal::Int(x), SVal::Int(y)) => x <= y,
            (SVal::Str(x), SVal::Str(y)) => s_str_le(x, y),
            (SVal::StrList(x), SVal::StrList(y)) => s_strlist_le_from(x, y, 0),
            _ => true,
        }
    }
}

/// The ordering key of an entity: the `orderBy` attribute if one was
/// requested (a missing attribute orders as null).
pub open spec fn s_order_val(e: EntS, order_by: Option<Seq<char>>) -> SVal {
    match order_by {
        None => SVal::Null,
        Some(f) => match s_attr(e, f) {
            Some(v) => v,
            None => SVal::Null,
        },
    }
}

/// Whether `a` comes no later than `b`: by the requested key, ties broken
/// by the id string, so combined interface results are globally ordered.
pub open spec fn s_ent_le(order_by: Option<Seq<char>>, a: EntS, b: EntS) -> bool {
    if s_order_val(a, order_by) == s_order_val(b, order_by) {
        s_str_le(a.id, b.id)
    } else {
        s_sval_le(s_order_val(a, order_by), s_order_val(b, order_by))
    }
}

/// Inserting an entity into a sorted run, after any equal keys.
pub open spec fn s_insert_ent(order_by: Option<Seq<char>>, e: EntS, sorted: Seq<EntS>) -> Seq<
    EntS,
>
    decreases sorted.len(),
{
    if sorted.len() == 0 {
        seq![e]
    } else if s_ent_le(order_by, sorted[0], e) {
        seq![sorted[0]] + s_insert_ent(order_by, e, sorted.drop_first())
    } else {
        seq![e] + sorted
    }
}

/// Insertion sort of the first `n` entities by the requested order.
pub open spec fn s_sort_ents_upto(order_by: Option<Seq<char>>, es: Seq<EntS>, n: int) -> Seq<EntS>
    decreases n,
{
    if n <= 0 || n > es.len() {
        Seq::empty()
    } else {
        s_insert_ent(order_by, es[n - 1], s_sort_ents_upto(order_by, es, n - 1))
    }
}

pub open spec fn s_sort_ents(order_by: Option<Seq<char>>, es: Seq<EntS>) -> Seq<EntS> {
    s_sort_ents_upto(order_by, es, es.len() as int)
}

/// Compares two strings lexicographically by code point.
pub fn str_le(a: &String, b: &String) -> (r: bool)
    ensures
        r == s_str_le(a@, b@),
{
    let sa = a.as_str();
    let sb = b.as_str();
    let la = sa.unicode_len();
    let lb = sb.unicode_len();
    let mut i: usize = 0;
    loop
        invariant
            i <= la,
            la == sa@.len(),
            lb == sb@.len(),
            sa@ == a@,
            sb@ == b@,
            s_str_le(a@, b@) == s_str_le_from(a@, b@, i as int),
        decreases la - i,
    {
        if i >= la {
            return true;
        }
        if i >= lb {
            return false;
        }
        let ca = sa.get_char(i);
        let cb = sb.get_char(i);
        if ca != cb {
            return (ca as u32) < (cb as u32);
        }
        i += 1;
    }
}

/// Compares two id lists lexicographically.
pub fn strlist_le(a: &Vec<String>, b: &Vec<String>) -> (r: bool)
    ensures
        r == s_strlist_le_from(
            Seq::new(a@.len(), |i: int| a@[i]@),
            Seq::new(b@.len(), |i: int| b@[i]@),
            0,
        ),
{
    let ghost av = Seq::new(a@.len(), |i: int| a@[i]@);
    let ghost bv = Seq::new(b@.len(), |i: int| b@[i]@);
    let mut i: usize = 0;
    loop
        invariant
            i <= a.len(),
            av == Seq::new(a@.len(), |i: int| a@[i]@),
            bv == Seq::new(b@.len(), |i: int| b@[i]@),
            av.len() == a@.len(),
            bv.len() == b@.len(),
            s_strlist_le_from(av, bv, 0) == s_strlist_le_from(av, bv, i as int),
        decreases a.len() - i,
    {
        if i >= a.len() {
            return true;
        }
        if i >= b.len() {
            return false;
        }
        if a[i] == b[i] {
            proof {
                assert(av[i as int] == bv[i as int]);
            }
            i += 1;
        } else {
            proof {
                assert(av[i as int] != bv[i as int]);
            }
            let le = str_le(&a[i], &b[i]);
            return le && !(a[i] == b[i]);
        }
    }
}

/// Compares two stored values in the `orderBy` order.
pub fn sval_le(a: &StoreVal, b: &StoreVal) -> (r: bool)
    ensures
        r == s_sval_le(a@, b@),
{
    match (a, b) {
        (StoreVal::Null, StoreVal::Null) => true,
        (StoreVal::Null, _) => true,
        (_, StoreVal::Null) => false,
        (StoreVal::Int(x), StoreVal::Int(y)) => *x <= *y,
        (StoreVal::Int(_), _) => true,
        (_, StoreVal::Int(_)) => false,
        (StoreVal::Str(x), StoreVal::Str(y)) => str_le(x, y),
        (StoreVal::Str(_), _) => true,
        (_, StoreVal::Str(_)) => false,
        (StoreVal::StrList(x), StoreVal::StrList(y)) => strlist_le(x, y),
    }
}

/// The ordering key of an entity.
pub fn order_val<'a>(e: &'a StoredEntity, order_by: &Option<String>) -> (r: Option<&'a StoreVal>)
    ensures
        (match r {
            Some(v) => s_order_val(e@, crate::query::alias_view(*order_by)) == v@,
            None => s_order_val(e@, crate::query::alias_view(*order_by)) == SVal::Null,
        }),
{
    match order_by {
        None => None,
        Some(f) => e.attr(f),
    }
}

/// Whether `a` comes no later than `b` under the requested order.
pub fn ent_le(order_by: &Option<String>, a: &StoredEntity, b: &StoredEntity) -> (r: bool)
    ensures
        r == s_ent_le(crate::query::alias_view(*order_by), a@, b@),
{
    let va = order_val(a, order_by);
    let vb = order_val(b, order_by);
    let eq: bool = match (&va, &vb) {
        (None, None) => true,
        (Some(x), Some(y)) => sval_eq(x, y),
        (None, Some(y)) => matches!(y, StoreVal::Null),
        (Some(x), None) => matches!(x, StoreVal::Null),
    };
    if eq {
        str_le(&a.id, &b.id)
    } else {
        match (va, vb) {
            (None, None) => true,
            (Some(x), Some(y)) => sval_le(x, y),
            (None, Some(y)) => sval_le(&StoreVal::Null, y),
            (Some(x), None) => sval_le(x, &StoreVal::Null),
        }
    }
}

/// Whether two stored values are the same.
pub fn sval_eq(a: &StoreVal, b: &StoreVal) -> (r: bool)
    ensures
        r == (a@ == b@),
{
    match (a, b) {
        (StoreVal::Null, StoreVal::Null) => true,
        (StoreVal::Int(x), StoreVal::Int(y)) => *x == *y,
        (StoreVal::Str(x), StoreVal::Str(y)) => *x == *y,
        (StoreVal::StrList(x), StoreVal::StrList(y)) => {
            let ghost xv = Seq::new(x@.len(), |i: int| x@[i]@);
            let ghost yv = Seq::new(y@.len(), |i: int| y@[i]@);
            if x.len() != y.len() {
                proof {
                    assert(a@ =~= SVal::StrList(xv));
                    assert(b@ =~= SVal::StrList(yv));
                    assert(xv.len() != yv.len());
                }
                return false;
            }
            let mut i: usize = 0;
            while i < x.len()
                invariant
                    i <= x.len(),
                    x@.len() == y@.len(),
                    *a == StoreVal::StrList(*x),
                    *b == StoreVal::StrList(*y),
                    xv == Seq::new(x@.len(), |i: int| x@[i]@),
                    yv == Seq::new(y@.len(), |i: int| y@[i]@),
                    forall|k: int| 0 <= k < i as int ==> xv[k] == yv[k],
                decreases x.len() - i,
            {
                if !(x[i] == y[i]) {
                    proof {
                        assert(a@ =~= SVal::StrList(xv));
                        assert(b@ =~= SVal::StrList(yv));
                        assert(xv[i as int] != yv[i as int]);
                    }
                    return false;
                }
                i += 1;
            }
            proof {
                assert(a@ =~= SVal::StrList(xv));
                assert(b@ =~= SVal::StrList(yv));
                assert(xv =~= yv);
            }
            true
        },
        _ => {
            proof {
                assert(s_sval_rank(a@) != s_sval_rank(b@));
            }
            false
        },
    }
}

/// Sorts entities by the requested order, ties by id, stably.
pub fn sort_ents(order_by: &Option<String>, es: Vec<StoredEntity>) -> (r: Vec<StoredEntity>)
    ensures
        ents_view(r) == s_sort_ents(
            crate::query::alias_view(*order_by),
            ents_view(es),
        ),
{
    let ghost ob = crate::query::alias_view(*order_by);
    let ghost esv = ents_view(es);
    proof {
        lemma_ents_view(es);
    }
    let mut r: Vec<StoredEntity> = Vec::new();
    let mut i: usize = 0;
    while i < es.len()
        invariant
            i <= es.len(),
            ob == crate::query::alias_view(*order_by),
            esv == ents_view(es),
            esv.len() == es@.len(),
            forall|k: int| 0 <= k < es@.len() ==> esv[k] == es@[k]@,
            ents_view(r) == s_sort_ents_upto(ob, esv, i as int),
        decreases es.len() - i,
    {
        let e = es[i].duplicate();
        insert_sorted(order_by, &mut r, e);
        i += 1;
    }
    r
}

/// The models of a list of stored entities.
pub open spec fn ents_view(v: Vec<StoredEntity>) -> Seq<EntS> {
    Seq::new(v@.len(), |i: int| v@[i]@)
}

pub proof fn lemma_ents_view(v: Vec<StoredEntity>)
    ensures
        ents_view(v).len() == v@.len(),
        forall|k: int| 0 <= k < v@.len() ==> ents_view(v)[k] == v@[k]@,
{
}

/// Inserts an entity into a sorted vector, after any equal keys.
fn insert_sorted(order_by: &Option<String>, r: &mut Vec<StoredEntity>, e: StoredEntity)
    ensures
        ents_view(*final(r)) == s_insert_ent(
            crate::query::alias_view(*order_by),
            e@,
            ents_view(*old(r)),
        ),
{
    let ghost ob = crate::query::alias_view(*order_by);
    let ghost ev = e@;
    let ghost oldv = ents_view(*old(r));
    proof {
        assert(oldv.subrange(0, 0) =~= Seq::<EntS>::empty());
        assert(oldv.subrange(0, oldv.len() as int) =~= oldv);
        assert(Seq::<EntS>::empty() + s_insert_ent(ob, ev, oldv) =~= s_insert_ent(ob, ev, oldv));
    }
    let mut i: usize = 0;
    while i < r.len()
        invariant
            i <= r.len(),
            *r == *old(r),
            ob == crate::query::alias_view(*order_by),
            ev == e@,
            oldv == ents_view(*old(r)),
            oldv.len() == old(r)@.len(),
            s_insert_ent(ob, ev, oldv) == oldv.subrange(0, i as int) + s_insert_ent(
                ob,
                ev,
                oldv.subrange(i as int, oldv.len() as int),
            ),
        decreases r.len() - i,
    {
        proof {
            lemma_ents_view(*r);
            assert(oldv.subrange(i as int, oldv.len() as int)[0] == oldv[i as int]);
        }
        if !ent_le(order_by, &r[i], &e) {
            proof {
                let rest = oldv.subrange(i as int, oldv.len() as int);
                assert(s_insert_ent(ob, ev, rest) == seq![ev] + rest);
            }
            r.insert(i, e);
            proof {
                lemma_ents_view(*r);
                assert(ents_view(*r) =~= oldv.subrange(0, i as int) + (seq![ev] + oldv.subrange(
                    i as int,
                    oldv.len() as int,
                )));
            }
            return ;
        }
        proof {
            let rest = oldv.subrange(i as int, oldv.len() as int);
            assert(s_insert_ent(ob, ev, rest) == seq![rest[0]] + s_insert_ent(
                ob,
                ev,
                rest.drop_first(),
            ));
            assert(rest.drop_first() =~= oldv.subrange(i + 1, oldv.len() as int));
            assert(oldv.subrange(0, i as int) + (seq![oldv[i as int]] + s_insert_ent(
                ob,
                ev,
                oldv.subrange(i + 1, oldv.len() as int),
            )) =~= oldv.subrange(0, i + 1) + s_insert_ent(
                ob,
                ev,
                oldv.subrange(i + 1, oldv.len() as int),
            ));
        }
        i += 1;
    }
    proof {
        assert(oldv.subrange(i as int, oldv.len() as int) =~= Seq::<EntS>::empty());
        assert(s_insert_ent(ob, ev, oldv.subrange(i as int, oldv.len() as int)) == seq![ev]);
    }
    r.push(e);
    proof {
        lemma_ents_view(*r);
        assert(ents_view(*r) =~= oldv.subrange(0, oldv.len() as int) + seq![ev]);
        assert(oldv.subrange(0, oldv.len() as int) =~= oldv);
    }
}

/// The declared fields of the named type, object or interface.
pub open spec fn s_type_fields(schema: Schema, name: Seq<char>) -> Option<Seq<FieldDef>> {
    match s_find_object(schema.object_types@, name) {
        Some(t) => Some(t.fields@),
        None => match s_find_interface(schema.interface_types@, name) {
            Some(t) => Some(t.fields@),
            None => None,
        },
    }
}

/// Whether the name denotes a composite (object or interface) type.
pub open spec fn s_is_composite(schema: Schema, name: Seq<char>) -> bool {
    s_type_fields(schema, name) is Some
}

/// The storable concrete types a composite position can hold: the object
/// type itself, or every implementor of the interface.
pub open spec fn s_target_types(schema: Schema, name: Seq<char>) -> Seq<String> {
    match s_find_object(schema.object_types@, name) {
        Some(t) => seq![t.name],
        None => match s_find_interface(schema.interface_types@, name) {
            Some(_) => s_implementors(schema.object_types@, name),
            None => Seq::empty(),
        },
    }
}

/// The value of the first argument with the name, among the first `n`.
pub open spec fn s_arg_upto(args: Seq<(Seq<char>, SVal)>, name: Seq<char>, n: int) -> Option<SVal>
    decreases n,
{
    if n <= 0 || n > args.len() {
        None
    } else if s_arg_upto(args, name, n - 1) is Some {
        s_arg_upto(args, name, n - 1)
    } else if args[n - 1].0 == name {
        Some(args[n - 1].1)
    } else {
        None
    }
}

pub open spec fn s_arg(args: Seq<(Seq<char>, SVal)>, name: Seq<char>) -> Option<SVal> {
    s_arg_upto(args, name, args.len() as int)
}

/// The `first` argument: a page size, when one was given.
pub open spec fn s_first_arg(args: Seq<(Seq<char>, SVal)>) -> Option<int> {
    match s_arg(args, "first"@) {
        Some(SVal::Int(n)) => Some(n),
        _ => None,
    }
}

/// The `skip` argument, defaulting to zero.
pub open spec fn s_skip_arg(args: Seq<(Seq<char>, SVal)>) -> int {
    match s_arg(args, "skip"@) {
        Some(SVal::Int(n)) => if n < 0 {
            0
        } else {
            n
        },
        _ => 0,
    }
}

/// The `orderBy` argument: an attribute name, when one was given.
pub open spec fn s_order_by_arg(args: Seq<(Seq<char>, SVal)>) -> Option<Seq<char>> {
    match s_arg(args, "orderBy"@) {
        Some(SVal::Str(f)) => Some(f),
        _ => None,
    }
}

/// The `id` argument of a get-one field.
pub open spec fn s_id_arg(args: Seq<(Seq<char>, SVal)>) -> Option<Seq<char>> {
    match s_arg(args, "id"@) {
        Some(SVal::Str(s)) => Some(s),
        _ => None,
    }
}

/// The page `skip`/`first` select from an ordered run.
pub open spec fn s_paginate(es: Seq<EntS>, skip: int, first: Option<int>) -> Seq<EntS> {
    let sk = if skip < 0 {
        0
    } else if skip > es.len() {
        es.len() as int
    } else {
        skip
    };
    let lim = match first {
        None => es.len() as int,
        Some(f) => {
            let f2 = if f < 0 {
                0
            } else {
                f
            };
            if sk + f2 > es.len() {
                es.len() as int
            } else {
                sk + f2
            }
        },
    };
    es.subrange(sk, lim)
}

/// The entities whose concrete type is among `names`, among the first `n`,
/// in store order.
pub open spec fn s_entities_of_upto(store: Seq<EntS>, names: Seq<String>, n: int) -> Seq<EntS>
    decreases n,
{
    if n <= 0 || n > store.len() {
        Seq::empty()
    } else if s_contains_name(names, store[n - 1].etype) {
        s_entities_of_upto(store, names, n - 1).push(store[n - 1])
    } else {
        s_entities_of_upto(store, names, n - 1)
    }
}

pub open spec fn s_entities_of(store: Seq<EntS>, names: Seq<String>) -> Seq<EntS> {
    s_entities_of_upto(store, names, store.len() as int)
}

/// The first entity with the id whose type is among `names`, among the
/// first `n`.
pub open spec fn s_find_across_upto(store: Seq<EntS>, names: Seq<String>, id: Seq<char>, n: int) -> Option<
    EntS,
>
    decreases n,
{
    if n <= 0 || n > store.len() {
        None
    } else if s_find_across_upto(store, names, id, n - 1) is Some {
        s_find_across_upto(store, names, id, n - 1)
    } else if s_contains_name(names, store[n - 1].etype) && store[n - 1].id == id {
        Some(store[n - 1])
    } else {
        None
    }
}

pub open spec fn s_find_across(store: Seq<EntS>, names: Seq<String>, id: Seq<char>) -> Option<
    EntS,
> {
    s_find_across_upto(store, names, id, store.len() as int)
}

/// Whether one of the first `n` ids is `id`.
pub open spec fn s_ids_contain_upto(ids: Seq<Seq<char>>, id: Seq<char>, n: int) -> bool
    decreases n,
{
    if n <= 0 || n > ids.len() {
        false
    } else {
        s_ids_contain_upto(ids, id, n - 1) || ids[n - 1] == id
    }
}

pub open spec fn s_ids_contain(ids: Seq<Seq<char>>, id: Seq<char>) -> bool {
    s_ids_contain_upto(ids, id, ids.len() as int)
}

/// Whether the entity's reverse attribute points at the parent id: a
/// stored reference equal to it, or a stored reference list holding it.
pub open spec fn s_points_at(e: EntS, rf: Seq<char>, pid: Seq<char>) -> bool {
    match s_attr(e, rf) {
        Some(SVal::Str(s)) => s == pid,
        Some(SVal::StrList(l)) => s_ids_contain(l, pid),
        _ => false,
    }
}

/// The entities among the first `n` whose type is among `names` and whose
/// reverse attribute points at the parent, in store order.
pub open spec fn s_related_upto(
    store: Seq<EntS>,
    names: Seq<String>,
    rf: Seq<char>,
    pid: Seq<char>,
    n: int,
) -> Seq<EntS>
    decreases n,
{
    if n <= 0 || n > store.len() {
        Seq::empty()
    } else if s_contains_name(names, store[n - 1].etype) && s_points_at(store[n - 1], rf, pid) {
        s_related_upto(store, names, rf, pid, n - 1).push(store[n - 1])
    } else {
        s_related_upto(store, names, rf, pid, n - 1)
    }
}

pub open spec fn s_related(store: Seq<EntS>, names: Seq<String>, rf: Seq<char>, pid: Seq<char>) -> Seq<
    EntS,
> {
    s_related_upto(store, names, rf, pid, store.len() as int)
}

/// The first related entity, in store order.
pub open spec fn s_first_related(
    store: Seq<EntS>,
    names: Seq<String>,
    rf: Seq<char>,
    pid: Seq<char>,
) -> Option<EntS> {
    if s_related(store, names, rf, pid).len() > 0 {
        Some(s_related(store, names, rf, pid)[0])
    } else {
        None
    }
}

/// The validation errors one selection raises against its declared type
/// context: referencing an undeclared field, or an unknown condition type.
pub open spec fn s_validate_sel(
    schema: Schema,
    ctx_name: Seq<char>,
    ctx_fields: Seq<FieldDef>,
    s: SelS,
) -> Seq<ErrV>
    decreases s, 0int,
{
    match s {
        SelS::Field(fs) => {
            if fs.name == "__typename"@ {
                Seq::empty()
            } else {
                match s_find_field(ctx_fields, fs.name) {
                    None => seq![ErrV::UnknownField(ctx_name, fs.name)],
                    Some(fd) => match s_type_fields(schema, fd.value_type@) {
                        Some(nf) => s_validate_sels(
                            schema,
                            fd.value_type@,
                            nf,
                            fs.selection_set,
                            fs.selection_set.len() as int,
                        ),
                        None => Seq::empty(),
                    },
                }
            }
        },
        SelS::InlineFragment(cond, body) => {
            match cond {
                None => s_validate_sels(schema, ctx_name, ctx_fields, body, body.len() as int),
                Some(c) => match s_type_fields(schema, c) {
                    Some(nf) => s_validate_sels(schema, c, nf, body, body.len() as int),
                    None => seq![ErrV::UnknownType(c)],
                },
            }
        },
        SelS::FragmentSpread(_) => Seq::empty(),
    }
}

/// The validation errors of the first `n` selections, all collected.
pub open spec fn s_validate_sels(
    schema: Schema,
    ctx_name: Seq<char>,
    ctx_fields: Seq<FieldDef>,
    sels: Seq<SelS>,
    n: int,
) -> Seq<ErrV>
    decreases sels, n,
{
    if n <= 0 || n > sels.len() {
        Seq::empty()
    } else {
        s_validate_sels(schema, ctx_name, ctx_fields, sels, n - 1) + s_validate_sel(
            schema,
            ctx_name,
            ctx_fields,
            sels[n - 1],
        )
    }
}

/// The nesting height of a selection, saturating at the machine bound.
pub open spec fn s_h_sel(s: SelS) -> nat
    decreases s, 0int,
{
    match s {
        SelS::Field(fs) => {
            let h = s_h_sels(fs.selection_set, fs.selection_set.len() as int);
            if h >= 0xFFFF_FFFF_FFFF_FFFF {
                h
            } else {
                h + 1
            }
        },
        SelS::InlineFragment(_, body) => {
            let h = s_h_sels(body, body.len() as int);
            if h >= 0xFFFF_FFFF_FFFF_FFFF {
                h
            } else {
                h + 1
            }
        },
        SelS::FragmentSpread(_) => 1,
    }
}

/// The greatest height among the first `n` selections.
pub open spec fn s_h_sels(sels: Seq<SelS>, n: int) -> nat
    decreases sels, n,
{
    if n <= 0 || n > sels.len() {
        0
    } else {
        let rest = s_h_sels(sels, n - 1);
        let h = s_h_sel(sels[n - 1]);
        if h > rest {
            h
        } else {
            rest
        }
    }
}

/// The scalar values a stored id list renders as.
pub open spec fn s_strs_vals(ids: Seq<Seq<char>>) -> Seq<crate::value::Val> {
    Seq::new(ids.len(), |i: int| crate::value::Val::Str(ids[i]))
}

/// The value tree one entity yields for a selection set: its merged plan,
/// rendered entry by entry in plan order.
pub open spec fn s_render_entity(
    schema: Schema,
    store: Seq<EntS>,
    sels: Seq<SelS>,
    e: EntS,
    fuel: nat,
) -> crate::value::Val
    decreases fuel, 2int, 0int,
{
    let plan = s_plan(schema, e.etype, sels);
    crate::value::Val::Object(s_render_plan_upto(schema, store, e, plan, fuel, plan.len() as int))
}

/// The first `n` rendered entries of an entity's plan.
pub open spec fn s_render_plan_upto(
    schema: Schema,
    store: Seq<EntS>,
    e: EntS,
    plan: Seq<PlanEntryS>,
    fuel: nat,
    n: int,
) -> Seq<(Seq<char>, crate::value::Val)>
    decreases fuel, 1int, n,
{
    if n <= 0 || n > plan.len() {
        Seq::empty()
    } else {
        s_render_plan_upto(schema, store, e, plan, fuel, n - 1).push(
            (plan[n - 1].key, s_render_field(schema, store, e, plan[n - 1], fuel)),
        )
    }
}

/// The rendered entities of an ordered page, first `n` of them.
pub open spec fn s_render_list_upto(
    schema: Schema,
    store: Seq<EntS>,
    sels: Seq<SelS>,
    page: Seq<EntS>,
    fuel: nat,
    n: int,
) -> Seq<crate::value::Val>
    decreases fuel, 3int, n,
{
    if n <= 0 || n > page.len() {
        Seq::empty()
    } else {
        s_render_list_upto(schema, store, sels, page, fuel, n - 1).push(
            s_render_entity(schema, store, sels, page[n - 1], fuel),
        )
    }
}

/// The rendered targets of a stored reference list: each id followed to
/// its entity, ids with no stored entity skipped.
pub open spec fn s_render_refs_upto(
    schema: Schema,
    store: Seq<EntS>,
    sels: Seq<SelS>,
    names: Seq<String>,
    ids: Seq<Seq<char>>,
    fuel: nat,
    n: int,
) -> Seq<crate::value::Val>
    decreases fuel, 3int, n,
{
    if n <= 0 || n > ids.len() {
        Seq::empty()
    } else {
        let prefix = s_render_refs_upto(schema, store, sels, names, ids, fuel, n - 1);
        match s_find_across(store, names, ids[n - 1]) {
            Some(t) => prefix.push(s_render_entity(schema, store, sels, t, fuel)),
            None => prefix,
        }
    }
}

/// The value one plan entry yields on one entity: the concrete type name
/// for `__typename`, a recursively resolved relation for a composite
/// field, the stored attribute for a scalar, and null where nothing is
/// stored.
pub open spec fn s_render_field(
    schema: Schema,
    store: Seq<EntS>,
    e: EntS,
    entry: PlanEntryS,
    fuel: nat,
) -> crate::value::Val
    decreases fuel, 0int, 0int,
{
    if entry.name == "__typename"@ {
        crate::value::Val::Str(e.etype)
    } else {
        match s_find_object(schema.object_types@, e.etype) {
            None => crate::value::Val::Null,
            Some(t) => match s_find_field(t.fields@, entry.name) {
                None => crate::value::Val::Null,
                Some(fd) => {
                    if s_is_composite(schema, fd.value_type@) {
                        if fuel == 0 {
                            crate::value::Val::Null
                        } else {
                            s_render_relation(schema, store, e, entry, fd, (fuel - 1) as nat)
                        }
                    } else {
                        match s_attr(e, entry.name) {
                            Some(SVal::Int(i)) => crate::value::Val::Int(i),
                            Some(SVal::Str(s)) => crate::value::Val::Str(s),
                            Some(SVal::StrList(l)) => crate::value::Val::List(s_strs_vals(l)),
                            _ => crate::value::Val::Null,
                        }
                    }
                },
            },
        }
    }
}

/// A composite relation field on one entity: a derived or stored link,
/// singular or list; list results are ordered and paginated as requested.
pub open spec fn s_render_relation(
    schema: Schema,
    store: Seq<EntS>,
    e: EntS,
    entry: PlanEntryS,
    fd: FieldDef,
    fuel: nat,
) -> crate::value::Val
    decreases fuel, 4int, 0int,
{
    let names = s_target_types(schema, fd.value_type@);
    if fd.is_list {
        match fd.derived_from {
            Some(rf) => {
                let cands = s_related(store, names, rf@, e.id);
                let sorted = s_sort_ents(s_order_by_arg(entry.arguments), cands);
                let page = s_paginate(sorted, s_skip_arg(entry.arguments), s_first_arg(entry.arguments));
                crate::value::Val::List(
                    s_render_list_upto(schema, store, entry.subsels, page, fuel, page.len() as int),
                )
            },
            None => {
                match s_attr(e, entry.name) {
                    Some(SVal::StrList(ids)) => crate::value::Val::List(
                        s_render_refs_upto(
                            schema,
                            store,
                            entry.subsels,
                            names,
                            ids,
                            fuel,
                            ids.len() as int,
                        ),
                    ),
                    _ => crate::value::Val::List(Seq::empty()),
                }
            },
        }
    } else {
        match fd.derived_from {
            Some(rf) => {
                match s_first_related(store, names, rf@, e.id) {
                    Some(t) => s_render_entity(schema, store, entry.subsels, t, fuel),
                    None => crate::value::Val::Null,
                }
            },
            None => {
                match s_attr(e, entry.name) {
                    Some(SVal::Str(id)) => match s_find_across(store, names, id) {
                        Some(t) => s_render_entity(schema, store, entry.subsels, t, fuel),
                        None => crate::value::Val::Null,
                    },
                    _ => crate::value::Val::Null,
                }
            },
        }
    }
}

/// The value one root plan entry yields: an interface or object collection
/// fans out over every storable target type, globally ordered and
/// paginated; a get-one field searches every target type for the id.
pub open spec fn s_exec_root_field(
    schema: Schema,
    store: Seq<EntS>,
    qt: ObjectTypeDef,
    entry: PlanEntryS,
    fuel: nat,
) -> crate::value::Val {
    if entry.name == "__typename"@ {
        crate::value::Val::Str(qt.name@)
    } else {
        match s_find_field(qt.fields@, entry.name) {
            None => crate::value::Val::Null,
            Some(fd) => {
                if s_is_composite(schema, fd.value_type@) {
                    let names = s_target_types(schema, fd.value_type@);
                    if fd.is_list {
                        let cands = s_entities_of(store, names);
                        let sorted = s_sort_ents(s_order_by_arg(entry.arguments), cands);
                        let page = s_paginate(
                            sorted,
                            s_skip_arg(entry.arguments),
                            s_first_arg(entry.arguments),
                        );
                        crate::value::Val::List(
                            s_render_list_upto(
                                schema,
                                store,
                                entry.subsels,
                                page,
                                fuel,
                                page.len() as int,
                            ),
                        )
                    } else {
                        match s_id_arg(entry.arguments) {
                            Some(id) => match s_find_across(store, names, id) {
                                Some(t) => s_render_entity(schema, store, entry.subsels, t, fuel),
                                None => crate::value::Val::Null,
                            },
                            None => crate::value::Val::Null,
                        }
                    }
                } else {
                    crate::value::Val::Null
                }
            },
        }
    }
}

/// The first `n` rendered entries of the root plan.
pub open spec fn s_exec_root_upto(
    schema: Schema,
    store: Seq<EntS>,
    qt: ObjectTypeDef,
    plan: Seq<PlanEntryS>,
    fuel: nat,
    n: int,
) -> Seq<(Seq<char>, crate::value::Val)>
    decreases n,
{
    if n <= 0 || n > plan.len() {
        Seq::empty()
    } else {
        s_exec_root_upto(schema, store, qt, plan, fuel, n - 1).push(
            (plan[n - 1].key, s_exec_root_field(schema, store, qt, plan[n - 1], fuel)),
        )
    }
}

/// Whether the field name is the always-resolvable type-tag request.
pub fn is_typename(n: &String) -> (r: bool)
    ensures
        r == (n@ == "__typename"@),
{
    let t = String::from_str("__typename");
    *n == t
}

proof fn lemma_find_field_stable(fs: Seq<FieldDef>, name: Seq<char>, n: int)
    requires
        0 <= n <= fs.len(),
        s_find_field_upto(fs, name, n) is Some,
    ensures
        s_find_field(fs, name) == s_find_field_upto(fs, name, n),
    decreases fs.len() - n,
{
    if n < fs.len() {
        lemma_find_field_stable(fs, name, n + 1);
    }
}

/// The first declared field with the name.
pub fn find_field<'a>(fields: &'a Vec<FieldDef>, name: &String) -> (r: Option<&'a FieldDef>)
    ensures
        (match r {
            Some(fd) => s_find_field(fields@, name@) == Some(*fd),
            None => s_find_field(fields@, name@) is None,
        }),
{
    let mut i: usize = 0;
    while i < fields.len()
        invariant
            i <= fields.len(),
            s_find_field_upto(fields@, name@, i as int) is None,
        decreases fields.len() - i,
    {
        if fields[i].name == *name {
            assert(s_find_field_upto(fields@, name@, i + 1) == Some(fields@[i as int]));
            proof {
                lemma_find_field_stable(fields@, name@, i + 1);
            }
            return Some(&fields[i]);
        }
        i += 1;
    }
    None
}

/// The declared fields of the named composite type, if there is one.
pub fn type_fields<'a>(schema: &'a Schema, name: &String) -> (r: Option<&'a Vec<FieldDef>>)
    ensures
        (match r {
            Some(fs) => s_type_fields(*schema, name@) == Some(fs@),
            None => s_type_fields(*schema, name@) is None,
        }),
{
    match schema.object_type(name) {
        Some(t) => Some(&t.fields),
        None => match schema.interface_type(name) {
            Some(t) => Some(&t.fields),
            None => None,
        },
    }
}

/// The storable concrete type names behind a composite position.
pub fn target_types(schema: &Schema, name: &String) -> (r: Vec<String>)
    ensures
        r@ == s_target_types(*schema, name@),
{
    match schema.object_type(name) {
        Some(t) => {
            let mut r: Vec<String> = Vec::new();
            r.push(t.name.clone());
            proof {
                assert(r@ =~= seq![t.name]);
            }
            r
        },
        None => match schema.interface_type(name) {
            Some(_) => implementors_of(&schema.object_types, name),
            None => {
                let r: Vec<String> = Vec::new();
                proof {
                    assert(r@ =~= Seq::<String>::empty());
                }
                r
            },
        },
    }
}

proof fn lemma_arg_stable(args: Seq<(Seq<char>, SVal)>, name: Seq<char>, n: int)
    requires
        0 <= n <= args.len(),
        s_arg_upto(args, name, n) is Some,
    ensures
        s_arg(args, name) == s_arg_upto(args, name, n),
    decreases args.len() - n,
{
    if n < args.len() {
        lemma_arg_stable(args, name, n + 1);
    }
}

/// The value of the named argument, first occurrence winning.
pub fn arg_val<'a>(args: &'a Vec<crate::query::Argument>, name: &String) -> (r: Option<
    &'a StoreVal,
>)
    ensures
        (match r {
            Some(v) => s_arg(crate::query::args_view(*args), name@) == Some(v@),
            None => s_arg(crate::query::args_view(*args), name@) is None,
        }),
{
    let ghost av = crate::query::args_view(*args);
    let mut i: usize = 0;
    while i < args.len()
        invariant
            i <= args.len(),
            av == crate::query::args_view(*args),
            av.len() == args@.len(),
            forall|k: int|
                0 <= k < args@.len() ==> av[k] == (args@[k].name@, args@[k].value@),
            s_arg_upto(av, name@, i as int) is None,
        decreases args.len() - i,
    {
        if args[i].name == *name {
            assert(s_arg_upto(av, name@, i + 1) == Some(av[i as int].1));
            proof {
                lemma_arg_stable(av, name@, i + 1);
            }
            return Some(&args[i].value);
        }
        i += 1;
    }
    None
}

/// The requested page size, if any.
pub fn first_arg(args: &Vec<crate::query::Argument>) -> (r: Option<i64>)
    ensures
        (match r {
            Some(n) => s_first_arg(crate::query::args_view(*args)) == Some(n as int),
            None => s_first_arg(crate::query::args_view(*args)) is None,
        }),
{
    let name = String::from_str("first");
    match arg_val(args, &name) {
        Some(StoreVal::Int(n)) => Some(*n),
        _ => None,
    }
}

/// The requested offset, zero if none.
pub fn skip_arg(args: &Vec<crate::query::Argument>) -> (r: i64)
    ensures
        r as int == s_skip_arg(crate::query::args_view(*args)),
{
    let name = String::from_str("skip");
    match arg_val(args, &name) {
        Some(StoreVal::Int(n)) => if *n < 0 {
            0
        } else {
            *n
        },
        _ => 0,
    }
}

/// The requested ordering attribute, if any.
pub fn order_by_arg(args: &Vec<crate::query::Argument>) -> (r: Option<String>)
    ensures
        crate::query::alias_view(r) == s_order_by_arg(crate::query::args_view(*args)),
{
    let name = String::from_str("orderBy");
    match arg_val(args, &name) {
        Some(StoreVal::Str(f)) => Some(f.clone()),
        _ => None,
    }
}

/// The requested identifier of a get-one field, if any.
pub fn id_arg(args: &Vec<crate::query::Argument>) -> (r: Option<String>)
    ensures
        (match r {
            Some(s) => s_id_arg(crate::query::args_view(*args)) == Some(s@),
            None => s_id_arg(crate::query::args_view(*args)) is None,
        }),
{
    let name = String::from_str("id");
    match arg_val(args, &name) {
        Some(StoreVal::Str(s)) => Some(s.clone()),
        _ => None,
    }
}

proof fn lemma_ids_contain_grows(ids: Seq<Seq<char>>, id: Seq<char>, n: int, m: int)
    requires
        0 <= n <= m <= ids.len(),
        s_ids_contain_upto(ids, id, n),
    ensures
        s_ids_contain_upto(ids, id, m),
    decreases m - n,
{
    if n < m {
        lemma_ids_contain_grows(ids, id, n + 1, m);
    }
}

/// Whether a stored reference list holds the id.
pub fn ids_contain(ids: &Vec<String>, id: &String) -> (r: bool)
    ensures
        r == s_ids_contain(Seq::new(ids@.len(), |i: int| ids@[i]@), id@),
{
    let ghost iv = Seq::new(ids@.len(), |i: int| ids@[i]@);
    let mut i: usize = 0;
    while i < ids.len()
        invariant
            i <= ids.len(),
            iv == Seq::new(ids@.len(), |i: int| ids@[i]@),
            iv.len() == ids@.len(),
            !s_ids_contain_upto(iv, id@, i as int),
        decreases ids.len() - i,
    {
        if ids[i] == *id {
            proof {
                assert(iv[i as int] == id@);
                assert(s_ids_contain_upto(iv, id@, i + 1));
                lemma_ids_contain_grows(iv, id@, i + 1, iv.len() as int);
            }
            return true;
        }
        proof {
            assert(iv[i as int] != id@);
        }
        i += 1;
    }
    false
}

/// Whether the entity's reverse attribute points at the parent id.
pub fn points_at(e: &StoredEntity, rf: &String, pid: &String) -> (r: bool)
    ensures
        r == s_points_at(e@, rf@, pid@),
{
    match e.attr(rf) {
        Some(StoreVal::Str(s)) => *s == *pid,
        Some(StoreVal::StrList(l)) => ids_contain(l, pid),
        _ => false,
    }
}

/// Every stored entity whose type is among `names`, in store order.
pub fn entities_of(store: &EntityStore, names: &Vec<String>) -> (r: Vec<StoredEntity>)
    ensures
        ents_view(r) == s_entities_of(store@, names@),
{
    let mut r: Vec<StoredEntity> = Vec::new();
    let mut i: usize = 0;
    while i < store.entities.len()
        invariant
            i <= store.entities.len(),
            store@.len() == store.entities@.len(),
            forall|k: int| 0 <= k < store.entities@.len() ==> store@[k] == store.entities@[k]@,
            ents_view(r) == s_entities_of_upto(store@, names@, i as int),
        decreases store.entities.len() - i,
    {
        let ghost old_r = r;
        if contains_name(names, &store.entities[i].entity_type) {
            let d = store.entities[i].duplicate();
            r.push(d);
            proof {
                lemma_ents_view(old_r);
                lemma_ents_view(r);
                assert(ents_view(r) =~= ents_view(old_r).push(store@[i as int]));
            }
        }
        i += 1;
    }
    r
}

proof fn lemma_find_across_stable(store: Seq<EntS>, names: Seq<String>, id: Seq<char>, n: int)
    requires
        0 <= n <= store.len(),
        s_find_across_upto(store, names, id, n) is Some,
    ensures
        s_find_across(store, names, id) == s_find_across_upto(store, names, id, n),
    decreases store.len() - n,
{
    if n < store.len() {
        lemma_find_across_stable(store, names, id, n + 1);
    }
}

/// The first stored entity with the id under any of the named types.
pub fn find_across<'a>(store: &'a EntityStore, names: &Vec<String>, id: &String) -> (r: Option<
    &'a StoredEntity,
>)
    ensures
        (match r {
            Some(e) => s_find_across(store@, names@, id@) == Some(e@),
            None => s_find_across(store@, names@, id@) is None,
        }),
{
    let mut i: usize = 0;
    while i < store.entities.len()
        invariant
            i <= store.entities.len(),
            store@.len() == store.entities@.len(),
            forall|k: int| 0 <= k < store.entities@.len() ==> store@[k] == store.entities@[k]@,
            s_find_across_upto(store@, names@, id@, i as int) is None,
        decreases store.entities.len() - i,
    {
        if contains_name(names, &store.entities[i].entity_type) && store.entities[i].id == *id {
            assert(s_find_across_upto(store@, names@, id@, i + 1) == Some(store@[i as int]));
            proof {
                lemma_find_across_stable(store@, names@, id@, i + 1);
            }
            return Some(&store.entities[i]);
        }
        i += 1;
    }
    None
}

/// Every stored entity of the named types whose reverse attribute points
/// at the parent, in store order.
pub fn related(store: &EntityStore, names: &Vec<String>, rf: &String, pid: &String) -> (r: Vec<
    StoredEntity,
>)
    ensures
        ents_view(r) == s_related(store@, names@, rf@, pid@),
{
    let mut r: Vec<StoredEntity> = Vec::new();
    let mut i: usize = 0;
    while i < store.entities.len()
        invariant
            i <= store.entities.len(),
            store@.len() == store.entities@.len(),
            forall|k: int| 0 <= k < store.entities@.len() ==> store@[k] == store.entities@[k]@,
            ents_view(r) == s_related_upto(store@, names@, rf@, pid@, i as int),
        decreases store.entities.len() - i,
    {
        let ghost old_r = r;
        if contains_name(names, &store.entities[i].entity_type) && points_at(
            &store.entities[i],
            rf,
            pid,
        ) {
            let d = store.entities[i].duplicate();
            r.push(d);
            proof {
                lemma_ents_view(old_r);
                lemma_ents_view(r);
                assert(ents_view(r) =~= ents_view(old_r).push(store@[i as int]));
            }
        }
        i += 1;
    }
    r
}

/// The model of an optional page size.
pub open spec fn s_opt_int(o: Option<i64>) -> Option<int> {
    match o {
        Some(f) => Some(f as int),
        None => None,
    }
}

/// Applies `skip` and `first` to an ordered run.
pub fn paginate(es: Vec<StoredEntity>, skip: i64, first: Option<i64>) -> (r: Vec<StoredEntity>)
    ensures
        ents_view(r) == s_paginate(ents_view(es), skip as int, s_opt_int(first)),
{
    let len = es.len();
    let sk: usize = if skip < 0 {
        0
    } else if (skip as u64) >= (len as u64) {
        len
    } else {
        skip as usize
    };
    let lim: usize = match first {
        None => len,
        Some(f) => {
            let f2: i64 = if f < 0 {
                0
            } else {
                f
            };
            if f2 as u64 >= (len - sk) as u64 {
                len
            } else {
                sk + (f2 as usize)
            }
        },
    };
    let ghost esv = ents_view(es);
    proof {
        lemma_ents_view(es);
        assert(s_paginate(esv, skip as int, s_opt_int(first)) == esv.subrange(
            sk as int,
            lim as int,
        ));
    }
    let mut r: Vec<StoredEntity> = Vec::new();
    let mut i: usize = sk;
    while i < lim
        invariant
            sk <= i <= lim <= es.len(),
            esv == ents_view(es),
            esv.len() == es@.len(),
            forall|k: int| 0 <= k < es@.len() ==> esv[k] == es@[k]@,
            ents_view(r) == esv.subrange(sk as int, i as int),
        decreases lim - i,
    {
        let ghost old_r = r;
        let d = es[i].duplicate();
        r.push(d);
        proof {
            lemma_ents_view(old_r);
            lemma_ents_view(r);
            assert(ents_view(r) =~= esv.subrange(sk as int, i + 1));
        }
        i += 1;
    }
    proof {
        assert(ents_view(r) =~= esv.subrange(sk as int, lim as int));
    }
    r
}

/// What executing a document against a schema and a store yields: the
/// expanded, validated operation's root plan rendered in order, or the
/// full list of validation errors.
pub open spec fn s_execute_sels(
    schema: Schema,
    store: Seq<EntS>,
    frags: Seq<crate::query::FragmentDef>,
    selections: Vec<Selection>,
) -> Result<crate::value::Val, Seq<ErrV>> {
    match crate::query::s_inline_sels(
        frags,
        selections,
        (if frags.len() + 1 > 0xFFFF_FFFF_FFFF_FFFF {
            0xFFFF_FFFF_FFFF_FFFFnat
        } else {
            (frags.len() + 1) as nat
        }),
        selections@.len() as int,
    ) {
        Err(e) => Err(seq![e]),
        Ok(isels) => match s_find_object(schema.object_types@, schema.query_type@) {
            None => Err(seq![ErrV::UnknownType(schema.query_type@)]),
            Some(qt) => {
                let errs = s_validate_sels(schema, qt.name@, qt.fields@, isels, isels.len() as int);
                if errs.len() > 0 {
                    Err(errs)
                } else {
                    let plan = s_plan(schema, qt.name@, isels);
                    let fuel = s_h_sels(isels, isels.len() as int);
                    Ok(
                        crate::value::Val::Object(
                            s_exec_root_upto(schema, store, qt, plan, fuel, plan.len() as int),
                        ),
                    )
                }
            },
        },
    }
}


/// What executing a parsed document yields: its operation's selections
/// run with its named fragments.
pub open spec fn s_execute(schema: Schema, store: Seq<EntS>, doc: crate::query::Document) -> Result<
    crate::value::Val,
    Seq<ErrV>,
> {
    s_execute_sels(schema, store, doc.fragments@, doc.selections)
}

/// Collects every validation error the selections raise against their
/// declared type context, across siblings and nested selections alike.
pub fn validate_sels(
    schema: &Schema,
    ctx_name: &String,
    ctx_fields: &Vec<FieldDef>,
    sels: &Vec<Selection>,
) -> (r: Vec<QueryExecutionError>)
    ensures
        crate::errors::errs_view(r) == s_validate_sels(
            *schema,
            ctx_name@,
            ctx_fields@,
            sels_view(*sels),
            sels_view(*sels).len() as int,
        ),
    decreases *sels, 1int,
{
    proof {
        crate::query::lemma_sels_view(*sels);
    }
    let ghost sv = sels_view(*sels);
    let mut r: Vec<QueryExecutionError> = Vec::new();
    let mut i: usize = 0;
    while i < sels.len()
        invariant
            i <= sels.len(),
            sv == sels_view(*sels),
            sv.len() == sels@.len(),
            forall|k: int| 0 <= k < sels@.len() ==> sv[k] == sel_view(sels@[k]),
            crate::errors::errs_view(r) == s_validate_sels(
                *schema,
                ctx_name@,
                ctx_fields@,
                sv,
                i as int,
            ),
        decreases sels.len() - i,
    {
        let ghost old_r = r;
        let ghost step = s_validate_sel(*schema, ctx_name@, ctx_fields@, sv[i as int]);
        match &sels[i] {
            Selection::Field(fs) => {
                proof {
                    assert(sv[i as int] == sel_view(sels@[i as int]));
                }
                if is_typename(&fs.name) {
                    proof {
                        assert(step =~= Seq::<ErrV>::empty());
                        assert(crate::errors::errs_view(r) =~= crate::errors::errs_view(old_r)
                            + step);
                    }
                } else {
                    match find_field(ctx_fields, &fs.name) {
                        None => {
                            let e = QueryExecutionError::UnknownField(
                                ctx_name.clone(),
                                fs.name.clone(),
                            );
                            let ghost ev = e@;
                            r.push(e);
                            proof {
                                crate::errors::lemma_errs_view_push(old_r, r, r@[r@.len() - 1]);
                                assert(step =~= seq![ev]);
                                assert(crate::errors::errs_view(old_r).push(ev)
                                    =~= crate::errors::errs_view(old_r) + step);
                            }
                        },
                        Some(fd) => {
                            match type_fields(schema, &fd.value_type) {
                                Some(nf) => {
                                    let sub = validate_sels(
                                        schema,
                                        &fd.value_type,
                                        nf,
                                        &fs.selection_set,
                                    );
                                    proof {
                                        crate::query::lemma_sels_view(fs.selection_set);
                                    }
                                    crate::errors::append_errs(&mut r, &sub);
                                    proof {
                                        assert(crate::errors::errs_view(r)
                                            == crate::errors::errs_view(old_r) + step);
                                    }
                                },
                                None => {
                                    proof {
                                        assert(step =~= Seq::<ErrV>::empty());
                                        assert(crate::errors::errs_view(r)
                                            =~= crate::errors::errs_view(old_r) + step);
                                    }
                                },
                            }
                        },
                    }
                }
            },
            Selection::InlineFragment(cond, body) => {
                proof {
                    assert(sv[i as int] == sel_view(sels@[i as int]));
                }
                match cond {
                    None => {
                        let sub = validate_sels(schema, ctx_name, ctx_fields, body);
                        proof {
                            crate::query::lemma_sels_view(*body);
                        }
                        crate::errors::append_errs(&mut r, &sub);
                        proof {
                            assert(crate::errors::errs_view(r) == crate::errors::errs_view(old_r)
                                + step);
                        }
                    },
                    Some(c) => {
                        match type_fields(schema, c) {
                            Some(nf) => {
                                let sub = validate_sels(schema, c, nf, body);
                                proof {
                                    crate::query::lemma_sels_view(*body);
                                }
                                crate::errors::append_errs(&mut r, &sub);
                                proof {
                                    assert(crate::errors::errs_view(r)
                                        == crate::errors::errs_view(old_r) + step);
                                }
                            },
                            None => {
                                let e = QueryExecutionError::UnknownType(c.clone());
                                let ghost ev = e@;
                                r.push(e);
                                proof {
                                    crate::errors::lemma_errs_view_push(
                                        old_r,
                                        r,
                                        r@[r@.len() - 1],
                                    );
                                    assert(step =~= seq![ev]);
                                    assert(crate::errors::errs_view(old_r).push(ev)
                                        =~= crate::errors::errs_view(old_r) + step);
                                }
                            },
                        }
                    },
                }
            },
            Selection::FragmentSpread(_) => {
                proof {
                    assert(sv[i as int] == sel_view(sels@[i as int]));
                    assert(step =~= Seq::<ErrV>::empty());
                    assert(crate::errors::errs_view(r) =~= crate::errors::errs_view(old_r) + step);
                }
            },
        }
        i += 1;
    }
    r
}

/// The nesting height of one selection.
pub fn height_sel(s: &Selection) -> (r: u64)
    ensures
        r as nat == s_h_sel(sel_view(*s)),
    decreases *s, 0int,
{
    match s {
        Selection::Field(fs) => {
            let h = height_sels(&fs.selection_set);
            if h == 0xFFFF_FFFF_FFFF_FFFF {
                h
            } else {
                h + 1
            }
        },
        Selection::InlineFragment(_, body) => {
            let h = height_sels(body);
            if h == 0xFFFF_FFFF_FFFF_FFFF {
                h
            } else {
                h + 1
            }
        },
        Selection::FragmentSpread(_) => 1,
    }
}

/// The greatest nesting height among the selections.
pub fn height_sels(v: &Vec<Selection>) -> (r: u64)
    ensures
        r as nat == s_h_sels(sels_view(*v), sels_view(*v).len() as int),
    decreases *v, 1int,
{
    proof {
        crate::query::lemma_sels_view(*v);
    }
    let ghost sv = sels_view(*v);
    let mut h: u64 = 0;
    let mut i: usize = 0;
    while i < v.len()
        invariant
            i <= v.len(),
            sv == sels_view(*v),
            sv.len() == v@.len(),
            forall|k: int| 0 <= k < v@.len() ==> sv[k] == sel_view(v@[k]),
            h as nat == s_h_sels(sv, i as int),
        decreases v.len() - i,
    {
        let hs = height_sel(&v[i]);
        if hs > h {
            h = hs;
        }
        i += 1;
    }
    h
}

/// The value tree one entity yields for a selection set.
pub fn render_entity(
    schema: &Schema,
    store: &EntityStore,
    sels: &Vec<Selection>,
    e: &StoredEntity,
    fuel: u64,
) -> (r: crate::value::Value)
    ensures
        r@ == s_render_entity(*schema, store@, sels_view(*sels), e@, fuel as nat),
    decreases fuel, 1int,
{
    let plan = crate::plan::plan_for_type(schema, &e.entity_type, sels);
    proof {
        crate::plan::lemma_plan_view(plan);
    }
    let ghost pv = crate::plan::plan_view(plan);
    let mut obj: Vec<(String, crate::value::Value)> = Vec::new();
    let mut i: usize = 0;
    while i < plan.len()
        invariant
            i <= plan.len(),
            pv == crate::plan::plan_view(plan),
            pv == s_plan(*schema, e@.etype, sels_view(*sels)),
            pv.len() == plan@.len(),
            forall|k: int|
                0 <= k < plan@.len() ==> pv[k] == crate::plan::plan_entry_view(plan@[k]),
            crate::value::object_view_upto(obj, obj@.len() as int) == s_render_plan_upto(
                *schema,
                store@,
                e@,
                pv,
                fuel as nat,
                i as int,
            ),
        decreases plan.len() - i,
    {
        let ghost old_obj = obj;
        let fv = render_field(schema, store, e, &plan[i], fuel);
        let ghost fvv = fv@;
        let key = plan[i].key.clone();
        obj.push((key, fv));
        proof {
            crate::value::lemma_object_view_push(old_obj, obj, obj@[obj@.len() - 1]);
            assert(obj@[obj@.len() - 1].0@ == pv[i as int].key);
            assert(crate::value::object_view_upto(obj, obj@.len() as int) =~= s_render_plan_upto(
                *schema,
                store@,
                e@,
                pv,
                fuel as nat,
                i + 1,
            ));
        }
        i += 1;
    }
    crate::value::Value::Object(obj)
}

/// The value one plan entry yields on one entity.
pub fn render_field(
    schema: &Schema,
    store: &EntityStore,
    e: &StoredEntity,
    entry: &crate::plan::PlanEntry,
    fuel: u64,
) -> (r: crate::value::Value)
    ensures
        r@ == s_render_field(
            *schema,
            store@,
            e@,
            crate::plan::plan_entry_view(*entry),
            fuel as nat,
        ),
    decreases fuel, 0int,
{
    if is_typename(&entry.name) {
        return crate::value::Value::Str(e.entity_type.clone());
    }
    let t = match schema.object_type(&e.entity_type) {
        None => {
            return crate::value::Value::Null;
        },
        Some(t) => t,
    };
    let fd = match find_field(&t.fields, &entry.name) {
        None => {
            return crate::value::Value::Null;
        },
        Some(fd) => fd,
    };
    let composite = match type_fields(schema, &fd.value_type) {
        Some(_) => true,
        None => false,
    };
    if composite {
        if fuel == 0 {
            return crate::value::Value::Null;
        }
        let names = target_types(schema, &fd.value_type);
        let ghost entv = crate::plan::plan_entry_view(*entry);
        if fd.is_list {
            match &fd.derived_from {
                Some(rf) => {
                    let cands = related(store, &names, rf, &e.id);
                    let ob = order_by_arg(&entry.arguments);
                    let sorted = sort_ents(&ob, cands);
                    let sk = skip_arg(&entry.arguments);
                    let fi = first_arg(&entry.arguments);
                    let page = paginate(sorted, sk, fi);
                    proof {
                        assert(s_opt_int(fi) == s_first_arg(entv.arguments));
                    }
                    let items = render_page(schema, store, &entry.subsels, &page, fuel - 1);
                    return crate::value::Value::List(items);
                },
                None => {
                    match e.attr(&entry.name) {
                        Some(v) => {
                            match v {
                                StoreVal::StrList(ids) => {
                                    let ghost iv = Seq::new(ids@.len(), |k: int| ids@[k]@);
                                    proof {
                                        assert(v@ =~= SVal::StrList(iv));
                                    }
                                    let items = render_refs(
                                        schema,
                                        store,
                                        &entry.subsels,
                                        &names,
                                        ids,
                                        fuel - 1,
                                    );
                                    return crate::value::Value::List(items);
                                },
                                _ => {
                                    let items: Vec<crate::value::Value> = Vec::new();
                                    proof {
                                        assert(crate::value::list_view_upto(items, 0)
                                            =~= Seq::<crate::value::Val>::empty());
                                    }
                                    return crate::value::Value::List(items);
                                },
                            }
                        },
                        None => {
                            let items: Vec<crate::value::Value> = Vec::new();
                            proof {
                                assert(crate::value::list_view_upto(items, 0)
                                    =~= Seq::<crate::value::Val>::empty());
                            }
                            return crate::value::Value::List(items);
                        },
                    }
                },
            }
        } else {
            match &fd.derived_from {
                Some(rf) => {
                    let cands = related(store, &names, rf, &e.id);
                    if cands.len() > 0 {
                        proof {
                            lemma_ents_view(cands);
                        }
                        return render_entity(schema, store, &entry.subsels, &cands[0], fuel - 1);
                    }
                    return crate::value::Value::Null;
                },
                None => {
                    match e.attr(&entry.name) {
                        Some(v) => {
                            match v {
                                StoreVal::Str(id) => {
                                    match find_across(store, &names, id) {
                                        Some(tgt) => {
                                            return render_entity(
                                                schema,
                                                store,
                                                &entry.subsels,
                                                tgt,
                                                fuel - 1,
                                            );
                                        },
                                        None => {
                                            return crate::value::Value::Null;
                                        },
                                    }
                                },
                                _ => {
                                    return crate::value::Value::Null;
                                },
                            }
                        },
                        None => {
                            return crate::value::Value::Null;
                        },
                    }
                },
            }
        }
    } else {
        match e.attr(&entry.name) {
            Some(v) => {
                match v {
                    StoreVal::Int(n) => crate::value::Value::Int(*n),
                    StoreVal::Str(s) => crate::value::Value::Str(s.clone()),
                    StoreVal::StrList(l) => {
                        let ghost lv = Seq::new(l@.len(), |k: int| l@[k]@);
                        proof {
                            assert(v@ =~= SVal::StrList(lv));
                        }
                        let mut items: Vec<crate::value::Value> = Vec::new();
                        let mut j: usize = 0;
                        while j < l.len()
                            invariant
                                j <= l.len(),
                                lv == Seq::new(l@.len(), |k: int| l@[k]@),
                                lv.len() == l@.len(),
                                items@.len() == j as int,
                                forall|k: int|
                                    0 <= k < j as int ==> items@[k]
                                        == crate::value::Value::Str(l@[k]),
                            decreases l.len() - j,
                        {
                            items.push(crate::value::Value::Str(l[j].clone()));
                            j += 1;
                        }
                        proof {
                            crate::value::lemma_list_view(items, items@.len() as int);
                            assert(crate::value::list_view_upto(items, items@.len() as int)
                                =~= s_strs_vals(lv));
                        }
                        crate::value::Value::List(items)
                    },
                    StoreVal::Null => crate::value::Value::Null,
                }
            },
            None => crate::value::Value::Null,
        }
    }
}

/// Renders every entity of an ordered page.
pub fn render_page(
    schema: &Schema,
    store: &EntityStore,
    sels: &Vec<Selection>,
    page: &Vec<StoredEntity>,
    fuel: u64,
) -> (r: Vec<crate::value::Value>)
    ensures
        crate::value::list_view_upto(r, r@.len() as int) == s_render_list_upto(
            *schema,
            store@,
            sels_view(*sels),
            ents_view(*page),
            fuel as nat,
            ents_view(*page).len() as int,
        ),
    decreases fuel, 2int,
{
    proof {
        lemma_ents_view(*page);
    }
    let ghost pv = ents_view(*page);
    let mut r: Vec<crate::value::Value> = Vec::new();
    let mut i: usize = 0;
    while i < page.len()
        invariant
            i <= page.len(),
            pv == ents_view(*page),
            pv.len() == page@.len(),
            forall|k: int| 0 <= k < page@.len() ==> pv[k] == page@[k]@,
            crate::value::list_view_upto(r, r@.len() as int) == s_render_list_upto(
                *schema,
                store@,
                sels_view(*sels),
                pv,
                fuel as nat,
                i as int,
            ),
        decreases page.len() - i,
    {
        let ghost old_r = r;
        let v = render_entity(schema, store, sels, &page[i], fuel);
        let ghost vv = v@;
        r.push(v);
        proof {
            crate::value::lemma_list_view_push(old_r, r, r@[r@.len() - 1]);
            assert(crate::value::list_view_upto(r, r@.len() as int) =~= s_render_list_upto(
                *schema,
                store@,
                sels_view(*sels),
                pv,
                fuel as nat,
                i + 1,
            ));
        }
        i += 1;
    }
    r
}

/// Follows a stored reference list, rendering each resolvable target.
pub fn render_refs(
    schema: &Schema,
    store: &EntityStore,
    sels: &Vec<Selection>,
    names: &Vec<String>,
    ids: &Vec<String>,
    fuel: u64,
) -> (r: Vec<crate::value::Value>)
    ensures
        crate::value::list_view_upto(r, r@.len() as int) == s_render_refs_upto(
            *schema,
            store@,
            sels_view(*sels),
            names@,
            Seq::new(ids@.len(), |k: int| ids@[k]@),
            fuel as nat,
            ids@.len() as int,
        ),
    decreases fuel, 2int,
{
    let ghost iv = Seq::new(ids@.len(), |k: int| ids@[k]@);
    let mut r: Vec<crate::value::Value> = Vec::new();
    let mut i: usize = 0;
    while i < ids.len()
        invariant
            i <= ids.len(),
            iv == Seq::new(ids@.len(), |k: int| ids@[k]@),
            iv.len() == ids@.len(),
            crate::value::list_view_upto(r, r@.len() as int) == s_render_refs_upto(
                *schema,
                store@,
                sels_view(*sels),
                names@,
                iv,
                fuel as nat,
                i as int,
            ),
        decreases ids.len() - i,
    {
        let ghost old_r = r;
        proof {
            assert(iv[i as int] == ids@[i as int]@);
        }
        match find_across(store, names, &ids[i]) {
            Some(tgt) => {
                let v = render_entity(schema, store, sels, tgt, fuel);
                r.push(v);
                proof {
                    crate::value::lemma_list_view_push(old_r, r, r@[r@.len() - 1]);
                    assert(crate::value::list_view_upto(r, r@.len() as int)
                        =~= s_render_refs_upto(
                        *schema,
                        store@,
                        sels_view(*sels),
                        names@,
                        iv,
                        fuel as nat,
                        i + 1,
                    ));
                }
            },
            None => {
                proof {
                    assert(crate::value::list_view_upto(r, r@.len() as int)
                        =~= s_render_refs_upto(
                        *schema,
                        store@,
                        sels_view(*sels),
                        names@,
                        iv,
                        fuel as nat,
                        i + 1,
                    ));
                }
            },
        }
        i += 1;
    }
    r
}

/// The value one root plan entry yields.
pub fn exec_root_field(
    schema: &Schema,
    store: &EntityStore,
    qt: &ObjectTypeDef,
    entry: &crate::plan::PlanEntry,
    fuel: u64,
) -> (r: crate::value::Value)
    ensures
        r@ == s_exec_root_field(
            *schema,
            store@,
            *qt,
            crate::plan::plan_entry_view(*entry),
            fuel as nat,
        ),
{
    if is_typename(&entry.name) {
        return crate::value::Value::Str(qt.name.clone());
    }
    let fd = match find_field(&qt.fields, &entry.name) {
        None => {
            return crate::value::Value::Null;
        },
        Some(fd) => fd,
    };
    let composite = match type_fields(schema, &fd.value_type) {
        Some(_) => true,
        None => false,
    };
    if !composite {
        return crate::value::Value::Null;
    }
    let names = target_types(schema, &fd.value_type);
    let ghost entv = crate::plan::plan_entry_view(*entry);
    if fd.is_list {
        let cands = entities_of(store, &names);
        let ob = order_by_arg(&entry.arguments);
        let sorted = sort_ents(&ob, cands);
        let sk = skip_arg(&entry.arguments);
        let fi = first_arg(&entry.arguments);
        let page = paginate(sorted, sk, fi);
        proof {
            assert(s_opt_int(fi) == s_first_arg(entv.arguments));
        }
        let items = render_page(schema, store, &entry.subsels, &page, fuel);
        crate::value::Value::List(items)
    } else {
        match id_arg(&entry.arguments) {
            Some(id) => {
                match find_across(store, &names, &id) {
                    Some(tgt) => render_entity(schema, store, &entry.subsels, tgt, fuel),
                    None => crate::value::Value::Null,
                }
            },
            None => crate::value::Value::Null,
        }
    }
}

/// Executes an operation's selection set with its named fragments,
/// yielding the ordered result tree or every validation error raised.
pub fn execute_selection(
    schema: &Schema,
    store: &EntityStore,
    fragments: &Vec<crate::query::FragmentDef>,
    selections: &Vec<Selection>,
) -> (r: Result<crate::value::Value, Vec<QueryExecutionError>>)
    ensures
        (match r {
            Ok(v) => s_execute_sels(*schema, store@, fragments@, *selections) == Ok::<
                crate::value::Val,
                Seq<ErrV>,
            >(v@),
            Err(es) => s_execute_sels(*schema, store@, fragments@, *selections) == Err::<
                crate::value::Val,
                Seq<ErrV>,
            >(crate::errors::errs_view(es)),
        }),
{
    let nfrags = fragments.len();
    let fuel0: u64 = if (nfrags as u64) == 0xFFFF_FFFF_FFFF_FFFF {
        0xFFFF_FFFF_FFFF_FFFF
    } else {
        (nfrags as u64) + 1
    };
    let isels = match crate::query::inline_sels(fragments, selections, fuel0) {
        Ok(isels) => isels,
        Err(e) => {
            let ghost ev = e@;
            let mut es: Vec<QueryExecutionError> = Vec::new();
            es.push(e);
            proof {
                crate::errors::lemma_errs_view(es, 1);
                assert(crate::errors::errs_view(es) =~= seq![ev]);
            }
            return Err(es);
        },
    };
    let qt = match schema.object_type(&schema.query_type) {
        Some(qt) => qt,
        None => {
            let e = QueryExecutionError::UnknownType(schema.query_type.clone());
            let ghost ev = e@;
            let mut es: Vec<QueryExecutionError> = Vec::new();
            es.push(e);
            proof {
                crate::errors::lemma_errs_view(es, 1);
                assert(crate::errors::errs_view(es) =~= seq![ev]);
            }
            return Err(es);
        },
    };
    let errs = validate_sels(schema, &qt.name, &qt.fields, &isels);
    if errs.len() > 0 {
        proof {
            crate::errors::lemma_errs_view(errs, errs@.len() as int);
        }
        return Err(errs);
    }
    proof {
        crate::errors::lemma_errs_view(errs, errs@.len() as int);
    }
    let hf = height_sels(&isels);
    let plan = crate::plan::plan_for_type(schema, &qt.name, &isels);
    proof {
        crate::plan::lemma_plan_view(plan);
    }
    let ghost pv = crate::plan::plan_view(plan);
    let mut obj: Vec<(String, crate::value::Value)> = Vec::new();
    let mut i: usize = 0;
    while i < plan.len()
        invariant
            i <= plan.len(),
            pv == crate::plan::plan_view(plan),
            pv.len() == plan@.len(),
            forall|k: int|
                0 <= k < plan@.len() ==> pv[k] == crate::plan::plan_entry_view(plan@[k]),
            crate::value::object_view_upto(obj, obj@.len() as int) == s_exec_root_upto(
                *schema,
                store@,
                *qt,
                pv,
                hf as nat,
                i as int,
            ),
        decreases plan.len() - i,
    {
        let ghost old_obj = obj;
        let fv = exec_root_field(schema, store, qt, &plan[i], hf);
        let key = plan[i].key.clone();
        obj.push((key, fv));
        proof {
            crate::value::lemma_object_view_push(old_obj, obj, obj@[obj@.len() - 1]);
            assert(crate::value::object_view_upto(obj, obj@.len() as int) =~= s_exec_root_upto(
                *schema,
                store@,
                *qt,
                pv,
                hf as nat,
                i + 1,
            ));
        }
        i += 1;
    }
    Ok(crate::value::Value::Object(obj))
}

/// The single entry point: executes a parsed document against a schema
/// and an entity store, yielding the ordered result tree or every
/// validation error the document raises.
pub fn execute_query(
    schema: &Schema,
    store: &EntityStore,
    doc: &crate::query::Document,
) -> (r: Result<crate::value::Value, Vec<QueryExecutionError>>)
    ensures
        (match r {
            Ok(v) => s_execute(*schema, store@, *doc) == Ok::<crate::value::Val, Seq<ErrV>>(v@),
            Err(es) => s_execute(*schema, store@, *doc) == Err::<crate::value::Val, Seq<ErrV>>(
                crate::errors::errs_view(es),
            ),
        }),
{
    execute_selection(schema, store, &doc.fragments, &doc.selections)
}

} // verus!
