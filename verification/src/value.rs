//! Result value trees and their mathematical model.

use vstd::prelude::*;

verus! {

broadcast use vstd::std_specs::vec::axiom_vec_index_decreases;

/// The mathematical shape of a result value: an ordered, null-aware tree
/// of objects, lists, integers and strings.
#[verifier::ext_equal]
pub enum Val {
    Null,
    Int(int),
    Str(Seq<char>),
    List(Seq<Val>),
    Object(Seq<(Seq<char>, Val)>),
}

/// An executable result value tree. Object entries keep the order in which
/// the planner emitted them; keys are response keys (alias or field name).
#[derive(Debug)]
pub enum Value {
    Null,
    Int(i64),
    Str(String),
    List(Vec<Value>),
    Object(Vec<(String, Value)>),
}

/// The model of a result value.
pub open spec fn value_view(v: Value) -> Val
    decreases v, 0int,
{
    match v {
        Value::Null => Val::Null,
        Value::Int(i) => Val::Int(i as int),
        Value::Str(s) => Val::Str(s@),
        Value::List(items) => Val::List(list_view_upto(items, items.len() as int)),
        Value::Object(entries) => Val::Object(object_view_upto(entries, entries.len() as int)),
    }
}

/// The models of the first `n` elements of a list of values.
pub open spec fn list_view_upto(items: Vec<Value>, n: int) -> Seq<Val>
    decreases items, n,
{
    if n <= 0 || n > items.len() {
        Seq::empty()
    } else {
        list_view_upto(items, n - 1).push(value_view(items[n - 1]))
    }
}

/// The models of the first `n` entries of an object.
pub open spec fn object_view_upto(entries: Vec<(String, Value)>, n: int) -> Seq<(Seq<char>, Val)>
    decreases entries, n,
{
    if n <= 0 || n > entries.len() {
        Seq::empty()
    } else {
        object_view_upto(entries, n - 1).push((entries[n - 1].0@, value_view(entries[n - 1].1)))
    }
}

impl View for Value {
    type V = Val;

    open spec fn view(&self) -> Val {
        value_view(*self)
    }
}

pub proof fn lemma_list_view(items: Vec<Value>, n: int)
    requires
        0 <= n <= items.len(),
    ensures
        list_view_upto(items, n).len() == n,
        forall|k: int| 0 <= k < n ==> list_view_upto(items, n)[k] == value_view(items@[k]),
    decreases n,
{
    if n > 0 {
        lemma_list_view(items, n - 1);
    }
}

pub proof fn lemma_object_view(entries: Vec<(String, Value)>, n: int)
    requires
        0 <= n <= entries.len(),
    ensures
        object_view_upto(entries, n).len() == n,
        forall|k: int|
            0 <= k < n ==> object_view_upto(entries, n)[k] == (
            entries@[k].0@,
            value_view(entries@[k].1),
            ),
    decreases n,
{
    if n > 0 {
        lemma_object_view(entries, n - 1);
    }
}

/// Pushing a list element extends the model by its model.
pub proof fn lemma_list_view_push(older: Vec<Value>, newer: Vec<Value>, x: Value)
    requires
        newer@ == older@.push(x),
    ensures
        list_view_upto(newer, newer@.len() as int) == list_view_upto(
            older,
            older@.len() as int,
        ).push(value_view(x)),
{
    lemma_list_view(older, older.len() as int);
    lemma_list_view(newer, newer.len() as int);
    assert(list_view_upto(newer, newer@.len() as int) =~= list_view_upto(
        older,
        older@.len() as int,
    ).push(value_view(x)));
}

/// Pushing an object entry extends the model by its model.
pub proof fn lemma_object_view_push(
    older: Vec<(String, Value)>,
    newer: Vec<(String, Value)>,
    x: (String, Value),
)
    requires
        newer@ == older@.push(x),
    ensures
        object_view_upto(newer, newer@.len() as int) == object_view_upto(
            older,
            older@.len() as int,
        ).push((x.0@, value_view(x.1))),
{
    lemma_object_view(older, older.len() as int);
    lemma_object_view(newer, newer.len() as int);
    assert(object_view_upto(newer, newer@.len() as int) =~= object_view_upto(
        older,
        older@.len() as int,
    ).push((x.0@, value_view(x.1))));
}

} // verus!
