//! The pluggable resolver contract: the capability surface a store
//! back-end implements once, and the in-memory store's implementation.

use vstd::prelude::*;
use crate::schema::{
    FieldDef, ObjectTypeDef, Schema, implementors_of, s_find_interface, s_find_object,
    s_implementors,
};
use crate::query::{Argument, FieldSel, FragmentDef, Selection, args_view, sels_view};
use crate::store::EntityStore;
use crate::errors::{ErrV, QueryExecutionError, errs_view};
use crate::value::{Val, Value};
use crate::object_or_interface::ObjectOrInterface;
use crate::exec::{
    entities_of, execute_selection, find_across, first_arg, height_sels, id_arg, order_by_arg,
    paginate, render_entity, render_page, s_entities_of, s_execute_sels, s_find_across,
    s_first_arg, s_h_sels, s_id_arg, s_opt_int, s_order_by_arg, s_paginate, s_render_entity,
    s_render_list_upto, s_skip_arg, s_sort_ents, skip_arg, sort_ents,
};
use vstd::string::StringExecFns;

verus! {

/// A handle naming the live-update stream a caller asked for.
pub struct FieldStream {
    pub subject_type: String,
    pub field_name: String,
}

/// The `__typename` tag carried by an object value: the first entry under
/// that key holding a string.
pub open spec fn s_typename_tag_upto(entries: Seq<(Seq<char>, Val)>, n: int) -> Option<Seq<char>>
    decreases n,
{
    if n <= 0 || n > entries.len() {
        None
    } else if s_typename_tag_upto(entries, n - 1) is Some {
        s_typename_tag_upto(entries, n - 1)
    } else if entries[n - 1].0 == "__typename"@ {
        match entries[n - 1].1 {
            Val::Str(s) => Some(s),
            _ => None,
        }
    } else {
        None
    }
}

pub open spec fn s_typename_tag(v: Val) -> Option<Seq<char>> {
    match v {
        Val::Object(entries) => s_typename_tag_upto(entries, entries.len() as int),
        _ => None,
    }
}

proof fn lemma_typename_tag_stable(entries: Seq<(Seq<char>, Val)>, n: int)
    requires
        0 <= n <= entries.len(),
        s_typename_tag_upto(entries, n) is Some,
    ensures
        s_typename_tag_upto(entries, entries.len() as int) == s_typename_tag_upto(entries, n),
    decreases entries.len() - n,
{
    if n < entries.len() {
        lemma_typename_tag_stable(entries, n + 1);
    }
}

/// A resolver: the strategy for fetching objects, scalars and enums from
/// a back-end, consumed by the execution engine. Implemented once per
/// store; the in-memory store's implementation is below.
pub trait Resolver: Sized {
    /// Whether results from this resolver may be cached by callers.
    const CACHEABLE: bool;

    /// Attempts to satisfy a whole selection in one batched store pass;
    /// `None` falls back to per-field resolution.
    fn prefetch(&self, schema: &Schema, selection_set: &Vec<Selection>) -> Result<
        Option<Value>,
        Vec<QueryExecutionError>,
    >;

    /// Resolves a to-many relation as an ordered list honoring the
    /// requested order and page; a supplied prefetched value is reused
    /// rather than re-fetched.
    fn resolve_objects(
        &self,
        prefetched_objects: Option<Value>,
        field: &FieldSel,
        field_definition: &FieldDef,
        object_type: ObjectOrInterface<'_>,
        arguments: &Vec<Argument>,
    ) -> (r: Result<Value, QueryExecutionError>)
        ensures
            (prefetched_objects matches Some(v) ==> (r matches Ok(out) && out@ == v@)),
    ;

    /// Resolves a singular relation; a supplied prefetched value is
    /// reused rather than re-fetched.
    fn resolve_object(
        &self,
        prefetched_object: Option<Value>,
        field: &FieldSel,
        field_definition: &FieldDef,
        object_type: ObjectOrInterface<'_>,
        arguments: &Vec<Argument>,
    ) -> (r: Result<Value, QueryExecutionError>)
        ensures
            (prefetched_object matches Some(v) ==> (r matches Ok(out) && out@ == v@)),
    ;

    /// Resolves an enum value: the already-fetched value passes through.
    fn resolve_enum_value(&self, _field: &FieldSel, value: Option<Value>) -> (r: Result<
        Value,
        QueryExecutionError,
    >)
        ensures
            (match r {
                Ok(out) => out@ == (match value {
                    Some(v) => v@,
                    None => Val::Null,
                }),
                Err(_) => false,
            }),
    {
        match value {
            Some(v) => Ok(v),
            None => Ok(Value::Null),
        }
    }

    /// Resolves a scalar value: the already-fetched value passes through.
    fn resolve_scalar_value(
        &self,
        _parent_object_type: &ObjectTypeDef,
        _field: &FieldSel,
        value: Option<Value>,
        _argument_values: &Vec<Argument>,
    ) -> (r: Result<Value, QueryExecutionError>)
        ensures
            (match r {
                Ok(out) => out@ == (match value {
                    Some(v) => v@,
                    None => Val::Null,
                }),
                Err(_) => false,
            }),
    {
        match value {
            Some(v) => Ok(v),
            None => Ok(Value::Null),
        }
    }

    /// Resolves a list of enum values: the fetched value passes through.
    fn resolve_enum_values(&self, _field: &FieldSel, value: Option<Value>) -> (r: Result<
        Value,
        Vec<QueryExecutionError>,
    >)
        ensures
            (match r {
                Ok(out) => out@ == (match value {
                    Some(v) => v@,
                    None => Val::Null,
                }),
                Err(_) => false,
            }),
    {
        match value {
            Some(v) => Ok(v),
            None => Ok(Value::Null),
        }
    }

    /// Resolves a list of scalar values: the fetched value passes through.
    fn resolve_scalar_values(&self, _field: &FieldSel, value: Option<Value>) -> (r: Result<
        Value,
        Vec<QueryExecutionError>,
    >)
        ensures
            (match r {
                Ok(out) => out@ == (match value {
                    Some(v) => v@,
                    None => Val::Null,
                }),
                Err(_) => false,
            }),
    {
        match value {
            Some(v) => Ok(v),
            None => Ok(Value::Null),
        }
    }

    /// Resolves an abstract position to the concrete object type named by
    /// the value's `__typename` tag, looked up in the schema's registry.
    /// Every object value the engine builds is stamped with a valid tag,
    /// so a missing, non-string or unregistered tag is an invariant
    /// violation; a verified resolver cannot fail fast by panicking, so
    /// the violation surfaces as `None` instead.
    fn resolve_abstract_type<'b>(&self, schema: &'b Schema, object_value: &Value) -> (r: Option<
        &'b ObjectTypeDef,
    >)
        ensures
            (match s_typename_tag(object_value@) {
                Some(n) => (match r {
                    Some(t) => s_find_object(schema.object_types@, n) == Some(*t),
                    None => s_find_object(schema.object_types@, n) is None,
                }),
                None => r is None,
            }),
    {
        let entries = match object_value {
            Value::Object(entries) => entries,
            _ => {
                return None;
            },
        };
        proof {
            crate::value::lemma_object_view(*entries, entries@.len() as int);
            assert(object_value@ =~= Val::Object(
                crate::value::object_view_upto(*entries, entries@.len() as int),
            ));
        }
        let ghost evs = crate::value::object_view_upto(*entries, entries@.len() as int);
        let tag = String::from_str("__typename");
        let mut i: usize = 0;
        while i < entries.len()
            invariant
                i <= entries.len(),
                object_value@ == Val::Object(evs),
                evs == crate::value::object_view_upto(*entries, entries@.len() as int),
                evs.len() == entries@.len(),
                forall|k: int|
                    0 <= k < entries@.len() ==> evs[k] == (
                    entries@[k].0@,
                    crate::value::value_view(entries@[k].1),
                    ),
                tag@ == "__typename"@,
                s_typename_tag_upto(evs, i as int) is None,
            decreases entries.len() - i,
        {
            if entries[i].0 == tag {
                match &entries[i].1 {
                    Value::Str(n) => {
                        assert(s_typename_tag_upto(evs, i + 1) == Some(n@));
                        proof {
                            lemma_typename_tag_stable(evs, i + 1);
                        }
                        return schema.object_type(n);
                    },
                    Value::Null => {
                        assert(s_typename_tag_upto(evs, i + 1) is None);
                    },
                    Value::Int(_) => {
                        assert(s_typename_tag_upto(evs, i + 1) is None);
                    },
                    Value::List(_) => {
                        assert(s_typename_tag_upto(evs, i + 1) is None);
                    },
                    Value::Object(_) => {
                        assert(s_typename_tag_upto(evs, i + 1) is None);
                    },
                }
            }
            i += 1;
        }
        None
    }

    /// Exposes a live-update stream for a field; a query-only resolver
    /// signals the missing capability with the same error on every input.
    fn resolve_field_stream(
        &self,
        _schema: &Schema,
        _object_type: &ObjectTypeDef,
        _field: &FieldSel,
    ) -> (r: Result<FieldStream, QueryExecutionError>)
        ensures
            (r matches Err(e) && e@ == ErrV::NotSupported(
                "Resolving field streams is not supported by this resolver"@,
            )),
    {
        let msg = String::from_str("Resolving field streams is not supported by this resolver");
        Err(QueryExecutionError::NotSupported(msg))
    }
}

/// The names of the storable concrete types a position can hold: the
/// object type itself, or every implementor of a registered interface.
pub open spec fn s_position_types(o: ObjectOrInterface, schema: Schema) -> Seq<String> {
    match o {
        ObjectOrInterface::Object(t) => seq![t.name],
        ObjectOrInterface::Interface(t) => match s_find_interface(
            schema.interface_types@,
            t.name@,
        ) {
            Some(_) => s_implementors(schema.object_types@, t.name@),
            None => Seq::empty(),
        },
    }
}

fn position_type_names(object_type: ObjectOrInterface<'_>, schema: &Schema) -> (r: Vec<String>)
    ensures
        r@ == s_position_types(object_type, *schema),
{
    match object_type {
        ObjectOrInterface::Object(t) => {
            let mut names: Vec<String> = Vec::new();
            names.push(t.name.clone());
            proof {
                assert(names@ =~= seq![t.name]);
            }
            names
        },
        ObjectOrInterface::Interface(t) => {
            match schema.interface_type(&t.name) {
                Some(_) => implementors_of(&schema.object_types, &t.name),
                None => {
                    let names: Vec<String> = Vec::new();
                    proof {
                        assert(names@ =~= Seq::<String>::empty());
                    }
                    names
                },
            }
        },
    }
}

/// The in-memory store's resolver: every capability is answered from the
/// schema and store it was built over.
pub struct StoreResolver {
    pub schema: Schema,
    pub store: EntityStore,
}

impl Resolver for StoreResolver {
    /// Results read from the in-memory store may be cached: the engine
    /// makes no mutation during query execution.
    const CACHEABLE: bool = true;

    /// Satisfies the whole selection in one pass over the store: the
    /// tree is exactly what executing the fragment-free selection yields,
    /// or its full error list.
    fn prefetch(&self, schema: &Schema, selection_set: &Vec<Selection>) -> (r: Result<
        Option<Value>,
        Vec<QueryExecutionError>,
    >)
        ensures
            (match r {
                Ok(o) => (o matches Some(v) && s_execute_sels(
                    *schema,
                    self.store@,
                    Seq::<FragmentDef>::empty(),
                    *selection_set,
                ) == Ok::<Val, Seq<ErrV>>(v@)),
                Err(es) => s_execute_sels(
                    *schema,
                    self.store@,
                    Seq::<FragmentDef>::empty(),
                    *selection_set,
                ) == Err::<Val, Seq<ErrV>>(errs_view(es)),
            }),
    {
        let no_frags: Vec<FragmentDef> = Vec::new();
        proof {
            assert(no_frags@ =~= Seq::<FragmentDef>::empty());
        }
        match execute_selection(schema, &self.store, &no_frags, selection_set) {
            Ok(v) => Ok(Some(v)),
            Err(es) => Err(es),
        }
    }

    /// A to-many relation: a prefetched value is reused; otherwise the
    /// result is the rendered page of every stored entity of the
    /// position's concrete types, globally ordered as the arguments ask.
    fn resolve_objects(
        &self,
        prefetched_objects: Option<Value>,
        field: &FieldSel,
        _field_definition: &FieldDef,
        object_type: ObjectOrInterface<'_>,
        arguments: &Vec<Argument>,
    ) -> (r: Result<Value, QueryExecutionError>)
        ensures
            (match prefetched_objects {
                Some(v) => (r matches Ok(out) && out@ == v@),
                None => ({
                    let args = args_view(*arguments);
                    let ssv = sels_view(field.selection_set);
                    let page = s_paginate(
                        s_sort_ents(
                            s_order_by_arg(args),
                            s_entities_of(
                                self.store@,
                                s_position_types(object_type, self.schema),
                            ),
                        ),
                        s_skip_arg(args),
                        s_first_arg(args),
                    );
                    r matches Ok(out) && out@ == Val::List(
                        s_render_list_upto(
                            self.schema,
                            self.store@,
                            ssv,
                            page,
                            s_h_sels(ssv, ssv.len() as int),
                            page.len() as int,
                        ),
                    )
                }),
            }),
    {
        match prefetched_objects {
            Some(v) => Ok(v),
            None => {
                let names = position_type_names(object_type, &self.schema);
                let cands = entities_of(&self.store, &names);
                let ob = order_by_arg(arguments);
                let sorted = sort_ents(&ob, cands);
                let sk = skip_arg(arguments);
                let fi = first_arg(arguments);
                proof {
                    assert(s_opt_int(fi) == s_first_arg(args_view(*arguments)));
                }
                let page = paginate(sorted, sk, fi);
                let fuel = height_sels(&field.selection_set);
                let items = render_page(
                    &self.schema,
                    &self.store,
                    &field.selection_set,
                    &page,
                    fuel,
                );
                Ok(Value::List(items))
            },
        }
    }

    /// A singular relation: a prefetched value is reused; otherwise the
    /// result renders the entity carrying the requested id under any of
    /// the position's concrete types, or null.
    fn resolve_object(
        &self,
        prefetched_object: Option<Value>,
        field: &FieldSel,
        _field_definition: &FieldDef,
        object_type: ObjectOrInterface<'_>,
        arguments: &Vec<Argument>,
    ) -> (r: Result<Value, QueryExecutionError>)
        ensures
            (match prefetched_object {
                Some(v) => (r matches Ok(out) && out@ == v@),
                None => ({
                    let ssv = sels_view(field.selection_set);
                    let names = s_position_types(object_type, self.schema);
                    match s_id_arg(args_view(*arguments)) {
                        Some(id) => (match s_find_across(self.store@, names, id) {
                            Some(e) => r matches Ok(out) && out@ == s_render_entity(
                                self.schema,
                                self.store@,
                                ssv,
                                e,
                                s_h_sels(ssv, ssv.len() as int),
                            ),
                            None => r matches Ok(out) && out@ == Val::Null,
                        }),
                        None => r matches Ok(out) && out@ == Val::Null,
                    }
                }),
            }),
    {
        match prefetched_object {
            Some(v) => Ok(v),
            None => {
                let names = position_type_names(object_type, &self.schema);
                match id_arg(arguments) {
                    Some(id) => {
                        match find_across(&self.store, &names, &id) {
                            Some(tgt) => {
                                let fuel = height_sels(&field.selection_set);
                                Ok(
                                    render_entity(
                                        &self.schema,
                                        &self.store,
                                        &field.selection_set,
                                        tgt,
                                        fuel,
                                    ),
                                )
                            },
                            None => Ok(Value::Null),
                        }
                    },
                    None => Ok(Value::Null),
                }
            },
        }
    }
}

} // verus!
