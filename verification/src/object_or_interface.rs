//! A uniform, read-only view over "object type or interface type",
//! borrowed from the schema for the lifetime of a query.

use vstd::prelude::*;
use crate::schema::{
    Directive, FieldDef, InterfaceTypeDef, ObjectTypeDef, Schema, contains_name,
    s_contains_name, s_find_field, s_find_interface, s_implementors, implementors_of,
};
use crate::exec::find_field;
use vstd::string::StringExecFns;

verus! {

/// Either a concrete object type or an abstract interface type.
#[derive(Clone, Copy)]
pub enum ObjectOrInterface<'a> {
    Object(&'a ObjectTypeDef),
    Interface(&'a InterfaceTypeDef),
}

/// The name a type reference exposes.
pub open spec fn s_oi_name(o: ObjectOrInterface) -> Seq<char> {
    match o {
        ObjectOrInterface::Object(t) => t.name@,
        ObjectOrInterface::Interface(t) => t.name@,
    }
}

/// The fields a type reference declares.
pub open spec fn s_oi_fields(o: ObjectOrInterface) -> Seq<FieldDef> {
    match o {
        ObjectOrInterface::Object(t) => t.fields@,
        ObjectOrInterface::Interface(t) => t.fields@,
    }
}

/// Whether a concrete type name satisfies the reference: the object's own
/// name, or an implementor of the interface.
pub open spec fn s_oi_matches(o: ObjectOrInterface, schema: Schema, typename: Seq<char>) -> bool {
    match o {
        ObjectOrInterface::Object(t) => t.name@ == typename,
        ObjectOrInterface::Interface(t) => s_contains_name(
            s_implementors(schema.object_types@, t.name@),
            typename,
        ),
    }
}

impl<'a> ObjectOrInterface<'a> {
    /// Whether the reference is a concrete object type.
    pub fn is_object(self) -> (r: bool)
        ensures
            r == (self is Object),
    {
        match self {
            ObjectOrInterface::Object(_) => true,
            ObjectOrInterface::Interface(_) => false,
        }
    }

    /// Whether the reference is an abstract interface type.
    pub fn is_interface(self) -> (r: bool)
        ensures
            r == (self is Interface),
    {
        match self {
            ObjectOrInterface::Object(_) => false,
            ObjectOrInterface::Interface(_) => true,
        }
    }

    /// The referenced type's name.
    pub fn name(self) -> (r: &'a String)
        ensures
            r@ == s_oi_name(self),
    {
        match self {
            ObjectOrInterface::Object(t) => &t.name,
            ObjectOrInterface::Interface(t) => &t.name,
        }
    }

    /// The referenced type's directives.
    pub fn directives(self) -> (r: &'a Vec<Directive>)
        ensures
            (match self {
                ObjectOrInterface::Object(t) => r == &t.directives,
                ObjectOrInterface::Interface(t) => r == &t.directives,
            }),
    {
        match self {
            ObjectOrInterface::Object(t) => &t.directives,
            ObjectOrInterface::Interface(t) => &t.directives,
        }
    }

    /// The referenced type's declared fields.
    pub fn fields(self) -> (r: &'a Vec<FieldDef>)
        ensures
            r@ == s_oi_fields(self),
    {
        match self {
            ObjectOrInterface::Object(t) => &t.fields,
            ObjectOrInterface::Interface(t) => &t.fields,
        }
    }

    /// The declared field with the given name, if any.
    pub fn field(&self, name: &String) -> (r: Option<&'a FieldDef>)
        ensures
            (match r {
                Some(fd) => s_find_field(s_oi_fields(*self), name@) == Some(*fd),
                None => s_find_field(s_oi_fields(*self), name@) is None,
            }),
    {
        find_field(self.fields(), name)
    }

    /// The concrete object types a value at this position may have: the
    /// object itself, or the interface's implementor definitions - none
    /// if the interface is unknown to the schema.
    pub fn object_types(self, schema: &'a Schema) -> (r: Option<Vec<&'a ObjectTypeDef>>)
        ensures
            (match self {
                ObjectOrInterface::Object(t) => (r matches Some(v) && v@.len() == 1 && v@[0]
                    == t),
                ObjectOrInterface::Interface(t) => {
                    &&& (s_find_interface(schema.interface_types@, t.name@) is Some ==> (
                    r matches Some(v) && {
                        let defs = s_implementor_defs(schema.object_types@, t.name@);
                        &&& v@.len() == defs.len()
                        &&& (forall|k: int| 0 <= k < defs.len() ==> *(#[trigger] v@[k]) == defs[k])
                    }))
                    &&& (s_find_interface(schema.interface_types@, t.name@) is None ==> r is None)
                },
            }),
    {
        match self {
            ObjectOrInterface::Object(t) => {
                let mut v: Vec<&'a ObjectTypeDef> = Vec::new();
                v.push(t);
                Some(v)
            },
            ObjectOrInterface::Interface(t) => {
                match schema.interface_type(&t.name) {
                    Some(_) => Some(implementor_defs_of(&schema.object_types, &t.name)),
                    None => None,
                }
            },
        }
    }

    /// Whether `typename` names a concrete type satisfying this reference:
    /// the object itself, or an implementor of the interface. An
    /// interface reference must be registered in the schema: the schema
    /// was validated at load time, so asking about an unregistered
    /// interface is an invariant violation, which the precondition
    /// excludes rather than answering at run time.
    pub fn matches(self, typename: &String, schema: &Schema) -> (r: bool)
        requires
            (self matches ObjectOrInterface::Interface(t) ==> s_find_interface(
                schema.interface_types@,
                t.name@,
            ) is Some),
        ensures
            r == s_oi_matches(self, *schema, typename@),
    {
        match self {
            ObjectOrInterface::Object(t) => t.name == *typename,
            ObjectOrInterface::Interface(t) => {
                let impls = implementors_of(&schema.object_types, &t.name);
                contains_name(&impls, typename)
            },
        }
    }

    /// Whether the reference names the reserved metadata type.
    pub fn is_meta(&self) -> (r: bool)
        ensures
            r == (s_oi_name(*self) == "_Meta_"@),
    {
        let m = String::from_str("_Meta_");
        *self.name() == m
    }
}


/// The object type definitions among the first `n` that declare `iface`.
pub open spec fn s_implementor_defs_upto(ts: Seq<ObjectTypeDef>, iface: Seq<char>, n: int) -> Seq<
    ObjectTypeDef,
>
    decreases n,
{
    if n <= 0 || n > ts.len() {
        Seq::empty()
    } else if crate::schema::s_declares_interface(ts[n - 1], iface) {
        s_implementor_defs_upto(ts, iface, n - 1).push(ts[n - 1])
    } else {
        s_implementor_defs_upto(ts, iface, n - 1)
    }
}

/// The definitions of every object type declaring `iface`, in schema order.
pub open spec fn s_implementor_defs(ts: Seq<ObjectTypeDef>, iface: Seq<char>) -> Seq<
    ObjectTypeDef,
> {
    s_implementor_defs_upto(ts, iface, ts.len() as int)
}

/// Borrows the definitions of the interface's implementors, in order.
pub fn implementor_defs_of<'a>(object_types: &'a Vec<ObjectTypeDef>, iface: &String) -> (r: Vec<
    &'a ObjectTypeDef,
>)
    ensures
        r@.len() == s_implementor_defs(object_types@, iface@).len(),
        forall|k: int|
            0 <= k < r@.len() ==> *(#[trigger] r@[k]) == s_implementor_defs(
                object_types@,
                iface@,
            )[k],
{
    let mut r: Vec<&'a ObjectTypeDef> = Vec::new();
    let mut i: usize = 0;
    while i < object_types.len()
        invariant
            i <= object_types.len(),
            r@.len() == s_implementor_defs_upto(object_types@, iface@, i as int).len(),
            forall|k: int|
                0 <= k < r@.len() ==> *(#[trigger] r@[k]) == s_implementor_defs_upto(
                    object_types@,
                    iface@,
                    i as int,
                )[k],
        decreases object_types.len() - i,
    {
        if contains_name(&object_types[i].interfaces, iface) {
            r.push(&object_types[i]);
        }
        i += 1;
    }
    r
}

} // verus!
