//! Schema types: object and interface definitions, the interface index,
//! and the uniform view over "object type or interface type".

use vstd::prelude::*;

verus! {

/// A directive attached to a type definition, as the schema loader supplies it.
pub struct Directive {
    pub name: String,
}

/// A field declared on an object or interface type.
///
/// `value_type` is the name of the field's value type with list/non-null
/// wrappers stripped; `is_list` records whether a list wrapper was present.
/// `derived_from` holds the reverse field name for a derived relation.
pub struct FieldDef {
    pub name: String,
    pub value_type: String,
    pub is_list: bool,
    pub derived_from: Option<String>,
}

/// A concrete, storable object type.
pub struct ObjectTypeDef {
    pub name: String,
    pub interfaces: Vec<String>,
    pub fields: Vec<FieldDef>,
    pub directives: Vec<Directive>,
}

/// An abstract interface type.
pub struct InterfaceTypeDef {
    pub name: String,
    pub fields: Vec<FieldDef>,
    pub directives: Vec<Directive>,
}

/// One row of the interface index: an interface name and the names of the
/// object types that declare it, in schema order.
pub struct InterfaceImplementors {
    pub interface: String,
    pub implementors: Vec<String>,
}

/// A schema: the named types and the interface index, built once and
/// read-only during query execution.
pub struct Schema {
    pub query_type: String,
    pub object_types: Vec<ObjectTypeDef>,
    pub interface_types: Vec<InterfaceTypeDef>,
    pub interface_index: Vec<InterfaceImplementors>,
}

/// First object type with the given name, scanning the first `n` entries.
pub open spec fn s_find_object_upto(ts: Seq<ObjectTypeDef>, name: Seq<char>, n: int) -> Option<
    ObjectTypeDef,
>
    decreases n,
{
    if n <= 0 || n > ts.len() {
        None
    } else if s_find_object_upto(ts, name, n - 1) is Some {
        s_find_object_upto(ts, name, n - 1)
    } else if ts[n - 1].name@ == name {
        Some(ts[n - 1])
    } else {
        None
    }
}

pub open spec fn s_find_object(ts: Seq<ObjectTypeDef>, name: Seq<char>) -> Option<ObjectTypeDef> {
    s_find_object_upto(ts, name, ts.len() as int)
}

/// First interface type with the given name, scanning the first `n` entries.
pub open spec fn s_find_interface_upto(
    ts: Seq<InterfaceTypeDef>,
    name: Seq<char>,
    n: int,
) -> Option<InterfaceTypeDef>
    decreases n,
{
    if n <= 0 || n > ts.len() {
        None
    } else if s_find_interface_upto(ts, name, n - 1) is Some {
        s_find_interface_upto(ts, name, n - 1)
    } else if ts[n - 1].name@ == name {
        Some(ts[n - 1])
    } else {
        None
    }
}

pub open spec fn s_find_interface(ts: Seq<InterfaceTypeDef>, name: Seq<char>) -> Option<
    InterfaceTypeDef,
> {
    s_find_interface_upto(ts, name, ts.len() as int)
}

/// First field with the given name, scanning the first `n` entries.
pub open spec fn s_find_field_upto(fs: Seq<FieldDef>, name: Seq<char>, n: int) -> Option<FieldDef>
    decreases n,
{
    if n <= 0 || n > fs.len() {
        None
    } else if s_find_field_upto(fs, name, n - 1) is Some {
        s_find_field_upto(fs, name, n - 1)
    } else if fs[n - 1].name@ == name {
        Some(fs[n - 1])
    } else {
        None
    }
}

pub open spec fn s_find_field(fs: Seq<FieldDef>, name: Seq<char>) -> Option<FieldDef> {
    s_find_field_upto(fs, name, fs.len() as int)
}

/// Whether one of the first `n` names is `name`.
pub open spec fn s_contains_name_upto(names: Seq<String>, name: Seq<char>, n: int) -> bool
    decreases n,
{
    if n <= 0 || n > names.len() {
        false
    } else {
        s_contains_name_upto(names, name, n - 1) || names[n - 1]@ == name
    }
}

pub open spec fn s_contains_name(names: Seq<String>, name: Seq<char>) -> bool {
    s_contains_name_upto(names, name, names.len() as int)
}

/// Whether the object type declares the interface.
pub open spec fn s_declares_interface(t: ObjectTypeDef, iface: Seq<char>) -> bool {
    s_contains_name(t.interfaces@, iface)
}

/// The names of the object types among the first `n` that declare `iface`,
/// in schema order.
pub open spec fn s_implementors_upto(ts: Seq<ObjectTypeDef>, iface: Seq<char>, n: int) -> Seq<
    String,
>
    decreases n,
{
    if n <= 0 || n > ts.len() {
        Seq::empty()
    } else if s_declares_interface(ts[n - 1], iface) {
        s_implementors_upto(ts, iface, n - 1).push(ts[n - 1].name)
    } else {
        s_implementors_upto(ts, iface, n - 1)
    }
}

/// The implementor names of an interface: every object type that declares
/// it, in schema order.
pub open spec fn s_implementors(ts: Seq<ObjectTypeDef>, iface: Seq<char>) -> Seq<String> {
    s_implementors_upto(ts, iface, ts.len() as int)
}

/// A schema's interface index is correct when it has one row per interface
/// type, in order, and each row lists exactly the declaring object types.
pub open spec fn s_index_correct(s: Schema) -> bool {
    &&& s.interface_index@.len() == s.interface_types@.len()
    &&& forall|i: int|
        0 <= i < s.interface_index@.len() ==> {
            &&& (#[trigger] s.interface_index@[i]).interface@ == s.interface_types@[i].name@
            &&& s.interface_index@[i].implementors@ == s_implementors(
                s.object_types@,
                s.interface_types@[i].name@,
            )
        }
}

impl Schema {
    /// Builds a schema from its named types, computing the interface index.
    pub fn new(
        query_type: String,
        object_types: Vec<ObjectTypeDef>,
        interface_types: Vec<InterfaceTypeDef>,
    ) -> (s: Schema)
        ensures
            s.query_type == query_type,
            s.object_types == object_types,
            s.interface_types == interface_types,
            s_index_correct(s),
    {
        let mut index: Vec<InterfaceImplementors> = Vec::new();
        let mut i: usize = 0;
        while i < interface_types.len()
            invariant
                i <= interface_types.len(),
                index@.len() == i as int,
                forall|k: int|
                    0 <= k < i as int ==> {
                        &&& (#[trigger] index@[k]).interface@ == interface_types@[k].name@
                        &&& index@[k].implementors@ == s_implementors(
                            object_types@,
                            interface_types@[k].name@,
                        )
                    },
            decreases interface_types.len() - i,
        {
            let impls = implementors_of(&object_types, &interface_types[i].name);
            index.push(
                InterfaceImplementors {
                    interface: interface_types[i].name.clone(),
                    implementors: impls,
                },
            );
            i += 1;
        }
        Schema { query_type, object_types, interface_types, interface_index: index }
    }

    /// Looks up an object type by name.
    pub fn object_type(&self, name: &String) -> (r: Option<&ObjectTypeDef>)
        ensures
            (match r {
                Some(t) => s_find_object(self.object_types@, name@) == Some(*t),
                None => s_find_object(self.object_types@, name@) is None,
            }),
    {
        let mut i: usize = 0;
        while i < self.object_types.len()
            invariant
                i <= self.object_types.len(),
                s_find_object_upto(self.object_types@, name@, i as int) is None,
            decreases self.object_types.len() - i,
        {
            if self.object_types[i].name == *name {
                assert(s_find_object_upto(self.object_types@, name@, i + 1) == Some(
                    self.object_types@[i as int],
                ));
                proof {
                    lemma_find_object_stable(self.object_types@, name@, i + 1);
                }
                return Some(&self.object_types[i]);
            }
            i += 1;
        }
        None
    }

    /// Looks up an interface type by name.
    pub fn interface_type(&self, name: &String) -> (r: Option<&InterfaceTypeDef>)
        ensures
            (match r {
                Some(t) => s_find_interface(self.interface_types@, name@) == Some(*t),
                None => s_find_interface(self.interface_types@, name@) is None,
            }),
    {
        let mut i: usize = 0;
        while i < self.interface_types.len()
            invariant
                i <= self.interface_types.len(),
                s_find_interface_upto(self.interface_types@, name@, i as int) is None,
            decreases self.interface_types.len() - i,
        {
            if self.interface_types[i].name == *name {
                assert(s_find_interface_upto(self.interface_types@, name@, i + 1) == Some(
                    self.interface_types@[i as int],
                ));
                proof {
                    lemma_find_interface_stable(self.interface_types@, name@, i + 1);
                }
                return Some(&self.interface_types[i]);
            }
            i += 1;
        }
        None
    }

    /// The implementor names of an interface, read from the index.
    pub fn types_for_interface(&self, iface: &String) -> (r: Option<&Vec<String>>)
        requires
            s_index_correct(*self),
        ensures
            (match r {
                Some(v) => {
                    &&& s_find_interface(self.interface_types@, iface@) is Some
                    &&& v@ == s_implementors(self.object_types@, iface@)
                },
                None => s_find_interface(self.interface_types@, iface@) is None,
            }),
    {
        let mut i: usize = 0;
        while i < self.interface_index.len()
            invariant
                self.interface_index.len() == self.interface_types.len(),
                i <= self.interface_index.len(),
                s_index_correct(*self),
                s_find_interface_upto(self.interface_types@, iface@, i as int) is None,
                forall|k: int|
                    0 <= k < i as int ==> (#[trigger] self.interface_types@[k]).name@ != iface@,
            decreases self.interface_index.len() - i,
        {
            if self.interface_index[i].interface == *iface {
                assert(self.interface_types@[i as int].name@ == iface@);
                assert(s_find_interface_upto(self.interface_types@, iface@, i + 1) is Some);
                proof {
                    lemma_find_interface_stable(self.interface_types@, iface@, i + 1);
                }
                return Some(&self.interface_index[i].implementors);
            }
            assert(self.interface_types@[i as int].name@ != iface@);
            i += 1;
        }
        assert(forall|k: int|
            0 <= k < self.interface_types@.len() ==> (#[trigger] self.interface_types@[k]).name@
                != iface@);
        proof {
            lemma_find_interface_none(self.interface_types@, iface@, self.interface_types@.len() as int);
        }
        None
    }
}

/// The object types declaring `iface`, by name, in schema order.
pub fn implementors_of(object_types: &Vec<ObjectTypeDef>, iface: &String) -> (r: Vec<String>)
    ensures
        r@ == s_implementors(object_types@, iface@),
{
    let mut r: Vec<String> = Vec::new();
    let mut i: usize = 0;
    while i < object_types.len()
        invariant
            i <= object_types.len(),
            r@ == s_implementors_upto(object_types@, iface@, i as int),
        decreases object_types.len() - i,
    {
        if contains_name(&object_types[i].interfaces, iface) {
            r.push(object_types[i].name.clone());
        }
        i += 1;
    }
    r
}

/// Whether `names` holds `name`.
pub fn contains_name(names: &Vec<String>, name: &String) -> (r: bool)
    ensures
        r == s_contains_name(names@, name@),
{
    let mut i: usize = 0;
    while i < names.len()
        invariant
            i <= names.len(),
            !s_contains_name_upto(names@, name@, i as int),
        decreases names.len() - i,
    {
        if names[i] == *name {
            assert(s_contains_name_upto(names@, name@, i + 1));
            proof {
                lemma_contains_name_grows(names@, name@, i + 1, names@.len() as int);
            }
            return true;
        }
        i += 1;
    }
    false
}

/// Once a scan of a prefix has found a type, longer scans agree.
pub proof fn lemma_find_object_stable(ts: Seq<ObjectTypeDef>, name: Seq<char>, n: int)
    requires
        0 <= n <= ts.len(),
        s_find_object_upto(ts, name, n) is Some,
    ensures
        s_find_object(ts, name) == s_find_object_upto(ts, name, n),
    decreases ts.len() - n,
{
    if n < ts.len() {
        lemma_find_object_stable(ts, name, n + 1);
    }
}

pub proof fn lemma_find_interface_stable(ts: Seq<InterfaceTypeDef>, name: Seq<char>, n: int)
    requires
        0 <= n <= ts.len(),
        s_find_interface_upto(ts, name, n) is Some,
    ensures
        s_find_interface(ts, name) == s_find_interface_upto(ts, name, n),
    decreases ts.len() - n,
{
    if n < ts.len() {
        lemma_find_interface_stable(ts, name, n + 1);
    }
}

/// A scan over names none of which is `name` finds nothing.
pub proof fn lemma_find_interface_none(ts: Seq<InterfaceTypeDef>, name: Seq<char>, n: int)
    requires
        0 <= n <= ts.len(),
        forall|k: int| 0 <= k < n ==> (#[trigger] ts[k]).name@ != name,
    ensures
        s_find_interface_upto(ts, name, n) is None,
    decreases n,
{
    if n > 0 {
        lemma_find_interface_none(ts, name, n - 1);
    }
}

/// Containment in a prefix implies containment in a longer prefix.
pub proof fn lemma_contains_name_grows(names: Seq<String>, name: Seq<char>, n: int, m: int)
    requires
        0 <= n <= m <= names.len(),
        s_contains_name_upto(names, name, n),
    ensures
        s_contains_name_upto(names, name, m),
    decreases m - n,
{
    if n < m {
        lemma_contains_name_grows(names, name, n + 1, m);
    }
}

} // verus!
