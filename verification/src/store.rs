//! An in-memory, schema-typed entity store: point lookups, full scans,
//! and the write path with its id-collision integrity check across
//! implementors of a shared interface.

use vstd::prelude::*;
use crate::schema::{
    Schema, contains_name, s_contains_name, s_implementors, s_index_correct,
};

verus! {

/// An attribute value as the store holds it: a scalar, or one or many
/// identifiers referencing other entities.
pub enum StoreVal {
    Null,
    Int(i64),
    Str(String),
    StrList(Vec<String>),
}

/// The mathematical model of a stored attribute value.
#[verifier::ext_equal]
pub enum SVal {
    Null,
    Int(int),
    Str(Seq<char>),
    StrList(Seq<Seq<char>>),
}

impl View for StoreVal {
    type V = SVal;

    open spec fn view(&self) -> SVal {
        match *self {
            StoreVal::Null => SVal::Null,
            StoreVal::Int(i) => SVal::Int(i as int),
            StoreVal::Str(s) => SVal::Str(s@),
            StoreVal::StrList(ids) => SVal::StrList(Seq::new(ids@.len(), |i: int| ids@[i]@)),
        }
    }
}

impl StoreVal {
    /// A copy with the same model.
    pub fn duplicate(&self) -> (r: StoreVal)
        ensures
            r@ == self@,
    {
        match self {
            StoreVal::Null => StoreVal::Null,
            StoreVal::Int(i) => StoreVal::Int(*i),
            StoreVal::Str(s) => StoreVal::Str(s.clone()),
            StoreVal::StrList(ids) => {
                let mut out: Vec<String> = Vec::new();
                let mut i: usize = 0;
                while i < ids.len()
                    invariant
                        i <= ids.len(),
                        out@.len() == i as int,
                        forall|k: int| 0 <= k < i as int ==> out@[k]@ == ids@[k]@,
                    decreases ids.len() - i,
                {
                    out.push(ids[i].clone());
                    i += 1;
                }
                assert(Seq::new(out@.len(), |i: int| out@[i]@) =~= Seq::new(
                    ids@.len(),
                    |i: int| ids@[i]@,
                ));
                StoreVal::StrList(out)
            },
        }
    }
}

/// One named attribute of a stored entity.
pub struct EntityAttr {
    pub name: String,
    pub value: StoreVal,
}

/// A stored entity: its concrete type, its identifier, and its attributes.
pub struct StoredEntity {
    pub entity_type: String,
    pub id: String,
    pub attrs: Vec<EntityAttr>,
}

/// The mathematical model of a stored entity.
#[verifier::ext_equal]
pub struct EntS {
    pub etype: Seq<char>,
    pub id: Seq<char>,
    pub attrs: Seq<(Seq<char>, SVal)>,
}

impl View for StoredEntity {
    type V = EntS;

    open spec fn view(&self) -> EntS {
        EntS {
            etype: self.entity_type@,
            id: self.id@,
            attrs: Seq::new(self.attrs@.len(), |i: int| (self.attrs@[i].name@, self.attrs@[i].value@)),
        }
    }
}

impl StoredEntity {
    /// A copy with the same model.
    pub fn duplicate(&self) -> (r: StoredEntity)
        ensures
            r@ == self@,
    {
        let mut attrs: Vec<EntityAttr> = Vec::new();
        let mut i: usize = 0;
        while i < self.attrs.len()
            invariant
                i <= self.attrs.len(),
                attrs@.len() == i as int,
                forall|k: int|
                    0 <= k < i as int ==> (#[trigger] attrs@[k]).name@ == self.attrs@[k].name@
                        && attrs@[k].value@ == self.attrs@[k].value@,
            decreases self.attrs.len() - i,
        {
            attrs.push(
                EntityAttr { name: self.attrs[i].name.clone(), value: self.attrs[i].value.duplicate() },
            );
            i += 1;
        }
        let r = StoredEntity { entity_type: self.entity_type.clone(), id: self.id.clone(), attrs };
        assert(r@.attrs =~= self@.attrs);
        assert(r@ =~= self@);
        r
    }

    /// The value of the named attribute, if the entity carries it.
    pub fn attr(&self, name: &String) -> (r: Option<&StoreVal>)
        ensures
            (match r {
                Some(v) => s_attr(self@, name@) == Some(v@),
                None => s_attr(self@, name@) is None,
            }),
    {
        let mut i: usize = 0;
        while i < self.attrs.len()
            invariant
                i <= self.attrs.len(),
                s_attr_upto(self@, name@, i as int) is None,
            decreases self.attrs.len() - i,
        {
            if self.attrs[i].name == *name {
                assert(s_attr_upto(self@, name@, i + 1) == Some(self@.attrs[i as int].1));
                proof {
                    lemma_attr_stable(self@, name@, i + 1);
                }
                return Some(&self.attrs[i].value);
            }
            i += 1;
        }
        None
    }
}

/// The named attribute among the first `n`, first occurrence wins.
pub open spec fn s_attr_upto(e: EntS, name: Seq<char>, n: int) -> Option<SVal>
    decreases n,
{
    if n <= 0 || n > e.attrs.len() {
        None
    } else if s_attr_upto(e, name, n - 1) is Some {
        s_attr_upto(e, name, n - 1)
    } else if e.attrs[n - 1].0 == name {
        Some(e.attrs[n - 1].1)
    } else {
        None
    }
}

/// The value of an entity's named attribute.
pub open spec fn s_attr(e: EntS, name: Seq<char>) -> Option<SVal> {
    s_attr_upto(e, name, e.attrs.len() as int)
}

pub proof fn lemma_attr_stable(e: EntS, name: Seq<char>, n: int)
    requires
        0 <= n <= e.attrs.len(),
        s_attr_upto(e, name, n) is Some,
    ensures
        s_attr(e, name) == s_attr_upto(e, name, n),
    decreases e.attrs.len() - n,
{
    if n < e.attrs.len() {
        lemma_attr_stable(e, name, n + 1);
    }
}

/// The failure of a write that would break store integrity.
#[derive(Debug)]
pub enum StoreError {
    /// Two concrete types sharing an interface may not store entities under
    /// one identifier: the rejected type, the type already present, and the
    /// shared identifier.
    IdCollision { new_type: String, existing_type: String, id: String },
}

impl StoreError {
    /// The human-readable account of the failure.
    pub fn message(&self) -> (r: String)
        ensures
            (match self {
                StoreError::IdCollision { new_type, existing_type, id } => r@
                    == "tried to set entity of type `"@ + new_type@ + "` with ID \""@ + id@
                    + "\" but an entity of type `"@ + existing_type@
                    + "`, which has an interface in common with `"@ + new_type@
                    + "`, exists with the same ID"@,
            }),
    {
        match self {
            StoreError::IdCollision { new_type, existing_type, id } => {
                let mut s = String::new();
                s.append("tried to set entity of type `");
                s.append(new_type.as_str());
                s.append("` with ID \"");
                s.append(id.as_str());
                s.append("\" but an entity of type `");
                s.append(existing_type.as_str());
                s.append("`, which has an interface in common with `");
                s.append(new_type.as_str());
                s.append("`, exists with the same ID");
                s
            },
        }
    }
}

/// Whether two concrete type names share a declared interface.
pub open spec fn s_shares_interface(schema: Schema, a: Seq<char>, b: Seq<char>) -> bool {
    exists|i: int|
        0 <= i < schema.interface_types@.len() && s_contains_name(
            #[trigger] s_implementors(schema.object_types@, schema.interface_types@[i].name@),
            a,
        ) && s_contains_name(s_implementors(schema.object_types@, schema.interface_types@[i].name@), b)
}

/// The type of the first stored entity among the first `n` that the new
/// entity would collide with: same id, different concrete type, a shared
/// interface.
pub open spec fn s_collision_upto(schema: Schema, store: Seq<EntS>, e: EntS, n: int) -> Option<
    Seq<char>,
>
    decreases n,
{
    if n <= 0 || n > store.len() {
        None
    } else if s_collision_upto(schema, store, e, n - 1) is Some {
        s_collision_upto(schema, store, e, n - 1)
    } else if store[n - 1].id == e.id && store[n - 1].etype != e.etype && s_shares_interface(
        schema,
        e.etype,
        store[n - 1].etype,
    ) {
        Some(store[n - 1].etype)
    } else {
        None
    }
}

pub open spec fn s_collision(schema: Schema, store: Seq<EntS>, e: EntS) -> Option<Seq<char>> {
    s_collision_upto(schema, store, e, store.len() as int)
}

/// The index of the first stored entity among the first `n` with the given
/// type and id.
pub open spec fn s_index_of_upto(store: Seq<EntS>, etype: Seq<char>, id: Seq<char>, n: int) -> Option<
    int,
>
    decreases n,
{
    if n <= 0 || n > store.len() {
        None
    } else if s_index_of_upto(store, etype, id, n - 1) is Some {
        s_index_of_upto(store, etype, id, n - 1)
    } else if store[n - 1].etype == etype && store[n - 1].id == id {
        Some(n - 1)
    } else {
        None
    }
}

pub open spec fn s_index_of(store: Seq<EntS>, etype: Seq<char>, id: Seq<char>) -> Option<int> {
    s_index_of_upto(store, etype, id, store.len() as int)
}

/// What a successful write leaves in the store: the entity replaces the one
/// with its type and id, or is appended.
pub open spec fn s_set(store: Seq<EntS>, e: EntS) -> Seq<EntS> {
    match s_index_of(store, e.etype, e.id) {
        Some(i) => store.update(i, e),
        None => store.push(e),
    }
}

/// The first stored entity among the first `n` with the given type and id.
pub open spec fn s_find_entity_upto(store: Seq<EntS>, etype: Seq<char>, id: Seq<char>, n: int) -> Option<
    EntS,
>
    decreases n,
{
    match s_index_of_upto(store, etype, id, n) {
        Some(i) => Some(store[i]),
        None => None,
    }
}

pub open spec fn s_find_entity(store: Seq<EntS>, etype: Seq<char>, id: Seq<char>) -> Option<EntS> {
    s_find_entity_upto(store, etype, id, store.len() as int)
}

/// The entity store: every written entity, in write order.
pub struct EntityStore {
    pub entities: Vec<StoredEntity>,
}

impl View for EntityStore {
    type V = Seq<EntS>;

    open spec fn view(&self) -> Seq<EntS> {
        Seq::new(self.entities@.len(), |i: int| self.entities@[i]@)
    }
}

impl EntityStore {
    /// An empty store.
    pub fn new() -> (r: EntityStore)
        ensures
            r@ == Seq::<EntS>::empty(),
    {
        let r = EntityStore { entities: Vec::new() };
        assert(r@ =~= Seq::<EntS>::empty());
        r
    }

    /// Point lookup by concrete type and id.
    pub fn find_entity(&self, etype: &String, id: &String) -> (r: Option<&StoredEntity>)
        ensures
            (match r {
                Some(e) => s_find_entity(self@, etype@, id@) == Some(e@),
                None => s_find_entity(self@, etype@, id@) is None,
            }),
    {
        let mut i: usize = 0;
        while i < self.entities.len()
            invariant
                i <= self.entities.len(),
                s_index_of_upto(self@, etype@, id@, i as int) is None,
            decreases self.entities.len() - i,
        {
            if self.entities[i].entity_type == *etype && self.entities[i].id == *id {
                assert(s_index_of_upto(self@, etype@, id@, i + 1) == Some(i as int));
                proof {
                    lemma_index_of_stable(self@, etype@, id@, i + 1);
                }
                return Some(&self.entities[i]);
            }
            i += 1;
        }
        None
    }

    /// Whether the new entity collides with a stored one: same id, another
    /// concrete type, and a shared interface.
    fn collision_with(&self, schema: &Schema, e: &StoredEntity) -> (r: Option<String>)
        requires
            s_index_correct(*schema),
        ensures
            (match r {
                Some(t) => s_collision(*schema, self@, e@) == Some(t@),
                None => s_collision(*schema, self@, e@) is None,
            }),
    {
        let mut i: usize = 0;
        while i < self.entities.len()
            invariant
                s_index_correct(*schema),
                i <= self.entities.len(),
                s_collision_upto(*schema, self@, e@, i as int) is None,
            decreases self.entities.len() - i,
        {
            if self.entities[i].id == e.id && !(self.entities[i].entity_type == e.entity_type)
                && shares_interface(schema, &e.entity_type, &self.entities[i].entity_type) {
                assert(s_collision_upto(*schema, self@, e@, i + 1) == Some(
                    self@[i as int].etype,
                ));
                proof {
                    lemma_collision_stable(*schema, self@, e@, i + 1);
                }
                return Some(self.entities[i].entity_type.clone());
            }
            i += 1;
        }
        None
    }

    /// The write path. Rejects an entity whose id is already taken by a
    /// different concrete type sharing an interface with it; otherwise the
    /// entity replaces its previous version or is appended.
    pub fn set_entity(&mut self, schema: &Schema, e: StoredEntity) -> (r: Result<(), StoreError>)
        requires
            s_index_correct(*schema),
        ensures
            (match s_collision(*schema, old(self)@, e@) {
                Some(t) => {
                    &&& final(self)@ == old(self)@
                    &&& (match r {
                        Err(StoreError::IdCollision { new_type, existing_type, id }) => new_type@
                            == e@.etype && existing_type@ == t && id@ == e@.id,
                        _ => false,
                    })
                },
                None => r is Ok && final(self)@ == s_set(old(self)@, e@),
            }),
    {
        let ghost old_view = self@;
        match self.collision_with(schema, &e) {
            Some(t) => {
                return Err(
                    StoreError::IdCollision {
                        new_type: e.entity_type.clone(),
                        existing_type: t,
                        id: e.id.clone(),
                    },
                );
            },
            None => {},
        }
        let mut i: usize = 0;
        while i < self.entities.len()
            invariant
                i <= self.entities.len(),
                self@ == old_view,
                old_view == old(self)@,
                s_collision(*schema, old(self)@, e@) is None,
                s_index_of_upto(self@, e@.etype, e@.id, i as int) is None,
            decreases self.entities.len() - i,
        {
            if self.entities[i].entity_type == e.entity_type && self.entities[i].id == e.id {
                assert(s_index_of_upto(old_view, e@.etype, e@.id, i + 1) == Some(i as int));
                proof {
                    lemma_index_of_stable(old_view, e@.etype, e@.id, i + 1);
                }
                self.entities.set(i, e);
                assert(self@ =~= old_view.update(i as int, self.entities@[i as int]@));
                return Ok(());
            }
            i += 1;
        }
        self.entities.push(e);
        assert(self@ =~= old_view.push(self.entities@[self.entities@.len() - 1]@));
        Ok(())
    }
}

/// Whether two concrete type names share a declared interface, decided from
/// the interface index.
pub fn shares_interface(schema: &Schema, a: &String, b: &String) -> (r: bool)
    requires
        s_index_correct(*schema),
    ensures
        r == s_shares_interface(*schema, a@, b@),
{
    let mut i: usize = 0;
    while i < schema.interface_index.len()
        invariant
            s_index_correct(*schema),
            i <= schema.interface_index.len(),
            forall|k: int|
                0 <= k < i as int ==> !(s_contains_name(
                    #[trigger] s_implementors(schema.object_types@, schema.interface_types@[k].name@),
                    a@,
                ) && s_contains_name(
                    s_implementors(schema.object_types@, schema.interface_types@[k].name@),
                    b@,
                )),
        decreases schema.interface_index.len() - i,
    {
        if contains_name(&schema.interface_index[i].implementors, a) && contains_name(
            &schema.interface_index[i].implementors,
            b,
        ) {
            return true;
        }
        i += 1;
    }
    false
}

pub proof fn lemma_index_of_stable(store: Seq<EntS>, etype: Seq<char>, id: Seq<char>, n: int)
    requires
        0 <= n <= store.len(),
        s_index_of_upto(store, etype, id, n) is Some,
    ensures
        s_index_of(store, etype, id) == s_index_of_upto(store, etype, id, n),
    decreases store.len() - n,
{
    if n < store.len() {
        lemma_index_of_stable(store, etype, id, n + 1);
    }
}

pub proof fn lemma_collision_stable(schema: Schema, store: Seq<EntS>, e: EntS, n: int)
    requires
        0 <= n <= store.len(),
        s_collision_upto(schema, store, e, n) is Some,
    ensures
        s_collision(schema, store, e) == s_collision_upto(schema, store, e, n),
    decreases store.len() - n,
{
    if n < store.len() {
        lemma_collision_stable(schema, store, e, n + 1);
    }
}

/// Writing an entity whose id a different concrete type with a shared
/// interface already holds fails, and the error names the rejected type,
/// a conflicting stored type, and the shared id.
pub proof fn lemma_shared_id_write_rejected(
    schema: Schema,
    store: Seq<EntS>,
    e: EntS,
    k: int,
)
    requires
        0 <= k < store.len(),
        store[k].id == e.id,
        store[k].etype != e.etype,
        s_shares_interface(schema, e.etype, store[k].etype),
    ensures
        s_collision(schema, store, e) is Some,
        (exists|j: int|
            0 <= j < store.len() && store[j].id == e.id && store[j].etype != e.etype
                && s_collision(schema, store, e) == Some(#[trigger] store[j].etype)),
{
    lemma_collision_found(schema, store, e, k + 1);
}

proof fn lemma_collision_found(schema: Schema, store: Seq<EntS>, e: EntS, n: int)
    requires
        0 < n <= store.len(),
        store[n - 1].id == e.id,
        store[n - 1].etype != e.etype,
        s_shares_interface(schema, e.etype, store[n - 1].etype),
    ensures
        s_collision(schema, store, e) is Some,
        (exists|j: int|
            0 <= j < store.len() && store[j].id == e.id && store[j].etype != e.etype
                && s_collision(schema, store, e) == Some(#[trigger] store[j].etype)),
{
    assert(s_collision_upto(schema, store, e, n) is Some);
    lemma_collision_stable(schema, store, e, n);
    lemma_collision_witness(schema, store, e, n);
}

proof fn lemma_collision_witness(schema: Schema, store: Seq<EntS>, e: EntS, n: int)
    requires
        0 <= n <= store.len(),
        s_collision_upto(schema, store, e, n) is Some,
    ensures
        (exists|j: int|
            0 <= j < n && store[j].id == e.id && store[j].etype != e.etype && s_collision_upto(
                schema,
                store,
                e,
                n,
            ) == Some(#[trigger] store[j].etype)),
    decreases n,
{
    if n > 0 {
        if s_collision_upto(schema, store, e, n - 1) is Some {
            lemma_collision_witness(schema, store, e, n - 1);
        } else {
            assert(s_collision_upto(schema, store, e, n) == Some(store[n - 1].etype));
        }
    }
}

} // verus!
