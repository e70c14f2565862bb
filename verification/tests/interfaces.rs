// Tests for interface queries: fan-out, fragment merging, ordering,
// derived relations, and the store's id-collision check.

use iface_resolve::errors::QueryExecutionError;
use iface_resolve::exec::execute_query;
use iface_resolve::query::{Argument, Document, FieldSel, FragmentDef, Selection};
use iface_resolve::schema::{FieldDef, InterfaceTypeDef, ObjectTypeDef, Schema};
use iface_resolve::store::{EntityAttr, EntityStore, StoreVal, StoredEntity};
use iface_resolve::value::Value;

fn s(x: &str) -> String {
    x.to_string()
}

fn fld(name: &str, ty: &str) -> FieldDef {
    FieldDef { name: s(name), value_type: s(ty), is_list: false, derived_from: None }
}

fn fld_list(name: &str, ty: &str) -> FieldDef {
    FieldDef { name: s(name), value_type: s(ty), is_list: true, derived_from: None }
}

fn fld_derived(name: &str, ty: &str, rf: &str) -> FieldDef {
    FieldDef { name: s(name), value_type: s(ty), is_list: false, derived_from: Some(s(rf)) }
}

fn fld_derived_list(name: &str, ty: &str, rf: &str) -> FieldDef {
    FieldDef { name: s(name), value_type: s(ty), is_list: true, derived_from: Some(s(rf)) }
}

fn obj(name: &str, interfaces: &[&str], fields: Vec<FieldDef>) -> ObjectTypeDef {
    ObjectTypeDef {
        name: s(name),
        interfaces: interfaces.iter().map(|i| s(i)).collect(),
        fields,
        directives: Vec::new(),
    }
}

fn iface(name: &str, fields: Vec<FieldDef>) -> InterfaceTypeDef {
    InterfaceTypeDef { name: s(name), fields, directives: Vec::new() }
}

fn ent(ty: &str, id: &str, attrs: Vec<(&str, StoreVal)>) -> StoredEntity {
    let mut all = vec![EntityAttr { name: s("id"), value: StoreVal::Str(s(id)) }];
    for (n, v) in attrs {
        all.push(EntityAttr { name: s(n), value: v });
    }
    StoredEntity { entity_type: s(ty), id: s(id), attrs: all }
}

fn sv(x: &str) -> StoreVal {
    StoreVal::Str(s(x))
}

fn iv(x: i64) -> StoreVal {
    StoreVal::Int(x)
}

fn lv(xs: &[&str]) -> StoreVal {
    StoreVal::StrList(xs.iter().map(|x| s(x)).collect())
}

fn f(name: &str, sub: Vec<Selection>) -> Selection {
    Selection::Field(FieldSel {
        alias: None,
        name: s(name),
        arguments: Vec::new(),
        selection_set: sub,
    })
}

fn fa(name: &str, args: Vec<Argument>, sub: Vec<Selection>) -> Selection {
    Selection::Field(FieldSel { alias: None, name: s(name), arguments: args, selection_set: sub })
}

fn falias(alias: &str, name: &str, args: Vec<Argument>, sub: Vec<Selection>) -> Selection {
    Selection::Field(FieldSel {
        alias: Some(s(alias)),
        name: s(name),
        arguments: args,
        selection_set: sub,
    })
}

fn on(cond: &str, body: Vec<Selection>) -> Selection {
    Selection::InlineFragment(Some(s(cond)), body)
}

fn anon(body: Vec<Selection>) -> Selection {
    Selection::InlineFragment(None, body)
}

fn spread(name: &str) -> Selection {
    Selection::FragmentSpread(s(name))
}

fn frag(name: &str, cond: &str, body: Vec<Selection>) -> FragmentDef {
    FragmentDef { name: s(name), type_condition: s(cond), selection_set: body }
}

fn arg_int(name: &str, v: i64) -> Argument {
    Argument { name: s(name), value: StoreVal::Int(v) }
}

fn arg_str(name: &str, v: &str) -> Argument {
    Argument { name: s(name), value: StoreVal::Str(s(v)) }
}

fn first100() -> Vec<Argument> {
    vec![arg_int("first", 100)]
}

fn doc(selections: Vec<Selection>) -> Document {
    Document { selections, fragments: Vec::new() }
}

fn doc_frags(selections: Vec<Selection>, fragments: Vec<FragmentDef>) -> Document {
    Document { selections, fragments }
}

fn store_with(schema: &Schema, entities: Vec<StoredEntity>) -> EntityStore {
    let mut store = EntityStore::new();
    for e in entities {
        store.set_entity(schema, e).expect("write must succeed");
    }
    store
}

fn run(schema: &Schema, store: &EntityStore, d: &Document) -> Value {
    execute_query(schema, store, d).expect("query must succeed")
}

fn run_err(schema: &Schema, store: &EntityStore, d: &Document) -> Vec<QueryExecutionError> {
    execute_query(schema, store, d).err().expect("query must fail")
}

// Object entries compare as maps (the engine emits them in request order);
// lists compare in order.
fn veq(a: &Value, b: &Value) -> bool {
    match (a, b) {
        (Value::Null, Value::Null) => true,
        (Value::Int(x), Value::Int(y)) => x == y,
        (Value::Str(x), Value::Str(y)) => x == y,
        (Value::List(xs), Value::List(ys)) => {
            xs.len() == ys.len() && xs.iter().zip(ys.iter()).all(|(x, y)| veq(x, y))
        }
        (Value::Object(xs), Value::Object(ys)) => {
            xs.len() == ys.len()
                && xs.iter().all(|(k, v)| {
                    ys.iter().any(|(k2, v2)| k == k2 && veq(v, v2))
                })
        }
        _ => false,
    }
}

fn vobj(entries: Vec<(&str, Value)>) -> Value {
    Value::Object(entries.into_iter().map(|(k, v)| (s(k), v)).collect())
}

fn vlist(items: Vec<Value>) -> Value {
    Value::List(items)
}

fn vstr(x: &str) -> Value {
    Value::Str(s(x))
}

fn vint(x: i64) -> Value {
    Value::Int(x)
}

fn legged_schema() -> Schema {
    Schema::new(
        s("Query"),
        vec![
            obj("Query", &[], vec![fld("legged", "Legged"), fld_list("leggeds", "Legged")]),
            obj("Animal", &["Legged"], vec![fld("id", "ID"), fld("legs", "Int")]),
        ],
        vec![iface("Legged", vec![fld("legs", "Int")])],
    )
}

#[test]
fn one_interface_zero_entities() {
    let schema = legged_schema();
    let store = EntityStore::new();
    let d = doc(vec![fa("leggeds", first100(), vec![f("legs", vec![])])]);
    let data = run(&schema, &store, &d);
    assert!(veq(&data, &vobj(vec![("leggeds", vlist(vec![]))])));
}

#[test]
fn one_interface_one_entity() {
    let schema = legged_schema();
    let store = store_with(&schema, vec![ent("Animal", "1", vec![("legs", iv(3))])]);

    // Collection query.
    let d = doc(vec![fa("leggeds", first100(), vec![f("legs", vec![])])]);
    let data = run(&schema, &store, &d);
    assert!(veq(
        &data,
        &vobj(vec![("leggeds", vlist(vec![vobj(vec![("legs", vint(3))])]))])
    ));

    // Query by id.
    let d = doc(vec![fa("legged", vec![arg_str("id", "1")], vec![f("legs", vec![])])]);
    let data = run(&schema, &store, &d);
    assert!(veq(&data, &vobj(vec![("legged", vobj(vec![("legs", vint(3))]))])));
}

#[test]
fn one_interface_one_entity_typename() {
    let schema = legged_schema();
    let store = store_with(&schema, vec![ent("Animal", "1", vec![("legs", iv(3))])]);
    let d = doc(vec![fa("leggeds", first100(), vec![f("__typename", vec![])])]);
    let data = run(&schema, &store, &d);
    assert!(veq(
        &data,
        &vobj(vec![("leggeds", vlist(vec![vobj(vec![("__typename", vstr("Animal"))])]))])
    ));
}

fn two_implementors_schema() -> Schema {
    Schema::new(
        s("Query"),
        vec![
            obj("Query", &[], vec![fld("legged", "Legged"), fld_list("leggeds", "Legged")]),
            obj("Animal", &["Legged"], vec![fld("id", "ID"), fld("legs", "Int")]),
            obj("Furniture", &["Legged"], vec![fld("id", "ID"), fld("legs", "Int")]),
        ],
        vec![iface("Legged", vec![fld("legs", "Int")])],
    )
}

#[test]
fn one_interface_multiple_entities() {
    let schema = two_implementors_schema();
    let store = store_with(
        &schema,
        vec![
            ent("Animal", "1", vec![("legs", iv(3))]),
            ent("Furniture", "2", vec![("legs", iv(4))]),
        ],
    );

    let d = doc(vec![fa(
        "leggeds",
        vec![arg_int("first", 100), arg_str("orderBy", "legs")],
        vec![f("legs", vec![])],
    )]);
    let data = run(&schema, &store, &d);
    assert!(veq(
        &data,
        &vobj(vec![(
            "leggeds",
            vlist(vec![vobj(vec![("legs", vint(3))]), vobj(vec![("legs", vint(4))])])
        )])
    ));

    let d = doc(vec![fa("legged", vec![arg_str("id", "2")], vec![f("legs", vec![])])]);
    let data = run(&schema, &store, &d);
    assert!(veq(&data, &vobj(vec![("legged", vobj(vec![("legs", vint(4))]))])));
}

#[test]
fn reference_interface() {
    let schema = Schema::new(
        s("Query"),
        vec![
            obj("Query", &[], vec![fld_list("leggeds", "Legged")]),
            obj("Leg", &[], vec![fld("id", "ID")]),
            obj("Animal", &["Legged"], vec![fld("id", "ID"), fld("leg", "Leg")]),
        ],
        vec![iface("Legged", vec![fld("leg", "Leg")])],
    );
    let store = store_with(
        &schema,
        vec![ent("Leg", "1", vec![]), ent("Animal", "1", vec![("leg", sv("1"))])],
    );
    let d = doc(vec![fa("leggeds", first100(), vec![f("leg", vec![f("id", vec![])])])]);
    let data = run(&schema, &store, &d);
    assert!(veq(
        &data,
        &vobj(vec![(
            "leggeds",
            vlist(vec![vobj(vec![("leg", vobj(vec![("id", vstr("1"))]))])])
        )])
    ));
}

#[test]
fn reference_interface_derived() {
    let schema = Schema::new(
        s("Query"),
        vec![
            obj("Query", &[], vec![fld_list("events", "Event")]),
            obj(
                "Transaction",
                &[],
                vec![
                    fld("id", "ID"),
                    fld("buyEvent", "BuyEvent"),
                    fld_list("sellEvents", "SellEvent"),
                    fld_derived_list("giftEvent", "GiftEvent", "transaction"),
                ],
            ),
            obj(
                "BuyEvent",
                &["Event"],
                vec![fld("id", "ID"), fld_derived("transaction", "Transaction", "buyEvent")],
            ),
            obj(
                "SellEvent",
                &["Event"],
                vec![fld("id", "ID"), fld_derived("transaction", "Transaction", "sellEvents")],
            ),
            obj(
                "GiftEvent",
                &["Event"],
                vec![fld("id", "ID"), fld("transaction", "Transaction")],
            ),
        ],
        vec![iface("Event", vec![fld("id", "ID"), fld("transaction", "Transaction")])],
    );
    let store = store_with(
        &schema,
        vec![
            ent("BuyEvent", "buy", vec![]),
            ent("SellEvent", "sell1", vec![]),
            ent("SellEvent", "sell2", vec![]),
            ent("GiftEvent", "gift", vec![("transaction", sv("txn"))]),
            ent(
                "Transaction",
                "txn",
                vec![("buyEvent", sv("buy")), ("sellEvents", lv(&["sell1", "sell2"]))],
            ),
        ],
    );
    let d = doc(vec![f(
        "events",
        vec![f("id", vec![]), f("transaction", vec![f("id", vec![])])],
    )]);
    let data = run(&schema, &store, &d);
    let txn = vobj(vec![("id", vstr("txn"))]);
    assert!(veq(
        &data,
        &vobj(vec![(
            "events",
            vlist(vec![
                vobj(vec![("id", vstr("buy")), ("transaction", txn.clone_value())]),
                vobj(vec![("id", vstr("gift")), ("transaction", txn.clone_value())]),
                vobj(vec![("id", vstr("sell1")), ("transaction", txn.clone_value())]),
                vobj(vec![("id", vstr("sell2")), ("transaction", txn.clone_value())]),
            ])
        )])
    ));
}

// A deep copy for expected values assembled in tests.
trait CloneValue {
    fn clone_value(&self) -> Value;
}

impl CloneValue for Value {
    fn clone_value(&self) -> Value {
        match self {
            Value::Null => Value::Null,
            Value::Int(x) => Value::Int(*x),
            Value::Str(x) => Value::Str(x.clone()),
            Value::List(xs) => Value::List(xs.iter().map(|x| x.clone_value()).collect()),
            Value::Object(xs) => {
                Value::Object(xs.iter().map(|(k, v)| (k.clone(), v.clone_value())).collect())
            }
        }
    }
}

fn parent_legged_schema() -> Schema {
    Schema::new(
        s("Query"),
        vec![
            obj("Query", &[], vec![fld("legged", "Legged"), fld_list("leggeds", "Legged")]),
            obj(
                "Animal",
                &["Legged"],
                vec![fld("id", "ID"), fld("legs", "Int"), fld("parent", "Legged")],
            ),
        ],
        vec![iface("Legged", vec![fld("legs", "Int")])],
    )
}

#[test]
fn follow_interface_reference_invalid() {
    let schema = parent_legged_schema();
    let store = EntityStore::new();
    let d = doc(vec![fa(
        "legged",
        vec![arg_str("id", "child")],
        vec![f("parent", vec![f("id", vec![])])],
    )]);
    let errs = run_err(&schema, &store, &d);
    match &errs[0] {
        QueryExecutionError::UnknownField(on_type, field_name) => {
            assert_eq!(on_type, "Legged");
            assert_eq!(field_name, "parent");
        }
        _ => panic!("error is not the expected one"),
    }
}

#[test]
fn follow_interface_reference() {
    let schema = Schema::new(
        s("Query"),
        vec![
            obj("Query", &[], vec![fld("legged", "Legged"), fld_list("leggeds", "Legged")]),
            obj(
                "Animal",
                &["Legged"],
                vec![fld("id", "ID"), fld("legs", "Int"), fld("parent", "Legged")],
            ),
        ],
        vec![iface("Legged", vec![fld("id", "ID"), fld("legs", "Int")])],
    );
    let store = store_with(
        &schema,
        vec![
            ent("Animal", "parent", vec![("legs", iv(4)), ("parent", StoreVal::Null)]),
            ent("Animal", "child", vec![("legs", iv(3)), ("parent", sv("parent"))]),
        ],
    );
    let d = doc(vec![fa(
        "legged",
        vec![arg_str("id", "child")],
        vec![on("Animal", vec![f("parent", vec![f("id", vec![])])])],
    )]);
    let data = run(&schema, &store, &d);
    assert!(veq(
        &data,
        &vobj(vec![("legged", vobj(vec![("parent", vobj(vec![("id", vstr("parent"))]))]))])
    ));
}

#[test]
fn conflicting_implementors_id() {
    let schema = two_implementors_schema();
    let mut store = EntityStore::new();
    store
        .set_entity(&schema, ent("Animal", "1", vec![("legs", iv(3))]))
        .expect("first write must succeed");
    let err = store
        .set_entity(&schema, ent("Furniture", "1", vec![("legs", iv(3))]))
        .err()
        .expect("conflicting write must fail");
    let msg = err.message();
    let expected1 = "tried to set entity of type `Furniture` with ID \"1\" but an entity of type \
                     `Animal`, which has an interface in common with `Furniture`, exists with \
                     the same ID";
    let expected2 = "tried to set entity of type `Animal` with ID \"1\" but an entity of type \
                     `Furniture`, which has an interface in common with `Animal`, exists with \
                     the same ID";
    assert!(msg == expected1 || msg == expected2);
}

#[test]
fn derived_interface_relationship() {
    let schema = Schema::new(
        s("Query"),
        vec![
            obj("Query", &[], vec![fld_list("forests", "Forest")]),
            obj("Animal", &["ForestDweller"], vec![fld("id", "ID"), fld("forest", "Forest")]),
            obj(
                "Forest",
                &[],
                vec![fld("id", "ID"), fld_derived_list("dwellers", "ForestDweller", "forest")],
            ),
        ],
        vec![iface("ForestDweller", vec![fld("id", "ID"), fld("forest", "Forest")])],
    );
    let store = store_with(
        &schema,
        vec![ent("Forest", "1", vec![]), ent("Animal", "1", vec![("forest", sv("1"))])],
    );
    let d = doc(vec![fa(
        "forests",
        first100(),
        vec![fa("dwellers", first100(), vec![f("id", vec![])])],
    )]);
    let data = run(&schema, &store, &d);
    assert!(veq(
        &data,
        &vobj(vec![(
            "forests",
            vlist(vec![vobj(vec![("dwellers", vlist(vec![vobj(vec![("id", vstr("1"))])]))])])
        )])
    ));
}

#[test]
fn two_interfaces() {
    let schema = Schema::new(
        s("Query"),
        vec![
            obj("Query", &[], vec![fld_list("ibars", "IBar"), fld_list("ifoos", "IFoo")]),
            obj("A", &["IFoo"], vec![fld("id", "ID"), fld("foo", "String")]),
            obj("B", &["IBar"], vec![fld("id", "ID"), fld("bar", "Int")]),
            obj(
                "AB",
                &["IFoo", "IBar"],
                vec![fld("id", "ID"), fld("foo", "String"), fld("bar", "Int")],
            ),
        ],
        vec![
            iface("IFoo", vec![fld("foo", "String")]),
            iface("IBar", vec![fld("bar", "Int")]),
        ],
    );
    let store = store_with(
        &schema,
        vec![
            ent("A", "1", vec![("foo", sv("bla"))]),
            ent("B", "1", vec![("bar", iv(100))]),
            ent("AB", "2", vec![("foo", sv("ble")), ("bar", iv(200))]),
        ],
    );
    let d = doc(vec![
        fa(
            "ibars",
            vec![arg_int("first", 100), arg_str("orderBy", "bar")],
            vec![f("bar", vec![])],
        ),
        fa(
            "ifoos",
            vec![arg_int("first", 100), arg_str("orderBy", "foo")],
            vec![f("foo", vec![])],
        ),
    ]);
    let data = run(&schema, &store, &d);
    assert!(veq(
        &data,
        &vobj(vec![
            (
                "ibars",
                vlist(vec![vobj(vec![("bar", vint(100))]), vobj(vec![("bar", vint(200))])])
            ),
            (
                "ifoos",
                vlist(vec![vobj(vec![("foo", vstr("bla"))]), vobj(vec![("foo", vstr("ble"))])])
            ),
        ])
    ));
}

fn named_animal_schema() -> Schema {
    Schema::new(
        s("Query"),
        vec![
            obj("Query", &[], vec![fld_list("leggeds", "Legged")]),
            obj(
                "Animal",
                &["Legged"],
                vec![fld("id", "ID"), fld("name", "String"), fld("legs", "Int")],
            ),
        ],
        vec![iface("Legged", vec![fld("legs", "Int")])],
    )
}

#[test]
fn interface_non_inline_fragment() {
    let schema = named_animal_schema();
    let store = store_with(
        &schema,
        vec![ent("Animal", "1", vec![("name", sv("cow")), ("legs", iv(3))])],
    );

    // Query only the fragment.
    let d = doc_frags(
        vec![f("leggeds", vec![spread("frag")])],
        vec![frag("frag", "Animal", vec![f("name", vec![])])],
    );
    let data = run(&schema, &store, &d);
    assert!(veq(
        &data,
        &vobj(vec![("leggeds", vlist(vec![vobj(vec![("name", vstr("cow"))])]))])
    ));

    // Query the fragment and something else.
    let d = doc_frags(
        vec![f("leggeds", vec![f("legs", vec![]), spread("frag")])],
        vec![frag("frag", "Animal", vec![f("name", vec![])])],
    );
    let data = run(&schema, &store, &d);
    assert!(veq(
        &data,
        &vobj(vec![(
            "leggeds",
            vlist(vec![vobj(vec![("legs", vint(3)), ("name", vstr("cow"))])])
        )])
    ));
}

fn animal_bird_schema() -> Schema {
    Schema::new(
        s("Query"),
        vec![
            obj("Query", &[], vec![fld_list("leggeds", "Legged")]),
            obj(
                "Animal",
                &["Legged"],
                vec![fld("id", "ID"), fld("name", "String"), fld("legs", "Int")],
            ),
            obj(
                "Bird",
                &["Legged"],
                vec![fld("id", "ID"), fld("airspeed", "Int"), fld("legs", "Int")],
            ),
        ],
        vec![iface("Legged", vec![fld("legs", "Int")])],
    )
}

#[test]
fn interface_inline_fragment() {
    let schema = animal_bird_schema();
    let store = store_with(
        &schema,
        vec![
            ent("Animal", "1", vec![("name", sv("cow")), ("legs", iv(4))]),
            ent("Bird", "2", vec![("airspeed", iv(24)), ("legs", iv(2))]),
        ],
    );
    let d = doc(vec![fa(
        "leggeds",
        vec![arg_str("orderBy", "legs")],
        vec![
            on("Animal", vec![f("name", vec![])]),
            on("Bird", vec![f("airspeed", vec![])]),
        ],
    )]);
    let data = run(&schema, &store, &d);
    assert!(veq(
        &data,
        &vobj(vec![(
            "leggeds",
            vlist(vec![vobj(vec![("airspeed", vint(24))]), vobj(vec![("name", vstr("cow"))])])
        )])
    ));
}

#[test]
fn interface_inline_fragment_with_subquery() {
    let schema = Schema::new(
        s("Query"),
        vec![
            obj("Query", &[], vec![fld_list("leggeds", "Legged")]),
            obj("Parent", &[], vec![fld("id", "ID")]),
            obj(
                "Animal",
                &["Legged"],
                vec![
                    fld("id", "ID"),
                    fld("name", "String"),
                    fld("legs", "Int"),
                    fld("parent", "Parent"),
                ],
            ),
            obj(
                "Bird",
                &["Legged"],
                vec![
                    fld("id", "ID"),
                    fld("airspeed", "Int"),
                    fld("legs", "Int"),
                    fld("parent", "Parent"),
                ],
            ),
        ],
        vec![iface("Legged", vec![fld("legs", "Int")])],
    );
    let store = store_with(
        &schema,
        vec![
            ent("Parent", "mama_cow", vec![]),
            ent(
                "Animal",
                "1",
                vec![("name", sv("cow")), ("legs", iv(4)), ("parent", sv("mama_cow"))],
            ),
            ent("Parent", "mama_bird", vec![]),
            ent(
                "Bird",
                "2",
                vec![("airspeed", iv(5)), ("legs", iv(2)), ("parent", sv("mama_bird"))],
            ),
        ],
    );
    let d = doc(vec![fa(
        "leggeds",
        vec![arg_str("orderBy", "legs")],
        vec![
            f("legs", vec![]),
            on(
                "Bird",
                vec![f("airspeed", vec![]), f("parent", vec![f("id", vec![])])],
            ),
        ],
    )]);
    let data = run(&schema, &store, &d);
    assert!(veq(
        &data,
        &vobj(vec![(
            "leggeds",
            vlist(vec![
                vobj(vec![
                    ("airspeed", vint(5)),
                    ("legs", vint(2)),
                    ("parent", vobj(vec![("id", vstr("mama_bird"))])),
                ]),
                vobj(vec![("legs", vint(4))]),
            ])
        )])
    ));
}

#[test]
fn invalid_fragment() {
    let schema = Schema::new(
        s("Query"),
        vec![
            obj("Query", &[], vec![fld("legged", "Legged")]),
            obj(
                "Animal",
                &["Legged"],
                vec![
                    fld("id", "ID"),
                    fld("name", "String"),
                    fld("legs", "Int"),
                    fld("parent", "Legged"),
                ],
            ),
        ],
        vec![iface("Legged", vec![fld("legs", "Int")])],
    );
    let store = EntityStore::new();
    let d = doc(vec![fa(
        "legged",
        vec![arg_str("id", "child")],
        vec![anon(vec![f("name", vec![])])],
    )]);
    let errs = run_err(&schema, &store, &d);
    match &errs[0] {
        QueryExecutionError::UnknownField(on_type, field_name) => {
            assert_eq!(on_type, "Legged");
            assert_eq!(field_name, "name");
        }
        _ => panic!("error is not the expected one"),
    }
}

#[test]
fn alias() {
    let schema = Schema::new(
        s("Query"),
        vec![
            obj("Query", &[], vec![fld("legged", "Legged")]),
            obj(
                "Animal",
                &["Legged"],
                vec![fld("id", "ID"), fld("legs", "Int"), fld("parent", "Legged")],
            ),
        ],
        vec![iface("Legged", vec![fld("id", "ID"), fld("legs", "Int")])],
    );
    let store = store_with(
        &schema,
        vec![
            ent("Animal", "parent", vec![("legs", iv(4)), ("parent", StoreVal::Null)]),
            ent("Animal", "child", vec![("legs", iv(3)), ("parent", sv("parent"))]),
        ],
    );
    let d = doc(vec![falias(
        "l",
        "legged",
        vec![arg_str("id", "child")],
        vec![on(
            "Animal",
            vec![falias(
                "p",
                "parent",
                vec![],
                vec![
                    falias("i", "id", vec![], vec![]),
                    falias("t", "__typename", vec![], vec![]),
                    f("__typename", vec![]),
                ],
            )],
        )],
    )]);
    let data = run(&schema, &store, &d);
    assert!(veq(
        &data,
        &vobj(vec![(
            "l",
            vobj(vec![(
                "p",
                vobj(vec![
                    ("i", vstr("parent")),
                    ("t", vstr("Animal")),
                    ("__typename", vstr("Animal")),
                ])
            )])
        )])
    ));
}

fn parent_child_schema() -> Schema {
    Schema::new(
        s("Query"),
        vec![
            obj("Query", &[], vec![fld_list("parents", "Parent")]),
            obj("Parent", &[], vec![fld("id", "ID"), fld("child", "Child")]),
            obj("Child", &[], vec![fld("id", "ID")]),
        ],
        vec![],
    )
}

#[test]
fn fragments_dont_panic() {
    let schema = parent_child_schema();
    let store = store_with(
        &schema,
        vec![
            ent("Parent", "p", vec![("child", sv("c"))]),
            ent("Parent", "p2", vec![("child", StoreVal::Null)]),
            ent("Child", "c", vec![]),
        ],
    );
    let d = doc_frags(
        vec![f(
            "parents",
            vec![
                on("Parent", vec![f("child", vec![f("id", vec![])])]),
                spread("Frag"),
                f("child", vec![f("id", vec![])]),
            ],
        )],
        vec![frag("Frag", "Parent", vec![f("child", vec![f("id", vec![])])])],
    );
    let data = run(&schema, &store, &d);
    assert!(veq(
        &data,
        &vobj(vec![(
            "parents",
            vlist(vec![
                vobj(vec![("child", vobj(vec![("id", vstr("c"))]))]),
                vobj(vec![("child", Value::Null)]),
            ])
        )])
    ));
}

fn parent_children_schema(child_fields: Vec<FieldDef>) -> Schema {
    Schema::new(
        s("Query"),
        vec![
            obj("Query", &[], vec![fld_list("parents", "Parent")]),
            obj("Parent", &[], vec![fld("id", "ID"), fld_list("children", "Child")]),
            obj("Child", &[], child_fields),
        ],
        vec![],
    )
}

#[test]
fn fragments_dont_duplicate_data() {
    let schema = parent_children_schema(vec![fld("id", "ID")]);
    let store = store_with(
        &schema,
        vec![
            ent("Parent", "p", vec![("children", lv(&["c"]))]),
            ent("Parent", "b", vec![("children", lv(&[]))]),
            ent("Child", "c", vec![]),
        ],
    );
    let d = doc_frags(
        vec![f(
            "parents",
            vec![spread("Frag"), f("children", vec![f("id", vec![])])],
        )],
        vec![frag("Frag", "Parent", vec![f("children", vec![f("id", vec![])])])],
    );
    let data = run(&schema, &store, &d);
    assert!(veq(
        &data,
        &vobj(vec![(
            "parents",
            vlist(vec![
                vobj(vec![("children", vlist(vec![]))]),
                vobj(vec![("children", vlist(vec![vobj(vec![("id", vstr("c"))])]))]),
            ])
        )])
    ));
}

#[test]
fn redundant_fields() {
    let schema = Schema::new(
        s("Query"),
        vec![
            obj("Query", &[], vec![fld_list("leggeds", "Legged")]),
            obj("Animal", &["Legged"], vec![fld("id", "ID"), fld("parent", "Legged")]),
        ],
        vec![iface("Legged", vec![fld("id", "ID"), fld("parent", "Legged")])],
    );
    let store = store_with(
        &schema,
        vec![
            ent("Animal", "parent", vec![("parent", StoreVal::Null)]),
            ent("Animal", "child", vec![("parent", sv("parent"))]),
        ],
    );
    let d = doc(vec![f(
        "leggeds",
        vec![
            f("parent", vec![f("id", vec![])]),
            on("Animal", vec![f("parent", vec![f("id", vec![])])]),
        ],
    )]);
    let data = run(&schema, &store, &d);
    assert!(veq(
        &data,
        &vobj(vec![(
            "leggeds",
            vlist(vec![
                vobj(vec![("parent", vobj(vec![("id", vstr("parent"))]))]),
                vobj(vec![("parent", Value::Null)]),
            ])
        )])
    ));
}

#[test]
fn fragments_merge_selections() {
    let schema = parent_children_schema(vec![fld("id", "ID"), fld("foo", "Int")]);
    let store = store_with(
        &schema,
        vec![
            ent("Parent", "p", vec![("children", lv(&["c"]))]),
            ent("Child", "c", vec![("foo", iv(1))]),
        ],
    );
    let d = doc_frags(
        vec![f(
            "parents",
            vec![spread("Frag"), f("children", vec![f("id", vec![])])],
        )],
        vec![frag("Frag", "Parent", vec![f("children", vec![f("foo", vec![])])])],
    );
    let data = run(&schema, &store, &d);
    assert!(veq(
        &data,
        &vobj(vec![(
            "parents",
            vlist(vec![vobj(vec![(
                "children",
                vlist(vec![vobj(vec![("foo", vint(1)), ("id", vstr("c"))])])
            )])])
        )])
    ));
}

#[test]
fn merge_fields_not_in_interface() {
    let schema = Schema::new(
        s("Query"),
        vec![
            obj("Query", &[], vec![fld_list("ifaces", "Iface")]),
            obj("Animal", &["Iface"], vec![fld("id", "ID"), fld("human", "Iface")]),
            obj("Human", &["Iface"], vec![fld("id", "ID"), fld("animal", "Iface")]),
        ],
        vec![iface("Iface", vec![fld("id", "ID")])],
    );
    let store = store_with(
        &schema,
        vec![
            ent("Animal", "cow", vec![("human", sv("fred"))]),
            ent("Human", "fred", vec![("animal", sv("cow"))]),
        ],
    );
    let d = doc(vec![f(
        "ifaces",
        vec![
            on(
                "Animal",
                vec![
                    f("id", vec![]),
                    falias("friend", "human", vec![], vec![f("id", vec![])]),
                ],
            ),
            on(
                "Human",
                vec![
                    f("id", vec![]),
                    falias("friend", "animal", vec![], vec![f("id", vec![])]),
                ],
            ),
        ],
    )]);
    let data = run(&schema, &store, &d);
    assert!(veq(
        &data,
        &vobj(vec![(
            "ifaces",
            vlist(vec![
                vobj(vec![("id", vstr("cow")), ("friend", vobj(vec![("id", vstr("fred"))]))]),
                vobj(vec![("id", vstr("fred")), ("friend", vobj(vec![("id", vstr("cow"))]))]),
            ])
        )])
    ));
}

#[test]
fn nested_interface_fragments() {
    let schema = Schema::new(
        s("Query"),
        vec![
            obj("Query", &[], vec![fld_list("i1Faces", "I1face")]),
            obj("Foo", &[], vec![fld("id", "ID")]),
            obj("One", &["I1face"], vec![fld("id", "ID"), fld("foo1", "Foo")]),
            obj(
                "Two",
                &["I1face", "I2face"],
                vec![fld("id", "ID"), fld("foo1", "Foo"), fld("foo2", "Foo")],
            ),
            obj(
                "Three",
                &["I1face", "I2face", "I3face"],
                vec![fld("id", "ID"), fld("foo1", "Foo"), fld("foo2", "Foo"), fld("foo3", "Foo")],
            ),
        ],
        vec![
            iface("I1face", vec![fld("id", "ID"), fld("foo1", "Foo")]),
            iface("I2face", vec![fld("id", "ID"), fld("foo2", "Foo")]),
            iface("I3face", vec![fld("id", "ID"), fld("foo3", "Foo")]),
        ],
    );
    let store = store_with(
        &schema,
        vec![
            ent("Foo", "foo", vec![]),
            ent("One", "1", vec![("foo1", sv("foo"))]),
            ent("Two", "2", vec![("foo1", sv("foo")), ("foo2", sv("foo"))]),
            ent(
                "Three",
                "3",
                vec![("foo1", sv("foo")), ("foo2", sv("foo")), ("foo3", sv("foo"))],
            ),
        ],
    );
    let d = doc(vec![f(
        "i1Faces",
        vec![
            f("__typename", vec![]),
            f("foo1", vec![f("id", vec![])]),
            on("I2face", vec![f("foo2", vec![f("id", vec![])])]),
            on("I3face", vec![f("foo3", vec![f("id", vec![])])]),
        ],
    )]);
    let data = run(&schema, &store, &d);
    let foo = vobj(vec![("id", vstr("foo"))]);
    assert!(veq(
        &data,
        &vobj(vec![(
            "i1Faces",
            vlist(vec![
                vobj(vec![("__typename", vstr("One")), ("foo1", foo.clone_value())]),
                vobj(vec![
                    ("__typename", vstr("Two")),
                    ("foo1", foo.clone_value()),
                    ("foo2", foo.clone_value()),
                ]),
                vobj(vec![
                    ("__typename", vstr("Three")),
                    ("foo1", foo.clone_value()),
                    ("foo2", foo.clone_value()),
                    ("foo3", foo.clone_value()),
                ]),
            ])
        )])
    ));
}

fn overlapping_ifaces_schema() -> Schema {
    Schema::new(
        s("Query"),
        vec![
            obj("Query", &[], vec![fld_list("i1Faces", "I1face")]),
            obj("Foo", &[], vec![fld("id", "ID")]),
            obj("One", &["I1face"], vec![fld("id", "ID"), fld("foo1", "Foo")]),
            obj("Two", &["I1face", "I2face"], vec![fld("id", "ID"), fld("foo1", "Foo")]),
        ],
        vec![
            iface("I1face", vec![fld("id", "ID"), fld("foo1", "Foo")]),
            iface("I2face", vec![fld("id", "ID"), fld("foo1", "Foo")]),
        ],
    )
}

#[test]
fn nested_interface_fragments_overlapping() {
    let schema = overlapping_ifaces_schema();
    let store = store_with(
        &schema,
        vec![
            ent("Foo", "foo", vec![]),
            ent("One", "1", vec![("foo1", sv("foo"))]),
            ent("Two", "2", vec![("foo1", sv("foo"))]),
        ],
    );

    let d = doc(vec![f(
        "i1Faces",
        vec![
            f("__typename", vec![]),
            on("I2face", vec![f("foo1", vec![f("id", vec![])])]),
        ],
    )]);
    let data = run(&schema, &store, &d);
    assert!(veq(
        &data,
        &vobj(vec![(
            "i1Faces",
            vlist(vec![
                vobj(vec![("__typename", vstr("One"))]),
                vobj(vec![
                    ("__typename", vstr("Two")),
                    ("foo1", vobj(vec![("id", vstr("foo"))])),
                ]),
            ])
        )])
    ));

    let d = doc(vec![f(
        "i1Faces",
        vec![
            f("__typename", vec![]),
            f("foo1", vec![f("id", vec![])]),
            on("I2face", vec![f("foo1", vec![f("id", vec![])])]),
        ],
    )]);
    let data = run(&schema, &store, &d);
    assert!(veq(
        &data,
        &vobj(vec![(
            "i1Faces",
            vlist(vec![
                vobj(vec![
                    ("__typename", vstr("One")),
                    ("foo1", vobj(vec![("id", vstr("foo"))])),
                ]),
                vobj(vec![
                    ("__typename", vstr("Two")),
                    ("foo1", vobj(vec![("id", vstr("foo"))])),
                ]),
            ])
        )])
    ));
}
