// Unit tests: error variants, pagination, the resolver contract, the
// type-reference view, and store write semantics.

use iface_resolve::errors::QueryExecutionError;
use iface_resolve::exec::execute_query;
use iface_resolve::object_or_interface::ObjectOrInterface;
use iface_resolve::query::{Argument, Document, FieldSel, FragmentDef, Selection};
use iface_resolve::resolver::{Resolver, StoreResolver};
use iface_resolve::schema::{FieldDef, InterfaceTypeDef, ObjectTypeDef, Schema};
use iface_resolve::store::{EntityAttr, EntityStore, StoreVal, StoredEntity};
use iface_resolve::value::Value;

fn s(x: &str) -> String {
    x.to_string()
}

fn fld(name: &str, ty: &str) -> FieldDef {
    FieldDef { name: s(name), value_type: s(ty), is_list: false, derived_from: None }
}

fn fld_list(name: &str, ty: &str) -> FieldDef {
    FieldDef { name: s(name), value_type: s(ty), is_list: true, derived_from: None }
}

fn obj(name: &str, interfaces: &[&str], fields: Vec<FieldDef>) -> ObjectTypeDef {
    ObjectTypeDef {
        name: s(name),
        interfaces: interfaces.iter().map(|i| s(i)).collect(),
        fields,
        directives: Vec::new(),
    }
}

fn iface(name: &str, fields: Vec<FieldDef>) -> InterfaceTypeDef {
    InterfaceTypeDef { name: s(name), fields, directives: Vec::new() }
}

fn ent(ty: &str, id: &str, attrs: Vec<(&str, StoreVal)>) -> StoredEntity {
    let mut all = vec![EntityAttr { name: s("id"), value: StoreVal::Str(s(id)) }];
    for (n, v) in attrs {
        all.push(EntityAttr { name: s(n), value: v });
    }
    StoredEntity { entity_type: s(ty), id: s(id), attrs: all }
}

fn f(name: &str, sub: Vec<Selection>) -> Selection {
    Selection::Field(FieldSel {
        alias: None,
        name: s(name),
        arguments: Vec::new(),
        selection_set: sub,
    })
}

fn fa(name: &str, args: Vec<Argument>, sub: Vec<Selection>) -> Selection {
    Selection::Field(FieldSel { alias: None, name: s(name), arguments: args, selection_set: sub })
}

fn arg_int(name: &str, v: i64) -> Argument {
    Argument { name: s(name), value: StoreVal::Int(v) }
}

fn legged_schema() -> Schema {
    Schema::new(
        s("Query"),
        vec![
            obj("Query", &[], vec![fld("legged", "Legged"), fld_list("leggeds", "Legged")]),
            obj("Animal", &["Legged"], vec![fld("id", "ID"), fld("legs", "Int")]),
        ],
        vec![iface("Legged", vec![fld("id", "ID"), fld("legs", "Int")])],
    )
}

fn animal_entities(ids: &[&str]) -> Vec<StoredEntity> {
    ids.iter().map(|id| ent("Animal", id, vec![("legs", StoreVal::Int(4))])).collect()
}

fn store_with(schema: &Schema, entities: Vec<StoredEntity>) -> EntityStore {
    let mut store = EntityStore::new();
    for e in entities {
        store.set_entity(schema, e).expect("write must succeed");
    }
    store
}

fn ids_of(data: &Value) -> Vec<String> {
    match data {
        Value::Object(entries) => match &entries[0].1 {
            Value::List(items) => items
                .iter()
                .map(|it| match it {
                    Value::Object(fs) => match &fs[0].1 {
                        Value::Str(id) => id.clone(),
                        _ => panic!("id must be a string"),
                    },
                    _ => panic!("items must be objects"),
                })
                .collect(),
            _ => panic!("field must be a list"),
        },
        _ => panic!("result must be an object"),
    }
}

#[test]
fn unknown_fragment_is_reported() {
    let schema = legged_schema();
    let store = EntityStore::new();
    let d = Document {
        selections: vec![f("leggeds", vec![Selection::FragmentSpread(s("missing"))])],
        fragments: Vec::new(),
    };
    let errs = execute_query(&schema, &store, &d).err().expect("must fail");
    assert!(matches!(&errs[0], QueryExecutionError::UnknownFragment(n) if n == "missing"));
}

#[test]
fn fragment_cycle_is_reported() {
    let schema = legged_schema();
    let store = EntityStore::new();
    let d = Document {
        selections: vec![f("leggeds", vec![Selection::FragmentSpread(s("loop"))])],
        fragments: vec![FragmentDef {
            name: s("loop"),
            type_condition: s("Animal"),
            selection_set: vec![Selection::FragmentSpread(s("loop"))],
        }],
    };
    let errs = execute_query(&schema, &store, &d).err().expect("must fail");
    assert!(matches!(&errs[0], QueryExecutionError::FragmentCycle(n) if n == "loop"));
}

#[test]
fn unknown_condition_type_is_reported() {
    let schema = legged_schema();
    let store = EntityStore::new();
    let d = Document {
        selections: vec![f(
            "leggeds",
            vec![Selection::InlineFragment(Some(s("Missing")), vec![f("legs", vec![])])],
        )],
        fragments: Vec::new(),
    };
    let errs = execute_query(&schema, &store, &d).err().expect("must fail");
    assert!(matches!(&errs[0], QueryExecutionError::UnknownType(n) if n == "Missing"));
}

#[test]
fn sibling_errors_are_all_collected() {
    let schema = legged_schema();
    let store = EntityStore::new();
    let d = Document {
        selections: vec![f(
            "leggeds",
            vec![f("nope1", vec![]), f("nope2", vec![])],
        )],
        fragments: Vec::new(),
    };
    let errs = execute_query(&schema, &store, &d).err().expect("must fail");
    assert_eq!(errs.len(), 2);
    assert!(matches!(&errs[0], QueryExecutionError::UnknownField(t, n) if t == "Legged" && n == "nope1"));
    assert!(matches!(&errs[1], QueryExecutionError::UnknownField(t, n) if t == "Legged" && n == "nope2"));
}

#[test]
fn skip_and_first_select_a_page() {
    let schema = legged_schema();
    let store = store_with(&schema, animal_entities(&["a", "b", "c", "d"]));
    let d = Document {
        selections: vec![fa(
            "leggeds",
            vec![arg_int("skip", 1), arg_int("first", 2)],
            vec![f("id", vec![])],
        )],
        fragments: Vec::new(),
    };
    let data = execute_query(&schema, &store, &d).expect("must succeed");
    assert_eq!(ids_of(&data), vec![s("b"), s("c")]);
}

#[test]
fn default_order_is_by_id_across_types() {
    let schema = Schema::new(
        s("Query"),
        vec![
            obj("Query", &[], vec![fld_list("leggeds", "Legged")]),
            obj("Animal", &["Legged"], vec![fld("id", "ID"), fld("legs", "Int")]),
            obj("Furniture", &["Legged"], vec![fld("id", "ID"), fld("legs", "Int")]),
        ],
        vec![iface("Legged", vec![fld("id", "ID"), fld("legs", "Int")])],
    );
    let store = store_with(
        &schema,
        vec![
            ent("Animal", "c", vec![]),
            ent("Furniture", "a", vec![]),
            ent("Animal", "b", vec![]),
        ],
    );
    let d = Document {
        selections: vec![f("leggeds", vec![f("id", vec![])])],
        fragments: Vec::new(),
    };
    let data = execute_query(&schema, &store, &d).expect("must succeed");
    assert_eq!(ids_of(&data), vec![s("a"), s("b"), s("c")]);
}

#[test]
fn field_stream_is_not_supported() {
    let schema = legged_schema();
    let resolver = StoreResolver { schema: legged_schema(), store: EntityStore::new() };
    let animal = schema.object_type(&s("Animal")).expect("type must exist");
    let field = FieldSel {
        alias: None,
        name: s("legs"),
        arguments: Vec::new(),
        selection_set: Vec::new(),
    };
    let r = resolver.resolve_field_stream(&schema, animal, &field);
    match r {
        Err(QueryExecutionError::NotSupported(msg)) => {
            assert_eq!(msg, "Resolving field streams is not supported by this resolver");
        }
        _ => panic!("streams must be refused"),
    }
}

#[test]
fn enum_and_scalar_values_pass_through() {
    let resolver = StoreResolver { schema: legged_schema(), store: EntityStore::new() };
    let field = FieldSel {
        alias: None,
        name: s("legs"),
        arguments: Vec::new(),
        selection_set: Vec::new(),
    };
    match resolver.resolve_enum_value(&field, Some(Value::Str(s("FOUR")))) {
        Ok(Value::Str(x)) => assert_eq!(x, "FOUR"),
        _ => panic!("enum value must pass through"),
    }
    match resolver.resolve_enum_values(&field, None) {
        Ok(Value::Null) => {}
        _ => panic!("a missing enum list must resolve to null"),
    }
    let schema = legged_schema();
    let animal = schema.object_type(&s("Animal")).expect("type must exist");
    match resolver.resolve_scalar_value(animal, &field, Some(Value::Int(4)), &Vec::new()) {
        Ok(Value::Int(4)) => {}
        _ => panic!("scalar value must pass through"),
    }
    match resolver.resolve_scalar_values(&field, None) {
        Ok(Value::Null) => {}
        _ => panic!("a missing scalar list must resolve to null"),
    }
}

#[test]
fn abstract_type_resolves_from_typename_tag() {
    let schema = legged_schema();
    let resolver = StoreResolver { schema: legged_schema(), store: EntityStore::new() };
    let value = Value::Object(vec![(s("__typename"), Value::Str(s("Animal")))]);
    let t = resolver.resolve_abstract_type(&schema, &value).expect("type must resolve");
    assert_eq!(t.name, "Animal");
    let untagged = Value::Object(vec![(s("legs"), Value::Int(4))]);
    assert!(resolver.resolve_abstract_type(&schema, &untagged).is_none());
}

#[test]
fn prefetch_answers_whole_selection() {
    let schema = legged_schema();
    let store = store_with(&schema, animal_entities(&["1"]));
    let d = Document {
        selections: vec![f("leggeds", vec![f("id", vec![])])],
        fragments: Vec::new(),
    };
    let direct = execute_query(&schema, &store, &d).expect("must succeed");
    let resolver = StoreResolver { schema: legged_schema(), store };
    let prefetched = resolver
        .prefetch(&schema, &d.selections)
        .expect("prefetch must succeed")
        .expect("prefetch must produce a tree");
    assert_eq!(ids_of(&direct), ids_of(&prefetched));
}

#[test]
fn type_reference_view() {
    let schema = legged_schema();
    let animal = schema.object_type(&s("Animal")).expect("type must exist");
    let legged = schema.interface_type(&s("Legged")).expect("interface must exist");
    let o = ObjectOrInterface::Object(animal);
    let i = ObjectOrInterface::Interface(legged);

    assert!(o.is_object() && !o.is_interface());
    assert!(i.is_interface() && !i.is_object());
    assert_eq!(o.name(), "Animal");
    assert_eq!(i.name(), "Legged");
    assert!(o.field(&s("legs")).is_some());
    assert!(o.field(&s("wings")).is_none());
    assert!(i.field(&s("legs")).is_some());
    assert!(o.directives().is_empty());
    assert_eq!(o.fields().len(), 2);

    assert!(o.matches(&s("Animal"), &schema));
    assert!(!o.matches(&s("Furniture"), &schema));
    assert!(i.matches(&s("Animal"), &schema));
    assert!(!i.matches(&s("Query"), &schema));

    let oo = o.object_types(&schema).expect("an object lists itself");
    assert_eq!(oo.len(), 1);
    assert_eq!(oo[0].name, "Animal");
    let io = i.object_types(&schema).expect("a known interface lists implementors");
    assert_eq!(io.len(), 1);
    assert_eq!(io[0].name, "Animal");
    assert!(!o.is_meta());
}

#[test]
fn resolve_objects_fans_out_and_reuses_prefetched() {
    let schema = legged_schema();
    let resolver = StoreResolver {
        schema: legged_schema(),
        store: store_with(&schema, animal_entities(&["b", "a"])),
    };
    let field = FieldSel {
        alias: None,
        name: s("leggeds"),
        arguments: Vec::new(),
        selection_set: vec![f("id", vec![])],
    };
    let legged = resolver.schema.interface_type(&s("Legged")).expect("interface must exist");
    let fd = fld_list("leggeds", "Legged");

    // A prefetched value is reused untouched.
    let reused = resolver
        .resolve_objects(
            Some(Value::Int(7)),
            &field,
            &fd,
            ObjectOrInterface::Interface(legged),
            &Vec::new(),
        )
        .expect("reuse must succeed");
    assert!(matches!(reused, Value::Int(7)));

    // Without one, the position's entities come back ordered by id.
    let listed = resolver
        .resolve_objects(None, &field, &fd, ObjectOrInterface::Interface(legged), &Vec::new())
        .expect("fan-out must succeed");
    match listed {
        Value::List(items) => {
            assert_eq!(items.len(), 2);
            match (&items[0], &items[1]) {
                (Value::Object(x), Value::Object(y)) => {
                    assert!(matches!(&x[0].1, Value::Str(id) if id == "a"));
                    assert!(matches!(&y[0].1, Value::Str(id) if id == "b"));
                }
                _ => panic!("items must be objects"),
            }
        }
        _ => panic!("result must be a list"),
    }
}

#[test]
fn resolve_object_finds_by_id() {
    let schema = legged_schema();
    let resolver = StoreResolver {
        schema: legged_schema(),
        store: store_with(&schema, animal_entities(&["x"])),
    };
    let field = FieldSel {
        alias: None,
        name: s("legged"),
        arguments: Vec::new(),
        selection_set: vec![f("id", vec![])],
    };
    let legged = resolver.schema.interface_type(&s("Legged")).expect("interface must exist");
    let fd = fld("legged", "Legged");

    let args = vec![Argument { name: s("id"), value: StoreVal::Str(s("x")) }];
    let found = resolver
        .resolve_object(None, &field, &fd, ObjectOrInterface::Interface(legged), &args)
        .expect("lookup must succeed");
    assert!(matches!(&found, Value::Object(fs) if matches!(&fs[0].1, Value::Str(id) if id == "x")));

    let args = vec![Argument { name: s("id"), value: StoreVal::Str(s("y")) }];
    let missing = resolver
        .resolve_object(None, &field, &fd, ObjectOrInterface::Interface(legged), &args)
        .expect("lookup must succeed");
    assert!(matches!(missing, Value::Null));
}

#[test]
fn rewriting_an_entity_replaces_it() {
    let schema = legged_schema();
    let mut store = EntityStore::new();
    store
        .set_entity(&schema, ent("Animal", "1", vec![("legs", StoreVal::Int(3))]))
        .expect("first write must succeed");
    store
        .set_entity(&schema, ent("Animal", "1", vec![("legs", StoreVal::Int(5))]))
        .expect("rewrite must succeed");
    let d = Document {
        selections: vec![f("leggeds", vec![f("legs", vec![])])],
        fragments: Vec::new(),
    };
    let data = execute_query(&schema, &store, &d).expect("must succeed");
    match &data {
        Value::Object(entries) => match &entries[0].1 {
            Value::List(items) => {
                assert_eq!(items.len(), 1);
                match &items[0] {
                    Value::Object(fs) => assert!(matches!(fs[0].1, Value::Int(5))),
                    _ => panic!("item must be an object"),
                }
            }
            _ => panic!("leggeds must be a list"),
        },
        _ => panic!("result must be an object"),
    }
    let found = store.find_entity(&s("Animal"), &s("1")).expect("entity must be stored");
    assert!(found.attr(&s("legs")).is_some_and(|v| matches!(v, StoreVal::Int(5))));
    assert!(store.find_entity(&s("Animal"), &s("2")).is_none());
}
