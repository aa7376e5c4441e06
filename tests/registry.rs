use async_graphql::dynamic::{Enum, EnumItem, Field, FieldFuture, Object, Type, TypeRef};
use async_graphql::Value;
use dynamic_graphql::laws::unregistered_target_is_reported;
use dynamic_graphql::{ObjectExpansion, Register, Registry, RegistryError, TypeDefinition};

fn string_field(name: &str) -> Field {
    Field::new(name, TypeRef::named_nn(TypeRef::STRING), |_| {
        FieldFuture::new(std::future::ready(Ok::<_, async_graphql::Error>(Some(
            Value::from("value"),
        ))))
    })
}

fn object(name: &str, fields: &[&str]) -> TypeDefinition {
    let mut object = Object::new(name);
    for field in fields {
        object = object.field(string_field(field));
    }
    TypeDefinition::Object(name.to_string(), object)
}

struct AddField(&'static str);

impl ObjectExpansion for AddField {
    fn expanded(&self, object: Object) -> Object {
        object.field(string_field(self.0))
    }

    fn expand(self: Box<Self>, object: Object) -> Object {
        self.expanded(object)
    }
}

fn sdl(registry: Registry) -> String {
    match registry.create_schema() {
        Ok(builder) => builder.finish().unwrap().sdl(),
        Err(e) => panic!("{}", e.message()),
    }
}

fn error_of(registry: Registry) -> RegistryError {
    match registry.create_schema() {
        Ok(_) => panic!("the schema was created"),
        Err(e) => e,
    }
}

fn type_block(sdl: &str, name: &str) -> String {
    let start = sdl.find(&format!("type {} {{", name)).expect("type is in the schema");
    let end = start + sdl[start..].find('}').unwrap();
    sdl[start..=end].to_string()
}

#[test]
fn root_only_registry_builds() {
    let registry = Registry::new().set_root("Query");
    assert!(registry.create_schema().is_ok());
}

#[test]
fn root_with_its_object_builds() {
    let text = sdl(Registry::new()
        .set_root("Query")
        .register_type(object("Query", &["value"])));
    assert!(type_block(&text, "Query").contains("value: String!"));
}

#[test]
fn expansion_before_definition_resolves() {
    let expansion_first = Registry::new()
        .set_root("A")
        .update_object("A", "AExtra", Box::new(AddField("f2")))
        .register_type(object("A", &["f1"]));
    let definition_first = Registry::new()
        .set_root("A")
        .register_type(object("A", &["f1"]))
        .update_object("A", "AExtra", Box::new(AddField("f2")));
    let first = sdl(expansion_first);
    let second = sdl(definition_first);
    let block = type_block(&first, "A");
    assert!(block.contains("f1: String!"));
    assert!(block.contains("f2: String!"));
    assert_eq!(first, second);
}

#[test]
fn expansions_of_several_objects_resolve() {
    let text = sdl(Registry::new()
        .set_root("A")
        .update_object("B", "BExtra", Box::new(AddField("b2")))
        .update_object("A", "AExtra", Box::new(AddField("a2")))
        .update_object("A", "AMore", Box::new(AddField("a3")))
        .register_type(object("A", &["a1", "b"]))
        .register_type(object("B", &["b1"])));
    let a = type_block(&text, "A");
    assert!(a.contains("a1: String!"));
    assert!(a.contains("a2: String!"));
    assert!(a.contains("a3: String!"));
    assert!(type_block(&text, "B").contains("b2: String!"));
}

#[test]
fn expansion_of_object_never_registered_fails() {
    let registry = Registry::new()
        .set_root("A")
        .register_type(object("A", &["f1"]))
        .update_object("A", "AExtra", Box::new(AddField("f2")))
        .update_object("B", "BExtra", Box::new(AddField("g")));
    match error_of(registry) {
        RegistryError::ObjectNotFound(list) => assert_eq!(list, "B when defining BExtra"),
        RegistryError::NoRoot => panic!("wrong error"),
    }
}

#[test]
fn unresolved_reference_names_target_and_expansion() {
    let registry = Registry::new()
        .set_root("Query")
        .register_type(object("Query", &["value"]))
        .update_object("Ghost", "GhostExpansion", Box::new(AddField("boo")));
    let message = error_of(registry).message();
    assert!(message.contains("Ghost"));
    assert!(message.contains("GhostExpansion"));
    assert_eq!(message, "Can't find object: \"Ghost when defining GhostExpansion\"");
}

#[test]
fn every_unresolved_reference_is_listed_in_order() {
    let registry = Registry::new()
        .set_root("Query")
        .update_object("Ghost", "First", Box::new(AddField("a")))
        .register_type(object("Query", &["value"]))
        .update_object("Query", "Fine", Box::new(AddField("b")))
        .update_object("Phantom", "Second", Box::new(AddField("c")));
    match error_of(registry) {
        RegistryError::ObjectNotFound(list) => {
            assert_eq!(list, "Ghost when defining First, Phantom when defining Second")
        }
        RegistryError::NoRoot => panic!("wrong error"),
    }
}

#[test]
fn missing_root_fails() {
    let registry = Registry::new()
        .register_type(object("Query", &["value"]))
        .register_type(object("Other", &["value"]))
        .register_type(TypeDefinition::Other(Type::Enum(
            Enum::new("Color").item(EnumItem::new("RED")),
        )));
    let error = error_of(registry);
    assert!(matches!(error, RegistryError::NoRoot));
    assert_eq!(error.message(), "No root object defined");
}

#[test]
fn missing_root_fails_on_empty_registry() {
    assert!(matches!(error_of(Registry::new()), RegistryError::NoRoot));
    assert!(matches!(error_of(Registry::default()), RegistryError::NoRoot));
}

#[test]
fn unresolved_reference_is_reported_before_missing_root() {
    let registry = Registry::new().update_object("Ghost", "GhostExpansion", Box::new(AddField("a")));
    assert!(matches!(error_of(registry), RegistryError::ObjectNotFound(_)));
}

#[test]
fn last_registration_of_a_name_wins() {
    let text = sdl(Registry::new()
        .set_root("Query")
        .register_type(object("Query", &["dup"]))
        .register_type(object("Dup", &["first"]))
        .register_type(object("Dup", &["second"])));
    assert_eq!(text.matches("type Dup {").count(), 1);
    let block = type_block(&text, "Dup");
    assert!(block.contains("second: String!"));
    assert!(!block.contains("first"));
}

#[test]
fn later_root_name_wins() {
    let text = sdl(Registry::new()
        .set_root("Other")
        .set_root("Query")
        .register_type(object("Query", &["value"])));
    assert!(text.contains("type Query"));
}

#[test]
fn order_of_direct_registrations_does_not_matter() {
    let names = ["X", "Y", "Z"];
    let orders = [
        [0, 1, 2],
        [0, 2, 1],
        [1, 0, 2],
        [1, 2, 0],
        [2, 0, 1],
        [2, 1, 0],
    ];
    let mut texts = Vec::new();
    for order in orders {
        let mut registry = Registry::new()
            .set_root("Query")
            .register_type(object("Query", &["x"]));
        for i in order {
            registry = registry.register_type(object(names[i], &["value"]));
        }
        texts.push(sdl(registry));
    }
    for text in &texts {
        assert_eq!(text, &texts[0]);
        for name in names {
            assert!(type_block(text, name).contains("value: String!"));
        }
    }
}

#[test]
fn mutation_root_is_passed_on() {
    let text = sdl(Registry::new()
        .set_root("Query")
        .set_mutation("Mutation")
        .register_type(object("Query", &["value"]))
        .register_type(object("Mutation", &["change"])));
    assert!(text.contains("mutation: Mutation"));
    assert!(type_block(&text, "Mutation").contains("change: String!"));
}

#[test]
fn other_kinds_of_type_are_registered() {
    let color = Enum::new("Color").item(EnumItem::new("RED")).item(EnumItem::new("GREEN"));
    let query = Object::new("Query").field(Field::new(
        "color",
        TypeRef::named_nn("Color"),
        |_| FieldFuture::new(std::future::ready(Ok::<_, async_graphql::Error>(Some(Value::from("RED"))))),
    ));
    let text = sdl(Registry::new()
        .set_root("Query")
        .register_type(TypeDefinition::Object("Query".to_string(), query))
        .register_type(TypeDefinition::Other(Type::Enum(color))));
    assert!(text.contains("enum Color"));
    assert!(text.contains("GREEN"));
}

struct QueryUnit;

impl Register for QueryUnit {
    fn register(registry: Registry) -> Registry {
        registry.register::<ExtraUnit>().register_type(object("Query", &["value"]))
    }
}

struct ExtraUnit;

impl Register for ExtraUnit {
    fn register(registry: Registry) -> Registry {
        registry.update_object("Query", "ExtraUnit", Box::new(AddField("extra")))
    }
}

struct NothingUnit;

impl Register for NothingUnit {}

#[test]
fn register_runs_the_registration_unit() {
    let text = sdl(Registry::new()
        .set_root("Query")
        .register::<NothingUnit>()
        .register::<QueryUnit>());
    let block = type_block(&text, "Query");
    assert!(block.contains("value: String!"));
    assert!(block.contains("extra: String!"));
}

#[test]
fn wrappers_register_what_they_wrap() {
    let text = sdl(Registry::new()
        .set_root("Query")
        .register::<String>()
        .register::<Option<i32>>()
        .register::<Result<Vec<Option<QueryUnit>>, String>>());
    let block = type_block(&text, "Query");
    assert!(block.contains("value: String!"));
    assert!(block.contains("extra: String!"));
}

#[test]
fn scalars_register_nothing() {
    let registry = Registry::new()
        .set_root("Query")
        .register::<bool>()
        .register::<u64>()
        .register::<&str>()
        .register::<Vec<String>>();
    assert!(registry.create_schema().is_ok());
}

#[test]
fn expansions_of_two_objects_agree_in_either_order() {
    let build = |b_first: bool| {
        let registry = Registry::new()
            .set_root("A")
            .register_type(object("A", &["a1", "b"]))
            .register_type(object("B", &["b1"]));
        let registry = if b_first {
            registry
                .update_object("B", "EB", Box::new(AddField("b2")))
                .update_object("A", "EA", Box::new(AddField("a2")))
        } else {
            registry
                .update_object("A", "EA", Box::new(AddField("a2")))
                .update_object("B", "EB", Box::new(AddField("b2")))
        };
        sdl(registry)
    };
    let first = build(true);
    assert_eq!(first, build(false));
    assert!(type_block(&first, "A").contains("a2: String!"));
    assert!(type_block(&first, "B").contains("b2: String!"));
    assert!(!type_block(&first, "A").contains("b2"));
}

#[test]
fn registering_a_unit_twice_keeps_one_object() {
    let text = sdl(Registry::new()
        .set_root("Query")
        .register::<Vec<QueryOnly>>()
        .register::<QueryOnly>());
    assert_eq!(text.matches("type Query {").count(), 1);
}

struct QueryOnly;

impl Register for QueryOnly {
    fn register(registry: Registry) -> Registry {
        registry.register_type(object("Query", &["value"]))
    }
}

#[test]
fn expansion_of_unregistered_target_is_reported() {
    let registry = Registry::new()
        .set_root("Query")
        .register_type(object("Query", &["value"]));
    let result = unregistered_target_is_reported(
        registry,
        "Ghost",
        "GhostExpansion",
        Box::new(AddField("boo")),
    );
    match result {
        Err(RegistryError::ObjectNotFound(list)) => assert_eq!(list, "Ghost when defining GhostExpansion"),
        _ => panic!("the missing target was not reported"),
    }
}
