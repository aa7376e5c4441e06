use async_graphql::dynamic::TypeRef;
use dynamic_graphql::{TypeRefExt, TypeRefInner};

fn text(r: TypeRefInner) -> String {
    TypeRef::from(r).to_string()
}

fn string() -> TypeRefInner {
    TypeRefInner::NamedNN("String".to_string())
}

#[test]
fn wrapping_chains_print_as_graphql() {
    assert_eq!(text(string()), "String!");
    assert_eq!(text(string().optional()), "String");
    assert_eq!(text(string().list()), "[String!]!");
    assert_eq!(text(string().list().optional()), "[String!]");
    assert_eq!(text(string().optional().list()), "[String]!");
    assert_eq!(text(string().optional().list().optional()), "[String]");
}

#[test]
fn wrapping_chains_convert_into_type_refs() {
    let type_ref: TypeRef = string().into();
    assert_eq!(type_ref.to_string(), "String!");
    let type_ref: TypeRef = string().optional().into();
    assert_eq!(type_ref.to_string(), "String");
    let type_ref: TypeRef = string().list().into();
    assert_eq!(type_ref.to_string(), "[String!]!");
    let type_ref: TypeRef = string().list().optional().into();
    assert_eq!(type_ref.to_string(), "[String!]");
    let type_ref: TypeRef = string().optional().list().into();
    assert_eq!(type_ref.to_string(), "[String]!");
    let type_ref: TypeRef = string().optional().list().optional().into();
    assert_eq!(type_ref.to_string(), "[String]");
}

#[test]
fn every_variant_prints_its_notation() {
    let name = || "Node".to_string();
    assert_eq!(text(TypeRefInner::Named(name())), "Node");
    assert_eq!(text(TypeRefInner::NamedNN(name())), "Node!");
    assert_eq!(text(TypeRefInner::List(name())), "[Node]");
    assert_eq!(text(TypeRefInner::ListNN(name())), "[Node]!");
    assert_eq!(text(TypeRefInner::NNList(name())), "[Node!]");
    assert_eq!(text(TypeRefInner::NNListNN(name())), "[Node!]!");
}

#[test]
fn optional_is_idempotent() {
    assert_eq!(text(string().optional().optional()), "String");
    assert_eq!(text(string().list().optional().optional()), "[String!]");
}

#[test]
fn list_of_list_stays_a_list() {
    assert_eq!(text(string().list().list()), "[String!]!");
    assert_eq!(text(string().optional().list().optional().list()), "[String]");
}
