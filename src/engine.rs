//! The boundary with async-graphql's dynamic schema engine.
//!
//! The engine's values are opaque here: the registry moves them around and
//! hands them to a schema builder at the end.
use vstd::prelude::*;

use async_graphql::dynamic::{Object, Schema, SchemaBuilder, Type, TypeRef};

verus! {

#[verifier::external_type_specification]
#[verifier::external_body]
pub struct ExObject(Object);

#[verifier::external_type_specification]
#[verifier::external_body]
pub struct ExType(Type);

#[verifier::external_type_specification]
#[verifier::external_body]
pub struct ExSchemaBuilder(SchemaBuilder);

#[verifier::external_type_specification]
#[verifier::external_body]
pub struct ExTypeRef(TypeRef);

/// An object wrapped as a type definition.
pub uninterp spec fn object_type(o: Object) -> Type;

/// Relies on the `Type::Object` variant of async-graphql's `Type`, which
/// wraps the object.
#[verifier::external_body]
pub(crate) fn object_as_type(o: Object) -> (r: Type)
    ensures
        r == object_type(o),
{
    Type::Object(o)
}

/// The query and mutation root names a schema builder was created with.
pub uninterp spec fn builder_roots(b: SchemaBuilder) -> (Seq<char>, Option<Seq<char>>);

/// The types a schema builder holds, each under the name it defines.
pub uninterp spec fn builder_types(b: SchemaBuilder) -> Map<Seq<char>, Type>;

/// The name a type defines, under which a schema builder files it.
pub uninterp spec fn defined_name(t: Type) -> Seq<char>;

/// Relies on `Schema::build`: the builder records the query and mutation
/// root names it is given, and holds no type yet. No subscription root is
/// asked for.
#[verifier::external_body]
pub(crate) fn build_schema(query: &str, mutation: Option<&str>) -> (r: SchemaBuilder)
    ensures
        builder_types(r).dom() == Set::<Seq<char>>::empty(),
        builder_roots(r).0 == query@,
        match mutation {
            Some(m) => builder_roots(r).1 == Some(m@),
            None => builder_roots(r).1 == None::<Seq<char>>,
        },
{
    Schema::build(query, mutation, None)
}

/// Relies on `SchemaBuilder::register`: it files the type under the name
/// the type defines, replacing a type of that name, and leaves the root
/// names alone.
#[verifier::external_body]
pub(crate) fn register_in_builder(b: SchemaBuilder, t: Type) -> (r: SchemaBuilder)
    ensures
        builder_types(r) == builder_types(b).insert(defined_name(t), t),
        builder_roots(r) == builder_roots(b),
{
    b.register(t)
}

/// The text a type reference prints as.
pub uninterp spec fn type_ref_text(t: TypeRef) -> Seq<char>;

/// Relies on `TypeRef::named`: a nullable named type prints as its name.
#[verifier::external_body]
pub(crate) fn named(name: String) -> (r: TypeRef)
    ensures
        type_ref_text(r) == name@,
{
    TypeRef::named(name)
}

/// Relies on `TypeRef::named_nn`: a non-null named type prints as `Name!`.
#[verifier::external_body]
pub(crate) fn named_nn(name: String) -> (r: TypeRef)
    ensures
        type_ref_text(r) == name@ + seq!['!'],
{
    TypeRef::named_nn(name)
}

/// Relies on `TypeRef::named_list`: a nullable list of nullable items prints
/// as `[Name]`.
#[verifier::external_body]
pub(crate) fn named_list(name: String) -> (r: TypeRef)
    ensures
        type_ref_text(r) == seq!['['] + name@ + seq![']'],
{
    TypeRef::named_list(name)
}

/// Relies on `TypeRef::named_list_nn`: a non-null list of nullable items
/// prints as `[Name]!`.
#[verifier::external_body]
pub(crate) fn named_list_nn(name: String) -> (r: TypeRef)
    ensures
        type_ref_text(r) == seq!['['] + name@ + seq![']', '!'],
{
    TypeRef::named_list_nn(name)
}

/// Relies on `TypeRef::named_nn_list`: a nullable list of non-null items
/// prints as `[Name!]`.
#[verifier::external_body]
pub(crate) fn named_nn_list(name: String) -> (r: TypeRef)
    ensures
        type_ref_text(r) == seq!['['] + name@ + seq!['!', ']'],
{
    TypeRef::named_nn_list(name)
}

/// Relies on `TypeRef::named_nn_list_nn`: a non-null list of non-null items
/// prints as `[Name!]!`.
#[verifier::external_body]
pub(crate) fn named_nn_list_nn(name: String) -> (r: TypeRef)
    ensures
        type_ref_text(r) == seq!['['] + name@ + seq!['!', ']', '!'],
{
    TypeRef::named_nn_list_nn(name)
}

} // verus!
