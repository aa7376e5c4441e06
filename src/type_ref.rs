//! References to named types, with the nullability and list wrapping that
//! field and argument types carry.
use vstd::prelude::*;

use async_graphql::dynamic::TypeRef;

use crate::engine::{
    named, named_list, named_list_nn, named_nn, named_nn_list, named_nn_list_nn, type_ref_text,
};

verus! {

/// Turns a type reference into its nullable or its list form.
pub trait TypeRefExt {
    fn optional(self) -> Self;

    fn list(self) -> Self;
}

/// A reference to a named type: the name itself, or a list of it, each
/// level nullable or not (`NN` marks the non-null levels, outermost last).
pub enum TypeRefInner {
    /// `Name`
    Named(String),
    /// `Name!`
    NamedNN(String),
    /// `[Name]`
    List(String),
    /// `[Name]!`
    ListNN(String),
    /// `[Name!]`
    NNList(String),
    /// `[Name!]!`
    NNListNN(String),
}

impl TypeRefInner {
    /// The referenced type's name.
    pub open spec fn name(self) -> Seq<char> {
        match self {
            TypeRefInner::Named(n) => n@,
            TypeRefInner::NamedNN(n) => n@,
            TypeRefInner::List(n) => n@,
            TypeRefInner::ListNN(n) => n@,
            TypeRefInner::NNList(n) => n@,
            TypeRefInner::NNListNN(n) => n@,
        }
    }

    /// Whether the reference is to a list of the named type.
    pub open spec fn is_list(self) -> bool {
        match self {
            TypeRefInner::Named(_) | TypeRefInner::NamedNN(_) => false,
            _ => true,
        }
    }

    /// Whether the outermost level is non-null.
    pub open spec fn is_non_null(self) -> bool {
        match self {
            TypeRefInner::NamedNN(_) | TypeRefInner::ListNN(_) | TypeRefInner::NNListNN(_) => true,
            _ => false,
        }
    }

    /// Whether the items of a list are non-null.
    pub open spec fn has_non_null_items(self) -> bool {
        match self {
            TypeRefInner::NNList(_) | TypeRefInner::NNListNN(_) => true,
            _ => false,
        }
    }

    /// The GraphQL notation of the reference.
    pub open spec fn text(self) -> Seq<char> {
        match self {
            TypeRefInner::Named(n) => n@,
            TypeRefInner::NamedNN(n) => n@ + seq!['!'],
            TypeRefInner::List(n) => seq!['['] + n@ + seq![']'],
            TypeRefInner::ListNN(n) => seq!['['] + n@ + seq![']', '!'],
            TypeRefInner::NNList(n) => seq!['['] + n@ + seq!['!', ']'],
            TypeRefInner::NNListNN(n) => seq!['['] + n@ + seq!['!', ']', '!'],
        }
    }
}

impl TypeRefExt for TypeRefInner {
    /// Makes the outermost level nullable.
    fn optional(self) -> (r: Self)
        ensures
            r.name() == self.name(),
            r.is_list() == self.is_list(),
            r.has_non_null_items() == self.has_non_null_items(),
            !r.is_non_null(),
    {
        match self {
            TypeRefInner::Named(name) => TypeRefInner::Named(name),
            TypeRefInner::NamedNN(name) => TypeRefInner::Named(name),
            TypeRefInner::List(name) => TypeRefInner::List(name),
            TypeRefInner::ListNN(name) => TypeRefInner::List(name),
            TypeRefInner::NNList(name) => TypeRefInner::NNList(name),
            TypeRefInner::NNListNN(name) => TypeRefInner::NNList(name),
        }
    }

    /// Wraps a reference to a named type into a non-null list of it, whose
    /// items are non-null when the reference was; a list stays as it is.
    fn list(self) -> (r: Self)
        ensures
            self.is_list() ==> r == self,
            !self.is_list() ==> {
                &&& r.is_list()
                &&& r.is_non_null()
                &&& r.name() == self.name()
                &&& r.has_non_null_items() == self.is_non_null()
            },
    {
        match self {
            TypeRefInner::Named(name) => TypeRefInner::ListNN(name),
            TypeRefInner::NamedNN(name) => TypeRefInner::NNListNN(name),
            TypeRefInner::List(name) => TypeRefInner::List(name),
            TypeRefInner::ListNN(name) => TypeRefInner::ListNN(name),
            TypeRefInner::NNList(name) => TypeRefInner::NNList(name),
            TypeRefInner::NNListNN(name) => TypeRefInner::NNListNN(name),
        }
    }
}

impl From<TypeRefInner> for TypeRef {
    fn from(value: TypeRefInner) -> (r: TypeRef)
        ensures
            type_ref_text(r) == value.text(),
    {
        match value {
            TypeRefInner::Named(name) => named(name),
            TypeRefInner::NamedNN(name) => named_nn(name),
            TypeRefInner::List(name) => named_list(name),
            TypeRefInner::ListNN(name) => named_list_nn(name),
            TypeRefInner::NNList(name) => named_nn_list(name),
            TypeRefInner::NNListNN(name) => named_nn_list_nn(name),
        }
    }
}

impl vstd::std_specs::convert::FromSpecImpl<TypeRefInner> for TypeRef {
    open spec fn obeys_from_spec() -> bool {
        false
    }

    open spec fn from_spec(v: TypeRefInner) -> TypeRef {
        choose|t: TypeRef| type_ref_text(t) == v.text()
    }
}

} // verus!
