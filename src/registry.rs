//! The type registry: it collects type definitions from independent
//! registration units, holds deferred expansions of object types until their
//! targets are known, and finally assembles a schema builder.
use vstd::prelude::*;

use async_graphql::dynamic::{Object, SchemaBuilder, Type};

use crate::engine::{
    build_schema, builder_roots, builder_types, defined_name, object_as_type, object_type,
    register_in_builder,
};
use crate::objects::{
    insert_object, lemma_objects_map_dom, lemma_objects_map_len, lemma_objects_map_value,
    names_distinct, objects_map, NamedObject,
};
use crate::pending::{
    apply_pending_objects, describe_unresolved, lemma_pending_view_push, pending_item, pending_view,
    PendingExpandObject,
};

verus! {

/// A deferred change to an object type that another unit registers.
///
/// It is applied once, when the registry is finalized and an object of the
/// target name is present: it takes that object and returns its replacement,
/// `expanded(object)`.
pub trait ObjectExpansion {
    /// The object this expansion makes of `object`.
    spec fn expanded(&self, object: Object) -> Object;

    fn expand(self: Box<Self>, object: Object) -> (r: Object)
        ensures
            r == (*self).expanded(object),
    ;
}

/// A type definition handed to the registry.
pub enum TypeDefinition {
    /// An object type, with the name it was created with. Objects can be
    /// expanded, and a later object of the same name replaces an earlier one.
    Object(String, Object),
    /// Any other kind of type (enum, input object, interface, union, scalar).
    /// An object passed here is kept with these, in order: it is neither
    /// expanded nor replaced by a later object of its name.
    Other(Type),
}

/// A unit that registers one GraphQL type, and what that type depends on.
pub trait Register {
    fn register(registry: Registry) -> Registry {
        registry
    }
}

/// An expansion waiting in the queue, as the contracts see it.
pub struct PendingView {
    pub target: Seq<char>,
    pub expansion: Seq<char>,
    /// What the expansion makes of the object it is applied to.
    pub transform: spec_fn(Object) -> Object,
}

/// What a registry holds.
pub struct RegistryView {
    /// Name of the query root type.
    pub root: Option<Seq<char>>,
    /// Name of the mutation root type.
    pub mutation: Option<Seq<char>>,
    /// Object types, by name; only these can be expanded.
    pub objects: Map<Seq<char>, Object>,
    /// Every other kind of type, in the order of registration.
    pub types: Seq<Type>,
    /// Expansions not yet applied, in the order they were asked for.
    pub pending: Seq<PendingView>,
}

impl RegistryView {
    pub open spec fn empty() -> RegistryView {
        RegistryView {
            root: None,
            mutation: None,
            objects: Map::empty(),
            types: Seq::empty(),
            pending: Seq::empty(),
        }
    }

    pub open spec fn with_root(self, name: Seq<char>) -> RegistryView {
        RegistryView { root: Some(name), ..self }
    }

    pub open spec fn with_mutation(self, name: Seq<char>) -> RegistryView {
        RegistryView { mutation: Some(name), ..self }
    }

    /// An object type replaces any object of the same name; any other kind
    /// of type is appended.
    pub open spec fn with_type(self, ty: TypeDefinition) -> RegistryView {
        match ty {
            TypeDefinition::Object(name, o) => RegistryView {
                objects: self.objects.insert(name@, o),
                ..self
            },
            TypeDefinition::Other(t) => RegistryView { types: self.types.push(t), ..self },
        }
    }

    /// Registers each definition of `s`, first to last.
    pub open spec fn with_types(self, s: Seq<TypeDefinition>) -> RegistryView
        decreases s.len(),
    {
        if s.len() == 0 {
            self
        } else {
            self.with_types(s.drop_last()).with_type(s.last())
        }
    }

    pub open spec fn with_expansion(
        self,
        target: Seq<char>,
        expansion: Seq<char>,
        transform: spec_fn(Object) -> Object,
    ) -> RegistryView {
        RegistryView {
            pending: self.pending.push(PendingView { target, expansion, transform }),
            ..self
        }
    }

    /// The object registered under `name` once the pending expansions that
    /// target it are applied, in queue order.
    pub open spec fn expanded_object(self, name: Seq<char>) -> Object {
        expand_all(self.objects[name], name, self.pending)
    }

    /// The expansions whose target no object of the registry carries.
    pub open spec fn unresolved(self) -> Seq<PendingView> {
        self.pending.filter(|p: PendingView| !self.objects.contains_key(p.target))
    }
}

/// The object `o`, registered under `name`, after the expansions of `s`
/// that target `name`, applied first to last.
pub open spec fn expand_all(o: Object, name: Seq<char>, s: Seq<PendingView>) -> Object
    decreases s.len(),
{
    if s.len() == 0 {
        o
    } else {
        let before = expand_all(o, name, s.drop_last());
        if s.last().target == name {
            (s.last().transform)(before)
        } else {
            before
        }
    }
}

/// Whether some expansion of `s` targets `name`.
pub open spec fn targets(s: Seq<PendingView>, name: Seq<char>) -> bool {
    exists|j: int| 0 <= j < s.len() && #[trigger] s[j].target == name
}

/// What a schema builder holds after each type of `s` is registered into
/// one that held `m`, first to last.
pub open spec fn registered(m: Map<Seq<char>, Type>, s: Seq<Type>) -> Map<Seq<char>, Type>
    decreases s.len(),
{
    if s.len() == 0 {
        m
    } else {
        registered(m, s.drop_last()).insert(defined_name(s.last()), s.last())
    }
}

/// How one unresolved expansion is reported.
pub open spec fn describe_pending(p: PendingView) -> Seq<char> {
    p.target + " when defining "@ + p.expansion
}

/// The unresolved expansions, each described, separated by `, `.
pub open spec fn describe_all(s: Seq<PendingView>) -> Seq<char>
    decreases s.len(),
{
    if s.len() == 0 {
        Seq::empty()
    } else if s.len() == 1 {
        describe_pending(s[0])
    } else {
        describe_all(s.drop_last()) + ", "@ + describe_pending(s.last())
    }
}

/// Why a registry could not be turned into a schema.
#[derive(Debug)]
pub enum RegistryError {
    /// Some expansions name an object that was never registered; the text
    /// lists each as `<target> when defining <expansion>`.
    ObjectNotFound(String),
    /// No query root was set.
    NoRoot,
}

impl RegistryError {
    pub open spec fn spec_message(self) -> Seq<char> {
        match self {
            RegistryError::ObjectNotFound(list) => "Can't find object: \""@ + list@ + "\""@,
            RegistryError::NoRoot => "No root object defined"@,
        }
    }

    /// The diagnostic for this error.
    pub fn message(&self) -> (r: String)
        ensures
            r@ == self.spec_message(),
    {
        match self {
            RegistryError::ObjectNotFound(list) => {
                let mut r = "Can't find object: \"".to_string();
                r.append(list.as_str());
                r.append("\"");
                r
            },
            RegistryError::NoRoot => "No root object defined".to_string(),
        }
    }
}

/// Collects type definitions and deferred object expansions, then turns them
/// into a schema builder.
pub struct Registry {
    root: Option<String>,
    mutation: Option<String>,
    objects: Vec<NamedObject>,
    types: Vec<Type>,
    pending_expand_objects: Vec<PendingExpandObject>,
}

spec fn name_view(n: Option<String>) -> Option<Seq<char>> {
    match n {
        Some(s) => Some(s@),
        None => None,
    }
}

impl View for Registry {
    type V = RegistryView;

    closed spec fn view(&self) -> RegistryView {
        RegistryView {
            root: name_view(self.root),
            mutation: name_view(self.mutation),
            objects: objects_map(self.objects@),
            types: self.types@,
            pending: pending_view(self.pending_expand_objects@),
        }
    }
}

impl Registry {
    #[verifier::type_invariant]
    spec fn names_are_keys(self) -> bool {
        names_distinct(self.objects@)
    }

    /// An empty registry: no root, no mutation, no types, no expansions.
    pub fn new() -> (r: Self)
        ensures
            r@ == RegistryView::empty(),
    {
        let r = Registry {
            root: None,
            mutation: None,
            objects: Vec::new(),
            types: Vec::new(),
            pending_expand_objects: Vec::new(),
        };
        assert(r@.objects =~= Map::empty());
        assert(r@.pending =~= Seq::<PendingView>::empty());
        r
    }

    /// Names the query root type; a later call wins.
    pub fn set_root(self, name: &str) -> (r: Self)
        ensures
            r@ == self@.with_root(name@),
    {
        proof {
            use_type_invariant(&self);
        }
        let mut r = self;
        r.root = Some(name.to_string());
        r
    }

    /// Names the mutation root type; a later call wins.
    pub fn set_mutation(self, name: &str) -> (r: Self)
        ensures
            r@ == self@.with_mutation(name@),
    {
        proof {
            use_type_invariant(&self);
        }
        let mut r = self;
        r.mutation = Some(name.to_string());
        r
    }

    /// Adds a type definition. An object replaces any object of the same
    /// name; any other kind of type is appended.
    pub fn register_type(self, ty: TypeDefinition) -> (r: Self)
        ensures
            r@ == self@.with_type(ty),
    {
        proof {
            use_type_invariant(&self);
        }
        let Registry { root, mutation, objects, types, pending_expand_objects } = self;
        let mut objects = objects;
        let mut types = types;
        match ty {
            TypeDefinition::Object(name, object) => {
                insert_object(&mut objects, name, object);
            },
            TypeDefinition::Other(t) => {
                types.push(t);
            },
        }
        Registry { root, mutation, objects, types, pending_expand_objects }
    }

    /// Queues an expansion of the object named `target`, to be applied when
    /// the schema is created. `expansion_name` names the expansion in
    /// diagnostics.
    pub fn update_object(
        self,
        target: &str,
        expansion_name: &str,
        f: Box<dyn ObjectExpansion>,
    ) -> (r: Self)
        ensures
            r@ == self@.with_expansion(target@, expansion_name@, |o: Object| (*f).expanded(o)),
            r@.pending.len() == self@.pending.len() + 1,
            r@.pending.subrange(0, self@.pending.len() as int) == self@.pending,
            r@.pending.last().target == target@,
            r@.pending.last().expansion == expansion_name@,
            forall|o: Object| #[trigger] (r@.pending.last().transform)(o) == (*f).expanded(o),
            r@.root == self@.root,
            r@.mutation == self@.mutation,
            r@.objects == self@.objects,
            r@.types == self@.types,
    {
        proof {
            use_type_invariant(&self);
        }
        let Registry { root, mutation, objects, types, pending_expand_objects } = self;
        let mut pending_expand_objects = pending_expand_objects;
        let ghost before = pending_expand_objects@;
        let ghost boxed = f;
        let item = (target.to_string(), expansion_name.to_string(), f);
        proof {
            lemma_pending_view_push(before, item);
            assert(item.2 == boxed);
            assert(pending_item(item).transform =~= (|o: Object| (*boxed).expanded(o)));
        }
        pending_expand_objects.push(item);
        let r = Registry { root, mutation, objects, types, pending_expand_objects };
        proof {
            assert(r@.pending.subrange(0, before.len() as int) =~= pending_view(before));
        }
        r
    }

    /// Lets the registration unit `T` register its type and what it
    /// depends on.
    pub fn register<T: Register>(self) -> (r: Self)
        ensures
            call_ensures(T::register, (self,), r),
    {
        T::register(self)
    }

    /// Applies the pending expansions and assembles a schema builder with
    /// every registered type.
    ///
    /// Fails when an expansion targets an object that is not registered
    /// (every such expansion is listed), and otherwise when no query root
    /// was named.
    pub fn create_schema(self) -> (r: Result<SchemaBuilder, RegistryError>)
        ensures
            match r {
                Ok(b) => {
                    &&& self@.unresolved().len() == 0
                    &&& self@.root is Some
                    &&& builder_roots(b) == (self@.root->Some_0, self@.mutation)
                    &&& exists|names: Seq<Seq<char>>|
                        {
                            &&& names.no_duplicates()
                            &&& forall|k: Seq<char>|
                                self@.objects.contains_key(k) <==> #[trigger] names.contains(k)
                            &&& builder_types(b) == registered(
                                Map::empty(),
                                names.map_values(|k: Seq<char>| object_type(self@.expanded_object(k)))
                                    + self@.types,
                            )
                        }
                },
                Err(RegistryError::ObjectNotFound(list)) => {
                    &&& self@.unresolved().len() > 0
                    &&& list@ == describe_all(self@.unresolved())
                },
                Err(RegistryError::NoRoot) => {
                    &&& self@.unresolved().len() == 0
                    &&& self@.root is None
                },
            },
    {
        proof {
            use_type_invariant(&self);
        }
        let ghost view = self@;
        let Registry { root, mutation, objects, types, pending_expand_objects } = self;
        let mut objects = objects;
        let ghost old_objects = objects@;
        let unresolved = apply_pending_objects(&mut objects, pending_expand_objects);
        assert(pending_view(unresolved@) == view.unresolved());
        if unresolved.len() > 0 {
            return Err(RegistryError::ObjectNotFound(describe_unresolved(&unresolved)));
        }
        let root = match root {
            Some(root) => root,
            None => {
                return Err(RegistryError::NoRoot);
            },
        };
        let mut schema = match &mutation {
            Some(m) => build_schema(root.as_str(), Some(m.as_str())),
            None => build_schema(root.as_str(), None),
        };
        proof {
            lemma_objects_map_len(old_objects);
            assert(builder_types(schema) =~= Map::<Seq<char>, Type>::empty());
        }
        let ghost finals = objects@;
        let ghost mut done: Seq<Type> = Seq::empty();
        while objects.len() > 0
            invariant
                builder_roots(schema) == (view.root->Some_0, view.mutation),
                builder_types(schema) == registered(Map::empty(), done),
                done.len() + objects@.len() == finals.len(),
                objects@ == finals.subrange(done.len() as int, finals.len() as int),
                forall|j: int| 0 <= j < done.len() ==> #[trigger] done[j] == object_type(finals[j].object),
            decreases objects@.len(),
        {
            let entry = objects.remove(0);
            let t = object_as_type(entry.object);
            proof {
                assert(entry == finals[done.len() as int]);
                assert(done.push(t).drop_last() =~= done);
                done = done.push(t);
                assert(objects@ =~= finals.subrange(done.len() as int, finals.len() as int));
            }
            schema = register_in_builder(schema, t);
        }
        let ghost names = old_objects.map_values(|e: NamedObject| e.name@);
        proof {
            assert(names.no_duplicates()) by {
                assert forall|a: int, b: int| 0 <= a < names.len() && 0 <= b < names.len() && a != b
                    implies names[a] != names[b] by {
                    assert(old_objects[a].name@ != old_objects[b].name@);
                }
            }
            assert forall|k: Seq<char>| view.objects.contains_key(k) <==> #[trigger] names.contains(k) by {
                lemma_objects_map_dom(old_objects, k);
                if names.contains(k) {
                    let i = choose|i: int| 0 <= i < names.len() && names[i] == k;
                    assert(old_objects[i].name@ == k);
                }
                if view.objects.contains_key(k) {
                    let i = choose|i: int| 0 <= i < old_objects.len() && #[trigger] old_objects[i].name@ == k;
                    assert(names[i] == k);
                }
            }
            assert forall|j: int| 0 <= j < done.len() implies #[trigger] done[j] == object_type(
                view.expanded_object(names[j]),
            ) by {
                lemma_objects_map_value(old_objects, j);
                assert(names[j] == old_objects[j].name@);
            }
            assert(done =~= names.map_values(|k: Seq<char>| object_type(view.expanded_object(k))));
        }
        let ghost objects_done = done;
        let ghost all_types = view.types;
        let mut types = types;
        let ghost mut i: int = 0;
        while types.len() > 0
            invariant
                builder_roots(schema) == (view.root->Some_0, view.mutation),
                0 <= i <= all_types.len(),
                types@ == all_types.subrange(i, all_types.len() as int),
                builder_types(schema) == registered(
                    Map::empty(),
                    objects_done + all_types.subrange(0, i),
                ),
            decreases types@.len(),
        {
            let t = types.remove(0);
            proof {
                assert(t == all_types[i]);
                let next = objects_done + all_types.subrange(0, i + 1);
                assert(next.drop_last() =~= objects_done + all_types.subrange(0, i));
                assert(next.last() == t);
                i = i + 1;
                assert(types@ =~= all_types.subrange(i, all_types.len() as int));
            }
            schema = register_in_builder(schema, t);
        }
        proof {
            assert(all_types.subrange(0, i) =~= all_types);
        }
        Ok(schema)
    }
}

impl Default for Registry {
    fn default() -> (r: Self)
        ensures
            r@ == RegistryView::empty(),
    {
        Registry::new()
    }
}

} // verus!
