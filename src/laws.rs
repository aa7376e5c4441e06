//! Properties of the registry that hold across several operations, stated
//! over the model that the operations' contracts use.
use vstd::prelude::*;

use async_graphql::dynamic::Object;

use async_graphql::dynamic::SchemaBuilder;

use crate::pending::lemma_expand_all_untargeted;
use crate::registry::{
    describe_all, describe_pending, expand_all, targets, ObjectExpansion, PendingView, Registry,
    RegistryError, RegistryView, TypeDefinition,
};

verus! {

/// A registry with only a root holds no types and no expansions, so
/// creating its schema cannot fail.
pub proof fn lemma_root_only_builds(name: Seq<char>)
    ensures
        RegistryView::empty().with_root(name).root == Some(name),
        RegistryView::empty().with_root(name).objects == Map::<Seq<char>, Object>::empty(),
        RegistryView::empty().with_root(name).types.len() == 0,
        RegistryView::empty().with_root(name).unresolved().len() == 0,
{
    let v = RegistryView::empty().with_root(name);
    reveal(Seq::filter);
    assert(v.pending.len() == 0);
}

/// Registering a type and asking for an expansion lead to the same registry
/// whichever comes first; an expansion of the object registered that way
/// resolves.
pub proof fn lemma_expansion_order_irrelevant(
    v: RegistryView,
    ty: TypeDefinition,
    target: Seq<char>,
    expansion: Seq<char>,
    transform: spec_fn(Object) -> Object,
)
    ensures
        v.with_type(ty).with_expansion(target, expansion, transform) == v.with_expansion(
            target,
            expansion,
            transform,
        ).with_type(ty),
        (ty matches TypeDefinition::Object(name, _) && name@ == target)
            ==> v.with_type(ty).with_expansion(target, expansion, transform).unresolved()
            == v.with_type(ty).unresolved(),
{
    let w = v.with_type(ty);
    w.pending.lemma_filter_push(
        PendingView { target, expansion, transform },
        |p: PendingView| !w.objects.contains_key(p.target),
    );
}

/// One expansion more, of an object that no other pending expansion
/// targets, makes that object the expansion's result.
proof fn lemma_single_expansion(
    v: RegistryView,
    name: Seq<char>,
    object: Object,
    others: Seq<PendingView>,
    x: PendingView,
)
    requires
        !targets(v.pending, name),
        !targets(others, name),
        x.target == name,
    ensures
        expand_all(object, name, v.pending.push(x) + others) == (x.transform)(object),
    decreases others.len(),
{
    if others.len() == 0 {
        assert(v.pending.push(x) + others =~= v.pending.push(x));
        assert(v.pending.push(x).drop_last() =~= v.pending);
        lemma_expand_all_untargeted(object, name, v.pending);
    } else {
        let t = others.drop_last();
        assert(!targets(t, name)) by {
            if targets(t, name) {
                let j = choose|j: int| 0 <= j < t.len() && #[trigger] t[j].target == name;
                assert(others[j].target == name);
            }
        }
        lemma_single_expansion(v, name, object, t, x);
        assert((v.pending.push(x) + others).drop_last() =~= v.pending.push(x) + t);
        assert(others[others.len() - 1].target != name);
    }
}

/// Registering an object and asking for an expansion of it lead to the same
/// registry whichever comes first, and the object then ends as the
/// expansion's result.
pub proof fn lemma_expansion_applies_whatever_the_order(
    v: RegistryView,
    name: String,
    object: Object,
    expansion: Seq<char>,
    transform: spec_fn(Object) -> Object,
)
    requires
        !targets(v.pending, name@),
    ensures
        v.with_type(TypeDefinition::Object(name, object)).with_expansion(name@, expansion, transform)
            == v.with_expansion(name@, expansion, transform).with_type(
            TypeDefinition::Object(name, object),
        ),
        v.with_type(TypeDefinition::Object(name, object)).with_expansion(
            name@,
            expansion,
            transform,
        ).expanded_object(name@) == transform(object),
{
    let x = PendingView { target: name@, expansion, transform };
    lemma_single_expansion(v, name@, object, Seq::empty(), x);
    assert(v.pending.push(x) + Seq::<PendingView>::empty() =~= v.pending.push(x));
}

/// Expansions of two objects each end as their own result, in whichever
/// order the expansions were asked for.
pub proof fn lemma_expansions_apply_to_their_targets(
    v: RegistryView,
    a: String,
    a_object: Object,
    b: String,
    b_object: Object,
    a_expansion: PendingView,
    b_expansion: PendingView,
)
    requires
        a@ != b@,
        !targets(v.pending, a@),
        !targets(v.pending, b@),
        a_expansion.target == a@,
        b_expansion.target == b@,
    ensures
        ({
            let w = v.with_type(TypeDefinition::Object(a, a_object)).with_type(
                TypeDefinition::Object(b, b_object),
            );
            let ab = RegistryView { pending: w.pending.push(a_expansion).push(b_expansion), ..w };
            let ba = RegistryView { pending: w.pending.push(b_expansion).push(a_expansion), ..w };
            &&& ab.expanded_object(a@) == (a_expansion.transform)(a_object)
            &&& ab.expanded_object(b@) == (b_expansion.transform)(b_object)
            &&& ba.expanded_object(a@) == (a_expansion.transform)(a_object)
            &&& ba.expanded_object(b@) == (b_expansion.transform)(b_object)
        }),
{
    let w = v.with_type(TypeDefinition::Object(a, a_object)).with_type(
        TypeDefinition::Object(b, b_object),
    );
    assert(w.objects[a@] == a_object);
    let sa = seq![a_expansion];
    let sb = seq![b_expansion];
    assert(!targets(sa, b@));
    assert(!targets(sb, a@));
    lemma_single_expansion(w, a@, a_object, sb, a_expansion);
    lemma_single_expansion(w, b@, b_object, sa, b_expansion);
    assert(w.pending.push(a_expansion) + sb =~= w.pending.push(a_expansion).push(b_expansion));
    assert(w.pending.push(b_expansion) + sa =~= w.pending.push(b_expansion).push(a_expansion));
    let wa = RegistryView { pending: w.pending.push(b_expansion), ..w };
    lemma_single_expansion(wa, a@, a_object, Seq::empty(), a_expansion);
    let wb = RegistryView { pending: w.pending.push(a_expansion), ..w };
    lemma_single_expansion(wb, b@, b_object, Seq::empty(), b_expansion);
    assert(wa.pending.push(a_expansion) + Seq::<PendingView>::empty() =~= wa.pending.push(a_expansion));
    assert(wb.pending.push(b_expansion) + Seq::<PendingView>::empty() =~= wb.pending.push(b_expansion));
}

/// An expansion whose target is registered resolves however expansions are
/// chained; one whose target no registration provides is reported, so
/// creating the schema fails.
pub proof fn lemma_expansions_need_registered_targets(v: RegistryView)
    ensures
        (forall|j: int| 0 <= j < v.pending.len() ==> v.objects.contains_key(#[trigger] v.pending[j].target))
            ==> v.unresolved().len() == 0,
        forall|j: int|
            0 <= j < v.pending.len() && !v.objects.contains_key(#[trigger] v.pending[j].target)
                ==> v.unresolved().contains(v.pending[j]) && v.unresolved().len() > 0,
{
    broadcast use vstd::seq_lib::group_filter_ensures;

    let pred = |p: PendingView| !v.objects.contains_key(p.target);
    if forall|j: int| 0 <= j < v.pending.len() ==> v.objects.contains_key(#[trigger] v.pending[j].target) {
        if v.unresolved().len() > 0 {
            let x = v.unresolved()[0];
            v.pending.lemma_filter_pred(pred, 0);
            assert(v.unresolved().contains(x));
            v.pending.lemma_filter_contains_rev(pred, x);
        }
    }
    assert forall|j: int|
        0 <= j < v.pending.len() && !v.objects.contains_key(#[trigger] v.pending[j].target)
            implies v.unresolved().contains(v.pending[j]) && v.unresolved().len() > 0 by {
        v.pending.lemma_filter_contains(pred, j);
    }
}

/// The report of unresolved expansions names each of them, with its
/// target and its expansion, between the text around it.
pub proof fn lemma_report_names_each(s: Seq<PendingView>, j: int)
    requires
        0 <= j < s.len(),
    ensures
        exists|before: Seq<char>, after: Seq<char>|
            describe_all(s) == before + s[j].target + " when defining "@ + s[j].expansion + after,
    decreases s.len(),
{
    let d = describe_pending(s[j]);
    if s.len() == 1 {
        assert(describe_all(s) == Seq::<char>::empty() + d + Seq::<char>::empty());
    } else if j == s.len() - 1 {
        let before = describe_all(s.drop_last()) + ", "@;
        assert(describe_all(s) == before + d + Seq::<char>::empty());
    } else {
        let t = s.drop_last();
        lemma_report_names_each(t, j);
        let (b, a) = choose|b: Seq<char>, a: Seq<char>|
            describe_all(t) == b + t[j].target + " when defining "@ + t[j].expansion + a;
        let after = a + ", "@ + describe_pending(s.last());
        assert(t[j] == s[j]);
        assert(describe_all(s) == b + d + after);
    }
    let (b, a) = choose|b: Seq<char>, a: Seq<char>| describe_all(s) == b + d + a;
    assert(describe_all(s) == b + s[j].target + " when defining "@ + s[j].expansion + a);
}

/// Registering types never names a root nor leaves an expansion
/// unresolved: a registry without a root and without unresolved expansions
/// keeps both, whatever definitions it is given, so creating its schema
/// fails for want of a root.
pub proof fn lemma_types_leave_root_unset(v: RegistryView, s: Seq<TypeDefinition>)
    requires
        v.root is None,
        v.unresolved().len() == 0,
    ensures
        v.with_types(s).root is None,
        v.with_types(s).unresolved().len() == 0,
    decreases s.len(),
{
    if s.len() > 0 {
        let t = s.drop_last();
        lemma_types_leave_root_unset(v, t);
        let w = v.with_types(t);
        let u = w.with_type(s.last());
        lemma_expansions_need_registered_targets(w);
        lemma_expansions_need_registered_targets(u);
        assert forall|j: int| 0 <= j < u.pending.len() implies u.objects.contains_key(
            #[trigger] u.pending[j].target,
        ) by {
            if !w.objects.contains_key(w.pending[j].target) {
                assert(w.unresolved().contains(w.pending[j]));
            }
        }
    }
}

/// Of two objects registered under one name, the second is kept, and the
/// name is there once.
pub proof fn lemma_last_object_wins(
    v: RegistryView,
    first: Object,
    second: Object,
    name: String,
    again: String,
)
    requires
        name@ == again@,
    ensures
        v.with_type(TypeDefinition::Object(name, first)).with_type(
            TypeDefinition::Object(again, second),
        ).objects == v.objects.insert(name@, second),
{
    assert(v.objects.insert(name@, first).insert(again@, second) =~= v.objects.insert(
        name@,
        second,
    ));
}

/// Whether `d` is an object definition under the name `k`.
pub open spec fn defines_object(d: TypeDefinition, k: Seq<char>) -> bool {
    d matches TypeDefinition::Object(n, _) && n@ == k
}

/// No two object definitions of `s` share a name.
pub open spec fn object_names_distinct(s: Seq<TypeDefinition>) -> bool {
    forall|i: int, j: int, k: Seq<char>|
        0 <= i < s.len() && 0 <= j < s.len() && #[trigger] defines_object(s[i], k)
            && #[trigger] defines_object(s[j], k) ==> i == j
}

proof fn lemma_with_types_objects(v: RegistryView, s: Seq<TypeDefinition>, k: Seq<char>)
    requires
        object_names_distinct(s),
    ensures
        v.with_types(s).objects.contains_key(k) <==> (v.objects.contains_key(k) || exists|i: int|
            0 <= i < s.len() && #[trigger] defines_object(s[i], k)),
        forall|i: int|
            0 <= i < s.len() && #[trigger] defines_object(s[i], k) ==> (s[i] matches TypeDefinition::Object(
                _,
                o,
            ) && v.with_types(s).objects[k] == o),
        (forall|i: int| 0 <= i < s.len() ==> !#[trigger] defines_object(s[i], k))
            ==> v.with_types(s).objects[k] == v.objects[k],
    decreases s.len(),
{
    if s.len() > 0 {
        let t = s.drop_last();
        assert(object_names_distinct(t)) by {
            assert forall|i: int, j: int, n: Seq<char>|
                0 <= i < t.len() && 0 <= j < t.len() && #[trigger] defines_object(t[i], n)
                    && #[trigger] defines_object(t[j], n) implies i == j by {
                assert(t[i] == s[i] && t[j] == s[j]);
            }
        }
        lemma_with_types_objects(v, t, k);
        let last = s.len() - 1;
        if exists|i: int| 0 <= i < t.len() && #[trigger] defines_object(t[i], k) {
            let i = choose|i: int| 0 <= i < t.len() && #[trigger] defines_object(t[i], k);
            assert(defines_object(s[i], k));
        }
        if exists|i: int| 0 <= i < s.len() && #[trigger] defines_object(s[i], k) {
            let i = choose|i: int| 0 <= i < s.len() && #[trigger] defines_object(s[i], k);
            if i < last {
                assert(defines_object(t[i], k));
            }
        }
        assert forall|i: int|
            0 <= i < s.len() && #[trigger] defines_object(s[i], k) implies (s[i] matches TypeDefinition::Object(
                _,
                o,
            ) && v.with_types(s).objects[k] == o) by {
            if i < last {
                assert(defines_object(t[i], k));
                assert(!defines_object(s[last], k));
            }
        }
        if forall|i: int| 0 <= i < s.len() ==> !#[trigger] defines_object(s[i], k) {
            assert(!defines_object(s[last], k));
            assert forall|i: int| 0 <= i < t.len() implies !#[trigger] defines_object(t[i], k) by {
                assert(t[i] == s[i]);
            }
        }
    }
}

/// Sequences with the same multiset hold the same elements.
proof fn lemma_same_elements(s: Seq<TypeDefinition>, t: Seq<TypeDefinition>)
    requires
        s.to_multiset() == t.to_multiset(),
    ensures
        forall|i: int| 0 <= i < s.len() ==> #[trigger] t.contains(s[i]),
{
    broadcast use vstd::seq_lib::group_to_multiset_ensures;

    assert forall|i: int| 0 <= i < s.len() implies #[trigger] t.contains(s[i]) by {
        assert(s.contains(s[i]));
        assert(s.to_multiset().count(s[i]) > 0);
        assert(t.to_multiset().count(s[i]) > 0);
    }
}

/// Definitions whose objects have distinct names lead to the same objects in
/// whatever order they are registered.
pub proof fn lemma_registration_order_irrelevant(
    v: RegistryView,
    s: Seq<TypeDefinition>,
    t: Seq<TypeDefinition>,
)
    requires
        s.to_multiset() == t.to_multiset(),
        object_names_distinct(s),
        object_names_distinct(t),
    ensures
        v.with_types(s).objects == v.with_types(t).objects,
{
    lemma_same_elements(s, t);
    lemma_same_elements(t, s);
    let a = v.with_types(s).objects;
    let b = v.with_types(t).objects;
    assert forall|k: Seq<char>|
        (#[trigger] a.contains_key(k) <==> b.contains_key(k)) && (a.contains_key(k) ==> a[k]
            == b[k]) by {
        lemma_with_types_objects(v, s, k);
        lemma_with_types_objects(v, t, k);
        if exists|i: int| 0 <= i < s.len() && #[trigger] defines_object(s[i], k) {
            let i = choose|i: int| 0 <= i < s.len() && #[trigger] defines_object(s[i], k);
            assert(t.contains(s[i]));
            let j = choose|j: int| 0 <= j < t.len() && t[j] == s[i];
            assert(defines_object(t[j], k));
        } else if exists|j: int| 0 <= j < t.len() && #[trigger] defines_object(t[j], k) {
            let j = choose|j: int| 0 <= j < t.len() && #[trigger] defines_object(t[j], k);
            assert(s.contains(t[j]));
            let i = choose|i: int| 0 <= i < s.len() && s[i] == t[j];
            assert(defines_object(s[i], k));
        }
    }
    assert(a =~= b);
}

/// Asking for an expansion of an object that is not registered makes
/// creating the schema fail, with a report that names the target and the
/// expansion.
pub fn unregistered_target_is_reported(
    registry: Registry,
    target: &str,
    expansion_name: &str,
    f: Box<dyn ObjectExpansion>,
) -> (r: Result<SchemaBuilder, RegistryError>)
    requires
        !registry@.objects.contains_key(target@),
    ensures
        match r {
            Err(RegistryError::ObjectNotFound(list)) => exists|before: Seq<char>, after: Seq<char>|
                list@ == before + target@ + " when defining "@ + expansion_name@ + after,
            _ => false,
        },
{
    let expanded = registry.update_object(target, expansion_name, f);
    let ghost v = expanded@;
    proof {
        let j = v.pending.len() - 1;
        assert(v.pending[j] == v.pending.last());
        lemma_expansions_need_registered_targets(v);
        let u = v.unresolved();
        assert(u.contains(v.pending[j]));
        let i = choose|i: int| 0 <= i < u.len() && u[i] == v.pending[j];
        lemma_report_names_each(u, i);
    }
    expanded.create_schema()
}

} // verus!
