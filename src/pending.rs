//! The queue of pending expansions and its resolution against the table of
//! objects.
use vstd::prelude::*;

use async_graphql::dynamic::Object;

use crate::objects::{
    find_object, lemma_objects_map_dom, lemma_same_names_map_dom, names_distinct,
    objects_map, same_names, NamedObject,
};
use crate::registry::{
    describe_all, describe_pending, expand_all, targets, ObjectExpansion, PendingView,
};

verus! {

/// An expansion waiting for its target: the target's name, the name of the
/// expansion for diagnostics, and the change itself.
pub(crate) type PendingExpandObject = (String, String, Box<dyn ObjectExpansion>);

pub(crate) open spec fn pending_item(p: PendingExpandObject) -> PendingView {
    PendingView {
        target: p.0@,
        expansion: p.1@,
        transform: |o: Object| (*p.2).expanded(o),
    }
}

/// The queue as the contracts see it.
pub(crate) open spec fn pending_view(s: Seq<PendingExpandObject>) -> Seq<PendingView> {
    s.map_values(|p: PendingExpandObject| pending_item(p))
}

pub(crate) proof fn lemma_pending_view_push(s: Seq<PendingExpandObject>, x: PendingExpandObject)
    ensures
        pending_view(s.push(x)) == pending_view(s).push(pending_item(x)),
{
    let a = pending_view(s.push(x));
    let b = pending_view(s).push(pending_item(x));
    assert forall|i: int| 0 <= i < a.len() implies a[i] == b[i] by {
        if i < s.len() {
            assert(s.push(x)[i] == s[i]);
            assert(pending_view(s)[i] == pending_item(s[i]));
        }
    }
    assert(a =~= b);
}

proof fn lemma_pending_view_remove_first(s: Seq<PendingExpandObject>)
    requires
        s.len() > 0,
    ensures
        pending_view(s.remove(0)) == pending_view(s).subrange(1, s.len() as int),
        pending_view(s)[0] == pending_item(s[0]),
{
    let a = pending_view(s.remove(0));
    let b = pending_view(s).subrange(1, s.len() as int);
    assert forall|i: int| 0 <= i < a.len() implies a[i] == b[i] by {
        assert(s.remove(0)[i] == s[i + 1]);
        assert(pending_view(s)[i + 1] == pending_item(s[i + 1]));
    }
    assert(a =~= b);
}

pub(crate) proof fn lemma_pending_view_len(s: Seq<PendingExpandObject>)
    ensures
        pending_view(s).len() == s.len(),
{
}

proof fn lemma_expand_all_push(o: Object, name: Seq<char>, s: Seq<PendingView>, x: PendingView)
    ensures
        expand_all(o, name, s.push(x)) == if x.target == name {
            (x.transform)(expand_all(o, name, s))
        } else {
            expand_all(o, name, s)
        },
{
    assert(s.push(x).drop_last() =~= s);
}

/// Expansions that target other names leave an object as it is.
pub(crate) proof fn lemma_expand_all_untargeted(o: Object, name: Seq<char>, s: Seq<PendingView>)
    requires
        !targets(s, name),
    ensures
        expand_all(o, name, s) == o,
    decreases s.len(),
{
    if s.len() > 0 {
        let t = s.drop_last();
        assert(!targets(t, name)) by {
            if targets(t, name) {
                let j = choose|j: int| 0 <= j < t.len() && #[trigger] t[j].target == name;
                assert(s[j].target == name);
            }
        }
        lemma_expand_all_untargeted(o, name, t);
        assert(s[s.len() - 1].target != name);
    }
}

/// Whether an expansion's target is missing from `names`.
pub(crate) open spec fn absent_from(names: Set<Seq<char>>) -> spec_fn(PendingView) -> bool {
    |p: PendingView| !names.contains(p.target)
}

/// Filtering keeps every element exactly when all of them pass, and drops
/// one at least otherwise.
proof fn lemma_filter_keeps_all(s: Seq<PendingView>, pred: spec_fn(PendingView) -> bool)
    ensures
        (forall|i: int| 0 <= i < s.len() ==> pred(#[trigger] s[i])) ==> s.filter(pred) == s,
        (exists|i: int| 0 <= i < s.len() && !pred(#[trigger] s[i])) ==> s.filter(pred).len()
            < s.len(),
        s.filter(pred).len() <= s.len(),
    decreases s.len(),
{
    if s.len() > 0 {
        let t = s.drop_last();
        lemma_filter_keeps_all(t, pred);
        assert(t.push(s.last()) =~= s);
        t.lemma_filter_push(s.last(), pred);
        if forall|i: int| 0 <= i < s.len() ==> pred(#[trigger] s[i]) {
            assert forall|i: int| 0 <= i < t.len() implies pred(#[trigger] t[i]) by {
                assert(t[i] == s[i]);
            }
        }
        if exists|i: int| 0 <= i < s.len() && !pred(#[trigger] s[i]) {
            let i = choose|i: int| 0 <= i < s.len() && !pred(#[trigger] s[i]);
            if i < t.len() {
                assert(t[i] == s[i]);
            }
        }
    } else {
        reveal(Seq::filter);
    }
}

proof fn lemma_filter_twice(s: Seq<PendingView>, pred: spec_fn(PendingView) -> bool)
    ensures
        s.filter(pred).filter(pred) == s.filter(pred),
{
    broadcast use vstd::seq_lib::group_filter_ensures;

    let f = s.filter(pred);
    assert forall|i: int| 0 <= i < f.len() implies pred(#[trigger] f[i]) by {
        s.lemma_filter_pred(pred, i);
    }
    lemma_filter_keeps_all(f, pred);
}

/// Builds the list of unresolved expansions, each as
/// `<target> when defining <expansion>`, separated by `, `.
pub(crate) fn describe_unresolved(pending: &Vec<PendingExpandObject>) -> (r: String)
    ensures
        r@ == describe_all(pending_view(pending@)),
{
    let ghost v = pending_view(pending@);
    let mut r = String::new();
    let mut i: usize = 0;
    while i < pending.len()
        invariant
            i <= pending@.len(),
            v == pending_view(pending@),
            r@ == describe_all(v.subrange(0, i as int)),
        decreases pending@.len() - i,
    {
        let ghost before = r@;
        if i > 0 {
            r.append(", ");
        }
        r.append(pending[i].0.as_str());
        r.append(" when defining ");
        r.append(pending[i].1.as_str());
        proof {
            let next = v.subrange(0, i + 1);
            assert(next.drop_last() =~= v.subrange(0, i as int));
            assert(next.last() == v[i as int]);
            if i == 0 {
                assert(r@ =~= describe_pending(next[0]));
            } else {
                assert(r@ =~= before + ", "@ + describe_pending(next.last()));
            }
        }
        i = i + 1;
    }
    proof {
        assert(v.subrange(0, pending@.len() as int) =~= v);
    }
    r
}


/// One pass over the queue: each expansion whose target is present is
/// applied to it, in queue order; the others are kept, in queue order.
/// Reports whether any expansion was applied.
fn apply_pass(objects: &mut Vec<NamedObject>, queue: Vec<PendingExpandObject>) -> (r: (
    Vec<PendingExpandObject>,
    bool,
))
    requires
        names_distinct(old(objects)@),
    ensures
        names_distinct(final(objects)@),
        same_names(old(objects)@, final(objects)@),
        forall|i: int|
            0 <= i < old(objects)@.len() ==> #[trigger] final(objects)@[i].object == expand_all(
                old(objects)@[i].object,
                old(objects)@[i].name@,
                pending_view(queue@),
            ),
        pending_view(r.0@) == pending_view(queue@).filter(absent_from(objects_map(old(objects)@).dom())),
        r.1 <==> exists|j: int|
            0 <= j < queue@.len() && objects_map(old(objects)@).contains_key(
                #[trigger] pending_view(queue@)[j].target,
            ),
{
    let ghost orig = objects@;
    let ghost q0 = pending_view(queue@);
    let ghost pred = absent_from(objects_map(orig).dom());
    let mut queue = queue;
    let mut rest: Vec<PendingExpandObject> = Vec::new();
    let mut changed = false;
    let ghost mut k: int = 0;
    while queue.len() > 0
        invariant
            orig == old(objects)@,
            pred == absent_from(objects_map(orig).dom()),
            0 <= k <= q0.len(),
            pending_view(queue@) == q0.subrange(k, q0.len() as int),
            names_distinct(objects@),
            same_names(orig, objects@),
            forall|i: int|
                0 <= i < orig.len() ==> #[trigger] objects@[i].object == expand_all(
                    orig[i].object,
                    orig[i].name@,
                    q0.subrange(0, k),
                ),
            pending_view(rest@) == q0.subrange(0, k).filter(pred),
            changed <==> exists|j: int|
                0 <= j < k && objects_map(orig).contains_key(#[trigger] q0[j].target),
        decreases queue@.len(),
    {
        let ghost done = q0.subrange(0, k);
        let ghost old_queue = queue@;
        let p = queue.remove(0);
        proof {
            lemma_pending_view_len(old_queue);
            lemma_pending_view_remove_first(old_queue);
            assert(q0.subrange(k, q0.len() as int).subrange(1, q0.len() - k) =~= q0.subrange(
                k + 1,
                q0.len() as int,
            ));
            assert(q0[k] == pending_item(p));
            lemma_objects_map_dom(orig, p.0@);
            lemma_same_names_map_dom(orig, objects@);
            lemma_objects_map_dom(objects@, p.0@);
            assert(q0.subrange(0, k + 1) =~= done.push(q0[k]));
            done.lemma_filter_push(q0[k], pred);
            assert forall|i: int| 0 <= i < orig.len() implies expand_all(
                orig[i].object,
                orig[i].name@,
                q0.subrange(0, k + 1),
            ) == if q0[k].target == orig[i].name@ {
                (q0[k].transform)(objects@[i].object)
            } else {
                objects@[i].object
            } by {
                lemma_expand_all_push(orig[i].object, orig[i].name@, done, q0[k]);
            }
        }
        match find_object(objects, &p.0) {
            Some(i) => {
                let ghost current = objects@;
                let ghost taken = p;
                let (_target, _expansion, map_fn) = p;
                let entry = objects.remove(i);
                let NamedObject { name, object } = entry;
                let expanded = map_fn.expand(object);
                objects.insert(i, NamedObject { name, object: expanded });
                proof {
                    assert(map_fn == taken.2);
                    assert(objects@ =~= current.update(
                        i as int,
                        NamedObject { name, object: expanded },
                    ));
                    assert forall|a: int, b: int|
                        0 <= a < objects@.len() && 0 <= b < objects@.len() && a != b implies #[trigger] objects@[a].name@
                        != #[trigger] objects@[b].name@ by {
                        assert(current[a].name@ != current[b].name@);
                    }
                    assert forall|j: int| 0 <= j < orig.len() implies #[trigger] objects@[j].object
                        == expand_all(orig[j].object, orig[j].name@, q0.subrange(0, k + 1)) by {
                        if j != i {
                            assert(current[j].name@ != current[i as int].name@);
                        }
                    }
                    assert(objects_map(orig).contains_key(q0[k].target));
                }
                changed = true;
            },
            None => {
                let ghost rest_before = rest@;
                proof {
                    lemma_pending_view_push(rest_before, p);
                }
                rest.push(p);
            },
        }
        proof {
            k = k + 1;
        }
    }
    proof {
        assert(q0.subrange(0, k) =~= q0);
    }
    (rest, changed)
}

/// Applies pending expansions pass after pass, until the queue is empty or a
/// pass applies none. Hands back the expansions that could not be applied.
///
/// Expansions never add or remove an object, so every object ends as the
/// expansions that target it, applied in queue order, and those left are
/// exactly the ones whose target no object carries.
pub(crate) fn apply_pending_objects(objects: &mut Vec<NamedObject>, pending: Vec<PendingExpandObject>) -> (r:
    Vec<PendingExpandObject>)
    requires
        names_distinct(old(objects)@),
    ensures
        names_distinct(final(objects)@),
        same_names(old(objects)@, final(objects)@),
        forall|i: int|
            0 <= i < old(objects)@.len() ==> #[trigger] final(objects)@[i].object == expand_all(
                old(objects)@[i].object,
                old(objects)@[i].name@,
                pending_view(pending@),
            ),
        pending_view(r@) == pending_view(pending@).filter(absent_from(objects_map(old(objects)@).dom())),
{
    let ghost orig = objects@;
    let ghost all = pending_view(pending@);
    let ghost pred = absent_from(objects_map(orig).dom());
    let mut queue = pending;
    while queue.len() > 0
        invariant
            orig == old(objects)@,
            all == pending_view(pending@),
            pred == absent_from(objects_map(orig).dom()),
            names_distinct(objects@),
            same_names(orig, objects@),
            forall|i: int|
                0 <= i < orig.len() ==> #[trigger] expand_all(
                    objects@[i].object,
                    orig[i].name@,
                    pending_view(queue@),
                ) == expand_all(orig[i].object, orig[i].name@, all),
            pending_view(queue@).filter(pred) == all.filter(pred),
        decreases queue@.len(),
    {
        let ghost before = objects@;
        let ghost q = pending_view(queue@);
        let (rest, changed) = apply_pass(objects, queue);
        proof {
            broadcast use vstd::seq_lib::group_filter_ensures;

            lemma_same_names_map_dom(orig, before);
            lemma_filter_twice(q, pred);
            lemma_filter_keeps_all(q, pred);
            assert forall|i: int| 0 <= i < orig.len() implies #[trigger] objects@[i].name@
                == orig[i].name@ by {
                assert(before[i].name@ == orig[i].name@);
            }
            assert forall|i: int| 0 <= i < orig.len() implies #[trigger] expand_all(
                objects@[i].object,
                orig[i].name@,
                pending_view(rest@),
            ) == expand_all(orig[i].object, orig[i].name@, all) && expand_all(
                objects@[i].object,
                orig[i].name@,
                pending_view(rest@),
            ) == objects@[i].object by {
                let n = orig[i].name@;
                lemma_objects_map_dom(orig, n);
                assert(orig[i].name@ == n);
                let f = pending_view(rest@);
                assert(!targets(f, n)) by {
                    if targets(f, n) {
                        let j = choose|j: int| 0 <= j < f.len() && #[trigger] f[j].target == n;
                        q.lemma_filter_pred(pred, j);
                    }
                }
                lemma_expand_all_untargeted(objects@[i].object, n, f);
                assert(before[i].name@ == n);
            }
        }
        if !changed {
            proof {
                assert forall|j: int| 0 <= j < q.len() implies pred(#[trigger] q[j]) by {
                    assert(!objects_map(orig).contains_key(q[j].target));
                }
            }
            return rest;
        }
        proof {
            let j = choose|j: int|
                0 <= j < q.len() && objects_map(before).contains_key(#[trigger] q[j].target);
            assert(!pred(q[j]));
        }
        queue = rest;
    }
    proof {
        lemma_pending_view_len(queue@);
        assert(pending_view(queue@) =~= Seq::<PendingView>::empty());
        reveal(Seq::filter);
        assert forall|i: int| 0 <= i < orig.len() implies #[trigger] objects@[i].object == expand_all(
            orig[i].object,
            orig[i].name@,
            all,
        ) by {
            assert(expand_all(objects@[i].object, orig[i].name@, pending_view(queue@))
                == objects@[i].object);
        }
    }
    queue
}

} // verus!
