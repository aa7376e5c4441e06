//! The table of object types: entries of distinct names, seen as a map from
//! name to object.
use vstd::prelude::*;

use async_graphql::dynamic::Object;

verus! {

/// An object type and the name it is registered under.
pub(crate) struct NamedObject {
    pub(crate) name: String,
    pub(crate) object: Object,
}

/// No two entries share a name.
pub(crate) open spec fn names_distinct(s: Seq<NamedObject>) -> bool {
    forall|i: int, j: int|
        0 <= i < s.len() && 0 <= j < s.len() && i != j ==> #[trigger] s[i].name@ != #[trigger] s[j].name@
}

pub(crate) open spec fn has_name(s: Seq<NamedObject>, k: Seq<char>) -> bool {
    exists|i: int| 0 <= i < s.len() && #[trigger] s[i].name@ == k
}

/// A table with the same names in the same places as one with distinct
/// names has distinct names too.
pub(crate) proof fn lemma_same_names_distinct(s: Seq<NamedObject>, t: Seq<NamedObject>)
    requires
        names_distinct(s),
        same_names(s, t),
    ensures
        names_distinct(t),
{
    assert forall|a: int, b: int|
        0 <= a < t.len() && 0 <= b < t.len() && a != b implies #[trigger] t[a].name@
        != #[trigger] t[b].name@ by {
        assert(s[a].name@ != s[b].name@);
    }
}

/// Dropping the last entry keeps the names distinct.
pub(crate) proof fn lemma_names_distinct_prefix(s: Seq<NamedObject>)
    requires
        names_distinct(s),
        s.len() > 0,
    ensures
        names_distinct(s.drop_last()),
{
    let t = s.drop_last();
    assert forall|a: int, b: int|
        0 <= a < t.len() && 0 <= b < t.len() && a != b implies #[trigger] t[a].name@
        != #[trigger] t[b].name@ by {
        assert(t[a] == s[a] && t[b] == s[b]);
    }
}

/// The table as a map from name to object; a later entry of a name wins.
pub(crate) open spec fn objects_map(s: Seq<NamedObject>) -> Map<Seq<char>, Object>
    decreases s.len(),
{
    if s.len() == 0 {
        Map::empty()
    } else {
        objects_map(s.drop_last()).insert(s.last().name@, s.last().object)
    }
}

pub(crate) proof fn lemma_objects_map_len(s: Seq<NamedObject>)
    requires
        names_distinct(s),
    ensures
        objects_map(s).dom().finite(),
        objects_map(s).len() == s.len(),
    decreases s.len(),
{
    if s.len() > 0 {
        let t = s.drop_last();
        lemma_names_distinct_prefix(s);
        lemma_objects_map_len(t);
        lemma_objects_map_dom(t, s.last().name@);
        if has_name(t, s.last().name@) {
            let i = choose|i: int| 0 <= i < t.len() && #[trigger] t[i].name@ == s.last().name@;
            assert(s[i].name@ == s[s.len() - 1].name@);
        }
    }
}

pub(crate) proof fn lemma_objects_map_dom(s: Seq<NamedObject>, k: Seq<char>)
    ensures
        objects_map(s).contains_key(k) <==> has_name(s, k),
    decreases s.len(),
{
    if s.len() > 0 {
        let t = s.drop_last();
        lemma_objects_map_dom(t, k);
        if has_name(t, k) {
            let i = choose|i: int| 0 <= i < t.len() && #[trigger] t[i].name@ == k;
            assert(s[i].name@ == k);
        }
        if has_name(s, k) && s.last().name@ != k {
            let i = choose|i: int| 0 <= i < s.len() && #[trigger] s[i].name@ == k;
            assert(t[i].name@ == k);
        }
    }
}

pub(crate) proof fn lemma_objects_map_value(s: Seq<NamedObject>, i: int)
    requires
        names_distinct(s),
        0 <= i < s.len(),
    ensures
        objects_map(s).contains_key(s[i].name@),
        objects_map(s)[s[i].name@] == s[i].object,
    decreases s.len(),
{
    if i < s.len() - 1 {
        let t = s.drop_last();
        lemma_names_distinct_prefix(s);
        lemma_objects_map_value(t, i);
        assert(s[i].name@ != s[s.len() - 1].name@);
    }
}

/// Two tables with the same names in the same places and the same objects
/// in them have the same map.
proof fn lemma_objects_map_ext(s: Seq<NamedObject>, t: Seq<NamedObject>, m: Map<Seq<char>, Object>)
    requires
        names_distinct(s),
        s.len() == t.len(),
        forall|i: int| 0 <= i < s.len() ==> #[trigger] t[i].name@ == s[i].name@,
        forall|k: Seq<char>| #[trigger] m.contains_key(k) <==> has_name(s, k),
        forall|i: int| 0 <= i < t.len() ==> #[trigger] m[t[i].name@] == t[i].object,
    ensures
        names_distinct(t),
        objects_map(t) == m,
{
    lemma_same_names_distinct(s, t);
    assert forall|k: Seq<char>| objects_map(t).contains_key(k) <==> m.contains_key(k) by {
        lemma_objects_map_dom(t, k);
        if has_name(s, k) {
            let i = choose|i: int| 0 <= i < s.len() && #[trigger] s[i].name@ == k;
            assert(t[i].name@ == k);
        }
        if has_name(t, k) {
            let i = choose|i: int| 0 <= i < t.len() && #[trigger] t[i].name@ == k;
            assert(s[i].name@ == k);
        }
    }
    assert forall|k: Seq<char>| #[trigger] objects_map(t).contains_key(k) implies objects_map(t)[k]
        == m[k] by {
        lemma_objects_map_dom(t, k);
        let i = choose|i: int| 0 <= i < t.len() && #[trigger] t[i].name@ == k;
        lemma_objects_map_value(t, i);
    }
    assert(objects_map(t) =~= m);
}

/// Finds the entry of the table that carries `name`.
pub(crate) fn find_object(objects: &Vec<NamedObject>, name: &String) -> (r: Option<usize>)
    ensures
        match r {
            Some(i) => i < objects@.len() && objects@[i as int].name@ == name@,
            None => !has_name(objects@, name@),
        },
{
    let mut i: usize = 0;
    while i < objects.len()
        invariant
            i <= objects@.len(),
            forall|j: int| 0 <= j < i ==> #[trigger] objects@[j].name@ != name@,
        decreases objects@.len() - i,
    {
        if objects[i].name == *name {
            return Some(i);
        }
        i = i + 1;
    }
    None
}

/// Inserts an object under `name`, replacing an object of that name.
pub(crate) fn insert_object(objects: &mut Vec<NamedObject>, name: String, object: Object)
    requires
        names_distinct(old(objects)@),
    ensures
        names_distinct(final(objects)@),
        objects_map(final(objects)@) == objects_map(old(objects)@).insert(name@, object),
{
    let ghost key = name@;
    let ghost before = objects@;
    match find_object(objects, &name) {
        Some(i) => {
            objects.set(i, NamedObject { name, object });
            proof {
                let m = objects_map(before).insert(key, object);
                assert forall|k: Seq<char>| #[trigger] m.contains_key(k) <==> has_name(before, k) by {
                    lemma_objects_map_dom(before, k);
                    if k == key {
                        assert(before[i as int].name@ == k);
                    }
                }
                assert forall|j: int| 0 <= j < objects@.len() implies #[trigger] m[objects@[j].name@]
                    == objects@[j].object by {
                    if j != i {
                        lemma_objects_map_value(before, j);
                        assert(before[j].name@ != before[i as int].name@);
                    }
                }
                lemma_objects_map_ext(before, objects@, m);
            }
        },
        None => {
            objects.push(NamedObject { name, object });
            proof {
                assert(objects@.drop_last() =~= before);
                assert forall|a: int, b: int|
                    0 <= a < objects@.len() && 0 <= b < objects@.len() && a != b implies #[trigger] objects@[a].name@
                    != #[trigger] objects@[b].name@ by {
                    if a == before.len() {
                        assert(before[b].name@ != key);
                    } else if b == before.len() {
                        assert(before[a].name@ != key);
                    }
                }
            }
        },
    }
}

/// Both tables carry the same names in the same places.
pub(crate) open spec fn same_names(s: Seq<NamedObject>, t: Seq<NamedObject>) -> bool {
    &&& s.len() == t.len()
    &&& forall|i: int| 0 <= i < s.len() ==> #[trigger] t[i].name@ == s[i].name@
}

pub(crate) proof fn lemma_same_names_map_dom(s: Seq<NamedObject>, t: Seq<NamedObject>)
    requires
        same_names(s, t),
    ensures
        objects_map(s).dom() == objects_map(t).dom(),
{
    assert forall|k: Seq<char>| objects_map(s).contains_key(k) <==> objects_map(t).contains_key(k) by {
        lemma_objects_map_dom(s, k);
        lemma_objects_map_dom(t, k);
        if has_name(s, k) {
            let i = choose|i: int| 0 <= i < s.len() && #[trigger] s[i].name@ == k;
            assert(t[i].name@ == k);
        }
        if has_name(t, k) {
            let i = choose|i: int| 0 <= i < t.len() && #[trigger] t[i].name@ == k;
            assert(s[i].name@ == k);
        }
    }
    assert(objects_map(s).dom() =~= objects_map(t).dom());
}

} // verus!
