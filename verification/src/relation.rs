//! Binary relations between identifiers, kept as a map from each identifier
//! to the set of identifiers it is related to.
use vstd::prelude::*;
use fxhash::{FxHashMap, FxHashSet};
use crate::fx;

verus! {

/// The map of sets that holds a relation.
pub type Relation = FxHashMap<usize, FxHashSet<usize>>;

/// The pairs `(a, b)` with `b` in the set stored under `a`.
pub open spec fn pairs(m: Relation) -> Set<(usize, usize)> {
    Set::new(|e: (usize, usize)| m@.contains_key(e.0) && m@[e.0]@.contains(e.1))
}

/// The set stored under `a`, or the empty set.
pub open spec fn image(m: Relation, a: usize) -> Set<usize> {
    if m@.contains_key(a) { m@[a]@ } else { Set::empty() }
}

/// The relation's map has finitely many keys.
pub open spec fn finite_keys(m: Relation) -> bool {
    m@.dom().finite()
}

/// No key is stored with an empty set.
pub open spec fn no_empty(m: Relation) -> bool {
    forall|a: usize| #[trigger] m@.contains_key(a) ==> m@[a]@ != Set::<usize>::empty()
}

/// Membership in the pairs of a relation is membership in an image.
pub broadcast proof fn lemma_pairs_image(m: Relation, a: usize, b: usize)
    ensures
        #[trigger] pairs(m).contains((a, b)) == image(m, a).contains(b),
{
}

/// Adds the pair `(a, b)`.
pub fn rel_insert(m: &mut Relation, a: usize, b: usize)
    requires
        finite_keys(*old(m)),
    ensures
        finite_keys(*final(m)),
        pairs(*final(m)) == pairs(*old(m)).insert((a, b)),
        no_empty(*old(m)) ==> no_empty(*final(m)),
        final(m)@.dom() == old(m)@.dom().insert(a),
        forall|x: usize| x != a ==> image(*final(m), x) == image(*old(m), x),
        image(*final(m), a) == image(*old(m), a).insert(b),
        forall|x: usize| x != a && #[trigger] old(m)@.contains_key(x) ==> final(m)@[x] == old(m)@[x],
{
    let mut s = match fx::map_remove(m, a) {
        Some(s) => s,
        None => fx::set_new(),
    };
    fx::set_insert(&mut s, b);
    let ghost sv = s@;
    fx::map_insert(m, a, s);
    assert(pairs(*m) =~= pairs(*old(m)).insert((a, b)));
    assert(no_empty(*old(m)) ==> no_empty(*m)) by {
        assert(sv.contains(b));
        if no_empty(*old(m)) {
            assert forall|x: usize| #[trigger] m@.contains_key(x) implies m@[x]@ != Set::<usize>::empty() by {
                if x == a {
                    assert(m@[x]@.contains(b));
                }
            }
        }
    }
}

/// Adds the key `a` with an empty set when it has no entry yet.
pub fn rel_touch(m: &mut Relation, a: usize)
    requires
        finite_keys(*old(m)),
    ensures
        finite_keys(*final(m)),
        pairs(*final(m)) == pairs(*old(m)),
        final(m)@.dom() == old(m)@.dom().insert(a),
        forall|x: usize| #[trigger] image(*final(m), x) == image(*old(m), x),
        forall|x: usize| #[trigger] old(m)@.contains_key(x) ==> final(m)@[x] == old(m)@[x],
{
    if !fx::map_contains(m, a) {
        fx::map_insert(m, a, fx::set_new());
    }
    assert(pairs(*m) =~= pairs(*old(m)));
}

/// Removes the pair `(a, b)`; a key left with an empty set loses its entry.
pub fn rel_remove(m: &mut Relation, a: usize, b: usize)
    requires
        finite_keys(*old(m)),
    ensures
        finite_keys(*final(m)),
        pairs(*final(m)) == pairs(*old(m)).remove((a, b)),
        no_empty(*old(m)) ==> no_empty(*final(m)),
        forall|x: usize| x != a ==> image(*final(m), x) == image(*old(m), x),
        image(*final(m), a) == image(*old(m), a).remove(b),
        forall|x: usize| x != a && #[trigger] old(m)@.contains_key(x) ==> final(m)@[x] == old(m)@[x],
        forall|x: usize| x != a ==> (final(m)@.contains_key(x) == old(m)@.contains_key(x)),
        final(m)@.contains_key(a) == (old(m)@.contains_key(a) && image(*old(m), a).remove(b) != Set::<usize>::empty()),
{
    match fx::map_remove(m, a) {
        Some(mut s) => {
            fx::set_remove(&mut s, b);
            if !fx::set_is_empty(&s) {
                fx::map_insert(m, a, s);
            } else {
                assert forall|y: usize| !image(*old(m), a).remove(b).contains(y) by {
                    assert(!s@.contains(y));
                }
                assert(image(*old(m), a).remove(b) =~= Set::<usize>::empty());
            }
        },
        None => {},
    }
    assert forall|e: (usize, usize)| pairs(*m).contains(e) == pairs(*old(m)).remove((a, b)).contains(e) by {
        if e.0 == a {
            assert(pairs(*m).contains(e) == image(*m, a).contains(e.1));
            assert(pairs(*old(m)).contains(e) == image(*old(m), a).contains(e.1));
        } else {
            assert(m@.contains_key(e.0) == old(m)@.contains_key(e.0));
        }
    }
    assert(pairs(*m) =~= pairs(*old(m)).remove((a, b)));
}

/// Removes the pair `(a, b)`, keeping the entry of `a` even when it becomes empty.
pub fn rel_remove_keep(m: &mut Relation, a: usize, b: usize)
    requires
        finite_keys(*old(m)),
    ensures
        finite_keys(*final(m)),
        pairs(*final(m)) == pairs(*old(m)).remove((a, b)),
        final(m)@.dom() == old(m)@.dom(),
        forall|x: usize| x != a ==> image(*final(m), x) == image(*old(m), x),
        image(*final(m), a) == image(*old(m), a).remove(b),
        forall|x: usize| x != a && #[trigger] old(m)@.contains_key(x) ==> final(m)@[x] == old(m)@[x],
{
    match fx::map_remove(m, a) {
        Some(mut s) => {
            fx::set_remove(&mut s, b);
            fx::map_insert(m, a, s);
        },
        None => {},
    }
    assert forall|e: (usize, usize)| pairs(*m).contains(e) == pairs(*old(m)).remove((a, b)).contains(e) by {
        if e.0 == a {
            assert(pairs(*m).contains(e) == image(*m, a).contains(e.1));
            assert(pairs(*old(m)).contains(e) == image(*old(m), a).contains(e.1));
        } else {
            assert(m@.contains_key(e.0) == old(m)@.contains_key(e.0));
        }
    }
    assert(pairs(*m) =~= pairs(*old(m)).remove((a, b)));
}

/// Whether the pair `(a, b)` is in the relation.
pub fn rel_contains(m: &Relation, a: usize, b: usize) -> (r: bool)
    ensures
        r == image(*m, a).contains(b),
{
    match fx::map_get(m, a) {
        Some(s) => fx::set_contains(s, b),
        None => false,
    }
}

/// The members of the set under `a`, each once, in the set's own order.
pub fn rel_image(m: &Relation, a: usize) -> (r: Vec<usize>)
    ensures
        r@.to_set() == image(*m, a),
        r@.no_duplicates(),
{
    match fx::map_get(m, a) {
        Some(s) => fx::set_to_vec(s),
        None => {
            let v: Vec<usize> = Vec::new();
            assert(v@.to_set() =~= Set::<usize>::empty());
            v
        },
    }
}

} // verus!
