//! Sets of atom identifiers, kept in the persistent hash set of `im`.
use crate::planning::atom::AtomId;
use vstd::prelude::*;

verus! {

/// The persistent hash set of `im`, which this library fills and reads but
/// does not look into.
#[verifier::external_type_specification]
#[verifier::external_body]
#[verifier::reject_recursive_types(A)]
#[verifier::reject_recursive_types(S)]
pub struct ExImHashSet<A, S>(im::HashSet<A, S>);

/// A set of atom identifiers.
pub type IdSet = im::HashSet<AtomId>;

/// The identifiers that a set holds.
pub uninterp spec fn id_set_contents(s: im::HashSet<usize>) -> Set<usize>;

/// The empty set.
///
/// Trusted: `im::HashSet::new` builds a set that holds nothing.
#[verifier::external_body]
pub(crate) fn id_set_new() -> (s: im::HashSet<usize>)
    ensures
        id_set_contents(s) == Set::<usize>::empty(),
{
    im::HashSet::new()
}

/// Puts `a` into the set.
///
/// Trusted: `im::HashSet::insert` adds the value to the set in place and
/// leaves the other values as they are; a value that is there already stays
/// once.
#[verifier::external_body]
pub(crate) fn id_set_insert(s: &mut im::HashSet<usize>, a: usize)
    ensures
        id_set_contents(*final(s)) == id_set_contents(*old(s)).insert(a),
{
    s.insert(a);
}

/// Takes `a` out of the set.
///
/// Trusted: `im::HashSet::remove` takes the value out of the set in place,
/// if it is there, and leaves the other values as they are.
#[verifier::external_body]
pub(crate) fn id_set_remove(s: &mut im::HashSet<usize>, a: usize)
    ensures
        id_set_contents(*final(s)) == id_set_contents(*old(s)).remove(a),
{
    s.remove(&a);
}

/// Tells whether the set holds `a`.
///
/// Trusted: `im::HashSet::contains` tells whether the value is part of the
/// set.
#[verifier::external_body]
pub(crate) fn id_set_contains(s: &im::HashSet<usize>, a: usize) -> (b: bool)
    ensures
        b == id_set_contents(*s).contains(a),
{
    s.contains(&a)
}

/// The union of two sets.
///
/// Trusted: `im::HashSet::union` inserts every value of the smaller set into
/// the larger one and returns it: the result holds what either set held.
#[verifier::external_body]
pub(crate) fn id_set_union(a: im::HashSet<usize>, b: im::HashSet<usize>) -> (r: im::HashSet<usize>)
    ensures
        id_set_contents(r) == id_set_contents(a).union(id_set_contents(b)),
{
    a.union(b)
}

/// The set that holds the identifiers of `v`.
pub fn id_set_from(v: &Vec<AtomId>) -> (s: IdSet)
    ensures
        id_set_contents(s) == v@.to_set(),
{
    let mut s = id_set_new();
    let mut i: usize = 0;
    while i < v.len()
        invariant
            i <= v.len(),
            id_set_contents(s) == v@.take(i as int).to_set(),
        decreases v.len() - i,
    {
        id_set_insert(&mut s, v[i]);
        proof {
            let a = v@.take(i as int);
            let b = v@.take(i as int + 1);
            assert(b =~= a.push(v@[i as int]));
            assert(b.to_set() =~= a.to_set().insert(v@[i as int])) by {
                assert forall|x: usize| b.to_set().contains(x) <==> a.to_set().insert(
                    v@[i as int],
                ).contains(x) by {
                    if b.contains(x) {
                        let k = choose|k: int| 0 <= k < b.len() && b[k] == x;
                        if k < a.len() {
                            assert(a[k] == x);
                        }
                    }
                    if a.contains(x) {
                        let k = choose|k: int| 0 <= k < a.len() && a[k] == x;
                        assert(b[k] == x);
                    }
                    if x == v@[i as int] {
                        assert(b[a.len() as int] == x);
                    }
                }
            }
        }
        i += 1;
    }
    assert(v@.take(v@.len() as int) =~= v@);
    s
}

} // verus!
