use vstd::prelude::*;
use std::collections::HashSet;
use vstd::std_specs::hash::spec_hash_keys_iter;
use vstd::std_specs::iter::IteratorSpec;

verus! {

broadcast use vstd::std_specs::hash::group_hash_axioms;

/// The pictures of a set, each listed once, in the order the set is walked.
pub fn set_to_vec(s: &HashSet<i64>) -> (r: Vec<i64>)
    ensures
        r@.to_set() == s@,
        r@.no_duplicates(),
{
    let mut v: Vec<i64> = Vec::new();
    let ghost keys = spec_hash_keys_iter(s).remaining();
    proof {
        vstd::std_specs::hash::axiom_spec_hash_keys_iter(s);
    }
    for x in it: s.iter()
        invariant
            it.seq() == keys,
            keys.no_duplicates(),
            v@ == keys.subrange(0, it.index() as int).unref(),
    {
        let ghost i = it.index() as int;
        v.push(*x);
        assert(keys.subrange(0, i + 1).unref() =~= keys.subrange(0, i).unref().push(*keys[i]));
    }
    proof {
        assert(keys.subrange(0, keys.len() as int) =~= keys);
        assert forall|a: int, b: int| 0 <= a < b < v@.len() implies v@[a] != v@[b] by {
            assert(v@[a] == *keys[a] && v@[b] == *keys[b]);
        }
    }
    v
}

/// A set holding the pictures of a list.
pub fn vec_to_set(v: &Vec<i64>) -> (r: HashSet<i64>)
    ensures
        r@ == v@.to_set(),
{
    let mut s: HashSet<i64> = HashSet::new();
    let mut i: usize = 0;
    while i < v.len()
        invariant
            i <= v.len(),
            s@ == v@.subrange(0, i as int).to_set(),
        decreases v.len() - i,
    {
        s.insert(v[i]);
        proof {
            Seq::lemma_to_set_insert_commutes(v@.subrange(0, i as int), v@[i as int]);
            assert(v@.subrange(0, i as int) + seq![v@[i as int]] =~= v@.subrange(0, i + 1));
        }
        i = i + 1;
    }
    assert(v@.subrange(0, v@.len() as int) =~= v@);
    s
}

/// The pictures of `a` that satisfy `keep` over their membership in `b`:
/// those in `b` when `keep_members`, else those not in `b`.
fn select(a: &HashSet<i64>, b: &HashSet<i64>, keep_members: bool) -> (r: HashSet<i64>)
    ensures
        keep_members ==> r@ == a@.intersect(b@),
        !keep_members ==> r@ == a@.difference(b@),
{
    let mut s: HashSet<i64> = HashSet::new();
    let ghost keys = spec_hash_keys_iter(a).remaining();
    proof {
        vstd::std_specs::hash::axiom_spec_hash_keys_iter(a);
    }
    for x in it: a.iter()
        invariant
            it.seq() == keys,
            keys.unref().to_set() == a@,
            keep_members ==> s@ == keys.subrange(0, it.index() as int).unref().to_set().intersect(b@),
            !keep_members ==> s@ == keys.subrange(0, it.index() as int).unref().to_set().difference(b@),
    {
        let ghost i = it.index() as int;
        let ghost before = keys.subrange(0, i).unref();
        if b.contains(x) == keep_members {
            s.insert(*x);
        }
        proof {
            assert(keys.subrange(0, i + 1).unref() =~= before + seq![*keys[i]]);
            Seq::lemma_to_set_insert_commutes(before, *keys[i]);
            if keep_members {
                assert(s@ =~= (before + seq![*keys[i]]).to_set().intersect(b@));
            } else {
                assert(s@ =~= (before + seq![*keys[i]]).to_set().difference(b@));
            }
        }
    }
    proof {
        assert(keys.subrange(0, keys.len() as int) =~= keys);
    }
    s
}

/// The pictures of `a` that are not in `b`.
pub fn difference(a: &HashSet<i64>, b: &HashSet<i64>) -> (r: HashSet<i64>)
    ensures
        r@ == a@.difference(b@),
{
    select(a, b, false)
}

/// The pictures in both `a` and `b`.
pub fn intersection(a: &HashSet<i64>, b: &HashSet<i64>) -> (r: HashSet<i64>)
    ensures
        r@ == a@.intersect(b@),
{
    select(a, b, true)
}

} // verus!
