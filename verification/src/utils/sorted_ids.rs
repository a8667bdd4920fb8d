use vstd::prelude::*;

verus! {

/// The ids are in increasing order, so each occurs once.
pub open spec fn strictly_sorted(s: Seq<i32>) -> bool {
    forall|i: int, j: int| 0 <= i < j < s.len() ==> s[i] < s[j]
}

/// Inserts an id in an increasing list of ids, unless it is there already.
pub fn insert_sorted(v: &mut Vec<i32>, x: i32)
    requires
        strictly_sorted(old(v)@),
    ensures
        strictly_sorted(final(v)@),
        final(v)@.to_set() == old(v)@.to_set().insert(x),
{
    let ghost s = v@;
    let mut i: usize = 0;
    while i < v.len() && v[i] < x
        invariant
            v@ == s,
            i <= v.len(),
            forall|k: int| 0 <= k < i ==> v@[k] < x,
        decreases v.len() - i,
    {
        i = i + 1;
    }
    if i < v.len() && v[i] == x {
        assert(s.to_set() =~= s.to_set().insert(x)) by {
            assert(s.contains(x)) by {
                assert(s[i as int] == x);
            }
        }
        return;
    }
    v.insert(i, x);
    proof {
        assert(v@ =~= s.subrange(0, i as int) + seq![x] + s.subrange(i as int, s.len() as int));
        assert forall|a: int, b: int| 0 <= a < b < v@.len() implies v@[a] < v@[b] by {
            if b < i {
                assert(v@[a] == s[a] && v@[b] == s[b]);
            } else if b == i {
                assert(v@[a] == s[a]);
            } else if a < i {
                assert(v@[a] == s[a] && v@[b] == s[b - 1]);
                assert(s[a] < x);
                assert(s[b - 1] >= x);
            } else if a == i {
                assert(v@[b] == s[b - 1]);
                assert(s[i as int] >= x);
                assert(s[i as int] != x);
            } else {
                assert(v@[a] == s[a - 1] && v@[b] == s[b - 1]);
            }
        }
        assert forall|y: i32| v@.to_set().contains(y) <==> s.to_set().insert(x).contains(y) by {
            if v@.contains(y) {
                let k = choose|k: int| 0 <= k < v@.len() && v@[k] == y;
                if k < i {
                    assert(s[k] == y);
                } else if k > i {
                    assert(s[k - 1] == y);
                }
            }
            if s.contains(y) {
                let k = choose|k: int| 0 <= k < s.len() && s[k] == y;
                if k < i {
                    assert(v@[k] == y);
                } else {
                    assert(v@[k + 1] == y);
                }
            }
            if y == x {
                assert(v@[i as int] == x);
            }
        }
        assert(v@.to_set() =~= s.to_set().insert(x));
    }
}

/// The ids of a list, each once, in increasing order.
pub fn sorted_distinct(ids: &Vec<i32>) -> (r: Vec<i32>)
    ensures
        strictly_sorted(r@),
        r@.to_set() == ids@.to_set(),
{
    let mut r: Vec<i32> = Vec::new();
    let mut i: usize = 0;
    assert(ids@.subrange(0, 0).to_set() =~= Set::<i32>::empty());
    assert(r@.to_set() =~= Set::<i32>::empty());
    while i < ids.len()
        invariant
            i <= ids.len(),
            strictly_sorted(r@),
            r@.to_set() == ids@.subrange(0, i as int).to_set(),
        decreases ids.len() - i,
    {
        insert_sorted(&mut r, ids[i]);
        proof {
            Seq::lemma_to_set_insert_commutes(ids@.subrange(0, i as int), ids@[i as int]);
            assert(ids@.subrange(0, i as int) + seq![ids@[i as int]] =~= ids@.subrange(0, i + 1));
        }
        i = i + 1;
    }
    assert(ids@.subrange(0, ids@.len() as int) =~= ids@);
    r
}

} // verus!
