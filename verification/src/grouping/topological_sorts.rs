use vstd::prelude::*;
use crate::database::arrangement::{ArrangementDetails, ArrangementDependencyType, dependency_type_of, shares_dependency};

verus! {

/// The arrangement at `a` depends on the one at `b`: it lists the id of
/// `b` among the arrangements it depends on.
pub open spec fn depends(s: Seq<ArrangementDetails>, a: int, b: int) -> bool {
    0 <= a < s.len() && 0 <= b < s.len() && s[a].dependant_arrangements@.contains(s[b].arrangement.id)
}

/// A path along dependencies: each position depends on the next one.
pub open spec fn is_path(s: Seq<ArrangementDetails>, p: Seq<int>) -> bool {
    &&& p.len() >= 1
    &&& forall|k: int| 0 <= k < p.len() ==> 0 <= #[trigger] p[k] < s.len()
    &&& forall|k: int| 0 <= k < p.len() - 1 ==> #[trigger] depends(s, p[k], p[k + 1])
}

/// `b` can be reached from `a` by following dependencies.
pub open spec fn reaches(s: Seq<ArrangementDetails>, a: int, b: int) -> bool {
    exists|p: Seq<int>| #[trigger] is_path(s, p) && p[0] == a && p.last() == b
}

/// No dependency is part of a cycle of dependencies.
pub open spec fn acyclic(s: Seq<ArrangementDetails>) -> bool {
    forall|a: int, b: int| #[trigger] depends(s, a, b) ==> !reaches(s, b, a)
}

/// `order` lists each position below `n` exactly once.
pub open spec fn is_permutation(order: Seq<int>, n: nat) -> bool {
    &&& order.len() == n
    &&& forall|t: int| 0 <= t < n ==> 0 <= #[trigger] order[t] < n
    &&& forall|t: int, u: int| 0 <= t < n && 0 <= u < n && t != u ==> #[trigger] order[t] != #[trigger] order[u]
}

/// `r` is a reordering of `s`.
pub open spec fn is_reordering(s: Seq<ArrangementDetails>, r: Seq<ArrangementDetails>) -> bool {
    exists|order: Seq<int>| #[trigger] is_permutation(order, s.len()) && r.len() == s.len()
        && forall|t: int| 0 <= t < r.len() ==> r[t] == s[#[trigger] order[t]]
}

/// `r` is `s` sorted topologically: a reordering of `s` in which every
/// dependency comes before the arrangement that depends on it, unless the
/// two lie on a cycle of dependencies.
pub open spec fn topologically_sorted(s: Seq<ArrangementDetails>, r: Seq<ArrangementDetails>) -> bool {
    &&& is_reordering(s, r)
    &&& forall|u: int, t: int| #[trigger] depends(r, u, t) ==> t < u || reaches(r, t, u)
    &&& acyclic(s) ==> forall|u: int, t: int| #[trigger] depends(r, u, t) ==> t < u
}

/// Number of unvisited marks.
spec fn count_zeros(m: Seq<u8>) -> nat
    decreases m.len(),
{
    if m.len() == 0 {
        0
    } else {
        count_zeros(m.drop_last()) + if m.last() == 0 { 1nat } else { 0nat }
    }
}

proof fn lemma_count_zeros_mono(a: Seq<u8>, b: Seq<u8>)
    requires
        a.len() == b.len(),
        forall|k: int| 0 <= k < a.len() && a[k] != 0 ==> b[k] != 0,
    ensures
        count_zeros(b) <= count_zeros(a),
    decreases a.len(),
{
    if a.len() > 0 {
        lemma_count_zeros_mono(a.drop_last(), b.drop_last());
    }
}

proof fn lemma_count_zeros_strict(a: Seq<u8>, b: Seq<u8>, i: int)
    requires
        a.len() == b.len(),
        forall|k: int| 0 <= k < a.len() && a[k] != 0 ==> b[k] != 0,
        0 <= i < a.len(),
        a[i] == 0,
        b[i] != 0,
    ensures
        count_zeros(b) < count_zeros(a),
    decreases a.len(),
{
    if i == a.len() - 1 {
        lemma_count_zeros_mono(a.drop_last(), b.drop_last());
    } else {
        lemma_count_zeros_strict(a.drop_last(), b.drop_last(), i);
    }
}

/// Number of done marks.
spec fn count_done(m: Seq<u8>) -> nat
    decreases m.len(),
{
    if m.len() == 0 {
        0
    } else {
        count_done(m.drop_last()) + if m.last() == 2 { 1nat } else { 0nat }
    }
}

proof fn lemma_count_done_update(m: Seq<u8>, i: int, x: u8)
    requires
        0 <= i < m.len(),
    ensures
        count_done(m.update(i, x)) + (if m[i] == 2 { 1int } else { 0int })
            == count_done(m) + (if x == 2 { 1int } else { 0int }),
    decreases m.len(),
{
    if i < m.len() - 1 {
        lemma_count_done_update(m.drop_last(), i, x);
        assert(m.update(i, x).drop_last() =~= m.drop_last().update(i, x));
    } else {
        assert(m.update(i, x).drop_last() =~= m.drop_last());
    }
}

proof fn lemma_count_done_all(m: Seq<u8>)
    requires
        forall|k: int| 0 <= k < m.len() ==> m[k] == 2,
    ensures
        count_done(m) == m.len(),
    decreases m.len(),
{
    if m.len() > 0 {
        lemma_count_done_all(m.drop_last());
    }
}

/// State of the depth-first search: marks are 0 (unvisited), 1 (on the
/// stack) or 2 (done); `order` lists the done positions, `rank` gives the
/// place of each done position in `order`.
spec fn dfs_wf(s: Seq<ArrangementDetails>, marks: Seq<u8>, rank: Seq<usize>, order: Seq<usize>, stack: Seq<int>) -> bool {
    &&& marks.len() == s.len()
    &&& rank.len() == s.len()
    &&& order.len() == count_done(marks)
    &&& forall|k: int| 0 <= k < s.len() ==> #[trigger] marks[k] <= 2
    &&& forall|t: int| 0 <= t < order.len() ==> #[trigger] order[t] < s.len() && marks[order[t] as int] == 2 && rank[order[t] as int] == t
    &&& forall|k: int| 0 <= k < s.len() && #[trigger] marks[k] == 2 ==> rank[k] < order.len() && order[rank[k] as int] == k
    &&& forall|k: int| 0 <= k < s.len() ==> (#[trigger] marks[k] == 1 <==> stack.contains(k))
    &&& forall|t: int| 0 <= t < stack.len() ==> 0 <= #[trigger] stack[t] < s.len()
    &&& forall|t: int| 0 <= t < stack.len() - 1 ==> #[trigger] depends(s, stack[t], stack[t + 1])
    &&& forall|a: int, b: int| 0 <= a < s.len() && marks[a] == 2 && #[trigger] depends(s, a, b)
        ==> (marks[b] == 2 && rank[b] < rank[a]) || reaches(s, b, a)
}

/// What a visit keeps of the state it started from.
spec fn dfs_keeps(m0: Seq<u8>, r0: Seq<usize>, o0: Seq<usize>, m1: Seq<u8>, r1: Seq<usize>, o1: Seq<usize>) -> bool {
    &&& m1.len() == m0.len()
    &&& forall|k: int| 0 <= k < m0.len() && #[trigger] m0[k] != 0 ==> m1[k] == m0[k]
    &&& forall|k: int| 0 <= k < m0.len() && #[trigger] m0[k] == 2 ==> r1[k] == r0[k]
    &&& o0.len() <= o1.len()
    &&& o1.subrange(0, o0.len() as int) == o0
}

proof fn lemma_keeps_trans(
    m0: Seq<u8>, r0: Seq<usize>, o0: Seq<usize>,
    m1: Seq<u8>, r1: Seq<usize>, o1: Seq<usize>,
    m2: Seq<u8>, r2: Seq<usize>, o2: Seq<usize>,
)
    requires
        dfs_keeps(m0, r0, o0, m1, r1, o1),
        dfs_keeps(m1, r1, o1, m2, r2, o2),
    ensures
        dfs_keeps(m0, r0, o0, m2, r2, o2),
{
    assert forall|k: int| 0 <= k < m0.len() && #[trigger] m0[k] == 2 implies r2[k] == r0[k] by {
        assert(m1[k] == 2);
    }
    assert forall|k: int| 0 <= k < m0.len() && #[trigger] m0[k] != 0 implies m2[k] == m0[k] by {
        assert(m1[k] != 0);
    }
    assert(o2.subrange(0, o0.len() as int) =~= o2.subrange(0, o1.len() as int).subrange(0, o0.len() as int));
}

/// Every position on the stack reaches the top of the stack.
proof fn lemma_stack_reaches(s: Seq<ArrangementDetails>, stack: Seq<int>, t: int)
    requires
        0 <= t < stack.len(),
        forall|k: int| 0 <= k < stack.len() ==> 0 <= #[trigger] stack[k] < s.len(),
        forall|k: int| 0 <= k < stack.len() - 1 ==> #[trigger] depends(s, stack[k], stack[k + 1]),
    ensures
        reaches(s, stack[t], stack.last()),
{
    let p = stack.subrange(t, stack.len() as int);
    assert forall|k: int| 0 <= k < p.len() - 1 implies #[trigger] depends(s, p[k], p[k + 1]) by {
        assert(depends(s, stack[t + k], stack[t + k + 1]));
    }
    assert forall|k: int| 0 <= k < p.len() implies 0 <= #[trigger] p[k] < s.len() by {
        assert(0 <= stack[t + k] < s.len());
    }
    assert(is_path(s, p));
}

/// Visits position `i` and, first, every position it depends on.
fn visit(
    s: &Vec<ArrangementDetails>,
    i: usize,
    marks: &mut Vec<u8>,
    rank: &mut Vec<usize>,
    order: &mut Vec<usize>,
    Ghost(stack): Ghost<Seq<int>>,
)
    requires
        i < s.len(),
        dfs_wf(s@, old(marks)@, old(rank)@, old(order)@, stack),
        old(marks)@[i as int] == 0 && stack.len() > 0 ==> depends(s@, stack.last(), i as int),
    ensures
        dfs_wf(s@, final(marks)@, final(rank)@, final(order)@, stack),
        final(marks)@[i as int] != 0,
        dfs_keeps(old(marks)@, old(rank)@, old(order)@, final(marks)@, final(rank)@, final(order)@),
    decreases count_zeros(old(marks)@),
{
    let ghost m0 = marks@;
    let ghost r0 = rank@;
    let ghost o0 = order@;
    if marks[i] != 0 {
        assert(order@.subrange(0, order@.len() as int) =~= order@);
        return;
    }
    marks.set(i, 1);
    let ghost inner = stack.push(i as int);
    proof {
        assert forall|k: int| 0 <= k < s@.len() implies (#[trigger] marks@[k] == 1 <==> inner.contains(k)) by {
            if k == i {
                assert(inner[inner.len() - 1] == k);
            } else {
                if stack.contains(k) {
                    let w = choose|w: int| 0 <= w < stack.len() && stack[w] == k;
                    assert(inner[w] == k);
                }
                if inner.contains(k) {
                    let w = choose|w: int| 0 <= w < inner.len() && inner[w] == k;
                    assert(stack[w] == k);
                }
            }
        }
        assert forall|t: int| 0 <= t < inner.len() - 1 implies #[trigger] depends(s@, inner[t], inner[t + 1]) by {
            if t < stack.len() - 1 {
                assert(depends(s@, stack[t], stack[t + 1]));
            }
        }
        assert forall|a: int, b: int| 0 <= a < s@.len() && marks@[a] == 2 && #[trigger] depends(s@, a, b)
            implies (marks@[b] == 2 && rank@[b] < rank@[a]) || reaches(s@, b, a) by {
            assert(m0[a] == 2);
        }
        lemma_count_done_update(m0, i as int, 1);
        assert(m0.update(i as int, 1) == marks@);
        assert(dfs_wf(s@, marks@, rank@, order@, inner));
        lemma_count_zeros_strict(m0, marks@, i as int);
        assert(order@.subrange(0, order@.len() as int) =~= order@);
    }
    let deps = &s[i].dependant_arrangements;
    let n = s.len();
    let mut k: usize = 0;
    while k < deps.len()
        invariant
            n == s.len(),
            i < n,
            deps@ == s@[i as int].dependant_arrangements@,
            inner == stack.push(i as int),
            m0 == old(marks)@,
            m0[i as int] == 0,
            dfs_wf(s@, marks@, rank@, order@, inner),
            marks@[i as int] == 1,
            dfs_keeps(m0, r0, o0, marks@, rank@, order@),
            count_zeros(marks@) < count_zeros(m0),
            forall|k2: int, j2: int| 0 <= k2 < k && 0 <= j2 < n && s@[j2].arrangement.id == #[trigger] deps@[k2]
                ==> #[trigger] marks@[j2] != 0,
        decreases deps.len() - k,
    {
        let d = deps[k];
        let mut j: usize = 0;
        while j < n
            invariant
                n == s.len(),
                i < n,
                k < deps.len(),
                d == deps@[k as int],
                deps@ == s@[i as int].dependant_arrangements@,
                inner == stack.push(i as int),
                m0 == old(marks)@,
                m0[i as int] == 0,
                dfs_wf(s@, marks@, rank@, order@, inner),
                marks@[i as int] == 1,
                dfs_keeps(m0, r0, o0, marks@, rank@, order@),
                count_zeros(marks@) < count_zeros(m0),
                forall|k2: int, j2: int| 0 <= k2 < k && 0 <= j2 < n && s@[j2].arrangement.id == #[trigger] deps@[k2]
                    ==> #[trigger] marks@[j2] != 0,
                forall|j2: int| 0 <= j2 < j && s@[j2].arrangement.id == d ==> #[trigger] marks@[j2] != 0,
            decreases n - j,
        {
            if s[j].arrangement.id == d {
                let ghost m1 = marks@;
                let ghost r1 = rank@;
                let ghost o1 = order@;
                proof {
                    assert(inner.last() == i as int);
                    assert(deps@.contains(d));
                    assert(depends(s@, i as int, j as int));
                }
                visit(s, j, marks, rank, order, Ghost(inner));
                proof {
                    lemma_keeps_trans(m0, r0, o0, m1, r1, o1, marks@, rank@, order@);
                    lemma_count_zeros_mono(m1, marks@);
                    assert forall|k2: int, j2: int| 0 <= k2 < k && 0 <= j2 < n && s@[j2].arrangement.id == #[trigger] deps@[k2]
                        implies #[trigger] marks@[j2] != 0 by {
                        assert(m1[j2] != 0);
                    }
                    assert forall|j2: int| 0 <= j2 < j && s@[j2].arrangement.id == d implies #[trigger] marks@[j2] != 0 by {
                        assert(m1[j2] != 0);
                    }
                }
            }
            j = j + 1;
        }
        proof {
            assert forall|k2: int, j2: int| 0 <= k2 < k + 1 && 0 <= j2 < n && s@[j2].arrangement.id == #[trigger] deps@[k2]
                implies #[trigger] marks@[j2] != 0 by {
                if k2 == k {
                    assert(s@[j2].arrangement.id == d);
                }
            }
        }
        k = k + 1;
    }
    let ghost m2 = marks@;
    let ghost r2 = rank@;
    let ghost o2 = order@;
    let t = order.len();
    marks.set(i, 2);
    rank.set(i, t);
    order.push(i);
    proof {
        let ii = i as int;
        lemma_count_done_update(m2, ii, 2);
        assert(m2.update(ii, 2) == marks@);
        assert forall|b: int| #[trigger] depends(s@, ii, b) implies m2[b] != 0 by {
            let k2 = choose|k2: int| 0 <= k2 < deps@.len() && deps@[k2] == s@[b].arrangement.id;
            assert(s@[b].arrangement.id == deps@[k2]);
        }
        assert forall|k2: int| 0 <= k2 < s@.len() implies (#[trigger] marks@[k2] == 1 <==> stack.contains(k2)) by {
            if k2 == ii {
                assert(m0[ii] == 0);
                if stack.contains(ii) {
                    let w = choose|w: int| 0 <= w < stack.len() && stack[w] == ii;
                    assert(inner[w] == ii);
                    assert(m0[ii] == 1);
                }
            } else {
                assert(m2[k2] == 1 <==> inner.contains(k2));
                if stack.contains(k2) {
                    let w = choose|w: int| 0 <= w < stack.len() && stack[w] == k2;
                    assert(inner[w] == k2);
                }
                if inner.contains(k2) {
                    let w = choose|w: int| 0 <= w < inner.len() && inner[w] == k2;
                    assert(stack[w] == k2);
                }
            }
        }
        assert forall|t2: int| 0 <= t2 < stack.len() - 1 implies #[trigger] depends(s@, stack[t2], stack[t2 + 1]) by {
            assert(depends(s@, inner[t2], inner[t2 + 1]));
        }
        assert forall|t2: int| 0 <= t2 < stack.len() implies 0 <= #[trigger] stack[t2] < s@.len() by {
            assert(0 <= inner[t2] < s@.len());
        }
        assert forall|t2: int| 0 <= t2 < order@.len() implies #[trigger] order@[t2] < s@.len() && marks@[order@[t2] as int] == 2 && rank@[order@[t2] as int] == t2 by {
            if t2 < o2.len() {
                assert(o2[t2] < s@.len() && m2[o2[t2] as int] == 2 && r2[o2[t2] as int] == t2);
            }
        }
        assert forall|a: int, b: int| 0 <= a < s@.len() && marks@[a] == 2 && #[trigger] depends(s@, a, b)
            implies (marks@[b] == 2 && rank@[b] < rank@[a]) || reaches(s@, b, a) by {
            if a == ii {
                assert(m2[b] != 0);
                if m2[b] == 1 {
                    assert(inner.contains(b));
                    let w = choose|w: int| 0 <= w < inner.len() && inner[w] == b;
                    lemma_stack_reaches(s@, inner, w);
                } else {
                    assert(m2[b] == 2);
                    assert(r2[b] < o2.len());
                }
            } else {
                assert(m2[a] == 2);
                if m2[b] == 2 && r2[b] < r2[a] {
                } else {
                    assert(reaches(s@, b, a));
                }
            }
        }
        assert(dfs_wf(s@, marks@, rank@, order@, stack));
        assert(order@.subrange(0, o2.len() as int) =~= o2);
        assert forall|k2: int| 0 <= k2 < m0.len() && #[trigger] m0[k2] != 0 implies marks@[k2] == m0[k2] by {
            assert(m2[k2] == m0[k2]);
        }
        assert forall|k2: int| 0 <= k2 < m0.len() && #[trigger] m0[k2] == 2 implies rank@[k2] == r0[k2] by {
            assert(m2[k2] == 2);
        }
        assert(order@.subrange(0, o0.len() as int) =~= o2.subrange(0, o0.len() as int));
    }
}

/// Positions of `s` in an order where dependencies come first, and the
/// place of each position in that order.
fn dfs_order(s: &Vec<ArrangementDetails>) -> (res: (Vec<usize>, Vec<usize>))
    ensures
        res.0@.len() == s@.len(),
        res.1@.len() == s@.len(),
        forall|t: int| 0 <= t < s@.len() ==> #[trigger] res.0@[t] < s@.len() && res.1@[res.0@[t] as int] == t,
        forall|k: int| 0 <= k < s@.len() ==> #[trigger] res.1@[k] < s@.len() && res.0@[res.1@[k] as int] == k,
        forall|a: int, b: int| 0 <= a < s@.len() && #[trigger] depends(s@, a, b) ==> res.1@[b] < res.1@[a] || reaches(s@, b, a),
{
    let n = s.len();
    let mut marks: Vec<u8> = Vec::new();
    let mut rank: Vec<usize> = Vec::new();
    let mut k: usize = 0;
    while k < n
        invariant
            k <= n,
            n == s.len(),
            marks@.len() == k,
            rank@.len() == k,
            forall|k2: int| 0 <= k2 < k ==> #[trigger] marks@[k2] == 0,
        decreases n - k,
    {
        marks.push(0);
        rank.push(0);
        k = k + 1;
    }
    let mut order: Vec<usize> = Vec::new();
    proof {
        assert forall|m: Seq<u8>| m.len() <= n && (forall|k2: int| 0 <= k2 < m.len() ==> #[trigger] m[k2] == 0) implies count_done(m) == 0 by {
            lemma_count_done_zero(m);
        }
        assert(count_done(marks@) == 0);
        assert(dfs_wf(s@, marks@, rank@, order@, Seq::<int>::empty()));
    }
    let mut i: usize = 0;
    while i < n
        invariant
            i <= n,
            n == s.len(),
            dfs_wf(s@, marks@, rank@, order@, Seq::<int>::empty()),
            forall|k2: int| 0 <= k2 < i ==> #[trigger] marks@[k2] == 2,
        decreases n - i,
    {
        let ghost m1 = marks@;
        visit(s, i, &mut marks, &mut rank, &mut order, Ghost(Seq::<int>::empty()));
        proof {
            assert(marks@[i as int] != 1) by {
                if marks@[i as int] == 1 {
                    assert(Seq::<int>::empty().contains(i as int));
                }
            }
            assert forall|k2: int| 0 <= k2 < i + 1 implies #[trigger] marks@[k2] == 2 by {
                if k2 < i {
                    assert(m1[k2] == 2);
                }
            }
        }
        i = i + 1;
    }
    proof {
        lemma_count_done_all(marks@);
        assert forall|k2: int| 0 <= k2 < s@.len() implies #[trigger] rank@[k2] < s@.len() && order@[rank@[k2] as int] == k2 by {
            assert(marks@[k2] == 2);
        }
        assert forall|a: int, b: int| 0 <= a < s@.len() && #[trigger] depends(s@, a, b) implies rank@[b] < rank@[a] || reaches(s@, b, a) by {
            assert(marks@[a] == 2);
        }
    }
    (order, rank)
}

proof fn lemma_count_done_zero(m: Seq<u8>)
    requires
        forall|k: int| 0 <= k < m.len() ==> #[trigger] m[k] == 0,
    ensures
        count_done(m) == 0,
    decreases m.len(),
{
    if m.len() > 0 {
        lemma_count_done_zero(m.drop_last());
    }
}

/// A path among the positions of `s` read as a path among the positions of
/// a reordering `r` of `s`.
proof fn lemma_path_reordered(
    s: Seq<ArrangementDetails>,
    r: Seq<ArrangementDetails>,
    order: Seq<usize>,
    rank: Seq<usize>,
    p: Seq<int>,
)
    requires
        r.len() == s.len(),
        order.len() == s.len(),
        rank.len() == s.len(),
        forall|t: int| 0 <= t < s.len() ==> #[trigger] order[t] < s.len() && rank[order[t] as int] == t,
        forall|k: int| 0 <= k < s.len() ==> #[trigger] rank[k] < s.len() && order[rank[k] as int] == k,
        forall|t: int| 0 <= t < r.len() ==> r[t] == s[#[trigger] order[t] as int],
        is_path(s, p),
    ensures
        reaches(r, rank[p[0]] as int, rank[p.last()] as int),
{
    let q = p.map_values(|x: int| rank[x] as int);
    assert forall|k: int| 0 <= k < q.len() implies 0 <= #[trigger] q[k] < r.len() by {
        assert(0 <= p[k] < s.len());
    }
    assert forall|k: int| 0 <= k < q.len() - 1 implies #[trigger] depends(r, q[k], q[k + 1]) by {
        assert(depends(s, p[k], p[k + 1]));
        assert(0 <= p[k] < s.len());
        assert(0 <= p[k + 1] < s.len());
        assert(r[q[k]] == s[order[q[k]] as int]);
        assert(r[q[k + 1]] == s[order[q[k + 1]] as int]);
    }
    assert(is_path(r, q));
}

/// Topologically sort the arrangements in function of their dependencies over
/// a group of another arrangement. If A depends on B, B will appear before A in
/// the sorted list.
pub fn topological_sort(arrangements: Vec<ArrangementDetails>) -> (r: Vec<ArrangementDetails>)
    ensures
        topologically_sorted(arrangements@, r@),
{
    let ghost s = arrangements@;
    let (order, rank) = dfs_order(&arrangements);
    let n = arrangements.len();
    let mut slots: Vec<Option<ArrangementDetails>> = Vec::new();
    let mut k: usize = 0;
    while k < n
        invariant
            k <= n,
            slots@.len() == k,
            forall|k2: int| 0 <= k2 < k ==> #[trigger] slots@[k2] is None,
        decreases n - k,
    {
        slots.push(None);
        k = k + 1;
    }
    let mut rest = arrangements;
    while rest.len() > 0
        invariant
            rest.len() <= n,
            n == s.len(),
            slots@.len() == n,
            rest@ == s.subrange(0, rest@.len() as int),
            forall|k2: int| 0 <= k2 < n ==> #[trigger] slots@[k2] == if k2 < rest@.len() { None } else { Some(s[k2]) },
        decreases rest.len(),
    {
        let last = rest.len() - 1;
        let x = rest.pop();
        match x {
            Some(x) => {
                slots.set(last, Some(x));
            },
            None => {},
        }
        assert(rest@ =~= s.subrange(0, rest@.len() as int));
    }
    let mut r: Vec<ArrangementDetails> = Vec::new();
    let mut t: usize = 0;
    while t < n
        invariant
            t <= n,
            n == s.len(),
            slots@.len() == n,
            order@.len() == n,
            rank@.len() == n,
            forall|t2: int| 0 <= t2 < n ==> #[trigger] order@[t2] < n && rank@[order@[t2] as int] == t2,
            r@.len() == t,
            forall|t2: int| 0 <= t2 < t ==> r@[t2] == s[#[trigger] order@[t2] as int],
            forall|k2: int| 0 <= k2 < n ==> #[trigger] slots@[k2] == Some(s[k2]) || rank@[k2] < t,
        decreases n - t,
    {
        let k = order[t];
        let mut taken: Option<ArrangementDetails> = None;
        assert(slots@[k as int] == Some(s[k as int]));
        slots.set_and_swap(k, &mut taken);
        match taken {
            Some(x) => {
                r.push(x);
            },
            None => {},
        }
        t = t + 1;
    }
    proof {
        let ord = order@.map_values(|x: usize| x as int);
        assert forall|t2: int, u2: int| 0 <= t2 < n && 0 <= u2 < n && t2 != u2 implies #[trigger] ord[t2] != #[trigger] ord[u2] by {
            assert(rank@[order@[t2] as int] == t2);
            assert(rank@[order@[u2] as int] == u2);
        }
        assert forall|t2: int| 0 <= t2 < n implies 0 <= #[trigger] ord[t2] < n by {
            assert(order@[t2] < n);
        }
        assert(is_permutation(ord, s.len()));
        assert forall|t2: int| 0 <= t2 < r@.len() implies r@[t2] == s[#[trigger] ord[t2]] by {
            assert(r@[t2] == s[order@[t2] as int]);
        }
        assert(is_reordering(s, r@));
        assert forall|u: int, w: int| #[trigger] depends(r@, u, w) implies w < u || reaches(r@, w, u) by {
            let a = order@[u] as int;
            let b = order@[w] as int;
            assert(r@[u] == s[a]);
            assert(r@[w] == s[b]);
            assert(depends(s, a, b));
            if !(rank@[b] < rank@[a]) {
                assert(reaches(s, b, a));
                let p = choose|p: Seq<int>| #[trigger] is_path(s, p) && p[0] == b && p.last() == a;
                lemma_path_reordered(s, r@, order@, rank@, p);
            }
        }
        if acyclic(s) {
            assert forall|u: int, w: int| #[trigger] depends(r@, u, w) implies w < u by {
                let a = order@[u] as int;
                let b = order@[w] as int;
                assert(r@[u] == s[a]);
                assert(r@[w] == s[b]);
                assert(depends(s, a, b));
            }
        }
    }
    r
}

/// `p` is a chain of arrangements, the first depending on the id `from`
/// and each next one depending on the previous one.
pub open spec fn dependant_chain(s: Seq<ArrangementDetails>, from: i32, p: Seq<int>) -> bool {
    &&& p.len() >= 1
    &&& forall|k: int| 0 <= k < p.len() ==> 0 <= #[trigger] p[k] < s.len()
    &&& s[p[0]].dependant_arrangements@.contains(from)
    &&& forall|k: int| 0 <= k < p.len() - 1 ==> #[trigger] s[p[k + 1]].dependant_arrangements@.contains(s[p[k]].arrangement.id)
}

/// The id `x` is one of `seeds`, or the id of an arrangement that depends,
/// directly or through other arrangements, on one of `seeds`.
pub open spec fn in_dependant_closure(s: Seq<ArrangementDetails>, seeds: Set<i32>, x: i32) -> bool {
    seeds.contains(x) || exists|seed: i32, p: Seq<int>|
        seeds.contains(seed) && #[trigger] dependant_chain(s, seed, p) && s[p.last()].arrangement.id == x
}

/// The arrangements of `s`, in order, whose id is in the dependant closure of `seeds`.
pub open spec fn dependant_subset(s: Seq<ArrangementDetails>, seeds: Set<i32>) -> Seq<ArrangementDetails> {
    s.filter(|a: ArrangementDetails| in_dependant_closure(s, seeds, a.arrangement.id))
}

/// The ids of the arrangements of `s` whose flags share a kind of dependency with `t`.
pub open spec fn matching_ids(s: Seq<ArrangementDetails>, t: ArrangementDependencyType) -> Set<i32> {
    Set::new(|x: i32| exists|a: int| 0 <= a < s.len() && s[a].arrangement.id == x
        && #[trigger] shares_dependency(t, dependency_type_of(s[a].arrangement)))
}

/// Whether an id occurs in a list.
pub fn contains_id(v: &Vec<i32>, x: i32) -> (r: bool)
    ensures
        r == v@.contains(x),
{
    let mut i: usize = 0;
    while i < v.len()
        invariant
            i <= v.len(),
            forall|k: int| 0 <= k < i ==> v@[k] != x,
        decreases v.len() - i,
    {
        if v[i] == x {
            return true;
        }
        i = i + 1;
    }
    false
}

/// Number of positions of `s` whose id is not in `vis`.
spec fn count_outside(s: Seq<ArrangementDetails>, vis: Seq<i32>) -> nat
    decreases s.len(),
{
    if s.len() == 0 {
        0
    } else {
        count_outside(s.drop_last(), vis) + if vis.contains(s.last().arrangement.id) { 0nat } else { 1nat }
    }
}

proof fn lemma_count_outside_mono(s: Seq<ArrangementDetails>, v1: Seq<i32>, v2: Seq<i32>)
    requires
        forall|x: i32| v1.contains(x) ==> v2.contains(x),
    ensures
        count_outside(s, v2) <= count_outside(s, v1),
    decreases s.len(),
{
    if s.len() > 0 {
        lemma_count_outside_mono(s.drop_last(), v1, v2);
    }
}

proof fn lemma_count_outside_strict(s: Seq<ArrangementDetails>, v1: Seq<i32>, v2: Seq<i32>, a: int)
    requires
        forall|x: i32| v1.contains(x) ==> v2.contains(x),
        0 <= a < s.len(),
        !v1.contains(s[a].arrangement.id),
        v2.contains(s[a].arrangement.id),
    ensures
        count_outside(s, v2) < count_outside(s, v1),
    decreases s.len(),
{
    if a == s.len() - 1 {
        lemma_count_outside_mono(s.drop_last(), v1, v2);
    } else {
        lemma_count_outside_strict(s.drop_last(), v1, v2, a);
    }
}

/// An id depending on a member of the closure is in the closure.
proof fn lemma_closure_step(s: Seq<ArrangementDetails>, seeds: Set<i32>, x: i32, a: int)
    requires
        in_dependant_closure(s, seeds, x),
        0 <= a < s.len(),
        s[a].dependant_arrangements@.contains(x),
    ensures
        in_dependant_closure(s, seeds, s[a].arrangement.id),
{
    if seeds.contains(x) {
        let p = seq![a];
        assert(dependant_chain(s, x, p));
    } else {
        let (seed, q) = choose|seed: i32, q: Seq<int>|
            seeds.contains(seed) && #[trigger] dependant_chain(s, seed, q) && s[q.last()].arrangement.id == x;
        let p = q.push(a);
        assert forall|k: int| 0 <= k < p.len() - 1 implies #[trigger] s[p[k + 1]].dependant_arrangements@.contains(s[p[k]].arrangement.id) by {
            if k < q.len() - 1 {
                assert(s[q[k + 1]].dependant_arrangements@.contains(s[q[k]].arrangement.id));
            }
        }
        assert forall|k: int| 0 <= k < p.len() implies 0 <= #[trigger] p[k] < s.len() by {
            if k < q.len() {
                assert(0 <= q[k] < s.len());
            }
        }
        assert(dependant_chain(s, seed, p));
    }
}

/// A set containing the seeds and closed under dependants holds the closure.
proof fn lemma_closure_complete(s: Seq<ArrangementDetails>, seeds: Set<i32>, vis: Seq<i32>, x: i32)
    requires
        forall|y: i32| seeds.contains(y) ==> vis.contains(y),
        forall|y: i32, a: int| vis.contains(y) && 0 <= a < s.len() && #[trigger] s[a].dependant_arrangements@.contains(y)
            ==> vis.contains(s[a].arrangement.id),
        in_dependant_closure(s, seeds, x),
    ensures
        vis.contains(x),
{
    if !seeds.contains(x) {
        let (seed, p) = choose|seed: i32, p: Seq<int>|
            seeds.contains(seed) && #[trigger] dependant_chain(s, seed, p) && s[p.last()].arrangement.id == x;
        lemma_chain_in(s, seeds, vis, seed, p, p.len() - 1);
    }
}

proof fn lemma_chain_in(s: Seq<ArrangementDetails>, seeds: Set<i32>, vis: Seq<i32>, seed: i32, p: Seq<int>, k: int)
    requires
        vis.contains(seed),
        forall|y: i32, a: int| vis.contains(y) && 0 <= a < s.len() && #[trigger] s[a].dependant_arrangements@.contains(y)
            ==> vis.contains(s[a].arrangement.id),
        dependant_chain(s, seed, p),
        0 <= k < p.len(),
    ensures
        vis.contains(s[p[k]].arrangement.id),
    decreases k,
{
    assert(0 <= p[k] < s.len());
    if k == 0 {
        assert(s[p[0]].dependant_arrangements@.contains(seed));
    } else {
        lemma_chain_in(s, seeds, vis, seed, p, k - 1);
        let j = k - 1;
        assert(s[p[j + 1]].dependant_arrangements@.contains(s[p[j]].arrangement.id));
        assert(0 <= p[j + 1] < s.len());
    }
}

/// The ids of the seeds and of all arrangements that depend, directly or
/// not, on them, each listed once.
fn collect_dependants(s: &Vec<ArrangementDetails>, seeds: &Vec<i32>) -> (visited: Vec<i32>)
    ensures
        forall|x: i32| visited@.contains(x) <==> in_dependant_closure(s@, seeds@.to_set(), x),
{
    let ghost sd = seeds@.to_set();
    let mut visited: Vec<i32> = Vec::new();
    let mut i: usize = 0;
    while i < seeds.len()
        invariant
            i <= seeds.len(),
            sd == seeds@.to_set(),
            forall|x: i32| visited@.contains(x) ==> sd.contains(x),
            forall|k: int| 0 <= k < i ==> visited@.contains(#[trigger] seeds@[k]),
        decreases seeds.len() - i,
    {
        let x = seeds[i];
        if !contains_id(&visited, x) {
            let ghost before = visited@;
            visited.push(x);
            proof {
                assert(visited@ == before.push(x));
                assert forall|y: i32| before.contains(y) implies visited@.contains(y) by {
                    let w = choose|w: int| 0 <= w < before.len() && before[w] == y;
                    assert(visited@[w] == y);
                }
                assert(visited@[before.len() as int] == x);
                assert forall|y: i32| visited@.contains(y) implies sd.contains(y) by {
                    let w = choose|w: int| 0 <= w < visited@.len() && visited@[w] == y;
                    if w < before.len() {
                        assert(before[w] == y);
                    }
                }
            }
        }
        assert(seeds@.contains(x));
        i = i + 1;
    }
    let n = s.len();
    let mut head: usize = 0;
    while head < visited.len()
        invariant
            n == s.len(),
            head <= visited.len(),
            sd == seeds@.to_set(),
            forall|x: i32| visited@.contains(x) ==> in_dependant_closure(s@, sd, x),
            forall|x: i32| sd.contains(x) ==> visited@.contains(x),
            forall|h: int, a: int| 0 <= h < head && 0 <= a < n && #[trigger] s@[a].dependant_arrangements@.contains(#[trigger] visited@[h])
                ==> visited@.contains(s@[a].arrangement.id),
        decreases count_outside(s@, visited@), visited@.len() - head,
    {
        let p = visited[head];
        let ghost v0 = visited@;
        let mut a: usize = 0;
        while a < n
            invariant
                n == s.len(),
                head < v0.len(),
                p == v0[head as int],
                v0.len() <= visited@.len(),
                visited@.subrange(0, v0.len() as int) == v0,
                sd == seeds@.to_set(),
                forall|x: i32| visited@.contains(x) ==> in_dependant_closure(s@, sd, x),
                forall|x: i32| v0.contains(x) ==> visited@.contains(x),
                count_outside(s@, visited@) <= count_outside(s@, v0),
                visited@.len() == v0.len() || count_outside(s@, visited@) < count_outside(s@, v0),
                forall|a2: int| 0 <= a2 < a && #[trigger] s@[a2].dependant_arrangements@.contains(p)
                    ==> visited@.contains(s@[a2].arrangement.id),
            decreases n - a,
        {
            let id = s[a].arrangement.id;
            if !contains_id(&visited, id) && contains_id(&s[a].dependant_arrangements, p) {
                let ghost before = visited@;
                visited.push(id);
                proof {
                    assert(v0.contains(p));
                    lemma_closure_step(s@, sd, p, a as int);
                    assert forall|x: i32| before.contains(x) implies visited@.contains(x) by {
                        let w = choose|w: int| 0 <= w < before.len() && before[w] == x;
                        assert(visited@[w] == x);
                    }
                    assert(visited@[before.len() as int] == id);
                    lemma_count_outside_strict(s@, before, visited@, a as int);
                    lemma_count_outside_mono(s@, v0, before);
                    assert(visited@.subrange(0, v0.len() as int) =~= before.subrange(0, v0.len() as int));
                    assert(in_dependant_closure(s@, sd, id));
                    assert forall|x: i32| visited@.contains(x) implies in_dependant_closure(s@, sd, x) by {
                        let w = choose|w: int| 0 <= w < visited@.len() && visited@[w] == x;
                        if w < before.len() {
                            assert(before[w] == x);
                            assert(before.contains(x));
                        } else {
                            assert(x == id);
                        }
                    }
                    assert forall|a2: int| 0 <= a2 < a && #[trigger] s@[a2].dependant_arrangements@.contains(p)
                        implies visited@.contains(s@[a2].arrangement.id) by {
                        assert(before.contains(s@[a2].arrangement.id));
                    }
                }
            }
            a = a + 1;
        }
        proof {
            assert forall|h: int, a2: int| 0 <= h < head + 1 && 0 <= a2 < n && #[trigger] s@[a2].dependant_arrangements@.contains(#[trigger] visited@[h])
                implies visited@.contains(s@[a2].arrangement.id) by {
                assert(visited@[h] == v0[h]);
                if h < head {
                    assert(v0.contains(s@[a2].arrangement.id)) by {
                        assert(s@[a2].dependant_arrangements@.contains(v0[h]));
                    }
                }
            }
        }
        head = head + 1;
    }
    proof {
        assert forall|y: i32, a2: int| visited@.contains(y) && 0 <= a2 < s@.len() && #[trigger] s@[a2].dependant_arrangements@.contains(y)
            implies visited@.contains(s@[a2].arrangement.id) by {
            let h = choose|h: int| 0 <= h < visited@.len() && visited@[h] == y;
            assert(s@[a2].dependant_arrangements@.contains(visited@[h]));
        }
        assert forall|x: i32| in_dependant_closure(s@, sd, x) implies visited@.contains(x) by {
            lemma_closure_complete(s@, sd, visited@, x);
        }
    }
    visited
}

/// Keeps, in order, the arrangements whose id is listed.
fn retain_listed(arrangements: Vec<ArrangementDetails>, ids: &Vec<i32>) -> (r: Vec<ArrangementDetails>)
    ensures
        r@ == arrangements@.filter(|a: ArrangementDetails| ids@.contains(a.arrangement.id)),
{
    let ghost s = arrangements@;
    let ghost pred = |a: ArrangementDetails| ids@.contains(a.arrangement.id);
    let mut rest = arrangements;
    let mut r: Vec<ArrangementDetails> = Vec::new();
    assert(s.subrange(0, 0).filter(pred) =~= Seq::<ArrangementDetails>::empty());
    while rest.len() > 0
        invariant
            rest@.len() <= s.len(),
            rest@ == s.subrange(s.len() - rest@.len(), s.len() as int),
            r@ == s.subrange(0, s.len() - rest@.len()).filter(pred),
            pred == (|a: ArrangementDetails| ids@.contains(a.arrangement.id)),
        decreases rest.len(),
    {
        let ghost c = s.len() - rest@.len();
        let x = rest.remove(0);
        assert(s.subrange(0, c + 1).drop_last() =~= s.subrange(0, c));
        assert(s.subrange(0, c + 1).last() == x);
        proof {
            reveal(Seq::filter);
            let prev = s.subrange(0, c).filter(pred);
            assert(s.subrange(0, c + 1).filter(pred) == if pred(x) { prev.push(x) } else { prev });
        }
        if contains_id(ids, x.arrangement.id) {
            r.push(x);
        }
        assert(rest@ =~= s.subrange(s.len() - rest@.len(), s.len() as int));
    }
    assert(s.subrange(0, s.len() as int) =~= s);
    r
}

/// Sort the arrangements in topological order, keeping only the subtree being the origin arrangement and its dependants.
/// - First explore all arrangements that depend on the origin arrangement
/// - Then apply a topological sort on these arrangements only.
pub fn topological_sort_from(arrangements: Vec<ArrangementDetails>, origin_arrangement: &ArrangementDetails) -> (r: Vec<ArrangementDetails>)
    ensures
        topologically_sorted(dependant_subset(arrangements@, set![origin_arrangement.arrangement.id]), r@),
{
    topological_sort_from_id(arrangements, origin_arrangement.arrangement.id)
}

/// Same as [`topological_sort_from`], from the id of the origin arrangement.
pub fn topological_sort_from_id(arrangements: Vec<ArrangementDetails>, origin_id: i32) -> (r: Vec<ArrangementDetails>)
    ensures
        topologically_sorted(dependant_subset(arrangements@, set![origin_id]), r@),
{
    let ghost s = arrangements@;
    let mut seeds: Vec<i32> = Vec::new();
    seeds.push(origin_id);
    let visited = collect_dependants(&arrangements, &seeds);
    let kept = retain_listed(arrangements, &visited);
    proof {
        assert(seeds@.to_set() =~= set![origin_id]) by {
            assert(seeds@[0] == origin_id);
        }
        let seeds_set = set![origin_id];
        assert((|a: ArrangementDetails| visited@.contains(a.arrangement.id))
            =~= (|a: ArrangementDetails| in_dependant_closure(s, seeds_set, a.arrangement.id)));
    }
    topological_sort(kept)
}

/// Sort the arrangements in topological order, keeping only the arrangements that match a dependency type, and its dependants.
/// - Gather all arrangements that match the dependency type.
/// - Then add up all arrangements that depend on one of the gathered arrangements.
/// - Finally, apply a topological sort on these arrangements only.
pub fn topological_sort_filtered(arrangements: Vec<ArrangementDetails>, dependency_type: &ArrangementDependencyType) -> (r: Vec<ArrangementDetails>)
    ensures
        topologically_sorted(dependant_subset(arrangements@, matching_ids(arrangements@, *dependency_type)), r@),
{
    let ghost s = arrangements@;
    let mut seeds: Vec<i32> = Vec::new();
    let mut i: usize = 0;
    while i < arrangements.len()
        invariant
            i <= arrangements.len(),
            s == arrangements@,
            forall|x: i32| #[trigger] seeds@.contains(x) <==> exists|a: int| 0 <= a < i && s[a].arrangement.id == x
                && #[trigger] shares_dependency(*dependency_type, dependency_type_of(s[a].arrangement)),
        decreases arrangements.len() - i,
    {
        let t = ArrangementDependencyType::from(&arrangements[i]);
        if dependency_type.match_any(&t) {
            let ghost before = seeds@;
            seeds.push(arrangements[i].arrangement.id);
            proof {
                assert forall|x: i32| #[trigger] seeds@.contains(x) <==> exists|a: int| 0 <= a < i + 1 && s[a].arrangement.id == x
                    && #[trigger] shares_dependency(*dependency_type, dependency_type_of(s[a].arrangement)) by {
                    if seeds@.contains(x) && x != arrangements@[i as int].arrangement.id {
                        let w = choose|w: int| 0 <= w < seeds@.len() && seeds@[w] == x;
                        assert(before[w] == x);
                        assert(before.contains(x));
                    }
                    if exists|a: int| 0 <= a < i + 1 && s[a].arrangement.id == x
                        && #[trigger] shares_dependency(*dependency_type, dependency_type_of(s[a].arrangement)) {
                        if x != arrangements@[i as int].arrangement.id {
                            let a = choose|a: int| 0 <= a < i + 1 && s[a].arrangement.id == x
                                && #[trigger] shares_dependency(*dependency_type, dependency_type_of(s[a].arrangement));
                            assert(a < i);
                            assert(before.contains(x));
                            let w = choose|w: int| 0 <= w < before.len() && before[w] == x;
                            assert(seeds@[w] == x);
                        } else {
                            assert(seeds@[before.len() as int] == x);
                        }
                    }
                }
            }
        } else {
            proof {
                assert forall|x: i32| #[trigger] seeds@.contains(x) <==> exists|a: int| 0 <= a < i + 1 && s[a].arrangement.id == x
                    && #[trigger] shares_dependency(*dependency_type, dependency_type_of(s[a].arrangement)) by {
                    if exists|a: int| 0 <= a < i + 1 && s[a].arrangement.id == x
                        && #[trigger] shares_dependency(*dependency_type, dependency_type_of(s[a].arrangement)) {
                        let a = choose|a: int| 0 <= a < i + 1 && s[a].arrangement.id == x
                            && #[trigger] shares_dependency(*dependency_type, dependency_type_of(s[a].arrangement));
                        assert(a < i);
                    }
                }
            }
        }
        i = i + 1;
    }
    let visited = collect_dependants(&arrangements, &seeds);
    let kept = retain_listed(arrangements, &visited);
    proof {
        let ms = matching_ids(s, *dependency_type);
        assert(seeds@.to_set() =~= ms);
        assert((|a: ArrangementDetails| visited@.contains(a.arrangement.id))
            =~= (|a: ArrangementDetails| in_dependant_closure(s, ms, a.arrangement.id)));
    }
    topological_sort(kept)
}

} // verus!
