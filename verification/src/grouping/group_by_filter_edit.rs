use vstd::prelude::*;
use crate::grouping::group_by_filter::{FilterGrouping, FilterGroupingRequest, FilterGroupingValueRequest, filter_group_ids};
use crate::grouping::strategy_filtering::StrategyFiltering;
use crate::utils::errors_catcher::ErrorResponder;

verus! {

/// `i` is the first position of `x` in `s`.
pub open spec fn is_first(s: Seq<i32>, i: int, x: i32) -> bool {
    0 <= i < s.len() && s[i] == x && forall|k: int| 0 <= k < i ==> s[k] != x
}

/// The first position of `x` in `s`, or the length of `s` when it does not occur.
pub open spec fn first_pos(s: Seq<i32>, x: i32) -> int {
    if exists|i: int| #[trigger] is_first(s, i, x) {
        choose|i: int| #[trigger] is_first(s, i, x)
    } else {
        s.len() as int
    }
}

proof fn lemma_first_pos_found(s: Seq<i32>, i: int, x: i32)
    requires
        is_first(s, i, x),
    ensures
        first_pos(s, x) == i,
{
    let c = choose|c: int| #[trigger] is_first(s, c, x);
    assert(is_first(s, c, x));
    if c < i {
        assert(s[c] != x);
    } else if c > i {
        assert(s[i] != x);
    }
}

proof fn lemma_first_pos_absent(s: Seq<i32>, x: i32)
    requires
        forall|k: int| 0 <= k < s.len() ==> s[k] != x,
    ensures
        first_pos(s, x) == s.len(),
{
    assert(!exists|i: int| #[trigger] is_first(s, i, x));
}

proof fn lemma_first_pos_earlier(s: Seq<i32>, j: int, k: int)
    requires
        0 <= k < j < s.len(),
        s[k] == s[j],
    ensures
        first_pos(s, s[j]) != j,
{
    if exists|i: int| #[trigger] is_first(s, i, s[j]) {
        let c = choose|c: int| #[trigger] is_first(s, c, s[j]);
        assert(is_first(s, c, s[j]));
    }
}

proof fn lemma_first_pos_bound(s: Seq<i32>, x: i32)
    ensures
        0 <= first_pos(s, x) <= s.len(),
        first_pos(s, x) < s.len() ==> is_first(s, first_pos(s, x), x),
{
    if exists|i: int| #[trigger] is_first(s, i, x) {
        let c = choose|c: int| #[trigger] is_first(s, c, x);
        assert(is_first(s, c, x));
    }
}

/// The ids of the values of a filter grouping request.
pub open spec fn value_ids(vals: Seq<FilterGroupingValueRequest>) -> Seq<i32> {
    vals.map_values(|v: FilterGroupingValueRequest| v.id)
}

/// The group ids of a filter grouping are positive and distinct: they name
/// stored groups, each once.
pub open spec fn filter_ids_wf(fs: Seq<(i32, StrategyFiltering)>) -> bool {
    &&& forall|k: int| 0 <= k < fs.len() ==> (#[trigger] fs[k]).0 > 0
    &&& forall|k: int, l: int| 0 <= k < l < fs.len() ==> (#[trigger] fs[k]).0 != (#[trigger] fs[l]).0
}

/// A change to a stored group that editing a filter grouping makes.
#[derive(Debug, Clone, PartialEq)]
pub enum GroupChange {
    /// The group is kept, under the name of the request's value.
    Rename(i32, String),
    /// The group no longer has a filter and is to be deleted.
    MarkDeleted(i32),
}

/// The change to the group of each old filter, in order: the first request
/// value with the group's id renames it; without one, it is to be deleted.
pub open spec fn group_change_of(e: (i32, StrategyFiltering), vals: Seq<FilterGroupingValueRequest>) -> GroupChange {
    let p = first_pos(value_ids(vals), e.0);
    if p < vals.len() {
        GroupChange::Rename(e.0, vals[p].name)
    } else {
        GroupChange::MarkDeleted(e.0)
    }
}

/// The changes to the groups of the old filters `fs` that editing them by
/// the request values `vals` makes, filter by filter.
pub open spec fn group_changes_of(fs: Seq<(i32, StrategyFiltering)>, vals: Seq<FilterGroupingValueRequest>) -> Seq<GroupChange> {
    Seq::new(fs.len(), |k: int| group_change_of(fs[k], vals))
}

/// The old filters that a request keeps, in order, each with the filter of
/// the first request value with its id.
pub open spec fn kept_filters(old: Seq<(i32, StrategyFiltering)>, vals: Seq<FilterGroupingValueRequest>) -> Seq<
    (i32, StrategyFiltering),
>
    decreases old.len(),
{
    if old.len() == 0 {
        old
    } else {
        let e = old.last();
        let p = first_pos(value_ids(vals), e.0);
        kept_filters(old.drop_last(), vals) + if p < vals.len() {
            seq![(e.0, vals[p].filter)]
        } else {
            Seq::<(i32, StrategyFiltering)>::empty()
        }
    }
}

/// The request value needs a new group: it names none, or none of the
/// groups so far.
pub open spec fn needs_new_group(v: FilterGroupingValueRequest, fs: Seq<(i32, StrategyFiltering)>) -> bool {
    v.id <= 0 || !filter_group_ids(fs).contains(v.id)
}

/// Going through the request values in order from the filters `fs0`, each
/// value that needs a new group receiving the next id of `created`: the
/// filters, the id of each value's group, and the names of the groups
/// created, in order.
pub open spec fn grown_filters(
    vals: Seq<FilterGroupingValueRequest>,
    fs0: Seq<(i32, StrategyFiltering)>,
    created: Seq<i32>,
) -> (Seq<(i32, StrategyFiltering)>, Seq<i32>, Seq<String>)
    decreases vals.len(),
{
    if vals.len() == 0 {
        (fs0, Seq::empty(), Seq::empty())
    } else {
        let prev = grown_filters(vals.drop_last(), fs0, created);
        let v = vals.last();
        if needs_new_group(v, prev.0) {
            let id = created[prev.2.len() as int];
            (prev.0.push((id, v.filter)), prev.1.push(id), prev.2.push(v.name))
        } else {
            (prev.0, prev.1.push(v.id), prev.2)
        }
    }
}

/// The filters with the group id `x`, in order.
pub open spec fn with_id(fs: Seq<(i32, StrategyFiltering)>, x: i32) -> Seq<(i32, StrategyFiltering)>
    decreases fs.len(),
{
    if fs.len() == 0 {
        fs
    } else {
        with_id(fs.drop_last(), x) + if fs.last().0 == x {
            seq![fs.last()]
        } else {
            Seq::<(i32, StrategyFiltering)>::empty()
        }
    }
}

/// The filters whose group id is none of `ids`, in order.
pub open spec fn without_ids(fs: Seq<(i32, StrategyFiltering)>, ids: Seq<i32>) -> Seq<(i32, StrategyFiltering)>
    decreases fs.len(),
{
    if fs.len() == 0 {
        fs
    } else {
        without_ids(fs.drop_last(), ids) + if ids.contains(fs.last().0) {
            Seq::<(i32, StrategyFiltering)>::empty()
        } else {
            seq![fs.last()]
        }
    }
}

/// The filters in the order of the first `n` request positions: at the
/// first position of each id, the filters with that id.
pub open spec fn ordered_upto(fs: Seq<(i32, StrategyFiltering)>, ids: Seq<i32>, n: nat) -> Seq<(i32, StrategyFiltering)>
    decreases n,
{
    if n == 0 {
        Seq::empty()
    } else {
        let j = (n - 1) as int;
        ordered_upto(fs, ids, (n - 1) as nat) + if first_pos(ids, ids[j]) == j {
            with_id(fs, ids[j])
        } else {
            Seq::<(i32, StrategyFiltering)>::empty()
        }
    }
}

/// The filters sorted, stably, by the first position of their group id in
/// `ids`; those whose id is not there come last.
pub open spec fn ordered_by(fs: Seq<(i32, StrategyFiltering)>, ids: Seq<i32>) -> Seq<(i32, StrategyFiltering)> {
    ordered_upto(fs, ids, ids.len()) + without_ids(fs, ids)
}

/// `fs` are the filters of a grouping whose filters were `old`, edited by
/// the request values `vals`, the new groups coming from `create_group`:
/// some ids that `create_group` gave for the names of the groups it was
/// asked for, in order, lead from `old` to `fs`.
pub open spec fn edited_by<F: Fn(String) -> Result<i32, ErrorResponder>>(
    old_filters: Seq<(i32, StrategyFiltering)>,
    vals: Seq<FilterGroupingValueRequest>,
    create_group: F,
    fs: Seq<(i32, StrategyFiltering)>,
) -> bool {
    exists|created: Seq<i32>|
        #![trigger grown_filters(vals, kept_filters(old_filters, vals), created)]
        {
            let g = grown_filters(vals, kept_filters(old_filters, vals), created);
            &&& g.2.len() == created.len()
            &&& forall|k: int|
                0 <= k < created.len() ==> create_group.ensures((g.2[k],), Ok::<i32, ErrorResponder>(#[trigger] created[k]))
            &&& fs == ordered_by(g.0, g.1)
        }
}

/// `fs` are the filters of a grouping made for the request values `vals`,
/// the k-th with the group that `create_group` gave for the k-th name.
pub open spec fn created_by<F: Fn(String) -> Result<i32, ErrorResponder>>(
    vals: Seq<FilterGroupingValueRequest>,
    create_group: F,
    fs: Seq<(i32, StrategyFiltering)>,
) -> bool {
    exists|created: Seq<i32>|
        #![trigger created_filters(vals, created)]
        {
            &&& created.len() == vals.len()
            &&& forall|k: int|
                0 <= k < created.len() ==> create_group.ensures((vals[k].name,), Ok::<i32, ErrorResponder>(#[trigger] created[k]))
            &&& fs == created_filters(vals, created)
        }
}

/// `e` is an error that `create_group` gave for some name.
pub open spec fn failed_with<F: Fn(String) -> Result<i32, ErrorResponder>>(create_group: F, e: ErrorResponder) -> bool {
    exists|name: String| #[trigger] create_group.ensures((name,), Err::<i32, ErrorResponder>(e))
}

proof fn lemma_with_id_all(fs: Seq<(i32, StrategyFiltering)>, x: i32)
    ensures
        forall|t: int| 0 <= t < with_id(fs, x).len() ==> (#[trigger] with_id(fs, x)[t]).0 == x,
    decreases fs.len(),
{
    if fs.len() > 0 {
        lemma_with_id_all(fs.drop_last(), x);
        let p = with_id(fs.drop_last(), x);
        let w = with_id(fs, x);
        assert forall|t: int| 0 <= t < w.len() implies (#[trigger] w[t]).0 == x by {
            if t < p.len() {
                assert(w[t] == p[t]);
            }
        }
    }
}

proof fn lemma_without_ids_all(fs: Seq<(i32, StrategyFiltering)>, ids: Seq<i32>)
    ensures
        forall|t: int| 0 <= t < without_ids(fs, ids).len() ==> !ids.contains((#[trigger] without_ids(fs, ids)[t]).0),
    decreases fs.len(),
{
    if fs.len() > 0 {
        lemma_without_ids_all(fs.drop_last(), ids);
        let p = without_ids(fs.drop_last(), ids);
        let w = without_ids(fs, ids);
        assert forall|t: int| 0 <= t < w.len() implies !ids.contains((#[trigger] w[t]).0) by {
            if t < p.len() {
                assert(w[t] == p[t]);
            }
        }
    }
}

proof fn lemma_ordered_upto_keys(fs: Seq<(i32, StrategyFiltering)>, ids: Seq<i32>, n: nat)
    requires
        n <= ids.len(),
    ensures
        forall|t: int|
            0 <= t < ordered_upto(fs, ids, n).len() ==> first_pos(ids, (#[trigger] ordered_upto(fs, ids, n)[t]).0) < n,
        forall|t: int, u: int|
            0 <= t < u < ordered_upto(fs, ids, n).len() ==> first_pos(ids, (#[trigger] ordered_upto(fs, ids, n)[t]).0)
                <= first_pos(ids, (#[trigger] ordered_upto(fs, ids, n)[u]).0),
    decreases n,
{
    if n > 0 {
        let j = (n - 1) as int;
        lemma_ordered_upto_keys(fs, ids, (n - 1) as nat);
        let p = ordered_upto(fs, ids, (n - 1) as nat);
        let r = ordered_upto(fs, ids, n);
        let b = if first_pos(ids, ids[j]) == j { with_id(fs, ids[j]) } else { Seq::<(i32, StrategyFiltering)>::empty() };
        assert(r == p + b);
        lemma_with_id_all(fs, ids[j]);
        assert forall|t: int| p.len() <= t < r.len() implies first_pos(ids, (#[trigger] r[t]).0) == j by {
            assert(r[t] == b[t - p.len()]);
            assert(b[t - p.len()].0 == ids[j]);
        }
        assert forall|t: int| 0 <= t < r.len() implies first_pos(ids, (#[trigger] r[t]).0) < n by {
            if t < p.len() {
                assert(r[t] == p[t]);
            }
        }
        assert forall|t: int, u: int| 0 <= t < u < r.len() implies first_pos(ids, (#[trigger] r[t]).0) <= first_pos(
            ids,
            (#[trigger] r[u]).0,
        ) by {
            if u < p.len() {
                assert(r[t] == p[t]);
                assert(r[u] == p[u]);
            } else if t < p.len() {
                assert(r[t] == p[t]);
            }
        }
    }
}

/// The filters sorted by the request come in the request's order: the
/// filters whose group the request names come first, by the first position
/// of their group in the request, and the others after them.
pub proof fn law_ordered_by_request(fs: Seq<(i32, StrategyFiltering)>, ids: Seq<i32>)
    ensures
        ({
            let r = ordered_by(fs, ids);
            &&& forall|t: int, u: int|
                0 <= t < u < r.len() && ids.contains((#[trigger] r[u]).0) ==> ids.contains((#[trigger] r[t]).0)
                    && first_pos(ids, r[t].0) <= first_pos(ids, r[u].0)
        }),
{
    let n = ids.len();
    let o = ordered_upto(fs, ids, n);
    let w = without_ids(fs, ids);
    let r = ordered_by(fs, ids);
    lemma_ordered_upto_keys(fs, ids, n);
    lemma_without_ids_all(fs, ids);
    assert forall|t: int| 0 <= t < o.len() implies ids.contains((#[trigger] o[t]).0) by {
        lemma_first_pos_bound(ids, o[t].0);
    }
    assert forall|t: int, u: int|
        0 <= t < u < r.len() && ids.contains((#[trigger] r[u]).0) implies ids.contains((#[trigger] r[t]).0)
            && first_pos(ids, r[t].0) <= first_pos(ids, r[u].0) by {
        if u >= o.len() {
            assert(r[u] == w[u - o.len()]);
        } else {
            assert(r[u] == o[u]);
            assert(r[t] == o[t]);
        }
    }
}

proof fn lemma_empty_multiset(s: Seq<(i32, StrategyFiltering)>)
    requires
        s.len() == 0,
    ensures
        s.to_multiset() == vstd::multiset::Multiset::<(i32, StrategyFiltering)>::empty(),
{
    broadcast use vstd::multiset::group_multiset_axioms;

    s.to_multiset_ensures();
    assert forall|a: (i32, StrategyFiltering)| s.to_multiset().count(a) == 0 by {
        assert(!s.contains(a));
    }
    assert(s.to_multiset() =~= vstd::multiset::Multiset::<(i32, StrategyFiltering)>::empty());
}

proof fn lemma_without_ids_same(fs: Seq<(i32, StrategyFiltering)>, a: Seq<i32>, b: Seq<i32>)
    requires
        forall|y: i32| a.contains(y) == b.contains(y),
    ensures
        without_ids(fs, a) == without_ids(fs, b),
    decreases fs.len(),
{
    if fs.len() > 0 {
        lemma_without_ids_same(fs.drop_last(), a, b);
        assert(a.contains(fs.last().0) == b.contains(fs.last().0));
    }
}

proof fn lemma_without_no_ids(fs: Seq<(i32, StrategyFiltering)>)
    ensures
        without_ids(fs, Seq::<i32>::empty()) == fs,
    decreases fs.len(),
{
    if fs.len() > 0 {
        lemma_without_no_ids(fs.drop_last());
        assert(fs.drop_last().push(fs.last()) =~= fs);
    }
}

proof fn lemma_split_bucket(fs: Seq<(i32, StrategyFiltering)>, pre: Seq<i32>, x: i32)
    requires
        !pre.contains(x),
    ensures
        without_ids(fs, pre).to_multiset() == with_id(fs, x).to_multiset().add(without_ids(fs, pre.push(x)).to_multiset()),
    decreases fs.len(),
{
    broadcast use vstd::seq_lib::lemma_multiset_commutative;
    broadcast use vstd::multiset::group_multiset_axioms;

    if fs.len() == 0 {
        lemma_empty_multiset(fs);
        assert(without_ids(fs, pre).to_multiset() =~= with_id(fs, x).to_multiset().add(without_ids(fs, pre.push(x)).to_multiset()));
    } else {
        lemma_split_bucket(fs.drop_last(), pre, x);
        let e = fs.last();
        let a0 = without_ids(fs.drop_last(), pre);
        let b0 = with_id(fs.drop_last(), x);
        let c0 = without_ids(fs.drop_last(), pre.push(x));
        let pushed = pre.push(x);
        assert(pushed.contains(e.0) == (pre.contains(e.0) || e.0 == x)) by {
            if pushed.contains(e.0) {
                let t = choose|t: int| 0 <= t < pushed.len() && pushed[t] == e.0;
                if t < pre.len() {
                    assert(pre[t] == e.0);
                }
            }
            if pre.contains(e.0) {
                let t = choose|t: int| 0 <= t < pre.len() && pre[t] == e.0;
                assert(pushed[t] == e.0);
            }
            if e.0 == x {
                assert(pushed[pre.len() as int] == x);
            }
        }
        assert(without_ids(fs, pre).to_multiset() =~= with_id(fs, x).to_multiset().add(without_ids(fs, pre.push(x)).to_multiset()));
    }
}

proof fn lemma_ordered_perm(fs: Seq<(i32, StrategyFiltering)>, ids: Seq<i32>, n: nat)
    requires
        n <= ids.len(),
    ensures
        ordered_upto(fs, ids, n).to_multiset().add(without_ids(fs, ids.subrange(0, n as int)).to_multiset()) == fs.to_multiset(),
    decreases n,
{
    broadcast use vstd::seq_lib::lemma_multiset_commutative;
    broadcast use vstd::multiset::group_multiset_axioms;

    if n == 0 {
        assert(ids.subrange(0, 0) =~= Seq::<i32>::empty());
        lemma_without_no_ids(fs);
        lemma_empty_multiset(ordered_upto(fs, ids, 0));
        assert(ordered_upto(fs, ids, 0).to_multiset().add(fs.to_multiset()) =~= fs.to_multiset());
    } else {
        let j = (n - 1) as int;
        let x = ids[j];
        let pre = ids.subrange(0, j);
        lemma_ordered_perm(fs, ids, (n - 1) as nat);
        assert(ids.subrange(0, n as int) =~= pre.push(x));
        let prev = ordered_upto(fs, ids, (n - 1) as nat);
        if first_pos(ids, x) == j {
            lemma_first_pos_bound(ids, x);
            assert(!pre.contains(x)) by {
                if pre.contains(x) {
                    let t = choose|t: int| 0 <= t < pre.len() && pre[t] == x;
                    assert(ids[t] == x);
                }
            }
            lemma_split_bucket(fs, pre, x);
            assert(ordered_upto(fs, ids, n) == prev + with_id(fs, x));
            assert(ordered_upto(fs, ids, n).to_multiset().add(without_ids(fs, pre.push(x)).to_multiset()) =~= fs.to_multiset());
        } else {
            assert(pre.contains(x)) by {
                if !pre.contains(x) {
                    assert forall|k: int| 0 <= k < j implies ids[k] != x by {
                        if ids[k] == x {
                            assert(pre[k] == x);
                        }
                    }
                    lemma_first_pos_found(ids, j, x);
                }
            }
            assert forall|y: i32| pre.push(x).contains(y) == pre.contains(y) by {
                if pre.push(x).contains(y) {
                    let t = choose|t: int| 0 <= t < pre.push(x).len() && pre.push(x)[t] == y;
                    if t < pre.len() {
                        assert(pre[t] == y);
                    }
                }
                if pre.contains(y) {
                    let t = choose|t: int| 0 <= t < pre.len() && pre[t] == y;
                    assert(pre.push(x)[t] == y);
                }
            }
            lemma_without_ids_same(fs, pre.push(x), pre);
            assert(ordered_upto(fs, ids, n) =~= prev);
        }
    }
}

/// Sorting the filters by the request neither loses nor repeats any: the
/// result holds the same filters, as many times each.
pub proof fn law_ordered_by_permutes(fs: Seq<(i32, StrategyFiltering)>, ids: Seq<i32>)
    ensures
        ordered_by(fs, ids).to_multiset() == fs.to_multiset(),
{
    broadcast use vstd::seq_lib::lemma_multiset_commutative;

    lemma_ordered_perm(fs, ids, ids.len());
    assert(ids.subrange(0, ids.len() as int) =~= ids);
}

/// The request values name the groups of `old` in the same order, each
/// with the group's filter.
pub open spec fn restates(vals: Seq<FilterGroupingValueRequest>, old_filters: Seq<(i32, StrategyFiltering)>) -> bool {
    &&& vals.len() == old_filters.len()
    &&& forall|k: int| 0 <= k < vals.len() ==> (#[trigger] vals[k]).id == old_filters[k].0 && vals[k].filter == old_filters[k].1
}

proof fn lemma_restated_first(vals: Seq<FilterGroupingValueRequest>, o: Seq<(i32, StrategyFiltering)>, k: int)
    requires
        filter_ids_wf(o),
        restates(vals, o),
        0 <= k < o.len(),
    ensures
        first_pos(value_ids(vals), o[k].0) == k,
{
    let ids = value_ids(vals);
    assert(ids[k] == vals[k].id);
    assert forall|j: int| 0 <= j < k implies ids[j] != o[k].0 by {
        assert(ids[j] == vals[j].id);
        assert(o[j].0 != o[k].0);
    }
    lemma_first_pos_found(ids, k, o[k].0);
}

proof fn lemma_restated_kept(vals: Seq<FilterGroupingValueRequest>, o: Seq<(i32, StrategyFiltering)>, n: int)
    requires
        filter_ids_wf(o),
        restates(vals, o),
        0 <= n <= o.len(),
    ensures
        kept_filters(o.subrange(0, n), vals) == o.subrange(0, n),
    decreases n,
{
    if n > 0 {
        lemma_restated_kept(vals, o, n - 1);
        let s = o.subrange(0, n);
        assert(s.drop_last() =~= o.subrange(0, n - 1));
        assert(s.last() == o[n - 1]);
        lemma_restated_first(vals, o, n - 1);
        assert(vals[n - 1].filter == o[n - 1].1);
        assert(kept_filters(s, vals) =~= o.subrange(0, n));
    } else {
        assert(o.subrange(0, 0) =~= Seq::<(i32, StrategyFiltering)>::empty());
    }
}

proof fn lemma_restated_grown(vals: Seq<FilterGroupingValueRequest>, o: Seq<(i32, StrategyFiltering)>, c: Seq<i32>, n: int)
    requires
        filter_ids_wf(o),
        restates(vals, o),
        0 <= n <= o.len(),
    ensures
        grown_filters(vals.subrange(0, n), o, c) == (o, value_ids(vals).subrange(0, n), Seq::<String>::empty()),
    decreases n,
{
    if n > 0 {
        lemma_restated_grown(vals, o, c, n - 1);
        let s = vals.subrange(0, n);
        assert(s.drop_last() =~= vals.subrange(0, n - 1));
        assert(s.last() == vals[n - 1]);
        assert(filter_group_ids(o)[n - 1] == o[n - 1].0);
        assert(!needs_new_group(vals[n - 1], o));
        assert(value_ids(vals).subrange(0, n - 1).push(vals[n - 1].id) =~= value_ids(vals).subrange(0, n));
    } else {
        assert(vals.subrange(0, 0) =~= Seq::<FilterGroupingValueRequest>::empty());
        assert(value_ids(vals).subrange(0, 0) =~= Seq::<i32>::empty());
    }
}

proof fn lemma_with_distinct_id(o: Seq<(i32, StrategyFiltering)>, j: int, m: int)
    requires
        filter_ids_wf(o),
        0 <= j < o.len(),
        0 <= m <= o.len(),
    ensures
        with_id(o.subrange(0, m), o[j].0) == if j < m {
            seq![o[j]]
        } else {
            Seq::<(i32, StrategyFiltering)>::empty()
        },
    decreases m,
{
    if m > 0 {
        lemma_with_distinct_id(o, j, m - 1);
        let s = o.subrange(0, m);
        assert(s.drop_last() =~= o.subrange(0, m - 1));
        assert(s.last() == o[m - 1]);
        if m - 1 != j {
            assert(o[m - 1].0 != o[j].0);
        }
        assert(with_id(s, o[j].0) =~= if j < m { seq![o[j]] } else { Seq::<(i32, StrategyFiltering)>::empty() });
    } else {
        assert(o.subrange(0, 0) =~= Seq::<(i32, StrategyFiltering)>::empty());
    }
}

proof fn lemma_without_own_ids(o: Seq<(i32, StrategyFiltering)>, m: int)
    requires
        0 <= m <= o.len(),
    ensures
        without_ids(o.subrange(0, m), filter_group_ids(o)) == Seq::<(i32, StrategyFiltering)>::empty(),
    decreases m,
{
    if m > 0 {
        lemma_without_own_ids(o, m - 1);
        let s = o.subrange(0, m);
        assert(s.drop_last() =~= o.subrange(0, m - 1));
        assert(filter_group_ids(o)[m - 1] == s.last().0);
    } else {
        assert(o.subrange(0, 0) =~= Seq::<(i32, StrategyFiltering)>::empty());
    }
}

proof fn lemma_ordered_own_ids(o: Seq<(i32, StrategyFiltering)>, n: int)
    requires
        filter_ids_wf(o),
        0 <= n <= o.len(),
    ensures
        ordered_upto(o, filter_group_ids(o), n as nat) == o.subrange(0, n),
    decreases n,
{
    let ids = filter_group_ids(o);
    if n > 0 {
        lemma_ordered_own_ids(o, n - 1);
        assert(ids[n - 1] == o[n - 1].0);
        assert forall|k: int| 0 <= k < n - 1 implies ids[k] != o[n - 1].0 by {
            assert(ids[k] == o[k].0);
        }
        lemma_first_pos_found(ids, n - 1, o[n - 1].0);
        lemma_with_distinct_id(o, n - 1, o.len() as int);
        assert(o.subrange(0, o.len() as int) =~= o);
        assert(ordered_upto(o, ids, n as nat) =~= o.subrange(0, n));
    } else {
        assert(o.subrange(0, 0) =~= Seq::<(i32, StrategyFiltering)>::empty());
    }
}

/// Editing a filter grouping with a request that names its groups in the
/// same order, each with its own filter, creates no group and leaves the
/// filters as they were, whatever `create_group` would do.
pub proof fn law_edit_restating_groups<F: Fn(String) -> Result<i32, ErrorResponder>>(
    old_filters: Seq<(i32, StrategyFiltering)>,
    vals: Seq<FilterGroupingValueRequest>,
    create_group: F,
    fs: Seq<(i32, StrategyFiltering)>,
)
    requires
        filter_ids_wf(old_filters),
        restates(vals, old_filters),
    ensures
        edited_by(old_filters, vals, create_group, old_filters),
        edited_by(old_filters, vals, create_group, fs) ==> fs == old_filters,
        forall|created: Seq<i32>| #[trigger] grown_filters(vals, kept_filters(old_filters, vals), created).2.len() == 0,
{
    let n = old_filters.len() as int;
    lemma_restated_kept(vals, old_filters, n);
    assert(old_filters.subrange(0, n) =~= old_filters);
    assert(vals.subrange(0, n) =~= vals);
    let ids = filter_group_ids(old_filters);
    assert(value_ids(vals) =~= ids) by {
        assert forall|k: int| 0 <= k < n implies value_ids(vals)[k] == ids[k] by {
            assert(vals[k].id == old_filters[k].0);
        }
    }
    assert(value_ids(vals).subrange(0, n) =~= ids);
    lemma_ordered_own_ids(old_filters, n);
    lemma_without_own_ids(old_filters, n);
    assert(ordered_by(old_filters, ids) =~= old_filters);
    assert forall|created: Seq<i32>| #[trigger] grown_filters(vals, kept_filters(old_filters, vals), created)
        == (old_filters, ids, Seq::<String>::empty()) by {
        lemma_restated_grown(vals, old_filters, created, n);
    }
    let none = Seq::<i32>::empty();
    assert(grown_filters(vals, kept_filters(old_filters, vals), none) == (old_filters, ids, Seq::<String>::empty()));
    if edited_by(old_filters, vals, create_group, fs) {
        let c = choose|c: Seq<i32>|
            #![trigger grown_filters(vals, kept_filters(old_filters, vals), c)]
            {
                let g = grown_filters(vals, kept_filters(old_filters, vals), c);
                &&& g.2.len() == c.len()
                &&& forall|k: int| 0 <= k < c.len() ==> create_group.ensures((g.2[k],), Ok::<i32, ErrorResponder>(#[trigger] c[k]))
                &&& fs == ordered_by(g.0, g.1)
            };
        assert(grown_filters(vals, kept_filters(old_filters, vals), c) == (old_filters, ids, Seq::<String>::empty()));
    }
}

/// The first position of `x` among the ids of the values.
fn find_value(vals: &Vec<FilterGroupingValueRequest>, x: i32) -> (r: usize)
    ensures
        r == first_pos(value_ids(vals@), x),
        r <= vals@.len(),
{
    let ghost ids = value_ids(vals@);
    let mut i: usize = 0;
    while i < vals.len()
        invariant
            i <= vals@.len(),
            ids == value_ids(vals@),
            forall|k: int| 0 <= k < i ==> ids[k] != x,
        decreases vals.len() - i,
    {
        if vals[i].id == x {
            proof {
                lemma_first_pos_found(ids, i as int, x);
            }
            return i;
        }
        i = i + 1;
    }
    proof {
        lemma_first_pos_absent(ids, x);
    }
    i
}

impl FilterGrouping {
    /// The changes that editing the grouping by `request` makes to the
    /// groups of its filters, filter by filter: a group that a request
    /// value names is renamed after the first such value, any other one is
    /// to be deleted.
    pub fn group_changes(&self, request: &FilterGroupingRequest) -> (r: Vec<GroupChange>)
        ensures
            r@ == group_changes_of(self.filters@, request.filters@),
    {
        let mut r: Vec<GroupChange> = Vec::new();
        let mut i: usize = 0;
        while i < self.filters.len()
            invariant
                i <= self.filters@.len(),
                r@.len() == i,
                forall|k: int|
                    0 <= k < i ==> #[trigger] r@[k] == group_change_of(self.filters@[k], request.filters@),
            decreases self.filters.len() - i,
        {
            let id = self.filters[i].0;
            let p = find_value(&request.filters, id);
            if p < request.filters.len() {
                r.push(GroupChange::Rename(id, request.filters[p].name.clone()));
            } else {
                r.push(GroupChange::MarkDeleted(id));
            }
            i = i + 1;
        }
        assert(r@ =~= group_changes_of(self.filters@, request.filters@));
        r
    }
}

proof fn lemma_kept_ids(o: Seq<(i32, StrategyFiltering)>, vals: Seq<FilterGroupingValueRequest>, x: i32)
    requires
        filter_group_ids(kept_filters(o, vals)).contains(x),
    ensures
        exists|k: int| 0 <= k < o.len() && (#[trigger] o[k]).0 == x,
    decreases o.len(),
{
    let kf = kept_filters(o, vals);
    let t = choose|t: int| 0 <= t < filter_group_ids(kf).len() && filter_group_ids(kf)[t] == x;
    assert(kf[t].0 == x);
    let prev = kept_filters(o.drop_last(), vals);
    if t < prev.len() {
        assert(kf[t] == prev[t]);
        assert(filter_group_ids(prev)[t] == x);
        lemma_kept_ids(o.drop_last(), vals, x);
        let k = choose|k: int| 0 <= k < o.drop_last().len() && (#[trigger] o.drop_last()[k]).0 == x;
        assert(o[k] == o.drop_last()[k]);
    } else {
        assert(o[o.len() - 1].0 == x);
    }
}

proof fn lemma_grown_used(vals: Seq<FilterGroupingValueRequest>, fs0: Seq<(i32, StrategyFiltering)>, c: Seq<i32>)
    ensures
        grown_filters(vals, fs0, c).2.len() <= vals.len(),
        grown_filters(vals, fs0, c).1.len() == vals.len(),
        vals.len() > 0 ==> grown_filters(vals.drop_last(), fs0, c).2.len() <= grown_filters(vals, fs0, c).2.len(),
    decreases vals.len(),
{
    if vals.len() > 0 {
        lemma_grown_used(vals.drop_last(), fs0, c);
    }
}

proof fn lemma_grown_extend(
    vals: Seq<FilterGroupingValueRequest>,
    fs0: Seq<(i32, StrategyFiltering)>,
    c1: Seq<i32>,
    c2: Seq<i32>,
)
    requires
        c1.len() <= c2.len(),
        c2.subrange(0, c1.len() as int) == c1,
        grown_filters(vals, fs0, c1).2.len() <= c1.len(),
    ensures
        grown_filters(vals, fs0, c1) == grown_filters(vals, fs0, c2),
    decreases vals.len(),
{
    if vals.len() > 0 {
        lemma_grown_used(vals, fs0, c1);
        lemma_grown_extend(vals.drop_last(), fs0, c1, c2);
        let prev = grown_filters(vals.drop_last(), fs0, c1);
        if needs_new_group(vals.last(), prev.0) {
            assert(prev.2.len() < c1.len());
            assert(c1[prev.2.len() as int] == c2.subrange(0, c1.len() as int)[prev.2.len() as int]);
        }
    }
}

/// Whether one of the filters has the group id `x`.
fn has_group(fs: &Vec<(i32, StrategyFiltering)>, x: i32) -> (r: bool)
    ensures
        r == filter_group_ids(fs@).contains(x),
{
    let mut i: usize = 0;
    while i < fs.len()
        invariant
            i <= fs@.len(),
            forall|k: int| 0 <= k < i ==> fs@[k].0 != x,
        decreases fs.len() - i,
    {
        if fs[i].0 == x {
            assert(filter_group_ids(fs@)[i as int] == x);
            return true;
        }
        i = i + 1;
    }
    proof {
        if filter_group_ids(fs@).contains(x) {
            let t = choose|t: int| 0 <= t < filter_group_ids(fs@).len() && filter_group_ids(fs@)[t] == x;
            assert(fs@[t].0 == x);
        }
    }
    false
}

/// The first position of `x` in `ids`.
fn find_id(ids: &Vec<i32>, x: i32) -> (r: usize)
    ensures
        r == first_pos(ids@, x),
{
    let mut i: usize = 0;
    while i < ids.len()
        invariant
            i <= ids@.len(),
            forall|k: int| 0 <= k < i ==> ids@[k] != x,
        decreases ids.len() - i,
    {
        if ids[i] == x {
            proof {
                lemma_first_pos_found(ids@, i as int, x);
            }
            return i;
        }
        i = i + 1;
    }
    proof {
        lemma_first_pos_absent(ids@, x);
    }
    i
}

/// A request value that holds nothing, left where a value was taken out.
fn empty_value() -> (r: FilterGroupingValueRequest)
    ensures
        r.id == 0,
        r.name@ == Seq::<char>::empty(),
        r.filter matches StrategyFiltering::And(fs) && fs@.len() == 0,
{
    FilterGroupingValueRequest { id: 0, name: String::new(), filter: StrategyFiltering::And(Box::new(Vec::new())) }
}

/// Sorts the filters, stably, by the first position of their group id in
/// `ids`, those whose id is not there last.
fn order_filters(fs: Vec<(i32, StrategyFiltering)>, ids: &Vec<i32>) -> (r: Vec<(i32, StrategyFiltering)>)
    ensures
        r@ == ordered_by(fs@, ids@),
{
    let ghost gfs = fs@;
    let ghost gids = ids@;
    let m = fs.len();
    let mut slots: Vec<Option<(i32, StrategyFiltering)>> = Vec::new();
    let mut k: usize = 0;
    while k < m
        invariant
            k <= m,
            slots@.len() == k,
            forall|k2: int| 0 <= k2 < k ==> #[trigger] slots@[k2] is None,
        decreases m - k,
    {
        slots.push(None);
        k = k + 1;
    }
    let mut rest = fs;
    while rest.len() > 0
        invariant
            rest.len() <= m,
            m == gfs.len(),
            slots@.len() == m,
            rest@ == gfs.subrange(0, rest@.len() as int),
            forall|k2: int| 0 <= k2 < m ==> #[trigger] slots@[k2] == if k2 < rest@.len() { None } else { Some(gfs[k2]) },
        decreases rest.len(),
    {
        let last = rest.len() - 1;
        let x = rest.pop();
        match x {
            Some(x) => {
                slots.set(last, Some(x));
            },
            None => {},
        }
        assert(rest@ =~= gfs.subrange(0, rest@.len() as int));
    }
    let mut r: Vec<(i32, StrategyFiltering)> = Vec::new();
    let mut j: usize = 0;
    while j < ids.len()
        invariant
            j <= gids.len(),
            gids == ids@,
            m == gfs.len(),
            slots@.len() == m,
            r@ == ordered_upto(gfs, gids, j as nat),
            forall|k2: int|
                0 <= k2 < m ==> #[trigger] slots@[k2] == if gids.subrange(0, j as int).contains(gfs[k2].0) {
                    None
                } else {
                    Some(gfs[k2])
                },
        decreases ids.len() - j,
    {
        let x = ids[j];
        let ghost seen = gids.subrange(0, j as int).contains(x);
        let ghost r0 = r@;
        let mut i: usize = 0;
        while i < m
            invariant
                i <= m,
                j < gids.len(),
                gids == ids@,
                x == gids[j as int],
                m == gfs.len(),
                slots@.len() == m,
                seen == gids.subrange(0, j as int).contains(x),
                r0 == ordered_upto(gfs, gids, j as nat),
                r@ == r0 + if seen { Seq::<(i32, StrategyFiltering)>::empty() } else { with_id(gfs.subrange(0, i as int), x) },
                forall|k2: int|
                    0 <= k2 < m ==> #[trigger] slots@[k2] == if gids.subrange(0, j as int).contains(gfs[k2].0) || (k2 < i
                        && gfs[k2].0 == x) {
                        None
                    } else {
                        Some(gfs[k2])
                    },
            decreases m - i,
        {
            assert(gfs.subrange(0, i + 1).drop_last() =~= gfs.subrange(0, i as int));
            let matches = match &slots[i] {
                Some(e) => e.0 == x,
                None => false,
            };
            if matches {
                let mut taken: Option<(i32, StrategyFiltering)> = None;
                slots.set_and_swap(i, &mut taken);
                match taken {
                    Some(e) => {
                        r.push(e);
                    },
                    None => {},
                }
            }
            proof {
                if seen {
                    if gfs[i as int].0 == x {
                        assert(slots@[i as int] is None);
                    }
                }
                assert(r@ =~= r0 + if seen { Seq::<(i32, StrategyFiltering)>::empty() } else { with_id(gfs.subrange(0, i + 1), x) });
            }
            i = i + 1;
        }
        proof {
            assert(gfs.subrange(0, m as int) =~= gfs);
            let s1 = gids.subrange(0, j + 1);
            assert forall|y: i32| s1.contains(y) <==> (gids.subrange(0, j as int).contains(y) || y == x) by {
                if s1.contains(y) {
                    let t = choose|t: int| 0 <= t < s1.len() && s1[t] == y;
                    if t < j {
                        assert(gids.subrange(0, j as int)[t] == y);
                    }
                }
                if gids.subrange(0, j as int).contains(y) {
                    let t = choose|t: int| 0 <= t < j && gids.subrange(0, j as int)[t] == y;
                    assert(s1[t] == y);
                }
                if y == x {
                    assert(s1[j as int] == y);
                }
            }
            if seen {
                let t = choose|t: int| 0 <= t < j && gids.subrange(0, j as int)[t] == x;
                lemma_first_pos_earlier(gids, j as int, t);
            } else {
                assert forall|t: int| 0 <= t < j implies gids[t] != x by {
                    if gids[t] == x {
                        assert(gids.subrange(0, j as int)[t] == x);
                    }
                }
                lemma_first_pos_found(gids, j as int, x);
            }
            assert(r@ =~= ordered_upto(gfs, gids, (j + 1) as nat));
        }
        j = j + 1;
    }
    let ghost r1 = r@;
    assert(gids.subrange(0, gids.len() as int) =~= gids);
    let mut i: usize = 0;
    while i < m
        invariant
            i <= m,
            m == gfs.len(),
            slots@.len() == m,
            r1 == ordered_upto(gfs, gids, gids.len()),
            r@ == r1 + without_ids(gfs.subrange(0, i as int), gids),
            forall|k2: int|
                0 <= k2 < m ==> #[trigger] slots@[k2] == if gids.contains(gfs[k2].0) || k2 < i { None } else { Some(gfs[k2]) },
        decreases m - i,
    {
        assert(gfs.subrange(0, i + 1).drop_last() =~= gfs.subrange(0, i as int));
        let mut taken: Option<(i32, StrategyFiltering)> = None;
        slots.set_and_swap(i, &mut taken);
        match taken {
            Some(e) => {
                r.push(e);
            },
            None => {},
        }
        assert(r@ =~= r1 + without_ids(gfs.subrange(0, i + 1), gids));
        i = i + 1;
    }
    assert(gfs.subrange(0, m as int) =~= gfs);
    r
}

impl FilterGrouping {
    /// Edits the grouping to follow a request, as the groups' changes of
    /// [`FilterGrouping::group_changes`] leave them: the filters of the
    /// groups the request names take the filters of its first values with
    /// those ids, those of the other groups go, and each request value that
    /// names no group of the grouping gets a new group from `create_group`,
    /// called with its name. The filters are then in the order of the
    /// request. It returns the changes to make to the stored groups: the
    /// kept ones are renamed after the request, the others are to be
    /// deleted. When `create_group` fails, its error is returned.
    pub fn edit<F: Fn(String) -> Result<i32, ErrorResponder>>(
        &mut self,
        request: FilterGroupingRequest,
        create_group: F,
    ) -> (r: Result<Vec<GroupChange>, ErrorResponder>)
        requires
            filter_ids_wf(old(self).filters@),
            forall|name: String| create_group.requires((name,)),
        ensures
            final(self).other_group_id == old(self).other_group_id,
            r is Ok ==> edited_by(old(self).filters@, request.filters@, create_group, final(self).filters@),
            r matches Ok(changes) ==> changes@ == group_changes_of(old(self).filters@, request.filters@),
            r matches Err(e) ==> failed_with(create_group, e),
    {
        let changes = self.group_changes(&request);
        let ghost old_self = *self;
        let ghost orig = request.filters@;
        let mut vals = request.filters;
        let n = vals.len();
        let mut ids: Vec<i32> = Vec::new();
        let mut j: usize = 0;
        while j < n
            invariant
                j <= n,
                n == orig.len(),
                vals@ == orig,
                ids@ == value_ids(orig).subrange(0, j as int),
            decreases n - j,
        {
            ids.push(vals[j].id);
            assert(ids@ =~= value_ids(orig).subrange(0, j + 1));
            j = j + 1;
        }
        assert(ids@ =~= value_ids(orig));
        let mut old_filters: Vec<(i32, StrategyFiltering)> = Vec::new();
        std::mem::swap(&mut old_filters, &mut self.filters);
        let ghost old_fs = old_filters@;
        assert(old_fs == old_self.filters@);
        let mut fs: Vec<(i32, StrategyFiltering)> = Vec::new();
        let mut i: usize = 0;
        while i < old_filters.len()
            invariant
                i <= old_fs.len(),
                old_fs == old_filters@,
                filter_ids_wf(old_fs),
                n == orig.len(),
                vals@.len() == n,
                ids@ == value_ids(orig),
                fs@ == kept_filters(old_fs.subrange(0, i as int), orig),
                forall|j2: int|
                    0 <= j2 < n ==> #[trigger] vals@[j2] == orig[j2] || (orig[j2].id > 0 && filter_group_ids(fs@).contains(
                        orig[j2].id,
                    )),
            decreases old_fs.len() - i,
        {
            let id = old_filters[i].0;
            let p = find_id(&ids, id);
            proof {
                lemma_first_pos_bound(ids@, id);
                assert(old_fs.subrange(0, i + 1).drop_last() =~= old_fs.subrange(0, i as int));
                assert(old_fs.subrange(0, i + 1).last() == old_fs[i as int]);
            }
            if p < n {
                proof {
                    assert(orig[p as int].id == id);
                    if vals@[p as int] != orig[p as int] {
                        lemma_kept_ids(old_fs.subrange(0, i as int), orig, id);
                        let k = choose|k: int| 0 <= k < i && (#[trigger] old_fs.subrange(0, i as int)[k]).0 == id;
                        assert(old_fs[k].0 == old_fs[i as int].0);
                    }
                }
                let mut taken = empty_value();
                vals.set_and_swap(p, &mut taken);
                let ghost fs_before = fs@;
                fs.push((id, taken.filter));
                proof {
                    assert forall|x: i32| filter_group_ids(fs_before).contains(x) implies filter_group_ids(fs@).contains(x) by {
                        let t = choose|t: int| 0 <= t < filter_group_ids(fs_before).len() && filter_group_ids(fs_before)[t] == x;
                        assert(filter_group_ids(fs@)[t] == x);
                    }
                    assert(filter_group_ids(fs@)[fs_before.len() as int] == id);
                }
            }
            i = i + 1;
        }
        assert(old_fs.subrange(0, old_fs.len() as int) =~= old_fs);
        let ghost fs0 = fs@;
        let ghost mut created: Seq<i32> = Seq::empty();
        let mut fids: Vec<i32> = Vec::new();
        let mut j: usize = 0;
        while j < n
            invariant
                j <= n,
                n == orig.len(),
                vals@.len() == n,
                ids@ == value_ids(orig),
                forall|name: String| create_group.requires((name,)),
                fs0 == kept_filters(old_self.filters@, orig),
                ({
                    let g = grown_filters(orig.subrange(0, j as int), fs0, created);
                    &&& fs@ == g.0
                    &&& fids@ == g.1
                    &&& g.2.len() == created.len()
                    &&& forall|k: int|
                        0 <= k < created.len() ==> create_group.ensures((g.2[k],), Ok::<i32, ErrorResponder>(#[trigger] created[k]))
                }),
                forall|j2: int|
                    j <= j2 < n ==> #[trigger] vals@[j2] == orig[j2] || (orig[j2].id > 0 && filter_group_ids(fs@).contains(
                        orig[j2].id,
                    )),
                self.other_group_id == old_self.other_group_id,
                old_self == *old(self),
            decreases n - j,
        {
            let ghost g = grown_filters(orig.subrange(0, j as int), fs0, created);
            assert(orig.subrange(0, j + 1).drop_last() =~= orig.subrange(0, j as int));
            assert(orig.subrange(0, j + 1).last() == orig[j as int]);
            let id_j = ids[j];
            if id_j <= 0 || !has_group(&fs, id_j) {
                assert(vals@[j as int] == orig[j as int]);
                let name = vals[j].name.clone();
                let ghost gname = name;
                match create_group(name) {
                    Ok(new_id) => {
                        let mut taken = empty_value();
                        vals.set_and_swap(j, &mut taken);
                        let ghost fs_before = fs@;
                        fs.push((new_id, taken.filter));
                        fids.push(new_id);
                        proof {
                            let c2 = created.push(new_id);
                            assert(c2.subrange(0, created.len() as int) =~= created);
                            lemma_grown_extend(orig.subrange(0, j as int), fs0, created, c2);
                            created = c2;
                            let g2 = grown_filters(orig.subrange(0, j + 1), fs0, created);
                            assert(g2.0 =~= fs@);
                            assert(g2.1 =~= fids@);
                            assert forall|x: i32| filter_group_ids(fs_before).contains(x) implies filter_group_ids(fs@).contains(x) by {
                                let t = choose|t: int| 0 <= t < filter_group_ids(fs_before).len() && filter_group_ids(fs_before)[t] == x;
                                assert(filter_group_ids(fs@)[t] == x);
                            }
                            assert forall|k: int| 0 <= k < created.len() implies create_group.ensures((g2.2[k],), Ok::<i32, ErrorResponder>(#[trigger] created[k])) by {
                                if k < created.len() - 1 {
                                    assert(g2.2[k] == g.2[k]);
                                }
                            }
                        }
                    },
                    Err(e) => {
                        assert(create_group.ensures((gname,), Err::<i32, ErrorResponder>(e)));
                        self.filters = fs;
                        return Err(e);
                    },
                }
            } else {
                fids.push(id_j);
                proof {
                    let g2 = grown_filters(orig.subrange(0, j + 1), fs0, created);
                    assert(g2.1 =~= fids@);
                }
            }
            j = j + 1;
        }
        assert(orig.subrange(0, n as int) =~= orig);
        self.filters = order_filters(fs, &fids);
        Ok(changes)
    }
}

/// One filter per request value, in order, the k-th with the group
/// `created[k]`.
pub open spec fn created_filters(vals: Seq<FilterGroupingValueRequest>, created: Seq<i32>) -> Seq<(i32, StrategyFiltering)> {
    Seq::new(vals.len(), |k: int| (created[k], vals[k].filter))
}

impl FilterGrouping {
    /// A grouping with one new group per request value, made by
    /// `create_group` under the value's name, in order, and no other
    /// group. When `create_group` fails, its error is returned.
    pub fn create<F: Fn(String) -> Result<i32, ErrorResponder>>(request: FilterGroupingRequest, create_group: F) -> (r: Result<
        FilterGrouping,
        ErrorResponder,
    >)
        requires
            forall|name: String| create_group.requires((name,)),
        ensures
            r matches Ok(g) ==> g.other_group_id is None && created_by(request.filters@, create_group, g.filters@),
            r matches Err(e) ==> failed_with(create_group, e),
    {
        let ghost orig = request.filters@;
        let mut vals = request.filters;
        let n = vals.len();
        let mut filters: Vec<(i32, StrategyFiltering)> = Vec::new();
        let ghost mut created: Seq<i32> = Seq::empty();
        let mut j: usize = 0;
        while j < n
            invariant
                j <= n,
                n == orig.len(),
                vals@.len() == n,
                forall|j2: int| j <= j2 < n ==> #[trigger] vals@[j2] == orig[j2],
                forall|name: String| create_group.requires((name,)),
                created.len() == j,
                forall|k: int|
                    0 <= k < j ==> create_group.ensures((orig[k].name,), Ok::<i32, ErrorResponder>(#[trigger] created[k])),
                filters@ == created_filters(orig.subrange(0, j as int), created),
            decreases n - j,
        {
            let name = vals[j].name.clone();
            let ghost gname = name;
            match create_group(name) {
                Ok(id) => {
                    let mut taken = empty_value();
                    vals.set_and_swap(j, &mut taken);
                    filters.push((id, taken.filter));
                    proof {
                        created = created.push(id);
                        assert(filters@ =~= created_filters(orig.subrange(0, j + 1), created));
                    }
                },
                Err(e) => {
                    assert(create_group.ensures((gname,), Err::<i32, ErrorResponder>(e)));
                    return Err(e);
                },
            }
            j = j + 1;
        }
        assert(orig.subrange(0, n as int) =~= orig);
        Ok(FilterGrouping { filters, other_group_id: None })
    }
}

} // verus!
