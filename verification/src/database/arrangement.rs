use vstd::prelude::*;
use crate::grouping::arrangement_strategy::{
    ArrangementStrategy, strategy_dependant_groups, strategy_groups_dependant, strategy_tags_dependant,
    strategy_exif_dependant,
};
use crate::grouping::strategy_grouping::{lists_groups, listed_groups};
use crate::utils::utils::copy_i32s;

verus! {

/// An arrangement of a user: a way to sort pictures into groups.
#[derive(Debug, Clone, PartialEq)]
pub struct Arrangement {
    pub id: i32,
    pub user_id: i32,
    pub name: String,
    pub strong_match_conversion: bool,
    /// The serialized strategy; `None` for a manual arrangement.
    pub strategy: Option<Vec<u8>>,
    pub groups_dependant: bool,
    pub tags_dependant: bool,
    pub exif_dependant: bool,
}

/// An arrangement together with its strategy and dependencies.
#[derive(Debug, Clone)]
pub struct ArrangementDetails {
    pub arrangement: Arrangement,
    pub strategy: ArrangementStrategy,
    /// Ids of the groups on which this arrangement's strategy depends.
    pub dependant_groups: Vec<i32>,
    /// Ids of the arrangements on which this arrangement depends.
    pub dependant_arrangements: Vec<i32>,
    /// Ids of the groups of this arrangement.
    pub groups: Vec<i32>,
}

/// The groups of an arrangement include one of `deps`.
pub open spec fn has_group_in(a: ArrangementDetails, deps: Seq<i32>) -> bool {
    exists|g: i32| #[trigger] a.groups@.contains(g) && deps.contains(g)
}

/// The ids, in order, of the arrangements of `all` that own one of the groups `deps`.
pub open spec fn arrangements_owning(all: Seq<ArrangementDetails>, deps: Seq<i32>) -> Seq<i32>
    decreases all.len(),
{
    if all.len() == 0 {
        Seq::empty()
    } else {
        arrangements_owning(all.drop_last(), deps) + if has_group_in(all.last(), deps) {
            seq![all.last().arrangement.id]
        } else {
            Seq::empty()
        }
    }
}

/// Whether one of the ids of `v` occurs in `w`.
fn any_in(v: &Vec<i32>, w: &Vec<i32>) -> (r: bool)
    ensures
        r == exists|g: i32| v@.contains(g) && w@.contains(g),
{
    let mut i: usize = 0;
    while i < v.len()
        invariant
            i <= v.len(),
            forall|k: int| 0 <= k < i ==> !w@.contains(#[trigger] v@[k]),
        decreases v.len() - i,
    {
        let mut j: usize = 0;
        while j < w.len()
            invariant
                i < v.len(),
                j <= w.len(),
                forall|k: int| 0 <= k < j ==> w@[k] != v@[i as int],
            decreases w.len() - j,
        {
            if w[j] == v[i] {
                assert(v@.contains(v@[i as int]) && w@.contains(v@[i as int]));
                return true;
            }
            j = j + 1;
        }
        i = i + 1;
    }
    proof {
        assert forall|g: i32| v@.contains(g) implies !w@.contains(g) by {
            let k = choose|k: int| 0 <= k < v@.len() && v@[k] == g;
            assert(!w@.contains(v@[k]));
        }
    }
    false
}

impl Arrangement {
    /// A new arrangement of the user with a strategy, given also in its
    /// serialized form, not stored yet (its id is 0): its kinds of
    /// dependency are those of the strategy.
    pub fn new(
        user_id: i32,
        name: String,
        strong_match_conversion: bool,
        strategy: &ArrangementStrategy,
        strategy_bytes: Vec<u8>,
    ) -> (r: Arrangement)
        ensures
            r.id == 0,
            r.user_id == user_id,
            r.name == name,
            r.strong_match_conversion == strong_match_conversion,
            r.strategy == Some(strategy_bytes),
            r.groups_dependant == strategy_groups_dependant(*strategy),
            r.tags_dependant == strategy_tags_dependant(*strategy),
            r.exif_dependant == strategy_exif_dependant(*strategy),
    {
        Arrangement {
            id: 0,
            user_id,
            name,
            strong_match_conversion,
            strategy: Some(strategy_bytes),
            groups_dependant: strategy.is_groups_dependant(),
            tags_dependant: strategy.is_tags_dependant(),
            exif_dependant: strategy.is_exif_dependant(),
        }
    }
}

impl ArrangementDetails {
    /// The details of an arrangement that has a strategy: the groups of
    /// its strategy, the groups the strategy depends on, and no dependant
    /// arrangement yet.
    pub fn new(arrangement: Arrangement, strategy: ArrangementStrategy) -> (r: ArrangementDetails)
        requires
            lists_groups(strategy.groupings),
        ensures
            r.arrangement == arrangement,
            r.strategy == strategy,
            listed_groups(strategy.groupings, r.groups@),
            r.dependant_groups@ == strategy_dependant_groups(strategy),
            r.dependant_arrangements@ == Seq::<i32>::empty(),
    {
        let groups = strategy.groupings.get_groups();
        let dependant_groups = strategy.get_dependant_groups();
        ArrangementDetails { arrangement, strategy, dependant_groups, dependant_arrangements: Vec::new(), groups }
    }

    /// Sets the arrangements this one depends on: those of
    /// `all_arrangements_details`, in order, that own one of the groups its
    /// strategy depends on.
    pub fn set_dependant_arrangements_auto(&mut self, all_arrangements_details: &Vec<ArrangementDetails>)
        ensures
            final(self).arrangement == old(self).arrangement,
            final(self).strategy == old(self).strategy,
            final(self).dependant_groups == old(self).dependant_groups,
            final(self).groups == old(self).groups,
            final(self).dependant_arrangements@ == arrangements_owning(all_arrangements_details@, old(self).dependant_groups@),
    {
        let ids = owning_ids(all_arrangements_details, &self.dependant_groups);
        self.dependant_arrangements = ids;
    }
}

/// The arrangements that have a strategy, in order, each with its strategy.
pub open spec fn with_strategy(a: Seq<Arrangement>, s: Seq<Option<ArrangementStrategy>>) -> Seq<(Arrangement, ArrangementStrategy)>
    decreases s.len(),
{
    if s.len() == 0 || a.len() == 0 {
        Seq::empty()
    } else {
        with_strategy(a.drop_last(), s.drop_last()) + match s.last() {
            Some(x) => seq![(a.last(), x)],
            None => Seq::empty(),
        }
    }
}

/// The details of the arrangements that have a strategy, in order, each
/// with the arrangements it depends on among them. `strategies[i]` is the
/// strategy read from `arrangements[i]`, `None` for a manual arrangement.
pub fn list_arrangements_and_groups(arrangements: Vec<Arrangement>, strategies: Vec<Option<ArrangementStrategy>>) -> (r: Vec<ArrangementDetails>)
    requires
        arrangements@.len() == strategies@.len(),
        forall|i: int| 0 <= i < strategies@.len() && #[trigger] strategies@[i] is Some ==> lists_groups(strategies@[i]->Some_0.groupings),
    ensures
        r@.len() == with_strategy(arrangements@, strategies@).len(),
        forall|i: int| 0 <= i < r@.len() ==> (#[trigger] r@[i].arrangement, r@[i].strategy) == with_strategy(arrangements@, strategies@)[i],
        forall|i: int| 0 <= i < r@.len() ==> #[trigger] r@[i].dependant_arrangements@ == arrangements_owning(r@, r@[i].dependant_groups@),
        forall|i: int| 0 <= i < r@.len() ==> listed_groups(r@[i].strategy.groupings, #[trigger] r@[i].groups@),
        forall|i: int| 0 <= i < r@.len() ==> #[trigger] r@[i].dependant_groups@ == strategy_dependant_groups(r@[i].strategy),
{
    let mut details: Vec<ArrangementDetails> = Vec::new();
    let mut strategies = strategies;
    let mut arrangements = arrangements;
    let ghost s0 = strategies@;
    let ghost a0 = arrangements@;
    while strategies.len() > 0
        invariant
            strategies@.len() == arrangements@.len(),
            strategies@.len() <= s0.len(),
            a0.len() == s0.len(),
            strategies@ == s0.subrange(s0.len() - strategies@.len(), s0.len() as int),
            arrangements@ == a0.subrange(a0.len() - arrangements@.len(), a0.len() as int),
            details@.len() == with_strategy(a0.subrange(0, a0.len() - arrangements@.len()), s0.subrange(0, s0.len() - strategies@.len())).len(),
            forall|i: int| 0 <= i < details@.len() ==> (#[trigger] details@[i].arrangement, details@[i].strategy)
                == with_strategy(a0.subrange(0, a0.len() - arrangements@.len()), s0.subrange(0, s0.len() - strategies@.len()))[i],
            forall|i: int| 0 <= i < s0.len() && #[trigger] s0[i] is Some ==> lists_groups(s0[i]->Some_0.groupings),
            forall|i: int| 0 <= i < details@.len() ==> listed_groups(details@[i].strategy.groupings, #[trigger] details@[i].groups@),
            forall|i: int| 0 <= i < details@.len() ==> #[trigger] details@[i].dependant_groups@ == strategy_dependant_groups(details@[i].strategy),
        decreases strategies.len(),
    {
        let ghost c = s0.len() - strategies@.len();
        let ghost prev = with_strategy(a0.subrange(0, c), s0.subrange(0, c));
        let s = strategies.remove(0);
        let a = arrangements.remove(0);
        assert(s == s0[c] && a == a0[c]);
        assert(s0.subrange(0, c + 1).drop_last() =~= s0.subrange(0, c));
        assert(a0.subrange(0, c + 1).drop_last() =~= a0.subrange(0, c));
        if let Some(strategy) = s {
            let ghost before = details@;
            details.push(ArrangementDetails::new(a, strategy));
            proof {
                assert(with_strategy(a0.subrange(0, c + 1), s0.subrange(0, c + 1)) == prev.push((a0[c], strategy)));
                assert forall|i: int| 0 <= i < details@.len() implies (#[trigger] details@[i].arrangement, details@[i].strategy)
                    == prev.push((a0[c], strategy))[i] by {
                    if i < before.len() {
                        assert(details@[i] == before[i]);
                    }
                }
                assert forall|i: int| 0 <= i < details@.len() implies listed_groups(details@[i].strategy.groupings, #[trigger] details@[i].groups@) by {
                    if i < before.len() {
                        assert(details@[i] == before[i]);
                    }
                }
                assert forall|i: int| 0 <= i < details@.len() implies #[trigger] details@[i].dependant_groups@
                    == strategy_dependant_groups(details@[i].strategy) by {
                    if i < before.len() {
                        assert(details@[i] == before[i]);
                    }
                }
            }
        } else {
            assert(with_strategy(a0.subrange(0, c + 1), s0.subrange(0, c + 1)) =~= prev);
        }
        assert(strategies@ =~= s0.subrange(s0.len() - strategies@.len(), s0.len() as int));
        assert(arrangements@ =~= a0.subrange(a0.len() - arrangements@.len(), a0.len() as int));
    }
    assert(s0.subrange(0, s0.len() as int) =~= s0);
    assert(a0.subrange(0, a0.len() as int) =~= a0);
    let r = link_dependant_arrangements(details);
    proof {
        assert forall|i: int| 0 <= i < r@.len() implies listed_groups(r@[i].strategy.groupings, #[trigger] r@[i].groups@) by {
            assert(r@[i].arrangement == details@[i].arrangement);
        }
        assert forall|i: int| 0 <= i < r@.len() implies #[trigger] r@[i].dependant_groups@
            == strategy_dependant_groups(r@[i].strategy) by {
            assert(r@[i].arrangement == details@[i].arrangement);
        }
        assert forall|i: int| 0 <= i < r@.len() implies (#[trigger] r@[i].arrangement, r@[i].strategy)
            == with_strategy(a0, s0)[i] by {
            assert(r@[i].arrangement == details@[i].arrangement);
        }
    }
    r
}

/// The ids of the arrangements that own a group depend only on their
/// ids and groups.
proof fn lemma_owning_same_groups(a: Seq<ArrangementDetails>, b: Seq<ArrangementDetails>, deps: Seq<i32>)
    requires
        a.len() == b.len(),
        forall|i: int| #![trigger a[i]] 0 <= i < a.len() ==> a[i].arrangement.id == b[i].arrangement.id && a[i].groups == b[i].groups,
    ensures
        arrangements_owning(a, deps) == arrangements_owning(b, deps),
    decreases a.len(),
{
    if a.len() > 0 {
        lemma_owning_same_groups(a.drop_last(), b.drop_last(), deps);
        let k = a.len() - 1;
        assert(a[k].arrangement.id == b[k].arrangement.id && a[k].groups == b[k].groups);
        assert(has_group_in(a.last(), deps) == has_group_in(b.last(), deps));
    }
}

/// The ids, in order, of the arrangements of `all` that own one of the groups `deps`.
fn owning_ids(all: &Vec<ArrangementDetails>, deps: &Vec<i32>) -> (r: Vec<i32>)
    ensures
        r@ == arrangements_owning(all@, deps@),
{
    let mut ids: Vec<i32> = Vec::new();
    let mut i: usize = 0;
    while i < all.len()
        invariant
            i <= all.len(),
            ids@ == arrangements_owning(all@.subrange(0, i as int), deps@),
        decreases all.len() - i,
    {
        let ghost prefix = all@.subrange(0, i + 1);
        assert(prefix.drop_last() =~= all@.subrange(0, i as int));
        assert(prefix.last() == all@[i as int]);
        if any_in(&all[i].groups, deps) {
            ids.push(all[i].arrangement.id);
        }
        i = i + 1;
    }
    assert(all@.subrange(0, all@.len() as int) =~= all@);
    ids
}

/// Sets the dependant arrangements of each arrangement of the list, among
/// the arrangements of the list.
pub fn link_dependant_arrangements(arrangements: Vec<ArrangementDetails>) -> (r: Vec<ArrangementDetails>)
    ensures
        r@.len() == arrangements@.len(),
        forall|i: int| 0 <= i < r@.len() ==> #[trigger] r@[i].arrangement == arrangements@[i].arrangement
            && r@[i].strategy == arrangements@[i].strategy && r@[i].groups == arrangements@[i].groups
            && r@[i].dependant_groups == arrangements@[i].dependant_groups,
        forall|i: int| 0 <= i < r@.len() ==> #[trigger] r@[i].dependant_arrangements@
            == arrangements_owning(r@, r@[i].dependant_groups@),
{
    let ghost a0 = arrangements@;
    let mut lists: Vec<Vec<i32>> = Vec::new();
    let mut i: usize = 0;
    while i < arrangements.len()
        invariant
            i <= arrangements.len(),
            a0 == arrangements@,
            lists@.len() == i,
            forall|k: int| 0 <= k < i ==> #[trigger] lists@[k]@ == arrangements_owning(a0, a0[k].dependant_groups@),
        decreases arrangements.len() - i,
    {
        let l = owning_ids(&arrangements, &arrangements[i].dependant_groups);
        lists.push(l);
        i = i + 1;
    }
    let mut out: Vec<ArrangementDetails> = Vec::new();
    let mut rest = arrangements;
    let n = rest.len();
    let mut j: usize = 0;
    while j < n
        invariant
            n == a0.len(),
            j <= n,
            lists@.len() == n,
            out@.len() == j,
            rest@ == a0.subrange(j as int, n as int),
            forall|k: int| 0 <= k < n ==> #[trigger] lists@[k]@ == arrangements_owning(a0, a0[k].dependant_groups@),
            forall|k: int| 0 <= k < j ==> #[trigger] out@[k].arrangement == a0[k].arrangement
                && out@[k].strategy == a0[k].strategy && out@[k].groups == a0[k].groups
                && out@[k].dependant_groups == a0[k].dependant_groups
                && out@[k].dependant_arrangements@ == lists@[k]@,
        decreases n - j,
    {
        let mut a = rest.remove(0);
        assert(a == a0[j as int]);
        a.dependant_arrangements = copy_i32s(&lists[j]);
        out.push(a);
        j = j + 1;
        assert(rest@ =~= a0.subrange(j as int, n as int));
    }
    proof {
        lemma_owning_same_groups(out@, a0, Seq::<i32>::empty());
        assert forall|i: int| 0 <= i < out@.len() implies #[trigger] out@[i].dependant_arrangements@
            == arrangements_owning(out@, out@[i].dependant_groups@) by {
            assert(out@[i].arrangement == a0[i].arrangement);
            assert(lists@[i]@ == arrangements_owning(a0, a0[i].dependant_groups@));
            lemma_owning_same_groups(out@, a0, out@[i].dependant_groups@);
        }
    }
    out
}

/// The kinds of data an arrangement depends on.
#[derive(Debug, Clone, Copy, PartialEq, Eq, Structural)]
pub struct ArrangementDependencyType {
    pub groups_dependant: bool,
    pub tags_dependant: bool,
    pub exif_dependant: bool,
}

/// The dependency flags recorded on an arrangement.
pub open spec fn dependency_type_of(a: Arrangement) -> ArrangementDependencyType {
    ArrangementDependencyType {
        groups_dependant: a.groups_dependant,
        tags_dependant: a.tags_dependant,
        exif_dependant: a.exif_dependant,
    }
}

/// At least one kind of dependency is shared.
pub open spec fn shares_dependency(x: ArrangementDependencyType, y: ArrangementDependencyType) -> bool {
    (x.groups_dependant && y.groups_dependant) || (x.tags_dependant && y.tags_dependant)
        || (x.exif_dependant && y.exif_dependant)
}

impl ArrangementDependencyType {
    pub fn new_groups_dependant() -> (r: Self)
        ensures
            r.groups_dependant && !r.tags_dependant && !r.exif_dependant,
    {
        Self { groups_dependant: true, tags_dependant: false, exif_dependant: false }
    }

    pub fn new_tags_dependant() -> (r: Self)
        ensures
            !r.groups_dependant && r.tags_dependant && !r.exif_dependant,
    {
        Self { groups_dependant: false, tags_dependant: true, exif_dependant: false }
    }

    pub fn new_exif_dependant() -> (r: Self)
        ensures
            !r.groups_dependant && !r.tags_dependant && r.exif_dependant,
    {
        Self { groups_dependant: false, tags_dependant: false, exif_dependant: true }
    }

    /// Returns true if at least one of the dependencies of this type matches one of the provided.
    pub fn match_any(&self, other: &Self) -> (r: bool)
        ensures
            r == shares_dependency(*self, *other),
    {
        (self.groups_dependant && other.groups_dependant) || (self.tags_dependant && other.tags_dependant)
            || (self.exif_dependant && other.exif_dependant)
    }
}

impl From<&Arrangement> for ArrangementDependencyType {
    fn from(a: &Arrangement) -> (r: ArrangementDependencyType) {
        ArrangementDependencyType {
            groups_dependant: a.groups_dependant,
            tags_dependant: a.tags_dependant,
            exif_dependant: a.exif_dependant,
        }
    }
}

impl vstd::std_specs::convert::FromSpecImpl<&Arrangement> for ArrangementDependencyType {
    open spec fn obeys_from_spec() -> bool {
        true
    }

    open spec fn from_spec(a: &Arrangement) -> ArrangementDependencyType {
        dependency_type_of(*a)
    }
}

impl From<&ArrangementDetails> for ArrangementDependencyType {
    fn from(ad: &ArrangementDetails) -> (r: ArrangementDependencyType) {
        ArrangementDependencyType {
            groups_dependant: ad.arrangement.groups_dependant,
            tags_dependant: ad.arrangement.tags_dependant,
            exif_dependant: ad.arrangement.exif_dependant,
        }
    }
}

impl vstd::std_specs::convert::FromSpecImpl<&ArrangementDetails> for ArrangementDependencyType {
    open spec fn obeys_from_spec() -> bool {
        true
    }

    open spec fn from_spec(ad: &ArrangementDetails) -> ArrangementDependencyType {
        dependency_type_of(ad.arrangement)
    }
}

} // verus!
