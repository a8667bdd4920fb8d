use vstd::prelude::*;
use crate::grouping::strategy_filtering::{StrategyFiltering, leaves, included_groups, is_groups_filter, is_tags_filter, is_exif_filter};
use crate::utils::errors_catcher::ErrorResponder;
use crate::grouping::strategy_grouping::{UngroupRecord, records, lemma_records_trans};
use crate::grouping::picture_sets::{difference, intersection};
use std::collections::HashSet;

verus! {

/// Request to group pictures by a list of filters.
#[derive(Debug, Clone, PartialEq)]
pub struct FilterGroupingRequest {
    pub filters: Vec<FilterGroupingValueRequest>,
}

/// One group of a filter grouping request.
#[derive(Debug, Clone, PartialEq)]
pub struct FilterGroupingValueRequest {
    /// Id of an existing group, or a value `<= 0` for a new group.
    pub id: i32,
    pub name: String,
    pub filter: StrategyFiltering,
}

/// Groups pictures by filters: one group per filter.
#[derive(Debug, Clone, PartialEq)]
pub struct FilterGrouping {
    /// Pairs of a group id and the filter of that group.
    pub filters: Vec<(i32, StrategyFiltering)>,
    /// Id of the group for the pictures that do not match any filter.
    pub other_group_id: Option<i32>,
}

/// Whether a formula filters on groups.
pub open spec fn formula_groups_dependant(f: StrategyFiltering) -> bool {
    exists|i: int| 0 <= i < leaves(f).len() && is_groups_filter(#[trigger] leaves(f)[i])
}

/// Whether a formula filters on tags.
pub open spec fn formula_tags_dependant(f: StrategyFiltering) -> bool {
    exists|i: int| 0 <= i < leaves(f).len() && is_tags_filter(#[trigger] leaves(f)[i])
}

/// Whether a formula filters on EXIF values.
pub open spec fn formula_exif_dependant(f: StrategyFiltering) -> bool {
    exists|i: int| 0 <= i < leaves(f).len() && is_exif_filter(#[trigger] leaves(f)[i])
}

/// The group ids of a list of (group id, filter) pairs.
pub open spec fn filter_group_ids(fs: Seq<(i32, StrategyFiltering)>) -> Seq<i32> {
    fs.map_values(|p: (i32, StrategyFiltering)| p.0)
}

/// The groups the filters of a list of (group id, filter) pairs filter on, in order.
pub open spec fn filters_dependant_groups(fs: Seq<(i32, StrategyFiltering)>) -> Seq<i32>
    decreases fs.len(),
{
    if fs.len() == 0 {
        Seq::empty()
    } else {
        filters_dependant_groups(fs.drop_last()) + included_groups(leaves(fs.last().1))
    }
}

/// The ids of a list of groups followed by the optional other group.
pub open spec fn with_other(ids: Seq<i32>, other: Option<i32>) -> Seq<i32> {
    match other {
        Some(id) => ids.push(id),
        None => ids,
    }
}

/// The views of a list of picture sets.
pub open spec fn set_views(v: Seq<HashSet<i64>>) -> Seq<Set<i64>> {
    v.map_values(|s: HashSet<i64>| s@)
}

/// The views of a list of (group id, picture set) pairs.
pub open spec fn additions_view(v: Seq<(i32, HashSet<i64>)>) -> Seq<(i32, Set<i64>)> {
    v.map_values(|p: (i32, HashSet<i64>)| (p.0, p.1@))
}

/// Grouping the pictures `pics` by filters, in order, the k-th filter
/// matching the pictures `matched[k]`: the pictures of each group, and the
/// pictures no group took. When `preserve` holds, a picture goes to the
/// first group whose filter matches it; otherwise to every such group.
pub open spec fn filter_groups(matched: Seq<Set<i64>>, pics: Set<i64>, preserve: bool) -> (Seq<Set<i64>>, Set<i64>)
    decreases matched.len(),
{
    if matched.len() == 0 {
        (Seq::empty(), pics)
    } else {
        let prev = filter_groups(matched.drop_last(), pics, preserve);
        let to_group = if preserve { prev.1 } else { pics };
        let g = to_group.intersect(matched.last());
        (prev.0.push(g), prev.1.difference(g))
    }
}

proof fn lemma_filter_groups_len(matched: Seq<Set<i64>>, pics: Set<i64>, preserve: bool)
    ensures
        filter_groups(matched, pics, preserve).0.len() == matched.len(),
    decreases matched.len(),
{
    if matched.len() > 0 {
        lemma_filter_groups_len(matched.drop_last(), pics, preserve);
    }
}

/// With unicity preserved, grouping by filters puts each picture in one
/// place only: no picture is in two groups, none of the groups' pictures
/// is left for the other group, and the groups and what is left make up
/// the pictures grouped.
pub proof fn law_filter_groups_unicity(matched: Seq<Set<i64>>, pics: Set<i64>)
    ensures
        ({
            let (groups, remaining) = filter_groups(matched, pics, true);
            &&& forall|i: int, j: int|
                0 <= i < groups.len() && 0 <= j < groups.len() && i != j ==> (#[trigger] groups[i]).intersect(
                    #[trigger] groups[j],
                ) == Set::<i64>::empty()
            &&& forall|i: int| 0 <= i < groups.len() ==> (#[trigger] groups[i]).intersect(remaining) == Set::<i64>::empty()
            &&& forall|i: int| 0 <= i < groups.len() ==> (#[trigger] groups[i]).subset_of(pics)
            &&& remaining.subset_of(pics)
            &&& forall|p: i64| #[trigger] pics.contains(p) ==> remaining.contains(p) || exists|i: int|
                0 <= i < groups.len() && (#[trigger] groups[i]).contains(p)
        }),
    decreases matched.len(),
{
    lemma_filter_groups_len(matched, pics, true);
    if matched.len() > 0 {
        law_filter_groups_unicity(matched.drop_last(), pics);
        lemma_filter_groups_len(matched.drop_last(), pics, true);
        let prev = filter_groups(matched.drop_last(), pics, true);
        let (groups, remaining) = filter_groups(matched, pics, true);
        let g = prev.1.intersect(matched.last());
        let k = groups.len() - 1;
        assert(groups == prev.0.push(g));
        assert(remaining == prev.1.difference(g));
        assert forall|i: int, j: int|
            0 <= i < groups.len() && 0 <= j < groups.len() && i != j implies (#[trigger] groups[i]).intersect(
                #[trigger] groups[j],
            ) == Set::<i64>::empty() by {
            if i < k && j < k {
                assert(groups[i] == prev.0[i]);
                assert(groups[j] == prev.0[j]);
            } else if i == k {
                assert(groups[j] == prev.0[j]);
                assert(prev.0[j].intersect(prev.1) == Set::<i64>::empty());
                assert(groups[i].intersect(groups[j]) =~= Set::<i64>::empty());
            } else {
                assert(groups[i] == prev.0[i]);
                assert(prev.0[i].intersect(prev.1) == Set::<i64>::empty());
                assert(groups[i].intersect(groups[j]) =~= Set::<i64>::empty());
            }
        }
        assert forall|i: int| 0 <= i < groups.len() implies (#[trigger] groups[i]).intersect(remaining) == Set::<i64>::empty() by {
            if i < k {
                assert(groups[i] == prev.0[i]);
                assert(prev.0[i].intersect(prev.1) == Set::<i64>::empty());
            }
            assert(groups[i].intersect(remaining) =~= Set::<i64>::empty());
        }
        assert forall|i: int| 0 <= i < groups.len() implies (#[trigger] groups[i]).subset_of(pics) by {
            if i < k {
                assert(groups[i] == prev.0[i]);
            }
        }
        assert forall|p: i64| #[trigger] pics.contains(p) implies remaining.contains(p) || exists|i: int|
            0 <= i < groups.len() && (#[trigger] groups[i]).contains(p) by {
            if !remaining.contains(p) {
                if prev.1.contains(p) {
                    assert(groups[k].contains(p));
                } else {
                    let i = choose|i: int| 0 <= i < prev.0.len() && (#[trigger] prev.0[i]).contains(p);
                    assert(groups[i] == prev.0[i]);
                }
            }
        }
    } else {
        assert(filter_groups(matched, pics, true).1 == pics);
    }
}

/// Each group id with the pictures of its group.
pub open spec fn pair_up(ids: Seq<i32>, groups: Seq<Set<i64>>) -> Seq<(i32, Set<i64>)> {
    Seq::new(groups.len(), |k: int| (ids[k], groups[k]))
}

/// Each group id with the pictures of `pics` that are not in its group.
pub open spec fn pair_up_outside(ids: Seq<i32>, groups: Seq<Set<i64>>, pics: Set<i64>) -> Seq<(i32, Set<i64>)> {
    Seq::new(groups.len(), |k: int| (ids[k], pics.difference(groups[k])))
}

impl FilterGrouping {
    /// Groups the pictures `picture_ids` into the groups of the filters, in
    /// order; `matched[k]` holds the pictures of `picture_ids` that the k-th
    /// filter matches. The pictures no filter took go to the other group,
    /// made by `create_other_group` when there is none yet. Returns whether
    /// the strategy gained a group, and the pictures to add to each group,
    /// in order. An enabled `ungroup_record` receives, for each filter group,
    /// the pictures it did not take, and, when no group was created and
    /// there is an other group, the pictures the filters took.
    pub fn group_pictures<F: FnOnce() -> Result<i32, ErrorResponder>>(
        &mut self,
        preserve_unicity: bool,
        ungroup_record: &mut UngroupRecord,
        picture_ids: &HashSet<i64>,
        matched: &Vec<HashSet<i64>>,
        create_other_group: F,
    ) -> (r: Result<(bool, Vec<(i32, HashSet<i64>)>), ErrorResponder>)
        requires
            matched@.len() == old(self).filters@.len(),
            old(self).other_group_id is None ==> call_requires(create_other_group, ()),
        ensures
            ({
                let ids = filter_group_ids(old(self).filters@);
                let (groups, remaining) = filter_groups(set_views(matched@), picture_ids@, preserve_unicity);
                let per_filter = pair_up_outside(ids, groups, picture_ids@);
                let update = r->Ok_0.0;
                let adds = additions_view(r->Ok_0.1@);
                let created = adds.last().0;
                &&& final(self).filters == old(self).filters
                &&& remaining.is_empty() ==> (final(self).other_group_id == old(self).other_group_id
                    && r is Ok && !update && adds == pair_up(ids, groups))
                &&& !remaining.is_empty() && old(self).other_group_id is Some ==> (final(self).other_group_id == old(self).other_group_id
                    && r is Ok && !update && adds == pair_up(ids, groups).push((old(self).other_group_id->Some_0, remaining)))
                &&& !remaining.is_empty() && old(self).other_group_id is None ==> call_ensures(create_other_group, (),
                    if r is Ok { Ok::<i32, ErrorResponder>(created) } else { Err(r->Err_0) })
                &&& !remaining.is_empty() && old(self).other_group_id is None && r is Ok ==> (update
                    && final(self).other_group_id == Some(created) && adds == pair_up(ids, groups).push((created, remaining)))
                &&& !remaining.is_empty() && old(self).other_group_id is None && r is Err ==> final(self).other_group_id is None
                &&& r is Ok && !update && final(self).other_group_id is Some ==> records(*old(ungroup_record), *final(ungroup_record),
                    per_filter.push((final(self).other_group_id->Some_0, picture_ids@.difference(remaining))))
                &&& !(r is Ok && !update && final(self).other_group_id is Some) ==> records(*old(ungroup_record),
                    *final(ungroup_record), per_filter)
            }),
    {
        let ghost ids = filter_group_ids(self.filters@);
        let ghost mv = set_views(matched@);
        let ghost rec0 = *ungroup_record;
        let mut adds: Vec<(i32, HashSet<i64>)> = Vec::new();
        let mut remaining = difference(picture_ids, &HashSet::new());
        assert(picture_ids@.difference(Set::empty()) =~= picture_ids@);
        proof {
            crate::grouping::strategy_grouping::lemma_records_none(rec0);
        }
        proof {
            assert(mv.subrange(0, 0) =~= Seq::<Set<i64>>::empty());
            assert(additions_view(adds@) =~= Seq::<(i32, Set<i64>)>::empty());
            assert(pair_up(ids, Seq::<Set<i64>>::empty()) =~= Seq::<(i32, Set<i64>)>::empty());
            assert(pair_up_outside(ids, Seq::<Set<i64>>::empty(), picture_ids@) =~= Seq::<(i32, Set<i64>)>::empty());
        }
        let mut i: usize = 0;
        while i < self.filters.len()
            invariant
                i <= self.filters.len(),
                matched@.len() == self.filters@.len(),
                ids == filter_group_ids(self.filters@),
                mv == set_views(matched@),
                ({
                    let (groups, rem) = filter_groups(mv.subrange(0, i as int), picture_ids@, preserve_unicity);
                    &&& remaining@ == rem
                    &&& additions_view(adds@) == pair_up(ids, groups)
                    &&& records(rec0, *ungroup_record, pair_up_outside(ids, groups, picture_ids@))
                }),
            decreases self.filters.len() - i,
        {
            let ghost prev = filter_groups(mv.subrange(0, i as int), picture_ids@, preserve_unicity);
            let ghost rec1 = *ungroup_record;
            let group_id = self.filters[i].0;
            let group_pictures = if preserve_unicity {
                intersection(&remaining, &matched[i])
            } else {
                intersection(picture_ids, &matched[i])
            };
            remaining = difference(&remaining, &group_pictures);
            if ungroup_record.enable {
                ungroup_record.add(group_id, difference(picture_ids, &group_pictures));
            }
            proof {
                if !rec1.enable {
                    assert(records(rec1, *ungroup_record, seq![(group_id, picture_ids@.difference(group_pictures@))]));
                }
                assert(mv.subrange(0, i + 1).drop_last() =~= mv.subrange(0, i as int));
                assert(mv[i as int] == matched@[i as int]@);
                assert(ids[i as int] == group_id);
                let next = filter_groups(mv.subrange(0, i + 1), picture_ids@, preserve_unicity);
                assert(next.0 == prev.0.push(group_pictures@));
                lemma_filter_groups_len(mv.subrange(0, i as int), picture_ids@, preserve_unicity);
                lemma_records_trans(rec0, rec1, *ungroup_record, pair_up_outside(ids, prev.0, picture_ids@),
                    seq![(group_id, picture_ids@.difference(group_pictures@))]);
                assert(pair_up_outside(ids, prev.0, picture_ids@) + seq![(group_id, picture_ids@.difference(group_pictures@))]
                    =~= pair_up_outside(ids, next.0, picture_ids@));
            }
            let ghost before = adds@;
            adds.push((group_id, group_pictures));
            proof {
                let next = filter_groups(mv.subrange(0, i + 1), picture_ids@, preserve_unicity);
                lemma_filter_groups_len(mv.subrange(0, i as int), picture_ids@, preserve_unicity);
                assert(next.0 == prev.0.push(group_pictures@));
                assert(additions_view(adds@) =~= additions_view(before).push((group_id, next.0.last())));
                assert(additions_view(adds@) =~= pair_up(ids, next.0));
            }
            i = i + 1;
        }
        assert(mv.subrange(0, mv.len() as int) =~= mv);
        let mut update_strategy = false;
        if !remaining.is_empty() {
            let (other_group_id, group_created) = match self.get_or_create_other_group(create_other_group) {
                Ok(x) => x,
                Err(e) => {
                    return Err(e);
                },
            };
            update_strategy = group_created;
            let ghost before = adds@;
            let rem_copy = difference(&remaining, &HashSet::new());
            assert(remaining@.difference(Set::empty()) =~= remaining@);
            adds.push((other_group_id, rem_copy));
            assert(additions_view(adds@) =~= additions_view(before).push((other_group_id, remaining@)));
        }
        if ungroup_record.enable && !update_strategy && self.other_group_id.is_some() {
            let ghost rec1 = *ungroup_record;
            let other = self.other_group_id.unwrap();
            ungroup_record.add(other, difference(picture_ids, &remaining));
            proof {
                let (groups, rem) = filter_groups(mv, picture_ids@, preserve_unicity);
                lemma_records_trans(rec0, rec1, *ungroup_record, pair_up_outside(ids, groups, picture_ids@),
                    seq![(other, picture_ids@.difference(remaining@))]);
                assert(pair_up_outside(ids, groups, picture_ids@) + seq![(other, picture_ids@.difference(remaining@))]
                    =~= pair_up_outside(ids, groups, picture_ids@).push((other, picture_ids@.difference(remaining@))));
            }
        } else {
            proof {
                if !ungroup_record.enable && !update_strategy && self.other_group_id.is_some() {
                    let (groups, rem) = filter_groups(mv, picture_ids@, preserve_unicity);
                    assert(records(rec0, *ungroup_record, pair_up_outside(ids, groups, picture_ids@).push(
                        (self.other_group_id->Some_0, picture_ids@.difference(remaining@)))));
                }
            }
        }
        Ok((update_strategy, adds))
    }

    /// The group for the pictures that match no filter: the existing one,
    /// or else the one that `create` makes, which becomes the other group.
    /// Also says whether the group was created.
    pub fn get_or_create_other_group<F: FnOnce() -> Result<i32, ErrorResponder>>(&mut self, create: F) -> (r: Result<(i32, bool), ErrorResponder>)
        requires
            old(self).other_group_id is None ==> call_requires(create, ()),
        ensures
            final(self).filters == old(self).filters,
            old(self).other_group_id matches Some(id) ==> r == Ok::<(i32, bool), ErrorResponder>((id, false))
                && final(self).other_group_id == old(self).other_group_id,
            old(self).other_group_id is None ==> call_ensures(create, (), match r {
                Ok((id, _)) => Ok::<i32, ErrorResponder>(id),
                Err(e) => Err(e),
            }),
            old(self).other_group_id is None ==> match r {
                Ok((id, created)) => created && final(self).other_group_id == Some(id),
                Err(_) => final(self).other_group_id is None,
            },
    {
        match self.other_group_id {
            Some(id) => Ok((id, false)),
            None => {
                match create() {
                    Ok(id) => {
                        self.other_group_id = Some(id);
                        Ok((id, true))
                    },
                    Err(e) => Err(e),
                }
            },
        }
    }

    /// Whether one of the filters filters on groups.
    pub fn is_groups_dependant(&self) -> (r: bool)
        ensures
            r == exists|k: int| 0 <= k < self.filters@.len() && formula_groups_dependant(#[trigger] self.filters@[k].1),
    {
        let mut i: usize = 0;
        while i < self.filters.len()
            invariant
                i <= self.filters.len(),
                forall|k: int| 0 <= k < i ==> !formula_groups_dependant(#[trigger] self.filters@[k].1),
            decreases self.filters.len() - i,
        {
            if self.filters[i].1.is_groups_dependant() {
                return true;
            }
            i = i + 1;
        }
        false
    }

    /// Whether one of the filters filters on tags.
    pub fn is_tags_dependant(&self) -> (r: bool)
        ensures
            r == exists|k: int| 0 <= k < self.filters@.len() && formula_tags_dependant(#[trigger] self.filters@[k].1),
    {
        let mut i: usize = 0;
        while i < self.filters.len()
            invariant
                i <= self.filters.len(),
                forall|k: int| 0 <= k < i ==> !formula_tags_dependant(#[trigger] self.filters@[k].1),
            decreases self.filters.len() - i,
        {
            if self.filters[i].1.is_tags_dependant() {
                return true;
            }
            i = i + 1;
        }
        false
    }

    /// Whether one of the filters filters on EXIF values.
    pub fn is_exif_dependant(&self) -> (r: bool)
        ensures
            r == exists|k: int| 0 <= k < self.filters@.len() && formula_exif_dependant(#[trigger] self.filters@[k].1),
    {
        let mut i: usize = 0;
        while i < self.filters.len()
            invariant
                i <= self.filters.len(),
                forall|k: int| 0 <= k < i ==> !formula_exif_dependant(#[trigger] self.filters@[k].1),
            decreases self.filters.len() - i,
        {
            if self.filters[i].1.is_exif_dependant() {
                return true;
            }
            i = i + 1;
        }
        false
    }

    /// The ids of the groups of the strategy: one per filter, then the other group.
    pub fn get_groups(&self) -> (r: Vec<i32>)
        ensures
            r@ == with_other(filter_group_ids(self.filters@), self.other_group_id),
    {
        let mut groups: Vec<i32> = Vec::new();
        let mut i: usize = 0;
        while i < self.filters.len()
            invariant
                i <= self.filters.len(),
                groups@ == filter_group_ids(self.filters@.subrange(0, i as int)),
            decreases self.filters.len() - i,
        {
            groups.push(self.filters[i].0);
            assert(filter_group_ids(self.filters@.subrange(0, i + 1)) =~= filter_group_ids(self.filters@.subrange(0, i as int)).push(self.filters@[i as int].0));
            i = i + 1;
        }
        assert(self.filters@.subrange(0, self.filters@.len() as int) =~= self.filters@);
        if let Some(id) = self.other_group_id {
            groups.push(id);
        }
        groups
    }

    /// The groups the filters filter on, filter by filter.
    pub fn get_dependant_groups(&self) -> (r: Vec<i32>)
        ensures
            r@ == filters_dependant_groups(self.filters@),
    {
        let mut set: Vec<i32> = Vec::new();
        let mut i: usize = 0;
        while i < self.filters.len()
            invariant
                i <= self.filters.len(),
                set@ == filters_dependant_groups(self.filters@.subrange(0, i as int)),
            decreases self.filters.len() - i,
        {
            let mut groups = self.filters[i].1.get_dependant_groups();
            set.append(&mut groups);
            assert(self.filters@.subrange(0, i + 1).drop_last() =~= self.filters@.subrange(0, i as int));
            i = i + 1;
        }
        assert(self.filters@.subrange(0, self.filters@.len() as int) =~= self.filters@);
        set
    }
}

} // verus!
