use vstd::prelude::*;
use std::collections::{HashMap, HashSet};
use crate::grouping::group_by_exif_interval::ExifIntervalGrouping;
use crate::grouping::group_by_exif_value::ExifValuesGrouping;
use crate::grouping::group_by_filter::{
    FilterGrouping, FilterGroupingRequest, filter_group_ids, filters_dependant_groups, with_other,
    formula_groups_dependant, formula_tags_dependant, formula_exif_dependant,
};
use crate::grouping::group_by_location::LocationGrouping;
use crate::grouping::group_by_filter_edit::{filter_ids_wf, edited_by, created_by, failed_with, group_changes_of, GroupChange};
use crate::utils::errors_catcher::ErrorResponder;
use crate::grouping::group_by_tag::{TagGrouping, TagGroupingRequest};
use vstd::std_specs::hash::spec_hash_keys_iter;
use vstd::std_specs::iter::IteratorSpec;

verus! {

broadcast use vstd::std_specs::hash::group_hash_axioms;

/// Stores all pictures to ungroup, allowing to ungroup them only at the end.
pub struct UngroupRecord {
    pub enable: bool,
    /// Pictures to remove from each group.
    pub map: HashMap<i32, HashSet<i64>>,
}

/// The pictures recorded for a group: none when the group has no entry.
pub open spec fn recorded_pictures(map: Map<i32, HashSet<i64>>, group_id: i32) -> Set<i64> {
    if map.contains_key(group_id) {
        map[group_id]@
    } else {
        Set::empty()
    }
}

/// The pictures a list of additions records for the group `g`.
pub open spec fn added_for(adds: Seq<(i32, Set<i64>)>, g: i32) -> Set<i64>
    decreases adds.len(),
{
    if adds.len() == 0 {
        Set::empty()
    } else {
        added_for(adds.drop_last(), g).union(if adds.last().0 == g { adds.last().1 } else { Set::empty() })
    }
}

/// The groups a list of additions records pictures for.
pub open spec fn added_groups(adds: Seq<(i32, Set<i64>)>) -> Set<i32> {
    adds.map_values(|p: (i32, Set<i64>)| p.0).to_set()
}

/// `new` is the record `old` once the additions `adds` are recorded, in
/// order: a disabled record stays as it is.
pub open spec fn records(old: UngroupRecord, new: UngroupRecord, adds: Seq<(i32, Set<i64>)>) -> bool {
    &&& new.enable == old.enable
    &&& !old.enable ==> new.map@ == old.map@
    &&& old.enable ==> new.map@.dom() == old.map@.dom().union(added_groups(adds))
    &&& old.enable ==> forall|g: i32| #[trigger] recorded_pictures(new.map@, g)
        == recorded_pictures(old.map@, g).union(added_for(adds, g))
}

proof fn lemma_added_concat(x: Seq<(i32, Set<i64>)>, y: Seq<(i32, Set<i64>)>, g: i32)
    ensures
        added_for(x + y, g) == added_for(x, g).union(added_for(y, g)),
    decreases y.len(),
{
    if y.len() == 0 {
        assert(x + y =~= x);
        assert(added_for(x, g).union(Set::empty()) =~= added_for(x, g));
    } else {
        assert((x + y).drop_last() =~= x + y.drop_last());
        lemma_added_concat(x, y.drop_last(), g);
        let last = if y.last().0 == g { y.last().1 } else { Set::<i64>::empty() };
        assert(added_for(x, g).union(added_for(y.drop_last(), g)).union(last)
            =~= added_for(x, g).union(added_for(y.drop_last(), g).union(last)));
    }
}

/// Recording additions in two steps records them all.
pub proof fn lemma_records_trans(a: UngroupRecord, b: UngroupRecord, c: UngroupRecord, x: Seq<(i32, Set<i64>)>, y: Seq<(i32, Set<i64>)>)
    requires
        records(a, b, x),
        records(b, c, y),
    ensures
        records(a, c, x + y),
{
    if a.enable {
        assert(added_groups(x + y) =~= added_groups(x).union(added_groups(y))) by {
            let f = |p: (i32, Set<i64>)| p.0;
            assert((x + y).map_values(f) =~= x.map_values(f) + y.map_values(f));
            let xs = x.map_values(f);
            let ys = y.map_values(f);
            assert forall|z: i32| (xs + ys).contains(z) <==> xs.contains(z) || ys.contains(z) by {
                if (xs + ys).contains(z) {
                    let k = choose|k: int| 0 <= k < (xs + ys).len() && (xs + ys)[k] == z;
                    if k < xs.len() {
                        assert(xs[k] == z);
                    } else {
                        assert(ys[k - xs.len()] == z);
                    }
                }
                if xs.contains(z) {
                    let k = choose|k: int| 0 <= k < xs.len() && xs[k] == z;
                    assert((xs + ys)[k] == z);
                }
                if ys.contains(z) {
                    let k = choose|k: int| 0 <= k < ys.len() && ys[k] == z;
                    assert((xs + ys)[k + xs.len()] == z);
                }
            }
        }
        assert(c.map@.dom() =~= a.map@.dom().union(added_groups(x + y)));
        assert forall|g: i32| #[trigger] recorded_pictures(c.map@, g)
            == recorded_pictures(a.map@, g).union(added_for(x + y, g)) by {
            lemma_added_concat(x, y, g);
            assert(recorded_pictures(b.map@, g) == recorded_pictures(a.map@, g).union(added_for(x, g)));
            assert(recorded_pictures(a.map@, g).union(added_for(x, g)).union(added_for(y, g))
                =~= recorded_pictures(a.map@, g).union(added_for(x, g).union(added_for(y, g))));
        }
    }
}

/// Recording nothing leaves the record as it is.
pub proof fn lemma_records_none(a: UngroupRecord)
    ensures
        records(a, a, Seq::empty()),
{
    assert(added_groups(Seq::empty()) =~= Set::empty());
    assert(a.map@.dom().union(Set::empty()) =~= a.map@.dom());
    assert forall|g: i32| #[trigger] recorded_pictures(a.map@, g) == recorded_pictures(a.map@, g).union(added_for(Seq::empty(), g)) by {
        assert(recorded_pictures(a.map@, g).union(Set::empty()) =~= recorded_pictures(a.map@, g));
    }
}

impl UngroupRecord {
    /// An empty record; only an enabled record collects pictures.
    pub fn new(enable: bool) -> (r: UngroupRecord)
        ensures
            r.enable == enable,
            r.map@ == Map::<i32, HashSet<i64>>::empty(),
    {
        UngroupRecord { enable, map: HashMap::new() }
    }

    /// Records pictures to remove from a group, when the record is enabled.
    pub fn add(&mut self, group_id: i32, picture_ids: HashSet<i64>)
        ensures
            final(self).enable == old(self).enable,
            !old(self).enable ==> final(self).map@ == old(self).map@,
            old(self).enable ==> {
                &&& final(self).map@.dom() == old(self).map@.dom().insert(group_id)
                &&& final(self).map@[group_id]@ == recorded_pictures(old(self).map@, group_id).union(picture_ids@)
                &&& forall|g: i32| #[trigger] final(self).map@.contains_key(g) && g != group_id ==> final(self).map@[g] == old(self).map@[g]
            },
            records(*old(self), *final(self), seq![(group_id, picture_ids@)]),
    {
        if !self.enable {
            return;
        }
        match self.map.remove(&group_id) {
            Some(mut existing) => {
                let ghost start = existing@;
                let ghost keys = spec_hash_keys_iter(&picture_ids).remaining();
                for id in it: picture_ids.iter()
                    invariant
                        it.seq() == keys,
                        existing@ == start.union(keys.subrange(0, it.index() as int).unref().to_set()),
                {
                    let ghost before = existing@;
                    existing.insert(*id);
                    proof {
                        let i = it.index() as int;
                        assert(keys.subrange(0, i + 1).unref() =~= keys.subrange(0, i).unref() + seq![*keys[i]]);
                        Seq::lemma_to_set_insert_commutes(keys.subrange(0, i).unref(), *keys[i]);
                        assert(existing@ =~= start.union(keys.subrange(0, i + 1).unref().to_set()));
                    }
                }
                proof {
                    vstd::std_specs::hash::axiom_spec_hash_keys_iter(&picture_ids);
                    assert(keys.subrange(0, keys.len() as int) =~= keys);
                }
                self.map.insert(group_id, existing);
            },
            None => {
                self.map.insert(group_id, picture_ids);
                assert(Set::<i64>::empty().union(picture_ids@) =~= picture_ids@);
            },
        }
        assert(self.map@.dom() =~= old(self).map@.dom().insert(group_id));
        proof {
            let adds = seq![(group_id, picture_ids@)];
            assert(adds.drop_last() =~= Seq::<(i32, Set<i64>)>::empty());
            assert(added_groups(adds) =~= set![group_id]) by {
                assert(adds.map_values(|p: (i32, Set<i64>)| p.0) =~= seq![group_id]);
                assert(seq![group_id].contains(group_id)) by {
                    assert(seq![group_id][0] == group_id);
                }
                assert forall|z: i32| seq![group_id].contains(z) implies z == group_id by {
                    let k = choose|k: int| 0 <= k < 1 && seq![group_id][k] == z;
                }
            }
            assert(old(self).map@.dom().union(set![group_id]) =~= old(self).map@.dom().insert(group_id));
            assert forall|g: i32| #[trigger] recorded_pictures(self.map@, g)
                == recorded_pictures(old(self).map@, g).union(added_for(adds, g)) by {
                assert(added_for(Seq::<(i32, Set<i64>)>::empty(), g) == Set::<i64>::empty());
                assert(adds.last() == (group_id, picture_ids@));
                assert(added_for(adds, g) =~= Set::<i64>::empty().union(if g == group_id { picture_ids@ } else { Set::empty() }));
                if g != group_id {
                    assert(recorded_pictures(old(self).map@, g).union(Set::empty()) =~= recorded_pictures(old(self).map@, g));
                }
            }
        }
    }
}

/// How an arrangement groups its pictures.
#[derive(Debug, Clone, PartialEq)]
pub enum StrategyGrouping {
    GroupByFilter(FilterGrouping),
    GroupByTags(TagGrouping),
    GroupByExifValues(ExifValuesGrouping),
    GroupByExifInterval(ExifIntervalGrouping),
    GroupByLocation(LocationGrouping),
}

/// Request for a grouping strategy.
#[derive(Debug, Clone, PartialEq)]
pub enum StrategyGroupingRequest {
    GroupByFilter(FilterGroupingRequest),
    GroupByTags(TagGroupingRequest),
}

/// Whether the groups of a grouping can be listed.
pub open spec fn lists_groups(g: StrategyGrouping) -> bool {
    g is GroupByFilter || g is GroupByTags
}

/// `groups` lists the groups of a grouping: in the order of the filters,
/// then the other group, for a grouping by filters; in some order for a
/// grouping by tags.
pub open spec fn listed_groups(g: StrategyGrouping, groups: Seq<i32>) -> bool {
    &&& groups.to_set() == grouping_groups(g)
    &&& g matches StrategyGrouping::GroupByFilter(f) ==> groups == with_other(filter_group_ids(f.filters@), f.other_group_id)
}

/// The groups of a grouping, as a set.
pub open spec fn grouping_groups(g: StrategyGrouping) -> Set<i32> {
    match g {
        StrategyGrouping::GroupByFilter(f) => with_other(filter_group_ids(f.filters@), f.other_group_id).to_set(),
        StrategyGrouping::GroupByTags(t) => match t.other_group_id {
            Some(id) => t.tag_id_to_group_id@.values().insert(id),
            None => t.tag_id_to_group_id@.values(),
        },
        _ => Set::empty(),
    }
}

/// The groups the filters of a grouping filter on, in order.
pub open spec fn grouping_dependant_groups(g: StrategyGrouping) -> Seq<i32> {
    match g {
        StrategyGrouping::GroupByFilter(f) => filters_dependant_groups(f.filters@),
        _ => Seq::empty(),
    }
}

pub open spec fn grouping_groups_dependant(g: StrategyGrouping) -> bool {
    match g {
        StrategyGrouping::GroupByFilter(f) => exists|k: int| 0 <= k < f.filters@.len() && formula_groups_dependant(#[trigger] f.filters@[k].1),
        _ => false,
    }
}

pub open spec fn grouping_tags_dependant(g: StrategyGrouping) -> bool {
    match g {
        StrategyGrouping::GroupByFilter(f) => exists|k: int| 0 <= k < f.filters@.len() && formula_tags_dependant(#[trigger] f.filters@[k].1),
        StrategyGrouping::GroupByTags(_) => true,
        _ => false,
    }
}

pub open spec fn grouping_exif_dependant(g: StrategyGrouping) -> bool {
    match g {
        StrategyGrouping::GroupByFilter(f) => exists|k: int| 0 <= k < f.filters@.len() && formula_exif_dependant(#[trigger] f.filters@[k].1),
        StrategyGrouping::GroupByTags(_) => false,
        _ => true,
    }
}

impl StrategyGrouping {
    /// The ids of the groups of the strategy. Only filter and tag groupings
    /// list their groups.
    pub fn get_groups(&self) -> (r: Vec<i32>)
        requires
            lists_groups(*self),
        ensures
            r@.to_set() == grouping_groups(*self),
            self matches StrategyGrouping::GroupByFilter(f) ==> r@ == with_other(filter_group_ids(f.filters@), f.other_group_id),
            listed_groups(*self, r@),
    {
        match self {
            StrategyGrouping::GroupByFilter(sg) => sg.get_groups(),
            StrategyGrouping::GroupByTags(sg) => sg.get_groups(),
            _ => Vec::new(),
        }
    }

    /// The groups the strategy's own filters filter on.
    pub fn get_dependant_groups(&self) -> (r: Vec<i32>)
        ensures
            r@ == grouping_dependant_groups(*self),
    {
        match self {
            StrategyGrouping::GroupByFilter(f) => f.get_dependant_groups(),
            _ => Vec::new(),
        }
    }

    pub fn is_groups_dependant(&self) -> (r: bool)
        ensures
            r == grouping_groups_dependant(*self),
    {
        match self {
            StrategyGrouping::GroupByFilter(f) => f.is_groups_dependant(),
            _ => false,
        }
    }

    pub fn is_tags_dependant(&self) -> (r: bool)
        ensures
            r == grouping_tags_dependant(*self),
    {
        match self {
            StrategyGrouping::GroupByFilter(f) => f.is_tags_dependant(),
            StrategyGrouping::GroupByTags(_) => true,
            _ => false,
        }
    }

    pub fn is_exif_dependant(&self) -> (r: bool)
        ensures
            r == grouping_exif_dependant(*self),
    {
        match self {
            StrategyGrouping::GroupByFilter(f) => f.is_exif_dependant(),
            StrategyGrouping::GroupByTags(_) => false,
            _ => true,
        }
    }
}

impl StrategyGrouping {
    /// The groups to mark to be deleted when the grouping is deleted, so
    /// that another one can replace it: all its groups. Only groupings by
    /// filters can be deleted.
    pub fn delete(&self) -> (r: Vec<i32>)
        requires
            self is GroupByFilter,
        ensures
            r@ == with_other(filter_group_ids(self->GroupByFilter_0.filters@), self->GroupByFilter_0.other_group_id),
    {
        match self {
            StrategyGrouping::GroupByFilter(f) => f.get_groups(),
            _ => {
                proof {
                    assert(false);
                }
                Vec::new()
            },
        }
    }

    /// The grouping edited by a request of the same kind, with the changes
    /// to make to its stored groups. Only groupings by filters can be
    /// edited; the new groups come from `create_group`.
    pub fn edit_strategy_grouping<F: Fn(String) -> Result<i32, ErrorResponder>>(
        self,
        new_grouping: StrategyGroupingRequest,
        create_group: F,
    ) -> (r: Result<(StrategyGrouping, Vec<GroupChange>), ErrorResponder>)
        requires
            self is GroupByFilter,
            new_grouping is GroupByFilter,
            filter_ids_wf(self->GroupByFilter_0.filters@),
            forall|name: String| create_group.requires((name,)),
        ensures
            r matches Ok((g, changes)) ==> {
                &&& changes@ == group_changes_of(self->GroupByFilter_0.filters@, new_grouping->GroupByFilter_0.filters@)
                &&& g is GroupByFilter
                &&& g->GroupByFilter_0.other_group_id == self->GroupByFilter_0.other_group_id
                &&& edited_by(
                    self->GroupByFilter_0.filters@,
                    new_grouping->GroupByFilter_0.filters@,
                    create_group,
                    g->GroupByFilter_0.filters@,
                )
            },
            r matches Err(e) ==> failed_with(create_group, e),
    {
        match (self, new_grouping) {
            (StrategyGrouping::GroupByFilter(old), StrategyGroupingRequest::GroupByFilter(req)) => {
                let mut new = old;
                match new.edit(req, create_group) {
                    Ok(changes) => Ok((StrategyGrouping::GroupByFilter(new), changes)),
                    Err(e) => Err(e),
                }
            },
            _ => {
                proof {
                    assert(false);
                }
                Err(ErrorResponder::from_database_failure(String::new()))
            },
        }
    }
}

impl StrategyGroupingRequest {
    /// A new grouping for the request. Only groupings by filters can be
    /// made; their groups come from `create_group`.
    pub fn create_strategy_grouping<F: Fn(String) -> Result<i32, ErrorResponder>>(self, create_group: F) -> (r: Result<
        StrategyGrouping,
        ErrorResponder,
    >)
        requires
            self is GroupByFilter,
            forall|name: String| create_group.requires((name,)),
        ensures
            r matches Ok(g) ==> {
                &&& g is GroupByFilter
                &&& g->GroupByFilter_0.other_group_id is None
                &&& created_by(self->GroupByFilter_0.filters@, create_group, g->GroupByFilter_0.filters@)
            },
            r matches Err(e) ==> failed_with(create_group, e),
    {
        match self {
            StrategyGroupingRequest::GroupByFilter(request) => match FilterGrouping::create(request, create_group) {
                Ok(g) => Ok(StrategyGrouping::GroupByFilter(g)),
                Err(e) => Err(e),
            },
            StrategyGroupingRequest::GroupByTags(_) => {
                proof {
                    assert(false);
                }
                Err(ErrorResponder::from_database_failure(String::new()))
            },
        }
    }
}

} // verus!
