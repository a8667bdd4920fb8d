//! The decisions of a grouping run over the arrangements of a user, taken
//! one step at a time: the caller does the work each action asks for (a
//! database query, a save, a removal) and hands back what came of it.
use vstd::prelude::*;
use std::collections::HashSet;
use crate::database::arrangement::ArrangementDetails;
use crate::grouping::grouping_process::{ungroup_filter, record_ungroup};
use crate::grouping::strategy_filtering::{FilterType, StrategyFiltering, same_formula};
use crate::grouping::strategy_grouping::{UngroupRecord, records, lists_groups, grouping_groups};
use crate::utils::utils::copy_i32s;

verus! {

/// Where a grouping run over a list of arrangements stands.
#[derive(Debug, Clone, Copy, PartialEq, Eq, Structural)]
pub enum GroupingStage {
    /// Not started yet.
    Start,
    /// Grouping the pictures of the arrangement at this position.
    Group(usize),
    /// Saving the strategy of the arrangement at this position.
    Save(usize),
    /// Finding the pictures to take out of the groups of the arrangement at
    /// this position.
    Ungroup(usize),
    /// Removing the recorded pictures from their groups.
    Remove,
    /// Done.
    Finished,
}

/// What came of the last action.
pub enum GroupingEvent {
    /// The run is started.
    Start,
    /// The arrangement's pictures were grouped; whether its strategy changed.
    Grouped(bool),
    /// The arrangement's strategy was saved.
    Saved,
    /// The pictures that the filter of the last action selects.
    Found(HashSet<i64>),
    /// The recorded pictures were removed from their groups.
    Removed,
}

/// What the caller must do next.
pub enum GroupingAction {
    /// Group the pictures that the filter of the arrangement at this
    /// position matches into its groups.
    GroupArrangement(usize),
    /// Save the strategy of the arrangement at this position.
    SaveStrategy(usize),
    /// Find the pictures that the filter selects, for the arrangement at
    /// this position.
    FindUngrouped(usize, StrategyFiltering),
    /// Remove the pictures of the record from their groups.
    RemoveRecorded,
    /// Nothing is left to do.
    Finish,
}

/// A grouping run: when `do_ungroup` holds, the pictures of each
/// arrangement's groups that its filter no longer matches are recorded in
/// `record`, then removed at the end; `pending_groups` are the groups of
/// the arrangement whose pictures to ungroup are being found.
pub struct GroupingRun {
    pub do_ungroup: bool,
    pub stage: GroupingStage,
    pub record: UngroupRecord,
    pub pending_groups: Vec<i32>,
}

/// The event that a stage waits for.
pub open spec fn expects(stage: GroupingStage, event: GroupingEvent) -> bool {
    match stage {
        GroupingStage::Start => event is Start,
        GroupingStage::Group(_) => event is Grouped,
        GroupingStage::Save(_) => event is Saved,
        GroupingStage::Ungroup(_) => event is Found,
        GroupingStage::Remove => event is Removed,
        GroupingStage::Finished => false,
    }
}

/// The stage once the arrangements before position `i` are grouped: the
/// next arrangement to group, else the ungrouping pass when asked for,
/// else the end.
pub open spec fn after_grouped(i: int, count: int, do_ungroup: bool) -> GroupingStage {
    if i < count {
        GroupingStage::Group(i as usize)
    } else if do_ungroup && count > 0 {
        GroupingStage::Ungroup(0)
    } else if do_ungroup {
        GroupingStage::Remove
    } else {
        GroupingStage::Finished
    }
}

/// The stage that follows `stage` on `event`, for `count` arrangements.
pub open spec fn next_stage(stage: GroupingStage, event: GroupingEvent, count: int, do_ungroup: bool) -> GroupingStage {
    match stage {
        GroupingStage::Start => after_grouped(0, count, do_ungroup),
        GroupingStage::Group(i) => match event {
            GroupingEvent::Grouped(true) => GroupingStage::Save(i),
            _ => after_grouped(i + 1, count, do_ungroup),
        },
        GroupingStage::Save(i) => after_grouped(i + 1, count, do_ungroup),
        GroupingStage::Ungroup(i) => if i + 1 < count {
            GroupingStage::Ungroup((i + 1) as usize)
        } else {
            GroupingStage::Remove
        },
        _ => GroupingStage::Finished,
    }
}

/// The positions a stage names are positions of the arrangements.
pub open spec fn stage_in(stage: GroupingStage, count: int) -> bool {
    match stage {
        GroupingStage::Group(i) => i < count,
        GroupingStage::Save(i) => i < count,
        GroupingStage::Ungroup(i) => i < count,
        _ => true,
    }
}

/// `f` is the filter of the pictures of the groups `group_ids` that the
/// arrangement's filter `filter` does not match, as [`ungroup_filter`]
/// builds it from a copy of `filter`.
pub open spec fn is_ungroup_filter(f: StrategyFiltering, filter: StrategyFiltering, group_ids: Seq<i32>) -> bool {
    &&& f matches StrategyFiltering::And(fs)
    &&& f->And_0@.len() == 2
    &&& f->And_0@[0] matches StrategyFiltering::Not(g)
    &&& same_formula(filter, *f->And_0@[0]->Not_0)
    &&& f->And_0@[1] matches StrategyFiltering::Filter(FilterType::IncludeGroups(ids))
    &&& f->And_0@[1]->Filter_0->IncludeGroups_0@ == group_ids
}

impl GroupingRun {
    /// The run is consistent with the arrangements it goes over.
    pub open spec fn wf(self, arrangements: Seq<ArrangementDetails>) -> bool {
        &&& self.record.enable == self.do_ungroup
        &&& stage_in(self.stage, arrangements.len() as int)
        &&& self.stage is Ungroup ==> self.do_ungroup
        &&& self.stage matches GroupingStage::Ungroup(i) ==> self.pending_groups@.to_set() == grouping_groups(
            arrangements[i as int].strategy.groupings,
        )
    }

    /// A run that has not started, with an empty record.
    pub fn new(do_ungroup: bool) -> (r: GroupingRun)
        ensures
            r.do_ungroup == do_ungroup,
            r.stage == GroupingStage::Start,
            r.record.enable == do_ungroup,
            r.record.map@ == Map::<i32, HashSet<i64>>::empty(),
    {
        GroupingRun { do_ungroup, stage: GroupingStage::Start, record: UngroupRecord::new(do_ungroup), pending_groups: Vec::new() }
    }

    /// Takes the run one step further on `event`, over the arrangements in
    /// the order in which to group them. The arrangements are grouped in
    /// turn, the strategy of each one that changed being saved; then, when
    /// the run ungroups, the pictures of each arrangement's groups that its
    /// filter no longer matches are recorded for these groups, and at last
    /// removed from them.
    pub fn step(&mut self, arrangements: &Vec<ArrangementDetails>, event: GroupingEvent) -> (action: GroupingAction)
        requires
            old(self).wf(arrangements@),
            expects(old(self).stage, event),
            old(self).do_ungroup ==> forall|k: int|
                0 <= k < arrangements@.len() ==> lists_groups(#[trigger] arrangements@[k].strategy.groupings),
        ensures
            final(self).wf(arrangements@),
            final(self).do_ungroup == old(self).do_ungroup,
            final(self).stage == next_stage(old(self).stage, event, arrangements@.len() as int, old(self).do_ungroup),
            match (old(self).stage, event) {
                (GroupingStage::Ungroup(_), GroupingEvent::Found(pictures)) => records(
                    old(self).record,
                    final(self).record,
                    Seq::new(old(self).pending_groups@.len(), |k: int| (old(self).pending_groups@[k], pictures@)),
                ),
                _ => final(self).record == old(self).record,
            },
            match final(self).stage {
                GroupingStage::Group(i) => action == GroupingAction::GroupArrangement(i),
                GroupingStage::Save(i) => action == GroupingAction::SaveStrategy(i),
                GroupingStage::Ungroup(i) => action matches GroupingAction::FindUngrouped(j, f) && j == i
                    && is_ungroup_filter(f, arrangements@[i as int].strategy.filter, final(self).pending_groups@),
                GroupingStage::Remove => action is RemoveRecorded,
                _ => action is Finish,
            },
    {
        let count = arrangements.len();
        let next = match self.stage {
            GroupingStage::Start => self.after_grouped(0, count),
            GroupingStage::Group(i) => match event {
                GroupingEvent::Grouped(true) => GroupingStage::Save(i),
                _ => self.after_grouped(i + 1, count),
            },
            GroupingStage::Save(i) => self.after_grouped(i + 1, count),
            GroupingStage::Ungroup(i) => {
                match event {
                    GroupingEvent::Found(pictures) => {
                        record_ungroup(&mut self.record, &self.pending_groups, &pictures);
                    },
                    _ => {},
                }
                if i + 1 < count {
                    GroupingStage::Ungroup(i + 1)
                } else {
                    GroupingStage::Remove
                }
            },
            _ => GroupingStage::Finished,
        };
        self.stage = next;
        match next {
            GroupingStage::Group(i) => GroupingAction::GroupArrangement(i),
            GroupingStage::Save(i) => GroupingAction::SaveStrategy(i),
            GroupingStage::Ungroup(i) => {
                let strategy = &arrangements[i].strategy;
                let groups = strategy.groupings.get_groups();
                let copy_of_groups = copy_i32s(&groups);
                self.pending_groups = groups;
                GroupingAction::FindUngrouped(i, ungroup_filter(strategy.filter.clone(), copy_of_groups))
            },
            GroupingStage::Remove => GroupingAction::RemoveRecorded,
            _ => GroupingAction::Finish,
        }
    }

    /// The stage once the arrangements before position `i` are grouped.
    fn after_grouped(&self, i: usize, count: usize) -> (r: GroupingStage)
        requires
            i <= count,
        ensures
            r == after_grouped(i as int, count as int, self.do_ungroup),
    {
        if i < count {
            GroupingStage::Group(i)
        } else if self.do_ungroup && count > 0 {
            GroupingStage::Ungroup(0)
        } else if self.do_ungroup {
            GroupingStage::Remove
        } else {
            GroupingStage::Finished
        }
    }
}

} // verus!
