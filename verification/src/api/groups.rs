use vstd::prelude::*;

use crate::database::arrangement::{Arrangement, ArrangementDetails};
use crate::grouping::arrangement_strategy::{ArrangementStrategy, ArrangementStrategyRequest};
use crate::grouping::group_by_filter_edit::{filter_ids_wf, edited_by, created_by, failed_with, group_changes_of, GroupChange};
use crate::utils::errors_catcher::{answers, answers_with, ErrorResponder, ErrorType, ErrorTypeKind};

verus! {

/// The body of a request that creates or edits an arrangement.
pub struct ArrangementRequest {
    pub strong_match_conversion: bool,
    pub name: String,
    /// `None` makes the arrangement manual.
    pub strategy: Option<ArrangementStrategyRequest>,
}

/// The body of a request that creates a manual group in an arrangement.
pub struct CreateManualGroupRequest {
    pub arrangement_id: i32,
    pub name: String,
}

/// The body of a request that adds pictures to, or removes them from, a
/// manual group.
pub struct ModifyGroupPicturesRequest {
    pub group_id: i32,
    pub arrangement_id: i32,
    pub picture_ids: Vec<i64>,
}

/// Only a manual arrangement, one without a strategy, has groups whose
/// pictures are chosen by hand.
pub fn check_manual_arrangement(arrangement: &Arrangement) -> (r: Result<(), ErrorResponder>)
    ensures
        arrangement.strategy is None <==> r is Ok,
        r matches Err(e) ==> answers(e, ErrorType::GroupIsNotManual, false),
{
    if arrangement.strategy.is_some() {
        Err(ErrorType::GroupIsNotManual.res_no_rollback())
    } else {
        Ok(())
    }
}

/// Another arrangement of `all` than the one with id `id` depends on it.
pub open spec fn depended_on(all: Seq<ArrangementDetails>, id: i32) -> bool {
    exists|i: int|
        0 <= i < all.len() && all[i].arrangement.id != id && #[trigger] all[i].dependant_arrangements@.contains(id)
}

/// The message refusing to delete an arrangement that a hierarchy uses.
pub open spec fn used_in_hierarchy_message() -> Seq<char> {
    "Can’t delete this arrangement because it is used in a hierarchy"@
}

/// The message refusing to delete an arrangement on which another depends.
pub open spec fn depended_on_message() -> Seq<char> {
    "Can’t delete this arrangement because another arrangement depends on it"@
}

/// An arrangement can be deleted only when no hierarchy uses it and no other
/// arrangement of its owner depends on it. `hierarchy_uses` counts the
/// hierarchies that use it; `all` are the owner's arrangements with their
/// dependencies.
pub fn check_arrangement_deletable(arrangement_id: i32, hierarchy_uses: usize, all: &Vec<ArrangementDetails>) -> (r: Result<
    (),
    ErrorResponder,
>)
    ensures
        r is Ok <==> hierarchy_uses == 0 && !depended_on(all@, arrangement_id),
        hierarchy_uses > 0 ==> (r matches Err(e) && answers_with(
            e,
            422,
            ErrorTypeKind::UnprocessableEntity,
            used_in_hierarchy_message(),
        )),
        hierarchy_uses == 0 && depended_on(all@, arrangement_id) ==> (r matches Err(e) && answers_with(
            e,
            422,
            ErrorTypeKind::UnprocessableEntity,
            depended_on_message(),
        )),
{
    if hierarchy_uses > 0 {
        return Err(
            ErrorType::UnprocessableEntity(
                String::from_str("Can’t delete this arrangement because it is used in a hierarchy"),
            ).res(),
        );
    }
    let mut i: usize = 0;
    while i < all.len()
        invariant
            i <= all.len(),
            hierarchy_uses == 0,
            forall|j: int|
                0 <= j < i ==> !(all@[j].arrangement.id != arrangement_id
                    && #[trigger] all@[j].dependant_arrangements@.contains(arrangement_id)),
        decreases all.len() - i,
    {
        let a = &all[i];
        if a.arrangement.id != arrangement_id && contains_i32(&a.dependant_arrangements, arrangement_id) {
            return Err(
                ErrorType::UnprocessableEntity(
                    String::from_str("Can’t delete this arrangement because another arrangement depends on it"),
                ).res(),
            );
        }
        i = i + 1;
    }
    Ok(())
}

/// The sequence holds the value.
fn contains_i32(v: &Vec<i32>, x: i32) -> (r: bool)
    ensures
        r == v@.contains(x),
{
    let mut i: usize = 0;
    while i < v.len()
        invariant
            i <= v.len(),
            forall|j: int| 0 <= j < i ==> v@[j] != x,
        decreases v.len() - i,
    {
        if v[i] == x {
            return true;
        }
        i = i + 1;
    }
    false
}

/// The changes to the stored groups that the request `q` makes to an
/// arrangement whose strategy was `old_strategy`: those of editing its old
/// grouping; none without one, all its groups being then marked at once.
pub open spec fn strategy_group_changes(q: ArrangementStrategyRequest, old_strategy: Option<ArrangementStrategy>) -> Seq<
    GroupChange,
> {
    match old_strategy {
        Some(o) => group_changes_of(o.groupings->GroupByFilter_0.filters@, q.groupings->GroupByFilter_0.filters@),
        None => Seq::empty(),
    }
}

/// `s` is the strategy that the request `q` gives an arrangement whose
/// strategy was `old_strategy`: the request's filter and unicity, and the
/// old grouping edited by the request, or, without an old strategy, once
/// `mark_all_deleted` succeeded, a new grouping for the request.
pub open spec fn strategy_follows<
    F: Fn(String) -> Result<i32, ErrorResponder>,
    G: FnOnce() -> Result<(), ErrorResponder>,
>(
    q: ArrangementStrategyRequest,
    old_strategy: Option<ArrangementStrategy>,
    s: ArrangementStrategy,
    mark_all_deleted: G,
    create_group: F,
) -> bool {
    &&& s.filter == q.filter
    &&& s.preserve_unicity == q.preserve_unicity
    &&& s.groupings is GroupByFilter
    &&& match old_strategy {
        Some(o) => {
            &&& s.groupings->GroupByFilter_0.other_group_id == o.groupings->GroupByFilter_0.other_group_id
            &&& edited_by(
                o.groupings->GroupByFilter_0.filters@,
                q.groupings->GroupByFilter_0.filters@,
                create_group,
                s.groupings->GroupByFilter_0.filters@,
            )
        },
        None => {
            &&& mark_all_deleted.ensures((), Ok::<(), ErrorResponder>(()))
            &&& s.groupings->GroupByFilter_0.other_group_id is None
            &&& created_by(q.groupings->GroupByFilter_0.filters@, create_group, s.groupings->GroupByFilter_0.filters@)
        },
    }
}

/// The strategy of an edited arrangement. A strategy edits the old one when
/// there is one; else all the arrangement's groups are first marked to be
/// deleted by `mark_all_deleted` and a new strategy is made. Without a
/// strategy in the request, the arrangement becomes manual and its groups
/// stay as its manual groups. New groups come from `create_group`. With the
/// new strategy come the changes to make to the old strategy's stored
/// groups, as [`strategy_group_changes`] says.
pub fn edit_arrangement_strategy<
    F: Fn(String) -> Result<i32, ErrorResponder>,
    G: FnOnce() -> Result<(), ErrorResponder>,
>(
    old_strategy: Option<ArrangementStrategy>,
    request: Option<ArrangementStrategyRequest>,
    mark_all_deleted: G,
    create_group: F,
) -> (r: Result<Option<(ArrangementStrategy, Vec<GroupChange>)>, ErrorResponder>)
    requires
        request matches Some(q) ==> q.groupings is GroupByFilter,
        old_strategy is Some && request is Some ==> (old_strategy->Some_0.groupings is GroupByFilter && filter_ids_wf(
            old_strategy->Some_0.groupings->GroupByFilter_0.filters@,
        )),
        forall|name: String| create_group.requires((name,)),
        old_strategy is None && request is Some ==> mark_all_deleted.requires(()),
    ensures
        request is None ==> r == Ok::<Option<(ArrangementStrategy, Vec<GroupChange>)>, ErrorResponder>(None),
        request is Some && r is Ok ==> r->Ok_0 is Some,
        request is Some ==> (r matches Ok(Some((s, changes))) ==> {
            &&& strategy_follows(request->Some_0, old_strategy, s, mark_all_deleted, create_group)
            &&& changes@ == strategy_group_changes(request->Some_0, old_strategy)
        }),
        request is Some && r is Err ==> (failed_with(create_group, r->Err_0) || (old_strategy is None
            && mark_all_deleted.ensures((), Err::<(), ErrorResponder>(r->Err_0)))),
{
    match request {
        None => Ok(None),
        Some(q) => match old_strategy {
            Some(o) => match q.edit(o, create_group) {
                Ok(edited) => Ok(Some(edited)),
                Err(e) => Err(e),
            },
            None => {
                let marked = mark_all_deleted();
                match marked {
                    Ok(u) => {
                        assert(marked == Ok::<(), ErrorResponder>(u));
                        match q.create(create_group) {
                            Ok(s) => Ok(Some((s, Vec::new()))),
                            Err(e) => Err(e),
                        }
                    },
                    Err(e) => Err(e),
                }
            },
        },
    }
}

} // verus!
