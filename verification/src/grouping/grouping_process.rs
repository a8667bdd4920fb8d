use vstd::prelude::*;
use vstd::string::StringExecFns;
use crate::database::arrangement::{ArrangementDetails, ArrangementDependencyType};
use crate::grouping::topological_sorts::{
    topological_sort, topological_sort_from_id, topological_sort_filtered, topologically_sorted, dependant_subset, matching_ids,
};
use crate::grouping::strategy_filtering::{StrategyFiltering, FilterType, formula_holds, all_hold};
use crate::database::picture::Picture;
use crate::database::picture_condition::{PictureLinks, any_in};
use crate::utils::errors_catcher::{ErrorResponder, ErrorType, answers_invalid_input};
use crate::utils::utils::{int_to_string, decimal};
use crate::grouping::picture_sets::{vec_to_set, set_to_vec, difference};
use std::collections::HashSet;
use crate::grouping::strategy_grouping::{UngroupRecord, records, lemma_records_trans, lemma_records_none};

verus! {

/// The arrangements kept when regrouping from the arrangement `id`: those
/// that depend on groups, and the arrangement itself.
pub open spec fn kept_from(s: Seq<ArrangementDetails>, id: i32) -> Seq<ArrangementDetails> {
    s.filter(|a: ArrangementDetails| a.arrangement.groups_dependant || a.arrangement.id == id)
}

/// Whether some arrangement of `s` has the id `id`.
pub open spec fn has_arrangement(s: Seq<ArrangementDetails>, id: i32) -> bool {
    exists|k: int| 0 <= k < s.len() && #[trigger] s[k].arrangement.id == id
}

/// The message refusing both filters at once.
pub open spec fn both_filters_message() -> Seq<char> {
    "Cannot filter by arrangement id and dependency type at the same time"@
}

/// The message refusing an arrangement id that is not one of the user.
pub open spec fn unknown_arrangement_message(arrangement_id: i32, user_id: i32) -> Seq<char> {
    "Arrangement of ID "@ + decimal(arrangement_id as int) + " is not an arrangement of the user "@ + decimal(user_id as int)
}

/// Keeps, in order, the arrangements that depend on groups or have the id `id`.
fn retain_from(arrangements: Vec<ArrangementDetails>, id: i32) -> (r: Vec<ArrangementDetails>)
    ensures
        r@ == kept_from(arrangements@, id),
{
    let ghost s = arrangements@;
    let ghost pred = |a: ArrangementDetails| a.arrangement.groups_dependant || a.arrangement.id == id;
    let mut rest = arrangements;
    let mut r: Vec<ArrangementDetails> = Vec::new();
    assert(s.subrange(0, 0).filter(pred) =~= Seq::<ArrangementDetails>::empty());
    while rest.len() > 0
        invariant
            rest@.len() <= s.len(),
            rest@ == s.subrange(s.len() - rest@.len(), s.len() as int),
            r@ == s.subrange(0, s.len() - rest@.len()).filter(pred),
            pred == (|a: ArrangementDetails| a.arrangement.groups_dependant || a.arrangement.id == id),
        decreases rest.len(),
    {
        let ghost c = s.len() - rest@.len();
        let x = rest.remove(0);
        assert(s.subrange(0, c + 1).drop_last() =~= s.subrange(0, c));
        assert(s.subrange(0, c + 1).last() == x);
        proof {
            reveal(Seq::filter);
            let prev = s.subrange(0, c).filter(pred);
            assert(s.subrange(0, c + 1).filter(pred) == if pred(x) { prev.push(x) } else { prev });
        }
        if x.arrangement.groups_dependant || x.arrangement.id == id {
            r.push(x);
        }
        assert(rest@ =~= s.subrange(s.len() - rest@.len(), s.len() as int));
    }
    assert(s.subrange(0, s.len() as int) =~= s);
    r
}

/// The position of the first arrangement with the id `id`, if any.
fn find_arrangement(arrangements: &Vec<ArrangementDetails>, id: i32) -> (r: Option<usize>)
    ensures
        r is None <==> !has_arrangement(arrangements@, id),
        r matches Some(k) ==> k < arrangements@.len() && arrangements@[k as int].arrangement.id == id,
{
    let mut i: usize = 0;
    while i < arrangements.len()
        invariant
            i <= arrangements.len(),
            forall|k: int| 0 <= k < i ==> #[trigger] arrangements@[k].arrangement.id != id,
        decreases arrangements.len() - i,
    {
        if arrangements[i].arrangement.id == id {
            return Some(i);
        }
        i = i + 1;
    }
    None
}

/// The arrangements of a user whose groups must be recomputed, in the
/// order in which to recompute them, as `group_pictures` chooses them:
/// - with an arrangement id, that arrangement and the arrangements that
///   depend on it, directly or not, among those that depend on groups;
/// - with a dependency type, the arrangements that share a kind of
///   dependency with it, and those that depend on them, directly or not;
/// - with neither, all of them.
///
/// Both filters at once are refused, as is an arrangement id that is not
/// one of the user's arrangements.
pub fn select_arrangements_to_group(
    arrangements: Vec<ArrangementDetails>,
    user_id: i32,
    arrangement_id_filter: Option<i32>,
    dependency_type_filter: Option<ArrangementDependencyType>,
) -> (r: Result<Vec<ArrangementDetails>, ErrorResponder>)
    ensures
        arrangement_id_filter is Some && dependency_type_filter is Some ==> (r matches Err(e)
            && answers_invalid_input(e, both_filters_message())),
        arrangement_id_filter is Some && dependency_type_filter is None ==> {
            let id = arrangement_id_filter->Some_0;
            &&& !has_arrangement(arrangements@, id) ==> (r matches Err(e)
                && answers_invalid_input(e, unknown_arrangement_message(id, user_id)))
            &&& has_arrangement(arrangements@, id) ==> (r matches Ok(v)
                && topologically_sorted(dependant_subset(kept_from(arrangements@, id), set![id]), v@))
        },
        arrangement_id_filter is None && dependency_type_filter is Some ==> (r matches Ok(v)
            && topologically_sorted(dependant_subset(arrangements@, matching_ids(arrangements@, dependency_type_filter->Some_0)), v@)),
        arrangement_id_filter is None && dependency_type_filter is None ==> (r matches Ok(v)
            && topologically_sorted(arrangements@, v@)),
{
    if arrangement_id_filter.is_some() && dependency_type_filter.is_some() {
        let msg = String::from_str("Cannot filter by arrangement id and dependency type at the same time");
        return Err(ErrorType::InvalidInput(msg).res());
    }
    match arrangement_id_filter {
        Some(arrangement_id) => {
            match find_arrangement(&arrangements, arrangement_id) {
                None => {
                    let msg = String::from_str("Arrangement of ID ")
                        .concat(int_to_string(arrangement_id as i64).as_str())
                        .concat(" is not an arrangement of the user ")
                        .concat(int_to_string(user_id as i64).as_str());
                    Err(ErrorType::InvalidInput(msg).res())
                },
                Some(k) => {
                    let kept = retain_from(arrangements, arrangement_id);
                    Ok(topological_sort_from_id(kept, arrangement_id))
                },
            }
        },
        None => {
            match dependency_type_filter {
                Some(dependency_type) => Ok(topological_sort_filtered(arrangements, &dependency_type)),
                None => Ok(topological_sort(arrangements)),
            }
        },
    }
}

/// The pictures that the user `u` could see before pictures were added to a
/// group: those that one of the shared instances of the group for `u` lists.
pub open spec fn accessible_to(users: Seq<i32>, accessible: Seq<Vec<i64>>, u: i32) -> Set<i64> {
    Set::new(|x: i64| exists|j: int| 0 <= j < users.len() && users[j] == u && (#[trigger] accessible[j])@.contains(x))
}

/// The pictures that the user `u` could see among those of `accessible`.
fn accessible_set(users: &Vec<i32>, accessible: &Vec<Vec<i64>>, u: i32) -> (r: HashSet<i64>)
    requires
        users@.len() == accessible@.len(),
    ensures
        r@ == accessible_to(users@, accessible@, u),
{
    let mut s: HashSet<i64> = HashSet::new();
    let mut j: usize = 0;
    while j < users.len()
        invariant
            j <= users@.len(),
            users@.len() == accessible@.len(),
            s@ == Set::new(|x: i64| exists|i: int| 0 <= i < j && users@[i] == u && (#[trigger] accessible@[i])@.contains(x)),
        decreases users.len() - j,
    {
        if users[j] == u {
            let more = vec_to_set(&accessible[j]);
            let ghost before = s@;
            let mut rest = set_to_vec(&more);
            let mut k: usize = 0;
            while k < rest.len()
                invariant
                    k <= rest@.len(),
                    rest@.to_set() == more@,
                    s@ == before.union(rest@.subrange(0, k as int).to_set()),
                decreases rest.len() - k,
            {
                s.insert(rest[k]);
                proof {
                    Seq::lemma_to_set_insert_commutes(rest@.subrange(0, k as int), rest@[k as int]);
                    assert(rest@.subrange(0, k as int) + seq![rest@[k as int]] =~= rest@.subrange(0, k + 1));
                    assert(s@ =~= before.union(rest@.subrange(0, k + 1).to_set()));
                }
                k = k + 1;
            }
            proof {
                assert(rest@.subrange(0, rest@.len() as int) =~= rest@);
                assert(s@ =~= Set::new(|x: i64| exists|i: int| 0 <= i < j + 1 && users@[i] == u && (#[trigger] accessible@[i])@.contains(x))) by {
                    assert forall|x: i64| s@.contains(x) <==> exists|i: int| 0 <= i < j + 1 && users@[i] == u
                        && (#[trigger] accessible@[i])@.contains(x) by {
                        if more@.contains(x) {
                            assert(accessible@[j as int]@.contains(x));
                        }
                        if exists|i: int| 0 <= i < j + 1 && users@[i] == u && (#[trigger] accessible@[i])@.contains(x) {
                            let i = choose|i: int| 0 <= i < j + 1 && users@[i] == u && (#[trigger] accessible@[i])@.contains(x);
                            if i == j {
                                assert(more@.contains(x));
                            }
                        }
                    }
                }
            }
        } else {
            proof {
                assert(s@ =~= Set::new(|x: i64| exists|i: int| 0 <= i < j + 1 && users@[i] == u && (#[trigger] accessible@[i])@.contains(x))) by {
                    assert forall|x: i64| s@.contains(x) <==> exists|i: int| 0 <= i < j + 1 && users@[i] == u
                        && (#[trigger] accessible@[i])@.contains(x) by {
                        if exists|i: int| 0 <= i < j + 1 && users@[i] == u && (#[trigger] accessible@[i])@.contains(x) {
                            let i = choose|i: int| 0 <= i < j + 1 && users@[i] == u && (#[trigger] accessible@[i])@.contains(x);
                            assert(i != j);
                        }
                    }
                }
            }
        }
        j = j + 1;
    }
    s
}

/// What passing on pictures added to a group does for a user the group is
/// shared with.
pub enum SharedAddAction {
    /// Give the pictures the default tags of each tag group of the user in
    /// which they have no tag, as [`PictureTag::default_tags_to_add`]
    /// lists them.
    AddDefaultTags(i32, Vec<i64>),
    /// Group the pictures in the arrangements of the user, without
    /// ungrouping any: the arrangements of [`select_arrangements_to_group`]
    /// with no filter, taken through a
    /// [`crate::grouping::grouping_run::GroupingRun`] that does not ungroup.
    GroupPictures(i32, Vec<i64>),
}

/// `ps` lists, once each, the added pictures that the user of the k-th
/// shared instance could not see before.
pub open spec fn gained_by(ps: Seq<i64>, k: int, users: Seq<i32>, accessible: Seq<Vec<i64>>, added: Seq<i64>) -> bool {
    &&& ps.no_duplicates()
    &&& ps.to_set() == added.to_set().difference(accessible_to(users, accessible, users[k]))
}

/// After pictures are added to a group, what must be done for the users
/// the group is shared with: for each shared instance, in order, the added
/// pictures its user could not see before (`accessible[k]`: the pictures
/// the k-th instance's user could see) first get the user's default tags,
/// then are grouped in the user's arrangements. Nothing is to be done when
/// no picture was to be added.
pub fn group_add_pictures(picture_ids: &Vec<i64>, shared_group_users: &Vec<i32>, accessible: &Vec<Vec<i64>>, added: &Vec<i64>) -> (r: Vec<
    SharedAddAction,
>)
    requires
        shared_group_users@.len() == accessible@.len(),
    ensures
        picture_ids@.len() == 0 ==> r@.len() == 0,
        picture_ids@.len() > 0 ==> r@.len() == 2 * shared_group_users@.len(),
        picture_ids@.len() > 0 ==> forall|k: int| 0 <= k < shared_group_users@.len() ==> {
            &&& (#[trigger] r@[2 * k]) matches SharedAddAction::AddDefaultTags(u, ps) && u == shared_group_users@[k]
                && gained_by(ps@, k, shared_group_users@, accessible@, added@)
            &&& r@[2 * k + 1] matches SharedAddAction::GroupPictures(u, ps) && u == shared_group_users@[k]
                && gained_by(ps@, k, shared_group_users@, accessible@, added@)
        },
{
    let mut r: Vec<SharedAddAction> = Vec::new();
    if picture_ids.len() == 0 {
        return r;
    }
    let gained = gained_pictures(shared_group_users, accessible, added);
    let mut k: usize = 0;
    while k < gained.len()
        invariant
            k <= gained@.len(),
            gained@.len() == shared_group_users@.len(),
            shared_group_users@.len() == accessible@.len(),
            forall|i: int| 0 <= i < gained@.len() ==> (#[trigger] gained@[i]).0 == shared_group_users@[i]
                && gained_by(gained@[i].1@, i, shared_group_users@, accessible@, added@),
            r@.len() == 2 * k,
            forall|i: int| 0 <= i < k ==> {
                &&& (#[trigger] r@[2 * i]) matches SharedAddAction::AddDefaultTags(u, ps) && u == shared_group_users@[i]
                    && gained_by(ps@, i, shared_group_users@, accessible@, added@)
                &&& r@[2 * i + 1] matches SharedAddAction::GroupPictures(u, ps) && u == shared_group_users@[i]
                    && gained_by(ps@, i, shared_group_users@, accessible@, added@)
            },
        decreases gained.len() - k,
    {
        let ghost before = r@;
        let u = gained[k].0;
        r.push(SharedAddAction::AddDefaultTags(u, copy_pictures(&gained[k].1)));
        r.push(SharedAddAction::GroupPictures(u, copy_pictures(&gained[k].1)));
        proof {
            assert forall|i: int| 0 <= i < k + 1 implies {
                &&& (#[trigger] r@[2 * i]) matches SharedAddAction::AddDefaultTags(u, ps) && u == shared_group_users@[i]
                    && gained_by(ps@, i, shared_group_users@, accessible@, added@)
                &&& r@[2 * i + 1] matches SharedAddAction::GroupPictures(u, ps) && u == shared_group_users@[i]
                    && gained_by(ps@, i, shared_group_users@, accessible@, added@)
            } by {
                if i < k {
                    assert(r@[2 * i] == before[2 * i]);
                    assert(r@[2 * i + 1] == before[2 * i + 1]);
                }
            }
        }
        k = k + 1;
    }
    r
}

/// For each shared instance, in order, its user and the added pictures
/// that the user could not see before.
fn gained_pictures(shared_group_users: &Vec<i32>, accessible: &Vec<Vec<i64>>, added: &Vec<i64>) -> (r: Vec<(i32, Vec<i64>)>)
    requires
        shared_group_users@.len() == accessible@.len(),
    ensures
        r@.len() == shared_group_users@.len(),
        forall|k: int| 0 <= k < r@.len() ==> (#[trigger] r@[k]).0 == shared_group_users@[k]
            && gained_by(r@[k].1@, k, shared_group_users@, accessible@, added@),
{
    let mut r: Vec<(i32, Vec<i64>)> = Vec::new();
    let added_set = vec_to_set(added);
    let mut k: usize = 0;
    while k < shared_group_users.len()
        invariant
            k <= shared_group_users@.len(),
            shared_group_users@.len() == accessible@.len(),
            added_set@ == added@.to_set(),
            r@.len() == k,
            forall|i: int| 0 <= i < k ==> (#[trigger] r@[i]).0 == shared_group_users@[i]
                && gained_by(r@[i].1@, i, shared_group_users@, accessible@, added@),
        decreases shared_group_users.len() - k,
    {
        let u = shared_group_users[k];
        let seen = accessible_set(shared_group_users, accessible, u);
        let gained = difference(&added_set, &seen);
        r.push((u, set_to_vec(&gained)));
        k = k + 1;
    }
    r
}

/// Whether removing pictures from a group must be passed on to the users
/// the group is shared with: only when pictures were to be removed and
/// some were removed.
pub fn group_remove_pictures(picture_ids: &Vec<i64>, removed: &Vec<i64>) -> (r: bool)
    ensures
        r == (picture_ids@.len() > 0 && removed@.len() > 0),
{
    picture_ids.len() > 0 && removed.len() > 0
}

/// Whether clearing a group must be passed on to the users the group is
/// shared with: only when pictures were removed.
pub fn group_clear_pictures(removed: &Vec<i64>) -> (r: bool)
    ensures
        r == (removed@.len() > 0),
{
    removed.len() > 0
}

/// The pictures of `removed`, in order, that are not in `still`: the
/// removed pictures that a user lost access to, `still` being those the
/// user can still access.
pub open spec fn lost_pictures(removed: Seq<i64>, still: Seq<i64>) -> Seq<i64>
    decreases removed.len(),
{
    if removed.len() == 0 {
        Seq::empty()
    } else {
        let prev = lost_pictures(removed.drop_last(), still);
        if still.contains(removed.last()) {
            prev
        } else {
            prev.push(removed.last())
        }
    }
}

/// A picture is lost exactly when it was removed and cannot be accessed
/// any more.
pub proof fn lemma_lost_pictures(removed: Seq<i64>, still: Seq<i64>, p: i64)
    ensures
        lost_pictures(removed, still).contains(p) <==> (removed.contains(p) && !still.contains(p)),
    decreases removed.len(),
{
    if removed.len() > 0 {
        lemma_lost_pictures(removed.drop_last(), still, p);
        let prev = lost_pictures(removed.drop_last(), still);
        assert(removed =~= removed.drop_last().push(removed.last()));
        if removed.contains(p) && !still.contains(p) && !prev.contains(p) {
            let i = choose|i: int| 0 <= i < removed.len() && removed[i] == p;
            if i < removed.len() - 1 {
                assert(removed.drop_last()[i] == p);
            }
            assert(prev.push(removed.last())[prev.len() as int] == p);
        }
        if prev.contains(p) {
            let i = choose|i: int| 0 <= i < prev.len() && prev[i] == p;
            assert(prev.push(removed.last())[i] == p);
            let j = choose|j: int| 0 <= j < removed.drop_last().len() && removed.drop_last()[j] == p;
            assert(removed[j] == p);
        }
        if lost_pictures(removed, still).contains(p) && !prev.contains(p) {
            let i = choose|i: int| 0 <= i < lost_pictures(removed, still).len() && lost_pictures(removed, still)[i] == p;
            assert(removed[removed.len() - 1] == p);
        }
    }
}

/// The removed pictures of `removed`, in order, that are not in `still`.
fn lost_of(removed: &Vec<i64>, still: &Vec<i64>) -> (r: Vec<i64>)
    ensures
        r@ == lost_pictures(removed@, still@),
{
    let mut r: Vec<i64> = Vec::new();
    let mut i: usize = 0;
    while i < removed.len()
        invariant
            i <= removed@.len(),
            r@ == lost_pictures(removed@.subrange(0, i as int), still@),
        decreases removed.len() - i,
    {
        assert(removed@.subrange(0, i + 1).drop_last() =~= removed@.subrange(0, i as int));
        let p = removed[i];
        let mut found = false;
        let mut j: usize = 0;
        while j < still.len()
            invariant
                j <= still@.len(),
                found <==> exists|t: int| 0 <= t < j && still@[t] == p,
            decreases still.len() - j,
        {
            if still[j] == p {
                found = true;
            }
            j = j + 1;
        }
        if !found {
            r.push(p);
        }
        i = i + 1;
    }
    assert(removed@.subrange(0, removed@.len() as int) =~= removed@);
    r
}

/// The removals that pass on a removal of pictures to the users a group is
/// shared with: for each of them, in order, each of its groups
/// (`user_groups[k]`) with the removed pictures (`removed`) that the user
/// lost access to, those that are not among the removed pictures the user
/// can still access (`accessible[k]`).
pub fn group_manage_removed_pictures(removed: &Vec<i64>, user_groups: &Vec<Vec<i32>>, accessible: &Vec<Vec<i64>>) -> (r: Vec<
    (i32, Vec<i64>),
>)
    requires
        user_groups@.len() == accessible@.len(),
    ensures
        r@.len() == removal_count(user_groups@),
        forall|k: int, g: int| 0 <= k < user_groups@.len() && 0 <= g < user_groups@[k]@.len() ==>
            (#[trigger] r@[removal_index(user_groups@, k) + g]).0 == user_groups@[k]@[g]
            && r@[removal_index(user_groups@, k) + g].1@ == lost_pictures(removed@, accessible@[k]@),
{
    let mut lost: Vec<Vec<i64>> = Vec::new();
    let mut k: usize = 0;
    while k < accessible.len()
        invariant
            k <= accessible@.len(),
            lost@.len() == k,
            forall|i: int| 0 <= i < k ==> (#[trigger] lost@[i])@ == lost_pictures(removed@, accessible@[i]@),
        decreases accessible.len() - k,
    {
        lost.push(lost_of(removed, &accessible[k]));
        k = k + 1;
    }
    removals_for(user_groups, &lost)
}

/// For each user, in order, each of its groups (`user_groups[k]`) with the
/// pictures `pictures[k]`.
fn removals_for(user_groups: &Vec<Vec<i32>>, pictures: &Vec<Vec<i64>>) -> (r: Vec<(i32, Vec<i64>)>)
    requires
        user_groups@.len() == pictures@.len(),
    ensures
        r@.len() == removal_count(user_groups@),
        forall|k: int, g: int| 0 <= k < user_groups@.len() && 0 <= g < user_groups@[k]@.len() ==>
            (#[trigger] r@[removal_index(user_groups@, k) + g]).0 == user_groups@[k]@[g]
            && r@[removal_index(user_groups@, k) + g].1@ == pictures@[k]@,
{
    let mut r: Vec<(i32, Vec<i64>)> = Vec::new();
    let mut k: usize = 0;
    while k < user_groups.len()
        invariant
            k <= user_groups@.len(),
            user_groups@.len() == pictures@.len(),
            r@.len() == removal_index(user_groups@, k as int),
            forall|i: int, g: int| 0 <= i < k && 0 <= g < user_groups@[i]@.len() ==>
                (#[trigger] r@[removal_index(user_groups@, i) + g]).0 == user_groups@[i]@[g]
                && r@[removal_index(user_groups@, i) + g].1@ == pictures@[i]@,
        decreases user_groups.len() - k,
    {
        let mut g: usize = 0;
        let ghost base = r@.len();
        proof {
            lemma_removal_index_step(user_groups@, k as int);
        }
        while g < user_groups[k].len()
            invariant
                k < user_groups@.len(),
                user_groups@.len() == pictures@.len(),
                g <= user_groups@[k as int]@.len(),
                base == removal_index(user_groups@, k as int),
                r@.len() == base + g,
                forall|i: int, h: int| 0 <= i < k && 0 <= h < user_groups@[i]@.len() ==>
                    (#[trigger] r@[removal_index(user_groups@, i) + h]).0 == user_groups@[i]@[h]
                    && r@[removal_index(user_groups@, i) + h].1@ == pictures@[i]@,
                forall|h: int| 0 <= h < g ==> (#[trigger] r@[base + h]).0 == user_groups@[k as int]@[h]
                    && r@[base + h].1@ == pictures@[k as int]@,
            decreases user_groups@[k as int]@.len() - g,
        {
            let ghost before = r@;
            let item = (user_groups[k][g], copy_pictures(&pictures[k]));
            let ghost item_g = item;
            r.push(item);
            assert(r@ == before.push(item_g));
            proof {
                assert forall|i: int, h: int| 0 <= i < k && 0 <= h < user_groups@[i]@.len() implies
                    (#[trigger] r@[removal_index(user_groups@, i) + h]).0 == user_groups@[i]@[h]
                    && r@[removal_index(user_groups@, i) + h].1@ == pictures@[i]@ by {
                    lemma_removal_index_bound(user_groups@, i, k as int);
                    assert(removal_index(user_groups@, i) + h < base);
                    assert(before.len() == base + g);
                    let x = removal_index(user_groups@, i) + h;
                    assert(0 <= removal_index(user_groups@, i));
                    assert(0 <= x < before.len());
                    assert(r@[x] == before[x]);
                }
            }
            g = g + 1;
        }
        proof {
            assert forall|i: int, h: int| 0 <= i < k + 1 && 0 <= h < user_groups@[i]@.len() implies
                (#[trigger] r@[removal_index(user_groups@, i) + h]).0 == user_groups@[i]@[h]
                && r@[removal_index(user_groups@, i) + h].1@ == pictures@[i]@ by {
                if i == k {
                    assert(r@[base + h].0 == user_groups@[k as int]@[h]);
                }
            }
        }
        k = k + 1;
    }
    r
}

/// The number of removals before those for the k-th user.
pub open spec fn removal_index(user_groups: Seq<Vec<i32>>, k: int) -> int
    decreases k,
{
    if k <= 0 {
        0
    } else {
        removal_index(user_groups, k - 1) + user_groups[k - 1]@.len()
    }
}

/// The number of removals.
pub open spec fn removal_count(user_groups: Seq<Vec<i32>>) -> int {
    removal_index(user_groups, user_groups.len() as int)
}

proof fn lemma_removal_index_step(user_groups: Seq<Vec<i32>>, k: int)
    requires
        0 <= k,
    ensures
        removal_index(user_groups, k + 1) == removal_index(user_groups, k) + user_groups[k]@.len(),
{
}

proof fn lemma_removal_index_nonneg(user_groups: Seq<Vec<i32>>, i: int)
    ensures
        0 <= removal_index(user_groups, i),
    decreases i,
{
    if i > 0 {
        lemma_removal_index_nonneg(user_groups, i - 1);
    }
}

proof fn lemma_removal_index_bound(user_groups: Seq<Vec<i32>>, i: int, k: int)
    requires
        0 <= i < k <= user_groups.len(),
    ensures
        0 <= removal_index(user_groups, i),
        removal_index(user_groups, i) + user_groups[i]@.len() <= removal_index(user_groups, k),
    decreases k,
{
    lemma_removal_index_nonneg(user_groups, i);
    if i < k - 1 {
        lemma_removal_index_bound(user_groups, i, k - 1);
    }
}

/// A copy of a list of picture ids.
fn copy_pictures(v: &Vec<i64>) -> (r: Vec<i64>)
    ensures
        r@ == v@,
{
    crate::database::picture_condition::copy_values(v)
}

/// The filter of the pictures to take out of the groups `group_ids` of an
/// arrangement whose filter is `filter`: those of these groups that the
/// filter does not match.
pub fn ungroup_filter(filter: StrategyFiltering, group_ids: Vec<i32>) -> (r: StrategyFiltering)
    ensures
        r matches StrategyFiltering::And(fs) && fs@ == seq![StrategyFiltering::Not(Box::new(filter)),
            StrategyFiltering::Filter(FilterType::IncludeGroups(group_ids))],
{
    filter.not().and(FilterType::IncludeGroups(group_ids).to_strategy())
}

/// Records, for each of the groups of an arrangement, in order, the pictures
/// that its filter no longer matches, to take them out of the group.
pub fn record_ungroup(record: &mut UngroupRecord, group_ids: &Vec<i32>, pictures: &HashSet<i64>)
    ensures
        records(
            *old(record),
            *final(record),
            Seq::new(group_ids@.len(), |k: int| (group_ids@[k], pictures@)),
        ),
{
    let ghost start = *record;
    proof {
        lemma_records_none(start);
        assert(Seq::new(0, |k: int| (group_ids@[k], pictures@)) =~= Seq::<(i32, Set<i64>)>::empty());
    }
    let mut i: usize = 0;
    while i < group_ids.len()
        invariant
            i <= group_ids@.len(),
            records(start, *record, Seq::new(i as nat, |k: int| (group_ids@[k], pictures@))),
        decreases group_ids.len() - i,
    {
        let ghost before = *record;
        let copy = difference(pictures, &HashSet::new());
        assert(copy@ =~= pictures@);
        record.add(group_ids[i], copy);
        proof {
            let x = Seq::new(i as nat, |k: int| (group_ids@[k], pictures@));
            let y = seq![(group_ids@[i as int], pictures@)];
            lemma_records_trans(start, before, *record, x, y);
            assert(x + y =~= Seq::new((i + 1) as nat, |k: int| (group_ids@[k], pictures@)));
        }
        i = i + 1;
    }
}

/// The filter that [`ungroup_filter`] makes, which selects the pictures to
/// take out of an arrangement's groups, keeps exactly the pictures of these
/// groups that the arrangement's filter no longer matches.
pub proof fn law_ungroup_filter(filter: StrategyFiltering, group_ids: Vec<i32>, r: StrategyFiltering, p: Picture, l: PictureLinks)
    requires
        r matches StrategyFiltering::And(fs) && fs@ == seq![StrategyFiltering::Not(Box::new(filter)),
            StrategyFiltering::Filter(FilterType::IncludeGroups(group_ids))],
    ensures
        formula_holds(r, p, l) <==> !formula_holds(filter, p, l) && any_in(group_ids@, l.groups),
{
    let fs = seq![StrategyFiltering::Not(Box::new(filter)), StrategyFiltering::Filter(FilterType::IncludeGroups(group_ids))];
    assert(fs.subrange(0, 1).subrange(0, 0) =~= Seq::<StrategyFiltering>::empty());
    assert(fs.subrange(0, 1) =~= seq![StrategyFiltering::Not(Box::new(filter))]);
    assert(all_hold(fs.subrange(0, 1), p, l) == (all_hold(fs.subrange(0, 1).subrange(0, 0), p, l) && formula_holds(fs[0], p, l)));
    assert(all_hold(fs, p, l) == (all_hold(fs.subrange(0, 1), p, l) && formula_holds(fs[1], p, l)));
}

} // verus!
