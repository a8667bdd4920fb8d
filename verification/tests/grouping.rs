use archypix_app_back::api::groups::{check_arrangement_deletable, check_manual_arrangement, edit_arrangement_strategy};
use archypix_app_back::database::arrangement::{Arrangement, ArrangementDependencyType, ArrangementDetails};
use archypix_app_back::grouping::arrangement_strategy::{ArrangementStrategy, ArrangementStrategyRequest};
use archypix_app_back::grouping::group_by_filter::{FilterGrouping, FilterGroupingRequest, FilterGroupingValueRequest};
use archypix_app_back::grouping::group_by_filter_edit::GroupChange;
use archypix_app_back::grouping::group_by_tag::TagGrouping;
use archypix_app_back::grouping::grouping_run::{GroupingAction, GroupingEvent, GroupingRun, GroupingStage};
use archypix_app_back::grouping::grouping_process::{
    group_add_pictures, group_clear_pictures, SharedAddAction, group_manage_removed_pictures, group_remove_pictures, select_arrangements_to_group,
    record_ungroup, ungroup_filter,
};
use archypix_app_back::grouping::strategy_filtering::{FilterType, StrategyFiltering};
use archypix_app_back::grouping::strategy_grouping::{StrategyGrouping, StrategyGroupingRequest, UngroupRecord};
use archypix_app_back::grouping::topological_sorts::topological_sort_filtered;
use archypix_app_back::database::tag::Tag;
use archypix_app_back::utils::errors_catcher::{ErrorResponder, ErrorType};
use std::cell::RefCell;
use std::collections::{HashMap, HashSet};

fn tags_filter(ids: Vec<i32>) -> StrategyFiltering {
    StrategyFiltering::Filter(FilterType::IncludeTags(ids))
}

fn groups_filter(ids: Vec<i32>) -> StrategyFiltering {
    StrategyFiltering::Filter(FilterType::IncludeGroups(ids))
}

fn value(id: i32, name: &str, filter: StrategyFiltering) -> FilterGroupingValueRequest {
    FilterGroupingValueRequest { id, name: name.to_string(), filter }
}

fn set(v: &[i64]) -> HashSet<i64> {
    v.iter().cloned().collect()
}

fn arrangement(id: i32, strategy: Option<Vec<u8>>, groups_dependant: bool, tags_dependant: bool) -> Arrangement {
    Arrangement {
        id,
        user_id: 1,
        name: format!("a{}", id),
        strong_match_conversion: false,
        strategy,
        groups_dependant,
        tags_dependant,
        exif_dependant: false,
    }
}

fn details(a: Arrangement, dependant_arrangements: Vec<i32>) -> ArrangementDetails {
    ArrangementDetails {
        arrangement: a,
        strategy: ArrangementStrategy {
            filter: tags_filter(vec![1]),
            groupings: StrategyGrouping::GroupByFilter(FilterGrouping { filters: vec![], other_group_id: None }),
            preserve_unicity: false,
        },
        dependant_groups: vec![],
        dependant_arrangements,
        groups: vec![],
    }
}

/// A stand-in for the database: hands out the next group ids and records
/// the names of the groups made.
struct FakeGroups {
    next: RefCell<i32>,
    names: RefCell<Vec<String>>,
}

impl FakeGroups {
    fn new(first: i32) -> Self {
        FakeGroups { next: RefCell::new(first), names: RefCell::new(vec![]) }
    }
    fn create(&self, name: String) -> Result<i32, ErrorResponder> {
        let id = *self.next.borrow();
        *self.next.borrow_mut() = id + 1;
        self.names.borrow_mut().push(name);
        Ok(id)
    }
}

#[test]
fn filter_grouping_edit_keeps_renames_deletes_and_creates_in_request_order() {
    let mut grouping = FilterGrouping {
        filters: vec![(10, tags_filter(vec![1])), (11, tags_filter(vec![2])), (12, tags_filter(vec![3]))],
        other_group_id: Some(99),
    };
    let request = FilterGroupingRequest {
        filters: vec![
            value(0, "new one", tags_filter(vec![7])),
            value(12, "third", tags_filter(vec![8])),
            value(10, "first", tags_filter(vec![9])),
        ],
    };
    let changes = grouping.group_changes(&request);
    assert_eq!(
        changes,
        vec![GroupChange::Rename(10, "first".to_string()), GroupChange::MarkDeleted(11), GroupChange::Rename(12, "third".to_string())]
    );
    let db = FakeGroups::new(50);
    let returned = grouping.edit(request, |name| db.create(name)).unwrap();
    assert_eq!(returned, changes);
    assert_eq!(*db.names.borrow(), vec!["new one".to_string()]);
    assert_eq!(
        grouping.filters,
        vec![(50, tags_filter(vec![7])), (12, tags_filter(vec![8])), (10, tags_filter(vec![9]))]
    );
    assert_eq!(grouping.other_group_id, Some(99));
}

#[test]
fn filter_grouping_edit_with_the_same_groups_changes_nothing() {
    let filters = vec![(3, tags_filter(vec![1])), (4, groups_filter(vec![2]))];
    let mut grouping = FilterGrouping { filters: filters.clone(), other_group_id: None };
    let request = FilterGroupingRequest { filters: vec![value(3, "a", tags_filter(vec![1])), value(4, "b", groups_filter(vec![2]))] };
    let db = FakeGroups::new(100);
    let changes = grouping.edit(request, |name| db.create(name)).unwrap();
    assert_eq!(changes, vec![GroupChange::Rename(3, "a".to_string()), GroupChange::Rename(4, "b".to_string())]);
    assert_eq!(grouping.filters, filters);
    assert!(db.names.borrow().is_empty());
}

#[test]
fn filter_grouping_edit_passes_on_a_failed_creation() {
    let mut grouping = FilterGrouping { filters: vec![], other_group_id: None };
    let request = FilterGroupingRequest { filters: vec![value(0, "x", tags_filter(vec![1]))] };
    let r = grouping.edit(request, |_name| -> Result<i32, ErrorResponder> { ErrorType::ArrangementNotFound.res_err() });
    assert_eq!(r.unwrap_err().status(), 404);
}

#[test]
fn filter_grouping_create_makes_one_group_per_value() {
    let request = FilterGroupingRequest { filters: vec![value(0, "x", tags_filter(vec![1])), value(5, "y", tags_filter(vec![2]))] };
    let db = FakeGroups::new(20);
    let g = FilterGrouping::create(request, |name| db.create(name)).unwrap();
    assert_eq!(g.filters, vec![(20, tags_filter(vec![1])), (21, tags_filter(vec![2]))]);
    assert_eq!(g.other_group_id, None);
    assert_eq!(*db.names.borrow(), vec!["x".to_string(), "y".to_string()]);
}

#[test]
fn strategy_edit_and_replacement() {
    let old = ArrangementStrategy {
        filter: tags_filter(vec![1]),
        groupings: StrategyGrouping::GroupByFilter(FilterGrouping { filters: vec![(3, tags_filter(vec![1]))], other_group_id: Some(4) }),
        preserve_unicity: false,
    };
    let request = ArrangementStrategyRequest {
        filter: tags_filter(vec![5]),
        groupings: StrategyGroupingRequest::GroupByFilter(FilterGroupingRequest { filters: vec![value(0, "n", tags_filter(vec![6]))] }),
        preserve_unicity: true,
    };
    let db = FakeGroups::new(30);
    let marked = RefCell::new(false);
    let (edited, changes) = edit_arrangement_strategy(Some(old), Some(request.clone()), || {
        *marked.borrow_mut() = true;
        Ok(())
    }, |name| db.create(name))
    .unwrap()
    .unwrap();
    assert!(!*marked.borrow());
    assert_eq!(changes, vec![GroupChange::MarkDeleted(3)]);
    assert_eq!(edited.filter, tags_filter(vec![5]));
    assert!(edited.preserve_unicity);
    match edited.groupings {
        StrategyGrouping::GroupByFilter(f) => {
            assert_eq!(f.filters, vec![(30, tags_filter(vec![6]))]);
            assert_eq!(f.other_group_id, Some(4));
        }
        _ => panic!("not a filter grouping"),
    }
    let (created, changes) = edit_arrangement_strategy(None, Some(request), || {
        *marked.borrow_mut() = true;
        Ok(())
    }, |name| db.create(name))
    .unwrap()
    .unwrap();
    assert!(*marked.borrow());
    assert!(changes.is_empty());
    match created.groupings {
        StrategyGrouping::GroupByFilter(f) => assert_eq!(f.filters, vec![(31, tags_filter(vec![6]))]),
        _ => panic!("not a filter grouping"),
    }
    let manual = edit_arrangement_strategy(None, None, || Ok(()), |name| db.create(name)).unwrap();
    assert!(manual.is_none());
}

#[test]
fn filter_grouping_preserving_unicity_puts_a_picture_in_one_group() {
    let mut grouping = FilterGrouping { filters: vec![(1, tags_filter(vec![1])), (2, tags_filter(vec![2]))], other_group_id: None };
    let mut record = UngroupRecord::new(true);
    let pictures = set(&[100, 101, 102, 103]);
    let matched = vec![set(&[100, 101]), set(&[101, 102])];
    let (created, adds) = grouping.group_pictures(true, &mut record, &pictures, &matched, || Ok(7)).unwrap();
    assert!(created);
    assert_eq!(grouping.other_group_id, Some(7));
    let adds: Vec<(i32, HashSet<i64>)> = adds;
    assert_eq!(adds, vec![(1, set(&[100, 101])), (2, set(&[102])), (7, set(&[103]))]);
    assert_eq!(record.map.get(&1), Some(&set(&[102, 103])));
    assert_eq!(record.map.get(&2), Some(&set(&[100, 101, 103])));
}

#[test]
fn filter_grouping_without_unicity_lets_groups_share_pictures() {
    let mut grouping = FilterGrouping { filters: vec![(1, tags_filter(vec![1])), (2, tags_filter(vec![2]))], other_group_id: Some(9) };
    let mut record = UngroupRecord::new(false);
    let pictures = set(&[100, 101, 102]);
    let matched = vec![set(&[100, 101]), set(&[101, 102])];
    let (created, adds) = grouping.group_pictures(false, &mut record, &pictures, &matched, || Ok(7)).unwrap();
    assert!(!created);
    assert_eq!(adds, vec![(1, set(&[100, 101])), (2, set(&[101, 102]))]);
    assert!(record.map.is_empty());
}

fn tag(id: i32, name: &str) -> Tag {
    Tag { id, tag_group_id: 1, name: name.to_string(), color: vec![0, 0, 0], is_default: false }
}

#[test]
fn tag_grouping_makes_groups_for_tags_that_take_pictures() {
    let mut map = HashMap::new();
    map.insert(1, 40);
    let grouping = TagGrouping { tag_group_id: 1, tag_id_to_group_id: map, other_group_id: None, group_names_format: "".to_string() };
    let tags = vec![tag(1, "sea"), tag(2, "sky"), tag(3, "sun")];
    let pictures = set(&[100, 101, 102]);
    let matched = vec![set(&[100]), set(&[101]), set(&[])];
    assert_eq!(grouping.tags_needing_group(false, &pictures, &tags, &matched), vec![false, true, false]);
    assert_eq!(grouping.tags_needing_group(true, &pictures, &tags, &matched), vec![false, false, false]);
    assert_eq!(grouping.format_group_name(&tags[1]), "sky");
    assert_eq!(grouping.get_groups(), vec![40]);
}

#[test]
fn arrangements_to_group_are_selected_and_sorted() {
    let all = vec![
        details(arrangement(1, Some(vec![]), true, false), vec![2]),
        details(arrangement(2, Some(vec![]), false, true), vec![]),
        details(arrangement(3, Some(vec![]), false, false), vec![1]),
    ];
    let ids = |v: Vec<ArrangementDetails>| v.iter().map(|a| a.arrangement.id).collect::<Vec<i32>>();
    assert_eq!(ids(select_arrangements_to_group(all.clone(), 1, None, None).unwrap()), vec![2, 1, 3]);
    assert_eq!(ids(select_arrangements_to_group(all.clone(), 1, Some(1), None).unwrap()), vec![1]);
    assert_eq!(ids(select_arrangements_to_group(all.clone(), 1, Some(2), None).unwrap()), vec![2, 1]);
    let e = select_arrangements_to_group(all.clone(), 1, Some(8), None).unwrap_err();
    assert_eq!(e.status(), 422);
    let e = select_arrangements_to_group(all.clone(), 1, Some(1), Some(ArrangementDependencyType::new_tags_dependant())).unwrap_err();
    assert_eq!(e.status(), 422);
    let tags = select_arrangements_to_group(all.clone(), 1, None, Some(ArrangementDependencyType::new_tags_dependant())).unwrap();
    assert_eq!(ids(tags), vec![2, 1, 3]);
    let only_groups = topological_sort_filtered(all, &ArrangementDependencyType::new_groups_dependant());
    assert_eq!(ids(only_groups), vec![1, 3]);
}

#[test]
fn shared_groups_pass_on_their_changes() {
    let adds = group_add_pictures(&vec![1, 2], &vec![5, 6], &vec![vec![1], vec![]], &vec![1, 2]);
    assert_eq!(adds.len(), 4);
    match (&adds[0], &adds[1]) {
        (SharedAddAction::AddDefaultTags(5, tagged), SharedAddAction::GroupPictures(5, grouped)) => {
            assert_eq!(tagged, &vec![2]);
            assert_eq!(grouped, &vec![2]);
        }
        _ => panic!("the first user's actions are wrong"),
    }
    match (&adds[2], &adds[3]) {
        (SharedAddAction::AddDefaultTags(6, tagged), SharedAddAction::GroupPictures(6, grouped)) => {
            let mut six = tagged.clone();
            six.sort();
            assert_eq!(six, vec![1, 2]);
            assert_eq!(grouped, tagged);
        }
        _ => panic!("the second user's actions are wrong"),
    }
    assert!(group_add_pictures(&vec![], &vec![5], &vec![vec![]], &vec![]).is_empty());
    assert!(group_remove_pictures(&vec![1], &vec![1]));
    assert!(!group_remove_pictures(&vec![1], &vec![]));
    assert!(group_clear_pictures(&vec![4]));
    assert!(!group_clear_pictures(&vec![]));
    let removals = group_manage_removed_pictures(&vec![1, 2, 3], &vec![vec![10, 11], vec![12]], &vec![vec![1], vec![2, 3]]);
    assert_eq!(removals, vec![(10, vec![2, 3]), (11, vec![2, 3]), (12, vec![1])]);
    let kept_all = group_manage_removed_pictures(&vec![4], &vec![vec![20]], &vec![vec![4]]);
    assert_eq!(kept_all, vec![(20, vec![])]);
}

#[test]
fn only_manual_arrangements_take_pictures_by_hand() {
    assert!(check_manual_arrangement(&arrangement(1, None, false, false)).is_ok());
    let e = check_manual_arrangement(&arrangement(1, Some(vec![1]), false, false)).unwrap_err();
    assert_eq!(e.status(), 422);
}

#[test]
fn arrangements_in_use_cannot_be_deleted() {
    let all = vec![details(arrangement(1, None, false, false), vec![]), details(arrangement(2, None, false, false), vec![1])];
    assert!(check_arrangement_deletable(2, 0, &all).is_ok());
    let e = check_arrangement_deletable(1, 0, &all).unwrap_err();
    assert_eq!(e.status(), 422);
    let e = check_arrangement_deletable(2, 1, &all).unwrap_err();
    assert_eq!(e.status(), 422);
}

#[test]
fn ungroup_filter_keeps_grouped_pictures_the_filter_rejects() {
    let f = ungroup_filter(tags_filter(vec![1]), vec![5, 6]);
    assert_eq!(
        f,
        StrategyFiltering::And(Box::new(vec![
            StrategyFiltering::Not(Box::new(tags_filter(vec![1]))),
            groups_filter(vec![5, 6]),
        ]))
    );
}

#[test]
fn tag_groups_are_looked_up_or_made() {
    let mut map = HashMap::new();
    map.insert(1, 40);
    let mut grouping = TagGrouping { tag_group_id: 1, tag_id_to_group_id: map, other_group_id: None, group_names_format: "".to_string() };
    let db = FakeGroups::new(70);
    assert_eq!(grouping.get_or_create_tag_group(&tag(1, "sea"), |name| db.create(name)).unwrap(), (40, false));
    assert!(db.names.borrow().is_empty());
    assert_eq!(grouping.get_or_create_tag_group(&tag(2, "sky"), |name| db.create(name)).unwrap(), (70, true));
    assert_eq!(*db.names.borrow(), vec!["sky".to_string()]);
    assert_eq!(grouping.other_group_id, Some(70));
    assert_eq!(grouping.get_or_create_other_group(|| Ok(99)).unwrap(), (70, false));
}

#[test]
fn deleting_a_filter_grouping_marks_all_its_groups() {
    let g = StrategyGrouping::GroupByFilter(FilterGrouping { filters: vec![(3, tags_filter(vec![1])), (4, tags_filter(vec![2]))], other_group_id: Some(5) });
    assert_eq!(g.delete(), vec![3, 4, 5]);
}

#[test]
fn new_arrangements_take_the_dependencies_of_their_strategy() {
    let strategy = ArrangementStrategy {
        filter: groups_filter(vec![4]),
        groupings: StrategyGrouping::GroupByTags(TagGrouping {
            tag_group_id: 1,
            tag_id_to_group_id: HashMap::new(),
            other_group_id: None,
            group_names_format: "".to_string(),
        }),
        preserve_unicity: true,
    };
    let a = Arrangement::new(3, "By tag".to_string(), true, &strategy, vec![1, 2]);
    assert_eq!((a.id, a.user_id, a.name.as_str(), a.strong_match_conversion), (0, 3, "By tag", true));
    assert_eq!(a.strategy, Some(vec![1, 2]));
    assert!(a.groups_dependant && a.tags_dependant && !a.exif_dependant);
}

#[test]
fn ungrouping_records_the_pictures_for_every_group() {
    let mut record = UngroupRecord::new(true);
    record.add(3, set(&[1]));
    record_ungroup(&mut record, &vec![3, 4], &set(&[2, 5]));
    assert_eq!(record.map.get(&3), Some(&set(&[1, 2, 5])));
    assert_eq!(record.map.get(&4), Some(&set(&[2, 5])));
    let mut off = UngroupRecord::new(false);
    record_ungroup(&mut off, &vec![3], &set(&[2]));
    assert!(off.map.is_empty());
}

#[test]
fn copy_of_formula_keeps_shape_and_filters() {
    let formula = StrategyFiltering::Or(Box::new(vec![
        StrategyFiltering::And(Box::new(vec![
            tags_filter(vec![4, 2]),
            StrategyFiltering::Not(Box::new(groups_filter(vec![7]))),
        ])),
        StrategyFiltering::And(Box::new(Vec::new())),
    ]));
    let copy = formula.clone();
    assert_eq!(copy, formula);
    assert_eq!(copy.get_dependant_groups(), formula.get_dependant_groups());
    assert_eq!(copy.is_tags_dependant(), formula.is_tags_dependant());
}

#[test]
fn combined_formulas_list_the_filters_of_their_parts() {
    let a = StrategyFiltering::And(Box::new(vec![tags_filter(vec![1]), groups_filter(vec![2])]));
    let b = groups_filter(vec![3]);
    let expected = vec![FilterType::IncludeTags(vec![1]), FilterType::IncludeGroups(vec![2]), FilterType::IncludeGroups(vec![3])];
    let and = a.clone().and(b.clone());
    assert_eq!(and.get_all_filter_types().into_iter().cloned().collect::<Vec<_>>(), expected);
    let or = a.clone().or(b.clone());
    assert_eq!(or.get_all_filter_types().into_iter().cloned().collect::<Vec<_>>(), expected);
    let not = a.clone().not();
    assert_eq!(not.get_all_filter_types().into_iter().cloned().collect::<Vec<_>>(), expected[..2].to_vec());
}

#[test]
fn grouping_run_groups_saves_then_ungroups_and_removes() {
    let mut second = details(arrangement(2, None, false, false), vec![]);
    second.strategy.groupings =
        StrategyGrouping::GroupByFilter(FilterGrouping { filters: vec![(20, tags_filter(vec![3]))], other_group_id: Some(21) });
    let arrangements = vec![details(arrangement(1, None, false, false), vec![]), second];
    let mut run = GroupingRun::new(true);
    assert!(matches!(run.step(&arrangements, GroupingEvent::Start), GroupingAction::GroupArrangement(0)));
    assert!(matches!(run.step(&arrangements, GroupingEvent::Grouped(false)), GroupingAction::GroupArrangement(1)));
    assert!(matches!(run.step(&arrangements, GroupingEvent::Grouped(true)), GroupingAction::SaveStrategy(1)));
    assert!(matches!(run.step(&arrangements, GroupingEvent::Saved), GroupingAction::FindUngrouped(0, _)));
    match run.step(&arrangements, GroupingEvent::Found(set(&[5]))) {
        GroupingAction::FindUngrouped(1, filter) => assert_eq!(
            filter,
            StrategyFiltering::And(Box::new(vec![
                StrategyFiltering::Not(Box::new(tags_filter(vec![1]))),
                groups_filter(vec![20, 21]),
            ]))
        ),
        _ => panic!("the second arrangement is not ungrouped"),
    }
    assert!(matches!(run.step(&arrangements, GroupingEvent::Found(set(&[7, 8]))), GroupingAction::RemoveRecorded));
    assert_eq!(run.record.map.get(&20), Some(&set(&[7, 8])));
    assert_eq!(run.record.map.get(&21), Some(&set(&[7, 8])));
    assert_eq!(run.record.map.len(), 2);
    assert!(matches!(run.step(&arrangements, GroupingEvent::Removed), GroupingAction::Finish));
    assert_eq!(run.stage, GroupingStage::Finished);
}

#[test]
fn grouping_run_without_ungrouping_ends_after_grouping() {
    let arrangements = vec![details(arrangement(1, None, false, false), vec![])];
    let mut run = GroupingRun::new(false);
    assert!(matches!(run.step(&arrangements, GroupingEvent::Start), GroupingAction::GroupArrangement(0)));
    assert!(matches!(run.step(&arrangements, GroupingEvent::Grouped(false)), GroupingAction::Finish));
    let mut empty = GroupingRun::new(false);
    assert!(matches!(empty.step(&vec![], GroupingEvent::Start), GroupingAction::Finish));
}
