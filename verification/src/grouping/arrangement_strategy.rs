use vstd::prelude::*;
use crate::database::picture::PictureOrientation;
use crate::database::arrangement::ArrangementDependencyType;
use crate::grouping::strategy_filtering::{StrategyFiltering, FilterType, leaves, included_groups};
use crate::grouping::group_by_filter_edit::{filter_ids_wf, edited_by, created_by, failed_with, group_changes_of, GroupChange};
use crate::utils::errors_catcher::ErrorResponder;
use crate::grouping::group_by_filter::{formula_groups_dependant, formula_tags_dependant, formula_exif_dependant, filters_dependant_groups};
use crate::grouping::strategy_grouping::{
    StrategyGrouping, StrategyGroupingRequest, grouping_dependant_groups, grouping_groups_dependant,
    grouping_tags_dependant, grouping_exif_dependant,
};

verus! {

/// Values of one EXIF field, used by filters and groupings.
///
/// Dates are seconds since the Unix epoch (naive, UTC). Latitudes and
/// longitudes are millionths of a degree, focal lengths hundredths of a
/// millimetre and f-numbers tenths, which are the scales the database
/// stores them with.
#[derive(Debug, Clone, PartialEq)]
pub enum ExifDataTypeValue {
    CreationDate(Vec<i64>),
    EditionDate(Vec<i64>),
    Latitude(Vec<i64>),
    Longitude(Vec<i64>),
    Altitude(Vec<i16>),
    Orientation(Vec<PictureOrientation>),
    Width(Vec<i16>),
    Height(Vec<i16>),
    CameraBrand(Vec<String>),
    CameraModel(Vec<String>),
    FocalLength(Vec<i64>),
    ExposureTime(Vec<(i32, i32)>),
    IsoSpeed(Vec<i32>),
    FNumber(Vec<i64>),
}

/// How an arrangement selects and groups its pictures.
#[derive(Debug, Clone, PartialEq)]
pub struct ArrangementStrategy {
    pub filter: StrategyFiltering,
    pub groupings: StrategyGrouping,
    /// If true, a picture will not be able to appear in two different groups.
    pub preserve_unicity: bool,
}

/// Request for an arrangement strategy.
#[derive(Debug, Clone, PartialEq)]
pub struct ArrangementStrategyRequest {
    pub filter: StrategyFiltering,
    pub groupings: StrategyGroupingRequest,
    pub preserve_unicity: bool,
}

/// The groups a strategy depends on: those of its filter, then those of its grouping.
pub open spec fn strategy_dependant_groups(s: ArrangementStrategy) -> Seq<i32> {
    included_groups(leaves(s.filter)) + grouping_dependant_groups(s.groupings)
}

pub open spec fn strategy_groups_dependant(s: ArrangementStrategy) -> bool {
    formula_groups_dependant(s.filter) || grouping_groups_dependant(s.groupings)
}

pub open spec fn strategy_tags_dependant(s: ArrangementStrategy) -> bool {
    formula_tags_dependant(s.filter) || grouping_tags_dependant(s.groupings)
}

pub open spec fn strategy_exif_dependant(s: ArrangementStrategy) -> bool {
    formula_exif_dependant(s.filter) || grouping_exif_dependant(s.groupings)
}

/// What a strategy depends on: a kind of data (tags, groups, EXIF values)
/// as soon as its filter has an elementary filter on it, whatever its
/// grouping; for a grouping by filters, exactly when its filter or the
/// filter of one of its groups has such an elementary filter. A grouping
/// by tags depends on tags.
pub proof fn law_strategy_dependencies(s: ArrangementStrategy)
    ensures
        (exists|i: int| 0 <= i < leaves(s.filter).len() && (#[trigger] leaves(s.filter)[i] is IncludeTags)) ==> strategy_tags_dependant(s),
        (exists|i: int| 0 <= i < leaves(s.filter).len() && (#[trigger] leaves(s.filter)[i] is IncludeGroups)) ==> strategy_groups_dependant(s),
        (exists|i: int| 0 <= i < leaves(s.filter).len() && (#[trigger] leaves(s.filter)[i] is ExifEqualTo || leaves(s.filter)[i] is ExifInInterval)) ==> strategy_exif_dependant(s),
        s.groupings matches StrategyGrouping::GroupByFilter(g) ==> (strategy_tags_dependant(s) <==> (exists|i: int| 0 <= i
            < leaves(s.filter).len() && (#[trigger] leaves(s.filter)[i] is IncludeTags)) || (exists|k: int, i: int| 0 <= k < g.filters@.len() && 0 <= i
            < leaves(g.filters@[k].1).len() && (#[trigger] leaves(g.filters@[k].1)[i] is IncludeTags))),
        s.groupings matches StrategyGrouping::GroupByFilter(g) ==> (strategy_groups_dependant(s) <==> (exists|i: int| 0 <= i
            < leaves(s.filter).len() && (#[trigger] leaves(s.filter)[i] is IncludeGroups)) || (exists|k: int, i: int| 0 <= k < g.filters@.len() && 0 <= i
            < leaves(g.filters@[k].1).len() && (#[trigger] leaves(g.filters@[k].1)[i] is IncludeGroups))),
        s.groupings matches StrategyGrouping::GroupByFilter(g) ==> (strategy_exif_dependant(s) <==> (exists|i: int| 0 <= i
            < leaves(s.filter).len() && (#[trigger] leaves(s.filter)[i] is ExifEqualTo || leaves(s.filter)[i] is ExifInInterval)) || (exists|k: int, i: int| 0 <= k < g.filters@.len() && 0 <= i
            < leaves(g.filters@[k].1).len() && (#[trigger] leaves(g.filters@[k].1)[i] is ExifEqualTo || leaves(g.filters@[k].1)[i] is ExifInInterval))),
        s.groupings is GroupByTags ==> strategy_tags_dependant(s),
{
}

/// The elementary filter is a group filter that names the group `x`.
pub open spec fn filter_names_group(t: FilterType, x: i32) -> bool {
    t matches FilterType::IncludeGroups(g) && g@.contains(x)
}

/// A group is named by a group filter of the list of elementary filters.
pub open spec fn names_group(ts: Seq<FilterType>, x: i32) -> bool {
    exists|i: int| 0 <= i < ts.len() && filter_names_group(#[trigger] ts[i], x)
}

proof fn lemma_included_groups_contains(ts: Seq<FilterType>, x: i32)
    ensures
        included_groups(ts).contains(x) <==> names_group(ts, x),
    decreases ts.len(),
{
    if ts.len() > 0 {
        let t = ts.drop_last();
        lemma_included_groups_contains(t, x);
        let prev = included_groups(t);
        let last: Seq<i32> = match ts.last() {
            FilterType::IncludeGroups(g) => g@,
            _ => Seq::<i32>::empty(),
        };
        assert(included_groups(ts) == prev + last);
        if (prev + last).contains(x) {
            let k = choose|k: int| 0 <= k < (prev + last).len() && (prev + last)[k] == x;
            if k < prev.len() {
                assert(prev[k] == x);
                let i = choose|i: int| 0 <= i < t.len() && filter_names_group(#[trigger] t[i], x);
                assert(ts[i] == t[i]);
            } else {
                assert(last[k - prev.len()] == x);
                assert(ts[ts.len() - 1] == ts.last());
            }
        }
        if names_group(ts, x) {
            let i = choose|i: int| 0 <= i < ts.len() && filter_names_group(#[trigger] ts[i], x);
            if i < ts.len() - 1 {
                assert(t[i] == ts[i]);
                let k = choose|k: int| 0 <= k < prev.len() && prev[k] == x;
                assert((prev + last)[k] == x);
            } else {
                let k = choose|k: int| 0 <= k < last.len() && last[k] == x;
                assert((prev + last)[prev.len() + k] == x);
            }
        }
    }
}

proof fn lemma_filters_dependant_groups_contains(fs: Seq<(i32, StrategyFiltering)>, x: i32)
    ensures
        filters_dependant_groups(fs).contains(x) <==> exists|k: int| 0 <= k < fs.len() && names_group(leaves((#[trigger] fs[k]).1), x),
    decreases fs.len(),
{
    if fs.len() > 0 {
        let t = fs.drop_last();
        lemma_filters_dependant_groups_contains(t, x);
        lemma_included_groups_contains(leaves(fs.last().1), x);
        let prev = filters_dependant_groups(t);
        let last = included_groups(leaves(fs.last().1));
        if (prev + last).contains(x) {
            let j = choose|j: int| 0 <= j < (prev + last).len() && (prev + last)[j] == x;
            if j < prev.len() {
                assert(prev[j] == x);
                let k = choose|k: int| 0 <= k < t.len() && names_group(leaves((#[trigger] t[k]).1), x);
                assert(fs[k] == t[k]);
            } else {
                assert(last[j - prev.len()] == x);
                assert(fs[fs.len() - 1] == fs.last());
            }
        }
        if exists|k: int| 0 <= k < fs.len() && names_group(leaves((#[trigger] fs[k]).1), x) {
            let k = choose|k: int| 0 <= k < fs.len() && names_group(leaves((#[trigger] fs[k]).1), x);
            if k < fs.len() - 1 {
                assert(t[k] == fs[k]);
                let j = choose|j: int| 0 <= j < prev.len() && prev[j] == x;
                assert((prev + last)[j] == x);
            } else {
                assert(fs[k] == fs.last());
                let j = choose|j: int| 0 <= j < last.len() && last[j] == x;
                assert((prev + last)[prev.len() + j] == x);
            }
        }
    }
}

/// The groups a strategy depends on are exactly those that a group filter
/// of its filter names, or, for a grouping by filters, a group filter of
/// the filter of one of its groups.
pub proof fn law_strategy_dependant_groups(s: ArrangementStrategy, x: i32)
    ensures
        s.groupings is GroupByFilter ==> (strategy_dependant_groups(s).contains(x) <==> names_group(leaves(s.filter), x)
            || exists|k: int| 0 <= k < s.groupings->GroupByFilter_0.filters@.len()
                && names_group(leaves((#[trigger] s.groupings->GroupByFilter_0.filters@[k]).1), x)),
        !(s.groupings is GroupByFilter) ==> (strategy_dependant_groups(s).contains(x) <==> names_group(leaves(s.filter), x)),
{
    let a = included_groups(leaves(s.filter));
    let b = grouping_dependant_groups(s.groupings);
    lemma_included_groups_contains(leaves(s.filter), x);
    if s.groupings is GroupByFilter {
        lemma_filters_dependant_groups_contains(s.groupings->GroupByFilter_0.filters@, x);
    } else {
        assert(b =~= Seq::<i32>::empty());
        assert(a + b =~= a);
    }
    if (a + b).contains(x) {
        let j = choose|j: int| 0 <= j < (a + b).len() && (a + b)[j] == x;
        if j < a.len() {
            assert(a[j] == x);
        } else {
            assert(b[j - a.len()] == x);
        }
    }
    if a.contains(x) {
        let j = choose|j: int| 0 <= j < a.len() && a[j] == x;
        assert((a + b)[j] == x);
    }
    if b.contains(x) {
        let j = choose|j: int| 0 <= j < b.len() && b[j] == x;
        assert((a + b)[a.len() + j] == x);
    }
}

impl ArrangementStrategy {
    /// Get the groups ids on which the strategy depends.
    pub fn get_dependant_groups(&self) -> (r: Vec<i32>)
        ensures
            r@ == strategy_dependant_groups(*self),
    {
        let mut dependant_groups = self.filter.get_dependant_groups();
        let mut more = self.groupings.get_dependant_groups();
        dependant_groups.append(&mut more);
        dependant_groups
    }

    pub fn is_groups_dependant(&self) -> (r: bool)
        ensures
            r == strategy_groups_dependant(*self),
    {
        self.filter.is_groups_dependant() || self.groupings.is_groups_dependant()
    }

    pub fn is_tags_dependant(&self) -> (r: bool)
        ensures
            r == strategy_tags_dependant(*self),
    {
        self.filter.is_tags_dependant() || self.groupings.is_tags_dependant()
    }

    pub fn is_exif_dependant(&self) -> (r: bool)
        ensures
            r == strategy_exif_dependant(*self),
    {
        self.filter.is_exif_dependant() || self.groupings.is_exif_dependant()
    }

    /// The kinds of data the strategy depends on.
    pub fn get_dependency_type(&self) -> (r: ArrangementDependencyType)
        ensures
            r.groups_dependant == strategy_groups_dependant(*self),
            r.tags_dependant == strategy_tags_dependant(*self),
            r.exif_dependant == strategy_exif_dependant(*self),
    {
        ArrangementDependencyType {
            groups_dependant: self.is_groups_dependant(),
            tags_dependant: self.is_tags_dependant(),
            exif_dependant: self.is_exif_dependant(),
        }
    }
}

impl ArrangementStrategyRequest {
    /// The strategy the request describes, its groups made by
    /// `create_group`. Only groupings by filters can be made.
    pub fn create<F: Fn(String) -> Result<i32, ErrorResponder>>(self, create_group: F) -> (r: Result<
        ArrangementStrategy,
        ErrorResponder,
    >)
        requires
            self.groupings is GroupByFilter,
            forall|name: String| create_group.requires((name,)),
        ensures
            r matches Ok(s) ==> {
                &&& s.filter == self.filter
                &&& s.preserve_unicity == self.preserve_unicity
                &&& s.groupings is GroupByFilter
                &&& s.groupings->GroupByFilter_0.other_group_id is None
                &&& created_by(
                    self.groupings->GroupByFilter_0.filters@,
                    create_group,
                    s.groupings->GroupByFilter_0.filters@,
                )
            },
            r matches Err(e) ==> failed_with(create_group, e),
    {
        let ArrangementStrategyRequest { filter, groupings, preserve_unicity } = self;
        match groupings.create_strategy_grouping(create_group) {
            Ok(groupings) => Ok(ArrangementStrategy { filter, groupings, preserve_unicity }),
            Err(e) => Err(e),
        }
    }

    /// The strategy `old_strategy` edited by the request: the request's
    /// filter and unicity, and the old grouping edited, its new groups made
    /// by `create_group`, with the changes to make to the old grouping's
    /// stored groups. Only groupings by filters can be edited.
    pub fn edit<F: Fn(String) -> Result<i32, ErrorResponder>>(
        self,
        old_strategy: ArrangementStrategy,
        create_group: F,
    ) -> (r: Result<(ArrangementStrategy, Vec<GroupChange>), ErrorResponder>)
        requires
            self.groupings is GroupByFilter,
            old_strategy.groupings is GroupByFilter,
            filter_ids_wf(old_strategy.groupings->GroupByFilter_0.filters@),
            forall|name: String| create_group.requires((name,)),
        ensures
            r matches Ok((s, changes)) ==> {
                &&& changes@ == group_changes_of(
                    old_strategy.groupings->GroupByFilter_0.filters@,
                    self.groupings->GroupByFilter_0.filters@,
                )
                &&& s.filter == self.filter
                &&& s.preserve_unicity == self.preserve_unicity
                &&& s.groupings is GroupByFilter
                &&& s.groupings->GroupByFilter_0.other_group_id
                    == old_strategy.groupings->GroupByFilter_0.other_group_id
                &&& edited_by(
                    old_strategy.groupings->GroupByFilter_0.filters@,
                    self.groupings->GroupByFilter_0.filters@,
                    create_group,
                    s.groupings->GroupByFilter_0.filters@,
                )
            },
            r matches Err(e) ==> failed_with(create_group, e),
    {
        let ArrangementStrategyRequest { filter, groupings, preserve_unicity } = self;
        match old_strategy.groupings.edit_strategy_grouping(groupings, create_group) {
            Ok((groupings, changes)) => Ok((ArrangementStrategy { filter, groupings, preserve_unicity }, changes)),
            Err(e) => Err(e),
        }
    }
}

} // verus!
