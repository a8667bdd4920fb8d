use vstd::prelude::*;
use crate::grouping::arrangement_strategy::ExifDataTypeValue;
use crate::database::picture::Picture;
use crate::database::picture_condition::{PictureCondition, PictureLinks, any_in, exif_among, condition_holds, both, same_exif_values, lemma_any_in_contains};
use crate::utils::utils::copy_i32s;

verus! {

/// A boolean formula over picture filters.
#[derive(Debug, PartialEq)]
pub enum StrategyFiltering {
    Or(Box<Vec<StrategyFiltering>>),
    And(Box<Vec<StrategyFiltering>>),
    Not(Box<StrategyFiltering>),
    Filter(FilterType),
}

/// An elementary picture filter.
#[derive(Debug, Clone, PartialEq)]
pub enum FilterType {
    IncludeTags(Vec<i32>),
    IncludeGroups(Vec<i32>),
    /// Equal to any of the values
    ExifEqualTo(ExifDataTypeValue),
    /// Interval composed of the two first values
    ExifInInterval(ExifDataTypeValue),
}

/// The elementary filters of a formula, left to right.
pub open spec fn leaves(f: StrategyFiltering) -> Seq<FilterType>
    decreases f,
{
    match f {
        StrategyFiltering::Or(fs) => leaves_seq(fs@),
        StrategyFiltering::And(fs) => leaves_seq(fs@),
        StrategyFiltering::Not(g) => leaves(*g),
        StrategyFiltering::Filter(t) => seq![t],
    }
}

/// The elementary filters of a list of formulas, left to right.
pub open spec fn leaves_seq(fs: Seq<StrategyFiltering>) -> Seq<FilterType>
    decreases fs,
{
    if fs.len() == 0 {
        Seq::empty()
    } else {
        leaves_seq(fs.subrange(0, fs.len() - 1)) + leaves(fs[fs.len() - 1])
    }
}

/// The filters referred to by a list of references.
pub open spec fn derefs(s: Seq<&FilterType>) -> Seq<FilterType> {
    s.map_values(|t: &FilterType| *t)
}

/// The group ids named by `IncludeGroups` filters, in order.
pub open spec fn included_groups(ts: Seq<FilterType>) -> Seq<i32>
    decreases ts.len(),
{
    if ts.len() == 0 {
        Seq::empty()
    } else {
        included_groups(ts.drop_last()) + match ts.last() {
            FilterType::IncludeGroups(g) => g@,
            _ => Seq::<i32>::empty(),
        }
    }
}

pub open spec fn is_groups_filter(t: FilterType) -> bool {
    t is IncludeGroups
}

pub open spec fn is_tags_filter(t: FilterType) -> bool {
    t is IncludeTags
}

pub open spec fn is_exif_filter(t: FilterType) -> bool {
    t is ExifEqualTo || t is ExifInInterval
}

proof fn lemma_leaves_seq_step(fs: Seq<StrategyFiltering>, i: int)
    requires
        0 <= i < fs.len(),
    ensures
        leaves_seq(fs.subrange(0, i + 1)) == leaves_seq(fs.subrange(0, i)) + leaves(fs[i]),
{
    assert(fs.subrange(0, i + 1).subrange(0, i) =~= fs.subrange(0, i));
}

proof fn lemma_included_groups_push(ts: Seq<FilterType>, t: FilterType)
    ensures
        included_groups(ts.push(t)) == included_groups(ts) + match t {
            FilterType::IncludeGroups(g) => g@,
            _ => Seq::<i32>::empty(),
        },
{
    assert(ts.push(t).drop_last() =~= ts);
}

/// The elementary filters of a conjunction or a disjunction of two
/// formulas, as `and` and `or` build them, are those of the first formula
/// then those of the second; a negation has those of its formula.
pub proof fn law_filter_types_of_combinations(a: StrategyFiltering, b: StrategyFiltering, f: StrategyFiltering)
    ensures
        (f matches StrategyFiltering::And(fs) && fs@ == seq![a, b]) ==> leaves(f) == leaves(a) + leaves(b),
        (f matches StrategyFiltering::Or(fs) && fs@ == seq![a, b]) ==> leaves(f) == leaves(a) + leaves(b),
        f == StrategyFiltering::Not(Box::new(a)) ==> leaves(f) == leaves(a),
{
    let s = seq![a, b];
    lemma_leaves_seq_step(s, 0);
    lemma_leaves_seq_step(s, 1);
    assert(s.subrange(0, 2) =~= s);
    assert(s.subrange(0, 0) =~= Seq::<StrategyFiltering>::empty());
    assert(leaves_seq(Seq::<StrategyFiltering>::empty()) == Seq::<FilterType>::empty());
    assert(Seq::<FilterType>::empty() + leaves(a) =~= leaves(a));
}

/// Appends the elementary filters of a list of formulas, left to right.
fn collect_list_filter_types<'a>(fs: &'a Vec<StrategyFiltering>, filter_types: &mut Vec<&'a FilterType>)
    ensures
        derefs(final(filter_types)@) == derefs(old(filter_types)@) + leaves_seq(fs@),
    decreases fs,
{
    let ghost start = derefs(filter_types@);
    let mut i: usize = 0;
    assert(fs@.subrange(0, 0) =~= Seq::<StrategyFiltering>::empty());
    assert(start + Seq::<FilterType>::empty() =~= start);
    while i < fs.len()
        invariant
            i <= fs.len(),
            derefs(filter_types@) == start + leaves_seq(fs@.subrange(0, i as int)),
        decreases fs.len() - i,
    {
        assert(decreases_to!(fs => fs@[i as int]));
        fs[i].collect_filter_types(filter_types);
        proof {
            lemma_leaves_seq_step(fs@, i as int);
            assert(start + leaves_seq(fs@.subrange(0, i as int)) + leaves(fs@[i as int])
                =~= start + (leaves_seq(fs@.subrange(0, i as int)) + leaves(fs@[i as int])));
        }
        i = i + 1;
    }
    assert(fs@.subrange(0, fs@.len() as int) =~= fs@);
}

impl StrategyFiltering {
    /// Both formulas must hold.
    pub fn and(self, other: StrategyFiltering) -> (r: StrategyFiltering)
        ensures
            r matches StrategyFiltering::And(fs) && fs@ == seq![self, other],
    {
        let mut v: Vec<StrategyFiltering> = Vec::new();
        v.push(self);
        v.push(other);
        StrategyFiltering::And(Box::new(v))
    }

    /// At least one of the formulas must hold.
    pub fn or(self, other: StrategyFiltering) -> (r: StrategyFiltering)
        ensures
            r matches StrategyFiltering::Or(fs) && fs@ == seq![self, other],
    {
        let mut v: Vec<StrategyFiltering> = Vec::new();
        v.push(self);
        v.push(other);
        StrategyFiltering::Or(Box::new(v))
    }

    /// The formula must not hold.
    pub fn not(self) -> (r: StrategyFiltering)
        ensures
            r == StrategyFiltering::Not(Box::new(self)),
    {
        StrategyFiltering::Not(Box::new(self))
    }

    /// All elementary filters of the formula, left to right.
    pub fn get_all_filter_types(&self) -> (r: Vec<&FilterType>)
        ensures
            derefs(r@) == leaves(*self),
    {
        let mut filter_types: Vec<&FilterType> = Vec::new();
        self.collect_filter_types(&mut filter_types);
        assert(derefs(Seq::<&FilterType>::empty()) + leaves(*self) =~= leaves(*self));
        filter_types
    }

    /// Appends the elementary filters of the formula, left to right.
    pub fn collect_filter_types<'a>(&'a self, filter_types: &mut Vec<&'a FilterType>)
        ensures
            derefs(final(filter_types)@) == derefs(old(filter_types)@) + leaves(*self),
        decreases self,
    {
        match self {
            StrategyFiltering::Or(fs) => {
                collect_list_filter_types(&**fs, filter_types);
            },
            StrategyFiltering::And(fs) => {
                collect_list_filter_types(&**fs, filter_types);
            },
            StrategyFiltering::Not(g) => {
                (**g).collect_filter_types(filter_types);
            },
            StrategyFiltering::Filter(t) => {
                let ghost before = filter_types@;
                filter_types.push(t);
                assert(derefs(filter_types@) =~= derefs(before) + seq![*t]);
            },
        }
    }

    /// Ids of the groups the formula filters on, in order.
    pub fn get_dependant_groups(&self) -> (r: Vec<i32>)
        ensures
            r@ == included_groups(leaves(*self)),
    {
        let filter_types = self.get_all_filter_types();
        let mut dependant_groups: Vec<i32> = Vec::new();
        let mut i: usize = 0;
        while i < filter_types.len()
            invariant
                i <= filter_types.len(),
                derefs(filter_types@) == leaves(*self),
                dependant_groups@ == included_groups(derefs(filter_types@).subrange(0, i as int)),
            decreases filter_types.len() - i,
        {
            proof {
                lemma_included_groups_push(derefs(filter_types@).subrange(0, i as int), *filter_types@[i as int]);
                assert(derefs(filter_types@).subrange(0, i as int).push(*filter_types@[i as int])
                    =~= derefs(filter_types@).subrange(0, i + 1));
            }
            match filter_types[i] {
                FilterType::IncludeGroups(groups) => {
                    let mut j: usize = 0;
                    let ghost before = dependant_groups@;
                    while j < groups.len()
                        invariant
                            j <= groups.len(),
                            dependant_groups@ == before + groups@.subrange(0, j as int),
                        decreases groups.len() - j,
                    {
                        dependant_groups.push(groups[j]);
                        assert(before + groups@.subrange(0, j + 1) =~= before + groups@.subrange(0, j as int) + seq![groups@[j as int]]);
                        j = j + 1;
                    }
                    assert(groups@.subrange(0, groups@.len() as int) =~= groups@);
                },
                _ => {
                    assert(dependant_groups@ + Seq::<i32>::empty() =~= dependant_groups@);
                },
            }
            i = i + 1;
        }
        assert(derefs(filter_types@).subrange(0, filter_types@.len() as int) =~= derefs(filter_types@));
        dependant_groups
    }

    /// Whether an elementary filter of the formula filters on groups.
    pub fn is_groups_dependant(&self) -> (r: bool)
        ensures
            r == exists|i: int| 0 <= i < leaves(*self).len() && is_groups_filter(#[trigger] leaves(*self)[i]),
    {
        let filter_types = self.get_all_filter_types();
        let mut i: usize = 0;
        while i < filter_types.len()
            invariant
                i <= filter_types.len(),
                derefs(filter_types@) == leaves(*self),
                forall|k: int| 0 <= k < i ==> !is_groups_filter(#[trigger] leaves(*self)[k]),
            decreases filter_types.len() - i,
        {
            assert(leaves(*self)[i as int] == *filter_types@[i as int]);
            match filter_types[i] {
                FilterType::IncludeGroups(_) => {
                    return true;
                },
                _ => {},
            }
            i = i + 1;
        }
        false
    }

    /// Whether an elementary filter of the formula filters on tags.
    pub fn is_tags_dependant(&self) -> (r: bool)
        ensures
            r == exists|i: int| 0 <= i < leaves(*self).len() && is_tags_filter(#[trigger] leaves(*self)[i]),
    {
        let filter_types = self.get_all_filter_types();
        let mut i: usize = 0;
        while i < filter_types.len()
            invariant
                i <= filter_types.len(),
                derefs(filter_types@) == leaves(*self),
                forall|k: int| 0 <= k < i ==> !is_tags_filter(#[trigger] leaves(*self)[k]),
            decreases filter_types.len() - i,
        {
            assert(leaves(*self)[i as int] == *filter_types@[i as int]);
            match filter_types[i] {
                FilterType::IncludeTags(_) => {
                    return true;
                },
                _ => {},
            }
            i = i + 1;
        }
        false
    }

    /// Whether an elementary filter of the formula filters on EXIF values.
    pub fn is_exif_dependant(&self) -> (r: bool)
        ensures
            r == exists|i: int| 0 <= i < leaves(*self).len() && is_exif_filter(#[trigger] leaves(*self)[i]),
    {
        let filter_types = self.get_all_filter_types();
        let mut i: usize = 0;
        while i < filter_types.len()
            invariant
                i <= filter_types.len(),
                derefs(filter_types@) == leaves(*self),
                forall|k: int| 0 <= k < i ==> !is_exif_filter(#[trigger] leaves(*self)[k]),
            decreases filter_types.len() - i,
        {
            assert(leaves(*self)[i as int] == *filter_types@[i as int]);
            match filter_types[i] {
                FilterType::ExifEqualTo(_) | FilterType::ExifInInterval(_) => {
                    return true;
                },
                _ => {},
            }
            i = i + 1;
        }
        false
    }
}

impl FilterType {
    /// A formula made of this filter alone.
    pub fn to_strategy(self) -> (r: StrategyFiltering)
        ensures
            r == StrategyFiltering::Filter(self),
    {
        StrategyFiltering::Filter(self)
    }
}

/// Whether an elementary filter holds of the picture `p`, linked to `l`.
/// Interval filters are not applied: they hold of every picture.
pub open spec fn filter_holds(t: FilterType, p: Picture, l: PictureLinks) -> bool {
    match t {
        FilterType::IncludeTags(ids) => any_in(ids@, l.tags),
        FilterType::IncludeGroups(ids) => any_in(ids@, l.groups),
        FilterType::ExifEqualTo(v) => exif_among(v, p),
        FilterType::ExifInInterval(_) => true,
    }
}

/// Whether a formula holds of the picture `p`, linked to `l`. A
/// disjunction without terms holds, as a conjunction without terms does.
pub open spec fn formula_holds(f: StrategyFiltering, p: Picture, l: PictureLinks) -> bool
    decreases f,
{
    match f {
        StrategyFiltering::Or(fs) => fs@.len() == 0 || some_holds(fs@, p, l),
        StrategyFiltering::And(fs) => all_hold(fs@, p, l),
        StrategyFiltering::Not(g) => !formula_holds(*g, p, l),
        StrategyFiltering::Filter(t) => filter_holds(t, p, l),
    }
}

/// Every formula of the list holds.
pub open spec fn all_hold(fs: Seq<StrategyFiltering>, p: Picture, l: PictureLinks) -> bool
    decreases fs,
{
    if fs.len() == 0 {
        true
    } else {
        all_hold(fs.subrange(0, fs.len() - 1), p, l) && formula_holds(fs[fs.len() - 1], p, l)
    }
}

/// Some formula of the list holds.
pub open spec fn some_holds(fs: Seq<StrategyFiltering>, p: Picture, l: PictureLinks) -> bool
    decreases fs,
{
    if fs.len() == 0 {
        false
    } else {
        some_holds(fs.subrange(0, fs.len() - 1), p, l) || formula_holds(fs[fs.len() - 1], p, l)
    }
}

/// An EXIF filter keeps the pictures whose field has one of its values:
/// a field that is not set has none of them.
pub proof fn law_exif_filter_meaning(v: ExifDataTypeValue, p: Picture)
    ensures
        v matches ExifDataTypeValue::CreationDate(xs) ==> (exif_among(v, p) <==> exists|k: int| 0 <= k < xs@.len() && xs@[k] == p.creation_date),
        v matches ExifDataTypeValue::EditionDate(xs) ==> (exif_among(v, p) <==> exists|k: int| 0 <= k < xs@.len() && xs@[k] == p.edition_date),
        v matches ExifDataTypeValue::Latitude(xs) ==> (exif_among(v, p) <==> exists|k: int| 0 <= k < xs@.len() && p.latitude == Some(xs@[k])),
        v matches ExifDataTypeValue::Longitude(xs) ==> (exif_among(v, p) <==> exists|k: int| 0 <= k < xs@.len() && p.longitude == Some(xs@[k])),
        v matches ExifDataTypeValue::Altitude(xs) ==> (exif_among(v, p) <==> exists|k: int| 0 <= k < xs@.len() && p.altitude == Some(xs@[k])),
        v matches ExifDataTypeValue::Orientation(xs) ==> (exif_among(v, p) <==> exists|k: int| 0 <= k < xs@.len() && xs@[k] == p.orientation),
        v matches ExifDataTypeValue::Width(xs) ==> (exif_among(v, p) <==> exists|k: int| 0 <= k < xs@.len() && xs@[k] == p.width),
        v matches ExifDataTypeValue::Height(xs) ==> (exif_among(v, p) <==> exists|k: int| 0 <= k < xs@.len() && xs@[k] == p.height),
        v matches ExifDataTypeValue::CameraBrand(xs) ==> (exif_among(v, p) <==> exists|k: int| 0 <= k < xs@.len() && p.camera_brand is Some && xs@[k]@ == p.camera_brand->Some_0@),
        v matches ExifDataTypeValue::CameraModel(xs) ==> (exif_among(v, p) <==> exists|k: int| 0 <= k < xs@.len() && p.camera_model is Some && xs@[k]@ == p.camera_model->Some_0@),
        v matches ExifDataTypeValue::FocalLength(xs) ==> (exif_among(v, p) <==> exists|k: int| 0 <= k < xs@.len() && p.focal_length == Some(xs@[k])),
        v matches ExifDataTypeValue::IsoSpeed(xs) ==> (exif_among(v, p) <==> exists|k: int| 0 <= k < xs@.len() && p.iso_speed == Some(xs@[k])),
        v matches ExifDataTypeValue::FNumber(xs) ==> (exif_among(v, p) <==> exists|k: int| 0 <= k < xs@.len() && p.f_number == Some(xs@[k])),
        v matches ExifDataTypeValue::ExposureTime(xs) ==> (exif_among(v, p) <==> exists|k: int| 0 <= k < xs@.len()
            && p.exposure_time_num == Some(xs@[k].0) && p.exposure_time_den == Some(xs@[k].1)),
{
}

/// What an elementary filter keeps: a tag filter keeps the pictures that
/// have one of its tags, a group filter those in one of its groups, an
/// EXIF value filter those whose field has one of its values; an EXIF
/// interval filter keeps every picture.
pub proof fn law_filter_type_meaning(t: FilterType, p: Picture, l: PictureLinks)
    ensures
        t matches FilterType::IncludeTags(ids) ==> (filter_holds(t, p, l) <==> exists|x: i32| #[trigger] ids@.contains(x) && l.tags.contains(x)),
        t matches FilterType::IncludeGroups(ids) ==> (filter_holds(t, p, l) <==> exists|x: i32| #[trigger] ids@.contains(x) && l.groups.contains(x)),
        t matches FilterType::ExifEqualTo(v) ==> (filter_holds(t, p, l) <==> exif_among(v, p)),
        t is ExifInInterval ==> filter_holds(t, p, l),
{
    match t {
        FilterType::IncludeTags(ids) => lemma_any_in_contains(ids@, l.tags),
        FilterType::IncludeGroups(ids) => lemma_any_in_contains(ids@, l.groups),
        _ => {},
    }
}

proof fn lemma_all_hold_forall(fs: Seq<StrategyFiltering>, p: Picture, l: PictureLinks)
    ensures
        all_hold(fs, p, l) <==> forall|k: int| 0 <= k < fs.len() ==> #[trigger] formula_holds(fs[k], p, l),
        some_holds(fs, p, l) <==> exists|k: int| 0 <= k < fs.len() && #[trigger] formula_holds(fs[k], p, l),
    decreases fs.len(),
{
    if fs.len() > 0 {
        let t = fs.subrange(0, fs.len() - 1);
        lemma_all_hold_forall(t, p, l);
        assert forall|k: int| 0 <= k < t.len() implies #[trigger] t[k] == fs[k] by {}
        if some_holds(fs, p, l) && !formula_holds(fs[fs.len() - 1], p, l) {
            let k = choose|k: int| 0 <= k < t.len() && #[trigger] formula_holds(t[k], p, l);
            assert(formula_holds(fs[k], p, l));
        }
        if exists|k: int| 0 <= k < fs.len() && #[trigger] formula_holds(fs[k], p, l) {
            let k = choose|k: int| 0 <= k < fs.len() && #[trigger] formula_holds(fs[k], p, l);
            if k < fs.len() - 1 {
                assert(formula_holds(t[k], p, l));
            }
        }
        if forall|k: int| 0 <= k < fs.len() ==> #[trigger] formula_holds(fs[k], p, l) {
            assert forall|k: int| 0 <= k < t.len() implies #[trigger] formula_holds(t[k], p, l) by {
                assert(formula_holds(fs[k], p, l));
            }
            assert(formula_holds(fs[fs.len() - 1], p, l));
        }
        if all_hold(fs, p, l) {
            assert forall|k: int| 0 <= k < fs.len() implies #[trigger] formula_holds(fs[k], p, l) by {
                if k < fs.len() - 1 {
                    assert(formula_holds(t[k], p, l));
                }
            }
        }
    }
}

/// What a formula keeps: a conjunction the pictures that all its terms
/// keep, a disjunction those that one of its terms keeps (every picture
/// when it has no term), a negation those its term rejects.
pub proof fn law_formula_meaning(f: StrategyFiltering, p: Picture, l: PictureLinks)
    ensures
        f matches StrategyFiltering::And(fs) ==> (formula_holds(f, p, l) <==> forall|k: int| 0 <= k < fs@.len()
            ==> #[trigger] formula_holds(fs@[k], p, l)),
        f matches StrategyFiltering::Or(fs) ==> (formula_holds(f, p, l) <==> fs@.len() == 0 || exists|k: int| 0 <= k < fs@.len()
            && #[trigger] formula_holds(fs@[k], p, l)),
        f matches StrategyFiltering::Not(g) ==> (formula_holds(f, p, l) <==> !formula_holds(*g, p, l)),
        f matches StrategyFiltering::Filter(t) ==> (formula_holds(f, p, l) <==> filter_holds(t, p, l)),
{
    match f {
        StrategyFiltering::And(fs) => lemma_all_hold_forall(fs@, p, l),
        StrategyFiltering::Or(fs) => lemma_all_hold_forall(fs@, p, l),
        _ => {},
    }
}

impl FilterType {
    /// The condition on pictures that the filter stands for.
    pub fn to_predicate(&self) -> (r: PictureCondition)
        ensures
            forall|p: Picture, l: PictureLinks| #[trigger] condition_holds(r, p, l) == filter_holds(*self, p, l),
            *self matches FilterType::IncludeTags(ids) ==> forall|p: Picture, l: PictureLinks| #[trigger] condition_holds(r, p, l)
                == exists|x: i32| #[trigger] ids@.contains(x) && l.tags.contains(x),
            *self matches FilterType::IncludeGroups(ids) ==> forall|p: Picture, l: PictureLinks| #[trigger] condition_holds(r, p, l)
                == exists|x: i32| #[trigger] ids@.contains(x) && l.groups.contains(x),
    {
        let r = match self {
            FilterType::IncludeTags(ids) => PictureCondition::HasTagIn(copy_i32s(ids)),
            FilterType::IncludeGroups(ids) => PictureCondition::InGroupIn(copy_i32s(ids)),
            FilterType::ExifEqualTo(v) => PictureCondition::ExifAmong(v.copy()),
            FilterType::ExifInInterval(_) => PictureCondition::Always(true),
        };
        proof {
            match self {
                FilterType::IncludeTags(ids) => {
                    assert forall|p: Picture, l: PictureLinks| #[trigger] condition_holds(r, p, l)
                        == exists|x: i32| #[trigger] ids@.contains(x) && l.tags.contains(x) by {
                        law_filter_type_meaning(*self, p, l);
                    }
                },
                FilterType::IncludeGroups(ids) => {
                    assert forall|p: Picture, l: PictureLinks| #[trigger] condition_holds(r, p, l)
                        == exists|x: i32| #[trigger] ids@.contains(x) && l.groups.contains(x) by {
                        law_filter_type_meaning(*self, p, l);
                    }
                },
                _ => {},
            }
        }
        r
    }
}

/// The condition that all (when `conjunction`) or some of the formulas
/// hold; without formulas, the condition that always holds.
fn list_predicate(fs: &Vec<StrategyFiltering>, conjunction: bool) -> (r: PictureCondition)
    ensures
        conjunction ==> forall|p: Picture, l: PictureLinks| #![trigger condition_holds(r, p, l)] #![trigger all_hold(fs@, p, l)]
            condition_holds(r, p, l) == all_hold(fs@, p, l),
        !conjunction ==> forall|p: Picture, l: PictureLinks| #![trigger condition_holds(r, p, l)] #![trigger some_holds(fs@, p, l)]
            condition_holds(r, p, l) == (fs@.len() == 0 || some_holds(fs@, p, l)),
    decreases fs,
{
    let mut cond: Option<PictureCondition> = None;
    let mut i: usize = 0;
    while i < fs.len()
        invariant
            i <= fs.len(),
            cond is None <==> i == 0,
            conjunction && cond is Some ==> forall|p: Picture, l: PictureLinks|
                condition_holds(cond->Some_0, p, l) == all_hold(fs@.subrange(0, i as int), p, l),
            !conjunction && cond is Some ==> forall|p: Picture, l: PictureLinks|
                condition_holds(cond->Some_0, p, l) == some_holds(fs@.subrange(0, i as int), p, l),
        decreases fs.len() - i,
    {
        assert(decreases_to!(fs => fs@[i as int]));
        let predicate = fs[i].as_predicate();
        let ghost sub = fs@.subrange(0, i + 1);
        assert(sub.subrange(0, sub.len() - 1) =~= fs@.subrange(0, i as int));
        assert(sub[sub.len() - 1] == fs@[i as int]);
        proof {
            assert(fs@.subrange(0, 0) =~= Seq::<StrategyFiltering>::empty());
        }
        let ghost old_cond = cond;
        cond = Some(match cond {
            Some(c) => {
                if conjunction {
                    both(c, predicate)
                } else {
                    PictureCondition::Or(Box::new(c), Box::new(predicate))
                }
            },
            None => predicate,
        });
        proof {
            let prev = fs@.subrange(0, i as int);
            assert forall|p: Picture, l: PictureLinks| #[trigger] condition_holds(cond->Some_0, p, l)
                == if conjunction { all_hold(sub, p, l) } else { some_holds(sub, p, l) } by {
                assert(all_hold(sub, p, l) == (all_hold(prev, p, l) && formula_holds(fs@[i as int], p, l)));
                assert(some_holds(sub, p, l) == (some_holds(prev, p, l) || formula_holds(fs@[i as int], p, l)));
                if i == 0 {
                    assert(prev =~= Seq::<StrategyFiltering>::empty());
                    assert(all_hold(prev, p, l));
                    assert(!some_holds(prev, p, l));
                } else {
                    assert(condition_holds(old_cond->Some_0, p, l) == if conjunction { all_hold(prev, p, l) } else { some_holds(prev, p, l) });
                }
            }
        }
        i = i + 1;
    }
    assert(fs@.subrange(0, fs@.len() as int) =~= fs@);
    match cond {
        Some(c) => c,
        None => PictureCondition::Always(true),
    }
}

impl StrategyFiltering {
    /// The condition on pictures that the formula stands for.
    pub fn as_predicate(&self) -> (cond: PictureCondition)
        ensures
            forall|p: Picture, l: PictureLinks| #![trigger condition_holds(cond, p, l)] #![trigger formula_holds(*self, p, l)]
                condition_holds(cond, p, l) == formula_holds(*self, p, l),
        decreases self,
    {
        match self {
            StrategyFiltering::Or(fs) => {
                let c = list_predicate(&**fs, false);
                assert forall|p: Picture, l: PictureLinks| #[trigger] condition_holds(c, p, l) == formula_holds(*self, p, l) by {
                    assert(formula_holds(*self, p, l) == ((**fs)@.len() == 0 || some_holds((**fs)@, p, l)));
                }
                c
            },
            StrategyFiltering::And(fs) => {
                let c = list_predicate(&**fs, true);
                assert forall|p: Picture, l: PictureLinks| #[trigger] condition_holds(c, p, l) == formula_holds(*self, p, l) by {
                    assert(formula_holds(*self, p, l) == all_hold((**fs)@, p, l));
                }
                c
            },
            StrategyFiltering::Not(g) => {
                let inner = (**g).as_predicate();
                let c = PictureCondition::Not(Box::new(inner));
                assert forall|p: Picture, l: PictureLinks| #[trigger] condition_holds(c, p, l) == formula_holds(*self, p, l) by {
                    assert(condition_holds(c, p, l) == !condition_holds(inner, p, l));
                    assert(formula_holds(*self, p, l) == !formula_holds(**g, p, l));
                }
                c
            },
            StrategyFiltering::Filter(t) => {
                let c = t.to_predicate();
                assert forall|p: Picture, l: PictureLinks| #[trigger] condition_holds(c, p, l) == formula_holds(*self, p, l) by {
                    assert(formula_holds(*self, p, l) == filter_holds(*t, p, l));
                }
                c
            },
        }
    }
}

/// Two elementary filters name the same ids or the same EXIF values.
pub open spec fn same_filter_type(a: FilterType, b: FilterType) -> bool {
    match (a, b) {
        (FilterType::IncludeTags(x), FilterType::IncludeTags(y)) => x@ == y@,
        (FilterType::IncludeGroups(x), FilterType::IncludeGroups(y)) => x@ == y@,
        (FilterType::ExifEqualTo(x), FilterType::ExifEqualTo(y)) => same_exif_values(x, y),
        (FilterType::ExifInInterval(x), FilterType::ExifInInterval(y)) => same_exif_values(x, y),
        _ => false,
    }
}

/// Two formulas have the same shape and the same elementary filters: one
/// is a copy of the other.
pub open spec fn same_formula(a: StrategyFiltering, b: StrategyFiltering) -> bool
    decreases a,
{
    match a {
        StrategyFiltering::Or(xs) => b matches StrategyFiltering::Or(ys) && same_formulas(xs@, ys@),
        StrategyFiltering::And(xs) => b matches StrategyFiltering::And(ys) && same_formulas(xs@, ys@),
        StrategyFiltering::Not(g) => b matches StrategyFiltering::Not(h) && same_formula(*g, *h),
        StrategyFiltering::Filter(t) => b matches StrategyFiltering::Filter(u) && same_filter_type(t, u),
    }
}

/// Two lists of formulas are copies of one another, formula by formula.
pub open spec fn same_formulas(xs: Seq<StrategyFiltering>, ys: Seq<StrategyFiltering>) -> bool
    decreases xs,
{
    if xs.len() == 0 {
        ys.len() == 0
    } else {
        &&& ys.len() == xs.len()
        &&& same_formulas(xs.subrange(0, xs.len() - 1), ys.subrange(0, ys.len() - 1))
        &&& same_formula(xs[xs.len() - 1], ys[ys.len() - 1])
    }
}

proof fn lemma_same_filter_holds(a: FilterType, b: FilterType, p: Picture, l: PictureLinks)
    requires
        same_filter_type(a, b),
    ensures
        filter_holds(a, p, l) == filter_holds(b, p, l),
{
    match (a, b) {
        (FilterType::ExifEqualTo(x), FilterType::ExifEqualTo(y)) => {
            crate::database::picture_condition::lemma_same_exif_among(x, y, p);
        },
        _ => {},
    }
}

/// Copies hold of the same pictures.
pub proof fn lemma_same_formula_holds(a: StrategyFiltering, b: StrategyFiltering, p: Picture, l: PictureLinks)
    requires
        same_formula(a, b),
    ensures
        formula_holds(a, p, l) == formula_holds(b, p, l),
    decreases a,
{
    match a {
        StrategyFiltering::Or(xs) => {
            let ys = b->Or_0;
            lemma_same_formulas_hold(xs@, ys@, p, l);
        },
        StrategyFiltering::And(xs) => {
            let ys = b->And_0;
            lemma_same_formulas_hold(xs@, ys@, p, l);
        },
        StrategyFiltering::Not(g) => {
            lemma_same_formula_holds(*g, *b->Not_0, p, l);
        },
        StrategyFiltering::Filter(t) => {
            lemma_same_filter_holds(t, b->Filter_0, p, l);
        },
    }
}

proof fn lemma_same_formulas_hold(xs: Seq<StrategyFiltering>, ys: Seq<StrategyFiltering>, p: Picture, l: PictureLinks)
    requires
        same_formulas(xs, ys),
    ensures
        xs.len() == ys.len(),
        all_hold(xs, p, l) == all_hold(ys, p, l),
        some_holds(xs, p, l) == some_holds(ys, p, l),
    decreases xs,
{
    if xs.len() > 0 {
        lemma_same_formulas_hold(xs.subrange(0, xs.len() - 1), ys.subrange(0, ys.len() - 1), p, l);
        lemma_same_formula_holds(xs[xs.len() - 1], ys[ys.len() - 1], p, l);
    }
}

/// Two lists of elementary filters are copies of one another, position
/// by position.
pub open spec fn same_filter_types(xs: Seq<FilterType>, ys: Seq<FilterType>) -> bool {
    &&& xs.len() == ys.len()
    &&& forall|i: int| 0 <= i < xs.len() ==> same_filter_type(#[trigger] xs[i], ys[i])
}

/// A copy of a formula has the same elementary filters, in the same order.
pub proof fn lemma_same_formula_leaves(a: StrategyFiltering, b: StrategyFiltering)
    requires
        same_formula(a, b),
    ensures
        same_filter_types(leaves(a), leaves(b)),
    decreases a,
{
    match a {
        StrategyFiltering::Or(xs) => {
            lemma_same_formulas_leaves(xs@, b->Or_0@);
        },
        StrategyFiltering::And(xs) => {
            lemma_same_formulas_leaves(xs@, b->And_0@);
        },
        StrategyFiltering::Not(g) => {
            lemma_same_formula_leaves(*g, *b->Not_0);
        },
        StrategyFiltering::Filter(t) => {},
    }
}

proof fn lemma_same_formulas_leaves(xs: Seq<StrategyFiltering>, ys: Seq<StrategyFiltering>)
    requires
        same_formulas(xs, ys),
    ensures
        same_filter_types(leaves_seq(xs), leaves_seq(ys)),
    decreases xs,
{
    if xs.len() > 0 {
        let px = xs.subrange(0, xs.len() - 1);
        let py = ys.subrange(0, ys.len() - 1);
        lemma_same_formulas_leaves(px, py);
        lemma_same_formula_leaves(xs[xs.len() - 1], ys[ys.len() - 1]);
        let lx = leaves_seq(px);
        let ly = leaves_seq(py);
        let tx = leaves(xs[xs.len() - 1]);
        let ty = leaves(ys[ys.len() - 1]);
        assert forall|i: int| 0 <= i < (lx + tx).len() implies same_filter_type(#[trigger] (lx + tx)[i], (ly + ty)[i]) by {
            if i < lx.len() {
                assert(same_filter_type(lx[i], ly[i]));
            } else {
                assert(same_filter_type(tx[i - lx.len()], ty[i - lx.len()]));
            }
        }
    }
}

/// Formulas hold vectors, so a copy is built node by node.
fn copy_formula(f: &StrategyFiltering) -> (r: StrategyFiltering)
    ensures
        same_formula(*f, r),
    decreases f,
{
    match f {
        StrategyFiltering::Or(fs) => StrategyFiltering::Or(Box::new(copy_formulas(&**fs))),
        StrategyFiltering::And(fs) => StrategyFiltering::And(Box::new(copy_formulas(&**fs))),
        StrategyFiltering::Not(g) => StrategyFiltering::Not(Box::new(copy_formula(&**g))),
        StrategyFiltering::Filter(t) => StrategyFiltering::Filter(copy_filter_type(t)),
    }
}

/// A copy of an elementary filter.
fn copy_filter_type(t: &FilterType) -> (r: FilterType)
    ensures
        same_filter_type(*t, r),
{
    match t {
        FilterType::IncludeTags(ids) => FilterType::IncludeTags(copy_i32s(ids)),
        FilterType::IncludeGroups(ids) => FilterType::IncludeGroups(copy_i32s(ids)),
        FilterType::ExifEqualTo(v) => FilterType::ExifEqualTo(v.copy()),
        FilterType::ExifInInterval(v) => FilterType::ExifInInterval(v.copy()),
    }
}

fn copy_formulas(fs: &Vec<StrategyFiltering>) -> (r: Vec<StrategyFiltering>)
    ensures
        same_formulas(fs@, r@),
    decreases fs,
{
    let mut r: Vec<StrategyFiltering> = Vec::new();
    let mut i: usize = 0;
    while i < fs.len()
        invariant
            i <= fs.len(),
            same_formulas(fs@.subrange(0, i as int), r@),
        decreases fs.len() - i,
    {
        assert(decreases_to!(fs => fs@[i as int]));
        let c = copy_formula(&fs[i]);
        let ghost before = r@;
        r.push(c);
        proof {
            let xs = fs@.subrange(0, i + 1);
            assert(xs.subrange(0, xs.len() - 1) =~= fs@.subrange(0, i as int));
            assert(r@.subrange(0, r@.len() - 1) =~= before);
            assert(xs[xs.len() - 1] == fs@[i as int]);
            lemma_same_formulas_len(fs@.subrange(0, i as int), before);
        }
        i = i + 1;
    }
    assert(fs@.subrange(0, fs@.len() as int) =~= fs@);
    r
}

proof fn lemma_same_formulas_len(xs: Seq<StrategyFiltering>, ys: Seq<StrategyFiltering>)
    requires
        same_formulas(xs, ys),
    ensures
        xs.len() == ys.len(),
{
}

impl Clone for StrategyFiltering {
    fn clone(&self) -> (r: StrategyFiltering)
        ensures
            same_formula(*self, r),
    {
        copy_formula(self)
    }
}

} // verus!
