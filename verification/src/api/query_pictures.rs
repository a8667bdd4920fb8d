use vstd::prelude::*;
use crate::database::picture::Picture;
use crate::database::picture_condition::{PictureCondition, PictureLinks, any_in, condition_holds, both, lemma_any_in_contains};

verus! {

/// A query for the pictures a user can see: filters that must all hold,
/// sorts, each replacing the order of the ones before it, and a page number
/// counted from 1.
#[derive(Debug, Clone, PartialEq)]
pub struct PicturesQuery {
    pub filters: Vec<PictureFilter>,
    pub sorts: Vec<PictureSort>,
    pub page: u32,
}

/// A filter on pictures; `invert` keeps the pictures the filter rejects.
#[derive(Debug, Clone, PartialEq)]
pub enum PictureFilter {
    /// In a group of one of the arrangements (the user must own them).
    Arrangement { invert: bool, ids: Vec<i32> },
    /// In one of the groups (possibly shared groups).
    Group { invert: bool, ids: Vec<i32> },
    /// Deleted pictures.
    Deleted { invert: bool },
    /// Pictures owned by the user.
    Owned { invert: bool },
    /// With a tag of one of the tag groups (the user must own them).
    TagGroup { invert: bool, ids: Vec<i32> },
    /// With one of the tags (the user must own them).
    Tag { invert: bool, ids: Vec<i32> },
}

/// A sort of pictures.
#[derive(Debug, Clone, Copy, PartialEq, Eq, Structural)]
pub enum PictureSort {
    CreationDate { ascend: bool },
    EditionDate { ascend: bool },
}

/// How to fetch a page of pictures: the condition the pictures meet,
/// whether each picture is taken once however many of its rows the
/// database joins, the sort that orders them, if any, and the rows to skip
/// and to take.
#[derive(Debug, PartialEq)]
pub struct PictureQueryPlan {
    pub condition: PictureCondition,
    pub distinct: bool,
    pub sort: Option<PictureSort>,
    pub limit: i64,
    pub offset: i64,
}

/// How to list the pictures of a user: the condition of the owned
/// pictures, and that of the shared ones, when they are listed, and
/// whether each picture is taken once: a shared picture is listed once for
/// each of its groups shared with the user unless `distinct` holds.
#[derive(Debug, PartialEq)]
pub struct PictureListPlan {
    pub distinct: bool,
    pub owned: Option<PictureCondition>,
    pub shared: Option<PictureCondition>,
}

/// The user can see the picture: it owns it, or the picture is in a group
/// shared with it.
pub open spec fn visible_to(user_id: i32, p: Picture, l: PictureLinks) -> bool {
    p.owner_id == user_id || l.shared_with.contains(user_id)
}

/// Whether a filter of a query by the user `user_id` keeps the picture.
pub open spec fn picture_filter_holds(f: PictureFilter, user_id: i32, p: Picture, l: PictureLinks) -> bool {
    match f {
        PictureFilter::Arrangement { invert, ids } => any_in(ids@, l.arrangements) != invert,
        PictureFilter::Group { invert, ids } => any_in(ids@, l.groups) != invert,
        PictureFilter::Deleted { invert } => (p.deleted_date is Some) != invert,
        PictureFilter::Owned { invert } => (p.owner_id == user_id) != invert,
        PictureFilter::TagGroup { invert, ids } => any_in(ids@, l.tag_groups) != invert,
        PictureFilter::Tag { invert, ids } => any_in(ids@, l.tags) != invert,
    }
}

/// What a filter of a picture query keeps, each one turned around by
/// `invert`: the pictures in one of the arrangements, in one of the
/// groups, with a tag of one of the tag groups or with one of the tags;
/// the deleted pictures; the pictures the user owns.
pub proof fn law_picture_filter_meaning(f: PictureFilter, user_id: i32, p: Picture, l: PictureLinks)
    ensures
        f matches PictureFilter::Arrangement { invert, ids } ==> (picture_filter_holds(f, user_id, p, l) <==> if invert {
            forall|x: i32| #[trigger] ids@.contains(x) ==> !l.arrangements.contains(x)
        } else {
            exists|x: i32| #[trigger] ids@.contains(x) && l.arrangements.contains(x)
        }),
        f matches PictureFilter::Group { invert, ids } ==> (picture_filter_holds(f, user_id, p, l) <==> if invert {
            forall|x: i32| #[trigger] ids@.contains(x) ==> !l.groups.contains(x)
        } else {
            exists|x: i32| #[trigger] ids@.contains(x) && l.groups.contains(x)
        }),
        f matches PictureFilter::TagGroup { invert, ids } ==> (picture_filter_holds(f, user_id, p, l) <==> if invert {
            forall|x: i32| #[trigger] ids@.contains(x) ==> !l.tag_groups.contains(x)
        } else {
            exists|x: i32| #[trigger] ids@.contains(x) && l.tag_groups.contains(x)
        }),
        f matches PictureFilter::Tag { invert, ids } ==> (picture_filter_holds(f, user_id, p, l) <==> if invert {
            forall|x: i32| #[trigger] ids@.contains(x) ==> !l.tags.contains(x)
        } else {
            exists|x: i32| #[trigger] ids@.contains(x) && l.tags.contains(x)
        }),
        f == (PictureFilter::Deleted { invert: false }) ==> (picture_filter_holds(f, user_id, p, l) <==> p.deleted_date is Some),
        f == (PictureFilter::Deleted { invert: true }) ==> (picture_filter_holds(f, user_id, p, l) <==> p.deleted_date is None),
        f == (PictureFilter::Owned { invert: false }) ==> (picture_filter_holds(f, user_id, p, l) <==> p.owner_id == user_id),
        f == (PictureFilter::Owned { invert: true }) ==> (picture_filter_holds(f, user_id, p, l) <==> p.owner_id != user_id),
{
    match f {
        PictureFilter::Arrangement { ids, .. } => lemma_any_in_contains(ids@, l.arrangements),
        PictureFilter::Group { ids, .. } => lemma_any_in_contains(ids@, l.groups),
        PictureFilter::TagGroup { ids, .. } => lemma_any_in_contains(ids@, l.tag_groups),
        PictureFilter::Tag { ids, .. } => lemma_any_in_contains(ids@, l.tags),
        _ => {},
    }
}

/// Whether all the filters keep the picture.
pub open spec fn all_filters_hold(fs: Seq<PictureFilter>, user_id: i32, p: Picture, l: PictureLinks) -> bool {
    forall|k: int| 0 <= k < fs.len() ==> #[trigger] picture_filter_holds(fs[k], user_id, p, l)
}

/// The condition, negated when `invert` holds.
fn inverted(c: PictureCondition, invert: bool) -> (r: PictureCondition)
    ensures
        forall|p: Picture, l: PictureLinks| #[trigger] condition_holds(r, p, l) == (condition_holds(c, p, l) != invert),
{
    if invert {
        PictureCondition::Not(Box::new(c))
    } else {
        c
    }
}

impl PictureFilter {
    /// The condition on pictures that the filter stands for, in a query by
    /// the user `user_id`.
    pub fn to_condition(self, user_id: i32) -> (r: PictureCondition)
        ensures
            forall|p: Picture, l: PictureLinks| #[trigger] condition_holds(r, p, l) == picture_filter_holds(self, user_id, p, l),
            self matches PictureFilter::Deleted { invert } ==> forall|p: Picture, l: PictureLinks| #[trigger] condition_holds(r, p, l)
                == if invert { p.deleted_date is None } else { p.deleted_date is Some },
            self matches PictureFilter::Owned { invert } ==> forall|p: Picture, l: PictureLinks| #[trigger] condition_holds(r, p, l)
                == if invert { p.owner_id != user_id } else { p.owner_id == user_id },
    {
        match self {
            PictureFilter::Owned { invert } => inverted(PictureCondition::OwnedBy(user_id), invert),
            PictureFilter::Deleted { invert } => inverted(PictureCondition::NotDeleted, !invert),
            PictureFilter::Arrangement { invert, ids } => inverted(PictureCondition::InArrangementIn(ids), invert),
            PictureFilter::Group { invert, ids } => inverted(PictureCondition::InGroupIn(ids), invert),
            PictureFilter::TagGroup { invert, ids } => inverted(PictureCondition::HasTagOfGroupIn(ids), invert),
            PictureFilter::Tag { invert, ids } => inverted(PictureCondition::HasTagIn(ids), invert),
        }
    }
}

impl PicturesQuery {
    /// A query of a page of all the pictures, unsorted.
    pub fn from_page(page: u32) -> (r: PicturesQuery)
        ensures
            r.filters@.len() == 0,
            r.sorts@.len() == 0,
            r.page == page,
    {
        PicturesQuery { filters: Vec::new(), sorts: Vec::new(), page }
    }
}

/// The condition that the picture is deleted (`deleted`) or not.
fn deletion_condition(deleted: bool) -> (r: PictureCondition)
    ensures
        forall|p: Picture, l: PictureLinks| #[trigger] condition_holds(r, p, l) == ((p.deleted_date is Some) == deleted),
{
    inverted(PictureCondition::NotDeleted, deleted)
}

impl Picture {
    /// How to get a page of the pictures the user `user_id` can see that
    /// the query keeps, `page_size` pictures per page. Each sort of the
    /// query replaces the order set by the ones before it, so the pictures
    /// are ordered by the last one.
    pub fn query(user_id: i32, query: PicturesQuery, page_size: i64) -> (r: PictureQueryPlan)
        requires
            query.page != 0,
            i64::MIN <= (query.page - 1) * page_size <= i64::MAX,
        ensures
            forall|p: Picture, l: PictureLinks| #[trigger] condition_holds(r.condition, p, l)
                == (visible_to(user_id, p, l) && all_filters_hold(query.filters@, user_id, p, l)),
            r.distinct,
            r.sort == if query.sorts@.len() > 0 { Some(query.sorts@.last()) } else { None::<PictureSort> },
            r.limit == page_size,
            r.offset == (query.page - 1) * page_size,
    {
        let PicturesQuery { filters, sorts, page } = query;
        let ghost fs = filters@;
        let mut condition = PictureCondition::Or(Box::new(PictureCondition::OwnedBy(user_id)), Box::new(PictureCondition::SharedWith(user_id)));
        let mut rest = filters;
        proof {
            assert forall|p: Picture, l: PictureLinks| #[trigger] condition_holds(condition, p, l)
                == (visible_to(user_id, p, l) && all_filters_hold(fs.subrange(0, 0), user_id, p, l)) by {
                assert(fs.subrange(0, 0) =~= Seq::<PictureFilter>::empty());
                assert(condition_holds(PictureCondition::OwnedBy(user_id), p, l) == (p.owner_id == user_id));
                assert(condition_holds(PictureCondition::SharedWith(user_id), p, l) == l.shared_with.contains(user_id));
            }
        }
        while rest.len() > 0
            invariant
                rest@.len() <= fs.len(),
                rest@ == fs.subrange(fs.len() - rest@.len(), fs.len() as int),
                forall|p: Picture, l: PictureLinks| #[trigger] condition_holds(condition, p, l)
                    == (visible_to(user_id, p, l) && all_filters_hold(fs.subrange(0, fs.len() - rest@.len()), user_id, p, l)),
            decreases rest.len(),
        {
            let ghost c = fs.len() - rest@.len();
            let ghost before = condition;
            let f = rest.remove(0);
            assert(f == fs[c]);
            condition = both(condition, f.to_condition(user_id));
            proof {
                assert forall|p: Picture, l: PictureLinks| #[trigger] condition_holds(condition, p, l)
                    == (visible_to(user_id, p, l) && all_filters_hold(fs.subrange(0, c + 1), user_id, p, l)) by {
                    assert(condition_holds(before, p, l) == (visible_to(user_id, p, l) && all_filters_hold(fs.subrange(0, c), user_id, p, l)));
                    if all_filters_hold(fs.subrange(0, c + 1), user_id, p, l) {
                        assert forall|k: int| 0 <= k < c implies #[trigger] picture_filter_holds(fs.subrange(0, c)[k], user_id, p, l) by {
                            assert(fs.subrange(0, c)[k] == fs.subrange(0, c + 1)[k]);
                        }
                        assert(picture_filter_holds(fs.subrange(0, c + 1)[c], user_id, p, l));
                    }
                    if all_filters_hold(fs.subrange(0, c), user_id, p, l) && picture_filter_holds(fs[c], user_id, p, l) {
                        assert forall|k: int| 0 <= k < c + 1 implies #[trigger] picture_filter_holds(fs.subrange(0, c + 1)[k], user_id, p, l) by {
                            if k < c {
                                assert(fs.subrange(0, c + 1)[k] == fs.subrange(0, c)[k]);
                            }
                        }
                    }
                }
            }
            assert(rest@ =~= fs.subrange(fs.len() - rest@.len(), fs.len() as int));
        }
        assert(fs.subrange(0, fs.len() as int) =~= fs);
        let offset = (page - 1) as i64 * page_size;
        let sort = if sorts.len() > 0 { Some(sorts[sorts.len() - 1]) } else { None };
        PictureQueryPlan { condition, distinct: true, sort, limit: page_size, offset }
    }

    /// How to list the pictures of the user `user_id`, deleted ones or not:
    /// the owned pictures unless only shared ones are asked for, and the
    /// shared pictures unless only owned ones are asked for, in this order.
    pub fn list_all(user_id: i32, deleted: bool, shared: Option<bool>) -> (r: PictureListPlan)
        ensures
            !r.distinct,
            (r.owned is Some) == (shared != Some(true)),
            (r.shared is Some) == (shared != Some(false)),
            r.owned is Some ==> forall|p: Picture, l: PictureLinks| #[trigger] condition_holds(r.owned->Some_0, p, l)
                == (p.owner_id == user_id && (p.deleted_date is Some) == deleted),
            r.shared is Some ==> forall|p: Picture, l: PictureLinks| #[trigger] condition_holds(r.shared->Some_0, p, l)
                == (l.shared_with.contains(user_id) && (p.deleted_date is Some) == deleted),
    {
        let include_owned = !match shared {
            Some(s) => s,
            None => false,
        };
        let include_shared = match shared {
            Some(s) => s,
            None => true,
        };
        let owned = if include_owned {
            Some(both(PictureCondition::OwnedBy(user_id), deletion_condition(deleted)))
        } else {
            None
        };
        let shared_pictures = if include_shared {
            Some(both(PictureCondition::SharedWith(user_id), deletion_condition(deleted)))
        } else {
            None
        };
        PictureListPlan { distinct: false, owned, shared: shared_pictures }
    }
}

} // verus!
