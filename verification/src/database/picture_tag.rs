use vstd::prelude::*;
use crate::utils::sorted_ids::{strictly_sorted, sorted_distinct};
use crate::database::tag::{Tag, TagGroupWithTags, default_ids};

verus! {

/// A tag on a picture.
#[derive(Debug, Clone, Copy, PartialEq, Eq, Structural)]
pub struct PictureTag {
    pub picture_id: i64,
    pub tag_id: i32,
}

/// The number of (picture, tag) rows on the tag `t`.
pub open spec fn tag_count(rows: Seq<(i64, i32)>, t: i32) -> nat
    decreases rows.len(),
{
    if rows.len() == 0 {
        0
    } else {
        tag_count(rows.drop_last(), t) + if rows.last().1 == t { 1nat } else { 0nat }
    }
}

/// The tags of some row.
pub open spec fn row_tags(rows: Seq<(i64, i32)>) -> Set<i32> {
    Set::new(|t: i32| exists|k: int| 0 <= k < rows.len() && #[trigger] rows[k].1 == t)
}

fn count_tag(rows: &Vec<(i64, i32)>, t: i32) -> (r: usize)
    ensures
        r == tag_count(rows@, t),
{
    let mut n: usize = 0;
    let mut i: usize = 0;
    while i < rows.len()
        invariant
            i <= rows@.len(),
            n == tag_count(rows@.subrange(0, i as int), t),
            n <= i,
        decreases rows.len() - i,
    {
        assert(rows@.subrange(0, i + 1).drop_last() =~= rows@.subrange(0, i as int));
        if rows[i].1 == t {
            n = n + 1;
        }
        i = i + 1;
    }
    assert(rows@.subrange(0, rows@.len() as int) =~= rows@);
    n
}

impl PictureTag {
    /// Common and mixed tags of `total_pictures` pictures, from the
    /// (picture, tag) rows of their tags: a tag is common when it has as
    /// many rows as there are pictures, mixed otherwise. Both lists are in
    /// increasing order.
    pub fn get_mixed_pictures_tags(rows: &Vec<(i64, i32)>, total_pictures: usize) -> (r: (Vec<i32>, Vec<i32>))
        ensures
            strictly_sorted(r.0@),
            strictly_sorted(r.1@),
            forall|t: i32| #[trigger] r.0@.contains(t) <==> row_tags(rows@).contains(t) && tag_count(rows@, t) == total_pictures,
            forall|t: i32| #[trigger] r.1@.contains(t) <==> row_tags(rows@).contains(t) && tag_count(rows@, t) != total_pictures,
    {
        let mut ids: Vec<i32> = Vec::new();
        let mut i: usize = 0;
        while i < rows.len()
            invariant
                i <= rows@.len(),
                ids@.len() == i,
                forall|k: int| 0 <= k < i ==> ids@[k] == #[trigger] rows@[k].1,
            decreases rows.len() - i,
        {
            ids.push(rows[i].1);
            i = i + 1;
        }
        let distinct = sorted_distinct(&ids);
        assert forall|t: i32| distinct@.contains(t) <==> row_tags(rows@).contains(t) by {
            assert(distinct@.to_set().contains(t) == ids@.to_set().contains(t));
            if ids@.contains(t) {
                let k = choose|k: int| 0 <= k < ids@.len() && ids@[k] == t;
                assert(rows@[k].1 == t);
            }
            if row_tags(rows@).contains(t) {
                let k = choose|k: int| 0 <= k < rows@.len() && #[trigger] rows@[k].1 == t;
                assert(ids@[k] == t);
            }
        }
        let mut common: Vec<i32> = Vec::new();
        let mut mixed: Vec<i32> = Vec::new();
        let mut j: usize = 0;
        while j < distinct.len()
            invariant
                j <= distinct@.len(),
                strictly_sorted(distinct@),
                strictly_sorted(common@),
                strictly_sorted(mixed@),
                forall|k: int| 0 <= k < common@.len() ==> distinct@.subrange(0, j as int).contains(#[trigger] common@[k]),
                forall|k: int| 0 <= k < mixed@.len() ==> distinct@.subrange(0, j as int).contains(#[trigger] mixed@[k]),
                forall|t: i32| #[trigger] common@.contains(t) <==> distinct@.subrange(0, j as int).contains(t)
                    && tag_count(rows@, t) == total_pictures,
                forall|t: i32| #[trigger] mixed@.contains(t) <==> distinct@.subrange(0, j as int).contains(t)
                    && tag_count(rows@, t) != total_pictures,
            decreases distinct.len() - j,
        {
            let t = distinct[j];
            let ghost prefix = distinct@.subrange(0, j as int);
            let ghost next = distinct@.subrange(0, j + 1);
            assert(next =~= prefix.push(t));
            assert forall|u: i32| prefix.contains(u) implies u < t by {
                let k = choose|k: int| 0 <= k < prefix.len() && prefix[k] == u;
                assert(distinct@[k] == u);
            }
            assert forall|u: i32| next.contains(u) <==> prefix.contains(u) || u == t by {
                if next.contains(u) {
                    let k = choose|k: int| 0 <= k < next.len() && next[k] == u;
                    if k < j {
                        assert(prefix[k] == u);
                    }
                }
                if prefix.contains(u) {
                    let k = choose|k: int| 0 <= k < prefix.len() && prefix[k] == u;
                    assert(next[k] == u);
                }
                if u == t {
                    assert(next[j as int] == u);
                }
            }
            let ghost common0 = common@;
            let ghost mixed0 = mixed@;
            if count_tag(rows, t) == total_pictures {
                common.push(t);
                proof {
                    assert forall|a: int, b: int| 0 <= a < b < common@.len() implies common@[a] < common@[b] by {
                        if b == common@.len() - 1 {
                            assert(prefix.contains(common0[a]));
                        } else {
                            assert(common@[a] == common0[a] && common@[b] == common0[b]);
                        }
                    }
                    assert forall|t2: i32| #[trigger] common@.contains(t2) <==> common0.contains(t2) || t2 == t by {
                        if common@.contains(t2) {
                            let k = choose|k: int| 0 <= k < common@.len() && common@[k] == t2;
                            if k < common0.len() {
                                assert(common0[k] == t2);
                            }
                        }
                        if common0.contains(t2) {
                            let k = choose|k: int| 0 <= k < common0.len() && common0[k] == t2;
                            assert(common@[k] == t2);
                        }
                        if t2 == t {
                            assert(common@[common0.len() as int] == t2);
                        }
                    }
                    assert forall|k: int| 0 <= k < common@.len() implies next.contains(#[trigger] common@[k]) by {
                        if k < common0.len() {
                            assert(common@[k] == common0[k]);
                            assert(prefix.contains(common0[k]));
                        }
                    }
                    assert forall|k: int| 0 <= k < mixed@.len() implies next.contains(#[trigger] mixed@[k]) by {
                        assert(prefix.contains(mixed@[k]));
                    }
                }
            } else {
                mixed.push(t);
                proof {
                    assert forall|a: int, b: int| 0 <= a < b < mixed@.len() implies mixed@[a] < mixed@[b] by {
                        if b == mixed@.len() - 1 {
                            assert(prefix.contains(mixed0[a]));
                        } else {
                            assert(mixed@[a] == mixed0[a] && mixed@[b] == mixed0[b]);
                        }
                    }
                    assert forall|t2: i32| #[trigger] mixed@.contains(t2) <==> mixed0.contains(t2) || t2 == t by {
                        if mixed@.contains(t2) {
                            let k = choose|k: int| 0 <= k < mixed@.len() && mixed@[k] == t2;
                            if k < mixed0.len() {
                                assert(mixed0[k] == t2);
                            }
                        }
                        if mixed0.contains(t2) {
                            let k = choose|k: int| 0 <= k < mixed0.len() && mixed0[k] == t2;
                            assert(mixed@[k] == t2);
                        }
                        if t2 == t {
                            assert(mixed@[mixed0.len() as int] == t2);
                        }
                    }
                    assert forall|k: int| 0 <= k < mixed@.len() implies next.contains(#[trigger] mixed@[k]) by {
                        if k < mixed0.len() {
                            assert(mixed@[k] == mixed0[k]);
                            assert(prefix.contains(mixed0[k]));
                        }
                    }
                    assert forall|k: int| 0 <= k < common@.len() implies next.contains(#[trigger] common@[k]) by {
                        assert(prefix.contains(common@[k]));
                    }
                }
            }
            j = j + 1;
        }
        assert(distinct@.subrange(0, distinct@.len() as int) =~= distinct@);
        (common, mixed)
    }
}

/// The picture has a tag of the group `g`, as the (picture, tag group)
/// rows of the pictures' tags tell.
pub open spec fn has_tag_of_group(rows: Seq<(i64, i32)>, p: i64, g: i32) -> bool {
    exists|k: int| 0 <= k < rows.len() && #[trigger] rows[k] == (p, g)
}

/// The pictures, in order, that have no tag of the group `g`.
pub open spec fn without_tag_of_group(pictures: Seq<i64>, rows: Seq<(i64, i32)>, g: i32) -> Seq<i64>
    decreases pictures.len(),
{
    if pictures.len() == 0 {
        pictures
    } else {
        without_tag_of_group(pictures.drop_last(), rows, g) + if has_tag_of_group(rows, pictures.last(), g) {
            Seq::<i64>::empty()
        } else {
            seq![pictures.last()]
        }
    }
}

/// Whether some row is (p, g).
fn has_row(rows: &Vec<(i64, i32)>, p: i64, g: i32) -> (r: bool)
    ensures
        r == has_tag_of_group(rows@, p, g),
{
    let mut i: usize = 0;
    while i < rows.len()
        invariant
            i <= rows.len(),
            forall|k: int| 0 <= k < i ==> rows@[k] != (p, g),
        decreases rows.len() - i,
    {
        if rows[i].0 == p && rows[i].1 == g {
            assert(rows@[i as int] == (p, g));
            return true;
        }
        i = i + 1;
    }
    false
}

/// The default tags of a tag group, and the pictures that receive them.
pub struct DefaultTagsAddition {
    pub tag_ids: Vec<i32>,
    pub picture_ids: Vec<i64>,
}

impl PictureTag {
    /// Among `picture_ids`, those that have no tag of the group `tag_group_id`;
    /// `rows` are the (picture, tag group) pairs of the pictures' tags.
    pub fn pictures_without_tag_of_group(picture_ids: &Vec<i64>, rows: &Vec<(i64, i32)>, tag_group_id: i32) -> (r: Vec<i64>)
        ensures
            r@ == without_tag_of_group(picture_ids@, rows@, tag_group_id),
    {
        let mut r: Vec<i64> = Vec::new();
        let mut i: usize = 0;
        while i < picture_ids.len()
            invariant
                i <= picture_ids.len(),
                r@ == without_tag_of_group(picture_ids@.subrange(0, i as int), rows@, tag_group_id),
            decreases picture_ids.len() - i,
        {
            assert(picture_ids@.subrange(0, i + 1).drop_last() =~= picture_ids@.subrange(0, i as int));
            let p = picture_ids[i];
            if !has_row(rows, p, tag_group_id) {
                r.push(p);
            }
            i = i + 1;
        }
        assert(picture_ids@.subrange(0, picture_ids@.len() as int) =~= picture_ids@);
        r
    }

    /// For every tag group of the user, the default tags of the group go only
    /// to those of `picture_ids` that have no tag of the group: one addition
    /// per group, in order. `rows` are the (picture, tag group) pairs of the
    /// pictures' tags.
    pub fn default_tags_to_add(groups: &Vec<TagGroupWithTags>, picture_ids: &Vec<i64>, rows: &Vec<(i64, i32)>) -> (r: Vec<
        DefaultTagsAddition,
    >)
        requires
            forall|k: int| 0 <= k < groups@.len() ==> (#[trigger] groups@[k]).tag_group.id is Some,
        ensures
            r@.len() == groups@.len(),
            forall|k: int|
                0 <= k < groups@.len() ==> {
                    &&& (#[trigger] r@[k]).tag_ids@ == default_ids(groups@[k].tags@)
                    &&& r@[k].picture_ids@ == without_tag_of_group(
                        picture_ids@,
                        rows@,
                        groups@[k].tag_group.id->Some_0,
                    )
                },
    {
        let mut r: Vec<DefaultTagsAddition> = Vec::new();
        let mut i: usize = 0;
        while i < groups.len()
            invariant
                i <= groups.len(),
                r@.len() == i,
                forall|k: int| 0 <= k < groups@.len() ==> (#[trigger] groups@[k]).tag_group.id is Some,
                forall|k: int|
                    0 <= k < i ==> {
                        &&& (#[trigger] r@[k]).tag_ids@ == default_ids(groups@[k].tags@)
                        &&& r@[k].picture_ids@ == without_tag_of_group(
                            picture_ids@,
                            rows@,
                            groups@[k].tag_group.id->Some_0,
                        )
                    },
            decreases groups.len() - i,
        {
            let g = &groups[i];
            let gid = match g.tag_group.id {
                Some(x) => x,
                None => 0,
            };
            let tag_ids = Tag::default_tag_ids(&g.tags);
            let pics = Self::pictures_without_tag_of_group(picture_ids, rows, gid);
            r.push(DefaultTagsAddition { tag_ids, picture_ids: pics });
            i = i + 1;
        }
        r
    }
}

} // verus!
