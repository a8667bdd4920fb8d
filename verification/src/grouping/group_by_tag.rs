use vstd::prelude::*;
use std::collections::HashMap;
use crate::database::tag::Tag;
use vstd::std_specs::hash::spec_values_iter;
use vstd::std_specs::iter::IteratorSpec;
use std::collections::HashSet;
use crate::utils::errors_catcher::ErrorResponder;
use crate::grouping::strategy_grouping::{UngroupRecord, records, lemma_records_trans, lemma_records_none};
use crate::grouping::picture_sets::{difference, intersection};
use crate::grouping::group_by_filter::{set_views, additions_view};

verus! {

broadcast use vstd::std_specs::hash::group_hash_axioms;

/// Request to group pictures by the tags of a tag group.
#[derive(Debug, Clone, PartialEq)]
pub struct TagGroupingRequest {
    pub tag_group_id: i32,
    pub group_names_format: String,
}

/// Groups pictures by the tags of a tag group: one group per tag.
#[derive(Debug, Clone, PartialEq)]
pub struct TagGrouping {
    pub tag_group_id: i32,
    /// Id of the group of each tag.
    pub tag_id_to_group_id: HashMap<i32, i32>,
    /// Id of the group for the pictures without any tag of the tag group.
    pub other_group_id: Option<i32>,
    pub group_names_format: String,
}

/// Grouping the pictures `pics` by tags, in order, the k-th tag being on
/// the pictures `matched[k]`: the pictures of each tag's group, and the
/// pictures no group took. When `preserve` holds, only the pictures no
/// group took yet can go to a group. Once a group takes pictures, no
/// picture is left for the other group.
pub open spec fn tag_groups(matched: Seq<Set<i64>>, pics: Set<i64>, preserve: bool) -> (Seq<Set<i64>>, Set<i64>)
    decreases matched.len(),
{
    if matched.len() == 0 {
        (Seq::empty(), pics)
    } else {
        let prev = tag_groups(matched.drop_last(), pics, preserve);
        let to_group = if preserve { prev.1 } else { pics };
        let g = to_group.intersect(matched.last());
        (prev.0.push(g), if g == Set::<i64>::empty() { prev.1.difference(g) } else { Set::<i64>::empty() })
    }
}

/// With unicity preserved, grouping by tags puts no picture in two groups,
/// nor in a group and in the other group.
pub proof fn law_tag_groups_unicity(matched: Seq<Set<i64>>, pics: Set<i64>)
    ensures
        ({
            let (groups, remaining) = tag_groups(matched, pics, true);
            &&& forall|i: int, j: int|
                0 <= i < groups.len() && 0 <= j < groups.len() && i != j ==> (#[trigger] groups[i]).intersect(
                    #[trigger] groups[j],
                ) == Set::<i64>::empty()
            &&& forall|i: int| 0 <= i < groups.len() ==> (#[trigger] groups[i]).intersect(remaining) == Set::<i64>::empty()
            &&& forall|i: int| 0 <= i < groups.len() ==> (#[trigger] groups[i]).subset_of(pics)
            &&& remaining.subset_of(pics)
        }),
    decreases matched.len(),
{
    lemma_tag_groups_len(matched, pics, true);
    if matched.len() > 0 {
        law_tag_groups_unicity(matched.drop_last(), pics);
        lemma_tag_groups_len(matched.drop_last(), pics, true);
        let prev = tag_groups(matched.drop_last(), pics, true);
        let (groups, remaining) = tag_groups(matched, pics, true);
        let g = prev.1.intersect(matched.last());
        let k = groups.len() - 1;
        assert(groups == prev.0.push(g));
        assert(remaining.subset_of(prev.1));
        assert forall|i: int, j: int|
            0 <= i < groups.len() && 0 <= j < groups.len() && i != j implies (#[trigger] groups[i]).intersect(
                #[trigger] groups[j],
            ) == Set::<i64>::empty() by {
            if i < k && j < k {
                assert(groups[i] == prev.0[i]);
                assert(groups[j] == prev.0[j]);
            } else if i == k {
                assert(groups[j] == prev.0[j]);
                assert(prev.0[j].intersect(prev.1) == Set::<i64>::empty());
                assert(groups[i].intersect(groups[j]) =~= Set::<i64>::empty());
            } else {
                assert(groups[i] == prev.0[i]);
                assert(prev.0[i].intersect(prev.1) == Set::<i64>::empty());
                assert(groups[i].intersect(groups[j]) =~= Set::<i64>::empty());
            }
        }
        assert forall|i: int| 0 <= i < groups.len() implies (#[trigger] groups[i]).intersect(remaining) == Set::<i64>::empty() by {
            if i < k {
                assert(groups[i] == prev.0[i]);
                assert(prev.0[i].intersect(prev.1) == Set::<i64>::empty());
            }
            assert(groups[i].intersect(remaining) =~= Set::<i64>::empty());
        }
        assert forall|i: int| 0 <= i < groups.len() implies (#[trigger] groups[i]).subset_of(pics) by {
            if i < k {
                assert(groups[i] == prev.0[i]);
            }
        }
    }
}

/// The group id of a result that gives a group id and whether the group
/// was created.
pub open spec fn group_id_result(r: Result<(i32, bool), ErrorResponder>) -> Result<i32, ErrorResponder> {
    match r {
        Ok((id, _)) => Ok(id),
        Err(e) => Err(e),
    }
}

/// A tag whose group took pictures needs a new group when it has none yet.
pub open spec fn needs_new_group(map: Map<i32, i32>, tag_id: i32, g: Set<i64>) -> bool {
    g != Set::<i64>::empty() && !map.contains_key(tag_id)
}

/// The group of each tag whose group took pictures, with these pictures:
/// the tag's group, or else the group made for it, `new_ids[k]`.
pub open spec fn tag_additions(map: Map<i32, i32>, tag_ids: Seq<i32>, groups: Seq<Set<i64>>, new_ids: Seq<Option<i32>>) -> Seq<(i32, Set<i64>)>
    decreases groups.len(),
{
    if groups.len() == 0 {
        Seq::empty()
    } else {
        let k = groups.len() - 1;
        let prev = tag_additions(map, tag_ids, groups.drop_last(), new_ids);
        if groups[k] == Set::<i64>::empty() {
            prev
        } else if map.contains_key(tag_ids[k]) {
            prev.push((map[tag_ids[k]], groups[k]))
        } else {
            prev.push((new_ids[k]->Some_0, groups[k]))
        }
    }
}

/// For each tag that has a group, its group with the pictures of `pics`
/// that the group did not take.
pub open spec fn tag_ungroups(map: Map<i32, i32>, tag_ids: Seq<i32>, groups: Seq<Set<i64>>, pics: Set<i64>) -> Seq<(i32, Set<i64>)>
    decreases groups.len(),
{
    if groups.len() == 0 {
        Seq::empty()
    } else {
        let k = groups.len() - 1;
        let prev = tag_ungroups(map, tag_ids, groups.drop_last(), pics);
        if map.contains_key(tag_ids[k]) {
            prev.push((map[tag_ids[k]], pics.difference(groups[k])))
        } else {
            prev
        }
    }
}

/// The last group made for a tag, if any; else `other`.
pub open spec fn last_made(map: Map<i32, i32>, tag_ids: Seq<i32>, groups: Seq<Set<i64>>, new_ids: Seq<Option<i32>>, other: Option<i32>) -> Option<i32>
    decreases groups.len(),
{
    if groups.len() == 0 {
        other
    } else {
        let k = groups.len() - 1;
        if needs_new_group(map, tag_ids[k], groups[k]) {
            new_ids[k]
        } else {
            last_made(map, tag_ids, groups.drop_last(), new_ids, other)
        }
    }
}

/// Some tag needs a new group.
pub open spec fn any_needs(map: Map<i32, i32>, tag_ids: Seq<i32>, groups: Seq<Set<i64>>) -> bool {
    exists|k: int| 0 <= k < groups.len() && #[trigger] needs_new_group(map, tag_ids[k], groups[k])
}

/// The ids of a list of tags.
pub open spec fn tag_ids(tags: Seq<Tag>) -> Seq<i32> {
    tags.map_values(|t: Tag| t.id)
}

proof fn lemma_tag_groups_len(matched: Seq<Set<i64>>, pics: Set<i64>, preserve: bool)
    ensures
        tag_groups(matched, pics, preserve).0.len() == matched.len(),
    decreases matched.len(),
{
    if matched.len() > 0 {
        lemma_tag_groups_len(matched.drop_last(), pics, preserve);
    }
}

proof fn lemma_tag_groups_prefix(matched: Seq<Set<i64>>, pics: Set<i64>, preserve: bool, k: int)
    requires
        0 <= k <= matched.len(),
    ensures
        tag_groups(matched.subrange(0, k), pics, preserve).0 == tag_groups(matched, pics, preserve).0.subrange(0, k),
    decreases matched.len(),
{
    lemma_tag_groups_len(matched, pics, preserve);
    if k == matched.len() {
        assert(matched.subrange(0, k) =~= matched);
        assert(tag_groups(matched, pics, preserve).0.subrange(0, k) =~= tag_groups(matched, pics, preserve).0);
    } else {
        assert(matched.drop_last().subrange(0, k) =~= matched.subrange(0, k));
        lemma_tag_groups_prefix(matched.drop_last(), pics, preserve, k);
        lemma_tag_groups_len(matched.drop_last(), pics, preserve);
        assert(tag_groups(matched.drop_last(), pics, preserve).0.subrange(0, k)
            =~= tag_groups(matched, pics, preserve).0.subrange(0, k));
    }
}

impl TagGrouping {
    /// The group of a tag: the tag's own, or else the one that `create`
    /// makes, called with the group's name. A group made this way becomes
    /// the other group of the grouping, not the tag's. Also says whether
    /// the group was created.
    pub fn get_or_create_tag_group<F: FnOnce(String) -> Result<i32, ErrorResponder>>(&mut self, tag: &Tag, create: F) -> (r: Result<
        (i32, bool),
        ErrorResponder,
    >)
        requires
            !old(self).tag_id_to_group_id@.contains_key(tag.id) ==> forall|name: String| create.requires((name,)),
        ensures
            final(self).tag_group_id == old(self).tag_group_id,
            final(self).tag_id_to_group_id == old(self).tag_id_to_group_id,
            final(self).group_names_format == old(self).group_names_format,
            old(self).tag_id_to_group_id@.contains_key(tag.id) ==> r == Ok::<(i32, bool), ErrorResponder>(
                (old(self).tag_id_to_group_id@[tag.id], false),
            ) && final(self).other_group_id == old(self).other_group_id,
            !old(self).tag_id_to_group_id@.contains_key(tag.id) ==> exists|name: String|
                name@ == tag.name@ && #[trigger] create.ensures((name,), group_id_result(r)),
            !old(self).tag_id_to_group_id@.contains_key(tag.id) ==> match r {
                Ok((id, created)) => created && final(self).other_group_id == Some(id),
                Err(_) => final(self).other_group_id == old(self).other_group_id,
            },
    {
        match self.tag_id_to_group_id.get(&tag.id) {
            Some(id) => Ok((*id, false)),
            None => {
                let name = self.format_group_name(tag);
                let ghost gname = name;
                match create(name) {
                    Ok(id) => {
                        self.other_group_id = Some(id);
                        assert(create.ensures((gname,), group_id_result(Ok::<(i32, bool), ErrorResponder>((id, true)))));
                        Ok((id, true))
                    },
                    Err(e) => {
                        assert(create.ensures((gname,), group_id_result(Err::<(i32, bool), ErrorResponder>(e))));
                        Err(e)
                    },
                }
            },
        }
    }

    /// The group for the pictures of no tag: the existing one, or else the
    /// one that `create` makes, which becomes the other group. Also says
    /// whether the group was created.
    pub fn get_or_create_other_group<F: FnOnce() -> Result<i32, ErrorResponder>>(&mut self, create: F) -> (r: Result<(i32, bool), ErrorResponder>)
        requires
            old(self).other_group_id is None ==> call_requires(create, ()),
        ensures
            final(self).tag_group_id == old(self).tag_group_id,
            final(self).tag_id_to_group_id == old(self).tag_id_to_group_id,
            final(self).group_names_format == old(self).group_names_format,
            old(self).other_group_id is Some ==> r == Ok::<(i32, bool), ErrorResponder>((old(self).other_group_id->Some_0, false))
                && final(self).other_group_id == old(self).other_group_id,
            old(self).other_group_id is None ==> call_ensures(create, (), match r {
                Ok((id, _)) => Ok::<i32, ErrorResponder>(id),
                Err(e) => Err(e),
            }),
            old(self).other_group_id is None ==> match r {
                Ok((id, created)) => created && final(self).other_group_id == Some(id),
                Err(_) => final(self).other_group_id is None,
            },
    {
        match self.other_group_id {
            Some(id) => Ok((id, false)),
            None => {
                match create() {
                    Ok(id) => {
                        self.other_group_id = Some(id);
                        Ok((id, true))
                    },
                    Err(e) => Err(e),
                }
            },
        }
    }

    /// Groups the pictures `picture_ids` into the groups of the tags
    /// `tags`, in order; `matched[k]` holds the pictures of `picture_ids`
    /// that have the k-th tag. A tag without a group gets the group
    /// `new_group_ids[k]`, made beforehand for each tag that
    /// [`TagGrouping::tags_needing_group`] lists; that group becomes the
    /// other group, and the tag stays without a group. When pictures are
    /// left, they go to the other group, made by `create_other_group` when
    /// there is none. Returns whether the strategy must be saved, and the
    /// pictures to add to each group, in order. An enabled
    /// `ungroup_record` receives, for each tag that has a group, the
    /// pictures its group did not take, and, when the strategy need not be
    /// saved and there is an other group, the pictures the tags took.
    pub fn group_pictures<F: FnOnce() -> Result<i32, ErrorResponder>>(
        &mut self,
        preserve_unicity: bool,
        ungroup_record: &mut UngroupRecord,
        picture_ids: &HashSet<i64>,
        tags: &Vec<Tag>,
        matched: &Vec<HashSet<i64>>,
        new_group_ids: &Vec<Option<i32>>,
        create_other_group: F,
    ) -> (r: Result<(bool, Vec<(i32, HashSet<i64>)>), ErrorResponder>)
        requires
            matched@.len() == tags@.len(),
            new_group_ids@.len() == tags@.len(),
            forall|k: int| 0 <= k < tags@.len() && #[trigger] needs_new_group(old(self).tag_id_to_group_id@, tags@[k].id,
                tag_groups(set_views(matched@), picture_ids@, preserve_unicity).0[k]) ==> new_group_ids@[k] is Some,
            last_made(old(self).tag_id_to_group_id@, tag_ids(tags@), tag_groups(set_views(matched@), picture_ids@, preserve_unicity).0,
                new_group_ids@, old(self).other_group_id) is None ==> call_requires(create_other_group, ()),
        ensures
            ({
                let map = old(self).tag_id_to_group_id@;
                let ids = tag_ids(tags@);
                let (groups, remaining) = tag_groups(set_views(matched@), picture_ids@, preserve_unicity);
                let made = last_made(map, ids, groups, new_group_ids@, old(self).other_group_id);
                let per_tag = tag_additions(map, ids, groups, new_group_ids@);
                let outside = tag_ungroups(map, ids, groups, picture_ids@);
                let update = r->Ok_0.0;
                let adds = additions_view(r->Ok_0.1@);
                let created = adds.last().0;
                &&& final(self).tag_group_id == old(self).tag_group_id
                &&& final(self).tag_id_to_group_id == old(self).tag_id_to_group_id
                &&& final(self).group_names_format == old(self).group_names_format
                &&& remaining.is_empty() ==> (r is Ok && update == any_needs(map, ids, groups) && adds == per_tag
                    && final(self).other_group_id == made)
                &&& !remaining.is_empty() && made is Some ==> (r is Ok && !update && adds == per_tag.push((made->Some_0, remaining))
                    && final(self).other_group_id == made)
                &&& !remaining.is_empty() && made is None ==> call_ensures(create_other_group, (),
                    if r is Ok { Ok::<i32, ErrorResponder>(created) } else { Err(r->Err_0) })
                &&& !remaining.is_empty() && made is None && r is Ok ==> (update && final(self).other_group_id == Some(created)
                    && adds == per_tag.push((created, remaining)))
                &&& !remaining.is_empty() && made is None && r is Err ==> final(self).other_group_id is None
                &&& r is Ok && !update && final(self).other_group_id is Some ==> records(*old(ungroup_record), *final(ungroup_record),
                    outside.push((final(self).other_group_id->Some_0, picture_ids@.difference(remaining))))
                &&& !(r is Ok && !update && final(self).other_group_id is Some) ==> records(*old(ungroup_record),
                    *final(ungroup_record), outside)
            }),
    {
        let ghost map = self.tag_id_to_group_id@;
        let ghost ids = tag_ids(tags@);
        let ghost mv = set_views(matched@);
        let ghost nv = new_group_ids@;
        let ghost other0 = self.other_group_id;
        let ghost rec0 = *ungroup_record;
        let ghost all = tag_groups(mv, picture_ids@, preserve_unicity);
        let mut update_strategy = false;
        let mut adds: Vec<(i32, HashSet<i64>)> = Vec::new();
        let mut remaining = difference(picture_ids, &HashSet::new());
        proof {
            assert(picture_ids@.difference(Set::empty()) =~= picture_ids@);
            assert(mv.subrange(0, 0) =~= Seq::<Set<i64>>::empty());
            assert(additions_view(adds@) =~= Seq::<(i32, Set<i64>)>::empty());
            lemma_records_none(rec0);
            lemma_tag_groups_len(mv, picture_ids@, preserve_unicity);
        }
        let mut i: usize = 0;
        while i < tags.len()
            invariant
                i <= tags.len(),
                matched@.len() == tags@.len(),
                new_group_ids@.len() == tags@.len(),
                mv == set_views(matched@),
                nv == new_group_ids@,
                ids == tag_ids(tags@),
                map == self.tag_id_to_group_id@,
                self.tag_group_id == old(self).tag_group_id,
                self.tag_id_to_group_id == old(self).tag_id_to_group_id,
                self.group_names_format == old(self).group_names_format,
                all == tag_groups(mv, picture_ids@, preserve_unicity),
                all.0.len() == mv.len(),
                forall|k: int| 0 <= k < tags@.len() && #[trigger] needs_new_group(map, tags@[k].id, all.0[k]) ==> nv[k] is Some,
                ({
                    let (groups, rem) = tag_groups(mv.subrange(0, i as int), picture_ids@, preserve_unicity);
                    &&& remaining@ == rem
                    &&& groups == all.0.subrange(0, i as int)
                    &&& additions_view(adds@) == tag_additions(map, ids, groups, nv)
                    &&& self.other_group_id == last_made(map, ids, groups, nv, other0)
                    &&& update_strategy == any_needs(map, ids, groups)
                    &&& records(rec0, *ungroup_record, tag_ungroups(map, ids, groups, picture_ids@))
                }),
            decreases tags.len() - i,
        {
            let ghost prev = tag_groups(mv.subrange(0, i as int), picture_ids@, preserve_unicity);
            let ghost rec1 = *ungroup_record;
            let ghost adds0 = adds@;
            let ghost upd0 = update_strategy;
            let tag_id = tags[i].id;
            let group_pictures = if preserve_unicity {
                intersection(&remaining, &matched[i])
            } else {
                intersection(picture_ids, &matched[i])
            };
            let ghost g = group_pictures@;
            let ghost groups1 = prev.0.push(g);
            proof {
                assert(mv.subrange(0, i + 1).drop_last() =~= mv.subrange(0, i as int));
                lemma_tag_groups_len(mv.subrange(0, i as int), picture_ids@, preserve_unicity);
                lemma_tag_groups_prefix(mv, picture_ids@, preserve_unicity, i + 1);
                assert(tag_groups(mv.subrange(0, i + 1), picture_ids@, preserve_unicity).0 == groups1);
                assert(all.0.subrange(0, i + 1) =~= groups1);
                assert(groups1.drop_last() =~= prev.0);
                assert(ids[i as int] == tag_id);
                assert(prev.0.len() == i);
                assert(groups1[i as int] == g);
                assert(all.0.subrange(0, i + 1)[i as int] == all.0[i as int]);
                assert(all.0[i as int] == g);
            }
            let existing = self.tag_id_to_group_id.get(&tag_id);
            let taken = !group_pictures.is_empty();
            if taken {
                let group_id = match existing {
                    Some(id) => *id,
                    None => {
                        assert(needs_new_group(map, tags@[i as int].id, all.0[i as int]));
                        let id = new_group_ids[i].unwrap();
                        self.other_group_id = Some(id);
                        update_strategy = true;
                        id
                    },
                };
                let copy = difference(&group_pictures, &HashSet::new());
                assert(g.difference(Set::empty()) =~= g);
                adds.push((group_id, copy));
                remaining = HashSet::new();
                proof {
                    assert(g != Set::<i64>::empty());
                    assert(additions_view(adds@) =~= additions_view(adds0).push((group_id, g)));
                    if existing is None {
                        assert(needs_new_group(map, ids[i as int], groups1[i as int]));
                    } else {
                        assert(!needs_new_group(map, ids[i as int], groups1[i as int]));
                        if any_needs(map, ids, groups1) {
                            let k = choose|k: int| 0 <= k < groups1.len() && #[trigger] needs_new_group(map, ids[k], groups1[k]);
                            assert(k < i);
                            assert(groups1[k] == prev.0[k]);
                        }
                    }
                    if upd0 {
                        let k = choose|k: int| 0 <= k < prev.0.len() && #[trigger] needs_new_group(map, ids[k], prev.0[k]);
                        assert(groups1[k] == prev.0[k]);
                    }
                }
            } else {
                remaining = difference(&remaining, &group_pictures);
                proof {
                    assert(g =~= Set::<i64>::empty());
                    assert(!needs_new_group(map, ids[i as int], groups1[i as int]));
                    if any_needs(map, ids, groups1) {
                        let k = choose|k: int| 0 <= k < groups1.len() && #[trigger] needs_new_group(map, ids[k], groups1[k]);
                        assert(k < i);
                        assert(groups1[k] == prev.0[k]);
                    }
                    if upd0 {
                        let k = choose|k: int| 0 <= k < prev.0.len() && #[trigger] needs_new_group(map, ids[k], prev.0[k]);
                        assert(groups1[k] == prev.0[k]);
                    }
                }
            }
            if ungroup_record.enable {
                match existing {
                    Some(id) => {
                        ungroup_record.add(*id, difference(picture_ids, &group_pictures));
                        proof {
                            lemma_records_trans(rec0, rec1, *ungroup_record, tag_ungroups(map, ids, prev.0, picture_ids@),
                                seq![(map[tag_id], picture_ids@.difference(g))]);
                            assert(tag_ungroups(map, ids, prev.0, picture_ids@) + seq![(map[tag_id], picture_ids@.difference(g))]
                                =~= tag_ungroups(map, ids, groups1, picture_ids@));
                        }
                    },
                    None => {
                        assert(tag_ungroups(map, ids, groups1, picture_ids@) == tag_ungroups(map, ids, prev.0, picture_ids@));
                    },
                }
            } else {
                proof {
                    assert(records(rec0, *ungroup_record, tag_ungroups(map, ids, groups1, picture_ids@)));
                }
            }
            i = i + 1;
        }
        proof {
            assert(mv.subrange(0, mv.len() as int) =~= mv);
        }
        if !remaining.is_empty() {
            let (other_group_id, group_created) = match self.get_or_create_other_group(create_other_group) {
                Ok(x) => x,
                Err(e) => {
                    return Err(e);
                },
            };
            update_strategy = group_created;
            let ghost before = adds@;
            let rem_copy = difference(&remaining, &HashSet::new());
            assert(remaining@.difference(Set::empty()) =~= remaining@);
            adds.push((other_group_id, rem_copy));
            assert(additions_view(adds@) =~= additions_view(before).push((other_group_id, remaining@)));
        }
        if ungroup_record.enable && !update_strategy && self.other_group_id.is_some() {
            let ghost rec1 = *ungroup_record;
            let other = self.other_group_id.unwrap();
            ungroup_record.add(other, difference(picture_ids, &remaining));
            proof {
                let outside = tag_ungroups(map, ids, all.0, picture_ids@);
                lemma_records_trans(rec0, rec1, *ungroup_record, outside, seq![(other, picture_ids@.difference(remaining@))]);
                assert(outside + seq![(other, picture_ids@.difference(remaining@))]
                    =~= outside.push((other, picture_ids@.difference(remaining@))));
            }
        } else {
            proof {
                if !ungroup_record.enable && !update_strategy && self.other_group_id.is_some() {
                    assert(records(rec0, *ungroup_record, tag_ungroups(map, ids, all.0, picture_ids@).push(
                        (self.other_group_id->Some_0, picture_ids@.difference(remaining@)))));
                }
            }
        }
        Ok((update_strategy, adds))
    }

    /// Whether each tag needs a new group: its group, grouping the pictures
    /// `picture_ids` as [`TagGrouping::group_pictures`] does, takes pictures,
    /// and the tag has no group yet.
    pub fn tags_needing_group(&self, preserve_unicity: bool, picture_ids: &HashSet<i64>, tags: &Vec<Tag>, matched: &Vec<HashSet<i64>>) -> (r: Vec<bool>)
        requires
            matched@.len() == tags@.len(),
        ensures
            r@.len() == tags@.len(),
            forall|k: int| 0 <= k < r@.len() ==> #[trigger] r@[k] == needs_new_group(self.tag_id_to_group_id@, tags@[k].id,
                tag_groups(set_views(matched@), picture_ids@, preserve_unicity).0[k]),
    {
        let ghost mv = set_views(matched@);
        let mut r: Vec<bool> = Vec::new();
        let mut remaining = difference(picture_ids, &HashSet::new());
        assert(picture_ids@.difference(Set::empty()) =~= picture_ids@);
        assert(mv.subrange(0, 0) =~= Seq::<Set<i64>>::empty());
        let mut i: usize = 0;
        while i < tags.len()
            invariant
                i <= tags.len(),
                matched@.len() == tags@.len(),
                mv == set_views(matched@),
                remaining@ == tag_groups(mv.subrange(0, i as int), picture_ids@, preserve_unicity).1,
                r@.len() == i,
                forall|k: int| 0 <= k < i ==> #[trigger] r@[k] == needs_new_group(self.tag_id_to_group_id@, tags@[k].id,
                    tag_groups(mv, picture_ids@, preserve_unicity).0[k]),
            decreases tags.len() - i,
        {
            let group_pictures = if preserve_unicity {
                intersection(&remaining, &matched[i])
            } else {
                intersection(picture_ids, &matched[i])
            };
            proof {
                assert(mv.subrange(0, i + 1).drop_last() =~= mv.subrange(0, i as int));
                lemma_tag_groups_len(mv.subrange(0, i as int), picture_ids@, preserve_unicity);
                lemma_tag_groups_prefix(mv, picture_ids@, preserve_unicity, i + 1);
                lemma_tag_groups_len(mv, picture_ids@, preserve_unicity);
                assert(tag_groups(mv, picture_ids@, preserve_unicity).0[i as int]
                    == tag_groups(mv.subrange(0, i + 1), picture_ids@, preserve_unicity).0[i as int]);
            }
            let taken = !group_pictures.is_empty();
            let has_group = self.tag_id_to_group_id.contains_key(&tags[i].id);
            r.push(taken && !has_group);
            if taken {
                remaining = HashSet::new();
            } else {
                remaining = difference(&remaining, &group_pictures);
            }
            proof {
                if !taken {
                    assert(group_pictures@ =~= Set::<i64>::empty());
                }
            }
            i = i + 1;
        }
        r
    }


    /// The name of the group of a tag.
    pub fn format_group_name(&self, tag: &Tag) -> (r: String)
        ensures
            r@ == tag.name@,
    {
        tag.name.clone()
    }

    /// The ids of the groups of the strategy: those of the tags, in no
    /// particular order, then the other group.
    pub fn get_groups(&self) -> (r: Vec<i32>)
        ensures
            r@.to_set() == match self.other_group_id {
                Some(id) => self.tag_id_to_group_id@.values().insert(id),
                None => self.tag_id_to_group_id@.values(),
            },
            r@.len() == self.tag_id_to_group_id@.dom().len() + if self.other_group_id is Some { 1int } else { 0int },
    {
        let mut groups: Vec<i32> = Vec::new();
        let ghost vals = spec_values_iter(&self.tag_id_to_group_id).remaining();
        for v in it: self.tag_id_to_group_id.values()
            invariant
                it.seq() == vals,
                groups@.len() == it.index(),
                forall|j: int| 0 <= j < it.index() ==> groups@[j] == *it.seq()[j],
        {
            groups.push(*v);
        }
        proof {
            assert(groups@ =~= vals.map_values(|x: &i32| *x));
            assert(vals.unref() =~= vals.map_values(|x: &i32| *x));
            vstd::std_specs::hash::axiom_spec_values_iter(&self.tag_id_to_group_id);
            assert(groups@.to_set() == self.tag_id_to_group_id@.values());
        }
        if let Some(id) = self.other_group_id {
            let ghost before = groups@;
            groups.push(id);
            proof {
                Seq::lemma_to_set_insert_commutes(before, id);
                assert(before + seq![id] =~= groups@);
            }
        }
        groups
    }
}

} // verus!
