use vstd::prelude::*;
use crate::utils::errors_catcher::{ErrorResponder, ErrorType, ErrorTypeKind, responder_status, response_of};

verus! {

/// A tag of a tag group.
#[derive(Debug, Clone, PartialEq)]
pub struct Tag {
    pub id: i32,
    pub tag_group_id: i32,
    pub name: String,
    pub color: Vec<u8>,
    pub is_default: bool,
}

/// A group of tags of a user. A picture can have several tags of a
/// `multiple` group, and has at least one tag of a `required` group.
#[derive(Debug, Clone, PartialEq)]
pub struct TagGroup {
    /// `None` before the group is stored.
    pub id: Option<i32>,
    pub user_id: i32,
    pub name: String,
    pub multiple: bool,
    pub required: bool,
}

/// A tag group with its tags.
#[derive(Debug, Clone, PartialEq)]
pub struct TagGroupWithTags {
    pub tag_group: TagGroup,
    pub tags: Vec<Tag>,
}

/// `r` answers that a tag (or tag group) was not found.
pub open spec fn answers_tag_not_found(r: ErrorResponder) -> bool {
    &&& responder_status(r) == 404
    &&& response_of(r).error_type == ErrorTypeKind::TagNotFound
    &&& response_of(r).message@ == "Tag not found"@
    &&& !response_of(r).rollback
}

/// The position of the first tag with the id `tag_id`.
pub open spec fn first_tag_with_id(tags: Seq<Tag>, tag_id: i32) -> Option<int> {
    if exists|k: int| 0 <= k < tags.len() && #[trigger] tags[k].id == tag_id {
        Some(choose|k: int| 0 <= k < tags.len() && tags[k].id == tag_id
            && forall|j: int| 0 <= j < k ==> #[trigger] tags[j].id != tag_id)
    } else {
        None
    }
}

/// The ids of the default tags of a list, in order.
pub open spec fn default_ids(tags: Seq<Tag>) -> Seq<i32>
    decreases tags.len(),
{
    if tags.len() == 0 {
        Seq::empty()
    } else {
        default_ids(tags.drop_last()) + if tags.last().is_default { seq![tags.last().id] } else { Seq::empty() }
    }
}

/// Takes the element at `k` out of a list.
fn take_at(v: Vec<Tag>, k: usize) -> (r: Tag)
    requires
        k < v@.len(),
    ensures
        r == v@[k as int],
{
    let mut v = v;
    v.remove(k)
}

impl Tag {
    /// List all the tags of the tag group `tag_group_id`, in order, among `tags`.
    pub fn list_tags(tags: Vec<Tag>, tag_group_id: i32) -> (r: Vec<Tag>)
        ensures
            r@ == tags@.filter(|t: Tag| t.tag_group_id == tag_group_id),
    {
        let ghost s = tags@;
        let ghost pred = |t: Tag| t.tag_group_id == tag_group_id;
        let mut rest = tags;
        let mut r: Vec<Tag> = Vec::new();
        assert(s.subrange(0, 0).filter(pred) =~= Seq::<Tag>::empty());
        while rest.len() > 0
            invariant
                rest@.len() <= s.len(),
                rest@ == s.subrange(s.len() - rest@.len(), s.len() as int),
                r@ == s.subrange(0, s.len() - rest@.len()).filter(pred),
                pred == (|t: Tag| t.tag_group_id == tag_group_id),
            decreases rest.len(),
        {
            let ghost c = s.len() - rest@.len();
            let x = rest.remove(0);
            assert(s.subrange(0, c + 1).drop_last() =~= s.subrange(0, c));
            assert(s.subrange(0, c + 1).last() == x);
            proof {
                reveal(Seq::filter);
                let prev = s.subrange(0, c).filter(pred);
                assert(s.subrange(0, c + 1).filter(pred) == if pred(x) { prev.push(x) } else { prev });
            }
            if x.tag_group_id == tag_group_id {
                r.push(x);
            }
            assert(rest@ =~= s.subrange(s.len() - rest@.len(), s.len() as int));
        }
        assert(s.subrange(0, s.len() as int) =~= s);
        r
    }

    /// The first tag of `tags` with the id `tag_id`, if any.
    pub fn from_id_opt(tags: Vec<Tag>, tag_id: i32) -> (r: Option<Tag>)
        ensures
            match first_tag_with_id(tags@, tag_id) {
                Some(k) => r == Some(tags@[k]),
                None => r is None,
            },
    {
        let mut i: usize = 0;
        while i < tags.len()
            invariant
                i <= tags@.len(),
                forall|j: int| 0 <= j < i ==> #[trigger] tags@[j].id != tag_id,
            decreases tags.len() - i,
        {
            if tags[i].id == tag_id {
                proof {
                    let k = first_tag_with_id(tags@, tag_id)->Some_0;
                    assert(tags@[i as int].id == tag_id);
                    if k < i {
                        assert(tags@[k].id != tag_id);
                    }
                    if k > i {
                        assert(tags@[i as int].id != tag_id);
                    }
                    assert(k == i);
                }
                return Some(take_at(tags, i));
            }
            i = i + 1;
        }
        None
    }

    /// The first tag of `tags` with the id `tag_id`; `TagNotFound` when there is none.
    pub fn from_id(tags: Vec<Tag>, tag_id: i32) -> (r: Result<Tag, ErrorResponder>)
        ensures
            match first_tag_with_id(tags@, tag_id) {
                Some(k) => r == Ok::<Tag, ErrorResponder>(tags@[k]),
                None => r matches Err(e) && answers_tag_not_found(e),
            },
    {
        match Tag::from_id_opt(tags, tag_id) {
            Some(t) => Ok(t),
            None => Err(ErrorType::TagNotFound.res()),
        }
    }

    /// The tags of `tags` whose id is one of `tag_ids`, in order.
    pub fn from_ids(tags: Vec<Tag>, tag_ids: &Vec<i32>) -> (r: Vec<Tag>)
        ensures
            r@ == tags@.filter(|t: Tag| tag_ids@.contains(t.id)),
    {
        let ghost s = tags@;
        let ghost pred = |t: Tag| tag_ids@.contains(t.id);
        let mut rest = tags;
        let mut r: Vec<Tag> = Vec::new();
        assert(s.subrange(0, 0).filter(pred) =~= Seq::<Tag>::empty());
        while rest.len() > 0
            invariant
                rest@.len() <= s.len(),
                rest@ == s.subrange(s.len() - rest@.len(), s.len() as int),
                r@ == s.subrange(0, s.len() - rest@.len()).filter(pred),
                pred == (|t: Tag| tag_ids@.contains(t.id)),
            decreases rest.len(),
        {
            let ghost c = s.len() - rest@.len();
            let x = rest.remove(0);
            assert(s.subrange(0, c + 1).drop_last() =~= s.subrange(0, c));
            assert(s.subrange(0, c + 1).last() == x);
            proof {
                reveal(Seq::filter);
                let prev = s.subrange(0, c).filter(pred);
                assert(s.subrange(0, c + 1).filter(pred) == if pred(x) { prev.push(x) } else { prev });
            }
            if crate::grouping::topological_sorts::contains_id(tag_ids, x.id) {
                r.push(x);
            }
            assert(rest@ =~= s.subrange(s.len() - rest@.len(), s.len() as int));
        }
        assert(s.subrange(0, s.len() as int) =~= s);
        r
    }

    /// The ids of the default tags of a list, in order.
    pub fn default_tag_ids(tags: &Vec<Tag>) -> (r: Vec<i32>)
        ensures
            r@ == default_ids(tags@),
    {
        let mut r: Vec<i32> = Vec::new();
        let mut i: usize = 0;
        while i < tags.len()
            invariant
                i <= tags@.len(),
                r@ == default_ids(tags@.subrange(0, i as int)),
            decreases tags.len() - i,
        {
            assert(tags@.subrange(0, i + 1).drop_last() =~= tags@.subrange(0, i as int));
            if tags[i].is_default {
                r.push(tags[i].id);
            }
            i = i + 1;
        }
        assert(tags@.subrange(0, tags@.len() as int) =~= tags@);
        r
    }
}

/// The position of the first tag group with the id `id`.
pub open spec fn first_group_with_id(groups: Seq<TagGroup>, id: i32) -> Option<int> {
    if exists|k: int| 0 <= k < groups.len() && #[trigger] groups[k].id == Some(id) {
        Some(choose|k: int| 0 <= k < groups.len() && groups[k].id == Some(id)
            && forall|j: int| 0 <= j < k ==> #[trigger] groups[j].id != Some(id))
    } else {
        None
    }
}

/// Takes the element at `k` out of a list.
fn take_group_at(v: Vec<TagGroup>, k: usize) -> (r: TagGroup)
    requires
        k < v@.len(),
    ensures
        r == v@[k as int],
{
    let mut v = v;
    v.remove(k)
}

impl TagGroup {
    /// The first tag group of `tag_groups` with the id `id`; `TagNotFound`
    /// when there is none.
    pub fn from_id(tag_groups: Vec<TagGroup>, id: i32) -> (r: Result<TagGroup, ErrorResponder>)
        ensures
            match first_group_with_id(tag_groups@, id) {
                Some(k) => r == Ok::<TagGroup, ErrorResponder>(tag_groups@[k]),
                None => r matches Err(e) && answers_tag_not_found(e),
            },
    {
        let mut i: usize = 0;
        while i < tag_groups.len()
            invariant
                i <= tag_groups@.len(),
                forall|j: int| 0 <= j < i ==> #[trigger] tag_groups@[j].id != Some(id),
            decreases tag_groups.len() - i,
        {
            let matches_id = match tag_groups[i].id {
                Some(x) => x == id,
                None => false,
            };
            if matches_id {
                proof {
                    let k = first_group_with_id(tag_groups@, id)->Some_0;
                    assert(tag_groups@[i as int].id == Some(id));
                    if k < i {
                        assert(tag_groups@[k].id != Some(id));
                    }
                    if k > i {
                        assert(tag_groups@[i as int].id != Some(id));
                    }
                    assert(k == i);
                }
                return Ok(take_group_at(tag_groups, i));
            }
            i = i + 1;
        }
        Err(ErrorType::TagNotFound.res())
    }
}

} // verus!
