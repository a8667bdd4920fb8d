use vstd::prelude::*;
use vstd::string::StringExecFns;
use crate::database::tag::{Tag, TagGroup, TagGroupWithTags, default_ids, answers_tag_not_found};
use crate::utils::errors_catcher::{ErrorResponder, ErrorType, ErrorTypeKind, answers_with, answers};
use crate::grouping::topological_sorts::contains_id;

verus! {

/// All tag groups of a user, with their tags.
#[derive(Debug, Clone, PartialEq)]
pub struct AllTagsResponse {
    pub tag_groups: Vec<TagGroupWithTags>,
}

/// Request to edit a tag group and its tags.
#[derive(Debug, Clone, PartialEq)]
pub struct PatchTagGroupRequest {
    pub edited_tag_group: TagGroup,
    pub new_tags: Vec<Tag>,
    pub edited_tags: Vec<Tag>,
    pub deleted_tags_ids: Vec<i32>,
}

/// A request naming one item.
#[derive(Debug, Clone, Copy, PartialEq, Eq, Structural)]
pub struct IDOnly {
    pub id: i32,
}

/// Request to add and remove tags of pictures.
#[derive(Debug, Clone, PartialEq)]
pub struct EditPictureTagsRequest {
    pub picture_ids: Vec<i64>,
    pub add_tag_ids: Vec<i32>,
    pub remove_tag_ids: Vec<i32>,
}

/// What editing the tags of pictures does beyond adding and removing the
/// tags, tag group by tag group.
#[derive(Debug, Clone, PartialEq)]
pub struct PictureTagsEdit {
    /// Tag groups that are not multiple and gain a tag: their tags are
    /// first taken off the pictures.
    pub cleared_tag_groups: Vec<i32>,
    /// Required tag groups that lose a tag: the pictures left without a tag
    /// of such a group get its default tag.
    pub required_tag_groups: Vec<i32>,
}

/// The id of a stored tag group.
pub open spec fn group_id_of(g: TagGroup) -> i32 {
    g.id->Some_0
}

/// The number of tags of the group `gid` in a list.
pub open spec fn in_group_count(tags: Seq<Tag>, gid: i32) -> nat
    decreases tags.len(),
{
    if tags.len() == 0 {
        0
    } else {
        in_group_count(tags.drop_last(), gid) + if tags.last().tag_group_id == gid { 1nat } else { 0nat }
    }
}

/// The number of tags in each group, summed over the groups.
pub open spec fn counted_in_groups(tags: Seq<Tag>, groups: Seq<TagGroup>) -> nat
    decreases groups.len(),
{
    if groups.len() == 0 {
        0
    } else {
        counted_in_groups(tags, groups.drop_last()) + in_group_count(tags, group_id_of(groups.last()))
    }
}

/// Some group that is not multiple would receive several of the tags.
pub open spec fn has_overfull_group(tags: Seq<Tag>, groups: Seq<TagGroup>) -> bool {
    exists|k: int| 0 <= k < groups.len() && !groups[k].multiple && #[trigger] in_group_count(tags, group_id_of(groups[k])) > 1
}

/// The ids, in order, of the groups that are not multiple and receive one of the tags.
pub open spec fn cleared_groups(tags: Seq<Tag>, groups: Seq<TagGroup>) -> Seq<i32>
    decreases groups.len(),
{
    if groups.len() == 0 {
        Seq::empty()
    } else {
        let g = groups.last();
        cleared_groups(tags, groups.drop_last()) + if !g.multiple && in_group_count(tags, group_id_of(g)) > 0 {
            seq![group_id_of(g)]
        } else {
            Seq::empty()
        }
    }
}

/// The ids, in order, of the required groups that lose one of the tags.
pub open spec fn required_groups(tags: Seq<Tag>, groups: Seq<TagGroup>) -> Seq<i32>
    decreases groups.len(),
{
    if groups.len() == 0 {
        Seq::empty()
    } else {
        let g = groups.last();
        required_groups(tags, groups.drop_last()) + if g.required && in_group_count(tags, group_id_of(g)) > 0 {
            seq![group_id_of(g)]
        } else {
            Seq::empty()
        }
    }
}

proof fn lemma_in_group_count(tags: Seq<Tag>, gid: i32)
    ensures
        in_group_count(tags, gid) > 0 <==> exists|j: int| 0 <= j < tags.len() && (#[trigger] tags[j]).tag_group_id == gid,
    decreases tags.len(),
{
    if tags.len() > 0 {
        let t = tags.drop_last();
        lemma_in_group_count(t, gid);
        if in_group_count(t, gid) > 0 {
            let j = choose|j: int| 0 <= j < t.len() && (#[trigger] t[j]).tag_group_id == gid;
            assert(tags[j] == t[j]);
        }
        if exists|j: int| 0 <= j < tags.len() && (#[trigger] tags[j]).tag_group_id == gid {
            let j = choose|j: int| 0 <= j < tags.len() && (#[trigger] tags[j]).tag_group_id == gid;
            if j < tags.len() - 1 {
                assert(t[j] == tags[j]);
            }
        }
    }
}

/// Which tag groups an edit of picture tags touches: a group has its old
/// tags taken off the pictures exactly when it is not multiple and the
/// edit adds one of its tags, and it must keep a tag exactly when it is
/// required and the edit removes one of its tags. So a multiple group is
/// never cleared.
pub proof fn law_touched_tag_groups(add_tags: Seq<Tag>, remove_tags: Seq<Tag>, groups: Seq<TagGroup>, id: i32)
    requires
        forall|k: int| 0 <= k < groups.len() ==> (#[trigger] groups[k]).id is Some,
    ensures
        cleared_groups(add_tags, groups).contains(id) <==> (exists|k: int| 0 <= k < groups.len() && (#[trigger] groups[k]).id == Some(id)
            && !groups[k].multiple) && (exists|j: int| 0 <= j < add_tags.len() && (#[trigger] add_tags[j]).tag_group_id == id),
        required_groups(remove_tags, groups).contains(id) <==> (exists|k: int| 0 <= k < groups.len() && (#[trigger] groups[k]).id == Some(id)
            && groups[k].required) && (exists|j: int| 0 <= j < remove_tags.len() && (#[trigger] remove_tags[j]).tag_group_id == id),
    decreases groups.len(),
{
    lemma_in_group_count(add_tags, id);
    lemma_in_group_count(remove_tags, id);
    if groups.len() > 0 {
        let h = groups.drop_last();
        let g = groups.last();
        law_touched_tag_groups(add_tags, remove_tags, h, id);
        assert forall|k: int| 0 <= k < h.len() implies #[trigger] h[k] == groups[k] by {}
        let c0 = cleared_groups(add_tags, h);
        let r0 = required_groups(remove_tags, h);
        let last_c: Seq<i32> = if !g.multiple && in_group_count(add_tags, group_id_of(g)) > 0 { seq![group_id_of(g)] } else { Seq::empty() };
        let last_r: Seq<i32> = if g.required && in_group_count(remove_tags, group_id_of(g)) > 0 { seq![group_id_of(g)] } else { Seq::empty() };
        assert((c0 + last_c).contains(id) <==> c0.contains(id) || last_c.contains(id)) by {
            if (c0 + last_c).contains(id) {
                let i = choose|i: int| 0 <= i < (c0 + last_c).len() && (c0 + last_c)[i] == id;
                if i < c0.len() { assert(c0[i] == id); } else { assert(last_c[i - c0.len()] == id); }
            }
            if c0.contains(id) {
                let i = choose|i: int| 0 <= i < c0.len() && c0[i] == id;
                assert((c0 + last_c)[i] == id);
            }
            if last_c.contains(id) {
                assert((c0 + last_c)[c0.len() as int] == id);
            }
        }
        assert((r0 + last_r).contains(id) <==> r0.contains(id) || last_r.contains(id)) by {
            if (r0 + last_r).contains(id) {
                let i = choose|i: int| 0 <= i < (r0 + last_r).len() && (r0 + last_r)[i] == id;
                if i < r0.len() { assert(r0[i] == id); } else { assert(last_r[i - r0.len()] == id); }
            }
            if r0.contains(id) {
                let i = choose|i: int| 0 <= i < r0.len() && r0[i] == id;
                assert((r0 + last_r)[i] == id);
            }
            if last_r.contains(id) {
                assert((r0 + last_r)[r0.len() as int] == id);
            }
        }
        lemma_in_group_count(add_tags, group_id_of(g));
        lemma_in_group_count(remove_tags, group_id_of(g));
        let n = groups.len() - 1;
        assert(groups[n] == g);
        assert(g.id is Some);
        assert(cleared_groups(add_tags, groups) == c0 + last_c);
        assert(required_groups(remove_tags, groups) == r0 + last_r);
        assert(last_c.contains(id) <==> (g.id == Some(id) && !g.multiple && in_group_count(add_tags, id) > 0)) by {
            if last_c.contains(id) {
                assert(last_c[0] == id);
            }
            if g.id == Some(id) && !g.multiple && in_group_count(add_tags, id) > 0 {
                assert(last_c[0] == id);
            }
        }
        assert(last_r.contains(id) <==> (g.id == Some(id) && g.required && in_group_count(remove_tags, id) > 0)) by {
            if last_r.contains(id) {
                assert(last_r[0] == id);
            }
            if g.id == Some(id) && g.required && in_group_count(remove_tags, id) > 0 {
                assert(last_r[0] == id);
            }
        }
        if exists|k: int| 0 <= k < groups.len() && (#[trigger] groups[k]).id == Some(id) && !groups[k].multiple {
            let k = choose|k: int| 0 <= k < groups.len() && (#[trigger] groups[k]).id == Some(id) && !groups[k].multiple;
            if k < n {
                assert(h[k] == groups[k]);
            }
        }
        if exists|k: int| 0 <= k < h.len() && (#[trigger] h[k]).id == Some(id) && !h[k].multiple {
            let k = choose|k: int| 0 <= k < h.len() && (#[trigger] h[k]).id == Some(id) && !h[k].multiple;
            assert(groups[k] == h[k]);
        }
        if exists|k: int| 0 <= k < groups.len() && (#[trigger] groups[k]).id == Some(id) && groups[k].required {
            let k = choose|k: int| 0 <= k < groups.len() && (#[trigger] groups[k]).id == Some(id) && groups[k].required;
            if k < n {
                assert(h[k] == groups[k]);
            }
        }
        if exists|k: int| 0 <= k < h.len() && (#[trigger] h[k]).id == Some(id) && h[k].required {
            let k = choose|k: int| 0 <= k < h.len() && (#[trigger] h[k]).id == Some(id) && h[k].required;
            assert(groups[k] == h[k]);
        }
    }
}

fn count_in_group(tags: &Vec<Tag>, gid: i32) -> (r: usize)
    ensures
        r == in_group_count(tags@, gid),
{
    let mut n: usize = 0;
    let mut i: usize = 0;
    while i < tags.len()
        invariant
            i <= tags@.len(),
            n == in_group_count(tags@.subrange(0, i as int), gid),
            n <= i,
        decreases tags.len() - i,
    {
        assert(tags@.subrange(0, i + 1).drop_last() =~= tags@.subrange(0, i as int));
        if tags[i].tag_group_id == gid {
            n = n + 1;
        }
        i = i + 1;
    }
    assert(tags@.subrange(0, tags@.len() as int) =~= tags@);
    n
}

proof fn lemma_counted_mono(tags: Seq<Tag>, groups: Seq<TagGroup>, k: int)
    requires
        0 <= k <= groups.len(),
    ensures
        counted_in_groups(tags, groups.subrange(0, k)) <= counted_in_groups(tags, groups),
    decreases groups.len(),
{
    if k < groups.len() {
        assert(groups.drop_last().subrange(0, k) =~= groups.subrange(0, k));
        lemma_counted_mono(tags, groups.drop_last(), k);
    } else {
        assert(groups.subrange(0, k) =~= groups);
    }
}

/// Whether all the tags belong to the groups, counting each group's tags.
fn all_counted(tags: &Vec<Tag>, groups: &Vec<TagGroup>) -> (r: bool)
    requires
        forall|k: int| 0 <= k < groups@.len() ==> (#[trigger] groups@[k]).id is Some,
    ensures
        r == (counted_in_groups(tags@, groups@) == tags@.len()),
{
    let mut n: usize = 0;
    let mut i: usize = 0;
    while i < groups.len()
        invariant
            i <= groups@.len(),
            forall|k: int| 0 <= k < groups@.len() ==> (#[trigger] groups@[k]).id is Some,
            n == counted_in_groups(tags@, groups@.subrange(0, i as int)),
            n <= tags@.len(),
        decreases groups.len() - i,
    {
        assert(groups@.subrange(0, i + 1).drop_last() =~= groups@.subrange(0, i as int));
        let gid = match groups[i].id {
            Some(x) => x,
            None => 0,
        };
        let c = count_in_group(tags, gid);
        if c > tags.len() - n {
            proof {
                lemma_counted_mono(tags@, groups@, i + 1);
            }
            return false;
        }
        n = n + c;
        i = i + 1;
    }
    assert(groups@.subrange(0, groups@.len() as int) =~= groups@);
    n == tags.len()
}

/// Whether some group that is not multiple gets several of the tags.
fn any_overfull(tags: &Vec<Tag>, groups: &Vec<TagGroup>) -> (r: bool)
    requires
        forall|k: int| 0 <= k < groups@.len() ==> (#[trigger] groups@[k]).id is Some,
    ensures
        r == has_overfull_group(tags@, groups@),
{
    let mut i: usize = 0;
    while i < groups.len()
        invariant
            i <= groups@.len(),
            forall|k: int| 0 <= k < groups@.len() ==> (#[trigger] groups@[k]).id is Some,
            forall|k: int| 0 <= k < i ==> !(!groups@[k].multiple && #[trigger] in_group_count(tags@, group_id_of(groups@[k])) > 1),
        decreases groups.len() - i,
    {
        let gid = match groups[i].id {
            Some(x) => x,
            None => 0,
        };
        if !groups[i].multiple && count_in_group(tags, gid) > 1 {
            assert(in_group_count(tags@, group_id_of(groups@[i as int])) > 1);
            return true;
        }
        i = i + 1;
    }
    false
}

/// The ids of the groups that get one of the tags and that are not
/// multiple (when `required` is false), or that are required (when it is).
fn touched_groups(tags: &Vec<Tag>, groups: &Vec<TagGroup>, required: bool) -> (r: Vec<i32>)
    requires
        forall|k: int| 0 <= k < groups@.len() ==> (#[trigger] groups@[k]).id is Some,
    ensures
        !required ==> r@ == cleared_groups(tags@, groups@),
        required ==> r@ == required_groups(tags@, groups@),
{
    let mut r: Vec<i32> = Vec::new();
    let mut i: usize = 0;
    while i < groups.len()
        invariant
            i <= groups@.len(),
            forall|k: int| 0 <= k < groups@.len() ==> (#[trigger] groups@[k]).id is Some,
            !required ==> r@ == cleared_groups(tags@, groups@.subrange(0, i as int)),
            required ==> r@ == required_groups(tags@, groups@.subrange(0, i as int)),
        decreases groups.len() - i,
    {
        assert(groups@.subrange(0, i + 1).drop_last() =~= groups@.subrange(0, i as int));
        let gid = match groups[i].id {
            Some(x) => x,
            None => 0,
        };
        let picked = if required { groups[i].required } else { !groups[i].multiple };
        if picked && count_in_group(tags, gid) > 0 {
            r.push(gid);
        }
        i = i + 1;
    }
    assert(groups@.subrange(0, groups@.len() as int) =~= groups@);
    r
}

/// Checks a request to edit the tags of pictures, given the tags it adds
/// and removes as read by their ids, and the tag groups of the user.
/// Refused when no picture is named, when a tag id is unknown or the tag
/// is not in a group of the user, or when several tags would be added to a
/// group that is not multiple.
pub fn plan_picture_tags_edit(
    request: &EditPictureTagsRequest,
    add_tags: &Vec<Tag>,
    remove_tags: &Vec<Tag>,
    user_tag_groups: &Vec<TagGroup>,
) -> (r: Result<PictureTagsEdit, ErrorResponder>)
    requires
        forall|k: int| 0 <= k < user_tag_groups@.len() ==> (#[trigger] user_tag_groups@[k]).id is Some,
    ensures
        ({
            let groups = user_tag_groups@;
            let no_pictures = request.picture_ids@.len() == 0;
            let unknown_tag = add_tags@.len() != request.add_tag_ids@.len() || remove_tags@.len() != request.remove_tag_ids@.len();
            let overfull = has_overfull_group(add_tags@, groups);
            let foreign_tag = counted_in_groups(add_tags@, groups) != add_tags@.len()
                || counted_in_groups(remove_tags@, groups) != remove_tags@.len();
            &&& no_pictures ==> (r matches Err(e) && answers_with(e, 422, ErrorTypeKind::UnprocessableEntity,
                "No picture ids on which to edit tags"@))
            &&& !no_pictures && unknown_tag ==> (r matches Err(e) && answers_tag_not_found(e))
            &&& !no_pictures && !unknown_tag && overfull ==> (r matches Err(e) && answers_with(e, 422,
                ErrorTypeKind::InvalidInput, "Cannot add multiple tags to a non-multiple tag group"@))
            &&& !no_pictures && !unknown_tag && !overfull && foreign_tag ==> (r matches Err(e) && answers_tag_not_found(e))
            &&& !no_pictures && !unknown_tag && !overfull && !foreign_tag ==> (r matches Ok(plan)
                && plan.cleared_tag_groups@ == cleared_groups(add_tags@, groups)
                && plan.required_tag_groups@ == required_groups(remove_tags@, groups))
        }),
{
    if request.picture_ids.len() == 0 {
        return Err(ErrorType::UnprocessableEntity(String::from_str("No picture ids on which to edit tags")).res());
    }
    if add_tags.len() != request.add_tag_ids.len() || remove_tags.len() != request.remove_tag_ids.len() {
        return Err(ErrorType::TagNotFound.res());
    }
    if any_overfull(add_tags, user_tag_groups) {
        return Err(ErrorType::InvalidInput(String::from_str("Cannot add multiple tags to a non-multiple tag group")).res());
    }
    if !all_counted(add_tags, user_tag_groups) || !all_counted(remove_tags, user_tag_groups) {
        return Err(ErrorType::TagNotFound.res());
    }
    Ok(PictureTagsEdit {
        cleared_tag_groups: touched_groups(add_tags, user_tag_groups, false),
        required_tag_groups: touched_groups(remove_tags, user_tag_groups, true),
    })
}

/// The id of the first default tag of a required tag group's tags; an
/// internal error when it has none.
pub fn first_default_tag(tags: &Vec<Tag>) -> (r: Result<i32, ErrorResponder>)
    ensures
        default_ids(tags@).len() > 0 ==> r == Ok::<i32, ErrorResponder>(default_ids(tags@)[0]),
        default_ids(tags@).len() == 0 ==> (r matches Err(e) && answers_with(e, 500, ErrorTypeKind::InternalError,
            "Internal error: "@ + "There is a required tag group without any default tag"@)),
{
    let ids = Tag::default_tag_ids(tags);
    if ids.len() > 0 {
        Ok(ids[0])
    } else {
        Err(ErrorType::InternalError(String::from_str("There is a required tag group without any default tag")).res())
    }
}

/// Checks the default tags of a tag group: a required group needs at
/// least one, a group that is not multiple at most one. Returns their ids.
pub fn check_default_tags(required: bool, multiple: bool, tags: &Vec<Tag>) -> (r: Result<Vec<i32>, ErrorResponder>)
    ensures
        required && default_ids(tags@).len() == 0 ==> (r matches Err(e) && answers_with(e, 422, ErrorTypeKind::UnprocessableEntity,
            "Required tag group must have at least one default tag"@)),
        !(required && default_ids(tags@).len() == 0) && !multiple && default_ids(tags@).len() > 1 ==> (r matches Err(e)
            && answers_with(e, 422, ErrorTypeKind::UnprocessableEntity, "Multiple tag group can't have more than one default tag"@)),
        !(required && default_ids(tags@).len() == 0) && !(!multiple && default_ids(tags@).len() > 1) ==> (r matches Ok(ids)
            && ids@ == default_ids(tags@)),
{
    let ids = Tag::default_tag_ids(tags);
    if required && ids.len() == 0 {
        return Err(ErrorType::UnprocessableEntity(String::from_str("Required tag group must have at least one default tag")).res());
    }
    if !multiple && ids.len() > 1 {
        return Err(ErrorType::UnprocessableEntity(String::from_str("Multiple tag group can't have more than one default tag")).res());
    }
    Ok(ids)
}

/// The steps of editing a tag group and its tags, in order: the tags to
/// delete, the tags to edit, the tags to create. A step on a tag that is
/// not in the group ends the edit there: the steps before it are done,
/// then the edit answers `failure`.
#[derive(Debug, Clone, PartialEq)]
pub struct TagGroupPatchPlan {
    pub deleted_tags_ids: Vec<i32>,
    pub edited_tags: Vec<Tag>,
    /// New tags, placed in the edited group.
    pub new_tags: Vec<Tag>,
    /// Tags of the group that are neither edited nor deleted, in order.
    pub unedited_tags: Vec<Tag>,
    pub failure: Option<ErrorResponder>,
}

/// The ids of a list of tags.
pub open spec fn ids_of(tags: Seq<Tag>) -> Seq<i32> {
    tags.map_values(|t: Tag| t.id)
}

/// `n` is the length of the longest prefix of `ids` made of known ids.
pub open spec fn known_prefix(ids: Seq<i32>, known: Seq<i32>, n: int) -> bool {
    &&& 0 <= n <= ids.len()
    &&& forall|j: int| 0 <= j < n ==> known.contains(#[trigger] ids[j])
    &&& n < ids.len() ==> !known.contains(ids[n])
}

/// The tags of a group left as they are by an edit.
pub open spec fn unedited(old_tags: Seq<Tag>, edited: Seq<Tag>, deleted: Seq<i32>) -> Seq<Tag> {
    old_tags.filter(|t: Tag| !ids_of(edited).contains(t.id) && !deleted.contains(t.id))
}

/// The length of the longest prefix of `ids` made of ids of `known`.
fn known_prefix_len(ids: &Vec<i32>, known: &Vec<i32>) -> (n: usize)
    ensures
        known_prefix(ids@, known@, n as int),
{
    let mut i: usize = 0;
    while i < ids.len()
        invariant
            i <= ids@.len(),
            forall|j: int| 0 <= j < i ==> known@.contains(#[trigger] ids@[j]),
        decreases ids.len() - i,
    {
        if !contains_id(known, ids[i]) {
            return i;
        }
        i = i + 1;
    }
    i
}

fn tag_ids_of(tags: &Vec<Tag>) -> (r: Vec<i32>)
    ensures
        r@ == ids_of(tags@),
{
    let mut r: Vec<i32> = Vec::new();
    let mut i: usize = 0;
    while i < tags.len()
        invariant
            i <= tags@.len(),
            r@ == ids_of(tags@.subrange(0, i as int)),
        decreases tags.len() - i,
    {
        r.push(tags[i].id);
        assert(ids_of(tags@.subrange(0, i + 1)) =~= ids_of(tags@.subrange(0, i as int)).push(tags@[i as int].id));
        i = i + 1;
    }
    assert(tags@.subrange(0, tags@.len() as int) =~= tags@);
    r
}

/// Plans the edit of a tag group by the user `user_id`, from the group and
/// its tags as stored: refused with `Unauthorized` when the group is not
/// the user's.
pub fn plan_tag_group_patch(user_id: i32, old_tag_group: &TagGroup, old_tags: Vec<Tag>, request: PatchTagGroupRequest) -> (r: Result<TagGroupPatchPlan, ErrorResponder>)
    requires
        request.edited_tag_group.id is Some,
    ensures
        old_tag_group.user_id != user_id ==> (r matches Err(e) && answers(e, ErrorType::Unauthorized, false)),
        old_tag_group.user_id == user_id ==> (r matches Ok(plan) && {
            let known = ids_of(old_tags@);
            let del = request.deleted_tags_ids@;
            let edit = request.edited_tags@;
            let all_deleted = plan.deleted_tags_ids@.len() == del.len();
            let all_edited = plan.edited_tags@.len() == edit.len();
            &&& known_prefix(del, known, plan.deleted_tags_ids@.len() as int)
            &&& plan.deleted_tags_ids@ == del.subrange(0, plan.deleted_tags_ids@.len() as int)
            &&& !all_deleted ==> (plan.edited_tags@.len() == 0 && plan.new_tags@.len() == 0
                && plan.failure is Some && answers_tag_not_found(plan.failure->Some_0))
            &&& all_deleted ==> known_prefix(ids_of(edit), known, plan.edited_tags@.len() as int)
                && plan.edited_tags@ == edit.subrange(0, plan.edited_tags@.len() as int)
            &&& all_deleted && !all_edited ==> (plan.new_tags@.len() == 0
                && plan.failure is Some && answers_tag_not_found(plan.failure->Some_0))
            &&& all_deleted && all_edited ==> plan.failure is None
                && plan.new_tags@.len() == request.new_tags@.len()
                && forall|k: int| 0 <= k < plan.new_tags@.len() ==> #[trigger] plan.new_tags@[k] == (Tag {
                    tag_group_id: request.edited_tag_group.id->Some_0,
                    ..request.new_tags@[k]
                })
            &&& plan.unedited_tags@ == unedited(old_tags@, edit, del)
        }),
{
    if old_tag_group.user_id != user_id {
        return Err(ErrorType::Unauthorized.res());
    }
    let known = tag_ids_of(&old_tags);
    let edited_ids = tag_ids_of(&request.edited_tags);
    let ghost s = old_tags@;
    let ghost pred = |t: Tag| !ids_of(request.edited_tags@).contains(t.id) && !request.deleted_tags_ids@.contains(t.id);
    let mut unedited_tags: Vec<Tag> = Vec::new();
    let mut rest = old_tags;
    assert(s.subrange(0, 0).filter(pred) =~= Seq::<Tag>::empty());
    while rest.len() > 0
        invariant
            rest@.len() <= s.len(),
            rest@ == s.subrange(s.len() - rest@.len(), s.len() as int),
            unedited_tags@ == s.subrange(0, s.len() - rest@.len()).filter(pred),
            edited_ids@ == ids_of(request.edited_tags@),
            pred == (|t: Tag| !ids_of(request.edited_tags@).contains(t.id) && !request.deleted_tags_ids@.contains(t.id)),
        decreases rest.len(),
    {
        let ghost c = s.len() - rest@.len();
        let x = rest.remove(0);
        assert(s.subrange(0, c + 1).drop_last() =~= s.subrange(0, c));
        assert(s.subrange(0, c + 1).last() == x);
        proof {
            reveal(Seq::filter);
            let prev = s.subrange(0, c).filter(pred);
            assert(s.subrange(0, c + 1).filter(pred) == if pred(x) { prev.push(x) } else { prev });
        }
        if !contains_id(&edited_ids, x.id) && !contains_id(&request.deleted_tags_ids, x.id) {
            unedited_tags.push(x);
        }
        assert(rest@ =~= s.subrange(s.len() - rest@.len(), s.len() as int));
    }
    assert(s.subrange(0, s.len() as int) =~= s);
    let group_id = match request.edited_tag_group.id {
        Some(id) => id,
        None => 0,
    };
    let PatchTagGroupRequest { edited_tag_group, new_tags, edited_tags, deleted_tags_ids } = request;
    let n_deleted = known_prefix_len(&deleted_tags_ids, &known);
    let mut deleted = deleted_tags_ids;
    let ghost del = deleted@;
    let del_total = deleted.len();
    deleted.truncate(n_deleted);
    assert(deleted@ =~= del.subrange(0, n_deleted as int));
    if n_deleted < del_total {
        return Ok(TagGroupPatchPlan {
            deleted_tags_ids: deleted,
            edited_tags: Vec::new(),
            new_tags: Vec::new(),
            unedited_tags,
            failure: Some(ErrorType::TagNotFound.res()),
        });
    }
    let n_edited = known_prefix_len(&edited_ids, &known);
    let mut edited = edited_tags;
    let ghost edit = edited@;
    let edit_total = edited.len();
    edited.truncate(n_edited);
    assert(edited@ =~= edit.subrange(0, n_edited as int));
    if n_edited < edit_total {
        return Ok(TagGroupPatchPlan {
            deleted_tags_ids: deleted,
            edited_tags: edited,
            new_tags: Vec::new(),
            unedited_tags,
            failure: Some(ErrorType::TagNotFound.res()),
        });
    }
    let ghost nt = new_tags@;
    let mut placed: Vec<Tag> = Vec::new();
    let mut rest_new = new_tags;
    while rest_new.len() > 0
        invariant
            rest_new@.len() <= nt.len(),
            rest_new@ == nt.subrange(nt.len() - rest_new@.len(), nt.len() as int),
            placed@.len() == nt.len() - rest_new@.len(),
            forall|k: int| 0 <= k < placed@.len() ==> #[trigger] placed@[k] == (Tag { tag_group_id: group_id, ..nt[k] }),
        decreases rest_new.len(),
    {
        let ghost c = nt.len() - rest_new@.len();
        let mut tag = rest_new.remove(0);
        assert(tag == nt[c]);
        tag.tag_group_id = group_id;
        placed.push(tag);
        assert(rest_new@ =~= nt.subrange(nt.len() - rest_new@.len(), nt.len() as int));
    }
    Ok(TagGroupPatchPlan { deleted_tags_ids: deleted, edited_tags: edited, new_tags: placed, unedited_tags, failure: None })
}

} // verus!
