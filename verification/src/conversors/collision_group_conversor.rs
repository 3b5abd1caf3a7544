//! Conversion between the collision groups that callers name and the engine's
//! group masks.

use crate::objects::COLLISION_GROUP_BOUND;
use crate::objects::CollisionGroup;
use ncollide3d::pipeline::object::CollisionGroups;
use vstd::prelude::*;

verus! {

/// The engine's collision filter of one object. Verus sees nothing inside
/// it; the three sets of group ids that it holds are named by
/// [`groups_membership`], [`groups_whitelist`] and [`groups_blacklist`].
#[verifier::external_type_specification]
#[verifier::external_body]
pub struct ExCollisionGroups(CollisionGroups);

/// The ids of the groups that the object is a member of.
pub uninterp spec fn groups_membership(groups: CollisionGroups) -> Set<usize>;

/// The ids of the groups that the object may interact with.
pub uninterp spec fn groups_whitelist(groups: CollisionGroups) -> Set<usize>;

/// The ids of the groups that the object must not interact with.
pub uninterp spec fn groups_blacklist(groups: CollisionGroups) -> Set<usize>;

/// The number of groups that the engine knows: ids run from zero up to, and
/// not including, this bound.
pub open spec fn engine_group_bound() -> usize {
    30
}

/// The ids of all groups that the engine knows.
pub open spec fn all_engine_groups() -> Set<usize> {
    Set::new(|g: usize| g < engine_group_bound())
}

/// Whether every id in `ids` is one that the engine knows.
pub open spec fn engine_ids(ids: Seq<usize>) -> bool {
    forall|i: int| 0 <= i < ids.len() ==> ids[i] < engine_group_bound()
}

/// `CollisionGroups::new`: member of every group, every group whitelisted,
/// none blacklisted.
pub assume_specification[ CollisionGroups::new ]() -> (groups: CollisionGroups)
    ensures
        groups_membership(groups) == all_engine_groups(),
        groups_whitelist(groups) == all_engine_groups(),
        groups_blacklist(groups) == Set::<usize>::empty(),
;

/// `CollisionGroups::max_group_id`: the constant 29.
pub assume_specification[ CollisionGroups::max_group_id ]() -> (id: usize)
    ensures
        id == 29,
;

/// `CollisionGroups::set_membership`: the object becomes a member of the
/// given groups only. The engine panics on an id it does not know.
pub assume_specification[ CollisionGroups::set_membership ](
    groups: &mut CollisionGroups,
    ids: &[usize],
)
    requires
        engine_ids(ids@),
    ensures
        groups_membership(*final(groups)) == ids@.to_set(),
        groups_whitelist(*final(groups)) == groups_whitelist(*old(groups)),
        groups_blacklist(*final(groups)) == groups_blacklist(*old(groups)),
;

/// `CollisionGroups::set_whitelist`: the given groups become the whitelist.
/// The engine panics on an id it does not know.
pub assume_specification[ CollisionGroups::set_whitelist ](
    groups: &mut CollisionGroups,
    ids: &[usize],
)
    requires
        engine_ids(ids@),
    ensures
        groups_whitelist(*final(groups)) == ids@.to_set(),
        groups_membership(*final(groups)) == groups_membership(*old(groups)),
        groups_blacklist(*final(groups)) == groups_blacklist(*old(groups)),
;

/// `CollisionGroups::set_blacklist`: the given groups become the blacklist.
/// The engine panics on an id it does not know.
pub assume_specification[ CollisionGroups::set_blacklist ](
    groups: &mut CollisionGroups,
    ids: &[usize],
)
    requires
        engine_ids(ids@),
    ensures
        groups_blacklist(*final(groups)) == ids@.to_set(),
        groups_membership(*final(groups)) == groups_membership(*old(groups)),
        groups_whitelist(*final(groups)) == groups_whitelist(*old(groups)),
;

/// `CollisionGroups::is_member_of`: whether the object is a member of the
/// group. The engine panics on an id it does not know.
pub assume_specification[ CollisionGroups::is_member_of ](
    groups: &CollisionGroups,
    group_id: usize,
) -> (member: bool)
    requires
        group_id < engine_group_bound(),
    ensures
        member == groups_membership(*groups).contains(group_id),
;

/// `CollisionGroups::is_group_whitelisted`: whether the group is on the
/// whitelist. The engine panics on an id it does not know.
pub assume_specification[ CollisionGroups::is_group_whitelisted ](
    groups: &CollisionGroups,
    group_id: usize,
) -> (listed: bool)
    requires
        group_id < engine_group_bound(),
    ensures
        listed == groups_whitelist(*groups).contains(group_id),
;

/// The ids of the groups in `groups`, as a set.
pub open spec fn group_ids(groups: Seq<CollisionGroup>) -> Set<usize> {
    Set::new(|g: usize| exists|i: int| 0 <= i < groups.len() && groups[i].id() == g)
}

/// The ids of `groups`, one for one.
fn ids_of(groups: &[CollisionGroup]) -> (ids: Vec<usize>)
    ensures
        ids.len() == groups.len(),
        forall|i: int| 0 <= i < ids.len() ==> ids[i] == groups[i].id(),
        engine_ids(ids@),
        ids@.to_set() == group_ids(groups@),
{
    let mut ids: Vec<usize> = Vec::new();
    let mut i: usize = 0;
    while i < groups.len()
        invariant
            i <= groups.len(),
            ids.len() == i,
            forall|j: int| 0 <= j < i ==> ids[j] == groups[j].id() && ids[j] < 30,
        decreases groups.len() - i,
    {
        let id: u8 = groups[i].get();
        ids.push(id as usize);
        i += 1;
    }
    proof {
        assert forall|g: usize| ids@.to_set().contains(g) <==> group_ids(groups@).contains(g) by {
            if ids@.to_set().contains(g) {
                let w = choose|w: int| 0 <= w < ids@.len() && ids@[w] == g;
                assert(groups[w].id() == g);
            }
            if group_ids(groups@).contains(g) {
                let w = choose|w: int| 0 <= w < groups.len() && groups[w].id() == g;
                assert(ids@[w] == g);
            }
        }
        assert(ids@.to_set() =~= group_ids(groups@));
    }
    ids
}

/// Whether `id` occurs in `ids`.
fn holds_id(ids: &Vec<usize>, id: usize) -> (found: bool)
    ensures
        found == ids@.contains(id),
{
    let mut i: usize = 0;
    while i < ids.len()
        invariant
            i <= ids.len(),
            forall|j: int| 0 <= j < i ==> ids[j] != id,
        decreases ids.len() - i,
    {
        if ids[i] == id {
            return true;
        }
        i += 1;
    }
    false
}

/// Builds the engine's filter of an object that belongs to the groups
/// `belong_to` and collides with the groups `collide_with`: it is a member of
/// the first, whitelists the second, and blacklists every group that it
/// belongs to but does not collide with.
pub fn to_nphysics(belong_to: &[CollisionGroup], collide_with: &[CollisionGroup]) -> (groups:
    CollisionGroups)
    ensures
        groups_membership(groups) == group_ids(belong_to@),
        groups_whitelist(groups) == group_ids(collide_with@),
        groups_blacklist(groups) == group_ids(belong_to@).difference(group_ids(collide_with@)),
{
    let membership = ids_of(belong_to);
    let white_list = ids_of(collide_with);
    let mut black_list: Vec<usize> = Vec::new();
    let mut i: usize = 0;
    while i < membership.len()
        invariant
            i <= membership.len(),
            engine_ids(membership@),
            engine_ids(black_list@),
            forall|g: usize|
                black_list@.contains(g) <==> (exists|j: int|
                    0 <= j < i && membership[j] == g) && !white_list@.contains(g),
        decreases membership.len() - i,
    {
        let e: usize = membership[i];
        if !holds_id(&white_list, e) {
            let ghost before = black_list@;
            black_list.push(e);
            proof {
                assert(black_list@ == before.push(e));
                assert forall|g: usize|
                    black_list@.contains(g) <==> (exists|j: int|
                        0 <= j < i + 1 && membership[j] == g) && !white_list@.contains(g) by {
                    if black_list@.contains(g) {
                        let w = choose|w: int| 0 <= w < black_list@.len() && black_list@[w] == g;
                        if w < before.len() {
                            assert(before[w] == g);
                            assert(before.contains(g));
                        } else {
                            assert(membership[i as int] == g);
                        }
                    }
                    if (exists|j: int| 0 <= j < i + 1 && membership[j] == g)
                        && !white_list@.contains(g) {
                        let j = choose|j: int| 0 <= j < i + 1 && membership[j] == g;
                        if j < i {
                            assert(before.contains(g));
                            let w = choose|w: int| 0 <= w < before.len() && before[w] == g;
                            assert(black_list@[w] == g);
                        } else {
                            assert(black_list@[before.len() as int] == g);
                        }
                    }
                }
            }
        }
        i += 1;
    }
    let mut collision_groups = CollisionGroups::new();
    collision_groups.set_membership(membership.as_slice());
    collision_groups.set_whitelist(white_list.as_slice());
    collision_groups.set_blacklist(black_list.as_slice());
    proof {
        let wanted = group_ids(belong_to@).difference(group_ids(collide_with@));
        assert forall|g: usize| black_list@.to_set().contains(g) <==> wanted.contains(g) by {
            if black_list@.contains(g) {
                let j = choose|j: int| 0 <= j < membership.len() && membership[j] == g;
                assert(membership@.to_set().contains(g));
            }
            if wanted.contains(g) {
                assert(membership@.to_set().contains(g));
                let j = choose|j: int| 0 <= j < membership@.len() && membership@[j] == g;
                assert(membership[j] == g);
                assert(!white_list@.to_set().contains(g));
            }
        }
        assert(black_list@.to_set() =~= wanted);
    }
    collision_groups
}

/// Whether `ids` lists, in increasing order, exactly the members of `set`
/// below the bound for callers' groups.
pub open spec fn lists_groups(ids: Seq<CollisionGroup>, set: Set<usize>) -> bool {
    &&& forall|i: int, j: int| 0 <= i < j < ids.len() ==> ids[i].id() < ids[j].id()
    &&& forall|g: usize| #[trigger]
        group_ids(ids).contains(g) <==> g < COLLISION_GROUP_BOUND && set.contains(g)
}

/// Reads an engine filter back: the groups that the object belongs to, and
/// the groups that it collides with, each in increasing order of id.
pub fn from_nphysics(groups: &CollisionGroups) -> (lists: (Vec<CollisionGroup>, Vec<CollisionGroup>))
    ensures
        lists_groups(lists.0@, groups_membership(*groups)),
        lists_groups(lists.1@, groups_whitelist(*groups)),
{
    let mut belong_to: Vec<CollisionGroup> = Vec::new();
    let mut collide_with: Vec<CollisionGroup> = Vec::new();
    let bound: usize = CollisionGroups::max_group_id();
    let mut group: usize = 0;
    while group < bound
        invariant
            bound == 29,
            group <= bound,
            forall|i: int, j: int| 0 <= i < j < belong_to.len() ==> belong_to[i].id() < belong_to[j].id(),
            forall|i: int| 0 <= i < belong_to.len() ==> belong_to[i].id() < group,
            forall|g: usize| #[trigger]
                group_ids(belong_to@).contains(g) <==> g < group && groups_membership(
                    *groups,
                ).contains(g),
            forall|i: int, j: int|
                0 <= i < j < collide_with.len() ==> collide_with[i].id() < collide_with[j].id(),
            forall|i: int| 0 <= i < collide_with.len() ==> collide_with[i].id() < group,
            forall|g: usize| #[trigger]
                group_ids(collide_with@).contains(g) <==> g < group && groups_whitelist(
                    *groups,
                ).contains(g),
        decreases bound - group,
    {
        if groups.is_member_of(group) {
            let ghost before = belong_to@;
            let entry = CollisionGroup::new(group as u8);
            belong_to.push(entry);
            proof {
                lemma_listed_after_push(before, entry, groups_membership(*groups), group);
            }
        }
        if groups.is_group_whitelisted(group) {
            let ghost before = collide_with@;
            let entry = CollisionGroup::new(group as u8);
            collide_with.push(entry);
            proof {
                lemma_listed_after_push(before, entry, groups_whitelist(*groups), group);
            }
        }
        group += 1;
    }
    (belong_to, collide_with)
}

/// Appending the next member keeps a list of the members below `group` a
/// list of the members up to `group`.
proof fn lemma_listed_after_push(
    before: Seq<CollisionGroup>,
    entry: CollisionGroup,
    set: Set<usize>,
    group: usize,
)
    requires
        entry.id() == group,
        set.contains(group),
        forall|g: usize| #[trigger] group_ids(before).contains(g) <==> g < group && set.contains(g),
    ensures
        forall|g: usize| #[trigger]
            group_ids(before.push(entry)).contains(g) <==> g < group + 1 && set.contains(g),
{
    let after = before.push(entry);
    assert forall|g: usize| #[trigger]
        group_ids(after).contains(g) <==> g < group + 1 && set.contains(g) by {
        if group_ids(after).contains(g) {
            let i = choose|i: int| 0 <= i < after.len() && after[i].id() == g;
            if i < before.len() {
                assert(before[i].id() == g);
                assert(group_ids(before).contains(g));
            }
        }
        if g < group + 1 && set.contains(g) {
            if g < group {
                assert(group_ids(before).contains(g));
                let i = choose|i: int| 0 <= i < before.len() && before[i].id() == g;
                assert(after[i].id() == g);
            } else {
                assert(after[before.len() as int].id() == g);
            }
        }
    }
}

} // verus!
