//! Aggregates of primitives behind the shared geometry capability.

use vstd::prelude::*;
use crate::geometry::Geometry;
use crate::geometry::Primitive;
use crate::geometry::HitV;
use crate::ray::Ray;

pub mod simple_group;

verus! {

/// A primitive together with the index of its material, if it has one;
/// materials live in a side table of the world, keyed by this index.
#[derive(Copy, Clone, Debug, PartialEq, Eq, Structural)]
pub struct GroupContent {
    pub item: Primitive,
    pub material: Option<usize>,
}

impl GroupContent {
    /// Builds an aggregate entry.
    pub fn new(item: Primitive, material: Option<usize>) -> (c: GroupContent)
        ensures
            c.item == item,
            c.material == material,
    {
        GroupContent { item, material }
    }

    /// The entry is well-formed when its primitive is.
    pub open spec fn wf(self) -> bool {
        self.item.wf()
    }
}

/// Merging of hit candidates: keep the nearest, the earlier one on ties.
pub open spec fn merge_hits(prev: Option<HitV>, cur: Option<HitV>) -> Option<HitV> {
    match (prev, cur) {
        (None, c) => c,
        (Some(p), None) => Some(p),
        (Some(p), Some(c)) => if c.distance < p.distance {
            Some(c)
        } else {
            Some(p)
        },
    }
}

/// The nearest hit over a sequence of members: a left fold of `merge_hits`.
pub open spec fn group_hit(s: Seq<GroupContent>, ray: Ray) -> Option<HitV>
    decreases s.len(),
{
    if s.len() == 0 {
        None
    } else {
        merge_hits(group_hit(s.drop_last(), ray), s.last().item.spec_hit(ray))
    }
}

/// All members of a sequence are well-formed.
pub open spec fn members_wf(s: Seq<GroupContent>) -> bool {
    forall|i: int| 0 <= i < s.len() ==> (#[trigger] s[i]).wf()
}

/// A group misses exactly when every member misses.
pub proof fn lemma_group_miss(s: Seq<GroupContent>, ray: Ray)
    requires
        forall|j: int| 0 <= j < s.len() ==> (#[trigger] s[j]).item.spec_hit(ray) is None,
    ensures
        group_hit(s, ray) is None,
    decreases s.len(),
{
    if s.len() > 0 {
        lemma_group_miss(s.drop_last(), ray);
    }
}

/// When exactly one member is struck, the group reports that member's hit
/// unchanged.
pub proof fn lemma_group_single_hit(s: Seq<GroupContent>, ray: Ray, i: int)
    requires
        0 <= i < s.len(),
        forall|j: int|
            0 <= j < s.len() && j != i ==> (#[trigger] s[j]).item.spec_hit(ray) is None,
    ensures
        group_hit(s, ray) == s[i].item.spec_hit(ray),
    decreases s.len(),
{
    if i == s.len() - 1 {
        lemma_group_miss(s.drop_last(), ray);
    } else {
        lemma_group_single_hit(s.drop_last(), ray, i);
    }
}

/// A growable aggregate: geometry that also accepts new members.
pub trait Group: Geometry {
    /// The members, in insertion order.
    spec fn contents(&self) -> Seq<GroupContent>;

    /// Appends a member.
    fn push(&mut self, item: GroupContent)
        requires
            item.wf(),
        ensures
            final(self).contents() == old(self).contents().push(item),
            old(self).wf() ==> final(self).wf(),
    ;
}

} // verus!
