//! The linear-scan aggregate: a vector of members, each query a pass over
//! the whole list.

use vstd::prelude::*;
use crate::geometry::Geometry;
use crate::geometry::Aabb;
use crate::geometry::Hit;
use crate::geometry::HitV;
use crate::geometry::opt_hit_view;
use crate::geometry::box_in_range;
use crate::math::vec3::Vec3;
use crate::math::vec3::V3;
use crate::ray::Ray;
use crate::groups::Group;
use crate::groups::GroupContent;
use crate::groups::group_hit;
use crate::groups::merge_hits;
use crate::groups::members_wf;

verus! {

/// The bounding corners of a member sequence: the componentwise union,
/// or the degenerate zero box for no members.
pub open spec fn group_bounds(s: Seq<GroupContent>) -> (V3, V3)
    decreases s.len(),
{
    if s.len() == 0 {
        (V3 { x: 0, y: 0, z: 0 }, V3 { x: 0, y: 0, z: 0 })
    } else if s.len() == 1 {
        s[0].item.spec_bounds()
    } else {
        let prev = group_bounds(s.drop_last());
        let cur = s.last().item.spec_bounds();
        (prev.0.minv(cur.0), prev.1.maxv(cur.1))
    }
}

/// A scene aggregate holding its members in insertion order.
pub struct SimpleGroup {
    pub list: Vec<GroupContent>,
}

impl SimpleGroup {
    /// Builds an empty aggregate.
    pub fn new() -> (g: SimpleGroup)
        ensures
            g.contents() =~= Seq::<GroupContent>::empty(),
            g.wf(),
    {
        SimpleGroup { list: Vec::new() }
    }
}

impl Geometry for SimpleGroup {
    open spec fn wf(&self) -> bool {
        members_wf(self.list@)
    }

    open spec fn spec_hit(&self, ray: Ray) -> Option<HitV> {
        group_hit(self.list@, ray)
    }

    open spec fn spec_bounds(&self) -> (V3, V3) {
        group_bounds(self.list@)
    }

    fn intersect(&self, ray: &Ray) -> (res: Option<Hit>) {
        let ghost s = self.list@;
        let mut best: Option<Hit> = None;
        let mut i: usize = 0;
        proof {
            assert(s.subrange(0, 0) =~= Seq::<GroupContent>::empty());
        }
        while i < self.list.len()
            invariant
                0 <= i <= self.list.len(),
                s == self.list@,
                members_wf(s),
                ray.wf(),
                opt_hit_view(best) == group_hit(s.subrange(0, i as int), *ray),
            decreases self.list.len() - i,
        {
            let member = &self.list[i];
            let candidate = member.item.intersect(ray);
            if let Some(new_hit) = candidate {
                if let Some(old_hit) = best {
                    if new_hit.distance < old_hit.distance {
                        best = Some(new_hit);
                    }
                } else {
                    best = Some(new_hit);
                }
            }
            proof {
                assert(s.subrange(0, i + 1).drop_last() =~= s.subrange(0, i as int));
                assert(s.subrange(0, i + 1).last() == s[i as int]);
            }
            i = i + 1;
        }
        proof {
            assert(s.subrange(0, s.len() as int) =~= s);
        }
        best
    }

    fn does_intersect(&self, ray: &Ray) -> (res: bool) {
        self.intersect(ray).is_some()
    }

    fn get_bounds(&self) -> (res: Aabb) {
        let ghost s = self.list@;
        if self.list.len() == 0 {
            return Aabb { min: Vec3 { x: 0, y: 0, z: 0 }, max: Vec3 { x: 0, y: 0, z: 0 } };
        }
        let mut acc = self.list[0].item.get_bounds();
        let mut i: usize = 1;
        proof {
            assert(s.subrange(0, 1) =~= seq![s[0]]);
        }
        while i < self.list.len()
            invariant
                1 <= i <= self.list.len(),
                s == self.list@,
                members_wf(s),
                (acc.min@, acc.max@) == group_bounds(s.subrange(0, i as int)),
                box_in_range(acc),
            decreases self.list.len() - i,
        {
            let b = self.list[i].item.get_bounds();
            acc = Aabb { min: acc.min.min_vector(&b.min), max: acc.max.max_vector(&b.max) };
            proof {
                assert(s.subrange(0, i + 1).drop_last() =~= s.subrange(0, i as int));
                assert(s.subrange(0, i + 1).last() == s[i as int]);
            }
            i = i + 1;
        }
        proof {
            assert(s.subrange(0, s.len() as int) =~= s);
        }
        acc
    }
}

impl Group for SimpleGroup {
    open spec fn contents(&self) -> Seq<GroupContent> {
        self.list@
    }

    fn push(&mut self, item: GroupContent) {
        self.list.push(item);
    }
}

} // verus!
