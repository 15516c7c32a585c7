//! The scene: an ordered collection of objects, and the query for the
//! nearest of them.

use vstd::prelude::*;
use crate::config::MAX_DISTANCE;
use crate::material::Material;
use crate::surface::Surface;
use crate::vector::Vec3;

verus! {

/// The least distance to any object of a scene, and which object gives it.
#[derive(Clone, Copy, Debug, PartialEq, Eq, Structural)]
pub struct HitInfo {
    pub distance: i64,
    pub object_index: usize,
}

/// A surface together with the material it is drawn in.
#[derive(Clone, Debug, PartialEq, Eq)]
pub struct Object {
    pub surface: Surface,
    pub material: Material,
}

/// An ordered collection of objects.
#[derive(Clone, Debug, PartialEq, Eq)]
pub struct Scene {
    pub objects: Vec<Object>,
}

/// The nearest among the first `n` objects: each later object replaces the
/// best so far only where it is strictly nearer. Without objects the distance
/// is `MAX_DISTANCE`.
pub open spec fn nearest_of_first(objects: Seq<Object>, p: Vec3, n: nat) -> HitInfo
    decreases n,
{
    if n == 0 {
        HitInfo { distance: MAX_DISTANCE, object_index: 0 }
    } else {
        let d = objects[n - 1].surface.spec_sdf(p);
        let last = HitInfo { distance: d as i64, object_index: (n - 1) as usize };
        if n == 1 {
            last
        } else {
            let best = nearest_of_first(objects, p, (n - 1) as nat);
            if d < best.distance {
                last
            } else {
                best
            }
        }
    }
}

/// Whether `h` names the first of the objects that are nearest to `p`,
/// together with its distance.
pub open spec fn is_nearest(objects: Seq<Object>, p: Vec3, h: HitInfo) -> bool {
    &&& 0 <= h.object_index < objects.len()
    &&& h.distance == objects[h.object_index as int].surface.spec_sdf(p)
    &&& forall|i: int|
        0 <= i < objects.len() ==> h.distance <= (#[trigger] objects[i]).surface.spec_sdf(p)
    &&& forall|i: int|
        0 <= i < h.object_index ==> h.distance < (#[trigger] objects[i]).surface.spec_sdf(p)
}

/// Among the first `n` objects, `nearest_of_first` names the first of those
/// that are nearest.
pub proof fn lemma_nearest_of_first(objects: Seq<Object>, p: Vec3, n: nat)
    requires
        0 < n <= objects.len(),
        n <= usize::MAX,
    ensures
        is_nearest(objects.take(n as int), p, nearest_of_first(objects, p, n)),
    decreases n,
{
    let first = objects.take(n as int);
    assert(forall|i: int| 0 <= i < n ==> first[i] == objects[i]);
    if n > 1 {
        let m = (n - 1) as nat;
        lemma_nearest_of_first(objects, p, m);
        let before = objects.take(m as int);
        let best = nearest_of_first(objects, p, m);
        assert(forall|i: int| 0 <= i < m ==> before[i] == objects[i]);
        assert(forall|i: int| 0 <= i < m ==> best.distance <= objects[i].surface.spec_sdf(p)) by {
            assert forall|i: int| 0 <= i < m implies best.distance <= objects[i].surface.spec_sdf(
                p,
            ) by {
                assert(best.distance <= before[i].surface.spec_sdf(p));
            }
        }
        assert(forall|i: int|
            0 <= i < best.object_index ==> best.distance < objects[i].surface.spec_sdf(p)) by {
            assert forall|i: int| 0 <= i < best.object_index implies best.distance
                < objects[i].surface.spec_sdf(p) by {
                assert(best.distance < before[i].surface.spec_sdf(p));
            }
        }
    }
}

impl Object {
    /// The surface and the material are well formed.
    pub open spec fn wf(self) -> bool {
        self.surface.wf() && self.material.wf()
    }

    /// Whether the surface and the material are well formed.
    pub fn is_wf(&self) -> (r: bool)
        ensures
            r == self.wf(),
    {
        self.surface.is_wf() && self.material.is_wf()
    }

    /// The object with the given surface and material.
    pub fn new(surface: Surface, material: Material) -> (r: Object)
        ensures
            r.surface == surface,
            r.material == material,
    {
        Object { surface, material }
    }
}

impl View for Scene {
    type V = Seq<Object>;

    open spec fn view(&self) -> Seq<Object> {
        self.objects@
    }
}

impl Scene {
    /// Every object is well formed.
    pub open spec fn wf(self) -> bool {
        forall|i: int| 0 <= i < self.objects@.len() ==> (#[trigger] self.objects@[i]).wf()
    }

    /// The distance from `p` to the object at index `i`.
    pub open spec fn spec_sdf_of(self, i: int, p: Vec3) -> int {
        self@[i].surface.spec_sdf(p)
    }

    /// The nearest object and its distance.
    pub open spec fn spec_hitinfo(self, p: Vec3) -> HitInfo {
        nearest_of_first(self@, p, self@.len())
    }

    /// The least distance from `p` to any object.
    pub open spec fn spec_closest_sdf(self, p: Vec3) -> int {
        self.spec_hitinfo(p).distance as int
    }

    /// In a scene with at least one object, the closest distance is at most
    /// the distance to every object and equal to that of the object that
    /// `spec_hitinfo` names, which is the first of the nearest.
    pub proof fn lemma_closest_is_minimal(self, p: Vec3)
        requires
            self@.len() > 0,
        ensures
            is_nearest(self@, p, self.spec_hitinfo(p)),
            forall|i: int|
                0 <= i < self@.len() ==> self.spec_closest_sdf(p) <= #[trigger] self.spec_sdf_of(
                    i,
                    p,
                ),
            exists|i: int|
                0 <= i < self@.len() && self.spec_closest_sdf(p) == #[trigger] self.spec_sdf_of(
                    i,
                    p,
                ),
    {
        assert(self@.len() == self.objects.len());
        lemma_nearest_of_first(self@, p, self@.len());
        assert(self@.take(self@.len() as int) =~= self@);
        let h = self.spec_hitinfo(p);
        assert(self.spec_closest_sdf(p) == self.spec_sdf_of(h.object_index as int, p));
    }

    /// Whether every object is well formed.
    pub fn is_wf(&self) -> (r: bool)
        ensures
            r == self.wf(),
    {
        let n: usize = self.objects.len();
        let mut i: usize = 0;
        while i < n
            invariant
                i <= n == self.objects@.len(),
                forall|k: int| 0 <= k < i ==> (#[trigger] self.objects@[k]).wf(),
            decreases n - i,
        {
            if !self.objects[i].is_wf() {
                return false;
            }
            i = i + 1;
        }
        true
    }

    /// The scene of the given objects, in their order.
    pub fn new(objects: Vec<Object>) -> (r: Scene)
        ensures
            r@ == objects@,
    {
        Scene { objects }
    }

    /// The nearest object to `p` and its distance. Among objects at the same
    /// distance the first wins. In an empty scene the distance is
    /// `MAX_DISTANCE` and the index 0.
    pub fn hitinfo(&self, p: Vec3) -> (r: HitInfo)
        requires
            self.wf(),
            p.wf(),
        ensures
            r == self.spec_hitinfo(p),
            self@.len() > 0 ==> is_nearest(self@, p, r),
            self@.len() == 0 ==> r == (HitInfo { distance: MAX_DISTANCE, object_index: 0 }),
    {
        let n: usize = self.objects.len();
        if n == 0 {
            return HitInfo { distance: MAX_DISTANCE, object_index: 0 };
        }
        let mut best = HitInfo { distance: self.objects[0].surface.sdf(p), object_index: 0 };
        let mut i: usize = 1;
        while i < n
            invariant
                1 <= i <= n,
                n == self@.len(),
                self.wf(),
                p.wf(),
                best == nearest_of_first(self@, p, i as nat),
            decreases n - i,
        {
            let d: i64 = self.objects[i].surface.sdf(p);
            if d < best.distance {
                best = HitInfo { distance: d, object_index: i };
            }
            i = i + 1;
        }
        proof {
            self.lemma_closest_is_minimal(p);
        }
        best
    }

    /// The least distance from `p` to any object; `MAX_DISTANCE` in an empty
    /// scene.
    pub fn closest_sdf(&self, p: Vec3) -> (r: i64)
        requires
            self.wf(),
            p.wf(),
        ensures
            r == self.spec_closest_sdf(p),
            forall|i: int| 0 <= i < self@.len() ==> r <= #[trigger] self.spec_sdf_of(i, p),
            self@.len() > 0 ==> exists|i: int|
                0 <= i < self@.len() && r == #[trigger] self.spec_sdf_of(i, p),
    {
        proof {
            if self@.len() > 0 {
                self.lemma_closest_is_minimal(p);
            }
        }
        self.hitinfo(p).distance
    }
}

} // verus!
