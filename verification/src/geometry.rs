//! Ray-scene intersection: which root of a sphere's quadratic counts as a
//! hit, and which sphere of a scene is hit first.

use vstd::prelude::*;
use crate::math::{Real, ZERO};

verus! {

/// The bit pattern of `1.0e20`: a hit at this distance or beyond is no hit.
pub const INFINITY: u64 = 0x4415_af1d_78b5_8c40;

/// The bit pattern of `1.0e-4`: a root must lie beyond this distance, so that
/// a ray leaving a surface does not hit that surface again at once.
pub const EPSILON: u64 = 0x3f1a_36e2_eb1c_432d;

/// What the quadratic of a ray and a sphere gives: with `op` the vector from
/// the ray's origin to the centre and `b` its product with the direction,
/// `det = b * b - op * op + rad2`, `t0 = b - sqrt(det)` and
/// `t1 = b + sqrt(det)`.
#[derive(Clone, Copy, Debug)]
pub struct Roots {
    pub det: Real,
    pub t0: Real,
    pub t1: Real,
}

impl Roots {
    /// The ray parameter at which the sphere is hit, if it is: none where the
    /// discriminant is negative, else the nearer root if it lies beyond
    /// epsilon, else the farther one if that does.
    pub open spec fn accepted(self) -> Option<Real> {
        if self.det.less(Real::of(ZERO)) {
            None
        } else if Real::of(EPSILON).less(self.t0) {
            Some(self.t0)
        } else if Real::of(EPSILON).less(self.t1) {
            Some(self.t1)
        } else {
            None
        }
    }

    /// Picks the root at which the ray hits the sphere.
    pub fn accept(self) -> (r: Option<Real>)
        ensures
            r == self.accepted(),
            r matches Some(t) ==> Real::of(EPSILON).less(t) && (t == self.t0 || t == self.t1),
    {
        if self.det.lt(Real::from_bits(ZERO)) {
            None
        } else if self.t0.gt(Real::from_bits(EPSILON)) {
            Some(self.t0)
        } else if self.t1.gt(Real::from_bits(EPSILON)) {
            Some(self.t1)
        } else {
            None
        }
    }
}

/// Epsilon rejection: a sphere whose roots both lie within epsilon of the
/// ray's origin is not hit. So it is for a ray that leaves the sphere's own
/// surface outwards, whose roots are a negative number and a number near 0.
pub proof fn lemma_epsilon_rejection(roots: Roots)
    requires
        !Real::of(EPSILON).less(roots.t0),
        !Real::of(EPSILON).less(roots.t1),
    ensures
        roots.accepted() is None,
{
}

/// Whether sphere `i` of the scene is hit, and nearer than the sentinel.
pub open spec fn in_range(scene: Seq<Roots>, i: int) -> bool {
    &&& 0 <= i < scene.len()
    &&& scene[i].accepted() is Some
    &&& scene[i].accepted().unwrap().less(Real::of(INFINITY))
}

/// Whether `id` is the sphere that the ray hits first, at parameter `t`: no
/// sphere is hit nearer, and each sphere before `id` is hit farther away.
pub open spec fn nearest(scene: Seq<Roots>, t: Real, id: int) -> bool {
    &&& in_range(scene, id)
    &&& scene[id].accepted() == Some(t)
    &&& forall|j: int| in_range(scene, j) ==> !scene[j].accepted().unwrap().less(t)
    &&& forall|j: int| 0 <= j < id && in_range(scene, j) ==> t.less(scene[j].accepted().unwrap())
}

/// Finds the sphere that a ray hits first. `scene` holds the roots of the
/// ray against each sphere, in the scene's order. The result is the ray
/// parameter of the hit and the sphere's index; of several spheres hit at the
/// same distance the first one wins.
pub fn intersect(scene: &[Roots]) -> (r: Option<(Real, usize)>)
    ensures
        r is None <==> forall|j: int| !in_range(scene@, j),
        r matches Some((t, id)) ==> nearest(scene@, t, id as int) && Real::of(EPSILON).less(t),
{
    let mut t_out: Real = Real::from_bits(INFINITY);
    let mut id_out: usize = 0;
    let mut i: usize = 0;
    while i < scene.len()
        invariant
            i <= scene.len(),
            !t_out.nan(),
            !Real::of(INFINITY).less(t_out),
            forall|j: int|
                0 <= j < i && in_range(scene@, j) ==> !scene@[j].accepted().unwrap().less(t_out),
            !t_out.less(Real::of(INFINITY)) ==> forall|j: int| 0 <= j < i ==> !in_range(scene@, j),
            t_out.less(Real::of(INFINITY)) ==> {
                &&& id_out < i
                &&& in_range(scene@, id_out as int)
                &&& scene@[id_out as int].accepted() == Some(t_out)
                &&& forall|j: int| 0 <= j < id_out && in_range(scene@, j)
                        ==> t_out.less(scene@[j].accepted().unwrap())
            },
        decreases scene.len() - i,
    {
        match scene[i].accept() {
            Some(t) => {
                if t.lt(t_out) {
                    t_out = t;
                    id_out = i;
                }
            },
            None => {},
        }
        i = i + 1;
    }
    if t_out.lt(Real::from_bits(INFINITY)) {
        Some((t_out, id_out))
    } else {
        None
    }
}

} // verus!
