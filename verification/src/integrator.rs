//! The decisions of the radiance integrator: how long a light path goes on
//! and which way it takes at a surface. The caller follows the path, does the
//! arithmetic of each bounce and asks here at every fork.

use vstd::prelude::*;
use crate::material::MaterialType;
use crate::math::{Real, ZERO};

verus! {

/// Beyond this many bounces a path goes on only by chance.
pub const ROULETTE_DEPTH: u32 = 5;

/// Up to this many bounces glass sends a path both ways.
pub const SPLIT_DEPTH: u32 = 2;

/// No path takes more bounces than this.
pub const MAX_DEPTH: u32 = 100;

/// The bit pattern of `0.1`: the first component of a normal, beyond which
/// the tangent is taken from the x axis.
pub const AXIS_LIMIT: u64 = 0x3fb9_9999_9999_999a;

/// A light path, as far as its length decides: the number of bounces that
/// it has taken since it left the camera.
#[derive(Clone, Copy, Debug)]
pub struct Path {
    depth: u32,
}

impl View for Path {
    type V = nat;

    /// The number of bounces taken.
    closed spec fn view(&self) -> nat {
        self.depth as nat
    }
}

/// How a path goes on from a surface.
#[derive(Clone, Copy, Debug, PartialEq, Eq, Structural)]
pub enum Scatter {
    /// Along one ray, sampled over the hemisphere about the normal.
    Diffuse,
    /// Along the reflected ray.
    Mirror,
    /// Through glass, along both the reflected and the refracted ray, each
    /// weighted by its share of the light.
    Split,
    /// Through glass, along one of the two rays, picked by chance.
    Pick,
}

/// The axis from which the tangent at a surface is taken.
#[derive(Clone, Copy, Debug, PartialEq, Eq, Structural)]
pub enum Axis {
    X,
    Y,
}

impl Path {
    /// No path is longer than `MAX_DEPTH`.
    pub open spec fn wf(&self) -> bool {
        self@ <= MAX_DEPTH
    }

    /// How a path of this length goes on from a surface: the surface's type
    /// says it, and at glass the length of the path.
    pub open spec fn scattered(&self, surface: MaterialType) -> Scatter {
        match surface {
            MaterialType::DIFFUSE => Scatter::Diffuse,
            MaterialType::MIRROR => Scatter::Mirror,
            MaterialType::GLASS => if self@ <= SPLIT_DEPTH {
                Scatter::Split
            } else {
                Scatter::Pick
            },
        }
    }

    /// The path of a ray that leaves the camera.
    pub fn new() -> (path: Path)
        ensures
            path.wf(),
            path@ == 0,
    {
        Path { depth: 0 }
    }

    /// The number of bounces taken.
    pub fn depth(&self) -> (d: u32)
        ensures
            d == self@,
    {
        self.depth
    }

    /// Whether the path goes on only by chance: it does once it has taken
    /// more than `ROULETTE_DEPTH` bounces.
    pub fn plays_roulette(&self) -> (r: bool)
        ensures
            r == (self@ > ROULETTE_DEPTH),
    {
        self.depth > ROULETTE_DEPTH
    }

    /// The path after one more bounce; none where the path has reached its
    /// greatest length.
    pub fn bounce(&self) -> (next: Option<Path>)
        ensures
            next is Some <==> self@ < MAX_DEPTH,
            next matches Some(p) ==> p.wf() && p@ == self@ + 1,
    {
        if self.depth < MAX_DEPTH {
            Some(Path { depth: self.depth + 1 })
        } else {
            None
        }
    }

    /// How the path goes on from a surface of the given type.
    pub fn scatter(&self, surface: MaterialType) -> (way: Scatter)
        ensures
            way == self.scattered(surface),
    {
        match surface {
            MaterialType::DIFFUSE => Scatter::Diffuse,
            MaterialType::MIRROR => Scatter::Mirror,
            MaterialType::GLASS => if self.depth <= SPLIT_DEPTH {
                Scatter::Split
            } else {
                Scatter::Pick
            },
        }
    }
}

/// Whether glass reflects all light, given the squared cosine of the angle
/// of the refracted ray: it does where that is negative, and the path then
/// follows the reflected ray alone.
pub fn reflects_all(cos2t: Real) -> (r: bool)
    ensures
        r == cos2t.less(Real::of(ZERO)),
{
    cos2t.lt(Real::from_bits(ZERO))
}

/// The greatest of the three channels of a colour, as the roulette takes it:
/// the first channel where it is greater than both others, else the second
/// where it is greater than the third, else the third.
pub open spec fn greatest(r: Real, g: Real, b: Real) -> Real {
    if g.less(r) && b.less(r) {
        r
    } else if b.less(g) {
        g
    } else {
        b
    }
}

/// The greatest channel of a colour: the chance with which the roulette
/// lets a path go on.
pub fn max_channel(r: Real, g: Real, b: Real) -> (p: Real)
    ensures
        p == greatest(r, g, b),
        p == r || p == g || p == b,
        !r.nan() && !g.nan() && !b.nan() ==> !p.less(r) && !p.less(g) && !p.less(b),
{
    if r.gt(g) && r.gt(b) {
        r
    } else if g.gt(b) {
        g
    } else {
        b
    }
}

/// A surface that reflects no light lets no path through the roulette: no
/// number drawn from 0 up to 1 lies below the greatest channel of black.
pub proof fn lemma_black_ends_path(draw: Real)
    requires
        !draw.less(Real::of(ZERO)),
    ensures
        !draw.less(greatest(Real::of(ZERO), Real::of(ZERO), Real::of(ZERO))),
{
}

/// Whether an event of chance `p` comes about, given a number drawn
/// uniformly from 0 up to 1: it does where the number is below `p`.
pub fn happens(draw: Real, p: Real) -> (r: bool)
    ensures
        r == draw.less(p),
{
    draw.lt(p)
}

/// Whether a surface normal points against the ray, given the product of
/// the normal and the ray's direction. Where it does not, the normal is
/// turned round before the bounce is sampled.
pub fn faces(n_dot_d: Real) -> (r: bool)
    ensures
        r == n_dot_d.less(Real::of(ZERO)),
{
    n_dot_d.lt(Real::from_bits(ZERO))
}

/// Whether a ray goes into the glass, given the product of the surface
/// normal and the normal turned against the ray.
pub fn enters(n_dot_nl: Real) -> (r: bool)
    ensures
        r == Real::of(ZERO).less(n_dot_nl),
{
    n_dot_nl.gt(Real::from_bits(ZERO))
}

/// The axis that is crossed with the normal to get a tangent, given the
/// normal's first component: the y axis, unless the component's size is
/// beyond `AXIS_LIMIT`, then the x axis.
pub fn tangent_axis(nx: Real) -> (axis: Axis)
    ensures
        axis == if Real::of(AXIS_LIMIT).less(nx.abs()) {
            Axis::X
        } else {
            Axis::Y
        },
{
    if nx.to_abs().gt(Real::from_bits(AXIS_LIMIT)) {
        Axis::X
    } else {
        Axis::Y
    }
}

} // verus!
