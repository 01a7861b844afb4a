use vstd::prelude::*;

verus! {

/// Distance between two coordinates on one axis.
pub open spec fn gap(a: u32, b: u32) -> int {
    if a >= b { a - b } else { b - a }
}

/// Squared Euclidean distance between the centres of two particles.
pub open spec fn sq_dist(a: Circle, b: Circle) -> int {
    gap(a.x, b.x) * gap(a.x, b.x) + gap(a.y, b.y) * gap(a.y, b.y) + gap(a.z, b.z) * gap(a.z, b.z)
}

/// Two particles overlap (or touch) when their centres are no farther apart than
/// the sum of their radii.
pub open spec fn touches(a: Circle, b: Circle) -> bool {
    sq_dist(a, b) <= (a.r + b.r) * (a.r + b.r)
}

/// A particle's extent leaves the cube `[0, size]^3`; touching a wall is not
/// leaving. An axis pinned at the midpoint never decides this alone: it leaves
/// only when the radius exceeds half the edge, and then so does any axis in use.
pub open spec fn exits(c: Circle, size: u32) -> bool {
    c.x < c.r || c.y < c.r || c.z < c.r || c.x + c.r > size || c.y + c.r > size || c.z + c.r
        > size
}

/// Adds two radii, stopping at the largest representable one.
pub open spec fn sat_add(a: int, b: int) -> int {
    if a + b > u32::MAX { u32::MAX as int } else { a + b }
}

/// Adds two lifetimes, stopping at the largest representable one.
pub open spec fn sat_add_life(a: int, b: int) -> int {
    if a + b > u64::MAX { u64::MAX as int } else { a + b }
}

/// The particle after `grow(amount)`.
pub open spec fn grown(c: Circle, amount: u32) -> Circle {
    if c.is_active {
        Circle { r: sat_add(c.r as int, amount as int) as u32, ..c }
    } else {
        c
    }
}

/// The particle after `grow_older(time)`.
pub open spec fn aged(c: Circle, time: u64) -> Circle {
    if c.is_active {
        Circle { life_length: sat_add_life(c.life_length as int, time as int) as u64, ..c }
    } else {
        c
    }
}

/// The particle after `deactivate()`.
pub open spec fn deactivated(c: Circle) -> Circle {
    Circle { is_active: false, ..c }
}

/// The particle after `activate()`.
pub open spec fn activated(c: Circle) -> Circle {
    Circle { is_active: true, ..c }
}

/// Dimensionality of the simulation.
#[derive(Clone, Copy, Debug, PartialEq, Eq, Structural)]
pub enum Dimensions {
    One,
    Two,
    Three,
}

/// A size query named a dimensionality outside {1, 2, 3}.
#[derive(Clone, Copy, Debug, PartialEq, Eq, Structural)]
pub struct InvalidDimension {
    pub value: i32,
}

pub open spec fn dimensions_of(value: i32) -> Option<Dimensions> {
    if value == 1 {
        Some(Dimensions::One)
    } else if value == 2 {
        Some(Dimensions::Two)
    } else if value == 3 {
        Some(Dimensions::Three)
    } else {
        None
    }
}

impl Dimensions {
    /// Reads a dimensionality given as a number; only 1, 2 and 3 are valid.
    pub fn from_i32(value: i32) -> (r: Result<Dimensions, InvalidDimension>)
        ensures
            match dimensions_of(value) {
                Some(d) => r == Ok::<Dimensions, InvalidDimension>(d),
                None => r == Err::<Dimensions, InvalidDimension>(InvalidDimension { value }),
            },
    {
        if value == 1 {
            Ok(Dimensions::One)
        } else if value == 2 {
            Ok(Dimensions::Two)
        } else if value == 3 {
            Ok(Dimensions::Three)
        } else {
            Err(InvalidDimension { value })
        }
    }

    pub open spec fn count(self) -> int {
        match self {
            Dimensions::One => 1,
            Dimensions::Two => 2,
            Dimensions::Three => 3,
        }
    }

    /// The dimensionality as a number.
    pub fn as_i32(&self) -> (r: i32)
        ensures
            r == self.count(),
            dimensions_of(r) == Some(*self),
    {
        match self {
            Dimensions::One => 1,
            Dimensions::Two => 2,
            Dimensions::Three => 3,
        }
    }
}

/// The size of a particle, or a sum of sizes, kept exact.
///
/// Its value is `base` times a factor fixed by the dimensionality: 1 for a
/// length, π for an area, 4π/3 for a volume. So a particle of radius `r` has a
/// length of `2r`, an area of `π·r²` and a volume of `(4/3)·π·r³`, and its
/// measure holds `2r`, `r²` or `r³`.
#[derive(Clone, Copy, Debug, PartialEq, Eq, Structural)]
pub struct Measure {
    pub dims: Dimensions,
    pub base: u128,
}

/// The factor-free part of a particle's size: `2r`, `r²` or `r³`.
pub open spec fn size_base(r: int, dims: Dimensions) -> int {
    match dims {
        Dimensions::One => 2 * r,
        Dimensions::Two => r * r,
        Dimensions::Three => r * r * r,
    }
}

/// One disk or sphere of the simulation.
///
/// Axes beyond the simulation's dimensionality sit at the domain's midpoint.
#[derive(Clone, Copy, Debug)]
pub struct Circle {
    pub x: u32,
    pub y: u32,
    pub z: u32,
    pub r: u32,
    pub is_active: bool,
    /// Unique identifier, given in spawn order.
    pub id: u64,
    /// Active time lived, in ticks.
    pub life_length: u64,
    pub n_neighbours: usize,
}

/// Two particles are equal when their position and radius are.
impl PartialEq for Circle {
    fn eq(&self, other: &Circle) -> (r: bool) {
        self.x == other.x && self.y == other.y && self.z == other.z && self.r == other.r
    }
}

impl vstd::std_specs::cmp::PartialEqSpecImpl for Circle {
    open spec fn obeys_eq_spec() -> bool {
        true
    }

    open spec fn eq_spec(&self, other: &Circle) -> bool {
        self.x == other.x && self.y == other.y && self.z == other.z && self.r == other.r
    }
}

impl Eq for Circle {
}

fn gap_of(a: u32, b: u32) -> (r: u64)
    ensures
        r == gap(a, b),
        r <= u32::MAX,
{
    if a >= b {
        (a - b) as u64
    } else {
        (b - a) as u64
    }
}

fn square(v: u64) -> (r: u128)
    requires
        v <= u32::MAX,
    ensures
        r == v * v,
        r <= 0xffff_fffe_0000_0001u128,
{
    assert(v * v <= 0xffff_ffffu64 * 0xffff_ffffu64) by (nonlinear_arith)
        requires
            v <= 0xffff_ffffu64,
    ;
    (v as u128) * (v as u128)
}

impl Circle {
    /// A new active particle with no lifetime and no neighbours.
    pub fn new(id: u64, x: u32, y: u32, z: u32, r: u32) -> (c: Circle)
        ensures
            c == (Circle { x, y, z, r, is_active: true, id, life_length: 0, n_neighbours: 0 }),
    {
        Circle { x, y, z, r, is_active: true, id, life_length: 0, n_neighbours: 0 }
    }

    /// A new active particle of radius 0 at the origin.
    pub fn default(id: u64) -> (c: Circle)
        ensures
            c == (Circle {
                x: 0,
                y: 0,
                z: 0,
                r: 0,
                is_active: true,
                id,
                life_length: 0,
                n_neighbours: 0,
            }),
    {
        Circle::new(id, 0, 0, 0, 0)
    }

    /// Grows an active particle's radius by `speed` (saturating at `u32::MAX`);
    /// an inactive particle keeps its radius.
    pub fn grow(&mut self, speed: u32)
        ensures
            *final(self) == grown(*old(self), speed),
            final(self).r >= old(self).r,
            !old(self).is_active ==> final(self).r == old(self).r,
    {
        if self.is_active {
            self.r = self.r.saturating_add(speed);
        }
    }

    /// Adds `time` ticks to an active particle's lifetime (saturating).
    pub fn grow_older(&mut self, time: u64)
        ensures
            *final(self) == aged(*old(self), time),
    {
        if self.is_active {
            self.life_length = self.life_length.saturating_add(time);
        }
    }

    pub fn activate(&mut self)
        ensures
            *final(self) == activated(*old(self)),
    {
        self.is_active = true;
    }

    pub fn deactivate(&mut self)
        ensures
            *final(self) == deactivated(*old(self)),
    {
        self.is_active = false;
    }

    /// Whether the two particles overlap or touch, compared on squared lengths.
    pub fn intersects(&self, other: &Circle) -> (r: bool)
        ensures
            r == touches(*self, *other),
    {
        let dx = square(gap_of(self.x, other.x));
        let dy = square(gap_of(self.y, other.y));
        let dz = square(gap_of(self.z, other.z));
        let rs = self.r as u128 + other.r as u128;
        assert(rs * rs <= 0x1_ffff_fffeu128 * 0x1_ffff_fffeu128) by (nonlinear_arith)
            requires
                rs <= 0x1_ffff_fffeu128,
        ;
        dx + dy + dz <= rs * rs
    }

    /// Whether the particle's extent leaves the domain `[0, size]^3`.
    pub fn out_of_bounds(&self, size: u32) -> (r: bool)
        ensures
            r == exits(*self, size),
    {
        let r = self.r as u64;
        let s = size as u64;
        (self.x as u64) < r || (self.y as u64) < r || (self.z as u64) < r || self.x as u64 + r > s
            || self.y as u64 + r > s || self.z as u64 + r > s
    }

    /// The particle's length, `2r`.
    pub fn length(&self) -> (m: Measure)
        ensures
            m.dims == Dimensions::One,
            m.base == size_base(self.r as int, Dimensions::One),
    {
        Measure { dims: Dimensions::One, base: 2 * (self.r as u128) }
    }

    /// The particle's area, `π·r²`: the measure holds `r²`.
    pub fn area(&self) -> (m: Measure)
        ensures
            m.dims == Dimensions::Two,
            m.base == size_base(self.r as int, Dimensions::Two),
    {
        let r = self.r as u128;
        assert(r * r <= 0xffff_ffffu128 * 0xffff_ffffu128) by (nonlinear_arith)
            requires
                r <= 0xffff_ffffu128,
        ;
        Measure { dims: Dimensions::Two, base: r * r }
    }

    /// The particle's volume, `(4/3)·π·r³`: the measure holds `r³`.
    pub fn volume(&self) -> (m: Measure)
        ensures
            m.dims == Dimensions::Three,
            m.base == size_base(self.r as int, Dimensions::Three),
    {
        let r = self.r as u128;
        assert(r * r <= 0xffff_ffffu128 * 0xffff_ffffu128) by (nonlinear_arith)
            requires
                r <= 0xffff_ffffu128,
        ;
        assert(r * r * r <= 0xffff_ffffu128 * 0xffff_ffffu128 * 0xffff_ffffu128)
            by (nonlinear_arith)
            requires
                r <= 0xffff_ffffu128,
        ;
        Measure { dims: Dimensions::Three, base: r * r * r }
    }

    /// The particle's size in the given dimensionality.
    pub fn size_in(&self, dims: Dimensions) -> (m: Measure)
        ensures
            m.dims == dims,
            m.base == size_base(self.r as int, dims),
    {
        match dims {
            Dimensions::One => self.length(),
            Dimensions::Two => self.area(),
            Dimensions::Three => self.volume(),
        }
    }

    /// The particle's size for a dimensionality given as a number; fails with
    /// `InvalidDimension` unless it is 1, 2 or 3.
    pub fn get_size(&self, dimensions: i32) -> (r: Result<Measure, InvalidDimension>)
        ensures
            match dimensions_of(dimensions) {
                Some(d) => r == Ok::<Measure, InvalidDimension>(
                    Measure { dims: d, base: size_base(self.r as int, d) as u128 },
                ),
                None => r == Err::<Measure, InvalidDimension>(
                    InvalidDimension { value: dimensions },
                ),
            },
    {
        match Dimensions::from_i32(dimensions) {
            Ok(d) => Ok(self.size_in(d)),
            Err(e) => Err(e),
        }
    }

    pub fn clear_neighbours(&mut self)
        ensures
            *final(self) == (Circle { n_neighbours: 0, ..*old(self) }),
    {
        self.n_neighbours = 0;
    }

    pub fn add_neighbour(&mut self)
        requires
            old(self).n_neighbours < usize::MAX,
        ensures
            *final(self) == (Circle { n_neighbours: (old(self).n_neighbours + 1) as usize, ..*old(self) }),
    {
        self.n_neighbours = self.n_neighbours + 1;
    }

    /// Whether the particle has `limit` neighbours or more.
    pub fn is_jammed(&self, limit: usize) -> (r: bool)
        ensures
            r == (self.n_neighbours >= limit),
    {
        self.n_neighbours >= limit
    }

    /// Whether the particle has no neighbours.
    pub fn is_free(&self) -> (r: bool)
        ensures
            r == (self.n_neighbours == 0),
    {
        self.n_neighbours == 0
    }
}

/// Deactivating a particle a second time changes nothing.
pub proof fn lemma_deactivate_idempotent(c: Circle)
    ensures
        deactivated(deactivated(c)) == deactivated(c),
{
}

} // verus!
