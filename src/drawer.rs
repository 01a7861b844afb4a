use vstd::prelude::*;
use vstd::arithmetic::div_mod::lemma_div_is_ordered;
use rand::Rng;
use crate::circle::{activated, aged, grown, size_base, touches, Circle, Dimensions, InvalidDimension, dimensions_of};
use crate::consts::{CANVAS_SIZE, INITIAL_NEIGHBOUR_LIMIT, INITIAL_SPEED, INITIAL_TIME, PLACEMENT_ATTEMPTS};
use crate::resolve::{
    lemma_touch_count_bound, neighbours, touch_count,
    comes_from, distinct_ids, lemma_settle_distinct, lemma_settle_origin, lemma_settle_outcome, lemma_touching_pair_deactivated,
    resolve_pairs, scanned, settle, settle_jammed,
};

verus! {

/// Relies on `rand::thread_rng` and `Rng::gen_range`: a value drawn from the
/// inclusive range `0..=bound`, which is never empty.
#[verifier::external_body]
fn random_coordinate(bound: u32) -> (r: u32)
    ensures
        r <= bound,
{
    rand::thread_rng().gen_range(0..=bound)
}

/// Relies on `slice::sort`: the values in ascending order, none added or lost.
#[verifier::external_body]
fn sort_ascending(v: &mut Vec<u128>)
    ensures
        final(v)@.to_multiset() == old(v)@.to_multiset(),
        forall|i: int, j: int| 0 <= i <= j < final(v)@.len() ==> final(v)@[i] <= final(v)@[j],
{
    v.sort();
}

/// The simulation: a collection of particles, a logical clock counted in ticks,
/// its configuration and the metric series it samples once per second.
pub struct CircleDrawer {
    pub circles: Vec<Circle>,
    /// Growth speed, in length units per second.
    pub speed: u32,
    /// Target duration, in seconds.
    pub time: u32,
    /// Elapsed simulation time, in ticks.
    pub clock: u64,
    /// Ticks per simulated second.
    pub iter_per_sec: u32,
    /// Identifier for the next particle.
    pub next_circle_id: u64,
    pub is_still_growing: bool,
    pub is_bounded: bool,
    pub should_wait_until_end: bool,
    pub is_hungry: bool,
    pub neighbour_limit: usize,
    pub should_gen_s: bool,
    pub should_gen_n: bool,
    pub should_gen_t: bool,
    pub dimensions: Dimensions,
    /// Whether a renderer shades spheres by depth; the simulation ignores it.
    pub use_z_alpha: bool,
    /// Sum of the particles' sizes, one entry per sampled second (see `Measure`).
    pub data_s: Vec<u128>,
    /// Number of active particles, one entry per sampled second.
    pub data_n: Vec<usize>,
    /// Lifetime in ticks of each particle, indexed by identifier.
    pub data_t: Vec<u64>,
}

/// Length of the simulation in ticks.
pub open spec fn target_ticks(d: CircleDrawer) -> int {
    d.time * d.iter_per_sec
}

pub open spec fn time_up(d: CircleDrawer) -> bool {
    d.clock >= target_ticks(d)
}

/// The clock stands on a whole second.
pub open spec fn second_boundary(d: CircleDrawer) -> bool {
    (d.clock as int) % (d.iter_per_sec as int) == 0
}

pub open spec fn finished(d: CircleDrawer) -> bool {
    time_up(d) && !(d.should_wait_until_end && d.is_still_growing)
}

pub open spec fn has_y(d: Dimensions) -> bool {
    d != Dimensions::One
}

pub open spec fn has_z(d: Dimensions) -> bool {
    d == Dimensions::Three
}

/// How far a particle grows in its first `t` ticks, in whole length units.
pub open spec fn growth_until(speed: u32, sps: u32, t: int) -> int {
    (speed * t) / (sps as int)
}

/// How far an active particle grows in the tick that brings the clock to `t`:
/// growth is exact over whole seconds even where a tick is a fraction of a unit.
pub open spec fn tick_growth(speed: u32, sps: u32, t: u64) -> u32 {
    if t == 0 {
        0
    } else {
        let d = growth_until(speed, sps, t as int) - growth_until(speed, sps, t - 1);
        if d > u32::MAX { u32::MAX } else { d as u32 }
    }
}

/// Every particle grown by `g` and aged by one tick.
pub open spec fn grown_all(s: Seq<Circle>, g: u32) -> Seq<Circle> {
    Seq::new(s.len(), |k: int| aged(grown(s[k], g), 1))
}

pub open spec fn cleared(s: Seq<Circle>) -> Seq<Circle> {
    Seq::new(s.len(), |k: int| Circle { n_neighbours: 0, ..s[k] })
}

pub open spec fn scan_all(s: Seq<Circle>, bounded: bool, hungry: bool) -> Seq<Circle> {
    Seq::new(s.len(), |k: int| scanned(s, k, CANVAS_SIZE, bounded, hungry))
}

/// The collection after collision resolution under the configured policy.
pub open spec fn resolved(s: Seq<Circle>, bounded: bool, hungry: bool, limit: usize) -> Seq<Circle> {
    if hungry {
        settle(scan_all(cleared(s), bounded, true), limit)
    } else {
        scan_all(s, bounded, false)
    }
}

/// Sum of the sizes' bases of all particles (see `Measure`).
pub open spec fn total_size(s: Seq<Circle>, dims: Dimensions) -> int
    decreases s.len(),
{
    if s.len() == 0 {
        0
    } else {
        total_size(s.drop_last(), dims) + size_base(s.last().r as int, dims)
    }
}

pub open spec fn active_count(s: Seq<Circle>) -> nat
    decreases s.len(),
{
    if s.len() == 0 {
        0
    } else {
        active_count(s.drop_last()) + if s.last().is_active {
            1nat
        } else {
            0nat
        }
    }
}

/// The lifetime table after each particle wrote its lifetime at its identifier.
pub open spec fn snapshot(t: Seq<u64>, s: Seq<Circle>) -> Seq<u64>
    decreases s.len(),
{
    if s.len() == 0 {
        t
    } else {
        let before = snapshot(t, s.drop_last());
        let c = s.last();
        if c.id < before.len() {
            before.update(c.id as int, c.life_length)
        } else {
            before
        }
    }
}

pub open spec fn capped(v: int) -> u128 {
    if v > u128::MAX { u128::MAX } else { v as u128 }
}

/// The configuration of `a` and `b` is the same.
pub open spec fn same_config(a: CircleDrawer, b: CircleDrawer) -> bool {
    a.speed == b.speed && a.time == b.time && a.iter_per_sec == b.iter_per_sec && a.is_bounded
        == b.is_bounded && a.should_wait_until_end == b.should_wait_until_end && a.is_hungry
        == b.is_hungry && a.neighbour_limit == b.neighbour_limit && a.should_gen_s
        == b.should_gen_s && a.should_gen_n == b.should_gen_n && a.should_gen_t == b.should_gen_t
        && a.dimensions == b.dimensions && a.use_z_alpha == b.use_z_alpha
}

/// The fresh particle that placement tries at `(x, y, z)`.
pub open spec fn candidate(d: CircleDrawer, x: u32, y: u32, z: u32) -> Circle {
    Circle { x, y, z, r: 0, is_active: true, id: d.next_circle_id, life_length: 0, n_neighbours: 0 }
}

/// The candidate touches no particle present.
pub open spec fn fits(s: Seq<Circle>, c: Circle) -> bool {
    forall|k: int| 0 <= k < s.len() ==> !touches(#[trigger] s[k], c)
}

/// `b` is `a` with the candidate at `(x, y, z)` inserted: appended, or in 3-D
/// placed so that depth does not increase along the collection.
pub open spec fn placed(a: CircleDrawer, b: CircleDrawer, x: u32, y: u32, z: u32) -> bool {
    &&& same_config(a, b)
    &&& exists|i: int|
        0 <= i <= a.circles@.len() && b.circles@ == a.circles@.insert(i, candidate(a, x, y, z))
            && (!has_z(a.dimensions) ==> i == a.circles@.len())
            && (has_z(a.dimensions) ==> (forall|k: int| 0 <= k < i ==> #[trigger] a.circles@[k].z >= z)
            && (i < a.circles@.len() ==> a.circles@[i].z < z))
    &&& b.next_circle_id == a.next_circle_id + 1
    &&& b.data_t@ == if a.should_gen_t {
        a.data_t@.push(0)
    } else {
        a.data_t@
    }
    &&& b.clock == a.clock && b.is_still_growing == a.is_still_growing
    &&& b.data_s@ == a.data_s@ && b.data_n@ == a.data_n@
}

/// Every position of the domain has room for a fresh particle.
pub open spec fn room_everywhere(a: CircleDrawer) -> bool {
    forall|x: u32, y: u32, z: u32|
        x <= CANVAS_SIZE && y <= CANVAS_SIZE && z <= CANVAS_SIZE ==> fits(
            a.circles@,
            #[trigger] candidate(a, x, y, z),
        )
}

/// `b` is `a` after the spawn of one step: nothing when no spawn is due, else
/// one candidate that fits placed inside the domain (axes beyond the
/// dimensionality at the midpoint), or an emergency stop, which cannot happen
/// where every position has room and identifiers remain
/// that moves the clock to its end.
pub open spec fn spawned(a: CircleDrawer, b: CircleDrawer) -> bool {
    if time_up(a) || !second_boundary(a) {
        b == a
    } else {
        (!(room_everywhere(a) && a.next_circle_id < u64::MAX) && b == CircleDrawer {
            clock: target_ticks(a) as u64,
            ..a
        }) || exists|x: u32, y: u32, z: u32|
            x <= CANVAS_SIZE && y <= CANVAS_SIZE && z <= CANVAS_SIZE && (!has_y(a.dimensions) ==> y
                == CANVAS_SIZE / 2) && (!has_z(a.dimensions) ==> z == CANVAS_SIZE / 2) && fits(
                a.circles@,
                candidate(a, x, y, z),
            ) && #[trigger] placed(a, b, x, y, z)
    }
}

/// `b` is `a` after the growth, resolution and sampling of one step; the
/// series and the growth flag are read from the resolved collection.
pub open spec fn advanced(a: CircleDrawer, b: CircleDrawer) -> bool {
    let g = grown_all(a.circles@, tick_growth(a.speed, a.iter_per_sec, a.clock));
    let sample = second_boundary(a);
    &&& same_config(a, b)
    &&& b.clock == a.clock && b.next_circle_id == a.next_circle_id
    &&& b.circles@ == resolved(g, a.is_bounded, a.is_hungry, a.neighbour_limit)
    &&& b.is_still_growing == (active_count(b.circles@) > 0)
    &&& b.data_s@ == if sample && a.should_gen_s {
        a.data_s@.push(capped(total_size(b.circles@, a.dimensions)))
    } else {
        a.data_s@
    }
    &&& b.data_n@ == if sample && a.should_gen_n {
        a.data_n@.push(active_count(b.circles@) as usize)
    } else {
        a.data_n@
    }
    &&& b.data_t@ == if sample && a.should_gen_t {
        snapshot(a.data_t@, b.circles@)
    } else {
        a.data_t@
    }
}

fn grow_all(circles: &mut Vec<Circle>, g: u32)
    ensures
        final(circles)@ == grown_all(old(circles)@, g),
{
    let ghost s = circles@;
    let mut k: usize = 0;
    while k < circles.len()
        invariant
            circles@.len() == s.len(),
            k <= s.len(),
            forall|m: int| 0 <= m < k ==> #[trigger] circles@[m] == aged(grown(s[m], g), 1),
            forall|m: int| k <= m < s.len() ==> #[trigger] circles@[m] == s[m],
        decreases s.len() - k,
    {
        let mut c = circles[k];
        c.grow(g);
        c.grow_older(1);
        circles.set(k, c);
        k = k + 1;
    }
    assert(circles@ =~= grown_all(s, g));
}

fn count_active(circles: &Vec<Circle>) -> (n: usize)
    ensures
        n == active_count(circles@),
{
    let mut n: usize = 0;
    let mut k: usize = 0;
    while k < circles.len()
        invariant
            k <= circles@.len(),
            n == active_count(circles@.take(k as int)),
            n <= k,
        decreases circles@.len() - k,
    {
        assert(circles@.take(k + 1).drop_last() =~= circles@.take(k as int));
        if circles[k].is_active {
            n = n + 1;
        }
        k = k + 1;
    }
    assert(circles@.take(k as int) =~= circles@);
    n
}

proof fn lemma_size_base_nonneg(r: int, dims: Dimensions)
    requires
        r >= 0,
    ensures
        size_base(r, dims) >= 0,
{
    assert(r * r >= 0) by (nonlinear_arith)
        requires
            r >= 0,
    ;
    assert(r * r * r >= 0) by (nonlinear_arith)
        requires
            r >= 0,
    ;
}

proof fn lemma_total_size_nonneg(s: Seq<Circle>, dims: Dimensions)
    ensures
        total_size(s, dims) >= 0,
    decreases s.len(),
{
    if s.len() > 0 {
        lemma_total_size_nonneg(s.drop_last(), dims);
        lemma_size_base_nonneg(s.last().r as int, dims);
    }
}

/// Sum of the particles' sizes, saturating at `u128::MAX`.
fn sum_sizes(circles: &Vec<Circle>, dims: Dimensions) -> (t: u128)
    ensures
        t == capped(total_size(circles@, dims)),
{
    let mut t: u128 = 0;
    let mut k: usize = 0;
    while k < circles.len()
        invariant
            k <= circles@.len(),
            t == capped(total_size(circles@.take(k as int), dims)),
        decreases circles@.len() - k,
    {
        assert(circles@.take(k + 1).drop_last() =~= circles@.take(k as int));
        proof {
            lemma_total_size_nonneg(circles@.take(k as int), dims);
        }
        let m = circles[k].size_in(dims);
        if t > u128::MAX - m.base {
            t = u128::MAX;
        } else {
            t = t + m.base;
        }
        k = k + 1;
    }
    assert(circles@.take(k as int) =~= circles@);
    t
}

fn record_lifetimes(table: &mut Vec<u64>, circles: &Vec<Circle>)
    ensures
        final(table)@ == snapshot(old(table)@, circles@),
{
    let ghost t0 = table@;
    let mut k: usize = 0;
    while k < circles.len()
        invariant
            k <= circles@.len(),
            table@ == snapshot(t0, circles@.take(k as int)),
        decreases circles@.len() - k,
    {
        assert(circles@.take(k + 1).drop_last() =~= circles@.take(k as int));
        let c = circles[k];
        if c.id < table.len() as u64 {
            table.set(c.id as usize, c.life_length);
        }
        k = k + 1;
    }
    assert(circles@.take(k as int) =~= circles@);
}

fn clear_all_neighbours(circles: &mut Vec<Circle>)
    ensures
        final(circles)@ == cleared(old(circles)@),
{
    let ghost s = circles@;
    let mut k: usize = 0;
    while k < circles.len()
        invariant
            circles@.len() == s.len(),
            k <= s.len(),
            forall|m: int| 0 <= m < k ==> #[trigger] circles@[m] == (Circle { n_neighbours: 0, ..s[m] }),
            forall|m: int| k <= m < s.len() ==> #[trigger] circles@[m] == s[m],
        decreases s.len() - k,
    {
        let mut c = circles[k];
        c.clear_neighbours();
        circles.set(k, c);
        k = k + 1;
    }
    assert(circles@ =~= cleared(s));
}

/// The clock one tick later; it stops at its largest value.
pub open spec fn next_clock(c: u64) -> u64 {
    if c == u64::MAX { c } else { (c + 1) as u64 }
}

/// `d` after its clock has ticked.
pub open spec fn ticked(d: CircleDrawer) -> CircleDrawer {
    CircleDrawer { clock: next_clock(d.clock), ..d }
}

impl CircleDrawer {
    /// Ticks come at least once per second, every identifier present was given
    /// out already, and no two particles share one.
    pub open spec fn wf(&self) -> bool {
        &&& self.iter_per_sec >= 1
        &&& forall|k: int| 0 <= k < self.circles@.len() ==> #[trigger] self.circles@[k].id < self.next_circle_id
        &&& distinct_ids(self.circles@)
    }

    /// An empty simulation with the initial configuration: 2-D, one tick per
    /// second, unbounded, default collision policy, no series recorded.
    pub fn new() -> (d: CircleDrawer)
        ensures
            d.wf(),
            d.circles@.len() == 0,
            d.speed == INITIAL_SPEED,
            d.time == INITIAL_TIME,
            d.clock == 0,
            d.iter_per_sec == 1,
            d.next_circle_id == 0,
            !d.is_still_growing,
            !d.is_bounded,
            !d.should_wait_until_end,
            !d.is_hungry,
            d.neighbour_limit == INITIAL_NEIGHBOUR_LIMIT,
            !d.should_gen_s && !d.should_gen_n && !d.should_gen_t,
            d.dimensions == Dimensions::Two,
            !d.use_z_alpha,
            d.data_s@.len() == 0 && d.data_n@.len() == 0 && d.data_t@.len() == 0,
    {
        CircleDrawer {
            circles: Vec::new(),
            speed: INITIAL_SPEED,
            time: INITIAL_TIME,
            clock: 0,
            iter_per_sec: 1,
            next_circle_id: 0,
            is_still_growing: false,
            is_bounded: false,
            should_wait_until_end: false,
            is_hungry: false,
            neighbour_limit: INITIAL_NEIGHBOUR_LIMIT,
            should_gen_s: false,
            should_gen_n: false,
            should_gen_t: false,
            dimensions: Dimensions::Two,
            use_z_alpha: false,
            data_s: Vec::new(),
            data_n: Vec::new(),
            data_t: Vec::new(),
        }
    }

    /// Back to the start: no particles, no series, clock and identifiers at 0.
    /// The configuration stays.
    pub fn clear(&mut self)
        requires
            old(self).wf(),
        ensures
            final(self).wf(),
            same_config(*old(self), *final(self)),
            final(self).circles@.len() == 0,
            !final(self).is_still_growing,
            final(self).data_s@.len() == 0,
            final(self).data_n@.len() == 0,
            final(self).data_t@.len() == 0,
            final(self).clock == 0,
            final(self).next_circle_id == 0,
    {
        self.circles.clear();
        self.is_still_growing = false;
        self.data_s.clear();
        self.data_n.clear();
        self.data_t.clear();
        self.clock = 0;
        self.next_circle_id = 0;
    }

    pub fn set_speed(&mut self, speed: u32)
        ensures
            *final(self) == (CircleDrawer { speed, ..*old(self) }),
    {
        self.speed = speed;
    }

    /// Sets the target duration in seconds, which starts a run.
    pub fn set_time(&mut self, time: u32)
        ensures
            *final(self) == (CircleDrawer { time, is_still_growing: true, ..*old(self) }),
    {
        self.time = time;
        self.is_still_growing = true;
    }

    pub fn set_iter_per_sec(&mut self, value: u32)
        requires
            value >= 1,
        ensures
            *final(self) == (CircleDrawer { iter_per_sec: value, ..*old(self) }),
    {
        self.iter_per_sec = value;
    }

    pub fn set_bounded(&mut self, bounded: bool)
        ensures
            *final(self) == (CircleDrawer { is_bounded: bounded, ..*old(self) }),
    {
        self.is_bounded = bounded;
    }

    pub fn set_should_wait_until_end(&mut self, value: bool)
        ensures
            *final(self) == (CircleDrawer { should_wait_until_end: value, ..*old(self) }),
    {
        self.should_wait_until_end = value;
    }

    /// Sets the dimensionality; anything but 1, 2 or 3 is refused and changes
    /// nothing.
    pub fn set_dimensions(&mut self, value: i32) -> (r: Result<(), InvalidDimension>)
        ensures
            match dimensions_of(value) {
                Some(d) => r is Ok && *final(self) == (CircleDrawer { dimensions: d, ..*old(self) }),
                None => r == Err::<(), InvalidDimension>(InvalidDimension { value })
                    && *final(self) == *old(self),
            },
    {
        match Dimensions::from_i32(value) {
            Ok(d) => {
                self.dimensions = d;
                Ok(())
            },
            Err(e) => Err(e),
        }
    }

    pub fn set_use_z_alpha(&mut self, value: bool)
        ensures
            *final(self) == (CircleDrawer { use_z_alpha: value, ..*old(self) }),
    {
        self.use_z_alpha = value;
    }

    #[allow(non_snake_case)]
    pub fn set_gen_S(&mut self, value: bool)
        ensures
            *final(self) == (CircleDrawer { should_gen_s: value, ..*old(self) }),
    {
        self.should_gen_s = value;
    }

    #[allow(non_snake_case)]
    pub fn set_gen_N(&mut self, value: bool)
        ensures
            *final(self) == (CircleDrawer { should_gen_n: value, ..*old(self) }),
    {
        self.should_gen_n = value;
    }

    #[allow(non_snake_case)]
    pub fn set_gen_T(&mut self, value: bool)
        ensures
            *final(self) == (CircleDrawer { should_gen_t: value, ..*old(self) }),
    {
        self.should_gen_t = value;
    }

    pub fn set_hungry(&mut self, value: bool)
        ensures
            *final(self) == (CircleDrawer { is_hungry: value, ..*old(self) }),
    {
        self.is_hungry = value;
    }

    pub fn set_neighbour_limit(&mut self, value: usize)
        ensures
            *final(self) == (CircleDrawer { neighbour_limit: value, ..*old(self) }),
    {
        self.neighbour_limit = value;
    }

    /// Sum of sizes per sampled second.
    #[allow(non_snake_case)]
    pub fn get_data_S(&self) -> (r: &Vec<u128>)
        ensures
            r@ == self.data_s@,
    {
        &self.data_s
    }

    /// Active count per sampled second.
    #[allow(non_snake_case)]
    pub fn get_data_N(&self) -> (r: &Vec<usize>)
        ensures
            r@ == self.data_n@,
    {
        &self.data_n
    }

    /// Lifetime in ticks, indexed by identifier.
    #[allow(non_snake_case)]
    pub fn get_data_T(&self) -> (r: &Vec<u64>)
        ensures
            r@ == self.data_t@,
    {
        &self.data_t
    }

    /// The sizes' bases of the particles present, in ascending order.
    pub fn get_data_size_distrib(&self) -> (r: Vec<u128>)
        ensures
            r@.len() == self.circles@.len(),
            r@.to_multiset() == Seq::new(
                self.circles@.len(),
                |k: int| size_base(self.circles@[k].r as int, self.dimensions) as u128,
            ).to_multiset(),
            forall|i: int, j: int| 0 <= i <= j < r@.len() ==> r@[i] <= r@[j],
    {
        let mut sizes: Vec<u128> = Vec::new();
        let mut k: usize = 0;
        while k < self.circles.len()
            invariant
                k <= self.circles@.len(),
                sizes@ =~= Seq::new(
                    k as nat,
                    |m: int| size_base(self.circles@[m].r as int, self.dimensions) as u128,
                ),
            decreases self.circles@.len() - k,
        {
            let m = self.circles[k].size_in(self.dimensions);
            sizes.push(m.base);
            k = k + 1;
        }
        let ghost before = sizes@;
        sort_ascending(&mut sizes);
        proof {
            before.to_multiset_ensures();
            sizes@.to_multiset_ensures();
        }
        assert(sizes@.len() == before.len());
        sizes
    }

    /// Length of the run in ticks.
    fn target_ticks(&self) -> (t: u64)
        ensures
            t == target_ticks(*self),
    {
        assert(self.time * self.iter_per_sec <= 0xffff_ffffu64 * 0xffff_ffffu64) by (nonlinear_arith)
            requires
                self.time <= 0xffff_ffffu64,
                self.iter_per_sec <= 0xffff_ffffu64,
        ;
        self.time as u64 * self.iter_per_sec as u64
    }

    pub fn is_time_passed(&self) -> (r: bool)
        ensures
            r == time_up(*self),
    {
        self.clock >= self.target_ticks()
    }

    pub fn tick(&mut self)
        ensures
            *final(self) == ticked(*old(self)),
    {
        if self.clock < u64::MAX {
            self.clock = self.clock + 1;
        }
    }

    /// Time is up and, where the run waits for the last growth, nothing grows.
    pub fn is_finished(&self) -> (r: bool)
        ensures
            r == finished(*self),
    {
        self.is_time_passed() && !(self.should_wait_until_end && self.is_still_growing)
    }

    fn emergency_stop(&mut self)
        ensures
            *final(self) == (CircleDrawer { clock: target_ticks(*old(self)) as u64, ..*old(self) }),
    {
        self.clock = self.target_ticks();
    }

    /// The clock stands on a whole second.
    pub fn is_second_finished(&self) -> (r: bool)
        requires
            self.iter_per_sec >= 1,
        ensures
            r == second_boundary(*self),
    {
        self.clock % (self.iter_per_sec as u64) == 0
    }

    fn has_y(&self) -> (r: bool)
        ensures
            r == has_y(self.dimensions),
    {
        match self.dimensions {
            Dimensions::One => false,
            _ => true,
        }
    }

    fn has_z(&self) -> (r: bool)
        ensures
            r == has_z(self.dimensions),
    {
        match self.dimensions {
            Dimensions::Three => true,
            _ => false,
        }
    }

    /// Whether `circle` touches no particle present.
    pub fn can_put_circle(&self, circle: &Circle) -> (r: bool)
        ensures
            r == fits(self.circles@, *circle),
    {
        let mut k: usize = 0;
        while k < self.circles.len()
            invariant
                k <= self.circles@.len(),
                forall|m: int| 0 <= m < k ==> !touches(#[trigger] self.circles@[m], *circle),
            decreases self.circles@.len() - k,
        {
            if self.circles[k].intersects(circle) {
                return false;
            }
            k = k + 1;
        }
        true
    }

    /// Places a fresh particle of radius 0 at `(x, y, z)` if it touches no
    /// particle present (and identifiers are not exhausted); says whether it did.
    /// In 3-D the collection stays ordered by non-increasing depth.
    pub fn put_circle_at(&mut self, x: u32, y: u32, z: u32) -> (r: bool)
        requires
            old(self).wf(),
        ensures
            final(self).wf(),
            r == (old(self).next_circle_id < u64::MAX && fits(old(self).circles@, candidate(*old(self), x, y, z))),
            r ==> placed(*old(self), *final(self), x, y, z),
            !r ==> *final(self) == *old(self),
    {
        if self.next_circle_id == u64::MAX {
            return false;
        }
        let circle = Circle::new(self.next_circle_id, x, y, z, 0);
        if !self.can_put_circle(&circle) {
            return false;
        }
        let ghost s = self.circles@;
        let ghost before = *self;
        let mut index: usize = self.circles.len();
        if self.has_z() {
            index = 0;
            while index < self.circles.len() && self.circles[index].z >= circle.z
                invariant
                    index <= self.circles@.len(),
                    self.circles@ == s,
                    circle.z == z,
                    forall|k: int| 0 <= k < index ==> #[trigger] s[k].z >= z,
                decreases self.circles@.len() - index,
            {
                assert(s[index as int].z >= z);
                index = index + 1;
            }
        }
        self.circles.insert(index, circle);
        if self.should_gen_t {
            self.data_t.push(0);
        }
        self.next_circle_id = self.next_circle_id + 1;
        assert(self.circles@ == s.insert(index as int, candidate(before, x, y, z)));
        assert forall|k: int| 0 <= k < self.circles@.len() implies #[trigger] self.circles@[k].id
            < self.next_circle_id by {
            if k < index {
                assert(self.circles@[k] == s[k]);
            } else if k > index {
                assert(self.circles@[k] == s[k - 1]);
            }
        }
        assert forall|p: int, q: int| 0 <= p < q < self.circles@.len() implies #[trigger] self.circles@[p].id
            != #[trigger] self.circles@[q].id by {
            if q < index {
            } else if q == index {
                assert(self.circles@[p] == s[p]);
            } else if p < index {
                assert(self.circles@[q] == s[q - 1]);
                assert(self.circles@[p] == s[p]);
            } else if p == index {
                assert(self.circles@[q] == s[q - 1]);
            } else {
                assert(self.circles@[q] == s[q - 1]);
                assert(self.circles@[p] == s[p - 1]);
            }
        }
        true
    }

    /// The spawn of one step: when a second has ended and time is not up, draws
    /// up to `PLACEMENT_ATTEMPTS` random positions (axes beyond the
    /// dimensionality at the midpoint) and places the first that fits; if none
    /// fits, stops the run by moving the clock to its end.
    fn spawn(&mut self)
        requires
            old(self).wf(),
        ensures
            final(self).wf(),
            spawned(*old(self), *final(self)),
    {
        if self.is_time_passed() || !self.is_second_finished() {
            return;
        }
        let ghost start = *self;
        let mut attempts: u32 = 0;
        while attempts < PLACEMENT_ATTEMPTS
            invariant
                *self == start,
                start == *old(self),
                attempts > 0 ==> !(room_everywhere(start) && start.next_circle_id < u64::MAX),
                start.wf(),
                !time_up(start),
                second_boundary(start),
            decreases PLACEMENT_ATTEMPTS - attempts,
        {
            let x = random_coordinate(CANVAS_SIZE);
            let y = if self.has_y() {
                random_coordinate(CANVAS_SIZE)
            } else {
                CANVAS_SIZE / 2
            };
            let z = if self.has_z() {
                random_coordinate(CANVAS_SIZE)
            } else {
                CANVAS_SIZE / 2
            };
            if self.put_circle_at(x, y, z) {
                assert(x <= CANVAS_SIZE && y <= CANVAS_SIZE && z <= CANVAS_SIZE && fits(
                    start.circles@,
                    candidate(start, x, y, z),
                ) && placed(start, *self, x, y, z));
                assert(spawned(start, *self));
                return;
            }
            attempts = attempts + 1;
        }
        self.emergency_stop();
    }

    /// How far an active particle grows in the tick that just ended.
    fn tick_growth(&self) -> (g: u32)
        requires
            self.iter_per_sec >= 1,
        ensures
            g == tick_growth(self.speed, self.iter_per_sec, self.clock),
    {
        if self.clock == 0 {
            return 0;
        }
        let speed = self.speed as u128;
        let sps = self.iter_per_sec as u128;
        let t = self.clock as u128;
        assert(speed * t <= 0xffff_ffffu128 * 0xffff_ffff_ffff_ffffu128) by (nonlinear_arith)
            requires
                speed <= 0xffff_ffffu128,
                t <= 0xffff_ffff_ffff_ffffu128,
        ;
        assert(speed * (t - 1) <= speed * t) by (nonlinear_arith)
            requires
                t >= 1,
                speed >= 0,
        ;
        let a = speed * t / sps;
        let b = speed * (t - 1) / sps;
        proof {
            lemma_div_is_ordered(speed * (t - 1), speed * t, sps as int);
        }
        let d = a - b;
        if d > u32::MAX as u128 {
            u32::MAX
        } else {
            d as u32
        }
    }

    /// Collision resolution under the configured policy.
    fn resolve_collisions(&mut self)
        ensures
            *final(self) == (CircleDrawer { circles: final(self).circles, ..*old(self) }),
            final(self).circles@ == resolved(
                old(self).circles@,
                old(self).is_bounded,
                old(self).is_hungry,
                old(self).neighbour_limit,
            ),
    {
        let ghost s = self.circles@;
        if self.is_hungry {
            clear_all_neighbours(&mut self.circles);
            resolve_pairs(&mut self.circles, CANVAS_SIZE, self.is_bounded, true);
            assert(self.circles@ =~= scan_all(cleared(s), self.is_bounded, true));
            settle_jammed(&mut self.circles, self.neighbour_limit);
        } else {
            resolve_pairs(&mut self.circles, CANVAS_SIZE, self.is_bounded, false);
            assert(self.circles@ =~= scan_all(s, self.is_bounded, false));
        }
    }

    /// One step after the spawn: every particle grows and ages by a tick,
    /// collisions are resolved, and on a whole second the series are sampled.
    pub fn advance(&mut self)
        requires
            old(self).wf(),
        ensures
            final(self).wf(),
            advanced(*old(self), *final(self)),
    {
        let g = self.tick_growth();
        grow_all(&mut self.circles, g);
        let ghost grown = self.circles@;
        self.resolve_collisions();
        proof {
            let limit = self.neighbour_limit;
            if self.is_hungry {
                let u = scan_all(cleared(grown), self.is_bounded, true);
                lemma_settle_origin(u, limit);
                assert(distinct_ids(u));
                lemma_settle_distinct(u, limit);
                assert forall|k: int| 0 <= k < self.circles@.len() implies #[trigger] self.circles@[k].id
                    < self.next_circle_id by {
                    assert(comes_from(settle(u, limit)[k], u));
                }
            }
        }
        let n_active = count_active(&self.circles);
        self.is_still_growing = n_active > 0;
        if self.is_second_finished() {
            if self.should_gen_s {
                let total = sum_sizes(&self.circles, self.dimensions);
                self.data_s.push(total);
            }
            if self.should_gen_n {
                self.data_n.push(n_active);
            }
            if self.should_gen_t {
                record_lifetimes(&mut self.data_t, &self.circles);
            }
        }
    }

    /// One step of the simulation: the clock ticks; unless the run is finished,
    /// a particle may spawn, then growth, collision resolution and sampling
    /// follow.
    pub fn draw(&mut self)
        requires
            old(self).wf(),
        ensures
            final(self).wf(),
            finished(ticked(*old(self))) ==> *final(self) == ticked(*old(self)),
            !finished(ticked(*old(self))) ==> exists|m: CircleDrawer|
                spawned(ticked(*old(self)), m) && #[trigger] advanced(m, *final(self)),
    {
        self.tick();
        if self.is_finished() {
            return;
        }
        self.spawn();
        let ghost m = *self;
        self.advance();
        assert(advanced(m, *self));
    }
}

/// `c` is particle `q` of `s` at the same place, never smaller, and of the same
/// radius if `q` was inactive.
pub open spec fn grew_from(c: Circle, s: Seq<Circle>, q: int) -> bool {
    &&& 0 <= q < s.len()
    &&& c.id == s[q].id && c.x == s[q].x && c.y == s[q].y && c.z == s[q].z
    &&& c.r >= s[q].r
    &&& !s[q].is_active ==> c.r == s[q].r
}

/// `c` grew from some particle of `s`.
pub open spec fn has_origin(c: Circle, s: Seq<Circle>) -> bool {
    exists|q: int| #[trigger] grew_from(c, s, q)
}

/// Over a step, every particle keeps its place, and its radius never shrinks;
/// a particle that was inactive keeps its radius.
pub proof fn lemma_radius_monotone(a: CircleDrawer, b: CircleDrawer)
    requires
        advanced(a, b),
    ensures
        forall|k: int| 0 <= k < b.circles@.len() ==> has_origin(#[trigger] b.circles@[k], a.circles@),
{
    let s = a.circles@;
    let g = grown_all(s, tick_growth(a.speed, a.iter_per_sec, a.clock));
    if a.is_hungry {
        let u = scan_all(cleared(g), a.is_bounded, true);
        lemma_settle_origin(u, a.neighbour_limit);
        assert forall|k: int| 0 <= k < b.circles@.len() implies has_origin(#[trigger] b.circles@[k], a.circles@) by {
            assert(comes_from(settle(u, a.neighbour_limit)[k], u));
            let q = choose|q: int| 0 <= q < u.len() && (b.circles@[k] == u[q] || b.circles@[k] == activated(u[q]));
            assert(grew_from(b.circles@[k], a.circles@, q));
        }
    } else {
        assert forall|k: int| 0 <= k < b.circles@.len() implies has_origin(#[trigger] b.circles@[k], a.circles@) by {
            assert(grew_from(b.circles@[k], a.circles@, k));
        }
    }
}

/// Under the default policy a step keeps every particle, leaves no two touching
/// particles active, and never reactivates one.
pub proof fn lemma_default_step(a: CircleDrawer, b: CircleDrawer)
    requires
        advanced(a, b),
        !a.is_hungry,
    ensures
        b.circles@.len() == a.circles@.len(),
        forall|i: int, j: int|
            0 <= i < b.circles@.len() && 0 <= j < b.circles@.len() && i != j && touches(
                #[trigger] b.circles@[i],
                #[trigger] b.circles@[j],
            ) ==> !b.circles@[i].is_active && !b.circles@[j].is_active,
        forall|k: int| 0 <= k < a.circles@.len() && !(#[trigger] a.circles@[k]).is_active ==> !b.circles@[k].is_active,
{
    let g = grown_all(a.circles@, tick_growth(a.speed, a.iter_per_sec, a.clock));
    assert forall|i: int, j: int|
        0 <= i < b.circles@.len() && 0 <= j < b.circles@.len() && i != j && touches(
            #[trigger] b.circles@[i],
            #[trigger] b.circles@[j],
        ) implies !b.circles@[i].is_active && !b.circles@[j].is_active by {
        assert(touches(g[i], g[j]));
        lemma_touching_pair_deactivated(g, i, j, CANVAS_SIZE, a.is_bounded, false);
    }
}

/// Over a whole step of `draw`, every particle present afterwards is either
/// the one just spawned, or was present before, at the same place, at least as
/// large, and exactly as large if it was inactive.
pub proof fn lemma_step_radius_monotone(a: CircleDrawer, m: CircleDrawer, b: CircleDrawer)
    requires
        spawned(a, m),
        advanced(m, b),
    ensures
        forall|k: int|
            0 <= k < b.circles@.len() ==> has_origin(#[trigger] b.circles@[k], a.circles@)
                || b.circles@[k].id == a.next_circle_id,
{
    lemma_radius_monotone(m, b);
    if a.circles@ != m.circles@ {
        let (x, y, z) = choose|x: u32, y: u32, z: u32|
            x <= CANVAS_SIZE && y <= CANVAS_SIZE && z <= CANVAS_SIZE && fits(
                a.circles@,
                candidate(a, x, y, z),
            ) && #[trigger] placed(a, m, x, y, z);
        let c = candidate(a, x, y, z);
        let i = choose|i: int|
            0 <= i <= a.circles@.len() && m.circles@ == a.circles@.insert(i, c) && (!has_z(
                a.dimensions,
            ) ==> i == a.circles@.len());
        assert forall|k: int| 0 <= k < b.circles@.len() implies has_origin(
            #[trigger] b.circles@[k],
            a.circles@,
        ) || b.circles@[k].id == a.next_circle_id by {
            assert(has_origin(b.circles@[k], m.circles@));
            let q = choose|q: int| #[trigger] grew_from(b.circles@[k], m.circles@, q);
            if q < i {
                assert(grew_from(b.circles@[k], a.circles@, q));
            } else if q > i {
                assert(grew_from(b.circles@[k], a.circles@, q - 1));
            }
        }
    }
}

/// Under the default policy, a particle that is inactive before a step of
/// `draw` is still present after it, entirely unchanged: deactivation lasts.
pub proof fn lemma_inactive_persists(a: CircleDrawer, m: CircleDrawer, b: CircleDrawer)
    requires
        spawned(a, m),
        advanced(m, b),
        !a.is_hungry,
    ensures
        forall|q: int|
            0 <= q < a.circles@.len() && !(#[trigger] a.circles@[q]).is_active ==> b.circles@.contains(
                a.circles@[q],
            ),
{
    let g = grown_all(m.circles@, tick_growth(m.speed, m.iter_per_sec, m.clock));
    assert forall|q: int|
        0 <= q < a.circles@.len() && !(#[trigger] a.circles@[q]).is_active implies b.circles@.contains(
            a.circles@[q],
        ) by {
        let k = if a.circles@ == m.circles@ {
            q
        } else {
            let (x, y, z) = choose|x: u32, y: u32, z: u32|
                x <= CANVAS_SIZE && y <= CANVAS_SIZE && z <= CANVAS_SIZE && (!has_y(a.dimensions) ==> y
                    == CANVAS_SIZE / 2) && (!has_z(a.dimensions) ==> z == CANVAS_SIZE / 2) && fits(
                    a.circles@,
                    candidate(a, x, y, z),
                ) && #[trigger] placed(a, m, x, y, z);
            let c = candidate(a, x, y, z);
            let i = choose|i: int|
                0 <= i <= a.circles@.len() && m.circles@ == a.circles@.insert(i, c) && (!has_z(
                    a.dimensions,
                ) ==> i == a.circles@.len()) && (has_z(a.dimensions) ==> (forall|k: int|
                    0 <= k < i ==> #[trigger] a.circles@[k].z >= z) && (i < a.circles@.len()
                    ==> a.circles@[i].z < z));
            if q < i {
                q
            } else {
                q + 1
            }
        };
        assert(m.circles@[k] == a.circles@[q]);
        assert(g[k] == a.circles@[q]);
        assert(b.circles@[k] == scanned(g, k, CANVAS_SIZE, m.is_bounded, false));
        assert(b.circles@[k] == a.circles@[q]);
    }
}

proof fn lemma_cleared_touch_count(s: Seq<Circle>, k: int, n: int)
    requires
        0 <= k < s.len(),
        n <= s.len(),
    ensures
        touch_count(cleared(s), k, n) == touch_count(s, k, n),
    decreases n,
{
    if n > 0 {
        lemma_cleared_touch_count(s, k, n - 1);
    }
}

/// The step's collection after growth, before resolution.
pub open spec fn grown_of(a: CircleDrawer) -> Seq<Circle> {
    grown_all(a.circles@, tick_growth(a.speed, a.iter_per_sec, a.clock))
}

/// Under the hungry policy, after a step each particle's neighbour count is the
/// number of particles it touched in the grown collection and is below the
/// limit, every particle left with no neighbour is active, and every particle
/// that touched `neighbour_limit` others or more is gone.
pub proof fn lemma_hungry_step(a: CircleDrawer, b: CircleDrawer)
    requires
        advanced(a, b),
        a.is_hungry,
        a.wf(),
        a.circles@.len() <= usize::MAX,
    ensures
        forall|k: int|
            #![trigger b.circles@[k]]
            0 <= k < b.circles@.len() ==> exists|q: int|
                0 <= q < grown_of(a).len() && b.circles@[k].id == grown_of(a)[q].id
                    && b.circles@[k].n_neighbours == #[trigger] neighbours(grown_of(a), q),
        forall|k: int| 0 <= k < b.circles@.len() ==> (#[trigger] b.circles@[k]).n_neighbours < a.neighbour_limit,
        forall|k: int|
            0 <= k < b.circles@.len() && (#[trigger] b.circles@[k]).n_neighbours == 0 ==> b.circles@[k].is_active,
        forall|q: int, k: int|
            0 <= q < grown_of(a).len() && neighbours(grown_of(a), q) >= a.neighbour_limit && 0 <= k
                < b.circles@.len() ==> #[trigger] b.circles@[k].id != #[trigger] grown_of(a)[q].id,
{
    let g = grown_of(a);
    let limit = a.neighbour_limit;
    let u = scan_all(cleared(g), a.is_bounded, true);
    lemma_settle_outcome(u, limit);
    lemma_settle_origin(u, limit);
    assert forall|q: int| 0 <= q < g.len() implies #[trigger] u[q].n_neighbours == neighbours(g, q)
        && u[q].id == g[q].id by {
        lemma_cleared_touch_count(g, q, g.len() as int);
        lemma_touch_count_bound(g, q, g.len() as int);
    }
    assert forall|k: int|
        #![trigger b.circles@[k]]
        0 <= k < b.circles@.len() implies exists|q: int|
            0 <= q < g.len() && b.circles@[k].id == g[q].id && b.circles@[k].n_neighbours
                == #[trigger] neighbours(g, q) by {
        assert(comes_from(settle(u, limit)[k], u));
        let q = choose|q: int| 0 <= q < u.len() && (b.circles@[k] == u[q] || b.circles@[k] == activated(u[q]));
        assert(u[q].n_neighbours == neighbours(g, q));
    }
    assert forall|q: int, k: int|
        0 <= q < g.len() && neighbours(g, q) >= limit && 0 <= k < b.circles@.len() implies #[trigger] b.circles@[k].id
        != #[trigger] g[q].id by {
        assert(comes_from(settle(u, limit)[k], u));
        let p = choose|p: int| 0 <= p < u.len() && (b.circles@[k] == u[p] || b.circles@[k] == activated(u[p]));
        assert(u[p].n_neighbours == neighbours(g, p));
        assert(u[q].n_neighbours == neighbours(g, q));
        if p != q {
            assert(g[p].id == a.circles@[p].id);
            assert(g[q].id == a.circles@[q].id);
            assert(a.circles@[p].id != a.circles@[q].id);
        }
    }
}

} // verus!
