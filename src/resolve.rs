use vstd::prelude::*;
use crate::circle::{activated, exits, gap, touches, Circle};

verus! {

/// How many particles among `s[0..n]`, other than `s[k]`, touch `s[k]`.
pub open spec fn touch_count(s: Seq<Circle>, k: int, n: int) -> nat
    decreases n,
{
    if n <= 0 {
        0
    } else {
        touch_count(s, k, n - 1) + if n - 1 != k && touches(s[k], s[n - 1]) {
            1nat
        } else {
            0nat
        }
    }
}

/// The number of particles of `s` that touch `s[k]`.
pub open spec fn neighbours(s: Seq<Circle>, k: int) -> nat {
    touch_count(s, k, s.len() as int)
}

/// Particle `k` of `s` after the pairwise scan: it stays active only if it was,
/// it touches no other particle and (when the domain confines) it stays inside
/// the domain. In hungry mode its neighbour count becomes the number of
/// particles that it touches.
pub open spec fn scanned(s: Seq<Circle>, k: int, size: u32, bounded: bool, hungry: bool) -> Circle {
    Circle {
        is_active: s[k].is_active && !(bounded && exits(s[k], size)) && neighbours(s, k) == 0,
        n_neighbours: if hungry {
            neighbours(s, k) as usize
        } else {
            s[k].n_neighbours
        },
        ..s[k]
    }
}

/// The collection after hungry-mode settling: particles with `limit` neighbours
/// or more leave, those with none become active, order is kept.
pub open spec fn settle(s: Seq<Circle>, limit: usize) -> Seq<Circle>
    decreases s.len(),
{
    if s.len() == 0 {
        Seq::empty()
    } else {
        let rest = settle(s.drop_last(), limit);
        let c = s.last();
        if c.n_neighbours >= limit {
            rest
        } else if c.n_neighbours == 0 {
            rest.push(activated(c))
        } else {
            rest.push(c)
        }
    }
}

/// Whether two particles touch does not depend on their order.
pub proof fn lemma_touches_symmetric(a: Circle, b: Circle)
    ensures
        touches(a, b) == touches(b, a),
{
    assert(gap(a.x, b.x) == gap(b.x, a.x));
    assert(gap(a.y, b.y) == gap(b.y, a.y));
    assert(gap(a.z, b.z) == gap(b.z, a.z));
}

pub proof fn lemma_touch_count_bound(s: Seq<Circle>, k: int, n: int)
    ensures
        touch_count(s, k, n) <= if n <= 0 { 0 } else { n },
    decreases n,
{
    if n > 0 {
        lemma_touch_count_bound(s, k, n - 1);
    }
}

proof fn lemma_touch_count_positive(s: Seq<Circle>, k: int, m: int, n: int)
    requires
        0 <= m < n,
        m != k,
        touches(s[k], s[m]),
    ensures
        touch_count(s, k, n) > 0,
    decreases n,
{
    if m < n - 1 {
        lemma_touch_count_positive(s, k, m, n - 1);
    }
}

/// Count of particle `k` when the scan stands at pair `(i, j)`.
spec fn count_at(s: Seq<Circle>, k: int, i: int, j: int) -> nat {
    if k < i {
        touch_count(s, k, s.len() as int)
    } else if k == i {
        touch_count(s, i, j)
    } else if k < j {
        touch_count(s, k, i + 1)
    } else {
        touch_count(s, k, i)
    }
}

/// Particle `k` when the scan stands at pair `(i, j)` and the bounds of the
/// particles before `checked` have been tested.
spec fn state_at(
    s: Seq<Circle>,
    k: int,
    i: int,
    j: int,
    checked: int,
    size: u32,
    bounded: bool,
    hungry: bool,
) -> Circle {
    Circle {
        is_active: s[k].is_active && !(bounded && exits(s[k], size) && k < checked) && count_at(
            s,
            k,
            i,
            j,
        ) == 0,
        n_neighbours: if hungry {
            count_at(s, k, i, j) as usize
        } else {
            s[k].n_neighbours
        },
        ..s[k]
    }
}

/// Pairwise scan over all index pairs `i < j`: touching particles are both
/// deactivated (and in hungry mode both count one more neighbour); with
/// `bounded`, a particle whose extent reaches the domain's edge is deactivated.
///
/// In hungry mode the neighbour counts must have been cleared beforehand.
pub fn resolve_pairs(circles: &mut Vec<Circle>, size: u32, bounded: bool, hungry: bool)
    requires
        hungry ==> forall|k: int| 0 <= k < old(circles)@.len() ==> old(circles)@[k].n_neighbours == 0,
    ensures
        final(circles)@.len() == old(circles)@.len(),
        forall|k: int|
            0 <= k < old(circles)@.len() ==> #[trigger] final(circles)@[k] == scanned(
                old(circles)@,
                k,
                size,
                bounded,
                hungry,
            ),
{
    let ghost s = circles@;
    let n = circles.len();
    let mut i: usize = 0;
    assert forall|k: int| 0 <= k < n implies #[trigger] circles@[k] == state_at(
        s,
        k,
        0,
        1,
        0,
        size,
        bounded,
        hungry,
    ) by {
        assert(touch_count(s, k, 0) == 0);
        if k == 0 {
            assert(touch_count(s, k, 1) == 0);
        }
    }
    while i < n
        invariant
            n == s.len(),
            circles@.len() == n,
            i <= n,
            hungry ==> forall|k: int| 0 <= k < s.len() ==> s[k].n_neighbours == 0,
            forall|k: int|
                0 <= k < n ==> #[trigger] circles@[k] == state_at(
                    s,
                    k,
                    i as int,
                    i + 1,
                    i as int,
                    size,
                    bounded,
                    hungry,
                ),
        decreases n - i,
    {
        if bounded && circles[i].out_of_bounds(size) {
            let mut c = circles[i];
            c.deactivate();
            circles.set(i, c);
        }
        assert forall|k: int| 0 <= k < n implies #[trigger] circles@[k] == state_at(
            s,
            k,
            i as int,
            i + 1,
            i + 1,
            size,
            bounded,
            hungry,
        ) by {
            if k == i {
                assert(touch_count(s, k, i + 1) == touch_count(s, k, i as int));
            }
        }
        let mut j: usize = i + 1;
        while j < n
            invariant
                n == s.len(),
                circles@.len() == n,
                i < n,
                i < j <= n,
                hungry ==> forall|k: int| 0 <= k < s.len() ==> s[k].n_neighbours == 0,
                forall|k: int|
                    0 <= k < n ==> #[trigger] circles@[k] == state_at(
                        s,
                        k,
                        i as int,
                        j as int,
                        i + 1,
                        size,
                        bounded,
                        hungry,
                    ),
            decreases n - j,
        {
            let ghost before = circles@;
            if circles[i].intersects(&circles[j]) {
                proof {
                    lemma_touches_symmetric(s[i as int], s[j as int]);
                    lemma_touch_count_bound(s, i as int, j as int);
                    lemma_touch_count_bound(s, j as int, i as int);
                }
                let mut a = circles[i];
                a.deactivate();
                if hungry {
                    a.add_neighbour();
                }
                circles.set(i, a);
                let mut b = circles[j];
                b.deactivate();
                if hungry {
                    b.add_neighbour();
                }
                circles.set(j, b);
            }
            proof {
                lemma_touches_symmetric(s[i as int], s[j as int]);
            }
            assert forall|k: int| 0 <= k < n implies #[trigger] circles@[k] == state_at(
                s,
                k,
                i as int,
                j + 1,
                i + 1,
                size,
                bounded,
                hungry,
            ) by {
                assert(before[k] == state_at(s, k, i as int, j as int, i + 1, size, bounded, hungry));
            }
            j = j + 1;
        }
        i = i + 1;
    }
}

/// Removes every particle with `limit` neighbours or more and reactivates every
/// particle with none, keeping the order of the others.
pub fn settle_jammed(circles: &mut Vec<Circle>, limit: usize)
    ensures
        final(circles)@ == settle(old(circles)@, limit),
{
    let ghost s = circles@;
    let mut kept: Vec<Circle> = Vec::new();
    let mut k: usize = 0;
    while k < circles.len()
        invariant
            circles@ == s,
            k <= s.len(),
            kept@ == settle(s.take(k as int), limit),
        decreases s.len() - k,
    {
        let c = circles[k];
        assert(s.take(k + 1).drop_last() =~= s.take(k as int));
        if c.is_jammed(limit) {
        } else if c.is_free() {
            let mut a = c;
            a.activate();
            kept.push(a);
        } else {
            kept.push(c);
        }
        k = k + 1;
    }
    assert(s.take(s.len() as int) =~= s);
    *circles = kept;
}

/// `c` is a particle of `s`, possibly reactivated.
pub open spec fn comes_from(c: Circle, s: Seq<Circle>) -> bool {
    exists|m: int| 0 <= m < s.len() && (c == s[m] || c == activated(s[m]))
}

/// Every particle that settling keeps was in the collection before.
pub proof fn lemma_settle_origin(s: Seq<Circle>, limit: usize)
    ensures
        forall|k: int| 0 <= k < settle(s, limit).len() ==> comes_from(#[trigger] settle(s, limit)[k], s),
    decreases s.len(),
{
    if s.len() > 0 {
        let rest = s.drop_last();
        lemma_settle_origin(rest, limit);
        assert forall|k: int| 0 <= k < settle(s, limit).len() implies comes_from(
            #[trigger] settle(s, limit)[k],
            s,
        ) by {
            if k < settle(rest, limit).len() {
                assert(comes_from(settle(rest, limit)[k], rest));
                let m = choose|m: int|
                    0 <= m < rest.len() && (settle(rest, limit)[k] == rest[m] || settle(rest, limit)[k]
                        == activated(rest[m]));
                assert(s[m] == rest[m]);
            } else {
                assert(s[s.len() - 1] == s.last());
            }
        }
    }
}

/// No two particles of `s` share an identifier.
pub open spec fn distinct_ids(s: Seq<Circle>) -> bool {
    forall|i: int, j: int| 0 <= i < j < s.len() ==> #[trigger] s[i].id != #[trigger] s[j].id
}

/// Settling keeps identifiers distinct.
pub proof fn lemma_settle_distinct(s: Seq<Circle>, limit: usize)
    requires
        distinct_ids(s),
    ensures
        distinct_ids(settle(s, limit)),
    decreases s.len(),
{
    if s.len() > 0 {
        let rest = s.drop_last();
        lemma_settle_distinct(rest, limit);
        lemma_settle_origin(rest, limit);
        let r = settle(rest, limit);
        assert forall|k: int| 0 <= k < r.len() implies #[trigger] r[k].id != s.last().id by {
            assert(comes_from(r[k], rest));
            let m = choose|m: int| 0 <= m < rest.len() && (r[k] == rest[m] || r[k] == activated(rest[m]));
            assert(s[m] == rest[m]);
            assert(s[s.len() - 1] == s.last());
        }
    }
}

/// After the scan, two particles that touch are both inactive.
pub proof fn lemma_touching_pair_deactivated(
    s: Seq<Circle>,
    i: int,
    j: int,
    size: u32,
    bounded: bool,
    hungry: bool,
)
    requires
        0 <= i < s.len(),
        0 <= j < s.len(),
        i != j,
        touches(s[i], s[j]),
    ensures
        !scanned(s, i, size, bounded, hungry).is_active,
        !scanned(s, j, size, bounded, hungry).is_active,
{
    lemma_touches_symmetric(s[i], s[j]);
    lemma_touch_count_positive(s, i, j, s.len() as int);
    lemma_touch_count_positive(s, j, i, s.len() as int);
}

/// Settling leaves no particle with `limit` neighbours or more, and every
/// particle left that has no neighbour is active.
pub proof fn lemma_settle_outcome(s: Seq<Circle>, limit: usize)
    ensures
        forall|k: int| 0 <= k < settle(s, limit).len() ==> #[trigger] settle(s, limit)[k].n_neighbours < limit,
        forall|k: int|
            0 <= k < settle(s, limit).len() && #[trigger] settle(s, limit)[k].n_neighbours == 0
                ==> settle(s, limit)[k].is_active,
        settle(s, limit).len() <= s.len(),
    decreases s.len(),
{
    if s.len() > 0 {
        lemma_settle_outcome(s.drop_last(), limit);
    }
}

/// Settling keeps, in order, exactly the particles with fewer than `limit`
/// neighbours: a particle with `limit` or more is absent afterwards.
pub proof fn lemma_settle_removes_jammed(s: Seq<Circle>, limit: usize, c: Circle)
    requires
        c.n_neighbours >= limit,
    ensures
        !settle(s, limit).contains(c),
{
    lemma_settle_outcome(s, limit);
}

/// A particle that settling keeps with no neighbour is active.
pub proof fn lemma_settle_reactivates_free(s: Seq<Circle>, limit: usize, k: int)
    requires
        0 <= k < settle(s, limit).len(),
        settle(s, limit)[k].n_neighbours == 0,
    ensures
        settle(s, limit)[k].is_active,
{
    lemma_settle_outcome(s, limit);
}

} // verus!
