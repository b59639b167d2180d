//! Area-based simplification of closed polygons.

use vstd::prelude::*;
use crate::geography::{PlanarPoint, COORD_LIMIT, points_in_range};

verus! {

/// Twice the area of the triangle `a b c`.
pub open spec fn double_area(a: PlanarPoint, b: PlanarPoint, c: PlanarPoint) -> int {
    let s = a.x * (b.y - c.y) + b.x * (c.y - a.y) + c.x * (a.y - b.y);
    if s < 0 {
        -s
    } else {
        s
    }
}

/// Index before `i` on a cycle of length `n`.
pub open spec fn cyc_prev(i: int, n: int) -> int {
    if i == 0 {
        n - 1
    } else {
        i - 1
    }
}

/// Index after `i` on a cycle of length `n`.
pub open spec fn cyc_next(i: int, n: int) -> int {
    if i + 1 == n {
        0
    } else {
        i + 1
    }
}

/// Twice the area of the triangle that vertex `i` forms with its two
/// neighbours on the closed polygon.
pub open spec fn area_at(p: Seq<PlanarPoint>, i: int) -> int {
    double_area(p[cyc_prev(i, p.len() as int)], p[i], p[cyc_next(i, p.len() as int)])
}

/// The first index, among the first `n`, whose value is smallest.
pub open spec fn first_min_index(a: Seq<int>, n: int) -> int
    decreases n,
{
    if n <= 1 {
        0
    } else {
        let m = first_min_index(a, n - 1);
        if a[n - 1] < a[m] {
            n - 1
        } else {
            m
        }
    }
}

/// The areas at every vertex of the polygon.
pub open spec fn areas_of(p: Seq<PlanarPoint>) -> Seq<int> {
    Seq::new(p.len(), |i: int| area_at(p, i))
}

/// Visvalingam–Whyatt reduction: while more than four points remain, drop the
/// vertex with the smallest area (the first such) unless that area exceeds
/// the threshold.
pub open spec fn simplified(p: Seq<PlanarPoint>, threshold: int) -> Seq<PlanarPoint>
    decreases p.len(),
{
    if p.len() <= 4 {
        p
    } else {
        let i = first_min_index(areas_of(p), p.len() as int);
        if i < 0 || i >= p.len() || areas_of(p)[i] > 2 * threshold {
            p
        } else {
            simplified(p.remove(i), threshold)
        }
    }
}

proof fn lemma_first_min_in_range(a: Seq<int>, n: int)
    requires
        1 <= n,
    ensures
        0 <= first_min_index(a, n) < n,
    decreases n,
{
    if n > 1 {
        lemma_first_min_in_range(a, n - 1);
    }
}

proof fn lemma_range_remove(p: Seq<PlanarPoint>, i: int)
    requires
        points_in_range(p),
        0 <= i < p.len(),
    ensures
        points_in_range(p.remove(i)),
{
    assert forall|j: int| 0 <= j < p.remove(i).len() implies -COORD_LIMIT <= #[trigger] p.remove(
        i,
    )[j].x <= COORD_LIMIT && -COORD_LIMIT <= p.remove(i)[j].y <= COORD_LIMIT by {
        if j < i {
            assert(p.remove(i)[j] == p[j]);
        } else {
            assert(p.remove(i)[j] == p[j + 1]);
        }
    }
}

/// After removing vertex `i`, the areas at vertices that were not its
/// neighbours are unchanged.
proof fn lemma_area_after_remove(p: Seq<PlanarPoint>, i: int, j: int)
    requires
        p.len() >= 5,
        0 <= i < p.len(),
        0 <= j < p.len() - 1,
        j != cyc_prev(i, p.len() - 1),
        j != (if i == p.len() - 1 {
            0
        } else {
            i
        }),
    ensures
        area_at(p.remove(i), j) == area_at(p, if j < i {
            j
        } else {
            j + 1
        }),
{
    let q = p.remove(i);
    let n = p.len() as int;
    assert(q.len() == n - 1);
    let k = if j < i {
        j
    } else {
        j + 1
    };
    assert(q[j] == p[k]);
    let qp = cyc_prev(j, n - 1);
    let qn = cyc_next(j, n - 1);
    let pp = cyc_prev(k, n);
    let pn = cyc_next(k, n);
    assert(q[qp] == p[pp]);
    assert(q[qn] == p[pn]);
}

fn double_area_exec(a: PlanarPoint, b: PlanarPoint, c: PlanarPoint) -> (r: i128)
    requires
        -COORD_LIMIT <= a.x <= COORD_LIMIT,
        -COORD_LIMIT <= a.y <= COORD_LIMIT,
        -COORD_LIMIT <= b.x <= COORD_LIMIT,
        -COORD_LIMIT <= b.y <= COORD_LIMIT,
        -COORD_LIMIT <= c.x <= COORD_LIMIT,
        -COORD_LIMIT <= c.y <= COORD_LIMIT,
    ensures
        r as int == double_area(a, b, c),
        r >= 0,
{
    let ax = a.x as i128;
    let ay = a.y as i128;
    let bx = b.x as i128;
    let by_ = b.y as i128;
    let cx = c.x as i128;
    let cy = c.y as i128;
    let lim: i128 = COORD_LIMIT as i128;
    assert(-2 * lim <= by_ - cy <= 2 * lim);
    assert(-2 * lim <= cy - ay <= 2 * lim);
    assert(-2 * lim <= ay - by_ <= 2 * lim);
    let d1 = by_ - cy;
    let d2 = cy - ay;
    let d3 = ay - by_;
    assert(-2 * lim * lim <= ax * d1 <= 2 * lim * lim) by (nonlinear_arith)
        requires
            -lim <= ax <= lim,
            -2 * lim <= d1 <= 2 * lim,
            lim > 0,
    ;
    assert(-2 * lim * lim <= bx * d2 <= 2 * lim * lim) by (nonlinear_arith)
        requires
            -lim <= bx <= lim,
            -2 * lim <= d2 <= 2 * lim,
            lim > 0,
    ;
    assert(-2 * lim * lim <= cx * d3 <= 2 * lim * lim) by (nonlinear_arith)
        requires
            -lim <= cx <= lim,
            -2 * lim <= d3 <= 2 * lim,
            lim > 0,
    ;
    assert(lim * lim == 0x100_0000_0000_0000_0000_0000_0000_0000) by (nonlinear_arith)
        requires
            lim == 0x1000_0000_0000_0000,
    ;
    let s = ax * d1 + bx * d2 + cx * d3;
    if s < 0 {
        -s
    } else {
        s
    }
}

fn area_at_exec(p: &Vec<PlanarPoint>, i: usize) -> (r: i128)
    requires
        points_in_range(p@),
        p.len() >= 3,
        i < p.len(),
    ensures
        r as int == area_at(p@, i as int),
        r >= 0,
{
    let n = p.len();
    let prev = if i == 0 {
        n - 1
    } else {
        i - 1
    };
    let next = if i + 1 == n {
        0
    } else {
        i + 1
    };
    double_area_exec(p[prev], p[i], p[next])
}

/// Simplifies a closed polygon by Visvalingam–Whyatt area reduction: vertices
/// whose triangle with their neighbours has an area of at most `threshold`
/// are removed, smallest first, until more than `threshold` or four points
/// remain. Polygons of fewer than four points are returned unchanged.
pub fn simplify_polygon(polygon: Vec<PlanarPoint>, threshold: u64) -> (r: Vec<PlanarPoint>)
    requires
        points_in_range(polygon@),
    ensures
        r@ == simplified(polygon@, threshold as int),
        polygon@.len() < 4 ==> r@ == polygon@,
        polygon@.len() >= 4 ==> r@.len() >= 4,
        r@.len() <= polygon@.len(),
{
    let ghost input = polygon@;
    let mut polygon = polygon;
    if polygon.len() < 4 {
        return polygon;
    }
    let limit: i128 = 2 * (threshold as i128);
    let mut areas: Vec<i128> = Vec::with_capacity(polygon.len());
    let mut k: usize = 0;
    while k < polygon.len()
        invariant
            points_in_range(polygon@),
            polygon@ == input,
            polygon.len() >= 4,
            k <= polygon.len(),
            areas.len() == k,
            forall|j: int| 0 <= j < k ==> #[trigger] areas@[j] as int == area_at(polygon@, j),
        decreases polygon.len() - k,
    {
        let a = area_at_exec(&polygon, k);
        areas.push(a);
        k += 1;
    }
    while polygon.len() > 4
        invariant
            points_in_range(polygon@),
            polygon.len() >= 4,
            polygon.len() <= input.len(),
            areas.len() == polygon.len(),
            limit == 2 * threshold,
            forall|j: int| 0 <= j < areas.len() ==> #[trigger] areas@[j] as int == area_at(polygon@, j),
            polygon.len() == 4 ==> simplified(polygon@, threshold as int) == polygon@,
            simplified(polygon@, threshold as int) == simplified(input, threshold as int),
        ensures
            polygon.len() >= 4,
            polygon.len() <= input.len(),
            polygon@ == simplified(input, threshold as int),
        decreases polygon.len(),
    {
        let ghost av = Seq::new(areas@.len(), |j: int| areas@[j] as int);
        assert(av =~= areas_of(polygon@));
        let mut min_area: i128 = areas[0];
        let mut min_index: usize = 0;
        let mut i: usize = 1;
        while i < areas.len()
            invariant
                1 <= i <= areas.len(),
                areas.len() == polygon.len(),
                av == Seq::new(areas@.len(), |j: int| areas@[j] as int),
                min_index as int == first_min_index(av, i as int),
                min_index < i,
                min_area == areas@[min_index as int],
            decreases areas.len() - i,
        {
            if areas[i] < min_area {
                min_area = areas[i];
                min_index = i;
            }
            i += 1;
        }
        proof {
            lemma_first_min_in_range(av, av.len() as int);
        }
        if min_area > limit {
            assert(simplified(polygon@, threshold as int) == polygon@);
            break;
        }
        let ghost before = polygon@;
        let ghost old_areas = areas@;
        proof {
            lemma_range_remove(before, min_index as int);
        }
        polygon.remove(min_index);
        areas.remove(min_index);
        assert(polygon@ == before.remove(min_index as int));
        assert(simplified(before, threshold as int) == simplified(polygon@, threshold as int));
        let n = polygon.len();
        let prev_index = if min_index == 0 {
            n - 1
        } else {
            min_index - 1
        };
        let next_index = if min_index == n {
            0
        } else {
            min_index
        };
        let pa = area_at_exec(&polygon, prev_index);
        let na = area_at_exec(&polygon, next_index);
        areas.set(prev_index, pa);
        areas.set(next_index, na);
        assert forall|j: int| 0 <= j < areas.len() implies #[trigger] areas@[j] as int == area_at(
            polygon@,
            j,
        ) by {
            if j != prev_index as int && j != next_index as int {
                lemma_area_after_remove(before, min_index as int, j);
                if j < min_index {
                    assert(areas@[j] == old_areas[j]);
                } else {
                    assert(areas@[j] == old_areas[j + 1]);
                }
            }
        }
    }
    polygon
}

} // verus!
