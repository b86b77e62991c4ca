//! Points, polygons and the membership test.
//!
//! A point is a pair of pixel coordinates `[x, y]`; a polygon is the ring of
//! its vertices, each edge running from one vertex to the next and from the
//! last back to the first.

use vstd::arithmetic::div_mod::lemma_fundamental_div_mod_converse;
use vstd::prelude::*;
use vstd::slice::axiom_spec_len;

verus! {

/// Floor of the midpoint of two coordinates.
pub open spec fn midpoint(a: int, b: int) -> int {
    (a + b) / 2
}

/// Sign test of the pixel `(x, y)` against the directed edge `v1 -> v2`:
/// positive on the outer side of the edge, zero on its line.
pub open spec fn edge_cross(x: int, y: int, v1: [usize; 2], v2: [usize; 2]) -> int {
    x * v1[1] + v1[0] * v2[1] + y * v2[0] - (x * v2[1] + v1[1] * v2[0] + y * v1[0])
}

/// `edge_cross` for the edge that starts at vertex `i` of the ring `poly`.
pub open spec fn edge_side(x: int, y: int, poly: Seq<[usize; 2]>, i: int) -> int {
    edge_cross(x, y, poly[i], poly[(i + 1) % (poly.len() as int)])
}

/// The pixel `(x, y)` lies on the inner side of every edge of `poly`.
///
/// For a convex polygon wound to match the sign of `edge_cross` this is
/// membership in the polygon, border included.
pub open spec fn inside(x: int, y: int, poly: Seq<[usize; 2]>) -> bool {
    forall|i: int| 0 <= i < poly.len() ==> #[trigger] edge_side(x, y, poly, i) <= 0
}

/// The point halfway between `p` and `q`, each coordinate rounded down.
pub fn intermediate(p: [usize; 2], q: [usize; 2]) -> (m: [usize; 2])
    ensures
        m[0] == midpoint(p[0] as int, q[0] as int),
        m[1] == midpoint(p[1] as int, q[1] as int),
{
    let x: usize = p[0] / 2 + q[0] / 2 + (p[0] % 2 + q[0] % 2) / 2;
    let y: usize = p[1] / 2 + q[1] / 2 + (p[1] % 2 + q[1] % 2) / 2;
    [x, y]
}

/// Two to the power 64: the weight of the high limb of a wide sum.
const LIMB: u128 = 0x1_0000_0000_0000_0000;

/// The full product of two coordinates.
fn wide_product(a: usize, b: usize) -> (p: u128)
    ensures
        p == a * b,
{
    assert(a * b <= 0xffff_ffff_ffff_ffff * 0xffff_ffff_ffff_ffff) by (nonlinear_arith)
        requires
            a <= 0xffff_ffff_ffff_ffff,
            b <= 0xffff_ffff_ffff_ffff,
    ;
    (a as u128) * (b as u128)
}

/// The sum of three products as a high and a low limb, the low one below
/// `LIMB`, so that two sums compare limb by limb.
fn wide_sum(a: u128, b: u128, c: u128) -> (s: (u128, u128))
    ensures
        s.0 * LIMB + s.1 == a + b + c,
        s.1 < LIMB,
{
    let low: u128 = a % LIMB + b % LIMB + c % LIMB;
    let high: u128 = a / LIMB + b / LIMB + c / LIMB + low / LIMB;
    (high, low % LIMB)
}

/// Whether the pixel `(x, y)` lies strictly on the outer side of the edge
/// `v1 -> v2`. The comparison is exact for all coordinates: nothing wraps.
pub fn outside_edge(x: usize, y: usize, v1: [usize; 2], v2: [usize; 2]) -> (b: bool)
    ensures
        b == (edge_cross(x as int, y as int, v1, v2) > 0),
{
    let left = wide_sum(wide_product(x, v1[1]), wide_product(v1[0], v2[1]), wide_product(y, v2[0]));
    let right = wide_sum(wide_product(x, v2[1]), wide_product(v1[1], v2[0]), wide_product(y, v1[0]));
    left.0 > right.0 || (left.0 == right.0 && left.1 > right.1)
}

/// Whether the pixel `(x, y)` lies inside the polygon `points`.
///
/// The edges are taken in order; the first one that has the pixel strictly
/// on its outer side decides for `false`. Convexity and winding of `points`
/// are the caller's business: the answer is `inside`, whatever the ring.
pub fn in_polygon(x: usize, y: usize, points: &Vec<[usize; 2]>) -> (b: bool)
    ensures
        b == inside(x as int, y as int, points@),
{
    let n: usize = points.len();
    let mut i: usize = 0;
    while i < n
        invariant
            n == points.len(),
            i <= n,
            forall|j: int| 0 <= j < i ==> #[trigger] edge_side(x as int, y as int, points@, j) <= 0,
        decreases n - i,
    {
        let v1: [usize; 2] = points[i];
        let v2: [usize; 2] = points[(i + 1) % n];
        if outside_edge(x, y, v1, v2) {
            assert(edge_side(x as int, y as int, points@, i as int) > 0);
            return false;
        }
        i += 1;
    }
    true
}

/// Offset of the pixel `(x, y)` in a single-channel raster whose rows lie
/// `stride` bytes apart: `x` counts rows, `y` the bytes within a row.
pub open spec fn pixel_index(x: int, y: int, stride: int) -> int {
    x * stride + y
}

/// Every pixel of the square `resolution` by `resolution`, `channels` bytes
/// each, lies within a raster of `len` bytes.
pub open spec fn raster_fits(len: int, resolution: int, stride: int, channels: int) -> bool {
    resolution > 0 ==> (resolution - 1) * stride + (resolution - 1) * channels + channels <= len
}

/// Some pixel of the square that lies inside `poly` is stored at `idx`.
pub open spec fn covered(idx: int, resolution: int, stride: int, poly: Seq<[usize; 2]>) -> bool {
    exists|x: int, y: int|
        0 <= x < resolution && 0 <= y < resolution && #[trigger] pixel_index(x, y, stride) == idx
            && inside(x, y, poly)
}

/// The raster `image` with every pixel inside `poly` set to full intensity.
pub open spec fn filled(image: Seq<u8>, resolution: int, stride: int, poly: Seq<[usize; 2]>) -> Seq<
    u8,
> {
    Seq::new(
        image.len(),
        |idx: int|
            if covered(idx, resolution, stride, poly) {
                255u8
            } else {
                image[idx]
            },
    )
}

/// `covered`, but only by the pixels that come before `(row, col)` in
/// row-major order.
spec fn covered_before(
    idx: int,
    resolution: int,
    stride: int,
    poly: Seq<[usize; 2]>,
    row: int,
    col: int,
) -> bool {
    exists|x: int, y: int|
        0 <= x < resolution && 0 <= y < resolution && (x < row || (x == row && y < col))
            && #[trigger] pixel_index(x, y, stride) == idx && inside(x, y, poly)
}

/// Sets every pixel of the square that lies inside the polygon `points` to
/// 255 and leaves the rest of the single-channel raster as it was.
pub fn fill_polygon(image: &mut [u8], resolution: usize, stride: usize, points: &Vec<[usize; 2]>)
    requires
        raster_fits(old(image)@.len() as int, resolution as int, stride as int, 1),
    ensures
        final(image)@ == filled(old(image)@, resolution as int, stride as int, points@),
{
    let ghost before = image@;
    proof {
        axiom_spec_len(image);
    }
    let mut x: usize = 0;
    while x < resolution
        invariant
            x <= resolution,
            image@.len() == before.len(),
            before.len() <= usize::MAX,
            raster_fits(before.len() as int, resolution as int, stride as int, 1),
            forall|idx: int|
                0 <= idx < before.len() ==> image@[idx] == (if covered_before(
                    idx,
                    resolution as int,
                    stride as int,
                    points@,
                    x as int,
                    0,
                ) {
                    255u8
                } else {
                    before[idx]
                }),
        decreases resolution - x,
    {
        let mut y: usize = 0;
        while y < resolution
            invariant
                x < resolution,
                y <= resolution,
                image@.len() == before.len(),
            before.len() <= usize::MAX,
                raster_fits(before.len() as int, resolution as int, stride as int, 1),
                forall|idx: int|
                    0 <= idx < before.len() ==> image@[idx] == (if covered_before(
                        idx,
                        resolution as int,
                        stride as int,
                        points@,
                        x as int,
                        y as int,
                    ) {
                        255u8
                    } else {
                        before[idx]
                    }),
            decreases resolution - y,
        {
            let ghost shown = image@;
            let hit: bool = in_polygon(x, y, points);
            assert(x * stride <= (resolution - 1) * stride) by (nonlinear_arith)
                requires
                    x <= resolution - 1,
                    stride >= 0,
            ;
            let at: usize = x * stride + y;
            if hit {
                image[at] = 255;
            }
            proof {
                assert(pixel_index(x as int, y as int, stride as int) == at);
                assert forall|idx: int| 0 <= idx < before.len() implies image@[idx] == (
                if covered_before(idx, resolution as int, stride as int, points@, x as int, y + 1) {
                    255u8
                } else {
                    before[idx]
                }) by {
                    if covered_before(idx, resolution as int, stride as int, points@, x as int, y as int) {
                        assert(covered_before(idx, resolution as int, stride as int, points@, x as int, y + 1));
                    } else if hit && idx == at {
                        assert(covered_before(idx, resolution as int, stride as int, points@, x as int, y + 1));
                    } else {
                        assert(shown[idx] == before[idx]);
                        assert(!covered_before(idx, resolution as int, stride as int, points@, x as int, y + 1));
                    }
                }
            }
            y += 1;
        }
        proof {
            assert forall|idx: int| 0 <= idx < before.len() implies covered_before(
                idx,
                resolution as int,
                stride as int,
                points@,
                x as int,
                resolution as int,
            ) == covered_before(idx, resolution as int, stride as int, points@, x + 1, 0) by {}
        }
        x += 1;
    }
    proof {
        assert forall|idx: int| 0 <= idx < before.len() implies covered_before(
            idx,
            resolution as int,
            stride as int,
            points@,
            resolution as int,
            0,
        ) == covered(idx, resolution as int, stride as int, points@) by {}
        assert(image@ =~= filled(before, resolution as int, stride as int, points@));
    }
}

/// One unit of a direction's components: `cos` and `sin` are stored as
/// multiples of `1 / UNIT`.
pub const UNIT: i32 = 1_073_741_824;

/// The direction from the centre of the canvas to a vertex, as the cosine
/// and sine of its angle in fixed point.
#[derive(Clone, Copy, Debug)]
pub struct Direction {
    pub cos: i32,
    pub sin: i32,
}

impl Direction {
    /// Both components lie between minus one and one.
    pub open spec fn wf(&self) -> bool {
        -UNIT <= self.cos <= UNIT && -UNIT <= self.sin <= UNIT
    }

    /// The direction with the given components, if both lie between
    /// `-UNIT` and `UNIT`.
    pub fn new(cos: i32, sin: i32) -> (d: Option<Direction>)
        ensures
            d is Some <==> (-UNIT <= cos <= UNIT && -UNIT <= sin <= UNIT),
            d is Some ==> d.unwrap().cos == cos && d.unwrap().sin == sin && d.unwrap().wf(),
    {
        if -UNIT <= cos && cos <= UNIT && -UNIT <= sin && sin <= UNIT {
            Some(Direction { cos, sin })
        } else {
            None
        }
    }
}

/// A coordinate at the centre plus `part / UNIT` times the radius, rounded
/// down. The centre is `resolution / 2` and the radius nine tenths of it,
/// so the coordinate is `resolution * (1/2 + 9/20 * part / UNIT)`.
pub open spec fn placed(resolution: int, part: int) -> int {
    resolution * (10 * UNIT + 9 * part) / (20 * UNIT)
}

/// The x coordinate of the vertex in direction `d`: the cosine is
/// subtracted from the centre.
pub open spec fn vertex_x(resolution: int, d: Direction) -> int {
    placed(resolution, -(d.cos as int))
}

/// The y coordinate of the vertex in direction `d`: the sine is added to
/// the centre.
pub open spec fn vertex_y(resolution: int, d: Direction) -> int {
    placed(resolution, d.sin as int)
}

fn place(resolution: usize, part: i64) -> (at: usize)
    requires
        -UNIT <= part <= UNIT,
    ensures
        at == placed(resolution as int, part as int),
        at <= resolution,
        resolution > 0 ==> at < resolution,
{
    let weight: u128 = (10 * (UNIT as i64) + 9 * part) as u128;
    let divisor: u128 = 20 * (UNIT as u128);
    assert(divisor == 21_474_836_480);
    assert(resolution * weight <= resolution * 20_401_094_656) by (nonlinear_arith)
        requires
            0 <= weight <= 20_401_094_656,
            0 <= resolution,
    ;
    let scaled: u128 = (resolution as u128) * weight;
    assert(scaled == resolution * (10 * UNIT + 9 * part));
    (scaled / divisor) as usize
}

/// The vertices of the polygon inscribed in a canvas of `resolution` by
/// `resolution` pixels, one for each direction and in their order.
///
/// The centre is `resolution / 2` in both coordinates and the radius nine
/// tenths of that. The cosine is subtracted on x and the sine added on y;
/// both coordinates are rounded down.
pub fn get_vertices(resolution: usize, directions: &Vec<Direction>) -> (vertices: Vec<[usize; 2]>)
    requires
        forall|i: int| 0 <= i < directions.len() ==> (#[trigger] directions[i]).wf(),
    ensures
        vertices.len() == directions.len(),
        forall|i: int|
            0 <= i < directions.len() ==> (#[trigger] vertices[i])[0] == vertex_x(
                resolution as int,
                directions[i],
            ) && vertices[i][1] == vertex_y(resolution as int, directions[i]),
        resolution > 0 ==> forall|i: int|
            0 <= i < vertices.len() ==> (#[trigger] vertices[i])[0] < resolution && vertices[i][1]
                < resolution,
{
    let mut vertices: Vec<[usize; 2]> = Vec::with_capacity(directions.len());
    let mut i: usize = 0;
    while i < directions.len()
        invariant
            i <= directions.len(),
            vertices.len() == i,
            forall|j: int| 0 <= j < directions.len() ==> (#[trigger] directions[j]).wf(),
            forall|j: int|
                0 <= j < i ==> (#[trigger] vertices[j])[0] == vertex_x(
                    resolution as int,
                    directions[j],
                ) && vertices[j][1] == vertex_y(resolution as int, directions[j]),
            resolution > 0 ==> forall|j: int|
                0 <= j < i ==> (#[trigger] vertices[j])[0] < resolution && vertices[j][1]
                    < resolution,
        decreases directions.len() - i,
    {
        let d: Direction = directions[i];
        assert(d.wf());
        let x: usize = place(resolution, -(d.cos as i64));
        let y: usize = place(resolution, d.sin as i64);
        vertices.push([x, y]);
        i += 1;
    }
    vertices
}

/// The ring `poly` started at its vertex `k`: the same edges in the same
/// cyclic order.
pub open spec fn rotated(poly: Seq<[usize; 2]>, k: int) -> Seq<[usize; 2]> {
    poly.subrange(k, poly.len() as int) + poly.subrange(0, k)
}

proof fn lemma_wrap(m: int, n: int)
    requires
        n > 0,
        0 <= m < 2 * n,
    ensures
        m % n == (if m < n {
            m
        } else {
            m - n
        }),
{
    if m < n {
        lemma_fundamental_div_mod_converse(m, n, 0, m);
    } else {
        lemma_fundamental_div_mod_converse(m, n, 1, m - n);
    }
}

/// Edge `i` of the rotated ring is edge `i + k` of the ring itself, counted
/// round the ring.
proof fn lemma_rotated_edge(x: int, y: int, poly: Seq<[usize; 2]>, k: int, i: int)
    requires
        0 <= k <= poly.len(),
        0 <= i < poly.len(),
    ensures
        edge_side(x, y, rotated(poly, k), i) == edge_side(
            x,
            y,
            poly,
            (i + k) % (poly.len() as int),
        ),
        0 <= (i + k) % (poly.len() as int) < poly.len(),
{
    let n = poly.len() as int;
    let rot = rotated(poly, k);
    let j = (i + k) % n;
    lemma_wrap(i + k, n);
    lemma_wrap(i + 1, n);
    lemma_wrap(j + 1, n);
    let i1 = (i + 1) % n;
    lemma_wrap(i1 + k, n);
    assert(rot.len() == n);
    assert(rot[i] == poly[j]);
    assert(rot[i1] == poly[(i1 + k) % n]);
    assert((i1 + k) % n == (j + 1) % n);
}

/// The membership test gives the same answer for a polygon and for the
/// same ring of vertices started at another vertex.
pub proof fn lemma_membership_ignores_rotation(x: int, y: int, poly: Seq<[usize; 2]>, k: int)
    requires
        0 <= k <= poly.len(),
    ensures
        inside(x, y, rotated(poly, k)) == inside(x, y, poly),
{
    let n = poly.len() as int;
    let rot = rotated(poly, k);
    assert(rot.len() == n);
    if inside(x, y, poly) {
        assert forall|i: int| 0 <= i < n implies #[trigger] edge_side(x, y, rot, i) <= 0 by {
            lemma_rotated_edge(x, y, poly, k, i);
        }
    }
    if inside(x, y, rot) {
        assert forall|j: int| 0 <= j < n implies #[trigger] edge_side(x, y, poly, j) <= 0 by {
            let i = (j - k + n) % n;
            lemma_wrap(j - k + n, n);
            lemma_rotated_edge(x, y, poly, k, i);
            lemma_wrap(i + k, n);
            assert(edge_side(x, y, rot, i) <= 0);
        }
    }
}

/// The pixel `(x, y)` lies in the closed half-plane `a*x + b*y <= c`.
pub open spec fn in_half_plane(a: int, b: int, c: int, x: int, y: int) -> bool {
    a * x + b * y <= c
}

/// Every point of the set lies in the half-plane `a*x + b*y <= c`.
pub open spec fn half_plane_holds(a: int, b: int, c: int, points: Seq<[usize; 2]>) -> bool {
    forall|i: int|
        0 <= i < points.len() ==> in_half_plane(
            a,
            b,
            c,
            (#[trigger] points[i])[0] as int,
            points[i][1] as int,
        )
}

/// The pixel `(x, y)` lies in the convex hull of `points`: in every closed
/// half-plane that holds all of them. (The hull of points with integer
/// coordinates is cut out by half-planes with integer coefficients.)
pub open spec fn in_hull(points: Seq<[usize; 2]>, x: int, y: int) -> bool {
    forall|a: int, b: int, c: int| #[trigger]
        half_plane_holds(a, b, c, points) ==> in_half_plane(a, b, c, x, y)
}

/// Where the rounded midpoint of two pixels of a half-plane lies: it may
/// leave the half-plane by the half pixel that rounding down took away,
/// and by no more.
pub proof fn lemma_midpoint_half_plane(
    a: int,
    b: int,
    c: int,
    x1: int,
    y1: int,
    x2: int,
    y2: int,
)
    requires
        in_half_plane(a, b, c, x1, y1),
        in_half_plane(a, b, c, x2, y2),
    ensures
        2 * (a * midpoint(x1, x2) + b * midpoint(y1, y2)) <= 2 * c - a * ((x1 + x2) % 2) - b * ((y1
            + y2) % 2),
{
    let mx = midpoint(x1, x2);
    let my = midpoint(y1, y2);
    let rx = (x1 + x2) % 2;
    let ry = (y1 + y2) % 2;
    assert(2 * (a * mx + b * my) + a * rx + b * ry == (a * x1 + b * y1) + (a * x2 + b * y2))
        by (nonlinear_arith)
        requires
            2 * mx + rx == x1 + x2,
            2 * my + ry == y1 + y2,
    ;
}

/// One contraction step keeps the cursor in the convex hull of the point
/// set, wherever the midpoint of the cursor and the chosen point is itself
/// a pixel (both coordinate sums are even, so that nothing is rounded).
pub proof fn lemma_contraction_stays_in_hull(points: Seq<[usize; 2]>, x: int, y: int, k: int)
    requires
        in_hull(points, x, y),
        0 <= k < points.len(),
        (x + points[k][0]) % 2 == 0,
        (y + points[k][1]) % 2 == 0,
    ensures
        in_hull(points, midpoint(x, points[k][0] as int), midpoint(y, points[k][1] as int)),
{
    let vx = points[k][0] as int;
    let vy = points[k][1] as int;
    assert forall|a: int, b: int, c: int| #[trigger]
        half_plane_holds(a, b, c, points) implies in_half_plane(
        a,
        b,
        c,
        midpoint(x, vx),
        midpoint(y, vy),
    ) by {
        assert(in_half_plane(a, b, c, x, y));
        assert(in_half_plane(a, b, c, points[k][0] as int, points[k][1] as int));
        lemma_midpoint_half_plane(a, b, c, x, y, vx, vy);
        assert(a * 0 == 0 && b * 0 == 0);
    }
}

/// The sign test is affine in the pixel: at an exact midpoint it is the
/// mean of its values at the two ends.
proof fn lemma_edge_cross_midpoint(
    x1: int,
    y1: int,
    x2: int,
    y2: int,
    mx: int,
    my: int,
    v1: [usize; 2],
    v2: [usize; 2],
)
    requires
        2 * mx == x1 + x2,
        2 * my == y1 + y2,
    ensures
        2 * edge_cross(mx, my, v1, v2) == edge_cross(x1, y1, v1, v2) + edge_cross(x2, y2, v1, v2),
{
    let p = v1[0] as int;
    let q = v1[1] as int;
    let r = v2[0] as int;
    let s = v2[1] as int;
    assert(2 * (mx * q + p * s + my * r - (mx * s + q * r + my * p)) == (x1 * q + p * s + y1 * r - (
    x1 * s + q * r + y1 * p)) + (x2 * q + p * s + y2 * r - (x2 * s + q * r + y2 * p)))
        by (nonlinear_arith)
        requires
            2 * mx == x1 + x2,
            2 * my == y1 + y2,
    ;
}

/// One contraction step towards a pixel that passes the membership test
/// keeps a cursor that passes it inside the polygon, wherever the midpoint
/// of the two is itself a pixel.
pub proof fn lemma_contraction_stays_inside(
    poly: Seq<[usize; 2]>,
    x: int,
    y: int,
    vx: int,
    vy: int,
)
    requires
        inside(x, y, poly),
        inside(vx, vy, poly),
        (x + vx) % 2 == 0,
        (y + vy) % 2 == 0,
    ensures
        inside(midpoint(x, vx), midpoint(y, vy), poly),
{
    let mx = midpoint(x, vx);
    let my = midpoint(y, vy);
    assert forall|i: int| 0 <= i < poly.len() implies #[trigger] edge_side(mx, my, poly, i)
        <= 0 by {
        let v1 = poly[i];
        let v2 = poly[(i + 1) % (poly.len() as int)];
        assert(edge_side(x, y, poly, i) <= 0);
        assert(edge_side(vx, vy, poly, i) <= 0);
        lemma_edge_cross_midpoint(x, y, vx, vy, mx, my, v1, v2);
    }
}

/// Every vertex of the ring passes the membership test of the ring. A
/// polygon that is convex and wound to match the test is such a ring.
pub open spec fn convex(poly: Seq<[usize; 2]>) -> bool {
    forall|k: int|
        0 <= k < poly.len() ==> inside((#[trigger] poly[k])[0] as int, poly[k][1] as int, poly)
}

/// In a convex polygon, one contraction step towards a vertex keeps a
/// cursor that passes the membership test inside the polygon, wherever the
/// midpoint of the cursor and the vertex is itself a pixel.
pub proof fn lemma_contraction_stays_in_polygon(poly: Seq<[usize; 2]>, x: int, y: int, k: int)
    requires
        convex(poly),
        inside(x, y, poly),
        0 <= k < poly.len(),
        (x + poly[k][0]) % 2 == 0,
        (y + poly[k][1]) % 2 == 0,
    ensures
        inside(midpoint(x, poly[k][0] as int), midpoint(y, poly[k][1] as int), poly),
{
    lemma_contraction_stays_inside(poly, x, y, poly[k][0] as int, poly[k][1] as int);
}

} // verus!
