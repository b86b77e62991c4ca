//! The weighted affine step: one of four affine maps, picked by a byte.
//!
//! A map sends the pixel `(x, y)` to `((a*x + b*y)/S + c, (d*x + e*y)/S + f)`
//! with whole-number coefficients and a common scale `S`; the division
//! drops the fraction of the quotient. The byte falls into one of four
//! buckets that divide `0..=255` between them, and the bucket picks the map.

use vstd::arithmetic::div_mod::{lemma_div_is_ordered, lemma_div_nonincreasing, lemma_div_pos_is_pos};
use vstd::prelude::*;

use crate::random::random_byte;

verus! {

/// The quotient of `n` by `s` with its fraction dropped: rounded towards
/// zero, for a positive `s`.
pub open spec fn trunc_div(n: int, s: int) -> int {
    if n >= 0 {
        n / s
    } else {
        -((-n) / s)
    }
}

/// One coordinate of the image of `(x, y)`: `(p*x + q*y)/scale + r`.
pub open spec fn affine(p: int, q: int, r: int, x: int, y: int, scale: int) -> int {
    trunc_div(p * x + q * y, scale) + r
}

/// The coefficient `p` where it pulls a coordinate down, else nothing.
pub open spec fn negative_part(p: int) -> int {
    if p < 0 {
        p
    } else {
        0
    }
}

/// The coefficient `p` where it pushes a coordinate up, else nothing.
pub open spec fn positive_part(p: int) -> int {
    if p > 0 {
        p
    } else {
        0
    }
}

/// The least value of `affine` over the pixels with both coordinates in
/// `0..=m`.
pub open spec fn lowest(p: int, q: int, r: int, m: int, scale: int) -> int {
    trunc_div(negative_part(p) * m + negative_part(q) * m, scale) + r
}

/// The greatest value of `affine` over the pixels with both coordinates in
/// `0..=m`.
pub open spec fn highest(p: int, q: int, r: int, m: int, scale: int) -> int {
    trunc_div(positive_part(p) * m + positive_part(q) * m, scale) + r
}

/// Dropping the fraction keeps the order of the numerators.
proof fn lemma_trunc_div_ordered(n1: int, n2: int, s: int)
    requires
        n1 <= n2,
        s > 0,
    ensures
        trunc_div(n1, s) <= trunc_div(n2, s),
{
    if n1 >= 0 {
        lemma_div_is_ordered(n1, n2, s);
    } else if n2 < 0 {
        lemma_div_is_ordered(-n2, -n1, s);
    } else {
        lemma_div_pos_is_pos(-n1, s);
        lemma_div_pos_is_pos(n2, s);
    }
}

/// A product with a coordinate in `0..=m` lies between the products of
/// the coefficient's two parts with `m`.
proof fn lemma_term_range(p: int, x: int, m: int)
    requires
        0 <= x <= m,
    ensures
        negative_part(p) * m <= p * x <= positive_part(p) * m,
{
    if p < 0 {
        assert(p * m <= p * x <= 0) by (nonlinear_arith)
            requires
                p < 0,
                0 <= x <= m,
        ;
    } else {
        assert(0 <= p * x <= p * m) by (nonlinear_arith)
            requires
                p >= 0,
                0 <= x <= m,
        ;
    }
}

/// `lowest` and `highest` bound `affine` over the square `0..=m`.
proof fn lemma_affine_range(p: int, q: int, r: int, x: int, y: int, m: int, scale: int)
    requires
        0 <= x <= m,
        0 <= y <= m,
        scale > 0,
    ensures
        lowest(p, q, r, m, scale) <= affine(p, q, r, x, y, scale) <= highest(p, q, r, m, scale),
{
    lemma_term_range(p, x, m);
    lemma_term_range(q, y, m);
    lemma_trunc_div_ordered(negative_part(p) * m + negative_part(q) * m, p * x + q * y, scale);
    lemma_trunc_div_ordered(p * x + q * y, positive_part(p) * m + positive_part(q) * m, scale);
}

/// The coordinate at which the coefficient `p` pulls lowest.
spec fn low_corner(p: int, m: int) -> int {
    if p < 0 {
        m
    } else {
        0
    }
}

/// The coordinate at which the coefficient `p` pushes highest.
spec fn high_corner(p: int, m: int) -> int {
    if p > 0 {
        m
    } else {
        0
    }
}

/// `lowest` and `highest` are values of `affine` at corners of the square.
proof fn lemma_affine_attained(p: int, q: int, r: int, m: int, scale: int)
    ensures
        affine(p, q, r, low_corner(p, m), low_corner(q, m), scale) == lowest(p, q, r, m, scale),
        affine(p, q, r, high_corner(p, m), high_corner(q, m), scale) == highest(
            p,
            q,
            r,
            m,
            scale,
        ),
{
    assert(p * low_corner(p, m) == negative_part(p) * m) by (nonlinear_arith)
        requires
            low_corner(p, m) == (if p < 0 {
                m
            } else {
                0
            }),
            negative_part(p) == (if p < 0 {
                p
            } else {
                0
            }),
    ;
    assert(q * low_corner(q, m) == negative_part(q) * m) by (nonlinear_arith)
        requires
            low_corner(q, m) == (if q < 0 {
                m
            } else {
                0
            }),
            negative_part(q) == (if q < 0 {
                q
            } else {
                0
            }),
    ;
    assert(p * high_corner(p, m) == positive_part(p) * m) by (nonlinear_arith)
        requires
            high_corner(p, m) == (if p > 0 {
                m
            } else {
                0
            }),
            positive_part(p) == (if p > 0 {
                p
            } else {
                0
            }),
    ;
    assert(q * high_corner(q, m) == positive_part(q) * m) by (nonlinear_arith)
        requires
            high_corner(q, m) == (if q > 0 {
                m
            } else {
                0
            }),
            positive_part(q) == (if q > 0 {
                q
            } else {
                0
            }),
    ;
}

/// Two to the power 96: above any numerator that the coefficients and the
/// coordinates can give.
const NUMERATOR_LIMIT: i128 = 0x1_0000_0000_0000_0000_0000_0000;

fn trunc_quotient(n: i128, scale: u32) -> (q: i128)
    requires
        scale > 0,
        -NUMERATOR_LIMIT <= n <= NUMERATOR_LIMIT,
    ensures
        q == trunc_div(n as int, scale as int),
        -NUMERATOR_LIMIT <= q <= NUMERATOR_LIMIT,
{
    let s: i128 = scale as i128;
    if n >= 0 {
        proof {
            lemma_div_pos_is_pos(n as int, s as int);
            lemma_div_nonincreasing(n as int, s as int);
        }
        n / s
    } else {
        proof {
            lemma_div_pos_is_pos(-n as int, s as int);
            lemma_div_nonincreasing(-n as int, s as int);
        }
        -((-n) / s)
    }
}

/// The product of a coefficient and a coordinate.
fn term(p: i32, x: usize) -> (t: i128)
    ensures
        t == p * x,
        -0x8000_0000_0000_0000_0000_0000 <= t <= 0x8000_0000_0000_0000_0000_0000,
{
    assert(-0x8000_0000 * 0x1_0000_0000_0000_0000 <= p * x <= 0x8000_0000 * 0x1_0000_0000_0000_0000)
        by (nonlinear_arith)
        requires
            -0x8000_0000 <= p <= 0x8000_0000,
            0 <= x <= 0x1_0000_0000_0000_0000,
    ;
    (p as i128) * (x as i128)
}

/// `affine` on machine integers; nothing wraps.
fn affine_value(p: i32, q: i32, r: i64, x: usize, y: usize, scale: u32) -> (v: i128)
    requires
        scale > 0,
    ensures
        v == affine(p as int, q as int, r as int, x as int, y as int, scale as int),
{
    let n: i128 = term(p, x) + term(q, y);
    trunc_quotient(n, scale) + (r as i128)
}

/// Whether `affine` stays within `0..=m` on the square `0..=m`.
fn range_within(p: i32, q: i32, r: i64, m: usize, scale: u32) -> (ok: bool)
    requires
        scale > 0,
    ensures
        ok == (0 <= lowest(p as int, q as int, r as int, m as int, scale as int) && highest(
            p as int,
            q as int,
            r as int,
            m as int,
            scale as int,
        ) <= m),
{
    let low_p: i32 = if p < 0 { p } else { 0 };
    let low_q: i32 = if q < 0 { q } else { 0 };
    let high_p: i32 = if p > 0 { p } else { 0 };
    let high_q: i32 = if q > 0 { q } else { 0 };
    let low: i128 = trunc_quotient(term(low_p, m) + term(low_q, m), scale) + (r as i128);
    let high: i128 = trunc_quotient(term(high_p, m) + term(high_q, m), scale) + (r as i128);
    0 <= low && high <= m as i128
}

/// One affine map of the plane, as the six coefficients of
/// `((a*x + b*y)/S + c, (d*x + e*y)/S + f)`.
#[derive(Clone, Copy, Debug)]
pub struct AffineMap {
    pub a: i32,
    pub b: i32,
    pub c: i64,
    pub d: i32,
    pub e: i32,
    pub f: i64,
}

impl AffineMap {
    /// The x coordinate of the image of `(x, y)`.
    pub open spec fn image_x(self, x: int, y: int, scale: int) -> int {
        affine(self.a as int, self.b as int, self.c as int, x, y, scale)
    }

    /// The y coordinate of the image of `(x, y)`.
    pub open spec fn image_y(self, x: int, y: int, scale: int) -> int {
        affine(self.d as int, self.e as int, self.f as int, x, y, scale)
    }

    /// The image of `(x, y)` is a pixel of the canvas.
    pub open spec fn lands(self, x: int, y: int, scale: int, resolution: int) -> bool {
        0 <= self.image_x(x, y, scale) < resolution && 0 <= self.image_y(x, y, scale) < resolution
    }

    /// The map sends every pixel of the canvas to a pixel of the canvas:
    /// no coordinate falls below zero, none reaches `resolution`.
    pub open spec fn keeps_canvas(self, scale: int, resolution: int) -> bool {
        forall|x: int, y: int|
            0 <= x < resolution && 0 <= y < resolution ==> #[trigger] self.lands(
                x,
                y,
                scale,
                resolution,
            )
    }

    /// Whether the map keeps the canvas of `resolution` by `resolution`
    /// pixels. Each coordinate of the image takes its least and its
    /// greatest value at a corner of the canvas, so four values decide.
    pub fn check_canvas(&self, scale: u32, resolution: usize) -> (ok: bool)
        requires
            scale > 0,
        ensures
            ok == self.keeps_canvas(scale as int, resolution as int),
    {
        if resolution == 0 {
            return true;
        }
        let m: usize = resolution - 1;
        let ok_x: bool = range_within(self.a, self.b, self.c, m, scale);
        let ok_y: bool = range_within(self.d, self.e, self.f, m, scale);
        proof {
            let s = scale as int;
            let r = resolution as int;
            let (a, b, c) = (self.a as int, self.b as int, self.c as int);
            let (d, e, f) = (self.d as int, self.e as int, self.f as int);
            if ok_x && ok_y {
                assert forall|x: int, y: int| 0 <= x < r && 0 <= y < r implies #[trigger] self.lands(
                    x,
                    y,
                    s,
                    r,
                ) by {
                    lemma_affine_range(a, b, c, x, y, m as int, s);
                    lemma_affine_range(d, e, f, x, y, m as int, s);
                }
            } else {
                lemma_affine_attained(a, b, c, m as int, s);
                lemma_affine_attained(d, e, f, m as int, s);
                if lowest(a, b, c, m as int, s) < 0 {
                    assert(!self.lands(low_corner(a, m as int), low_corner(b, m as int), s, r));
                } else if highest(a, b, c, m as int, s) > m {
                    assert(!self.lands(high_corner(a, m as int), high_corner(b, m as int), s, r));
                } else if lowest(d, e, f, m as int, s) < 0 {
                    assert(!self.lands(low_corner(d, m as int), low_corner(e, m as int), s, r));
                } else {
                    assert(!self.lands(high_corner(d, m as int), high_corner(e, m as int), s, r));
                }
            }
        }
        ok_x && ok_y
    }
}

/// Four affine maps and the buckets of a byte that pick among them.
///
/// Bucket 0 holds the bytes up to `bounds[0]`, bucket 1 those above it up
/// to `bounds[1]`, bucket 2 those above that up to `bounds[2]`, and bucket
/// 3 the rest; bucket `k` picks `maps[k]`.
#[derive(Clone, Copy, Debug)]
pub struct WeightedAffineMap {
    /// The last byte of the first, of the second and of the third bucket.
    pub bounds: [u8; 3],
    /// The map of each bucket.
    pub maps: [AffineMap; 4],
    /// The divisor that all four maps share.
    pub scale: u32,
}

impl WeightedAffineMap {
    /// The bucket that the byte `draw` falls into.
    pub open spec fn bucket(self, draw: u8) -> int {
        if draw <= self.bounds[0] {
            0
        } else if draw <= self.bounds[1] {
            1
        } else if draw <= self.bounds[2] {
            2
        } else {
            3
        }
    }

    /// The bounds do not decrease, so that the buckets lie side by side in
    /// their order.
    pub open spec fn ordered(self) -> bool {
        self.bounds[0] <= self.bounds[1] <= self.bounds[2]
    }

    /// The first byte of bucket `k`.
    pub open spec fn first_byte(self, k: int) -> int {
        if k == 0 {
            0
        } else {
            self.bounds[k - 1] + 1
        }
    }

    /// The number of bytes in bucket `k`: its weight in 256ths.
    pub open spec fn width(self, k: int) -> int {
        if k == 3 {
            256 - self.first_byte(3)
        } else {
            self.bounds[k] + 1 - self.first_byte(k)
        }
    }

    /// How many of the bytes below `upto` fall into bucket `k`.
    pub open spec fn bytes_in_bucket(self, k: int, upto: int) -> int
        decreases upto,
    {
        if upto <= 0 {
            0
        } else {
            self.bytes_in_bucket(k, upto - 1) + (if self.bucket((upto - 1) as u8) == k {
                1int
            } else {
                0int
            })
        }
    }

    /// The x coordinate of the pixel that the byte `draw` sends `(x, y)` to.
    pub open spec fn next_x(self, x: int, y: int, draw: u8) -> int {
        self.maps[self.bucket(draw)].image_x(x, y, self.scale as int)
    }

    /// The y coordinate of the pixel that the byte `draw` sends `(x, y)` to.
    pub open spec fn next_y(self, x: int, y: int, draw: u8) -> int {
        self.maps[self.bucket(draw)].image_y(x, y, self.scale as int)
    }

    /// The image of `(x, y)` under the map of `draw` is a pixel: neither
    /// coordinate falls below zero or passes what a coordinate can hold.
    pub open spec fn defined_at(self, x: int, y: int, draw: u8) -> bool {
        0 <= self.next_x(x, y, draw) <= usize::MAX && 0 <= self.next_y(x, y, draw) <= usize::MAX
    }

    /// The system can run on a canvas of `resolution` by `resolution`
    /// pixels: the scale is positive, the buckets are in order, and each
    /// of the four maps keeps the canvas.
    pub open spec fn wf(self, resolution: int) -> bool {
        &&& self.scale > 0
        &&& self.ordered()
        &&& forall|k: int| 0 <= k < 4 ==> (#[trigger] self.maps[k]).keeps_canvas(self.scale as int, resolution)
    }

    /// The bucket that the byte `draw` falls into.
    pub fn bucket_of(&self, draw: u8) -> (k: usize)
        ensures
            k == self.bucket(draw),
            k < 4,
    {
        if draw <= self.bounds[0] {
            0
        } else if draw <= self.bounds[1] {
            1
        } else if draw <= self.bounds[2] {
            2
        } else {
            3
        }
    }

    /// Whether the bounds of the buckets do not decrease.
    pub fn is_ordered(&self) -> (ok: bool)
        ensures
            ok == self.ordered(),
    {
        self.bounds[0] <= self.bounds[1] && self.bounds[1] <= self.bounds[2]
    }

    /// The pixel that the byte `draw` sends the cursor to.
    ///
    /// A coordinate that would fall below zero has no pixel: such a cursor
    /// and byte are left out, and it is for the one who sets the
    /// coefficients to see that none comes up.
    pub fn apply(&self, cursor: [usize; 2], draw: u8) -> (next: [usize; 2])
        requires
            self.scale > 0,
            self.defined_at(cursor[0] as int, cursor[1] as int, draw),
        ensures
            next[0] == self.next_x(cursor[0] as int, cursor[1] as int, draw),
            next[1] == self.next_y(cursor[0] as int, cursor[1] as int, draw),
    {
        let map: AffineMap = self.maps[self.bucket_of(draw)];
        let x: i128 = affine_value(map.a, map.b, map.c, cursor[0], cursor[1], self.scale);
        let y: i128 = affine_value(map.d, map.e, map.f, cursor[0], cursor[1], self.scale);
        [x as usize, y as usize]
    }

    /// With the buckets in order, bucket `k` holds the bytes from its
    /// first byte on, as many as its width says.
    pub proof fn lemma_bucket_range(self, k: int, draw: u8)
        requires
            self.ordered(),
            0 <= k < 4,
        ensures
            self.bucket(draw) == k <==> self.first_byte(k) <= draw < self.first_byte(k)
                + self.width(k),
            0 <= self.width(k) <= 256,
    {
    }

    proof fn lemma_bytes_below(self, k: int, upto: int)
        requires
            self.ordered(),
            0 <= k < 4,
            0 <= upto <= 256,
        ensures
            self.bytes_in_bucket(k, upto) == (if upto <= self.first_byte(k) {
                0
            } else if upto <= self.first_byte(k) + self.width(k) {
                upto - self.first_byte(k)
            } else {
                self.width(k)
            }),
        decreases upto,
    {
        if upto > 0 {
            self.lemma_bytes_below(k, upto - 1);
            self.lemma_bucket_range(k, (upto - 1) as u8);
        }
    }

    /// Of the 256 bytes, as many fall into a bucket as its width says, and
    /// the four widths make up all 256: a byte drawn evenly lands in
    /// bucket `k` with probability `width(k) / 256`.
    pub proof fn lemma_bucket_weights(self, k: int)
        requires
            self.ordered(),
            0 <= k < 4,
        ensures
            self.bytes_in_bucket(k, 256) == self.width(k),
            self.width(0) + self.width(1) + self.width(2) + self.width(3) == 256,
    {
        self.lemma_bytes_below(k, 256);
        self.lemma_bucket_range(k, 0);
    }

    /// On a canvas that the system can run on, every byte sends every
    /// pixel of the canvas to a pixel of the canvas.
    pub proof fn lemma_step_keeps_canvas(self, resolution: int, x: int, y: int, draw: u8)
        requires
            self.wf(resolution),
            0 <= x < resolution,
            0 <= y < resolution,
            resolution <= usize::MAX,
        ensures
            self.defined_at(x, y, draw),
            0 <= self.next_x(x, y, draw) < resolution,
            0 <= self.next_y(x, y, draw) < resolution,
    {
        let k = self.bucket(draw);
        assert(self.maps[k].keeps_canvas(self.scale as int, resolution));
        assert(self.maps[k].lands(x, y, self.scale as int, resolution));
    }
}

/// One step of the weighted affine map: draws a byte and sends the cursor
/// where the map of the byte's bucket sends it.
///
/// The cursor must be one that no byte sends below zero.
pub fn fern_next(cursor: [usize; 2], system: &WeightedAffineMap) -> (next: [usize; 2])
    requires
        system.scale > 0,
        forall|draw: u8| #[trigger] system.defined_at(cursor[0] as int, cursor[1] as int, draw),
    ensures
        exists|draw: u8|
            next[0] == #[trigger] system.next_x(cursor[0] as int, cursor[1] as int, draw)
                && next[1] == system.next_y(cursor[0] as int, cursor[1] as int, draw),
{
    let draw: u8 = random_byte();
    assert(system.defined_at(cursor[0] as int, cursor[1] as int, draw));
    system.apply(cursor, draw)
}

} // verus!
