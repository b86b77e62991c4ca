//! The driver: the step functions as one capability, the run of a fixed
//! number of steps over a raster, and what it leaves there.
//!
//! A run is a function of its configuration and of the draws that chance
//! supplies. Each step first moves the cursor, then lets the accumulator
//! visit the pixel that the cursor has reached.

use vstd::prelude::*;

use crate::accumulator::{accumulated, pixel_fits, pixel_offset, Accumulate, Accumulator};
use crate::affine::WeightedAffineMap;
use crate::geometry::{intermediate, midpoint, raster_fits};
use crate::random::{random_byte, random_index};

verus! {

/// The pixel `p` lies on the canvas of `resolution` by `resolution` pixels.
pub open spec fn on_canvas(p: [usize; 2], resolution: int) -> bool {
    p[0] < resolution && p[1] < resolution
}

/// The coordinates of the pixel `p` as a pair of numbers.
pub open spec fn coordinates(p: [usize; 2]) -> (int, int) {
    (p[0] as int, p[1] as int)
}

/// The rule by which a step moves the cursor.
#[derive(Clone, Debug)]
pub enum StepFunction {
    /// Halfway towards one of the given points, picked evenly at random.
    RandomVertexContraction(Vec<[usize; 2]>),
    /// By one of four affine maps, picked by a random byte.
    WeightedAffineMap(WeightedAffineMap),
}

impl StepFunction {
    /// The number of outcomes of a draw: a draw is a number below it.
    pub open spec fn draws(self) -> int {
        match self {
            StepFunction::RandomVertexContraction(points) => points@.len() as int,
            StepFunction::WeightedAffineMap(_) => 256,
        }
    }

    /// The x coordinate of the cursor after a step from `(x, y)` on `draw`.
    pub open spec fn next_x(self, x: int, y: int, draw: int) -> int {
        match self {
            StepFunction::RandomVertexContraction(points) => midpoint(x, points@[draw][0] as int),
            StepFunction::WeightedAffineMap(system) => system.next_x(x, y, draw as u8),
        }
    }

    /// The y coordinate of the cursor after a step from `(x, y)` on `draw`.
    pub open spec fn next_y(self, x: int, y: int, draw: int) -> int {
        match self {
            StepFunction::RandomVertexContraction(points) => midpoint(y, points@[draw][1] as int),
            StepFunction::WeightedAffineMap(system) => system.next_y(x, y, draw as u8),
        }
    }

    /// The step from `(x, y)` on `draw` leads to a pixel.
    pub open spec fn defined_at(self, x: int, y: int, draw: int) -> bool {
        match self {
            StepFunction::RandomVertexContraction(_) => true,
            StepFunction::WeightedAffineMap(system) => system.scale > 0 && system.defined_at(
                x,
                y,
                draw as u8,
            ),
        }
    }

    /// The rule can run on a canvas of `resolution` by `resolution`
    /// pixels: there is a point to move towards and every point lies on
    /// the canvas, or the affine maps all keep the canvas.
    pub open spec fn ready(self, resolution: int) -> bool {
        match self {
            StepFunction::RandomVertexContraction(points) => points@.len() > 0 && forall|i: int|
                0 <= i < points@.len() ==> on_canvas(#[trigger] points@[i], resolution),
            StepFunction::WeightedAffineMap(system) => system.wf(resolution),
        }
    }

    /// A rule that is ready for a canvas never leads off it: from a pixel
    /// of the canvas every draw leads to a pixel of the canvas.
    pub proof fn lemma_step_stays_on_canvas(self, resolution: int, x: int, y: int, draw: int)
        requires
            self.ready(resolution),
            0 <= x < resolution,
            0 <= y < resolution,
            resolution <= usize::MAX,
            0 <= draw < self.draws(),
        ensures
            self.defined_at(x, y, draw),
            0 <= self.next_x(x, y, draw) < resolution,
            0 <= self.next_y(x, y, draw) < resolution,
    {
        match self {
            StepFunction::RandomVertexContraction(points) => {
                assert(on_canvas(points@[draw], resolution));
            },
            StepFunction::WeightedAffineMap(system) => {
                system.lemma_step_keeps_canvas(resolution, x, y, draw as u8);
            },
        }
    }
}

/// The cursor after the steps that `draws` decide, one after the other,
/// from `start`.
pub open spec fn cursor_after(step: StepFunction, start: (int, int), draws: Seq<int>) -> (int, int)
    decreases draws.len(),
{
    if draws.len() == 0 {
        start
    } else {
        let before = cursor_after(step, start, draws.drop_last());
        (
            step.next_x(before.0, before.1, draws.last()),
            step.next_y(before.0, before.1, draws.last()),
        )
    }
}

/// The raster after the steps that `draws` decide: after each step the
/// accumulator has visited the pixel that the cursor reached.
pub open spec fn rendered(
    step: StepFunction,
    policy: Accumulator,
    image: Seq<u8>,
    stride: int,
    start: (int, int),
    draws: Seq<int>,
) -> Seq<u8>
    decreases draws.len(),
{
    if draws.len() == 0 {
        image
    } else {
        let at = cursor_after(step, start, draws);
        accumulated(
            policy,
            rendered(step, policy, image, stride, start, draws.drop_last()),
            at.0,
            at.1,
            stride,
        )
    }
}

/// Every draw of the sequence is one that the rule can take.
pub open spec fn draws_fit(step: StepFunction, draws: Seq<int>) -> bool {
    forall|i: int| 0 <= i < draws.len() ==> 0 <= #[trigger] draws[i] < step.draws()
}

/// The draws of a vector as numbers.
pub open spec fn as_draws(draws: Seq<usize>) -> Seq<int> {
    draws.map_values(|d: usize| d as int)
}

/// A run is decided by its configuration and its draws: equal rules,
/// policies, rasters, strides, starts and draws leave equal rasters and
/// equal cursors.
pub proof fn lemma_run_is_determined(
    step1: StepFunction,
    step2: StepFunction,
    policy1: Accumulator,
    policy2: Accumulator,
    image1: Seq<u8>,
    image2: Seq<u8>,
    stride1: int,
    stride2: int,
    start1: (int, int),
    start2: (int, int),
    draws1: Seq<int>,
    draws2: Seq<int>,
)
    requires
        step1 == step2,
        policy1 == policy2,
        image1 == image2,
        stride1 == stride2,
        start1 == start2,
        draws1 == draws2,
    ensures
        rendered(step1, policy1, image1, stride1, start1, draws1) == rendered(
            step2,
            policy2,
            image2,
            stride2,
            start2,
            draws2,
        ),
        cursor_after(step1, start1, draws1) == cursor_after(step2, start2, draws2),
{
}

/// Under a rule that is ready for the canvas, a cursor that starts on the
/// canvas is on the canvas after every step, whatever is drawn.
pub proof fn lemma_cursor_stays_on_canvas(
    step: StepFunction,
    resolution: int,
    start: (int, int),
    draws: Seq<int>,
)
    requires
        step.ready(resolution),
        resolution <= usize::MAX,
        0 <= start.0 < resolution,
        0 <= start.1 < resolution,
        draws_fit(step, draws),
    ensures
        0 <= cursor_after(step, start, draws).0 < resolution,
        0 <= cursor_after(step, start, draws).1 < resolution,
    decreases draws.len(),
{
    if draws.len() > 0 {
        let earlier = draws.drop_last();
        assert forall|i: int| 0 <= i < earlier.len() implies 0 <= #[trigger] earlier[i]
            < step.draws() by {
            assert(earlier[i] == draws[i]);
        }
        lemma_cursor_stays_on_canvas(step, resolution, start, earlier);
        let before = cursor_after(step, start, earlier);
        step.lemma_step_stays_on_canvas(resolution, before.0, before.1, draws.last());
    }
}

/// On a raster that holds the canvas, no visit of such a run falls
/// outside the raster: every byte that the accumulator touches lies within
/// it, and the raster keeps its length.
pub proof fn lemma_run_stays_in_raster(
    step: StepFunction,
    policy: Accumulator,
    image: Seq<u8>,
    resolution: int,
    stride: int,
    start: (int, int),
    draws: Seq<int>,
)
    requires
        step.ready(resolution),
        resolution <= usize::MAX,
        0 <= start.0 < resolution,
        0 <= start.1 < resolution,
        draws_fit(step, draws),
        0 <= stride,
        raster_fits(image.len() as int, resolution, stride, policy.channels()),
    ensures
        rendered(step, policy, image, stride, start, draws).len() == image.len(),
        forall|n: int|
            #![trigger draws.take(n)]
            0 < n <= draws.len() ==> {
                let at = cursor_after(step, start, draws.take(n));
                0 <= pixel_offset(at.0, at.1, stride, policy.channels()) && pixel_offset(
                    at.0,
                    at.1,
                    stride,
                    policy.channels(),
                ) + policy.channels() <= image.len()
            },
    decreases draws.len(),
{
    assert forall|n: int| #![trigger draws.take(n)] 0 < n <= draws.len() implies {
        let at = cursor_after(step, start, draws.take(n));
        0 <= pixel_offset(at.0, at.1, stride, policy.channels()) && pixel_offset(
            at.0,
            at.1,
            stride,
            policy.channels(),
        ) + policy.channels() <= image.len()
    } by {
        let taken = draws.take(n);
        assert forall|i: int| 0 <= i < taken.len() implies 0 <= #[trigger] taken[i]
            < step.draws() by {
            assert(taken[i] == draws[i]);
        }
        lemma_cursor_stays_on_canvas(step, resolution, start, taken);
        let at = cursor_after(step, start, taken);
        lemma_offset_within(
            image.len() as int,
            resolution,
            stride,
            policy.channels(),
            at.0,
            at.1,
        );
    }
    if draws.len() > 0 {
        let earlier = draws.drop_last();
        assert forall|i: int| 0 <= i < earlier.len() implies 0 <= #[trigger] earlier[i]
            < step.draws() by {
            assert(earlier[i] == draws[i]);
        }
        lemma_run_stays_in_raster(step, policy, image, resolution, stride, start, earlier);
        assert(draws.take(draws.len() as int) =~= draws);
    }
}

/// On a raster that holds the canvas, the bytes of a pixel of the canvas
/// lie within the raster.
proof fn lemma_offset_within(len: int, resolution: int, stride: int, channels: int, x: int, y: int)
    requires
        raster_fits(len, resolution, stride, channels),
        0 <= x < resolution,
        0 <= y < resolution,
        0 <= stride,
        0 <= channels,
    ensures
        0 <= pixel_offset(x, y, stride, channels),
        pixel_offset(x, y, stride, channels) + channels <= len,
{
    assert(0 <= x * stride <= (resolution - 1) * stride) by (nonlinear_arith)
        requires
            0 <= x <= resolution - 1,
            0 <= stride,
    ;
    assert(0 <= y * channels <= (resolution - 1) * channels) by (nonlinear_arith)
        requires
            0 <= y <= resolution - 1,
            0 <= channels,
    ;
}

/// A step function chosen when the program is compiled, so that a loop
/// over many steps does not choose again at each of them.
pub trait Step {
    /// The rule that this step function follows.
    spec fn kind(&self) -> StepFunction;

    /// Draws what decides the next step.
    fn draw(&self) -> (d: usize)
        requires
            self.kind().draws() > 0,
        ensures
            d < self.kind().draws(),
    ;

    /// The cursor after the step that `d` decides.
    fn advance(&self, cursor: [usize; 2], d: usize) -> (next: [usize; 2])
        requires
            d < self.kind().draws(),
            self.kind().defined_at(cursor[0] as int, cursor[1] as int, d as int),
        ensures
            next[0] == self.kind().next_x(cursor[0] as int, cursor[1] as int, d as int),
            next[1] == self.kind().next_y(cursor[0] as int, cursor[1] as int, d as int),
    ;
}

/// The step function of `StepFunction::RandomVertexContraction` on the
/// points it borrows.
pub struct Contraction<'a> {
    pub points: &'a Vec<[usize; 2]>,
}

impl<'a> Step for Contraction<'a> {
    open spec fn kind(&self) -> StepFunction {
        StepFunction::RandomVertexContraction(*self.points)
    }

    fn draw(&self) -> (d: usize) {
        random_index(self.points.len())
    }

    fn advance(&self, cursor: [usize; 2], d: usize) -> (next: [usize; 2]) {
        intermediate(cursor, self.points[d])
    }
}

impl Step for WeightedAffineMap {
    open spec fn kind(&self) -> StepFunction {
        StepFunction::WeightedAffineMap(*self)
    }

    fn draw(&self) -> (d: usize) {
        random_byte() as usize
    }

    fn advance(&self, cursor: [usize; 2], d: usize) -> (next: [usize; 2]) {
        self.apply(cursor, d as u8)
    }
}

/// On a raster that holds the whole canvas, every pixel of the canvas has
/// all its bytes within the raster.
pub proof fn lemma_canvas_pixel_fits(
    len: int,
    resolution: int,
    stride: int,
    channels: int,
    cursor: [usize; 2],
)
    requires
        raster_fits(len, resolution, stride, channels),
        on_canvas(cursor, resolution),
        0 <= stride,
        0 <= channels,
    ensures
        pixel_fits(len, cursor, stride, channels),
{
    lemma_offset_within(len, resolution, stride, channels, cursor[0] as int, cursor[1] as int);
}

/// One step: the cursor moves as `d` decides, then the accumulator visits
/// the pixel it has reached.
pub fn visit<S: Step, A: Accumulate>(
    step: &S,
    acc: &A,
    image: &mut [u8],
    resolution: usize,
    stride: usize,
    cursor: [usize; 2],
    d: usize,
) -> (next: [usize; 2])
    requires
        step.kind().ready(resolution as int),
        on_canvas(cursor, resolution as int),
        d < step.kind().draws(),
        raster_fits(
            old(image)@.len() as int,
            resolution as int,
            stride as int,
            acc.policy().channels(),
        ),
    ensures
        next[0] == step.kind().next_x(cursor[0] as int, cursor[1] as int, d as int),
        next[1] == step.kind().next_y(cursor[0] as int, cursor[1] as int, d as int),
        on_canvas(next, resolution as int),
        final(image)@ == accumulated(
            acc.policy(),
            old(image)@,
            next[0] as int,
            next[1] as int,
            stride as int,
        ),
        final(image)@.len() == old(image)@.len(),
{
    proof {
        step.kind().lemma_step_stays_on_canvas(
            resolution as int,
            cursor[0] as int,
            cursor[1] as int,
            d as int,
        );
    }
    let next: [usize; 2] = step.advance(cursor, d);
    proof {
        lemma_canvas_pixel_fits(
            image@.len() as int,
            resolution as int,
            stride as int,
            acc.policy().channels(),
            next,
        );
    }
    acc.apply(image, next, stride);
    next
}

/// Runs one step for each of the given draws, in their order, and returns
/// the cursor where the last one left it.
pub fn replay<S: Step, A: Accumulate>(
    step: &S,
    acc: &A,
    image: &mut [u8],
    resolution: usize,
    stride: usize,
    start: [usize; 2],
    draws: &Vec<usize>,
) -> (end: [usize; 2])
    requires
        step.kind().ready(resolution as int),
        on_canvas(start, resolution as int),
        draws_fit(step.kind(), as_draws(draws@)),
        raster_fits(
            old(image)@.len() as int,
            resolution as int,
            stride as int,
            acc.policy().channels(),
        ),
    ensures
        final(image)@ == rendered(
            step.kind(),
            acc.policy(),
            old(image)@,
            stride as int,
            coordinates(start),
            as_draws(draws@),
        ),
        coordinates(end) == cursor_after(step.kind(), coordinates(start), as_draws(draws@)),
        on_canvas(end, resolution as int),
        final(image)@.len() == old(image)@.len(),
{
    let ghost before = image@;
    let ghost all = as_draws(draws@);
    let mut cursor: [usize; 2] = start;
    let mut i: usize = 0;
    while i < draws.len()
        invariant
            i <= draws.len(),
            all == as_draws(draws@),
            step.kind().ready(resolution as int),
            draws_fit(step.kind(), all),
            on_canvas(cursor, resolution as int),
            image@.len() == before.len(),
            raster_fits(
                before.len() as int,
                resolution as int,
                stride as int,
                acc.policy().channels(),
            ),
            image@ == rendered(
                step.kind(),
                acc.policy(),
                before,
                stride as int,
                coordinates(start),
                all.take(i as int),
            ),
            coordinates(cursor) == cursor_after(
                step.kind(),
                coordinates(start),
                all.take(i as int),
            ),
        decreases draws.len() - i,
    {
        let d: usize = draws[i];
        proof {
            assert(all[i as int] == d);
            assert(all.take(i + 1).drop_last() =~= all.take(i as int));
            assert(all.take(i + 1).last() == d);
        }
        cursor = visit(step, acc, image, resolution, stride, cursor, d);
        i += 1;
    }
    proof {
        assert(all.take(i as int) =~= all);
    }
    cursor
}

/// Runs `iterations` steps, each on a fresh draw, and returns the cursor
/// where the last one left it. Whatever was drawn, the raster is the one
/// that a replay of those draws leaves.
pub fn iterate<S: Step, A: Accumulate>(
    step: &S,
    acc: &A,
    image: &mut [u8],
    resolution: usize,
    stride: usize,
    start: [usize; 2],
    iterations: usize,
) -> (end: [usize; 2])
    requires
        step.kind().ready(resolution as int),
        step.kind().draws() > 0,
        on_canvas(start, resolution as int),
        raster_fits(
            old(image)@.len() as int,
            resolution as int,
            stride as int,
            acc.policy().channels(),
        ),
    ensures
        exists|draws: Seq<int>|
            {
                &&& draws.len() == iterations
                &&& draws_fit(step.kind(), draws)
                &&& final(image)@ == #[trigger] rendered(
                    step.kind(),
                    acc.policy(),
                    old(image)@,
                    stride as int,
                    coordinates(start),
                    draws,
                )
                &&& coordinates(end) == cursor_after(step.kind(), coordinates(start), draws)
            },
        on_canvas(end, resolution as int),
        final(image)@.len() == old(image)@.len(),
{
    let ghost before = image@;
    let ghost mut drawn: Seq<int> = Seq::empty();
    let mut cursor: [usize; 2] = start;
    let mut i: usize = 0;
    while i < iterations
        invariant
            i <= iterations,
            drawn.len() == i,
            step.kind().ready(resolution as int),
            step.kind().draws() > 0,
            draws_fit(step.kind(), drawn),
            on_canvas(cursor, resolution as int),
            image@.len() == before.len(),
            raster_fits(
                before.len() as int,
                resolution as int,
                stride as int,
                acc.policy().channels(),
            ),
            image@ == rendered(
                step.kind(),
                acc.policy(),
                before,
                stride as int,
                coordinates(start),
                drawn,
            ),
            coordinates(cursor) == cursor_after(step.kind(), coordinates(start), drawn),
        decreases iterations - i,
    {
        let d: usize = step.draw();
        proof {
            assert(drawn.push(d as int).drop_last() =~= drawn);
            drawn = drawn.push(d as int);
        }
        cursor = visit(step, acc, image, resolution, stride, cursor, d);
        i += 1;
    }
    cursor
}

} // verus!
