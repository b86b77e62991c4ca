//! A run from start to end: the configuration is checked and the raster
//! made ready, the steps are taken, and the finished raster is handed out.

use vstd::prelude::*;

use crate::accumulator::{Accumulator, Decrement, Increment, Subtractive};
use crate::affine::WeightedAffineMap;
use crate::engine::{
    as_draws, coordinates, cursor_after, draws_fit, iterate, on_canvas, rendered, replay,
    Contraction, Step, StepFunction,
};
use crate::geometry::{fill_polygon, filled, raster_fits};

verus! {

/// Why a configuration cannot be run. A run with such a configuration is
/// not begun.
#[derive(Clone, Copy, Debug, PartialEq, Eq, Structural)]
pub enum ConfigurationError {
    /// The canvas has no pixels.
    ZeroResolution,
    /// The raster of the canvas has more bytes than can be addressed.
    CanvasTooLarge,
    /// The cursor starts off the canvas.
    StartOffCanvas,
    /// The polygon to fill has fewer than three vertices.
    DegeneratePolygon,
    /// There is no point for the cursor to move towards.
    NoVertices,
    /// A point that the cursor moves towards lies off the canvas.
    VertexOffCanvas,
    /// The affine maps divide by zero.
    ZeroScale,
    /// The bounds of the buckets decrease.
    BucketsOutOfOrder,
    /// An affine map sends a pixel of the canvas off the canvas.
    MapLeavesCanvas,
}

/// What a run is made of. It is given once and not changed by the run.
#[derive(Clone, Debug)]
pub struct Configuration {
    /// Width and height of the canvas in pixels.
    pub resolution: usize,
    /// The number of steps of the run.
    pub iterations: usize,
    /// Where the cursor starts.
    pub start: [usize; 2],
    /// The rule that moves the cursor.
    pub step: StepFunction,
    /// The policy by which a visit changes a pixel.
    pub accumulator: Accumulator,
    /// A polygon to light on the fresh raster before the run, if any.
    pub fill: Option<Vec<[usize; 2]>>,
}

/// A finished raster: rows of `stride` bytes, `height` of them, each
/// holding `width` pixels of `channels` bytes.
#[derive(Clone, Debug)]
pub struct PixelBuffer {
    pub width: usize,
    pub height: usize,
    pub stride: usize,
    pub channels: usize,
    pub data: Vec<u8>,
}

impl PixelBuffer {
    /// A row has room for its pixels, and the bytes are those of all rows.
    pub open spec fn wf(&self) -> bool {
        &&& self.stride >= self.width * self.channels
        &&& self.data@.len() == self.height * self.stride
    }
}

/// The number of bytes of a raster of `resolution` rows of `resolution`
/// pixels of `channels` bytes.
pub open spec fn canvas_bytes(resolution: int, channels: int) -> int {
    resolution * (resolution * channels)
}

/// What stops the rule `step` from running on the canvas, if anything.
pub open spec fn step_fault(step: StepFunction, resolution: int) -> Option<ConfigurationError> {
    match step {
        StepFunction::RandomVertexContraction(points) => {
            if points@.len() == 0 {
                Some(ConfigurationError::NoVertices)
            } else if exists|i: int|
                0 <= i < points@.len() && !on_canvas(#[trigger] points@[i], resolution) {
                Some(ConfigurationError::VertexOffCanvas)
            } else {
                None
            }
        },
        StepFunction::WeightedAffineMap(system) => {
            if system.scale == 0 {
                Some(ConfigurationError::ZeroScale)
            } else if !system.ordered() {
                Some(ConfigurationError::BucketsOutOfOrder)
            } else if exists|k: int|
                0 <= k < 4 && !(#[trigger] system.maps[k]).keeps_canvas(
                    system.scale as int,
                    resolution,
                ) {
                Some(ConfigurationError::MapLeavesCanvas)
            } else {
                None
            }
        },
    }
}

/// A rule without a fault is ready for the canvas and has a draw to take.
pub proof fn lemma_faultless_step_is_ready(step: StepFunction, resolution: int)
    ensures
        step_fault(step, resolution) is None <==> step.ready(resolution),
        step.ready(resolution) ==> step.draws() > 0,
{
}

impl Configuration {
    /// Bytes from one row of the raster to the next.
    pub open spec fn stride(&self) -> int {
        self.resolution * self.accumulator.channels()
    }

    /// Bytes of the raster.
    pub open spec fn size(&self) -> int {
        canvas_bytes(self.resolution as int, self.accumulator.channels())
    }

    /// The first thing that is wrong with the configuration, in the order
    /// in which it is checked; `None` if it can be run.
    pub open spec fn fault(&self) -> Option<ConfigurationError> {
        if self.resolution == 0 {
            Some(ConfigurationError::ZeroResolution)
        } else if self.size() > usize::MAX {
            Some(ConfigurationError::CanvasTooLarge)
        } else if !on_canvas(self.start, self.resolution as int) {
            Some(ConfigurationError::StartOffCanvas)
        } else if self.fill is Some && self.fill->0@.len() < 3 {
            Some(ConfigurationError::DegeneratePolygon)
        } else {
            step_fault(self.step, self.resolution as int)
        }
    }

    /// The fresh raster: every byte at the background of the policy.
    pub open spec fn blank(&self) -> Seq<u8> {
        Seq::new(self.size() as nat, |i: int| self.accumulator.background())
    }

    /// The raster before the first step: fresh, with the polygon lit on it
    /// if there is one to fill.
    pub open spec fn initial(&self) -> Seq<u8> {
        match self.fill {
            Some(polygon) => filled(self.blank(), self.resolution as int, self.stride(), polygon@),
            None => self.blank(),
        }
    }

    /// The raster after the configured run on the given draws.
    pub open spec fn outcome(&self, draws: Seq<int>) -> Seq<u8> {
        rendered(
            self.step,
            self.accumulator,
            self.initial(),
            self.stride(),
            coordinates(self.start),
            draws,
        )
    }

    /// The buffer is of the shape that the configuration asks for.
    pub open spec fn shapes(&self, buffer: PixelBuffer) -> bool {
        &&& buffer.width == self.resolution
        &&& buffer.height == self.resolution
        &&& buffer.channels == self.accumulator.channels()
        &&& buffer.stride == self.stride()
        &&& buffer.wf()
    }
}

/// The number of bytes of the raster, if it can be addressed.
fn canvas_size(resolution: usize, channels: usize) -> (size: Option<usize>)
    ensures
        size is Some <==> canvas_bytes(resolution as int, channels as int) <= usize::MAX,
        size is Some ==> size->0 == canvas_bytes(resolution as int, channels as int),
{
    match resolution.checked_mul(channels) {
        Some(row) => resolution.checked_mul(row),
        None => {
            assert(resolution * (resolution * channels) >= resolution * channels)
                by (nonlinear_arith)
                requires
                    resolution >= 1,
                    resolution * channels >= 0,
            ;
            None
        },
    }
}

/// Whether every point lies on the canvas.
fn all_on_canvas(points: &Vec<[usize; 2]>, resolution: usize) -> (ok: bool)
    ensures
        ok == (forall|i: int|
            0 <= i < points@.len() ==> on_canvas(#[trigger] points@[i], resolution as int)),
{
    let mut i: usize = 0;
    while i < points.len()
        invariant
            i <= points.len(),
            forall|j: int| 0 <= j < i ==> on_canvas(#[trigger] points@[j], resolution as int),
        decreases points.len() - i,
    {
        if !(points[i][0] < resolution && points[i][1] < resolution) {
            return false;
        }
        i += 1;
    }
    true
}

/// Whether each of the four maps keeps the canvas.
fn all_keep_canvas(system: &WeightedAffineMap, resolution: usize) -> (ok: bool)
    requires
        system.scale > 0,
    ensures
        ok == (forall|k: int|
            0 <= k < 4 ==> (#[trigger] system.maps[k]).keeps_canvas(
                system.scale as int,
                resolution as int,
            )),
{
    let mut k: usize = 0;
    while k < 4
        invariant
            k <= 4,
            system.scale > 0,
            forall|j: int|
                0 <= j < k ==> (#[trigger] system.maps[j]).keeps_canvas(
                    system.scale as int,
                    resolution as int,
                ),
        decreases 4 - k,
    {
        if !system.maps[k].check_canvas(system.scale, resolution) {
            return false;
        }
        k += 1;
    }
    true
}

/// The run of `iterations` steps on fresh draws, under the policy given.
/// The policy is told apart here, once, and not again at each step.
fn run<S: Step>(
    step: &S,
    policy: Accumulator,
    image: &mut [u8],
    resolution: usize,
    stride: usize,
    start: [usize; 2],
    iterations: usize,
) -> (end: [usize; 2])
    requires
        step.kind().ready(resolution as int),
        step.kind().draws() > 0,
        on_canvas(start, resolution as int),
        raster_fits(old(image)@.len() as int, resolution as int, stride as int, policy.channels()),
    ensures
        exists|draws: Seq<int>|
            {
                &&& draws.len() == iterations
                &&& draws_fit(step.kind(), draws)
                &&& final(image)@ == #[trigger] rendered(
                    step.kind(),
                    policy,
                    old(image)@,
                    stride as int,
                    coordinates(start),
                    draws,
                )
                &&& coordinates(end) == cursor_after(step.kind(), coordinates(start), draws)
            },
        final(image)@.len() == old(image)@.len(),
{
    match policy {
        Accumulator::SingleChannelIncrement => iterate(
            step,
            &Increment,
            image,
            resolution,
            stride,
            start,
            iterations,
        ),
        Accumulator::SingleChannelDecrement => iterate(
            step,
            &Decrement,
            image,
            resolution,
            stride,
            start,
            iterations,
        ),
        Accumulator::MultiChannelSubtractive => iterate(
            step,
            &Subtractive,
            image,
            resolution,
            stride,
            start,
            iterations,
        ),
    }
}

/// The run on the given draws, under the policy given.
fn rerun<S: Step>(
    step: &S,
    policy: Accumulator,
    image: &mut [u8],
    resolution: usize,
    stride: usize,
    start: [usize; 2],
    draws: &Vec<usize>,
) -> (end: [usize; 2])
    requires
        step.kind().ready(resolution as int),
        on_canvas(start, resolution as int),
        draws_fit(step.kind(), as_draws(draws@)),
        raster_fits(old(image)@.len() as int, resolution as int, stride as int, policy.channels()),
    ensures
        final(image)@ == rendered(
            step.kind(),
            policy,
            old(image)@,
            stride as int,
            coordinates(start),
            as_draws(draws@),
        ),
        coordinates(end) == cursor_after(step.kind(), coordinates(start), as_draws(draws@)),
        final(image)@.len() == old(image)@.len(),
{
    match policy {
        Accumulator::SingleChannelIncrement => replay(
            step,
            &Increment,
            image,
            resolution,
            stride,
            start,
            draws,
        ),
        Accumulator::SingleChannelDecrement => replay(
            step,
            &Decrement,
            image,
            resolution,
            stride,
            start,
            draws,
        ),
        Accumulator::MultiChannelSubtractive => replay(
            step,
            &Subtractive,
            image,
            resolution,
            stride,
            start,
            draws,
        ),
    }
}

impl Configuration {
    /// Checks the configuration: says what is wrong with it first, or that
    /// it can be run.
    pub fn validate(&self) -> (r: Result<(), ConfigurationError>)
        ensures
            r == (match self.fault() {
                Some(e) => Err::<(), ConfigurationError>(e),
                None => Ok(()),
            }),
    {
        if self.resolution == 0 {
            return Err(ConfigurationError::ZeroResolution);
        }
        if canvas_size(self.resolution, self.accumulator.channel_count()).is_none() {
            return Err(ConfigurationError::CanvasTooLarge);
        }
        if !(self.start[0] < self.resolution && self.start[1] < self.resolution) {
            return Err(ConfigurationError::StartOffCanvas);
        }
        match &self.fill {
            Some(polygon) => {
                if polygon.len() < 3 {
                    return Err(ConfigurationError::DegeneratePolygon);
                }
            },
            None => {},
        }
        match &self.step {
            StepFunction::RandomVertexContraction(points) => {
                if points.len() == 0 {
                    return Err(ConfigurationError::NoVertices);
                }
                if !all_on_canvas(points, self.resolution) {
                    return Err(ConfigurationError::VertexOffCanvas);
                }
            },
            StepFunction::WeightedAffineMap(system) => {
                if system.scale == 0 {
                    return Err(ConfigurationError::ZeroScale);
                }
                if !system.is_ordered() {
                    return Err(ConfigurationError::BucketsOutOfOrder);
                }
                if !all_keep_canvas(system, self.resolution) {
                    return Err(ConfigurationError::MapLeavesCanvas);
                }
            },
        }
        Ok(())
    }

    /// Makes the raster ready: checks the configuration, sets every byte
    /// to the background of the policy and lights the polygon, if there is
    /// one to fill.
    pub fn init(&self) -> (r: Result<PixelBuffer, ConfigurationError>)
        ensures
            match r {
                Ok(buffer) => self.fault() is None && self.shapes(buffer) && buffer.data@
                    == self.initial(),
                Err(e) => self.fault() == Some(e),
            },
    {
        match self.validate() {
            Err(e) => {
                return Err(e);
            },
            Ok(_) => {},
        }
        let channels: usize = self.accumulator.channel_count();
        let size: usize = canvas_size(self.resolution, channels).unwrap();
        assert(self.resolution * channels <= self.resolution * (self.resolution * channels))
            by (nonlinear_arith)
            requires
                self.resolution >= 1,
                self.resolution * channels >= 0,
        ;
        let stride: usize = self.resolution * channels;
        let mut data: Vec<u8> = vec![self.accumulator.background_value(); size];
        assert(data@ =~= self.blank());
        match &self.fill {
            Some(polygon) => {
                proof {
                    lemma_square_raster_fits(self.resolution as int, channels as int);
                }
                fill_polygon(data.as_mut_slice(), self.resolution, stride, polygon);
            },
            None => {},
        }
        Ok(
            PixelBuffer {
                width: self.resolution,
                height: self.resolution,
                stride,
                channels,
                data,
            },
        )
    }

    /// The whole run on fresh draws: the raster is made ready, the
    /// configured number of steps is taken, and the raster is handed out.
    ///
    /// Whatever was drawn, the raster is the outcome of the configuration
    /// on some sequence of as many draws as there are steps.
    pub fn render(&self) -> (r: Result<PixelBuffer, ConfigurationError>)
        ensures
            match r {
                Ok(buffer) => self.fault() is None && self.shapes(buffer) && exists|
                    draws: Seq<int>,
                |
                    {
                        &&& draws.len() == self.iterations
                        &&& draws_fit(self.step, draws)
                        &&& buffer.data@ == #[trigger] self.outcome(draws)
                    },
                Err(e) => self.fault() == Some(e),
            },
    {
        let made = self.init();
        let mut buffer: PixelBuffer = match made {
            Ok(buffer) => buffer,
            Err(e) => {
                return Err(e);
            },
        };
        proof {
            lemma_faultless_step_is_ready(self.step, self.resolution as int);
            lemma_square_raster_fits(self.resolution as int, self.accumulator.channels());
        }
        let mut data: Vec<u8> = buffer.data;
        match &self.step {
            StepFunction::RandomVertexContraction(points) => {
                let step = Contraction { points };
                assert(step.kind() == self.step);
                run(
                    &step,
                    self.accumulator,
                    data.as_mut_slice(),
                    self.resolution,
                    buffer.stride,
                    self.start,
                    self.iterations,
                );
            },
            StepFunction::WeightedAffineMap(system) => {
                assert(system.kind() == self.step);
                run(
                    system,
                    self.accumulator,
                    data.as_mut_slice(),
                    self.resolution,
                    buffer.stride,
                    self.start,
                    self.iterations,
                );
            },
        }
        proof {
            let drawn = choose|draws: Seq<int>|
                {
                    &&& draws.len() == self.iterations
                    &&& draws_fit(self.step, draws)
                    &&& data@ == #[trigger] rendered(
                        self.step,
                        self.accumulator,
                        self.initial(),
                        self.stride(),
                        coordinates(self.start),
                        draws,
                    )
                };
            assert(data@ == self.outcome(drawn));
        }
        buffer.data = data;
        Ok(buffer)
    }

    /// The whole run on the draws given, one step for each: the raster is
    /// made ready, the steps are taken, and the raster is handed out.
    ///
    /// The draws must be as many as the configured steps, and each must be
    /// one that the rule can take.
    pub fn render_with(&self, draws: &Vec<usize>) -> (r: Result<PixelBuffer, ConfigurationError>)
        requires
            self.fault() is None ==> draws@.len() == self.iterations && draws_fit(
                self.step,
                as_draws(draws@),
            ),
        ensures
            match r {
                Ok(buffer) => self.fault() is None && self.shapes(buffer) && buffer.data@
                    == self.outcome(as_draws(draws@)),
                Err(e) => self.fault() == Some(e),
            },
    {
        let made = self.init();
        let mut buffer: PixelBuffer = match made {
            Ok(buffer) => buffer,
            Err(e) => {
                return Err(e);
            },
        };
        proof {
            lemma_faultless_step_is_ready(self.step, self.resolution as int);
            lemma_square_raster_fits(self.resolution as int, self.accumulator.channels());
        }
        let mut data: Vec<u8> = buffer.data;
        match &self.step {
            StepFunction::RandomVertexContraction(points) => {
                let step = Contraction { points };
                assert(step.kind() == self.step);
                rerun(
                    &step,
                    self.accumulator,
                    data.as_mut_slice(),
                    self.resolution,
                    buffer.stride,
                    self.start,
                    draws,
                );
            },
            StepFunction::WeightedAffineMap(system) => {
                assert(system.kind() == self.step);
                rerun(
                    system,
                    self.accumulator,
                    data.as_mut_slice(),
                    self.resolution,
                    buffer.stride,
                    self.start,
                    draws,
                );
            },
        }
        buffer.data = data;
        Ok(buffer)
    }
}

/// A raster of `resolution` rows of `resolution` pixels holds the whole
/// canvas, at its own number of channels and at one.
pub proof fn lemma_square_raster_fits(resolution: int, channels: int)
    requires
        resolution >= 1,
        channels >= 1,
    ensures
        raster_fits(
            canvas_bytes(resolution, channels),
            resolution,
            resolution * channels,
            channels,
        ),
        raster_fits(canvas_bytes(resolution, channels), resolution, resolution * channels, 1),
{
    let stride = resolution * channels;
    assert((resolution - 1) * stride + stride == resolution * stride) by (nonlinear_arith);
    assert((resolution - 1) * channels + channels == resolution * channels) by (nonlinear_arith);
    assert(resolution <= resolution * channels) by (nonlinear_arith)
        requires
            resolution >= 1,
            channels >= 1,
    ;
}

/// The chaos game on a raster of three channels: `iterations` steps from
/// the centre of the canvas, each halfway towards a point picked at
/// random, each lowering the three channels of the pixel it reaches.
///
/// Whatever was drawn, the raster is the one that those draws decide.
/// Where there is a step to take, there must be a point to move towards,
/// the points must lie on the canvas and the raster must hold the canvas.
pub fn draw_image_cpu(
    image: &mut [u8],
    iterations: usize,
    resolution: usize,
    stride: usize,
    points: &Vec<[usize; 2]>,
)
    requires
        iterations > 0 ==> StepFunction::RandomVertexContraction(*points).ready(resolution as int),
        iterations > 0 ==> raster_fits(
            old(image)@.len() as int,
            resolution as int,
            stride as int,
            3,
        ),
    ensures
        exists|draws: Seq<int>|
            {
                &&& draws.len() == iterations
                &&& draws_fit(StepFunction::RandomVertexContraction(*points), draws)
                &&& final(image)@ == #[trigger] rendered(
                    StepFunction::RandomVertexContraction(*points),
                    Accumulator::MultiChannelSubtractive,
                    old(image)@,
                    stride as int,
                    (resolution as int / 2, resolution as int / 2),
                    draws,
                )
            },
{
    if iterations == 0 {
        assert(image@ == rendered(
            StepFunction::RandomVertexContraction(*points),
            Accumulator::MultiChannelSubtractive,
            image@,
            stride as int,
            (resolution as int / 2, resolution as int / 2),
            Seq::<int>::empty(),
        ));
        return ;
    }
    let step = Contraction { points };
    let start: [usize; 2] = [resolution / 2, resolution / 2];
    assert(on_canvas(points@[0], resolution as int));
    iterate(&step, &Subtractive, image, resolution, stride, start, iterations);
}

} // verus!
