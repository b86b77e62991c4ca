//! The accumulators: what one visit of the cursor does to the raster.
//!
//! Every channel is a byte and saturates: it stops at 255 when raised and
//! at 0 when lowered.

use vstd::prelude::*;

verus! {

/// The policy by which a visit changes the pixel under the cursor.
#[derive(Clone, Copy, Debug, PartialEq, Eq, Structural)]
pub enum Accumulator {
    /// One channel, raised by one: a clipped count of visits.
    SingleChannelIncrement,
    /// One channel, lowered by one: the same count on a lit raster.
    SingleChannelDecrement,
    /// Three channels, each lowered by one on its own.
    MultiChannelSubtractive,
}

impl Accumulator {
    /// Bytes per pixel.
    pub open spec fn channels(self) -> int {
        match self {
            Accumulator::MultiChannelSubtractive => 3,
            _ => 1,
        }
    }

    /// The value that every byte of a fresh raster has under this policy:
    /// dark where visits raise it, fully lit where they lower it.
    pub open spec fn background(self) -> u8 {
        match self {
            Accumulator::SingleChannelIncrement => 0u8,
            _ => 255u8,
        }
    }

    /// Bytes per pixel.
    pub fn channel_count(&self) -> (n: usize)
        ensures
            n == self.channels(),
    {
        match self {
            Accumulator::MultiChannelSubtractive => 3,
            _ => 1,
        }
    }

    /// The value of every byte of a fresh raster.
    pub fn background_value(&self) -> (v: u8)
        ensures
            v == self.background(),
    {
        match self {
            Accumulator::SingleChannelIncrement => 0,
            _ => 255,
        }
    }
}

/// A channel raised by one, saturating at 255.
pub open spec fn raised(v: u8) -> u8 {
    if v == 255 {
        255u8
    } else {
        (v + 1) as u8
    }
}

/// A channel lowered by one, saturating at 0.
pub open spec fn lowered(v: u8) -> u8 {
    if v == 0 {
        0u8
    } else {
        (v - 1) as u8
    }
}

/// A channel raised `n` times in a row.
pub open spec fn raised_by(v: u8, n: nat) -> u8
    decreases n,
{
    if n == 0 {
        v
    } else {
        raised(raised_by(v, (n - 1) as nat))
    }
}

/// A channel lowered `n` times in a row.
pub open spec fn lowered_by(v: u8, n: nat) -> u8
    decreases n,
{
    if n == 0 {
        v
    } else {
        lowered(lowered_by(v, (n - 1) as nat))
    }
}

/// However often a channel is raised, it holds the number of visits added
/// to what it held, clipped at 255: it never passes 255 and never wraps.
pub proof fn lemma_raised_saturates(v: u8, n: nat)
    ensures
        raised_by(v, n) == (if v + n <= 255 {
            v + n
        } else {
            255
        }),
        raised_by(v, n) <= 255,
    decreases n,
{
    if n > 0 {
        lemma_raised_saturates(v, (n - 1) as nat);
    }
}

/// However often a channel is lowered, it holds what it held less the
/// number of visits, clipped at 0: it never falls below 0 and never wraps.
pub proof fn lemma_lowered_saturates(v: u8, n: nat)
    ensures
        lowered_by(v, n) == (if v - n >= 0 {
            v - n
        } else {
            0
        }),
        lowered_by(v, n) >= 0,
    decreases n,
{
    if n > 0 {
        lemma_lowered_saturates(v, (n - 1) as nat);
    }
}

/// Offset of the first byte of the pixel `(x, y)` in a raster whose rows
/// lie `stride` bytes apart: `x` counts rows, `y` the pixels within a row.
pub open spec fn pixel_offset(x: int, y: int, stride: int, channels: int) -> int {
    x * stride + y * channels
}

/// All bytes of the pixel under `cursor` lie within a raster of `len` bytes.
pub open spec fn pixel_fits(len: int, cursor: [usize; 2], stride: int, channels: int) -> bool {
    pixel_offset(cursor[0] as int, cursor[1] as int, stride, channels) + channels <= len
}

/// The raster after one visit of the pixel `(x, y)` under `policy`.
pub open spec fn accumulated(policy: Accumulator, image: Seq<u8>, x: int, y: int, stride: int) -> Seq<
    u8,
> {
    let p = pixel_offset(x, y, stride, policy.channels());
    match policy {
        Accumulator::SingleChannelIncrement => image.update(p, raised(image[p])),
        Accumulator::SingleChannelDecrement => image.update(p, lowered(image[p])),
        Accumulator::MultiChannelSubtractive => image.update(p, lowered(image[p])).update(
            p + 1,
            lowered(image[p + 1]),
        ).update(p + 2, lowered(image[p + 2])),
    }
}

/// The offset of the pixel under the cursor, computed without overflow.
fn offset_of(len: usize, cursor: [usize; 2], stride: usize, channels: usize) -> (p: usize)
    requires
        pixel_fits(len as int, cursor, stride as int, channels as int),
    ensures
        p == pixel_offset(cursor[0] as int, cursor[1] as int, stride as int, channels as int),
        p + channels <= len,
{
    assert(0 <= cursor[0] * stride && 0 <= cursor[1] * channels) by (nonlinear_arith);
    cursor[0] * stride + cursor[1] * channels
}

/// Raises the single channel of the pixel under the cursor by one,
/// saturating at 255.
pub fn increment(image: &mut [u8], cursor: [usize; 2], stride: usize)
    requires
        pixel_fits(old(image)@.len() as int, cursor, stride as int, 1),
    ensures
        final(image)@ == accumulated(
            Accumulator::SingleChannelIncrement,
            old(image)@,
            cursor[0] as int,
            cursor[1] as int,
            stride as int,
        ),
{
    let p: usize = offset_of(image.len(), cursor, stride, 1);
    image[p] = image[p].saturating_add(1);
}

/// Lowers the single channel of the pixel under the cursor by one,
/// saturating at 0.
pub fn decrement(image: &mut [u8], cursor: [usize; 2], stride: usize)
    requires
        pixel_fits(old(image)@.len() as int, cursor, stride as int, 1),
    ensures
        final(image)@ == accumulated(
            Accumulator::SingleChannelDecrement,
            old(image)@,
            cursor[0] as int,
            cursor[1] as int,
            stride as int,
        ),
{
    let p: usize = offset_of(image.len(), cursor, stride, 1);
    image[p] = image[p].saturating_sub(1);
}

/// Lowers each of the three channels of the pixel under the cursor by
/// one, each saturating at 0 on its own.
pub fn change_color(image: &mut [u8], cursor: [usize; 2], stride: usize)
    requires
        pixel_fits(old(image)@.len() as int, cursor, stride as int, 3),
    ensures
        final(image)@ == accumulated(
            Accumulator::MultiChannelSubtractive,
            old(image)@,
            cursor[0] as int,
            cursor[1] as int,
            stride as int,
        ),
{
    let p: usize = offset_of(image.len(), cursor, stride, 3);
    image[p] = image[p].saturating_sub(1);
    image[p + 1] = image[p + 1].saturating_sub(1);
    image[p + 2] = image[p + 2].saturating_sub(1);
}

/// An accumulator chosen when the program is compiled, so that a loop over
/// many visits does not choose again at each of them.
pub trait Accumulate {
    /// The policy that this accumulator follows.
    spec fn policy(&self) -> Accumulator;

    /// One visit of the pixel under the cursor.
    fn apply(&self, image: &mut [u8], cursor: [usize; 2], stride: usize)
        requires
            pixel_fits(old(image)@.len() as int, cursor, stride as int, self.policy().channels()),
        ensures
            final(image)@ == accumulated(
                self.policy(),
                old(image)@,
                cursor[0] as int,
                cursor[1] as int,
                stride as int,
            ),
    ;
}

/// The accumulator of `Accumulator::SingleChannelIncrement`.
pub struct Increment;

/// The accumulator of `Accumulator::SingleChannelDecrement`.
pub struct Decrement;

/// The accumulator of `Accumulator::MultiChannelSubtractive`.
pub struct Subtractive;

impl Accumulate for Increment {
    open spec fn policy(&self) -> Accumulator {
        Accumulator::SingleChannelIncrement
    }

    fn apply(&self, image: &mut [u8], cursor: [usize; 2], stride: usize) {
        increment(image, cursor, stride)
    }
}

impl Accumulate for Decrement {
    open spec fn policy(&self) -> Accumulator {
        Accumulator::SingleChannelDecrement
    }

    fn apply(&self, image: &mut [u8], cursor: [usize; 2], stride: usize) {
        decrement(image, cursor, stride)
    }
}

impl Accumulate for Subtractive {
    open spec fn policy(&self) -> Accumulator {
        Accumulator::MultiChannelSubtractive
    }

    fn apply(&self, image: &mut [u8], cursor: [usize; 2], stride: usize) {
        change_color(image, cursor, stride)
    }
}

/// One visit of the pixel under the cursor, under the policy given.
pub fn accumulate(policy: Accumulator, image: &mut [u8], cursor: [usize; 2], stride: usize)
    requires
        pixel_fits(old(image)@.len() as int, cursor, stride as int, policy.channels()),
    ensures
        final(image)@ == accumulated(
            policy,
            old(image)@,
            cursor[0] as int,
            cursor[1] as int,
            stride as int,
        ),
{
    match policy {
        Accumulator::SingleChannelIncrement => increment(image, cursor, stride),
        Accumulator::SingleChannelDecrement => decrement(image, cursor, stride),
        Accumulator::MultiChannelSubtractive => change_color(image, cursor, stride),
    }
}

} // verus!
