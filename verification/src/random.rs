//! Values that are drawn at random.

use rand::rngs::SmallRng;
use rand::Rng;
use vstd::prelude::*;

use crate::protocol::model::Distribution;

verus! {

/// `SmallRng` of the crate `rand`: a generator of random numbers.
#[verifier::external_type_specification]
#[verifier::external_body]
pub struct ExSmallRng(SmallRng);

/// `Rng::random_range` of the crate `rand` on bytes: draws from the range, both ends included. An
/// empty range would stop the program. Which value is drawn is left to chance.
#[verifier::external_body]
fn draw_u8(rng: &mut SmallRng, low: u8, high: u8) -> (r: u8)
    requires
        low <= high,
    ensures
        low <= r <= high,
{
    rng.random_range(low..=high)
}

/// `Rng::random_range` of the crate `rand` on 32-bit numbers: draws from the range, both ends
/// included. An empty range would stop the program. Which value is drawn is left to chance.
#[verifier::external_body]
fn draw_u32(rng: &mut SmallRng, low: u32, high: u32) -> (r: u32)
    requires
        low <= high,
    ensures
        low <= r <= high,
{
    rng.random_range(low..=high)
}

/// A number that was drawn from a normal distribution for a range.
#[derive(Debug, Clone, Copy, PartialEq, Eq, Structural)]
pub struct Sample {
    pub low: u32,
    pub high: u32,
    pub value: i64,
}

/// Draws from a normal distribution around the middle of a range, a quarter of the range wide, and
/// rounds to a whole number. Nothing keeps a draw within the range. A source keeps no record of
/// what it drew unless it says so.
pub trait GaussianSource: Sized {
    open spec fn keeps_record(&self) -> bool {
        false
    }

    open spec fn samples(&self) -> Seq<Sample> {
        Seq::empty()
    }

    fn sample(&mut self, rng: &mut SmallRng, low: u32, high: u32) -> (r: i64)
        ensures
            old(self).keeps_record() ==> final(self).keeps_record() && final(self).samples()
                == old(self).samples() + seq![Sample { low, high, value: r }],
    ;
}

/// Whether these samples were drawn from a source between two moments, as far as it keeps a record.
pub open spec fn sampled<G: GaussianSource>(before: G, after: G, drawn: Seq<Sample>) -> bool {
    before.keeps_record() ==> after.keeps_record() && after.samples() == before.samples() + drawn
}

/// What a source that keeps a record drew between two moments.
pub open spec fn new_samples<G: GaussianSource>(before: G, after: G) -> Seq<Sample> {
    after.samples().skip(before.samples().len() as int)
}

/// Random durations are multiples of this.
pub const DURATION_STEP_MS: u32 = 500;

/// The number of a range that is nearest to `sample`.
pub open spec fn nearest(sample: int, low: int, high: int) -> int {
    if sample < low {
        low
    } else if sample > high {
        high
    } else {
        sample
    }
}

/// The number of a range that is nearest to `sample`.
pub fn clamp_sample(sample: i64, low: u32, high: u32) -> (r: u32)
    requires
        low <= high,
    ensures
        r == nearest(sample as int, low as int, high as int),
{
    if sample < low as i64 {
        low
    } else if sample > high as i64 {
        high
    } else {
        sample as u32
    }
}

/// A number that was drawn, by the distribution that it was drawn from.
#[derive(Debug, Clone, Copy, PartialEq, Eq, Structural)]
#[allow(inconsistent_fields)]
pub enum Draw {
    Uniform(u32),
    Gaussian(i64),
}

impl Draw {
    /// The number of the range that the draw comes to.
    pub open spec fn number(self, low: u32, high: u32) -> int {
        match self {
            Draw::Uniform(n) => n as int,
            Draw::Gaussian(sample) => nearest(sample as int, low as int, high as int),
        }
    }

    /// The number of the range that the draw comes to.
    pub fn place(self, low: u32, high: u32) -> (r: u32)
        requires
            low <= high,
        ensures
            r == self.number(low, high),
    {
        match self {
            Draw::Uniform(n) => n,
            Draw::Gaussian(sample) => clamp_sample(sample, low, high),
        }
    }
}

/// Whether a duration can be drawn: it is a multiple of the step and lies between the multiples
/// just below the two bounds.
pub open spec fn duration_drawn(min: u32, max: u32, r: u32) -> bool {
    &&& r % DURATION_STEP_MS == 0
    &&& min / DURATION_STEP_MS <= r / DURATION_STEP_MS <= max / DURATION_STEP_MS
}

/// The duration that a draw comes to: so many steps.
pub fn duration_of(draw: Draw, min: u32, max: u32) -> (r: u32)
    requires
        min / DURATION_STEP_MS <= max / DURATION_STEP_MS,
        draw is Uniform ==> draw->Uniform_0 <= max / DURATION_STEP_MS,
    ensures
        r == draw.number(min / DURATION_STEP_MS, max / DURATION_STEP_MS) * DURATION_STEP_MS,
{
    draw.place(min / DURATION_STEP_MS, max / DURATION_STEP_MS) * DURATION_STEP_MS
}

/// Whether a number of a range was drawn as the distribution asks. From a uniform distribution the
/// source has no part in it. From a normal one, a source that keeps a record was asked once, for
/// this range, and the number is the one of the range that is nearest to what it drew.
pub open spec fn drawn_from<G: GaussianSource>(
    before: G,
    after: G,
    distribution: Distribution,
    low: u32,
    high: u32,
    r: int,
) -> bool {
    &&& low <= r <= high
    &&& match distribution {
        Distribution::Uniform => after == before,
        Distribution::Gaussian => before.keeps_record() ==> {
            let drawn = new_samples(before, after);
            &&& sampled(before, after, drawn)
            &&& drawn.len() == 1
            &&& comes_from(drawn[0], low, high, r)
        },
    }
}

/// Whether a number of a range is what a sample comes to.
pub open spec fn comes_from(sample: Sample, low: u32, high: u32, r: int) -> bool {
    sample.low == low && sample.high == high && r == nearest(
        sample.value as int,
        low as int,
        high as int,
    )
}

/// Draws a duration: a number of steps between those of the two bounds, from the distribution.
pub fn resolve_random_duration<G: GaussianSource>(
    rng: &mut SmallRng,
    gaussian: &mut G,
    min: u32,
    max: u32,
    distribution: Distribution,
) -> (r: u32)
    requires
        min / DURATION_STEP_MS <= max / DURATION_STEP_MS,
    ensures
        duration_drawn(min, max, r),
        drawn_from(
            *old(gaussian),
            *final(gaussian),
            distribution,
            min / DURATION_STEP_MS,
            max / DURATION_STEP_MS,
            r as int / DURATION_STEP_MS as int,
        ),
{
    let low: u32 = min / DURATION_STEP_MS;
    let high: u32 = max / DURATION_STEP_MS;
    let draw = match distribution {
        Distribution::Uniform => Draw::Uniform(draw_u32(rng, low, high)),
        Distribution::Gaussian => Draw::Gaussian(gaussian.sample(rng, low, high)),
    };
    proof {
        if draw is Gaussian {
            lemma_one_sample(
                *old(gaussian),
                *gaussian,
                Sample { low, high, value: draw->Gaussian_0 },
            );
        }
    }
    duration_of(draw, min, max)
}

/// What was drawn since is the one sample.
proof fn lemma_one_sample<G: GaussianSource>(before: G, after: G, sample: Sample)
    requires
        sampled(before, after, seq![sample]),
    ensures
        before.keeps_record() ==> new_samples(before, after) == seq![sample],
{
    if before.keeps_record() {
        assert(new_samples(before, after) =~= seq![sample]);
    }
}

/// Draws an intensity between the two bounds, from the distribution.
pub fn resolve_random_u8<G: GaussianSource>(
    rng: &mut SmallRng,
    gaussian: &mut G,
    min: u8,
    max: u8,
    distribution: Distribution,
) -> (r: u8)
    requires
        min <= max,
    ensures
        drawn_from(
            *old(gaussian),
            *final(gaussian),
            distribution,
            min as u32,
            max as u32,
            r as int,
        ),
{
    let draw = match distribution {
        Distribution::Uniform => Draw::Uniform(draw_u8(rng, min, max) as u32),
        Distribution::Gaussian => Draw::Gaussian(gaussian.sample(rng, min as u32, max as u32)),
    };
    proof {
        if draw is Gaussian {
            lemma_one_sample(
                *old(gaussian),
                *gaussian,
                Sample { low: min as u32, high: max as u32, value: draw->Gaussian_0 },
            );
        }
    }
    draw.place(min as u32, max as u32) as u8
}

/// A sample is moved to the number of the range that is nearest to it: no other is nearer, and one
/// that lies in the range stays.
pub proof fn lemma_nearest(sample: int, low: int, high: int, other: int)
    requires
        low <= high,
        low <= other <= high,
    ensures
        low <= nearest(sample, low, high) <= high,
        low <= sample <= high ==> nearest(sample, low, high) == sample,
        sample <= nearest(sample, low, high) ==> nearest(sample, low, high) - sample <= if other
            >= sample {
            other - sample
        } else {
            sample - other
        },
        sample >= nearest(sample, low, high) ==> sample - nearest(sample, low, high) <= if other
            >= sample {
            other - sample
        } else {
            sample - other
        },
{
}

/// A duration that is drawn is a whole number of half seconds, not above the upper bound and less
/// than half a second below the lower one.
pub proof fn lemma_duration_drawn(min: u32, max: u32, r: u32)
    requires
        duration_drawn(min, max, r),
    ensures
        r % 500 == 0,
        r <= max,
        r + 500 > min,
{
}

/// A number from a normal distribution takes one sample, asked for this very range, and is the
/// number of the range that is nearest to it. One from a uniform distribution takes none.
pub proof fn lemma_who_is_asked<G: GaussianSource>(
    before: G,
    after: G,
    distribution: Distribution,
    low: u32,
    high: u32,
    r: int,
)
    requires
        drawn_from(before, after, distribution, low, high, r),
    ensures
        low <= r <= high,
        distribution == Distribution::Uniform ==> after == before,
        distribution == Distribution::Gaussian && before.keeps_record() ==> {
            let sample = after.samples().last();
            &&& after.keeps_record()
            &&& after.samples().len() == before.samples().len() + 1
            &&& after.samples().drop_last() == before.samples()
            &&& sample.low == low
            &&& sample.high == high
            &&& low <= sample.value <= high ==> r == sample.value
            &&& sample.value < low ==> r == low
            &&& sample.value > high ==> r == high
        },
{
    if distribution == Distribution::Gaussian && before.keeps_record() {
        let drawn = new_samples(before, after);
        assert(after.samples().last() == drawn[0]);
        assert(after.samples().drop_last() =~= before.samples());
    }
}

/// A draw from a uniform distribution counts as it is; one from a normal distribution is moved into
/// the range.
pub proof fn lemma_what_a_draw_comes_to(n: u32, sample: i64, low: u32, high: u32)
    requires
        low <= high,
    ensures
        Draw::Uniform(n).number(low, high) == n,
        low <= sample <= high ==> Draw::Gaussian(sample).number(low, high) == sample,
        sample < low ==> Draw::Gaussian(sample).number(low, high) == low,
        sample > high ==> Draw::Gaussian(sample).number(low, high) == high,
{
}

} // verus!
