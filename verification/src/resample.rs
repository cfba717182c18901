//! Block sizes and latency of the resampler pair around a model that runs at its own rate.

use vstd::arithmetic::div_mod::*;
use vstd::arithmetic::mul::*;
use vstd::prelude::*;

use std::collections::VecDeque;

use crate::dsp;
use crate::dsp::{BlockOp, Convolve, Rack, Run};
use crate::prepare::SampleRate;
use crate::single::Single;

verus! {

/// The shortest FFT, in frames of the lower of the two rates, that keeps the antialiasing
/// filter's passband flat up to the top of the audible range.
pub const MIN_RESAMPLE_FFT_FRAMES: usize = 256;

/// `d` divides `n` without a remainder.
pub open spec fn divides(d: int, n: int) -> bool {
    d > 0 && n % d == 0
}

/// `g` divides both numbers, and every number that divides both divides `g`.
pub open spec fn is_gcd(g: int, a: int, b: int) -> bool {
    &&& divides(g, a)
    &&& divides(g, b)
    &&& forall|d: int| #[trigger] divides(d, a) && divides(d, b) ==> divides(d, g)
}

proof fn lemma_common_divisor_of_remainder(a: int, b: int, d: int)
    requires
        b > 0,
        divides(d, b),
    ensures
        divides(d, a) == divides(d, a % b),
{
    lemma_fundamental_div_mod(a, b);
    lemma_fundamental_div_mod(b, d);
    let k = (b / d) * (a / b);
    assert(b * (a / b) == d * k) by (nonlinear_arith)
        requires
            b == d * (b / d),
            k == (b / d) * (a / b),
    ;
    assert(a == d * k + a % b);
    lemma_mod_multiples_vanish(k, a % b, d);
}

/// The greatest common divisor, as Euclid's algorithm finds it.
pub open spec fn gcd_of(a: int, b: int) -> int
    decreases b,
{
    if b <= 0 {
        a
    } else {
        gcd_of(b, a % b)
    }
}

/// What Euclid's algorithm finds is the greatest common divisor.
pub proof fn lemma_gcd_of_is_gcd(a: int, b: int)
    requires
        a >= 0,
        b >= 0,
        a > 0 || b > 0,
    ensures
        is_gcd(gcd_of(a, b), a, b),
    decreases b,
{
    if b == 0 {
        lemma_mod_self_0(a);
        lemma_small_mod(0, a as nat);
    } else {
        lemma_gcd_of_is_gcd(b, a % b);
        let g = gcd_of(b, a % b);
        lemma_common_divisor_of_remainder(a, b, g);
        assert forall|d: int| #[trigger] divides(d, a) && divides(d, b) implies divides(d, g) by {
            lemma_common_divisor_of_remainder(a, b, d);
            assert(divides(d, b) && divides(d, a % b));
        }
    }
}

proof fn lemma_divisor_is_no_larger(d: int, n: int)
    requires
        divides(d, n),
        n > 0,
    ensures
        d <= n,
{
    if n < d {
        lemma_small_mod(n as nat, d as nat);
    }
}

/// The greatest common divisor does not depend on the order of the two numbers.
pub proof fn lemma_gcd_of_is_symmetric(a: int, b: int)
    requires
        a >= 0,
        b >= 0,
    ensures
        gcd_of(a, b) == gcd_of(b, a),
{
    if a == 0 && b == 0 {
        return;
    }
    lemma_gcd_of_is_gcd(a, b);
    lemma_gcd_of_is_gcd(b, a);
    let g = gcd_of(a, b);
    let h = gcd_of(b, a);
    assert(divides(g, h) && divides(h, g));
    lemma_divisor_is_no_larger(g, h);
    lemma_divisor_is_no_larger(h, g);
}

/// Greatest common divisor by Euclid's algorithm; of two zeros it is zero.
pub fn gcd(a: usize, b: usize) -> (g: usize)
    ensures
        g == gcd_of(a as int, b as int),
        a == 0 && b == 0 ==> g == 0,
        a > 0 || b > 0 ==> is_gcd(g as int, a as int, b as int),
{
    let mut x: usize = a;
    let mut y: usize = b;
    while y != 0
        invariant
            gcd_of(x as int, y as int) == gcd_of(a as int, b as int),
        decreases y,
    {
        let r: usize = x % y;
        x = y;
        y = r;
    }
    proof {
        if a > 0 || b > 0 {
            lemma_gcd_of_is_gcd(a as int, b as int);
        }
    }
    x
}

/// The smallest whole number that is at least `n / d`.
pub open spec fn ceil_div(n: int, d: int) -> int {
    (n + d - 1) / d
}

/// How many frames at `rate` line up with a whole number of frames at `other`, at the least.
pub open spec fn unit_frames(rate: int, other: int) -> int {
    rate / gcd_of(rate, other)
}

pub open spec fn lower_of(a: int, b: int) -> int {
    if a <= b {
        a
    } else {
        b
    }
}

/// How many units one internal block spans, so that its FFT in the lower rate's frames is long
/// enough.
pub open spec fn block_units(engine_hz: int, model_hz: int) -> int {
    ceil_div(
        MIN_RESAMPLE_FFT_FRAMES as int,
        lower_of(engine_hz, model_hz) / gcd_of(engine_hz, model_hz),
    )
}

/// The internal block at the engine's rate.
pub open spec fn engine_block_frames(engine_hz: int, model_hz: int) -> int {
    block_units(engine_hz, model_hz) * unit_frames(engine_hz, model_hz)
}

/// The internal block at the model's rate.
pub open spec fn model_block_frames(engine_hz: int, model_hz: int) -> int {
    block_units(engine_hz, model_hz) * unit_frames(model_hz, engine_hz)
}

proof fn lemma_ceil_div_is_least(n: int, d: int)
    requires
        n > 0,
        d > 0,
    ensures
        ceil_div(n, d) >= 1,
        ceil_div(n, d) * d >= n,
        (ceil_div(n, d) - 1) * d < n,
        ceil_div(n, d) == (n - 1) / d + 1,
{
    let k = ceil_div(n, d);
    lemma_fundamental_div_mod(n + d - 1, d);
    lemma_mod_bound(n + d - 1, d);
    assert(d * k == k * d) by (nonlinear_arith);
    assert((k - 1) * d == k * d - d) by (nonlinear_arith);
    assert(k >= 1) by (nonlinear_arith)
        requires
            k * d > n - 1,
            n > 0,
            d > 0,
    ;
    lemma_div_plus_one(n - 1, d);
}

proof fn lemma_unit_frames_positive(rate: int, other: int)
    requires
        rate > 0,
        other > 0,
    ensures
        unit_frames(rate, other) >= 1,
        unit_frames(rate, other) * gcd_of(rate, other) == rate,
        unit_frames(rate, other) <= rate,
{
    lemma_gcd_of_is_gcd(rate, other);
    let g = gcd_of(rate, other);
    lemma_fundamental_div_mod(rate, g);
    let u = rate / g;
    assert(g * u == u * g) by (nonlinear_arith);
    assert(u >= 1 && u <= rate) by (nonlinear_arith)
        requires
            u * g == rate,
            rate > 0,
            g > 0,
    ;
}

/// The internal block at the engine's rate is a whole number of units; its FFT in the lower rate's
/// frames has at least the minimum length, and one unit less would fall short of it.
pub proof fn lemma_internal_block_is_the_shortest_that_suffices(engine_hz: int, model_hz: int)
    requires
        engine_hz > 0,
        model_hz > 0,
    ensures
        ({
            let low = lower_of(
                engine_block_frames(engine_hz, model_hz),
                model_block_frames(engine_hz, model_hz),
            );
            let low_unit = lower_of(
                unit_frames(engine_hz, model_hz),
                unit_frames(model_hz, engine_hz),
            );
            &&& block_units(engine_hz, model_hz) >= 1
            &&& low >= MIN_RESAMPLE_FFT_FRAMES
            &&& low - low_unit < MIN_RESAMPLE_FFT_FRAMES
            &&& engine_block_frames(engine_hz, model_hz) >= 1
            &&& model_block_frames(engine_hz, model_hz) >= 1
        }),
{
    lemma_gcd_of_is_gcd(engine_hz, model_hz);
    lemma_gcd_of_is_symmetric(engine_hz, model_hz);
    lemma_unit_frames_positive(engine_hz, model_hz);
    lemma_unit_frames_positive(model_hz, engine_hz);
    let g = gcd_of(engine_hz, model_hz);
    let ue = unit_frames(engine_hz, model_hz);
    let um = unit_frames(model_hz, engine_hz);
    let low_unit = lower_of(ue, um);
    assert(low_unit == lower_of(engine_hz, model_hz) / g) by {
        if engine_hz <= model_hz {
            lemma_div_is_ordered(engine_hz, model_hz, g);
        } else {
            lemma_div_is_ordered(model_hz, engine_hz, g);
        }
    }
    let k = block_units(engine_hz, model_hz);
    lemma_ceil_div_is_least(MIN_RESAMPLE_FFT_FRAMES as int, low_unit);
    assert((k - 1) * low_unit == k * low_unit - low_unit) by (nonlinear_arith);
    assert(lower_of(k * ue, k * um) == k * low_unit) by (nonlinear_arith)
        requires
            k >= 1,
            low_unit == ue && ue <= um || low_unit == um && um <= ue,
            lower_of(k * ue, k * um) == (if k * ue <= k * um {
                k * ue
            } else {
                k * um
            }),
    ;
}

/// The `chunk_size_in`, in engine frames, that makes `rubato::FftFixedInOut` settle on an FFT of
/// at least [`MIN_RESAMPLE_FFT_FRAMES`] frames in the lower of the two rates.
pub fn resample_chunk_frames(engine_hz: usize, model_hz: usize) -> (frames: usize)
    requires
        engine_hz > 0,
        model_hz > 0,
        engine_block_frames(engine_hz as int, model_hz as int) <= usize::MAX,
    ensures
        frames == engine_block_frames(engine_hz as int, model_hz as int),
{
    let g: usize = gcd(engine_hz, model_hz);
    let low: usize = if engine_hz <= model_hz {
        engine_hz
    } else {
        model_hz
    };
    proof {
        lemma_unit_frames_positive(engine_hz as int, model_hz as int);
        lemma_unit_frames_positive(model_hz as int, engine_hz as int);
        lemma_gcd_of_is_symmetric(engine_hz as int, model_hz as int);
    }
    let low_unit: usize = low / g;
    let engine_unit: usize = engine_hz / g;
    proof {
        lemma_ceil_div_is_least(MIN_RESAMPLE_FFT_FRAMES as int, low_unit as int);
    }
    let units: usize = (MIN_RESAMPLE_FFT_FRAMES - 1) / low_unit + 1;
    units * engine_unit
}

/// Block sizes up to here are exact in the single-precision division by which `rubato` counts the
/// units of a block.
pub const MAX_BLOCK_FRAMES: usize = 0x100_0000;

/// What a synchronous fixed-block resampler takes, gives and delays by, in frames.
#[derive(Debug, Clone, Copy, PartialEq, Eq, Structural)]
pub struct FixedBlock {
    pub input_frames: usize,
    pub output_frames: usize,
    pub output_delay: usize,
}

/// The block that `rubato::FftFixedInOut::new(rate_in, rate_out, chunk_in, 1)` settles on: as many
/// whole units as cover the requested chunk; it delays by half an output block.
pub open spec fn is_fixed_block(b: FixedBlock, rate_in: int, rate_out: int, chunk_in: int) -> bool {
    let units = ceil_div(chunk_in, unit_frames(rate_in, rate_out));
    &&& b.input_frames == units * unit_frames(rate_in, rate_out)
    &&& b.output_frames == units * unit_frames(rate_out, rate_in)
    &&& b.output_delay == b.output_frames / 2
}

proof fn lemma_ceil_div_of_multiple(k: int, d: int)
    requires
        k >= 1,
        d > 0,
    ensures
        ceil_div(k * d, d) == k,
{
    assert(k * d >= 1) by (nonlinear_arith)
        requires
            k >= 1,
            d > 0,
    ;
    lemma_ceil_div_is_least(k * d, d);
    let c = ceil_div(k * d, d);
    assert(c == k) by (nonlinear_arith)
        requires
            c * d >= k * d,
            (c - 1) * d < k * d,
            d > 0,
    ;
}

/// The internal block is never shorter than what a request for [`MIN_RESAMPLE_FFT_FRAMES`] engine
/// frames would settle on, and is just that where the engine's rate is the lower of the two.
pub proof fn lemma_internal_block_is_no_shorter_than_a_flat_one(
    engine_hz: int,
    model_hz: int,
    flat: FixedBlock,
)
    requires
        engine_hz > 0,
        model_hz > 0,
        is_fixed_block(flat, engine_hz, model_hz, MIN_RESAMPLE_FFT_FRAMES as int),
    ensures
        flat.input_frames <= engine_block_frames(engine_hz, model_hz),
        engine_hz <= model_hz ==> flat.input_frames == engine_block_frames(engine_hz, model_hz),
{
    lemma_gcd_of_is_gcd(engine_hz, model_hz);
    lemma_gcd_of_is_symmetric(engine_hz, model_hz);
    lemma_unit_frames_positive(engine_hz, model_hz);
    lemma_unit_frames_positive(model_hz, engine_hz);
    if engine_hz > model_hz {
        let ue = unit_frames(engine_hz, model_hz);
        let um = unit_frames(model_hz, engine_hz);
        lemma_div_is_ordered(model_hz, engine_hz, gcd_of(engine_hz, model_hz));
        lemma_ceil_div_is_least(MIN_RESAMPLE_FFT_FRAMES as int, ue);
        lemma_ceil_div_is_least(MIN_RESAMPLE_FFT_FRAMES as int, um);
        let few = ceil_div(MIN_RESAMPLE_FFT_FRAMES as int, ue);
        let many = block_units(engine_hz, model_hz);
        lemma_div_is_ordered_by_denominator(MIN_RESAMPLE_FFT_FRAMES - 1, um, ue);
        assert(few * ue <= many * ue) by (nonlinear_arith)
            requires
                few <= many,
                ue >= 1,
        ;
    }
}

/// The two resamplers around a model fit each other: asked for the chosen chunk the first settles
/// on exactly it, and the second, asked for what the first gives, takes exactly that and gives back
/// exactly what the first took.
pub proof fn lemma_round_trip_blocks_match(
    engine_hz: int,
    model_hz: int,
    into_model: FixedBlock,
    out_of_model: FixedBlock,
)
    requires
        engine_hz > 0,
        model_hz > 0,
        is_fixed_block(
            into_model,
            engine_hz,
            model_hz,
            engine_block_frames(engine_hz, model_hz),
        ),
        is_fixed_block(out_of_model, model_hz, engine_hz, into_model.output_frames as int),
    ensures
        into_model.input_frames == engine_block_frames(engine_hz, model_hz),
        into_model.output_frames == model_block_frames(engine_hz, model_hz),
        out_of_model.input_frames == into_model.output_frames,
        out_of_model.output_frames == into_model.input_frames,
{
    lemma_internal_block_is_the_shortest_that_suffices(engine_hz, model_hz);
    lemma_unit_frames_positive(engine_hz, model_hz);
    lemma_unit_frames_positive(model_hz, engine_hz);
    let k = block_units(engine_hz, model_hz);
    let ue = unit_frames(engine_hz, model_hz);
    let um = unit_frames(model_hz, engine_hz);
    lemma_ceil_div_of_multiple(k, ue);
    lemma_ceil_div_of_multiple(k, um);
}

/// The block a fixed-block resampler between two rates settles on when asked for `chunk_in`.
pub fn fixed_block(rate_in: usize, rate_out: usize, chunk_in: usize) -> (b: FixedBlock)
    requires
        rate_in > 0,
        rate_out > 0,
        0 < chunk_in <= MAX_BLOCK_FRAMES,
        ceil_div(chunk_in as int, unit_frames(rate_in as int, rate_out as int)) * unit_frames(
            rate_in as int,
            rate_out as int,
        ) <= usize::MAX,
        ceil_div(chunk_in as int, unit_frames(rate_in as int, rate_out as int)) * unit_frames(
            rate_out as int,
            rate_in as int,
        ) <= usize::MAX,
    ensures
        is_fixed_block(b, rate_in as int, rate_out as int, chunk_in as int),
{
    let g: usize = gcd(rate_in, rate_out);
    proof {
        lemma_unit_frames_positive(rate_in as int, rate_out as int);
        lemma_gcd_of_is_symmetric(rate_in as int, rate_out as int);
    }
    let unit_in: usize = rate_in / g;
    let unit_out: usize = rate_out / g;
    proof {
        lemma_ceil_div_is_least(chunk_in as int, unit_in as int);
        lemma_div_is_ordered_by_denominator(chunk_in - 1, 1, unit_in as int);
    }
    let units: usize = (chunk_in - 1) / unit_in + 1;
    let output_frames: usize = units * unit_out;
    FixedBlock {
        input_frames: units * unit_in,
        output_frames,
        output_delay: output_frames / 2,
    }
}

/// `n / d` rounded to the nearest whole number, halves upward.
pub open spec fn rounded_div(n: int, d: int) -> int {
    (2 * n + d) / (2 * d)
}

/// The whole round trip's delay in engine frames: the first resampler's delay brought to the
/// engine's rate, the second one's, and the one block by which the output queue is primed.
pub open spec fn round_trip_latency(engine_hz: int, model_hz: int) -> int {
    rounded_div((model_block_frames(engine_hz, model_hz) / 2) * engine_hz, model_hz)
        + engine_block_frames(engine_hz, model_hz) / 2 + engine_block_frames(engine_hz, model_hz)
}

/// The two internal blocks span the same time.
pub proof fn lemma_internal_blocks_span_the_same_time(engine_hz: int, model_hz: int)
    requires
        engine_hz > 0,
        model_hz > 0,
    ensures
        engine_block_frames(engine_hz, model_hz) * model_hz == model_block_frames(
            engine_hz,
            model_hz,
        ) * engine_hz,
{
    lemma_gcd_of_is_symmetric(engine_hz, model_hz);
    lemma_unit_frames_positive(engine_hz, model_hz);
    lemma_unit_frames_positive(model_hz, engine_hz);
    let k = block_units(engine_hz, model_hz);
    let ue = unit_frames(engine_hz, model_hz);
    let um = unit_frames(model_hz, engine_hz);
    let g = gcd_of(engine_hz, model_hz);
    assert((k * ue) * (um * g) == (k * um) * (ue * g)) by (nonlinear_arith);
}

proof fn lemma_first_delay_bound(engine_hz: int, model_hz: int)
    requires
        engine_hz > 0,
        model_hz > 0,
    ensures
        0 <= rounded_div((model_block_frames(engine_hz, model_hz) / 2) * engine_hz, model_hz)
            <= engine_block_frames(engine_hz, model_hz),
{
    lemma_internal_blocks_span_the_same_time(engine_hz, model_hz);
    lemma_internal_block_is_the_shortest_that_suffices(engine_hz, model_hz);
    let eb = engine_block_frames(engine_hz, model_hz);
    let mb = model_block_frames(engine_hz, model_hz);
    let n = (mb / 2) * engine_hz;
    assert(0 <= 2 * n <= eb * model_hz) by (nonlinear_arith)
        requires
            n == (mb / 2) * engine_hz,
            mb >= 1,
            engine_hz > 0,
            eb * model_hz == mb * engine_hz,
    ;
    assert(2 * n + model_hz <= eb * (2 * model_hz)) by (nonlinear_arith)
        requires
            2 * n <= eb * model_hz,
            eb >= 1,
            model_hz > 0,
    ;
    let d = 2 * model_hz;
    lemma_div_is_ordered(2 * n + model_hz, eb * d, d);
    lemma_div_by_multiple(eb, d);
    lemma_div_pos_is_pos(2 * n + model_hz, d);
}

/// The blocks put end to end.
pub open spec fn joined(blocks: Seq<Seq<Single>>) -> Seq<Single>
    decreases blocks.len(),
{
    if blocks.len() == 0 {
        Seq::empty()
    } else {
        joined(blocks.drop_last()) + blocks.last()
    }
}

/// How many internal blocks must run so that `queued` frames of output become at least `wanted`.
pub open spec fn blocks_needed(queued: int, wanted: int, block: int) -> int {
    if wanted <= queued {
        0
    } else {
        ceil_div(wanted - queued, block)
    }
}

/// A run of a block operation on these samples, which gave as many.
pub open spec fn is_block_run(run: Run, op: BlockOp, input: Seq<Single>) -> bool {
    &&& run == (Run::Block { op, input, output: run.made() })
    &&& run.made().len() == input.len()
}

/// What each of the runs gave.
pub open spec fn made_by(runs: Seq<Run>) -> Seq<Seq<Single>> {
    runs.map_values(|run: Run| run.made())
}

/// The queues around a model that runs at its own rate, in fixed internal blocks.
///
/// Engine-rate input waits in one queue until a whole internal block is there; what comes back
/// waits in the other. The output queue starts with one block of silence, and between calls the
/// two queues together always hold exactly one block, which is why output never runs short and the
/// delay does not depend on how the caller slices its blocks.
pub struct SlotResampler {
    pub engine_block: usize,
    pub model_block: usize,
    pub engine_in_fifo: VecDeque<Single>,
    pub engine_out_fifo: VecDeque<Single>,
    pub latency_samples: u32,
}

impl SlotResampler {
    pub open spec fn wf(&self) -> bool {
        &&& self.engine_block > 0
        &&& self.engine_in_fifo@.len() + self.engine_out_fifo@.len() == self.engine_block
    }

    pub open spec fn same_sizes(&self, other: &SlotResampler) -> bool {
        &&& self.engine_block == other.engine_block
        &&& self.model_block == other.model_block
        &&& self.latency_samples == other.latency_samples
    }

    /// Nothing queued but the priming silence.
    pub open spec fn primed(&self) -> bool {
        &&& self.engine_in_fifo@ == Seq::<Single>::empty()
        &&& self.engine_out_fifo@ == dsp::silence(self.engine_block as nat)
    }

    /// Everything that has come in and not yet gone through the model, `input` being new.
    pub open spec fn fed(&self, input: Seq<Single>) -> Seq<Single> {
        self.engine_in_fifo@ + input
    }

    /// From here to `after`, `input` went in and `output` came out, and `runs` are all that ran on
    /// the way: `op` on every internal block that was needed, in order.
    pub open spec fn processed(
        &self,
        after: &SlotResampler,
        op: BlockOp,
        input: Seq<Single>,
        output: Seq<Single>,
        runs: Seq<Run>,
    ) -> bool {
        let size = self.engine_block as int;
        &&& after.same_sizes(self)
        &&& output.len() == input.len()
        &&& runs.len() == blocks_needed(
            self.engine_out_fifo@.len() as int,
            input.len() as int,
            size,
        )
        &&& runs.len() * size <= self.fed(input).len()
        &&& forall|j: int|
            0 <= j < runs.len() ==> is_block_run(
                #[trigger] runs[j],
                op,
                self.fed(input).subrange(j * size, j * size + size),
            )
        &&& self.engine_out_fifo@ + joined(made_by(runs)) == output + after.engine_out_fifo@
        &&& after.engine_in_fifo@ == self.fed(input).skip(runs.len() * size)
    }

    pub fn new(engine_rate: SampleRate, model_rate: SampleRate) -> (r: SlotResampler)
        requires
            engine_rate.wf(),
            model_rate.wf(),
            engine_block_frames(engine_rate.hz as int, model_rate.hz as int) <= MAX_BLOCK_FRAMES,
            model_block_frames(engine_rate.hz as int, model_rate.hz as int) <= MAX_BLOCK_FRAMES,
        ensures
            r.wf(),
            r.primed(),
            r.engine_block == engine_block_frames(engine_rate.hz as int, model_rate.hz as int),
            r.model_block == model_block_frames(engine_rate.hz as int, model_rate.hz as int),
            r.latency_samples == round_trip_latency(engine_rate.hz as int, model_rate.hz as int),
    {
        let ghost e = engine_rate.hz as int;
        let ghost m = model_rate.hz as int;
        let engine_hz: usize = engine_rate.hz as usize;
        let model_hz: usize = model_rate.hz as usize;
        let chunk: usize = resample_chunk_frames(engine_hz, model_hz);
        proof {
            lemma_internal_block_is_the_shortest_that_suffices(e, m);
            lemma_unit_frames_positive(e, m);
            lemma_unit_frames_positive(m, e);
            lemma_ceil_div_of_multiple(block_units(e, m), unit_frames(e, m));
            lemma_ceil_div_of_multiple(block_units(e, m), unit_frames(m, e));
        }
        let into_model: FixedBlock = fixed_block(engine_hz, model_hz, chunk);
        let engine_block: usize = into_model.input_frames;
        let model_block: usize = into_model.output_frames;
        let out_of_model: FixedBlock = fixed_block(model_hz, engine_hz, model_block);
        proof {
            lemma_round_trip_blocks_match(e, m, into_model, out_of_model);
            lemma_first_delay_bound(e, m);
            assert((model_block / 2) * engine_hz <= 0x80_0000 * 0xFFFF_FFFF) by (nonlinear_arith)
                requires
                    model_block <= 0x100_0000,
                    engine_hz <= 0xFFFF_FFFF,
            ;
        }
        let in_delay: u64 = into_model.output_delay as u64 * engine_rate.hz as u64;
        let in_delay_engine: u64 = (2 * in_delay + model_rate.hz as u64) / (2
            * model_rate.hz as u64);
        let latency: u64 = in_delay_engine + out_of_model.output_delay as u64
            + engine_block as u64;
        let mut r = SlotResampler {
            engine_block,
            model_block,
            engine_in_fifo: VecDeque::new(),
            engine_out_fifo: VecDeque::new(),
            latency_samples: latency as u32,
        };
        r.prime();
        r
    }

    /// Empties both queues and primes the output queue with one block of silence.
    pub fn prime(&mut self)
        ensures
            final(self).same_sizes(old(self)),
            final(self).primed(),
            old(self).engine_block > 0 ==> final(self).wf(),
    {
        self.engine_in_fifo.clear();
        self.engine_out_fifo.clear();
        let mut i: usize = 0;
        while i < self.engine_block
            invariant
                i <= self.engine_block,
                self.same_sizes(old(self)),
                self.engine_in_fifo@ == Seq::<Single>::empty(),
                self.engine_out_fifo@ == dsp::silence(i as nat),
            decreases self.engine_block - i,
        {
            self.engine_out_fifo.push_back(Single::zero());
            proof {
                assert(dsp::silence(i as nat).push(Single::zero()) =~= dsp::silence((i + 1) as nat));
            }
            i += 1;
        }
    }

    /// Takes `input` in and gives back as many samples, running `op` on every internal block that
    /// is needed for them.
    pub fn process<S, B, C>(
        &mut self,
        rack: &mut Rack<S, B, C>,
        op: BlockOp,
        input: &Vec<Single>,
    ) -> (output: Vec<Single>) where
        B: Fn(BlockOp, Vec<Single>, S) -> (Vec<Single>, S),
        C: Fn(Convolve, Vec<Single>, S) -> (Vec<Single>, Vec<Single>, S),

        requires
            old(self).wf(),
            old(rack).wf(),
        ensures
            final(self).wf(),
            final(rack).went_on(old(rack)),
            old(self).processed(
                final(self),
                op,
                input@,
                output@,
                final(rack).since(old(rack)),
            ),
    {
        queue_samples(&mut self.engine_in_fifo, input);
        let ghost size = self.engine_block as int;
        let ghost fed = old(self).fed(input@);
        let ghost queued = old(self).engine_out_fifo@.len() as int;
        let ghost wanted = input@.len() as int;
        let ghost mut runs: Seq<Run> = Seq::empty();
        proof {
            assert(fed.skip(0) =~= fed);
            assert(made_by(runs) =~= Seq::empty());
            assert(old(self).engine_out_fifo@ + joined(made_by(runs)) =~= old(
                self,
            ).engine_out_fifo@);
            rack.lemma_nothing_yet();
        }
        while self.engine_out_fifo.len() < input.len() && self.engine_in_fifo.len()
            >= self.engine_block
            invariant
                rack.went_on(old(rack)),
                rack.since(old(rack)) == runs,
                size == self.engine_block,
                size > 0,
                self.same_sizes(old(self)),
                fed == old(self).fed(input@),
                queued == old(self).engine_out_fifo@.len(),
                wanted == input@.len(),
                self.engine_in_fifo@.len() + self.engine_out_fifo@.len() == size + wanted,
                runs.len() * size <= fed.len(),
                self.engine_in_fifo@ == fed.skip(runs.len() * size),
                self.engine_out_fifo@ == old(self).engine_out_fifo@ + joined(made_by(runs)),
                self.engine_out_fifo@.len() == queued + runs.len() * size,
                runs.len() > 0 ==> queued + (runs.len() - 1) * size < wanted,
                forall|j: int|
                    0 <= j < runs.len() ==> is_block_run(
                        #[trigger] runs[j],
                        op,
                        fed.subrange(j * size, j * size + size),
                    ),
            decreases self.engine_in_fifo@.len(),
        {
            let ghost before = self.engine_out_fifo@;
            let chunk: Vec<Single> = dequeue_samples(&mut self.engine_in_fifo, self.engine_block);
            let ghost at = runs.len() * size;
            proof {
                assert(fed.skip(at).take(size) =~= fed.subrange(at, at + size));
                assert(fed.skip(at).skip(size) =~= fed.skip(at + size));
            }
            let ghost earlier = *rack;
            let given: Vec<Single> = rack.run(op, chunk);
            queue_samples(&mut self.engine_out_fifo, &given);
            proof {
                let run = Run::Block {
                    op,
                    input: fed.subrange(at, at + size),
                    output: given@,
                };
                let grown = runs.push(run);
                Rack::lemma_went_on(old(rack), &earlier, rack);
                assert(runs + seq![run] =~= grown);
                assert(made_by(grown).drop_last() =~= made_by(runs));
                assert(made_by(grown).last() == given@);
                assert(grown.len() * size == at + size) by (nonlinear_arith)
                    requires
                        grown.len() == runs.len() + 1,
                        at == runs.len() * size,
                ;
                assert(before + given@ =~= old(self).engine_out_fifo@ + joined(made_by(grown)));
                runs = grown;
            }
        }
        proof {
            assert(runs.len() == blocks_needed(queued, wanted, size)) by {
                if runs.len() > 0 {
                    let k = runs.len() as int;
                    let d = wanted - queued;
                    lemma_ceil_div_is_least(d, size);
                    let c = ceil_div(d, size);
                    assert(c == k) by (nonlinear_arith)
                        requires
                            size > 0,
                            k * size >= d,
                            (k - 1) * size < d,
                            c * size >= d,
                            (c - 1) * size < d,
                    ;
                }
            }
        }
        let ghost ready = self.engine_out_fifo@;
        let output: Vec<Single> = dequeue_samples(&mut self.engine_out_fifo, input.len());
        proof {
            assert(ready.take(wanted) + ready.skip(wanted) =~= ready);
        }
        output
    }
}

/// Appends the samples to a queue.
fn queue_samples(fifo: &mut VecDeque<Single>, samples: &Vec<Single>)
    ensures
        final(fifo)@ == old(fifo)@ + samples@,
{
    let mut i: usize = 0;
    while i < samples.len()
        invariant
            i <= samples.len(),
            fifo@ == old(fifo)@ + samples@.take(i as int),
        decreases samples.len() - i,
    {
        fifo.push_back(samples[i]);
        proof {
            assert(samples@.take(i + 1) =~= samples@.take(i as int).push(samples@[i as int]));
            assert(fifo@ =~= old(fifo)@ + samples@.take(i + 1));
        }
        i += 1;
    }
    proof {
        assert(samples@.take(samples@.len() as int) =~= samples@);
    }
}

/// Takes the first `n` samples out of a queue.
fn dequeue_samples(fifo: &mut VecDeque<Single>, n: usize) -> (r: Vec<Single>)
    requires
        n <= old(fifo)@.len(),
    ensures
        r@ == old(fifo)@.take(n as int),
        final(fifo)@ == old(fifo)@.skip(n as int),
{
    let mut r: Vec<Single> = Vec::new();
    let mut i: usize = 0;
    proof {
        assert(fifo@.skip(0) =~= fifo@);
    }
    while i < n
        invariant
            i <= n,
            n <= old(fifo)@.len(),
            r@ == old(fifo)@.take(i as int),
            fifo@ == old(fifo)@.skip(i as int),
        decreases n - i,
    {
        match fifo.pop_front() {
            Some(sample) => {
                r.push(sample);
            },
            None => {},
        }
        proof {
            assert(old(fifo)@.take(i + 1) =~= old(fifo)@.take(i as int).push(old(fifo)@[i as int]));
            assert(old(fifo)@.skip(i as int).skip(1) =~= old(fifo)@.skip(i + 1));
        }
        i += 1;
    }
    r
}

proof fn lemma_joined_of_sum(a: Seq<Seq<Single>>, b: Seq<Seq<Single>>)
    ensures
        joined(a + b) == joined(a) + joined(b),
    decreases b.len(),
{
    if b.len() == 0 {
        assert(a + b =~= a);
        assert(joined(a) + joined(b) =~= joined(a));
    } else {
        lemma_joined_of_sum(a, b.drop_last());
        assert((a + b).drop_last() =~= a + b.drop_last());
        assert(joined(a) + (joined(b.drop_last()) + b.last()) =~= joined(a + b.drop_last())
            + b.last());
    }
}

proof fn lemma_joined_len(blocks: Seq<Seq<Single>>, size: int)
    requires
        forall|j: int| 0 <= j < blocks.len() ==> #[trigger] blocks[j].len() == size,
    ensures
        joined(blocks).len() == blocks.len() * size,
    decreases blocks.len(),
{
    if blocks.len() > 0 {
        lemma_joined_len(blocks.drop_last(), size);
        assert(blocks.len() * size == (blocks.len() - 1) * size + size) by (nonlinear_arith);
    }
}

proof fn lemma_blocks_needed_adds_up(queued: int, first: int, second: int, size: int)
    requires
        size > 0,
        queued >= 0,
        first >= 0,
        second >= 0,
    ensures
        ({
            let k1 = blocks_needed(queued, first, size);
            blocks_needed(queued, first + second, size) == k1 + blocks_needed(
                queued + k1 * size - first,
                second,
                size,
            )
        }),
{
    let k1 = blocks_needed(queued, first, size);
    if first > queued {
        lemma_ceil_div_is_least(first - queued, size);
    } else {
        assert(k1 * size == 0) by (nonlinear_arith)
            requires
                k1 == 0,
        ;
    }
    let left = queued + k1 * size - first;
    let k2 = blocks_needed(left, second, size);
    if second > left {
        lemma_ceil_div_is_least(second - left, size);
    }
    let all = first + second - queued;
    if all > 0 {
        lemma_ceil_div_is_least(all, size);
        let k = ceil_div(all, size);
        let s = k1 + k2;
        assert(s * size == k1 * size + k2 * size) by (nonlinear_arith)
            requires
                s == k1 + k2,
        ;
        assert((s - 1) * size == k1 * size + k2 * size - size) by (nonlinear_arith)
            requires
                s == k1 + k2,
        ;
        assert((k1 - 1) * size == k1 * size - size) by (nonlinear_arith);
        assert((k2 - 1) * size == k2 * size - size) by (nonlinear_arith);
        assert(k2 == 0 ==> k2 * size == 0) by (nonlinear_arith);
        assert(k == s) by (nonlinear_arith)
            requires
                size > 0,
                k * size >= all,
                (k - 1) * size < all,
                s * size >= all,
                (s - 1) * size < all,
        ;
    }
}

/// How a caller slices its blocks does not matter: two calls one after the other leave the queues
/// in the same state, run the same internal blocks in the same order and give the same samples as
/// one call with both inputs end to end.
pub proof fn lemma_slicing_does_not_matter(
    start: SlotResampler,
    middle: SlotResampler,
    end: SlotResampler,
    op: BlockOp,
    first: Seq<Single>,
    first_out: Seq<Single>,
    first_runs: Seq<Run>,
    second: Seq<Single>,
    second_out: Seq<Single>,
    second_runs: Seq<Run>,
)
    requires
        start.wf(),
        start.processed(&middle, op, first, first_out, first_runs),
        middle.processed(&end, op, second, second_out, second_runs),
    ensures
        start.processed(
            &end,
            op,
            first + second,
            first_out + second_out,
            first_runs + second_runs,
        ),
{
    let size = start.engine_block as int;
    let (r1, r2) = (first_runs, second_runs);
    let (m1, m2) = (made_by(r1), made_by(r2));
    let r = r1 + r2;
    let fed = start.fed(first + second);
    let at = r1.len() * size;
    assert(middle.fed(second) =~= fed.skip(at));
    assert(made_by(r) =~= m1 + m2);
    lemma_runs_give_whole_blocks(start, middle, op, first, first_out, r1);
    lemma_joined_len(m1, size);
    lemma_joined_of_sum(m1, m2);
    lemma_blocks_needed_adds_up(
        start.engine_out_fifo@.len() as int,
        first.len() as int,
        second.len() as int,
        size,
    );
    assert((start.engine_out_fifo@ + joined(m1)).len() == (first_out
        + middle.engine_out_fifo@).len());
    assert(r.len() * size == at + r2.len() * size) by (nonlinear_arith)
        requires
            r.len() == r1.len() + r2.len(),
            at == r1.len() * size,
    ;
    assert forall|j: int| 0 <= j < r.len() implies is_block_run(
        #[trigger] r[j],
        op,
        fed.subrange(j * size, j * size + size),
    ) by {
        if j < r1.len() {
            assert(j * size + size <= at) by (nonlinear_arith)
                requires
                    j + 1 <= r1.len(),
                    at == r1.len() * size,
                    size > 0,
            ;
            assert(0 <= j * size) by (nonlinear_arith)
                requires
                    0 <= j,
                    size > 0,
            ;
            assert(start.fed(first).subrange(j * size, j * size + size) =~= fed.subrange(
                j * size,
                j * size + size,
            ));
            assert(r[j] == r1[j]);
        } else {
            let i = j - r1.len();
            assert(at + i * size == j * size) by (nonlinear_arith)
                requires
                    at == r1.len() * size,
                    i == j - r1.len(),
            ;
            assert(i * size + size <= r2.len() * size) by (nonlinear_arith)
                requires
                    i + 1 <= r2.len(),
                    size > 0,
            ;
            assert(0 <= i * size) by (nonlinear_arith)
                requires
                    0 <= i,
                    size > 0,
            ;
            assert(middle.fed(second).subrange(i * size, i * size + size) =~= fed.subrange(
                j * size,
                j * size + size,
            ));
            assert(r[j] == r2[i]);
        }
    }
    assert(start.engine_out_fifo@ + joined(made_by(r)) =~= (first_out + second_out)
        + end.engine_out_fifo@) by {
        assert(start.engine_out_fifo@ + (joined(m1) + joined(m2)) =~= (start.engine_out_fifo@
            + joined(m1)) + joined(m2));
        assert((first_out + middle.engine_out_fifo@) + joined(m2) =~= first_out + (
        middle.engine_out_fifo@ + joined(m2)));
        assert(first_out + (second_out + end.engine_out_fifo@) =~= (first_out + second_out)
            + end.engine_out_fifo@);
    }
    assert(end.engine_in_fifo@ =~= fed.skip(r.len() * size));
}

proof fn lemma_runs_give_whole_blocks(
    start: SlotResampler,
    end: SlotResampler,
    op: BlockOp,
    input: Seq<Single>,
    output: Seq<Single>,
    runs: Seq<Run>,
)
    requires
        start.wf(),
        start.processed(&end, op, input, output, runs),
    ensures
        forall|j: int|
            0 <= j < made_by(runs).len() ==> (#[trigger] made_by(runs)[j]).len()
                == start.engine_block,
{
    let size = start.engine_block as int;
    assert forall|j: int| 0 <= j < made_by(runs).len() implies (#[trigger] made_by(
        runs,
    )[j]).len() == size by {
        assert(is_block_run(runs[j], op, start.fed(input).subrange(j * size, j * size + size)));
        assert(j * size + size <= runs.len() * size) by (nonlinear_arith)
            requires
                j + 1 <= runs.len(),
                size > 0,
        ;
        assert(0 <= j * size) by (nonlinear_arith)
            requires
                0 <= j,
                size > 0,
        ;
    }
}

/// Calls one after the other: each takes in one piece of a stream and gives back one.
pub open spec fn streamed(
    queues: Seq<SlotResampler>,
    op: BlockOp,
    pieces: Seq<Seq<Single>>,
    outputs: Seq<Seq<Single>>,
    runs: Seq<Seq<Run>>,
) -> bool {
    &&& queues.len() == pieces.len() + 1
    &&& outputs.len() == pieces.len()
    &&& runs.len() == pieces.len()
    &&& forall|i: int|
        0 <= i < pieces.len() ==> queues[i].processed(
            &queues[i + 1],
            op,
            #[trigger] pieces[i],
            outputs[i],
            runs[i],
        )
}

/// However a stream is cut into pieces, feeding them one after the other does what feeding the
/// whole of it at once does.
pub proof fn lemma_pieces_make_the_stream(
    queues: Seq<SlotResampler>,
    op: BlockOp,
    pieces: Seq<Seq<Single>>,
    outputs: Seq<Seq<Single>>,
    runs: Seq<Seq<Run>>,
)
    requires
        streamed(queues, op, pieces, outputs, runs),
        queues[0].wf(),
    ensures
        queues[0].processed(
            &queues.last(),
            op,
            joined(pieces),
            joined(outputs),
            dsp::in_turn(runs),
        ),
    decreases pieces.len(),
{
    let start = queues[0];
    if pieces.len() == 0 {
        let size = start.engine_block as int;
        assert(start.fed(joined(pieces)) =~= start.engine_in_fifo@);
        assert(made_by(dsp::in_turn(runs)) =~= Seq::empty());
        assert(start.engine_out_fifo@ + joined(made_by(dsp::in_turn(runs)))
            =~= start.engine_out_fifo@);
        assert(joined(outputs) + start.engine_out_fifo@ =~= start.engine_out_fifo@);
        assert(start.fed(joined(pieces)).skip(0) =~= start.engine_in_fifo@);
        assert(0 * size == 0);
    } else {
        let n = pieces.len() - 1;
        let (front, last) = (pieces.drop_last(), pieces.last());
        assert(streamed(
            queues.drop_last(),
            op,
            front,
            outputs.drop_last(),
            runs.drop_last(),
        )) by {
            assert forall|i: int| 0 <= i < front.len() implies queues.drop_last()[i].processed(
                &queues.drop_last()[i + 1],
                op,
                #[trigger] front[i],
                outputs.drop_last()[i],
                runs.drop_last()[i],
            ) by {
                assert(front[i] == pieces[i]);
            }
        }
        lemma_pieces_make_the_stream(
            queues.drop_last(),
            op,
            front,
            outputs.drop_last(),
            runs.drop_last(),
        );
        assert(queues[n].processed(&queues[n + 1], op, pieces[n], outputs[n], runs[n]));
        lemma_slicing_does_not_matter(
            start,
            queues[n],
            queues[n + 1],
            op,
            joined(front),
            joined(outputs.drop_last()),
            dsp::in_turn(runs.drop_last()),
            last,
            outputs[n],
            runs[n],
        );
    }
}

/// However a stream is cut into pieces, what comes out is the same: two cuttings of one stream,
/// fed to queues in the same state, ask the model for the same internal blocks in the same order.
/// A model that starts from the same state then answers the same, whatever state it keeps between
/// its blocks, and the outputs, the queues and the model's state end up the same.
pub proof fn lemma_output_does_not_depend_on_the_cutting<S, B, C>(
    block: B,
    conv: C,
    queues: Seq<SlotResampler>,
    pieces: Seq<Seq<Single>>,
    outputs: Seq<Seq<Single>>,
    runs: Seq<Seq<Run>>,
    states: Seq<S>,
    other_queues: Seq<SlotResampler>,
    other_pieces: Seq<Seq<Single>>,
    other_outputs: Seq<Seq<Single>>,
    other_runs: Seq<Seq<Run>>,
    other_states: Seq<S>,
    op: BlockOp,
) where
    B: Fn(BlockOp, Vec<Single>, S) -> (Vec<Single>, S),
    C: Fn(Convolve, Vec<Single>, S) -> (Vec<Single>, Vec<Single>, S),

    requires
        dsp::repeatable::<S, B, C>(block, conv),
        streamed(queues, op, pieces, outputs, runs),
        streamed(other_queues, op, other_pieces, other_outputs, other_runs),
        joined(pieces) == joined(other_pieces),
        queues[0].wf(),
        other_queues[0].wf(),
        queues[0].same_sizes(&other_queues[0]),
        queues[0].engine_in_fifo@ == other_queues[0].engine_in_fifo@,
        queues[0].engine_out_fifo@ == other_queues[0].engine_out_fifo@,
        dsp::led_in_turn(block, conv, states, dsp::in_turn(runs)),
        dsp::led_in_turn(block, conv, other_states, dsp::in_turn(other_runs)),
        states[0] == other_states[0],
    ensures
        joined(outputs) == joined(other_outputs),
        dsp::in_turn(runs) == dsp::in_turn(other_runs),
        states.last() == other_states.last(),
        queues.last().engine_in_fifo@ == other_queues.last().engine_in_fifo@,
        queues.last().engine_out_fifo@ == other_queues.last().engine_out_fifo@,
{
    let stream = joined(pieces);
    let (start, other) = (queues[0], other_queues[0]);
    let (all, other_all) = (dsp::in_turn(runs), dsp::in_turn(other_runs));
    let size = start.engine_block as int;
    lemma_pieces_make_the_stream(queues, op, pieces, outputs, runs);
    lemma_pieces_make_the_stream(other_queues, op, other_pieces, other_outputs, other_runs);
    assert(start.fed(stream) == other.fed(stream));
    assert forall|i: int| 0 <= i < all.len() implies (#[trigger] all[i]).same_question(
        other_all[i],
    ) by {
        let part = start.fed(stream).subrange(i * size, i * size + size);
        assert(is_block_run(all[i], op, part));
        assert(is_block_run(other_all[i], op, part));
    }
    dsp::lemma_same_questions_same_answers(
        block,
        conv,
        states,
        all,
        other_states,
        other_all,
    );
    let n = stream.len() as int;
    let (end, other_end) = (queues.last(), other_queues.last());
    let whole = joined(outputs) + end.engine_out_fifo@;
    let other_whole = joined(other_outputs) + other_end.engine_out_fifo@;
    assert(whole == other_whole);
    assert(joined(outputs) =~= whole.take(n));
    assert(joined(other_outputs) =~= other_whole.take(n));
    assert(end.engine_out_fifo@ =~= whole.skip(n));
    assert(other_end.engine_out_fifo@ =~= other_whole.skip(n));
}

/// From a primed start the output is one internal block of silence and then what the model gave,
/// in order: the queues add a delay of exactly one block, and no sample is ever made up.
pub proof fn lemma_primed_output_is_one_block_late(
    start: SlotResampler,
    end: SlotResampler,
    op: BlockOp,
    input: Seq<Single>,
    output: Seq<Single>,
    runs: Seq<Run>,
)
    requires
        start.primed(),
        start.processed(&end, op, input, output, runs),
    ensures
        forall|i: int|
            0 <= i < output.len() ==> #[trigger] output[i] == (if i < start.engine_block {
                Single::zero()
            } else {
                joined(made_by(runs))[i - start.engine_block]
            }),
{
    let size = start.engine_block as int;
    let given = joined(made_by(runs));
    assert forall|i: int| 0 <= i < output.len() implies #[trigger] output[i] == (if i < size {
        Single::zero()
    } else {
        given[i - size]
    }) by {
        let whole = output + end.engine_out_fifo@;
        let made = start.engine_out_fifo@ + given;
        assert(made == whole && made.len() == whole.len());
        assert(whole[i] == output[i] && made[i] == whole[i]);
    }
}

/// The delay of the round trip is that of the block by which the output is primed, of half a block
/// on the way back and of about half a block on the way in: exactly two blocks where both internal
/// blocks are even.
pub proof fn lemma_the_round_trip_takes_two_blocks(engine_hz: int, model_hz: int)
    requires
        engine_hz > 0,
        model_hz > 0,
    ensures
        ({
            let eb = engine_block_frames(engine_hz, model_hz);
            let mb = model_block_frames(engine_hz, model_hz);
            let delay = round_trip_latency(engine_hz, model_hz);
            &&& eb + eb / 2 <= delay <= 2 * eb + eb / 2
            &&& eb % 2 == 0 && mb % 2 == 0 ==> delay == 2 * eb
        }),
{
    lemma_first_delay_bound(engine_hz, model_hz);
    lemma_internal_blocks_span_the_same_time(engine_hz, model_hz);
    let eb = engine_block_frames(engine_hz, model_hz);
    let mb = model_block_frames(engine_hz, model_hz);
    if eb % 2 == 0 && mb % 2 == 0 {
        let n = (mb / 2) * engine_hz;
        let h = eb / 2;
        assert(n == h * model_hz) by (nonlinear_arith)
            requires
                n == (mb / 2) * engine_hz,
                eb * model_hz == mb * engine_hz,
                eb == 2 * h,
                mb == 2 * (mb / 2),
        ;
        assert((2 * n + model_hz) / (2 * model_hz) == h) by (nonlinear_arith)
            requires
                n == h * model_hz,
                model_hz > 0,
        ;
    }
}

} // verus!
